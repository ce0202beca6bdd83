//! A check-in ledger: admission control over a roster of eligible ids and a
//! durable, append-only, deduplicated log of accepted check-ins.
//!
//! The library is the pure core: token normalization, the comma-separated
//! record format, roster lookup, ledger queries computed by re-scanning the
//! record stream, and the admission decision. Reading and writing the actual
//! files, prompting, and rendering outcomes are left to the caller.

pub mod admission;
pub mod ledger;
pub mod records;
pub mod roster;
pub mod text;
