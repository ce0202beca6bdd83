//! The ledger store: a snapshot of the durable, append-only record stream of
//! accepted check-ins. Membership and the running total are computed by
//! re-scanning the lines, never from a cached counter, so they stay right for
//! a stream recovered after a crash or edited from outside; the caller is
//! expected to take a fresh snapshot of the stream before each query round.

use vstd::prelude::*;

use crate::records::{encode_line, encode_record, lemma_first_field_of_encoded, LedgerRecord,
    RecordModel};
use crate::text::{comma_free, first_field, norm_token, normalize_token, split_fields, str_eq};

verus! {

/// The header row of a ledger stream.
pub open spec fn header() -> Seq<char> {
    "id,name,accessType"@
}

/// The key a ledger line is matched under: its first field, normalized.
pub open spec fn line_key(line: Seq<char>) -> Seq<char> {
    norm_token(first_field(line))
}

/// Whether some data row of the stream carries `key` (`key` itself already
/// normalized). The first line is the header and never counts.
pub open spec fn ledger_has(lines: Seq<Seq<char>>, key: Seq<char>) -> bool {
    exists|i: int| 1 <= i < lines.len() && line_key(#[trigger] lines[i]) == key
}

/// The number of data rows: every line after the header.
pub open spec fn ledger_count(lines: Seq<Seq<char>>) -> int {
    if lines.len() == 0 {
        0
    } else {
        lines.len() - 1
    }
}

/// The stream after the startup check: an empty stream gets the header;
/// anything else is left untouched.
pub open spec fn init_lines(lines: Seq<Seq<char>>) -> Seq<Seq<char>> {
    if lines.len() == 0 {
        seq![header()]
    } else {
        lines
    }
}

/// A snapshot of the ledger stream's lines. The caller reads them from the
/// durable stream, and writes back exactly what `ensure_initialized` and
/// `append` add, so that the snapshot and the stream agree.
pub struct Ledger {
    pub lines: Vec<String>,
}

impl View for Ledger {
    type V = Seq<Seq<char>>;

    open spec fn view(&self) -> Seq<Seq<char>> {
        self.lines.deep_view()
    }
}

impl Ledger {
    /// Wraps a snapshot of the stream's lines.
    pub fn new(lines: Vec<String>) -> (l: Ledger)
        ensures
            l@ == lines.deep_view(),
    {
        Ledger { lines }
    }

    /// The startup check-and-repair: gives an empty stream its header row and
    /// reports that it did; a non-empty stream is left untouched.
    pub fn ensure_initialized(&mut self) -> (added: bool)
        ensures
            final(self)@ == init_lines(old(self)@),
            added == (old(self)@.len() == 0),
    {
        if self.lines.len() == 0 {
            self.lines.push(String::from_str("id,name,accessType"));
            proof {
                assert(self@ =~= seq![header()]);
            }
            true
        } else {
            false
        }
    }

    /// Whether a record for this id has already been accepted, decided by
    /// re-scanning every data row and comparing first fields case-normalized.
    pub fn contains(&self, id: &str) -> (b: bool)
        ensures
            b == ledger_has(self@, norm_token(id@)),
    {
        let key = normalize_token(id);
        let mut i: usize = 1;
        while i < self.lines.len()
            invariant
                key@ == norm_token(id@),
                1 <= i,
                i <= self.lines.len() || i == 1,
                forall|k: int| 1 <= k < i ==> line_key(#[trigger] self@[k]) != key@,
            decreases self.lines.len() - i,
        {
            let fields = split_fields(self.lines[i].as_str());
            proof {
                assert(self@[i as int] == self.lines@[i as int]@);
                assert(fields.deep_view()[0] == fields@[0]@);
            }
            let nk = normalize_token(fields[0].as_str());
            if str_eq(nk.as_str(), key.as_str()) {
                proof {
                    assert(line_key(self@[i as int]) == key@);
                }
                return true;
            }
            i += 1;
        }
        false
    }

    /// The running total of accepted check-ins, re-counted from the stream.
    pub fn count(&self) -> (n: usize)
        ensures
            n as int == ledger_count(self@),
    {
        if self.lines.len() == 0 {
            0
        } else {
            self.lines.len() - 1
        }
    }

    /// Adds one record's line to the snapshot and hands it back, so the
    /// caller can write that exact line durably to the stream. The store does
    /// not check for duplicates: that is the admission controller's duty.
    pub fn append(&mut self, rec: &LedgerRecord) -> (line: String)
        ensures
            final(self)@ == old(self)@.push(encode_record(rec@)),
            line@ == encode_record(rec@),
    {
        let line = encode_line(rec);
        self.lines.push(line.clone());
        proof {
            assert(self.lines.deep_view() =~= old(self).lines.deep_view().push(
                encode_record(rec@),
            ));
        }
        line
    }
}

/// The startup check adds the header exactly once: running it on an already
/// checked stream changes nothing, and it never duplicates the header.
pub proof fn lemma_initialize_idempotent(lines: Seq<Seq<char>>)
    ensures
        init_lines(init_lines(lines)) == init_lines(lines),
        init_lines(lines).len() >= 1,
        lines.len() == 0 ==> init_lines(lines) == seq![header()],
        lines.len() > 0 ==> init_lines(lines) == lines,
{
}

/// Crash recovery: once a record's line stands in an initialized stream, any
/// fresh re-scan of those lines — with no in-memory state carried over —
/// finds its id, counts one more row, and still finds everything it held.
pub proof fn lemma_append_recoverable(lines: Seq<Seq<char>>, r: RecordModel)
    requires
        lines.len() >= 1,
        comma_free(r.id),
    ensures
        ledger_has(lines.push(encode_record(r)), norm_token(r.id)),
        ledger_count(lines.push(encode_record(r))) == ledger_count(lines) + 1,
        forall|key: Seq<char>|
            ledger_has(lines, key) ==> ledger_has(lines.push(encode_record(r)), key),
{
    let grown = lines.push(encode_record(r));
    lemma_first_field_of_encoded(r);
    assert(line_key(grown[lines.len() as int]) == norm_token(r.id));
    assert forall|key: Seq<char>| ledger_has(lines, key) implies ledger_has(grown, key) by {
        let i = choose|i: int| 1 <= i < lines.len() && line_key(#[trigger] lines[i]) == key;
        assert(line_key(grown[i]) == key);
    }
}

} // verus!
