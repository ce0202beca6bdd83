//! The admission controller: normalizes one raw token, classifies it against
//! the bypass marker and the roster, consults the ledger for duplication, and
//! on success appends the new record before the outcome is handed back.

use vstd::prelude::*;

use crate::ledger::{ledger_count, ledger_has, line_key, Ledger};
use crate::records::{decode_line, encode_record, lemma_first_field_of_encoded,
    lemma_record_round_trip, record_wf, AdmissionOutcome, AdmissionType, LedgerRecord,
    OutcomeModel, RecordModel};
use crate::roster::{roster_find, EntryModel, Roster};
use crate::text::{comma_free, lemma_norm_idempotent, lemma_norm_of_upper, norm_token,
    normalize_token, upper};

verus! {

/// Whether a normalized token carries the bypass marker as a prefix.
pub open spec fn has_marker(t: Seq<char>, m: Seq<char>) -> bool {
    t.len() >= m.len() && t.take(m.len() as int) == m
}

/// The bare id left when the marker is stripped from the token.
pub open spec fn bare_id(t: Seq<char>, m: Seq<char>) -> Seq<char> {
    t.skip(m.len() as int)
}

/// What evaluating one raw token decides and leaves behind: the outcome, and
/// the ledger stream's lines after the call.
///
/// The token is trimmed and upper-cased; an empty result is turned away. A
/// token carrying the marker is admitted under its bare id with an empty
/// display name, even when absent from the roster; any other token must match
/// a roster entry, case-normalized, or it is rejected as invalid. An id whose
/// key already stands in a data row of the stream is rejected as a duplicate;
/// otherwise its record's line is appended and the outcome reports the total
/// after the append.
pub open spec fn spec_evaluate(
    entries: Seq<EntryModel>,
    marker: Seq<char>,
    lines: Seq<Seq<char>>,
    raw: Seq<char>,
) -> (OutcomeModel, Seq<Seq<char>>) {
    let t = norm_token(raw);
    if t.len() == 0 {
        (OutcomeModel::EmptyInput, lines)
    } else if has_marker(t, marker) {
        let b = bare_id(t, marker);
        if ledger_has(lines, norm_token(b)) {
            (
                OutcomeModel::DuplicateRejected {
                    id: b,
                    name: Seq::empty(),
                    total_so_far: ledger_count(lines),
                },
                lines,
            )
        } else {
            let r = RecordModel { id: b, name: Seq::empty(), admission: AdmissionType::Bypass };
            let grown = lines.push(encode_record(r));
            (OutcomeModel::Accepted { record: r, total_after: ledger_count(grown) }, grown)
        }
    } else {
        match roster_find(entries, t) {
            Option::None => (
                OutcomeModel::InvalidRejected { id: t, total_so_far: ledger_count(lines) },
                lines,
            ),
            Option::Some(e) => {
                if ledger_has(lines, norm_token(e.id)) {
                    (
                        OutcomeModel::DuplicateRejected {
                            id: e.id,
                            name: e.name,
                            total_so_far: ledger_count(lines),
                        },
                        lines,
                    )
                } else {
                    let r = RecordModel {
                        id: e.id,
                        name: e.name,
                        admission: AdmissionType::Normal,
                    };
                    let grown = lines.push(encode_record(r));
                    (OutcomeModel::Accepted { record: r, total_after: ledger_count(grown) }, grown)
                }
            },
        }
    }
}

/// The admission controller: an immutable roster, and the fixed input prefix
/// that grants bypass admission.
pub struct AdmissionController {
    pub roster: Roster,
    pub marker: String,
}

impl AdmissionController {
    pub open spec fn wf(&self) -> bool {
        self.roster.wf()
    }

    pub fn new(roster: Roster, marker: String) -> (c: AdmissionController)
        requires
            roster.wf(),
        ensures
            c.wf(),
            c.roster@ == roster@,
            c.marker@ == marker@,
    {
        AdmissionController { roster, marker }
    }

    /// Evaluates one raw input token, appending to the ledger snapshot on
    /// success, exactly as `spec_evaluate` describes.
    pub fn evaluate(&self, ledger: &mut Ledger, raw: &str) -> (out: AdmissionOutcome)
        requires
            self.wf(),
        ensures
            (out@, final(ledger)@) == spec_evaluate(self.roster@, self.marker@, old(ledger)@, raw@),
    {
        let token = normalize_token(raw);
        let ghost t = norm_token(raw@);
        proof {
            lemma_norm_idempotent(raw@);
        }
        let tlen = token.as_str().unicode_len();
        if tlen == 0 {
            return AdmissionOutcome::EmptyInput;
        }
        let mlen = self.marker.as_str().unicode_len();
        if tlen >= mlen && prefix_matches(token.as_str(), self.marker.as_str()) {
            let bare = token.as_str().substring_char(mlen, tlen);
            proof {
                assert(bare@ =~= bare_id(t, self.marker@));
            }
            if ledger.contains(bare) {
                let total = ledger.count();
                let out = AdmissionOutcome::DuplicateRejected {
                    id: String::from_str(bare),
                    name: String::new(),
                    total_so_far: total,
                };
                proof {
                    assert(out@->DuplicateRejected_name =~= Seq::<char>::empty());
                }
                return out;
            }
            let rec = LedgerRecord {
                id: String::from_str(bare),
                name: String::new(),
                admission: AdmissionType::Bypass,
            };
            proof {
                assert(rec@.name =~= Seq::<char>::empty());
            }
            let _ = ledger.append(&rec);
            let total = ledger.count();
            return AdmissionOutcome::Accepted { record: rec, total_after: total };
        }
        match self.roster.find(token.as_str()) {
            Option::None => {
                let total = ledger.count();
                AdmissionOutcome::InvalidRejected { id: token, total_so_far: total }
            },
            Option::Some(entry) => {
                if ledger.contains(entry.id.as_str()) {
                    let total = ledger.count();
                    AdmissionOutcome::DuplicateRejected {
                        id: entry.id.clone(),
                        name: entry.name.clone(),
                        total_so_far: total,
                    }
                } else {
                    let rec = LedgerRecord {
                        id: entry.id.clone(),
                        name: entry.name.clone(),
                        admission: AdmissionType::Normal,
                    };
                    let _ = ledger.append(&rec);
                    let total = ledger.count();
                    AdmissionOutcome::Accepted { record: rec, total_after: total }
                }
            },
        }
    }
}

/// What an accepted outcome guarantees: the stream had no data row under the
/// record's key, it grew by exactly that record's line, the reported total
/// counts it, and a bypass record carries an empty display name.
pub proof fn lemma_accept_shape(
    entries: Seq<EntryModel>,
    marker: Seq<char>,
    lines: Seq<Seq<char>>,
    raw: Seq<char>,
    rec: RecordModel,
    total: int,
)
    requires
        spec_evaluate(entries, marker, lines, raw).0 == (OutcomeModel::Accepted {
            record: rec,
            total_after: total,
        }),
    ensures
        !ledger_has(lines, norm_token(rec.id)),
        spec_evaluate(entries, marker, lines, raw).1 == lines.push(encode_record(rec)),
        total == ledger_count(lines.push(encode_record(rec))),
        total == ledger_count(lines) + if lines.len() == 0 { 0int } else { 1int },
        rec.admission == AdmissionType::Bypass ==> rec.name.len() == 0,
{
    let t = norm_token(raw);
    if !has_marker(t, marker) {
        crate::roster::lemma_roster_find_matches(entries, t);
    }
}

/// Only an acceptance writes: every other outcome leaves the stream unchanged.
pub proof fn lemma_rejection_unchanged(
    entries: Seq<EntryModel>,
    marker: Seq<char>,
    lines: Seq<Seq<char>>,
    raw: Seq<char>,
)
    ensures
        !(spec_evaluate(entries, marker, lines, raw).0 matches OutcomeModel::Accepted { .. })
            ==> spec_evaluate(entries, marker, lines, raw).1 == lines,
{
}

/// Idempotence: after an accepted check-in on an initialized stream, a second
/// token with the same normal form is rejected as a duplicate and leaves the
/// stream unchanged.
pub proof fn lemma_accept_then_duplicate(
    entries: Seq<EntryModel>,
    marker: Seq<char>,
    lines: Seq<Seq<char>>,
    raw1: Seq<char>,
    raw2: Seq<char>,
    rec: RecordModel,
    total: int,
)
    requires
        lines.len() >= 1,
        spec_evaluate(entries, marker, lines, raw1).0 == (OutcomeModel::Accepted {
            record: rec,
            total_after: total,
        }),
        comma_free(rec.id),
        norm_token(raw2) == norm_token(raw1),
    ensures
        spec_evaluate(entries, marker, lines, raw1).1 == lines.push(encode_record(rec)),
        spec_evaluate(entries, marker, lines.push(encode_record(rec)), raw2).0
            matches OutcomeModel::DuplicateRejected { .. },
        spec_evaluate(entries, marker, lines.push(encode_record(rec)), raw2).1 == lines.push(
            encode_record(rec),
        ),
{
    let t = norm_token(raw1);
    let grown = lines.push(encode_record(rec));
    lemma_accept_shape(entries, marker, lines, raw1, rec, total);
    lemma_first_field_of_encoded(rec);
    assert(line_key(grown[lines.len() as int]) == norm_token(rec.id));
    assert(ledger_has(grown, norm_token(rec.id)));
    if !has_marker(t, marker) {
        crate::roster::lemma_roster_find_matches(entries, t);
    }
}

/// Case invariance: two raw tokens with the same normal form are evaluated
/// alike, whatever roster, marker and stream they meet.
pub proof fn lemma_evaluate_case_invariant(
    entries: Seq<EntryModel>,
    marker: Seq<char>,
    lines: Seq<Seq<char>>,
    raw1: Seq<char>,
    raw2: Seq<char>,
)
    requires
        norm_token(raw1) == norm_token(raw2),
    ensures
        spec_evaluate(entries, marker, lines, raw1) == spec_evaluate(entries, marker, lines, raw2),
{
}

/// In particular, a raw token and its upper-cased form resolve alike.
pub proof fn lemma_evaluate_upper_invariant(
    entries: Seq<EntryModel>,
    marker: Seq<char>,
    lines: Seq<Seq<char>>,
    raw: Seq<char>,
)
    ensures
        spec_evaluate(entries, marker, lines, upper(raw)) == spec_evaluate(
            entries,
            marker,
            lines,
            raw,
        ),
{
    lemma_norm_of_upper(raw);
}

/// Crash recovery: an accepted record is durable in the stream evaluate left
/// behind. A fresh re-scan of those lines — with no in-memory state carried
/// over — finds its id, counts one more data row, and keeps every key the
/// stream already held.
pub proof fn lemma_accept_recoverable(
    entries: Seq<EntryModel>,
    marker: Seq<char>,
    lines: Seq<Seq<char>>,
    raw: Seq<char>,
    rec: RecordModel,
    total: int,
)
    requires
        lines.len() >= 1,
        spec_evaluate(entries, marker, lines, raw).0 == (OutcomeModel::Accepted {
            record: rec,
            total_after: total,
        }),
        comma_free(rec.id),
    ensures
        ledger_has(spec_evaluate(entries, marker, lines, raw).1, norm_token(rec.id)),
        ledger_count(spec_evaluate(entries, marker, lines, raw).1) == ledger_count(lines) + 1,
        total == ledger_count(lines) + 1,
        forall|key: Seq<char>|
            ledger_has(lines, key) ==> ledger_has(
                spec_evaluate(entries, marker, lines, raw).1,
                key,
            ),
{
    lemma_accept_shape(entries, marker, lines, raw, rec, total);
    crate::ledger::lemma_append_recoverable(lines, rec);
}

/// Round trip: a well-formed accepted record, read back from the stream
/// evaluate left behind, appears in exactly one data row — the last line
/// decodes to the record itself, and no other data row decodes to it.
pub proof fn lemma_accept_round_trip(
    entries: Seq<EntryModel>,
    marker: Seq<char>,
    lines: Seq<Seq<char>>,
    raw: Seq<char>,
    rec: RecordModel,
    total: int,
)
    requires
        lines.len() >= 1,
        spec_evaluate(entries, marker, lines, raw).0 == (OutcomeModel::Accepted {
            record: rec,
            total_after: total,
        }),
        record_wf(rec),
    ensures
        spec_evaluate(entries, marker, lines, raw).1 == lines.push(encode_record(rec)),
        decode_line(lines.push(encode_record(rec)).last()) == Some(rec),
        forall|i: int|
            1 <= i < lines.len() ==> decode_line(
                #[trigger] lines.push(encode_record(rec))[i],
            ) != Some(rec),
{
    lemma_accept_shape(entries, marker, lines, raw, rec, total);
    lemma_record_round_trip(rec);
    let grown = lines.push(encode_record(rec));
    assert forall|i: int| 1 <= i < lines.len() implies decode_line(#[trigger] grown[i]) != Some(
        rec,
    ) by {
        if decode_line(grown[i]) == Some(rec) {
            assert(crate::text::first_field(grown[i]) == rec.id);
            assert(line_key(lines[i]) == norm_token(rec.id));
            assert(ledger_has(lines, norm_token(rec.id)));
        }
    }
}

/// Whether `m` is a prefix of `t`, character by character.
fn prefix_matches(t: &str, m: &str) -> (b: bool)
    requires
        t@.len() >= m@.len(),
    ensures
        b == has_marker(t@, m@),
{
    let mlen = m.unicode_len();
    let mut i: usize = 0;
    while i < mlen
        invariant
            mlen == m@.len(),
            t@.len() >= mlen,
            i <= mlen,
            forall|k: int| 0 <= k < i ==> t@[k] == m@[k],
        decreases mlen - i,
    {
        if t.get_char(i) != m.get_char(i) {
            assert(t@.take(mlen as int) != m@);
            return false;
        }
        i += 1;
    }
    proof {
        assert(t@.take(mlen as int) =~= m@);
    }
    true
}

} // verus!
