//! The data model: roster entries, ledger records and their one-line encoding,
//! admission outcomes, and the error taxonomy.

use vstd::prelude::*;

use crate::text::{comma_free, lemma_first_comma_none, lemma_split_at_comma,
    split_commas};

verus! {

/// How an accepted check-in was admitted: through the roster, or through the
/// bypass marker.
#[derive(Clone, Copy, Debug, PartialEq, Eq, Structural)]
pub enum AdmissionType {
    Normal,
    Bypass,
}

/// One durable record of a successful check-in.
#[derive(Clone, Debug)]
pub struct LedgerRecord {
    pub id: String,
    pub name: String,
    pub admission: AdmissionType,
}

/// Mathematical image of a ledger record.
pub ghost struct RecordModel {
    pub id: Seq<char>,
    pub name: Seq<char>,
    pub admission: AdmissionType,
}

impl View for LedgerRecord {
    type V = RecordModel;

    open spec fn view(&self) -> RecordModel {
        RecordModel { id: self.id@, name: self.name@, admission: self.admission }
    }
}

impl DeepView for LedgerRecord {
    type V = RecordModel;

    open spec fn deep_view(&self) -> RecordModel {
        self.view()
    }
}

/// A record whose fields can survive the comma-separated line format.
pub open spec fn record_wf(r: RecordModel) -> bool {
    comma_free(r.id) && comma_free(r.name)
}

/// Why a roster could not be loaded: the source was unreadable, or a data row
/// had fewer than two fields.
#[derive(Clone, Copy, Debug, PartialEq, Eq, Structural)]
pub enum LoadError {
    Io,
    Malformed,
}

/// Why the ledger store failed: the backing stream could not be read or
/// written.
#[derive(Clone, Copy, Debug, PartialEq, Eq, Structural)]
pub enum StoreError {
    Io,
}

/// The decision reached for one input token.
#[derive(Debug)]
pub enum AdmissionOutcome {
    Accepted { record: LedgerRecord, total_after: usize },
    DuplicateRejected { id: String, name: String, total_so_far: usize },
    InvalidRejected { id: String, total_so_far: usize },
    EmptyInput,
}

/// Mathematical image of an admission outcome.
pub ghost enum OutcomeModel {
    Accepted { record: RecordModel, total_after: int },
    DuplicateRejected { id: Seq<char>, name: Seq<char>, total_so_far: int },
    InvalidRejected { id: Seq<char>, total_so_far: int },
    EmptyInput,
}

impl View for AdmissionOutcome {
    type V = OutcomeModel;

    open spec fn view(&self) -> OutcomeModel {
        match self {
            AdmissionOutcome::Accepted { record, total_after } => OutcomeModel::Accepted {
                record: record@,
                total_after: *total_after as int,
            },
            AdmissionOutcome::DuplicateRejected {
                id,
                name,
                total_so_far,
            } => OutcomeModel::DuplicateRejected {
                id: id@,
                name: name@,
                total_so_far: *total_so_far as int,
            },
            AdmissionOutcome::InvalidRejected { id, total_so_far } => OutcomeModel::InvalidRejected {
                id: id@,
                total_so_far: *total_so_far as int,
            },
            AdmissionOutcome::EmptyInput => OutcomeModel::EmptyInput,
        }
    }
}

/// The on-disk tag of an admission type.
pub open spec fn spec_tag(t: AdmissionType) -> Seq<char> {
    match t {
        AdmissionType::Normal => "normal"@,
        AdmissionType::Bypass => "special"@,
    }
}

fn tag_str(t: AdmissionType) -> (r: &'static str)
    ensures
        r@ == spec_tag(t),
{
    match t {
        AdmissionType::Normal => "normal",
        AdmissionType::Bypass => "special",
    }
}

/// The one-line form of a record: its fields joined by commas.
pub open spec fn encode_record(r: RecordModel) -> Seq<char> {
    r.id + seq![','] + r.name + seq![','] + spec_tag(r.admission)
}

/// The record read back from one line: its three fields, with a recognized
/// admission tag; `None` for the header or any other line.
pub open spec fn decode_line(line: Seq<char>) -> Option<RecordModel> {
    let f = split_commas(line);
    if f.len() == 3 {
        if f[2] == spec_tag(AdmissionType::Normal) {
            Some(RecordModel { id: f[0], name: f[1], admission: AdmissionType::Normal })
        } else if f[2] == spec_tag(AdmissionType::Bypass) {
            Some(RecordModel { id: f[0], name: f[1], admission: AdmissionType::Bypass })
        } else {
            None
        }
    } else {
        None
    }
}

proof fn lemma_tags_comma_free()
    ensures
        comma_free(spec_tag(AdmissionType::Normal)),
        comma_free(spec_tag(AdmissionType::Bypass)),
        spec_tag(AdmissionType::Normal) != spec_tag(AdmissionType::Bypass),
{
    reveal_strlit("normal");
    reveal_strlit("special");
    assert(spec_tag(AdmissionType::Normal) =~= seq!['n', 'o', 'r', 'm', 'a', 'l']);
    assert(spec_tag(AdmissionType::Bypass) =~= seq!['s', 'p', 'e', 'c', 'i', 'a', 'l']);
}

/// The fields of an encoded well-formed record are the record's fields.
pub proof fn lemma_split_of_encoded(r: RecordModel)
    requires
        record_wf(r),
    ensures
        split_commas(encode_record(r)) =~= seq![r.id, r.name, spec_tag(r.admission)],
{
    let line = encode_record(r);
    let j1 = r.id.len() as int;
    assert(line[j1] == ',');
    assert(forall|k: int| 0 <= k < j1 ==> line[k] == r.id[k]);
    lemma_split_at_comma(line, j1);
    assert(line.take(j1) =~= r.id);
    let rest = line.skip(j1 + 1);
    assert(rest =~= r.name + seq![','] + spec_tag(r.admission));
    let j2 = r.name.len() as int;
    assert(rest[j2] == ',');
    assert(forall|k: int| 0 <= k < j2 ==> rest[k] == r.name[k]);
    lemma_split_at_comma(rest, j2);
    assert(rest.take(j2) =~= r.name);
    let tail = rest.skip(j2 + 1);
    assert(tail =~= spec_tag(r.admission));
    lemma_tags_comma_free();
    lemma_first_comma_none(tail);
}

/// The first field of an encoded record is the record's id, whatever the
/// other fields hold.
pub proof fn lemma_first_field_of_encoded(r: RecordModel)
    requires
        comma_free(r.id),
    ensures
        crate::text::first_field(encode_record(r)) == r.id,
{
    let line = encode_record(r);
    let j1 = r.id.len() as int;
    assert(line[j1] == ',');
    assert(forall|k: int| 0 <= k < j1 ==> line[k] == r.id[k]);
    lemma_split_at_comma(line, j1);
    assert(line.take(j1) =~= r.id);
}

/// Round trip: a well-formed record read back from its own encoding is itself.
pub proof fn lemma_record_round_trip(r: RecordModel)
    requires
        record_wf(r),
    ensures
        decode_line(encode_record(r)) == Some(r),
{
    lemma_split_of_encoded(r);
    lemma_tags_comma_free();
}

/// Builds the one-line form of a record.
pub fn encode_line(rec: &LedgerRecord) -> (line: String)
    ensures
        line@ == encode_record(rec@),
{
    let mut line = rec.id.clone();
    line.append(",");
    line.append(rec.name.as_str());
    line.append(",");
    line.append(tag_str(rec.admission));
    proof {
        reveal_strlit(",");
        assert(","@ =~= seq![',']);
        assert(line@ =~= encode_record(rec@));
    }
    line
}

/// Reads one line back as a record, or `None` where the line is not the
/// encoding of any record.
pub fn parse_record(line: &str) -> (r: Option<LedgerRecord>)
    ensures
        match r {
            Some(rec) => decode_line(line@) == Some(rec@),
            None => decode_line(line@) is None,
        },
{
    let fields = crate::text::split_fields(line);
    proof {
        assert(fields.deep_view().len() == fields@.len());
    }
    if fields.len() != 3 {
        return None;
    }
    proof {
        assert(fields.deep_view()[0] == fields@[0]@);
        assert(fields.deep_view()[1] == fields@[1]@);
        assert(fields.deep_view()[2] == fields@[2]@);
    }
    let admission: AdmissionType;
    if crate::text::str_eq(fields[2].as_str(), "normal") {
        admission = AdmissionType::Normal;
    } else if crate::text::str_eq(fields[2].as_str(), "special") {
        admission = AdmissionType::Bypass;
    } else {
        return None;
    }
    let rec = LedgerRecord {
        id: fields[0].clone(),
        name: fields[1].clone(),
        admission,
    };
    Some(rec)
}

} // verus!
