//! The roster: the immutable list of ids eligible for normal admission,
//! loaded once from a record stream, with case-normalized lookups.

use vstd::prelude::*;

use crate::records::LoadError;
use crate::text::{norm_token, normalize_token, split_commas, split_fields, str_eq};

verus! {

/// One eligible (id, display name) pair.
#[derive(Clone, Debug)]
pub struct RosterEntry {
    pub id: String,
    pub name: String,
}

/// Mathematical image of a roster entry.
pub ghost struct EntryModel {
    pub id: Seq<char>,
    pub name: Seq<char>,
}

impl View for RosterEntry {
    type V = EntryModel;

    open spec fn view(&self) -> EntryModel {
        EntryModel { id: self.id@, name: self.name@ }
    }
}

impl DeepView for RosterEntry {
    type V = EntryModel;

    open spec fn deep_view(&self) -> EntryModel {
        self.view()
    }
}

/// The first entry whose normalized id is `key` (`key` itself already
/// normalized), or `None` when no entry matches.
pub open spec fn roster_find(entries: Seq<EntryModel>, key: Seq<char>) -> Option<EntryModel>
    decreases entries.len(),
{
    if entries.len() == 0 {
        None
    } else if norm_token(entries[0].id) == key {
        Some(entries[0])
    } else {
        roster_find(entries.drop_first(), key)
    }
}

/// Whether some entry's normalized id is `key`.
pub open spec fn roster_has(entries: Seq<EntryModel>, key: Seq<char>) -> bool {
    roster_find(entries, key) is Some
}

/// Whether a roster data row is well formed: at least two fields.
pub open spec fn row_ok(line: Seq<char>) -> bool {
    split_commas(line).len() >= 2
}

/// The entry held by one well-formed roster data row.
pub open spec fn entry_of_row(line: Seq<char>) -> EntryModel {
    EntryModel { id: split_commas(line)[0], name: split_commas(line)[1] }
}

/// The data rows of a record stream: everything after the header row.
pub open spec fn data_rows(lines: Seq<Seq<char>>) -> Seq<Seq<char>> {
    if lines.len() == 0 {
        lines
    } else {
        lines.drop_first()
    }
}

pub proof fn lemma_roster_find_at(entries: Seq<EntryModel>, key: Seq<char>, j: int)
    requires
        0 <= j < entries.len(),
        norm_token(entries[j].id) == key,
        forall|k: int| 0 <= k < j ==> norm_token(entries[k].id) != key,
    ensures
        roster_find(entries, key) == Some(entries[j]),
    decreases j,
{
    if j > 0 {
        let t = entries.drop_first();
        assert(forall|k: int| 0 <= k < j - 1 ==> t[k] == entries[k + 1]);
        lemma_roster_find_at(t, key, j - 1);
    }
}

pub proof fn lemma_roster_find_none(entries: Seq<EntryModel>, key: Seq<char>)
    requires
        forall|k: int| 0 <= k < entries.len() ==> norm_token(entries[k].id) != key,
    ensures
        roster_find(entries, key) is None,
    decreases entries.len(),
{
    if entries.len() > 0 {
        let t = entries.drop_first();
        assert(forall|k: int| 0 <= k < t.len() ==> t[k] == entries[k + 1]);
        lemma_roster_find_none(t, key);
    }
}

/// A found entry's normalized id is the key it was found under.
pub proof fn lemma_roster_find_matches(entries: Seq<EntryModel>, key: Seq<char>)
    ensures
        roster_find(entries, key) matches Some(e) ==> norm_token(e.id) == key,
    decreases entries.len(),
{
    if entries.len() > 0 && norm_token(entries[0].id) != key {
        lemma_roster_find_matches(entries.drop_first(), key);
    }
}

/// The authoritative list of eligible entries, in load order, together with
/// the derived collection of their normalized ids used for membership tests.
pub struct Roster {
    pub entries: Vec<RosterEntry>,
    pub norm_ids: Vec<String>,
}

impl View for Roster {
    type V = Seq<EntryModel>;

    open spec fn view(&self) -> Seq<EntryModel> {
        self.entries.deep_view()
    }
}

impl Roster {
    /// The derived ids mirror the entries, normalized, position by position.
    pub open spec fn wf(&self) -> bool {
        &&& self.norm_ids@.len() == self.entries@.len()
        &&& forall|i: int|
            0 <= i < self.entries@.len() ==> self.norm_ids@[i]@ == norm_token(
                #[trigger] self.entries@[i]@.id,
            )
    }

    /// Builds a roster directly from its entries.
    pub fn new(entries: Vec<RosterEntry>) -> (r: Roster)
        ensures
            r.wf(),
            r@ == entries.deep_view(),
    {
        let mut norm_ids: Vec<String> = Vec::new();
        let mut i: usize = 0;
        while i < entries.len()
            invariant
                i <= entries.len(),
                norm_ids@.len() == i,
                forall|k: int|
                    0 <= k < i ==> norm_ids@[k]@ == norm_token(#[trigger] entries@[k]@.id),
            decreases entries.len() - i,
        {
            norm_ids.push(normalize_token(entries[i].id.as_str()));
            i += 1;
        }
        Roster { entries, norm_ids }
    }

    /// Loads the roster from the lines of a record stream: the first line is
    /// a header and is skipped; every later line must have at least two
    /// fields, id then display name (further fields are ignored).
    pub fn load(lines: &Vec<String>) -> (r: Result<Roster, LoadError>)
        ensures
            match r {
                Ok(roster) => {
                    &&& roster.wf()
                    &&& forall|i: int|
                        0 <= i < data_rows(lines.deep_view()).len() ==> row_ok(
                            #[trigger] data_rows(lines.deep_view())[i],
                        )
                    &&& roster@ =~= data_rows(lines.deep_view()).map_values(
                        |l: Seq<char>| entry_of_row(l),
                    )
                },
                Err(e) => {
                    &&& e == LoadError::Malformed
                    &&& exists|i: int|
                        0 <= i < data_rows(lines.deep_view()).len() && !row_ok(
                            #[trigger] data_rows(lines.deep_view())[i],
                        )
                },
            },
    {
        let ghost rows = data_rows(lines.deep_view());
        let mut entries: Vec<RosterEntry> = Vec::new();
        let mut i: usize = 1;
        while i < lines.len()
            invariant
                1 <= i <= lines.len() || (lines.len() == 0 && i == 1),
                rows == data_rows(lines.deep_view()),
                lines.len() > 0 ==> rows.len() == lines.len() - 1,
                lines.len() > 0 ==> forall|k: int| 0 <= k < rows.len() ==> rows[k]
                    == lines.deep_view()[k + 1],
                forall|k: int| 0 <= k < i - 1 ==> row_ok(#[trigger] rows[k]),
                entries.deep_view() =~= rows.take(i - 1).map_values(|l: Seq<char>| entry_of_row(l)),
            decreases lines.len() - i,
        {
            let fields = split_fields(lines[i].as_str());
            proof {
                assert(lines.deep_view()[i as int] == lines@[i as int]@);
                assert(rows[i - 1] == lines@[i as int]@);
            }
            if fields.len() < 2 {
                proof {
                    assert(!row_ok(rows[i - 1]));
                }
                return Err(LoadError::Malformed);
            }
            proof {
                assert(fields.deep_view()[0] == fields@[0]@);
                assert(fields.deep_view()[1] == fields@[1]@);
            }
            let entry = RosterEntry { id: fields[0].clone(), name: fields[1].clone() };
            proof {
                assert(entry@ == entry_of_row(rows[i - 1]));
                assert(rows.take(i as int).drop_last() =~= rows.take(i - 1));
                assert(rows.take(i as int).map_values(|l: Seq<char>| entry_of_row(l))
                    =~= rows.take(i - 1).map_values(|l: Seq<char>| entry_of_row(l)).push(
                    entry_of_row(rows[i - 1]),
                ));
            }
            entries.push(entry);
            i += 1;
        }
        proof {
            assert(rows.take(rows.len() as int) =~= rows);
        }
        Ok(Roster::new(entries))
    }

    /// Whether some roster entry matches the id, compared case-normalized.
    pub fn contains(&self, id: &str) -> (b: bool)
        requires
            self.wf(),
        ensures
            b == roster_has(self@, norm_token(id@)),
    {
        self.find(id).is_some()
    }

    /// The first roster entry matching the id, compared case-normalized.
    pub fn find(&self, id: &str) -> (r: Option<&RosterEntry>)
        requires
            self.wf(),
        ensures
            match r {
                Some(e) => roster_find(self@, norm_token(id@)) == Some(e@),
                None => roster_find(self@, norm_token(id@)) is None,
            },
    {
        let key = normalize_token(id);
        let mut i: usize = 0;
        while i < self.norm_ids.len()
            invariant
                self.wf(),
                key@ == norm_token(id@),
                i <= self.norm_ids.len(),
                forall|k: int| 0 <= k < i ==> norm_token(#[trigger] self@[k].id) != key@,
            decreases self.norm_ids.len() - i,
        {
            if str_eq(self.norm_ids[i].as_str(), key.as_str()) {
                proof {
                    assert(self@[i as int] == self.entries@[i as int]@);
                    lemma_roster_find_at(self@, key@, i as int);
                }
                return Some(&self.entries[i]);
            }
            i += 1;
        }
        proof {
            lemma_roster_find_none(self@, key@);
        }
        None
    }
}

} // verus!
