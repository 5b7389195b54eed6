//! The history: every record ever admitted, per team, in arrival order.

use crate::assoc::{
    as_map, distinct_keys, has_key, indexes, lemma_as_map_at, lemma_as_map_empty,
    lemma_as_map_push, lemma_as_map_update, lemma_indexed, lemma_indexes_push,
    lemma_indexes_update,
};
use crate::record::Record;
use vstd::hash_map::StringHashMap;
use vstd::prelude::*;

verus! {

/// What a history is, as a value: each team's records in arrival order.
pub type Histories = Map<Seq<char>, Seq<Record>>;

/// The records of a team in a history; none for a team it does not know.
pub open spec fn records_of(histories: Histories, team: Seq<char>) -> Seq<Record> {
    if histories.contains_key(team) {
        histories[team]
    } else {
        Seq::empty()
    }
}

/// A history with one more record at the end of a team's records.
pub open spec fn with_record(histories: Histories, team: Seq<char>, record: Record) -> Histories {
    histories.insert(team, records_of(histories, team).push(record))
}

/// An append-only table from team names to their records. The teams are
/// kept in first-seen order, with a hash index from each name to its place.
pub struct History {
    entries: Vec<(String, Vec<Record>)>,
    index: StringHashMap<usize>,
}

impl View for History {
    type V = Histories;

    open spec fn view(&self) -> Histories {
        as_map(self.pairs())
    }
}

impl History {
    /// The teams in first-seen order, each with its records.
    pub closed spec fn pairs(&self) -> Seq<(Seq<char>, Seq<Record>)> {
        Seq::new(self.entries@.len(), |i: int| (self.entries@[i].0@, self.entries@[i].1@))
    }

    /// The index knows where each team is listed, and so no team is listed
    /// twice.
    pub closed spec fn wf(&self) -> bool {
        indexes(self.index@, self.pairs())
    }

    /// In a well-formed history no team is listed twice.
    pub proof fn lemma_distinct(&self)
        requires
            self.wf(),
        ensures
            distinct_keys(self.pairs()),
    {
        lemma_indexed(self.index@, self.pairs());
    }

    /// A history without teams.
    pub fn new() -> (history: History)
        ensures
            history.wf(),
            history@ == Histories::empty(),
    {
        let history = History { entries: Vec::new(), index: StringHashMap::new() };
        proof {
            lemma_as_map_empty::<Seq<char>, Seq<Record>>();
            assert(history.pairs() =~= Seq::empty());
        }
        history
    }

    /// Where `team` is listed, if it is.
    fn position(&self, team: &String) -> (at: Option<usize>)
        requires
            self.wf(),
        ensures
            match at {
                Some(i) => i < self.entries@.len() && self.pairs()[i as int].0 == team@,
                None => !has_key(self.pairs(), team@),
            },
    {
        proof {
            lemma_indexed(self.index@, self.pairs());
        }
        match self.index.get(team.as_str()) {
            Some(at) => Some(*at),
            None => None,
        }
    }

    /// The records of `team`, if the history knows the team.
    pub fn get(&self, team: &String) -> (records: Option<&Vec<Record>>)
        requires
            self.wf(),
        ensures
            match records {
                Some(found) => self@.contains_key(team@) && found@ == self@[team@],
                None => !self@.contains_key(team@),
            },
    {
        proof {
            self.lemma_distinct();
        }
        match self.position(team) {
            Some(i) => {
                proof {
                    lemma_as_map_at(self.pairs(), i as int);
                }
                Some(&self.entries[i].1)
            },
            None => None,
        }
    }

    /// The teams in first-seen order, each with its records: what a
    /// snapshot of the history is written from.
    pub fn entries(&self) -> (list: &Vec<(String, Vec<Record>)>)
        ensures
            list@.len() == self.pairs().len(),
            forall|i: int|
                0 <= i < list@.len() ==> (#[trigger] list@[i]).0@ == self.pairs()[i].0 && list@[i].1@
                    == self.pairs()[i].1,
    {
        &self.entries
    }

    /// Lists a team that is not listed yet.
    fn list(&mut self, team: String, records: Vec<Record>)
        requires
            old(self).wf(),
            !has_key(old(self).pairs(), team@),
        ensures
            final(self).wf(),
            final(self)@ == old(self)@.insert(team@, records@),
    {
        let ghost before = self.pairs();
        let at = self.entries.len();
        proof {
            assert(before.len() == at);
            lemma_indexed(self.index@, before);
            lemma_as_map_push(before, team@, records@);
            lemma_indexes_push(self.index@, before, team@, records@);
        }
        self.index.insert(team.clone(), at);
        self.entries.push((team, records));
        assert(self.pairs() =~= before.push((team@, records@)));
    }

    /// Sets the records of `team`, replacing what was there.
    pub fn insert(&mut self, team: String, records: Vec<Record>)
        requires
            old(self).wf(),
        ensures
            final(self).wf(),
            final(self)@ == old(self)@.insert(team@, records@),
    {
        let ghost before = self.pairs();
        match self.position(&team) {
            Some(i) => {
                proof {
                    lemma_indexed(self.index@, before);
                    lemma_as_map_update(before, i as int, records@);
                    lemma_indexes_update(self.index@, before, i as int, records@);
                }
                self.entries[i].1 = records;
                assert(self.pairs() =~= before.update(i as int, (before[i as int].0, records@)));
            },
            None => {
                self.list(team, records);
            },
        }
    }

    /// Appends `record` to the records of `team`, listing the team first if
    /// it is new.
    pub fn append(&mut self, team: &String, record: Record)
        requires
            old(self).wf(),
        ensures
            final(self).wf(),
            final(self)@ == with_record(old(self)@, team@, record),
    {
        let ghost before = self.pairs();
        proof {
            lemma_indexed(self.index@, before);
        }
        match self.position(team) {
            Some(i) => {
                let ghost longer = before[i as int].1.push(record);
                proof {
                    lemma_as_map_at(before, i as int);
                    lemma_as_map_update(before, i as int, longer);
                    lemma_indexes_update(self.index@, before, i as int, longer);
                }
                self.entries[i].1.push(record);
                assert(self.pairs() =~= before.update(i as int, (before[i as int].0, longer)));
            },
            None => {
                let mut records: Vec<Record> = Vec::new();
                records.push(record);
                assert(records@ =~= Seq::<Record>::empty().push(record));
                self.list(team.clone(), records);
            },
        }
    }

    /// A deep copy.
    pub fn copy(&self) -> (copy: History)
        requires
            self.wf(),
        ensures
            copy.wf(),
            copy.pairs() == self.pairs(),
    {
        let mut copy = History { entries: Vec::new(), index: StringHashMap::new() };
        let mut i: usize = 0;
        proof {
            self.lemma_distinct();
            assert(copy.pairs() =~= self.pairs().take(0));
        }
        while i < self.entries.len()
            invariant
                i <= self.entries@.len(),
                distinct_keys(self.pairs()),
                copy.wf(),
                copy.pairs() == self.pairs().take(i as int),
            decreases self.entries@.len() - i,
        {
            let ghost seen = self.pairs().take(i as int);
            let team = self.entries[i].0.clone();
            let records = copy_records(&self.entries[i].1);
            proof {
                assert(!has_key(seen, team@)) by {
                    if has_key(seen, team@) {
                        let a = choose|a: int| 0 <= a < seen.len() && (#[trigger] seen[a]).0 == team@;
                        assert(seen[a] == self.pairs()[a]);
                        assert(self.pairs()[i as int].0 == team@);
                    }
                }
                lemma_indexed(copy.index@, seen);
                assert(seen.len() == copy.entries@.len());
                lemma_indexes_push(copy.index@, seen, team@, records@);
            }
            let at = copy.entries.len();
            copy.index.insert(team.clone(), at);
            copy.entries.push((team, records));
            assert(copy.pairs() =~= seen.push((team@, records@)));
            assert(seen.push(self.pairs()[i as int]) =~= self.pairs().take(i + 1));
            i += 1;
        }
        assert(self.pairs().take(i as int) =~= self.pairs());
        copy
    }
}

/// A copy of a list of records.
pub fn copy_records(records: &Vec<Record>) -> (copy: Vec<Record>)
    ensures
        copy@ == records@,
{
    let mut copy: Vec<Record> = Vec::new();
    let mut i: usize = 0;
    while i < records.len()
        invariant
            i <= records.len(),
            copy@ == records@.take(i as int),
        decreases records.len() - i,
    {
        copy.push(records[i]);
        assert(records@.take(i as int).push(records@[i as int]) =~= records@.take(i + 1));
        i += 1;
    }
    assert(records@.take(i as int) =~= records@);
    copy
}

} // verus!
