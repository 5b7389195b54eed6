//! The leaderboard: each team's best record, derived from the history.

use crate::assoc::{
    as_map, distinct_keys, has_key, indexes, lemma_as_map_at, lemma_as_map_empty,
    lemma_as_map_insert, lemma_as_map_push, lemma_as_map_update, lemma_indexed,
    lemma_indexes_push, lemma_indexes_update,
};
use crate::history::{Histories, History};
use crate::record::{best_of, best_record, lemma_outranks_asymmetric, lemma_outranks_transitive, Record};
use vstd::hash_map::StringHashMap;
use vstd::prelude::*;

verus! {

/// What a leaderboard is, as a value: each listed team's best record.
pub type Standings = Map<Seq<char>, Record>;

/// The leaderboard that a history determines: every team with at least one
/// record, at its best record.
pub open spec fn leaderboard_of(histories: Histories) -> Standings {
    Map::new(
        |team: Seq<char>| histories.contains_key(team) && histories[team].len() > 0,
        |team: Seq<char>| best_of(histories[team]).unwrap(),
    )
}

/// A list of teams and records, as pairs of plain values.
pub open spec fn listing(entries: Seq<(String, Record)>) -> Seq<(Seq<char>, Record)> {
    Seq::new(entries.len(), |i: int| (entries[i].0@, entries[i].1))
}

/// Whether a listing runs from the highest-ranked record to the lowest: no
/// record is outranked by one that comes after it.
pub open spec fn descending(pairs: Seq<(Seq<char>, Record)>) -> bool {
    forall|i: int, j: int|
        0 <= i < j < pairs.len() ==> !(#[trigger] pairs[j]).1.outranks((#[trigger] pairs[i]).1)
}

/// A table from team names to their best records. The teams are kept in
/// first-seen order, with a hash index from each name to its place.
pub struct Leaderboard {
    entries: Vec<(String, Record)>,
    index: StringHashMap<usize>,
}

impl View for Leaderboard {
    type V = Standings;

    open spec fn view(&self) -> Standings {
        as_map(self.pairs())
    }
}

impl Leaderboard {
    /// The teams in first-seen order, each with its best record.
    pub closed spec fn pairs(&self) -> Seq<(Seq<char>, Record)> {
        listing(self.entries@)
    }

    /// The index knows where each team is listed, and so no team is listed
    /// twice.
    pub closed spec fn wf(&self) -> bool {
        indexes(self.index@, self.pairs())
    }

    /// In a well-formed leaderboard no team is listed twice.
    pub proof fn lemma_distinct(&self)
        requires
            self.wf(),
        ensures
            distinct_keys(self.pairs()),
    {
        lemma_indexed(self.index@, self.pairs());
    }

    /// A leaderboard without teams.
    pub fn new() -> (board: Leaderboard)
        ensures
            board.wf(),
            board@ == Standings::empty(),
    {
        let board = Leaderboard { entries: Vec::new(), index: StringHashMap::new() };
        proof {
            lemma_as_map_empty::<Seq<char>, Record>();
            assert(board.pairs() =~= Seq::empty());
        }
        board
    }

    /// Where `team` is listed, if it is.
    fn position(&self, team: &String) -> (at: Option<usize>)
        requires
            self.wf(),
        ensures
            match at {
                Some(i) => i < self.entries@.len() && self.pairs()[i as int].0 == team@,
                None => !has_key(self.pairs(), team@),
            },
    {
        proof {
            lemma_indexed(self.index@, self.pairs());
        }
        match self.index.get(team.as_str()) {
            Some(at) => Some(*at),
            None => None,
        }
    }

    /// The best record of `team`, if the team is listed.
    pub fn get(&self, team: &String) -> (best: Option<Record>)
        requires
            self.wf(),
        ensures
            best == (if self@.contains_key(team@) {
                Some(self@[team@])
            } else {
                None
            }),
    {
        proof {
            self.lemma_distinct();
        }
        match self.position(team) {
            Some(i) => {
                proof {
                    lemma_as_map_at(self.pairs(), i as int);
                }
                Some(self.entries[i].1)
            },
            None => None,
        }
    }

    /// Lists `team` at `record`, replacing the record it was listed at.
    pub(crate) fn set(&mut self, team: &String, record: Record)
        requires
            old(self).wf(),
        ensures
            final(self).wf(),
            final(self)@ == old(self)@.insert(team@, record),
    {
        let ghost before = self.pairs();
        proof {
            lemma_indexed(self.index@, before);
        }
        match self.position(team) {
            Some(i) => {
                proof {
                    lemma_as_map_update(before, i as int, record);
                    lemma_indexes_update(self.index@, before, i as int, record);
                }
                self.entries[i].1 = record;
                assert(self.pairs() =~= before.update(i as int, (before[i as int].0, record)));
            },
            None => {
                let at = self.entries.len();
                proof {
                    assert(before.len() == at);
                    lemma_as_map_push(before, team@, record);
                    lemma_indexes_push(self.index@, before, team@, record);
                }
                self.index.insert(team.clone(), at);
                self.entries.push((team.clone(), record));
                assert(self.pairs() =~= before.push((team@, record)));
            },
        }
    }

    /// The leaderboard that `history` determines.
    pub fn from(history: &History) -> (board: Leaderboard)
        requires
            history.wf(),
        ensures
            board.wf(),
            board@ == leaderboard_of(history@),
    {
        let teams = history.entries();
        let ghost source = history.pairs();
        proof {
            history.lemma_distinct();
        }
        let mut board = Leaderboard::new();
        let mut i: usize = 0;
        while i < teams.len()
            invariant
                i <= teams@.len(),
                teams@.len() == source.len(),
                distinct_keys(source),
                forall|j: int|
                    0 <= j < teams@.len() ==> (#[trigger] teams@[j]).0@ == source[j].0 && teams@[j].1@
                        == source[j].1,
                board.wf(),
                board@ == leaderboard_of(as_map(source.take(i as int))),
            decreases teams@.len() - i,
        {
            let ghost seen = source.take(i as int);
            proof {
                assert(distinct_keys(seen)) by {
                    assert forall|a: int, b: int| 0 <= a < b < seen.len() implies (
                    #[trigger] seen[a]).0 != (#[trigger] seen[b]).0 by {
                        assert(seen[a] == source[a] && seen[b] == source[b]);
                    }
                }
                assert(!has_key(seen, source[i as int].0)) by {
                    if has_key(seen, source[i as int].0) {
                        let a = choose|a: int|
                            0 <= a < seen.len() && (#[trigger] seen[a]).0 == source[i as int].0;
                        assert(seen[a] == source[a]);
                    }
                }
                lemma_as_map_push(seen, source[i as int].0, source[i as int].1);
                assert(seen.push(source[i as int]) =~= source.take(i + 1));
            }
            let best = best_record(&teams[i].1);
            if let Some(record) = best {
                board.set(&teams[i].0, record);
            }
            proof {
                let grown = as_map(seen).insert(source[i as int].0, source[i as int].1);
                assert(board@ =~= leaderboard_of(grown));
            }
            i += 1;
        }
        assert(source.take(i as int) =~= source);
        board
    }

    /// The teams in first-seen order, each with its best record.
    pub fn entries(&self) -> (list: &Vec<(String, Record)>)
        ensures
            listing(list@) == self.pairs(),
    {
        &self.entries
    }

    /// The leaderboard from the highest-ranked team to the lowest.
    pub fn ranked(&self) -> (ranking: Vec<(String, Record)>)
        requires
            self.wf(),
        ensures
            distinct_keys(listing(ranking@)),
            as_map(listing(ranking@)) == self@,
            descending(listing(ranking@)),
            ranking@.len() == self.pairs().len(),
    {
        let ghost source = self.pairs();
        let mut ranking: Vec<(String, Record)> = Vec::new();
        let mut i: usize = 0;
        proof {
            self.lemma_distinct();
            lemma_as_map_empty::<Seq<char>, Record>();
            assert(listing(ranking@) =~= Seq::empty());
            assert(source.take(0) =~= Seq::empty());
        }
        while i < self.entries.len()
            invariant
                i <= self.entries@.len(),
                source == self.pairs(),
                distinct_keys(source),
                ranking@.len() == i,
                distinct_keys(listing(ranking@)),
                as_map(listing(ranking@)) == as_map(source.take(i as int)),
                descending(listing(ranking@)),
            decreases self.entries@.len() - i,
        {
            let record = self.entries[i].1;
            let ghost sorted = listing(ranking@);
            let ghost seen = source.take(i as int);
            // The newcomer goes before the first entry that it outranks.
            let mut at: usize = 0;
            while at < ranking.len() && !record.ranks_above(&ranking[at].1)
                invariant
                    at <= ranking@.len(),
                    sorted == listing(ranking@),
                    forall|a: int| 0 <= a < at ==> !record.outranks((#[trigger] sorted[a]).1),
                decreases ranking@.len() - at,
            {
                at += 1;
            }
            proof {
                assert(distinct_keys(seen)) by {
                    assert forall|a: int, b: int| 0 <= a < b < seen.len() implies (
                    #[trigger] seen[a]).0 != (#[trigger] seen[b]).0 by {
                        assert(seen[a] == source[a] && seen[b] == source[b]);
                    }
                }
                assert(!has_key(seen, source[i as int].0)) by {
                    if has_key(seen, source[i as int].0) {
                        let a = choose|a: int|
                            0 <= a < seen.len() && (#[trigger] seen[a]).0 == source[i as int].0;
                        assert(seen[a] == source[a]);
                    }
                }
                assert(!has_key(sorted, source[i as int].0)) by {
                    if has_key(sorted, source[i as int].0) {
                        let a = choose|a: int|
                            0 <= a < sorted.len() && (#[trigger] sorted[a]).0 == source[i as int].0;
                        lemma_as_map_at(sorted, a);
                        assert(as_map(seen).contains_key(source[i as int].0));
                    }
                }
                lemma_as_map_push(seen, source[i as int].0, source[i as int].1);
                assert(seen.push(source[i as int]) =~= source.take(i + 1));
                lemma_as_map_insert(sorted, at as int, source[i as int].0, source[i as int].1);
            }
            ranking.insert(at, (self.entries[i].0.clone(), record));
            proof {
                let grown = listing(ranking@);
                assert(grown =~= sorted.insert(at as int, source[i as int]));
                assert forall|a: int, b: int| 0 <= a < b < grown.len() implies !(
                #[trigger] grown[b]).1.outranks((#[trigger] grown[a]).1) by {
                    if b == at {
                        assert(grown[a] == sorted[a]);
                    } else if a == at {
                        // Everything from the insertion point on is outranked
                        // by the newcomer or, at worst, level with what is.
                        assert(grown[b] == sorted[b - 1]);
                        assert(record.outranks(sorted[at as int].1));
                        if b - 1 > at {
                            assert(!sorted[b - 1].1.outranks(sorted[at as int].1));
                        }
                        if grown[b].1.outranks(record) {
                            lemma_outranks_transitive(grown[b].1, record, sorted[at as int].1);
                            lemma_outranks_asymmetric(record, sorted[at as int].1);
                        }
                    } else {
                        let from_a = if a < at { a } else { a - 1 };
                        let from_b = if b < at { b } else { b - 1 };
                        assert(grown[a] == sorted[from_a]);
                        assert(grown[b] == sorted[from_b]);
                    }
                }
            }
            i += 1;
        }
        assert(source.take(i as int) =~= source);
        ranking
    }

    /// A deep copy.
    pub fn copy(&self) -> (copy: Leaderboard)
        requires
            self.wf(),
        ensures
            copy.wf(),
            copy.pairs() == self.pairs(),
    {
        let mut copy = Leaderboard { entries: Vec::new(), index: StringHashMap::new() };
        let mut i: usize = 0;
        proof {
            self.lemma_distinct();
            assert(copy.pairs() =~= self.pairs().take(0));
        }
        while i < self.entries.len()
            invariant
                i <= self.entries@.len(),
                distinct_keys(self.pairs()),
                copy.wf(),
                copy.pairs() == self.pairs().take(i as int),
            decreases self.entries@.len() - i,
        {
            let ghost seen = self.pairs().take(i as int);
            let team = self.entries[i].0.clone();
            let record = self.entries[i].1;
            proof {
                assert(!has_key(seen, team@)) by {
                    if has_key(seen, team@) {
                        let a = choose|a: int| 0 <= a < seen.len() && (#[trigger] seen[a]).0 == team@;
                        assert(seen[a] == self.pairs()[a]);
                        assert(self.pairs()[i as int].0 == team@);
                    }
                }
                lemma_indexed(copy.index@, seen);
                assert(seen.len() == copy.entries@.len());
                lemma_indexes_push(copy.index@, seen, team@, record);
            }
            let at = copy.entries.len();
            copy.index.insert(team.clone(), at);
            copy.entries.push((team, record));
            assert(copy.pairs() =~= seen.push((team@, record)));
            assert(seen.push(self.pairs()[i as int]) =~= self.pairs().take(i + 1));
            i += 1;
        }
        assert(self.pairs().take(i as int) =~= self.pairs());
        copy
    }
}

} // verus!
