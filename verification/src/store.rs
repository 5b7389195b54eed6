//! The record store: the history and the leaderboard derived from it, kept
//! together so that the two never disagree.

use crate::assoc::{as_map, distinct_keys};
use crate::history::{records_of, with_record, Histories, History};
use crate::leaderboard::{descending, leaderboard_of, listing, Leaderboard, Standings};
use crate::record::{best_of, better_of, lemma_best_exists, lemma_best_of_push, Record};
use vstd::prelude::*;

verus! {

/// The best record that a history holds for a team, if it holds any.
pub open spec fn current_best(histories: Histories, team: Seq<char>) -> Option<Record> {
    best_of(records_of(histories, team))
}

/// The leaderboard lists exactly the teams that have a best record, each at
/// that record.
pub proof fn lemma_leaderboard_lists_best(histories: Histories, team: Seq<char>)
    ensures
        leaderboard_of(histories).contains_key(team) <==> current_best(histories, team) is Some,
        leaderboard_of(histories).contains_key(team) ==> Some(leaderboard_of(histories)[team])
            == current_best(histories, team),
{
}

/// Appending a record changes the leaderboard in one place at most: the
/// team is then listed at the better of its old best and the newcomer.
pub proof fn lemma_leaderboard_with_record(histories: Histories, team: Seq<char>, record: Record)
    ensures
        leaderboard_of(with_record(histories, team, record)) == leaderboard_of(histories).insert(
            team,
            better_of(current_best(histories, team), record),
        ),
{
    let records = records_of(histories, team);
    if records.len() > 0 {
        lemma_best_exists(records);
    }
    lemma_best_of_push(records, record);
    assert(leaderboard_of(with_record(histories, team, record)) =~= leaderboard_of(
        histories,
    ).insert(team, better_of(current_best(histories, team), record)));
}

/// The store.
pub struct Store {
    history: History,
    board: Leaderboard,
}

impl View for Store {
    type V = Histories;

    /// A store is what its history holds; the leaderboard follows from it.
    closed spec fn view(&self) -> Histories {
        self.history@
    }
}

impl Store {
    /// What the leaderboard of this store lists.
    pub closed spec fn standings(&self) -> Standings {
        self.board@
    }

    /// The store is consistent: the leaderboard is the one that the history
    /// determines.
    pub closed spec fn wf(&self) -> bool {
        &&& self.history.wf()
        &&& self.board.wf()
        &&& self.board@ == leaderboard_of(self.history@)
    }

    /// The ranking invariant: in a consistent store every team with a
    /// history is listed at the best record of that history, and no other
    /// team is listed.
    pub proof fn lemma_ranking_invariant(&self)
        requires
            self.wf(),
        ensures
            self.standings() == leaderboard_of(self@),
            forall|team: Seq<char>|
                self@.contains_key(team) && self@[team].len() > 0
                    ==> #[trigger] self.standings().contains_key(team) && Some(
                    self.standings()[team],
                ) == best_of(self@[team]),
            forall|team: Seq<char>| #[trigger]
                self.standings().contains_key(team) ==> self@.contains_key(team) && self@[team].len()
                    > 0,
    {
    }

    /// An empty store.
    pub fn new() -> (store: Store)
        ensures
            store.wf(),
            store@ == Histories::empty(),
    {
        let store = Store { history: History::new(), board: Leaderboard::new() };
        assert(store.board@ =~= leaderboard_of(store.history@));
        store
    }

    /// The store that holds `history`. The leaderboard is derived from the
    /// history, never read from anywhere else.
    pub fn restore(history: History) -> (store: Store)
        requires
            history.wf(),
        ensures
            store.wf(),
            store@ == history@,
    {
        let board = Leaderboard::from(&history);
        Store { history, board }
    }

    /// Appends `record` to the history of `team`, and lists the team at it
    /// unless the team's best so far ranks strictly above it.
    pub fn append(&mut self, team: &String, record: Record)
        requires
            old(self).wf(),
        ensures
            final(self).wf(),
            final(self)@ == with_record(old(self)@, team@, record),
    {
        proof {
            lemma_leaderboard_lists_best(self@, team@);
            lemma_leaderboard_with_record(self@, team@, record);
        }
        let keeps = match self.board.get(team) {
            Some(best) => best.ranks_above(&record),
            None => false,
        };
        self.history.append(team, record);
        if !keeps {
            self.board.set(team, record);
        }
        assert(self.board@ =~= leaderboard_of(self.history@));
    }

    /// The best record of `team`, or none if the team has no record.
    pub fn get(&self, team: &String) -> (best: Option<Record>)
        requires
            self.wf(),
        ensures
            best == current_best(self@, team@),
    {
        proof {
            lemma_leaderboard_lists_best(self@, team@);
        }
        self.board.get(team)
    }

    /// The history.
    pub fn history(&self) -> (history: &History)
        ensures
            history@ == self@,
            self.wf() ==> history.wf(),
    {
        &self.history
    }

    /// The leaderboard.
    pub fn leaderboard(&self) -> (board: &Leaderboard)
        ensures
            board@ == self.standings(),
            self.wf() ==> board.wf(),
    {
        &self.board
    }

    /// The leaderboard from the highest-ranked team to the lowest.
    pub fn ranked(&self) -> (ranking: Vec<(String, Record)>)
        requires
            self.wf(),
        ensures
            distinct_keys(listing(ranking@)),
            as_map(listing(ranking@)) == leaderboard_of(self@),
            descending(listing(ranking@)),
    {
        self.board.ranked()
    }

    /// A deep copy of the store as it is now: a history and a leaderboard
    /// that agree with each other and share nothing with the store.
    pub fn snapshot(&self) -> (copy: Store)
        requires
            self.wf(),
        ensures
            copy.wf(),
            copy@ == self@,
            copy.standings() == self.standings(),
    {
        Store { history: self.history.copy(), board: self.board.copy() }
    }
}

} // verus!
