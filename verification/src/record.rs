//! Records and the rule that ranks them.

use crate::score::{lemma_key_determines_score, Score};
use std::cmp::Ordering;
use vstd::prelude::*;
use vstd::std_specs::cmp::PartialOrdSpecImpl;

verus! {

/// A point in time: whole seconds since the Unix epoch, and the nanoseconds
/// into that second.
#[derive(Clone, Copy, Debug, PartialEq, Eq, Structural)]
pub struct Timestamp {
    pub secs: i64,
    pub nanos: u32,
}

impl Timestamp {
    /// Whether this time lies strictly before `other`.
    pub open spec fn before(self, other: Timestamp) -> bool {
        self.secs < other.secs || (self.secs == other.secs && self.nanos < other.nanos)
    }

    /// Whether this time lies strictly before `other`.
    pub fn is_before(&self, other: &Timestamp) -> (earlier: bool)
        ensures
            earlier == self.before(*other),
    {
        self.secs < other.secs || (self.secs == other.secs && self.nanos < other.nanos)
    }
}

/// One observation: a score and the time it was submitted.
#[derive(Clone, Copy, Debug, PartialEq, Eq, Structural)]
pub struct Record {
    pub score: Score,
    pub time: Timestamp,
}

impl Record {
    /// The ranking rule: the higher score ranks above; between equal scores,
    /// the earlier submission does.
    pub open spec fn outranks(self, other: Record) -> bool {
        self.score.key() > other.score.key() || (self.score.key() == other.score.key()
            && self.time.before(other.time))
    }

    /// Whether this record ranks strictly above `other`.
    pub fn ranks_above(&self, other: &Record) -> (above: bool)
        ensures
            above == self.outranks(*other),
    {
        self.score.exceeds(&other.score) || (!other.score.exceeds(&self.score)
            && self.time.is_before(&other.time))
    }
}

impl PartialOrd for Record {
    /// Compares by rank: greater means ranking above.
    fn partial_cmp(&self, other: &Record) -> (order: Option<Ordering>) {
        if self.ranks_above(other) {
            Some(Ordering::Greater)
        } else if other.ranks_above(self) {
            Some(Ordering::Less)
        } else {
            Some(Ordering::Equal)
        }
    }
}

impl PartialOrdSpecImpl for Record {
    open spec fn obeys_partial_cmp_spec() -> bool {
        true
    }

    open spec fn partial_cmp_spec(&self, other: &Record) -> Option<Ordering> {
        if self.outranks(*other) {
            Some(Ordering::Greater)
        } else if other.outranks(*self) {
            Some(Ordering::Less)
        } else {
            Some(Ordering::Equal)
        }
    }
}

/// No record outranks itself, and of two records at most one outranks the
/// other.
pub proof fn lemma_outranks_asymmetric(a: Record, b: Record)
    ensures
        !a.outranks(a),
        a.outranks(b) ==> !b.outranks(a),
{
}

/// Ranking above is transitive.
pub proof fn lemma_outranks_transitive(a: Record, b: Record, c: Record)
    requires
        a.outranks(b),
        b.outranks(c),
    ensures
        a.outranks(c),
{
}

/// The rule is total: two records that do not outrank each other are the
/// same record.
pub proof fn lemma_outranks_total(a: Record, b: Record)
    ensures
        a.outranks(b) || b.outranks(a) || a == b,
{
    if !a.outranks(b) && !b.outranks(a) {
        lemma_key_determines_score(a.score, b.score);
    }
}

/// Whether `best` is a record of `history` that no record of it outranks.
pub open spec fn is_best_of(best: Record, history: Seq<Record>) -> bool {
    &&& history.contains(best)
    &&& forall|i: int| 0 <= i < history.len() ==> !(#[trigger] history[i]).outranks(best)
}

/// The highest-ranked record of a history, or none if it is empty.
pub open spec fn best_of(history: Seq<Record>) -> Option<Record> {
    if history.len() == 0 {
        None
    } else {
        Some(choose|best: Record| is_best_of(best, history))
    }
}

/// The better of a current best, if any, and a newcomer. The newcomer takes
/// the place unless the current best ranks strictly above it.
pub open spec fn better_of(current: Option<Record>, newcomer: Record) -> Record {
    match current {
        Some(best) if best.outranks(newcomer) => best,
        _ => newcomer,
    }
}

/// A history has at most one best record.
pub proof fn lemma_best_unique(a: Record, b: Record, history: Seq<Record>)
    requires
        is_best_of(a, history),
        is_best_of(b, history),
    ensures
        a == b,
{
    let i = choose|i: int| 0 <= i < history.len() && history[i] == a;
    let j = choose|j: int| 0 <= j < history.len() && history[j] == b;
    assert(!history[i].outranks(b));
    assert(!history[j].outranks(a));
    lemma_outranks_total(a, b);
}

/// Whatever is a best record of a history is the one `best_of` names.
pub proof fn lemma_best_of_is(best: Record, history: Seq<Record>)
    requires
        is_best_of(best, history),
    ensures
        best_of(history) == Some(best),
{
    let i = choose|i: int| 0 <= i < history.len() && history[i] == best;
    let chosen = choose|b: Record| is_best_of(b, history);
    lemma_best_unique(best, chosen, history);
}

/// Appending a record leaves the better of the old best and the newcomer as
/// the best.
pub proof fn lemma_best_of_push(history: Seq<Record>, newcomer: Record)
    requires
        history.len() == 0 || is_best_of(best_of(history).unwrap(), history),
    ensures
        is_best_of(better_of(best_of(history), newcomer), history.push(newcomer)),
        best_of(history.push(newcomer)) == Some(better_of(best_of(history), newcomer)),
{
    let longer = history.push(newcomer);
    let winner = better_of(best_of(history), newcomer);
    assert(longer[history.len() as int] == newcomer);
    if history.len() == 0 {
        lemma_outranks_asymmetric(newcomer, newcomer);
        assert(is_best_of(winner, longer));
    } else {
        let old = best_of(history).unwrap();
        let k = choose|k: int| 0 <= k < history.len() && history[k] == old;
        assert(longer[k] == old);
        assert forall|i: int| 0 <= i < longer.len() implies !(#[trigger] longer[i]).outranks(
            winner,
        ) by {
            if i < history.len() {
                assert(longer[i] == history[i]);
                assert(!history[i].outranks(old));
                if !old.outranks(newcomer) {
                    lemma_outranks_total(old, newcomer);
                    if history[i].outranks(newcomer) && newcomer.outranks(old) {
                        lemma_outranks_transitive(history[i], newcomer, old);
                    }
                }
            } else {
                lemma_outranks_asymmetric(newcomer, old);
            }
        }
        assert(is_best_of(winner, longer));
    }
    lemma_best_of_is(winner, longer);
}

/// Every history that is not empty has a best record, and `best_of` names it.
pub proof fn lemma_best_exists(history: Seq<Record>)
    requires
        history.len() > 0,
    ensures
        is_best_of(best_of(history).unwrap(), history),
    decreases history.len(),
{
    let shorter = history.drop_last();
    if shorter.len() > 0 {
        lemma_best_exists(shorter);
    }
    lemma_best_of_push(shorter, history.last());
    assert(shorter.push(history.last()) =~= history);
}

/// The highest-ranked record of a history, or none if it is empty.
pub fn best_record(history: &Vec<Record>) -> (best: Option<Record>)
    ensures
        best == best_of(history@),
{
    let mut best: Option<Record> = None;
    let mut i: usize = 0;
    while i < history.len()
        invariant
            i <= history.len(),
            best == best_of(history@.take(i as int)),
            i > 0 ==> is_best_of(best.unwrap(), history@.take(i as int)),
        decreases history.len() - i,
    {
        let newcomer = history[i];
        proof {
            lemma_best_of_push(history@.take(i as int), newcomer);
            assert(history@.take(i as int).push(newcomer) =~= history@.take(i + 1));
        }
        best = match best {
            Some(current) if current.ranks_above(&newcomer) => Some(current),
            _ => Some(newcomer),
        };
        i += 1;
    }
    assert(history@.take(i as int) =~= history@);
    best
}

} // verus!
