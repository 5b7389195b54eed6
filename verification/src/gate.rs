//! The submission gate: what is checked before a record enters the store.

use crate::error::AppError;
use crate::history::{records_of, with_record, Histories};
use crate::record::{
    best_of, better_of, lemma_best_exists, lemma_best_of_is, lemma_best_of_push, Record, Timestamp,
};
use crate::score::Score;
use crate::store::{current_best, Store};
use vstd::prelude::*;
use vstd::seq_lib::to_multiset_contains;

verus! {

/// A submission as a client sends it.
#[derive(Debug)]
pub struct ScorePost {
    pub team: String,
    pub score: Score,
    pub time: Timestamp,
    pub secret: String,
}

impl ScorePost {
    /// The record that this submission asks to have admitted.
    pub open spec fn record(self) -> Record {
        Record { score: self.score, time: self.time }
    }
}

/// A decision about a submission.
#[derive(Clone, Copy, Debug, PartialEq, Eq, Structural)]
pub enum Verdict {
    /// The record enters the store.
    Admitted,
    /// The presented secret is not the configured one.
    Unauthorized,
    /// The record ranks below the team's current best.
    Conflict,
}

/// Whether a history lets `record` in for `team`: the team has no best yet,
/// or its best does not rank above the record.
pub open spec fn admissible(histories: Histories, team: Seq<char>, record: Record) -> bool {
    match current_best(histories, team) {
        Some(best) => !best.outranks(record),
        None => true,
    }
}

/// The decision of a gate that is configured with `secret`. The secret is
/// checked first.
pub open spec fn verdict(secret: Seq<char>, histories: Histories, post: ScorePost) -> Verdict {
    if post.secret@ != secret {
        Verdict::Unauthorized
    } else if !admissible(histories, post.team@, post.record()) {
        Verdict::Conflict
    } else {
        Verdict::Admitted
    }
}

/// The history after a submission: one record longer if it was admitted,
/// and as before if not.
pub open spec fn after_submit(secret: Seq<char>, histories: Histories, post: ScorePost) -> Histories {
    if verdict(secret, histories, post) is Admitted {
        with_record(histories, post.team@, post.record())
    } else {
        histories
    }
}

/// The keeper of the shared secret, which every submission passes.
pub struct Gate {
    secret: String,
}

impl Gate {
    /// The configured secret.
    pub closed spec fn secret(&self) -> Seq<char> {
        self.secret@
    }

    /// A gate that lets in whoever presents `secret`.
    pub fn new(secret: String) -> (gate: Gate)
        ensures
            gate.secret() == secret@,
    {
        Gate { secret }
    }

    /// Decides about `post` against the store as it is, without changing it.
    pub fn check(&self, store: &Store, post: &ScorePost) -> (decision: Verdict)
        requires
            store.wf(),
        ensures
            decision == verdict(self.secret(), store@, *post),
    {
        if post.secret != self.secret {
            return Verdict::Unauthorized;
        }
        let record = Record { score: post.score, time: post.time };
        match store.get(&post.team) {
            Some(best) if best.ranks_above(&record) => Verdict::Conflict,
            _ => Verdict::Admitted,
        }
    }

    /// Submits `post`: the decision and, if the record is admitted, the
    /// append are one step on the store. A rejected submission leaves the
    /// store as it was.
    pub fn submit(&self, store: &mut Store, post: &ScorePost) -> (outcome: Result<(), AppError>)
        requires
            old(store).wf(),
        ensures
            final(store).wf(),
            final(store)@ == after_submit(self.secret(), old(store)@, *post),
            match verdict(self.secret(), old(store)@, *post) {
                Verdict::Admitted => outcome is Ok,
                Verdict::Unauthorized => outcome matches Err(AppError::Unauthorized(msg)) && msg@
                    == "invalid secret"@,
                Verdict::Conflict => outcome matches Err(AppError::Conflict(msg)) && msg@
                    == "score is lower than current"@,
            },
            outcome is Err ==> final(store)@ == old(store)@ && final(store).standings() == old(
                store,
            ).standings(),
            post.secret@ == self.secret() && current_best(old(store)@, post.team@) is None
                ==> outcome is Ok,
    {
        match self.check(store, post) {
            Verdict::Unauthorized => Err(AppError::Unauthorized("invalid secret".to_owned())),
            Verdict::Conflict => Err(AppError::Conflict("score is lower than current".to_owned())),
            Verdict::Admitted => {
                store.append(&post.team, Record { score: post.score, time: post.time });
                Ok(())
            },
        }
    }
}

/// The history after a run of submissions that arrive one after the other.
pub open spec fn after_all(secret: Seq<char>, histories: Histories, posts: Seq<ScorePost>) -> Histories
    decreases posts.len(),
{
    if posts.len() == 0 {
        histories
    } else {
        after_submit(secret, after_all(secret, histories, posts.drop_last()), posts.last())
    }
}

/// The records that a run of submissions asks to have admitted, in order.
pub open spec fn records_posted(posts: Seq<ScorePost>) -> Seq<Record> {
    Seq::new(posts.len(), |i: int| posts[i].record())
}

/// Whether every submission of a run presents `secret` and names `team`.
pub open spec fn all_for(posts: Seq<ScorePost>, secret: Seq<char>, team: Seq<char>) -> bool {
    forall|i: int|
        0 <= i < posts.len() ==> (#[trigger] posts[i]).secret@ == secret && posts[i].team@ == team
}

/// After an authorized submission, admitted or not, the team's best is the
/// better of its best before and the submitted record; a rejected record
/// was below the best already.
pub proof fn lemma_best_after_submit(secret: Seq<char>, histories: Histories, post: ScorePost)
    requires
        post.secret@ == secret,
    ensures
        current_best(after_submit(secret, histories, post), post.team@) == Some(
            better_of(current_best(histories, post.team@), post.record()),
        ),
        best_of(records_of(histories, post.team@).push(post.record())) == Some(
            better_of(current_best(histories, post.team@), post.record()),
        ),
{
    let records = records_of(histories, post.team@);
    if records.len() > 0 {
        lemma_best_exists(records);
    }
    lemma_best_of_push(records, post.record());
}

/// A submission touches no team but its own, and only ever adds to that
/// team's records.
pub proof fn lemma_submit_extends(secret: Seq<char>, histories: Histories, post: ScorePost, team: Seq<char>)
    ensures
        team != post.team@ ==> records_of(after_submit(secret, histories, post), team)
            == records_of(histories, team),
        records_of(histories, team).is_prefix_of(
            records_of(after_submit(secret, histories, post), team),
        ),
{
}

/// However a run of authorized submissions for one team arrives, the team
/// ends at the best of its earlier records and all the submitted ones,
/// rejected ones included.
pub proof fn lemma_best_after_all(
    secret: Seq<char>,
    histories: Histories,
    posts: Seq<ScorePost>,
    team: Seq<char>,
)
    requires
        all_for(posts, secret, team),
    ensures
        current_best(after_all(secret, histories, posts), team) == best_of(
            records_of(histories, team) + records_posted(posts),
        ),
    decreases posts.len(),
{
    let earlier = records_of(histories, team);
    if posts.len() == 0 {
        assert(earlier + records_posted(posts) =~= earlier);
    } else {
        let front = posts.drop_last();
        let last = posts.last();
        assert forall|i: int| 0 <= i < front.len() implies (#[trigger] front[i]).secret@ == secret
            && front[i].team@ == team by {
            assert(front[i] == posts[i]);
        }
        lemma_best_after_all(secret, histories, front, team);
        let before = after_all(secret, histories, front);
        let so_far = earlier + records_posted(front);
        lemma_best_after_submit(secret, before, last);
        if so_far.len() > 0 {
            lemma_best_exists(so_far);
        }
        lemma_best_of_push(so_far, last.record());
        assert(so_far.push(last.record()) =~= earlier + records_posted(posts));
    }
}

/// The best record of a history does not depend on the order of its
/// records: two histories of the same records have the same best.
pub proof fn lemma_best_of_any_order(a: Seq<Record>, b: Seq<Record>)
    requires
        a.to_multiset() == b.to_multiset(),
    ensures
        best_of(a) == best_of(b),
{
    // A record of one history is a record of the other.
    assert forall|r: Record| a.contains(r) <==> b.contains(r) by {
        to_multiset_contains(a, r);
        to_multiset_contains(b, r);
    }
    if a.len() == 0 {
        if b.len() > 0 {
            assert(b.contains(b[0]));
        }
    } else {
        assert(a.contains(a[0]));
        lemma_best_exists(a);
        let best = best_of(a).unwrap();
        assert forall|i: int| 0 <= i < b.len() implies !(#[trigger] b[i]).outranks(best) by {
            assert(b.contains(b[i]));
            let j = choose|j: int| 0 <= j < a.len() && a[j] == b[i];
            assert(!a[j].outranks(best));
        }
        lemma_best_of_is(best, b);
    }
}

/// The order in which authorized submissions for one team arrive does not
/// change where the team ends: two runs of the same submitted records leave
/// the same best record.
pub proof fn lemma_arrival_order_is_irrelevant(
    secret: Seq<char>,
    histories: Histories,
    posts: Seq<ScorePost>,
    reordered: Seq<ScorePost>,
    team: Seq<char>,
)
    requires
        all_for(posts, secret, team),
        all_for(reordered, secret, team),
        records_posted(posts).to_multiset() == records_posted(reordered).to_multiset(),
    ensures
        current_best(after_all(secret, histories, posts), team) == current_best(
            after_all(secret, histories, reordered),
            team,
        ),
{
    let earlier = records_of(histories, team);
    lemma_best_after_all(secret, histories, posts, team);
    lemma_best_after_all(secret, histories, reordered, team);
    vstd::seq_lib::lemma_multiset_commutative(earlier, records_posted(posts));
    vstd::seq_lib::lemma_multiset_commutative(earlier, records_posted(reordered));
    lemma_best_of_any_order(earlier + records_posted(posts), earlier + records_posted(reordered));
}

/// Whether each submission of a run has a strictly higher score than the
/// one before it.
pub open spec fn scores_rise(posts: Seq<ScorePost>) -> bool {
    forall|i: int, j: int|
        0 <= i < j < posts.len() ==> (#[trigger] posts[i]).score.key() < (
        #[trigger] posts[j]).score.key()
}

/// Authorized submissions for one team that arrive with strictly rising
/// scores are all admitted, provided the first one is: the team's records
/// grow by every one of them, in order.
pub proof fn lemma_rising_scores_all_admitted(
    secret: Seq<char>,
    histories: Histories,
    posts: Seq<ScorePost>,
    team: Seq<char>,
)
    requires
        all_for(posts, secret, team),
        scores_rise(posts),
        posts.len() > 0 ==> admissible(histories, team, posts[0].record()),
    ensures
        records_of(after_all(secret, histories, posts), team) == records_of(histories, team)
            + records_posted(posts),
        forall|i: int|
            0 <= i < posts.len() ==> verdict(
                secret,
                #[trigger] after_all(secret, histories, posts.take(i)),
                posts[i],
            ) is Admitted,
    decreases posts.len(),
{
    let earlier = records_of(histories, team);
    if posts.len() == 0 {
        assert(earlier + records_posted(posts) =~= earlier);
    } else {
        let front = posts.drop_last();
        let last = posts.last();
        assert forall|i: int| 0 <= i < front.len() implies (#[trigger] front[i]).secret@ == secret
            && front[i].team@ == team by {
            assert(front[i] == posts[i]);
        }
        assert(scores_rise(front)) by {
            assert forall|i: int, j: int| 0 <= i < j < front.len() implies (
            #[trigger] front[i]).score.key() < (#[trigger] front[j]).score.key() by {
                assert(front[i] == posts[i] && front[j] == posts[j]);
            }
        }
        if front.len() > 0 {
            assert(front[0] == posts[0]);
        }
        lemma_rising_scores_all_admitted(secret, histories, front, team);
        let before = after_all(secret, histories, front);
        // The last submission is above whatever the team's best is by then.
        assert(admissible(before, team, last.record())) by {
            if front.len() > 0 {
                lemma_best_after_all(secret, histories, front, team);
                let so_far = earlier + records_posted(front);
                lemma_best_exists(so_far);
                let best = best_of(so_far).unwrap();
                let k = choose|k: int| 0 <= k < so_far.len() && so_far[k] == best;
                if k < earlier.len() {
                    // An earlier record: the first submission was not below
                    // it, and the last one is above the first.
                    assert(so_far[k] == earlier[k]);
                    lemma_best_exists(earlier);
                    let old_best = best_of(earlier).unwrap();
                    assert(!earlier[k].outranks(old_best));
                    assert(!old_best.outranks(posts[0].record()));
                    assert(posts[0].score.key() < posts[posts.len() - 1].score.key());
                } else {
                    let i = k - earlier.len();
                    assert(so_far[k] == records_posted(front)[i]);
                    assert(front[i] == posts[i]);
                    assert(posts[i].score.key() < posts[posts.len() - 1].score.key());
                }
            }
        }
        assert(records_of(before, team).push(last.record()) =~= earlier + records_posted(posts));
        assert forall|i: int| 0 <= i < posts.len() implies verdict(
            secret,
            #[trigger] after_all(secret, histories, posts.take(i)),
            posts[i],
        ) is Admitted by {
            if i < front.len() {
                assert(posts.take(i) =~= front.take(i));
                assert(front[i] == posts[i]);
            } else {
                assert(posts.take(i) =~= front);
            }
        }
    }
}

/// The history is append-only: whatever submissions arrive, for whatever
/// teams and with whatever secrets, every team's earlier records stay where
/// they were, at the front of its later records.
pub proof fn lemma_history_only_grows(
    secret: Seq<char>,
    histories: Histories,
    posts: Seq<ScorePost>,
    team: Seq<char>,
)
    ensures
        records_of(histories, team).is_prefix_of(
            records_of(after_all(secret, histories, posts), team),
        ),
    decreases posts.len(),
{
    if posts.len() > 0 {
        lemma_history_only_grows(secret, histories, posts.drop_last(), team);
        lemma_submit_extends(
            secret,
            after_all(secret, histories, posts.drop_last()),
            posts.last(),
            team,
        );
    }
}

} // verus!
