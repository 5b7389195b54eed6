//! The life of the process around the store: loading it at startup,
//! flushing it on a timer, and shutting down without losing what was
//! admitted.
//!
//! Nothing here touches a file, a timer or a signal. The caller reports what
//! happened as an [`Event`]; [`step`] answers with the phase the process is
//! in now and the [`Action`] to perform.

use crate::history::{Histories, History};
use crate::store::Store;
use vstd::prelude::*;

verus! {

/// What was found where the history is kept.
pub enum Stored {
    /// There is no snapshot.
    Missing,
    /// There is one, and it cannot be read as a history.
    Malformed,
    /// The history that the snapshot holds.
    Parsed(History),
}

/// The store to start with, and whether to warn that a snapshot was thrown
/// away. A missing or unreadable snapshot gives an empty store; startup does
/// not fail over either.
pub fn load(stored: Stored) -> (loaded: (Store, bool))
    requires
        stored matches Stored::Parsed(history) ==> history.wf(),
    ensures
        loaded.0.wf(),
        loaded.0@ == (match stored {
            Stored::Parsed(history) => history@,
            _ => Histories::empty(),
        }),
        loaded.1 == (stored is Malformed),
{
    match stored {
        Stored::Missing => (Store::new(), false),
        Stored::Malformed => (Store::new(), true),
        Stored::Parsed(history) => (Store::restore(history), false),
    }
}

/// A store that was loaded from what another store flushed is that store
/// again: the same history, and so the same leaderboard.
pub proof fn lemma_load_restores_flush(flushed: Store, loaded: Store)
    requires
        flushed.wf(),
        loaded.wf(),
        loaded@ == flushed@,
    ensures
        loaded.standings() == flushed.standings(),
{
    flushed.lemma_ranking_invariant();
    loaded.lemma_ranking_invariant();
}

/// Where the process is in its life.
#[derive(Clone, Copy, Debug, PartialEq, Eq, Structural)]
pub enum Phase {
    /// Serving requests and flushing on the timer.
    Running,
    /// A termination signal came. The final flush starts once the
    /// background flusher has left its loop and the requests in flight are
    /// done.
    ShuttingDown { flusher_exited: bool, drained: bool, flushing: bool },
    /// The final flush is over; the process may exit.
    Stopped,
}

/// What happened.
#[derive(Clone, Copy, Debug, PartialEq, Eq, Structural)]
pub enum Event {
    /// The flush timer fired.
    Tick,
    /// An interrupt or terminate signal arrived.
    Terminate,
    /// The background flusher saw the shutdown and left its loop.
    FlusherExited,
    /// The requests that were in flight are done.
    Drained,
    /// A flush completed, well or not.
    Flushed { ok: bool },
}

/// What to do next.
#[derive(Clone, Copy, Debug, PartialEq, Eq, Structural)]
pub enum Action {
    /// Nothing.
    Wait,
    /// Take a snapshot and write it.
    Flush,
    /// Log that a periodic flush failed, and carry on.
    ReportFailure,
    /// Cancel the background flusher and stop accepting connections.
    BeginShutdown,
    /// Take the last snapshot, write it, and wait for the write to end.
    FinalFlush,
    /// Leave, logging the loss first if the final flush failed.
    Exit { flush_failed: bool },
}

/// The phase after `event`, and the action it calls for.
pub open spec fn transition(phase: Phase, event: Event) -> (Phase, Action) {
    match phase {
        Phase::Running => match event {
            Event::Tick => (phase, Action::Flush),
            Event::Terminate => (
                Phase::ShuttingDown { flusher_exited: false, drained: false, flushing: false },
                Action::BeginShutdown,
            ),
            Event::Flushed { ok } => (
                phase,
                if ok {
                    Action::Wait
                } else {
                    Action::ReportFailure
                },
            ),
            _ => (phase, Action::Wait),
        },
        Phase::ShuttingDown { flusher_exited, drained, flushing } => match event {
            Event::FlusherExited => if drained && !flushing {
                (
                    Phase::ShuttingDown { flusher_exited: true, drained, flushing: true },
                    Action::FinalFlush,
                )
            } else {
                (Phase::ShuttingDown { flusher_exited: true, drained, flushing }, Action::Wait)
            },
            Event::Drained => if flusher_exited && !flushing {
                (
                    Phase::ShuttingDown { flusher_exited, drained: true, flushing: true },
                    Action::FinalFlush,
                )
            } else {
                (Phase::ShuttingDown { flusher_exited, drained: true, flushing }, Action::Wait)
            },
            Event::Flushed { ok } => if flushing {
                (Phase::Stopped, Action::Exit { flush_failed: !ok })
            } else if ok {
                (phase, Action::Wait)
            } else {
                (phase, Action::ReportFailure)
            },
            _ => (phase, Action::Wait),
        },
        Phase::Stopped => (phase, Action::Wait),
    }
}

/// Takes one event: the phase to be in now, and the action to perform.
pub fn step(phase: Phase, event: Event) -> (next: (Phase, Action))
    ensures
        next == transition(phase, event),
{
    match phase {
        Phase::Running => match event {
            Event::Tick => (phase, Action::Flush),
            Event::Terminate => (
                Phase::ShuttingDown { flusher_exited: false, drained: false, flushing: false },
                Action::BeginShutdown,
            ),
            Event::Flushed { ok: true } => (phase, Action::Wait),
            Event::Flushed { ok: false } => (phase, Action::ReportFailure),
            Event::FlusherExited | Event::Drained => (phase, Action::Wait),
        },
        Phase::ShuttingDown { flusher_exited, drained, flushing } => match event {
            Event::FlusherExited => {
                let start = drained && !flushing;
                (
                    Phase::ShuttingDown {
                        flusher_exited: true,
                        drained,
                        flushing: flushing || start,
                    },
                    if start {
                        Action::FinalFlush
                    } else {
                        Action::Wait
                    },
                )
            },
            Event::Drained => {
                let start = flusher_exited && !flushing;
                (
                    Phase::ShuttingDown {
                        flusher_exited,
                        drained: true,
                        flushing: flushing || start,
                    },
                    if start {
                        Action::FinalFlush
                    } else {
                        Action::Wait
                    },
                )
            },
            Event::Flushed { ok } => {
                if flushing {
                    (Phase::Stopped, Action::Exit { flush_failed: !ok })
                } else if ok {
                    (phase, Action::Wait)
                } else {
                    (phase, Action::ReportFailure)
                }
            },
            Event::Tick | Event::Terminate => (phase, Action::Wait),
        },
        Phase::Stopped => (phase, Action::Wait),
    }
}

/// The phase of a process that started running and saw `events`, in order.
pub open spec fn phase_after(events: Seq<Event>) -> Phase
    decreases events.len(),
{
    if events.len() == 0 {
        Phase::Running
    } else {
        transition(phase_after(events.drop_last()), events.last()).0
    }
}

/// The action that the event at position `at` called for.
pub open spec fn action_at(events: Seq<Event>, at: int) -> Action {
    transition(phase_after(events.take(at)), events[at]).1
}

/// Whether the event at position `at` is a termination signal.
pub open spec fn terminated_at(events: Seq<Event>, at: int) -> bool {
    0 <= at < events.len() && events[at] is Terminate
}

/// Whether the event at position `at` is the flusher leaving its loop.
pub open spec fn exited_at(events: Seq<Event>, at: int) -> bool {
    0 <= at < events.len() && events[at] is FlusherExited
}

/// Whether the event at position `at` is the end of the requests in flight.
pub open spec fn drained_at(events: Seq<Event>, at: int) -> bool {
    0 <= at < events.len() && events[at] is Drained
}

/// Whether the event at position `at` is the end of a flush.
pub open spec fn flushed_at(events: Seq<Event>, at: int) -> bool {
    0 <= at < events.len() && events[at] is Flushed
}

/// What a phase says about the events that led to it: positions `t`, `e`,
/// `d` and `f` of the termination signal, the flusher's exit, the drain and
/// the end of the final flush, as far as the phase has them behind it.
pub open spec fn accounts_for(events: Seq<Event>, phase: Phase, t: int, e: int, d: int, f: int) -> bool {
    match phase {
        Phase::Running => true,
        Phase::ShuttingDown { flusher_exited, drained, flushing } => {
            &&& terminated_at(events, t)
            &&& flusher_exited ==> t < e && exited_at(events, e)
            &&& drained ==> t < d && drained_at(events, d)
            &&& flushing ==> flusher_exited && drained
        },
        Phase::Stopped => {
            &&& terminated_at(events, t)
            &&& t < e < f && exited_at(events, e)
            &&& t < d < f && drained_at(events, d)
            &&& flushed_at(events, f)
        },
    }
}

/// Every phase accounts for the events that led to it.
pub proof fn lemma_phase_accounts_for_events(events: Seq<Event>)
    ensures
        exists|t: int, e: int, d: int, f: int| #[trigger]
            accounts_for(events, phase_after(events), t, e, d, f),
    decreases events.len(),
{
    if events.len() == 0 {
        assert(accounts_for(events, phase_after(events), 0, 0, 0, 0));
    } else {
        let front = events.drop_last();
        let last = (events.len() - 1) as int;
        let before = phase_after(front);
        let now = phase_after(events);
        lemma_phase_accounts_for_events(front);
        let (t, e, d, f) = choose|t: int, e: int, d: int, f: int| #[trigger]
            accounts_for(front, before, t, e, d, f);
        assert forall|i: int| 0 <= i < front.len() implies front[i] == events[i] by {}
        match before {
            Phase::Running => {
                assert(accounts_for(events, now, last, 0, 0, 0));
            },
            Phase::ShuttingDown { flusher_exited, drained, flushing } => {
                match events.last() {
                    Event::FlusherExited => {
                        assert(accounts_for(events, now, t, last, d, 0));
                    },
                    Event::Drained => {
                        assert(accounts_for(events, now, t, e, last, 0));
                    },
                    Event::Flushed { ok } => {
                        assert(accounts_for(events, now, t, e, d, last));
                    },
                    _ => {
                        assert(accounts_for(events, now, t, e, d, f));
                    },
                }
            },
            Phase::Stopped => {
                assert(accounts_for(events, now, t, e, d, f));
            },
        }
    }
}

/// Stopped is reached only at the end of this sequence: a termination
/// signal; after it, the flusher's exit and the drain; after both, the end of
/// a flush.
pub proof fn lemma_stopped_only_after_final_flush(events: Seq<Event>)
    requires
        phase_after(events) is Stopped,
    ensures
        exists|t: int, e: int, d: int, f: int|
            {
                &&& #[trigger] terminated_at(events, t)
                &&& t < e < f && #[trigger] exited_at(events, e)
                &&& t < d < f && #[trigger] drained_at(events, d)
                &&& #[trigger] flushed_at(events, f)
            },
{
    lemma_phase_accounts_for_events(events);
    let (t, e, d, f) = choose|t: int, e: int, d: int, f: int| #[trigger]
        accounts_for(events, phase_after(events), t, e, d, f);
    assert(terminated_at(events, t) && exited_at(events, e) && drained_at(events, d) && flushed_at(
        events,
        f,
    ));
}

/// The final flush is started only after a termination signal, so the
/// snapshot it takes is taken after the signal too.
pub proof fn lemma_final_flush_follows_terminate(events: Seq<Event>, at: int)
    requires
        0 <= at < events.len(),
        action_at(events, at) is FinalFlush,
    ensures
        exists|t: int| t < at && #[trigger] terminated_at(events, t),
{
    let before = events.take(at);
    lemma_phase_accounts_for_events(before);
    let (t, e, d, f) = choose|t: int, e: int, d: int, f: int| #[trigger]
        accounts_for(before, phase_after(before), t, e, d, f);
    assert(terminated_at(before, t));
    assert(before[t] == events[t]);
    assert(terminated_at(events, t));
}

/// One more event moves the process one transition on.
pub proof fn lemma_phase_after_take(events: Seq<Event>, at: int)
    requires
        0 <= at < events.len(),
    ensures
        phase_after(events.take(at + 1)) == transition(phase_after(events.take(at)), events[at]).0,
{
    assert(events.take(at + 1).drop_last() =~= events.take(at));
}

/// Once a termination signal has come, the process is never running again.
pub proof fn lemma_terminate_ends_running(events: Seq<Event>, t: int)
    requires
        terminated_at(events, t),
    ensures
        !(phase_after(events) is Running),
    decreases events.len(),
{
    if t < events.len() - 1 {
        lemma_terminate_ends_running(events.drop_last(), t);
    }
}

/// No periodic flush is started after a termination signal: timer ticks
/// that still arrive are ignored.
pub proof fn lemma_no_periodic_flush_after_terminate(events: Seq<Event>, t: int, at: int)
    requires
        terminated_at(events, t),
        t < at < events.len(),
    ensures
        !(action_at(events, at) is Flush),
{
    assert(events.take(at)[t] == events[t]);
    lemma_terminate_ends_running(events.take(at), t);
}

/// The final flush is started once at most.
pub proof fn lemma_final_flush_only_once(events: Seq<Event>, first: int, second: int)
    requires
        0 <= first < second < events.len(),
        action_at(events, first) is FinalFlush,
    ensures
        !(action_at(events, second) is FinalFlush),
{
    // From the final flush on, the process is flushing or stopped.
    lemma_flushing_from(events, first, second);
}

/// Whether the final flush has been started.
pub open spec fn final_flush_started(phase: Phase) -> bool {
    match phase {
        Phase::Running => false,
        Phase::ShuttingDown { flushing, .. } => flushing,
        Phase::Stopped => true,
    }
}

/// After the event that started the final flush, the final flush stays
/// started.
pub proof fn lemma_flushing_from(events: Seq<Event>, first: int, at: int)
    requires
        0 <= first < at <= events.len(),
        action_at(events, first) is FinalFlush,
    ensures
        final_flush_started(phase_after(events.take(at))),
    decreases at - first,
{
    if at == first + 1 {
        lemma_phase_after_take(events, first);
    } else {
        lemma_flushing_from(events, first, at - 1);
        lemma_phase_after_take(events, at - 1);
    }
}

/// A shutdown that has begun ends: once the flusher has exited, the
/// requests in flight are done and the flush after them has ended, well or
/// not, the process is stopped.
pub proof fn lemma_shutdown_completes(phase: Phase, ok: bool)
    requires
        phase is ShuttingDown,
    ensures
        ({
            let exited = transition(phase, Event::FlusherExited).0;
            let drained = transition(exited, Event::Drained).0;
            transition(drained, Event::Flushed { ok }) == (
                Phase::Stopped,
                Action::Exit { flush_failed: !ok },
            )
        }),
        ({
            let drained = transition(phase, Event::Drained).0;
            let exited = transition(drained, Event::FlusherExited).0;
            transition(exited, Event::Flushed { ok }) == (
                Phase::Stopped,
                Action::Exit { flush_failed: !ok },
            )
        }),
{
}

} // verus!
