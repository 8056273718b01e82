//! The phases of an iteration of the loop. The library decides what comes
//! next; the caller does what only it can do: send tasks to workers, run
//! callbacks, wait for an event.
use crate::ioresult::IOResult;
use crate::model::{Dispatch, Model};
use crate::pollevent::PollEvent;
use crate::runtime::Runtime;
use crate::task::{Task, ThreadPoolTaskKind, Work};
use vstd::prelude::*;

verus! {

/// Where the loop stands within one iteration.
#[derive(Clone, Copy, Debug, PartialEq, Eq, Structural)]
pub enum Phase {
    /// At the top: the loop ends here if nothing is pending, else queued
    /// work is handed to idle workers.
    Dispatch,
    /// The timers that are due move to the ready list.
    Timers,
    /// The ready callbacks run; once none is left the loop ends if nothing
    /// is pending, goes back to the top if queued work can be handed to an
    /// idle worker, and else waits for one event.
    RunReady,
    /// The callbacks made ready by the event run, then the iteration is
    /// over.
    Settle,
    /// The loop has ended.
    Finished,
}

/// What the loop's caller is to do before it asks again.
#[derive(Debug)]
pub enum Action<C> {
    /// Send each task to its worker.
    Send(Vec<Dispatch>),
    /// Nothing.
    Continue,
    /// Run the callback on the result.
    Invoke(C, IOResult),
    /// Let the reactor wait no longer than this timeout, without limit if
    /// there is none; then block until one event arrives and hand it to
    /// `resume`.
    Wait(Option<i32>),
    /// The loop has ended: send each worker its closing task and join it,
    /// then close the reactor and join it.
    Shutdown(Vec<Dispatch>),
}

/// An action as mathematics.
pub enum ActionView<C> {
    Send(Seq<Dispatch>),
    Continue,
    Invoke(C, IOResult),
    Wait(Option<i32>),
    Shutdown(Seq<Dispatch>),
}

impl<C> View for Action<C> {
    type V = ActionView<C>;

    open spec fn view(&self) -> ActionView<C> {
        match *self {
            Action::Send(tasks) => ActionView::Send(tasks@),
            Action::Continue => ActionView::Continue,
            Action::Invoke(callback, result) => ActionView::Invoke(callback, result),
            Action::Wait(timeout) => ActionView::Wait(timeout),
            Action::Shutdown(tasks) => ActionView::Shutdown(tasks@),
        }
    }
}

/// The closing tasks for a pool of `workers` workers: one for each, in the
/// order of their numbers.
pub open spec fn closing(workers: nat) -> Seq<Dispatch> {
    Seq::new(
        workers,
        |i: int|
            Dispatch {
                thread_id: i as usize,
                task: Task { task: Work::Nothing, callback_id: 0, kind: ThreadPoolTaskKind::Close },
            },
    )
}

impl<C> Model<C> {
    /// Asked to go on in `phase`, the loop hands out queued work: it stands
    /// at the top of an iteration and something is pending.
    pub open spec fn dispatches(self, phase: Phase) -> bool {
        phase == Phase::Dispatch && self.callback_done().pending > 0
    }

    /// The phase that follows when the loop is asked to go on in `phase`.
    pub open spec fn next_phase(self, phase: Phase) -> Phase {
        let m = self.callback_done();
        match phase {
            Phase::Dispatch => if m.pending == 0 {
                Phase::Finished
            } else {
                Phase::Timers
            },
            Phase::Timers => Phase::RunReady,
            Phase::RunReady => if m.ready.len() > 0 {
                Phase::RunReady
            } else if m.pending == 0 {
                Phase::Finished
            } else if m.can_dispatch() {
                Phase::Dispatch
            } else {
                Phase::Settle
            },
            Phase::Settle => if m.ready.len() > 0 {
                Phase::Settle
            } else {
                Phase::Dispatch
            },
            Phase::Finished => Phase::Finished,
        }
    }

    /// The state after the loop has gone on in `phase` at the time `now`.
    /// Whatever the phase, the callback handed out before counts as
    /// returned.
    pub open spec fn advance(self, phase: Phase, now: u64) -> Model<C> {
        let m = self.callback_done();
        match phase {
            Phase::Dispatch => if m.pending == 0 {
                m
            } else {
                m.dispatch()
            },
            Phase::Timers => m.expire(now),
            Phase::RunReady => m.next_callback(),
            Phase::Settle => m.next_callback(),
            Phase::Finished => m,
        }
    }

    /// What the caller is asked to do when the loop has gone on in `phase`
    /// at the time `now`.
    pub open spec fn action(self, phase: Phase, now: u64) -> ActionView<C> {
        let m = self.callback_done();
        match phase {
            Phase::Dispatch => if m.pending == 0 {
                ActionView::Shutdown(closing(m.workers))
            } else {
                ActionView::Send(m.dispatched())
            },
            Phase::Timers => ActionView::Continue,
            Phase::RunReady => if m.ready.len() > 0 {
                ActionView::Invoke(m.top().unwrap().0, m.top().unwrap().1)
            } else if m.pending == 0 {
                ActionView::Shutdown(closing(m.workers))
            } else if m.can_dispatch() {
                ActionView::Continue
            } else {
                ActionView::Wait(m.next_delay(now))
            },
            Phase::Settle => if m.ready.len() > 0 {
                ActionView::Invoke(m.top().unwrap().0, m.top().unwrap().1)
            } else {
                ActionView::Continue
            },
            Phase::Finished => ActionView::Shutdown(closing(m.workers)),
        }
    }

    /// The state after the wait that `Action::Wait` asked for: the event
    /// that arrived has been taken in, if one arrived.
    pub open spec fn resume(self, event: Option<PollEvent>) -> Model<C> {
        match event {
            Some(e) => self.deliver(e),
            None => self,
        }
    }
}

impl<C> Runtime<C> {
    /// The closing task for each worker, in the order of their numbers.
    pub fn closing_tasks(&self) -> (tasks: Vec<Dispatch>)
        ensures
            tasks@ == closing(self@.workers),
    {
        let threads = self.workers();
        let mut tasks: Vec<Dispatch> = Vec::new();
        let mut i: usize = 0;
        while i < threads
            invariant
                i <= threads,
                tasks@ == closing(i as nat),
            decreases threads - i,
        {
            tasks.push(Dispatch { thread_id: i, task: Task::close() });
            i = i + 1;
            assert(tasks@ =~= closing(i as nat));
        }
        tasks
    }

    /// Goes on with the loop in `phase` at the time `now`, as far as the
    /// next thing that only the caller can do. Returns the phase to go on in
    /// after that, and what the caller is to do. The loop ends only when
    /// nothing is pending, queued work included; it does not wait while
    /// queued work can be handed to an idle worker.
    pub fn advance_at(&mut self, phase: Phase, now: u64) -> (next: (Phase, Action<C>))
        requires
            old(self).wf(),
            old(self)@.dispatches(phase) ==> old(self)@.identities_left() >= old(
                self,
            )@.dispatch_count(),
        ensures
            final(self).wf(),
            final(self)@ == old(self)@.advance(phase, now),
            next.0 == old(self)@.next_phase(phase),
            next.1@ == old(self)@.action(phase, now),
    {
        self.callback_done();
        match phase {
            Phase::Dispatch => {
                if self.pending_events() == 0 {
                    (Phase::Finished, Action::Shutdown(self.closing_tasks()))
                } else {
                    let sent = self.register_threadpool_event();
                    (Phase::Timers, Action::Send(sent))
                }
            },
            Phase::Timers => {
                self.process_expired_timers_at(now);
                (Phase::RunReady, Action::Continue)
            },
            Phase::RunReady => {
                match self.next_callback() {
                    Some((callback, result)) => (Phase::RunReady, Action::Invoke(callback, result)),
                    None => {
                        if self.pending_events() == 0 {
                            (Phase::Finished, Action::Shutdown(self.closing_tasks()))
                        } else if self.queued() > 0 && self.idle_workers() > 0 {
                            (Phase::Dispatch, Action::Continue)
                        } else {
                            (Phase::Settle, Action::Wait(self.get_next_timer_at(now)))
                        }
                    },
                }
            },
            Phase::Settle => {
                match self.next_callback() {
                    Some((callback, result)) => (Phase::Settle, Action::Invoke(callback, result)),
                    None => (Phase::Dispatch, Action::Continue),
                }
            },
            Phase::Finished => (Phase::Finished, Action::Shutdown(self.closing_tasks())),
        }
    }

    /// Goes on with the loop in `phase` at the time on the loop's clock.
    pub fn advance(&mut self, phase: Phase) -> (next: (Phase, Action<C>))
        requires
            old(self).wf(),
            old(self)@.dispatches(phase) ==> old(self)@.identities_left() >= old(
                self,
            )@.dispatch_count(),
        ensures
            final(self).wf(),
            next.0 == old(self)@.next_phase(phase),
            exists|now: u64|
                final(self)@ == old(self)@.advance(phase, now) && next.1@ == old(self)@.action(
                    phase,
                    now,
                ),
    {
        let now = self.now();
        self.advance_at(phase, now)
    }

    /// Takes in what the wait came to: the event that arrived, or nothing
    /// if the inbound channel is closed. Returns the phase to go on in:
    /// `Settle` after an event, `Finished` when no event can come any more.
    pub fn resume(&mut self, event: Option<PollEvent>) -> (next: Phase)
        requires
            old(self).wf(),
        ensures
            final(self).wf(),
            final(self)@ == old(self)@.resume(event),
            next == (if event is Some {
                Phase::Settle
            } else {
                Phase::Finished
            }),
    {
        match event {
            Some(e) => {
                self.deliver(e);
                Phase::Settle
            },
            None => Phase::Finished,
        }
    }
}

} // verus!
