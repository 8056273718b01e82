//! The loop's state as mathematics, its invariant, and what each operation
//! makes of a state.
use crate::identity::is_next_identity;
use crate::ioresult::IOResult;
use crate::pollevent::PollEvent;
use crate::task::{Task, ThreadPoolTaskKind, Work};
use crate::timers::{delay, due, sorted, tokens_of, Timer};
use vstd::prelude::*;

verus! {

/// Where a registered callback stands on its way to being run.
#[derive(Clone, Copy, Debug, PartialEq, Eq, Structural)]
pub enum Stage {
    /// It waits in the timer wheel for its deadline.
    Timer,
    /// It waits for the worker of this number to finish its job.
    InFlight(usize),
    /// It waits for the reactor to report its descriptor ready.
    Waiting,
    /// It is on the ready list and still counted as pending.
    Ready,
    /// It is on the ready list and was taken off the pending counter when
    /// the reactor reported it.
    Settled,
}

/// A registered callback and its stage.
pub struct Slot<C> {
    pub callback: C,
    pub stage: Stage,
}

/// Work that waits for a free worker, with the callback for its result.
pub struct PendingEntry<C> {
    pub work: Work,
    pub kind: ThreadPoolTaskKind,
    pub callback: C,
}

/// A task together with the number of the worker that is to get it.
#[derive(Debug, PartialEq, Eq)]
pub struct Dispatch {
    pub thread_id: usize,
    pub task: Task,
}

/// The state of an event loop as mathematics.
pub struct Model<C> {
    /// The callback registry: identity to callback and stage.
    pub registry: Map<usize, Slot<C>>,
    /// The ready list, a stack: the last entry runs first.
    pub ready: Seq<(usize, IOResult)>,
    /// The timer wheel, earliest deadline first.
    pub timers: Seq<Timer>,
    /// Work that waits for a worker, a stack.
    pub queue: Seq<PendingEntry<C>>,
    /// The idle workers, a stack.
    pub free: Seq<usize>,
    /// The size of the worker pool.
    pub workers: nat,
    /// The identity counter: the identity handed out last.
    pub counter: usize,
    /// The pending counter: the work that has been scheduled and whose
    /// callback has not returned yet.
    pub pending: nat,
    /// Whether the callback handed out last still has its share in the
    /// pending counter, to be taken off when it has returned.
    pub owed: bool,
    /// How many callbacks have been registered since the loop was made.
    pub registrations: nat,
    /// How many callbacks have been handed out to be run since the loop was
    /// made.
    pub invocations: nat,
}

impl<C> Model<C> {
    /// The identities on the ready list, in its order.
    pub open spec fn ready_tokens(self) -> Seq<usize> {
        self.ready.map_values(|e: (usize, IOResult)| e.0)
    }

    /// The identities in the timer wheel, in its order.
    pub open spec fn timer_tokens(self) -> Seq<usize> {
        tokens_of(self.timers)
    }

    /// The registered identities that the pending counter counts: all but
    /// those already settled.
    pub open spec fn counted(self) -> Set<usize> {
        Set::new(
            |t: usize| self.registry.contains_key(t) && self.registry[t].stage != Stage::Settled,
        )
    }

    /// A job handed to worker `w` is in flight.
    pub open spec fn busy_with(self, w: usize) -> bool {
        exists|t: usize| #[trigger]
            self.registry.contains_key(t) && self.registry[t].stage == Stage::InFlight(w)
    }

    /// Nothing is on the ready list and no callback is running: the state
    /// between two iterations of the loop.
    pub open spec fn at_boundary(self) -> bool {
        self.ready.len() == 0 && !self.owed
    }

    /// Every timer in the wheel belongs to a registered callback that waits
    /// for its deadline.
    pub open spec fn timers_are_registered(self) -> bool {
        forall|i: int|
            0 <= i < self.timers.len() ==> self.registry.contains_key(
                (#[trigger] self.timers[i]).token,
            ) && self.registry[self.timers[i].token].stage == Stage::Timer
    }

    /// Every entry of the ready list belongs to a registered callback that
    /// is ready.
    pub open spec fn ready_are_registered(self) -> bool {
        forall|i: int|
            0 <= i < self.ready.len() ==> self.registry.contains_key((#[trigger] self.ready[i]).0)
                && (self.registry[self.ready[i].0].stage == Stage::Ready
                || self.registry[self.ready[i].0].stage == Stage::Settled)
    }

    /// The callback registered under `t` is where its stage says: in the
    /// timer wheel, with a worker that is not idle, or on the ready list.
    pub open spec fn in_place(self, t: usize) -> bool {
        match self.registry[t].stage {
            Stage::Timer => self.timer_tokens().contains(t),
            Stage::InFlight(w) => w < self.workers && !self.free.contains(w),
            Stage::Waiting => true,
            Stage::Ready => self.ready_tokens().contains(t),
            Stage::Settled => self.ready_tokens().contains(t),
        }
    }

    /// The callbacks registered under `a` and `b` both wait for the same
    /// worker.
    pub open spec fn share_a_worker(self, a: usize, b: usize) -> bool {
        &&& self.registry.contains_key(a)
        &&& self.registry.contains_key(b)
        &&& self.registry[a].stage is InFlight
        &&& self.registry[a].stage == self.registry[b].stage
    }

    /// No worker has two jobs in flight.
    pub open spec fn one_job_each(self) -> bool {
        forall|a: usize, b: usize| #[trigger] self.share_a_worker(a, b) ==> a == b
    }

    /// Nothing in the queue is of the kind that closes a worker.
    pub open spec fn queue_is_work(self) -> bool {
        forall|i: int|
            0 <= i < self.queue.len() ==> (#[trigger] self.queue[i]).kind
                != ThreadPoolTaskKind::Close
    }

    /// The invariant of the loop's state.
    pub open spec fn inv(self) -> bool {
        &&& self.registry.dom().finite()
        &&& !self.registry.contains_key(0)
        &&& self.workers <= usize::MAX
        &&& sorted(self.timers)
        &&& self.timer_tokens().no_duplicates()
        &&& self.ready_tokens().no_duplicates()
        &&& self.free.no_duplicates()
        &&& forall|i: int| 0 <= i < self.free.len() ==> #[trigger] self.free[i] < self.workers
        &&& self.timers_are_registered()
        &&& self.ready_are_registered()
        &&& forall|t: usize| #[trigger] self.registry.contains_key(t) ==> self.in_place(t)
        &&& self.one_job_each()
        &&& forall|w: usize|
            w < self.workers && !(#[trigger] self.free.contains(w)) ==> self.busy_with(w)
        &&& self.queue_is_work()
        &&& self.pending == self.counted().len() + self.queue.len() + (if self.owed {
            1nat
        } else {
            0nat
        })
        &&& self.registrations == self.invocations + self.registry.dom().len()
    }

    /// The state of a loop that has just been made, with `workers` workers.
    pub open spec fn initial(workers: nat) -> Model<C> {
        Model {
            registry: Map::empty(),
            ready: Seq::empty(),
            timers: Seq::empty(),
            queue: Seq::empty(),
            free: Seq::new(workers, |i: int| i as usize),
            workers,
            counter: 0,
            pending: 0,
            owed: false,
            registrations: 0,
            invocations: 0,
        }
    }

    /// How many identities are not in use.
    pub open spec fn identities_left(self) -> int {
        usize::MAX - self.registry.dom().len()
    }

    /// An identity can still be found: fewer callbacks are registered than
    /// there are identities.
    pub open spec fn can_allocate(self) -> bool {
        self.identities_left() >= 1
    }

    /// The pending counter can count one more.
    pub open spec fn can_count(self) -> bool {
        self.pending < usize::MAX
    }

    /// How many more callbacks can be registered and counted at once: as
    /// many as there are identities left, and as the pending counter can
    /// still count.
    pub open spec fn room(self) -> int {
        if self.registry.dom().len() >= self.pending {
            usize::MAX - self.registry.dom().len()
        } else {
            usize::MAX - self.pending
        }
    }

    /// The identity that the counter hands out next.
    pub open spec fn fresh(self) -> usize {
        choose|t: usize| is_next_identity(self.counter, self.registry.dom(), t)
    }

    /// The identity counter has been advanced to the next identity.
    pub open spec fn generate_cb_identity(self) -> Model<C> {
        Model { counter: self.fresh(), ..self }
    }

    /// A timer for `ms` milliseconds from `now` has been registered with
    /// `cb`.
    pub open spec fn set_timeout_at(self, now: u64, ms: u64, cb: C) -> Model<C> {
        let token = self.fresh();
        let deadline = (now + ms) as u128;
        Model {
            counter: token,
            registry: self.registry.insert(token, Slot { callback: cb, stage: Stage::Timer }),
            timers: self.timers.insert(
                due(self.timers, deadline as int) as int,
                Timer { deadline, token },
            ),
            pending: self.pending + 1,
            registrations: self.registrations + 1,
            ..self
        }
    }

    /// Work has been put on the queue for the worker pool, and counts as
    /// pending from now on.
    pub open spec fn enqueue(self, work: Work, kind: ThreadPoolTaskKind, cb: C) -> Model<C> {
        Model {
            queue: self.queue.push(PendingEntry { work, kind, callback: cb }),
            pending: self.pending + 1,
            ..self
        }
    }

    /// A piece of work waits and a worker is idle.
    pub open spec fn can_dispatch(self) -> bool {
        self.queue.len() > 0 && self.free.len() > 0
    }

    /// The task that goes out when the last queued work is handed to the
    /// last idle worker.
    pub open spec fn dispatched_one(self) -> Dispatch {
        Dispatch {
            thread_id: self.free.last(),
            task: Task {
                task: self.queue.last().work,
                callback_id: self.fresh(),
                kind: self.queue.last().kind,
            },
        }
    }

    /// The last queued work has been handed to the last idle worker, its
    /// callback registered under a fresh identity. The pending counter, which
    /// counted the work while it was queued, goes on counting it.
    pub open spec fn dispatch_one(self) -> Model<C> {
        let token = self.fresh();
        Model {
            counter: token,
            registry: self.registry.insert(
                token,
                Slot {
                    callback: self.queue.last().callback,
                    stage: Stage::InFlight(self.free.last()),
                },
            ),
            queue: self.queue.drop_last(),
            free: self.free.drop_last(),
            registrations: self.registrations + 1,
            ..self
        }
    }

    /// Queued work has been handed out until the queue or the idle workers
    /// ran out.
    pub open spec fn dispatch(self) -> Model<C>
        decreases self.queue.len(),
    {
        if self.can_dispatch() {
            self.dispatch_one().dispatch()
        } else {
            self
        }
    }

    /// The tasks that `dispatch` hands out, in the order in which they go.
    pub open spec fn dispatched(self) -> Seq<Dispatch>
        decreases self.queue.len(),
    {
        if self.can_dispatch() {
            seq![self.dispatched_one()] + self.dispatch_one().dispatched()
        } else {
            Seq::empty()
        }
    }

    /// A callback has been registered under `token` for a descriptor that the
    /// reactor watches.
    pub open spec fn register_epoll_event(self, token: usize, cb: C) -> Model<C> {
        Model {
            registry: self.registry.insert(token, Slot { callback: cb, stage: Stage::Waiting }),
            pending: self.pending + 1,
            registrations: self.registrations + 1,
            ..self
        }
    }

    /// The event answers something that the loop waits for.
    pub open spec fn expects(self, event: PollEvent) -> bool {
        match event {
            PollEvent::Threadpool(worker, token, _) => self.registry.contains_key(token)
                && self.registry[token].stage == Stage::InFlight(worker),
            PollEvent::Readiness(token) => self.registry.contains_key(token)
                && self.registry[token].stage == Stage::Waiting,
            PollEvent::TimeoutTick => true,
        }
    }

    /// One event has been taken in. An event that nothing waits for changes
    /// nothing.
    pub open spec fn deliver(self, event: PollEvent) -> Model<C> {
        if !self.expects(event) {
            self
        } else {
            match event {
                PollEvent::Threadpool(worker, token, data) => Model {
                    registry: self.registry.insert(
                        token,
                        Slot { callback: self.registry[token].callback, stage: Stage::Ready },
                    ),
                    ready: self.ready.push((token, data)),
                    free: self.free.push(worker),
                    ..self
                },
                PollEvent::Readiness(token) => Model {
                    registry: self.registry.insert(
                        token,
                        Slot { callback: self.registry[token].callback, stage: Stage::Settled },
                    ),
                    ready: self.ready.push((token, IOResult::Undefined)),
                    pending: (self.pending - 1) as nat,
                    ..self
                },
                PollEvent::TimeoutTick => self,
            }
        }
    }

    /// The timers that are due at `now`, earliest first.
    pub open spec fn expired(self, now: u64) -> Seq<Timer> {
        self.timers.take(due(self.timers, now as int) as int)
    }

    /// The callbacks registered under `tokens` have been put on the ready
    /// list, each to get `Undefined`. They are stacked so that the first of
    /// `tokens` runs first.
    pub open spec fn make_ready(self, tokens: Seq<usize>) -> Model<C> {
        Model {
            registry: Map::new(
                |t: usize| self.registry.contains_key(t),
                |t: usize|
                    if tokens.contains(t) {
                        Slot { callback: self.registry[t].callback, stage: Stage::Ready }
                    } else {
                        self.registry[t]
                    },
            ),
            ready: self.ready + tokens.reverse().map_values(
                |t: usize| (t, IOResult::Undefined),
            ),
            ..self
        }
    }

    /// The timers due at `now` have left the wheel for the ready list, where
    /// the earliest runs first.
    pub open spec fn expire(self, now: u64) -> Model<C> {
        Model {
            timers: self.timers.skip(due(self.timers, now as int) as int),
            ..self.make_ready(tokens_of(self.expired(now)))
        }
    }

    /// How long the reactor may sleep at `now`: until the earliest timer
    /// falls due, or without limit if there is no timer.
    pub open spec fn next_delay(self, now: u64) -> Option<i32> {
        if self.timers.len() == 0 {
            None
        } else {
            Some(delay(self.timers[0].deadline as int, now as int) as i32)
        }
    }

    /// How many pieces of work `dispatch` hands out: as many as wait, or as
    /// many as there are idle workers, whichever is fewer.
    pub open spec fn dispatch_count(self) -> nat {
        if self.queue.len() <= self.free.len() {
            self.queue.len()
        } else {
            self.free.len()
        }
    }

    /// The callback handed out last has returned: its share, if it still had
    /// one, is off the pending counter.
    pub open spec fn callback_done(self) -> Model<C> {
        if self.owed {
            Model { pending: (self.pending - 1) as nat, owed: false, ..self }
        } else {
            self
        }
    }

    /// The callback on top of the ready list and the result it is to get, if
    /// the list is not empty.
    pub open spec fn top(self) -> Option<(C, IOResult)> {
        if self.ready.len() == 0 {
            None
        } else {
            Some((self.registry[self.ready.last().0].callback, self.ready.last().1))
        }
    }

    /// The callback handed out before has returned, and the callback on top
    /// of the ready list, if there is one, has left the list and the
    /// registry.
    pub open spec fn next_callback(self) -> Model<C> {
        let m = self.callback_done();
        if m.ready.len() == 0 {
            m
        } else {
            let token = m.ready.last().0;
            Model {
                registry: m.registry.remove(token),
                ready: m.ready.drop_last(),
                owed: m.registry[token].stage != Stage::Settled,
                invocations: m.invocations + 1,
                ..m
            }
        }
    }
}

} // verus!
