//! The event loop's state and the operations on it.
use crate::clock::Clock;
use crate::identity::{is_next_identity, lemma_next_identity_unique};
use crate::ioresult::IOResult;
use crate::model::{Dispatch, Model, PendingEntry, Slot, Stage};
use crate::pollevent::PollEvent;
use crate::registry::CallbackRegistry;
use crate::preservation::{
    lemma_callback_done_inv, lemma_deliver_inv, lemma_dispatch_one_inv, lemma_enqueue_inv,
    lemma_expire_inv, lemma_fresh, lemma_generate_cb_identity_inv, lemma_initial_inv,
    lemma_next_callback_inv, lemma_register_epoll_event_inv, lemma_set_timeout_at_inv,
};
use crate::task::{Task, ThreadPoolTaskKind, Work};
use crate::timers::{due, lemma_due_splits, tokens_of, TimerWheel};
use vstd::prelude::*;

verus! {

/// The number of workers in the pool of a loop made by `Runtime::new`.
pub const THREADS: usize = 4;

/// The state of one event loop: the callback registry, the ready list, the
/// timer wheel, the queue of work for the worker pool, the idle workers and
/// the pending counter. `C` is the type of the callbacks; the loop only
/// keeps them and hands each out once.
pub struct Runtime<C> {
    callback_pending: CallbackRegistry<C>,
    callback_ready: Vec<(usize, IOResult)>,
    callback_token: usize,
    callback_owed: bool,
    pending_events: usize,
    thread_pool_event: Vec<PendingEntry<C>>,
    thread_available: Vec<usize>,
    threads: usize,
    timers: TimerWheel,
    clock: Clock,
    registrations: Ghost<nat>,
    invocations: Ghost<nat>,
}

impl<C> View for Runtime<C> {
    type V = Model<C>;

    closed spec fn view(&self) -> Model<C> {
        Model {
            registry: self.callback_pending@,
            ready: self.callback_ready@,
            timers: self.timers@,
            queue: self.thread_pool_event@,
            free: self.thread_available@,
            workers: self.threads as nat,
            counter: self.callback_token,
            pending: self.pending_events as nat,
            owed: self.callback_owed,
            registrations: self.registrations@,
            invocations: self.invocations@,
        }
    }
}

impl<C> Runtime<C> {
    /// The loop's state is consistent.
    pub open spec fn wf(&self) -> bool {
        self@.inv()
    }

    /// A loop with four workers, all idle, and nothing scheduled.
    pub fn new() -> (rt: Runtime<C>)
        ensures
            rt.wf(),
            rt@ == Model::<C>::initial(THREADS as nat),
    {
        Runtime::with_workers(THREADS)
    }

    /// A loop with `threads` workers, all idle, and nothing scheduled. With
    /// no worker at all, work that is queued is never handed out: it stays
    /// queued and pending, and the loop waits instead of ending.
    pub fn with_workers(threads: usize) -> (rt: Runtime<C>)
        ensures
            rt.wf(),
            rt@ == Model::<C>::initial(threads as nat),
    {
        let mut available: Vec<usize> = Vec::new();
        let mut i: usize = 0;
        while i < threads
            invariant
                i <= threads,
                available@ == Seq::new(i as nat, |j: int| j as usize),
            decreases threads - i,
        {
            available.push(i);
            i = i + 1;
            assert(available@ =~= Seq::new(i as nat, |j: int| j as usize));
        }
        let rt = Runtime {
            callback_pending: CallbackRegistry::new(),
            callback_ready: Vec::new(),
            callback_token: 0,
            callback_owed: false,
            pending_events: 0,
            thread_pool_event: Vec::new(),
            thread_available: available,
            threads,
            timers: TimerWheel::new(),
            clock: Clock::start(),
            registrations: Ghost(0),
            invocations: Ghost(0),
        };
        proof {
            lemma_initial_inv::<C>(threads as nat);
            assert(rt@.registry =~= Model::<C>::initial(threads as nat).registry);
            assert(rt@.ready =~= Model::<C>::initial(threads as nat).ready);
            assert(rt@.queue =~= Model::<C>::initial(threads as nat).queue);
        }
        rt
    }

    /// The pending counter: the loop goes on while it is above 0.
    pub fn pending_events(&self) -> (n: usize)
        ensures
            n == self@.pending,
    {
        self.pending_events
    }

    /// The number of registered callbacks.
    pub fn registered(&self) -> (n: usize)
        ensures
            n == self@.registry.dom().len(),
    {
        self.callback_pending.len()
    }

    /// Whether a callback is registered under `token`.
    pub fn is_registered(&self, token: usize) -> (b: bool)
        ensures
            b == self@.registry.contains_key(token),
    {
        self.callback_pending.contains(token)
    }

    /// The number of pieces of work that wait for a worker.
    pub fn queued(&self) -> (n: usize)
        ensures
            n == self@.queue.len(),
    {
        self.thread_pool_event.len()
    }

    /// The number of idle workers.
    pub fn idle_workers(&self) -> (n: usize)
        ensures
            n == self@.free.len(),
    {
        self.thread_available.len()
    }

    /// The size of the worker pool.
    pub fn workers(&self) -> (n: usize)
        ensures
            n == self@.workers,
    {
        self.threads
    }

    /// The number of callbacks on the ready list.
    pub fn ready(&self) -> (n: usize)
        ensures
            n == self@.ready.len(),
    {
        self.callback_ready.len()
    }

    /// The number of timers in the wheel.
    pub fn timers(&self) -> (n: usize)
        ensures
            n == self@.timers.len(),
    {
        self.timers.len()
    }

    /// The milliseconds on the loop's clock.
    pub fn now(&self) -> u64 {
        self.clock.now()
    }

    /// How many identities are not in use.
    pub fn identities_left(&self) -> (n: usize)
        ensures
            n == self@.identities_left(),
    {
        usize::MAX - self.callback_pending.len()
    }

    /// How many more callbacks can be registered and counted at once: as
    /// many as there are identities left, and as the pending counter can
    /// still count.
    pub fn room(&self) -> (n: usize)
        ensures
            n == self@.room(),
    {
        let by_identity: usize = usize::MAX - self.callback_pending.len();
        let by_counter: usize = usize::MAX - self.pending_events;
        if by_identity < by_counter {
            by_identity
        } else {
            by_counter
        }
    }

    /// Advances the identity counter to the next identity that is neither 0
    /// nor registered, and returns it.
    pub fn generate_cb_identity(&mut self) -> (token: usize)
        requires
            old(self).wf(),
            old(self)@.can_allocate(),
        ensures
            final(self).wf(),
            final(self)@ == old(self)@.generate_cb_identity(),
            token == final(self)@.counter,
            is_next_identity(old(self)@.counter, old(self)@.registry.dom(), token),
    {
        let token = self.callback_pending.next_identity(self.callback_token);
        proof {
            lemma_fresh(self@);
            lemma_next_identity_unique(
                self@.counter,
                self@.registry.dom(),
                token,
                self@.fresh(),
            );
            lemma_generate_cb_identity_inv(self@);
        }
        self.callback_token = token;
        token
    }

    /// Stores `cb` under `ident`, at `stage`.
    fn add_callback(&mut self, ident: usize, cb: C, stage: Stage)
        requires
            !old(self)@.registry.contains_key(ident),
        ensures
            final(self)@ == (Model {
                registry: old(self)@.registry.insert(ident, Slot { callback: cb, stage }),
                registrations: old(self)@.registrations + 1,
                ..old(self)@
            }),
    {
        self.callback_pending.register(ident, cb, stage);
        self.registrations = Ghost(self.registrations@ + 1);
    }

    /// Registers `cb` to run once `ms` milliseconds have passed since `now`.
    /// The callback is not run here: it waits in the timer wheel.
    pub fn set_timeout_at(&mut self, now: u64, ms: u64, cb: C)
        requires
            old(self).wf(),
            old(self)@.room() >= 1,
        ensures
            final(self).wf(),
            final(self)@ == old(self)@.set_timeout_at(now, ms, cb),
    {
        proof {
            lemma_set_timeout_at_inv(self@, now, ms, cb);
        }
        let cb_id = self.generate_cb_identity();
        self.add_callback(cb_id, cb, Stage::Timer);
        let timeout: u128 = now as u128 + ms as u128;
        self.timers.insert(timeout, cb_id);
        self.pending_events = self.pending_events + 1;
    }

    /// Registers `cb` to run once `ms` milliseconds have passed on the
    /// loop's clock.
    pub fn set_timeout(&mut self, ms: u64, cb: C)
        requires
            old(self).wf(),
            old(self)@.room() >= 1,
        ensures
            final(self).wf(),
            exists|now: u64| final(self)@ == old(self)@.set_timeout_at(now, ms, cb),
    {
        let now = self.clock.now();
        self.set_timeout_at(now, ms, cb);
    }

    /// Queues work for the worker pool, with the callback for its result.
    /// The work counts as pending from now on; nothing is handed to a worker
    /// here. Work of the kind `Close` is not work: that kind is for the task
    /// that ends a worker.
    pub fn register_event_threadpool(&mut self, task: Work, kind: ThreadPoolTaskKind, cb: C)
        requires
            old(self).wf(),
            old(self)@.can_count(),
            kind != ThreadPoolTaskKind::Close,
        ensures
            final(self).wf(),
            final(self)@ == old(self)@.enqueue(task, kind, cb),
    {
        proof {
            lemma_enqueue_inv(self@, task, kind, cb);
        }
        self.thread_pool_event.push(PendingEntry { work: task, kind, callback: cb });
        self.pending_events = self.pending_events + 1;
    }

    /// Registers `cb` under `token` for a descriptor that the reactor
    /// watches under the same identity.
    pub fn register_epoll_event(&mut self, token: usize, cb: C)
        requires
            old(self).wf(),
            old(self)@.room() >= 1,
            token != 0,
            !old(self)@.registry.contains_key(token),
        ensures
            final(self).wf(),
            final(self)@ == old(self)@.register_epoll_event(token, cb),
    {
        proof {
            lemma_register_epoll_event_inv(self@, token, cb);
        }
        self.add_callback(token, cb, Stage::Waiting);
        self.pending_events = self.pending_events + 1;
    }

    /// Hands the last queued work to the last idle worker.
    fn dispatch_one(&mut self) -> (sent: Dispatch)
        requires
            old(self).wf(),
            old(self)@.can_dispatch(),
            old(self)@.can_allocate(),
        ensures
            final(self).wf(),
            final(self)@ == old(self)@.dispatch_one(),
            sent == old(self)@.dispatched_one(),
            final(self)@.identities_left() == old(self)@.identities_left() - 1,
    {
        proof {
            lemma_fresh(self@);
            lemma_dispatch_one_inv(self@);
        }
        let ghost before = self@;
        let entry = self.thread_pool_event.pop().unwrap();
        let callback_id = self.callback_pending.next_identity(self.callback_token);
        proof {
            lemma_next_identity_unique(
                before.counter,
                before.registry.dom(),
                callback_id,
                before.fresh(),
            );
        }
        self.callback_token = callback_id;
        let thread_id = self.thread_available.pop().unwrap();
        self.add_callback(callback_id, entry.callback, Stage::InFlight(thread_id));
        Dispatch { thread_id, task: Task { task: entry.work, callback_id, kind: entry.kind } }
    }

    /// Hands queued work to idle workers, the last queued to the last idle,
    /// until the queue or the idle workers run out. Each piece of work gets
    /// a fresh identity, under which its callback is registered. Returns the
    /// tasks with their workers, for the caller to send.
    pub fn register_threadpool_event(&mut self) -> (sent: Vec<Dispatch>)
        requires
            old(self).wf(),
            old(self)@.identities_left() >= old(self)@.dispatch_count(),
        ensures
            final(self).wf(),
            final(self)@ == old(self)@.dispatch(),
            sent@ == old(self)@.dispatched(),
    {
        let mut sent: Vec<Dispatch> = Vec::new();
        while self.thread_pool_event.len() > 0 && self.thread_available.len() > 0
            invariant
                self.wf(),
                self@.identities_left() >= self@.dispatch_count(),
                self@.dispatch() == old(self)@.dispatch(),
                sent@ + self@.dispatched() == old(self)@.dispatched(),
            decreases self@.queue.len(),
        {
            let ghost before = self@;
            let ghost sent_before = sent@;
            let one = self.dispatch_one();
            sent.push(one);
            proof {
                assert(sent@ + self@.dispatched() =~= sent_before + before.dispatched());
            }
        }
        proof {
            assert(sent@ + self@.dispatched() =~= sent@);
        }
        sent
    }

    /// Takes in a worker's completion: the callback goes on the ready list
    /// with `data`, and the worker is idle again. Returns whether the loop
    /// waited for this completion; if not, nothing changes.
    pub fn process_threadpool_event(
        &mut self,
        thread_id: usize,
        callback_id: usize,
        data: IOResult,
    ) -> (accepted: bool)
        requires
            old(self).wf(),
        ensures
            final(self).wf(),
            accepted == old(self)@.expects(PollEvent::Threadpool(thread_id, callback_id, data)),
            final(self)@ == old(self)@.deliver(PollEvent::Threadpool(thread_id, callback_id, data)),
    {
        proof {
            lemma_deliver_inv(self@, PollEvent::Threadpool(thread_id, callback_id, data));
        }
        let waits = match self.callback_pending.stage(callback_id) {
            Some(stage) => stage == Stage::InFlight(thread_id),
            None => false,
        };
        if waits {
            self.restage(callback_id, Stage::Ready);
            self.callback_ready.push((callback_id, data));
            self.thread_available.push(thread_id);
        }
        waits
    }

    /// Takes in the reactor's report that the descriptor registered under
    /// `event_id` is ready: the callback goes on the ready list, to get
    /// `Undefined`, and comes off the pending counter at once. Returns
    /// whether the loop waited for this report; if not, nothing changes.
    pub fn process_epoll_event(&mut self, event_id: usize) -> (accepted: bool)
        requires
            old(self).wf(),
        ensures
            final(self).wf(),
            accepted == old(self)@.expects(PollEvent::Readiness(event_id)),
            final(self)@ == old(self)@.deliver(PollEvent::Readiness(event_id)),
    {
        proof {
            lemma_deliver_inv(self@, PollEvent::Readiness(event_id));
        }
        let waits = match self.callback_pending.stage(event_id) {
            Some(stage) => stage == Stage::Waiting,
            None => false,
        };
        if waits {
            self.restage(event_id, Stage::Settled);
            self.callback_ready.push((event_id, IOResult::Undefined));
            self.pending_events = self.pending_events - 1;
        }
        waits
    }

    /// Takes in one event from the inbound channel. Returns whether the loop
    /// waited for it; an event that nothing waits for changes nothing.
    pub fn deliver(&mut self, event: PollEvent) -> (accepted: bool)
        requires
            old(self).wf(),
        ensures
            final(self).wf(),
            accepted == old(self)@.expects(event),
            final(self)@ == old(self)@.deliver(event),
    {
        match event {
            PollEvent::Threadpool(thread_id, callback_id, data) => {
                self.process_threadpool_event(thread_id, callback_id, data)
            },
            PollEvent::Readiness(event_id) => self.process_epoll_event(event_id),
            PollEvent::TimeoutTick => true,
        }
    }

    /// Moves the callback registered under `token` to another stage.
    fn restage(&mut self, token: usize, stage: Stage)
        requires
            old(self)@.registry.contains_key(token),
        ensures
            final(self)@ == (Model {
                registry: old(self)@.registry.insert(
                    token,
                    Slot { callback: old(self)@.registry[token].callback, stage },
                ),
                ..old(self)@
            }),
    {
        self.callback_pending.restage(token, stage);
    }

    /// Moves every timer whose deadline is no later than `now` from the
    /// wheel to the ready list, each to get `Undefined`, stacked so that the
    /// earliest deadline runs first.
    pub fn process_expired_timers_at(&mut self, now: u64)
        requires
            old(self).wf(),
        ensures
            final(self).wf(),
            final(self)@ == old(self)@.expire(now),
    {
        proof {
            lemma_expire_inv(self@, now);
        }
        let ghost before = self@;
        let mut expired: Vec<usize> = self.timers.pop_expired(now);
        let ghost gone = expired@;
        let ghost base = self@;
        proof {
            lemma_due_splits(before.timers, now as int);
            assert(gone == tokens_of(before.expired(now)));
            assert(gone.len() == due(before.timers, now as int));
            assert(base.make_ready(gone.skip(gone.len() as int)) == base) by {
                assert(gone.skip(gone.len() as int) =~= Seq::<usize>::empty());
                assert(base.make_ready(Seq::<usize>::empty()).registry =~= base.registry);
                assert(base.make_ready(Seq::<usize>::empty()).ready =~= base.ready);
            }
            assert forall|i: int| 0 <= i < gone.len() implies base.registry.contains_key(
                #[trigger] gone[i],
            ) by {
                assert(before.registry.contains_key(before.timers[i].token));
            }
        }
        while expired.len() > 0
            invariant
                expired.len() <= gone.len(),
                expired@ == gone.take(expired.len() as int),
                self@ == base.make_ready(gone.skip(expired.len() as int)),
                forall|i: int|
                    0 <= i < gone.len() ==> base.registry.contains_key(#[trigger] gone[i]),
            decreases expired.len(),
        {
            let ghost n = expired.len() as int;
            let callback_id = expired.pop().unwrap();
            proof {
                assert(callback_id == gone[n - 1]);
                assert(base.registry.contains_key(gone[n - 1]));
            }
            self.restage(callback_id, Stage::Ready);
            self.callback_ready.push((callback_id, IOResult::Undefined));
            proof {
                let rest = gone.skip(n);
                let more = gone.skip(n - 1);
                assert(more =~= seq![callback_id] + rest);
                assert(more.reverse() =~= rest.reverse().push(callback_id));
                assert forall|t: usize| more.contains(t) <==> t == callback_id || rest.contains(
                    t,
                ) by {
                    if more.contains(t) {
                        let i = choose|i: int| 0 <= i < more.len() && more[i] == t;
                        if i > 0 {
                            assert(rest[i - 1] == t);
                        }
                    }
                    if rest.contains(t) {
                        let i = choose|i: int| 0 <= i < rest.len() && rest[i] == t;
                        assert(more[i + 1] == t);
                    }
                    assert(more[0] == callback_id);
                }
                assert(self@.registry =~= base.make_ready(more).registry);
                assert(self@.ready =~= base.make_ready(more).ready);
                assert(expired@ =~= gone.take(n - 1));
            }
        }
        proof {
            assert(gone.skip(0) =~= gone);
            assert(self@.registry =~= before.expire(now).registry);
            assert(self@.ready =~= before.expire(now).ready);
        }
    }

    /// Moves the timers that are due on the loop's clock to the ready list.
    pub fn process_expired_timers(&mut self)
        requires
            old(self).wf(),
        ensures
            final(self).wf(),
            exists|now: u64| final(self)@ == old(self)@.expire(now),
    {
        let now = self.clock.now();
        self.process_expired_timers_at(now);
    }

    /// How long the reactor may sleep at `now` before the earliest timer
    /// falls due, in milliseconds; nothing if there is no timer.
    pub fn get_next_timer_at(&self, now: u64) -> (timeout: Option<i32>)
        ensures
            timeout == self@.next_delay(now),
    {
        self.timers.next_delay(now)
    }

    /// How long the reactor may sleep before the earliest timer falls due on
    /// the loop's clock.
    pub fn get_next_timer(&self) -> (timeout: Option<i32>)
        ensures
            exists|now: u64| timeout == self@.next_delay(now),
    {
        let now = self.clock.now();
        self.get_next_timer_at(now)
    }

    /// Records that the callback handed out last has returned: if it still
    /// had its share in the pending counter, the counter goes down by 1.
    pub fn callback_done(&mut self)
        requires
            old(self).wf(),
        ensures
            final(self).wf(),
            final(self)@ == old(self)@.callback_done(),
    {
        proof {
            lemma_callback_done_inv(self@);
        }
        if self.callback_owed {
            self.pending_events = self.pending_events - 1;
            self.callback_owed = false;
        }
    }

    /// Hands out the callback on top of the ready list with the result it is
    /// to get, for the caller to run; nothing if the list is empty. The
    /// callback leaves the registry. The callback handed out before counts
    /// as returned.
    pub fn next_callback(&mut self) -> (next: Option<(C, IOResult)>)
        requires
            old(self).wf(),
        ensures
            final(self).wf(),
            final(self)@ == old(self)@.next_callback(),
            next == old(self)@.top(),
    {
        proof {
            lemma_next_callback_inv(self@);
        }
        self.callback_done();
        match self.callback_ready.pop() {
            None => None,
            Some((callback_id, data)) => {
                let slot = self.callback_pending.fire(callback_id);
                self.invocations = Ghost(self.invocations@ + 1);
                self.callback_owed = !(slot.stage == Stage::Settled);
                Some((slot.callback, data))
            },
        }
    }
}

} // verus!
