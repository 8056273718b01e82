//! What holds of the loop in every state and across its operations.
use crate::driver::{closing, ActionView, Phase};
use crate::ioresult::IOResult;
use crate::model::{Model, Slot, Stage};
use crate::pollevent::PollEvent;
use crate::preservation::{
    lemma_callback_done_inv, lemma_dispatch_inv, lemma_dispatch_one_inv, lemma_expire_inv,
    lemma_fresh,
    lemma_initial_inv, lemma_next_callback_inv, lemma_set_timeout_at_inv,
};
use crate::seqs::lemma_drop_last;
use crate::task::{ThreadPoolTaskKind, Work};
use crate::timers::{
    due, lemma_due_sorted, lemma_due_splits, lemma_due_unique, sorted, tokens_of, Timer,
};
use vstd::prelude::*;

verus! {

/// Every callback registered in `m` is registered in `n` too, and is the
/// same callback.
pub open spec fn keeps_callbacks<C>(m: Model<C>, n: Model<C>) -> bool {
    forall|t: usize| #[trigger]
        m.registry.contains_key(t) ==> n.registry.contains_key(t) && n.registry[t].callback
            == m.registry[t].callback
}

/// The work that is scheduled and whose callback has not been handed out:
/// the registered callbacks and the queued work.
pub open spec fn live<C>(m: Model<C>) -> nat {
    m.registry.dom().len() + m.queue.len()
}

/// An identity that is handed out is not 0 and not the identity of any
/// registered callback, and 0 is never the identity of a registered
/// callback.
pub proof fn law_identities_are_unique<C>(m: Model<C>)
    requires
        m.inv(),
        m.can_allocate(),
    ensures
        m.fresh() != 0,
        !m.registry.contains_key(m.fresh()),
        !m.registry.contains_key(0),
        m.generate_cb_identity().counter == m.fresh(),
{
    lemma_fresh(m);
}

/// Once the ready list is empty and the callback handed out last has
/// returned, the pending counter is the number of live entries: registered
/// callbacks and queued work.
pub proof fn lemma_pending_counts_live<C>(m: Model<C>)
    requires
        m.inv(),
        m.ready.len() == 0,
    ensures
        m.callback_done().pending == live(m),
{
    assert(m.counted() =~= m.registry.dom()) by {
        assert forall|t: usize| m.registry.contains_key(t) implies m.counted().contains(t) by {
            if m.registry[t].stage == Stage::Settled {
                assert(m.ready_tokens().contains(t));
            }
        }
    }
}

/// Between two iterations of the loop the pending counter is the number of
/// live entries: registered callbacks and queued work.
pub proof fn law_pending_counts_live<C>(m: Model<C>)
    requires
        m.inv(),
        m.at_boundary(),
    ensures
        m.pending == live(m),
{
    lemma_pending_counts_live(m);
}

/// Where the loop looks whether to end, at the top of an iteration and
/// after the ready callbacks have run, it ends if and only if no scheduled
/// work is left whose callback has not been handed out: no callback is
/// registered and no work is queued.
pub proof fn law_ends_when_all_is_done<C>(m: Model<C>)
    requires
        m.inv(),
        m.ready.len() == 0,
    ensures
        m.next_phase(Phase::Dispatch) == Phase::Finished <==> live(m) == 0,
        m.next_phase(Phase::RunReady) == Phase::Finished <==> live(m) == 0,
{
    lemma_pending_counts_live(m);
}

/// The loop asks to wait only with the ready list empty, something pending
/// and no queued work that an idle worker could take. Unless the pool has no
/// worker at all, a callback is then registered whose timer, worker or
/// descriptor the wait is for; and a timer in the wheel bounds the wait.
pub proof fn law_waits_only_for_what_can_come<C>(m: Model<C>, phase: Phase, now: u64)
    requires
        m.inv(),
        m.action(phase, now) is Wait,
    ensures
        phase == Phase::RunReady,
        m.ready.len() == 0,
        m.callback_done().pending > 0,
        !m.can_dispatch(),
        m.workers > 0 ==> m.registry.dom().len() > 0,
        m.action(phase, now) == ActionView::<C>::Wait(m.next_delay(now)),
        m.timers.len() > 0 ==> m.next_delay(now) is Some && m.next_delay(now).unwrap() >= 0,
{
    lemma_pending_counts_live(m);
    if m.workers > 0 && m.queue.len() > 0 {
        assert(!m.free.contains(0usize));
        assert(m.busy_with(0usize));
        let t = choose|t: usize| #[trigger]
            m.registry.contains_key(t) && m.registry[t].stage == Stage::InFlight(0usize);
        assert(m.registry.dom().contains(t));
        assert(m.registry.dom().remove(t).len() == m.registry.dom().len() - 1);
    }
}

/// A pool without workers hands out no work: what is queued stays queued
/// and pending, so the loop does not end but waits.
pub proof fn law_without_workers_work_stays_queued<C>(m: Model<C>, now: u64)
    requires
        m.inv(),
        m.workers == 0,
    ensures
        m.free.len() == 0,
        !m.can_dispatch(),
        m.dispatch() == m,
        m.dispatched() == Seq::<crate::model::Dispatch>::empty(),
        m.queue.len() > 0 ==> m.next_phase(Phase::Dispatch) != Phase::Finished && m.next_phase(
            Phase::RunReady,
        ) != Phase::Finished,
        m.queue.len() > 0 && m.ready.len() == 0 ==> m.action(Phase::RunReady, now) is Wait,
{
    if m.free.len() > 0 {
        assert(m.free[0] < m.workers);
    }
}

/// The loop hands out the ready callbacks before it looks whether to end,
/// and it ends only with nothing pending and nothing queued.
pub proof fn law_ends_only_when_nothing_is_pending<C>(m: Model<C>, phase: Phase, now: u64)
    requires
        m.inv(),
        phase != Phase::Finished,
    ensures
        m.action(phase, now) is Shutdown <==> m.next_phase(phase) == Phase::Finished,
        m.next_phase(phase) == Phase::Finished ==> m.callback_done().pending == 0
            && m.queue.len() == 0 && (phase == Phase::Dispatch || m.ready.len() == 0),
{
}

/// The timers that fall due go on the ready list so that the earlier
/// deadline is handed out first, equal deadlines in their order of
/// registration, each to get `Undefined`; and every timer left in the wheel
/// has a later deadline than any that fell due.
pub proof fn law_timers_fire_in_deadline_order<C>(m: Model<C>, now: u64)
    requires
        m.inv(),
    ensures
        sorted(m.expired(now)),
        m.expire(now).ready.len() == m.ready.len() + m.expired(now).len(),
        forall|i: int|
            0 <= i < m.expired(now).len() ==> m.expire(now).ready[m.expire(now).ready.len() - 1
                - i] == (#[trigger] m.expired(now)[i].token, IOResult::Undefined),
        forall|i: int, j: int|
            0 <= i < m.expired(now).len() && 0 <= j < m.expire(now).timers.len()
                ==> (#[trigger] m.expired(now)[i]).deadline <= now < (#[trigger] m.expire(
                now,
            ).timers[j]).deadline,
        m.expire(now).ready.take(m.ready.len() as int) == m.ready,
{
    let gone = m.expired(now);
    let n = m.expire(now);
    let k = due(m.timers, now as int) as int;
    lemma_due_splits(m.timers, now as int);
    lemma_due_sorted(m.timers, now as int);
    let tokens = tokens_of(gone);
    assert(tokens.len() == gone.len());
    assert forall|i: int| 0 <= i < gone.len() implies n.ready[n.ready.len() - 1 - i] == (
        #[trigger] gone[i].token,
        IOResult::Undefined,
    ) by {
        let stacked = tokens.reverse().map_values(|t: usize| (t, IOResult::Undefined));
        assert(n.ready[n.ready.len() - 1 - i] == stacked[gone.len() - 1 - i]);
        assert(tokens.reverse()[gone.len() - 1 - i] == tokens[i]);
    }
    assert forall|i: int, j: int|
        0 <= i < gone.len() && 0 <= j < n.timers.len() implies (#[trigger] gone[i]).deadline
        <= now < (#[trigger] n.timers[j]).deadline by {
        assert(gone[i] == m.timers[i]);
        assert(n.timers[j] == m.timers[j + k]);
    }
    assert(n.ready.take(m.ready.len() as int) =~= m.ready);
}

/// Over two scans of the wheel, one at `now` and one after it at `later`,
/// every timer that falls due in the second has a later deadline than any
/// that fell due in the first: the order of deadlines holds from one
/// iteration of the loop to the next.
pub proof fn law_later_scans_fire_later_deadlines<C>(m: Model<C>, now: u64, later: u64)
    requires
        m.inv(),
    ensures
        forall|i: int, j: int|
            0 <= i < m.expired(now).len() && 0 <= j < m.expire(now).expired(later).len()
                ==> (#[trigger] m.expired(now)[i]).deadline < (#[trigger] m.expire(now).expired(
                later,
            )[j]).deadline,
{
    let n = m.expire(now);
    law_timers_fire_in_deadline_order(m, now);
    lemma_due_splits(n.timers, later as int);
    assert forall|i: int, j: int|
        0 <= i < m.expired(now).len() && 0 <= j < n.expired(later).len() implies (
    #[trigger] m.expired(now)[i]).deadline < (#[trigger] n.expired(later)[j]).deadline by {
        assert(n.expired(later)[j] == n.timers[j]);
    }
}

/// A timer whose deadline is no earlier than that of any timer in the wheel
/// goes to the end of the wheel.
pub proof fn law_latest_timer_goes_last<C>(m: Model<C>, now: u64, ms: u64, cb: C)
    requires
        m.inv(),
        m.can_allocate(),
        forall|i: int| 0 <= i < m.timers.len() ==> (#[trigger] m.timers[i]).deadline <= now + ms,
    ensures
        m.set_timeout_at(now, ms, cb).timers == m.timers.push(
            Timer { deadline: (now + ms) as u128, token: m.fresh() },
        ),
{
    lemma_due_unique(m.timers, now + ms, m.timers.len() as int);
    assert(m.timers.insert(
        m.timers.len() as int,
        Timer { deadline: (now + ms) as u128, token: m.fresh() },
    ) =~= m.timers.push(Timer { deadline: (now + ms) as u128, token: m.fresh() }));
}

/// Registering a timer runs nothing, whatever its delay, 0 included: the
/// ready list stays as it is and the callback waits in the registry. At any
/// time from its deadline on the timer is among those that fall due.
pub proof fn law_timeout_is_deferred<C>(m: Model<C>, now: u64, ms: u64, cb: C, later: u64)
    requires
        m.inv(),
        m.can_allocate(),
        later >= now + ms,
    ensures
        m.set_timeout_at(now, ms, cb).ready == m.ready,
        m.set_timeout_at(now, ms, cb).top() == m.top(),
        m.set_timeout_at(now, ms, cb).registry.contains_key(m.fresh()),
        m.set_timeout_at(now, ms, cb).registry[m.fresh()] == (Slot {
            callback: cb,
            stage: Stage::Timer,
        }),
        tokens_of(m.set_timeout_at(now, ms, cb).expired(later)).contains(m.fresh()),
{
    let n = m.set_timeout_at(now, ms, cb);
    let token = m.fresh();
    let deadline = (now + ms) as u128;
    let k = due(m.timers, deadline as int) as int;
    lemma_fresh(m);
    lemma_due_splits(m.timers, deadline as int);
    assert(n.timers[k] == Timer { deadline, token });
    lemma_due_splits(n.timers, later as int);
    lemma_set_timeout_at_inv(m, now, ms, cb);
    lemma_due_sorted(n.timers, later as int);
    let d = due(n.timers, later as int) as int;
    assert(k < d);
    assert(n.expired(later)[k] == n.timers[k]);
    assert(tokens_of(n.expired(later))[k] == token);
    if m.ready.len() > 0 {
        assert(m.registry.contains_key(m.ready[m.ready.len() - 1].0));
    }
}

/// A loop with nothing scheduled ends at once, and asks for one closing task
/// for each worker, under the reserved identity 0.
pub proof fn law_nothing_scheduled_ends_at_once<C>(workers: nat, now: u64)
    requires
        workers <= usize::MAX,
    ensures
        Model::<C>::initial(workers).next_phase(Phase::Dispatch) == Phase::Finished,
        Model::<C>::initial(workers).action(Phase::Dispatch, now) == ActionView::<C>::Shutdown(
            closing(workers),
        ),
        Model::<C>::initial(workers).advance(Phase::Dispatch, now) == Model::<C>::initial(workers),
        closing(workers).len() == workers,
        forall|i: int|
            0 <= i < workers ==> (#[trigger] closing(workers)[i]).thread_id == i && closing(
                workers,
            )[i].task.kind == ThreadPoolTaskKind::Close && closing(workers)[i].task.callback_id
                == 0,
{
}

/// Handing out queued work drops none of it: as many pieces go out as wait
/// or as workers are idle, whichever is fewer, the last queued to the last
/// idle worker, and the rest stays queued in its order. Afterwards no worker
/// is idle while work is queued. Each piece goes out with its own work and
/// kind, never the kind that closes a worker, and goes on counting as
/// pending.
pub proof fn law_dispatch_keeps_the_rest<C>(m: Model<C>)
    requires
        m.inv(),
        m.identities_left() >= m.dispatch_count(),
    ensures
        m.dispatch().inv(),
        !m.dispatch().can_dispatch(),
        forall|i: int|
            0 <= i < m.dispatch_count() ==> (#[trigger] m.dispatched()[i]).task.kind
                != ThreadPoolTaskKind::Close,
        m.dispatched().len() == m.dispatch_count(),
        m.dispatch().queue == m.queue.take(m.queue.len() - m.dispatch_count()),
        m.dispatch().free == m.free.take(m.free.len() - m.dispatch_count()),
        m.dispatch().pending == m.pending,
        m.dispatch().registry.dom().len() == m.registry.dom().len() + m.dispatch_count(),
        forall|i: int|
            0 <= i < m.dispatch_count() ==> (#[trigger] m.dispatched()[i]).thread_id
                == m.free[m.free.len() - 1 - i] && m.dispatched()[i].task.task
                == m.queue[m.queue.len() - 1 - i].work && m.dispatched()[i].task.kind
                == m.queue[m.queue.len() - 1 - i].kind,
        forall|i: int|
            0 <= i < m.dispatch_count() ==> m.dispatch().registry.contains_key(
                (#[trigger] m.dispatched()[i]).task.callback_id,
            ) && m.dispatch().registry[m.dispatched()[i].task.callback_id] == (Slot {
                callback: m.queue[m.queue.len() - 1 - i].callback,
                stage: Stage::InFlight(m.free[m.free.len() - 1 - i]),
            }),
        m.registry.submap_of(m.dispatch().registry),
    decreases m.queue.len(),
{
    if m.can_dispatch() {
        let n = m.dispatch_one();
        let token = m.fresh();
        lemma_fresh(m);
        lemma_dispatch_one_inv(m);
        lemma_dispatch_inv(m);
        law_dispatch_keeps_the_rest(n);
        let c = m.dispatch_count();
        assert forall|i: int| 0 <= i < c implies (#[trigger] m.dispatched()[i]).task.kind
            != ThreadPoolTaskKind::Close by {
            if i > 0 {
                assert(m.dispatched()[i] == n.dispatched()[i - 1]);
            } else {
                assert(m.dispatched()[0] == m.dispatched_one());
                assert(m.queue[m.queue.len() - 1].kind != ThreadPoolTaskKind::Close);
            }
        }
        assert(n.dispatch_count() == c - 1);
        assert(m.registry.submap_of(n.registry));
        assert(n.registry.contains_key(token));
        assert(m.registry.submap_of(m.dispatch().registry)) by {
            let end = m.dispatch().registry;
            assert forall|t: usize| #[trigger] m.registry.dom().contains(t) implies end.dom()
                .contains(t) && m.registry[t] == end[t] by {
                assert(n.registry.dom().contains(t));
            }
        }
        assert(m.dispatch().queue =~= m.queue.take(m.queue.len() - c));
        assert(m.dispatch().free =~= m.free.take(m.free.len() - c));
        assert forall|i: int| 0 <= i < c implies (#[trigger] m.dispatched()[i]).thread_id
            == m.free[m.free.len() - 1 - i] && m.dispatched()[i].task.task == m.queue[m.queue.len()
            - 1 - i].work && m.dispatched()[i].task.kind == m.queue[m.queue.len() - 1 - i].kind by {
            if i > 0 {
                assert(m.dispatched()[i] == n.dispatched()[i - 1]);
            }
        }
        assert forall|i: int| 0 <= i < c implies m.dispatch().registry.contains_key(
            (#[trigger] m.dispatched()[i]).task.callback_id,
        ) && m.dispatch().registry[m.dispatched()[i].task.callback_id] == (Slot {
            callback: m.queue[m.queue.len() - 1 - i].callback,
            stage: Stage::InFlight(m.free[m.free.len() - 1 - i]),
        }) by {
            if i > 0 {
                let j = i - 1;
                assert(m.dispatched()[i] == n.dispatched()[j]);
                assert(n.dispatch().registry.contains_key(
                    (#[trigger] n.dispatched()[j]).task.callback_id,
                ));
                assert(n.queue[n.queue.len() - 1 - j] == m.queue[m.queue.len() - 1 - i]);
                assert(n.free[n.free.len() - 1 - j] == m.free[m.free.len() - 1 - i]);
                assert(m.dispatch() == n.dispatch());
            } else {
                assert(m.dispatched()[0] == m.dispatched_one());
                assert(m.dispatched()[0].task.callback_id == token);
                assert(n.registry.dom().contains(token));
                assert(n.registry[token] == Slot {
                    callback: m.queue.last().callback,
                    stage: Stage::InFlight(m.free.last()),
                });
                assert(n.dispatch().registry.dom().contains(token));
                assert(n.dispatch().registry[token] == n.registry[token]);
                assert(m.dispatch() == n.dispatch());
            }
        }
    } else {
        assert(m.queue.take(m.queue.len() as int) =~= m.queue);
        assert(m.free.take(m.free.len() as int) =~= m.free);
    }
}

/// As many callbacks have been handed out as were registered, less those
/// that are still registered: none is handed out that was not registered,
/// and none is lost. Between two iterations of the loop nothing is pending
/// if and only if no work is queued and every callback that was registered
/// has been handed out.
pub proof fn law_each_registration_is_run_once<C>(m: Model<C>)
    requires
        m.inv(),
    ensures
        m.invocations + m.registry.dom().len() == m.registrations,
        m.at_boundary() ==> (m.pending == 0 <==> m.queue.len() == 0 && m.invocations
            == m.registrations),
{
    if m.at_boundary() {
        lemma_pending_counts_live(m);
    }
}

/// Only a registration adds to the count of registrations, by one, and only
/// the handing out of a callback adds to the count of invocations, by one.
pub proof fn law_counts_move_with_the_registry<C>(
    m: Model<C>,
    now: u64,
    ms: u64,
    cb: C,
    work: Work,
    kind: ThreadPoolTaskKind,
    token: usize,
    event: PollEvent,
)
    requires
        m.inv(),
    ensures
        m.set_timeout_at(now, ms, cb).registrations == m.registrations + 1,
        m.register_epoll_event(token, cb).registrations == m.registrations + 1,
        m.can_dispatch() ==> m.dispatch_one().registrations == m.registrations + 1,
        m.enqueue(work, kind, cb).registrations == m.registrations,
        m.deliver(event).registrations == m.registrations,
        m.expire(now).registrations == m.registrations,
        m.callback_done().registrations == m.registrations,
        m.next_callback().registrations == m.registrations,
        m.set_timeout_at(now, ms, cb).invocations == m.invocations,
        m.register_epoll_event(token, cb).invocations == m.invocations,
        m.dispatch_one().invocations == m.invocations,
        m.enqueue(work, kind, cb).invocations == m.invocations,
        m.deliver(event).invocations == m.invocations,
        m.expire(now).invocations == m.invocations,
        m.callback_done().invocations == m.invocations,
        m.next_callback().invocations == m.invocations + (if m.ready.len() > 0 {
            1nat
        } else {
            0nat
        }),
{
}

/// No operation but the handing out of a callback takes a callback from the
/// registry or puts another in its place.
pub proof fn law_callbacks_are_kept<C>(
    m: Model<C>,
    now: u64,
    ms: u64,
    cb: C,
    work: Work,
    kind: ThreadPoolTaskKind,
    token: usize,
    event: PollEvent,
)
    requires
        m.inv(),
    ensures
        keeps_callbacks(m, m.generate_cb_identity()),
        m.can_allocate() ==> keeps_callbacks(m, m.set_timeout_at(now, ms, cb)),
        keeps_callbacks(m, m.enqueue(work, kind, cb)),
        m.identities_left() >= m.dispatch_count() ==> keeps_callbacks(m, m.dispatch()),
        !m.registry.contains_key(token) ==> keeps_callbacks(m, m.register_epoll_event(token, cb)),
        keeps_callbacks(m, m.deliver(event)),
        keeps_callbacks(m, m.expire(now)),
        keeps_callbacks(m, m.callback_done()),
{
    if m.can_allocate() {
        lemma_fresh(m);
    }
    if m.identities_left() >= m.dispatch_count() {
        law_dispatch_keeps_the_rest(m);
        let end = m.dispatch().registry;
        assert forall|t: usize| #[trigger] m.registry.contains_key(t) implies end.contains_key(t)
            && end[t].callback == m.registry[t].callback by {
            assert(m.registry.dom().contains(t));
        }
    }
}

/// The callback on top of the ready list is registered, so it can always be
/// handed out; once handed out it is gone from the registry and from the
/// ready list, so it is not handed out again; and every other callback
/// stays.
pub proof fn law_callback_is_handed_out_once<C>(m: Model<C>)
    requires
        m.inv(),
        m.ready.len() > 0,
    ensures
        m.registry.contains_key(m.ready.last().0),
        m.top() == Some((m.registry[m.ready.last().0].callback, m.ready.last().1)),
        m.next_callback().registry == m.registry.remove(m.ready.last().0),
        m.next_callback().ready == m.ready.drop_last(),
        !m.next_callback().ready_tokens().contains(m.ready.last().0),
        !m.next_callback().timer_tokens().contains(m.ready.last().0),
        m.next_callback().inv(),
{
    let n = m.next_callback();
    let token = m.ready.last().0;
    lemma_next_callback_inv(m);
    assert(n.ready_tokens() =~= m.ready_tokens().drop_last());
    assert(m.ready_tokens().last() == token);
    lemma_drop_last(m.ready_tokens());
    if n.timer_tokens().contains(token) {
        let i = choose|i: int| 0 <= i < n.timer_tokens().len() && n.timer_tokens()[i] == token;
        assert(n.registry.contains_key(n.timers[i].token));
    }
}

/// Every registered callback is on its way to the ready list: its timer is
/// in the wheel, or the loop waits for its worker's or the reactor's event
/// and puts it on top of the ready list when the event comes, or it is on
/// the ready list already.
pub proof fn law_every_callback_is_on_its_way<C>(m: Model<C>, t: usize, data: IOResult)
    requires
        m.inv(),
        m.registry.contains_key(t),
    ensures
        match m.registry[t].stage {
            Stage::Timer => m.timer_tokens().contains(t),
            Stage::InFlight(w) => m.expects(PollEvent::Threadpool(w, t, data)) && m.deliver(
                PollEvent::Threadpool(w, t, data),
            ).ready.last() == (t, data),
            Stage::Waiting => m.expects(PollEvent::Readiness(t)) && m.deliver(
                PollEvent::Readiness(t),
            ).ready.last() == (t, IOResult::Undefined),
            Stage::Ready => m.ready_tokens().contains(t),
            Stage::Settled => m.ready_tokens().contains(t),
        },
{
}

/// A worker's completion leaves the worker idle, so that work that waits in
/// the queue can be handed out.
pub proof fn law_completion_frees_a_worker<C>(
    m: Model<C>,
    worker: usize,
    token: usize,
    data: IOResult,
)
    requires
        m.inv(),
        m.expects(PollEvent::Threadpool(worker, token, data)),
    ensures
        m.deliver(PollEvent::Threadpool(worker, token, data)).free == m.free.push(worker),
        m.deliver(PollEvent::Threadpool(worker, token, data)).queue == m.queue,
        m.queue.len() > 0 ==> m.deliver(
            PollEvent::Threadpool(worker, token, data),
        ).can_dispatch(),
{
}

/// The loop waits at most once in an iteration: an iteration leads from the
/// top through the timers and the first run of the ready callbacks to the
/// one wait, and from there through the second run back to the top; it
/// asks to wait only where it passes from the first run to the second. It
/// goes back to the top without a wait only where queued work can be handed
/// to an idle worker.
pub proof fn law_one_wait_in_an_iteration<C>(m: Model<C>, phase: Phase, now: u64)
    ensures
        m.action(phase, now) is Wait <==> phase == Phase::RunReady && m.next_phase(phase)
            == Phase::Settle,
        phase == Phase::Dispatch ==> m.next_phase(phase) == Phase::Timers || m.next_phase(phase)
            == Phase::Finished,
        phase == Phase::Timers ==> m.next_phase(phase) == Phase::RunReady,
        phase == Phase::RunReady ==> m.next_phase(phase) == Phase::RunReady || m.next_phase(phase)
            == Phase::Settle || m.next_phase(phase) == Phase::Finished || (m.next_phase(phase)
            == Phase::Dispatch && m.can_dispatch()),
        phase == Phase::Settle ==> m.next_phase(phase) == Phase::Settle || m.next_phase(phase)
            == Phase::Dispatch,
        phase == Phase::Finished ==> m.next_phase(phase) == Phase::Finished,
        m.action(phase, now) is Invoke ==> m.next_phase(phase) == phase,
{
}

/// The identities of the callbacks that wait for a worker.
pub open spec fn in_flight<C>(m: Model<C>) -> Set<usize> {
    Set::new(|t: usize| m.registry.contains_key(t) && m.registry[t].stage is InFlight)
}

/// The worker that the callback registered under `t` waits for, if it
/// waits for one.
pub open spec fn worker_of<C>(m: Model<C>, t: usize) -> usize {
    match m.registry[t].stage {
        Stage::InFlight(w) => w,
        _ => 0,
    }
}

/// The numbers below `n`.
spec fn below(n: nat) -> Set<usize> {
    Set::new(|w: usize| w < n)
}

/// There are `n` numbers below `n`.
proof fn lemma_below(n: nat)
    requires
        n <= usize::MAX,
    ensures
        below(n).finite(),
        below(n).len() == n,
    decreases n,
{
    if n == 0 {
        assert(below(0) =~= Set::<usize>::empty());
    } else {
        lemma_below((n - 1) as nat);
        assert(below(n) =~= below((n - 1) as nat).insert((n - 1) as usize));
    }
}

/// Two finite sets with nothing in common have together as many elements
/// as the one and the other.
proof fn lemma_len_disjoint_union<A>(a: Set<A>, b: Set<A>)
    requires
        a.finite(),
        b.finite(),
        a.disjoint(b),
    ensures
        a.union(b).finite(),
        a.union(b).len() == a.len() + b.len(),
    decreases a.len(),
{
    if a.is_empty() {
        assert(a.union(b) =~= b);
    } else {
        let x = a.choose();
        lemma_len_disjoint_union(a.remove(x), b);
        assert(a.union(b) =~= a.remove(x).union(b).insert(x));
    }
}

/// As many jobs are in flight as workers are not idle: each worker that is
/// not idle has exactly one job, so with every worker busy the jobs in
/// flight are as many as the pool has workers, and never more.
pub proof fn law_jobs_in_flight<C>(m: Model<C>)
    requires
        m.inv(),
    ensures
        in_flight(m).finite(),
        in_flight(m).len() + m.free.len() == m.workers,
        in_flight(m).len() <= m.workers,
        m.queue.len() > 0 && !m.can_dispatch() ==> in_flight(m).len() == m.workers,
{
    let idle = m.free.to_set();
    let all = below(m.workers);
    let busy = all.difference(idle);
    let jobs = in_flight(m);
    let f = |t: usize| worker_of(m, t);
    m.free.unique_seq_to_set();
    vstd::seq_lib::seq_to_set_is_finite(m.free);
    lemma_below(m.workers);
    assert(busy.finite()) by {
        vstd::set_lib::lemma_len_difference(all, idle);
        vstd::set_lib::lemma_len_subset(busy, all);
    }
    assert(busy.union(idle) =~= all) by {
        assert forall|w: usize| idle.contains(w) implies all.contains(w) by {
            let i = choose|i: int| 0 <= i < m.free.len() && m.free[i] == w;
            assert(m.free[i] < m.workers);
        }
    }
    lemma_len_disjoint_union(busy, idle);
    assert(jobs.subset_of(m.registry.dom()));
    vstd::set_lib::lemma_len_subset(jobs, m.registry.dom());
    assert(vstd::relations::injective_on(f, jobs)) by {
        assert forall|a: usize, b: usize|
            jobs.contains(a) && jobs.contains(b) && #[trigger] f(a) == #[trigger] f(b) implies a
            == b by {
            assert(m.share_a_worker(a, b));
        }
    }
    assert(jobs.map(f) =~= busy) by {
        assert forall|w: usize| jobs.map(f).contains(w) implies busy.contains(w) by {
            let t = choose|t: usize| jobs.contains(t) && f(t) == w;
            assert(m.registry.contains_key(t));
            assert(m.in_place(t));
        }
        assert forall|w: usize| busy.contains(w) implies jobs.map(f).contains(w) by {
            assert(!m.free.contains(w));
            assert(m.busy_with(w));
            let t = choose|t: usize| #[trigger]
                m.registry.contains_key(t) && m.registry[t].stage == Stage::InFlight(w);
            assert(jobs.contains(t) && f(t) == w);
        }
    }
    vstd::set_lib::lemma_map_size(jobs, busy, f);
}

/// A sequence of different numbers below `n` has at most `n` entries.
proof fn lemma_bounded_distinct(s: Seq<usize>, n: nat)
    requires
        s.no_duplicates(),
        forall|i: int| 0 <= i < s.len() ==> #[trigger] s[i] < n,
    ensures
        s.len() <= n,
    decreases n,
{
    if n == 0 {
        if s.len() > 0 {
            assert(s[0] < n);
        }
    } else if exists|i: int| 0 <= i < s.len() && s[i] == n - 1 {
        let i = choose|i: int| 0 <= i < s.len() && s[i] == n - 1;
        let r = s.remove(i);
        assert forall|j: int| 0 <= j < r.len() implies #[trigger] r[j] < (n - 1) as nat by {
            let jj = if j < i { j } else { j + 1 };
            assert(r[j] == s[jj]);
            assert(s[jj] < n);
        }
        assert forall|a: int, b: int| 0 <= a < r.len() && 0 <= b < r.len() && a != b implies r[a]
            != r[b] by {
            let aa = if a < i { a } else { a + 1 };
            let bb = if b < i { b } else { b + 1 };
            assert(r[a] == s[aa] && r[b] == s[bb]);
        }
        lemma_bounded_distinct(r, (n - 1) as nat);
    } else {
        assert forall|j: int| 0 <= j < s.len() implies #[trigger] s[j] < (n - 1) as nat by {
            assert(s[j] < n);
        }
        lemma_bounded_distinct(s, (n - 1) as nat);
    }
}

/// Every worker is either idle or busy with one job in flight, never both,
/// so no more workers are idle than the pool has.
pub proof fn law_workers_are_idle_or_busy<C>(m: Model<C>)
    requires
        m.inv(),
    ensures
        m.free.len() <= m.workers,
        forall|w: usize| w < m.workers ==> (#[trigger] m.free.contains(w) <==> !m.busy_with(w)),
{
    lemma_bounded_distinct(m.free, m.workers);
    assert forall|w: usize| w < m.workers implies (#[trigger] m.free.contains(w) <==> !m.busy_with(
        w,
    )) by {
        if m.busy_with(w) {
            let t = choose|t: usize| #[trigger]
                m.registry.contains_key(t) && m.registry[t].stage == Stage::InFlight(w);
            assert(!m.free.contains(w));
        }
    }
}

/// The state after timers with the delays `delays` and the callbacks `cbs`
/// were registered at `now`, one after the other.
pub open spec fn with_timers<C>(m: Model<C>, now: u64, delays: Seq<u64>, cbs: Seq<C>) -> Model<C>
    decreases delays.len(),
{
    if delays.len() == 0 {
        m
    } else {
        with_timers(m, now, delays.drop_last(), cbs.drop_last()).set_timeout_at(
            now,
            delays.last(),
            cbs.last(),
        )
    }
}

/// The callbacks, each with its result, that the next `n` calls of
/// `next_callback` hand out, in the order in which they come.
pub open spec fn handed_out<C>(m: Model<C>, n: nat) -> Seq<(C, IOResult)>
    decreases n,
{
    if n == 0 || m.top() is None {
        Seq::empty()
    } else {
        seq![m.top().unwrap()] + handed_out(m.next_callback(), (n - 1) as nat)
    }
}

/// The state after `n` calls of `next_callback`.
pub open spec fn after_handing_out<C>(m: Model<C>, n: nat) -> Model<C>
    decreases n,
{
    if n == 0 {
        m
    } else {
        after_handing_out(m.next_callback(), (n - 1) as nat)
    }
}

/// The ready list is handed out from its top: the next `n` calls hand out
/// its last `n` entries, the last first, each with the callback registered
/// under its identity.
pub proof fn law_ready_list_is_a_stack<C>(m: Model<C>, n: nat)
    requires
        m.inv(),
        n <= m.ready.len(),
    ensures
        handed_out(m, n).len() == n,
        forall|i: int|
            0 <= i < n ==> #[trigger] handed_out(m, n)[i] == (
                m.registry[m.ready[m.ready.len() - 1 - i].0].callback,
                m.ready[m.ready.len() - 1 - i].1,
            ),
        after_handing_out(m, n).inv(),
        after_handing_out(m, n).ready == m.ready.take(m.ready.len() - n),
        after_handing_out(m, n).timers == m.timers,
        after_handing_out(m, n).free == m.free,
        after_handing_out(m, n).workers == m.workers,
        after_handing_out(m, n).queue == m.queue,
        after_handing_out(m, n).registry.submap_of(m.registry),
        after_handing_out(m, n).registrations == m.registrations,
        after_handing_out(m, n).invocations == m.invocations + n,
    decreases n,
{
    if n > 0 {
        let next = m.next_callback();
        let token = m.ready.last().0;
        law_callback_is_handed_out_once(m);
        law_ready_list_is_a_stack(next, (n - 1) as nat);
        assert(after_handing_out(m, n).ready =~= m.ready.take(m.ready.len() - n));
        assert forall|i: int| 0 <= i < n implies #[trigger] handed_out(m, n)[i] == (
            m.registry[m.ready[m.ready.len() - 1 - i].0].callback,
            m.ready[m.ready.len() - 1 - i].1,
        ) by {
            if i > 0 {
                let j = i - 1;
                assert(handed_out(m, n)[i] == handed_out(next, (n - 1) as nat)[j]);
                assert(next.ready[next.ready.len() - 1 - j] == m.ready[m.ready.len() - 1 - i]);
                let other = m.ready[m.ready.len() - 1 - i].0;
                assert(m.ready_tokens()[m.ready.len() - 1 - i] == other);
                assert(m.ready_tokens()[m.ready.len() - 1] == token);
                assert(other != token);
            }
        }
    } else {
        assert(m.ready.take(m.ready.len() as int) =~= m.ready);
    }
}

/// What the state holds after timers were registered, in the order of their
/// deadlines, in a loop that had nothing scheduled.
proof fn lemma_with_timers<C>(workers: nat, now: u64, delays: Seq<u64>, cbs: Seq<C>)
    requires
        workers <= usize::MAX,
        delays.len() == cbs.len(),
        delays.len() < usize::MAX,
        forall|i: int, j: int| 0 <= i <= j < delays.len() ==> delays[i] <= delays[j],
    ensures
        ({
            let m = with_timers(Model::<C>::initial(workers), now, delays, cbs);
            &&& m.inv()
            &&& m.at_boundary()
            &&& m.queue.len() == 0
            &&& m.workers == workers
            &&& m.free == Model::<C>::initial(workers).free
            &&& m.registry.dom().len() == delays.len()
            &&& m.registrations == delays.len()
            &&& m.invocations == 0
            &&& m.pending == delays.len()
            &&& m.timers.len() == delays.len()
            &&& forall|t: usize| #[trigger]
                m.registry.contains_key(t) ==> m.registry[t].stage == Stage::Timer
            &&& forall|i: int|
                0 <= i < delays.len() ==> (#[trigger] m.timers[i]).deadline == now + delays[i]
                    && m.registry.contains_key(m.timers[i].token)
                    && m.registry[m.timers[i].token].callback == cbs[i]
        }),
    decreases delays.len(),
{
    let start = Model::<C>::initial(workers);
    if delays.len() == 0 {
        lemma_initial_inv::<C>(workers);
    } else {
        let before = with_timers(start, now, delays.drop_last(), cbs.drop_last());
        let m = with_timers(start, now, delays, cbs);
        lemma_with_timers(workers, now, delays.drop_last(), cbs.drop_last());
        lemma_fresh(before);
        lemma_set_timeout_at_inv(before, now, delays.last(), cbs.last());
        assert forall|i: int| 0 <= i < before.timers.len() implies (
        #[trigger] before.timers[i]).deadline <= now + delays.last() by {
            assert(delays.drop_last()[i] == delays[i]);
        }
        law_latest_timer_goes_last(before, now, delays.last(), cbs.last());
        assert forall|i: int| 0 <= i < delays.len() implies (#[trigger] m.timers[i]).deadline == now
            + delays[i] && m.registry.contains_key(m.timers[i].token)
            && m.registry[m.timers[i].token].callback == cbs[i] by {
            if i < delays.len() - 1 {
                assert(m.timers[i] == before.timers[i]);
                assert(delays.drop_last()[i] == delays[i]);
                assert(cbs.drop_last()[i] == cbs[i]);
                assert(before.registry.contains_key(before.timers[i].token));
            }
        }
    }
}

/// Timers registered in the order of their deadlines, with nothing else
/// scheduled, have their callbacks handed out in that order once all are
/// due, each to get `Undefined`; after that nothing is pending.
pub proof fn law_timers_run_in_order<C>(
    workers: nat,
    now: u64,
    delays: Seq<u64>,
    cbs: Seq<C>,
    later: u64,
)
    requires
        workers <= usize::MAX,
        delays.len() == cbs.len(),
        delays.len() < usize::MAX,
        forall|i: int, j: int| 0 <= i <= j < delays.len() ==> delays[i] <= delays[j],
        forall|i: int| 0 <= i < delays.len() ==> now + delays[i] <= later,
    ensures
        ({
            let armed = with_timers(Model::<C>::initial(workers), now, delays, cbs);
            let due = armed.expire(later);
            let end = after_handing_out(due, delays.len()).callback_done();
            &&& handed_out(due, delays.len()) == Seq::new(
                delays.len(),
                |i: int| (cbs[i], IOResult::Undefined),
            )
            &&& end.pending == 0
            &&& end.registry.dom().len() == 0
            &&& end.registrations == delays.len()
            &&& end.invocations == delays.len()
        }),
{
    let armed = with_timers(Model::<C>::initial(workers), now, delays, cbs);
    let n = delays.len();
    lemma_with_timers(workers, now, delays, cbs);
    let due_model = armed.expire(later);
    lemma_expire_inv(armed, later);
    lemma_due_unique(armed.timers, later as int, n as int);
    law_timers_fire_in_deadline_order(armed, later);
    assert(armed.expired(later) =~= armed.timers);
    law_ready_list_is_a_stack(due_model, n);
    assert forall|i: int| 0 <= i < n implies #[trigger] handed_out(due_model, n)[i] == (
        cbs[i],
        IOResult::Undefined,
    ) by {
        assert(due_model.ready[due_model.ready.len() - 1 - i] == (
            armed.expired(later)[i].token,
            IOResult::Undefined,
        ));
        assert(armed.registry.contains_key(armed.timers[i].token));
    }
    assert(handed_out(due_model, n) =~= Seq::new(n, |i: int| (cbs[i], IOResult::Undefined)));
    let last = after_handing_out(due_model, n);
    let end = last.callback_done();
    lemma_callback_done_inv(last);
    assert(last.ready =~= Seq::<(usize, IOResult)>::empty());
    assert(last.timers =~= Seq::<Timer>::empty());
    assert(end.registry.dom() =~= Set::<usize>::empty()) by {
        assert forall|t: usize| !end.registry.contains_key(t) by {
            if end.registry.contains_key(t) {
                assert(last.registry.dom().contains(t));
                assert(due_model.registry.contains_key(t));
                assert(armed.registry.contains_key(t));
                assert(armed.timer_tokens().contains(t));
                assert(due_model.registry[t].stage == Stage::Ready);
                assert(end.ready_tokens().contains(t));
            }
        }
    }
    lemma_pending_counts_live(end);
}

} // verus!
