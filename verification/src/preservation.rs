//! Every operation of the loop keeps the invariant of its state.
use crate::identity::{is_next_identity, lemma_next_identity_exists};
use crate::model::{Model, Stage};
use crate::pollevent::PollEvent;
use crate::seqs::{
    lemma_concat, lemma_drop_last, lemma_insert_new, lemma_push_new, lemma_reverse, lemma_split,
};
use crate::task::{ThreadPoolTaskKind, Work};
use crate::timers::{due, lemma_due_splits, lemma_insert_sorted, tokens_of, Timer};
use vstd::prelude::*;
use vstd::set_lib::lemma_len_subset;

verus! {

/// The counted identities are finitely many, no more than are registered.
pub proof fn lemma_counted_finite<C>(m: Model<C>)
    requires
        m.registry.dom().finite(),
    ensures
        m.counted().finite(),
        m.counted().len() <= m.registry.dom().len(),
{
    assert(m.counted().subset_of(m.registry.dom()));
    lemma_len_subset(m.counted(), m.registry.dom());
}

/// While an identity can still be found, `fresh` is the next identity.
pub proof fn lemma_fresh<C>(m: Model<C>)
    requires
        m.registry.dom().finite(),
        m.can_allocate(),
    ensures
        is_next_identity(m.counter, m.registry.dom(), m.fresh()),
        m.fresh() != 0,
        !m.registry.contains_key(m.fresh()),
{
    lemma_next_identity_exists(m.counter, m.registry.dom());
}

/// A new loop's state meets the invariant.
pub proof fn lemma_initial_inv<C>(workers: nat)
    requires
        workers <= usize::MAX,
    ensures
        Model::<C>::initial(workers).inv(),
        Model::<C>::initial(workers).at_boundary(),
{
    let m = Model::<C>::initial(workers);
    assert(m.counted() =~= Set::<usize>::empty());
    assert(m.timer_tokens() =~= Seq::<usize>::empty());
    assert(m.ready_tokens() =~= Seq::<usize>::empty());
    assert forall|w: usize| w < m.workers implies #[trigger] m.free.contains(w) by {
        assert(m.free[w as int] == w);
    }
}

/// Advancing the identity counter keeps the invariant.
pub proof fn lemma_generate_cb_identity_inv<C>(m: Model<C>)
    requires
        m.inv(),
    ensures
        m.generate_cb_identity().inv(),
{
    let n = m.generate_cb_identity();
    assert forall|a: usize, b: usize| #[trigger] n.share_a_worker(a, b) implies a == b by {
        assert(m.share_a_worker(a, b));
    }
    assert(n.counted() =~= m.counted());
}

/// Registering a timer keeps the invariant.
pub proof fn lemma_set_timeout_at_inv<C>(m: Model<C>, now: u64, ms: u64, cb: C)
    requires
        m.inv(),
        m.can_allocate(),
    ensures
        m.set_timeout_at(now, ms, cb).inv(),
{
    let n = m.set_timeout_at(now, ms, cb);
    let token = m.fresh();
    let deadline = (now + ms) as u128;
    let k = due(m.timers, deadline as int) as int;
    let timer = Timer { deadline, token };
    lemma_fresh(m);
    lemma_due_splits(m.timers, deadline as int);
    lemma_insert_sorted(m.timers, timer);
    assert(!m.timer_tokens().contains(token)) by {
        if m.timer_tokens().contains(token) {
            let i = choose|i: int| 0 <= i < m.timer_tokens().len() && m.timer_tokens()[i] == token;
            assert(m.registry.contains_key(m.timers[i].token));
        }
    }
    assert(n.timer_tokens() =~= m.timer_tokens().insert(k, token));
    lemma_insert_new(m.timer_tokens(), k, token);
    assert forall|i: int| 0 <= i < n.timers.len() implies n.registry.contains_key(
        (#[trigger] n.timers[i]).token,
    ) && n.registry[n.timers[i].token].stage == Stage::Timer by {
        if i < k {
            assert(n.timers[i] == m.timers[i]);
        } else if i > k {
            assert(n.timers[i] == m.timers[i - 1]);
        }
    }
    assert forall|t: usize| #[trigger] n.registry.contains_key(t) implies n.in_place(t) by {
        if t != token {
            assert(m.registry.contains_key(t));
        }
    }
    assert forall|a: usize, b: usize| #[trigger] n.share_a_worker(a, b) implies a == b by {
        assert(m.share_a_worker(a, b));
    }
    assert forall|w: usize| w < n.workers && !(#[trigger] n.free.contains(w)) implies n.busy_with(
        w,
    ) by {
        assert(m.busy_with(w));
        let t = choose|t: usize| #[trigger]
            m.registry.contains_key(t) && m.registry[t].stage == Stage::InFlight(w);
        assert(n.registry.contains_key(t) && n.registry[t].stage == Stage::InFlight(w));
    }
    lemma_counted_finite(m);
    assert(n.counted() =~= m.counted().insert(token));
}

/// Queueing work keeps the invariant.
pub proof fn lemma_enqueue_inv<C>(m: Model<C>, work: Work, kind: ThreadPoolTaskKind, cb: C)
    requires
        m.inv(),
        kind != ThreadPoolTaskKind::Close,
    ensures
        m.enqueue(work, kind, cb).inv(),
{
    let n = m.enqueue(work, kind, cb);
    assert forall|i: int| 0 <= i < n.queue.len() implies (#[trigger] n.queue[i]).kind
        != ThreadPoolTaskKind::Close by {
        if i < m.queue.len() {
            assert(n.queue[i] == m.queue[i]);
        }
    }
    assert forall|a: usize, b: usize| #[trigger] n.share_a_worker(a, b) implies a == b by {
        assert(m.share_a_worker(a, b));
    }
    assert(n.counted() =~= m.counted());
}

/// Handing one piece of work to a worker keeps the invariant.
pub proof fn lemma_dispatch_one_inv<C>(m: Model<C>)
    requires
        m.inv(),
        m.can_dispatch(),
        m.can_allocate(),
    ensures
        m.dispatch_one().inv(),
{
    let n = m.dispatch_one();
    let token = m.fresh();
    let w = m.free.last();
    lemma_fresh(m);
    lemma_drop_last(m.free);
    assert(m.free[m.free.len() - 1] < m.workers);
    assert forall|i: int| 0 <= i < n.free.len() implies #[trigger] n.free[i] < n.workers by {
        assert(n.free[i] == m.free[i]);
    }
    assert forall|t: usize| #[trigger] n.registry.contains_key(t) implies n.in_place(t) by {
        if t != token {
            assert(m.registry.contains_key(t));
        }
    }
    assert forall|a: usize, b: usize| #[trigger] n.share_a_worker(a, b) implies a == b by {
        if a != token && b != token {
            assert(m.share_a_worker(a, b));
        } else if a != token {
            assert(m.registry.contains_key(a));
            assert(m.free.contains(w));
        } else if b != token {
            assert(m.registry.contains_key(b));
            assert(m.free.contains(w));
        }
    }
    assert forall|i: int| 0 <= i < n.timers.len() implies n.registry.contains_key(
        (#[trigger] n.timers[i]).token,
    ) && n.registry[n.timers[i].token].stage == Stage::Timer by {
        assert(m.registry.contains_key(m.timers[i].token));
    }
    assert forall|i: int| 0 <= i < n.ready.len() implies n.registry.contains_key(
        (#[trigger] n.ready[i]).0,
    ) && (n.registry[n.ready[i].0].stage == Stage::Ready || n.registry[n.ready[i].0].stage
        == Stage::Settled) by {
        assert(m.registry.contains_key(m.ready[i].0));
    }
    assert forall|x: usize| x < n.workers && !(#[trigger] n.free.contains(x)) implies n.busy_with(
        x,
    ) by {
        if x == w {
            assert(n.registry.contains_key(token) && n.registry[token].stage == Stage::InFlight(
                x,
            ));
        } else {
            assert(!m.free.contains(x));
            assert(m.busy_with(x));
            let t = choose|t: usize| #[trigger]
                m.registry.contains_key(t) && m.registry[t].stage == Stage::InFlight(x);
            assert(n.registry.contains_key(t) && n.registry[t].stage == Stage::InFlight(x));
        }
    }
    lemma_counted_finite(m);
    assert(n.counted() =~= m.counted().insert(token));
}

/// Registering a callback for the reactor keeps the invariant.
pub proof fn lemma_register_epoll_event_inv<C>(m: Model<C>, token: usize, cb: C)
    requires
        m.inv(),
        token != 0,
        !m.registry.contains_key(token),
    ensures
        m.register_epoll_event(token, cb).inv(),
{
    let n = m.register_epoll_event(token, cb);
    assert forall|t: usize| #[trigger] n.registry.contains_key(t) implies n.in_place(t) by {
        if t != token {
            assert(m.registry.contains_key(t));
        }
    }
    assert forall|a: usize, b: usize| #[trigger] n.share_a_worker(a, b) implies a == b by {
        assert(m.share_a_worker(a, b));
    }
    assert forall|i: int| 0 <= i < n.timers.len() implies n.registry.contains_key(
        (#[trigger] n.timers[i]).token,
    ) && n.registry[n.timers[i].token].stage == Stage::Timer by {
        assert(m.registry.contains_key(m.timers[i].token));
    }
    assert forall|i: int| 0 <= i < n.ready.len() implies n.registry.contains_key(
        (#[trigger] n.ready[i]).0,
    ) && (n.registry[n.ready[i].0].stage == Stage::Ready || n.registry[n.ready[i].0].stage
        == Stage::Settled) by {
        assert(m.registry.contains_key(m.ready[i].0));
    }
    assert forall|w: usize| w < n.workers && !(#[trigger] n.free.contains(w)) implies n.busy_with(
        w,
    ) by {
        assert(m.busy_with(w));
        let t = choose|t: usize| #[trigger]
            m.registry.contains_key(t) && m.registry[t].stage == Stage::InFlight(w);
        assert(n.registry.contains_key(t) && n.registry[t].stage == Stage::InFlight(w));
    }
    lemma_counted_finite(m);
    assert(n.counted() =~= m.counted().insert(token));
}

/// The callback's return keeps the invariant.
pub proof fn lemma_callback_done_inv<C>(m: Model<C>)
    requires
        m.inv(),
    ensures
        m.callback_done().inv(),
        !m.callback_done().owed,
        m.owed ==> m.pending >= 1,
{
    let n = m.callback_done();
    assert forall|a: usize, b: usize| #[trigger] n.share_a_worker(a, b) implies a == b by {
        assert(m.share_a_worker(a, b));
    }
    assert(n.counted() =~= m.counted());
}

/// Taking in an event keeps the invariant; a readiness event that is
/// expected finds the pending counter above 0.
pub proof fn lemma_deliver_inv<C>(m: Model<C>, event: PollEvent)
    requires
        m.inv(),
    ensures
        m.deliver(event).inv(),
        m.expects(event) && event is Readiness ==> m.pending >= 1,
{
    let n = m.deliver(event);
    if m.expects(event) {
        match event {
            PollEvent::Threadpool(worker, token, data) => {
                assert(!m.ready_tokens().contains(token)) by {
                    if m.ready_tokens().contains(token) {
                        let i = choose|i: int|
                            0 <= i < m.ready_tokens().len() && m.ready_tokens()[i] == token;
                        assert(m.registry.contains_key(m.ready[i].0));
                    }
                }
                assert(n.ready_tokens() =~= m.ready_tokens().push(token));
                lemma_push_new(m.ready_tokens(), token);
                lemma_push_new(m.free, worker);
                assert forall|i: int| 0 <= i < n.free.len() implies #[trigger] n.free[i]
                    < n.workers by {
                    if i < m.free.len() {
                        assert(n.free[i] == m.free[i]);
                    }
                }
                assert forall|t: usize| #[trigger] n.registry.contains_key(t) implies n.in_place(
                    t,
                ) by {
                    assert(m.registry.contains_key(t));
                    if t != token && m.registry[t].stage == Stage::InFlight(worker) {
                        assert(m.share_a_worker(t, token));
                    }
                }
                assert forall|a: usize, b: usize| #[trigger]
                    n.share_a_worker(a, b) implies a == b by {
                    assert(m.share_a_worker(a, b));
                }
                assert forall|i: int| 0 <= i < n.timers.len() implies n.registry.contains_key(
                    (#[trigger] n.timers[i]).token,
                ) && n.registry[n.timers[i].token].stage == Stage::Timer by {
                    assert(m.registry.contains_key(m.timers[i].token));
                }
                assert forall|i: int| 0 <= i < n.ready.len() implies n.registry.contains_key(
                    (#[trigger] n.ready[i]).0,
                ) && (n.registry[n.ready[i].0].stage == Stage::Ready
                    || n.registry[n.ready[i].0].stage == Stage::Settled) by {
                    if i < m.ready.len() {
                        assert(n.ready[i] == m.ready[i]);
                        assert(m.registry.contains_key(m.ready[i].0));
                    }
                }
                assert forall|x: usize|
                    x < n.workers && !(#[trigger] n.free.contains(x)) implies n.busy_with(x) by {
                    assert(!m.free.contains(x));
                    assert(m.busy_with(x));
                    let t = choose|t: usize| #[trigger]
                        m.registry.contains_key(t) && m.registry[t].stage == Stage::InFlight(x);
                    assert(n.registry.contains_key(t) && n.registry[t].stage == Stage::InFlight(
                        x,
                    ));
                }
                assert(n.counted() =~= m.counted());
            },
            PollEvent::Readiness(token) => {
                assert(!m.ready_tokens().contains(token)) by {
                    if m.ready_tokens().contains(token) {
                        let i = choose|i: int|
                            0 <= i < m.ready_tokens().len() && m.ready_tokens()[i] == token;
                        assert(m.registry.contains_key(m.ready[i].0));
                    }
                }
                assert(n.ready_tokens() =~= m.ready_tokens().push(token));
                lemma_push_new(m.ready_tokens(), token);
                assert forall|t: usize| #[trigger] n.registry.contains_key(t) implies n.in_place(
                    t,
                ) by {
                    assert(m.registry.contains_key(t));
                }
                assert forall|a: usize, b: usize| #[trigger]
                    n.share_a_worker(a, b) implies a == b by {
                    assert(m.share_a_worker(a, b));
                }
                assert forall|i: int| 0 <= i < n.timers.len() implies n.registry.contains_key(
                    (#[trigger] n.timers[i]).token,
                ) && n.registry[n.timers[i].token].stage == Stage::Timer by {
                    assert(m.registry.contains_key(m.timers[i].token));
                }
                assert forall|i: int| 0 <= i < n.ready.len() implies n.registry.contains_key(
                    (#[trigger] n.ready[i]).0,
                ) && (n.registry[n.ready[i].0].stage == Stage::Ready
                    || n.registry[n.ready[i].0].stage == Stage::Settled) by {
                    if i < m.ready.len() {
                        assert(n.ready[i] == m.ready[i]);
                        assert(m.registry.contains_key(m.ready[i].0));
                    }
                }
                assert forall|x: usize|
                    x < n.workers && !(#[trigger] n.free.contains(x)) implies n.busy_with(x) by {
                    assert(m.busy_with(x));
                    let t = choose|t: usize| #[trigger]
                        m.registry.contains_key(t) && m.registry[t].stage == Stage::InFlight(x);
                    assert(n.registry.contains_key(t) && n.registry[t].stage == Stage::InFlight(
                        x,
                    ));
                }
                lemma_counted_finite(m);
                assert(m.counted().contains(token));
                assert(n.counted() =~= m.counted().remove(token));
            },
            PollEvent::TimeoutTick => {},
        }
    }
}

/// Handing out the callback on top of the ready list keeps the invariant.
pub proof fn lemma_next_callback_inv<C>(m: Model<C>)
    requires
        m.inv(),
    ensures
        m.next_callback().inv(),
        m.ready.len() > 0 ==> m.registry.contains_key(m.ready.last().0),
{
    lemma_callback_done_inv(m);
    let d = m.callback_done();
    let n = m.next_callback();
    if d.ready.len() > 0 {
        let token = d.ready.last().0;
        assert(d.registry.contains_key(d.ready[d.ready.len() - 1].0));
        assert(n.ready_tokens() =~= d.ready_tokens().drop_last());
        assert(d.ready_tokens().last() == token);
        lemma_drop_last(d.ready_tokens());
        assert forall|t: usize| #[trigger] n.registry.contains_key(t) implies n.in_place(t) by {
            assert(d.registry.contains_key(t));
        }
        assert forall|a: usize, b: usize| #[trigger] n.share_a_worker(a, b) implies a == b by {
            assert(d.share_a_worker(a, b));
        }
        assert forall|i: int| 0 <= i < n.timers.len() implies n.registry.contains_key(
            (#[trigger] n.timers[i]).token,
        ) && n.registry[n.timers[i].token].stage == Stage::Timer by {
            assert(d.registry.contains_key(d.timers[i].token));
        }
        assert forall|i: int| 0 <= i < n.ready.len() implies n.registry.contains_key(
            (#[trigger] n.ready[i]).0,
        ) && (n.registry[n.ready[i].0].stage == Stage::Ready || n.registry[n.ready[i].0].stage
            == Stage::Settled) by {
            assert(n.ready[i] == d.ready[i]);
            assert(d.registry.contains_key(d.ready[i].0));
            assert(d.ready_tokens()[i] == d.ready[i].0);
            assert(n.ready_tokens()[i] == n.ready[i].0);
            assert(n.ready_tokens().contains(n.ready_tokens()[i]));
        }
        lemma_counted_finite(d);
        if d.registry[token].stage == Stage::Settled {
            assert(n.counted() =~= d.counted());
        } else {
            assert(d.counted().contains(token));
            assert(n.counted() =~= d.counted().remove(token));
        }
    }
}

/// Moving the timers that are due to the ready list keeps the invariant.
pub proof fn lemma_expire_inv<C>(m: Model<C>, now: u64)
    requires
        m.inv(),
    ensures
        m.expire(now).inv(),
{
    let n = m.expire(now);
    let k = due(m.timers, now as int) as int;
    let gone = m.expired(now);
    let gone_tokens = tokens_of(gone);
    lemma_due_splits(m.timers, now as int);
    assert(n.registry.dom() =~= m.registry.dom());
    assert(gone_tokens =~= m.timer_tokens().take(k));
    assert(n.timer_tokens() =~= m.timer_tokens().skip(k));
    lemma_split(m.timer_tokens(), k);
    lemma_reverse(gone_tokens);
    assert(n.ready_tokens() =~= m.ready_tokens() + gone_tokens.reverse());
    assert forall|x: usize|
        !(#[trigger] m.ready_tokens().contains(x) && gone_tokens.reverse().contains(x)) by {
        if m.ready_tokens().contains(x) && gone_tokens.reverse().contains(x) {
            let i = choose|i: int| 0 <= i < m.ready_tokens().len() && m.ready_tokens()[i] == x;
            let j = choose|j: int| 0 <= j < gone_tokens.len() && gone_tokens[j] == x;
            assert(m.registry.contains_key(m.ready[i].0));
            assert(m.registry.contains_key(m.timers[j].token));
        }
    }
    lemma_concat(m.ready_tokens(), gone_tokens.reverse());
    assert forall|i: int| 0 <= i < n.timers.len() implies n.registry.contains_key(
        (#[trigger] n.timers[i]).token,
    ) && n.registry[n.timers[i].token].stage == Stage::Timer by {
        assert(n.timers[i] == m.timers[i + k]);
        assert(m.registry.contains_key(m.timers[i + k].token));
        assert(m.timer_tokens().skip(k)[i] == m.timers[i + k].token);
        assert(m.timer_tokens().skip(k).contains(m.timers[i + k].token));
    }
    assert forall|i: int| 0 <= i < n.ready.len() implies n.registry.contains_key(
        (#[trigger] n.ready[i]).0,
    ) && (n.registry[n.ready[i].0].stage == Stage::Ready || n.registry[n.ready[i].0].stage
        == Stage::Settled) by {
        if i < m.ready.len() {
            assert(n.ready[i] == m.ready[i]);
            assert(m.registry.contains_key(m.ready[i].0));
        } else {
            let j = k - 1 - (i - m.ready.len());
            assert(n.ready[i].0 == gone[j].token);
            assert(gone[j] == m.timers[j]);
            assert(m.registry.contains_key(m.timers[j].token));
            assert(gone_tokens[j] == gone[j].token);
            assert(gone_tokens.contains(gone[j].token));
        }
    }
    assert forall|t: usize| #[trigger] n.registry.contains_key(t) implies n.in_place(t) by {
        assert(m.registry.contains_key(t));
    }
    assert forall|a: usize, b: usize| #[trigger] n.share_a_worker(a, b) implies a == b by {
        assert(m.share_a_worker(a, b));
    }
    assert(n.counted() =~= m.counted()) by {
        assert forall|t: usize| n.counted().contains(t) <==> m.counted().contains(t) by {
            if m.registry.contains_key(t) && gone_tokens.contains(t) {
                let j = choose|j: int| 0 <= j < gone_tokens.len() && gone_tokens[j] == t;
                assert(m.registry.contains_key(m.timers[j].token));
            }
        }
    }
}

/// Handing out queued work keeps the invariant, as long as an identity can be
/// found for each piece that goes out.
pub proof fn lemma_dispatch_inv<C>(m: Model<C>)
    requires
        m.inv(),
        m.identities_left() >= m.dispatch_count(),
    ensures
        m.dispatch().inv(),
    decreases m.queue.len(),
{
    if m.can_dispatch() {
        lemma_fresh(m);
        lemma_dispatch_one_inv(m);
        lemma_dispatch_inv(m.dispatch_one());
    }
}

} // verus!
