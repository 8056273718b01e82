//! The timer wheel: pending timers in the order of their deadlines.
use vstd::prelude::*;

verus! {

/// One pending timer: when it falls due, in milliseconds, and the identity of
/// the callback to run then.
#[derive(Clone, Copy, Debug, PartialEq, Eq, Structural)]
pub struct Timer {
    pub deadline: u128,
    pub token: usize,
}

/// The deadlines never decrease along the sequence.
pub open spec fn sorted(s: Seq<Timer>) -> bool {
    forall|i: int, j: int| 0 <= i <= j < s.len() ==> s[i].deadline <= s[j].deadline
}

/// How many timers at the front of `s` have a deadline no later than `now`.
/// In a sorted sequence these are all the timers that are due.
pub open spec fn due(s: Seq<Timer>, now: int) -> nat
    decreases s.len(),
{
    if s.len() > 0 && s[0].deadline <= now {
        1 + due(s.drop_first(), now)
    } else {
        0
    }
}

/// The identities of the timers in `s`, in the same order.
pub open spec fn tokens_of(s: Seq<Timer>) -> Seq<usize> {
    s.map_values(|t: Timer| t.token)
}

/// The time left from `now` until `deadline`, in milliseconds: never negative,
/// and capped at the largest `i32`.
pub open spec fn delay(deadline: int, now: int) -> int {
    if deadline <= now {
        0
    } else if deadline - now > i32::MAX {
        i32::MAX as int
    } else {
        deadline - now
    }
}

/// `due` is the one index that splits `s` into a front that is due and a rest
/// that starts with a timer that is not.
pub proof fn lemma_due_unique(s: Seq<Timer>, now: int, k: int)
    requires
        0 <= k <= s.len(),
        forall|i: int| 0 <= i < k ==> s[i].deadline <= now,
        k < s.len() ==> s[k].deadline > now,
    ensures
        due(s, now) == k,
    decreases k,
{
    if k > 0 {
        let t = s.drop_first();
        assert forall|i: int| 0 <= i < k - 1 implies t[i].deadline <= now by {
            assert(t[i] == s[i + 1]);
        }
        if k < s.len() {
            assert(t[k - 1] == s[k]);
        }
        lemma_due_unique(t, now, k - 1);
    }
}

/// What `due` counts: it stays within the sequence, everything before it is
/// due, and the timer at it, if there is one, is not.
pub proof fn lemma_due_splits(s: Seq<Timer>, now: int)
    ensures
        due(s, now) <= s.len(),
        forall|i: int| 0 <= i < due(s, now) ==> s[i].deadline <= now,
        due(s, now) < s.len() ==> s[due(s, now) as int].deadline > now,
    decreases s.len(),
{
    if s.len() > 0 && s[0].deadline <= now {
        let t = s.drop_first();
        lemma_due_splits(t, now);
        assert forall|i: int| 0 <= i < due(s, now) implies s[i].deadline <= now by {
            if i > 0 {
                assert(s[i] == t[i - 1]);
            }
        }
        if due(s, now) < s.len() {
            assert(s[due(s, now) as int] == t[due(t, now) as int]);
        }
    }
}

/// In a sorted sequence nothing behind the due front is due.
pub proof fn lemma_due_sorted(s: Seq<Timer>, now: int)
    requires
        sorted(s),
    ensures
        forall|i: int| due(s, now) <= i < s.len() ==> s[i].deadline > now,
{
    lemma_due_splits(s, now);
}

/// Putting a timer in at the end of the timers due by its own deadline keeps
/// the sequence sorted.
pub proof fn lemma_insert_sorted(s: Seq<Timer>, t: Timer)
    requires
        sorted(s),
    ensures
        sorted(s.insert(due(s, t.deadline as int) as int, t)),
{
    let k = due(s, t.deadline as int) as int;
    lemma_due_splits(s, t.deadline as int);
    lemma_due_sorted(s, t.deadline as int);
    let r = s.insert(k, t);
    assert forall|i: int, j: int| 0 <= i <= j < r.len() implies r[i].deadline <= r[j].deadline by {
        let a = if i < k { s[i] } else if i == k { t } else { s[i - 1] };
        let b = if j < k { s[j] } else if j == k { t } else { s[j - 1] };
        assert(r[i] == a);
        assert(r[j] == b);
    }
}

/// The time-ordered set of pending timers. Timers with the same deadline stay
/// in the order in which they were put in.
pub struct TimerWheel {
    entries: Vec<Timer>,
}

impl View for TimerWheel {
    type V = Seq<Timer>;

    closed spec fn view(&self) -> Seq<Timer> {
        self.entries@
    }
}

impl TimerWheel {
    /// The timers are held in deadline order.
    pub open spec fn wf(&self) -> bool {
        sorted(self@)
    }

    /// A wheel with no timers.
    pub fn new() -> (w: TimerWheel)
        ensures
            w.wf(),
            w@ == Seq::<Timer>::empty(),
    {
        TimerWheel { entries: Vec::new() }
    }

    /// The number of pending timers.
    pub fn len(&self) -> (n: usize)
        ensures
            n == self@.len(),
    {
        self.entries.len()
    }

    /// Adds a timer. It goes behind every timer whose deadline is no later
    /// than its own, so equal deadlines keep their order of arrival.
    pub fn insert(&mut self, deadline: u128, token: usize)
        requires
            old(self).wf(),
        ensures
            final(self).wf(),
            final(self)@ == old(self)@.insert(
                due(old(self)@, deadline as int) as int,
                Timer { deadline, token },
            ),
    {
        let mut i: usize = self.entries.len();
        while i > 0 && self.entries[i - 1].deadline > deadline
            invariant
                i <= self.entries.len(),
                forall|j: int| i <= j < self.entries.len() ==> self.entries@[j].deadline > deadline,
            decreases i,
        {
            i = i - 1;
        }
        proof {
            let s = self.entries@;
            assert forall|j: int| 0 <= j < i implies s[j].deadline <= deadline by {
                assert(s[j].deadline <= s[i - 1].deadline);
            }
            lemma_due_unique(s, deadline as int, i as int);
            lemma_insert_sorted(s, Timer { deadline, token });
        }
        self.entries.insert(i, Timer { deadline, token });
    }

    /// Removes every timer whose deadline is no later than `now` and returns
    /// their identities, earliest deadline first.
    pub fn pop_expired(&mut self, now: u64) -> (expired: Vec<usize>)
        requires
            old(self).wf(),
        ensures
            final(self).wf(),
            expired@ == tokens_of(old(self)@.take(due(old(self)@, now as int) as int)),
            final(self)@ == old(self)@.skip(due(old(self)@, now as int) as int),
    {
        let ghost s = self.entries@;
        let mut k: usize = 0;
        let mut expired: Vec<usize> = Vec::new();
        while k < self.entries.len() && self.entries[k].deadline <= now as u128
            invariant
                self.entries@ == s,
                k <= s.len(),
                forall|j: int| 0 <= j < k ==> s[j].deadline <= now,
                expired@ == tokens_of(s.take(k as int)),
            decreases s.len() - k,
        {
            expired.push(self.entries[k].token);
            k = k + 1;
            assert(tokens_of(s.take(k as int)) == tokens_of(s.take(k - 1)).push(s[k - 1].token));
        }
        proof {
            lemma_due_unique(s, now as int, k as int);
        }
        let rest = self.entries.split_off(k);
        self.entries = rest;
        assert(self.entries@ == s.skip(k as int));
        expired
    }

    /// How long the reactor may sleep before the earliest timer falls due:
    /// nothing if there is no timer, else the time left in milliseconds.
    pub fn next_delay(&self, now: u64) -> (d: Option<i32>)
        ensures
            d == (if self@.len() == 0 {
                None
            } else {
                Some(delay(self@[0].deadline as int, now as int) as i32)
            }),
    {
        if self.entries.len() == 0 {
            return None;
        }
        let deadline: u128 = self.entries[0].deadline;
        if deadline <= now as u128 {
            Some(0)
        } else {
            let left: u128 = deadline - now as u128;
            if left > i32::MAX as u128 {
                Some(i32::MAX)
            } else {
                Some(left as i32)
            }
        }
    }
}

} // verus!
