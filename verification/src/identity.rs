//! Identities for callbacks: a counter that wraps around, skips 0 and skips
//! what is in use.
use std::collections::HashMap;
use vstd::prelude::*;
use vstd::set_lib::lemma_len_subset;

verus! {

/// How many steps the wrapping counter takes from `start` until it shows `x`:
/// at least one, and a full turn where `x` is `start` itself.
pub open spec fn ahead(start: usize, x: usize) -> int {
    if x > start {
        x - start
    } else {
        x - start + usize::MAX + 1
    }
}

/// `token` is the identity that the counter, standing at `start`, hands out
/// next: not 0, not among `taken`, and the first such value that the counter
/// comes to.
pub open spec fn is_next_identity(start: usize, taken: Set<usize>, token: usize) -> bool {
    &&& token != 0
    &&& !taken.contains(token)
    &&& forall|x: usize| #[trigger]
        ahead(start, x) < ahead(start, token) ==> x == 0 || taken.contains(x)
}

/// The values that the counter shows within its first `k` steps from `start`.
spec fn passed(start: usize, k: int) -> Set<usize> {
    Set::new(|x: usize| ahead(start, x) <= k)
}

/// The next identity is determined by the counter and the identities in use.
pub proof fn lemma_next_identity_unique(start: usize, taken: Set<usize>, a: usize, b: usize)
    requires
        is_next_identity(start, taken, a),
        is_next_identity(start, taken, b),
    ensures
        a == b,
{
    if ahead(start, a) < ahead(start, b) {
        assert(a == 0 || taken.contains(a));
    } else if ahead(start, b) < ahead(start, a) {
        assert(b == 0 || taken.contains(b));
    }
}

/// Once an identity that was handed out is in use, the counter hands out
/// another one next.
pub proof fn lemma_next_identity_differs(start: usize, taken: Set<usize>, a: usize, b: usize)
    requires
        is_next_identity(start, taken, a),
        is_next_identity(a, taken.insert(a), b),
    ensures
        a != b,
{
}

/// While fewer identities are in use than there are identities other than 0,
/// a next identity exists.
pub proof fn lemma_next_identity_exists(start: usize, taken: Set<usize>)
    requires
        taken.finite(),
        taken.len() < usize::MAX,
    ensures
        exists|t: usize| is_next_identity(start, taken, t),
{
    assert(passed(start, 0) =~= Set::<usize>::empty());
    let t = lemma_search(start, taken, 0);
    assert(is_next_identity(start, taken, t));
}

/// Among the values that the counter shows after its first `k` steps, one is
/// free, given that none of the first `k` is.
proof fn lemma_search(start: usize, taken: Set<usize>, k: int) -> (t: usize)
    requires
        taken.finite(),
        taken.len() < usize::MAX,
        0 <= k <= taken.len() + 1,
        passed(start, k).finite(),
        passed(start, k).len() == k,
        forall|x: usize| #[trigger] ahead(start, x) <= k ==> x == 0 || taken.contains(x),
    ensures
        is_next_identity(start, taken, t),
    decreases taken.len() + 1 - k,
{
    let next: usize = step(start, k + 1);
    assert(ahead(start, next) == k + 1);
    if next != 0 && !taken.contains(next) {
        assert forall|x: usize| #[trigger]
            ahead(start, x) < ahead(start, next) implies x == 0 || taken.contains(x) by {
            assert(ahead(start, x) <= k);
        }
        next
    } else {
        lemma_passed_grows(start, taken, k, next);
        lemma_search(start, taken, k + 1)
    }
}

/// The value that the counter shows `k` steps after `start`, for `k` up to a
/// full turn.
spec fn step(start: usize, k: int) -> usize {
    if start + k <= usize::MAX {
        (start + k) as usize
    } else {
        (start + k - usize::MAX - 1) as usize
    }
}

/// One more step that meets a value in use, or 0, adds that value to those
/// passed, so one more value is known to be in use or 0.
proof fn lemma_passed_grows(start: usize, taken: Set<usize>, k: int, next: usize)
    requires
        taken.finite(),
        0 <= k,
        passed(start, k).finite(),
        passed(start, k).len() == k,
        forall|x: usize| #[trigger] ahead(start, x) <= k ==> x == 0 || taken.contains(x),
        ahead(start, next) == k + 1,
        next == 0 || taken.contains(next),
    ensures
        passed(start, k + 1).finite(),
        passed(start, k + 1).len() == k + 1,
        forall|x: usize| #[trigger] ahead(start, x) <= k + 1 ==> x == 0 || taken.contains(x),
        k + 1 <= taken.len() + 1,
{
    assert(passed(start, k + 1) =~= passed(start, k).insert(next)) by {
        assert forall|x: usize| ahead(start, x) <= k + 1 implies ahead(start, x) <= k || x
            == next by {
            if ahead(start, x) == k + 1 {
                assert(x == next);
            }
        }
    }
    assert(!passed(start, k).contains(next));
    assert forall|x: usize| #[trigger] ahead(start, x) <= k + 1 implies x == 0 || taken.contains(
        x,
    ) by {
        if x != next {
            assert(ahead(start, x) <= k);
        }
    }
    assert(passed(start, k + 1).subset_of(taken.insert(0)));
    lemma_len_subset(passed(start, k + 1), taken.insert(0));
}

/// Advances the counter from `counter` until it shows a value that is neither
/// 0 nor in use, and returns that value. The search is over after at most
/// two steps more than there are identities in use.
pub fn next_identity<V>(counter: usize, in_use: &HashMap<usize, V>) -> (token: usize)
    requires
        in_use@.dom().len() < usize::MAX,
    ensures
        is_next_identity(counter, in_use@.dom(), token),
        ahead(counter, token) <= in_use@.dom().len() + 2,
{
    broadcast use vstd::std_specs::hash::group_hash_axioms;

    let ghost taken = in_use@.dom();
    let ghost k: int = 0;
    let mut current: usize = counter;
    proof {
        assert(passed(counter, 0) =~= Set::<usize>::empty());
    }
    loop
        invariant
            taken == in_use@.dom(),
            taken.finite(),
            taken.len() < usize::MAX,
            0 <= k <= taken.len() + 1,
            k == 0 ==> current == counter,
            k > 0 ==> ahead(counter, current) == k,
            passed(counter, k).finite(),
            passed(counter, k).len() == k,
            forall|x: usize| #[trigger] ahead(counter, x) <= k ==> x == 0 || taken.contains(x),
        decreases taken.len() + 1 - k,
    {
        let next: usize = if current == usize::MAX {
            0
        } else {
            current + 1
        };
        assert(ahead(counter, next) == k + 1);
        if next != 0 && !in_use.contains_key(&next) {
            proof {
                assert forall|x: usize| #[trigger]
                    ahead(counter, x) < ahead(counter, next) implies x == 0 || taken.contains(
                    x,
                ) by {
                    assert(ahead(counter, x) <= k);
                }
            }
            return next;
        }
        proof {
            lemma_passed_grows(counter, taken, k, next);
            k = k + 1;
        }
        current = next;
    }
}

} // verus!
