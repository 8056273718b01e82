//! Facts about sequences without repetition.
use vstd::prelude::*;

verus! {

/// What a sequence without repetition holds after one new value was put in.
pub proof fn lemma_insert_new<A>(s: Seq<A>, k: int, a: A)
    requires
        0 <= k <= s.len(),
        s.no_duplicates(),
        !s.contains(a),
    ensures
        s.insert(k, a).no_duplicates(),
        forall|x: A| #[trigger] s.insert(k, a).contains(x) <==> x == a || s.contains(x),
{
    let r = s.insert(k, a);
    assert forall|i: int, j: int| 0 <= i < r.len() && 0 <= j < r.len() && i != j implies r[i]
        != r[j] by {
        let ii = if i < k { i } else { i - 1 };
        let jj = if j < k { j } else { j - 1 };
        if i != k {
            assert(r[i] == s[ii]);
            assert(s.contains(s[ii]));
        }
        if j != k {
            assert(r[j] == s[jj]);
            assert(s.contains(s[jj]));
        }
    }
    assert forall|x: A| #[trigger] r.contains(x) <==> x == a || s.contains(x) by {
        if r.contains(x) {
            let i = choose|i: int| 0 <= i < r.len() && r[i] == x;
            if i != k {
                let ii = if i < k { i } else { i - 1 };
                assert(r[i] == s[ii]);
                assert(s.contains(s[ii]));
            }
        }
        if x == a {
            assert(r[k] == a);
        }
        if s.contains(x) {
            let i = choose|i: int| 0 <= i < s.len() && s[i] == x;
            let ii = if i < k { i } else { i + 1 };
            assert(r[ii] == x);
        }
    }
}

/// What a sequence without repetition holds after one new value was put on
/// its end.
pub proof fn lemma_push_new<A>(s: Seq<A>, a: A)
    requires
        s.no_duplicates(),
        !s.contains(a),
    ensures
        s.push(a).no_duplicates(),
        forall|x: A| #[trigger] s.push(a).contains(x) <==> x == a || s.contains(x),
{
    assert(s.push(a) =~= s.insert(s.len() as int, a));
    lemma_insert_new(s, s.len() as int, a);
}

/// What a sequence without repetition holds after its last value was taken
/// off.
pub proof fn lemma_drop_last<A>(s: Seq<A>)
    requires
        s.len() > 0,
        s.no_duplicates(),
    ensures
        s.drop_last().no_duplicates(),
        forall|x: A| #[trigger] s.drop_last().contains(x) <==> x != s.last() && s.contains(x),
{
    let r = s.drop_last();
    assert forall|x: A| #[trigger] r.contains(x) <==> x != s.last() && s.contains(x) by {
        if r.contains(x) {
            let i = choose|i: int| 0 <= i < r.len() && r[i] == x;
            assert(s[i] == x);
        }
        if x != s.last() && s.contains(x) {
            let i = choose|i: int| 0 <= i < s.len() && s[i] == x;
            assert(r[i] == x);
        }
    }
}

/// How a front and the rest behind it share the values of a sequence without
/// repetition.
pub proof fn lemma_split<A>(s: Seq<A>, k: int)
    requires
        0 <= k <= s.len(),
        s.no_duplicates(),
    ensures
        s.take(k).no_duplicates(),
        s.skip(k).no_duplicates(),
        forall|x: A| #[trigger] s.contains(x) <==> s.take(k).contains(x) || s.skip(k).contains(x),
        forall|x: A| !(#[trigger] s.take(k).contains(x) && s.skip(k).contains(x)),
{
    let a = s.take(k);
    let b = s.skip(k);
    assert forall|x: A| #[trigger] s.contains(x) <==> a.contains(x) || b.contains(x) by {
        if s.contains(x) {
            let i = choose|i: int| 0 <= i < s.len() && s[i] == x;
            if i < k {
                assert(a[i] == x);
            } else {
                assert(b[i - k] == x);
            }
        }
        if a.contains(x) {
            let i = choose|i: int| 0 <= i < a.len() && a[i] == x;
            assert(s[i] == x);
        }
        if b.contains(x) {
            let i = choose|i: int| 0 <= i < b.len() && b[i] == x;
            assert(s[i + k] == x);
        }
    }
    assert forall|x: A| !(#[trigger] a.contains(x) && b.contains(x)) by {
        if a.contains(x) && b.contains(x) {
            let i = choose|i: int| 0 <= i < a.len() && a[i] == x;
            let j = choose|j: int| 0 <= j < b.len() && b[j] == x;
            assert(s[i] == s[j + k]);
        }
    }
}

/// What two sequences without repetition and without a value in common hold
/// when one is put behind the other.
pub proof fn lemma_concat<A>(s: Seq<A>, t: Seq<A>)
    requires
        s.no_duplicates(),
        t.no_duplicates(),
        forall|x: A| !(#[trigger] s.contains(x) && t.contains(x)),
    ensures
        (s + t).no_duplicates(),
        forall|x: A| #[trigger] (s + t).contains(x) <==> s.contains(x) || t.contains(x),
{
    let r = s + t;
    assert forall|i: int, j: int| 0 <= i < r.len() && 0 <= j < r.len() && i != j implies r[i]
        != r[j] by {
        if i < s.len() && j >= s.len() {
            assert(s.contains(s[i]) && t.contains(t[j - s.len()]));
        }
        if j < s.len() && i >= s.len() {
            assert(s.contains(s[j]) && t.contains(t[i - s.len()]));
        }
    }
    assert forall|x: A| #[trigger] r.contains(x) <==> s.contains(x) || t.contains(x) by {
        if r.contains(x) {
            let i = choose|i: int| 0 <= i < r.len() && r[i] == x;
            if i < s.len() {
                assert(s[i] == x);
            } else {
                assert(t[i - s.len()] == x);
            }
        }
        if s.contains(x) {
            let i = choose|i: int| 0 <= i < s.len() && s[i] == x;
            assert(r[i] == x);
        }
        if t.contains(x) {
            let i = choose|i: int| 0 <= i < t.len() && t[i] == x;
            assert(r[i + s.len()] == x);
        }
    }
}

/// A sequence read backwards holds the same values, and none twice if the
/// sequence held none twice.
pub proof fn lemma_reverse<A>(s: Seq<A>)
    requires
        s.no_duplicates(),
    ensures
        s.reverse().no_duplicates(),
        forall|x: A| #[trigger] s.reverse().contains(x) <==> s.contains(x),
{
    let r = s.reverse();
    assert forall|x: A| #[trigger] r.contains(x) <==> s.contains(x) by {
        if r.contains(x) {
            let i = choose|i: int| 0 <= i < r.len() && r[i] == x;
            assert(s[s.len() - 1 - i] == x);
        }
        if s.contains(x) {
            let i = choose|i: int| 0 <= i < s.len() && s[i] == x;
            assert(r[s.len() - 1 - i] == x);
        }
    }
}

} // verus!
