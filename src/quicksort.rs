use vstd::prelude::*;

verus! {

broadcast use {vstd::seq_lib::group_to_multiset_ensures, vstd::multiset::group_multiset_axioms};

/// The elements of `s` at positions `lo .. hi` are in ascending order.
pub open spec fn sorted_between(s: Seq<i64>, lo: int, hi: int) -> bool {
    forall|i: int, j: int| lo <= i <= j < hi ==> s[i] <= s[j]
}

/// The whole of `s` is in ascending order.
pub open spec fn is_sorted(s: Seq<i64>) -> bool {
    sorted_between(s, 0, s.len() as int)
}

/// `s` with the elements at positions `i` and `j` exchanged.
pub open spec fn swapped(s: Seq<i64>, i: int, j: int) -> Seq<i64> {
    s.update(i, s[j]).update(j, s[i])
}

proof fn lemma_swap_keeps_multiset(s: Seq<i64>, i: int, j: int)
    requires
        0 <= i < s.len(),
        0 <= j < s.len(),
    ensures
        swapped(s, i, j).to_multiset() =~= s.to_multiset(),
{
    let s1 = s.update(i, s[j]);
    assert(s1[j] == s[j]);
    assert(s.to_multiset().count(s[i]) > 0) by {
        assert(s.contains(s[i]));
    }
    assert(s.to_multiset().count(s[j]) > 0) by {
        assert(s.contains(s[j]));
    }
}

/// Exchanging two positions inside `lo .. hi` keeps the multiset of that window.
proof fn lemma_swap_keeps_window(s: Seq<i64>, i: int, j: int, lo: int, hi: int)
    requires
        0 <= lo <= i < hi <= s.len(),
        lo <= j < hi,
    ensures
        swapped(s, i, j).subrange(lo, hi).to_multiset() =~= s.subrange(lo, hi).to_multiset(),
{
    let w = s.subrange(lo, hi);
    assert(swapped(s, i, j).subrange(lo, hi) =~= swapped(w, i - lo, j - lo));
    lemma_swap_keeps_multiset(w, i - lo, j - lo);
}

/// Two sequences that agree outside `a .. b` and hold the same multiset inside it
/// hold the same multiset in every window `lo .. hi` around it.
proof fn lemma_window_grows(s1: Seq<i64>, s2: Seq<i64>, a: int, b: int, lo: int, hi: int)
    requires
        s1.len() == s2.len(),
        0 <= lo <= a <= b <= hi <= s1.len(),
        s1.subrange(a, b).to_multiset() == s2.subrange(a, b).to_multiset(),
        forall|k: int| lo <= k < hi && !(a <= k < b) ==> s1[k] == s2[k],
    ensures
        s1.subrange(lo, hi).to_multiset() == s2.subrange(lo, hi).to_multiset(),
{
    broadcast use vstd::seq_lib::lemma_multiset_commutative;

    assert(s1.subrange(lo, hi) =~= s1.subrange(lo, a) + s1.subrange(a, b) + s1.subrange(b, hi));
    assert(s2.subrange(lo, hi) =~= s2.subrange(lo, a) + s2.subrange(a, b) + s2.subrange(b, hi));
    assert(s1.subrange(lo, a) =~= s2.subrange(lo, a));
    assert(s1.subrange(b, hi) =~= s2.subrange(b, hi));
}

/// A property held by every element of `b` is held by every element of a
/// sequence `a` with the same multiset.
proof fn lemma_same_multiset_all(a: Seq<i64>, b: Seq<i64>, p: spec_fn(i64) -> bool)
    requires
        a.to_multiset() == b.to_multiset(),
        forall|k: int| 0 <= k < b.len() ==> p(#[trigger] b[k]),
    ensures
        forall|k: int| 0 <= k < a.len() ==> p(#[trigger] a[k]),
{
    assert forall|k: int| 0 <= k < a.len() implies p(#[trigger] a[k]) by {
        assert(a.contains(a[k]));
        assert(a.to_multiset().count(a[k]) > 0);
        assert(b.to_multiset().count(a[k]) > 0);
        assert(b.contains(a[k]));
    }
}

fn swap(v: &mut Vec<i64>, i: usize, j: usize)
    requires
        i < old(v).len(),
        j < old(v).len(),
    ensures
        final(v)@ == swapped(old(v)@, i as int, j as int),
{
    let a = v[i];
    let b = v[j];
    v.set(i, b);
    v.set(j, a);
}

/// Lomuto partition of the closed range `lo ..= hi` around the element at `hi`:
/// returns the final position of that element, with smaller elements before it
/// and the others after it.
fn partition(v: &mut Vec<i64>, lo: usize, hi: usize) -> (p: usize)
    requires
        lo < hi < old(v).len(),
    ensures
        lo <= p <= hi,
        final(v)@.len() == old(v)@.len(),
        final(v)@[p as int] == old(v)@[hi as int],
        forall|k: int| lo <= k < p ==> final(v)@[k] < final(v)@[p as int],
        forall|k: int| p < k <= hi ==> final(v)@[k] >= final(v)@[p as int],
        forall|k: int| 0 <= k < old(v)@.len() && (k < lo || k > hi) ==> final(v)@[k] == old(v)@[k],
        final(v)@.subrange(lo as int, hi + 1).to_multiset() == old(v)@.subrange(
            lo as int,
            hi + 1,
        ).to_multiset(),
{
    let ghost orig = v@;
    let pivot = v[hi];
    let mut idx: usize = lo;
    let mut i: usize = lo;
    while i < hi
        invariant
            lo <= idx <= i <= hi < v.len(),
            v@.len() == orig.len(),
            v@[hi as int] == pivot,
            pivot == orig[hi as int],
            forall|k: int| lo <= k < idx ==> v@[k] < pivot,
            forall|k: int| idx <= k < i ==> v@[k] >= pivot,
            forall|k: int| 0 <= k < orig.len() && (k < lo || k > hi) ==> v@[k] == orig[k],
            v@.subrange(lo as int, hi + 1).to_multiset() == orig.subrange(
                lo as int,
                hi + 1,
            ).to_multiset(),
        decreases hi - i,
    {
        if v[i] < pivot {
            proof {
                lemma_swap_keeps_window(v@, i as int, idx as int, lo as int, hi + 1);
            }
            swap(v, i, idx);
            idx = idx + 1;
        }
        i = i + 1;
    }
    proof {
        lemma_swap_keeps_window(v@, idx as int, hi as int, lo as int, hi + 1);
    }
    swap(v, idx, hi);
    idx
}

/// Sorts the closed range `lo ..= hi` of `v` ascending, in place; a range with
/// `lo >= hi` is left as it is.
pub fn quick_sort(v: &mut Vec<i64>, lo: usize, hi: usize)
    requires
        hi < old(v).len(),
    ensures
        final(v)@.len() == old(v)@.len(),
        forall|k: int| 0 <= k < old(v)@.len() && (k < lo || k > hi) ==> final(v)@[k] == old(v)@[k],
        lo <= hi ==> final(v)@.subrange(lo as int, hi + 1).to_multiset() == old(v)@.subrange(
            lo as int,
            hi + 1,
        ).to_multiset(),
        sorted_between(final(v)@, lo as int, hi + 1),
    decreases hi - lo,
{
    if lo >= hi {
        return;
    }
    let p = partition(v, lo, hi);
    let ghost s1 = v@;
    let ghost pivot = s1[p as int];
    if p > lo {
        quick_sort(v, lo, p - 1);
        proof {
            lemma_window_grows(v@, s1, lo as int, p as int, lo as int, hi + 1);
            lemma_same_multiset_all(
                v@.subrange(lo as int, p as int),
                s1.subrange(lo as int, p as int),
                |x: i64| x < pivot,
            );
            assert forall|k: int| lo <= k < p implies v@[k] < pivot by {
                assert(v@[k] == v@.subrange(lo as int, p as int)[k - lo]);
            }
        }
    }
    let ghost s2 = v@;
    if p < hi {
        quick_sort(v, p + 1, hi);
        proof {
            lemma_window_grows(v@, s2, p + 1, hi + 1, lo as int, hi + 1);
            lemma_same_multiset_all(
                v@.subrange(p + 1, hi + 1),
                s2.subrange(p + 1, hi + 1),
                |x: i64| x >= pivot,
            );
            assert forall|k: int| p < k <= hi implies v@[k] >= pivot by {
                assert(v@[k] == v@.subrange(p + 1, hi + 1)[k - p - 1]);
            }
        }
    }
    assert(sorted_between(v@, lo as int, hi + 1));
}

/// Two ascending sequences that hold the same elements, each as often, are
/// equal: an ascending arrangement of a sequence is unique, so sorting a
/// sequence that is already ascending (an empty or one-element one among them)
/// leaves it as it is.
pub proof fn lemma_sorted_permutation_unique(s: Seq<i64>, t: Seq<i64>)
    requires
        is_sorted(s),
        is_sorted(t),
        s.to_multiset() == t.to_multiset(),
    ensures
        s == t,
    decreases s.len(),
{
    if s.len() == 0 {
        assert(t.to_multiset().len() == 0);
        assert(s =~= t);
    } else {
        assert(s.to_multiset().len() == s.len());
        assert(t.to_multiset().len() == t.len());
        assert(s.contains(s[0]));
        assert(t.to_multiset().count(s[0]) > 0);
        assert(t.contains(s[0]));
        let j = choose|j: int| 0 <= j < t.len() && t[j] == s[0];
        assert(t[0] <= t[j]);
        assert(t.contains(t[0]));
        assert(s.to_multiset().count(t[0]) > 0);
        assert(s.contains(t[0]));
        let i = choose|i: int| 0 <= i < s.len() && s[i] == t[0];
        assert(s[0] <= s[i]);
        let s1 = s.remove(0);
        let t1 = t.remove(0);
        assert(s1.to_multiset() == s.to_multiset().remove(s[0]));
        assert(t1.to_multiset() == t.to_multiset().remove(t[0]));
        assert(is_sorted(s1)) by {
            assert forall|a: int, b: int| 0 <= a <= b < s1.len() implies s1[a] <= s1[b] by {
                assert(s1[a] == s[a + 1] && s1[b] == s[b + 1]);
            }
        }
        assert(is_sorted(t1)) by {
            assert forall|a: int, b: int| 0 <= a <= b < t1.len() implies t1[a] <= t1[b] by {
                assert(t1[a] == t[a + 1] && t1[b] == t[b + 1]);
            }
        }
        lemma_sorted_permutation_unique(s1, t1);
        assert forall|k: int| 0 <= k < s.len() implies s[k] == t[k] by {
            if k > 0 {
                assert(s[k] == s1[k - 1] && t[k] == t1[k - 1]);
            }
        }
        assert(s =~= t);
    }
}

/// Sorts the whole of `v` ascending, in place.
pub fn sort(v: &mut Vec<i64>)
    ensures
        final(v)@.to_multiset() == old(v)@.to_multiset(),
        is_sorted(final(v)@),
        is_sorted(old(v)@) ==> final(v)@ == old(v)@,
{
    let n = v.len();
    if n > 1 {
        quick_sort(v, 0, n - 1);
        assert(v@.subrange(0, n as int) =~= v@);
        assert(old(v)@.subrange(0, n as int) =~= old(v)@);
    }
    proof {
        if is_sorted(old(v)@) {
            lemma_sorted_permutation_unique(v@, old(v)@);
        }
    }
}

} // verus!
