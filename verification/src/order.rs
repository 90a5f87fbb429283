//! The k-th smallest element of a sequence, told by counting.

use vstd::prelude::*;

verus! {

/// How many elements of `s` meet `p`.
pub open spec fn count<T>(s: Seq<T>, p: spec_fn(T) -> bool) -> nat
    decreases s.len(),
{
    if s.len() == 0 {
        0
    } else {
        count(s.drop_last(), p) + (if p(s.last()) {
            1nat
        } else {
            0nat
        })
    }
}

/// `leq` ranks any two values, and ranks them consistently.
pub open spec fn ranks<T>(leq: spec_fn(T, T) -> bool) -> bool {
    &&& forall|x: T, y: T| #![trigger leq(x, y)] leq(x, y) || leq(y, x)
    &&& forall|x: T, y: T, z: T| #![trigger leq(x, y), leq(y, z)] leq(x, y) && leq(y, z) ==> leq(x, z)
}

/// `v` is what stands at place `k` (from 0) when the elements of `s` are put in
/// the order of `leq`: at most `k` elements are smaller, and more than `k` are
/// not larger.
pub open spec fn is_kth<T>(s: Seq<T>, leq: spec_fn(T, T) -> bool, k: int, v: T) -> bool {
    &&& s.contains(v)
    &&& count(s, |x: T| !leq(v, x)) <= k
    &&& k < count(s, |x: T| leq(x, v))
}

pub proof fn lemma_count_bound<T>(s: Seq<T>, p: spec_fn(T) -> bool)
    ensures
        count(s, p) <= s.len(),
    decreases s.len(),
{
    if s.len() > 0 {
        lemma_count_bound(s.drop_last(), p);
    }
}

/// What meets `p` also meets `q`: so `q` counts no fewer.
pub proof fn lemma_count_mono<T>(s: Seq<T>, p: spec_fn(T) -> bool, q: spec_fn(T) -> bool)
    requires
        forall|i: int| 0 <= i < s.len() && p(#[trigger] s[i]) ==> q(s[i]),
    ensures
        count(s, p) <= count(s, q),
    decreases s.len(),
{
    if s.len() > 0 {
        let t = s.drop_last();
        assert forall|i: int| 0 <= i < t.len() && p(#[trigger] t[i]) implies q(t[i]) by {
            assert(t[i] == s[i]);
        }
        lemma_count_mono(t, p, q);
        assert(s.last() == s[s.len() - 1]);
    }
}

/// All elements meet `p`.
proof fn lemma_count_all<T>(s: Seq<T>, p: spec_fn(T) -> bool)
    requires
        forall|i: int| 0 <= i < s.len() ==> p(#[trigger] s[i]),
    ensures
        count(s, p) == s.len(),
    decreases s.len(),
{
    if s.len() > 0 {
        let t = s.drop_last();
        assert forall|i: int| 0 <= i < t.len() implies p(#[trigger] t[i]) by {
            assert(t[i] == s[i]);
        }
        lemma_count_all(t, p);
        assert(s.last() == s[s.len() - 1]);
    }
}

/// Something is counted, so some element meets `p`.
proof fn lemma_count_witness<T>(s: Seq<T>, p: spec_fn(T) -> bool) -> (i: int)
    requires
        count(s, p) > 0,
    ensures
        0 <= i < s.len(),
        p(s[i]),
    decreases s.len(),
{
    if p(s.last()) {
        s.len() - 1
    } else {
        let i = lemma_count_witness(s.drop_last(), p);
        assert(s.drop_last()[i] == s[i]);
        i
    }
}

/// Among the elements that meet `p` one is least.
proof fn lemma_least<T>(s: Seq<T>, leq: spec_fn(T, T) -> bool, p: spec_fn(T) -> bool, w: int) -> (i: int)
    requires
        ranks(leq),
        0 <= w < s.len(),
        p(s[w]),
    ensures
        0 <= i < s.len(),
        p(s[i]),
        forall|j: int| 0 <= j < s.len() && p(#[trigger] s[j]) ==> leq(s[i], s[j]),
    decreases s.len(),
{
    let t = s.drop_last();
    let last = s.len() - 1;
    if exists|u: int| 0 <= u < t.len() && p(#[trigger] t[u]) {
        let u = choose|u: int| 0 <= u < t.len() && p(#[trigger] t[u]);
        let i = lemma_least(t, leq, p, u);
        if p(s[last]) && !leq(s[i], s[last]) {
            assert(leq(s[last], s[i]));
            assert forall|j: int| 0 <= j < s.len() && p(#[trigger] s[j]) implies leq(s[last], s[j]) by {
                if j < last {
                    assert(t[j] == s[j]);
                    assert(leq(s[i], s[j]));
                } else {
                    assert(leq(s[last], s[last]));
                }
            }
            last
        } else {
            assert forall|j: int| 0 <= j < s.len() && p(#[trigger] s[j]) implies leq(s[i], s[j]) by {
                if j < last {
                    assert(t[j] == s[j]);
                }
            }
            i
        }
    } else {
        assert(w == last) by {
            if w < last {
                assert(t[w] == s[w]);
            }
        }
        assert forall|j: int| 0 <= j < s.len() && p(#[trigger] s[j]) implies leq(s[last], s[j]) by {
            if j < last {
                assert(t[j] == s[j]);
            }
            assert(leq(s[last], s[last]));
        }
        last
    }
}

/// Every place is taken: for `k` below the length some element is the k-th
/// smallest.
pub proof fn lemma_kth_exists<T>(s: Seq<T>, leq: spec_fn(T, T) -> bool, k: int) -> (i: int)
    requires
        ranks(leq),
        0 <= k < s.len(),
    ensures
        0 <= i < s.len(),
        is_kth(s, leq, k, s[i]),
{
    let geq = |x: T, y: T| leq(y, x);
    let any = |x: T| true;
    assert(ranks(geq)) by {
        assert forall|x: T, y: T| #![trigger geq(x, y)] geq(x, y) || geq(y, x) by {
            assert(leq(x, y) || leq(y, x));
        }
        assert forall|x: T, y: T, z: T| #![trigger geq(x, y), geq(y, z)] geq(x, y) && geq(y, z) implies geq(x, z) by {
            assert(leq(y, x));
            assert(leq(z, y));
        }
    }
    let top = lemma_least(s, geq, any, 0);
    assert forall|j: int| 0 <= j < s.len() implies (|x: T| leq(x, s[top]))(#[trigger] s[j]) by {
        assert(any(s[j]));
        assert(geq(s[top], s[j]));
    }
    lemma_count_all(s, |x: T| leq(x, s[top]));
    let reaches = |x: T| count(s, |y: T| leq(y, x)) > k;
    let m = lemma_least(s, leq, reaches, top);
    let below = |x: T| !leq(s[m], x);
    if count(s, below) > k {
        let w = lemma_count_witness(s, below);
        let big = lemma_least(s, geq, below, w);
        let up_to = |y: T| leq(y, s[big]);
        assert forall|j: int| 0 <= j < s.len() && below(#[trigger] s[j]) implies up_to(s[j]) by {
            assert(geq(s[big], s[j]));
        }
        lemma_count_mono(s, below, up_to);
        assert(reaches(s[big]));
        assert(leq(s[m], s[big]));
        assert(below(s[big]));
        assert(false);
    }
    assert(s.contains(s[m]));
    m
}

/// Two values at the same place are ranked alike.
pub proof fn lemma_kth_unique<T>(s: Seq<T>, leq: spec_fn(T, T) -> bool, k: int, v: T, w: T)
    requires
        ranks(leq),
        is_kth(s, leq, k, v),
        is_kth(s, leq, k, w),
    ensures
        leq(v, w),
        leq(w, v),
{
    lemma_kth_ordered(s, leq, k, v, w);
    lemma_kth_ordered(s, leq, k, w, v);
}

proof fn lemma_kth_ordered<T>(s: Seq<T>, leq: spec_fn(T, T) -> bool, k: int, v: T, w: T)
    requires
        ranks(leq),
        is_kth(s, leq, k, v),
        is_kth(s, leq, k, w),
    ensures
        leq(w, v),
{
    if !leq(w, v) {
        let up_to = |x: T| leq(x, v);
        let below = |x: T| !leq(w, x);
        assert forall|i: int| 0 <= i < s.len() && up_to(#[trigger] s[i]) implies below(s[i]) by {
            if leq(w, s[i]) {
                assert(leq(s[i], v));
            }
        }
        lemma_count_mono(s, up_to, below);
    }
}

/// A sequence in the order of `leq`.
pub open spec fn in_order<T>(s: Seq<T>, leq: spec_fn(T, T) -> bool) -> bool {
    forall|i: int, j: int| #![trigger s[i], s[j]] 0 <= i <= j < s.len() ==> leq(s[i], s[j])
}

proof fn lemma_count_remove<T>(s: Seq<T>, p: spec_fn(T) -> bool, i: int)
    requires
        0 <= i < s.len(),
    ensures
        count(s, p) == count(s.remove(i), p) + (if p(s[i]) {
            1nat
        } else {
            0nat
        }),
    decreases s.len(),
{
    let front = s.drop_last();
    if i == s.len() - 1 {
        assert(s.remove(i) =~= front);
    } else {
        lemma_count_remove(front, p, i);
        assert(s.remove(i).drop_last() =~= front.remove(i));
    }
}

/// How many meet `p` does not depend on the order.
proof fn lemma_count_same<T>(s: Seq<T>, t: Seq<T>, p: spec_fn(T) -> bool)
    requires
        s.to_multiset() == t.to_multiset(),
    ensures
        count(s, p) == count(t, p),
    decreases s.len(),
{
    s.to_multiset_ensures();
    t.to_multiset_ensures();
    if s.len() > 0 {
        let i = s.len() - 1;
        assert(s.contains(s[i]));
        assert(s.to_multiset().count(s[i]) > 0);
        assert(t.to_multiset().count(s[i]) > 0);
        assert(t.contains(s[i]));
        let j = choose|j: int| 0 <= j < t.len() && t[j] == s[i];
        assert(s.remove(i).to_multiset() =~= t.remove(j).to_multiset());
        lemma_count_same(s.remove(i), t.remove(j), p);
        lemma_count_remove(s, p, i);
        lemma_count_remove(t, p, j);
    }
}

/// Where only elements before place `k` can meet `p`, no more than `k` do; where all
/// up to it do, more than `k` do.
proof fn lemma_count_bounds<T>(t: Seq<T>, p: spec_fn(T) -> bool, k: int)
    requires
        0 <= k < t.len(),
    ensures
        (forall|j: int| k <= j < t.len() ==> !p(#[trigger] t[j])) ==> count(t, p) <= k,
        (forall|j: int| 0 <= j <= k ==> p(#[trigger] t[j])) ==> count(t, p) > k,
    decreases t.len(),
{
    let front = t.drop_last();
    assert(forall|j: int| 0 <= j < front.len() ==> #[trigger] front[j] == t[j]);
    lemma_count_bound(front, p);
    if k < front.len() {
        lemma_count_bounds(front, p, k);
        if forall|j: int| k <= j < t.len() ==> !p(#[trigger] t[j]) {
            assert(!p(t[t.len() - 1]));
        }
    } else if forall|j: int| 0 <= j <= k ==> p(#[trigger] t[j]) {
        assert(p(t[k]));
        if k > 0 {
            lemma_count_bounds(front, p, k - 1);
        }
    } else if forall|j: int| k <= j < t.len() ==> !p(#[trigger] t[j]) {
        assert(!p(t[k]));
    }
}

/// The k-th smallest is what stands at place `k` once the elements are sorted.
pub proof fn kth_is_where_sorting_puts_it<T>(s: Seq<T>, t: Seq<T>, leq: spec_fn(T, T) -> bool, k: int)
    requires
        ranks(leq),
        s.to_multiset() == t.to_multiset(),
        in_order(t, leq),
        0 <= k < t.len(),
    ensures
        is_kth(s, leq, k, t[k]),
        forall|v: T| #[trigger] is_kth(s, leq, k, v) ==> leq(v, t[k]) && leq(t[k], v),
{
    let v = t[k];
    let below = |x: T| !leq(v, x);
    let up_to = |x: T| leq(x, v);
    lemma_count_same(s, t, below);
    lemma_count_same(s, t, up_to);
    assert forall|j: int| k <= j < t.len() implies !below(#[trigger] t[j]) by {
        assert(leq(t[k], t[j]));
    }
    assert forall|j: int| 0 <= j <= k implies up_to(#[trigger] t[j]) by {
        assert(leq(t[j], t[k]));
    }
    lemma_count_bounds(t, below, k);
    lemma_count_bounds(t, up_to, k);
    s.to_multiset_ensures();
    t.to_multiset_ensures();
    assert(t.contains(t[k]));
    assert(t.to_multiset().count(t[k]) > 0);
    assert(s.to_multiset().count(t[k]) > 0);
    assert(s.contains(t[k]));
    assert forall|w: T| #[trigger] is_kth(s, leq, k, w) implies leq(w, t[k]) && leq(t[k], w) by {
        lemma_kth_unique(s, leq, k, w, t[k]);
    }
}

/// The usual order of the integers.
pub open spec fn int_leq() -> spec_fn(i128, i128) -> bool {
    |x: i128, y: i128| x <= y
}

/// The number at place `k` of `s` put in increasing order.
pub open spec fn kth_smallest(s: Seq<i128>, k: int) -> i128 {
    choose|v: i128| is_kth(s, int_leq(), k, v)
}

/// The number at place `k` is what sorting puts there.
pub proof fn smallest_are_found_by_sorting(s: Seq<i128>, t: Seq<i128>, k: int)
    requires
        s.to_multiset() == t.to_multiset(),
        forall|i: int, j: int| 0 <= i <= j < t.len() ==> #[trigger] t[i] <= #[trigger] t[j],
        0 <= k < t.len(),
    ensures
        kth_smallest(s, k) == t[k],
{
    kth_is_where_sorting_puts_it(s, t, int_leq(), k);
    let v = kth_smallest(s, k);
    assert(is_kth(s, int_leq(), k, v));
    assert(int_leq()(v, t[k]) && int_leq()(t[k], v));
}

fn count_below(s: &[i128], v: i128, strict: bool) -> (n: usize)
    ensures
        n == (if strict {
            count(s@, |x: i128| !int_leq()(v, x))
        } else {
            count(s@, |x: i128| int_leq()(x, v))
        }),
{
    let ghost p = if strict {
        |x: i128| !int_leq()(v, x)
    } else {
        |x: i128| int_leq()(x, v)
    };
    let mut n: usize = 0;
    let mut i: usize = 0;
    while i < s.len()
        invariant
            i <= s.len(),
            n <= i,
            n == count(s@.take(i as int), p),
            p == (if strict {
                |x: i128| !int_leq()(v, x)
            } else {
                |x: i128| int_leq()(x, v)
            }),
        decreases s.len() - i,
    {
        assert(s@.take(i + 1).drop_last() =~= s@.take(i as int));
        assert(s@.take(i + 1).last() == s@[i as int]);
        if s[i] < v || (!strict && s[i] == v) {
            n = n + 1;
        }
        i = i + 1;
    }
    assert(s@.take(s.len() as int) =~= s@);
    n
}

/// Picks the k-th smallest number (from 0).
pub fn select(s: &[i128], k: usize) -> (v: i128)
    requires
        k < s@.len(),
    ensures
        is_kth(s@, int_leq(), k as int, v),
        v == kth_smallest(s@, k as int),
        s@.contains(v),
{
    let ghost w = 0int;
    proof {
        w = lemma_kth_exists(s@, int_leq(), k as int);
    }
    let mut i: usize = 0;
    while i < s.len()
        invariant
            i <= s.len(),
            k < s@.len(),
            0 <= w < s@.len(),
            i <= w,
            is_kth(s@, int_leq(), k as int, s@[w]),
        decreases s.len() - i,
    {
        let v: i128 = s[i];
        if count_below(s, v, true) <= k && k < count_below(s, v, false) {
            assert(s@.contains(s@[i as int]));
            proof {
                let c = kth_smallest(s@, k as int);
                lemma_kth_unique(s@, int_leq(), k as int, v, c);
            }
            return v;
        }
        i = i + 1;
    }
    s[0]
}

} // verus!
