use vstd::arithmetic::div_mod::{lemma_div_by_multiple, lemma_div_is_ordered};
use vstd::prelude::*;

verus! {

/// Sum of a sequence of integers, folded from the back.
pub open spec fn seq_sum(s: Seq<int>) -> int
    decreases s.len(),
{
    if s.len() == 0 {
        0
    } else {
        seq_sum(s.drop_last()) + s.last()
    }
}

/// Largest element of a sequence of non-negative integers; 0 when empty.
pub open spec fn seq_max(s: Seq<int>) -> int
    decreases s.len(),
{
    if s.len() == 0 {
        0
    } else {
        let m = seq_max(s.drop_last());
        if s.last() > m {
            s.last()
        } else {
            m
        }
    }
}

/// Smallest element of a sequence, or `ceiling` when it is empty.
pub open spec fn seq_min(s: Seq<int>, ceiling: int) -> int
    decreases s.len(),
{
    if s.len() == 0 {
        ceiling
    } else {
        let m = seq_min(s.drop_last(), ceiling);
        if s.last() < m {
            s.last()
        } else {
            m
        }
    }
}

/// Every element lies in `[0, bound]`.
pub open spec fn all_within(s: Seq<int>, bound: int) -> bool {
    forall|i: int| 0 <= i < s.len() ==> 0 <= #[trigger] s[i] <= bound
}

/// Splitting off the first element of a sum.
pub proof fn lemma_sum_drop_first(s: Seq<int>)
    requires
        s.len() > 0,
    ensures
        seq_sum(s) == s[0] + seq_sum(s.drop_first()),
    decreases s.len(),
{
    if s.len() == 1 {
        assert(s.drop_last() =~= Seq::<int>::empty());
        assert(s.drop_first() =~= Seq::<int>::empty());
    } else {
        lemma_sum_drop_first(s.drop_last());
        assert(s.drop_last().drop_first() =~= s.drop_first().drop_last());
    }
}

/// A sum of elements in `[0, bound]` lies in `[0, len * bound]`.
pub proof fn lemma_sum_bounded(s: Seq<int>, bound: int)
    requires
        all_within(s, bound),
    ensures
        0 <= seq_sum(s) <= s.len() * bound,
    decreases s.len(),
{
    if s.len() > 0 {
        let t = s.drop_last();
        assert(all_within(t, bound)) by {
            assert forall|i: int| 0 <= i < t.len() implies 0 <= #[trigger] t[i] <= bound by {
                assert(t[i] == s[i]);
            }
        }
        lemma_sum_bounded(t, bound);
        let n = s.len() as int;
        assert(s.last() == s[n - 1]);
        assert(seq_sum(s) == seq_sum(t) + s.last());
        assert(t.len() == n - 1);
        assert(t.len() * bound == (n - 1) * bound);
        assert((n - 1) * bound + bound == n * bound) by (nonlinear_arith);
        assert(s.len() * bound == n * bound);
    } else {
        let n = s.len() as int;
        assert(n * bound == 0) by (nonlinear_arith)
            requires
                n == 0,
        ;
    }
}

/// The maximum of a non-empty sequence of non-negative integers, split at its first element.
pub proof fn lemma_max_drop_first(s: Seq<int>)
    requires
        s.len() > 0,
        forall|i: int| 0 <= i < s.len() ==> 0 <= #[trigger] s[i],
    ensures
        seq_max(s) == if s[0] > seq_max(s.drop_first()) {
            s[0]
        } else {
            seq_max(s.drop_first())
        },
    decreases s.len(),
{
    if s.len() == 1 {
        assert(s.drop_last() =~= Seq::<int>::empty());
        assert(s.drop_first() =~= Seq::<int>::empty());
    } else {
        let t = s.drop_last();
        assert(forall|i: int| 0 <= i < t.len() ==> t[i] == s[i]);
        lemma_max_drop_first(t);
        assert(t.drop_first() =~= s.drop_first().drop_last());
    }
}

/// The minimum of a non-empty sequence bounded by `ceiling`, split at its first element.
pub proof fn lemma_min_drop_first(s: Seq<int>, ceiling: int)
    requires
        s.len() > 0,
        forall|i: int| 0 <= i < s.len() ==> #[trigger] s[i] <= ceiling,
    ensures
        seq_min(s, ceiling) == if s[0] < seq_min(s.drop_first(), ceiling) {
            s[0]
        } else {
            seq_min(s.drop_first(), ceiling)
        },
    decreases s.len(),
{
    if s.len() == 1 {
        assert(s.drop_last() =~= Seq::<int>::empty());
        assert(s.drop_first() =~= Seq::<int>::empty());
    } else {
        let t = s.drop_last();
        assert(forall|i: int| 0 <= i < t.len() ==> t[i] == s[i]);
        lemma_min_drop_first(t, ceiling);
        assert(t.drop_first() =~= s.drop_first().drop_last());
    }
}

/// A quotient of a value at most `n * b` by `n` is at most `b`.
pub proof fn lemma_div_bounded(x: int, n: int, b: int)
    requires
        0 <= x <= n * b,
        0 < n,
        0 <= b,
    ensures
        0 <= x / n <= b,
{
    assert(n * b == b * n) by (nonlinear_arith);
    lemma_div_is_ordered(x, b * n, n);
    lemma_div_by_multiple(b, n);
    lemma_div_is_ordered(0, x, n);
}

/// `r` is the integer square root of `v`.
pub open spec fn is_isqrt(r: int, v: int) -> bool {
    &&& 0 <= r
    &&& r * r <= v
    &&& v < (r + 1) * (r + 1)
}

/// Integer square root of a value below 2^112, by bisection.
pub fn isqrt(v: u128) -> (r: u64)
    requires
        v < 0x1_0000_0000_0000_0000_0000_0000_0000,
    ensures
        is_isqrt(r as int, v as int),
{
    let mut lo: u128 = 0;
    let mut hi: u128 = 0x100_0000_0000_0000;
    assert(hi * hi == 0x1_0000_0000_0000_0000_0000_0000_0000) by (nonlinear_arith)
        requires
            hi == 0x100_0000_0000_0000,
    ;
    while hi - lo > 1
        invariant
            lo < hi <= 0x100_0000_0000_0000,
            lo * lo <= v,
            v < hi * hi,
        decreases hi - lo,
    {
        let mid = lo + (hi - lo) / 2;
        assert(mid * mid <= 0x1_0000_0000_0000_0000_0000_0000_0000) by (nonlinear_arith)
            requires
                mid <= 0x100_0000_0000_0000,
        ;
        if mid * mid <= v {
            lo = mid;
        } else {
            hi = mid;
        }
    }
    assert(hi == lo + 1);
    lo as u64
}

} // verus!
