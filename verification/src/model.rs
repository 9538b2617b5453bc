//! Mathematical model of the sum of squared differences (SSD) between two
//! byte buffers, together with the lemmas that the strategy implementations
//! and their callers rely on.

use vstd::prelude::*;

verus! {

/// Squared difference of two byte values, over the integers.
pub open spec fn sq_diff(x: u8, y: u8) -> int {
    (x - y) * (x - y)
}

/// Sum of squared differences over the first `n` positions of `a` and `b`.
pub open spec fn ssd_to(a: Seq<u8>, b: Seq<u8>, n: int) -> int
    decreases n,
{
    if n <= 0 {
        0
    } else {
        ssd_to(a, b, n - 1) + sq_diff(a[n - 1], b[n - 1])
    }
}

/// Sum of squared differences of two byte buffers, pairing elements
/// positionally; pairing stops at the shorter buffer's length.
pub open spec fn ssd(a: Seq<u8>, b: Seq<u8>) -> int {
    ssd_to(a, b, vstd::math::min(a.len() as int, b.len() as int))
}

/// A squared difference of bytes is bounded by 0 and 255 * 255.
pub proof fn lemma_sq_diff_bounds(x: u8, y: u8)
    ensures
        0 <= sq_diff(x, y) <= 65025,
{
    let d: int = x - y;
    assert(0 <= d * d <= 65025) by (nonlinear_arith)
        requires
            -255 <= d <= 255,
    ;
}

/// A partial sum of squared differences is never negative.
pub proof fn lemma_ssd_to_nonneg(a: Seq<u8>, b: Seq<u8>, n: int)
    ensures
        ssd_to(a, b, n) >= 0,
    decreases n,
{
    if n > 0 {
        lemma_ssd_to_nonneg(a, b, n - 1);
        lemma_sq_diff_bounds(a[n - 1], b[n - 1]);
    }
}

/// Partial sums of squared differences grow with the number of positions
/// taken in.
pub proof fn lemma_ssd_to_monotone(a: Seq<u8>, b: Seq<u8>, m: int, n: int)
    requires
        m <= n,
    ensures
        ssd_to(a, b, m) <= ssd_to(a, b, n),
    decreases n,
{
    if m < n && n > 0 {
        lemma_ssd_to_monotone(a, b, m, n - 1);
        lemma_sq_diff_bounds(a[n - 1], b[n - 1]);
    }
}

/// A partial sum only looks at the positions below `n`: buffers that agree
/// there give the same partial sum.
proof fn lemma_ssd_to_agree(a1: Seq<u8>, b1: Seq<u8>, a2: Seq<u8>, b2: Seq<u8>, n: int)
    requires
        forall|i: int| 0 <= i < n ==> a1[i] == a2[i] && b1[i] == b2[i],
    ensures
        ssd_to(a1, b1, n) == ssd_to(a2, b2, n),
    decreases n,
{
    if n > 0 {
        lemma_ssd_to_agree(a1, b1, a2, b2, n - 1);
        assert(a1[n - 1] == a2[n - 1] && b1[n - 1] == b2[n - 1]);
    }
}

/// A partial sum over `k + n` positions splits into the partial sum over the
/// first `k` and the partial sum over the next `n`, taken on the buffers with
/// the first `k` positions dropped.
proof fn lemma_ssd_to_add(a: Seq<u8>, b: Seq<u8>, k: int, n: int)
    requires
        0 <= k,
        0 <= n,
        k + n <= a.len(),
        k + n <= b.len(),
    ensures
        ssd_to(a, b, k + n) == ssd_to(a, b, k) + ssd_to(a.skip(k), b.skip(k), n),
    decreases n,
{
    if n > 0 {
        lemma_ssd_to_add(a, b, k, n - 1);
        assert(a.skip(k)[n - 1] == a[k + n - 1]);
        assert(b.skip(k)[n - 1] == b[k + n - 1]);
    }
}

/// Every pairing of a buffer with itself has squared distance zero.
pub proof fn lemma_ssd_self_zero(a: Seq<u8>)
    ensures
        ssd(a, a) == 0,
{
    lemma_ssd_to_self_zero(a, a.len() as int);
}

proof fn lemma_ssd_to_self_zero(a: Seq<u8>, n: int)
    ensures
        ssd_to(a, a, n) == 0,
    decreases n,
{
    if n > 0 {
        lemma_ssd_to_self_zero(a, n - 1);
        let d: int = a[n - 1] - a[n - 1];
        assert(d * d == 0) by (nonlinear_arith)
            requires
                d == 0,
        ;
    }
}

/// The squared distance does not depend on the order of the two buffers.
pub proof fn lemma_ssd_symmetric(a: Seq<u8>, b: Seq<u8>)
    ensures
        ssd(a, b) == ssd(b, a),
{
    lemma_ssd_to_symmetric(a, b, vstd::math::min(a.len() as int, b.len() as int));
}

proof fn lemma_ssd_to_symmetric(a: Seq<u8>, b: Seq<u8>, n: int)
    ensures
        ssd_to(a, b, n) == ssd_to(b, a, n),
    decreases n,
{
    if n > 0 {
        lemma_ssd_to_symmetric(a, b, n - 1);
        let d: int = a[n - 1] - b[n - 1];
        let e: int = b[n - 1] - a[n - 1];
        assert(d * d == e * e) by (nonlinear_arith)
            requires
                d == -e,
        ;
    }
}

/// The squared distance is never negative.
pub proof fn lemma_ssd_nonneg(a: Seq<u8>, b: Seq<u8>)
    ensures
        ssd(a, b) >= 0,
{
    lemma_ssd_to_nonneg(a, b, vstd::math::min(a.len() as int, b.len() as int));
}

/// If either buffer is empty, the squared distance is zero.
pub proof fn lemma_ssd_empty(a: Seq<u8>, b: Seq<u8>)
    requires
        a.len() == 0 || b.len() == 0,
    ensures
        ssd(a, b) == 0,
{
}

/// The squared distance of equal-length buffers splits at any cut point into
/// the distance of the prefixes plus the distance of the suffixes: full-group
/// contributions and a remainder contribution add up to the whole.
pub proof fn lemma_ssd_split(a: Seq<u8>, b: Seq<u8>, k: int)
    requires
        a.len() == b.len(),
        0 <= k <= a.len(),
    ensures
        ssd(a, b) == ssd(a.take(k), b.take(k)) + ssd(a.skip(k), b.skip(k)),
{
    let n = a.len() as int;
    lemma_ssd_to_add(a, b, k, n - k);
    assert(forall|i: int| 0 <= i < k ==> a.take(k)[i] == a[i] && b.take(k)[i] == b[i]);
    lemma_ssd_to_agree(a.take(k), b.take(k), a, b, k);
}

} // verus!
