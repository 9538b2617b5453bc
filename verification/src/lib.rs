//! Sum of squared differences (squared Euclidean distance) between two
//! equal-length byte buffers, computed by several interchangeable strategies:
//! a scalar reference, two manually unrolled chunked variants, and a chunked
//! variant with a uniform pass over variable-length groups. Every strategy is
//! proved to return exactly `model::ssd` of the two buffers, so all of them
//! agree on every input.

use vstd::prelude::*;

pub mod model;

verus! {

use crate::model::{ssd, ssd_to, sq_diff, lemma_sq_diff_bounds, lemma_ssd_to_nonneg,
    lemma_ssd_to_monotone};

/// Scalar reference strategy: accumulate one squared difference per element.
pub fn straightforward_sum(buffer_a: &[u8], buffer_b: &[u8]) -> (r: i32)
    requires
        buffer_a@.len() == buffer_b@.len(),
        ssd(buffer_a@, buffer_b@) <= i32::MAX,
    ensures
        r == ssd(buffer_a@, buffer_b@),
{
    let n = buffer_a.len();
    let mut sum: i32 = 0;
    let mut i: usize = 0;
    while i < n
        invariant
            buffer_a@.len() == n,
            buffer_b@.len() == n,
            i <= n,
            sum == ssd_to(buffer_a@, buffer_b@, i as int),
            ssd_to(buffer_a@, buffer_b@, n as int) <= i32::MAX,
        decreases n - i,
    {
        let d: i32 = buffer_a[i] as i32 - buffer_b[i] as i32;
        proof {
            lemma_sq_diff_bounds(buffer_a@[i as int], buffer_b@[i as int]);
            lemma_ssd_to_nonneg(buffer_a@, buffer_b@, i as int);
            lemma_ssd_to_monotone(buffer_a@, buffer_b@, i as int + 1, n as int);
            assert(d * d == sq_diff(buffer_a@[i as int], buffer_b@[i as int]));
        }
        sum = sum + d * d;
        i = i + 1;
    }
    sum
}

/// Chunked strategy with stride 3: each full group of three squared
/// differences is summed with explicit per-lane indexing before it is added
/// to the running total; the remainder is accumulated element by element.
pub fn regular_loop(buffer_a: &[u8], buffer_b: &[u8]) -> (r: i32)
    requires
        buffer_a@.len() == buffer_b@.len(),
        ssd(buffer_a@, buffer_b@) <= i32::MAX,
    ensures
        r == ssd(buffer_a@, buffer_b@),
{
    let n = buffer_a.len();
    let full = n - n % 3;
    let mut sum: i32 = 0;
    let mut i: usize = 0;
    while i < full
        invariant
            buffer_a@.len() == n,
            buffer_b@.len() == n,
            full == n - n % 3,
            i <= full,
            i % 3 == 0,
            sum == ssd_to(buffer_a@, buffer_b@, i as int),
            ssd_to(buffer_a@, buffer_b@, n as int) <= i32::MAX,
        decreases full - i,
    {
        assert(i + 3 <= full);
        let d0: i32 = buffer_a[i] as i32 - buffer_b[i] as i32;
        let d1: i32 = buffer_a[i + 1] as i32 - buffer_b[i + 1] as i32;
        let d2: i32 = buffer_a[i + 2] as i32 - buffer_b[i + 2] as i32;
        proof {
            lemma_sq_diff_bounds(buffer_a@[i as int], buffer_b@[i as int]);
            lemma_sq_diff_bounds(buffer_a@[i as int + 1], buffer_b@[i as int + 1]);
            lemma_sq_diff_bounds(buffer_a@[i as int + 2], buffer_b@[i as int + 2]);
            lemma_ssd_to_nonneg(buffer_a@, buffer_b@, i as int);
            lemma_ssd_to_monotone(buffer_a@, buffer_b@, i as int + 3, n as int);
            assert(d0 * d0 == sq_diff(buffer_a@[i as int], buffer_b@[i as int]));
            assert(d1 * d1 == sq_diff(buffer_a@[i as int + 1], buffer_b@[i as int + 1]));
            assert(d2 * d2 == sq_diff(buffer_a@[i as int + 2], buffer_b@[i as int + 2]));
            assert(ssd_to(buffer_a@, buffer_b@, i as int + 1) == ssd_to(
                buffer_a@,
                buffer_b@,
                i as int,
            ) + sq_diff(buffer_a@[i as int], buffer_b@[i as int]));
            assert(ssd_to(buffer_a@, buffer_b@, i as int + 2) == ssd_to(
                buffer_a@,
                buffer_b@,
                i as int + 1,
            ) + sq_diff(buffer_a@[i as int + 1], buffer_b@[i as int + 1]));
            assert(ssd_to(buffer_a@, buffer_b@, i as int + 3) == ssd_to(
                buffer_a@,
                buffer_b@,
                i as int + 2,
            ) + sq_diff(buffer_a@[i as int + 2], buffer_b@[i as int + 2]));
        }
        sum = sum + (d0 * d0 + d1 * d1 + d2 * d2);
        i = i + 3;
    }
    while i < n
        invariant
            buffer_a@.len() == n,
            buffer_b@.len() == n,
            i <= n,
            sum == ssd_to(buffer_a@, buffer_b@, i as int),
            ssd_to(buffer_a@, buffer_b@, n as int) <= i32::MAX,
        decreases n - i,
    {
        let d: i32 = buffer_a[i] as i32 - buffer_b[i] as i32;
        proof {
            lemma_sq_diff_bounds(buffer_a@[i as int], buffer_b@[i as int]);
            lemma_ssd_to_nonneg(buffer_a@, buffer_b@, i as int);
            lemma_ssd_to_monotone(buffer_a@, buffer_b@, i as int + 1, n as int);
            assert(d * d == sq_diff(buffer_a@[i as int], buffer_b@[i as int]));
        }
        sum = sum + d * d;
        i = i + 1;
    }
    sum
}

/// Chunked strategy with stride 4: like the stride-3 variant, but four
/// squared differences are summed per full group.
pub fn four_at_a_time(buffer_a: &[u8], buffer_b: &[u8]) -> (r: i32)
    requires
        buffer_a@.len() == buffer_b@.len(),
        ssd(buffer_a@, buffer_b@) <= i32::MAX,
    ensures
        r == ssd(buffer_a@, buffer_b@),
{
    let n = buffer_a.len();
    let full = n - n % 4;
    let mut sum: i32 = 0;
    let mut i: usize = 0;
    while i < full
        invariant
            buffer_a@.len() == n,
            buffer_b@.len() == n,
            full == n - n % 4,
            i <= full,
            i % 4 == 0,
            sum == ssd_to(buffer_a@, buffer_b@, i as int),
            ssd_to(buffer_a@, buffer_b@, n as int) <= i32::MAX,
        decreases full - i,
    {
        assert(i + 4 <= full);
        let d0: i32 = buffer_a[i] as i32 - buffer_b[i] as i32;
        let d1: i32 = buffer_a[i + 1] as i32 - buffer_b[i + 1] as i32;
        let d2: i32 = buffer_a[i + 2] as i32 - buffer_b[i + 2] as i32;
        let d3: i32 = buffer_a[i + 3] as i32 - buffer_b[i + 3] as i32;
        proof {
            lemma_sq_diff_bounds(buffer_a@[i as int], buffer_b@[i as int]);
            lemma_sq_diff_bounds(buffer_a@[i as int + 1], buffer_b@[i as int + 1]);
            lemma_sq_diff_bounds(buffer_a@[i as int + 2], buffer_b@[i as int + 2]);
            lemma_sq_diff_bounds(buffer_a@[i as int + 3], buffer_b@[i as int + 3]);
            lemma_ssd_to_nonneg(buffer_a@, buffer_b@, i as int);
            lemma_ssd_to_monotone(buffer_a@, buffer_b@, i as int + 4, n as int);
            assert(d0 * d0 == sq_diff(buffer_a@[i as int], buffer_b@[i as int]));
            assert(d1 * d1 == sq_diff(buffer_a@[i as int + 1], buffer_b@[i as int + 1]));
            assert(d2 * d2 == sq_diff(buffer_a@[i as int + 2], buffer_b@[i as int + 2]));
            assert(d3 * d3 == sq_diff(buffer_a@[i as int + 3], buffer_b@[i as int + 3]));
            assert(ssd_to(buffer_a@, buffer_b@, i as int + 1) == ssd_to(
                buffer_a@,
                buffer_b@,
                i as int,
            ) + sq_diff(buffer_a@[i as int], buffer_b@[i as int]));
            assert(ssd_to(buffer_a@, buffer_b@, i as int + 2) == ssd_to(
                buffer_a@,
                buffer_b@,
                i as int + 1,
            ) + sq_diff(buffer_a@[i as int + 1], buffer_b@[i as int + 1]));
            assert(ssd_to(buffer_a@, buffer_b@, i as int + 3) == ssd_to(
                buffer_a@,
                buffer_b@,
                i as int + 2,
            ) + sq_diff(buffer_a@[i as int + 2], buffer_b@[i as int + 2]));
            assert(ssd_to(buffer_a@, buffer_b@, i as int + 4) == ssd_to(
                buffer_a@,
                buffer_b@,
                i as int + 3,
            ) + sq_diff(buffer_a@[i as int + 3], buffer_b@[i as int + 3]));
        }
        sum = sum + (d0 * d0 + d1 * d1 + d2 * d2 + d3 * d3);
        i = i + 4;
    }
    while i < n
        invariant
            buffer_a@.len() == n,
            buffer_b@.len() == n,
            i <= n,
            sum == ssd_to(buffer_a@, buffer_b@, i as int),
            ssd_to(buffer_a@, buffer_b@, n as int) <= i32::MAX,
        decreases n - i,
    {
        let d: i32 = buffer_a[i] as i32 - buffer_b[i] as i32;
        proof {
            lemma_sq_diff_bounds(buffer_a@[i as int], buffer_b@[i as int]);
            lemma_ssd_to_nonneg(buffer_a@, buffer_b@, i as int);
            lemma_ssd_to_monotone(buffer_a@, buffer_b@, i as int + 1, n as int);
            assert(d * d == sq_diff(buffer_a@[i as int], buffer_b@[i as int]));
        }
        sum = sum + d * d;
        i = i + 1;
    }
    sum
}

/// Chunked strategy with a single uniform pass over groups of up to three
/// elements: the final group may be shorter instead of being handled by a
/// separate remainder pass. Each group's squared differences are summed
/// before being added to the running total.
pub fn sum_using_iterator(buffer_a: &[u8], buffer_b: &[u8]) -> (r: i32)
    requires
        buffer_a@.len() == buffer_b@.len(),
        ssd(buffer_a@, buffer_b@) <= i32::MAX,
    ensures
        r == ssd(buffer_a@, buffer_b@),
{
    let n = buffer_a.len();
    let mut sum: i32 = 0;
    let mut i: usize = 0;
    while i < n
        invariant
            buffer_a@.len() == n,
            buffer_b@.len() == n,
            i <= n,
            sum == ssd_to(buffer_a@, buffer_b@, i as int),
            ssd_to(buffer_a@, buffer_b@, n as int) <= i32::MAX,
        decreases n - i,
    {
        let group_end = if n - i < 3 {
            n
        } else {
            i + 3
        };
        let mut group: i32 = 0;
        let mut j = i;
        while j < group_end
            invariant
                buffer_a@.len() == n,
                buffer_b@.len() == n,
                i <= j <= group_end,
                group_end <= n,
                sum == ssd_to(buffer_a@, buffer_b@, i as int),
                group == ssd_to(buffer_a@, buffer_b@, j as int) - ssd_to(
                    buffer_a@,
                    buffer_b@,
                    i as int,
                ),
                ssd_to(buffer_a@, buffer_b@, n as int) <= i32::MAX,
            decreases group_end - j,
        {
            let d: i32 = buffer_a[j] as i32 - buffer_b[j] as i32;
            proof {
                lemma_sq_diff_bounds(buffer_a@[j as int], buffer_b@[j as int]);
                lemma_ssd_to_nonneg(buffer_a@, buffer_b@, i as int);
                lemma_ssd_to_monotone(buffer_a@, buffer_b@, i as int, j as int);
                lemma_ssd_to_monotone(buffer_a@, buffer_b@, j as int + 1, n as int);
                assert(d * d == sq_diff(buffer_a@[j as int], buffer_b@[j as int]));
            }
            group = group + d * d;
            j = j + 1;
        }
        proof {
            lemma_ssd_to_nonneg(buffer_a@, buffer_b@, i as int);
            lemma_ssd_to_monotone(buffer_a@, buffer_b@, i as int, group_end as int);
            lemma_ssd_to_monotone(buffer_a@, buffer_b@, group_end as int, n as int);
        }
        sum = sum + group;
        i = group_end;
    }
    sum
}

/// Cross-strategy equivalence: on any pair of equal-length buffers whose
/// squared distance fits the accumulator, every strategy returns the same
/// value. The result is proved to be `true` on every allowed input, because
/// each strategy's contract pins its result to `model::ssd` of the buffers.
pub fn strategies_agree(buffer_a: &[u8], buffer_b: &[u8]) -> (r: bool)
    requires
        buffer_a@.len() == buffer_b@.len(),
        ssd(buffer_a@, buffer_b@) <= i32::MAX,
    ensures
        r,
{
    let reference = straightforward_sum(buffer_a, buffer_b);
    regular_loop(buffer_a, buffer_b) == reference && four_at_a_time(buffer_a, buffer_b)
        == reference && sum_using_iterator(buffer_a, buffer_b) == reference
}

/// Deterministic benchmark input: a buffer of ten thousand bytes whose value
/// at each index is that index modulo 255.
pub fn dummy_input() -> (r: Vec<u8>)
    ensures
        r@.len() == 10000,
        forall|i: int| 0 <= i < 10000 ==> r@[i] == (i % 255) as u8,
{
    let mut buffer: Vec<u8> = Vec::new();
    let mut i: usize = 0;
    while i < 10000
        invariant
            i <= 10000,
            buffer@.len() == i,
            forall|j: int| 0 <= j < i ==> buffer@[j] == (j % 255) as u8,
        decreases 10000 - i,
    {
        buffer.push((i % 255) as u8);
        i = i + 1;
    }
    buffer
}

} // verus!
