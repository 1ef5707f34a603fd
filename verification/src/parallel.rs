//! Splitting the wavenumbers of a synthesis among the worker threads.
//!
//! The parallel synthesis hands each thread a block of consecutive orders
//! `mp1 = start ..= end`; the blocks have the same length but for the last,
//! and together they cover the orders exactly once, in increasing order.
use vstd::prelude::*;
use crate::gaussian_stored_scalar::min_int;

verus! {

/// The number of threads of the current thread pool
/// (`rayon::current_num_threads`).  It depends on the machine, the
/// environment and the pool the caller runs in; nothing is stated of it.
#[verifier::external_body]
fn current_num_threads() -> (n: usize) {
    rayon::current_num_threads()
}

/// Block length for `count` orders and `threads` threads:
/// `max(ceil(count / max(threads, 1)), 1)`.
pub open spec fn block_len(count: int, threads: int) -> int {
    let t = if threads >= 1 {
        threads
    } else {
        1
    };
    let c = (count + t - 1) / t;
    if c >= 1 {
        c
    } else {
        1
    }
}

/// `ranges` cuts `start ..= end` into blocks of `chunk` orders: block `i`
/// is `start + i * chunk ..= min(start + i * chunk + chunk - 1, end)`, and
/// there are just enough blocks to reach `end`.
pub open spec fn is_blocking(ranges: Seq<(usize, usize)>, start: int, end: int, chunk: int) -> bool {
    &&& ranges.len() >= 1
    &&& start + (ranges.len() - 1) * chunk <= end < start + ranges.len() * chunk
    &&& forall|i: int|
        0 <= i < ranges.len() ==> #[trigger] ranges[i].0 == start + i * chunk && ranges[i].1
            == min_int(start + i * chunk + chunk - 1, end)
}

/// `ranges` covers `start ..= end` exactly once with non-empty blocks of
/// consecutive orders, in increasing order.
pub open spec fn is_partition(ranges: Seq<(usize, usize)>, start: int, end: int) -> bool {
    &&& ranges.len() >= 1
    &&& ranges[0].0 == start
    &&& ranges[ranges.len() - 1].1 == end
    &&& forall|i: int| 0 <= i < ranges.len() ==> #[trigger] ranges[i].0 <= ranges[i].1
    &&& forall|i: int| 0 <= i < ranges.len() - 1 ==> #[trigger] ranges[i + 1].0 == ranges[i].1 + 1
}

/// Blocks of equal length, the last one cut at `end`, partition the orders.
pub proof fn lemma_blocking_is_partition(
    ranges: Seq<(usize, usize)>,
    start: int,
    end: int,
    chunk: int,
)
    requires
        start <= end,
        chunk >= 1,
        is_blocking(ranges, start, end, chunk),
    ensures
        is_partition(ranges, start, end),
{
    let n = ranges.len() as int;
    assert(ranges[0].0 == start + 0 * chunk);
    assert(ranges[n - 1].1 == end) by {
        assert(ranges[n - 1].0 == start + (n - 1) * chunk);
        assert((n - 1) * chunk + chunk == n * chunk) by (nonlinear_arith);
    }
    assert forall|i: int| 0 <= i < n implies #[trigger] ranges[i].0 <= ranges[i].1 by {
        assert(i * chunk <= (n - 1) * chunk) by (nonlinear_arith)
            requires
                0 <= i <= n - 1,
                chunk >= 1,
        ;
    }
    assert forall|i: int| 0 <= i < n - 1 implies #[trigger] ranges[i + 1].0 == ranges[i].1 + 1 by {
        assert((i + 1) * chunk == i * chunk + chunk) by (nonlinear_arith);
        assert((i + 1) * chunk <= (n - 1) * chunk) by (nonlinear_arith)
            requires
                0 <= i + 1 <= n - 1,
                chunk >= 1,
        ;
        assert(ranges[i + 1].0 == start + (i + 1) * chunk);
        assert(ranges[i].0 == start + i * chunk);
    }
}

/// Blocks of `start ..= end` for `threads` threads: empty when
/// `start > end`, else blocks of `block_len(end - start + 1, threads)`
/// orders.
pub fn mp1_ranges_with(start: usize, end: usize, threads: usize) -> (ranges: Vec<(usize, usize)>)
    requires
        start <= end ==> end < usize::MAX,
    ensures
        start > end ==> ranges@.len() == 0,
        start <= end ==> is_blocking(
            ranges@,
            start as int,
            end as int,
            block_len(end - start + 1, threads as int),
        ),
{
    let mut ranges: Vec<(usize, usize)> = Vec::new();
    if start > end {
        return ranges;
    }
    let count = end - start + 1;
    let t = if threads >= 1 {
        threads
    } else {
        1
    };
    let c = if count % t == 0 {
        count / t
    } else {
        assert(count / t < count) by (nonlinear_arith)
            requires
                t >= 2,
                count >= 1,
        ;
        count / t + 1
    };
    proof {
        assert(c == (count + t - 1) / (t as int)) by (nonlinear_arith)
            requires
                t >= 1,
                count >= 0,
                c == if count % t == 0 {
                    (count / t) as int
                } else {
                    count / t + 1
                },
        ;
    }
    let chunk = if c >= 1 {
        c
    } else {
        1
    };
    let ghost k = chunk as int;
    let mut s = start;
    while s <= end
        invariant
            start <= end < usize::MAX,
            k == chunk,
            chunk >= 1,
            start <= s <= end + 1,
            s == min_int(start + ranges@.len() * k, end + 1int),
            ranges@.len() >= 1 ==> start + (ranges@.len() - 1) * k <= end,
            forall|i: int|
                0 <= i < ranges@.len() ==> #[trigger] ranges@[i].0 == start + i * k
                    && ranges@[i].1 == min_int(start + i * k + k - 1, end as int),
        decreases end + 1 - s,
    {
        let ghost n = ranges@.len() as int;
        assert(s == start + n * k);
        let e = if end - s < chunk {
            end
        } else {
            s + chunk - 1
        };
        let ghost before = ranges@;
        ranges.push((s, e));
        proof {
            assert((n + 1) * k == n * k + k) by (nonlinear_arith);
            assert forall|i: int| 0 <= i < ranges@.len() implies #[trigger] ranges@[i].0 == start + i
                * k && ranges@[i].1 == min_int(start + i * k + k - 1, end as int) by {
                if i < n {
                    assert(ranges@[i] == before[i]);
                    assert(before[i].0 == start + i * k);
                } else {
                    assert(i == n);
                    assert(ranges@[i] == (s, e));
                    assert(s == start + i * k);
                    assert(e == min_int(start + i * k + k - 1, end as int));
                }
            }
        }
        s = e + 1;
    }
    proof {
        assert(ranges@.len() >= 1);
    }
    ranges
}

/// Blocks of `start ..= end` for the threads of the current pool: blocks of
/// `block_len(end - start + 1, t)` orders, the last one cut at `end`, for the
/// pool's thread count `t` (at least 1).  However many threads there are,
/// the blocks cover `start ..= end` exactly once, in increasing order, each
/// non-empty; there are none when `start > end`.
pub fn mp1_ranges(start: usize, end: usize) -> (ranges: Vec<(usize, usize)>)
    requires
        start <= end ==> end < usize::MAX,
    ensures
        start > end ==> ranges@.len() == 0,
        start <= end ==> exists|t: int|
            t >= 1 && #[trigger] is_blocking(
                ranges@,
                start as int,
                end as int,
                block_len(end - start + 1, t),
            ),
        start <= end ==> is_partition(ranges@, start as int, end as int),
{
    let threads = current_num_threads();
    let ranges = mp1_ranges_with(start, end, threads);
    proof {
        if start <= end {
            let count = end - start + 1;
            let t = if threads >= 1 {
                threads as int
            } else {
                1
            };
            assert((count + t - 1) / t >= 0) by (nonlinear_arith)
                requires
                    count >= 1,
                    t >= 1,
            ;
            lemma_blocking_is_partition(
                ranges@,
                start as int,
                end as int,
                block_len(count, threads as int),
            );
            assert(block_len(count, t) == block_len(count, threads as int));
            assert(is_blocking(ranges@, start as int, end as int, block_len(count, t)));
        }
    }
    ranges
}

} // verus!
