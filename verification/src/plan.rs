use vstd::arithmetic::div_mod::{
    lemma_div_pos_is_pos, lemma_fundamental_div_mod, lemma_mod_bound, lemma_multiply_divide_lt,
};
use vstd::arithmetic::mul::{
    lemma_mul_inequality, lemma_mul_is_commutative, lemma_mul_is_distributive_add,
};
use vstd::prelude::*;

verus! {

/// The half-open byte interval `[start_offset, end_offset)` of the source and
/// target files assigned exclusively to one worker.
#[derive(Clone, Copy, PartialEq, Eq, Structural, Debug)]
pub struct WorkerRange {
    pub index: u8,
    pub start_offset: u64,
    pub end_offset: u64,
}

/// Byte count assigned to every worker except the last, which also absorbs
/// the remainder `total_size % worker_count`: integer floor division.
pub open spec fn per_worker_bytes(total_size: u64, worker_count: u8) -> int
    recommends
        worker_count >= 1,
{
    total_size as int / worker_count as int
}

/// Shape of a correct plan for `worker_count` workers over `total_size`
/// bytes: ranges ordered by worker index, worker `i` starting at
/// `i * per_worker_bytes`, every range but the last one share wide, and the
/// last range ending exactly at `total_size`.
pub open spec fn plan_shape(ranges: Seq<WorkerRange>, total_size: u64, worker_count: u8) -> bool {
    let per = per_worker_bytes(total_size, worker_count);
    &&& ranges.len() == worker_count
    &&& forall|i: int| 0 <= i < ranges.len() ==> (#[trigger] ranges[i]).index == i
    &&& forall|i: int| 0 <= i < ranges.len() ==> (#[trigger] ranges[i]).start_offset == i * per
    &&& forall|i: int|
        0 <= i < ranges.len() - 1 ==> (#[trigger] ranges[i]).end_offset == (i + 1) * per
    &&& ranges.len() > 0 ==> ranges[ranges.len() - 1].end_offset == total_size
}

/// Splits `[0, total_size)` into one contiguous range per worker: each worker
/// gets `total_size / worker_count` bytes, except the last, whose range runs
/// to the end of the file and so absorbs the division remainder.
pub fn plan_ranges(total_size: u64, worker_count: u8) -> (ranges: Vec<WorkerRange>)
    requires
        worker_count >= 1,
    ensures
        plan_shape(ranges@, total_size, worker_count),
{
    let per: u64 = total_size / (worker_count as u64);
    proof {
        lemma_fundamental_div_mod(total_size as int, worker_count as int);
    }
    let mut ranges: Vec<WorkerRange> = Vec::new();
    let mut i: u8 = 0;
    while i < worker_count
        invariant
            0 <= i <= worker_count,
            worker_count >= 1,
            per == per_worker_bytes(total_size, worker_count),
            worker_count as int * per as int <= total_size as int,
            ranges@.len() == i,
            forall|j: int| 0 <= j < i ==> (#[trigger] ranges@[j]).index == j,
            forall|j: int| 0 <= j < i ==> (#[trigger] ranges@[j]).start_offset == j * per as int,
            forall|j: int|
                0 <= j < i && j < worker_count - 1 ==> (#[trigger] ranges@[j]).end_offset == (j
                    + 1) * per as int,
            i == worker_count ==> ranges@[i - 1].end_offset == total_size,
        decreases worker_count - i,
    {
        proof {
            lemma_mul_inequality(i as int + 1, worker_count as int, per as int);
            lemma_mul_is_commutative(i as int + 1, per as int);
            lemma_mul_is_commutative(worker_count as int, per as int);
            lemma_mul_inequality(i as int, i as int + 1, per as int);
            lemma_mul_is_commutative(i as int, per as int);
        }
        let start: u64 = (i as u64) * per;
        let end: u64 = if i == worker_count - 1 {
            total_size
        } else {
            (i as u64 + 1) * per
        };
        ranges.push(WorkerRange { index: i, start_offset: start, end_offset: end });
        i = i + 1;
    }
    ranges
}

/// The actual per-iteration transfer chunk size: the requested buffer size
/// clamped so no single worker's chunk exceeds its own share of the file.
pub open spec fn effective_buffer(requested: usize, total_size: u64, worker_count: u8) -> int
    recommends
        worker_count >= 1,
{
    let per = per_worker_bytes(total_size, worker_count);
    if requested as int <= per {
        requested as int
    } else {
        per
    }
}

/// Clamps the requested buffer size to the per-worker byte count. The result
/// never exceeds either bound, and is at least one whenever both the request
/// and the per-worker share are.
pub fn effective_buffer_size(requested: usize, total_size: u64, worker_count: u8) -> (r: usize)
    requires
        worker_count >= 1,
    ensures
        r == effective_buffer(requested, total_size, worker_count),
        r <= per_worker_bytes(total_size, worker_count),
        r <= requested,
        requested >= 1 && per_worker_bytes(total_size, worker_count) >= 1 ==> r >= 1,
{
    let per: u64 = total_size / (worker_count as u64);
    if requested as u64 <= per {
        requested
    } else {
        per as usize
    }
}

/// Why a copy job's configuration was rejected.
#[derive(Clone, Copy, PartialEq, Eq, Structural, Debug)]
pub enum ConfigError {
    /// The worker count was zero: no worker could make progress and the
    /// per-worker share would be a division by zero.
    ZeroWorkerCount,
}

/// A validated copy plan: the per-worker byte ranges, ordered by worker
/// index, and the effective buffer size every worker shares.
pub struct CopyPlan {
    pub ranges: Vec<WorkerRange>,
    pub buffer_size: usize,
}

/// Rejects a zero worker count. This check runs before any file handle is
/// opened, so a bad configuration never creates or truncates the target.
pub fn validate_worker_count(worker_count: u8) -> (r: Result<(), ConfigError>)
    ensures
        worker_count == 0 ==> r == Err::<(), ConfigError>(ConfigError::ZeroWorkerCount),
        worker_count >= 1 ==> r == Ok::<(), ConfigError>(()),
{
    if worker_count == 0 {
        Err(ConfigError::ZeroWorkerCount)
    } else {
        Ok(())
    }
}

/// Validates the configuration and computes the whole plan: the partition of
/// `[0, total_size)` into one range per worker and the shared chunk size.
pub fn plan_copy(total_size: u64, worker_count: u8, requested_buffer_size: usize) -> (r: Result<
    CopyPlan,
    ConfigError,
>)
    ensures
        r is Ok <==> worker_count >= 1,
        r matches Ok(p) ==> plan_shape(p.ranges@, total_size, worker_count) && p.buffer_size
            == effective_buffer(requested_buffer_size, total_size, worker_count),
        r matches Err(e) ==> e == ConfigError::ZeroWorkerCount,
{
    match validate_worker_count(worker_count) {
        Err(e) => Err(e),
        Ok(()) => {
            let ranges = plan_ranges(total_size, worker_count);
            let buffer_size = effective_buffer_size(
                requested_buffer_size,
                total_size,
                worker_count,
            );
            Ok(CopyPlan { ranges, buffer_size })
        },
    }
}

/// Some range of the plan contains the byte offset `off`.
pub open spec fn offset_covered(ranges: Seq<WorkerRange>, off: int) -> bool {
    exists|i: int|
        0 <= i < ranges.len() && (#[trigger] ranges[i]).start_offset <= off < ranges[i].end_offset
}

/// Every correctly shaped plan partitions `[0, total_size)` exactly: the
/// first range starts at zero, consecutive ranges meet with no gap, ranges
/// are pairwise disjoint and stay inside the file, and every byte offset
/// below `total_size` lies in one of them.
pub proof fn lemma_plan_partitions(ranges: Seq<WorkerRange>, total_size: u64, worker_count: u8)
    requires
        worker_count >= 1,
        plan_shape(ranges, total_size, worker_count),
    ensures
        ranges[0].start_offset == 0,
        forall|i: int|
            0 <= i < ranges.len() - 1 ==> (#[trigger] ranges[i]).end_offset == ranges[i
                + 1].start_offset,
        forall|i: int|
            0 <= i < ranges.len() ==> (#[trigger] ranges[i]).start_offset
                <= ranges[i].end_offset,
        forall|i: int| 0 <= i < ranges.len() ==> (#[trigger] ranges[i]).end_offset <= total_size,
        forall|i: int, j: int|
            0 <= i < j < ranges.len() ==> (#[trigger] ranges[i]).end_offset
                <= (#[trigger] ranges[j]).start_offset,
        forall|off: int| 0 <= off < total_size ==> #[trigger] offset_covered(ranges, off),
{
    let per = per_worker_bytes(total_size, worker_count);
    let n = ranges.len() as int;
    lemma_fundamental_div_mod(total_size as int, worker_count as int);
    assert(worker_count as int * per <= total_size as int);
    assert forall|i: int| 0 <= i < n - 1 implies (#[trigger] ranges[i]).end_offset == ranges[i
        + 1].start_offset by {
        assert(ranges[i + 1].start_offset == (i + 1) * per);
    }
    assert forall|i: int| 0 <= i < n implies (#[trigger] ranges[i]).end_offset
        <= total_size by {
        if i < n - 1 {
            lemma_mul_inequality(i + 1, worker_count as int, per);
            lemma_mul_is_commutative(i + 1, per);
            lemma_mul_is_commutative(worker_count as int, per);
        }
    }
    assert forall|i: int| 0 <= i < n implies (#[trigger] ranges[i]).start_offset <= ranges[
        i].end_offset by {
        lemma_mul_inequality(i, i + 1, per);
        lemma_mul_is_commutative(i, per);
        lemma_mul_is_commutative(i + 1, per);
        if i == n - 1 {
            lemma_mul_inequality(i, worker_count as int, per);
            lemma_mul_is_commutative(worker_count as int, per);
        }
    }
    assert forall|i: int, j: int| 0 <= i < j < n implies (#[trigger] ranges[i]).end_offset
        <= (#[trigger] ranges[j]).start_offset by {
        lemma_mul_inequality(i + 1, j, per);
        lemma_mul_is_commutative(i + 1, per);
        lemma_mul_is_commutative(j, per);
        if j == n - 1 {
            lemma_mul_inequality(i + 1, worker_count as int - 1, per);
            lemma_mul_is_commutative(worker_count as int - 1, per);
        }
    }
    assert forall|off: int| 0 <= off < total_size implies #[trigger] offset_covered(
        ranges,
        off,
    ) by {
        if per == 0 || off >= (worker_count as int - 1) * per {
            assert(ranges[n - 1].start_offset == (worker_count as int - 1) * per);
            if per == 0 {
                assert(ranges[n - 1].start_offset == (worker_count as int - 1) * per == 0) by {
                    lemma_mul_is_commutative(worker_count as int - 1, per);
                }
            }
            assert(ranges[n - 1].start_offset <= off < ranges[n - 1].end_offset);
        } else {
            let q = off / per;
            lemma_fundamental_div_mod(off, per);
            lemma_mod_bound(off, per);
            assert(q * per <= off < (q + 1) * per) by {
                lemma_mul_is_distributive_add(per, q, 1);
                lemma_mul_is_commutative(q, per);
                lemma_mul_is_commutative(q + 1, per);
            }
            assert(q < worker_count as int - 1) by {
                lemma_mul_is_commutative(worker_count as int - 1, per);
                lemma_multiply_divide_lt(off, per, worker_count as int - 1);
            }
            assert(0 <= q) by {
                lemma_div_pos_is_pos(off, per);
            }
            assert(ranges[q].start_offset <= off < ranges[q].end_offset);
        }
    }
}

} // verus!
