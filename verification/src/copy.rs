use crate::plan::{effective_buffer_size, lemma_plan_partitions, plan_ranges, WorkerRange};
use crate::status::Status;
use vstd::arithmetic::div_mod::lemma_div_non_zero;
use vstd::prelude::*;

verus! {

/// One worker's next read size: the shared buffer size clamped to what is
/// left of the worker's range. Zero exactly when the range is exhausted or
/// the buffer size itself is zero.
pub fn chunk_len(cursor: u64, end_offset: u64, buffer_size: usize) -> (n: usize)
    requires
        cursor <= end_offset,
    ensures
        n == (if buffer_size as int <= end_offset - cursor {
            buffer_size as int
        } else {
            end_offset - cursor
        }),
{
    let remaining: u64 = end_offset - cursor;
    if buffer_size as u64 <= remaining {
        buffer_size
    } else {
        remaining as usize
    }
}

/// Transfers the bytes of one worker's range from `source` into `target`, in
/// strictly increasing offset order, at most `buffer_size` bytes per write,
/// appending one progress event per completed write. Bytes outside the range
/// are left untouched, and an empty range appends no event.
pub fn copy_range(
    source: &Vec<u8>,
    target: &mut Vec<u8>,
    range: &WorkerRange,
    buffer_size: usize,
    events: &mut Vec<Status>,
)
    requires
        range.start_offset <= range.end_offset,
        range.end_offset <= source@.len(),
        old(target)@.len() == source@.len(),
        range.start_offset < range.end_offset ==> buffer_size >= 1,
    ensures
        final(target)@.len() == old(target)@.len(),
        forall|j: int|
            range.start_offset <= j < range.end_offset ==> final(target)@[j] == source@[j],
        forall|j: int|
            0 <= j < old(target)@.len() && !(range.start_offset <= j < range.end_offset)
                ==> final(target)@[j] == old(target)@[j],
        final(events)@.len() >= old(events)@.len(),
        final(events)@.subrange(0, old(events)@.len() as int) == old(events)@,
        range.start_offset == range.end_offset ==> final(events)@ == old(events)@,
        range.start_offset < range.end_offset ==> final(events)@.len() > old(events)@.len()
            && final(events)@[old(events)@.len() as int].offset == range.start_offset
            && final(events)@.last().offset + final(events)@.last().bytes_written
            == range.end_offset,
        forall|k: int|
            old(events)@.len() <= k < final(events)@.len() ==> (#[trigger] final(events)@[k]).thread_idx
                == range.index && range.start_offset <= final(events)@[k].offset
                < range.end_offset && final(events)@[k].bytes_written == (
            if buffer_size as int <= range.end_offset - final(events)@[k].offset {
                buffer_size as int
            } else {
                range.end_offset - final(events)@[k].offset
            }),
        forall|k: int|
            old(events)@.len() < k < final(events)@.len() ==> (#[trigger] final(events)@[k]).offset
                == final(events)@[k - 1].offset + final(events)@[k - 1].bytes_written,
{
    let ghost orig_target = target@;
    let ghost orig_events = events@;
    let src_len: usize = source.len();
    let mut cursor: u64 = range.start_offset;
    while cursor < range.end_offset
        invariant
            range.start_offset <= cursor <= range.end_offset,
            range.end_offset <= source@.len(),
            src_len == source@.len(),
            target@.len() == source@.len(),
            orig_target.len() == source@.len(),
            range.start_offset < range.end_offset ==> buffer_size >= 1,
            forall|j: int| range.start_offset <= j < cursor ==> target@[j] == source@[j],
            forall|j: int|
                0 <= j < target@.len() && !(range.start_offset <= j < range.end_offset)
                    ==> target@[j] == orig_target[j],
            events@.len() >= orig_events.len(),
            events@.subrange(0, orig_events.len() as int) == orig_events,
            range.start_offset == range.end_offset ==> events@ == orig_events,
            events@.len() == orig_events.len() ==> cursor == range.start_offset,
            events@.len() > orig_events.len() ==> events@[orig_events.len() as int].offset
                == range.start_offset && events@.last().offset + events@.last().bytes_written
                == cursor,
            forall|k: int|
                orig_events.len() <= k < events@.len() ==> (#[trigger] events@[k]).thread_idx
                    == range.index && range.start_offset <= events@[k].offset < range.end_offset
                    && events@[k].bytes_written == (
                if buffer_size as int <= range.end_offset - events@[k].offset {
                    buffer_size as int
                } else {
                    range.end_offset - events@[k].offset
                }),
            forall|k: int|
                orig_events.len() < k < events@.len() ==> (#[trigger] events@[k]).offset
                    == events@[k - 1].offset + events@[k - 1].bytes_written,
        decreases range.end_offset - cursor,
    {
        let n = chunk_len(cursor, range.end_offset, buffer_size);
        let mut k: usize = 0;
        while k < n
            invariant
                0 <= k <= n,
                range.start_offset <= cursor,
                cursor + n <= range.end_offset,
                range.end_offset <= source@.len(),
                src_len == source@.len(),
                target@.len() == source@.len(),
                orig_target.len() == source@.len(),
                forall|j: int| range.start_offset <= j < cursor + k ==> target@[j] == source@[j],
                forall|j: int|
                    0 <= j < target@.len() && !(range.start_offset <= j < range.end_offset)
                        ==> target@[j] == orig_target[j],
            decreases n - k,
        {
            let idx: usize = cursor as usize + k;
            let b: u8 = source[idx];
            target[idx] = b;
            k = k + 1;
        }
        events.push(Status::new(range.index, n, cursor));
        cursor = cursor + n as u64;
    }
}

/// Runs the whole engine over in-memory bytes: plans one range per worker,
/// clamps the buffer to the per-worker share, and has each worker copy its
/// range, in worker-index order. The target comes out byte-identical to the
/// source; an empty source yields an empty target and no progress events.
pub fn copy_all(
    source: &Vec<u8>,
    worker_count: u8,
    requested_buffer_size: usize,
    events: &mut Vec<Status>,
) -> (target: Vec<u8>)
    requires
        worker_count >= 1,
        requested_buffer_size >= 1,
        source@.len() == 0 || worker_count as int <= source@.len(),
    ensures
        target@ == source@,
        final(events)@.len() >= old(events)@.len(),
        final(events)@.subrange(0, old(events)@.len() as int) == old(events)@,
        source@.len() == 0 ==> final(events)@ == old(events)@,
        forall|k: int|
            old(events)@.len() <= k < final(events)@.len() ==> (#[trigger] final(events)@[k]).thread_idx
                < worker_count && 0 <= final(events)@[k].offset && final(events)@[k].offset
                + final(events)@[k].bytes_written <= source@.len() && final(
                events)@[k].bytes_written >= 1,
{
    let total_size: u64 = source.len() as u64;
    let ranges = plan_ranges(total_size, worker_count);
    let buffer_size = effective_buffer_size(requested_buffer_size, total_size, worker_count);
    proof {
        lemma_plan_partitions(ranges@, total_size, worker_count);
        if total_size >= 1 {
            lemma_div_non_zero(total_size as int, worker_count as int);
        }
    }
    let mut target: Vec<u8> = Vec::new();
    let mut z: usize = 0;
    while z < source.len()
        invariant
            z <= source@.len(),
            target@.len() == z,
        decreases source@.len() - z,
    {
        target.push(0u8);
        z = z + 1;
    }
    let ghost orig_events = events@;
    let mut w: usize = 0;
    while w < ranges.len()
        invariant
            worker_count >= 1,
            total_size == source@.len(),
            ranges@.len() == worker_count,
            w <= ranges@.len(),
            target@.len() == source@.len(),
            total_size >= 1 ==> buffer_size >= 1,
            forall|i: int|
                0 <= i < ranges@.len() ==> (#[trigger] ranges@[i]).start_offset
                    <= ranges@[i].end_offset,
            forall|i: int|
                0 <= i < ranges@.len() ==> (#[trigger] ranges@[i]).end_offset <= total_size,
            forall|i: int|
                0 <= i < ranges@.len() - 1 ==> (#[trigger] ranges@[i]).end_offset == ranges@[i
                    + 1].start_offset,
            ranges@[0].start_offset == 0,
            ranges@[ranges@.len() - 1].end_offset == total_size,
            forall|j: int|
                0 <= j < (if w == 0 {
                    0int
                } else {
                    ranges@[w - 1].end_offset as int
                }) ==> target@[j] == source@[j],
            events@.len() >= orig_events.len(),
            events@.subrange(0, orig_events.len() as int) == orig_events,
            total_size == 0 ==> events@ == orig_events,
            forall|i: int| 0 <= i < ranges@.len() ==> (#[trigger] ranges@[i]).index == i,
            forall|k: int|
                orig_events.len() <= k < events@.len() ==> (#[trigger] events@[k]).thread_idx
                    < worker_count && 0 <= events@[k].offset && events@[k].offset
                    + events@[k].bytes_written <= total_size && events@[k].bytes_written >= 1,
        decreases ranges@.len() - w,
    {
        let range = ranges[w];
        let ghost pre_events = events@;
        copy_range(source, &mut target, &range, buffer_size, events);
        proof {
            assert forall|k: int|
                orig_events.len() <= k < events@.len() implies ((#[trigger] events@[k]).thread_idx
                < worker_count && 0 <= events@[k].offset && events@[k].offset
                + events@[k].bytes_written <= total_size && events@[k].bytes_written >= 1) by {
                if k < pre_events.len() {
                    assert(events@[k] == events@.subrange(0, pre_events.len() as int)[k]);
                } else {
                    assert(range.start_offset <= events@[k].offset < range.end_offset);
                }
            }
            assert(events@.subrange(0, orig_events.len() as int) =~= orig_events);
        }
        w = w + 1;
    }
    proof {
        assert(target@ =~= source@);
    }
    target
}

/// Running the copy twice against the same source yields the same target
/// both times: the engine's output is fully determined by the source
/// contents, so any two runs over one source agree byte for byte.
pub proof fn lemma_copy_runs_agree(source: Seq<u8>, first_run: Seq<u8>, second_run: Seq<u8>)
    requires
        first_run == source,
        second_run == source,
    ensures
        first_run == second_run,
{
}

} // verus!
