use parcp::copy::{chunk_len, copy_all, copy_range};
use parcp::plan::WorkerRange;
use parcp::status::Status;

#[test]
fn chunk_len_full_buffer() {
    assert_eq!(chunk_len(0, 100, 10), 10);
}

#[test]
fn chunk_len_shrinks_near_range_end() {
    assert_eq!(chunk_len(95, 100, 10), 5);
}

#[test]
fn chunk_len_zero_when_range_exhausted() {
    assert_eq!(chunk_len(100, 100, 10), 0);
}

#[test]
fn copy_roundtrip_many_workers_and_buffers() {
    let source: Vec<u8> = (0..123u32).map(|i| (i * 37 % 256) as u8).collect();
    for worker_count in 1..=8u8 {
        for buffer_size in [1usize, 2, 7, 64, 123] {
            let mut events: Vec<Status> = Vec::new();
            let target = copy_all(&source, worker_count, buffer_size, &mut events);
            assert_eq!(target, source);
            assert_eq!(target.len(), source.len());
        }
    }
}

#[test]
fn copy_twice_yields_identical_targets() {
    let source: Vec<u8> = (0..50u32).map(|i| (i * 11 % 256) as u8).collect();
    let mut first_events: Vec<Status> = Vec::new();
    let mut second_events: Vec<Status> = Vec::new();
    let first = copy_all(&source, 3, 8, &mut first_events);
    let second = copy_all(&source, 3, 8, &mut second_events);
    assert_eq!(first, second);
}

#[test]
fn empty_source_gives_empty_target_and_no_events() {
    let source: Vec<u8> = Vec::new();
    let mut events: Vec<Status> = Vec::new();
    let target = copy_all(&source, 2, 5, &mut events);
    assert!(target.is_empty());
    assert_eq!(events.len(), 0);
}

#[test]
fn uneven_worker_count_still_copies_everything() {
    let source: Vec<u8> = (0..10u8).collect();
    let mut events: Vec<Status> = Vec::new();
    let target = copy_all(&source, 3, 4, &mut events);
    assert_eq!(target, source);
}

#[test]
fn scenario_single_marked_byte() {
    let mut source = vec![0u8; 100];
    source[50] = 0xFF;
    let mut events: Vec<Status> = Vec::new();
    let target = copy_all(&source, 4, 10, &mut events);
    assert_eq!(target.len(), 100);
    assert_eq!(target, source);
    assert_eq!(target[50], 0xFF);
}

#[test]
fn copy_range_leaves_outside_bytes_untouched() {
    let source: Vec<u8> = vec![1, 2, 3, 4, 5, 6, 7];
    let mut target: Vec<u8> = vec![0xAA; 7];
    let mut events: Vec<Status> = Vec::new();
    let range = WorkerRange { index: 0, start_offset: 2, end_offset: 5 };
    copy_range(&source, &mut target, &range, 2, &mut events);
    assert_eq!(target, vec![0xAA, 0xAA, 3, 4, 5, 0xAA, 0xAA]);
}

#[test]
fn events_report_each_write_in_offset_order() {
    let source: Vec<u8> = (0..10u8).collect();
    let mut events: Vec<Status> = Vec::new();
    let target = copy_all(&source, 1, 4, &mut events);
    assert_eq!(target, source);
    assert_eq!(events.len(), 3);
    assert_eq!(events[0].offset, 0);
    assert_eq!(events[0].bytes_written, 4);
    assert_eq!(events[1].offset, 4);
    assert_eq!(events[1].bytes_written, 4);
    assert_eq!(events[2].offset, 8);
    assert_eq!(events[2].bytes_written, 2);
    assert!(events.iter().all(|e| e.thread_idx == 0));
}

#[test]
fn status_carries_the_write_description() {
    let s = Status::new(3, 7, 9);
    assert_eq!(s.thread_idx, 3);
    assert_eq!(s.bytes_written, 7);
    assert_eq!(s.offset, 9);
}
