use parcp::config::Config;
use parcp::plan::{
    effective_buffer_size, plan_copy, plan_ranges, validate_worker_count, ConfigError, WorkerRange,
};

#[test]
fn config_defaults() {
    let c = Config::new(None, None);
    assert_eq!(c.thread_count, 1);
    assert_eq!(c.buffer_size, 1024);
}

#[test]
fn config_explicit_values() {
    let c = Config::new(Some(4), Some(8192));
    assert_eq!(c.thread_count, 4);
    assert_eq!(c.buffer_size, 8192);
}

#[test]
fn plan_even_split() {
    let r = plan_ranges(100, 4);
    assert_eq!(r.len(), 4);
    assert_eq!(r[0], WorkerRange { index: 0, start_offset: 0, end_offset: 25 });
    assert_eq!(r[1], WorkerRange { index: 1, start_offset: 25, end_offset: 50 });
    assert_eq!(r[2], WorkerRange { index: 2, start_offset: 50, end_offset: 75 });
    assert_eq!(r[3], WorkerRange { index: 3, start_offset: 75, end_offset: 100 });
}

#[test]
fn plan_last_worker_absorbs_remainder() {
    let r = plan_ranges(10, 3);
    assert_eq!(r.len(), 3);
    assert_eq!(r[0], WorkerRange { index: 0, start_offset: 0, end_offset: 3 });
    assert_eq!(r[1], WorkerRange { index: 1, start_offset: 3, end_offset: 6 });
    assert_eq!(r[2], WorkerRange { index: 2, start_offset: 6, end_offset: 10 });
}

#[test]
fn plan_single_worker() {
    let r = plan_ranges(42, 1);
    assert_eq!(r.len(), 1);
    assert_eq!(r[0], WorkerRange { index: 0, start_offset: 0, end_offset: 42 });
}

#[test]
fn plan_empty_file() {
    let r = plan_ranges(0, 3);
    assert_eq!(r.len(), 3);
    for (i, range) in r.iter().enumerate() {
        assert_eq!(range.index, i as u8);
        assert_eq!(range.start_offset, 0);
        assert_eq!(range.end_offset, 0);
    }
}

#[test]
fn effective_buffer_clamps_to_per_worker_share() {
    assert_eq!(effective_buffer_size(10000, 100, 4), 25);
}

#[test]
fn effective_buffer_keeps_small_request() {
    assert_eq!(effective_buffer_size(10, 100, 4), 10);
}

#[test]
fn effective_buffer_at_least_one_when_share_positive() {
    assert_eq!(effective_buffer_size(1024, 4, 4), 1);
}

#[test]
fn zero_worker_count_rejected() {
    assert_eq!(validate_worker_count(0), Err(ConfigError::ZeroWorkerCount));
    assert!(plan_copy(100, 0, 10).is_err());
}

#[test]
fn positive_worker_count_accepted() {
    assert_eq!(validate_worker_count(1), Ok(()));
    let p = plan_copy(10, 3, 4).unwrap();
    assert_eq!(p.ranges.len(), 3);
    assert_eq!(p.ranges[2], WorkerRange { index: 2, start_offset: 6, end_offset: 10 });
    assert_eq!(p.buffer_size, 3);
}
