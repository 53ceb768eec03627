use vstd::prelude::*;

verus! {

/// One completed positional write, reported by a worker to the renderer:
/// which worker wrote, how many bytes, and at which offset the write began.
/// Fire-and-forget telemetry — consumed once by the renderer, never retained.
#[derive(Clone, Copy, Debug)]
pub struct Status {
    pub timestamp: i64,
    pub thread_idx: u8,
    pub bytes_written: usize,
    pub offset: u64,
}

/// Relies on chrono's `Local::now().timestamp_millis()`: the wall-clock time
/// of the call as milliseconds since the Unix epoch. The value depends on the
/// clock, so nothing is promised of it.
#[verifier::external_body]
fn now_timestamp_millis() -> i64 {
    chrono::offset::Local::now().timestamp_millis()
}

impl Status {
    /// Stamps a progress record for one write at the current wall-clock time.
    pub fn new(thread_idx: u8, bytes_written: usize, offset: u64) -> (s: Status)
        ensures
            s.thread_idx == thread_idx,
            s.bytes_written == bytes_written,
            s.offset == offset,
    {
        Status { timestamp: now_timestamp_millis(), thread_idx, bytes_written, offset }
    }
}

} // verus!
