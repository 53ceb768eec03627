use vstd::prelude::*;

verus! {

/// Runtime configuration for a copy job: how many workers run in parallel
/// and how large a transfer buffer each of them requests.
pub struct Config {
    pub thread_count: u8,
    pub buffer_size: usize,
}

impl Config {
    /// A missing worker count falls back to a single worker; a missing
    /// buffer size falls back to 1024 bytes.
    pub fn new(thread_count: Option<u8>, buffer_size: Option<usize>) -> (c: Config)
        ensures
            c.thread_count == (match thread_count {
                Option::Some(t) => t,
                Option::None => 1u8,
            }),
            c.buffer_size == (match buffer_size {
                Option::Some(b) => b,
                Option::None => 1024usize,
            }),
    {
        Config {
            thread_count: match thread_count {
                Option::Some(t) => t,
                Option::None => 1,
            },
            buffer_size: match buffer_size {
                Option::Some(b) => b,
                Option::None => 1024,
            },
        }
    }
}

} // verus!
