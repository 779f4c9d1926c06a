//! Memory profile samples: the resident set size of the process and the
//! depths of the buffers that hold most of its memory.
use vstd::prelude::*;

use crate::resource_profile::{kb_field, kb_field_bytes};

verus! {

/// One sample of the memory profile.
#[derive(Debug, Clone, Copy, PartialEq, Eq, Default)]
pub struct MemorySnapshot {
    pub rss_bytes: u64,
    pub event_bus_depth: u64,
    pub event_bus_receivers: u64,
    pub archive_buffer_rows: u64,
    pub archive_lag_millis: i64,
    pub archive_last_compression_ppm: u64,
}

/// The resident set size from the text of `/proc/self/status`: the `VmRSS:`
/// line in kibibytes, zero when it is missing or unreadable.
pub fn status_rss_bytes(status: &str) -> (r: u64)
    requires
        kb_field(status@, "VmRSS:"@) * 1024 <= u64::MAX,
    ensures
        r == kb_field(status@, "VmRSS:"@) * 1024,
{
    kb_field_bytes(status, "VmRSS:")
}

} // verus!
