//! One point-in-time reading of the host's memory counters.

use vstd::prelude::*;

verus! {

/// Memory counters of one poll, in kilobytes.
///
/// A reading whose `total_kb` is zero says that no figure could be had for
/// this host; it is a sentinel, not an error.
#[derive(Clone, Copy, Debug, PartialEq, Eq, Structural)]
pub struct MemorySnapshot {
    pub total_kb: u64,
    pub free_kb: u64,
    pub available_kb: u64,
}

impl MemorySnapshot {
    /// The all-zero reading.
    pub open spec fn spec_unsupported() -> MemorySnapshot {
        MemorySnapshot { total_kb: 0, free_kb: 0, available_kb: 0 }
    }

    /// The all-zero reading that stands for "memory cannot be determined".
    #[verifier::when_used_as_spec(spec_unsupported)]
    pub fn unsupported() -> (s: MemorySnapshot)
        ensures
            s == Self::spec_unsupported(),
    {
        MemorySnapshot { total_kb: 0, free_kb: 0, available_kb: 0 }
    }
}

} // verus!
