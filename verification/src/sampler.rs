//! Samplers: one way per operating system of turning what the system
//! reports into a [`MemorySnapshot`].
//!
//! Reading the report is left to the caller: a sampler says where its
//! report comes from, and turns the text that was read into a snapshot.

use crate::records::{read_records, record_values, SampleError};
use crate::snapshot::MemorySnapshot;
use crate::text::{chars_of, views};
use vstd::prelude::*;

verus! {

/// The way memory is sampled on one kind of host.
#[derive(Clone, Copy, Debug, PartialEq, Eq, Structural)]
pub enum Sampler {
    /// The memory report file of Linux.
    Linux,
    /// The system-configuration query of FreeBSD.
    FreeBsd,
    /// macOS, for which no reading is implemented.
    MacOs,
    /// Any other host.
    Unsupported,
}

/// The file that holds the memory report of Linux.
pub const MEMINFO_FILE: &'static str = "/proc/meminfo";

/// The program that answers the system-configuration query of FreeBSD.
pub const SYSCTL_PROGRAM: &'static str = "/sbin/sysctl";

/// The argument that makes the query list every value.
pub const SYSCTL_ARGUMENT: &'static str = "-a";

/// Where a sampler's report comes from.
#[derive(Clone, Copy, Debug, PartialEq, Eq, Structural)]
pub enum Source {
    /// The text file [`MEMINFO_FILE`].
    MemInfoFile,
    /// The output of [`SYSCTL_PROGRAM`] run with [`SYSCTL_ARGUMENT`].
    SysctlCommand,
    /// Nothing is read.
    Nothing,
}

/// The keys of the Linux report, in the order total, free, available.
pub open spec fn meminfo_keys() -> Seq<Seq<char>> {
    seq!["MemTotal:"@, "MemFree:"@, "MemAvailable:"@]
}

/// The keys of the FreeBSD report, in the order inactive pages, cache
/// pages, free pages, page size, physical memory.
pub open spec fn sysctl_keys() -> Seq<Seq<char>> {
    seq![
        "vm.stats.vm.v_inactive_count:"@,
        "vm.stats.vm.v_cache_count:"@,
        "vm.stats.vm.v_free_count:"@,
        "hw.pagesize:"@,
        "hw.physmem:"@,
    ]
}

/// The snapshot that a Linux report gives: of each line with exactly three
/// fields (key, number, unit) whose key is `MemTotal:`, `MemFree:` or
/// `MemAvailable:`, the number, in kilobytes as reported; zero for a key
/// that no line gives.
pub open spec fn meminfo_snapshot(report: Seq<char>) -> Result<MemorySnapshot, SampleError> {
    match record_values(report, 3, meminfo_keys()) {
        Ok(v) => Ok(MemorySnapshot { total_kb: v[0], free_kb: v[1], available_kb: v[2] }),
        Err(e) => Err(e),
    }
}

/// The snapshot that the counters of a FreeBSD report give, in kilobytes
/// of a thousand bytes: the physical memory for the total, the free pages
/// for the free memory, and the inactive, cache and free pages together
/// for the available memory. The page counts and their product with the
/// page size must fit in 64 bits.
pub open spec fn sysctl_counters_snapshot(v: Seq<u64>) -> Result<MemorySnapshot, SampleError> {
    let pages = v[0] + v[1] + v[2];
    if pages > u64::MAX || pages * v[3] > u64::MAX {
        Err(SampleError::Overflow)
    } else {
        Ok(
            MemorySnapshot {
                total_kb: v[4] / 1000,
                free_kb: (v[2] * v[3] / 1000) as u64,
                available_kb: (pages * v[3] / 1000) as u64,
            },
        )
    }
}

/// The snapshot that a FreeBSD query gives: all zero where the query did
/// not succeed; else of each line with exactly two fields (key, number)
/// whose key is one of the five wanted, the number, then as
/// [`sysctl_counters_snapshot`] says.
pub open spec fn sysctl_snapshot(succeeded: bool, output: Seq<char>) -> Result<
    MemorySnapshot,
    SampleError,
> {
    if !succeeded {
        Ok(MemorySnapshot::spec_unsupported())
    } else {
        match record_values(output, 2, sysctl_keys()) {
            Ok(v) => sysctl_counters_snapshot(v),
            Err(e) => Err(e),
        }
    }
}

/// Reads a Linux memory report, as [`meminfo_snapshot`] says.
pub fn read_mem_linux(report: &str) -> (r: Result<MemorySnapshot, SampleError>)
    ensures
        r == meminfo_snapshot(report@),
{
    let mut keys: Vec<Vec<char>> = Vec::new();
    keys.push(chars_of("MemTotal:"));
    keys.push(chars_of("MemFree:"));
    keys.push(chars_of("MemAvailable:"));
    assert(views(keys@) == meminfo_keys());
    match read_records(report, 3, &keys) {
        Ok(v) => Ok(MemorySnapshot { total_kb: v[0], free_kb: v[1], available_kb: v[2] }),
        Err(e) => Err(e),
    }
}

/// Reads the output of a FreeBSD system-configuration query, as
/// [`sysctl_snapshot`] says.
pub fn read_mem_freebsd(succeeded: bool, output: &str) -> (r: Result<MemorySnapshot, SampleError>)
    ensures
        r == sysctl_snapshot(succeeded, output@),
{
    if !succeeded {
        return Ok(MemorySnapshot::unsupported());
    }
    let mut keys: Vec<Vec<char>> = Vec::new();
    keys.push(chars_of("vm.stats.vm.v_inactive_count:"));
    keys.push(chars_of("vm.stats.vm.v_cache_count:"));
    keys.push(chars_of("vm.stats.vm.v_free_count:"));
    keys.push(chars_of("hw.pagesize:"));
    keys.push(chars_of("hw.physmem:"));
    assert(views(keys@) == sysctl_keys());
    let v = match read_records(output, 2, &keys) {
        Ok(v) => v,
        Err(e) => {
            return Err(e);
        },
    };
    let page_size: u64 = v[3];
    let some_pages: u64 = match v[0].checked_add(v[1]) {
        Some(x) => x,
        None => {
            return Err(SampleError::Overflow);
        },
    };
    let pages: u64 = match some_pages.checked_add(v[2]) {
        Some(x) => x,
        None => {
            return Err(SampleError::Overflow);
        },
    };
    let available_bytes: u64 = match pages.checked_mul(page_size) {
        Some(x) => x,
        None => {
            return Err(SampleError::Overflow);
        },
    };
    assert(v@[2] * page_size <= pages * page_size) by (nonlinear_arith)
        requires
            v@[2] <= pages,
    ;
    let free_bytes: u64 = v[2] * page_size;
    Ok(
        MemorySnapshot {
            total_kb: v[4] / 1000,
            free_kb: free_bytes / 1000,
            available_kb: available_bytes / 1000,
        },
    )
}

/// The reading of macOS: none is implemented, so the all-zero snapshot.
pub fn read_mem_macos() -> (s: MemorySnapshot)
    ensures
        s == MemorySnapshot::spec_unsupported(),
{
    MemorySnapshot::unsupported()
}

impl Sampler {
    /// The sampler for the host that calls itself `os`: `linux`, `freebsd`
    /// and `macos` have their own, every other name the unsupported one.
    pub open spec fn spec_for_os(os: Seq<char>) -> Sampler {
        if os == "linux"@ {
            Sampler::Linux
        } else if os == "freebsd"@ {
            Sampler::FreeBsd
        } else if os == "macos"@ {
            Sampler::MacOs
        } else {
            Sampler::Unsupported
        }
    }

    /// Picks the sampler by the name of the operating system, as
    /// [`Sampler::spec_for_os`] says.
    pub fn for_os(os: &str) -> (s: Sampler)
        ensures
            s == Self::spec_for_os(os@),
    {
        let name = chars_of(os);
        if crate::text::spells(&name, "linux") {
            Sampler::Linux
        } else if crate::text::spells(&name, "freebsd") {
            Sampler::FreeBsd
        } else if crate::text::spells(&name, "macos") {
            Sampler::MacOs
        } else {
            Sampler::Unsupported
        }
    }

    /// Where this sampler's report comes from.
    pub open spec fn spec_source(&self) -> Source {
        match self {
            Sampler::Linux => Source::MemInfoFile,
            Sampler::FreeBsd => Source::SysctlCommand,
            Sampler::MacOs => Source::Nothing,
            Sampler::Unsupported => Source::Nothing,
        }
    }

    /// Where this sampler's report comes from.
    #[verifier::when_used_as_spec(spec_source)]
    pub fn source(&self) -> (s: Source)
        ensures
            s == self.spec_source(),
    {
        match self {
            Sampler::Linux => Source::MemInfoFile,
            Sampler::FreeBsd => Source::SysctlCommand,
            Sampler::MacOs => Source::Nothing,
            Sampler::Unsupported => Source::Nothing,
        }
    }

    /// The snapshot that this sampler makes of what was read: `succeeded`
    /// says whether the query ended well (it is only asked of a query),
    /// `report` is the text that was read.
    pub open spec fn snapshot_of(self, succeeded: bool, report: Seq<char>) -> Result<
        MemorySnapshot,
        SampleError,
    > {
        match self {
            Sampler::Linux => meminfo_snapshot(report),
            Sampler::FreeBsd => sysctl_snapshot(succeeded, report),
            Sampler::MacOs => Ok(MemorySnapshot::spec_unsupported()),
            Sampler::Unsupported => Ok(MemorySnapshot::spec_unsupported()),
        }
    }
}

/// Turns what was read for `sampler` into a snapshot, as
/// [`Sampler::snapshot_of`] says.
pub fn read_mem_info(sampler: Sampler, succeeded: bool, report: &str) -> (r: Result<
    MemorySnapshot,
    SampleError,
>)
    ensures
        r == sampler.snapshot_of(succeeded, report@),
{
    match sampler {
        Sampler::Linux => read_mem_linux(report),
        Sampler::FreeBsd => read_mem_freebsd(succeeded, report),
        Sampler::MacOs => Ok(read_mem_macos()),
        Sampler::Unsupported => Ok(MemorySnapshot::unsupported()),
    }
}

} // verus!
