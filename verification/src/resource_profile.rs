//! Classification of the host into a resource profile, and the default tuning
//! of every subsystem for each profile. Operator configuration always takes
//! precedence; these defaults fill the gaps of an unconfigured deployment.
//!
//! Reading `/proc` and the cgroup files is the caller's part; this module
//! parses what was read and decides.
use vstd::prelude::*;

use crate::text::{chars_of, lines, lines_chars, parse_u64, parses_unsigned, starts_with, trim, trim_chars, unsigned_value, words, words_chars};

verus! {

pub const GIB: u64 = 1024 * 1024 * 1024;

pub const MIB: u64 = 1024 * 1024;

/// The size class of the host.
#[derive(Debug, Clone, Copy, PartialEq, Eq)]
pub enum ResourceProfile {
    /// Under 2 GiB of RAM: CI, edge, tiny VM.
    Tiny,
    /// 2 to 5 GiB.
    Small,
    /// 6 to 13 GiB.
    Medium,
    /// 14 to 29 GiB.
    Large,
    /// 30 GiB and more.
    XLarge,
}

/// The profile of a host with `ram_bytes` of RAM, by whole GiB.
pub open spec fn profile_for_ram(ram_bytes: u64) -> ResourceProfile {
    let gb = ram_bytes / GIB;
    if gb <= 1 {
        ResourceProfile::Tiny
    } else if gb <= 5 {
        ResourceProfile::Small
    } else if gb <= 13 {
        ResourceProfile::Medium
    } else if gb <= 29 {
        ResourceProfile::Large
    } else {
        ResourceProfile::XLarge
    }
}

/// The defaults of every subsystem for one profile.
#[derive(Debug, Clone, Copy, PartialEq, Eq)]
pub struct ProfileDefaults {
    /// RSS budget before governance actions start.
    pub memory_budget_bytes: u64,
    /// Total budget of all LRU debounce caches.
    pub lru_cache_bytes: u64,
    /// Updates per write transaction.
    pub write_coordinator_batch_size: usize,
    /// Buffered events of the event bus.
    pub event_bus_capacity: usize,
    /// Archive flush interval in seconds.
    pub archive_flush_interval_secs: u64,
    /// Aggregate inbound event budget, events per second.
    pub rate_budget_events_per_sec: u64,
}

/// The table of defaults.
pub open spec fn defaults_for(p: ResourceProfile) -> ProfileDefaults {
    match p {
        ResourceProfile::Tiny => ProfileDefaults {
            memory_budget_bytes: (256 * MIB) as u64,
            lru_cache_bytes: (8 * MIB) as u64,
            write_coordinator_batch_size: 64,
            event_bus_capacity: 512,
            archive_flush_interval_secs: 30,
            rate_budget_events_per_sec: 500,
        },
        ResourceProfile::Small => ProfileDefaults {
            memory_budget_bytes: (512 * MIB) as u64,
            lru_cache_bytes: (32 * MIB) as u64,
            write_coordinator_batch_size: 128,
            event_bus_capacity: 2048,
            archive_flush_interval_secs: 20,
            rate_budget_events_per_sec: 2_000,
        },
        ResourceProfile::Medium => ProfileDefaults {
            memory_budget_bytes: GIB,
            lru_cache_bytes: (128 * MIB) as u64,
            write_coordinator_batch_size: 256,
            event_bus_capacity: 8192,
            archive_flush_interval_secs: 10,
            rate_budget_events_per_sec: 10_000,
        },
        ResourceProfile::Large => ProfileDefaults {
            memory_budget_bytes: (2 * GIB) as u64,
            lru_cache_bytes: (512 * MIB) as u64,
            write_coordinator_batch_size: 512,
            event_bus_capacity: 16384,
            archive_flush_interval_secs: 10,
            rate_budget_events_per_sec: 50_000,
        },
        ResourceProfile::XLarge => ProfileDefaults {
            memory_budget_bytes: (4 * GIB) as u64,
            lru_cache_bytes: GIB,
            write_coordinator_batch_size: 1024,
            event_bus_capacity: 32768,
            archive_flush_interval_secs: 10,
            rate_budget_events_per_sec: 200_000,
        },
    }
}

/// The lower-case name of a profile.
pub open spec fn profile_name(p: ResourceProfile) -> Seq<char> {
    match p {
        ResourceProfile::Tiny => "tiny"@,
        ResourceProfile::Small => "small"@,
        ResourceProfile::Medium => "medium"@,
        ResourceProfile::Large => "large"@,
        ResourceProfile::XLarge => "xlarge"@,
    }
}

impl ResourceProfile {
    pub fn as_str(&self) -> (r: &'static str)
        ensures
            r@ == profile_name(*self),
    {
        match self {
            ResourceProfile::Tiny => "tiny",
            ResourceProfile::Small => "small",
            ResourceProfile::Medium => "medium",
            ResourceProfile::Large => "large",
            ResourceProfile::XLarge => "xlarge",
        }
    }

    /// The profile of a host with `ram_bytes` of RAM.
    pub fn from_ram(ram_bytes: u64) -> (r: ResourceProfile)
        ensures
            r == profile_for_ram(ram_bytes),
    {
        let gb = ram_bytes / GIB;
        if gb <= 1 {
            ResourceProfile::Tiny
        } else if gb <= 5 {
            ResourceProfile::Small
        } else if gb <= 13 {
            ResourceProfile::Medium
        } else if gb <= 29 {
            ResourceProfile::Large
        } else {
            ResourceProfile::XLarge
        }
    }

    /// The subsystem defaults of this profile.
    pub fn defaults(&self) -> (r: ProfileDefaults)
        ensures
            r == defaults_for(*self),
    {
        match self {
            ResourceProfile::Tiny => ProfileDefaults {
                memory_budget_bytes: 256 * MIB,
                lru_cache_bytes: 8 * MIB,
                write_coordinator_batch_size: 64,
                event_bus_capacity: 512,
                archive_flush_interval_secs: 30,
                rate_budget_events_per_sec: 500,
            },
            ResourceProfile::Small => ProfileDefaults {
                memory_budget_bytes: 512 * MIB,
                lru_cache_bytes: 32 * MIB,
                write_coordinator_batch_size: 128,
                event_bus_capacity: 2048,
                archive_flush_interval_secs: 20,
                rate_budget_events_per_sec: 2_000,
            },
            ResourceProfile::Medium => ProfileDefaults {
                memory_budget_bytes: GIB,
                lru_cache_bytes: 128 * MIB,
                write_coordinator_batch_size: 256,
                event_bus_capacity: 8192,
                archive_flush_interval_secs: 10,
                rate_budget_events_per_sec: 10_000,
            },
            ResourceProfile::Large => ProfileDefaults {
                memory_budget_bytes: 2 * GIB,
                lru_cache_bytes: 512 * MIB,
                write_coordinator_batch_size: 512,
                event_bus_capacity: 16384,
                archive_flush_interval_secs: 10,
                rate_budget_events_per_sec: 50_000,
            },
            ResourceProfile::XLarge => ProfileDefaults {
                memory_budget_bytes: 4 * GIB,
                lru_cache_bytes: GIB,
                write_coordinator_batch_size: 1024,
                event_bus_capacity: 32768,
                archive_flush_interval_secs: 10,
                rate_budget_events_per_sec: 200_000,
            },
        }
    }
}

/// A larger host never gets a smaller profile.
pub proof fn lemma_profile_monotone(a: u64, b: u64)
    requires
        a <= b,
    ensures
        profile_rank(profile_for_ram(a)) <= profile_rank(profile_for_ram(b)),
{
    vstd::arithmetic::div_mod::lemma_div_is_ordered(a as int, b as int, GIB as int);
}

/// The position of a profile from smallest to largest.
pub open spec fn profile_rank(p: ResourceProfile) -> int {
    match p {
        ResourceProfile::Tiny => 0,
        ResourceProfile::Small => 1,
        ResourceProfile::Medium => 2,
        ResourceProfile::Large => 3,
        ResourceProfile::XLarge => 4,
    }
}

/// The result of probing the host.
#[derive(Debug)]
pub struct ProbeResult {
    pub profile: ResourceProfile,
    pub ram_bytes: u64,
    pub cpu_cores: usize,
    pub disk_free_bytes: u64,
    pub cgroup_memory_limit_bytes: Option<u64>,
    pub in_container: bool,
    pub defaults: ProfileDefaults,
}

/// The RAM the process can use: the cgroup cap when it is below the RAM.
pub open spec fn effective_ram(ram_bytes: u64, cgroup_limit: Option<u64>) -> u64 {
    match cgroup_limit {
        Some(cap) if cap < ram_bytes => cap,
        _ => ram_bytes,
    }
}

/// Classifies a probed host: the profile of its effective RAM, with that
/// profile's defaults.
pub fn classify(
    ram_bytes: u64,
    cgroup_limit: Option<u64>,
    cpu_cores: usize,
    disk_free_bytes: u64,
    in_container: bool,
) -> (r: ProbeResult)
    ensures
        r.profile == profile_for_ram(effective_ram(ram_bytes, cgroup_limit)),
        r.defaults == defaults_for(r.profile),
        r.ram_bytes == ram_bytes,
        r.cpu_cores == cpu_cores,
        r.disk_free_bytes == disk_free_bytes,
        r.cgroup_memory_limit_bytes == cgroup_limit,
        r.in_container == in_container,
{
    let effective = match cgroup_limit {
        Some(cap) if cap < ram_bytes => cap,
        _ => ram_bytes,
    };
    let profile = ResourceProfile::from_ram(effective);
    let defaults = profile.defaults();
    ProbeResult {
        profile,
        ram_bytes,
        cpu_cores,
        disk_free_bytes,
        cgroup_memory_limit_bytes: cgroup_limit,
        in_container,
        defaults,
    }
}

// ── Parsing what was read from the host ─────────────────────────────────────

/// The index of the first line that starts with `prefix`.
pub open spec fn first_line_with(ls: Seq<Seq<char>>, prefix: Seq<char>) -> Option<int>
    decreases ls.len(),
{
    if ls.len() == 0 {
        None
    } else {
        match first_line_with(ls.drop_last(), prefix) {
            Some(i) => Some(i),
            None => if starts_with(ls.last(), prefix) {
                Some(ls.len() - 1)
            } else {
                None
            },
        }
    }
}

/// The kibibytes of the first `prefix` line of a `/proc` text: its first
/// word when that parses as `u64`, else zero; zero when no line matches.
pub open spec fn kb_field(text: Seq<char>, prefix: Seq<char>) -> nat {
    match first_line_with(lines(text), prefix) {
        Some(i) => {
            let rest = lines(text)[i].skip(prefix.len() as int);
            let ws = words(rest);
            if ws.len() > 0 && parses_unsigned(ws[0], u64::MAX as nat) {
                unsigned_value(ws[0])
            } else {
                0
            }
        },
        None => 0,
    }
}

/// Bytes given by the first `prefix` line of a `/proc` text (the value is in
/// kibibytes). The byte count must fit in `u64`.
pub fn kb_field_bytes(text: &str, prefix: &str) -> (r: u64)
    requires
        kb_field(text@, prefix@) * 1024 <= u64::MAX,
    ensures
        r == kb_field(text@, prefix@) * 1024,
{
    let chars = chars_of(text);
    let pre = chars_of(prefix);
    let ls = lines_chars(chars.as_slice());
    let ghost all = lines(text@);
    let mut i: usize = 0;
    while i < ls.len()
        invariant
            chars@ == text@,
            pre@ == prefix@,
            all == lines(text@),
            ls@.len() == all.len(),
            forall|k: int| 0 <= k < ls@.len() ==> #[trigger] ls@[k]@ == all[k],
            i <= ls@.len(),
            first_line_with(all.subrange(0, i as int), prefix@) is None,
            kb_field(text@, prefix@) * 1024 <= u64::MAX,
        decreases ls@.len() - i,
    {
        let line = &ls[i];
        proof {
            assert(all.subrange(0, i + 1).drop_last() =~= all.subrange(0, i as int));
            assert(all.subrange(0, i + 1).last() == all[i as int]);
        }
        if crate::text::starts_with_exec(line.as_slice(), pre.as_slice()) {
            proof {
                lemma_first_line_prefix(all, i as int + 1, prefix@);
            }
            let rest = crate::text::slice_range(line.as_slice(), pre.len(), line.len());
            let ws = words_chars(rest.as_slice());
            proof {
                assert(rest@ == all[i as int].skip(prefix@.len() as int));
            }
            if ws.len() > 0 {
                proof {
                    assert(ws@[0]@ == words(rest@)[0]);
                }
                match parse_u64(ws[0].as_slice()) {
                    Some(kb) => {
                        return kb * 1024;
                    },
                    None => {
                        return 0;
                    },
                }
            }
            return 0;
        }
        i = i + 1;
    }
    proof {
        assert(all.subrange(0, all.len() as int) =~= all);
    }
    0
}

/// The first match in a prefix of the lines is the first match overall.
proof fn lemma_first_line_prefix(ls: Seq<Seq<char>>, n: int, prefix: Seq<char>)
    requires
        0 < n <= ls.len(),
        first_line_with(ls.subrange(0, n - 1), prefix) is None,
        starts_with(ls[n - 1], prefix),
    ensures
        first_line_with(ls, prefix) == Some(n - 1),
    decreases ls.len() - n,
{
    if n == ls.len() {
        assert(ls.subrange(0, n) =~= ls);
        assert(ls.drop_last() =~= ls.subrange(0, n - 1));
    } else {
        assert(ls.drop_last().subrange(0, n - 1) =~= ls.subrange(0, n - 1));
        assert(ls.drop_last()[n - 1] == ls[n - 1]);
        lemma_first_line_prefix(ls.drop_last(), n, prefix);
    }
}

/// Total RAM from the text of `/proc/meminfo`.
pub fn meminfo_total_bytes(meminfo: &str) -> (r: u64)
    requires
        kb_field(meminfo@, "MemTotal:"@) * 1024 <= u64::MAX,
    ensures
        r == kb_field(meminfo@, "MemTotal:"@) * 1024,
{
    kb_field_bytes(meminfo, "MemTotal:")
}

/// The cgroup memory cap from the text of `memory.max`: none when it reads
/// `max` (unconstrained) or is not a number.
pub open spec fn cgroup_cap(text: Seq<char>) -> Option<u64> {
    let t = trim(text);
    if t == "max"@ {
        None
    } else if parses_unsigned(t, u64::MAX as nat) {
        Some(unsigned_value(t) as u64)
    } else {
        None
    }
}

/// Parses the text of a cgroup `memory.max` file.
pub fn parse_cgroup_memory_max(text: &str) -> (r: Option<u64>)
    ensures
        r == cgroup_cap(text@),
{
    let chars = chars_of(text);
    let t = trim_chars(chars.as_slice());
    let max = chars_of("max");
    proof {
        reveal_strlit("max");
    }
    if crate::text::seq_eq(t.as_slice(), max.as_slice()) {
        return None;
    }
    parse_u64(t.as_slice())
}

} // verus!
