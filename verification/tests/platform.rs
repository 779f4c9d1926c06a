use bonsai::memory_profile::status_rss_bytes;
use bonsai::resource_governor::{GovernorHandle, MemoryPressure};
use bonsai::resource_profile::{classify, meminfo_total_bytes, parse_cgroup_memory_max, ResourceProfile};
use bonsai::signal_filter::{signal_type_for_path, PolicyRow, SignalFilter};

const GIB: u64 = 1024 * 1024 * 1024;

#[test]
fn profile_follows_whole_gib_of_ram() {
    assert_eq!(ResourceProfile::from_ram(GIB + GIB / 2), ResourceProfile::Tiny);
    assert_eq!(ResourceProfile::from_ram(2 * GIB), ResourceProfile::Small);
    assert_eq!(ResourceProfile::from_ram(6 * GIB - 1), ResourceProfile::Small);
    assert_eq!(ResourceProfile::from_ram(13 * GIB), ResourceProfile::Medium);
    assert_eq!(ResourceProfile::from_ram(14 * GIB), ResourceProfile::Large);
    assert_eq!(ResourceProfile::from_ram(30 * GIB), ResourceProfile::XLarge);
    assert_eq!(ResourceProfile::XLarge.as_str(), "xlarge");
}

#[test]
fn cgroup_cap_below_ram_decides_the_profile() {
    let p = classify(64 * GIB, Some(3 * GIB), 8, 10, true);
    assert_eq!(p.profile, ResourceProfile::Small);
    assert_eq!(p.defaults.memory_budget_bytes, 512 * 1024 * 1024);
    assert_eq!(p.defaults.rate_budget_events_per_sec, 2_000);
    let q = classify(4 * GIB, Some(64 * GIB), 8, 10, false);
    assert_eq!(q.profile, ResourceProfile::Small);
    assert_eq!(q.cgroup_memory_limit_bytes, Some(64 * GIB));
}

#[test]
fn proc_files_are_parsed() {
    let meminfo = "MemFree:  100 kB\nMemTotal:       16384000 kB\nMemTotal: 1 kB\n";
    assert_eq!(meminfo_total_bytes(meminfo), 16384000 * 1024);
    assert_eq!(meminfo_total_bytes("nothing here"), 0);
    assert_eq!(meminfo_total_bytes("MemTotal: lots kB"), 0);
    assert_eq!(status_rss_bytes("Name: bonsai\nVmRSS:\t  2048 kB\n"), 2048 * 1024);
    assert_eq!(parse_cgroup_memory_max("max\n"), None);
    assert_eq!(parse_cgroup_memory_max(" 1073741824\n"), Some(GIB));
    assert_eq!(parse_cgroup_memory_max("garbage"), None);
}

#[test]
fn signal_types_follow_path_prefixes() {
    assert_eq!(signal_type_for_path("streaming/sflow/x"), Some("sflow"));
    assert_eq!(signal_type_for_path("streaming/bgp-ls/x"), Some("bgp_ls"));
    assert_eq!(signal_type_for_path("signals/syslog_fact/x"), Some("syslog"));
    assert_eq!(signal_type_for_path("signals/snmp/x"), Some("snmp"));
    assert_eq!(signal_type_for_path("/interfaces/interface"), None);
}

fn row(st: &str, sv: &str, sig: &str, enabled: Option<bool>) -> PolicyRow {
    PolicyRow {
        scope_type: Some(st.to_string()),
        scope_value: Some(sv.to_string()),
        signal_type: Some(sig.to_string()),
        enabled,
    }
}

#[test]
fn an_empty_filter_allows_everything() {
    let f = SignalFilter::default();
    assert!(f.is_allowed("10.0.0.1", "lab", "leaf", "syslog"));
    assert!(f.is_allowed("", "", "", "gnmi"));
}

#[test]
fn most_specific_scope_wins() {
    let mut f = SignalFilter::new();
    assert!(f.needs_refresh(0));
    f.refresh(
        vec![
            row("site", "lab", "syslog", Some(false)),
            row("role", "leaf", "syslog", Some(true)),
            row("device", "10.0.0.1", "syslog", Some(false)),
            row("device", "10.0.0.1", "syslog", Some(true)),
            PolicyRow { scope_type: None, scope_value: Some("x".into()), signal_type: Some("snmp".into()), enabled: Some(false) },
            row("site", "lab", "snmp", None),
        ],
        1_000,
    );
    assert!(f.is_allowed("10.0.0.1", "lab", "spine", "syslog"));
    assert!(f.is_allowed("10.0.0.2", "lab", "leaf", "syslog"));
    assert!(!f.is_allowed("10.0.0.2", "lab", "spine", "syslog"));
    assert!(f.is_allowed("10.0.0.2", "", "", "syslog"));
    assert!(f.is_allowed("10.0.0.2", "lab", "", "snmp"));
    assert!(!f.needs_refresh(1_000 + 30_000_000_000));
    assert!(f.needs_refresh(1_000 + 30_000_000_001));
}

#[test]
fn governor_tracks_memory_rate_and_write_pressure() {
    let p = ResourceProfile::Tiny;
    let mut g = GovernorHandle::new(p, p.defaults());
    let budget = p.defaults().memory_budget_bytes;
    let t = g.memory_tick(budget * 85 / 100);
    assert_eq!(t.level, MemoryPressure::Soft);
    assert_eq!(t.shrink_pct, Some(50));
    assert!(t.flag_changed);
    assert!(g.should_shed());
    let t = g.memory_tick(budget);
    assert_eq!(t.level, MemoryPressure::Hard);
    assert_eq!(t.rss_pct, 100);
    assert!(!t.flag_changed);
    assert_eq!(t.shrink_pct, None);
    let t = g.memory_tick(0);
    assert_eq!(t.level, MemoryPressure::Clear);
    assert_eq!(t.shrink_pct, None);
    assert!(!g.memory_pressure_active());
    let t = g.memory_tick(budget);
    assert_eq!(t.shrink_pct, Some(25));
    let t = g.memory_tick(0);
    assert!(t.flag_changed);
    let s = g.snapshot();
    assert_eq!(s.memory_shrink_count, 3);
    assert_eq!(s.memory_flush_count, 2);
    assert_eq!(s.profile, "tiny");
    assert_eq!(s.memory_budget_mb, 256);

    for _ in 0..5001 {
        g.record_event();
    }
    let r = g.rate_tick();
    assert_eq!(r.delta, 5001);
    assert_eq!(r.excess, 1);
    assert!(g.is_shedding());
    let r = g.rate_tick();
    assert_eq!(r.delta, 0);
    assert!(!g.is_shedding());
    assert_eq!(g.snapshot().rate_shed_count, 1);

    let sec = 1_000_000_000u64;
    assert!(!g.write_tick(60, 0).expanded);
    assert!(g.write_pressure_active());
    assert!(!g.write_tick(60, 59 * sec).expanded);
    assert!(g.write_tick(60, 60 * sec).expanded);
    assert!(!g.write_tick(60, 100 * sec).expanded);
    assert!(!g.write_tick(10, 200 * sec).expanded);
    assert!(!g.write_pressure_active());
    assert_eq!(g.snapshot().write_batch_expand_count, 1);
}
