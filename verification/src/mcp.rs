//! The rule catalogue and the read-only tool helpers of the Model Context
//! Protocol endpoint.
//!
//! Every detection rule has a description, a severity and the observable
//! patterns that signal that it is recurring. Graph queries handed in by a
//! client must be read-only.
use vstd::prelude::*;

use crate::text::{concat, contains, starts_with, str_starts_with, lowercase, owned, str_contains, str_eq, to_lowercase, trim_end, ends_with, uppercase, to_uppercase};

verus! {

/// One detection rule.
pub struct RuleMeta {
    pub rule_id: &'static str,
    pub description: &'static str,
    pub severity: &'static str,
    pub recurrence_indicators: Vec<&'static str>,
}

/// The abstract value of a rule: its texts by their characters.
pub struct RuleMetaView {
    pub rule_id: Seq<char>,
    pub description: Seq<char>,
    pub severity: Seq<char>,
    pub recurrence_indicators: Seq<Seq<char>>,
}

impl View for RuleMeta {
    type V = RuleMetaView;

    open spec fn view(&self) -> RuleMetaView {
        RuleMetaView {
            rule_id: self.rule_id@,
            description: self.description@,
            severity: self.severity@,
            recurrence_indicators: self.recurrence_indicators@.map_values(|s: &'static str| s@),
        }
    }
}

/// Every known detection rule.
pub open spec fn catalogue() -> Seq<RuleMetaView> {
    seq![
        RuleMetaView {
            rule_id: "bgp_session_down"@,
            description: "BGP session transitions to idle — peer was reset or administratively disabled."@,
            severity: "critical"@,
            recurrence_indicators: seq![
                "MATCH (n:BgpNeighbor {device_address: $dev, peer_address: $peer}) RETURN n.session_state — expect 'established' when healthy"@,
                "Count bgp_session_down DetectionEvents for this device/peer pair in last 24h"@,
                "Check gNMI subscription status for openconfig-bgp on this device (/api/devices/{address})"@,
            ],
        },
        RuleMetaView {
            rule_id: "bgp_session_flap"@,
            description: "BGP session has flapped ≥3 times in 5 minutes — unstable neighbour."@,
            severity: "critical"@,
            recurrence_indicators: seq![
                "Count bgp_session_flap DetectionEvents for this device/peer pair in last 1h — ≥2 incidents indicates chronic instability"@,
                "Check for bfd_session_down co-firing within ±5s (indicates routing-layer cause, not BGP policy)"@,
                "Compare peer_count_established across last 3 bgp_session_flap detections for this device"@,
            ],
        },
        RuleMetaView {
            rule_id: "bgp_all_peers_down"@,
            description: "All BGP sessions on a device gone simultaneously — likely upstream fault."@,
            severity: "critical"@,
            recurrence_indicators: seq![
                "MATCH (n:BgpNeighbor {device_address: $dev}) RETURN n.peer_address, n.session_state — all should be 'established' when healthy"@,
                "Check for interface_down DetectionEvents on same device within ±30s (hardware-fault co-indicator)"@,
                "Check blast radius (/api/blast-radius/{address}) — bgp_all_peers_down typically has wide downstream impact"@,
            ],
        },
        RuleMetaView {
            rule_id: "bgp_never_established"@,
            description: "Peer has been seen for >90s without ever reaching established state."@,
            severity: "warn"@,
            recurrence_indicators: seq![
                "Verify path between device and peer exists: GET /api/path?src={device}&dst={peer}"@,
                "Check BFD session state for this peer — bfd_session_down co-fire means underlay reachability issue"@,
                "Check DetectionEvent history: if bgp_never_established fires repeatedly, peer config is likely misconfigured"@,
            ],
        },
        RuleMetaView {
            rule_id: "interface_down"@,
            description: "Interface oper-status transitions to down."@,
            severity: "critical"@,
            recurrence_indicators: seq![
                "MATCH (i:Interface {device_address: $dev, name: $if}) RETURN i.oper_status — expect 'up' when healthy"@,
                "Check CONNECTED_TO edge still present: MATCH (i:Interface {name: $if})-[:CONNECTED_TO]->(j:Interface) RETURN j.device_address"@,
                "Check for bgp_session_down co-firing on same device within ±10s (upstream propagation indicator)"@,
            ],
        },
        RuleMetaView {
            rule_id: "interface_error_spike"@,
            description: "Interface error counter rate exceeds 100 errors/s threshold."@,
            severity: "warn"@,
            recurrence_indicators: seq![
                "MATCH (i:Interface {device_address: $dev, name: $if}) RETURN i.in_errors, i.out_errors — compare to previous detection's features_json"@,
                "Check for repeated interface_error_spike on same interface in last 1h (chronic physical-layer issue)"@,
                "Cross-reference link utilization — high errors under low load indicate physical-layer fault, not congestion"@,
            ],
        },
        RuleMetaView {
            rule_id: "interface_high_utilization"@,
            description: "Interface octets rate exceeds 80% of known link capacity."@,
            severity: "warn"@,
            recurrence_indicators: seq![
                "MATCH (i:Interface {device_address: $dev, name: $if}) RETURN i.in_octets, i.out_octets — rate trend since last detection"@,
                "Check interface_error_spike co-fire — high util + errors = capacity problem, not just load"@,
                "Check topology neighbors (/api/topology) for load-balancing or traffic-engineering change as upstream cause"@,
            ],
        },
        RuleMetaView {
            rule_id: "bfd_session_down"@,
            description: "BFD session transitions from up to down."@,
            severity: "critical"@,
            recurrence_indicators: seq![
                "MATCH (b:BfdSession {device_address: $dev}) RETURN b.peer_address, b.state — expect 'up' when healthy"@,
                "Check interface oper-status on the BFD-protected link — interface_down co-fire indicates physical cause"@,
                "Check bgp_session_down DetectionEvents within ±5s — BFD down typically precedes BGP down"@,
            ],
        },
        RuleMetaView {
            rule_id: "topology_edge_lost"@,
            description: "A CONNECTED_TO LLDP edge present in the previous poll cycle is now absent."@,
            severity: "warn"@,
            recurrence_indicators: seq![
                "MATCH (a:Interface)-[:CONNECTED_TO]->(b:Interface) RETURN a.device_address, a.name, b.device_address, b.name — verify current LLDP topology"@,
                "Check interface_down DetectionEvents on both endpoint devices within ±60s"@,
                "Verify gNMI LLDP subscription active on both devices: GET /api/devices/{address}"@,
            ],
        },
        RuleMetaView {
            rule_id: "route_flap_detected"@,
            description: "BMP route entry changed ≥3 times in 5 minutes — unstable prefix."@,
            severity: "warn"@,
            recurrence_indicators: seq![
                "Count route_flap_detected DetectionEvents for this device/peer/prefix in last 1h"@,
                "Check BgpNeighbor session state for the flapping peer: MATCH (n:BgpNeighbor {peer_address: $peer}) RETURN n.session_state"@,
                "Check for route_leak_detected co-firing on same device within same time window"@,
            ],
        },
        RuleMetaView {
            rule_id: "unexpected_as_path"@,
            description: "BGP AS path contains repeated ASN — possible loop or misconfiguration."@,
            severity: "warn"@,
            recurrence_indicators: seq![
                "Compare AS path in features_json against historical BMP RouteMonitoring entries for same prefix"@,
                "Check bgp_session_down/flap co-fires for the peer announcing this route"@,
                "Review config-history for BGP policy changes: GET /api/devices/{address}/config-history"@,
            ],
        },
        RuleMetaView {
            rule_id: "route_leak_detected"@,
            description: "Global prefix propagated with private ASN in path — likely route leak."@,
            severity: "critical"@,
            recurrence_indicators: seq![
                "Count route_leak_detected DetectionEvents for this device in last 24h — persistence indicates misconfigured BGP policy"@,
                "Check if same private ASN appears in other leaked routes on this device within this detection window"@,
                "Verify AS path against known legitimate paths via BGP-LS topology: MATCH (l:BgpLsLink {device_address: $dev}) RETURN l"@,
            ],
        },
        RuleMetaView {
            rule_id: "sr_policy_degraded"@,
            description: "SR policy is no longer in an active/up state."@,
            severity: "warn"@,
            recurrence_indicators: seq![
                "MATCH (p:SrPolicy {device_address: $dev, name: $name}) RETURN p.status — expect active/up when healthy"@,
                "Check BgpLsLink state for links along this SR policy's candidate paths"@,
                "Check IS-IS/OSPF adjacency state for intermediate nodes via DetectionEvent history"@,
            ],
        },
        RuleMetaView {
            rule_id: "srlg_risk_detected"@,
            description: "Multiple BGP-LS links share the same SRLG — single point of failure risk."@,
            severity: "warn"@,
            recurrence_indicators: seq![
                "MATCH (l:BgpLsLink) WHERE l.srlgs_json CONTAINS $srlg RETURN l.local_router_id, l.remote_router_id — enumerate all links sharing this SRLG"@,
                "Check for interface_down on any link in this SRLG within the last detection window"@,
                "Review topology for diversity: are there paths not sharing this SRLG? GET /api/path?src=...&dst=..."@,
            ],
        },
        RuleMetaView {
            rule_id: "snmp_cold_warm_start"@,
            description: "Device sent SNMP cold/warm start trap — indicates restart."@,
            severity: "warn"@,
            recurrence_indicators: seq![
                "Check StateChangeEvent count for this device in last 5 min — rapid restarts indicate instability"@,
                "Verify gNMI subscription reconnected after restart: GET /api/devices/{address} subscription_statuses"@,
                "Check YANG capabilities repopulated after restart: GET /api/yang/modules?device={address}"@,
            ],
        },
        RuleMetaView {
            rule_id: "snmp_auth_failure_burst"@,
            description: "SNMP authentication failures reached ≥3 traps in 5 minutes."@,
            severity: "critical"@,
            recurrence_indicators: seq![
                "Count snmp_auth_failure_burst DetectionEvents per source IP in last 24h — cross-device pattern indicates scanning"@,
                "Check if same source IP appears in auth-failure events across multiple devices (lateral movement indicator)"@,
                "Review SNMPv3 credential rotation schedule — burst after credential change indicates stale client config"@,
            ],
        },
        RuleMetaView {
            rule_id: "snmp_environmental_threshold_breach"@,
            description: "SNMP environmental trap (PSU/temperature/fan/voltage) received."@,
            severity: "critical"@,
            recurrence_indicators: seq![
                "Check platform health via gNMI openconfig-platform path on this device"@,
                "Check for interface_down or bgp_session_down co-firing within ±5min of this detection (thermal impact cascade)"@,
                "Count snmp_environmental_threshold_breach events for this device in last 24h — repeated events indicate cooling failure"@,
            ],
        },
        RuleMetaView {
            rule_id: "snmp_fru_failure"@,
            description: "SNMP FRU/linecard/module failure trap received."@,
            severity: "critical"@,
            recurrence_indicators: seq![
                "MATCH (c:Component {device_address: $dev}) RETURN c.name, c.state — check platform component inventory via gNMI"@,
                "Check for interface_down on interfaces served by the failed FRU within ±30s"@,
                "Check bgp_session_down on sessions using adjacencies on the affected linecard"@,
            ],
        },
    ]
}

fn three(a: &'static str, b: &'static str, c: &'static str) -> (r: Vec<&'static str>)
    ensures
        r@.map_values(|s: &'static str| s@) == seq![a@, b@, c@],
{
    let mut v: Vec<&'static str> = Vec::new();
    v.push(a);
    v.push(b);
    v.push(c);
    assert(v@.map_values(|s: &'static str| s@) =~= seq![a@, b@, c@]);
    v
}

/// The rule catalogue.
pub fn rule_catalogue() -> (r: Vec<RuleMeta>)
    ensures
        r@.len() == catalogue().len(),
        forall|i: int| 0 <= i < r@.len() ==> (#[trigger] r@[i])@ == catalogue()[i],
{
    let mut v: Vec<RuleMeta> = Vec::new();
    v.push(RuleMeta {
        rule_id: "bgp_session_down",
        description: "BGP session transitions to idle — peer was reset or administratively disabled.",
        severity: "critical",
        recurrence_indicators: three(
            "MATCH (n:BgpNeighbor {device_address: $dev, peer_address: $peer}) RETURN n.session_state — expect 'established' when healthy",
            "Count bgp_session_down DetectionEvents for this device/peer pair in last 24h",
            "Check gNMI subscription status for openconfig-bgp on this device (/api/devices/{address})",
        ),
    });
    v.push(RuleMeta {
        rule_id: "bgp_session_flap",
        description: "BGP session has flapped ≥3 times in 5 minutes — unstable neighbour.",
        severity: "critical",
        recurrence_indicators: three(
            "Count bgp_session_flap DetectionEvents for this device/peer pair in last 1h — ≥2 incidents indicates chronic instability",
            "Check for bfd_session_down co-firing within ±5s (indicates routing-layer cause, not BGP policy)",
            "Compare peer_count_established across last 3 bgp_session_flap detections for this device",
        ),
    });
    v.push(RuleMeta {
        rule_id: "bgp_all_peers_down",
        description: "All BGP sessions on a device gone simultaneously — likely upstream fault.",
        severity: "critical",
        recurrence_indicators: three(
            "MATCH (n:BgpNeighbor {device_address: $dev}) RETURN n.peer_address, n.session_state — all should be 'established' when healthy",
            "Check for interface_down DetectionEvents on same device within ±30s (hardware-fault co-indicator)",
            "Check blast radius (/api/blast-radius/{address}) — bgp_all_peers_down typically has wide downstream impact",
        ),
    });
    v.push(RuleMeta {
        rule_id: "bgp_never_established",
        description: "Peer has been seen for >90s without ever reaching established state.",
        severity: "warn",
        recurrence_indicators: three(
            "Verify path between device and peer exists: GET /api/path?src={device}&dst={peer}",
            "Check BFD session state for this peer — bfd_session_down co-fire means underlay reachability issue",
            "Check DetectionEvent history: if bgp_never_established fires repeatedly, peer config is likely misconfigured",
        ),
    });
    v.push(RuleMeta {
        rule_id: "interface_down",
        description: "Interface oper-status transitions to down.",
        severity: "critical",
        recurrence_indicators: three(
            "MATCH (i:Interface {device_address: $dev, name: $if}) RETURN i.oper_status — expect 'up' when healthy",
            "Check CONNECTED_TO edge still present: MATCH (i:Interface {name: $if})-[:CONNECTED_TO]->(j:Interface) RETURN j.device_address",
            "Check for bgp_session_down co-firing on same device within ±10s (upstream propagation indicator)",
        ),
    });
    v.push(RuleMeta {
        rule_id: "interface_error_spike",
        description: "Interface error counter rate exceeds 100 errors/s threshold.",
        severity: "warn",
        recurrence_indicators: three(
            "MATCH (i:Interface {device_address: $dev, name: $if}) RETURN i.in_errors, i.out_errors — compare to previous detection's features_json",
            "Check for repeated interface_error_spike on same interface in last 1h (chronic physical-layer issue)",
            "Cross-reference link utilization — high errors under low load indicate physical-layer fault, not congestion",
        ),
    });
    v.push(RuleMeta {
        rule_id: "interface_high_utilization",
        description: "Interface octets rate exceeds 80% of known link capacity.",
        severity: "warn",
        recurrence_indicators: three(
            "MATCH (i:Interface {device_address: $dev, name: $if}) RETURN i.in_octets, i.out_octets — rate trend since last detection",
            "Check interface_error_spike co-fire — high util + errors = capacity problem, not just load",
            "Check topology neighbors (/api/topology) for load-balancing or traffic-engineering change as upstream cause",
        ),
    });
    v.push(RuleMeta {
        rule_id: "bfd_session_down",
        description: "BFD session transitions from up to down.",
        severity: "critical",
        recurrence_indicators: three(
            "MATCH (b:BfdSession {device_address: $dev}) RETURN b.peer_address, b.state — expect 'up' when healthy",
            "Check interface oper-status on the BFD-protected link — interface_down co-fire indicates physical cause",
            "Check bgp_session_down DetectionEvents within ±5s — BFD down typically precedes BGP down",
        ),
    });
    v.push(RuleMeta {
        rule_id: "topology_edge_lost",
        description: "A CONNECTED_TO LLDP edge present in the previous poll cycle is now absent.",
        severity: "warn",
        recurrence_indicators: three(
            "MATCH (a:Interface)-[:CONNECTED_TO]->(b:Interface) RETURN a.device_address, a.name, b.device_address, b.name — verify current LLDP topology",
            "Check interface_down DetectionEvents on both endpoint devices within ±60s",
            "Verify gNMI LLDP subscription active on both devices: GET /api/devices/{address}",
        ),
    });
    v.push(RuleMeta {
        rule_id: "route_flap_detected",
        description: "BMP route entry changed ≥3 times in 5 minutes — unstable prefix.",
        severity: "warn",
        recurrence_indicators: three(
            "Count route_flap_detected DetectionEvents for this device/peer/prefix in last 1h",
            "Check BgpNeighbor session state for the flapping peer: MATCH (n:BgpNeighbor {peer_address: $peer}) RETURN n.session_state",
            "Check for route_leak_detected co-firing on same device within same time window",
        ),
    });
    v.push(RuleMeta {
        rule_id: "unexpected_as_path",
        description: "BGP AS path contains repeated ASN — possible loop or misconfiguration.",
        severity: "warn",
        recurrence_indicators: three(
            "Compare AS path in features_json against historical BMP RouteMonitoring entries for same prefix",
            "Check bgp_session_down/flap co-fires for the peer announcing this route",
            "Review config-history for BGP policy changes: GET /api/devices/{address}/config-history",
        ),
    });
    v.push(RuleMeta {
        rule_id: "route_leak_detected",
        description: "Global prefix propagated with private ASN in path — likely route leak.",
        severity: "critical",
        recurrence_indicators: three(
            "Count route_leak_detected DetectionEvents for this device in last 24h — persistence indicates misconfigured BGP policy",
            "Check if same private ASN appears in other leaked routes on this device within this detection window",
            "Verify AS path against known legitimate paths via BGP-LS topology: MATCH (l:BgpLsLink {device_address: $dev}) RETURN l",
        ),
    });
    v.push(RuleMeta {
        rule_id: "sr_policy_degraded",
        description: "SR policy is no longer in an active/up state.",
        severity: "warn",
        recurrence_indicators: three(
            "MATCH (p:SrPolicy {device_address: $dev, name: $name}) RETURN p.status — expect active/up when healthy",
            "Check BgpLsLink state for links along this SR policy's candidate paths",
            "Check IS-IS/OSPF adjacency state for intermediate nodes via DetectionEvent history",
        ),
    });
    v.push(RuleMeta {
        rule_id: "srlg_risk_detected",
        description: "Multiple BGP-LS links share the same SRLG — single point of failure risk.",
        severity: "warn",
        recurrence_indicators: three(
            "MATCH (l:BgpLsLink) WHERE l.srlgs_json CONTAINS $srlg RETURN l.local_router_id, l.remote_router_id — enumerate all links sharing this SRLG",
            "Check for interface_down on any link in this SRLG within the last detection window",
            "Review topology for diversity: are there paths not sharing this SRLG? GET /api/path?src=...&dst=...",
        ),
    });
    v.push(RuleMeta {
        rule_id: "snmp_cold_warm_start",
        description: "Device sent SNMP cold/warm start trap — indicates restart.",
        severity: "warn",
        recurrence_indicators: three(
            "Check StateChangeEvent count for this device in last 5 min — rapid restarts indicate instability",
            "Verify gNMI subscription reconnected after restart: GET /api/devices/{address} subscription_statuses",
            "Check YANG capabilities repopulated after restart: GET /api/yang/modules?device={address}",
        ),
    });
    v.push(RuleMeta {
        rule_id: "snmp_auth_failure_burst",
        description: "SNMP authentication failures reached ≥3 traps in 5 minutes.",
        severity: "critical",
        recurrence_indicators: three(
            "Count snmp_auth_failure_burst DetectionEvents per source IP in last 24h — cross-device pattern indicates scanning",
            "Check if same source IP appears in auth-failure events across multiple devices (lateral movement indicator)",
            "Review SNMPv3 credential rotation schedule — burst after credential change indicates stale client config",
        ),
    });
    v.push(RuleMeta {
        rule_id: "snmp_environmental_threshold_breach",
        description: "SNMP environmental trap (PSU/temperature/fan/voltage) received.",
        severity: "critical",
        recurrence_indicators: three(
            "Check platform health via gNMI openconfig-platform path on this device",
            "Check for interface_down or bgp_session_down co-firing within ±5min of this detection (thermal impact cascade)",
            "Count snmp_environmental_threshold_breach events for this device in last 24h — repeated events indicate cooling failure",
        ),
    });
    v.push(RuleMeta {
        rule_id: "snmp_fru_failure",
        description: "SNMP FRU/linecard/module failure trap received.",
        severity: "critical",
        recurrence_indicators: three(
            "MATCH (c:Component {device_address: $dev}) RETURN c.name, c.state — check platform component inventory via gNMI",
            "Check for interface_down on interfaces served by the failed FRU within ±30s",
            "Check bgp_session_down on sessions using adjacencies on the affected linecard",
        ),
    });
    v
}

/// No two rules share an id, and every rule lists at least three
/// recurrence indicators.
pub proof fn lemma_catalogue_well_formed()
    ensures
        forall|i: int, j: int| 0 <= i < j < catalogue().len() ==> catalogue()[i].rule_id != catalogue()[j].rule_id,
        forall|i: int| 0 <= i < catalogue().len() ==> (#[trigger] catalogue()[i]).recurrence_indicators.len() >= 3,
{
    reveal_strlit("bgp_session_down");
    reveal_strlit("bgp_session_flap");
    reveal_strlit("bgp_all_peers_down");
    reveal_strlit("bgp_never_established");
    reveal_strlit("interface_down");
    reveal_strlit("interface_error_spike");
    reveal_strlit("interface_high_utilization");
    reveal_strlit("bfd_session_down");
    reveal_strlit("topology_edge_lost");
    reveal_strlit("route_flap_detected");
    reveal_strlit("unexpected_as_path");
    reveal_strlit("route_leak_detected");
    reveal_strlit("sr_policy_degraded");
    reveal_strlit("srlg_risk_detected");
    reveal_strlit("snmp_cold_warm_start");
    reveal_strlit("snmp_auth_failure_burst");
    reveal_strlit("snmp_environmental_threshold_breach");
    reveal_strlit("snmp_fru_failure");
    let c = catalogue();
    assert forall|i: int, j: int| 0 <= i < j < c.len() implies c[i].rule_id != c[j].rule_id by {
        if i == 0 && j == 1 {
            assert(c[0].rule_id[12] != c[1].rule_id[12]);
        } else if i == 0 && j == 2 {
            assert(c[0].rule_id.len() != c[2].rule_id.len());
        } else if i == 0 && j == 3 {
            assert(c[0].rule_id.len() != c[3].rule_id.len());
        } else if i == 0 && j == 4 {
            assert(c[0].rule_id.len() != c[4].rule_id.len());
        } else if i == 0 && j == 5 {
            assert(c[0].rule_id.len() != c[5].rule_id.len());
        } else if i == 0 && j == 6 {
            assert(c[0].rule_id.len() != c[6].rule_id.len());
        } else if i == 0 && j == 7 {
            assert(c[0].rule_id[1] != c[7].rule_id[1]);
        } else if i == 0 && j == 8 {
            assert(c[0].rule_id.len() != c[8].rule_id.len());
        } else if i == 0 && j == 9 {
            assert(c[0].rule_id.len() != c[9].rule_id.len());
        } else if i == 0 && j == 10 {
            assert(c[0].rule_id.len() != c[10].rule_id.len());
        } else if i == 0 && j == 11 {
            assert(c[0].rule_id.len() != c[11].rule_id.len());
        } else if i == 0 && j == 12 {
            assert(c[0].rule_id.len() != c[12].rule_id.len());
        } else if i == 0 && j == 13 {
            assert(c[0].rule_id.len() != c[13].rule_id.len());
        } else if i == 0 && j == 14 {
            assert(c[0].rule_id.len() != c[14].rule_id.len());
        } else if i == 0 && j == 15 {
            assert(c[0].rule_id.len() != c[15].rule_id.len());
        } else if i == 0 && j == 16 {
            assert(c[0].rule_id.len() != c[16].rule_id.len());
        } else if i == 0 && j == 17 {
            assert(c[0].rule_id[0] != c[17].rule_id[0]);
        } else if i == 1 && j == 2 {
            assert(c[1].rule_id.len() != c[2].rule_id.len());
        } else if i == 1 && j == 3 {
            assert(c[1].rule_id.len() != c[3].rule_id.len());
        } else if i == 1 && j == 4 {
            assert(c[1].rule_id.len() != c[4].rule_id.len());
        } else if i == 1 && j == 5 {
            assert(c[1].rule_id.len() != c[5].rule_id.len());
        } else if i == 1 && j == 6 {
            assert(c[1].rule_id.len() != c[6].rule_id.len());
        } else if i == 1 && j == 7 {
            assert(c[1].rule_id[1] != c[7].rule_id[1]);
        } else if i == 1 && j == 8 {
            assert(c[1].rule_id.len() != c[8].rule_id.len());
        } else if i == 1 && j == 9 {
            assert(c[1].rule_id.len() != c[9].rule_id.len());
        } else if i == 1 && j == 10 {
            assert(c[1].rule_id.len() != c[10].rule_id.len());
        } else if i == 1 && j == 11 {
            assert(c[1].rule_id.len() != c[11].rule_id.len());
        } else if i == 1 && j == 12 {
            assert(c[1].rule_id.len() != c[12].rule_id.len());
        } else if i == 1 && j == 13 {
            assert(c[1].rule_id.len() != c[13].rule_id.len());
        } else if i == 1 && j == 14 {
            assert(c[1].rule_id.len() != c[14].rule_id.len());
        } else if i == 1 && j == 15 {
            assert(c[1].rule_id.len() != c[15].rule_id.len());
        } else if i == 1 && j == 16 {
            assert(c[1].rule_id.len() != c[16].rule_id.len());
        } else if i == 1 && j == 17 {
            assert(c[1].rule_id[0] != c[17].rule_id[0]);
        } else if i == 2 && j == 3 {
            assert(c[2].rule_id.len() != c[3].rule_id.len());
        } else if i == 2 && j == 4 {
            assert(c[2].rule_id.len() != c[4].rule_id.len());
        } else if i == 2 && j == 5 {
            assert(c[2].rule_id.len() != c[5].rule_id.len());
        } else if i == 2 && j == 6 {
            assert(c[2].rule_id.len() != c[6].rule_id.len());
        } else if i == 2 && j == 7 {
            assert(c[2].rule_id.len() != c[7].rule_id.len());
        } else if i == 2 && j == 8 {
            assert(c[2].rule_id[0] != c[8].rule_id[0]);
        } else if i == 2 && j == 9 {
            assert(c[2].rule_id.len() != c[9].rule_id.len());
        } else if i == 2 && j == 10 {
            assert(c[2].rule_id[0] != c[10].rule_id[0]);
        } else if i == 2 && j == 11 {
            assert(c[2].rule_id.len() != c[11].rule_id.len());
        } else if i == 2 && j == 12 {
            assert(c[2].rule_id[0] != c[12].rule_id[0]);
        } else if i == 2 && j == 13 {
            assert(c[2].rule_id[0] != c[13].rule_id[0]);
        } else if i == 2 && j == 14 {
            assert(c[2].rule_id.len() != c[14].rule_id.len());
        } else if i == 2 && j == 15 {
            assert(c[2].rule_id.len() != c[15].rule_id.len());
        } else if i == 2 && j == 16 {
            assert(c[2].rule_id.len() != c[16].rule_id.len());
        } else if i == 2 && j == 17 {
            assert(c[2].rule_id.len() != c[17].rule_id.len());
        } else if i == 3 && j == 4 {
            assert(c[3].rule_id.len() != c[4].rule_id.len());
        } else if i == 3 && j == 5 {
            assert(c[3].rule_id[0] != c[5].rule_id[0]);
        } else if i == 3 && j == 6 {
            assert(c[3].rule_id.len() != c[6].rule_id.len());
        } else if i == 3 && j == 7 {
            assert(c[3].rule_id.len() != c[7].rule_id.len());
        } else if i == 3 && j == 8 {
            assert(c[3].rule_id.len() != c[8].rule_id.len());
        } else if i == 3 && j == 9 {
            assert(c[3].rule_id.len() != c[9].rule_id.len());
        } else if i == 3 && j == 10 {
            assert(c[3].rule_id.len() != c[10].rule_id.len());
        } else if i == 3 && j == 11 {
            assert(c[3].rule_id.len() != c[11].rule_id.len());
        } else if i == 3 && j == 12 {
            assert(c[3].rule_id.len() != c[12].rule_id.len());
        } else if i == 3 && j == 13 {
            assert(c[3].rule_id.len() != c[13].rule_id.len());
        } else if i == 3 && j == 14 {
            assert(c[3].rule_id.len() != c[14].rule_id.len());
        } else if i == 3 && j == 15 {
            assert(c[3].rule_id.len() != c[15].rule_id.len());
        } else if i == 3 && j == 16 {
            assert(c[3].rule_id.len() != c[16].rule_id.len());
        } else if i == 3 && j == 17 {
            assert(c[3].rule_id.len() != c[17].rule_id.len());
        } else if i == 4 && j == 5 {
            assert(c[4].rule_id.len() != c[5].rule_id.len());
        } else if i == 4 && j == 6 {
            assert(c[4].rule_id.len() != c[6].rule_id.len());
        } else if i == 4 && j == 7 {
            assert(c[4].rule_id.len() != c[7].rule_id.len());
        } else if i == 4 && j == 8 {
            assert(c[4].rule_id.len() != c[8].rule_id.len());
        } else if i == 4 && j == 9 {
            assert(c[4].rule_id.len() != c[9].rule_id.len());
        } else if i == 4 && j == 10 {
            assert(c[4].rule_id.len() != c[10].rule_id.len());
        } else if i == 4 && j == 11 {
            assert(c[4].rule_id.len() != c[11].rule_id.len());
        } else if i == 4 && j == 12 {
            assert(c[4].rule_id.len() != c[12].rule_id.len());
        } else if i == 4 && j == 13 {
            assert(c[4].rule_id.len() != c[13].rule_id.len());
        } else if i == 4 && j == 14 {
            assert(c[4].rule_id.len() != c[14].rule_id.len());
        } else if i == 4 && j == 15 {
            assert(c[4].rule_id.len() != c[15].rule_id.len());
        } else if i == 4 && j == 16 {
            assert(c[4].rule_id.len() != c[16].rule_id.len());
        } else if i == 4 && j == 17 {
            assert(c[4].rule_id.len() != c[17].rule_id.len());
        } else if i == 5 && j == 6 {
            assert(c[5].rule_id.len() != c[6].rule_id.len());
        } else if i == 5 && j == 7 {
            assert(c[5].rule_id.len() != c[7].rule_id.len());
        } else if i == 5 && j == 8 {
            assert(c[5].rule_id.len() != c[8].rule_id.len());
        } else if i == 5 && j == 9 {
            assert(c[5].rule_id.len() != c[9].rule_id.len());
        } else if i == 5 && j == 10 {
            assert(c[5].rule_id.len() != c[10].rule_id.len());
        } else if i == 5 && j == 11 {
            assert(c[5].rule_id.len() != c[11].rule_id.len());
        } else if i == 5 && j == 12 {
            assert(c[5].rule_id.len() != c[12].rule_id.len());
        } else if i == 5 && j == 13 {
            assert(c[5].rule_id.len() != c[13].rule_id.len());
        } else if i == 5 && j == 14 {
            assert(c[5].rule_id.len() != c[14].rule_id.len());
        } else if i == 5 && j == 15 {
            assert(c[5].rule_id.len() != c[15].rule_id.len());
        } else if i == 5 && j == 16 {
            assert(c[5].rule_id.len() != c[16].rule_id.len());
        } else if i == 5 && j == 17 {
            assert(c[5].rule_id.len() != c[17].rule_id.len());
        } else if i == 6 && j == 7 {
            assert(c[6].rule_id.len() != c[7].rule_id.len());
        } else if i == 6 && j == 8 {
            assert(c[6].rule_id.len() != c[8].rule_id.len());
        } else if i == 6 && j == 9 {
            assert(c[6].rule_id.len() != c[9].rule_id.len());
        } else if i == 6 && j == 10 {
            assert(c[6].rule_id.len() != c[10].rule_id.len());
        } else if i == 6 && j == 11 {
            assert(c[6].rule_id.len() != c[11].rule_id.len());
        } else if i == 6 && j == 12 {
            assert(c[6].rule_id.len() != c[12].rule_id.len());
        } else if i == 6 && j == 13 {
            assert(c[6].rule_id.len() != c[13].rule_id.len());
        } else if i == 6 && j == 14 {
            assert(c[6].rule_id.len() != c[14].rule_id.len());
        } else if i == 6 && j == 15 {
            assert(c[6].rule_id.len() != c[15].rule_id.len());
        } else if i == 6 && j == 16 {
            assert(c[6].rule_id.len() != c[16].rule_id.len());
        } else if i == 6 && j == 17 {
            assert(c[6].rule_id.len() != c[17].rule_id.len());
        } else if i == 7 && j == 8 {
            assert(c[7].rule_id.len() != c[8].rule_id.len());
        } else if i == 7 && j == 9 {
            assert(c[7].rule_id.len() != c[9].rule_id.len());
        } else if i == 7 && j == 10 {
            assert(c[7].rule_id.len() != c[10].rule_id.len());
        } else if i == 7 && j == 11 {
            assert(c[7].rule_id.len() != c[11].rule_id.len());
        } else if i == 7 && j == 12 {
            assert(c[7].rule_id.len() != c[12].rule_id.len());
        } else if i == 7 && j == 13 {
            assert(c[7].rule_id.len() != c[13].rule_id.len());
        } else if i == 7 && j == 14 {
            assert(c[7].rule_id.len() != c[14].rule_id.len());
        } else if i == 7 && j == 15 {
            assert(c[7].rule_id.len() != c[15].rule_id.len());
        } else if i == 7 && j == 16 {
            assert(c[7].rule_id.len() != c[16].rule_id.len());
        } else if i == 7 && j == 17 {
            assert(c[7].rule_id[0] != c[17].rule_id[0]);
        } else if i == 8 && j == 9 {
            assert(c[8].rule_id.len() != c[9].rule_id.len());
        } else if i == 8 && j == 10 {
            assert(c[8].rule_id[0] != c[10].rule_id[0]);
        } else if i == 8 && j == 11 {
            assert(c[8].rule_id.len() != c[11].rule_id.len());
        } else if i == 8 && j == 12 {
            assert(c[8].rule_id[0] != c[12].rule_id[0]);
        } else if i == 8 && j == 13 {
            assert(c[8].rule_id[0] != c[13].rule_id[0]);
        } else if i == 8 && j == 14 {
            assert(c[8].rule_id.len() != c[14].rule_id.len());
        } else if i == 8 && j == 15 {
            assert(c[8].rule_id.len() != c[15].rule_id.len());
        } else if i == 8 && j == 16 {
            assert(c[8].rule_id.len() != c[16].rule_id.len());
        } else if i == 8 && j == 17 {
            assert(c[8].rule_id.len() != c[17].rule_id.len());
        } else if i == 9 && j == 10 {
            assert(c[9].rule_id.len() != c[10].rule_id.len());
        } else if i == 9 && j == 11 {
            assert(c[9].rule_id[6] != c[11].rule_id[6]);
        } else if i == 9 && j == 12 {
            assert(c[9].rule_id.len() != c[12].rule_id.len());
        } else if i == 9 && j == 13 {
            assert(c[9].rule_id.len() != c[13].rule_id.len());
        } else if i == 9 && j == 14 {
            assert(c[9].rule_id.len() != c[14].rule_id.len());
        } else if i == 9 && j == 15 {
            assert(c[9].rule_id.len() != c[15].rule_id.len());
        } else if i == 9 && j == 16 {
            assert(c[9].rule_id.len() != c[16].rule_id.len());
        } else if i == 9 && j == 17 {
            assert(c[9].rule_id.len() != c[17].rule_id.len());
        } else if i == 10 && j == 11 {
            assert(c[10].rule_id.len() != c[11].rule_id.len());
        } else if i == 10 && j == 12 {
            assert(c[10].rule_id[0] != c[12].rule_id[0]);
        } else if i == 10 && j == 13 {
            assert(c[10].rule_id[0] != c[13].rule_id[0]);
        } else if i == 10 && j == 14 {
            assert(c[10].rule_id.len() != c[14].rule_id.len());
        } else if i == 10 && j == 15 {
            assert(c[10].rule_id.len() != c[15].rule_id.len());
        } else if i == 10 && j == 16 {
            assert(c[10].rule_id.len() != c[16].rule_id.len());
        } else if i == 10 && j == 17 {
            assert(c[10].rule_id.len() != c[17].rule_id.len());
        } else if i == 11 && j == 12 {
            assert(c[11].rule_id.len() != c[12].rule_id.len());
        } else if i == 11 && j == 13 {
            assert(c[11].rule_id.len() != c[13].rule_id.len());
        } else if i == 11 && j == 14 {
            assert(c[11].rule_id.len() != c[14].rule_id.len());
        } else if i == 11 && j == 15 {
            assert(c[11].rule_id.len() != c[15].rule_id.len());
        } else if i == 11 && j == 16 {
            assert(c[11].rule_id.len() != c[16].rule_id.len());
        } else if i == 11 && j == 17 {
            assert(c[11].rule_id.len() != c[17].rule_id.len());
        } else if i == 12 && j == 13 {
            assert(c[12].rule_id[2] != c[13].rule_id[2]);
        } else if i == 12 && j == 14 {
            assert(c[12].rule_id.len() != c[14].rule_id.len());
        } else if i == 12 && j == 15 {
            assert(c[12].rule_id.len() != c[15].rule_id.len());
        } else if i == 12 && j == 16 {
            assert(c[12].rule_id.len() != c[16].rule_id.len());
        } else if i == 12 && j == 17 {
            assert(c[12].rule_id.len() != c[17].rule_id.len());
        } else if i == 13 && j == 14 {
            assert(c[13].rule_id.len() != c[14].rule_id.len());
        } else if i == 13 && j == 15 {
            assert(c[13].rule_id.len() != c[15].rule_id.len());
        } else if i == 13 && j == 16 {
            assert(c[13].rule_id.len() != c[16].rule_id.len());
        } else if i == 13 && j == 17 {
            assert(c[13].rule_id.len() != c[17].rule_id.len());
        } else if i == 14 && j == 15 {
            assert(c[14].rule_id.len() != c[15].rule_id.len());
        } else if i == 14 && j == 16 {
            assert(c[14].rule_id.len() != c[16].rule_id.len());
        } else if i == 14 && j == 17 {
            assert(c[14].rule_id.len() != c[17].rule_id.len());
        } else if i == 15 && j == 16 {
            assert(c[15].rule_id.len() != c[16].rule_id.len());
        } else if i == 15 && j == 17 {
            assert(c[15].rule_id.len() != c[17].rule_id.len());
        } else if i == 16 && j == 17 {
            assert(c[16].rule_id.len() != c[17].rule_id.len());
        }
    }
}

/// The first rule with the given id.
pub open spec fn find_rule(c: Seq<RuleMetaView>, rule_id: Seq<char>) -> Option<RuleMetaView>
    decreases c.len(),
{
    if c.len() == 0 {
        None
    } else if c[0].rule_id == rule_id {
        Some(c[0])
    } else {
        find_rule(c.drop_first(), rule_id)
    }
}

/// Looks a rule up by id.
pub fn rule_meta(rule_id: &str) -> (r: Option<RuleMeta>)
    ensures
        match r {
            Some(m) => find_rule(catalogue(), rule_id@) == Some(m@),
            None => find_rule(catalogue(), rule_id@) is None,
        },
{
    let mut all = rule_catalogue();
    let ghost c = catalogue();
    let mut i: usize = 0;
    proof {
        assert(c.skip(0) =~= c);
    }
    while i < all.len()
        invariant
            c == catalogue(),
            all@.len() == c.len(),
            forall|k: int| 0 <= k < all@.len() ==> (#[trigger] all@[k])@ == c[k],
            i <= all@.len(),
            find_rule(c, rule_id@) == find_rule(c.skip(i as int), rule_id@),
        decreases all@.len() - i,
    {
        proof {
            assert(c.skip(i as int)[0] == c[i as int]);
            assert(c.skip(i as int).drop_first() =~= c.skip(i + 1));
        }
        if str_eq(all[i].rule_id, rule_id) {
            let m = all.remove(i);
            return Some(m);
        }
        i = i + 1;
    }
    None
}

/// Whether a Cypher query is read-only: its upper-case form holds none of the
/// writing keywords followed by a space, and, after trailing whitespace, is
/// neither one of those keywords alone nor ends with a space and one of them
/// (as in `MATCH (n) DELETE`).
pub open spec fn readonly_cypher(cypher: Seq<char>) -> bool {
    let u = uppercase(cypher);
    &&& !contains(u, "CREATE "@)
    &&& !contains(u, "SET "@)
    &&& !contains(u, "DELETE "@)
    &&& !contains(u, "MERGE "@)
    &&& !contains(u, "REMOVE "@)
    &&& !contains(u, "DETACH "@)
    &&& trim_end(u) != "CREATE"@
    &&& trim_end(u) != "SET"@
    &&& trim_end(u) != "DELETE"@
    &&& trim_end(u) != "MERGE"@
    &&& trim_end(u) != "REMOVE"@
    &&& trim_end(u) != "DETACH"@
    &&& !ends_with(trim_end(u), " CREATE"@)
    &&& !ends_with(trim_end(u), " SET"@)
    &&& !ends_with(trim_end(u), " DELETE"@)
    &&& !ends_with(trim_end(u), " MERGE"@)
    &&& !ends_with(trim_end(u), " REMOVE"@)
    &&& !ends_with(trim_end(u), " DETACH"@)
}

fn ends_with_word(te: &Vec<char>, word: &str) -> (r: bool)
    ensures
        r == ends_with(te@, word@),
{
    let w = crate::text::chars_of(word);
    crate::text::ends_with_exec(te.as_slice(), w.as_slice())
}

pub fn is_readonly_cypher(cypher: &str) -> (r: bool)
    ensures
        r == readonly_cypher(cypher@),
{
    let upper = to_uppercase(cypher);
    let u = upper.as_str();
    if crate::text::str_contains(u, "CREATE ") || crate::text::str_contains(u, "SET ")
        || crate::text::str_contains(u, "DELETE ") || crate::text::str_contains(u, "MERGE ")
        || crate::text::str_contains(u, "REMOVE ") || crate::text::str_contains(u, "DETACH ") {
        return false;
    }
    let chars = crate::text::chars_of(u);
    let te = crate::text::trim_end_chars(chars.as_slice());
    let t = crate::text::string_of(te.as_slice());
    let ts = t.as_str();
    if str_eq(ts, "CREATE") || str_eq(ts, "SET") || str_eq(ts, "DELETE") || str_eq(ts, "MERGE")
        || str_eq(ts, "REMOVE") || str_eq(ts, "DETACH") {
        return false;
    }
    !(ends_with_word(&te, " CREATE") || ends_with_word(&te, " SET") || ends_with_word(&te, " DELETE")
        || ends_with_word(&te, " MERGE") || ends_with_word(&te, " REMOVE") || ends_with_word(&te, " DETACH"))
}

/// `s` with every space replaced by `%20`.
pub open spec fn encode_spaces(s: Seq<char>) -> Seq<char>
    decreases s.len(),
{
    if s.len() == 0 {
        s
    } else {
        encode_spaces(s.drop_last()) + (if s.last() == ' ' {
            "%20"@
        } else {
            seq![s.last()]
        })
    }
}

fn encode(s: &str) -> (r: String)
    ensures
        r@ == encode_spaces(s@),
{
    proof {
        reveal_strlit("%20");
    }
    let c = crate::text::chars_of(s);
    let mut out: Vec<char> = Vec::new();
    let mut i: usize = 0;
    while i < c.len()
        invariant
            c@ == s@,
            i <= c@.len(),
            out@ == encode_spaces(c@.take(i as int)),
        decreases c@.len() - i,
    {
        proof {
            assert(c@.take(i + 1).drop_last() =~= c@.take(i as int));
            assert(c@.take(i + 1).last() == c@[i as int]);
        }
        let ghost before = out@;
        if c[i] == ' ' {
            out.push('%');
            out.push('2');
            out.push('0');
            proof {
                reveal_strlit("%20");
                assert("%20"@ =~= seq!['%', '2', '0']);
                assert(out@ =~= before + "%20"@);
            }
        } else {
            out.push(c[i]);
            proof {
                assert(out@ =~= before + seq![c@[i as int]]);
            }
        }
        i = i + 1;
    }
    proof {
        assert(c@.take(c@.len() as int) =~= c@);
    }
    crate::text::string_of(out.as_slice())
}

/// A link that helps investigate a detection.
pub struct ProceduralRef {
    /// `graph_query`, `api_endpoint` or `history_check`.
    pub kind: &'static str,
    pub label: String,
    pub href: String,
}

/// The root detection of a grounded incident response.
pub struct DetectionSummary {
    pub id: String,
    pub device_address: String,
    pub rule_id: String,
    pub severity: String,
    pub fired_at_ns: i64,
    pub features_json: String,
    pub remediation_status: String,
    pub remediation_action: String,
}

/// An incident grounded in the graph and the rule catalogue.
pub struct GroundedIncidentResponse {
    pub detection: DetectionSummary,
    pub blast_radius: crate::aiops::BlastRadiusResult,
    pub rule_description: &'static str,
    pub recurrence_indicators: Vec<&'static str>,
    pub procedural_references: Vec<ProceduralRef>,
}

/// The error member of a JSON-RPC response.
pub struct McpRpcError {
    pub code: i32,
    pub message: String,
}

/// The procedural references of a detection: blast radius, device detail,
/// detections of the rule, config history and the closed-loop trace.
pub open spec fn procedural_refs_of(device: Seq<char>, rule: Seq<char>) -> Seq<(Seq<char>, Seq<char>, Seq<char>)> {
    seq![
        ("api_endpoint"@, "Blast radius from "@ + device, "/api/blast-radius/"@ + encode_spaces(device)),
        ("api_endpoint"@, "Device detail for "@ + device, "/api/devices/"@ + encode_spaces(device)),
        ("api_endpoint"@, "Active detections for rule "@ + rule, "/api/detections?rule_id="@ + encode_spaces(rule)),
        ("api_endpoint"@, "Config history for this device"@, "/api/devices/"@ + encode_spaces(device) + "/config-history"@),
        ("api_endpoint"@, "Closed-loop trace"@, "/api/trace/<detection_id>"@),
    ]
}

pub open spec fn ref_view(r: ProceduralRef) -> (Seq<char>, Seq<char>, Seq<char>) {
    (r.kind@, r.label@, r.href@)
}

fn make_ref(label: String, href: String) -> (r: ProceduralRef)
    ensures
        ref_view(r) == ("api_endpoint"@, label@, href@),
{
    ProceduralRef { kind: "api_endpoint", label, href }
}

/// Builds the procedural references of a detection.
pub fn procedural_refs(device_address: &str, rule_id: &str) -> (r: Vec<ProceduralRef>)
    ensures
        r@.map_values(|x: ProceduralRef| ref_view(x)) == procedural_refs_of(device_address@, rule_id@),
{
    let dev = encode(device_address);
    let rule = encode(rule_id);
    let mut v: Vec<ProceduralRef> = Vec::new();
    let mut l1 = owned("Blast radius from ");
    l1.append(device_address);
    let mut h1 = owned("/api/blast-radius/");
    h1.append(dev.as_str());
    v.push(make_ref(l1, h1));
    let mut l2 = owned("Device detail for ");
    l2.append(device_address);
    let mut h2 = owned("/api/devices/");
    h2.append(dev.as_str());
    v.push(make_ref(l2, h2));
    let mut l3 = owned("Active detections for rule ");
    l3.append(rule_id);
    let mut h3 = owned("/api/detections?rule_id=");
    h3.append(rule.as_str());
    v.push(make_ref(l3, h3));
    let mut h4 = owned("/api/devices/");
    h4.append(dev.as_str());
    h4.append("/config-history");
    v.push(make_ref(owned("Config history for this device"), h4));
    v.push(make_ref(owned("Closed-loop trace"), owned("/api/trace/<detection_id>")));
    assert(v@.map_values(|x: ProceduralRef| ref_view(x)) =~= procedural_refs_of(device_address@, rule_id@));
    v
}


// ── Requests to the MCP endpoint ─────────────────────────────────────────────

/// The JSON-RPC error code of a failed tool call.
pub const TOOL_ERROR_CODE: i32 = -32000;

/// The JSON-RPC error code of an unknown method.
pub const METHOD_NOT_FOUND_CODE: i32 = -32601;

/// What a request to the MCP endpoint asks for.
#[derive(Debug, Clone, Copy, PartialEq, Eq, Structural)]
pub enum McpMethod {
    Initialize,
    ToolsList,
    ToolsCall,
    Unknown,
}

/// The tools the endpoint offers.
#[derive(Debug, Clone, Copy, PartialEq, Eq, Structural)]
pub enum McpTool {
    GetIncident,
    QueryDevices,
    GetDeviceBlastRadius,
    ListActiveDetections,
    QueryGraph,
}

pub open spec fn method_of(m: Seq<char>) -> McpMethod {
    if m == "initialize"@ {
        McpMethod::Initialize
    } else if m == "tools/list"@ {
        McpMethod::ToolsList
    } else if m == "tools/call"@ {
        McpMethod::ToolsCall
    } else {
        McpMethod::Unknown
    }
}

/// The method a request names.
pub fn mcp_method(method: &str) -> (r: McpMethod)
    ensures
        r == method_of(method@),
{
    if str_eq(method, "initialize") {
        McpMethod::Initialize
    } else if str_eq(method, "tools/list") {
        McpMethod::ToolsList
    } else if str_eq(method, "tools/call") {
        McpMethod::ToolsCall
    } else {
        McpMethod::Unknown
    }
}

pub open spec fn tool_of(name: Seq<char>) -> Option<McpTool> {
    if name == "get_incident"@ {
        Some(McpTool::GetIncident)
    } else if name == "query_devices"@ {
        Some(McpTool::QueryDevices)
    } else if name == "get_device_blast_radius"@ {
        Some(McpTool::GetDeviceBlastRadius)
    } else if name == "list_active_detections"@ {
        Some(McpTool::ListActiveDetections)
    } else if name == "query_graph"@ {
        Some(McpTool::QueryGraph)
    } else {
        None
    }
}

/// The tool a call names, if it is one of ours.
pub fn mcp_tool(name: &str) -> (r: Option<McpTool>)
    ensures
        r == tool_of(name@),
{
    if str_eq(name, "get_incident") {
        Some(McpTool::GetIncident)
    } else if str_eq(name, "query_devices") {
        Some(McpTool::QueryDevices)
    } else if str_eq(name, "get_device_blast_radius") {
        Some(McpTool::GetDeviceBlastRadius)
    } else if str_eq(name, "list_active_detections") {
        Some(McpTool::ListActiveDetections)
    } else if str_eq(name, "query_graph") {
        Some(McpTool::QueryGraph)
    } else {
        None
    }
}

/// One input of a tool, as `tools/list` describes it.
#[derive(Debug, Clone, Copy)]
pub struct ToolParam {
    pub name: &'static str,
    /// The JSON type: `string` or `integer`.
    pub kind: &'static str,
    pub description: &'static str,
    pub default: Option<u64>,
    pub required: bool,
}

/// One tool, as `tools/list` describes it.
pub struct ToolSchema {
    pub name: &'static str,
    pub description: &'static str,
    pub params: Vec<ToolParam>,
}

/// The abstract value of a tool input.
pub struct ToolParamView {
    pub name: Seq<char>,
    pub kind: Seq<char>,
    pub description: Seq<char>,
    pub default: Option<u64>,
    pub required: bool,
}

/// The abstract value of a tool description.
pub struct ToolSchemaView {
    pub name: Seq<char>,
    pub description: Seq<char>,
    pub params: Seq<ToolParamView>,
}

impl View for ToolParam {
    type V = ToolParamView;

    open spec fn view(&self) -> ToolParamView {
        ToolParamView {
            name: self.name@,
            kind: self.kind@,
            description: self.description@,
            default: self.default,
            required: self.required,
        }
    }
}

impl View for ToolSchema {
    type V = ToolSchemaView;

    open spec fn view(&self) -> ToolSchemaView {
        ToolSchemaView {
            name: self.name@,
            description: self.description@,
            params: self.params@.map_values(|p: ToolParam| p@),
        }
    }
}

pub open spec fn param_view(
    name: &'static str,
    kind: &'static str,
    description: &'static str,
    default: Option<u64>,
    required: bool,
) -> ToolParamView {
    ToolParamView { name: name@, kind: kind@, description: description@, default, required }
}

/// The tools that `tools/list` advertises, in order.
pub open spec fn tool_catalogue() -> Seq<ToolSchemaView> {
    seq![
        ToolSchemaView {
            name: "get_incident"@,
            description: "Return a full incident by its root DetectionEvent ID, including cascading detections, affected devices, severity, and grounded context."@,
            params: seq![param_view("id", "string", "Root DetectionEvent ID (UUID)", None, true)],
        },
        ToolSchemaView {
            name: "query_devices"@,
            description: "Return devices matching an optional hostname or address filter. Returns address, hostname, vendor, health, and current BGP session states."@,
            params: seq![
                param_view(
                    "filter",
                    "string",
                    "Substring match against hostname or address. Omit to return all devices.",
                    None,
                    false,
                ),
            ],
        },
        ToolSchemaView {
            name: "get_device_blast_radius"@,
            description: "Return all devices reachable from a given address within max_hops physical hops, plus applications and active detections in the reachable set."@,
            params: seq![
                param_view("address", "string", "Device IP address", None, true),
                param_view("max_hops", "integer", "Maximum physical hops (default 2, max 5)", Some(2u64), false),
            ],
        },
        ToolSchemaView {
            name: "list_active_detections"@,
            description: "Return recent DetectionEvents with optional filters. Returns detection ID, device, rule ID, severity, fired timestamp, and remediation status."@,
            params: seq![
                param_view("limit", "integer", "Maximum detections to return (default 50)", Some(50u64), false),
                param_view(
                    "severity",
                    "string",
                    "Filter by severity: 'critical', 'warn', or 'info'. Omit for all.",
                    None,
                    false,
                ),
                param_view("rule_id", "string", "Filter by rule ID. Omit for all rules.", None, false),
                param_view(
                    "device_address",
                    "string",
                    "Filter by device address. Omit for all devices.",
                    None,
                    false,
                ),
            ],
        },
        ToolSchemaView {
            name: "query_graph"@,
            description: "Execute a read-only Cypher query against the bonsai graph database. Mutation keywords (CREATE, SET, DELETE, MERGE, REMOVE, DETACH) are rejected."@,
            params: seq![param_view("cypher", "string", "Read-only Cypher query string", None, true)],
        },
    ]
}

fn param(
    name: &'static str,
    kind: &'static str,
    description: &'static str,
    default: Option<u64>,
    required: bool,
) -> (r: ToolParam)
    ensures
        r@ == param_view(name, kind, description, default, required),
{
    ToolParam { name, kind, description, default, required }
}

/// The descriptions of the tools, for `tools/list`.
pub fn tool_schemas() -> (r: Vec<ToolSchema>)
    ensures
        r@.len() == tool_catalogue().len(),
        forall|i: int| 0 <= i < r@.len() ==> (#[trigger] r@[i])@ == tool_catalogue()[i],
{
    let mut v: Vec<ToolSchema> = Vec::new();

    let mut p: Vec<ToolParam> = Vec::new();
    p.push(param("id", "string", "Root DetectionEvent ID (UUID)", None, true));
    assert(p@.map_values(|x: ToolParam| x@) =~= tool_catalogue()[0].params);
    v.push(ToolSchema {
        name: "get_incident",
        description: "Return a full incident by its root DetectionEvent ID, including cascading detections, affected devices, severity, and grounded context.",
        params: p,
    });

    let mut p: Vec<ToolParam> = Vec::new();
    p.push(
        param(
            "filter",
            "string",
            "Substring match against hostname or address. Omit to return all devices.",
            None,
            false,
        ),
    );
    assert(p@.map_values(|x: ToolParam| x@) =~= tool_catalogue()[1].params);
    v.push(ToolSchema {
        name: "query_devices",
        description: "Return devices matching an optional hostname or address filter. Returns address, hostname, vendor, health, and current BGP session states.",
        params: p,
    });

    let mut p: Vec<ToolParam> = Vec::new();
    p.push(param("address", "string", "Device IP address", None, true));
    p.push(param("max_hops", "integer", "Maximum physical hops (default 2, max 5)", Some(2u64), false));
    assert(p@.map_values(|x: ToolParam| x@) =~= tool_catalogue()[2].params);
    v.push(ToolSchema {
        name: "get_device_blast_radius",
        description: "Return all devices reachable from a given address within max_hops physical hops, plus applications and active detections in the reachable set.",
        params: p,
    });

    let mut p: Vec<ToolParam> = Vec::new();
    p.push(param("limit", "integer", "Maximum detections to return (default 50)", Some(50u64), false));
    p.push(
        param(
            "severity",
            "string",
            "Filter by severity: 'critical', 'warn', or 'info'. Omit for all.",
            None,
            false,
        ),
    );
    p.push(param("rule_id", "string", "Filter by rule ID. Omit for all rules.", None, false));
    p.push(param("device_address", "string", "Filter by device address. Omit for all devices.", None, false));
    assert(p@.map_values(|x: ToolParam| x@) =~= tool_catalogue()[3].params);
    v.push(ToolSchema {
        name: "list_active_detections",
        description: "Return recent DetectionEvents with optional filters. Returns detection ID, device, rule ID, severity, fired timestamp, and remediation status.",
        params: p,
    });

    let mut p: Vec<ToolParam> = Vec::new();
    p.push(param("cypher", "string", "Read-only Cypher query string", None, true));
    assert(p@.map_values(|x: ToolParam| x@) =~= tool_catalogue()[4].params);
    v.push(ToolSchema {
        name: "query_graph",
        description: "Execute a read-only Cypher query against the bonsai graph database. Mutation keywords (CREATE, SET, DELETE, MERGE, REMOVE, DETACH) are rejected.",
        params: p,
    });
    v
}

/// The tool at position `i` of the catalogue.
pub open spec fn tool_at(i: int) -> McpTool {
    if i == 0 {
        McpTool::GetIncident
    } else if i == 1 {
        McpTool::QueryDevices
    } else if i == 2 {
        McpTool::GetDeviceBlastRadius
    } else if i == 3 {
        McpTool::ListActiveDetections
    } else {
        McpTool::QueryGraph
    }
}

/// The position of a tool in the catalogue.
pub open spec fn position_of(t: McpTool) -> int {
    match t {
        McpTool::GetIncident => 0,
        McpTool::QueryDevices => 1,
        McpTool::GetDeviceBlastRadius => 2,
        McpTool::ListActiveDetections => 3,
        McpTool::QueryGraph => 4,
    }
}

/// What `tools/list` advertises is what `tools/call` dispatches: the tool
/// at each position of the catalogue is called by its advertised name, and
/// every tool is advertised.
pub proof fn lemma_advertised_tools_dispatch()
    ensures
        forall|i: int| 0 <= i < tool_catalogue().len() ==> tool_of(#[trigger] tool_catalogue()[i].name) == Some(tool_at(i)),
        forall|t: McpTool| 0 <= #[trigger] position_of(t) < tool_catalogue().len() && tool_at(position_of(t)) == t,
{
    reveal_strlit("get_incident");
    reveal_strlit("query_devices");
    reveal_strlit("get_device_blast_radius");
    reveal_strlit("list_active_detections");
    reveal_strlit("query_graph");
    let c = tool_catalogue();
    assert(c.len() == 5);
    assert("get_incident"@.len() == 12);
    assert("query_devices"@.len() == 13);
    assert("get_device_blast_radius"@.len() == 23);
    assert("list_active_detections"@.len() == 22);
    assert("query_graph"@.len() == 11);
    assert(tool_of(c[0].name) == Some(McpTool::GetIncident));
    assert(tool_of(c[1].name) == Some(McpTool::QueryDevices));
    assert(tool_of(c[2].name) == Some(McpTool::GetDeviceBlastRadius));
    assert(tool_of(c[3].name) == Some(McpTool::ListActiveDetections));
    assert(tool_of(c[4].name) == Some(McpTool::QueryGraph));
}

/// The error of a call to a tool we do not have.
pub fn unknown_tool_error(name: &str) -> (r: McpRpcError)
    ensures
        r.code == TOOL_ERROR_CODE,
        r.message@ == "unknown tool: "@ + name@,
{
    McpRpcError { code: TOOL_ERROR_CODE, message: concat("unknown tool: ", name) }
}

/// The error of a tool that failed with `message`.
pub fn tool_error(message: String) -> (r: McpRpcError)
    ensures
        r.code == TOOL_ERROR_CODE,
        r.message == message,
{
    McpRpcError { code: TOOL_ERROR_CODE, message }
}

/// The error of a method we do not have.
pub fn method_not_found(method: &str) -> (r: McpRpcError)
    ensures
        r.code == METHOD_NOT_FOUND_CODE,
        r.message@ == "method not found: "@ + method@,
{
    McpRpcError { code: METHOD_NOT_FOUND_CODE, message: concat("method not found: ", method) }
}

/// The hops of a blast-radius query: as asked, two by default, at most five.
pub fn blast_radius_hops(max_hops: Option<u64>) -> (r: usize)
    ensures
        r == match max_hops {
            Some(h) => if h < 5 { h } else { 5 },
            None => 2,
        },
{
    let h = match max_hops {
        Some(h) => h,
        None => 2,
    };
    if h < 5 {
        h as usize
    } else {
        5
    }
}

/// The number of detections listed: as asked, fifty by default, at most
/// five hundred.
pub fn detections_limit(limit: Option<u64>) -> (r: u32)
    ensures
        r == match limit {
            Some(l) => if l < 500 { l } else { 500 },
            None => 50,
        },
{
    let l = match limit {
        Some(l) => l,
        None => 50,
    };
    if l < 500 {
        l as u32
    } else {
        500
    }
}

/// Whether a device matches a device filter: every device for an empty
/// filter, else those whose address or hostname holds it, all lower-cased.
pub open spec fn device_match(filter: Seq<char>, address: Seq<char>, hostname: Seq<char>) -> bool {
    let f = lowercase(filter);
    f.len() == 0 || contains(lowercase(address), f) || contains(lowercase(hostname), f)
}

pub fn device_matches(filter: &str, address: &str, hostname: &str) -> (r: bool)
    ensures
        r == device_match(filter@, address@, hostname@),
{
    let f = to_lowercase(filter);
    let fc = crate::text::chars_of(f.as_str());
    if fc.len() == 0 {
        return true;
    }
    let a = to_lowercase(address);
    if str_contains(a.as_str(), f.as_str()) {
        return true;
    }
    let h = to_lowercase(hostname);
    str_contains(h.as_str(), f.as_str())
}

/// Whether a detection passes the filters of a listing: each filter is
/// either empty or equal to the detection's field.
pub open spec fn detection_match(
    severity_filter: Seq<char>,
    rule_filter: Seq<char>,
    device_filter: Seq<char>,
    severity: Seq<char>,
    rule_id: Seq<char>,
    device_address: Seq<char>,
) -> bool {
    &&& (severity_filter.len() == 0 || severity == severity_filter)
    &&& (rule_filter.len() == 0 || rule_id == rule_filter)
    &&& (device_filter.len() == 0 || device_address == device_filter)
}

pub fn detection_matches(
    severity_filter: &str,
    rule_filter: &str,
    device_filter: &str,
    severity: &str,
    rule_id: &str,
    device_address: &str,
) -> (r: bool)
    ensures
        r == detection_match(severity_filter@, rule_filter@, device_filter@, severity@, rule_id@, device_address@),
        r <==> (severity_filter@.len() == 0 || severity@ == severity_filter@) && (rule_filter@.len() == 0 || rule_id@
            == rule_filter@) && (device_filter@.len() == 0 || device_address@ == device_filter@),
{
    let sf = crate::text::chars_of(severity_filter);
    let rf = crate::text::chars_of(rule_filter);
    let df = crate::text::chars_of(device_filter);
    (sf.len() == 0 || str_eq(severity, severity_filter)) && (rf.len() == 0 || str_eq(rule_id, rule_filter)) && (
    df.len() == 0 || str_eq(device_address, device_filter))
}

/// The query of a `query_graph` call, refused when it could write.
pub fn check_query_graph(cypher: &str) -> (r: Result<(), String>)
    ensures
        r is Ok == readonly_cypher(cypher@),
        r matches Err(e) ==> e@ == "mutation keywords not permitted in read-only query_graph tool"@,
{
    if is_readonly_cypher(cypher) {
        Ok(())
    } else {
        Err(owned("mutation keywords not permitted in read-only query_graph tool"))
    }
}


/// How a candidate name matches a search query, ignoring case.
#[derive(Clone, Copy, Debug, PartialEq, Eq, Structural)]
pub enum MatchKind {
    NoMatch,
    Substring,
    Prefix,
    Exact,
}

impl MatchKind {
    pub open spec fn percent(self) -> u32 {
        match self {
            MatchKind::Exact => 100,
            MatchKind::Prefix => 80,
            MatchKind::Substring => 50,
            MatchKind::NoMatch => 0,
        }
    }

    /// The score of the match in hundredths: exact 100, prefix 80,
    /// substring 50, none 0.
    pub fn score_percent(&self) -> (r: u32)
        ensures
            r == self.percent(),
    {
        match self {
            MatchKind::Exact => 100,
            MatchKind::Prefix => 80,
            MatchKind::Substring => 50,
            MatchKind::NoMatch => 0,
        }
    }
}

/// How `candidate` matches `query` once both are lower-cased: an empty
/// query matches nothing; else equal, a prefix, anywhere, or not at all.
pub open spec fn match_kind_of(candidate: Seq<char>, query: Seq<char>) -> MatchKind {
    let c = lowercase(candidate);
    let q = lowercase(query);
    if q.len() == 0 {
        MatchKind::NoMatch
    } else if c == q {
        MatchKind::Exact
    } else if starts_with(c, q) {
        MatchKind::Prefix
    } else if contains(c, q) {
        MatchKind::Substring
    } else {
        MatchKind::NoMatch
    }
}

pub fn match_kind(candidate: &str, query: &str) -> (r: MatchKind)
    ensures
        r == match_kind_of(candidate@, query@),
{
    let c = to_lowercase(candidate);
    let q = to_lowercase(query);
    if q.as_str().unicode_len() == 0 {
        MatchKind::NoMatch
    } else if str_eq(c.as_str(), q.as_str()) {
        MatchKind::Exact
    } else if str_starts_with(c.as_str(), q.as_str()) {
        MatchKind::Prefix
    } else if str_contains(c.as_str(), q.as_str()) {
        MatchKind::Substring
    } else {
        MatchKind::NoMatch
    }
}

/// Each non-empty filter of a detection search must be met exactly: a
/// detection whose severity, rule or device differs from a given filter is
/// left out, and with no filters every detection is listed.
pub proof fn lemma_detection_filters(
    severity_filter: Seq<char>,
    rule_filter: Seq<char>,
    device_filter: Seq<char>,
    severity: Seq<char>,
    rule_id: Seq<char>,
    device_address: Seq<char>,
)
    ensures
        severity_filter.len() > 0 && severity != severity_filter ==> !detection_match(
            severity_filter,
            rule_filter,
            device_filter,
            severity,
            rule_id,
            device_address,
        ),
        rule_filter.len() > 0 && rule_id != rule_filter ==> !detection_match(
            severity_filter,
            rule_filter,
            device_filter,
            severity,
            rule_id,
            device_address,
        ),
        device_filter.len() > 0 && device_address != device_filter ==> !detection_match(
            severity_filter,
            rule_filter,
            device_filter,
            severity,
            rule_id,
            device_address,
        ),
        severity_filter.len() == 0 && rule_filter.len() == 0 && device_filter.len() == 0 ==> detection_match(
            severity_filter,
            rule_filter,
            device_filter,
            severity,
            rule_id,
            device_address,
        ),
{
}

} // verus!
