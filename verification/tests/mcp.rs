use bonsai::mcp::{is_readonly_cypher, mcp_tool, procedural_refs, rule_catalogue, rule_meta, tool_schemas, McpTool};

#[test]
fn rule_catalogue_no_duplicates() {
    let mut seen = std::collections::HashSet::new();
    for rule in rule_catalogue() {
        assert!(seen.insert(rule.rule_id), "duplicate rule_id in catalogue: {}", rule.rule_id);
    }
}

#[test]
fn every_rule_has_three_recurrence_indicators() {
    for rule in rule_catalogue() {
        assert!(
            rule.recurrence_indicators.len() >= 3,
            "rule {} has fewer than 3 recurrence_indicators",
            rule.rule_id
        );
    }
}

#[test]
fn rule_meta_lookup_hit_and_miss() {
    assert!(rule_meta("bgp_session_down").is_some());
    assert!(rule_meta("nonexistent_rule").is_none());
}

#[test]
fn readonly_cypher_rejects_mutations() {
    assert!(!is_readonly_cypher("CREATE (n:Device)"));
    assert!(!is_readonly_cypher("MATCH (n) SET n.x = 1"));
    assert!(!is_readonly_cypher("MATCH (n) DELETE n"));
    assert!(!is_readonly_cypher("MERGE (n:Device {address: '1.2.3.4'})"));
    assert!(!is_readonly_cypher("MATCH (n) DETACH DELETE n"));
    assert!(!is_readonly_cypher("MATCH (n) REMOVE n.x"));
}

#[test]
fn readonly_cypher_allows_reads() {
    assert!(is_readonly_cypher("MATCH (d:Device) RETURN d.address"));
    assert!(is_readonly_cypher("MATCH (n:BgpNeighbor {device_address: $dev}) RETURN n.session_state"));
    assert!(is_readonly_cypher("MATCH (a)-[:CONNECTED_TO]->(b) RETURN a, b"));
}

#[test]
fn readonly_cypher_catches_lower_case_and_bare_keywords() {
    assert!(!is_readonly_cypher("match (n) delete n"));
    assert!(!is_readonly_cypher("delete  \n"));
    assert!(is_readonly_cypher("MATCH (n) RETURN n.created"));
}

#[test]
fn catalogue_has_eighteen_rules_with_known_severities() {
    let all = rule_catalogue();
    assert_eq!(all.len(), 18);
    for r in &all {
        assert!(r.severity == "critical" || r.severity == "warn");
    }
    let m = rule_meta("interface_down").unwrap();
    assert_eq!(m.severity, "critical");
    assert_eq!(m.description, "Interface oper-status transitions to down.");
}

#[test]
fn procedural_refs_encode_spaces() {
    let refs = procedural_refs("leaf 1", "bgp down");
    assert_eq!(refs.len(), 5);
    assert_eq!(refs[0].label, "Blast radius from leaf 1");
    assert_eq!(refs[0].href, "/api/blast-radius/leaf%201");
    assert_eq!(refs[1].href, "/api/devices/leaf%201");
    assert_eq!(refs[2].href, "/api/detections?rule_id=bgp%20down");
    assert_eq!(refs[3].href, "/api/devices/leaf%201/config-history");
    assert_eq!(refs[4].href, "/api/trace/<detection_id>");
    assert!(refs.iter().all(|r| r.kind == "api_endpoint"));
}

#[test]
fn tools_list_advertises_the_dispatched_tools() {
    let schemas = tool_schemas();
    let names: Vec<&str> = schemas.iter().map(|t| t.name).collect();
    assert_eq!(
        names,
        vec!["get_incident", "query_devices", "get_device_blast_radius", "list_active_detections", "query_graph"]
    );
    let expected = [
        McpTool::GetIncident,
        McpTool::QueryDevices,
        McpTool::GetDeviceBlastRadius,
        McpTool::ListActiveDetections,
        McpTool::QueryGraph,
    ];
    for (schema, tool) in schemas.iter().zip(expected.iter()) {
        assert_eq!(mcp_tool(schema.name), Some(*tool));
    }
}

#[test]
fn tool_inputs_mark_required_fields_and_defaults() {
    let schemas = tool_schemas();
    let required: Vec<Vec<&str>> = schemas
        .iter()
        .map(|t| t.params.iter().filter(|p| p.required).map(|p| p.name).collect())
        .collect();
    assert_eq!(required, vec![vec!["id"], vec![], vec!["address"], vec![], vec!["cypher"]]);
    let blast = &schemas[2].params[1];
    assert_eq!((blast.name, blast.kind, blast.default), ("max_hops", "integer", Some(2)));
    let limit = &schemas[3].params[0];
    assert_eq!((limit.name, limit.kind, limit.default), ("limit", "integer", Some(50)));
}

#[test]
fn readonly_cypher_refuses_a_trailing_write_keyword() {
    assert!(!is_readonly_cypher("MATCH (n) DELETE"));
    assert!(!is_readonly_cypher("match (n) detach  \n"));
    assert!(!is_readonly_cypher("MATCH (n) SET"));
    assert!(is_readonly_cypher("MATCH (n:Device) RETURN n.asset"));
}
