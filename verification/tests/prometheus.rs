use bonsai::output::prometheus::{base_labels_for, merge_labels, metric_name, parse_path};

#[test]
fn parse_path_no_filters() {
    let (name, labels) = parse_path("/interfaces");
    assert_eq!(name, "interfaces");
    assert!(labels.is_empty());
}

#[test]
fn parse_path_with_list_key() {
    let (name, labels) = parse_path("/interface[name=eth0]/statistics");
    assert_eq!(name, "interface_statistics");
    assert_eq!(labels, vec![("name".to_string(), "eth0".to_string())]);
}

#[test]
fn parse_path_hyphen_in_segment() {
    let (name, labels) = parse_path("/network-instance[name=default]/protocols");
    assert_eq!(name, "network_instance_protocols");
    assert_eq!(labels, vec![("name".to_string(), "default".to_string())]);
}

#[test]
fn parse_path_multiple_keys() {
    let (name, labels) = parse_path("/bgp/neighbor[peer-address=1.2.3.4]/afi-safi[afi-safi-name=IPV4_UNICAST]");
    assert_eq!(name, "bgp_neighbor_afi_safi");
    assert!(labels.iter().any(|(k, _)| k == "peer_address"));
    assert!(labels.iter().any(|(k, _)| k == "afi_safi_name"));
}

#[test]
fn metric_names_get_prefix_and_field() {
    assert_eq!(metric_name("interface_statistics", Some("In-Octets")), "bonsai_interface_statistics_in_octets");
    assert_eq!(metric_name("", Some("cpu-load")), "bonsai_cpu_load");
    assert_eq!(metric_name("memory_used", None), "bonsai_memory_used");
}

#[test]
fn base_labels_use_hostname_as_instance() {
    let labels = base_labels_for("10.0.0.1:57400", "", "nokia", "bonsai", "", "lab");
    assert_eq!(
        labels,
        vec![
            ("device".to_string(), "10.0.0.1:57400".to_string()),
            ("instance".to_string(), "10.0.0.1:57400".to_string()),
            ("job".to_string(), "bonsai".to_string()),
            ("vendor".to_string(), "nokia".to_string()),
            ("site".to_string(), "lab".to_string()),
        ]
    );
}

#[test]
fn merged_labels_keep_first_of_each_name_sorted() {
    let base = base_labels_for("10.0.0.1:57400", "leaf1", "nokia", "bonsai", "leaf", "lab");
    let extra = vec![("name".to_string(), "eth0".to_string()), ("target".to_string(), "other".to_string())];
    let merged = merge_labels(base, extra);
    let names: Vec<&str> = merged.iter().map(|(k, _)| k.as_str()).collect();
    let mut sorted = names.clone();
    sorted.sort();
    sorted.dedup();
    assert_eq!(names, sorted);
    let device = merged.iter().find(|(k, _)| k == "device").unwrap();
    assert_eq!(device.1, "10.0.0.1:57400");
    assert!(names.contains(&"name") && names.contains(&"target"));
}
