use bonsai::address::normalize_address;

#[test]
fn normalize_address_accepts_host_port_forms() {
    for address in ["10.0.0.1:57400", "leaf-1.lab.local:57400", "localhost:50051", "[2001:db8::1]:57400"] {
        assert_eq!(normalize_address(address).unwrap(), address);
    }
    assert_eq!(normalize_address("  leaf-1.lab.local:57400  ").unwrap(), "leaf-1.lab.local:57400");
}

#[test]
fn normalize_address_rejects_invalid_forms() {
    for address in [
        "",
        "garbage",
        "10.0.0.1",
        "10.0.0.1:0",
        ":57400",
        "bad host:57400",
        "2001:db8::1:57400",
        "leaf-.lab:57400",
        "-leaf.lab:57400",
        "leaf:70000",
    ] {
        let error = normalize_address(address).unwrap_err().message();
        assert!(error.contains("device address must be host:port"), "unexpected error for {address:?}: {error}");
    }
}
