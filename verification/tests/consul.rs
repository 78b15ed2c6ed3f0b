use crossgate::consul::ConsulPlugin;
use crossgate::plugin::ServiceContent;

#[test]
fn test_parse_uri() {
    let uri = "consul://https://localhost:8500";
    let (method, host, port) = ConsulPlugin::validation_parse_uri(uri);
    assert_eq!(method, "https");
    assert_eq!(host, "localhost");
    assert_eq!(port, 8500);
}

#[test]
fn checked_parse_uri_gives_the_parts_of_a_catalog_address() {
    assert_eq!(
        ConsulPlugin::checked_parse_uri("consul://http://10.1.2.3:8500"),
        Some(("http".to_string(), "10.1.2.3".to_string(), 8500))
    );
}

#[test]
fn checked_parse_uri_refuses_what_names_no_catalog() {
    // no prefix
    assert_eq!(ConsulPlugin::checked_parse_uri("http://localhost:8500"), None);
    // no URL behind the prefix
    assert_eq!(ConsulPlugin::checked_parse_uri("consul://localhost"), None);
    // no port
    assert_eq!(ConsulPlugin::checked_parse_uri("consul://http://localhost"), None);
    // the scheme's own port is no port of the URL
    assert_eq!(ConsulPlugin::checked_parse_uri("consul://https://localhost:443"), None);
    assert_eq!(ConsulPlugin::checked_parse_uri(""), None);
}

#[test]
fn the_backend_holds_the_address_of_the_catalog() {
    let plugin = ConsulPlugin::new("consul://https://localhost:8500").unwrap();
    assert_eq!(plugin.catalog(), "https://localhost:8500");
    assert!(ConsulPlugin::new("etcd://localhost:2379").is_none());
}

#[test]
fn a_registration_becomes_a_catalog_entry() {
    let plugin = ConsulPlugin::new("consul://http://localhost:8500").unwrap();
    let sc = ServiceContent {
        service: "/t/ums".to_string(),
        lba: "RoundRobin".to_string(),
        addr: "10.0.0.1:80".to_string(),
        kind: 1,
    };
    let entry = plugin.register_service("/t/ums", &sc);
    assert_eq!(entry.node, "10.0.0.1:80");
    assert_eq!(entry.address, "10.0.0.1:80");
    assert_eq!(entry.service, "/t/ums");
    assert_eq!(entry.tags, vec!["/t/ums".to_string(), "RoundRobin".to_string()]);
    assert_eq!(entry.port, 0);
}
