use metta_bus_client::bus::Bus;

#[test]
fn add_and_get_ownership() {
    let mut bus = Bus::new();
    bus.add(String::from("pattern_matching_query")).unwrap();
    assert!(bus.contains("pattern_matching_query"));
    assert!(!bus.contains("inference"));
    assert_eq!(bus.get_ownership("pattern_matching_query").unwrap(), "");
    assert!(bus.get_ownership("inference").is_err());
}

#[test]
fn set_ownership_fills_empty_owner() {
    let mut bus = Bus::new();
    bus.add(String::from("context")).unwrap();
    bus.set_ownership(String::from("context"), "peer:35700").unwrap();
    assert_eq!(bus.get_ownership("context").unwrap(), "peer:35700");
}

#[test]
fn registry_refuses_reassignment_to_different_owner() {
    let mut bus = Bus::new();
    bus.add(String::from("context")).unwrap();
    bus.set_ownership(String::from("context"), "peer-a:1").unwrap();
    assert!(bus.set_ownership(String::from("context"), "peer-b:2").is_err());
    assert_eq!(bus.get_ownership("context").unwrap(), "peer-a:1");
    bus.set_ownership(String::from("context"), "peer-a:1").unwrap();
    assert_eq!(bus.get_ownership("context").unwrap(), "peer-a:1");
}

#[test]
fn set_ownership_refuses_unknown_command() {
    let mut bus = Bus::new();
    assert!(bus.set_ownership(String::from("nope"), "peer:1").is_err());
}

#[test]
fn add_refuses_owned_command() {
    let mut bus = Bus::new();
    bus.add(String::from("context")).unwrap();
    bus.set_ownership(String::from("context"), "peer:1").unwrap();
    assert!(bus.add(String::from("context")).is_err());
    let mut bus2 = Bus::new();
    bus2.add(String::from("context")).unwrap();
    bus2.add(String::from("context")).unwrap();
}
