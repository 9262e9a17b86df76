use coast_daemon::ports::{build_exposed_ports, build_port_bindings, humanize_port_conflict};

#[test]
fn test_build_port_bindings_maps_all_declared_ports() {
    let port_bindings = build_port_bindings(&[5432, 6379]);

    assert_eq!(port_bindings.len(), 2);
    let postgres = port_bindings.iter().find(|b| b.key == "5432/tcp").unwrap();
    assert_eq!(postgres.host_ip.as_str(), "0.0.0.0");
    assert_eq!(postgres.host_port.as_str(), "5432");

    let redis = port_bindings.iter().find(|b| b.key == "6379/tcp").unwrap();
    assert_eq!(redis.host_port.as_str(), "6379");
}

#[test]
fn test_build_exposed_ports_maps_all_declared_ports() {
    let exposed_ports = build_exposed_ports(&[5432, 6379]);

    assert_eq!(exposed_ports.len(), 2);
    assert!(exposed_ports.contains(&"5432/tcp".to_string()));
    assert!(exposed_ports.contains(&"6379/tcp".to_string()));
    assert_eq!(exposed_ports[0], "5432/tcp");
}

#[test]
fn exposed_ports_are_distinct() {
    assert_eq!(build_exposed_ports(&[80, 80, 443]), vec!["80/tcp".to_string(), "443/tcp".to_string()]);
    assert_eq!(build_port_bindings(&[80, 80]).len(), 1);
}

#[test]
fn test_humanize_port_conflict_extracts_specific_bound_port() {
    let raw = "driver failed programming external connectivity on endpoint foo: Bind for 0.0.0.0:6379 failed: port is already allocated";
    let message = humanize_port_conflict(raw, "redis", &[6379]).unwrap();

    assert!(message.contains("Port 6379 is already in use on the host."));
    assert!(message.contains("shared service 'redis'"));
    assert!(message.contains("lsof -iTCP:6379 -sTCP:LISTEN"));
}

#[test]
fn test_humanize_port_conflict_falls_back_to_declared_ports_when_bind_is_missing() {
    let raw = "failed to start container: port is already allocated";
    let message = humanize_port_conflict(raw, "postgres", &[5432, 6432]).unwrap();

    assert!(message.contains("Port 5432, 6432 is already in use on the host."));
}

#[test]
fn test_humanize_port_conflict_ignores_other_errors() {
    assert!(humanize_port_conflict("permission denied", "redis", &[6379]).is_none());
}

#[test]
fn humanize_port_conflict_full_text_and_unparsable_port() {
    let raw = "Bind for 0.0.0.0:99999 failed: port is already allocated";
    let message = humanize_port_conflict(raw, "svc", &[1]).unwrap();
    assert!(message.starts_with("Port 1 is already in use on the host.\n\nThe shared service 'svc' needs this port"));
    assert!(message.ends_with("Stop the conflicting process and try again."));
    let raw = "Bind for [::]:5432 failed: port is already allocated";
    assert!(humanize_port_conflict(raw, "pg", &[1]).unwrap().contains("Port 1 is already"));
}
