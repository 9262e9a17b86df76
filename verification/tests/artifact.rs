use coast_daemon::builds::{
    latest_link_name, looks_database_related, primary_port_service, primary_port_setting_key,
    shared_volume_warnings, VolumeConfig, VolumeStrategy,
};

#[test]
fn test_shared_volume_warnings_only_flags_database_services() {
    let volumes = vec![
        VolumeConfig { name: "pg_data".to_string(), service: "postgres".to_string(), strategy: VolumeStrategy::Shared },
        VolumeConfig { name: "uploads".to_string(), service: "web".to_string(), strategy: VolumeStrategy::Shared },
    ];

    let warnings = shared_volume_warnings(&volumes);
    assert_eq!(warnings.len(), 1);
    assert!(warnings[0].contains("pg_data"));
    assert!(warnings[0].contains("postgres"));
}

#[test]
fn database_detection_is_case_insensitive_and_isolated_volumes_are_fine() {
    assert!(looks_database_related("MySQL-Primary"));
    assert!(looks_database_related("userdb"));
    assert!(!looks_database_related("web"));
    let volumes = vec![VolumeConfig { name: "d".to_string(), service: "Redis".to_string(), strategy: VolumeStrategy::Isolated }];
    assert!(shared_volume_warnings(&volumes).is_empty());
}

#[test]
fn manifest_settings() {
    assert_eq!(latest_link_name(None), "latest");
    assert_eq!(latest_link_name(Some("dev")), "latest-dev");
    assert_eq!(primary_port_service(Some("web"), &vec![]), Some("web".to_string()));
    assert_eq!(primary_port_service(None, &vec!["api".to_string()]), Some("api".to_string()));
    assert_eq!(primary_port_service(None, &vec!["a".to_string(), "b".to_string()]), None);
    assert_eq!(primary_port_setting_key("proj", "b1"), "primary_port:proj:b1");
}
