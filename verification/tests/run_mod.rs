use coast_daemon::lifecycle::{expected_container_name, shell_container_name};
use coast_daemon::ports::{dynamic_port_env_name, merge_dynamic_port_env_vars, port_mappings_from_pre_allocated_ports};

fn get<'a>(env: &'a [(String, String)], key: &str) -> Option<&'a String> {
    env.iter().find(|(k, _)| k == key).map(|(_, v)| v)
}

#[test]
fn test_port_mappings_from_pre_allocated_ports() {
    let pre_allocated = vec![("web".to_string(), 3000, 52340), ("backend-test".to_string(), 8080, 52341)];
    let mappings = port_mappings_from_pre_allocated_ports(&pre_allocated);
    assert_eq!(mappings.len(), 2);
    assert_eq!(mappings[0].logical_name, "web");
    assert_eq!(mappings[0].canonical_port, 3000);
    assert_eq!(mappings[0].dynamic_port, 52340);
    assert_eq!(mappings[1].logical_name, "backend-test");
    assert_eq!(mappings[1].canonical_port, 8080);
    assert_eq!(mappings[1].dynamic_port, 52341);
}

#[test]
fn test_merge_dynamic_port_env_vars_inserts_vars() {
    let pre_allocated = vec![("web".to_string(), 3000, 52340), ("backend-test".to_string(), 8080, 52341)];
    let mut env: Vec<(String, String)> = Vec::new();
    merge_dynamic_port_env_vars(&mut env, &pre_allocated);
    assert_eq!(get(&env, "WEB_DYNAMIC_PORT"), Some(&"52340".to_string()));
    assert_eq!(get(&env, "BACKEND_TEST_DYNAMIC_PORT"), Some(&"52341".to_string()));
}

#[test]
fn test_merge_dynamic_port_env_vars_preserves_existing_key() {
    let pre_allocated = vec![("web".to_string(), 3000, 52340)];
    let mut env = vec![("WEB_DYNAMIC_PORT".to_string(), "9999".to_string())];
    merge_dynamic_port_env_vars(&mut env, &pre_allocated);
    assert_eq!(get(&env, "WEB_DYNAMIC_PORT"), Some(&"9999".to_string()));
}

#[test]
fn test_expected_container_name_for_dangling_check() {
    let project = "my-app";
    let name = "dev-1";
    let expected = expected_container_name(project, name);
    assert_eq!(expected, "my-app-coasts-dev-1");
    assert_eq!(shell_container_name(project, name), "my-app-coasts-dev-1-shell");
}

#[test]
fn env_names_and_merge_order() {
    assert_eq!(dynamic_port_env_name("api-v2"), "API_V2_DYNAMIC_PORT");
    assert_eq!(dynamic_port_env_name("Mixed_Case"), "MIXED_CASE_DYNAMIC_PORT");
    let pre = vec![("a".to_string(), 1, 100), ("A".to_string(), 2, 200), ("b".to_string(), 3, 300)];
    let mut env = vec![("KEEP".to_string(), "1".to_string())];
    merge_dynamic_port_env_vars(&mut env, &pre);
    assert_eq!(
        env,
        vec![
            ("KEEP".to_string(), "1".to_string()),
            ("A_DYNAMIC_PORT".to_string(), "100".to_string()),
            ("B_DYNAMIC_PORT".to_string(), "300".to_string()),
        ]
    );
}
