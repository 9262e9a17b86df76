use coast_daemon::builds::{
    arch_latest_link_name, check_arch_compatibility, latest_build_for_arch, primary_port_link_names,
};
use coast_daemon::compose::{artifact_compose_project_dir, restart_compose_base_args};
use coast_daemon::status::{
    validate_exec_target, validate_restart_target, CoastError, InstanceRecord, InstanceStatus,
    RestartTarget,
};

fn instance(status: InstanceStatus, container_id: Option<&str>, remote: Option<&str>) -> InstanceRecord {
    InstanceRecord {
        name: "dev-1".to_string(),
        project: "my-app".to_string(),
        status,
        container_id: container_id.map(String::from),
        build_id: Some("b1".to_string()),
        remote_host: remote.map(String::from),
    }
}

fn state_message(r: Result<impl std::fmt::Debug, CoastError>) -> String {
    match r {
        Err(CoastError::State(m)) => m,
        other => panic!("expected a state error, got {other:?}"),
    }
}

#[test]
fn restart_of_missing_instance_is_not_found() {
    let r = validate_restart_target(None, "my-app", "dev-1");
    assert!(matches!(r, Err(CoastError::InstanceNotFound { ref name, ref project })
        if name == "dev-1" && project == "my-app"));
}

#[test]
fn restart_of_stopped_or_idle_instance_is_refused() {
    let stopped = instance(InstanceStatus::Stopped, Some("c1"), None);
    let m = state_message(validate_restart_target(Some(&stopped), "my-app", "dev-1"));
    assert_eq!(
        m,
        "Instance 'dev-1' is in 'stopped' state and cannot have services restarted. Only Running or CheckedOut instances are supported. Run `coast start dev-1` first."
    );
    let idle = instance(InstanceStatus::Idle, Some("c1"), None);
    let m = state_message(validate_restart_target(Some(&idle), "my-app", "dev-1"));
    assert!(m.contains("'idle' state"));
}

#[test]
fn restart_without_container_and_on_remote() {
    let running = instance(InstanceStatus::Running, None, None);
    let m = state_message(validate_restart_target(Some(&running), "my-app", "dev-1"));
    assert_eq!(
        m,
        "Instance 'dev-1' has no container ID. This should not happen for a Running instance. Try `coast rm dev-1 && coast run dev-1`."
    );
    let remote = instance(InstanceStatus::Stopped, None, Some("box"));
    assert!(matches!(validate_restart_target(Some(&remote), "my-app", "dev-1"), Ok(RestartTarget::Remote)));
    let ok = instance(InstanceStatus::CheckedOut, Some("c9"), None);
    match validate_restart_target(Some(&ok), "my-app", "dev-1") {
        Ok(RestartTarget::Local { container_id, build_id }) => {
            assert_eq!(container_id, "c9");
            assert_eq!(build_id.as_deref(), Some("b1"));
        }
        other => panic!("unexpected {other:?}"),
    }
}

#[test]
fn exec_checks_follow_the_status() {
    assert!(matches!(validate_exec_target(None, "my-app", "dev-1"), Err(CoastError::InstanceNotFound { .. })));
    let stopped = instance(InstanceStatus::Stopped, Some("c1"), None);
    assert_eq!(
        state_message(validate_exec_target(Some(&stopped), "my-app", "dev-1")),
        "Instance 'dev-1' is stopped. Run `coast start dev-1` before executing commands."
    );
    let provisioning = instance(InstanceStatus::Provisioning, Some("c1"), None);
    assert_eq!(
        state_message(validate_exec_target(Some(&provisioning), "my-app", "dev-1")),
        "Instance 'dev-1' is still being provisioned. Wait for the operation to complete."
    );
    let assigning = instance(InstanceStatus::Assigning, Some("c1"), None);
    assert!(state_message(validate_exec_target(Some(&assigning), "my-app", "dev-1")).contains("being assigned"));
    let no_container = instance(InstanceStatus::Running, None, None);
    assert_eq!(
        state_message(validate_exec_target(Some(&no_container), "my-app", "dev-1")),
        "Instance 'dev-1' has no container ID. This may indicate a corrupt state. Try `coast rm dev-1` and `coast run` again."
    );
    let idle = instance(InstanceStatus::Idle, Some("c2"), None);
    let (cid, build) = validate_exec_target(Some(&idle), "my-app", "dev-1").unwrap();
    assert_eq!(cid, "c2");
    assert_eq!(build.as_deref(), Some("b1"));
}

#[test]
fn restart_base_args_prefer_the_listed_project() {
    let args = restart_compose_base_args(Some("  inner-proj \nother\n"), "coast-my-app", true, true, Some("app"));
    assert_eq!(
        args,
        vec![
            "docker", "compose", "-p", "inner-proj", "-f",
            "/coast-override/docker-compose.coast.yml", "--project-directory", "/workspace/app",
        ]
    );
    let args = restart_compose_base_args(Some("\n"), "coast-my-app", false, true, None);
    assert_eq!(
        args,
        vec![
            "docker", "compose", "-p", "coast-my-app", "-f", "/coast-artifact/compose.yml",
            "--project-directory", "/workspace",
        ]
    );
    let args = restart_compose_base_args(None, "coast-my-app", false, false, None);
    assert_eq!(args, vec!["docker", "compose", "-p", "coast-my-app"]);
}

fn manifest(arch: &str, ty: Option<&str>, ts: &str) -> String {
    match ty {
        Some(t) => format!(r#"{{"arch":"{arch}","coastfile_type":"{t}","build_timestamp":"{ts}"}}"#),
        None => format!(r#"{{"arch":"{arch}","build_timestamp":"{ts}"}}"#),
    }
}

#[test]
fn newest_build_for_an_architecture() {
    let builds = vec![
        ("b1".to_string(), manifest("aarch64", Some("remote"), "2024-01-01T00:00:00Z")),
        ("b2".to_string(), manifest("aarch64", Some("remote"), "2024-03-01T00:00:00Z")),
        ("b3".to_string(), manifest("x86_64", Some("remote"), "2024-05-01T00:00:00Z")),
        ("b4".to_string(), manifest("aarch64", None, "2024-06-01T00:00:00Z")),
        ("latest-remote".to_string(), manifest("aarch64", Some("remote"), "2025-01-01T00:00:00Z")),
        ("broken".to_string(), "not json".to_string()),
        ("b5".to_string(), manifest("aarch64", Some("remote"), "2024-03-01T00:00:00Z")),
    ];
    assert_eq!(latest_build_for_arch(&builds, "remote", "aarch64"), Some("b2".to_string()));
    assert_eq!(latest_build_for_arch(&builds, "default", "aarch64"), Some("b4".to_string()));
    assert_eq!(latest_build_for_arch(&builds, "remote", "riscv64"), None);
    let no_arch = vec![("b9".to_string(), r#"{"coastfile_type":"remote"}"#.to_string())];
    assert_eq!(latest_build_for_arch(&no_arch, "remote", "unknown"), Some("b9".to_string()));
}

#[test]
fn arch_compatibility_decisions() {
    assert_eq!(arch_latest_link_name(Some("gpu")), "latest-gpu");
    assert_eq!(arch_latest_link_name(Some("default")), "latest-remote");
    assert_eq!(arch_latest_link_name(None), "latest-remote");
    assert!(check_arch_compatibility(None, None, None, "box").is_ok());
    assert!(check_arch_compatibility(Some("aarch64"), Some("aarch64"), None, "box").is_ok());
    assert!(check_arch_compatibility(Some("aarch64"), Some("x86_64"), Some("b2"), "box").is_ok());
    let m = state_message(check_arch_compatibility(Some("aarch64"), Some("x86_64"), None, "box"));
    assert_eq!(
        m,
        "No build found for architecture 'aarch64'. Run `coast build --type remote --remote box` to build for this architecture."
    );
}

#[test]
fn primary_port_links_in_search_order() {
    assert_eq!(primary_port_link_names(Some("gpu")), vec!["latest-gpu", "latest-remote", "latest"]);
    assert_eq!(primary_port_link_names(Some("default")), vec!["latest-remote", "latest"]);
    assert_eq!(primary_port_link_names(None), vec!["latest-remote", "latest"]);
}

#[test]
fn recorded_compose_project_dir() {
    assert_eq!(artifact_compose_project_dir(&vec![Some("./app/docker-compose.yml".to_string())]), "/workspace/app");
    assert_eq!(
        artifact_compose_project_dir(&vec![Some("docker-compose.yml".to_string()), Some("svc/compose.yml".to_string())]),
        "/workspace/svc"
    );
    assert_eq!(artifact_compose_project_dir(&vec![None, Some("./compose.yml".to_string())]), "/workspace");
    assert_eq!(artifact_compose_project_dir(&vec![]), "/workspace");
}
