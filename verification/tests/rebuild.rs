use coast_daemon::compose::{build_compose_command, compose_step_failed, parse_rebuilt_services};
use coast_daemon::status::{validate_rebuild_target, CoastError, InstanceRecord, InstanceStatus};

fn sample_instance(name: &str, project: &str, status: InstanceStatus) -> InstanceRecord {
    InstanceRecord {
        name: name.to_string(),
        project: project.to_string(),
        status,
        container_id: Some(format!("{project}-coasts-{name}")),
        build_id: None,
        remote_host: None,
    }
}

#[test]
fn test_build_compose_command_no_artifact() {
    let cmd = build_compose_command(&["build"], false, false);
    assert_eq!(cmd, vec!["docker", "compose", "build"]);
}

#[test]
fn test_build_compose_command_artifact_only() {
    let cmd = build_compose_command(&["build"], true, false);
    assert_eq!(
        cmd,
        vec![
            "docker",
            "compose",
            "-f",
            "/coast-artifact/compose.yml",
            "--project-directory",
            "/workspace",
            "build",
        ]
    );
}

#[test]
fn test_build_compose_command_artifact_and_override() {
    let cmd = build_compose_command(&["up", "-d"], true, true);
    assert_eq!(
        cmd,
        vec![
            "docker",
            "compose",
            "-f",
            "/coast-artifact/compose.yml",
            "-f",
            "/workspace/docker-compose.override.yml",
            "--project-directory",
            "/workspace",
            "up",
            "-d",
        ]
    );
}

#[test]
fn test_parse_rebuilt_services_with_names() {
    let output = "Building web\nBuilding worker\n";
    let services = parse_rebuilt_services(output);
    assert_eq!(services, vec!["web", "worker"]);
}

#[test]
fn test_parse_rebuilt_services_empty_output() {
    let services = parse_rebuilt_services("");
    assert_eq!(services, vec!["(all services)"]);
}

#[test]
fn test_parse_rebuilt_services_no_building_prefix() {
    let output = "Step 1/5: FROM node:18\nStep 2/5: COPY . .\n";
    let services = parse_rebuilt_services(output);
    assert_eq!(services, vec!["(all services)"]);
}

#[test]
fn rebuilt_services_are_trimmed_and_override_ignored_without_artifact() {
    assert_eq!(parse_rebuilt_services("  Building   api  \r\nother\n"), vec!["api"]);
    assert_eq!(build_compose_command(&["build"], false, true), vec!["docker", "compose", "build"]);
}

#[test]
fn rebuild_target_errors() {
    let missing = validate_rebuild_target(None, "proj", "nonexistent");
    let err = missing.unwrap_err().message();
    assert!(err.contains("not found") || err.contains("nonexistent"));

    let stopped = sample_instance("dev-1", "proj", InstanceStatus::Stopped);
    let err = validate_rebuild_target(Some(&stopped), "proj", "dev-1").unwrap_err().message();
    assert!(err.contains("cannot be rebuilt"));

    let idle = sample_instance("dev-1", "proj", InstanceStatus::Idle);
    let err = validate_rebuild_target(Some(&idle), "proj", "dev-1").unwrap_err().message();
    assert!(err.contains("cannot be rebuilt"));

    let mut no_container = sample_instance("dev-1", "proj", InstanceStatus::Running);
    no_container.container_id = None;
    let err = validate_rebuild_target(Some(&no_container), "proj", "dev-1").unwrap_err().message();
    assert!(err.contains("no container ID"));

    let running = sample_instance("dev-1", "proj", InstanceStatus::Running);
    assert_eq!(validate_rebuild_target(Some(&running), "proj", "dev-1").unwrap(), "proj-coasts-dev-1");
}

#[test]
fn compose_step_failure_message_trims_stderr() {
    let e = compose_step_failed("docker compose build", "dev-1", "  boom\n");
    assert!(matches!(e, CoastError::Docker(_)));
    assert_eq!(e.message(), "docker compose build failed inside instance 'dev-1': boom");
}
