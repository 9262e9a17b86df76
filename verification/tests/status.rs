use coast_daemon::status::{
    has_running_shared_service_record, validate_ps_ready, validate_startable, validate_stoppable,
    validate_unassignable, InstanceRecord, InstanceStatus, PsValidation,
};

fn make_instance(name: &str, status: InstanceStatus, container_id: Option<&str>) -> InstanceRecord {
    InstanceRecord {
        name: name.to_string(),
        project: "my-app".to_string(),
        status,
        container_id: container_id.map(String::from),
        build_id: None,
        remote_host: None,
    }
}

#[test]
fn test_validate_startable_stopped_ok() {
    assert!(validate_startable(&InstanceStatus::Stopped, "inst").is_ok());
}

#[test]
fn test_validate_startable_idle_ok() {
    assert!(validate_startable(&InstanceStatus::Idle, "inst").is_ok());
}

#[test]
fn test_validate_startable_enqueued_ok() {
    assert!(validate_startable(&InstanceStatus::Enqueued, "inst").is_ok());
}

#[test]
fn test_validate_startable_unassigning_ok() {
    assert!(validate_startable(&InstanceStatus::Unassigning, "inst").is_ok());
}

#[test]
fn test_validate_startable_running_errors() {
    let err = validate_startable(&InstanceStatus::Running, "inst").unwrap_err().message();
    assert!(err.contains("already running"));
}

#[test]
fn test_validate_startable_checked_out_errors() {
    let err = validate_startable(&InstanceStatus::CheckedOut, "inst").unwrap_err().message();
    assert!(err.contains("already running"));
}

#[test]
fn test_validate_startable_provisioning_errors() {
    let err = validate_startable(&InstanceStatus::Provisioning, "inst").unwrap_err().message();
    assert!(err.contains("currently"));
}

#[test]
fn test_validate_startable_assigning_errors() {
    let err = validate_startable(&InstanceStatus::Assigning, "inst").unwrap_err().message();
    assert!(err.contains("currently"));
}

#[test]
fn test_validate_startable_starting_errors() {
    let err = validate_startable(&InstanceStatus::Starting, "inst").unwrap_err().message();
    assert!(err.contains("currently"));
}

#[test]
fn test_validate_startable_stopping_errors() {
    let err = validate_startable(&InstanceStatus::Stopping, "inst").unwrap_err().message();
    assert!(err.contains("currently"));
}

#[test]
fn test_validate_stoppable_running_ok() {
    assert!(validate_stoppable(&InstanceStatus::Running, "inst").is_ok());
}

#[test]
fn test_validate_stoppable_checked_out_ok() {
    assert!(validate_stoppable(&InstanceStatus::CheckedOut, "inst").is_ok());
}

#[test]
fn test_validate_stoppable_idle_ok() {
    assert!(validate_stoppable(&InstanceStatus::Idle, "inst").is_ok());
}

#[test]
fn test_validate_stoppable_stopped_errors() {
    let err = validate_stoppable(&InstanceStatus::Stopped, "inst").unwrap_err().message();
    assert!(err.contains("already stopped"));
}

#[test]
fn test_validate_stoppable_provisioning_errors() {
    let err = validate_stoppable(&InstanceStatus::Provisioning, "inst").unwrap_err().message();
    assert!(err.contains("currently"));
}

#[test]
fn test_validate_stoppable_assigning_errors() {
    let err = validate_stoppable(&InstanceStatus::Assigning, "inst").unwrap_err().message();
    assert!(err.contains("currently"));
}

#[test]
fn test_validate_stoppable_starting_errors() {
    let err = validate_stoppable(&InstanceStatus::Starting, "inst").unwrap_err().message();
    assert!(err.contains("currently"));
}

#[test]
fn test_validate_stoppable_stopping_errors() {
    let err = validate_stoppable(&InstanceStatus::Stopping, "inst").unwrap_err().message();
    assert!(err.contains("currently"));
}

#[test]
fn test_validate_unassignable_running_ok() {
    assert!(validate_unassignable(&InstanceStatus::Running, "inst").is_ok());
}

#[test]
fn test_validate_unassignable_checked_out_ok() {
    assert!(validate_unassignable(&InstanceStatus::CheckedOut, "inst").is_ok());
}

#[test]
fn test_validate_unassignable_idle_ok() {
    assert!(validate_unassignable(&InstanceStatus::Idle, "inst").is_ok());
}

#[test]
fn test_validate_unassignable_assigning_ok() {
    assert!(validate_unassignable(&InstanceStatus::Assigning, "inst").is_ok());
}

#[test]
fn test_validate_unassignable_unassigning_ok() {
    assert!(validate_unassignable(&InstanceStatus::Unassigning, "inst").is_ok());
}

#[test]
fn test_validate_unassignable_stopped_errors() {
    let err = validate_unassignable(&InstanceStatus::Stopped, "inst").unwrap_err().message();
    assert!(err.contains("stopped"), "error should mention 'stopped': {err}");
}

#[test]
fn test_validate_unassignable_provisioning_errors() {
    let err = validate_unassignable(&InstanceStatus::Provisioning, "inst").unwrap_err().message();
    assert!(err.contains("currently"), "error should mention 'currently': {err}");
}

#[test]
fn test_validate_unassignable_starting_errors() {
    let err = validate_unassignable(&InstanceStatus::Starting, "inst").unwrap_err().message();
    assert!(err.contains("currently"), "error should mention 'currently': {err}");
}

#[test]
fn test_validate_unassignable_stopping_errors() {
    let err = validate_unassignable(&InstanceStatus::Stopping, "inst").unwrap_err().message();
    assert!(err.contains("currently"), "error should mention 'currently': {err}");
}

#[test]
fn test_validate_unassignable_enqueued_errors() {
    let err = validate_unassignable(&InstanceStatus::Enqueued, "inst").unwrap_err().message();
    assert!(err.contains("currently"), "error should mention 'currently': {err}");
}

#[test]
fn test_validate_ps_ready_running_with_container_id() {
    let instance = make_instance("feat-a", InstanceStatus::Running, Some("cid-123"));
    let result = validate_ps_ready(&instance).unwrap();
    assert!(matches!(result, PsValidation::Ready { ref container_id, .. } if container_id == "cid-123"));
}

#[test]
fn test_validate_ps_ready_stopped() {
    let instance = make_instance("feat-a", InstanceStatus::Stopped, Some("cid"));
    let result = validate_ps_ready(&instance);
    assert!(result.is_err());
    assert!(result.unwrap_err().message().contains("stopped"));
}

#[test]
fn test_validate_ps_ready_provisioning() {
    let instance = make_instance("feat-a", InstanceStatus::Provisioning, Some("cid"));
    let result = validate_ps_ready(&instance);
    assert!(result.is_err());
    assert!(result.unwrap_err().message().contains("provisioned"));
}

#[test]
fn test_validate_ps_ready_idle() {
    let instance = make_instance("feat-a", InstanceStatus::Idle, None);
    let result = validate_ps_ready(&instance).unwrap();
    assert!(matches!(result, PsValidation::Idle));
}

#[test]
fn test_validate_ps_ready_no_container_id() {
    let instance = make_instance("feat-a", InstanceStatus::Running, None);
    let result = validate_ps_ready(&instance);
    assert!(result.is_err());
    assert!(result.unwrap_err().message().contains("no container ID"));
}

#[test]
fn test_has_running_shared_service_record_only_for_running_status() {
    assert!(has_running_shared_service_record(Some("running")));
    assert!(!has_running_shared_service_record(Some("stopped")));
    assert!(!has_running_shared_service_record(None));
}

#[test]
fn start_and_stop_accept_complementary_resting_states() {
    for status in [InstanceStatus::Stopped, InstanceStatus::Running, InstanceStatus::Idle, InstanceStatus::CheckedOut] {
        let can_start = validate_startable(&status, "x").is_ok();
        let can_stop = validate_stoppable(&status, "x").is_ok();
        assert!(can_start != can_stop || status == InstanceStatus::Idle, "{status:?}");
    }
    for status in [InstanceStatus::Provisioning, InstanceStatus::Starting, InstanceStatus::Stopping, InstanceStatus::Assigning] {
        assert!(validate_startable(&status, "x").is_err());
        assert!(validate_stoppable(&status, "x").is_err());
    }
    assert_eq!(InstanceStatus::CheckedOut.as_str(), "checked_out");
}
