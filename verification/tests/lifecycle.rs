use coast_daemon::lifecycle::{
    inner_daemon_failed, plan_assign, plan_rm, plan_stop, start_container_failed,
    status_after_assign, status_after_remote_assign, status_for_step, stop_without_record,
    AssignPlan, RmPlan, StatusOp, StepsEvent, StopPlan,
};
use coast_daemon::status::{CoastError, InstanceRecord, InstanceStatus};

fn inst(status: InstanceStatus, container: Option<&str>, remote: Option<&str>) -> InstanceRecord {
    InstanceRecord {
        name: "dev-1".to_string(),
        project: "proj".to_string(),
        status,
        container_id: container.map(String::from),
        build_id: None,
        remote_host: remote.map(String::from),
    }
}

#[test]
fn stop_plans() {
    assert_eq!(plan_stop(None).unwrap(), StopPlan::CheckDangling);
    assert_eq!(plan_stop(Some(&inst(InstanceStatus::Enqueued, None, None))).unwrap(), StopPlan::RemoveEnqueued);
    assert_eq!(
        plan_stop(Some(&inst(InstanceStatus::CheckedOut, Some("c"), None))).unwrap(),
        StopPlan::Proceed { clear_checked_out: true, remote: false }
    );
    assert_eq!(
        plan_stop(Some(&inst(InstanceStatus::Running, None, Some("host")))).unwrap(),
        StopPlan::Proceed { clear_checked_out: false, remote: true }
    );
    let err = plan_stop(Some(&inst(InstanceStatus::Stopped, None, None))).unwrap_err().message();
    assert!(err.contains("already stopped"));
    assert!(stop_without_record(true, "x", "p").is_ok());
    assert!(matches!(stop_without_record(false, "x", "p"), Err(CoastError::InstanceNotFound { .. })));
}

#[test]
fn assign_plans() {
    assert!(matches!(plan_assign(None, "proj", "dev-1"), Err(CoastError::InstanceNotFound { .. })));
    let err = plan_assign(Some(&inst(InstanceStatus::Stopped, Some("c"), None)), "proj", "dev-1").unwrap_err().message();
    assert_eq!(
        err,
        "Instance 'dev-1' is in 'stopped' state and cannot be assigned a worktree. Only Running or Idle instances can be assigned. Run `coast start dev-1` to start it first."
    );
    assert!(matches!(plan_assign(Some(&inst(InstanceStatus::Idle, None, Some("h"))), "proj", "dev-1"), Ok(AssignPlan::Remote)));
    let err = plan_assign(Some(&inst(InstanceStatus::Running, None, None)), "proj", "dev-1").unwrap_err().message();
    assert!(err.contains("has no container ID"));
    match plan_assign(Some(&inst(InstanceStatus::Running, Some("cid"), None)), "proj", "dev-1").unwrap() {
        AssignPlan::Local { container_id } => assert_eq!(container_id, "cid"),
        AssignPlan::Remote => panic!("expected a local assign"),
    }
    assert_eq!(status_after_assign(InstanceStatus::Idle), InstanceStatus::Running);
    assert_eq!(status_after_assign(InstanceStatus::Running), InstanceStatus::Running);
    assert_eq!(status_after_remote_assign(InstanceStatus::Assigning), InstanceStatus::Running);
    assert_eq!(status_after_remote_assign(InstanceStatus::Idle), InstanceStatus::Idle);
}

#[test]
fn start_errors() {
    assert_eq!(
        start_container_failed("dev-1", "boom").message(),
        "Failed to start container for instance 'dev-1': boom. Try `coast rm dev-1` and `coast run` again."
    );
    assert_eq!(
        inner_daemon_failed("dev-1", "timeout").message(),
        "Inner Docker daemon in instance 'dev-1' failed to start: timeout. Try `coast rm dev-1` and `coast run` again."
    );
}

#[test]
fn rm_plans() {
    assert_eq!(plan_rm(None), RmPlan::CheckDangling);
    assert_eq!(plan_rm(Some(&inst(InstanceStatus::Enqueued, None, None))), RmPlan::RemoveEnqueued);
    assert_eq!(
        plan_rm(Some(&inst(InstanceStatus::Running, Some("c"), None))),
        RmPlan::TearDown { mark_stopping: true, clear_checked_out: false }
    );
    assert_eq!(
        plan_rm(Some(&inst(InstanceStatus::CheckedOut, Some("c"), None))),
        RmPlan::TearDown { mark_stopping: true, clear_checked_out: true }
    );
    assert_eq!(
        plan_rm(Some(&inst(InstanceStatus::Provisioning, None, None))),
        RmPlan::TearDown { mark_stopping: false, clear_checked_out: false }
    );
}

#[test]
fn checked_out_instance_is_assigned_and_keeps_its_status() {
    match plan_assign(Some(&inst(InstanceStatus::CheckedOut, Some("c7"), None)), "proj", "dev-1") {
        Ok(AssignPlan::Local { container_id }) => assert_eq!(container_id, "c7"),
        other => panic!("unexpected {other:?}"),
    }
    assert_eq!(status_after_assign(InstanceStatus::CheckedOut), InstanceStatus::CheckedOut);
    assert!(plan_assign(Some(&inst(InstanceStatus::Assigning, Some("c"), None)), "proj", "dev-1").is_ok());
    assert!(plan_assign(Some(&inst(InstanceStatus::Unassigning, Some("c"), None)), "proj", "dev-1").is_ok());
    assert!(plan_assign(Some(&inst(InstanceStatus::Starting, Some("c"), None)), "proj", "dev-1").is_err());
}

#[test]
fn status_steps_of_assign_unassign_and_start() {
    let assign = StatusOp::Assign(InstanceStatus::Assigning);
    assert_eq!(status_for_step(assign, InstanceStatus::Idle, StepsEvent::Begin), InstanceStatus::Assigning);
    assert_eq!(status_for_step(assign, InstanceStatus::Idle, StepsEvent::Failed), InstanceStatus::Idle);
    assert_eq!(status_for_step(assign, InstanceStatus::Idle, StepsEvent::Succeeded), InstanceStatus::Running);
    assert_eq!(status_for_step(assign, InstanceStatus::CheckedOut, StepsEvent::Succeeded), InstanceStatus::CheckedOut);
    assert_eq!(status_for_step(StatusOp::Unassign, InstanceStatus::Running, StepsEvent::Begin), InstanceStatus::Unassigning);
    assert_eq!(status_for_step(StatusOp::Unassign, InstanceStatus::Running, StepsEvent::Failed), InstanceStatus::Running);
    assert_eq!(status_for_step(StatusOp::Start, InstanceStatus::Stopped, StepsEvent::Begin), InstanceStatus::Starting);
    assert_eq!(status_for_step(StatusOp::Start, InstanceStatus::Stopped, StepsEvent::Failed), InstanceStatus::Stopped);
    assert_eq!(status_for_step(StatusOp::Start, InstanceStatus::Stopped, StepsEvent::Succeeded), InstanceStatus::Running);
}
