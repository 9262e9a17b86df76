//! The first, decision-making phase of the lifecycle handlers (stop,
//! assign, start): from the instance record to what the handler does next,
//! and the status an instance ends in.
use vstd::prelude::*;

use crate::status::{
    already_stopped_message, busy_message, enqueued_message, status_name, stoppable,
    unassignable, validate_stoppable, CoastError, InstanceRecord, InstanceStatus,
};
use crate::text::push_str;

verus! {

/// The name of an instance's coast container: `{project}-coasts-{name}`.
pub open spec fn container_name_of(project: Seq<char>, name: Seq<char>) -> Seq<char> {
    project + "-coasts-"@ + name
}

/// The coast container of an instance.
pub fn expected_container_name(project: &str, name: &str) -> (r: String)
    ensures
        r@ == container_name_of(project@, name@),
{
    let mut r = String::new();
    push_str(&mut r, project);
    push_str(&mut r, "-coasts-");
    push_str(&mut r, name);
    r
}

/// The shell container of a remote instance: `{project}-coasts-{name}-shell`.
pub fn shell_container_name(project: &str, name: &str) -> (r: String)
    ensures
        r@ == container_name_of(project@, name@) + "-shell"@,
{
    let mut r = expected_container_name(project, name);
    push_str(&mut r, "-shell");
    r
}

// ---------------------------------------------------------------------------
// stop
// ---------------------------------------------------------------------------

/// What `coast stop` does after reading the instance record.
#[derive(Clone, Copy, PartialEq, Eq, Debug, Structural)]
pub enum StopPlan {
    /// No record: look for a dangling container of that name.
    CheckDangling,
    /// A queued instance never started: its record is deleted.
    RemoveEnqueued,
    /// The instance is stopped: it goes to `stopping`, leaving the checkout
    /// first when it is checked out, and a remote instance is stopped on
    /// its host.
    Proceed { clear_checked_out: bool, remote: bool },
}

/// Decides how a stop proceeds from the instance record, or refuses it.
pub fn plan_stop(instance: Option<&InstanceRecord>) -> (r: Result<StopPlan, CoastError>)
    ensures
        match instance {
            None => r == Ok::<StopPlan, CoastError>(StopPlan::CheckDangling),
            Some(i) => if i.status == InstanceStatus::Enqueued {
                r == Ok::<StopPlan, CoastError>(StopPlan::RemoveEnqueued)
            } else if stoppable(i.status) {
                r == Ok::<StopPlan, CoastError>(
                    StopPlan::Proceed {
                        clear_checked_out: i.status == InstanceStatus::CheckedOut,
                        remote: i.remote_host is Some,
                    },
                )
            } else if i.status == InstanceStatus::Stopped {
                r matches Err(CoastError::State(m)) && m@ == already_stopped_message(i.name@)
            } else {
                r matches Err(CoastError::State(m)) && m@ == busy_message(i.name@, i.status)
            },
        },
{
    match instance {
        None => Ok(StopPlan::CheckDangling),
        Some(inst) => {
            if inst.status == InstanceStatus::Enqueued {
                return Ok(StopPlan::RemoveEnqueued);
            }
            match validate_stoppable(&inst.status, inst.name.as_str()) {
                Err(e) => Err(e),
                Ok(()) => Ok(
                    StopPlan::Proceed {
                        clear_checked_out: inst.status == InstanceStatus::CheckedOut,
                        remote: inst.remote_host.is_some(),
                    },
                ),
            }
        },
    }
}

/// The outcome of a stop without a record: a dangling container makes it a
/// no-op; without one the instance is not found.
pub fn stop_without_record(dangling_container_exists: bool, name: &str, project: &str) -> (r: Result<
    (),
    CoastError,
>)
    ensures
        dangling_container_exists ==> r is Ok,
        !dangling_container_exists ==> (r matches Err(CoastError::InstanceNotFound { name: n, project: p })
            && n@ == name@ && p@ == project@),
{
    if dangling_container_exists {
        Ok(())
    } else {
        Err(
            CoastError::InstanceNotFound {
                name: crate::text::owned(name),
                project: crate::text::owned(project),
            },
        )
    }
}

// ---------------------------------------------------------------------------
// rm
// ---------------------------------------------------------------------------

/// What `coast rm` does after reading the instance record.
#[derive(Clone, Copy, PartialEq, Eq, Debug, Structural)]
pub enum RmPlan {
    /// No record: look for a dangling container of that name.
    CheckDangling,
    /// A queued instance never started: its ports and record are deleted.
    RemoveEnqueued,
    /// The instance is torn down; a running or checked-out one first goes
    /// to `stopping`, leaving the checkout when it is checked out.
    TearDown { mark_stopping: bool, clear_checked_out: bool },
}

/// Decides how a removal proceeds from the instance record. Removal is
/// never refused for the instance's status.
pub fn plan_rm(instance: Option<&InstanceRecord>) -> (r: RmPlan)
    ensures
        match instance {
            None => r == RmPlan::CheckDangling,
            Some(i) => if i.status == InstanceStatus::Enqueued {
                r == RmPlan::RemoveEnqueued
            } else {
                r == (RmPlan::TearDown {
                    mark_stopping: i.status == InstanceStatus::Running || i.status
                        == InstanceStatus::CheckedOut,
                    clear_checked_out: i.status == InstanceStatus::CheckedOut,
                })
            },
        },
{
    match instance {
        None => RmPlan::CheckDangling,
        Some(inst) => {
            if inst.status == InstanceStatus::Enqueued {
                RmPlan::RemoveEnqueued
            } else {
                RmPlan::TearDown {
                    mark_stopping: inst.status == InstanceStatus::Running || inst.status
                        == InstanceStatus::CheckedOut,
                    clear_checked_out: inst.status == InstanceStatus::CheckedOut,
                }
            }
        },
    }
}

// ---------------------------------------------------------------------------
// assign
// ---------------------------------------------------------------------------

/// The statuses in which an instance can be assigned a worktree: running,
/// checked out, idle, or in the middle of an assign or unassign (the same
/// statuses an unassign accepts).
pub open spec fn assignable(s: InstanceStatus) -> bool {
    unassignable(s)
}

/// The message of an assign refused for the instance's status.
pub open spec fn not_assignable_message(name: Seq<char>, s: InstanceStatus) -> Seq<char> {
    "Instance '"@ + name + "' is in '"@ + status_name(s)
        + "' state and cannot be assigned a worktree. Only Running or Idle instances can be assigned. Run `coast start "@
        + name + "` to start it first."@
}

/// The message of an assign to an instance without a container.
pub open spec fn assign_no_container_message(name: Seq<char>) -> Seq<char> {
    "Instance '"@ + name
        + "' has no container ID. This should not happen for a Running/Idle instance. Try `coast rm "@
        + name + " && coast run "@ + name + "`."@
}

/// How an assign proceeds.
#[derive(Debug)]
pub enum AssignPlan {
    /// The instance runs on a remote host: sync and forward.
    Remote,
    /// The instance runs here, in this container.
    Local { container_id: String },
}

/// Decides how an assign proceeds from the instance record, or refuses it.
pub fn plan_assign(instance: Option<&InstanceRecord>, project: &str, name: &str) -> (r: Result<
    AssignPlan,
    CoastError,
>)
    ensures
        match instance {
            None => r matches Err(CoastError::InstanceNotFound { name: n, project: p }) && n@
                == name@ && p@ == project@,
            Some(i) => if !assignable(i.status) {
                r matches Err(CoastError::State(m)) && m@ == not_assignable_message(name@, i.status)
            } else if i.remote_host is Some {
                r matches Ok(AssignPlan::Remote)
            } else {
                match i.container_id {
                    None => r matches Err(CoastError::State(m)) && m@ == assign_no_container_message(
                        name@,
                    ),
                    Some(c) => r matches Ok(AssignPlan::Local { container_id }) && container_id@
                        == c@,
                }
            },
        },
{
    match instance {
        None => Err(
            CoastError::InstanceNotFound {
                name: crate::text::owned(name),
                project: crate::text::owned(project),
            },
        ),
        Some(inst) => {
            if !(inst.status == InstanceStatus::Running || inst.status == InstanceStatus::CheckedOut
                || inst.status == InstanceStatus::Idle || inst.status == InstanceStatus::Assigning
                || inst.status == InstanceStatus::Unassigning) {
                let mut m = String::new();
                push_str(&mut m, "Instance '");
                push_str(&mut m, name);
                push_str(&mut m, "' is in '");
                push_str(&mut m, inst.status.as_str());
                push_str(
                    &mut m,
                    "' state and cannot be assigned a worktree. Only Running or Idle instances can be assigned. Run `coast start ",
                );
                push_str(&mut m, name);
                push_str(&mut m, "` to start it first.");
                return Err(CoastError::State(m));
            }
            if inst.remote_host.is_some() {
                return Ok(AssignPlan::Remote);
            }
            match &inst.container_id {
                Some(c) => Ok(AssignPlan::Local { container_id: c.clone() }),
                None => {
                    let mut m = String::new();
                    push_str(&mut m, "Instance '");
                    push_str(&mut m, name);
                    push_str(
                        &mut m,
                        "' has no container ID. This should not happen for a Running/Idle instance. Try `coast rm ",
                    );
                    push_str(&mut m, name);
                    push_str(&mut m, " && coast run ");
                    push_str(&mut m, name);
                    push_str(&mut m, "`.");
                    Err(CoastError::State(m))
                },
            }
        },
    }
}

/// The status of a local instance after an assign: an idle instance now
/// runs its services; any other keeps its status.
pub open spec fn after_assign(previous: InstanceStatus) -> InstanceStatus {
    if previous == InstanceStatus::Idle {
        InstanceStatus::Running
    } else {
        previous
    }
}

/// The status of a local instance after an assign.
pub fn status_after_assign(previous: InstanceStatus) -> (r: InstanceStatus)
    ensures
        r == after_assign(previous),
{
    if previous == InstanceStatus::Idle {
        InstanceStatus::Running
    } else {
        previous
    }
}

/// The status of a remote instance after its assign completed: a
/// transitional assign or unassign status settles to running.
pub fn status_after_remote_assign(status: InstanceStatus) -> (r: InstanceStatus)
    ensures
        r == (if status == InstanceStatus::Assigning || status == InstanceStatus::Unassigning {
            InstanceStatus::Running
        } else {
            status
        }),
{
    if status == InstanceStatus::Assigning || status == InstanceStatus::Unassigning {
        InstanceStatus::Running
    } else {
        status
    }
}

/// Law: an accepted assign leaves an idle instance running and every other
/// status as it was, so the instance can be assigned again and is never
/// left idle.
pub proof fn law_assign_settles_idle(previous: InstanceStatus)
    ensures
        previous == InstanceStatus::Idle ==> after_assign(previous) == InstanceStatus::Running,
        previous != InstanceStatus::Idle ==> after_assign(previous) == previous,
        assignable(previous) ==> assignable(after_assign(previous)) && unassignable(
            after_assign(previous),
        ),
        after_assign(previous) != InstanceStatus::Idle,
{
}

// ---------------------------------------------------------------------------
// start
// ---------------------------------------------------------------------------

/// The error when the coast container does not start.
pub fn start_container_failed(name: &str, cause: &str) -> (r: CoastError)
    ensures
        r == CoastError::Docker(r->Docker_0),
        r->Docker_0@ == "Failed to start container for instance '"@ + name@ + "': "@ + cause@
            + ". Try `coast rm "@ + name@ + "` and `coast run` again."@,
{
    let mut m = String::new();
    push_str(&mut m, "Failed to start container for instance '");
    push_str(&mut m, name);
    push_str(&mut m, "': ");
    push_str(&mut m, cause);
    push_str(&mut m, ". Try `coast rm ");
    push_str(&mut m, name);
    push_str(&mut m, "` and `coast run` again.");
    CoastError::Docker(m)
}

/// The error when the Docker daemon inside the coast does not come up.
pub fn inner_daemon_failed(name: &str, cause: &str) -> (r: CoastError)
    ensures
        r == CoastError::Docker(r->Docker_0),
        r->Docker_0@ == "Inner Docker daemon in instance '"@ + name@ + "' failed to start: "@
            + cause@ + ". Try `coast rm "@ + name@ + "` and `coast run` again."@,
{
    let mut m = String::new();
    push_str(&mut m, "Inner Docker daemon in instance '");
    push_str(&mut m, name);
    push_str(&mut m, "' failed to start: ");
    push_str(&mut m, cause);
    push_str(&mut m, ". Try `coast rm ");
    push_str(&mut m, name);
    push_str(&mut m, "` and `coast run` again.");
    CoastError::Docker(m)
}

/// An operation that moves an instance through a transitional status while
/// its Docker steps run.
#[derive(Clone, Copy, PartialEq, Eq, Debug, Structural)]
pub enum StatusOp {
    /// An assign, shown under the given transitional status.
    Assign(InstanceStatus),
    /// An unassign.
    Unassign,
    /// A start.
    Start,
}

/// Where an operation's Docker steps are.
#[derive(Clone, Copy, PartialEq, Eq, Debug, Structural)]
pub enum StepsEvent {
    /// The instance was validated; the steps are about to run.
    Begin,
    /// A step failed.
    Failed,
    /// Every step succeeded.
    Succeeded,
}

/// The status that an operation records for an instance that had status
/// `previous`: the transitional status when its steps begin; when a step
/// fails, the status it had (a start falls back to stopped); when they
/// succeed, running for a start and for an idle instance, else the status
/// it had.
pub open spec fn op_status(op: StatusOp, previous: InstanceStatus, event: StepsEvent) -> InstanceStatus {
    match event {
        StepsEvent::Begin => match op {
            StatusOp::Assign(t) => t,
            StatusOp::Unassign => InstanceStatus::Unassigning,
            StatusOp::Start => InstanceStatus::Starting,
        },
        StepsEvent::Failed => match op {
            StatusOp::Start => InstanceStatus::Stopped,
            _ => previous,
        },
        StepsEvent::Succeeded => match op {
            StatusOp::Start => InstanceStatus::Running,
            _ => after_assign(previous),
        },
    }
}

/// The status to record at a step of an operation.
pub fn status_for_step(op: StatusOp, previous: InstanceStatus, event: StepsEvent) -> (r: InstanceStatus)
    ensures
        r == op_status(op, previous, event),
{
    match event {
        StepsEvent::Begin => match op {
            StatusOp::Assign(t) => t,
            StatusOp::Unassign => InstanceStatus::Unassigning,
            StatusOp::Start => InstanceStatus::Starting,
        },
        StepsEvent::Failed => match op {
            StatusOp::Start => InstanceStatus::Stopped,
            _ => previous,
        },
        StepsEvent::Succeeded => match op {
            StatusOp::Start => InstanceStatus::Running,
            _ => status_after_assign(previous),
        },
    }
}

/// A failed assign or unassign puts back the status the instance had, so
/// it can be tried again; a failed start leaves the instance stopped, from
/// where it can be started again; no operation ends in a transitional
/// status when its steps started from a settled one.
pub proof fn law_failed_steps_revert(op: StatusOp, previous: InstanceStatus)
    ensures
        !(op is Start) ==> op_status(op, previous, StepsEvent::Failed) == previous,
        op is Start ==> op_status(op, previous, StepsEvent::Failed) == InstanceStatus::Stopped,
        unassignable(previous) && previous != InstanceStatus::Assigning && previous != InstanceStatus::Unassigning
            ==> {
            &&& op_status(op, previous, StepsEvent::Failed) != InstanceStatus::Assigning
            &&& op_status(op, previous, StepsEvent::Failed) != InstanceStatus::Unassigning
            &&& op_status(op, previous, StepsEvent::Succeeded) != InstanceStatus::Assigning
            &&& op_status(op, previous, StepsEvent::Succeeded) != InstanceStatus::Unassigning
        },
{
}

} // verus!
