//! Instance lifecycle states and the checks that decide which operations a
//! state admits (start, stop, unassign, ps, rebuild).
use vstd::prelude::*;

use crate::text::push_str;

verus! {

/// The lifecycle state of a Coast instance.
#[derive(Clone, Copy, PartialEq, Eq, Debug, Structural)]
pub enum InstanceStatus {
    Provisioning,
    Assigning,
    Unassigning,
    Starting,
    Stopping,
    Running,
    Stopped,
    CheckedOut,
    Idle,
    Enqueued,
}

/// The name under which a status is shown to users.
pub open spec fn status_name(s: InstanceStatus) -> Seq<char> {
    match s {
        InstanceStatus::Provisioning => "provisioning"@,
        InstanceStatus::Assigning => "assigning"@,
        InstanceStatus::Unassigning => "unassigning"@,
        InstanceStatus::Starting => "starting"@,
        InstanceStatus::Stopping => "stopping"@,
        InstanceStatus::Running => "running"@,
        InstanceStatus::Stopped => "stopped"@,
        InstanceStatus::CheckedOut => "checked_out"@,
        InstanceStatus::Idle => "idle"@,
        InstanceStatus::Enqueued => "enqueued"@,
    }
}

impl InstanceStatus {
    /// The name under which the status is shown to users.
    pub fn as_str(&self) -> (r: &'static str)
        ensures
            r@ == status_name(*self),
    {
        match self {
            InstanceStatus::Provisioning => "provisioning",
            InstanceStatus::Assigning => "assigning",
            InstanceStatus::Unassigning => "unassigning",
            InstanceStatus::Starting => "starting",
            InstanceStatus::Stopping => "stopping",
            InstanceStatus::Running => "running",
            InstanceStatus::Stopped => "stopped",
            InstanceStatus::CheckedOut => "checked_out",
            InstanceStatus::Idle => "idle",
            InstanceStatus::Enqueued => "enqueued",
        }
    }
}

/// An error of a handler: the kind of failure and the message shown to the user.
#[derive(Debug)]
pub enum CoastError {
    /// The instance or project is in a state that forbids the operation.
    State(String),
    /// Docker (or a command run inside a container) failed.
    Docker(String),
    /// No instance of that name exists in the project.
    InstanceNotFound { name: String, project: String },
}

/// The message of an error.
pub open spec fn error_message(e: CoastError) -> Seq<char> {
    match e {
        CoastError::State(m) => m@,
        CoastError::Docker(m) => m@,
        CoastError::InstanceNotFound { name, project } => "Instance '"@ + name@
            + "' not found in project '"@ + project@ + "'"@,
    }
}

impl CoastError {
    /// A Docker error with the given message.
    pub fn docker(message: &str) -> (r: CoastError)
        ensures
            r == CoastError::Docker(r->Docker_0),
            r->Docker_0@ == message@,
    {
        CoastError::Docker(crate::text::owned(message))
    }

    /// A state error with the given message.
    pub fn state(message: &str) -> (r: CoastError)
        ensures
            r == CoastError::State(r->State_0),
            r->State_0@ == message@,
    {
        CoastError::State(crate::text::owned(message))
    }

    /// The message shown to the user.
    pub fn message(&self) -> (r: String)
        ensures
            r@ == error_message(*self),
    {
        match self {
            CoastError::State(m) => m.clone(),
            CoastError::Docker(m) => m.clone(),
            CoastError::InstanceNotFound { name, project } => {
                let mut r = String::new();
                push_str(&mut r, "Instance '");
                push_str(&mut r, name.as_str());
                push_str(&mut r, "' not found in project '");
                push_str(&mut r, project.as_str());
                push_str(&mut r, "'");
                r
            },
        }
    }
}

/// The fields of an instance record that the checks read.
#[derive(Debug)]
pub struct InstanceRecord {
    pub name: String,
    pub project: String,
    pub status: InstanceStatus,
    pub container_id: Option<String>,
    pub build_id: Option<String>,
    pub remote_host: Option<String>,
}

// ---------------------------------------------------------------------------
// start
// ---------------------------------------------------------------------------

/// The statuses from which `coast start` proceeds.
pub open spec fn startable(s: InstanceStatus) -> bool {
    s == InstanceStatus::Stopped || s == InstanceStatus::Idle || s == InstanceStatus::Enqueued
        || s == InstanceStatus::Unassigning
}

/// The statuses that `coast start` refuses as already running.
pub open spec fn already_running(s: InstanceStatus) -> bool {
    s == InstanceStatus::Running || s == InstanceStatus::CheckedOut
}

/// The message of a refusal because an operation is in progress.
pub open spec fn busy_message(name: Seq<char>, s: InstanceStatus) -> Seq<char> {
    "Instance '"@ + name + "' is currently "@ + status_name(s)
        + ". Wait for the operation to complete."@
}

/// The message of a start refused because the instance runs.
pub open spec fn already_running_message(name: Seq<char>, s: InstanceStatus) -> Seq<char> {
    "Instance '"@ + name + "' is already running (status: "@ + status_name(s)
        + "). Run `coast stop "@ + name + "` first if you want to restart it."@
}

fn busy_error(name: &str, s: InstanceStatus) -> (m: String)
    ensures
        m@ == busy_message(name@, s),
{
    let mut m = String::new();
    push_str(&mut m, "Instance '");
    push_str(&mut m, name);
    push_str(&mut m, "' is currently ");
    push_str(&mut m, s.as_str());
    push_str(&mut m, ". Wait for the operation to complete.");
    m
}

/// Checks whether an instance in `status` may be started.
pub fn validate_startable(status: &InstanceStatus, name: &str) -> (r: Result<(), CoastError>)
    ensures
        r is Ok <==> startable(*status),
        already_running(*status) ==> (r matches Err(CoastError::State(m)) && m@
            == already_running_message(name@, *status)),
        !startable(*status) && !already_running(*status) ==> (r matches Err(
            CoastError::State(m),
        ) && m@ == busy_message(name@, *status)),
{
    match status {
        InstanceStatus::Stopped
        | InstanceStatus::Idle
        | InstanceStatus::Enqueued
        | InstanceStatus::Unassigning => Ok(()),
        InstanceStatus::Running | InstanceStatus::CheckedOut => {
            let mut m = String::new();
            push_str(&mut m, "Instance '");
            push_str(&mut m, name);
            push_str(&mut m, "' is already running (status: ");
            push_str(&mut m, status.as_str());
            push_str(&mut m, "). Run `coast stop ");
            push_str(&mut m, name);
            push_str(&mut m, "` first if you want to restart it.");
            Err(CoastError::State(m))
        },
        _ => Err(CoastError::State(busy_error(name, *status))),
    }
}

// ---------------------------------------------------------------------------
// stop
// ---------------------------------------------------------------------------

/// The statuses from which `coast stop` proceeds.
pub open spec fn stoppable(s: InstanceStatus) -> bool {
    s == InstanceStatus::Running || s == InstanceStatus::CheckedOut || s == InstanceStatus::Idle
}

/// The message of a stop refused because the instance is stopped.
pub open spec fn already_stopped_message(name: Seq<char>) -> Seq<char> {
    "Instance '"@ + name + "' is already stopped. Run `coast start "@ + name
        + "` to start it."@
}

/// The message of a stop refused for a queued instance.
pub open spec fn enqueued_message(name: Seq<char>, s: InstanceStatus) -> Seq<char> {
    "Instance '"@ + name + "' is "@ + status_name(s) + " and cannot be stopped directly."@
}

/// Checks whether an instance in `status` may be stopped.
pub fn validate_stoppable(status: &InstanceStatus, name: &str) -> (r: Result<(), CoastError>)
    ensures
        r is Ok <==> stoppable(*status),
        *status == InstanceStatus::Stopped ==> (r matches Err(CoastError::State(m)) && m@
            == already_stopped_message(name@)),
        *status == InstanceStatus::Enqueued ==> (r matches Err(CoastError::State(m)) && m@
            == enqueued_message(name@, *status)),
        !stoppable(*status) && *status != InstanceStatus::Stopped && *status
            != InstanceStatus::Enqueued ==> (r matches Err(CoastError::State(m)) && m@
            == busy_message(name@, *status)),
{
    match status {
        InstanceStatus::Running | InstanceStatus::CheckedOut | InstanceStatus::Idle => Ok(()),
        InstanceStatus::Stopped => {
            let mut m = String::new();
            push_str(&mut m, "Instance '");
            push_str(&mut m, name);
            push_str(&mut m, "' is already stopped. Run `coast start ");
            push_str(&mut m, name);
            push_str(&mut m, "` to start it.");
            Err(CoastError::State(m))
        },
        InstanceStatus::Enqueued => {
            let mut m = String::new();
            push_str(&mut m, "Instance '");
            push_str(&mut m, name);
            push_str(&mut m, "' is ");
            push_str(&mut m, status.as_str());
            push_str(&mut m, " and cannot be stopped directly.");
            Err(CoastError::State(m))
        },
        _ => Err(CoastError::State(busy_error(name, *status))),
    }
}

// ---------------------------------------------------------------------------
// unassign
// ---------------------------------------------------------------------------

/// The statuses from which `coast unassign` proceeds.
pub open spec fn unassignable(s: InstanceStatus) -> bool {
    s == InstanceStatus::Running || s == InstanceStatus::CheckedOut || s == InstanceStatus::Idle
        || s == InstanceStatus::Assigning || s == InstanceStatus::Unassigning
}

/// The message of an unassign refused because the instance is stopped.
pub open spec fn unassign_stopped_message(name: Seq<char>, s: InstanceStatus) -> Seq<char> {
    "Instance '"@ + name + "' is stopped (status: "@ + status_name(s) + "). Run `coast start "@
        + name + "` to start it first."@
}

/// Checks whether an instance in `status` may be unassigned.
pub fn validate_unassignable(status: &InstanceStatus, name: &str) -> (r: Result<(), CoastError>)
    ensures
        r is Ok <==> unassignable(*status),
        *status == InstanceStatus::Stopped ==> (r matches Err(CoastError::State(m)) && m@
            == unassign_stopped_message(name@, *status)),
        !unassignable(*status) && *status != InstanceStatus::Stopped ==> (r matches Err(
            CoastError::State(m),
        ) && m@ == busy_message(name@, *status)),
{
    match status {
        InstanceStatus::Running
        | InstanceStatus::CheckedOut
        | InstanceStatus::Idle
        | InstanceStatus::Assigning
        | InstanceStatus::Unassigning => Ok(()),
        InstanceStatus::Stopped => {
            let mut m = String::new();
            push_str(&mut m, "Instance '");
            push_str(&mut m, name);
            push_str(&mut m, "' is stopped (status: ");
            push_str(&mut m, status.as_str());
            push_str(&mut m, "). Run `coast start ");
            push_str(&mut m, name);
            push_str(&mut m, "` to start it first.");
            Err(CoastError::State(m))
        },
        _ => Err(CoastError::State(busy_error(name, *status))),
    }
}

// ---------------------------------------------------------------------------
// ps
// ---------------------------------------------------------------------------

/// What `coast ps` does for an instance that it accepts.
#[derive(Debug)]
pub enum PsValidation {
    /// The instance has no services yet: an empty listing.
    Idle,
    /// The instance runs: query Docker with these identifiers.
    Ready { container_id: String, build_id: Option<String> },
}

/// The message of a `ps` refused because the instance is stopped.
pub open spec fn ps_stopped_message(name: Seq<char>) -> Seq<char> {
    "Instance '"@ + name + "' is stopped. No services are running. Run `coast start "@ + name
        + "` first."@
}

/// The message of a `ps` refused during provisioning or assignment.
pub open spec fn ps_busy_message(name: Seq<char>, s: InstanceStatus) -> Seq<char> {
    "Instance '"@ + name + "' is still being "@ + (if s == InstanceStatus::Provisioning {
        "provisioned"@
    } else {
        "assigned"@
    }) + ". Wait for the operation to complete."@
}

/// The message of a `ps` refused because no container is recorded.
pub open spec fn ps_no_container_message(name: Seq<char>) -> Seq<char> {
    "Instance '"@ + name + "' has no container ID. This may indicate a corrupt state. Try `coast rm "@
        + name + "` and `coast run` again."@
}

/// Checks whether `ps` makes sense for an instance, and with which identifiers.
pub fn validate_ps_ready(instance: &InstanceRecord) -> (r: Result<PsValidation, CoastError>)
    ensures
        instance.status == InstanceStatus::Stopped ==> (r matches Err(CoastError::State(m))
            && m@ == ps_stopped_message(instance.name@)),
        (instance.status == InstanceStatus::Provisioning || instance.status
            == InstanceStatus::Assigning) ==> (r matches Err(CoastError::State(m)) && m@
            == ps_busy_message(instance.name@, instance.status)),
        instance.status == InstanceStatus::Idle ==> r matches Ok(PsValidation::Idle),
        (instance.status != InstanceStatus::Stopped && instance.status
            != InstanceStatus::Provisioning && instance.status != InstanceStatus::Assigning
            && instance.status != InstanceStatus::Idle) ==> match instance.container_id {
            Some(cid) => (r matches Ok(PsValidation::Ready { container_id, build_id })
                && container_id@ == cid@ && build_id == instance.build_id),
            None => (r matches Err(CoastError::State(m)) && m@ == ps_no_container_message(
                instance.name@,
            )),
        },
{
    let name = instance.name.as_str();
    if instance.status == InstanceStatus::Stopped {
        let mut m = String::new();
        push_str(&mut m, "Instance '");
        push_str(&mut m, name);
        push_str(&mut m, "' is stopped. No services are running. Run `coast start ");
        push_str(&mut m, name);
        push_str(&mut m, "` first.");
        return Err(CoastError::State(m));
    }
    if instance.status == InstanceStatus::Provisioning || instance.status
        == InstanceStatus::Assigning {
        let action = if instance.status == InstanceStatus::Provisioning {
            "provisioned"
        } else {
            "assigned"
        };
        let mut m = String::new();
        push_str(&mut m, "Instance '");
        push_str(&mut m, name);
        push_str(&mut m, "' is still being ");
        push_str(&mut m, action);
        push_str(&mut m, ". Wait for the operation to complete.");
        return Err(CoastError::State(m));
    }
    if instance.status == InstanceStatus::Idle {
        return Ok(PsValidation::Idle);
    }
    match &instance.container_id {
        Some(cid) => Ok(
            PsValidation::Ready { container_id: cid.clone(), build_id: instance.build_id.clone() },
        ),
        None => {
            let mut m = String::new();
            push_str(&mut m, "Instance '");
            push_str(&mut m, name);
            push_str(
                &mut m,
                "' has no container ID. This may indicate a corrupt state. Try `coast rm ",
            );
            push_str(&mut m, name);
            push_str(&mut m, "` and `coast run` again.");
            Err(CoastError::State(m))
        },
    }
}


// ---------------------------------------------------------------------------
// exec
// ---------------------------------------------------------------------------

/// The message of an `exec` refused because the instance is stopped.
pub open spec fn exec_stopped_message(name: Seq<char>) -> Seq<char> {
    "Instance '"@ + name + "' is stopped. Run `coast start "@ + name
        + "` before executing commands."@
}

/// Checks that commands can run in the looked-up instance, and gives its
/// container id and build id.
pub fn validate_exec_target(instance: Option<&InstanceRecord>, project: &str, name: &str) -> (r:
    Result<(String, Option<String>), CoastError>)
    ensures
        instance is None ==> (r matches Err(CoastError::InstanceNotFound { name: n, project: p })
            && n@ == name@ && p@ == project@),
        instance matches Some(i) ==> {
            if i.status == InstanceStatus::Stopped {
                r matches Err(CoastError::State(m)) && m@ == exec_stopped_message(name@)
            } else if i.status == InstanceStatus::Provisioning || i.status
                == InstanceStatus::Assigning {
                r matches Err(CoastError::State(m)) && m@ == ps_busy_message(name@, i.status)
            } else {
                match i.container_id {
                    Some(cid) => r matches Ok((c, b)) && c@ == cid@ && b == i.build_id,
                    None => r matches Err(CoastError::State(m)) && m@ == ps_no_container_message(
                        name@,
                    ),
                }
            }
        },
{
    let inst = match instance {
        Some(i) => i,
        None => {
            return Err(
                CoastError::InstanceNotFound {
                    name: crate::text::owned(name),
                    project: crate::text::owned(project),
                },
            );
        },
    };
    if inst.status == InstanceStatus::Stopped {
        let mut m = String::new();
        push_str(&mut m, "Instance '");
        push_str(&mut m, name);
        push_str(&mut m, "' is stopped. Run `coast start ");
        push_str(&mut m, name);
        push_str(&mut m, "` before executing commands.");
        return Err(CoastError::State(m));
    }
    if inst.status == InstanceStatus::Provisioning || inst.status == InstanceStatus::Assigning {
        let action = if inst.status == InstanceStatus::Provisioning {
            "provisioned"
        } else {
            "assigned"
        };
        let mut m = String::new();
        push_str(&mut m, "Instance '");
        push_str(&mut m, name);
        push_str(&mut m, "' is still being ");
        push_str(&mut m, action);
        push_str(&mut m, ". Wait for the operation to complete.");
        return Err(CoastError::State(m));
    }
    match &inst.container_id {
        Some(cid) => Ok((cid.clone(), inst.build_id.clone())),
        None => {
            let mut m = String::new();
            push_str(&mut m, "Instance '");
            push_str(&mut m, name);
            push_str(
                &mut m,
                "' has no container ID. This may indicate a corrupt state. Try `coast rm ",
            );
            push_str(&mut m, name);
            push_str(&mut m, "` and `coast run` again.");
            Err(CoastError::State(m))
        },
    }
}

// ---------------------------------------------------------------------------
// restart-services
// ---------------------------------------------------------------------------

/// Where a restart of an instance's services runs.
#[derive(Debug)]
pub enum RestartTarget {
    /// The instance lives on a remote host: the request is forwarded there.
    Remote,
    /// The instance runs here, in this container, from this build.
    Local { container_id: String, build_id: Option<String> },
}

/// The message of a restart refused because of the instance's status.
pub open spec fn restart_status_message(name: Seq<char>, s: InstanceStatus) -> Seq<char> {
    "Instance '"@ + name + "' is in '"@ + status_name(s)
        + "' state and cannot have services restarted. Only Running or CheckedOut instances are supported. Run `coast start "@
        + name + "` first."@
}

/// Checks that the looked-up instance's services can be restarted, and
/// where.
pub fn validate_restart_target(instance: Option<&InstanceRecord>, project: &str, name: &str) -> (r:
    Result<RestartTarget, CoastError>)
    ensures
        instance is None ==> (r matches Err(CoastError::InstanceNotFound { name: n, project: p })
            && n@ == name@ && p@ == project@),
        instance matches Some(i) ==> {
            if i.remote_host is Some {
                r matches Ok(RestartTarget::Remote)
            } else if !already_running(i.status) {
                r matches Err(CoastError::State(m)) && m@ == restart_status_message(
                    name@,
                    i.status,
                )
            } else {
                match i.container_id {
                    Some(cid) => r matches Ok(RestartTarget::Local { container_id, build_id })
                        && container_id@ == cid@ && build_id == i.build_id,
                    None => r matches Err(CoastError::State(m)) && m@
                        == rebuild_no_container_message(name@),
                }
            }
        },
{
    let inst = match instance {
        Some(i) => i,
        None => {
            return Err(
                CoastError::InstanceNotFound {
                    name: crate::text::owned(name),
                    project: crate::text::owned(project),
                },
            );
        },
    };
    if inst.remote_host.is_some() {
        return Ok(RestartTarget::Remote);
    }
    if inst.status != InstanceStatus::Running && inst.status != InstanceStatus::CheckedOut {
        let mut m = String::new();
        push_str(&mut m, "Instance '");
        push_str(&mut m, name);
        push_str(&mut m, "' is in '");
        push_str(&mut m, inst.status.as_str());
        push_str(
            &mut m,
            "' state and cannot have services restarted. Only Running or CheckedOut instances are supported. Run `coast start ",
        );
        push_str(&mut m, name);
        push_str(&mut m, "` first.");
        return Err(CoastError::State(m));
    }
    match &inst.container_id {
        Some(cid) => Ok(
            RestartTarget::Local { container_id: cid.clone(), build_id: inst.build_id.clone() },
        ),
        None => {
            let mut m = String::new();
            push_str(&mut m, "Instance '");
            push_str(&mut m, name);
            push_str(
                &mut m,
                "' has no container ID. This should not happen for a Running instance. Try `coast rm ",
            );
            push_str(&mut m, name);
            push_str(&mut m, " && coast run ");
            push_str(&mut m, name);
            push_str(&mut m, "`.");
            Err(CoastError::State(m))
        },
    }
}

// ---------------------------------------------------------------------------
// rebuild
// ---------------------------------------------------------------------------

/// The message of a rebuild refused for a remote instance.
pub open spec fn rebuild_remote_message() -> Seq<char> {
    "Rebuild for remote instances is not yet supported. Use `coast build --type remote` to rebuild the remote build artifact, then `coast assign` to apply changes."@
}

/// The message of a rebuild refused because of the instance's status.
pub open spec fn rebuild_status_message(name: Seq<char>, s: InstanceStatus) -> Seq<char> {
    "Instance '"@ + name + "' is in '"@ + status_name(s)
        + "' state and cannot be rebuilt. Only Running or CheckedOut instances can be rebuilt. Run `coast start "@
        + name + "` first."@
}

/// The message of a rebuild refused because no container is recorded.
pub open spec fn rebuild_no_container_message(name: Seq<char>) -> Seq<char> {
    "Instance '"@ + name
        + "' has no container ID. This should not happen for a Running instance. Try `coast rm "@
        + name + " && coast run "@ + name + "`."@
}

/// Checks that the looked-up instance can be rebuilt and gives its container id.
pub fn validate_rebuild_target(instance: Option<&InstanceRecord>, project: &str, name: &str) -> (r:
    Result<String, CoastError>)
    ensures
        instance is None ==> (r matches Err(CoastError::InstanceNotFound { name: n, project: p })
            && n@ == name@ && p@ == project@),
        instance matches Some(i) ==> {
            if i.remote_host is Some {
                r matches Err(CoastError::State(m)) && m@ == rebuild_remote_message()
            } else if !already_running(i.status) {
                r matches Err(CoastError::State(m)) && m@ == rebuild_status_message(
                    name@,
                    i.status,
                )
            } else {
                match i.container_id {
                    Some(cid) => r matches Ok(c) && c@ == cid@,
                    None => r matches Err(CoastError::State(m)) && m@
                        == rebuild_no_container_message(name@),
                }
            }
        },
{
    let inst = match instance {
        Some(i) => i,
        None => {
            return Err(
                CoastError::InstanceNotFound {
                    name: crate::text::owned(name),
                    project: crate::text::owned(project),
                },
            );
        },
    };
    if inst.remote_host.is_some() {
        let mut m = String::new();
        push_str(
            &mut m,
            "Rebuild for remote instances is not yet supported. Use `coast build --type remote` to rebuild the remote build artifact, then `coast assign` to apply changes.",
        );
        return Err(CoastError::State(m));
    }
    if inst.status != InstanceStatus::Running && inst.status != InstanceStatus::CheckedOut {
        let mut m = String::new();
        push_str(&mut m, "Instance '");
        push_str(&mut m, name);
        push_str(&mut m, "' is in '");
        push_str(&mut m, inst.status.as_str());
        push_str(
            &mut m,
            "' state and cannot be rebuilt. Only Running or CheckedOut instances can be rebuilt. Run `coast start ",
        );
        push_str(&mut m, name);
        push_str(&mut m, "` first.");
        return Err(CoastError::State(m));
    }
    match &inst.container_id {
        Some(cid) => Ok(cid.clone()),
        None => {
            let mut m = String::new();
            push_str(&mut m, "Instance '");
            push_str(&mut m, name);
            push_str(
                &mut m,
                "' has no container ID. This should not happen for a Running instance. Try `coast rm ",
            );
            push_str(&mut m, name);
            push_str(&mut m, " && coast run ");
            push_str(&mut m, name);
            push_str(&mut m, "`.");
            Err(CoastError::State(m))
        },
    }
}

/// Whether a shared-service record says that the service runs.
pub fn has_running_shared_service_record(status: Option<&str>) -> (b: bool)
    ensures
        b == (status matches Some(s) && s@ == "running"@),
{
    match status {
        Some(s) => crate::text::str_eq(s, "running"),
        None => false,
    }
}

// ---------------------------------------------------------------------------
// Laws
// ---------------------------------------------------------------------------

/// A stopped instance, which `stop` refuses as already stopped, is one that
/// `start` accepts; and every instance that `stop` accepts, except an idle
/// one, is one that `start` refuses as already running.
pub proof fn law_start_and_stop_complement(s: InstanceStatus)
    ensures
        s == InstanceStatus::Stopped ==> startable(s) && !stoppable(s),
        stoppable(s) && s != InstanceStatus::Idle ==> already_running(s) && !startable(s),
        already_running(s) ==> stoppable(s) && unassignable(s),
{
}

/// No status in which an operation is in progress (provisioning, assigning,
/// starting, stopping) is accepted by both `start` and `stop`; a starting or
/// stopping instance is accepted by neither.
pub proof fn law_transitional_states_are_refused(s: InstanceStatus)
    ensures
        !(startable(s) && stoppable(s)) || s == InstanceStatus::Idle,
        (s == InstanceStatus::Starting || s == InstanceStatus::Stopping || s
            == InstanceStatus::Provisioning) ==> !startable(s) && !stoppable(s) && !unassignable(s),
{
}

} // verus!
