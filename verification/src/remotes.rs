//! Registered remote hosts: the checks on a new entry, the ssh and scp
//! arguments that reach one, and what the remote commands report.
use vstd::prelude::*;

use crate::status::CoastError;
use crate::text::{
    contains_name, contains_seq, decimal, join, owned, push_decimal, push_joined, push_owned,
    push_signed_decimal, push_str, signed_decimal, str_contains, str_eq, trim, trim_exec, views,
};

verus! {

// ---------------------------------------------------------------------------
// Registering and removing remotes
// ---------------------------------------------------------------------------

/// The error of a check on a new remote: the first of an empty name, an
/// empty host, or port 0.
pub open spec fn new_remote_error(name: Seq<char>, host: Seq<char>, port: u16) -> Option<Seq<char>> {
    if name.len() == 0 {
        Some("remote name cannot be empty"@)
    } else if host.len() == 0 {
        Some("remote host cannot be empty"@)
    } else if port == 0 {
        Some("remote port cannot be 0"@)
    } else {
        None
    }
}

/// Checks the fields of a remote to register.
pub fn validate_new_remote(name: &str, host: &str, port: u16) -> (r: Result<(), CoastError>)
    ensures
        match new_remote_error(name@, host@, port) {
            Some(m) => r matches Err(CoastError::State(x)) && x@ == m,
            None => r is Ok,
        },
{
    if name.is_empty() {
        return Err(CoastError::State(owned("remote name cannot be empty")));
    }
    if host.is_empty() {
        return Err(CoastError::State(owned("remote host cannot be empty")));
    }
    if port == 0 {
        return Err(CoastError::State(owned("remote port cannot be 0")));
    }
    Ok(())
}

/// `{user}@{host}:{port}`.
pub open spec fn address_text(user: Seq<char>, host: Seq<char>, port: u16) -> Seq<char> {
    user + "@"@ + host + ":"@ + decimal(port as nat)
}

fn push_address(m: &mut String, user: &str, host: &str, port: u16)
    ensures
        final(m)@ == old(m)@ + address_text(user@, host@, port),
{
    push_str(m, user);
    push_str(m, "@");
    push_str(m, host);
    push_str(m, ":");
    push_decimal(m, port as u64);
}

/// The message of a registered remote.
pub fn remote_added_message(name: &str, user: &str, host: &str, port: u16) -> (r: String)
    ensures
        r@ == "Remote '"@ + name@ + "' added ("@ + address_text(user@, host@, port) + ")"@,
{
    let mut m = owned("Remote '");
    push_str(&mut m, name);
    push_str(&mut m, "' added (");
    push_address(&mut m, user, host, port);
    push_str(&mut m, ")");
    m
}

/// The message of a listing of remotes.
pub fn remote_count_message(count: usize) -> (r: String)
    ensures
        r@ == decimal(count as nat) + " remote(s)"@,
{
    let mut m = String::new();
    push_decimal(&mut m, count as u64);
    push_str(&mut m, " remote(s)");
    m
}

/// The message about a remote that is not registered.
pub open spec fn no_remote_message(name: Seq<char>) -> Seq<char> {
    "no remote named '"@ + name + "'. Run `coast remote ls` to see registered remotes."@
}

/// The error about a remote that is not registered.
pub fn no_remote_error(name: &str) -> (r: CoastError)
    ensures
        r matches CoastError::State(m) && m@ == no_remote_message(name@),
{
    let mut m = owned("no remote named '");
    push_str(&mut m, name);
    push_str(&mut m, "'. Run `coast remote ls` to see registered remotes.");
    CoastError::State(m)
}

/// The outcome of removing a remote: its message when a record was
/// deleted, else the error that no such remote is registered.
pub fn remote_removed(deleted: bool, name: &str) -> (r: Result<String, CoastError>)
    ensures
        deleted ==> (r matches Ok(m) && m@ == "Remote '"@ + name@ + "' removed"@),
        !deleted ==> (r matches Err(CoastError::State(m)) && m@ == no_remote_message(name@)),
{
    if !deleted {
        return Err(no_remote_error(name));
    }
    let mut m = owned("Remote '");
    push_str(&mut m, name);
    push_str(&mut m, "' removed");
    Ok(m)
}

// ---------------------------------------------------------------------------
// ssh and scp
// ---------------------------------------------------------------------------

/// The key arguments: `-i {key}` when there is a key.
pub open spec fn key_args(ssh_key: Option<Seq<char>>) -> Seq<Seq<char>> {
    match ssh_key {
        Some(k) => seq!["-i"@, k],
        None => Seq::empty(),
    }
}

/// The optional key as plain values.
pub open spec fn opt_key(ssh_key: Option<&str>) -> Option<Seq<char>> {
    match ssh_key {
        Some(k) => Some(k@),
        None => None,
    }
}

fn push_key(v: &mut Vec<String>, ssh_key: Option<&str>)
    ensures
        views(final(v)@) == views(old(v)@) + key_args(opt_key(ssh_key)),
{
    let ghost before = views(v@);
    match ssh_key {
        Some(k) => {
            push_owned(v, "-i");
            push_owned(v, k);
            assert(views(v@) =~= before + key_args(opt_key(ssh_key)));
        },
        None => {
            assert(views(v@) =~= before + key_args(opt_key(ssh_key)));
        },
    }
}

/// The arguments of `ssh` that reach a registered remote; the remote
/// command follows them.
pub open spec fn remote_ssh_args_of(port: u16, ssh_key: Option<Seq<char>>, user: Seq<char>, host: Seq<char>) -> Seq<Seq<char>> {
    seq!["-o"@, "BatchMode=yes"@, "-o"@, "StrictHostKeyChecking=accept-new"@, "-p"@, decimal(port as nat)]
        + key_args(ssh_key) + seq![user + "@"@ + host]
}

/// The arguments of `ssh` that reach a registered remote.
pub fn remote_ssh_args(port: u16, ssh_key: Option<&str>, user: &str, host: &str) -> (r: Vec<String>)
    ensures
        views(r@) == remote_ssh_args_of(port, opt_key(ssh_key), user@, host@),
{
    let mut v: Vec<String> = Vec::new();
    push_owned(&mut v, "-o");
    push_owned(&mut v, "BatchMode=yes");
    push_owned(&mut v, "-o");
    push_owned(&mut v, "StrictHostKeyChecking=accept-new");
    push_owned(&mut v, "-p");
    let mut p = String::new();
    push_decimal(&mut p, port as u64);
    push_owned(&mut v, p.as_str());
    push_key(&mut v, ssh_key);
    let mut login = owned(user);
    push_str(&mut login, "@");
    push_str(&mut login, host);
    push_owned(&mut v, login.as_str());
    assert(views(v@) =~= remote_ssh_args_of(port, opt_key(ssh_key), user@, host@));
    v
}

/// The arguments of `scp` towards a registered remote; the files follow
/// them.
pub open spec fn remote_scp_args_of(port: u16, ssh_key: Option<Seq<char>>) -> Seq<Seq<char>> {
    seq!["-o"@, "BatchMode=yes"@, "-o"@, "StrictHostKeyChecking=accept-new"@, "-P"@, decimal(port as nat)]
        + key_args(ssh_key)
}

/// The arguments of `scp` towards a registered remote.
pub fn remote_scp_args(port: u16, ssh_key: Option<&str>) -> (r: Vec<String>)
    ensures
        views(r@) == remote_scp_args_of(port, opt_key(ssh_key)),
{
    let mut v: Vec<String> = Vec::new();
    push_owned(&mut v, "-o");
    push_owned(&mut v, "BatchMode=yes");
    push_owned(&mut v, "-o");
    push_owned(&mut v, "StrictHostKeyChecking=accept-new");
    push_owned(&mut v, "-P");
    let mut p = String::new();
    push_decimal(&mut p, port as u64);
    push_owned(&mut v, p.as_str());
    push_key(&mut v, ssh_key);
    assert(views(v@) =~= remote_scp_args_of(port, opt_key(ssh_key)));
    v
}

/// The arguments of the `ssh` connectivity test of a remote.
pub open spec fn remote_ping_args_of(port: u16, ssh_key: Option<Seq<char>>, user: Seq<char>, host: Seq<char>) -> Seq<Seq<char>> {
    seq![
        "-o"@,
        "BatchMode=yes"@,
        "-o"@,
        "ConnectTimeout=10"@,
        "-o"@,
        "StrictHostKeyChecking=accept-new"@,
        "-p"@,
        decimal(port as nat),
    ] + key_args(ssh_key) + seq![user + "@"@ + host, "echo coast-service-ping"@]
}

/// The arguments of the `ssh` connectivity test of a remote.
pub fn remote_ping_args(port: u16, ssh_key: Option<&str>, user: &str, host: &str) -> (r: Vec<String>)
    ensures
        views(r@) == remote_ping_args_of(port, opt_key(ssh_key), user@, host@),
{
    let mut v: Vec<String> = Vec::new();
    push_owned(&mut v, "-o");
    push_owned(&mut v, "BatchMode=yes");
    push_owned(&mut v, "-o");
    push_owned(&mut v, "ConnectTimeout=10");
    push_owned(&mut v, "-o");
    push_owned(&mut v, "StrictHostKeyChecking=accept-new");
    push_owned(&mut v, "-p");
    let mut p = String::new();
    push_decimal(&mut p, port as u64);
    push_owned(&mut v, p.as_str());
    push_key(&mut v, ssh_key);
    let mut login = owned(user);
    push_str(&mut login, "@");
    push_str(&mut login, host);
    push_owned(&mut v, login.as_str());
    push_owned(&mut v, "echo coast-service-ping");
    assert(views(v@) =~= remote_ping_args_of(port, opt_key(ssh_key), user@, host@));
    v
}

/// The exit code shown for a process: its code, or -1 when a signal ended
/// it.
pub open spec fn code_shown(code: Option<i32>) -> int {
    match code {
        Some(c) => c as int,
        None => -1,
    }
}

/// What the connectivity test of a remote reports: reachable when ssh
/// succeeded and echoed the ping, an unexpected-output message when it
/// succeeded otherwise, and an error with ssh's exit code and error output
/// when it failed.
pub fn remote_test_outcome(
    name: &str,
    user: &str,
    host: &str,
    port: u16,
    succeeded: bool,
    exit_code: Option<i32>,
    stdout: &str,
    stderr: &str,
) -> (r: Result<String, CoastError>)
    ensures
        succeeded && contains_seq(trim(stdout@), "coast-service-ping"@) ==> (r matches Ok(m) && m@
            == "Remote '"@ + name@ + "' is reachable ("@ + address_text(user@, host@, port)
            + ")"@),
        succeeded && !contains_seq(trim(stdout@), "coast-service-ping"@) ==> (r matches Ok(m) && m@
            == "SSH to '"@ + name@
            + "' succeeded but unexpected output. Check that the remote is accessible."@),
        !succeeded ==> (r matches Err(CoastError::State(m)) && m@ == "SSH to '"@ + name@
            + "' failed (exit "@ + signed_decimal(code_shown(exit_code)) + "): "@ + trim(stderr@)),
{
    if succeeded {
        let out = trim_exec(stdout);
        let mut m = String::new();
        if str_contains(out.as_str(), "coast-service-ping") {
            push_str(&mut m, "Remote '");
            push_str(&mut m, name);
            push_str(&mut m, "' is reachable (");
            push_address(&mut m, user, host, port);
            push_str(&mut m, ")");
        } else {
            push_str(&mut m, "SSH to '");
            push_str(&mut m, name);
            push_str(&mut m, "' succeeded but unexpected output. Check that the remote is accessible.");
        }
        Ok(m)
    } else {
        let code: i32 = match exit_code {
            Some(c) => c,
            None => -1,
        };
        let mut m = owned("SSH to '");
        push_str(&mut m, name);
        push_str(&mut m, "' failed (exit ");
        push_signed_decimal(&mut m, code as i64);
        push_str(&mut m, "): ");
        let err = trim_exec(stderr);
        push_str(&mut m, err.as_str());
        Err(CoastError::State(m))
    }
}

// ---------------------------------------------------------------------------
// Setting up coast-service on a remote
// ---------------------------------------------------------------------------

/// The remote command that makes the directory of the service binary.
pub const SERVICE_DIR_COMMAND: &'static str = "mkdir -p ~/.coast-service";

/// The remote command that (re)starts coast-service in the background.
pub const SERVICE_START_SCRIPT: &'static str = "chmod +x ~/.coast-service/coast-service && (pgrep -f coast-service && pkill -f coast-service && sleep 1 || true) && nohup ~/.coast-service/coast-service > ~/.coast-service/coast-service.log 2>&1 &";

/// The remote command that checks that coast-service answers.
pub const SERVICE_HEALTH_COMMAND: &'static str = "curl -sf http://localhost:31420/health || ~/.coast-service/coast-service --version 2>/dev/null || pgrep -f coast-service";

/// Refuses a Docker-based setup, which does not exist yet.
pub fn validate_setup(docker: bool) -> (r: Result<(), CoastError>)
    ensures
        docker ==> (r matches Err(CoastError::State(m)) && m@
            == "Docker-based setup is not yet implemented. Omit --docker to deploy the binary directly."@),
        !docker ==> r is Ok,
{
    if docker {
        return Err(
            CoastError::State(
                owned(
                    "Docker-based setup is not yet implemented. Omit --docker to deploy the binary directly.",
                ),
            ),
        );
    }
    Ok(())
}

/// The service binary that `which coast-service` found: its trimmed output
/// when it succeeded and printed a path.
pub fn service_binary_from_which(succeeded: bool, stdout: &str) -> (r: Option<String>)
    ensures
        succeeded && trim(stdout@).len() > 0 ==> (r matches Some(p) && p@ == trim(stdout@)),
        !(succeeded && trim(stdout@).len() > 0) ==> r is None,
{
    if !succeeded {
        return None;
    }
    let p = trim_exec(stdout);
    if p.as_str().is_empty() {
        None
    } else {
        Some(p)
    }
}

/// Where the service binary is copied: `{user}@{host}:~/.coast-service/coast-service`.
pub fn binary_destination(user: &str, host: &str) -> (r: String)
    ensures
        r@ == user@ + "@"@ + host@ + ":~/.coast-service/coast-service"@,
{
    let mut d = owned(user);
    push_str(&mut d, "@");
    push_str(&mut d, host);
    push_str(&mut d, ":~/.coast-service/coast-service");
    d
}

/// The step of a deployment that failed.
#[derive(Clone, Copy, PartialEq, Eq, Debug, Structural)]
pub enum DeployStep {
    /// Making the remote directory.
    MakeDirectory,
    /// Copying the binary.
    CopyBinary,
}

/// The message of a failed deployment step, with the trimmed error output.
pub open spec fn deploy_failure_message(step: DeployStep, stderr: Seq<char>) -> Seq<char> {
    match step {
        DeployStep::MakeDirectory => "failed to create remote directory: "@ + trim(stderr),
        DeployStep::CopyBinary => "failed to copy binary to remote: "@ + trim(stderr),
    }
}

/// The outcome of a deployment step.
pub fn deploy_step_outcome(step: DeployStep, succeeded: bool, stderr: &str) -> (r: Result<
    (),
    CoastError,
>)
    ensures
        succeeded ==> r is Ok,
        !succeeded ==> (r matches Err(CoastError::State(m)) && m@ == deploy_failure_message(
            step,
            stderr@,
        )),
{
    if succeeded {
        return Ok(());
    }
    let mut m = match step {
        DeployStep::MakeDirectory => owned("failed to create remote directory: "),
        DeployStep::CopyBinary => owned("failed to copy binary to remote: "),
    };
    let err = trim_exec(stderr);
    push_str(&mut m, err.as_str());
    Err(CoastError::State(m))
}

/// The message of a finished setup: running when the health check passed,
/// else where to look.
pub fn setup_message(name: &str, user: &str, host: &str, port: u16, healthy: bool) -> (r: String)
    ensures
        healthy ==> r@ == "coast-service deployed and running on '"@ + name@ + "' ("@ + address_text(
            user@,
            host@,
            port,
        ) + ")"@,
        !healthy ==> r@ == "coast-service deployed to '"@ + name@
            + "' but health check failed. Check ~/.coast-service/coast-service.log on the remote."@,
{
    let mut m = String::new();
    if healthy {
        push_str(&mut m, "coast-service deployed and running on '");
        push_str(&mut m, name);
        push_str(&mut m, "' (");
        push_address(&mut m, user, host, port);
        push_str(&mut m, ")");
    } else {
        push_str(&mut m, "coast-service deployed to '");
        push_str(&mut m, name);
        push_str(
            &mut m,
            "' but health check failed. Check ~/.coast-service/coast-service.log on the remote.",
        );
    }
    m
}


// ---------------------------------------------------------------------------
// Choosing the remote of a run
// ---------------------------------------------------------------------------

/// The first index at or after `i` of the name `n`.
pub open spec fn name_index_from(names: Seq<Seq<char>>, n: Seq<char>, i: int) -> Option<int>
    decreases names.len() - i,
{
    if i < 0 || i >= names.len() {
        None
    } else if names[i] == n {
        Some(i)
    } else {
        name_index_from(names, n, i + 1)
    }
}

/// The message when no remote is registered.
pub open spec fn no_remotes_message() -> Seq<char> {
    "No remotes registered. Run `coast remote add <name> <user@host>` first."@
}

/// The message when the requested remote is not registered.
pub open spec fn unregistered_remote_message(n: Seq<char>) -> Seq<char> {
    "remote '"@ + n + "' is not registered. Run `coast remote add "@ + n + "` first."@
}

/// The message when several remotes are registered and none is requested.
pub open spec fn ambiguous_remote_message(names: Seq<Seq<char>>) -> Seq<char> {
    "Multiple remotes registered ("@ + join(names, ", "@)
        + "). Use `--remote <name>` to specify which one."@
}

/// The remote a run uses, by position among the registered ones: the one
/// requested by name, else the only one; or the message of the error.
pub open spec fn remote_choice(names: Seq<Seq<char>>, requested: Option<Seq<char>>) -> Result<int, Seq<char>> {
    if names.len() == 0 {
        Err(no_remotes_message())
    } else {
        match requested {
            Some(n) => match name_index_from(names, n, 0) {
                Some(i) => Ok(i),
                None => Err(unregistered_remote_message(n)),
            },
            None => if names.len() == 1 {
                Ok(0)
            } else {
                Err(ambiguous_remote_message(names))
            },
        }
    }
}

/// Chooses the remote of a run among the registered ones (by name, in
/// listing order).
pub fn select_remote(names: &Vec<String>, requested: Option<&str>) -> (r: Result<usize, CoastError>)
    ensures
        match remote_choice(
            views(names@),
            match requested {
                Some(n) => Some(n@),
                None => None,
            },
        ) {
            Ok(i) => r matches Ok(j) && j == i,
            Err(m) => r matches Err(CoastError::State(x)) && x@ == m,
        },
{
    if names.len() == 0 {
        return Err(
            CoastError::State(owned("No remotes registered. Run `coast remote add <name> <user@host>` first.")),
        );
    }
    match requested {
        Some(n) => {
            let ghost nv = views(names@);
            let mut i: usize = 0;
            while i < names.len()
                invariant
                    i <= names@.len(),
                    names@.len() > 0,
                    requested == Some(n),
                    nv == views(names@),
                    name_index_from(nv, n@, i as int) == name_index_from(nv, n@, 0),
                decreases names.len() - i,
            {
                if str_eq(names[i].as_str(), n) {
                    assert(nv[i as int] == n@);
                    return Ok(i);
                }
                i = i + 1;
            }
            let mut m = owned("remote '");
            push_str(&mut m, n);
            push_str(&mut m, "' is not registered. Run `coast remote add ");
            push_str(&mut m, n);
            push_str(&mut m, "` first.");
            Err(CoastError::State(m))
        },
        None => {
            if names.len() == 1 {
                return Ok(0);
            }
            let mut m = owned("Multiple remotes registered (");
            push_joined(&mut m, names, ", ");
            push_str(&mut m, "). Use `--remote <name>` to specify which one.");
            Err(CoastError::State(m))
        },
    }
}

/// The Coastfile a remote run reads from the working directory when no
/// build has one: `Coastfile.{type}.toml` for a named type other than
/// `default`, else `Coastfile.remote.toml` (and `Coastfile` when that is
/// missing).
pub fn remote_coastfile_name(coastfile_type: Option<&str>) -> (r: String)
    ensures
        r@ == match coastfile_type {
            Some(t) => if t@ != "default"@ {
                "Coastfile."@ + t@ + ".toml"@
            } else {
                "Coastfile.remote.toml"@
            },
            None => "Coastfile.remote.toml"@,
        },
{
    match coastfile_type {
        Some(t) => if !str_eq(t, "default") {
            let mut r = owned("Coastfile.");
            push_str(&mut r, t);
            push_str(&mut r, ".toml");
            r
        } else {
            owned("Coastfile.remote.toml")
        },
        None => owned("Coastfile.remote.toml"),
    }
}

/// The message when the remote Coastfile has no `[remote]` section.
pub const MISSING_REMOTE_SECTION: &'static str = "Coastfile.remote requires a [remote] section with host configuration";

} // verus!
