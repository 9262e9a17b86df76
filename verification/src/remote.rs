//! Remote coasts: where a workspace lives on the remote host, the ssh and
//! rsync command lines that reach it, the mutagen session that keeps it in
//! sync, and the cache of ssh tunnels to remote coast-services.
use vstd::prelude::*;

use crate::json::{json_text, json_text_of};
use crate::status::CoastError;
use crate::text::{
    decimal, push_decimal, push_owned, push_signed_decimal, push_str, push_strs, signed_decimal,
    str_eq, str_views, views,
};

verus! {

// ---------------------------------------------------------------------------
// Names and paths
// ---------------------------------------------------------------------------

/// The workspace of an instance on the remote host.
pub fn remote_workspace_path(service_home: &str, project: &str, instance_name: &str) -> (r: String)
    ensures
        r@ == service_home@ + "/workspaces/"@ + project@ + "/"@ + instance_name@,
{
    let mut r = String::new();
    push_str(&mut r, service_home);
    push_str(&mut r, "/workspaces/");
    push_str(&mut r, project);
    push_str(&mut r, "/");
    push_str(&mut r, instance_name);
    r
}

/// The mutagen session of an instance; the same project and instance always
/// give the same name.
pub fn mutagen_session_name(project: &str, instance: &str) -> (r: String)
    ensures
        r@ == "coast-"@ + project@ + "-"@ + instance@,
{
    let mut r = String::new();
    push_str(&mut r, "coast-");
    push_str(&mut r, project);
    push_str(&mut r, "-");
    push_str(&mut r, instance);
    r
}

/// The shell command that ends an instance's mutagen session; ending one
/// that is already gone is not an error.
pub fn mutagen_terminate_command(session_name: &str) -> (r: String)
    ensures
        r@ == "mutagen sync terminate "@ + session_name@ + " 2>/dev/null || true"@,
{
    let mut r = String::new();
    push_str(&mut r, "mutagen sync terminate ");
    push_str(&mut r, session_name);
    push_str(&mut r, " 2>/dev/null || true");
    r
}

/// The ssh connection to a remote host: user, host, port and private key.
#[derive(Debug)]
pub struct RemoteTarget {
    pub user: String,
    pub host: String,
    pub port: u16,
    pub ssh_key: String,
}

/// `{user}@{host}`.
pub open spec fn login_of(t: RemoteTarget) -> Seq<char> {
    t.user@ + "@"@ + t.host@
}

/// The ssh login of a remote host.
pub fn ssh_login(target: &RemoteTarget) -> (r: String)
    ensures
        r@ == login_of(*target),
{
    let mut r = String::new();
    push_str(&mut r, target.user.as_str());
    push_str(&mut r, "@");
    push_str(&mut r, target.host.as_str());
    r
}

/// The key under which a tunnel to a remote host is cached:
/// `{user}@{host}:{port}`.
pub fn tunnel_cache_key(target: &RemoteTarget) -> (r: String)
    ensures
        r@ == login_of(*target) + ":"@ + decimal(target.port as nat),
{
    let mut r = ssh_login(target);
    push_str(&mut r, ":");
    push_decimal(&mut r, target.port as u64);
    r
}

/// The coast-service home that a remote's `/info` answer names, or
/// `~/.coast-service` when the answer is not JSON or names none.
pub fn service_home_from_info(body: &str) -> (r: String)
    ensures
        r@ == match json_text_of(body@, "service_home"@) {
            Some(h) => h,
            None => "~/.coast-service"@,
        },
{
    match json_text(body, "service_home") {
        Some(h) => h,
        None => crate::text::owned("~/.coast-service"),
    }
}

// ---------------------------------------------------------------------------
// ssh command lines
// ---------------------------------------------------------------------------

/// The ssh multiplexing options shared by the one-shot ssh commands.
pub open spec fn control_options() -> Seq<Seq<char>> {
    seq!["-o"@, "ControlMaster=auto"@, "-o"@, "ControlPath=/tmp/coast-ssh-%r@%h:%p"@, "-o"@, "ControlPersist=300"@]
}

/// The arguments of a one-shot ssh command on the remote host.
pub open spec fn ssh_command_args(t: RemoteTarget, command: Seq<char>) -> Seq<Seq<char>> {
    seq!["-o"@, "BatchMode=yes"@, "-o"@, "StrictHostKeyChecking=no"@] + control_options() + seq![
        "-p"@,
        decimal(t.port as nat),
        "-i"@,
        t.ssh_key@,
        login_of(t),
        command,
    ]
}

fn push_control_options(v: &mut Vec<String>)
    ensures
        views(final(v)@) == views(old(v)@) + control_options(),
{
    push_owned(v, "-o");
    push_owned(v, "ControlMaster=auto");
    push_owned(v, "-o");
    push_owned(v, "ControlPath=/tmp/coast-ssh-%r@%h:%p");
    push_owned(v, "-o");
    push_owned(v, "ControlPersist=300");
    assert(views(v@) =~= views(old(v)@) + control_options());
}

fn push_login_args(v: &mut Vec<String>, target: &RemoteTarget)
    ensures
        views(final(v)@) == views(old(v)@) + seq![
            "-p"@,
            decimal(target.port as nat),
            "-i"@,
            target.ssh_key@,
            login_of(*target),
        ],
{
    push_owned(v, "-p");
    let port = crate::text::decimal_string(target.port as u64);
    push_owned(v, port.as_str());
    push_owned(v, "-i");
    push_owned(v, target.ssh_key.as_str());
    let login = ssh_login(target);
    push_owned(v, login.as_str());
    assert(views(v@) =~= views(old(v)@) + seq![
        "-p"@,
        decimal(target.port as nat),
        "-i"@,
        target.ssh_key@,
        login_of(*target),
    ]);
}

/// The arguments of `ssh` that run one command on the remote host.
pub fn ssh_command(target: &RemoteTarget, command: &str) -> (r: Vec<String>)
    ensures
        views(r@) == ssh_command_args(*target, command@),
{
    let mut v: Vec<String> = Vec::new();
    push_owned(&mut v, "-o");
    push_owned(&mut v, "BatchMode=yes");
    push_owned(&mut v, "-o");
    push_owned(&mut v, "StrictHostKeyChecking=no");
    push_control_options(&mut v);
    push_login_args(&mut v, target);
    push_owned(&mut v, command);
    assert(views(v@) =~= ssh_command_args(*target, command@));
    v
}

/// The arguments of the ssh probe for passwordless sudo.
pub open spec fn sudo_probe_args(t: RemoteTarget) -> Seq<Seq<char>> {
    seq!["-o"@, "BatchMode=yes"@, "-o"@, "StrictHostKeyChecking=no"@, "-o"@, "ConnectTimeout=5"@]
        + control_options() + seq![
        "-p"@,
        decimal(t.port as nat),
        "-i"@,
        t.ssh_key@,
        login_of(t),
        "sudo -n true 2>/dev/null"@,
    ]
}

/// The arguments of `ssh` that probe whether the remote user has
/// passwordless sudo.
pub fn sudo_probe_command(target: &RemoteTarget) -> (r: Vec<String>)
    ensures
        views(r@) == sudo_probe_args(*target),
{
    let mut v: Vec<String> = Vec::new();
    push_owned(&mut v, "-o");
    push_owned(&mut v, "BatchMode=yes");
    push_owned(&mut v, "-o");
    push_owned(&mut v, "StrictHostKeyChecking=no");
    push_owned(&mut v, "-o");
    push_owned(&mut v, "ConnectTimeout=5");
    push_control_options(&mut v);
    push_login_args(&mut v, target);
    push_owned(&mut v, "sudo -n true 2>/dev/null");
    assert(views(v@) =~= sudo_probe_args(*target));
    v
}

/// The remote command that creates the workspace directory.
pub fn remote_mkdir_command(remote_path: &str, has_sudo: bool) -> (r: String)
    ensures
        r@ == (if has_sudo {
            "sudo mkdir -p "@
        } else {
            "mkdir -p "@
        }) + remote_path@,
{
    let mut r = String::new();
    if has_sudo {
        push_str(&mut r, "sudo mkdir -p ");
    } else {
        push_str(&mut r, "mkdir -p ");
    }
    push_str(&mut r, remote_path);
    r
}

/// The remote command that gives the synced workspace back to the ssh user
/// after a sync as root.
pub fn remote_chown_command(remote_path: &str) -> (r: String)
    ensures
        r@ == "sudo chown -R $(id -u):$(id -g) "@ + remote_path@,
{
    let mut r = String::new();
    push_str(&mut r, "sudo chown -R $(id -u):$(id -g) ");
    push_str(&mut r, remote_path);
    r
}

/// The remote command that frees reverse-tunnel ports still held by a
/// previous session.
pub open spec fn fuser_kill(port: u16) -> Seq<char> {
    "sudo fuser -k "@ + decimal(port as nat) + "/tcp 2>/dev/null || fuser -k "@ + decimal(
        port as nat,
    ) + "/tcp 2>/dev/null || true"@
}

/// The kill commands of the remote ports, joined by `"; "`.
pub open spec fn fuser_kills(ports: Seq<(u16, u16)>) -> Seq<char>
    decreases ports.len(),
{
    if ports.len() == 0 {
        Seq::empty()
    } else if ports.len() == 1 {
        fuser_kill(ports[0].0)
    } else {
        fuser_kills(ports.drop_last()) + "; "@ + fuser_kill(ports.last().0)
    }
}

/// The remote command that frees the remote ports of `(remote, local)`
/// reverse-forward pairs.
pub fn release_remote_ports_command(port_mappings: &[(u16, u16)]) -> (r: String)
    ensures
        r@ == fuser_kills(port_mappings@),
{
    let mut r = String::new();
    let mut i: usize = 0;
    assert(port_mappings@.subrange(0, 0) =~= Seq::<(u16, u16)>::empty());
    while i < port_mappings.len()
        invariant
            i <= port_mappings@.len(),
            r@ == fuser_kills(port_mappings@.subrange(0, i as int)),
        decreases port_mappings.len() - i,
    {
        assert(port_mappings@.subrange(0, i + 1).drop_last() =~= port_mappings@.subrange(
            0,
            i as int,
        ));
        if i > 0 {
            push_str(&mut r, "; ");
        } else {
            assert(port_mappings@.subrange(0, 1) =~= seq![port_mappings@[0]]);
        }
        let p = port_mappings[i].0;
        push_str(&mut r, "sudo fuser -k ");
        push_decimal(&mut r, p as u64);
        push_str(&mut r, "/tcp 2>/dev/null || fuser -k ");
        push_decimal(&mut r, p as u64);
        push_str(&mut r, "/tcp 2>/dev/null || true");
        i = i + 1;
    }
    assert(port_mappings@.subrange(0, port_mappings@.len() as int) =~= port_mappings@);
    r
}

/// The options that keep a forwarding ssh process alive and make it fail
/// when the forward cannot be set up.
pub open spec fn forward_options() -> Seq<Seq<char>> {
    seq![
        "-o"@,
        "StrictHostKeyChecking=no"@,
        "-o"@,
        "BatchMode=yes"@,
        "-o"@,
        "ExitOnForwardFailure=yes"@,
        "-o"@,
        "ServerAliveInterval=30"@,
        "-o"@,
        "ServerAliveCountMax=3"@,
    ]
}

/// The arguments of an ssh port forward: `-L` forwards a local port to a
/// remote one, `-R` makes a remote port reach back to a local one.
pub open spec fn forward_args(t: RemoteTarget, flag: Seq<char>, spec_text: Seq<char>, multiplexed: bool) -> Seq<
    Seq<char>,
> {
    seq!["-N"@, flag, spec_text, "-p"@, decimal(t.port as nat), "-i"@, t.ssh_key@] + forward_options()
        + (if multiplexed {
        control_options()
    } else {
        Seq::empty()
    }) + seq![login_of(t)]
}

fn forward_command(target: &RemoteTarget, flag: &str, spec_text: &str, multiplexed: bool) -> (r: Vec<
    String,
>)
    ensures
        views(r@) == forward_args(*target, flag@, spec_text@, multiplexed),
{
    let mut v: Vec<String> = Vec::new();
    push_owned(&mut v, "-N");
    push_owned(&mut v, flag);
    push_owned(&mut v, spec_text);
    push_owned(&mut v, "-p");
    let port = crate::text::decimal_string(target.port as u64);
    push_owned(&mut v, port.as_str());
    push_owned(&mut v, "-i");
    push_owned(&mut v, target.ssh_key.as_str());
    push_owned(&mut v, "-o");
    push_owned(&mut v, "StrictHostKeyChecking=no");
    push_owned(&mut v, "-o");
    push_owned(&mut v, "BatchMode=yes");
    push_owned(&mut v, "-o");
    push_owned(&mut v, "ExitOnForwardFailure=yes");
    push_owned(&mut v, "-o");
    push_owned(&mut v, "ServerAliveInterval=30");
    push_owned(&mut v, "-o");
    push_owned(&mut v, "ServerAliveCountMax=3");
    if multiplexed {
        push_control_options(&mut v);
    }
    let login = ssh_login(target);
    push_owned(&mut v, login.as_str());
    assert(views(v@) =~= forward_args(*target, flag@, spec_text@, multiplexed));
    v
}

/// `{local}:localhost:{remote}`.
pub open spec fn local_forward_spec(local_port: u16, remote_port: u16) -> Seq<char> {
    decimal(local_port as nat) + ":localhost:"@ + decimal(remote_port as nat)
}

/// The port of the coast-service API on a remote host.
pub const REMOTE_SERVICE_PORT: u16 = 31420;

/// The arguments of the ssh process that tunnels a local port to the remote
/// coast-service, sharing the multiplexed connection.
pub fn service_tunnel_command(target: &RemoteTarget, local_port: u16) -> (r: Vec<String>)
    ensures
        views(r@) == forward_args(
            *target,
            "-L"@,
            local_forward_spec(local_port, REMOTE_SERVICE_PORT),
            true,
        ),
{
    let mut spec_text = crate::text::decimal_string(local_port as u64);
    push_str(&mut spec_text, ":localhost:");
    push_decimal(&mut spec_text, REMOTE_SERVICE_PORT as u64);
    forward_command(target, "-L", spec_text.as_str(), true)
}

/// The arguments of the ssh process that forwards a local port to a port of
/// the remote host.
pub fn port_forward_command(target: &RemoteTarget, local_port: u16, remote_port: u16) -> (r: Vec<
    String,
>)
    ensures
        views(r@) == forward_args(*target, "-L"@, local_forward_spec(local_port, remote_port), false),
{
    let mut spec_text = crate::text::decimal_string(local_port as u64);
    push_str(&mut spec_text, ":localhost:");
    push_decimal(&mut spec_text, remote_port as u64);
    forward_command(target, "-L", spec_text.as_str(), false)
}

/// `0.0.0.0:{remote}:localhost:{local}`.
pub open spec fn reverse_forward_spec(remote_port: u16, local_port: u16) -> Seq<char> {
    "0.0.0.0:"@ + decimal(remote_port as nat) + ":localhost:"@ + decimal(local_port as nat)
}

/// The arguments of the ssh process that lets a remote port reach a local
/// shared service.
pub fn reverse_forward_command(target: &RemoteTarget, remote_port: u16, local_port: u16) -> (r: Vec<
    String,
>)
    ensures
        views(r@) == forward_args(*target, "-R"@, reverse_forward_spec(remote_port, local_port), false),
{
    let mut spec_text = String::new();
    push_str(&mut spec_text, "0.0.0.0:");
    push_decimal(&mut spec_text, remote_port as u64);
    push_str(&mut spec_text, ":localhost:");
    push_decimal(&mut spec_text, local_port as u64);
    forward_command(target, "-R", spec_text.as_str(), false)
}

/// The `pkill -f` pattern that matches the forwards of one dynamic port.
pub fn tunnel_kill_pattern(port: u16) -> (r: String)
    ensures
        r@ == "ssh -N -L "@ + decimal(port as nat) + ":"@,
{
    let mut r = String::new();
    push_str(&mut r, "ssh -N -L ");
    push_decimal(&mut r, port as u64);
    push_str(&mut r, ":");
    r
}

// ---------------------------------------------------------------------------
// rsync
// ---------------------------------------------------------------------------

/// The ssh command rsync runs to reach the remote host.
pub open spec fn rsync_ssh(t: RemoteTarget) -> Seq<char> {
    "ssh -p "@ + decimal(t.port as nat) + " -i "@ + t.ssh_key@
        + " -o StrictHostKeyChecking=no -o BatchMode=yes -o ControlMaster=auto -o ControlPath=/tmp/coast-ssh-%r@%h:%p -o ControlPersist=300"@
}

fn rsync_ssh_exec(target: &RemoteTarget) -> (r: String)
    ensures
        r@ == rsync_ssh(*target),
{
    let mut r = String::new();
    push_str(&mut r, "ssh -p ");
    push_decimal(&mut r, target.port as u64);
    push_str(&mut r, " -i ");
    push_str(&mut r, target.ssh_key.as_str());
    push_str(
        &mut r,
        " -o StrictHostKeyChecking=no -o BatchMode=yes -o ControlMaster=auto -o ControlPath=/tmp/coast-ssh-%r@%h:%p -o ControlPersist=300",
    );
    r
}

/// The `--rsync-path` flag: rsync runs as root on the remote when the user
/// has sudo.
pub open spec fn rsync_path_flag(has_sudo: bool) -> Seq<char> {
    if has_sudo {
        "--rsync-path=sudo rsync"@
    } else {
        "--rsync-path=rsync"@
    }
}

/// The filters that protect generated directories from deletion.
pub open spec fn protect_filters() -> Seq<Seq<char>> {
    seq![
        "--delete-after"@,
        "--filter"@,
        "P generated/***"@,
        "--filter"@,
        "P .react-router/***"@,
        "--filter"@,
        "P internal/generated/***"@,
        "--filter"@,
        "P app/generated/***"@,
    ]
}

/// The directories that are never synced.
pub open spec fn sync_excludes() -> Seq<Seq<char>> {
    seq![
        "--exclude"@,
        ".git"@,
        "--exclude"@,
        "node_modules"@,
        "--exclude"@,
        "target"@,
        "--exclude"@,
        "__pycache__"@,
        "--exclude"@,
        ".react-router"@,
        "--exclude"@,
        ".next"@,
    ]
}

/// The arguments of the rsync that pushes a workspace to the remote host.
pub open spec fn rsync_push_args(
    t: RemoteTarget,
    local_path: Seq<char>,
    remote_path: Seq<char>,
    has_sudo: bool,
    delete_extra: bool,
) -> Seq<Seq<char>> {
    seq!["-rlDzP"@] + (if delete_extra {
        protect_filters()
    } else {
        Seq::empty()
    }) + seq![rsync_path_flag(has_sudo)] + sync_excludes() + seq![
        "-e"@,
        rsync_ssh(t),
        local_path + "/"@,
        login_of(t) + ":"@ + remote_path,
    ]
}

/// The arguments of `rsync` that push the local workspace (the contents of
/// `local_path`) to `remote_path`, excluding VCS and build directories;
/// with `delete_extra`, files gone locally are deleted remotely, except in
/// generated directories.
pub fn rsync_workspace_args(
    target: &RemoteTarget,
    local_path: &str,
    remote_path: &str,
    has_sudo: bool,
    delete_extra: bool,
) -> (r: Vec<String>)
    ensures
        views(r@) == rsync_push_args(*target, local_path@, remote_path@, has_sudo, delete_extra),
{
    let mut v: Vec<String> = Vec::new();
    push_owned(&mut v, "-rlDzP");
    if delete_extra {
        push_strs(
            &mut v,
            &[
                "--delete-after",
                "--filter",
                "P generated/***",
                "--filter",
                "P .react-router/***",
                "--filter",
                "P internal/generated/***",
                "--filter",
                "P app/generated/***",
            ],
        );
    }
    if has_sudo {
        push_owned(&mut v, "--rsync-path=sudo rsync");
    } else {
        push_owned(&mut v, "--rsync-path=rsync");
    }
    push_strs(
        &mut v,
        &[
            "--exclude",
            ".git",
            "--exclude",
            "node_modules",
            "--exclude",
            "target",
            "--exclude",
            "__pycache__",
            "--exclude",
            ".react-router",
            "--exclude",
            ".next",
        ],
    );
    push_owned(&mut v, "-e");
    let ssh = rsync_ssh_exec(target);
    push_owned(&mut v, ssh.as_str());
    let mut local = crate::text::owned(local_path);
    push_str(&mut local, "/");
    push_owned(&mut v, local.as_str());
    let mut remote = ssh_login(target);
    push_str(&mut remote, ":");
    push_str(&mut remote, remote_path);
    push_owned(&mut v, remote.as_str());
    assert(views(v@) =~= rsync_push_args(*target, local_path@, remote_path@, has_sudo, delete_extra));
    v
}

/// The arguments of the rsync that fetches a remote directory.
pub open spec fn rsync_pull_args(t: RemoteTarget, remote_path: Seq<char>, local_path: Seq<char>, has_sudo: bool) -> Seq<
    Seq<char>,
> {
    seq![
        "-azP"@,
        rsync_path_flag(has_sudo),
        "-e"@,
        rsync_ssh(t),
        login_of(t) + ":"@ + remote_path + "/"@,
        local_path + "/"@,
    ]
}

/// The arguments of `rsync` that fetch the contents of a remote directory
/// into a local one.
pub fn rsync_from_remote_args(target: &RemoteTarget, remote_path: &str, local_path: &str, has_sudo: bool) -> (r:
    Vec<String>)
    ensures
        views(r@) == rsync_pull_args(*target, remote_path@, local_path@, has_sudo),
{
    let mut v: Vec<String> = Vec::new();
    push_owned(&mut v, "-azP");
    if has_sudo {
        push_owned(&mut v, "--rsync-path=sudo rsync");
    } else {
        push_owned(&mut v, "--rsync-path=rsync");
    }
    push_owned(&mut v, "-e");
    let ssh = rsync_ssh_exec(target);
    push_owned(&mut v, ssh.as_str());
    let mut remote = ssh_login(target);
    push_str(&mut remote, ":");
    push_str(&mut remote, remote_path);
    push_str(&mut remote, "/");
    push_owned(&mut v, remote.as_str());
    let mut local = crate::text::owned(local_path);
    push_str(&mut local, "/");
    push_owned(&mut v, local.as_str());
    assert(views(v@) =~= rsync_pull_args(*target, remote_path@, local_path@, has_sudo));
    v
}

/// How a workspace push ended.
#[derive(Clone, Copy, PartialEq, Eq, Debug, Structural)]
pub enum RsyncPush {
    /// Every file was transferred.
    Complete,
    /// rsync exited with code 23: some files, typically ones a running dev
    /// server rewrote, were not transferred; the sources were.
    Partial,
}

/// The exit code that a process report shows: the code, or -1 when the
/// process was ended by a signal.
pub open spec fn shown_code(code: Option<i32>) -> int {
    match code {
        Some(c) => c as int,
        None => -1,
    }
}

/// Reads the outcome of a workspace push from rsync's exit code (`None` when
/// a signal ended it): 0 is success, 23 a partial transfer, anything else
/// an error that carries the code and rsync's error output.
pub fn rsync_push_outcome(exit_code: Option<i32>, stderr: &str) -> (r: Result<RsyncPush, CoastError>)
    ensures
        exit_code == Some(23i32) ==> r == Ok::<RsyncPush, CoastError>(RsyncPush::Partial),
        exit_code == Some(0i32) ==> r == Ok::<RsyncPush, CoastError>(RsyncPush::Complete),
        exit_code != Some(23i32) && exit_code != Some(0i32) ==> (r matches Err(CoastError::State(m))
            && m@ == "rsync failed (exit "@ + signed_decimal(shown_code(exit_code)) + "): "@
            + stderr@),
{
    let code: i32 = match exit_code {
        Some(c) => c,
        None => -1,
    };
    if exit_code.is_some() && code == 23 {
        return Ok(RsyncPush::Partial);
    }
    if exit_code.is_some() && code == 0 {
        return Ok(RsyncPush::Complete);
    }
    let mut m = String::new();
    push_str(&mut m, "rsync failed (exit ");
    push_signed_decimal(&mut m, code as i64);
    push_str(&mut m, "): ");
    push_str(&mut m, stderr);
    Err(CoastError::State(m))
}

/// Reads the outcome of a fetch from the remote host: anything but exit
/// code 0 is an error that carries the code and rsync's error output.
pub fn rsync_pull_outcome(exit_code: Option<i32>, stderr: &str) -> (r: Result<(), CoastError>)
    ensures
        exit_code == Some(0i32) ==> r is Ok,
        exit_code != Some(0i32) ==> (r matches Err(CoastError::State(m)) && m@
            == "rsync from remote failed (exit "@ + signed_decimal(shown_code(exit_code)) + "): "@
            + stderr@),
{
    let code: i32 = match exit_code {
        Some(c) => c,
        None => -1,
    };
    if exit_code.is_some() && code == 0 {
        return Ok(());
    }
    let mut m = String::new();
    push_str(&mut m, "rsync from remote failed (exit ");
    push_signed_decimal(&mut m, code as i64);
    push_str(&mut m, "): ");
    push_str(&mut m, stderr);
    Err(CoastError::State(m))
}

// ---------------------------------------------------------------------------
// mutagen
// ---------------------------------------------------------------------------

/// The host under which a shell container reaches the remote: a remote on
/// the local machine is reached through `host.docker.internal`.
pub open spec fn container_side_host(host: Seq<char>) -> Seq<char> {
    if host == "localhost"@ || host == "127.0.0.1"@ {
        "host.docker.internal"@
    } else {
        host
    }
}

/// The host of the remote as seen from inside a container.
pub fn mutagen_remote_host(host: &str) -> (r: String)
    ensures
        r@ == container_side_host(host@),
{
    if str_eq(host, "localhost") || str_eq(host, "127.0.0.1") {
        crate::text::owned("host.docker.internal")
    } else {
        crate::text::owned(host)
    }
}

/// The mutagen URL of the remote workspace: `{user}@{host}:{path}`, with the
/// host as seen from inside the container.
pub fn mutagen_remote_url(user: &str, host: &str, remote_workspace: &str) -> (r: String)
    ensures
        r@ == user@ + "@"@ + container_side_host(host@) + ":"@ + remote_workspace@,
{
    let h = mutagen_remote_host(host);
    let mut r = String::new();
    push_str(&mut r, user);
    push_str(&mut r, "@");
    push_str(&mut r, h.as_str());
    push_str(&mut r, ":");
    push_str(&mut r, remote_workspace);
    r
}

/// Where the shell container keeps the remote's ssh key.
pub const MUTAGEN_KEY_PATH: &'static str = "/root/.ssh/coast_remote_key";

/// The script that configures ssh inside the shell container and starts a
/// one-way mutagen session from `/workspace` to the remote.
pub open spec fn mutagen_script(session: Seq<char>, host: Seq<char>, port: u16, key: Seq<char>, url: Seq<char>) -> Seq<
    char,
> {
    "set -e\nmkdir -p /root/.ssh\nchmod 600 "@ + key
        + " 2>/dev/null\n\ncat > /root/.ssh/config << 'EOF'\nHost "@ + host
        + "\n  StrictHostKeyChecking accept-new\n  BatchMode yes\n  IdentityFile "@ + key
        + "\n  Port "@ + decimal(port as nat) + "\nEOF\n\neval $(ssh-agent -s)\nssh-add "@ + key
        + " 2>/dev/null\n\nmutagen daemon start 2>/dev/null || true\nmutagen sync terminate "@
        + session + " 2>/dev/null || true\nmutagen sync create \\\n  --name "@ + session
        + " \\\n  --sync-mode one-way-safe \\\n  --ignore-vcs \\\n  --ignore node_modules \\\n  --ignore target \\\n  --ignore __pycache__ \\\n  --ignore .next \\\n  /workspace \\\n  "@
        + url + "\n"@
}

/// The mutagen setup script of a session.
pub fn build_mutagen_setup_script(
    session_name: &str,
    remote_host: &str,
    port: u16,
    key_path: &str,
    remote_url: &str,
) -> (r: String)
    ensures
        r@ == mutagen_script(session_name@, remote_host@, port, key_path@, remote_url@),
{
    let mut r = String::new();
    push_str(&mut r, "set -e\nmkdir -p /root/.ssh\nchmod 600 ");
    push_str(&mut r, key_path);
    push_str(&mut r, " 2>/dev/null\n\ncat > /root/.ssh/config << 'EOF'\nHost ");
    push_str(&mut r, remote_host);
    push_str(&mut r, "\n  StrictHostKeyChecking accept-new\n  BatchMode yes\n  IdentityFile ");
    push_str(&mut r, key_path);
    push_str(&mut r, "\n  Port ");
    push_decimal(&mut r, port as u64);
    push_str(&mut r, "\nEOF\n\neval $(ssh-agent -s)\nssh-add ");
    push_str(&mut r, key_path);
    push_str(
        &mut r,
        " 2>/dev/null\n\nmutagen daemon start 2>/dev/null || true\nmutagen sync terminate ",
    );
    push_str(&mut r, session_name);
    push_str(&mut r, " 2>/dev/null || true\nmutagen sync create \\\n  --name ");
    push_str(&mut r, session_name);
    push_str(
        &mut r,
        " \\\n  --sync-mode one-way-safe \\\n  --ignore-vcs \\\n  --ignore node_modules \\\n  --ignore target \\\n  --ignore __pycache__ \\\n  --ignore .next \\\n  /workspace \\\n  ",
    );
    push_str(&mut r, remote_url);
    push_str(&mut r, "\n");
    r
}

/// The sync status reported for an instance after the mutagen setup ran
/// (`None` when the setup could not be run at all).
pub fn mutagen_sync_status(setup_succeeded: Option<bool>) -> (r: &'static str)
    ensures
        r@ == match setup_succeeded {
            Some(true) => "mutagen continuous sync active"@,
            Some(false) => "mutagen failed (rsync only)"@,
            None => "exec failed (rsync only)"@,
        },
{
    match setup_succeeded {
        Some(true) => "mutagen continuous sync active",
        Some(false) => "mutagen failed (rsync only)",
        None => "exec failed (rsync only)",
    }
}

// ---------------------------------------------------------------------------
// The tunnel cache
// ---------------------------------------------------------------------------

/// A cached tunnel to a remote coast-service: its local port and, when this
/// daemon started it, the pid of its ssh process.
#[derive(Clone, Copy, PartialEq, Eq, Debug, Structural)]
pub struct CachedTunnel {
    pub local_port: u16,
    pub ssh_pid: Option<u32>,
}

/// An SSH tunnel to a remote coast-service, as handed to a caller: its local
/// port, and the pid of the ssh process when the caller owns it.
#[derive(Clone, Copy, PartialEq, Eq, Debug, Structural)]
pub struct SshTunnel {
    /// Local port that forwards to the remote coast-service.
    pub local_port: u16,
    /// PID of the SSH process. None for cached (non-owned) tunnels.
    pub ssh_pid: Option<u32>,
}

/// The tunnels of this daemon, by cache key; each key occurs once.
#[derive(Debug)]
pub struct TunnelCache {
    entries: Vec<(String, CachedTunnel)>,
}

/// The keys of a list of cache entries.
pub open spec fn entry_keys(e: Seq<(String, CachedTunnel)>) -> Seq<Seq<char>> {
    e.map_values(|p: (String, CachedTunnel)| p.0@)
}

/// The map that a list of cache entries with distinct keys stands for.
pub open spec fn entries_map(e: Seq<(String, CachedTunnel)>) -> Map<Seq<char>, CachedTunnel>
    decreases e.len(),
{
    if e.len() == 0 {
        Map::empty()
    } else {
        entries_map(e.drop_last()).insert(e.last().0@, e.last().1)
    }
}

proof fn lemma_entries_map_dom(e: Seq<(String, CachedTunnel)>, k: Seq<char>)
    ensures
        entries_map(e).contains_key(k) <==> entry_keys(e).contains(k),
    decreases e.len(),
{
    if e.len() > 0 {
        lemma_entries_map_dom(e.drop_last(), k);
        assert(entry_keys(e.drop_last()) =~= entry_keys(e).drop_last());
        assert(entry_keys(e)[e.len() - 1] == e.last().0@);
        if entry_keys(e.drop_last()).contains(k) {
            let i = choose|i: int| 0 <= i < entry_keys(e.drop_last()).len() && entry_keys(e.drop_last())[i] == k;
            assert(entry_keys(e)[i] == k);
        }
        if entry_keys(e).contains(k) {
            let i = choose|i: int| 0 <= i < entry_keys(e).len() && entry_keys(e)[i] == k;
            if i < e.len() - 1 {
                assert(entry_keys(e.drop_last())[i] == k);
            }
        }
    }
}

proof fn lemma_entries_map_at(e: Seq<(String, CachedTunnel)>, i: int)
    requires
        entry_keys(e).no_duplicates(),
        0 <= i < e.len(),
    ensures
        entries_map(e).contains_key(e[i].0@),
        entries_map(e)[e[i].0@] == e[i].1,
    decreases e.len(),
{
    if i < e.len() - 1 {
        let d = e.drop_last();
        assert(entry_keys(d) =~= entry_keys(e).drop_last());
        assert(entry_keys(e)[i] == e[i].0@);
        assert(entry_keys(e)[e.len() - 1] == e.last().0@);
        assert(d[i] == e[i]);
        lemma_entries_map_at(d, i);
    }
}

proof fn lemma_entries_remove(e: Seq<(String, CachedTunnel)>, i: int)
    requires
        entry_keys(e).no_duplicates(),
        0 <= i < e.len(),
    ensures
        entry_keys(e.remove(i)).no_duplicates(),
        entries_map(e.remove(i)) == entries_map(e).remove(e[i].0@),
{
    let r = e.remove(i);
    assert(entry_keys(r) =~= entry_keys(e).remove(i));
    assert(entry_keys(e)[i] == e[i].0@);
    assert forall|k: Seq<char>| #[trigger] entries_map(r).contains_key(k) implies entries_map(
        e,
    ).remove(e[i].0@).contains_key(k) by {
        lemma_entries_map_dom(r, k);
        lemma_entries_map_dom(e, k);
        let j = choose|j: int| 0 <= j < entry_keys(r).len() && entry_keys(r)[j] == k;
        let jj = if j < i {
            j
        } else {
            j + 1
        };
        assert(entry_keys(r)[j] == entry_keys(e)[jj]);
        assert(jj != i);
        assert(entry_keys(e)[jj] != entry_keys(e)[i]);
    }
    assert forall|k: Seq<char>| #[trigger] entries_map(e).remove(e[i].0@).contains_key(k) implies entries_map(
        r,
    ).contains_key(k) by {
        lemma_entries_map_dom(r, k);
        lemma_entries_map_dom(e, k);
        let j = choose|j: int| 0 <= j < entry_keys(e).len() && entry_keys(e)[j] == k;
        assert(j != i);
        if j < i {
            assert(entry_keys(r)[j] == k);
        } else {
            assert(entry_keys(r)[j - 1] == k);
        }
    }
    assert forall|k: Seq<char>| #[trigger] entries_map(r).contains_key(k) implies entries_map(r)[k]
        == entries_map(e)[k] by {
        lemma_entries_map_dom(r, k);
        let j = choose|j: int| 0 <= j < entry_keys(r).len() && entry_keys(r)[j] == k;
        lemma_entries_map_at(r, j);
        let jj = if j < i { j } else { j + 1 };
        assert(r[j] == e[jj]);
        lemma_entries_map_at(e, jj);
    }
    assert(entries_map(r) =~= entries_map(e).remove(e[i].0@));
}

impl TunnelCache {
    /// The keys occur once each.
    pub closed spec fn wf(&self) -> bool {
        entry_keys(self.entries@).no_duplicates()
    }

    /// The tunnels by cache key.
    pub closed spec fn view(&self) -> Map<Seq<char>, CachedTunnel> {
        entries_map(self.entries@)
    }

    /// The tunnel cached under `key`, if any.
    pub open spec fn lookup(&self, key: Seq<char>) -> Option<CachedTunnel> {
        if self.view().contains_key(key) {
            Some(self.view()[key])
        } else {
            None
        }
    }

    /// An empty cache.
    pub fn new() -> (r: TunnelCache)
        ensures
            r.wf(),
            r.view() == Map::<Seq<char>, CachedTunnel>::empty(),
    {
        let r = TunnelCache { entries: Vec::new() };
        assert(entry_keys(r.entries@) =~= Seq::<Seq<char>>::empty());
        r
    }

    fn find(&self, key: &str) -> (r: Option<usize>)
        requires
            self.wf(),
        ensures
            match r {
                Some(i) => i < self.entries@.len() && self.entries@[i as int].0@ == key@,
                None => !entry_keys(self.entries@).contains(key@),
            },
    {
        let mut i: usize = 0;
        while i < self.entries.len()
            invariant
                i <= self.entries@.len(),
                forall|j: int| 0 <= j < i ==> self.entries@[j].0@ != key@,
            decreases self.entries.len() - i,
        {
            if str_eq(self.entries[i].0.as_str(), key) {
                return Some(i);
            }
            i = i + 1;
        }
        proof {
            if entry_keys(self.entries@).contains(key@) {
                let j = choose|j: int| 0 <= j < entry_keys(self.entries@).len() && entry_keys(self.entries@)[j] == key@;
                assert(self.entries@[j].0@ == key@);
            }
        }
        None
    }

    /// The tunnel cached under `key`.
    pub fn get(&self, key: &str) -> (r: Option<CachedTunnel>)
        requires
            self.wf(),
        ensures
            r == self.lookup(key@),
    {
        proof {
            lemma_entries_map_dom(self.entries@, key@);
        }
        match self.find(key) {
            Some(i) => {
                proof {
                    lemma_entries_map_at(self.entries@, i as int);
                }
                Some(self.entries[i].1)
            },
            None => None,
        }
    }

    /// Caches `tunnel` under `key`, replacing what was cached there.
    pub fn insert(&mut self, key: &str, tunnel: CachedTunnel)
        requires
            old(self).wf(),
        ensures
            final(self).wf(),
            final(self).view() == old(self).view().insert(key@, tunnel),
    {
        let _ = self.remove(key);
        let ghost before = self.entries@;
        self.entries.push((crate::text::owned(key), tunnel));
        proof {
            lemma_entries_map_dom(before, key@);
            assert(self.entries@.drop_last() =~= before);
            assert(entry_keys(self.entries@) =~= entry_keys(before).push(key@));
        }
    }

    /// Removes the tunnel cached under `key` and hands it back.
    pub fn remove(&mut self, key: &str) -> (r: Option<CachedTunnel>)
        requires
            old(self).wf(),
        ensures
            final(self).wf(),
            final(self).view() == old(self).view().remove(key@),
            match r {
                Some(t) => old(self).view().contains_key(key@) && old(self).view()[key@] == t,
                None => !old(self).view().contains_key(key@),
            },
    {
        proof {
            lemma_entries_map_dom(self.entries@, key@);
        }
        match self.find(key) {
            Some(i) => {
                let ghost before = self.entries@;
                proof {
                    lemma_entries_map_at(before, i as int);
                    lemma_entries_remove(before, i as int);
                }
                let (_, t) = self.entries.remove(i);
                Some(t)
            },
            None => {
                assert(self.view() =~= self.view().remove(key@));
                None
            },
        }
    }

    /// Forgets every cached tunnel.
    pub fn clear(&mut self)
        ensures
            final(self).wf(),
            final(self).view() == Map::<Seq<char>, CachedTunnel>::empty(),
    {
        self.entries = Vec::new();
        assert(entry_keys(self.entries@) =~= Seq::<Seq<char>>::empty());
    }
}

/// A tunnel read back from the cache is the one last cached under its key;
/// caching under one key leaves what every other key reads as it was; and
/// after a removal the key reads as empty. `cached` is the cache that
/// `insert(key, tunnel)` left of `before`, `removed` the one that
/// `remove(key)` left.
pub proof fn law_tunnel_cache_read_after_write(
    before: TunnelCache,
    cached: TunnelCache,
    removed: TunnelCache,
    key: Seq<char>,
    tunnel: CachedTunnel,
    other: Seq<char>,
)
    requires
        cached.view() == before.view().insert(key, tunnel),
        removed.view() == before.view().remove(key),
    ensures
        cached.lookup(key) == Some(tunnel),
        other != key ==> cached.lookup(other) == before.lookup(other),
        removed.lookup(key) is None,
        other != key ==> removed.lookup(other) == before.lookup(other),
{
}

/// What to do with the cache entry for a remote before handing out a tunnel.
#[derive(Clone, Copy, PartialEq, Eq, Debug, Structural)]
pub enum CachedTunnelStep {
    /// No tunnel is cached: establish one and cache it.
    Establish,
    /// The cached tunnel answers: hand out its port, not owned by the caller.
    Reuse(u16),
    /// The cached tunnel is dead: stop its ssh process when there is one,
    /// drop the entry, then establish a new tunnel.
    Replace(Option<u32>),
}

/// Decides from the cache entry and whether its port still answers.
pub fn cached_tunnel_step(cached: Option<CachedTunnel>, alive: bool) -> (r: CachedTunnelStep)
    ensures
        r == match cached {
            None => CachedTunnelStep::Establish,
            Some(t) => if alive {
                CachedTunnelStep::Reuse(t.local_port)
            } else {
                CachedTunnelStep::Replace(t.ssh_pid)
            },
        },
{
    match cached {
        None => CachedTunnelStep::Establish,
        Some(t) => if alive {
            CachedTunnelStep::Reuse(t.local_port)
        } else {
            CachedTunnelStep::Replace(t.ssh_pid)
        },
    }
}

/// The tunnel handed to a caller for a cached port: the cache keeps
/// ownership of the ssh process.
pub fn borrowed_tunnel(local_port: u16) -> (r: SshTunnel)
    ensures
        r.local_port == local_port,
        r.ssh_pid is None,
{
    SshTunnel { local_port, ssh_pid: None }
}

/// The cache entry of a newly established tunnel.
pub fn cache_entry_of(tunnel: &SshTunnel) -> (r: CachedTunnel)
    ensures
        r.local_port == tunnel.local_port,
        r.ssh_pid == tunnel.ssh_pid,
{
    CachedTunnel { local_port: tunnel.local_port, ssh_pid: tunnel.ssh_pid }
}

/// An ssh command on the remote host connects to the remote's port and
/// key as its user: its arguments hold `-p` followed by text that reads as
/// the port, and `-i` followed by the key; the login `user@host` comes
/// next to last and the command last.
pub proof fn law_ssh_command_reaches_the_remote(t: RemoteTarget, command: Seq<char>)
    ensures
        ({
            let args = ssh_command_args(t, command);
            &&& exists|i: int|
                0 <= i && i + 1 < args.len() && #[trigger] args[i] == "-p"@ && crate::text::parse_unsigned(args[i + 1])
                    == Some(t.port as nat)
            &&& exists|i: int| 0 <= i && i + 1 < args.len() && #[trigger] args[i] == "-i"@ && args[i + 1] == t.ssh_key@
            &&& args.len() >= 2
            &&& args[args.len() - 2] == t.user@ + "@"@ + t.host@
            &&& args[args.len() - 1] == command
        }),
{
    let args = ssh_command_args(t, command);
    crate::text::lemma_parse_unsigned_decimal(t.port as nat);
    assert(args.len() == 16);
    assert(args[10] == "-p"@);
    assert(args[11] == decimal(t.port as nat));
    assert(args[12] == "-i"@);
    assert(args[13] == t.ssh_key@);
}

/// `ssh` arguments that connect to the remote: `-p` followed by text that
/// reads as its port, `-i` followed by its key, and its login `user@host`.
pub open spec fn connects_to(args: Seq<Seq<char>>, t: RemoteTarget) -> bool {
    &&& exists|i: int|
        0 <= i && i + 1 < args.len() && #[trigger] args[i] == "-p"@ && crate::text::parse_unsigned(args[i + 1])
            == Some(t.port as nat)
    &&& exists|i: int| 0 <= i && i + 1 < args.len() && #[trigger] args[i] == "-i"@ && args[i + 1] == t.ssh_key@
    &&& exists|i: int| 0 <= i < args.len() && #[trigger] args[i] == t.user@ + "@"@ + t.host@
}

/// The sudo probe and every port forward connect to the remote's port with
/// its key as its user; a forward's login comes last, the probe's command
/// last and its login just before.
pub proof fn law_ssh_probes_and_forwards_reach_the_remote(
    t: RemoteTarget,
    flag: Seq<char>,
    spec_text: Seq<char>,
    multiplexed: bool,
)
    ensures
        connects_to(ssh_command_args(t, "sudo -n true 2>/dev/null"@), t),
        connects_to(sudo_probe_args(t), t),
        sudo_probe_args(t).last() == "sudo -n true 2>/dev/null"@,
        sudo_probe_args(t)[sudo_probe_args(t).len() - 2] == t.user@ + "@"@ + t.host@,
        connects_to(forward_args(t, flag, spec_text, multiplexed), t),
        forward_args(t, flag, spec_text, multiplexed).last() == t.user@ + "@"@ + t.host@,
{
    crate::text::lemma_parse_unsigned_decimal(t.port as nat);
    law_ssh_command_reaches_the_remote(t, "sudo -n true 2>/dev/null"@);
    let c = ssh_command_args(t, "sudo -n true 2>/dev/null"@);
    assert(c[c.len() - 2] == t.user@ + "@"@ + t.host@);
    let a = sudo_probe_args(t);
    assert(a.len() == 18);
    assert(a[12] == "-p"@);
    assert(a[13] == decimal(t.port as nat));
    assert(a[14] == "-i"@);
    assert(a[15] == t.ssh_key@);
    assert(a[16] == t.user@ + "@"@ + t.host@);
    let f = forward_args(t, flag, spec_text, multiplexed);
    assert(f[3] == "-p"@);
    assert(f[4] == decimal(t.port as nat));
    assert(f[5] == "-i"@);
    assert(f[6] == t.ssh_key@);
    assert(f[f.len() - 1] == t.user@ + "@"@ + t.host@);
}

/// An `rsync -e` transport that runs `ssh` on the remote's port with its
/// key.
pub open spec fn ssh_transport_for(text: Seq<char>, t: RemoteTarget) -> bool {
    exists|port_text: Seq<char>, rest: Seq<char>|
        #![trigger crate::text::parse_unsigned(port_text), "ssh -p "@ + port_text + " -i "@ + t.ssh_key@ + rest]
        text == "ssh -p "@ + port_text + " -i "@ + t.ssh_key@ + rest && crate::text::parse_unsigned(port_text) == Some(
            t.port as nat,
        )
}

/// The workspace push and the directory fetch run over `ssh` to the
/// remote's port with its key, and copy between the local directory's
/// contents and `user@host:` the remote directory, in the right direction.
pub proof fn law_rsync_reaches_the_remote(
    t: RemoteTarget,
    local_path: Seq<char>,
    remote_path: Seq<char>,
    has_sudo: bool,
    delete_extra: bool,
)
    ensures
        ({
            let push = rsync_push_args(t, local_path, remote_path, has_sudo, delete_extra);
            &&& push.len() >= 4
            &&& push[push.len() - 4] == "-e"@
            &&& ssh_transport_for(push[push.len() - 3], t)
            &&& push[push.len() - 2] == local_path + "/"@
            &&& push[push.len() - 1] == t.user@ + "@"@ + t.host@ + ":"@ + remote_path
        }),
        ({
            let pull = rsync_pull_args(t, remote_path, local_path, has_sudo);
            &&& pull.len() == 6
            &&& pull[2] == "-e"@
            &&& ssh_transport_for(pull[3], t)
            &&& pull[4] == t.user@ + "@"@ + t.host@ + ":"@ + remote_path + "/"@
            &&& pull[5] == local_path + "/"@
        }),
{
    crate::text::lemma_parse_unsigned_decimal(t.port as nat);
    let rest = " -o StrictHostKeyChecking=no -o BatchMode=yes -o ControlMaster=auto -o ControlPath=/tmp/coast-ssh-%r@%h:%p -o ControlPersist=300"@;
    let p = decimal(t.port as nat);
    assert(rsync_ssh(t) == "ssh -p "@ + p + " -i "@ + t.ssh_key@ + rest);
    assert(ssh_transport_for(rsync_ssh(t), t));
    let push = rsync_push_args(t, local_path, remote_path, has_sudo, delete_extra);
    assert(push[push.len() - 3] == rsync_ssh(t));
}

} // verus!
