use coast_daemon::remote::{
    mutagen_terminate_command,
    build_mutagen_setup_script, cached_tunnel_step, mutagen_remote_url, mutagen_session_name,
    mutagen_sync_status, release_remote_ports_command, remote_chown_command, remote_mkdir_command,
    remote_workspace_path, reverse_forward_command, rsync_from_remote_args, rsync_pull_outcome,
    rsync_push_outcome, rsync_workspace_args, service_home_from_info, service_tunnel_command,
    ssh_command, sudo_probe_command, tunnel_cache_key, tunnel_kill_pattern, CachedTunnel,
    CachedTunnelStep, RemoteTarget, RsyncPush, TunnelCache,
};

fn target() -> RemoteTarget {
    RemoteTarget { user: "dev".to_string(), host: "box".to_string(), port: 2222, ssh_key: "/k/id".to_string() }
}

#[test]
fn test_mutagen_session_name_format() {
    let name = mutagen_session_name("my-app", "dev-1");
    assert_eq!(name, "coast-my-app-dev-1");
}

#[test]
fn test_mutagen_session_name_special_chars() {
    let name = mutagen_session_name("coast-demo", "feature-oauth");
    assert_eq!(name, "coast-coast-demo-feature-oauth");
}

#[test]
fn remote_paths_and_keys() {
    assert_eq!(remote_workspace_path("/srv/coast", "proj", "dev-1"), "/srv/coast/workspaces/proj/dev-1");
    assert_eq!(tunnel_cache_key(&target()), "dev@box:2222");
    assert_eq!(service_home_from_info("{\"service_home\":\"/opt/cs\",\"version\":\"1\"}"), "/opt/cs");
    assert_eq!(service_home_from_info("{\"version\":\"1\"}"), "~/.coast-service");
    assert_eq!(service_home_from_info("<html>"), "~/.coast-service");
    assert_eq!(tunnel_kill_pattern(52340), "ssh -N -L 52340:");
}

#[test]
fn rsync_push_arguments() {
    let args = rsync_workspace_args(&target(), "/home/me/app", "/srv/ws", true, true);
    assert_eq!(args[0], "-rlDzP");
    assert_eq!(args[1], "--delete-after");
    assert!(args.contains(&"P generated/***".to_string()));
    assert!(args.contains(&"--rsync-path=sudo rsync".to_string()));
    assert_eq!(args[args.len() - 2], "/home/me/app/");
    assert_eq!(args[args.len() - 1], "dev@box:/srv/ws");
    assert_eq!(
        args[args.len() - 3],
        "ssh -p 2222 -i /k/id -o StrictHostKeyChecking=no -o BatchMode=yes -o ControlMaster=auto -o ControlPath=/tmp/coast-ssh-%r@%h:%p -o ControlPersist=300"
    );
    let plain = rsync_workspace_args(&target(), "/a", "/b", false, false);
    assert_eq!(plain.len(), 18);
    assert_eq!(plain[1], "--rsync-path=rsync");
    let pull = rsync_from_remote_args(&target(), "/srv/art", "/tmp/art", false);
    assert_eq!(pull, vec![
        "-azP".to_string(),
        "--rsync-path=rsync".to_string(),
        "-e".to_string(),
        args[args.len() - 3].clone(),
        "dev@box:/srv/art/".to_string(),
        "/tmp/art/".to_string(),
    ]);
}

#[test]
fn rsync_exit_codes() {
    assert_eq!(rsync_push_outcome(Some(0), "").unwrap(), RsyncPush::Complete);
    assert_eq!(rsync_push_outcome(Some(23), "partial").unwrap(), RsyncPush::Partial);
    assert_eq!(rsync_push_outcome(Some(12), "boom").unwrap_err().message(), "rsync failed (exit 12): boom");
    assert_eq!(rsync_push_outcome(None, "killed").unwrap_err().message(), "rsync failed (exit -1): killed");
    assert!(rsync_pull_outcome(Some(0), "").is_ok());
    assert_eq!(rsync_pull_outcome(Some(23), "x").unwrap_err().message(), "rsync from remote failed (exit 23): x");
}

#[test]
fn ssh_commands() {
    let args = ssh_command(&target(), "mkdir -p /srv");
    assert_eq!(args[0], "-o");
    assert_eq!(args[1], "BatchMode=yes");
    assert_eq!(args[args.len() - 2], "dev@box");
    assert_eq!(args[args.len() - 1], "mkdir -p /srv");
    assert!(sudo_probe_command(&target()).contains(&"ConnectTimeout=5".to_string()));
    assert_eq!(remote_mkdir_command("/srv/ws", true), "sudo mkdir -p /srv/ws");
    assert_eq!(remote_mkdir_command("/srv/ws", false), "mkdir -p /srv/ws");
    assert_eq!(remote_chown_command("/srv/ws"), "sudo chown -R $(id -u):$(id -g) /srv/ws");
    assert_eq!(
        release_remote_ports_command(&[(5432, 15432), (6379, 16379)]),
        "sudo fuser -k 5432/tcp 2>/dev/null || fuser -k 5432/tcp 2>/dev/null || true; sudo fuser -k 6379/tcp 2>/dev/null || fuser -k 6379/tcp 2>/dev/null || true"
    );
    let tunnel = service_tunnel_command(&target(), 40000);
    assert_eq!(tunnel[0..3].to_vec(), vec!["-N", "-L", "40000:localhost:31420"]);
    assert!(tunnel.contains(&"ControlPersist=300".to_string()));
    let reverse = reverse_forward_command(&target(), 5432, 15432);
    assert_eq!(reverse[2], "0.0.0.0:5432:localhost:15432");
    assert!(!reverse.contains(&"ControlPersist=300".to_string()));
}

#[test]
fn mutagen_script_and_status() {
    assert_eq!(mutagen_remote_url("dev", "localhost", "/srv/ws"), "dev@host.docker.internal:/srv/ws");
    assert_eq!(mutagen_remote_url("dev", "box", "/srv/ws"), "dev@box:/srv/ws");
    let script = build_mutagen_setup_script("coast-p-i", "box", 22, "/root/.ssh/k", "dev@box:/srv/ws");
    assert!(script.starts_with("set -e\nmkdir -p /root/.ssh\nchmod 600 /root/.ssh/k 2>/dev/null\n"));
    assert!(script.contains("Host box\n  StrictHostKeyChecking accept-new\n"));
    assert!(script.contains("  Port 22\nEOF\n"));
    assert!(script.contains("mutagen sync create \\\n  --name coast-p-i \\\n"));
    assert!(script.ends_with("  /workspace \\\n  dev@box:/srv/ws\n"));
    assert_eq!(mutagen_sync_status(Some(true)), "mutagen continuous sync active");
    assert_eq!(mutagen_sync_status(Some(false)), "mutagen failed (rsync only)");
    assert_eq!(mutagen_sync_status(None), "exec failed (rsync only)");
}

#[test]
fn tunnel_cache_reads_back_what_was_written() {
    let mut cache = TunnelCache::new();
    assert!(cache.get("a").is_none());
    cache.insert("a", CachedTunnel { local_port: 1, ssh_pid: Some(10) });
    cache.insert("b", CachedTunnel { local_port: 2, ssh_pid: None });
    cache.insert("a", CachedTunnel { local_port: 3, ssh_pid: Some(30) });
    assert_eq!(cache.get("a"), Some(CachedTunnel { local_port: 3, ssh_pid: Some(30) }));
    assert_eq!(cache.get("b"), Some(CachedTunnel { local_port: 2, ssh_pid: None }));
    assert_eq!(cache.remove("a"), Some(CachedTunnel { local_port: 3, ssh_pid: Some(30) }));
    assert!(cache.get("a").is_none());
    assert!(cache.remove("a").is_none());
    cache.clear();
    assert!(cache.get("b").is_none());
}

#[test]
fn cached_tunnel_steps() {
    assert_eq!(cached_tunnel_step(None, true), CachedTunnelStep::Establish);
    let t = CachedTunnel { local_port: 4000, ssh_pid: Some(9) };
    assert_eq!(cached_tunnel_step(Some(t), true), CachedTunnelStep::Reuse(4000));
    assert_eq!(cached_tunnel_step(Some(t), false), CachedTunnelStep::Replace(Some(9)));
}

#[test]
fn mutagen_terminate_command_ignores_missing_sessions() {
    assert_eq!(
        mutagen_terminate_command("coast-proj-dev-1"),
        "mutagen sync terminate coast-proj-dev-1 2>/dev/null || true"
    );
}
