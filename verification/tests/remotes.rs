use coast_daemon::remotes::{
    binary_destination, deploy_step_outcome, no_remote_error, remote_added_message,
    remote_count_message, remote_ping_args, remote_removed, remote_scp_args, remote_ssh_args,
    remote_coastfile_name, remote_test_outcome, select_remote, service_binary_from_which,
    setup_message, validate_new_remote, validate_setup, DeployStep,
};
use coast_daemon::status::CoastError;

fn state(e: CoastError) -> String {
    match e {
        CoastError::State(m) => m,
        other => panic!("expected a state error, got {other:?}"),
    }
}

#[test]
fn new_remote_fields_are_checked_in_order() {
    assert_eq!(state(validate_new_remote("", "", 0).unwrap_err()), "remote name cannot be empty");
    assert_eq!(state(validate_new_remote("box", "", 0).unwrap_err()), "remote host cannot be empty");
    assert_eq!(state(validate_new_remote("box", "10.0.0.1", 0).unwrap_err()), "remote port cannot be 0");
    assert!(validate_new_remote("box", "10.0.0.1", 22).is_ok());
}

#[test]
fn registry_messages() {
    assert_eq!(remote_added_message("box", "ubuntu", "10.0.0.1", 2222), "Remote 'box' added (ubuntu@10.0.0.1:2222)");
    assert_eq!(remote_count_message(3), "3 remote(s)");
    assert_eq!(remote_removed(true, "box").unwrap(), "Remote 'box' removed");
    assert_eq!(
        state(remote_removed(false, "box").unwrap_err()),
        "no remote named 'box'. Run `coast remote ls` to see registered remotes."
    );
    assert_eq!(state(no_remote_error("x")), "no remote named 'x'. Run `coast remote ls` to see registered remotes.");
}

#[test]
fn ssh_and_scp_arguments() {
    assert_eq!(
        remote_ssh_args(22, Some("/k"), "u", "h"),
        vec!["-o", "BatchMode=yes", "-o", "StrictHostKeyChecking=accept-new", "-p", "22", "-i", "/k", "u@h"]
    );
    assert_eq!(
        remote_ssh_args(2200, None, "u", "h"),
        vec!["-o", "BatchMode=yes", "-o", "StrictHostKeyChecking=accept-new", "-p", "2200", "u@h"]
    );
    assert_eq!(
        remote_scp_args(22, Some("/k")),
        vec!["-o", "BatchMode=yes", "-o", "StrictHostKeyChecking=accept-new", "-P", "22", "-i", "/k"]
    );
    assert_eq!(
        remote_ping_args(22, None, "u", "h"),
        vec![
            "-o", "BatchMode=yes", "-o", "ConnectTimeout=10", "-o",
            "StrictHostKeyChecking=accept-new", "-p", "22", "u@h", "echo coast-service-ping",
        ]
    );
}

#[test]
fn connectivity_test_outcomes() {
    assert_eq!(
        remote_test_outcome("box", "u", "h", 22, true, Some(0), "coast-service-ping\n", "").unwrap(),
        "Remote 'box' is reachable (u@h:22)"
    );
    assert_eq!(
        remote_test_outcome("box", "u", "h", 22, true, Some(0), "hello", "").unwrap(),
        "SSH to 'box' succeeded but unexpected output. Check that the remote is accessible."
    );
    assert_eq!(
        state(remote_test_outcome("box", "u", "h", 22, false, Some(255), "", " denied \n").unwrap_err()),
        "SSH to 'box' failed (exit 255): denied"
    );
    assert_eq!(
        state(remote_test_outcome("box", "u", "h", 22, false, None, "", "").unwrap_err()),
        "SSH to 'box' failed (exit -1): "
    );
}

#[test]
fn setup_steps_and_messages() {
    assert_eq!(
        state(validate_setup(true).unwrap_err()),
        "Docker-based setup is not yet implemented. Omit --docker to deploy the binary directly."
    );
    assert!(validate_setup(false).is_ok());
    assert_eq!(service_binary_from_which(true, "/usr/bin/coast-service\n"), Some("/usr/bin/coast-service".to_string()));
    assert_eq!(service_binary_from_which(true, "  \n"), None);
    assert_eq!(service_binary_from_which(false, "/x"), None);
    assert_eq!(binary_destination("u", "h"), "u@h:~/.coast-service/coast-service");
    assert!(deploy_step_outcome(DeployStep::MakeDirectory, true, "x").is_ok());
    assert_eq!(
        state(deploy_step_outcome(DeployStep::MakeDirectory, false, " no space\n").unwrap_err()),
        "failed to create remote directory: no space"
    );
    assert_eq!(
        state(deploy_step_outcome(DeployStep::CopyBinary, false, "lost").unwrap_err()),
        "failed to copy binary to remote: lost"
    );
    assert_eq!(setup_message("box", "u", "h", 22, true), "coast-service deployed and running on 'box' (u@h:22)");
    assert_eq!(
        setup_message("box", "u", "h", 22, false),
        "coast-service deployed to 'box' but health check failed. Check ~/.coast-service/coast-service.log on the remote."
    );
}

#[test]
fn choosing_the_remote_of_a_run() {
    let none: Vec<String> = vec![];
    assert_eq!(
        state(select_remote(&none, Some("a")).unwrap_err()),
        "No remotes registered. Run `coast remote add <name> <user@host>` first."
    );
    let one = vec!["a".to_string()];
    assert_eq!(select_remote(&one, None).unwrap(), 0);
    let two = vec!["a".to_string(), "b".to_string()];
    assert_eq!(select_remote(&two, Some("b")).unwrap(), 1);
    assert_eq!(
        state(select_remote(&two, Some("c")).unwrap_err()),
        "remote 'c' is not registered. Run `coast remote add c` first."
    );
    assert_eq!(
        state(select_remote(&two, None).unwrap_err()),
        "Multiple remotes registered (a, b). Use `--remote <name>` to specify which one."
    );
}

#[test]
fn remote_coastfile_names() {
    assert_eq!(remote_coastfile_name(Some("gpu")), "Coastfile.gpu.toml");
    assert_eq!(remote_coastfile_name(Some("default")), "Coastfile.remote.toml");
    assert_eq!(remote_coastfile_name(None), "Coastfile.remote.toml");
}
