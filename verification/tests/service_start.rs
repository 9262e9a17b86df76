use coast_daemon::compose::{
    after_health_poll, compose_base_args, compose_project_dir, compose_project_name,
    compose_ps_output_is_ready, extend_command, has_autostart_false, health_poll_interval_ms,
    is_hot_service, resolve_command, rewrite_volume_with_rslave, unhealthy_services_error,
    HealthPoll, ARCHIVE_BUILD_DIR, ARTIFACT_COMPOSE_PATH, MERGED_COMPOSE_PATH,
    bare_service_label, bare_services_exec_failed, bare_services_failed, starting_step,
    coastfile_flags, coastfile_info, compose_rel_dir, dind_step_exec_failed, dind_step_failed,
};
use coast_daemon::status::CoastError;

#[test]
fn test_health_poll_interval_first_five_seconds() {
    assert_eq!(health_poll_interval_ms(0), 500);
    assert_eq!(health_poll_interval_ms(4), 500);
}

#[test]
fn test_health_poll_interval_mid_window() {
    assert_eq!(health_poll_interval_ms(5), 1000);
    assert_eq!(health_poll_interval_ms(29), 1000);
}

#[test]
fn test_health_poll_interval_late_window() {
    assert_eq!(health_poll_interval_ms(30), 2000);
}

#[test]
fn test_compose_project_dir_prefers_archive_build() {
    assert_eq!(compose_project_dir(true, Some("apps/web")), ARCHIVE_BUILD_DIR.to_string());
    assert_eq!(compose_project_dir(false, Some("apps/web")), "/workspace/apps/web".to_string());
    assert_eq!(compose_project_dir(false, None), "/workspace".to_string());
}

#[test]
fn test_compose_project_name_uses_relative_dir_when_present() {
    assert_eq!(compose_project_name("proj", Some("apps/web")), "apps/web");
    assert_eq!(compose_project_name("proj", None), "coast-proj");
}

#[test]
fn test_compose_base_args_with_merged_override() {
    let args = compose_base_args(false, true, false, "apps/web", "/workspace/apps/web");
    assert_eq!(
        args,
        vec!["docker", "compose", "-p", "apps/web", "-f", MERGED_COMPOSE_PATH, "--project-directory", "/workspace/apps/web"]
    );
}

#[test]
fn test_compose_base_args_with_artifact_compose() {
    let args = compose_base_args(false, false, true, "coast-proj", "/workspace");
    assert_eq!(
        args,
        vec!["docker", "compose", "-p", "coast-proj", "-f", ARTIFACT_COMPOSE_PATH, "--project-directory", "/workspace"]
    );
}

#[test]
fn test_compose_base_args_plain_workspace() {
    let args = compose_base_args(false, false, false, "coast-proj", "/workspace");
    assert_eq!(args, vec!["docker", "compose", "-p", "coast-proj"]);
}

#[test]
fn test_compose_base_args_for_archive_build() {
    let args = compose_base_args(true, false, false, "apps/web", ARCHIVE_BUILD_DIR);
    assert_eq!(args, vec!["docker", "compose", "-p", "apps/web", "--project-directory", ARCHIVE_BUILD_DIR]);
}

#[test]
fn test_compose_ps_output_is_ready_with_running_lines() {
    let output = r#"{"State":"running"}
{"State":"running"}"#;
    assert!(compose_ps_output_is_ready(output));
}

#[test]
fn test_compose_ps_output_is_ready_matches_healthy_substring() {
    assert!(compose_ps_output_is_ready(r#"{"Health":"healthy"}"#));
}

#[test]
fn test_compose_ps_output_is_ready_rejects_empty_or_unhealthy_lines() {
    assert!(!compose_ps_output_is_ready(""));
    assert!(!compose_ps_output_is_ready(r#"{"State":"exited"}"#));
}

#[test]
fn health_wait_decisions() {
    assert_eq!(after_health_poll(true, "{\"State\":\"running\"}", 100), HealthPoll::Ready);
    assert_eq!(after_health_poll(false, "{\"State\":\"running\"}", 2), HealthPoll::Wait(500));
    assert_eq!(after_health_poll(true, "{\"State\":\"exited\"}", 10), HealthPoll::Wait(1000));
    assert!(!compose_ps_output_is_ready("{\"State\":\"running\"}\n\n"));
    let e = unhealthy_services_error("dev-1", "log line");
    assert_eq!(
        e.message(),
        "Services in instance 'dev-1' did not become healthy within 120s. Check the service logs below and fix any issues, then retry with `coast rm dev-1 && coast run dev-1`.\nRecent logs:\nlog line"
    );
}

#[test]
fn commands_extend_base_args() {
    let base = vec!["docker".to_string(), "compose".to_string()];
    assert_eq!(extend_command(&base, &["up", "-d", "--remove-orphans"]), vec!["docker", "compose", "up", "-d", "--remove-orphans"]);
    assert_eq!(resolve_command(&vec![]), vec!["sh"]);
    assert_eq!(resolve_command(&vec!["ls".to_string()]), vec!["ls"]);
}

#[test]
fn rslave_short_form_volumes() {
    assert_eq!(rewrite_volume_with_rslave("./src:/app/src").as_deref(), Some("./src:/app/src:rslave"));
    assert_eq!(rewrite_volume_with_rslave("/abs:/app:ro").as_deref(), Some("/abs:/app:ro,rslave"));
    assert_eq!(rewrite_volume_with_rslave("./src:/app:rw,rshared"), None);
    assert_eq!(rewrite_volume_with_rslave("pgdata:/var/lib/postgresql/data"), None);
    assert_eq!(rewrite_volume_with_rslave("./only-source"), None);
    assert!(is_hot_service("web", true, &vec![]));
    assert!(is_hot_service("web", false, &vec!["api".to_string(), "web".to_string()]));
    assert!(!is_hot_service("db", false, &vec!["web".to_string()]));
}

#[test]
fn autostart_switch() {
    assert!(has_autostart_false("[coast]\n  autostart = false\n"));
    assert!(has_autostart_false("autostart = false # later"));
    assert!(!has_autostart_false("autostart = true\n"));
    assert!(!has_autostart_false("autostart = falsey"));
}

#[test]
fn bare_service_errors_and_labels() {
    assert_eq!(starting_step(4), 3);
    match bare_services_failed("dev-1", 2, "boom") {
        CoastError::Docker(m) => assert_eq!(
            m,
            "Failed to start bare services for instance 'dev-1' (exit code 2): boom"
        ),
        other => panic!("unexpected {other:?}"),
    }
    match bare_services_exec_failed("dev-1", "no container") {
        CoastError::Docker(m) => assert_eq!(
            m,
            "Failed to start bare services for instance 'dev-1': no container"
        ),
        other => panic!("unexpected {other:?}"),
    }
    assert_eq!(bare_service_label("web", "npm start"), "web (npm start)");
}

#[test]
fn test_read_coastfile_flags_missing_file() {
    let (has_compose, has_services, autostart) = coastfile_flags(false, None, "");
    assert!(has_compose);
    assert!(!has_services);
    assert!(autostart);
}

#[test]
fn coastfile_flags_of_a_present_coastfile() {
    assert_eq!(coastfile_flags(true, Some((false, true)), "[coast]\nautostart = false\n"), (false, true, false));
    assert_eq!(coastfile_flags(true, None, "name = 'x'"), (true, false, true));
    assert_eq!(coastfile_flags(true, Some((true, false)), "  autostart = false # off\n"), (true, false, false));
}

#[test]
fn dind_step_errors() {
    match dind_step_failed("compose up", "dev-1", " bad \n") {
        CoastError::Docker(m) => assert_eq!(m, "compose up failed in instance 'dev-1': bad"),
        other => panic!("unexpected {other:?}"),
    }
    match dind_step_exec_failed("compose up", "dev-1", "gone") {
        CoastError::Docker(m) => assert_eq!(m, "Failed to exec compose up in instance 'dev-1': gone"),
        other => panic!("unexpected {other:?}"),
    }
}

#[test]
fn coastfile_info_for_runs() {
    let path = "/home/u/.coast/images/p/b1/coastfile.toml";
    assert_eq!(coastfile_info(false, "", None, path), (true, None, false));
    assert_eq!(coastfile_info(true, "autostart = false\n", Some((Some("x"), true)), path), (false, None, false));
    assert_eq!(coastfile_info(true, "", None, path), (true, None, false));
    assert_eq!(
        coastfile_info(true, "", Some((Some("/home/u/.coast/images/p/b1/app/compose.yml"), true)), path),
        (true, Some("app".to_string()), true)
    );
    assert_eq!(
        coastfile_info(true, "", Some((Some("/home/u/.coast/images/p/b1/compose.yml"), false)), path),
        (true, None, false)
    );
    assert_eq!(coastfile_info(true, "", Some((None, true)), path), (false, None, true));
    assert_eq!(
        coastfile_info(true, "", Some((Some("/elsewhere/compose.yml"), false)), path),
        (true, None, false)
    );
}

#[test]
fn compose_rel_dir_from_parents() {
    let o = |s: &str| Some(s.to_string());
    assert_eq!(compose_rel_dir(o("/p/infra"), o("/p"), o("infra")), o("infra"));
    assert_eq!(compose_rel_dir(o("/p"), o("/p"), o("")), None);
    assert_eq!(compose_rel_dir(o("/q/infra"), o("/p"), None), None);
    assert_eq!(compose_rel_dir(o("/p/."), o("/p"), o("")), None);
    assert_eq!(compose_rel_dir(None, o("/p"), o("x")), None);
}
