use coast_daemon::builds::{build_dir_path, manifest_coast_image, manifest_project_root, resolve_artifact_dir};
use coast_daemon::paths::{
    build_remount_cmd, fallback_coast_home, image_cache_dir, join_path, override_dir,
    project_images_dir, shared_caddy_pki_host_dir, shared_caddy_pki_permission_fixup_command,
    SHARED_CADDY_PKI_CONTAINER_PATH,
};
use coast_daemon::ports::{
    is_retryable_port_publish_error, retries_exhausted_error, should_retry_container_create_error,
    wrap_container_create_error,
};
use coast_daemon::status::CoastError;

#[test]
fn test_resolve_artifact_dir_with_build_id_missing_falls_back_to_latest() {
    let images = project_images_dir("/home/me/.coast", "myproj");
    let path = resolve_artifact_dir(&images, Some("nonexistent-build-id"), false);
    assert!(path.contains("latest"), "should fall back to latest when build_id dir doesn't exist");
}

#[test]
fn test_resolve_artifact_dir_without_build_id_uses_latest() {
    let images = project_images_dir("/home/me/.coast", "myproj");
    let path = resolve_artifact_dir(&images, None, false);
    assert!(path.contains("latest"), "should use latest when no build_id");
    assert!(path.contains("myproj"));
}

#[test]
fn resolve_artifact_dir_uses_existing_build() {
    assert_eq!(resolve_artifact_dir("/h/images/p", Some("b1"), true), "/h/images/p/b1");
}

#[test]
fn test_shared_caddy_pki_permission_fixup_command_exposes_public_cert_only() {
    let command = shared_caddy_pki_permission_fixup_command();
    assert_eq!(command[0], "sh");
    assert_eq!(command[1], "-lc");
    let script = &command[2];

    assert!(script.contains("base='/coast-caddy-pki'"));
    assert!(script.contains("\"$base/authorities/local/root.crt\""));
    assert!(script.contains("\"$base/authorities/local/intermediate.crt\""));
    assert!(script.contains("chmod 644"));
    assert!(script.contains("\"$base/authorities/local/root.key\""));
    assert!(script.contains("\"$base/authorities/local/intermediate.key\""));
    assert!(script.contains("chmod 600"));
}

#[test]
fn test_read_coast_image_valid_manifest() {
    let result = manifest_coast_image(r#"{"coast_image": "my-custom:latest"}"#);
    assert_eq!(result, Some("my-custom:latest".to_string()));
}

#[test]
fn test_read_coast_image_no_coast_image_field() {
    let result = manifest_coast_image(r#"{"project_root": "/some/path"}"#);
    assert!(result.is_none(), "should return None when coast_image field is missing");
}

#[test]
fn manifest_fields_of_invalid_manifest() {
    assert!(manifest_coast_image("not json").is_none());
    assert!(manifest_coast_image(r#"{"coast_image": 3}"#).is_none());
    assert_eq!(manifest_project_root(r#"{"project_root": "/some/path"}"#), Some("/some/path".to_string()));
}

#[test]
fn test_retryable_port_publish_error_matches_wsl_forwarding_failure() {
    let error = CoastError::docker(
        "Failed to start coast container 'abc'. Is Docker running? Error: Docker responded \
         with status code 500: ports are not available: exposing port TCP \
         127.0.0.1:53987 -> 127.0.0.1:0: /forwards/expose returned unexpected status: 500",
    );

    assert!(is_retryable_port_publish_error(&error));
}

#[test]
fn test_retryable_port_publish_error_ignores_unrelated_docker_failures() {
    let error = CoastError::docker("Failed to pull image 'docker:dind': unauthorized");
    assert!(!is_retryable_port_publish_error(&error));
}

#[test]
fn container_create_retries_and_errors() {
    let busy = CoastError::docker("Bind for 0.0.0.0:5000 failed: port is already allocated");
    assert!(should_retry_container_create_error(&busy, 1));
    assert!(should_retry_container_create_error(&busy, 2));
    assert!(!should_retry_container_create_error(&busy, 3));
    assert!(!should_retry_container_create_error(&CoastError::docker("nope"), 1));
    assert_eq!(
        wrap_container_create_error("dev-1", &CoastError::docker("boom")).message(),
        "Failed to create coast container for instance 'dev-1': boom. Ensure Docker is running and the docker:dind image is available."
    );
    assert_eq!(
        retries_exhausted_error("dev-1").message(),
        "Failed to create coast container for instance 'dev-1' after retrying dynamic port allocation."
    );
}

#[test]
fn coast_home_paths() {
    assert_eq!(fallback_coast_home("/home/me"), "/home/me/.coast");
    assert_eq!(fallback_coast_home(""), ".coast");
    assert_eq!(image_cache_dir("/c/"), "/c/image-cache");
    assert_eq!(project_images_dir("/c", "p"), "/c/images/p");
    assert_eq!(override_dir("/c", "p", "i"), "/c/overrides/p/i");
    assert_eq!(shared_caddy_pki_host_dir("/tmp/coast-dev-test-home"), "/tmp/coast-dev-test-home/caddy/pki");
    assert_ne!(shared_caddy_pki_host_dir("/tmp/coast-prod-home"), shared_caddy_pki_host_dir("/tmp/coast-dev-home"));
    assert_eq!(join_path("/a", "/b"), "/b");
    assert_eq!(SHARED_CADDY_PKI_CONTAINER_PATH, "/coast-caddy-pki");
}

#[test]
fn remount_command() {
    let (src, cmd) = build_remount_cmd(Some("/host-project/.worktrees/feat"), Some("/home/u/project"));
    assert_eq!(src, "/host-project/.worktrees/feat");
    assert_eq!(
        cmd,
        "umount -l /workspace 2>/dev/null; mount --bind /host-project/.worktrees/feat /workspace && mount --make-rshared /workspace && mkdir -p '/home/u' && ln -sfn /host-project '/home/u/project'"
    );
    let (src, cmd) = build_remount_cmd(None, None);
    assert_eq!(src, "/host-project");
    assert!(cmd.ends_with("mkdir -p '/' && ln -sfn /host-project '/workspace'"));
}

#[test]
fn build_dirs_are_joined_as_paths() {
    assert_eq!(build_dir_path("/h/images/p/", "b1"), "/h/images/p/b1");
    assert_eq!(build_dir_path("/h/images/p", "/abs/b1"), "/abs/b1");
    assert_eq!(build_dir_path("", "b1"), "b1");
    assert_eq!(resolve_artifact_dir("/h/images/p/", None, false), "/h/images/p/latest");
}
