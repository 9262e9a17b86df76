use coast_daemon::coast_image::{
    coast_image_build_failed, coast_image_tag, docker_build_args, dockerfile_changed,
    dockerfile_hash_path, lower_hex_string, render_dockerfile, sha256_hex, SetupFile,
};

#[test]
fn dockerfile_minimal() {
    let d = render_dockerfile(&vec![], &vec![], &vec![]);
    assert!(d.starts_with("FROM docker:dind\nRUN apk add --no-cache ripgrep fd rsync\nRUN ARCH=$(uname -m) && case \"$ARCH\" in x86_64) MA=amd64;; aarch64|arm64) MA=arm64;; esac && wget -q -O /tmp/mutagen.tar.gz"));
    assert!(d.ends_with("pyright 2>/dev/null || true\n"));
    assert!(!d.contains("COPY setup-files/"));
    assert_eq!(d.lines().count(), 4);
}

#[test]
fn dockerfile_with_setup() {
    let files = vec![
        SetupFile { path: "/etc/it's.conf".to_string(), mode: Some("600".to_string()) },
        SetupFile { path: "/opt/plain".to_string(), mode: None },
    ];
    let d = render_dockerfile(
        &vec!["git".to_string(), "curl".to_string()],
        &vec!["echo hi".to_string()],
        &files,
    );
    let lines: Vec<&str> = d.lines().collect();
    assert_eq!(lines[3], "RUN apk add --no-cache git curl");
    assert!(lines[4].starts_with("RUN command -v npm"));
    assert_eq!(lines[5], "RUN echo hi");
    assert_eq!(lines[6], "COPY setup-files/ /");
    assert_eq!(lines[7], "RUN chmod 600 '/etc/it'\\''s.conf'");
    assert_eq!(lines.len(), 8);
}

#[test]
fn sha256_hex_known_values() {
    assert_eq!(sha256_hex(""), "e3b0c44298fc1c149afbf4c8996fb92427ae41e4649b934ca495991b7852b855");
    assert_eq!(sha256_hex("abc"), "ba7816bf8f01cfea414140de5dae2223b00361a396177a9cb410ff61f20015ad");
    assert_eq!(lower_hex_string(&vec![0x0a, 0x14, 0x1e, 0xff]), "0a141eff");
}

#[test]
fn coast_image_build_steps() {
    assert_eq!(coast_image_tag("proj", "b1"), "coast-image/proj:b1");
    assert!(dockerfile_changed(None, "abc"));
    assert!(!dockerfile_changed(Some("abc\n"), "abc"));
    assert!(dockerfile_changed(Some("abd"), "abc"));
    assert_eq!(dockerfile_hash_path("/home/me", "proj"), "/home/me/.coast/coast-image-dockerfile-hash/proj");
    assert_eq!(docker_build_args("t", "/tmp/b", true), vec!["build", "--no-cache", "-t", "t", "/tmp/b"]);
    assert_eq!(docker_build_args("t", "/tmp/b", false), vec!["build", "-t", "t", "/tmp/b"]);
    assert_eq!(
        coast_image_build_failed("t", "oops").message(),
        "Failed to build custom coast image 't'. Check that the packages, commands, and files in [coast.setup] are valid.\nStderr: oops"
    );
}
