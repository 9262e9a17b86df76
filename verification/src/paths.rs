//! Paths of the Coast home on the host and of the workspace inside a coast
//! container, and the shell commands that prepare them.
use vstd::prelude::*;

use crate::text::{has_prefix, has_suffix, push_owned, push_str, str_ends_with, str_starts_with, views};

verus! {

/// `base` joined with `part` as `PathBuf::push` joins them on Unix: an
/// absolute `part` replaces `base`; otherwise a `/` separates the two unless
/// `base` is empty or already ends with one.
pub open spec fn path_join(base: Seq<char>, part: Seq<char>) -> Seq<char> {
    if has_prefix(part, "/"@) {
        part
    } else if base.len() == 0 || has_suffix(base, "/"@) {
        base + part
    } else {
        base + "/"@ + part
    }
}

/// Joins a path and a relative or absolute part.
pub fn join_path(base: &str, part: &str) -> (r: String)
    ensures
        r@ == path_join(base@, part@),
{
    if str_starts_with(part, "/") {
        return crate::text::owned(part);
    }
    let mut r = crate::text::owned(base);
    let base_empty = crate::text::chars_of(base).len() == 0;
    if !base_empty && !str_ends_with(base, "/") {
        push_str(&mut r, "/");
    }
    push_str(&mut r, part);
    r
}

/// The Coast home used when none is configured: `.coast` in the user's
/// home directory (the empty path when that is unknown).
pub fn fallback_coast_home(user_home: &str) -> (r: String)
    ensures
        r@ == path_join(user_home@, ".coast"@),
{
    join_path(user_home, ".coast")
}

/// Where pulled images are cached as tarballs.
pub fn image_cache_dir(coast_home: &str) -> (r: String)
    ensures
        r@ == path_join(coast_home@, "image-cache"@),
{
    join_path(coast_home, "image-cache")
}

/// Where the builds of a project are kept.
pub fn project_images_dir(coast_home: &str, project: &str) -> (r: String)
    ensures
        r@ == path_join(path_join(coast_home@, "images"@), project@),
{
    let images = join_path(coast_home, "images");
    join_path(images.as_str(), project)
}

/// Where the compose overrides of an instance are written.
pub fn override_dir(coast_home: &str, project: &str, instance_name: &str) -> (r: String)
    ensures
        r@ == path_join(path_join(path_join(coast_home@, "overrides"@), project@), instance_name@),
{
    let overrides = join_path(coast_home, "overrides");
    let project_dir = join_path(overrides.as_str(), project);
    join_path(project_dir.as_str(), instance_name)
}

/// Where the shared Caddy certificate authority lives on the host.
pub fn shared_caddy_pki_host_dir(coast_home: &str) -> (r: String)
    ensures
        r@ == path_join(path_join(coast_home@, "caddy"@), "pki"@),
{
    let caddy = join_path(coast_home, "caddy");
    join_path(caddy.as_str(), "pki")
}

/// Where the shared Caddy certificate authority is mounted in a coast.
pub const SHARED_CADDY_PKI_CONTAINER_PATH: &'static str = "/coast-caddy-pki";

/// The script that makes the shared Caddy authority readable by services:
/// directories and certificates become world-readable, private keys stay
/// readable by their owner only.
pub open spec fn caddy_pki_fixup_script() -> Seq<char> {
    "set -eu; base='"@ + SHARED_CADDY_PKI_CONTAINER_PATH@
        + "'; if [ ! -d \"$base\" ]; then exit 0; fi; chmod 755 \"$base\" 2>/dev/null || true; for dir in \"$base/authorities\" \"$base/authorities/local\"; do [ -d \"$dir\" ] && chmod 755 \"$dir\" 2>/dev/null || true; done; for cert in \"$base/authorities/local/root.crt\" \"$base/authorities/local/intermediate.crt\"; do [ -f \"$cert\" ] && chmod 644 \"$cert\" 2>/dev/null || true; done; for key in \"$base/authorities/local/root.key\" \"$base/authorities/local/intermediate.key\"; do [ -f \"$key\" ] && chmod 600 \"$key\" 2>/dev/null || true; done"@
}

/// The command, run in the coast container, that fixes the permissions of
/// the shared Caddy authority.
pub fn shared_caddy_pki_permission_fixup_command() -> (r: Vec<String>)
    ensures
        views(r@) == seq!["sh"@, "-lc"@, caddy_pki_fixup_script()],
{
    let mut script = String::new();
    push_str(&mut script, "set -eu; base='");
    push_str(&mut script, SHARED_CADDY_PKI_CONTAINER_PATH);
    push_str(
        &mut script,
        "'; if [ ! -d \"$base\" ]; then exit 0; fi; chmod 755 \"$base\" 2>/dev/null || true; for dir in \"$base/authorities\" \"$base/authorities/local\"; do [ -d \"$dir\" ] && chmod 755 \"$dir\" 2>/dev/null || true; done; for cert in \"$base/authorities/local/root.crt\" \"$base/authorities/local/intermediate.crt\"; do [ -f \"$cert\" ] && chmod 644 \"$cert\" 2>/dev/null || true; done; for key in \"$base/authorities/local/root.key\" \"$base/authorities/local/intermediate.key\"; do [ -f \"$key\" ] && chmod 600 \"$key\" 2>/dev/null || true; done",
    );
    let mut r: Vec<String> = Vec::new();
    push_owned(&mut r, "sh");
    push_owned(&mut r, "-lc");
    push_owned(&mut r, script.as_str());
    assert(views(r@) =~= seq!["sh"@, "-lc"@, caddy_pki_fixup_script()]);
    r
}

/// The script that binds a worktree over `/workspace` in a shell container
/// and links the project root to the host project.
pub open spec fn remount_script(mount_src: Seq<char>, parent: Seq<char>, host_root: Seq<char>) -> Seq<char> {
    "umount -l /workspace 2>/dev/null; mount --bind "@ + mount_src
        + " /workspace && mount --make-rshared /workspace && mkdir -p '"@ + parent
        + "' && ln -sfn /host-project '"@ + host_root + "'"@
}

/// The remount script for the given mount source, project root and the
/// root's parent directory.
pub fn remount_workspace_script(mount_src: &str, parent: &str, host_root: &str) -> (r: String)
    ensures
        r@ == remount_script(mount_src@, parent@, host_root@),
{
    let mut r = String::new();
    push_str(&mut r, "umount -l /workspace 2>/dev/null; mount --bind ");
    push_str(&mut r, mount_src);
    push_str(&mut r, " /workspace && mount --make-rshared /workspace && mkdir -p '");
    push_str(&mut r, parent);
    push_str(&mut r, "' && ln -sfn /host-project '");
    push_str(&mut r, host_root);
    push_str(&mut r, "'");
    r
}

/// The mount source and the remount script of a shell container: the
/// worktree's mount source (else `/host-project`) and the project root
/// (else `/workspace`), whose parent is taken as `Path::parent` takes it.
pub fn build_remount_cmd(worktree_mount_src: Option<&str>, project_root: Option<&str>) -> (r: (
    String,
    String,
))
    ensures
        r.0@ == match worktree_mount_src {
            Some(s) => s@,
            None => "/host-project"@,
        },
        ({
            let root = match project_root {
                Some(p) => p@,
                None => "/workspace"@,
            };
            r.1@ == remount_script(
                r.0@,
                match crate::mcp::path_parent(root) {
                    Some(p) => p,
                    None => Seq::empty(),
                },
                root,
            )
        }),
{
    let mount_src = match worktree_mount_src {
        Some(s) => crate::text::owned(s),
        None => crate::text::owned("/host-project"),
    };
    let root = match project_root {
        Some(p) => p,
        None => "/workspace",
    };
    let parent = match crate::mcp::parent_of_path(root) {
        Some(p) => p,
        None => String::new(),
    };
    let cmd = remount_workspace_script(mount_src.as_str(), parent.as_str(), root);
    (mount_src, cmd)
}

/// The mount source of `/workspace` for a worktree found under a local
/// worktree directory of the project.
pub fn local_worktree_mount_src(worktree_dir: &str, worktree: &str) -> (r: String)
    ensures
        r@ == "/host-project/"@ + worktree_dir@ + "/"@ + worktree@,
{
    let mut r = String::new();
    push_str(&mut r, "/host-project/");
    push_str(&mut r, worktree_dir);
    push_str(&mut r, "/");
    push_str(&mut r, worktree);
    r
}

} // verus!
