//! Docker Compose command lines run inside a coast container, and the
//! readings of their output: which services a build rebuilt, and whether
//! `docker compose ps` reports every service as up.
use vstd::prelude::*;

use crate::status::CoastError;
use crate::text::{
    str_views,
    chars_of, contains_seq, find, has_prefix, lines, push_owned, push_str, split_lines,
    string_of, strip_prefix_exec, trim, trim_exec, views,
};

verus! {

/// Where an archive build unpacks its compose project.
pub const ARCHIVE_BUILD_DIR: &'static str = "/tmp/coast-build";

/// The compose file of a build artifact, inside the coast container.
pub const ARTIFACT_COMPOSE_PATH: &'static str = "/coast-artifact/compose.yml";

/// The compose file merged from the artifact and the coast override.
pub const MERGED_COMPOSE_PATH: &'static str = "/coast-override/docker-compose.coast.yml";

/// The workspace's own override file, used next to the artifact compose file.
pub const WORKSPACE_OVERRIDE_PATH: &'static str = "/workspace/docker-compose.override.yml";

// ---------------------------------------------------------------------------
// Rebuild
// ---------------------------------------------------------------------------

/// The arguments before the subcommand of a rebuild's compose command.
pub open spec fn rebuild_compose_prefix(has_artifact: bool, has_override: bool) -> Seq<Seq<char>> {
    if has_artifact {
        seq!["docker"@, "compose"@, "-f"@, ARTIFACT_COMPOSE_PATH@] + (if has_override {
            seq!["-f"@, WORKSPACE_OVERRIDE_PATH@]
        } else {
            Seq::empty()
        }) + seq!["--project-directory"@, "/workspace"@]
    } else {
        seq!["docker"@, "compose"@]
    }
}

/// The compose command of a rebuild step: the artifact compose file (with
/// the workspace override when there is one) and the workspace as project
/// directory when the container has an artifact, then the subcommand.
pub fn build_compose_command(subcmd: &[&str], has_artifact: bool, has_override: bool) -> (r: Vec<
    String,
>)
    ensures
        views(r@) == rebuild_compose_prefix(has_artifact, has_override) + str_views(subcmd@),
{
    let mut cmd: Vec<String> = Vec::new();
    push_owned(&mut cmd, "docker");
    push_owned(&mut cmd, "compose");
    if has_artifact {
        push_owned(&mut cmd, "-f");
        push_owned(&mut cmd, ARTIFACT_COMPOSE_PATH);
        if has_override {
            push_owned(&mut cmd, "-f");
            push_owned(&mut cmd, WORKSPACE_OVERRIDE_PATH);
        }
        push_owned(&mut cmd, "--project-directory");
        push_owned(&mut cmd, "/workspace");
    }
    assert(views(cmd@) =~= rebuild_compose_prefix(has_artifact, has_override));
    crate::text::push_strs(&mut cmd, subcmd);
    cmd
}

/// The service that a line of `docker compose build` output names: the
/// trimmed rest of a trimmed line that starts with `Building `.
pub open spec fn rebuilt_service(line: Seq<char>) -> Option<Seq<char>> {
    let t = trim(line);
    if has_prefix(t, "Building "@) {
        Some(trim(t.subrange("Building "@.len() as int, t.len() as int)))
    } else {
        None
    }
}

/// The services that the given lines name, in order.
pub open spec fn rebuilt_services_in(ls: Seq<Seq<char>>) -> Seq<Seq<char>>
    decreases ls.len(),
{
    if ls.len() == 0 {
        Seq::empty()
    } else {
        rebuilt_services_in(ls.drop_last()) + match rebuilt_service(ls.last()) {
            Some(s) => seq![s],
            None => Seq::empty(),
        }
    }
}

/// The services a build reports, or `(all services)` when it names none.
pub open spec fn rebuilt_services(stdout: Seq<char>) -> Seq<Seq<char>> {
    let named = rebuilt_services_in(lines(stdout));
    if named.len() == 0 {
        seq!["(all services)"@]
    } else {
        named
    }
}

/// The service named by one line of build output.
fn rebuilt_service_exec(line: &str) -> (r: Option<String>)
    ensures
        match rebuilt_service(line@) {
            Some(s) => r matches Some(x) && x@ == s,
            None => r is None,
        },
{
    let t = trim_exec(line);
    match strip_prefix_exec(t.as_str(), "Building ") {
        Some(rest) => Some(trim_exec(rest.as_str())),
        None => None,
    }
}

/// The service names of `docker compose build` output.
pub fn parse_rebuilt_services(stdout: &str) -> (r: Vec<String>)
    ensures
        views(r@) == rebuilt_services(stdout@),
{
    let v = chars_of(stdout);
    let ls = split_lines(&v);
    let ghost lv = ls@.map_values(|l: Vec<char>| l@);
    let mut out: Vec<String> = Vec::new();
    let mut i: usize = 0;
    while i < ls.len()
        invariant
            i <= ls@.len(),
            lv == ls@.map_values(|l: Vec<char>| l@),
            lv == lines(stdout@),
            views(out@) == rebuilt_services_in(lv.subrange(0, i as int)),
        decreases ls.len() - i,
    {
        let line = string_of(&ls[i], 0, ls[i].len());
        assert(ls[i as int]@.subrange(0, ls[i as int]@.len() as int) =~= ls[i as int]@);
        assert(lv.subrange(0, i + 1).drop_last() =~= lv.subrange(0, i as int));
        assert(lv.subrange(0, i + 1).last() == line@);
        match rebuilt_service_exec(line.as_str()) {
            Some(s) => {
                let ghost before = out@;
                out.push(s);
                assert(views(out@) =~= views(before).push(s@));
            },
            None => {
                assert(views(out@) =~= views(out@) + Seq::<Seq<char>>::empty());
            },
        }
        i = i + 1;
    }
    assert(lv.subrange(0, ls@.len() as int) =~= lv);
    if out.len() == 0 {
        push_owned(&mut out, "(all services)");
    }
    out
}

/// The message when a compose step of a rebuild exits with failure.
pub open spec fn compose_step_failed_message(step: Seq<char>, instance: Seq<char>, stderr: Seq<char>) -> Seq<
    char,
> {
    step + " failed inside instance '"@ + instance + "': "@ + trim(stderr)
}

/// The error of a compose step that exited with failure.
pub fn compose_step_failed(step_name: &str, instance_name: &str, stderr: &str) -> (r: CoastError)
    ensures
        r == CoastError::Docker(r->Docker_0),
        r->Docker_0@ == compose_step_failed_message(step_name@, instance_name@, stderr@),
{
    let mut m = String::new();
    push_str(&mut m, step_name);
    push_str(&mut m, " failed inside instance '");
    push_str(&mut m, instance_name);
    push_str(&mut m, "': ");
    let t = trim_exec(stderr);
    push_str(&mut m, t.as_str());
    CoastError::Docker(m)
}

// ---------------------------------------------------------------------------
// Starting compose services
// ---------------------------------------------------------------------------

/// The project directory of the compose services.
pub open spec fn project_dir_of(uses_archive_build: bool, rel: Option<Seq<char>>) -> Seq<char> {
    if uses_archive_build {
        ARCHIVE_BUILD_DIR@
    } else {
        match rel {
            Some(d) => "/workspace/"@ + d,
            None => "/workspace"@,
        }
    }
}

/// The optional string slice as a plain value.
pub open spec fn opt_str(o: Option<&str>) -> Option<Seq<char>> {
    match o {
        Some(s) => Some(s@),
        None => None,
    }
}

/// The directory compose runs in: the archive build directory, else the
/// compose file's directory under the workspace, else the workspace.
pub fn compose_project_dir(uses_archive_build: bool, compose_rel_dir: Option<&str>) -> (r: String)
    ensures
        r@ == project_dir_of(uses_archive_build, opt_str(compose_rel_dir)),
{
    let mut r = String::new();
    if uses_archive_build {
        push_str(&mut r, ARCHIVE_BUILD_DIR);
    } else {
        match compose_rel_dir {
            Some(dir) => {
                push_str(&mut r, "/workspace/");
                push_str(&mut r, dir);
            },
            None => push_str(&mut r, "/workspace"),
        }
    }
    r
}

/// The compose project name: the compose file's relative directory when
/// there is one, else `coast-{project}`.
pub fn compose_project_name(project: &str, compose_rel_dir: Option<&str>) -> (r: String)
    ensures
        r@ == match compose_rel_dir {
            Some(d) => d@,
            None => "coast-"@ + project@,
        },
{
    let mut r = String::new();
    match compose_rel_dir {
        Some(d) => push_str(&mut r, d),
        None => {
            push_str(&mut r, "coast-");
            push_str(&mut r, project);
        },
    }
    r
}

/// The base arguments of every compose command of a started instance.
pub open spec fn base_args_of(
    uses_archive_build: bool,
    has_merged_override: bool,
    artifact_compose_exists: bool,
    name: Seq<char>,
    dir: Seq<char>,
) -> Seq<Seq<char>> {
    if uses_archive_build {
        seq!["docker"@, "compose"@, "-p"@, name, "--project-directory"@, dir]
    } else if has_merged_override {
        seq!["docker"@, "compose"@, "-p"@, name, "-f"@, MERGED_COMPOSE_PATH@, "--project-directory"@, dir]
    } else if artifact_compose_exists {
        seq!["docker"@, "compose"@, "-p"@, name, "-f"@, ARTIFACT_COMPOSE_PATH@, "--project-directory"@, dir]
    } else {
        seq!["docker"@, "compose"@, "-p"@, name]
    }
}

/// The base arguments of the instance's compose commands: the archive build
/// directory wins, then the merged override file, then the artifact compose
/// file; with none of them compose finds its file in the working directory.
pub fn compose_base_args(
    uses_archive_build: bool,
    has_merged_override: bool,
    artifact_compose_exists: bool,
    compose_project_name: &str,
    project_dir: &str,
) -> (r: Vec<String>)
    ensures
        views(r@) == base_args_of(
            uses_archive_build,
            has_merged_override,
            artifact_compose_exists,
            compose_project_name@,
            project_dir@,
        ),
{
    let mut r: Vec<String> = Vec::new();
    push_owned(&mut r, "docker");
    push_owned(&mut r, "compose");
    push_owned(&mut r, "-p");
    push_owned(&mut r, compose_project_name);
    if uses_archive_build {
        push_owned(&mut r, "--project-directory");
        push_owned(&mut r, project_dir);
    } else if has_merged_override {
        push_owned(&mut r, "-f");
        push_owned(&mut r, MERGED_COMPOSE_PATH);
        push_owned(&mut r, "--project-directory");
        push_owned(&mut r, project_dir);
    } else if artifact_compose_exists {
        push_owned(&mut r, "-f");
        push_owned(&mut r, ARTIFACT_COMPOSE_PATH);
        push_owned(&mut r, "--project-directory");
        push_owned(&mut r, project_dir);
    }
    assert(views(r@) =~= base_args_of(
        uses_archive_build,
        has_merged_override,
        artifact_compose_exists,
        compose_project_name@,
        project_dir@,
    ));
    r
}


/// The compose project that a running instance reports: the first line of
/// `docker compose ls -q`, trimmed, when the listing succeeded and that line
/// is not blank; else the project name the build implies.
pub open spec fn listed_project_name(ls_stdout: Option<Seq<char>>, fallback: Seq<char>) -> Seq<char> {
    match ls_stdout {
        Some(out) => if lines(out).len() > 0 && trim(lines(out)[0]).len() > 0 {
            trim(lines(out)[0])
        } else {
            fallback
        },
        None => fallback,
    }
}

/// The compose project directory inside the instance.
pub open spec fn workspace_project_dir(compose_rel_dir: Option<Seq<char>>) -> Seq<char> {
    match compose_rel_dir {
        Some(d) => "/workspace/"@ + d,
        None => "/workspace"@,
    }
}

/// The base arguments of the compose commands that restart an instance's
/// services. `ls_stdout` is the output of a successful `docker compose ls
/// -q` in the instance (`None` when it failed); the merged override file is
/// used when it is there, else the artifact compose file when it is there.
pub fn restart_compose_base_args(
    ls_stdout: Option<&str>,
    fallback_project_name: &str,
    has_override: bool,
    has_artifact: bool,
    compose_rel_dir: Option<&str>,
) -> (r: Vec<String>)
    ensures
        views(r@) == base_args_of(
            false,
            has_override,
            has_artifact,
            listed_project_name(
                match ls_stdout {
                    Some(o) => Some(o@),
                    None => None,
                },
                fallback_project_name@,
            ),
            workspace_project_dir(
                match compose_rel_dir {
                    Some(d) => Some(d@),
                    None => None,
                },
            ),
        ),
{
    let mut name = crate::text::owned(fallback_project_name);
    if let Some(out) = ls_stdout {
        let v = chars_of(out);
        let ls = split_lines(&v);
        proof {
            assert(ls@.map_values(|l: Vec<char>| l@).len() == ls@.len());
        }
        if ls.len() > 0 {
            assert(ls@.map_values(|l: Vec<char>| l@)[0] == ls@[0]@);
            let first = string_of(&ls[0], 0, ls[0].len());
            assert(ls@[0]@.subrange(0, ls@[0]@.len() as int) =~= ls@[0]@);
            let t = trim_exec(first.as_str());
            if !t.as_str().is_empty() {
                name = t;
            }
        }
    }
    let ghost lsv = match ls_stdout {
        Some(o) => Some(o@),
        None => None,
    };
    assert(name@ == listed_project_name(lsv, fallback_project_name@));
    let mut dir = crate::text::owned("/workspace");
    if let Some(d) = compose_rel_dir {
        push_str(&mut dir, "/");
        push_str(&mut dir, d);
        assert(dir@ =~= "/workspace/"@ + d@) by {
            reveal_strlit("/workspace/");
            reveal_strlit("/workspace");
            reveal_strlit("/");
        }
    }
    compose_base_args(false, has_override, has_artifact, name.as_str(), dir.as_str())
}

/// The compose directory that a compose path names: its parent without
/// leading `./`, when the parent is neither empty nor `.`.
pub open spec fn compose_dir_of(compose_path: Seq<char>) -> Option<Seq<char>> {
    match crate::mcp::path_parent(compose_path) {
        Some(d) => if d.len() > 0 && d != "."@ {
            Some(crate::mcp::strip_leading(d, "./"@))
        } else {
            None
        },
        None => None,
    }
}

/// The compose project directory that a build records: `/workspace/{dir}`
/// for the first Coastfile, in the order given, whose compose path names a
/// directory; else `/workspace`.
pub open spec fn recorded_project_dir(compose_paths: Seq<Option<Seq<char>>>) -> Seq<char>
    decreases compose_paths.len(),
{
    if compose_paths.len() == 0 {
        "/workspace"@
    } else {
        match compose_paths[0] {
            Some(p) => match compose_dir_of(p) {
                Some(d) => "/workspace/"@ + d,
                None => recorded_project_dir(compose_paths.drop_first()),
            },
            None => recorded_project_dir(compose_paths.drop_first()),
        }
    }
}

/// The views of optional strings.
pub open spec fn opt_views(v: Seq<Option<String>>) -> Seq<Option<Seq<char>>> {
    v.map_values(|o: Option<String>| match o {
        Some(s) => Some(s@),
        None => None,
    })
}

/// The compose project directory that a build records, from the compose
/// paths of its Coastfiles (for the `latest-remote` and then the `latest`
/// build; `None` where none is recorded).
pub fn artifact_compose_project_dir(compose_paths: &Vec<Option<String>>) -> (r: String)
    ensures
        r@ == recorded_project_dir(opt_views(compose_paths@)),
{
    let ghost pv = opt_views(compose_paths@);
    let mut i: usize = 0;
    assert(pv.subrange(0, pv.len() as int) =~= pv);
    while i < compose_paths.len()
        invariant
            i <= compose_paths@.len(),
            pv == opt_views(compose_paths@),
            recorded_project_dir(pv.subrange(i as int, pv.len() as int)) == recorded_project_dir(pv),
        decreases compose_paths.len() - i,
    {
        assert(pv.subrange(i as int, pv.len() as int).drop_first() =~= pv.subrange(
            i + 1,
            pv.len() as int,
        ));
        assert(pv.subrange(i as int, pv.len() as int)[0] == pv[i as int]);
        if let Some(p) = &compose_paths[i] {
            if let Some(d) = crate::mcp::parent_of_path(p.as_str()) {
                if !d.as_str().is_empty() && !crate::text::str_eq(d.as_str(), ".") {
                    let clean = crate::mcp::trim_start_matches(d.as_str(), "./");
                    let mut r = crate::text::owned("/workspace/");
                    push_str(&mut r, clean.as_str());
                    return r;
                }
            }
        }
        i = i + 1;
    }
    assert(pv.subrange(pv.len() as int, pv.len() as int) =~= Seq::<Option<Seq<char>>>::empty());
    crate::text::owned("/workspace")
}

/// A command made of base arguments and further arguments.
pub fn extend_command(base: &Vec<String>, extra: &[&str]) -> (r: Vec<String>)
    ensures
        views(r@) == views(base@) + str_views(extra@),
{
    let mut command = crate::builds::clone_strings(base);
    crate::text::push_strs(&mut command, extra);
    command
}

/// Every line of `docker compose ps` output reports a running or healthy
/// service, and there is at least one line of output.
pub open spec fn ps_ready(output: Seq<char>) -> bool {
    output.len() > 0 && forall|i: int|
        0 <= i < lines(output).len() ==> contains_seq(#[trigger] lines(output)[i], "running"@)
            || contains_seq(lines(output)[i], "healthy"@)
}

/// Whether `docker compose ps --format json` output shows all services up.
pub fn compose_ps_output_is_ready(output: &str) -> (r: bool)
    ensures
        r == ps_ready(output@),
{
    let v = chars_of(output);
    if v.len() == 0 {
        return false;
    }
    let running = chars_of("running");
    let healthy = chars_of("healthy");
    let ls = split_lines(&v);
    let ghost lv = ls@.map_values(|l: Vec<char>| l@);
    let mut i: usize = 0;
    while i < ls.len()
        invariant
            i <= ls@.len(),
            lv == ls@.map_values(|l: Vec<char>| l@),
            lv == lines(output@),
            running@ == "running"@,
            healthy@ == "healthy"@,
            forall|j: int|
                0 <= j < i ==> contains_seq(#[trigger] lv[j], "running"@) || contains_seq(
                    lv[j],
                    "healthy"@,
                ),
        decreases ls.len() - i,
    {
        assert(lv[i as int] == ls@[i as int]@);
        if find(&ls[i], &running).is_none() && find(&ls[i], &healthy).is_none() {
            return false;
        }
        i = i + 1;
    }
    true
}

/// The wait in milliseconds before the next health poll, by the seconds
/// since waiting began: half a second for the first five seconds, one
/// second until thirty, then two.
pub open spec fn poll_interval_ms(elapsed_secs: u64) -> u64 {
    if elapsed_secs < 5 {
        500
    } else if elapsed_secs < 30 {
        1000
    } else {
        2000
    }
}

/// The wait before the next health poll.
pub fn health_poll_interval_ms(elapsed_secs: u64) -> (r: u64)
    ensures
        r == poll_interval_ms(elapsed_secs),
{
    if elapsed_secs < 5 {
        500
    } else if elapsed_secs < 30 {
        1000
    } else {
        2000
    }
}

/// What the health wait does after a `docker compose ps` poll.
#[derive(Clone, Copy, PartialEq, Eq, Debug, Structural)]
pub enum HealthPoll {
    /// Every service is up; the wait is over.
    Ready,
    /// Poll again after this many milliseconds.
    Wait(u64),
}

/// Decides the next step of the health wait from the poll's outcome: the
/// wait ends when the poll succeeded and its output shows all services up.
pub fn after_health_poll(ps_succeeded: bool, ps_stdout: &str, elapsed_secs: u64) -> (r: HealthPoll)
    ensures
        r == (if ps_succeeded && ps_ready(ps_stdout@) {
            HealthPoll::Ready
        } else {
            HealthPoll::Wait(poll_interval_ms(elapsed_secs))
        }),
{
    if ps_succeeded && compose_ps_output_is_ready(ps_stdout) {
        HealthPoll::Ready
    } else {
        HealthPoll::Wait(health_poll_interval_ms(elapsed_secs))
    }
}

/// The message when services do not become healthy in time.
pub open spec fn unhealthy_message(instance: Seq<char>, logs: Seq<char>) -> Seq<char> {
    "Services in instance '"@ + instance
        + "' did not become healthy within 120s. Check the service logs below and fix any issues, then retry with `coast rm "@
        + instance + " && coast run "@ + instance + "`.\nRecent logs:\n"@ + logs
}

/// The error when services do not become healthy in time, with their
/// recent logs.
pub fn unhealthy_services_error(instance_name: &str, logs: &str) -> (r: CoastError)
    ensures
        r == CoastError::Docker(r->Docker_0),
        r->Docker_0@ == unhealthy_message(instance_name@, logs@),
{
    let mut m = String::new();
    push_str(&mut m, "Services in instance '");
    push_str(&mut m, instance_name);
    push_str(
        &mut m,
        "' did not become healthy within 120s. Check the service logs below and fix any issues, then retry with `coast rm ",
    );
    push_str(&mut m, instance_name);
    push_str(&mut m, " && coast run ");
    push_str(&mut m, instance_name);
    push_str(&mut m, "`.\nRecent logs:\n");
    push_str(&mut m, logs);
    CoastError::Docker(m)
}

// ---------------------------------------------------------------------------
// Bind mounts of hot services
// ---------------------------------------------------------------------------

/// Whether a service's bind mounts follow mounts made later on the host:
/// every service when all are hot, else the listed ones.
pub fn is_hot_service(service_name: &str, default_hot: bool, hot_services: &Vec<String>) -> (r: bool)
    ensures
        r == (default_hot || views(hot_services@).contains(service_name@)),
{
    if default_hot {
        return true;
    }
    let mut i: usize = 0;
    while i < hot_services.len()
        invariant
            i <= hot_services@.len(),
            forall|j: int| 0 <= j < i ==> views(hot_services@)[j] != service_name@,
        decreases hot_services.len() - i,
    {
        if crate::text::str_eq(hot_services[i].as_str(), service_name) {
            assert(views(hot_services@)[i as int] == service_name@);
            return true;
        }
        i = i + 1;
    }
    false
}

/// A short-form volume split as `splitn(3, ':')` splits it: the source, the
/// target, and the mode when there is one; `None` with fewer than two parts.
pub open spec fn volume_parts(s: Seq<char>) -> Option<(Seq<char>, Seq<char>, Option<Seq<char>>)> {
    match crate::text::index_of_char(s, ':') {
        None => None,
        Some(i) => {
            let rest = s.subrange(i + 1int, s.len() as int);
            match crate::text::index_of_char(rest, ':') {
                None => Some((s.subrange(0, i as int), rest, None)),
                Some(j) => Some(
                    (
                        s.subrange(0, i as int),
                        rest.subrange(0, j as int),
                        Some(rest.subrange(j + 1int, rest.len() as int)),
                    ),
                ),
            }
        },
    }
}

/// A short-form bind mount with `rslave` propagation added: `None` when the
/// entry is left as it is (a named volume, no target, or a mode that
/// already sets a recursive propagation).
pub open spec fn rslave_short_form(s: Seq<char>) -> Option<Seq<char>> {
    match volume_parts(s) {
        None => None,
        Some((src, target, mode)) => if !has_prefix(src, "."@) && !has_prefix(src, "/"@) {
            None
        } else {
            match mode {
                None => Some(src + ":"@ + target + ":rslave"@),
                Some(m) => if contains_seq(m, "rslave"@) || contains_seq(m, "rshared"@)
                    || contains_seq(m, "rprivate"@) {
                    None
                } else {
                    Some(src + ":"@ + target + ":"@ + m + ",rslave"@)
                },
            }
        },
    }
}

/// Law: adding `rslave` propagation to a short-form bind mount is
/// idempotent: an entry it rewrote is left as it is the next time.
pub proof fn law_rslave_short_form_idempotent(s: Seq<char>)
    requires
        rslave_short_form(s) is Some,
    ensures
        rslave_short_form(rslave_short_form(s)->0) is None,
{
    reveal_strlit(":");
    reveal_strlit(":rslave");
    reveal_strlit(",rslave");
    reveal_strlit("rslave");
    let (src, target, mode) = volume_parts(s)->0;
    let i = crate::text::index_of_char(s, ':')->0 as int;
    crate::text::lemma_index_of_char_props(s, ':');
    let rest = s.subrange(i + 1, s.len() as int);
    crate::text::lemma_index_of_char_props(rest, ':');
    assert(src =~= s.subrange(0, i));
    assert forall|k: int| 0 <= k < src.len() implies src[k] != ':' by {
        assert(src[k] == s[k]);
    }
    let (tail, new_mode) = match mode {
        None => (":rslave"@, "rslave"@),
        Some(m) => (":"@ + m + ",rslave"@, m + ",rslave"@),
    };
    match mode {
        None => {
            assert(target =~= rest);
        },
        Some(m) => {
            let j = crate::text::index_of_char(rest, ':')->0 as int;
            assert(target =~= rest.subrange(0, j));
        },
    }
    assert forall|k: int| 0 <= k < target.len() implies target[k] != ':' by {
        assert(target[k] == rest[k]);
    }
    let t = rslave_short_form(s)->0;
    assert(t =~= src + ":"@ + target + tail);
    assert(t[src.len() as int] == ':');
    crate::text::lemma_index_of_char_found(t, ':', src.len() as int);
    let rest_t = t.subrange(src.len() + 1int, t.len() as int);
    assert(rest_t =~= target + tail);
    assert(rest_t[target.len() as int] == ':');
    crate::text::lemma_index_of_char_found(rest_t, ':', target.len() as int);
    assert(t.subrange(0, src.len() as int) =~= src);
    assert(rest_t.subrange(0, target.len() as int) =~= target);
    assert(rest_t.subrange(target.len() + 1int, rest_t.len() as int) =~= new_mode);
    assert(volume_parts(t) == Some((src, target, Some(new_mode))));
    let w = (new_mode.len() - 6) as int;
    assert(new_mode.subrange(w, w + 6) =~= "rslave"@);
    assert(crate::text::occurs_at(new_mode, "rslave"@, w));
    assert(contains_seq(new_mode, "rslave"@));
}

/// Adds `rslave` propagation to a short-form bind mount such as
/// `./src:/app/src` or `./src:/app/src:rw`; `None` leaves the entry as is.
pub fn rewrite_volume_with_rslave(volume: &str) -> (r: Option<String>)
    ensures
        match rslave_short_form(volume@) {
            Some(x) => r matches Some(y) && y@ == x,
            None => r is None,
        },
{
    let v = chars_of(volume);
    let n = v.len();
    let i = match crate::text::find_char_in(&v, ':', 0, n) {
        Some(i) => i,
        None => {
            assert(v@.subrange(0, n as int) =~= v@);
            return None;
        },
    };
    assert(v@.subrange(0, n as int) =~= v@);
    let ghost rest = v@.subrange(i + 1, n as int);
    let src = string_of(&v, 0, i);
    let second = crate::text::find_char_in(&v, ':', i + 1, n);
    let src_ok = crate::text::str_starts_with(src.as_str(), ".") || crate::text::str_starts_with(
        src.as_str(),
        "/",
    );
    if !src_ok {
        return None;
    }
    match second {
        None => {
            let mut r = src;
            push_str(&mut r, ":");
            let target = string_of(&v, i + 1, n);
            push_str(&mut r, target.as_str());
            push_str(&mut r, ":rslave");
            Some(r)
        },
        Some(j) => {
            assert(rest.subrange(0, j - (i + 1)) =~= v@.subrange(i + 1, j as int));
            assert(rest.subrange(j - (i + 1) + 1, rest.len() as int) =~= v@.subrange(
                j + 1,
                n as int,
            ));
            let mode = string_of(&v, j + 1, n);
            let m = mode.as_str();
            if crate::text::str_contains(m, "rslave") || crate::text::str_contains(m, "rshared")
                || crate::text::str_contains(m, "rprivate") {
                return None;
            }
            let mut r = src;
            push_str(&mut r, ":");
            let target = string_of(&v, i + 1, j);
            push_str(&mut r, target.as_str());
            push_str(&mut r, ":");
            push_str(&mut r, m);
            push_str(&mut r, ",rslave");
            Some(r)
        },
    }
}

// ---------------------------------------------------------------------------
// Coastfile switches
// ---------------------------------------------------------------------------

/// A Coastfile line that turns autostart off.
pub open spec fn autostart_off_line(line: Seq<char>) -> bool {
    let t = trim(line);
    t == "autostart = false"@ || has_prefix(t, "autostart = false "@)
}

/// Whether a Coastfile's text turns autostart off: some line, trimmed, is
/// `autostart = false`, possibly followed by a space and more.
pub fn has_autostart_false(raw_text: &str) -> (r: bool)
    ensures
        r == exists|i: int| 0 <= i < lines(raw_text@).len() && autostart_off_line(#[trigger] lines(raw_text@)[i]),
{
    let v = chars_of(raw_text);
    let ls = split_lines(&v);
    let ghost lv = ls@.map_values(|l: Vec<char>| l@);
    let mut i: usize = 0;
    while i < ls.len()
        invariant
            i <= ls@.len(),
            lv == ls@.map_values(|l: Vec<char>| l@),
            lv == lines(raw_text@),
            forall|j: int| 0 <= j < i ==> !autostart_off_line(#[trigger] lv[j]),
        decreases ls.len() - i,
    {
        let line = string_of(&ls[i], 0, ls[i].len());
        assert(ls[i as int]@.subrange(0, ls[i as int]@.len() as int) =~= ls[i as int]@);
        assert(lv[i as int] == line@);
        let t = trim_exec(line.as_str());
        if crate::text::str_eq(t.as_str(), "autostart = false") || crate::text::str_starts_with(
            t.as_str(),
            "autostart = false ",
        ) {
            return true;
        }
        i = i + 1;
    }
    false
}

/// The command that `coast exec` runs: the given one, or a shell.
pub fn resolve_command(command: &Vec<String>) -> (r: Vec<String>)
    ensures
        command@.len() == 0 ==> views(r@) == seq!["sh"@],
        command@.len() > 0 ==> views(r@) == views(command@),
{
    if command.len() == 0 {
        let mut r: Vec<String> = Vec::new();
        push_owned(&mut r, "sh");
        assert(views(r@) =~= seq!["sh"@]);
        r
    } else {
        crate::builds::clone_strings(command)
    }
}


// ---------------------------------------------------------------------------
// Bare services
// ---------------------------------------------------------------------------

/// The progress step at which services start: the one before the last.
pub fn starting_step(total_steps: u32) -> (r: u32)
    requires
        total_steps >= 1,
    ensures
        r == total_steps - 1,
{
    total_steps - 1
}

/// The error when the bare services' setup could not be run in the
/// instance.
pub fn bare_services_exec_failed(instance_name: &str, error: &str) -> (r: CoastError)
    ensures
        r matches CoastError::Docker(m) && m@ == "Failed to start bare services for instance '"@
            + instance_name@ + "': "@ + error@,
{
    let mut m = crate::text::owned("Failed to start bare services for instance '");
    push_str(&mut m, instance_name);
    push_str(&mut m, "': ");
    push_str(&mut m, error);
    CoastError::Docker(m)
}

/// The error when the bare services' setup exited with a failure.
pub fn bare_services_failed(instance_name: &str, exit_code: i64, stderr: &str) -> (r: CoastError)
    ensures
        r matches CoastError::Docker(m) && m@ == "Failed to start bare services for instance '"@
            + instance_name@ + "' (exit code "@ + crate::text::signed_decimal(exit_code as int)
            + "): "@ + stderr@,
{
    let mut m = crate::text::owned("Failed to start bare services for instance '");
    push_str(&mut m, instance_name);
    push_str(&mut m, "' (exit code ");
    crate::text::push_signed_decimal(&mut m, exit_code);
    push_str(&mut m, "): ");
    push_str(&mut m, stderr);
    CoastError::Docker(m)
}

/// The label of a started bare service: `{name} ({command})`.
pub fn bare_service_label(name: &str, command: &str) -> (r: String)
    ensures
        r@ == name@ + " ("@ + command@ + ")"@,
{
    let mut m = crate::text::owned(name);
    push_str(&mut m, " (");
    push_str(&mut m, command);
    push_str(&mut m, ")");
    m
}


/// Whether a Coastfile's text turns autostart off.
pub open spec fn autostart_off(raw_text: Seq<char>) -> bool {
    exists|i: int| 0 <= i < lines(raw_text).len() && autostart_off_line(#[trigger] lines(raw_text)[i])
}

/// What a restart reads from the build's Coastfile: whether it has a
/// compose file, whether it has bare services, and whether services start
/// on their own. `parsed` holds the first two when the Coastfile was read
/// and parsed; `raw_text` is its text (empty when unreadable).
pub open spec fn coastfile_flags_of(exists: bool, parsed: Option<(bool, bool)>, raw_text: Seq<char>) -> (bool, bool, bool) {
    if !exists {
        (true, false, true)
    } else {
        match parsed {
            Some((has_compose, has_services)) => (has_compose, has_services, !autostart_off(raw_text)),
            None => (true, false, !autostart_off(raw_text)),
        }
    }
}

/// What a restart reads from the build's Coastfile.
pub fn coastfile_flags(exists: bool, parsed: Option<(bool, bool)>, raw_text: &str) -> (r: (bool, bool, bool))
    ensures
        r == coastfile_flags_of(exists, parsed, raw_text@),
{
    if !exists {
        return (true, false, true);
    }
    let autostart = !has_autostart_false(raw_text);
    match parsed {
        Some((has_compose, has_services)) => (has_compose, has_services, autostart),
        None => (true, false, autostart),
    }
}

/// The error when a step could not be run in the instance.
pub fn dind_step_exec_failed(step_name: &str, instance_name: &str, error: &str) -> (r: CoastError)
    ensures
        r matches CoastError::Docker(m) && m@ == "Failed to exec "@ + step_name@ + " in instance '"@
            + instance_name@ + "': "@ + error@,
{
    let mut m = crate::text::owned("Failed to exec ");
    push_str(&mut m, step_name);
    push_str(&mut m, " in instance '");
    push_str(&mut m, instance_name);
    push_str(&mut m, "': ");
    push_str(&mut m, error);
    CoastError::Docker(m)
}

/// The error when a step run in the instance exited with failure.
pub fn dind_step_failed(step_name: &str, instance_name: &str, stderr: &str) -> (r: CoastError)
    ensures
        r matches CoastError::Docker(m) && m@ == step_name@ + " failed in instance '"@
            + instance_name@ + "': "@ + trim(stderr@),
{
    let mut m = crate::text::owned(step_name);
    push_str(&mut m, " failed in instance '");
    push_str(&mut m, instance_name);
    push_str(&mut m, "': ");
    let t = trim_exec(stderr);
    push_str(&mut m, t.as_str());
    CoastError::Docker(m)
}


/// An optional string as a plain value.
pub open spec fn opt_chars(o: Option<String>) -> Option<Seq<char>> {
    match o {
        Some(s) => Some(s@),
        None => None,
    }
}

/// The compose directory relative to the Coastfile's directory, given the
/// compose file's parent directory, the Coastfile's parent directory, and
/// the first taken relative to the second (`Path::strip_prefix`): none when
/// a parent is unknown, when both are the same directory, or when the
/// compose directory does not lie under the Coastfile's (or is it).
pub open spec fn rel_dir_from_parents(
    compose_parent: Option<Seq<char>>,
    coastfile_parent: Option<Seq<char>>,
    relative: Option<Seq<char>>,
) -> Option<Seq<char>> {
    match (compose_parent, coastfile_parent) {
        (Some(parent), Some(base)) => if parent == base {
            None
        } else {
            match relative {
                Some(rel) => if rel.len() > 0 {
                    Some(rel)
                } else {
                    None
                },
                None => None,
            }
        },
        _ => None,
    }
}

/// The compose directory relative to the Coastfile's directory, when the
/// compose file lies in a subdirectory of it.
pub open spec fn compose_rel_dir_of(compose_path: Seq<char>, coastfile_path: Seq<char>) -> Option<Seq<char>> {
    let parent = crate::mcp::path_parent(compose_path);
    let base = crate::mcp::path_parent(coastfile_path);
    rel_dir_from_parents(parent, base, crate::worktree::path_relative_to(parent->0, base->0))
}

/// The compose directory relative to the Coastfile's directory, given both
/// parent directories and the first taken relative to the second.
pub fn compose_rel_dir(
    compose_parent: Option<String>,
    coastfile_parent: Option<String>,
    relative: Option<String>,
) -> (r: Option<String>)
    ensures
        opt_chars(r) == rel_dir_from_parents(
            opt_chars(compose_parent),
            opt_chars(coastfile_parent),
            opt_chars(relative),
        ),
{
    match (compose_parent, coastfile_parent) {
        (Some(parent), Some(base)) => if crate::text::str_eq(parent.as_str(), base.as_str()) {
            None
        } else {
            match relative {
                Some(rel) => if rel.as_str().is_empty() {
                    None
                } else {
                    Some(rel)
                },
                None => None,
            }
        },
        _ => None,
    }
}

/// How a run starts the services of a build, from its Coastfile: whether
/// compose runs, the compose directory relative to the Coastfile, and
/// whether bare services run. A missing or unparsable Coastfile means
/// compose in the workspace root; a Coastfile that turns autostart off
/// starts nothing. `parsed` holds the compose path and whether bare
/// services are declared.
pub open spec fn coastfile_info_of(
    exists: bool,
    raw_text: Seq<char>,
    parsed: Option<(Option<Seq<char>>, bool)>,
    coastfile_path: Seq<char>,
) -> (bool, Option<Seq<char>>, bool) {
    if !exists {
        (true, None, false)
    } else if autostart_off(raw_text) {
        (false, None, false)
    } else {
        match parsed {
            None => (true, None, false),
            Some((compose, has_services)) => (
                compose is Some,
                match compose {
                    Some(c) => compose_rel_dir_of(c, coastfile_path),
                    None => None,
                },
                has_services,
            ),
        }
    }
}

/// How a run starts the services of a build, from its Coastfile.
pub fn coastfile_info(
    exists: bool,
    raw_text: &str,
    parsed: Option<(Option<&str>, bool)>,
    coastfile_path: &str,
) -> (r: (bool, Option<String>, bool))
    ensures
        ({
            let (c, d, s) = coastfile_info_of(
                exists,
                raw_text@,
                match parsed {
                    Some((cp, hs)) => Some(
                        (
                            match cp {
                                Some(x) => Some(x@),
                                None => None,
                            },
                            hs,
                        ),
                    ),
                    None => None,
                },
                coastfile_path@,
            );
            &&& r.0 == c
            &&& r.2 == s
            &&& match d {
                Some(x) => r.1 matches Some(y) && y@ == x,
                None => r.1 is None,
            }
        }),
{
    if !exists {
        return (true, None, false);
    }
    if has_autostart_false(raw_text) {
        return (false, None, false);
    }
    match parsed {
        None => (true, None, false),
        Some((compose, has_services)) => {
            let rel = match compose {
                None => None,
                Some(c) => {
                    let parent = crate::mcp::parent_of_path(c);
                    let base = crate::mcp::parent_of_path(coastfile_path);
                    let relative = match (&parent, &base) {
                        (Some(p), Some(b)) => crate::worktree::relative_path(p.as_str(), b.as_str()),
                        _ => None,
                    };
                    compose_rel_dir(parent, base, relative)
                },
            };
            (compose.is_some(), rel, has_services)
        },
    }
}

} // verus!
