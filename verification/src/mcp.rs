//! Shell commands that install MCP servers inside a coast container and
//! hand their configuration to MCP clients.
use vstd::prelude::*;

use crate::text::{has_prefix, push_owned, push_str, strip_prefix_exec, views};

verus! {

/// `s` with every leading copy of `p` removed (`str::trim_start_matches`).
pub open spec fn strip_leading(s: Seq<char>, p: Seq<char>) -> Seq<char>
    decreases s.len(),
{
    if p.len() > 0 && has_prefix(s, p) {
        strip_leading(s.subrange(p.len() as int, s.len() as int), p)
    } else {
        s
    }
}

/// `str::trim_start_matches` with a non-empty string pattern.
pub fn trim_start_matches(s: &str, p: &str) -> (r: String)
    ensures
        r@ == strip_leading(s@, p@),
{
    let mut cur = crate::text::owned(s);
    if crate::text::chars_of(p).len() == 0 {
        return cur;
    }
    loop
        invariant
            p@.len() > 0,
            strip_leading(cur@, p@) == strip_leading(s@, p@),
        decreases cur@.len(),
    {
        match strip_prefix_exec(cur.as_str(), p) {
            Some(rest) => {
                cur = rest;
            },
            None => {
                return cur;
            },
        }
    }
}

/// The command that creates a server's directory.
pub fn mcp_server_mkdir_command(server_name: &str) -> (r: String)
    ensures
        r@ == "mkdir -p /mcp/"@ + server_name@,
{
    let mut r = String::new();
    push_str(&mut r, "mkdir -p /mcp/");
    push_str(&mut r, server_name);
    r
}

/// The command that copies a server's source from the workspace.
pub open spec fn copy_command(source: Seq<char>, server: Seq<char>) -> Seq<char> {
    "cp -a /workspace/"@ + strip_leading(source, "./"@) + "/.  /mcp/"@ + server + "/"@
}

/// The command that copies a server's source, given relative to the
/// workspace (leading `./` removed), into the server's directory.
pub fn mcp_server_copy_command(source: &str, server_name: &str) -> (r: String)
    ensures
        r@ == copy_command(source@, server_name@),
{
    let rel = trim_start_matches(source, "./");
    let mut r = String::new();
    push_str(&mut r, "cp -a /workspace/");
    push_str(&mut r, rel.as_str());
    push_str(&mut r, "/.  /mcp/");
    push_str(&mut r, server_name);
    push_str(&mut r, "/");
    r
}

/// The command that runs one install step in the server's directory.
pub fn mcp_server_install_command(server_name: &str, install_cmd: &str) -> (r: String)
    ensures
        r@ == "cd /mcp/"@ + server_name@ + " && "@ + install_cmd@,
{
    let mut r = String::new();
    push_str(&mut r, "cd /mcp/");
    push_str(&mut r, server_name);
    push_str(&mut r, " && ");
    push_str(&mut r, install_cmd);
    r
}

/// The shell commands that install an internal MCP server, in order: create
/// its directory, copy its source when it has one, then each install step.
/// A host-proxied server is not installed in the container.
pub open spec fn server_setup_commands(
    name: Seq<char>,
    source: Option<Seq<char>>,
    install: Seq<Seq<char>>,
    host_proxied: bool,
) -> Seq<Seq<char>> {
    if host_proxied {
        Seq::empty()
    } else {
        seq!["mkdir -p /mcp/"@ + name] + match source {
            Some(s) => seq![copy_command(s, name)],
            None => Seq::empty(),
        } + install.map_values(|c: Seq<char>| "cd /mcp/"@ + name + " && "@ + c)
    }
}

/// The commands, each run with `sh -c`, that install an MCP server.
pub fn mcp_server_setup_commands(
    server_name: &str,
    source: Option<&str>,
    install: &Vec<String>,
    host_proxied: bool,
) -> (r: Vec<String>)
    ensures
        views(r@) == server_setup_commands(
            server_name@,
            match source {
                Some(s) => Some(s@),
                None => None,
            },
            views(install@),
            host_proxied,
        ),
{
    let mut out: Vec<String> = Vec::new();
    if host_proxied {
        assert(views(out@) =~= Seq::<Seq<char>>::empty());
        return out;
    }
    let mkdir = mcp_server_mkdir_command(server_name);
    push_owned(&mut out, mkdir.as_str());
    if let Some(src) = source {
        let copy = mcp_server_copy_command(src, server_name);
        push_owned(&mut out, copy.as_str());
    }
    let ghost head = views(out@);
    let ghost f = |c: Seq<char>| "cd /mcp/"@ + server_name@ + " && "@ + c;
    let mut i: usize = 0;
    while i < install.len()
        invariant
            i <= install@.len(),
            f == (|c: Seq<char>| "cd /mcp/"@ + server_name@ + " && "@ + c),
            views(out@) == head + views(install@).subrange(0, i as int).map_values(f),
        decreases install.len() - i,
    {
        let cmd = mcp_server_install_command(server_name, install[i].as_str());
        push_owned(&mut out, cmd.as_str());
        assert(views(install@).subrange(0, i + 1).map_values(f) =~= views(install@).subrange(
            0,
            i as int,
        ).map_values(f).push(f(install@[i as int]@)));
        i = i + 1;
    }
    assert(views(install@).subrange(0, install@.len() as int) =~= views(install@));
    assert(views(out@) =~= server_setup_commands(
        server_name@,
        match source {
            Some(s) => Some(s@),
            None => None,
        },
        views(install@),
        host_proxied,
    ));
    out
}

/// The parent directory of a path as `std::path::Path::parent` gives it,
/// as text.
pub uninterp spec fn path_parent(path: Seq<char>) -> Option<Seq<char>>;

/// Calls `std::path::Path::parent` on the path and converts the parent to a
/// `String`. The contract claims only that the result is the value that the
/// name `path_parent` gives the path; how `Path` splits components is not
/// stated.
#[verifier::external_body]
pub(crate) fn parent_of_path(path: &str) -> (r: Option<String>)
    ensures
        match path_parent(path@) {
            Some(p) => r matches Some(s) && s@ == p,
            None => r is None,
        },
{
    std::path::Path::new(path).parent().map(|p| p.to_string_lossy().to_string())
}

/// The script that writes a client configuration file: create its parent
/// directory, then write the JSON through a here-document.
pub open spec fn config_write_script(parent: Seq<char>, path: Seq<char>, json: Seq<char>) -> Seq<char> {
    "mkdir -p '"@ + parent + "' && cat > '"@ + path + "' << 'COAST_MCP_EOF'\n"@ + json
        + "\nCOAST_MCP_EOF"@
}

/// The script that writes a client configuration under the given parent
/// directory.
pub fn mcp_client_config_write_script(parent_dir: &str, config_path: &str, config_json: &str) -> (r:
    String)
    ensures
        r@ == config_write_script(parent_dir@, config_path@, config_json@),
{
    let mut r = String::new();
    push_str(&mut r, "mkdir -p '");
    push_str(&mut r, parent_dir);
    push_str(&mut r, "' && cat > '");
    push_str(&mut r, config_path);
    push_str(&mut r, "' << 'COAST_MCP_EOF'\n");
    push_str(&mut r, config_json);
    push_str(&mut r, "\nCOAST_MCP_EOF");
    r
}

/// The command that writes a client configuration file; a path with no
/// parent gets an empty directory name.
pub fn mcp_client_config_write_command(config_path: &str, config_json: &str) -> (r: String)
    ensures
        r@ == config_write_script(
            match path_parent(config_path@) {
                Some(p) => p,
                None => Seq::empty(),
            },
            config_path@,
            config_json@,
        ),
{
    let parent = match parent_of_path(config_path) {
        Some(p) => p,
        None => String::new(),
    };
    mcp_client_config_write_script(parent.as_str(), config_path, config_json)
}

/// The command that pipes the MCP manifest into a client's import command.
pub fn mcp_client_manifest_pipe_command(run_cmd: &str, manifest: &str) -> (r: String)
    ensures
        r@ == "cat << 'COAST_MCP_EOF' | "@ + run_cmd@ + "\n"@ + manifest@ + "\nCOAST_MCP_EOF"@,
{
    let mut r = String::new();
    push_str(&mut r, "cat << 'COAST_MCP_EOF' | ");
    push_str(&mut r, run_cmd);
    push_str(&mut r, "\n");
    push_str(&mut r, manifest);
    push_str(&mut r, "\nCOAST_MCP_EOF");
    r
}

/// What a client connector does with the MCP configuration.
#[derive(Clone, Copy, PartialEq, Eq, Debug, Structural)]
pub enum McpClientAction {
    /// Write a configuration file in the client's format.
    WriteConfig,
    /// Pipe the manifest into the client's own command.
    PipeManifest,
    /// Nothing to do for this client.
    Skip,
}

/// A client with a format gets a generated file; otherwise a client with a
/// command gets the manifest piped into it; otherwise nothing happens.
pub fn mcp_client_action(has_format: bool, has_run_command: bool) -> (r: McpClientAction)
    ensures
        r == (if has_format {
            McpClientAction::WriteConfig
        } else if has_run_command {
            McpClientAction::PipeManifest
        } else {
            McpClientAction::Skip
        }),
{
    if has_format {
        McpClientAction::WriteConfig
    } else if has_run_command {
        McpClientAction::PipeManifest
    } else {
        McpClientAction::Skip
    }
}

/// Client configurations are written only when there are both clients and
/// servers.
pub fn should_write_mcp_client_configs(client_count: usize, server_count: usize) -> (r: bool)
    ensures
        r == (client_count > 0 && server_count > 0),
{
    client_count > 0 && server_count > 0
}

} // verus!
