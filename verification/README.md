# coast_daemon

The decision logic of the Coast daemon's request handlers, written in Verus
and proved against its contracts.

- `src/` — the verified library: instance status checks and lifecycle plans
  (`status`, `lifecycle`), build pruning and removal (`builds`), compose
  commands and the per-instance compose rewrite over plain YAML values
  (`compose`, `compose_rewrite`, `yaml`), shared-service routing (`routing`),
  ports (`ports`), secrets (`secrets`), remote workspaces and the ssh tunnel
  cache (`remote`), registered remote hosts (`remotes`), MCP setup commands (`mcp`), coast images (`coast_image`),
  `docker compose ps` output (`ps`), git worktrees (`worktree`), paths,
  shell quoting, and string utilities (`paths`, `shell`, `text`, `json`).
  Calls into `serde_json`, `sha2` and `std::path` go through
  small trusted wrappers whose contracts name what those crates compute.
- `tests/` — tests run against the compiled library.
- `app/` — the I/O around the library: files under the Coast home, compose
  documents and `docker compose config` output read and written with
  `serde_yaml`, and the rsync, ssh and git
  processes.
