use coast_daemon::mcp::{
    mcp_client_action, mcp_client_config_write_command, mcp_client_manifest_pipe_command,
    mcp_server_copy_command, mcp_server_install_command, mcp_server_mkdir_command,
    mcp_server_setup_commands, should_write_mcp_client_configs, trim_start_matches,
    McpClientAction,
};

#[test]
fn test_mcp_server_copy_command_trims_relative_prefix() {
    let command = mcp_server_copy_command("./tools/server", "search");
    assert_eq!(command, "cp -a /workspace/tools/server/.  /mcp/search/");
}

#[test]
fn test_mcp_server_install_command_changes_into_server_dir() {
    let command = mcp_server_install_command("search", "npm install");
    assert_eq!(command, "cd /mcp/search && npm install");
}

#[test]
fn test_mcp_client_config_write_command_creates_parent_and_writes_json() {
    let command = mcp_client_config_write_command("/root/.config/mcp/config.json", "{\n  \"mcpServers\": {}\n}");

    assert!(command.contains("mkdir -p '/root/.config/mcp'"));
    assert!(command.contains("cat > '/root/.config/mcp/config.json' << 'COAST_MCP_EOF'"));
    assert!(command.contains("{\n  \"mcpServers\": {}\n}"));
}

#[test]
fn test_mcp_client_manifest_pipe_command_embeds_run_command_and_manifest() {
    let command = mcp_client_manifest_pipe_command("my-client --import", "{\"ok\":true}");
    assert_eq!(command, "cat << 'COAST_MCP_EOF' | my-client --import\n{\"ok\":true}\nCOAST_MCP_EOF");
}

#[test]
fn mcp_setup_plan() {
    assert_eq!(mcp_server_mkdir_command("search"), "mkdir -p /mcp/search");
    assert_eq!(trim_start_matches("././x/./y", "./"), "x/./y");
    assert_eq!(trim_start_matches("abc", ""), "abc");
    let install = vec!["npm install".to_string(), "npm run build".to_string()];
    assert_eq!(
        mcp_server_setup_commands("search", Some("./tools/search"), &install, false),
        vec![
            "mkdir -p /mcp/search".to_string(),
            "cp -a /workspace/tools/search/.  /mcp/search/".to_string(),
            "cd /mcp/search && npm install".to_string(),
            "cd /mcp/search && npm run build".to_string(),
        ]
    );
    assert_eq!(mcp_server_setup_commands("hosted", None, &install, true), Vec::<String>::new());
    assert_eq!(mcp_server_setup_commands("s", None, &vec![], false), vec!["mkdir -p /mcp/s".to_string()]);
    assert_eq!(mcp_client_action(true, true), McpClientAction::WriteConfig);
    assert_eq!(mcp_client_action(false, true), McpClientAction::PipeManifest);
    assert_eq!(mcp_client_action(false, false), McpClientAction::Skip);
    assert!(should_write_mcp_client_configs(1, 1));
    assert!(!should_write_mcp_client_configs(0, 3));
    assert!(!should_write_mcp_client_configs(2, 0));
    assert_eq!(
        mcp_client_config_write_command("config.json", "{}"),
        "mkdir -p '' && cat > 'config.json' << 'COAST_MCP_EOF'\n{}\nCOAST_MCP_EOF"
    );
}
