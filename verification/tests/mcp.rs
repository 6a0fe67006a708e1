use coast_daemon::mcp::{client_config_path, client_config_step, writes_client_configs, ClientConfigStep};
use coast_daemon::mcp::{
    mcp_config_pipe_script, mcp_config_write_script, mcp_config_write_script_in, mcp_server_scripts, trim_leading_dot_slash,
};

#[test]
fn mcp_server_install_scripts() {
    let install = vec!["npm ci".to_string(), "npm run build".to_string()];
    assert_eq!(
        mcp_server_scripts("docs", false, Some("././tools/docs"), &install),
        vec![
            "mkdir -p /mcp/docs",
            "cp -a /workspace/tools/docs/.  /mcp/docs/",
            "cd /mcp/docs && npm ci",
            "cd /mcp/docs && npm run build",
        ]
    );
    assert_eq!(mcp_server_scripts("x", false, None, &[]), vec!["mkdir -p /mcp/x"]);
    assert!(mcp_server_scripts("x", true, Some("./a"), &install).is_empty());
}

#[test]
fn trim_leading_dot_slash_examples() {
    assert_eq!(trim_leading_dot_slash("./a/./b"), "a/./b");
    assert_eq!(trim_leading_dot_slash("./././"), "");
    assert_eq!(trim_leading_dot_slash("../a"), "../a");
    assert_eq!(trim_leading_dot_slash("."), ".");
}

#[test]
fn mcp_client_scripts() {
    assert_eq!(
        mcp_config_write_script("/root/.config/app/mcp.json", "{}"),
        "mkdir -p '/root/.config/app' && cat > '/root/.config/app/mcp.json' << 'COAST_MCP_EOF'\n{}\nCOAST_MCP_EOF"
    );
    assert_eq!(
        mcp_config_pipe_script("mcp-client register", "{\"a\":1}"),
        "cat << 'COAST_MCP_EOF' | mcp-client register\n{\"a\":1}\nCOAST_MCP_EOF"
    );
}

#[test]
fn mcp_config_write_script_with_given_parent() {
    assert_eq!(
        mcp_config_write_script_in("/root/.cfg/mcp.json", "{}", "/root/.cfg"),
        "mkdir -p '/root/.cfg' && cat > '/root/.cfg/mcp.json' << 'COAST_MCP_EOF'\n{}\nCOAST_MCP_EOF"
    );
    assert_eq!(
        mcp_config_write_script("/root/.cfg/mcp.json", "{}"),
        mcp_config_write_script_in("/root/.cfg/mcp.json", "{}", "/root/.cfg")
    );
}

#[test]
fn mcp_client_config_decisions() {
    assert!(writes_client_configs(1, 2));
    assert!(!writes_client_configs(0, 2));
    assert!(!writes_client_configs(1, 0));
    assert_eq!(client_config_step(true, true), ClientConfigStep::WriteFile);
    assert_eq!(client_config_step(false, true), ClientConfigStep::PipeToRun);
    assert_eq!(client_config_step(false, false), ClientConfigStep::Skip);
    assert_eq!(client_config_path(Some("/x/mcp.json"), "/d.json"), "/x/mcp.json");
    assert_eq!(client_config_path(None, "/d.json"), "/d.json");
}
