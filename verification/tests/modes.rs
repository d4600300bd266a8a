use codesearch::server::McpMode;

#[test]
fn test_mcp_mode_from_str() {
    assert_eq!(
        "auto".parse::<McpMode>().unwrap(),
        McpMode::Auto
    );
    assert_eq!(
        "client".parse::<McpMode>().unwrap(),
        McpMode::Client
    );
    assert_eq!(
        "local".parse::<McpMode>().unwrap(),
        McpMode::Local
    );
    assert_eq!(
        "AUTO".parse::<McpMode>().unwrap(),
        McpMode::Auto
    );
    assert_eq!(
        "Client".parse::<McpMode>().unwrap(),
        McpMode::Client
    );
    assert!("invalid".parse::<McpMode>().is_err());
}

#[test]
fn test_mcp_mode_display() {
    assert_eq!(McpMode::Auto.to_string(), "auto");
    assert_eq!(McpMode::Client.to_string(), "client");
    assert_eq!(McpMode::Local.to_string(), "local");
}

#[test]
fn test_mcp_mode_default_is_auto() {
    assert_eq!(McpMode::default(), McpMode::Auto);
}

#[test]
fn test_mcp_mode_env_is_used_by_cli() {
    // The CLI uses clap's #[arg(env = "...")] which handles env var fallback.
    // When no --mode is provided and no env var, default is Auto.
    assert_eq!(McpMode::default(), McpMode::Auto);
}

#[test]
fn test_mcp_mode_from_str_covers_all() {
    // Verify all valid modes parse correctly
    for mode in &["auto", "client", "local", "AUTO", "Client", "LOCAL"] {
        assert!(
            mode.parse::<McpMode>().is_ok(),
            "failed to parse: {}",
            mode
        );
    }
    assert!("invalid".parse::<McpMode>().is_err());
}
