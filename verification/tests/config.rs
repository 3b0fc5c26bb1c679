//! Configurations: what is parsed, what is valid, what is exposed.

use porter::config::{
    default_enabled, default_handshake_timeout_secs, default_host, default_port,
};
use porter::filter::{glob_match, has_unsupported_glob_star};
use porter::{
    parse_env_ref, resolve_env_vars, ListenConfig, PorterConfig, PorterError, ServerConfig, Table,
    ToolFilter, TransportKind,
};

fn text(table: &toml::Table, field: &str) -> Option<String> {
    table.get(field).map(|value| value.as_str().expect("a string").to_string())
}

fn texts(table: &toml::Table, field: &str) -> Option<Vec<String>> {
    table.get(field).map(|value| {
        value
            .as_array()
            .expect("an array")
            .iter()
            .map(|entry| entry.as_str().expect("a string").to_string())
            .collect()
    })
}

fn server_from(table: &toml::Table) -> ServerConfig {
    let mut env: Table<String> = Table::new();
    if let Some(entries) = table.get("env") {
        for (key, value) in entries.as_table().expect("a table") {
            env.insert(key.clone(), value.as_str().expect("a string").to_string());
        }
    }
    ServerConfig {
        slug: text(table, "slug").expect("a slug"),
        enabled: table
            .get("enabled")
            .map_or(default_enabled(), |value| value.as_bool().expect("a bool")),
        transport: match text(table, "transport").expect("a transport").as_str() {
            "stdio" => TransportKind::Stdio,
            "http" => TransportKind::Http,
            other => panic!("unknown transport {other}"),
        },
        command: text(table, "command"),
        args: texts(table, "args").unwrap_or_default(),
        env,
        cwd: text(table, "cwd").map(std::path::PathBuf::from),
        url: text(table, "url"),
        handshake_timeout_secs: table
            .get("handshake_timeout_secs")
            .map_or(default_handshake_timeout_secs(), |value| {
                value.as_integer().expect("an integer") as u64
            }),
        allow: texts(table, "allow"),
        deny: texts(table, "deny").unwrap_or_default(),
    }
}

fn parse_toml(toml_str: &str) -> PorterConfig {
    let document: toml::Table = toml::from_str(toml_str).expect("valid TOML");
    let mut config = PorterConfig::default();
    if let Some(value) = document.get("listen") {
        let listen = value.as_table().expect("a table");
        config.listen = ListenConfig {
            host: text(listen, "host").unwrap_or_else(default_host),
            port: listen
                .get("port")
                .map_or(default_port(), |value| value.as_integer().expect("an integer") as u16),
        };
    }
    if let Some(value) = document.get("servers") {
        for (name, server) in value.as_table().expect("a table") {
            config
                .servers
                .insert(name.clone(), server_from(server.as_table().expect("a table")));
        }
    }
    config
}

#[test]
fn test_parse_env_ref() {
    assert_eq!(parse_env_ref("${FOO}"), Some("FOO"));
    assert_eq!(parse_env_ref("${AWS_PROFILE}"), Some("AWS_PROFILE"));
    assert_eq!(parse_env_ref("$FOO"), None);
    assert_eq!(parse_env_ref("literal"), None);
    assert_eq!(parse_env_ref("${"), None);
    assert_eq!(parse_env_ref("${}"), Some(""));
}

#[test]
fn test_resolve_env_vars() {
    let mut vars: Table<String> = Table::new();
    vars.insert("PORTER_TEST_VAR".to_string(), "resolved_value".to_string());
    let mut env: Table<String> = Table::new();
    env.insert("KEY".to_string(), "${PORTER_TEST_VAR}".to_string());
    let resolved = resolve_env_vars(&env, &vars);
    assert_eq!(resolved.get("KEY").unwrap(), "resolved_value");
}

#[test]
fn test_valid_stdio_config() {
    let config = parse_toml(
        r#"
        [servers.github]
        slug = "gh"
        transport = "stdio"
        command = "gh-mcp"
        args = ["--port", "8080"]
        "#,
    );
    assert!(config.validate().is_ok());
}

#[test]
fn test_valid_http_config() {
    let config = parse_toml(
        r#"
        [servers.myapi]
        slug = "myapi"
        transport = "http"
        url = "https://api.example.com/mcp"
        "#,
    );
    assert!(config.validate().is_ok());
}

#[test]
fn test_duplicate_slug_fails() {
    let config = parse_toml(
        r#"
        [servers.a]
        slug = "same"
        transport = "stdio"
        command = "cmd-a"

        [servers.b]
        slug = "same"
        transport = "stdio"
        command = "cmd-b"
        "#,
    );
    let result = config.validate();
    assert!(matches!(result, Err(PorterError::DuplicateSlug(s)) if s == "same"));
}

#[test]
fn test_stdio_missing_command() {
    let config = parse_toml(
        r#"
        [servers.gh]
        slug = "gh"
        transport = "stdio"
        "#,
    );
    let result = config.validate();
    assert!(
        matches!(result, Err(PorterError::InvalidConfig(slug, msg)) if slug == "gh" && msg.contains("command"))
    );
}

#[test]
fn test_http_missing_url() {
    let config = parse_toml(
        r#"
        [servers.api]
        slug = "api"
        transport = "http"
        "#,
    );
    let result = config.validate();
    assert!(
        matches!(result, Err(PorterError::InvalidConfig(slug, msg)) if slug == "api" && msg.contains("url"))
    );
}

#[test]
fn test_disabled_server_skips_validation() {
    let config = parse_toml(
        r#"
        [servers.broken]
        slug = "broken"
        transport = "stdio"
        enabled = false
        # command missing — but disabled, so should pass
        "#,
    );
    assert!(config.validate().is_ok());
}

#[test]
fn test_mixed_transport_fields_rejected() {
    let config = parse_toml(
        r#"
        [servers.mixed]
        slug = "mixed"
        transport = "stdio"
        command = "some-cmd"
        url = "https://example.com"
        "#,
    );
    let result = config.validate();
    assert!(
        matches!(result, Err(PorterError::InvalidConfig(slug, msg)) if slug == "mixed" && msg.contains("url"))
    );
}

#[test]
fn test_env_var_reference_required() {
    let config = parse_toml(
        r#"
        [servers.gh]
        slug = "gh"
        transport = "stdio"
        command = "gh-mcp"

        [servers.gh.env]
        GITHUB_TOKEN = "literal-secret"
        "#,
    );
    let result = config.validate();
    assert!(
        matches!(result, Err(PorterError::InvalidConfig(slug, msg)) if slug == "gh" && msg.contains("GITHUB_TOKEN"))
    );
}

#[test]
fn test_env_var_reference_valid() {
    let config = parse_toml(
        r#"
        [servers.gh]
        slug = "gh"
        transport = "stdio"
        command = "gh-mcp"

        [servers.gh.env]
        GITHUB_TOKEN = "${GITHUB_TOKEN}"
        "#,
    );
    assert!(config.validate().is_ok());
}

#[test]
fn test_env_var_bare_dollar_rejected() {
    let config = parse_toml(
        r#"
        [servers.gh]
        slug = "gh"
        transport = "stdio"
        command = "gh-mcp"

        [servers.gh.env]
        GITHUB_TOKEN = "$GITHUB_TOKEN"
        "#,
    );
    let result = config.validate();
    assert!(
        matches!(result, Err(PorterError::InvalidConfig(slug, _)) if slug == "gh"),
        "bare $VAR should be rejected — use ${{VAR}} syntax"
    );
}

#[test]
fn test_handshake_timeout_default() {
    let config = parse_toml(
        r#"
        [servers.gh]
        slug = "gh"
        transport = "stdio"
        command = "gh-mcp"
        "#,
    );
    let server = config.servers.get("gh").unwrap();
    assert_eq!(server.handshake_timeout_secs, 30);
}

#[test]
fn test_listen_config_defaults() {
    let config = parse_toml("");
    assert_eq!(config.listen.host, "127.0.0.1");
    assert_eq!(config.listen.port, 3000);
}

#[test]
fn test_listen_config_custom() {
    let config = parse_toml(
        r#"
        [listen]
        host = "0.0.0.0"
        port = 8080
        "#,
    );
    assert_eq!(config.listen.host, "0.0.0.0");
    assert_eq!(config.listen.port, 8080);
}

#[test]
fn test_listen_config_partial_override() {
    let config = parse_toml(
        r#"
        [listen]
        port = 9090
        "#,
    );
    assert_eq!(config.listen.host, "127.0.0.1");
    assert_eq!(config.listen.port, 9090);
}

#[test]
fn test_glob_match_forms() {
    // Exact
    assert!(glob_match("call_aws", "call_aws"));
    assert!(!glob_match("call_aws", "call_awss"));
    // Prefix (trailing *)
    assert!(glob_match("get_*", "get_issue"));
    assert!(glob_match("get_*", "get_"));
    assert!(!glob_match("get_*", "list_issue"));
    // Suffix (leading *)
    assert!(glob_match("*_issue", "create_issue"));
    assert!(!glob_match("*_issue", "issue_note"));
    // Substring (both ends)
    assert!(glob_match("*create*", "batch_create_issues"));
    assert!(glob_match("*create*", "create_repository"));
    assert!(!glob_match("*create*", "delete_issue"));
    // Bare star matches everything
    assert!(glob_match("*", "anything"));
}

#[test]
fn test_tool_filter_default_allows_all() {
    let filter = ToolFilter::default();
    assert!(filter.permits("call_aws"));
    assert!(filter.permits("delete_everything"));
}

#[test]
fn test_tool_filter_allow_only() {
    let filter = ToolFilter::new(
        Some(vec!["get_*".to_string(), "list_issues".to_string()]),
        vec![],
    );
    assert!(filter.permits("get_issue"));
    assert!(filter.permits("list_issues"));
    // Not in the allow-list — rejected.
    assert!(!filter.permits("create_issue"));
    assert_eq!(
        filter.block_reason("create_issue"),
        Some("not in allow list")
    );
}

#[test]
fn test_tool_filter_empty_allow_blocks_everything() {
    // An explicit `allow = []` is a lockdown: nothing passes.
    let filter = ToolFilter::new(Some(vec![]), vec![]);
    assert!(!filter.permits("get_issue"));
    assert_eq!(filter.block_reason("get_issue"), Some("not in allow list"));
}

#[test]
fn test_tool_filter_deny_only() {
    let filter = ToolFilter::new(None, vec!["*delete*".to_string(), "merge_*".to_string()]);
    // Everything not denied is permitted.
    assert!(filter.permits("get_issue"));
    assert!(filter.permits("create_issue"));
    // Denied by substring / prefix pattern.
    assert!(!filter.permits("delete_task"));
    assert!(!filter.permits("merge_pull_request"));
    assert_eq!(filter.block_reason("delete_task"), Some("deny list"));
}

#[test]
fn test_tool_filter_deny_overrides_allow() {
    // A tool present in BOTH allow and deny is rejected — deny wins,
    // and the reported reason is the deny list.
    let filter = ToolFilter::new(
        Some(vec!["*".to_string(), "push_files".to_string()]),
        vec!["push_files".to_string(), "*delete*".to_string()],
    );
    assert!(filter.permits("get_file_contents"));
    assert!(!filter.permits("push_files"));
    assert!(!filter.permits("delete_issue"));
    assert_eq!(filter.block_reason("push_files"), Some("deny list"));
}

#[test]
fn test_tool_filter_glob_prefix_match() {
    let filter = ToolFilter::new(Some(vec!["jira_get_*".to_string()]), vec![]);
    assert!(filter.permits("jira_get_issue"));
    assert!(filter.permits("jira_get_sprint_issues"));
    assert!(!filter.permits("jira_create_issue"));
}

#[test]
fn test_server_config_tool_filter_from_toml() {
    let config = parse_toml(
        r#"
        [servers.gh]
        slug = "gh"
        transport = "stdio"
        command = "gh-mcp"
        allow = ["get_*", "search_*"]
        deny = ["*delete*"]
        "#,
    );
    let server = config.servers.get("gh").unwrap();
    assert_eq!(
        server.allow,
        Some(vec!["get_*".to_string(), "search_*".to_string()])
    );
    assert_eq!(server.deny, vec!["*delete*"]);
    let filter = server.tool_filter();
    assert!(filter.permits("get_issue"));
    assert!(!filter.permits("delete_issue"));
    assert!(!filter.permits("create_issue"));
}

#[test]
fn test_server_config_filter_lists_default_absent() {
    // Existing configs without allow/deny still parse and allow everything.
    let config = parse_toml(
        r#"
        [servers.gh]
        slug = "gh"
        transport = "stdio"
        command = "gh-mcp"
        "#,
    );
    let server = config.servers.get("gh").unwrap();
    assert!(server.allow.is_none());
    assert!(server.deny.is_empty());
    assert!(server.tool_filter().permits("anything"));
}

#[test]
fn test_validate_rejects_empty_allow_entry() {
    let config = parse_toml(
        r#"
        [servers.gh]
        slug = "gh"
        transport = "stdio"
        command = "gh-mcp"
        allow = ["get_issue", ""]
        "#,
    );
    let result = config.validate();
    assert!(
        matches!(result, Err(PorterError::InvalidConfig(slug, msg)) if slug == "gh" && msg.contains("non-empty"))
    );
}

#[test]
fn test_validate_rejects_empty_deny_entry() {
    let config = parse_toml(
        r#"
        [servers.gh]
        slug = "gh"
        transport = "stdio"
        command = "gh-mcp"
        deny = [""]
        "#,
    );
    let result = config.validate();
    assert!(
        matches!(result, Err(PorterError::InvalidConfig(slug, msg)) if slug == "gh" && msg.contains("non-empty"))
    );
}

#[test]
fn test_validate_rejects_interior_star_pattern() {
    // An interior `*` (`delete*confirm`) is treated as a literal by
    // glob_match and would silently match nothing — a fail-open misconfig.
    // validate() must reject it up front.
    let config = parse_toml(
        r#"
        [servers.gh]
        slug = "gh"
        transport = "stdio"
        command = "gh-mcp"
        deny = ["delete*confirm"]
        "#,
    );
    let result = config.validate();
    assert!(
        matches!(&result, Err(PorterError::InvalidConfig(slug, msg)) if slug == "gh" && msg.contains("unsupported position")),
        "interior-* pattern should be rejected, got {result:?}"
    );
}

#[test]
fn test_validate_rejects_doubled_leading_star_pattern() {
    // `**abc` has a second star at position 1 — not the single leading
    // position glob_match honors — so it must also be rejected.
    let config = parse_toml(
        r#"
        [servers.gh]
        slug = "gh"
        transport = "stdio"
        command = "gh-mcp"
        allow = ["**abc"]
        "#,
    );
    let result = config.validate();
    assert!(
        matches!(&result, Err(PorterError::InvalidConfig(slug, _)) if slug == "gh"),
        "doubled leading-* pattern should be rejected, got {result:?}"
    );
}

#[test]
fn test_validate_accepts_supported_glob_positions() {
    // Every form glob_match honors must pass validation.
    let config = parse_toml(
        r#"
        [servers.gh]
        slug = "gh"
        transport = "stdio"
        command = "gh-mcp"
        allow = ["get_issue", "get_*", "*_issue", "*delete*", "*"]
        "#,
    );
    assert!(config.validate().is_ok());
}

#[test]
fn test_has_unsupported_glob_star() {
    // Supported forms.
    assert!(!has_unsupported_glob_star("name"));
    assert!(!has_unsupported_glob_star("prefix*"));
    assert!(!has_unsupported_glob_star("*suffix"));
    assert!(!has_unsupported_glob_star("*inner*"));
    assert!(!has_unsupported_glob_star("*"));
    assert!(!has_unsupported_glob_star("**"));
    // Unsupported forms.
    assert!(has_unsupported_glob_star("delete*confirm"));
    assert!(has_unsupported_glob_star("a*b*c"));
    assert!(has_unsupported_glob_star("*a*b*"));
    assert!(has_unsupported_glob_star("**abc"));
}

#[test]
fn test_validate_accepts_allow_deny_overlap() {
    // A tool in both lists is legal (deny wins, warning emitted) — validate
    // must not reject it.
    let config = parse_toml(
        r#"
        [servers.gh]
        slug = "gh"
        transport = "stdio"
        command = "gh-mcp"
        allow = ["get_issue", "push_files"]
        deny = ["push_files"]
        "#,
    );
    assert!(config.validate().is_ok());
    assert!(
        !config
            .servers
            .get("gh")
            .unwrap()
            .tool_filter()
            .permits("push_files")
    );
}
