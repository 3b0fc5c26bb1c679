//! The registry: what is spawned, what is listed, where calls go.

use porter::registry::PorterRegistry;
use porter::server::Report;
use porter::{
    HealthState, PorterConfig, PorterError, ServerConfig, ServerHandle, Table, Tool, TransportKind,
};

/// Build a PorterConfig programmatically (without TOML parsing).
fn make_config(servers: Vec<ServerConfig>) -> PorterConfig {
    let mut config = PorterConfig::default();
    for s in servers {
        config.servers.insert(s.slug.clone(), s);
    }
    config
}

fn stdio_config(slug: &str, enabled: bool) -> ServerConfig {
    ServerConfig {
        slug: slug.to_string(),
        enabled,
        transport: TransportKind::Stdio,
        command: Some("echo".to_string()),
        args: vec![],
        env: Table::new(),
        cwd: None,
        url: None,
        handshake_timeout_secs: 30,
        allow: None,
        deny: vec![],
    }
}

fn mock_server_handle(slug: &str, health: HealthState) -> ServerHandle {
    let mut handle = ServerHandle::new(stdio_config(slug, true));
    handle.set_health(health);
    handle
}

fn tool(name: &str) -> Tool {
    Tool { name: name.to_string(), definition: format!("{{\"name\":\"{name}\"}}") }
}

fn names(tools: Vec<Tool>) -> Vec<String> {
    tools.into_iter().map(|t| t.name).collect()
}

#[test]
fn test_from_config_validates_duplicate_slugs() {
    // Two servers with the same slug value but different keys should fail validation.
    let mut config = PorterConfig::default();
    config.servers.insert("server-a".to_string(), stdio_config("same", true));
    let mut http = stdio_config("same", true);
    http.transport = TransportKind::Http;
    http.command = None;
    http.url = Some("http://example.com/mcp".to_string());
    config.servers.insert("server-b".to_string(), http);
    let result = PorterRegistry::from_config(config);
    assert!(
        matches!(result, Err(PorterError::DuplicateSlug(s)) if s == "same"),
        "Expected DuplicateSlug error for duplicate slug 'same'"
    );
}

#[test]
fn test_from_config_skips_disabled_servers() {
    let config = make_config(vec![
        stdio_config("enabled-server", true),
        stdio_config("disabled-server", false),
    ]);
    let registry = PorterRegistry::from_config(config).unwrap();
    let slugs = registry.server_slugs();
    assert_eq!(slugs, vec!["enabled-server".to_string()]);
    assert_eq!(registry.server_count(), 1);
}

#[test]
fn test_call_tool_no_namespace() {
    let mut registry = PorterRegistry::new();
    registry.add(mock_server_handle("gh", HealthState::Healthy));

    let result = registry.call_tool::<String>("list_repos", None);
    assert!(
        matches!(result, Err(PorterError::Protocol(slug, msg)) if slug == "unknown" && msg.contains("no namespace prefix")),
        "Expected Protocol error for missing namespace"
    );
}

#[test]
fn test_call_tool_unknown_slug() {
    let registry = PorterRegistry::new();

    let result = registry.call_tool::<String>("gh__list_repos", None);
    assert!(
        matches!(result, Err(PorterError::Protocol(slug, msg)) if slug == "gh" && msg.contains("no server with slug")),
        "Expected Protocol error for unknown slug"
    );
}

#[test]
fn test_call_tool_unhealthy_server_rejected() {
    let mut registry = PorterRegistry::new();
    registry.add(mock_server_handle("broken", HealthState::Unhealthy));

    let result = registry.call_tool::<String>("broken__some_tool", None);
    assert!(
        matches!(result, Err(PorterError::ServerUnhealthy(slug, _)) if slug == "broken"),
        "Expected ServerUnhealthy error"
    );
}

#[test]
fn test_server_health_returns_none_for_unknown() {
    let registry = PorterRegistry::new();
    assert!(registry.server_health("nonexistent").is_none());
}

#[test]
fn test_all_server_health_empty() {
    let registry = PorterRegistry::new();
    assert!(registry.all_server_health().is_empty());
}

#[test]
fn test_server_slugs_sorted() {
    let mut registry = PorterRegistry::new();
    registry.add(mock_server_handle("zebra", HealthState::Healthy));
    registry.add(mock_server_handle("alpha", HealthState::Healthy));
    registry.add(mock_server_handle("mango", HealthState::Healthy));
    assert_eq!(
        registry.server_slugs(),
        vec!["alpha".to_string(), "mango".to_string(), "zebra".to_string()]
    );
}

#[test]
fn refusals_say_why() {
    let mut registry = PorterRegistry::new();
    registry.add(mock_server_handle("broken", HealthState::Unhealthy));
    let said = |name: &str| registry.call_tool::<String>(name, None).unwrap_err().to_string();
    assert_eq!(
        said("list_repos"),
        "protocol error for server 'unknown': tool name 'list_repos' has no namespace prefix"
    );
    assert_eq!(said("gh__x"), "protocol error for server 'gh': no server with slug 'gh'");
    assert_eq!(said("broken__x"), "server 'broken' is unhealthy: server is unhealthy");
}

#[test]
fn calls_go_out_under_the_original_name() {
    let config = make_config(vec![stdio_config("gh", true), stdio_config("jira", true)]);
    let registry = PorterRegistry::from_config(config).unwrap();
    let started = registry.call_tool("jira__get__issue", Some("args".to_string())).unwrap();
    assert_eq!(started.slug, "jira");
    assert_eq!(started.params.name, "get__issue");
    assert_eq!(started.params.arguments.as_deref(), Some("args"));
    assert!(started.params.task.is_none());
    assert!(started.params.meta.is_none());
}

#[test]
fn every_enabled_server_of_a_valid_configuration_is_reachable() {
    let config = make_config(vec![
        stdio_config("gh", true),
        stdio_config("off", false),
        stdio_config("a-b-c", true),
    ]);
    let registry = PorterRegistry::from_config(config).unwrap();
    for slug in ["gh", "a-b-c"] {
        let started = registry.call_tool::<String>(&format!("{slug}__tool"), None).unwrap();
        assert_eq!(started.slug, slug);
        assert_eq!(started.params.name, "tool");
        assert_eq!(registry.server_health(slug), Some(HealthState::Starting));
    }
    assert!(registry.call_tool::<String>("off__tool", None).is_err());
    assert_eq!(registry.server_health("off"), None);
}

#[test]
fn an_invalid_server_keeps_the_registry_from_being_built() {
    let mut broken = stdio_config("broken", true);
    broken.command = None;
    let config = make_config(vec![stdio_config("gh", true), broken]);
    assert!(matches!(
        PorterRegistry::from_config(config),
        Err(PorterError::InvalidConfig(slug, why))
            if slug == "broken" && why == "STDIO transport requires 'command' field"
    ));
}

#[test]
fn tools_come_from_every_server_that_is_not_unhealthy() {
    let mut registry = PorterRegistry::new();
    for (slug, health) in [
        ("starting", HealthState::Starting),
        ("healthy", HealthState::Healthy),
        ("degraded", HealthState::Degraded),
        ("unhealthy", HealthState::Unhealthy),
    ] {
        let mut handle = mock_server_handle(slug, health);
        handle.set_tools(vec![tool(&format!("{slug}__x"))]);
        registry.add(handle);
    }
    assert_eq!(names(registry.tools()), vec!["starting__x", "healthy__x", "degraded__x"]);
    assert_eq!(registry.tools()[0].definition, "{\"name\":\"starting__x\"}");
}

#[test]
fn what_is_listed_can_be_called() {
    let mut gh = stdio_config("gh", true);
    gh.deny = vec!["*delete*".to_string()];
    let mut registry = PorterRegistry::from_config(make_config(vec![gh])).unwrap();
    registry.record("gh", Report::Health(HealthState::Healthy));
    registry.record("gh", Report::Tools(vec![tool("gh__get_issue"), tool("gh__delete_issue")]));
    assert_eq!(names(registry.tools()), vec!["gh__get_issue"]);
    for listed in registry.tools() {
        let started = registry.call_tool::<String>(&listed.name, None).unwrap();
        assert_eq!(started.slug, "gh");
        assert_eq!(registry.server("gh").unwrap().tool_block_reason(&listed.name), None);
    }
}

#[test]
fn the_listed_tools_do_not_depend_on_the_order_of_the_servers() {
    let build = |slugs: [&str; 3]| {
        let mut registry = PorterRegistry::new();
        for slug in slugs {
            let mut handle = mock_server_handle(slug, HealthState::Healthy);
            handle.set_tools(vec![tool(&format!("{slug}__x")), tool(&format!("{slug}__y"))]);
            registry.add(handle);
        }
        let mut listed = names(registry.tools());
        listed.sort();
        listed
    };
    assert_eq!(build(["a", "b", "c"]), build(["c", "a", "b"]));
}

#[test]
fn what_is_recorded_decides_and_touches_one_server() {
    let config = make_config(vec![stdio_config("gh", true), stdio_config("jira", true)]);
    let mut registry = PorterRegistry::from_config(config).unwrap();
    assert!(registry.record("gh", Report::Tools(vec![tool("gh__x")])));
    assert!(registry.record("gh", Report::Health(HealthState::Unhealthy)));
    assert!(!registry.record("nope", Report::Health(HealthState::Healthy)));
    assert_eq!(registry.server_health("gh"), Some(HealthState::Unhealthy));
    assert_eq!(registry.server_health("jira"), Some(HealthState::Starting));
    assert_eq!(registry.server_count(), 2);
    assert!(registry.call_tool::<String>("gh__x", None).is_err());
    assert!(registry.call_tool::<String>("jira__x", None).is_ok());
    assert!(registry.tools().is_empty());
    assert!(registry.record("gh", Report::Health(HealthState::Degraded)));
    assert!(registry.call_tool::<String>("gh__x", None).is_ok());
    assert_eq!(names(registry.tools()), vec!["gh__x"]);
}

#[test]
fn health_reports_agree() {
    let mut registry = PorterRegistry::new();
    registry.add(mock_server_handle("b", HealthState::Degraded));
    registry.add(mock_server_handle("a", HealthState::Healthy));
    let all = registry.all_server_health();
    assert_eq!(all.len(), registry.server_count());
    for slug in registry.server_slugs() {
        assert_eq!(all.get(&slug).copied(), registry.server_health(&slug));
    }
    assert_eq!(all.get("b"), Some(&HealthState::Degraded));
    assert_eq!(all.get("c"), None);
}

#[test]
fn a_server_replaces_the_one_under_its_slug() {
    let mut registry = PorterRegistry::new();
    assert!(registry.add(mock_server_handle("a", HealthState::Healthy)).is_none());
    assert!(registry.add(mock_server_handle("b", HealthState::Healthy)).is_none());
    let replaced = registry.add(mock_server_handle("a", HealthState::Unhealthy)).unwrap();
    assert_eq!(replaced.health(), HealthState::Healthy);
    assert_eq!(registry.server_count(), 2);
    assert_eq!(registry.server_health("a"), Some(HealthState::Unhealthy));
    assert_eq!(registry.server_at(0).config().slug, "a");
    assert_eq!(registry.server_at(1).config().slug, "b");
}

#[test]
fn slugs_are_ordered_by_code_point() {
    let mut registry = PorterRegistry::new();
    for slug in ["b", "ab", "a", "é", "a-b", "Z", "9"] {
        registry.add(mock_server_handle(slug, HealthState::Healthy));
    }
    let slugs = registry.server_slugs();
    assert_eq!(slugs, vec!["9", "Z", "a", "a-b", "ab", "b", "é"]);
    let mut sorted = slugs.clone();
    sorted.sort();
    assert_eq!(slugs, sorted);
}

#[test]
fn shutting_down_keeps_the_servers() {
    let config = make_config(vec![stdio_config("gh", true)]);
    let mut registry = PorterRegistry::from_config(config).unwrap();
    assert!(!registry.is_shutting_down());
    registry.shutdown();
    assert!(registry.is_shutting_down());
    registry.shutdown();
    assert!(registry.is_shutting_down());
    assert_eq!(registry.server_slugs(), vec!["gh"]);
    assert!(registry.call_tool::<String>("gh__x", None).is_ok());
}
