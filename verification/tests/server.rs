//! One managed server: its health, its tools, its policy and its calls.

use porter::namespace::unnamespace_tool_name;
use porter::server::{
    CallToolRequestParams, Dispatch, Exchange, BACKOFF_INITIAL_SECS, BACKOFF_MAX_SECS,
    MAX_FAILURES,
};
use porter::{HealthState, PorterError, ServerConfig, ServerHandle, Table, Tool, TransportKind};

fn config(slug: &str) -> ServerConfig {
    ServerConfig {
        slug: slug.to_string(),
        enabled: true,
        transport: TransportKind::Stdio,
        command: Some("echo".to_string()),
        args: vec![],
        env: Table::new(),
        cwd: None,
        url: None,
        handshake_timeout_secs: 30,
        allow: None,
        deny: vec![],
    }
}

fn tool(name: &str) -> Tool {
    Tool {
        name: name.to_string(),
        definition: format!(
            "{{\"name\":\"{name}\",\"inputSchema\":{{\"type\":\"object\",\"properties\":{{}}}}}}"
        ),
    }
}

fn params(name: &str) -> CallToolRequestParams<String> {
    CallToolRequestParams { name: name.to_string(), arguments: None, task: None, meta: None }
}

fn dispatch(slug: &str) -> Dispatch<String> {
    Dispatch { slug: slug.to_string(), params: params("test_tool") }
}

#[test]
fn test_server_handle_health() {
    let mut handle = ServerHandle::new(config("test"));
    assert_eq!(handle.health(), HealthState::Starting);

    // Transition to Healthy
    handle.set_health(HealthState::Healthy);
    assert_eq!(handle.health(), HealthState::Healthy);
}

#[test]
fn test_server_handle_tools_empty() {
    let handle = ServerHandle::new(config("test"));
    let tool_list = handle.tools();
    assert!(tool_list.is_empty());
}

#[test]
fn test_server_handle_call_tool_unhealthy_when_channel_closed() {
    let mut handle = ServerHandle::new(config("test-server"));
    handle.set_health(HealthState::Unhealthy);
    let result = handle
        .call_tool(params("test_tool"))
        .and_then(|started| started.settle::<String>(Exchange::ChannelClosed));
    assert!(matches!(
        result,
        Err(PorterError::ServerUnhealthy(slug, _)) if slug == "test-server"
    ));

    // The closed channel alone has the same outcome.
    handle.set_health(HealthState::Healthy);
    let result = handle
        .call_tool(params("test_tool"))
        .and_then(|started| started.settle::<String>(Exchange::ChannelClosed));
    assert!(matches!(
        result,
        Err(PorterError::ServerUnhealthy(slug, _)) if slug == "test-server"
    ));
}

#[test]
fn test_server_handle_tools_hides_denied() {
    let mut gh = config("gh");
    gh.deny = vec!["*delete*".to_string()];
    let mut handle = ServerHandle::new(gh);
    handle.set_health(HealthState::Healthy);
    // Tools are stored namespaced.
    handle.set_tools(vec![tool("gh__get_issue"), tool("gh__delete_issue")]);

    let visible = handle.tools();
    assert_eq!(visible.len(), 1);
    assert_eq!(visible[0].name, "gh__get_issue");
    assert_eq!(visible[0], tool("gh__get_issue"));
    // Permission check accepts both namespaced and un-namespaced names.
    assert!(handle.tool_block_reason("gh__get_issue").is_none());
    assert!(handle.tool_block_reason("get_issue").is_none());
    assert_eq!(handle.tool_block_reason("gh__delete_issue"), Some("deny list"));
    assert_eq!(handle.tool_block_reason("delete_issue"), Some("deny list"));
}

#[test]
fn visible_tools_keep_their_order() {
    let mut gh = config("gh");
    gh.allow = Some(vec!["get_*".to_string()]);
    let mut handle = ServerHandle::new(gh);
    handle.set_tools(vec![
        tool("gh__get_repo"),
        tool("gh__push_files"),
        tool("gh__get_issue"),
    ]);
    let names: Vec<String> = handle.tools().into_iter().map(|t| t.name).collect();
    assert_eq!(names, vec!["gh__get_repo", "gh__get_issue"]);
    assert_eq!(handle.tool_block_reason("gh__push_files"), Some("not in allow list"));
}

#[test]
fn a_new_handle_is_starting_and_keeps_its_configuration() {
    let handle = ServerHandle::new(config("gh"));
    assert_eq!(handle.health(), HealthState::Starting);
    assert_eq!(handle.config().slug, "gh");
    assert_eq!(handle.config().transport, TransportKind::Stdio);
}

#[test]
fn calls_are_handed_on_unless_the_server_is_unhealthy() {
    let mut handle = ServerHandle::new(config("gh"));
    for health in [HealthState::Starting, HealthState::Healthy, HealthState::Degraded] {
        handle.set_health(health);
        let mut request = params("get_issue");
        request.arguments = Some("{\"id\":1}".to_string());
        let started = handle.call_tool(request).unwrap();
        assert_eq!(started.slug, "gh");
        assert_eq!(started.params.name, "get_issue");
        assert_eq!(started.params.arguments.as_deref(), Some("{\"id\":1}"));
    }
    handle.set_health(HealthState::Unhealthy);
    assert!(matches!(
        handle.call_tool(params("get_issue")),
        Err(PorterError::ServerUnhealthy(slug, why))
            if slug == "gh" && why == "server is unhealthy"
    ));
}

#[test]
fn a_call_is_settled_by_what_came_of_it() {
    assert!(matches!(
        dispatch("gh").settle::<u8>(Exchange::ChannelClosed),
        Err(PorterError::ServerUnhealthy(slug, why))
            if slug == "gh" && why == "server channel closed"
    ));
    assert!(matches!(
        dispatch("gh").settle::<u8>(Exchange::ResponseDropped),
        Err(PorterError::Protocol(slug, why))
            if slug == "gh" && why == "response channel dropped"
    ));
    assert!(matches!(dispatch("gh").settle(Exchange::Answered(Ok(7u8))), Ok(7)));
    let refused: Result<u8, PorterError> = Err(PorterError::ShuttingDown("gh".to_string()));
    assert!(matches!(
        dispatch("gh").settle(Exchange::Answered(refused)),
        Err(PorterError::ShuttingDown(slug)) if slug == "gh"
    ));
}

#[test]
fn names_split_at_the_first_separator() {
    assert_eq!(unnamespace_tool_name("gh__list_repos"), Some(("gh", "list_repos")));
    assert_eq!(unnamespace_tool_name("gh__a__b"), Some(("gh", "a__b")));
    assert_eq!(unnamespace_tool_name("a___b"), Some(("a", "_b")));
    assert_eq!(unnamespace_tool_name("__b"), Some(("", "b")));
    assert_eq!(unnamespace_tool_name("gh__"), Some(("gh", "")));
    assert_eq!(unnamespace_tool_name("list_repos"), None);
    assert_eq!(unnamespace_tool_name(""), None);
    assert_eq!(unnamespace_tool_name("ü__ö"), Some(("ü", "ö")));
}

#[test]
fn the_policy_sees_the_downstream_name() {
    let mut gh = config("gh");
    gh.deny = vec!["gh__*".to_string(), "admin__delete".to_string()];
    let handle = ServerHandle::new(gh);
    assert_eq!(handle.downstream_name("gh__get_issue"), "get_issue");
    assert_eq!(handle.downstream_name("get_issue"), "get_issue");
    assert_eq!(handle.downstream_name("admin__delete"), "admin__delete");
    assert_eq!(handle.downstream_name("gh__admin__delete"), "admin__delete");
    assert_eq!(handle.downstream_name("gh_"), "gh_");
    assert_eq!(handle.downstream_name("gh__"), "");
    // Entries that are written with the namespace do not match.
    assert_eq!(handle.tool_block_reason("gh__get_issue"), None);
    // A tool is blocked alike under both of its names, also with a separator
    // in its own.
    assert_eq!(handle.tool_block_reason("admin__delete"), Some("deny list"));
    assert_eq!(handle.tool_block_reason("gh__admin__delete"), Some("deny list"));
    assert_eq!(handle.tool_block_reason("delete"), None);
}

#[test]
fn a_hidden_tool_with_a_separator_in_its_name_is_blocked_under_it() {
    let mut gh = config("gh");
    gh.deny = vec!["admin__*".to_string()];
    let mut handle = ServerHandle::new(gh);
    handle.set_tools(vec![tool("gh__admin__delete"), tool("gh__delete")]);
    let names: Vec<String> = handle.tools().into_iter().map(|t| t.name).collect();
    assert_eq!(names, vec!["gh__delete"]);
    assert_eq!(handle.tool_block_reason("admin__delete"), Some("deny list"));
}

#[test]
fn limits_of_the_restart_loop() {
    assert_eq!(MAX_FAILURES, 5);
    assert_eq!(BACKOFF_INITIAL_SECS, 1);
    assert_eq!(BACKOFF_MAX_SECS, 30);
}
