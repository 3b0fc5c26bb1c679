//! Edge cases and laws of validation, patterns, references and tables.

use porter::env::referenced_var;
use porter::filter::{glob_match, has_unsupported_glob_star};
use porter::text::{comes_before, contains, ends_with, find, same, starts_with};
use porter::validation::{check_slug, validate_slug_format};
use porter::{
    parse_env_ref, referenced_vars, resolve_env_vars, PorterConfig, PorterError, ServerConfig,
    Table, ToolFilter, TransportKind,
};

fn stdio(slug: &str) -> ServerConfig {
    ServerConfig {
        slug: slug.to_string(),
        enabled: true,
        transport: TransportKind::Stdio,
        command: Some("echo".to_string()),
        args: vec![],
        env: Table::new(),
        cwd: None,
        url: None,
        handshake_timeout_secs: 30,
        allow: None,
        deny: vec![],
    }
}

fn http(slug: &str) -> ServerConfig {
    let mut server = stdio(slug);
    server.transport = TransportKind::Http;
    server.command = None;
    server.url = Some("https://example.com/mcp".to_string());
    server
}

fn said(servers: Vec<ServerConfig>) -> String {
    let mut config = PorterConfig::default();
    for (i, server) in servers.into_iter().enumerate() {
        config.servers.insert(format!("server-{i}"), server);
    }
    match config.validate() {
        Ok(()) => "valid".to_string(),
        Err(e) => e.to_string(),
    }
}

#[test]
fn slugs_are_letters_digits_and_hyphens() {
    for good in ["gh", "a", "-", "9", "a-b-9", "é", "名前", "²"] {
        assert!(validate_slug_format(good).is_ok(), "{good}");
    }
    for bad in ["", "a__b", "__", "a_b", "a b", "a.b", "!", "a\u{301}", "—"] {
        assert!(
            matches!(
                validate_slug_format(bad),
                Err(PorterError::InvalidConfig(slug, why))
                    if slug == bad && why
                        == "slug must be non-empty alphanumeric with hyphens, no double underscores"
            ),
            "{bad}"
        );
    }
}

#[test]
fn a_slug_is_checked_by_what_its_characters_are() {
    assert!(check_slug("é-x", &vec![true, false, true]).is_ok());
    assert!(check_slug("é-x", &vec![false, false, true]).is_err());
    assert!(check_slug("a__b", &vec![true, true, true, true]).is_err());
    assert!(check_slug("", &vec![]).is_err());
}

#[test]
fn each_fault_is_reported_in_its_words() {
    assert_eq!(said(vec![stdio("gh"), http("api")]), "valid");
    let mut server = stdio("gh");
    server.command = None;
    assert_eq!(
        said(vec![server]),
        "invalid config for server 'gh': STDIO transport requires 'command' field"
    );
    let mut server = stdio("gh");
    server.url = Some("https://example.com".to_string());
    assert_eq!(
        said(vec![server]),
        "invalid config for server 'gh': STDIO transport should not have 'url' field"
    );
    let mut server = http("api");
    server.url = None;
    assert_eq!(
        said(vec![server]),
        "invalid config for server 'api': HTTP transport requires 'url' field"
    );
    let mut server = http("api");
    server.command = Some("echo".to_string());
    assert_eq!(
        said(vec![server]),
        "invalid config for server 'api': HTTP transport should not have 'command' field"
    );
    let mut server = stdio("gh");
    server.env.insert("TOKEN".to_string(), "secret".to_string());
    assert_eq!(
        said(vec![server]),
        "invalid config for server 'gh': env value for key 'TOKEN' must be a ${VAR} reference, got 'secret'"
    );
    let mut server = stdio("gh");
    server.deny = vec![String::new()];
    assert_eq!(
        said(vec![server]),
        "invalid config for server 'gh': allow/deny entries must be non-empty tool names"
    );
    let mut server = stdio("gh");
    server.allow = Some(vec!["a*b".to_string()]);
    assert_eq!(
        said(vec![server]),
        "invalid config for server 'gh': allow/deny entry 'a*b' has a '*' in an unsupported position — wildcards are only allowed as a single leading and/or trailing character (e.g. 'get_*', '*_issue', '*delete*')"
    );
    assert_eq!(said(vec![stdio("gh"), http("gh")]), "duplicate server slug: gh");
    assert_eq!(
        said(vec![stdio("a_b")]),
        "invalid config for server 'a_b': slug must be non-empty alphanumeric with hyphens, no double underscores"
    );
}

#[test]
fn slugs_are_checked_before_anything_else() {
    let mut broken = stdio("gh");
    broken.command = None;
    assert_eq!(said(vec![broken.clone(), http("gh")]), "duplicate server slug: gh");
    // Transport fields come before env values, env values before entries.
    broken.env.insert("TOKEN".to_string(), "secret".to_string());
    broken.deny = vec![String::new()];
    assert!(said(vec![broken.clone()]).contains("'command'"));
    broken.command = Some("echo".to_string());
    assert!(said(vec![broken.clone()]).contains("TOKEN"));
    broken.env = Table::new();
    broken.allow = Some(vec!["a*b".to_string()]);
    assert!(said(vec![broken]).contains("unsupported position"));
}

#[test]
fn a_disabled_server_is_exempt_beyond_its_slug() {
    let mut server = stdio("gh");
    server.enabled = false;
    server.command = None;
    server.env.insert("TOKEN".to_string(), "secret".to_string());
    server.deny = vec![String::new()];
    assert_eq!(said(vec![server.clone()]), "valid");
    assert!(server.validate().is_ok());
    assert_eq!(said(vec![server.clone(), stdio("gh")]), "duplicate server slug: gh");
    server.slug = "a b".to_string();
    assert!(said(vec![server]).contains("'a b'"));
}

#[test]
fn the_verdict_does_not_depend_on_the_order_of_the_servers() {
    let mut broken = stdio("broken");
    broken.command = None;
    assert_eq!(
        said(vec![stdio("gh"), broken.clone()]) == "valid",
        said(vec![broken, stdio("gh")]) == "valid"
    );
    assert_eq!(said(vec![stdio("a"), stdio("b")]), said(vec![stdio("b"), stdio("a")]));
}

#[test]
fn entries_in_both_lists_are_found_and_lost() {
    let mut server = stdio("gh");
    assert!(server.overlapping_entries().is_empty());
    server.allow =
        Some(vec!["get_*".to_string(), "push_files".to_string(), "x".to_string()]);
    server.deny = vec!["x".to_string(), "y".to_string(), "get_*".to_string()];
    assert_eq!(server.overlapping_entries(), vec!["get_*", "x"]);
    let filter = server.tool_filter();
    assert_eq!(filter.block_reason("get_issue"), Some("deny list"));
    assert_eq!(filter.block_reason("x"), Some("deny list"));
    assert_eq!(filter.block_reason("push_files"), None);
}

#[test]
fn stars_free_the_ends_of_a_name() {
    for name in ["", "x", "a*b", "ü"] {
        assert!(glob_match("*", name));
        assert!(glob_match("**", name));
    }
    assert!(glob_match("", ""));
    assert!(!glob_match("", "x"));
    assert!(glob_match("*ü*", "grün"));
    assert!(!glob_match("ab*", "a"));
    assert!(!glob_match("*ab", "b"));
    // A star within is itself.
    assert!(glob_match("a*b", "a*b"));
    assert!(!glob_match("a*b", "axb"));
    // Of several stars at an end, the outermost frees it and the rest are
    // themselves.
    assert!(!glob_match("**abc", "xabc"));
    assert!(glob_match("**abc", "x*abc"));
    assert!(!glob_match("abc***", "abcx"));
    assert!(glob_match("abc***", "abc**x"));
    assert!(!glob_match("***", "x"));
    assert!(glob_match("***", "x*y"));
    assert!(has_unsupported_glob_star("***"));
    assert!(!has_unsupported_glob_star(""));
    assert!(has_unsupported_glob_star("abc**"));
}

#[test]
fn a_name_is_permitted_when_there_is_no_reason_to_block_it() {
    let filter = ToolFilter::new(
        Some(vec!["get_*".to_string()]),
        vec!["*_secret".to_string()],
    );
    for name in ["get_issue", "get_secret", "push", ""] {
        assert_eq!(filter.permits(name), filter.block_reason(name).is_none());
    }
    assert_eq!(filter.block_reason("get_secret"), Some("deny list"));
    assert_eq!(filter.block_reason("push"), Some("not in allow list"));
    assert_eq!(filter.block_reason("push_secret"), Some("deny list"));
}

#[test]
fn references_and_names_are_one_and_the_same() {
    for name in ["FOO", "", "}", "${X}", "ü"] {
        assert_eq!(parse_env_ref(&format!("${{{name}}}")), Some(name));
    }
    for other in ["", "$", "{FOO}", "${FOO", "$FOO}", " ${FOO}", "${FOO} "] {
        assert_eq!(parse_env_ref(other), None);
    }
}

#[test]
fn both_forms_stand_for_their_variable() {
    assert_eq!(referenced_var("${VAR}"), Some("VAR"));
    assert_eq!(referenced_var("${}"), Some(""));
    assert_eq!(referenced_var("$VAR"), Some("VAR"));
    assert_eq!(referenced_var("$ü"), Some("ü"));
    assert_eq!(referenced_var("$$"), Some("$"));
    for other in ["", "$", "${", "${VAR", "VAR", "x$VAR"] {
        assert_eq!(referenced_var(other), None);
    }
    let mut env: Table<String> = Table::new();
    env.insert("K".to_string(), "$VAR".to_string());
    let mut vars: Table<String> = Table::new();
    vars.insert("VAR".to_string(), "x".to_string());
    assert_eq!(resolve_env_vars(&env, &vars).get("K").unwrap(), "x");
}

#[test]
fn references_resolve_and_the_rest_is_kept() {
    let mut env: Table<String> = Table::new();
    env.insert("A".to_string(), "${SET}".to_string());
    env.insert("B".to_string(), "${UNSET}".to_string());
    env.insert("C".to_string(), "literal".to_string());
    env.insert("D".to_string(), "$SET".to_string());
    env.insert("E".to_string(), "$UNSET".to_string());
    env.insert("F".to_string(), "$".to_string());
    env.insert("G".to_string(), "${SET".to_string());
    assert_eq!(referenced_vars(&env), vec!["SET", "UNSET", "SET", "UNSET"]);
    let mut vars: Table<String> = Table::new();
    vars.insert("SET".to_string(), "${UNSET}".to_string());
    let resolved = resolve_env_vars(&env, &vars);
    assert_eq!(resolved.len(), 7);
    assert_eq!(resolved.get("A").unwrap(), "${UNSET}");
    assert_eq!(resolved.get("B").unwrap(), "");
    assert_eq!(resolved.get("C").unwrap(), "literal");
    assert_eq!(resolved.get("D").unwrap(), "${UNSET}");
    assert_eq!(resolved.get("E").unwrap(), "");
    assert_eq!(resolved.get("F").unwrap(), "$");
    assert_eq!(resolved.get("G").unwrap(), "${SET");
    // A variable that nothing refers to does not matter.
    vars.insert("OTHER".to_string(), "x".to_string());
    assert_eq!(resolve_env_vars(&env, &vars).into_rows(), resolved.into_rows());
}

#[test]
fn tables_hold_each_key_once_and_keep_their_order() {
    let mut table: Table<u8> = Table::new();
    assert!(table.is_empty());
    assert_eq!(table.insert("b".to_string(), 1), None);
    assert_eq!(table.insert("a".to_string(), 2), None);
    assert_eq!(table.insert("b".to_string(), 3), Some(1));
    assert_eq!(table.len(), 2);
    assert_eq!(table.find("a"), Some(1));
    assert_eq!(table.find("c"), None);
    assert_eq!(table.key_at(0), "b");
    assert_eq!(*table.value_at(0), 3);
    let copy = table.clone();
    assert_eq!(table.remove_at(0), ("b".to_string(), 3));
    table.insert_at(1, "c".to_string(), 4);
    assert_eq!(table.into_rows(), vec![("a".to_string(), 2), ("c".to_string(), 4)]);
    assert_eq!(copy.into_rows(), vec![("b".to_string(), 3), ("a".to_string(), 2)]);
    assert!(Table::<u8>::default().is_empty());
}

#[test]
fn text_is_compared_by_characters() {
    assert!(starts_with("grün", "gr") && !starts_with("gr", "grün"));
    assert!(ends_with("grün", "ün") && !ends_with("n", "ün"));
    assert!(contains("grün", "rü") && contains("", "") && !contains("", "x"));
    assert_eq!(find("aüaü", "ü"), Some(1));
    assert_eq!(find("a", "ü"), None);
    assert!(same("ü", "ü") && !same("ü", "u") && !same("a", "ab"));
    for (a, b) in [("", "a"), ("a", "ab"), ("Z", "a"), ("a", "é"), ("\u{ffff}", "\u{10000}")] {
        assert!(comes_before(a, b) && !comes_before(b, a) && !comes_before(a, a));
        assert!(a < b);
    }
}
