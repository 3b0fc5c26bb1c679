//! The messages that errors are shown with.

use porter::PorterError;

#[test]
fn test_duplicate_slug_display() {
    let err = PorterError::DuplicateSlug("gh".to_string());
    assert_eq!(err.to_string(), "duplicate server slug: gh");
}

#[test]
fn test_invalid_config_display() {
    let err = PorterError::InvalidConfig(
        "gh".to_string(),
        "STDIO transport requires 'command' field".to_string(),
    );
    assert_eq!(
        err.to_string(),
        "invalid config for server 'gh': STDIO transport requires 'command' field"
    );
}

#[test]
fn every_other_error_names_its_server() {
    let gh = || "gh".to_string();
    let why = || "no luck".to_string();
    assert_eq!(
        PorterError::InitializationFailed(gh(), why()).to_string(),
        "initialization failed for server 'gh': no luck"
    );
    assert_eq!(
        PorterError::ServerUnhealthy(gh(), why()).to_string(),
        "server 'gh' is unhealthy: no luck"
    );
    assert_eq!(
        PorterError::Protocol(gh(), why()).to_string(),
        "protocol error for server 'gh': no luck"
    );
    assert_eq!(
        PorterError::Transport(gh(), why()).to_string(),
        "transport error for server 'gh': no luck"
    );
    assert_eq!(PorterError::ShuttingDown(gh()).to_string(), "server 'gh' shutting down");
}
