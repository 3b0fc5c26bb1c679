//! What can go wrong in the gateway.

use vstd::prelude::*;
use vstd::string::*;

verus! {

/// Main error type for Porter operations.
#[derive(Debug)]
pub enum PorterError {
    /// Two configured servers share a slug.
    DuplicateSlug(String),
    /// The configuration of a named server is invalid.
    InvalidConfig(String, String),
    /// A named server could not be initialized.
    InitializationFailed(String, String),
    /// A named server is unhealthy.
    ServerUnhealthy(String, String),
    /// A named server, or a caller of it, broke the MCP protocol.
    Protocol(String, String),
    /// The transport to a named server failed.
    Transport(String, String),
    /// A named server is shutting down.
    ShuttingDown(String),
}

/// Result type for Porter operations.
pub type Result<T> = std::result::Result<T, PorterError>;

/// An error as plain text.
pub enum Fault {
    DuplicateSlug(Seq<char>),
    InvalidConfig(Seq<char>, Seq<char>),
    InitializationFailed(Seq<char>, Seq<char>),
    ServerUnhealthy(Seq<char>, Seq<char>),
    Protocol(Seq<char>, Seq<char>),
    Transport(Seq<char>, Seq<char>),
    ShuttingDown(Seq<char>),
}

impl View for PorterError {
    type V = Fault;

    open spec fn view(&self) -> Fault {
        match *self {
            PorterError::DuplicateSlug(slug) => Fault::DuplicateSlug(slug@),
            PorterError::InvalidConfig(slug, why) => Fault::InvalidConfig(slug@, why@),
            PorterError::InitializationFailed(slug, why) => Fault::InitializationFailed(
                slug@,
                why@,
            ),
            PorterError::ServerUnhealthy(slug, why) => Fault::ServerUnhealthy(slug@, why@),
            PorterError::Protocol(slug, why) => Fault::Protocol(slug@, why@),
            PorterError::Transport(slug, why) => Fault::Transport(slug@, why@),
            PorterError::ShuttingDown(slug) => Fault::ShuttingDown(slug@),
        }
    }
}

/// The message that a fault is shown with.
pub open spec fn message(fault: Fault) -> Seq<char> {
    match fault {
        Fault::DuplicateSlug(slug) => "duplicate server slug: "@ + slug,
        Fault::InvalidConfig(slug, why) => "invalid config for server '"@ + slug + "': "@ + why,
        Fault::InitializationFailed(slug, why) => "initialization failed for server '"@ + slug
            + "': "@ + why,
        Fault::ServerUnhealthy(slug, why) => "server '"@ + slug + "' is unhealthy: "@ + why,
        Fault::Protocol(slug, why) => "protocol error for server '"@ + slug + "': "@ + why,
        Fault::Transport(slug, why) => "transport error for server '"@ + slug + "': "@ + why,
        Fault::ShuttingDown(slug) => "server '"@ + slug + "' shutting down"@,
    }
}

/// `first` followed by `second`, `third` and `fourth`.
fn join(first: &str, second: &str, third: &str, fourth: &str) -> (joined: String)
    ensures
        joined@ == first@ + second@ + third@ + fourth@,
{
    let mut joined = first.to_string();
    joined.append(second);
    joined.append(third);
    joined.append(fourth);
    joined
}

impl PorterError {
    /// The message that the error is shown with.
    pub fn to_string(&self) -> (shown: String)
        ensures
            shown@ == message(self@),
    {
        match self {
            PorterError::DuplicateSlug(slug) => {
                let mut shown = "duplicate server slug: ".to_string();
                shown.append(slug.as_str());
                shown
            },
            PorterError::InvalidConfig(slug, why) => join(
                "invalid config for server '",
                slug.as_str(),
                "': ",
                why.as_str(),
            ),
            PorterError::InitializationFailed(slug, why) => join(
                "initialization failed for server '",
                slug.as_str(),
                "': ",
                why.as_str(),
            ),
            PorterError::ServerUnhealthy(slug, why) => join(
                "server '",
                slug.as_str(),
                "' is unhealthy: ",
                why.as_str(),
            ),
            PorterError::Protocol(slug, why) => join(
                "protocol error for server '",
                slug.as_str(),
                "': ",
                why.as_str(),
            ),
            PorterError::Transport(slug, why) => join(
                "transport error for server '",
                slug.as_str(),
                "': ",
                why.as_str(),
            ),
            PorterError::ShuttingDown(slug) => {
                let mut shown = "server '".to_string();
                shown.append(slug.as_str());
                shown.append("' shutting down");
                shown
            },
        }
    }
}

} // verus!
