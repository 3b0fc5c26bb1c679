//! Porter: a gateway that puts many MCP servers behind one tool surface.
//!
//! The library holds the decisions of the gateway. It validates configurations,
//! resolves env-var references, applies the allow/deny policy of each server,
//! namespaces tools by server slug, aggregates them, and routes tool calls. It
//! does no I/O: whoever runs the servers tells it what was heard of them, and
//! carries out the requests that it hands back.

pub mod config;
pub mod env;
pub mod error;
pub mod filter;
pub mod laws;
pub mod namespace;
pub mod registry;
pub mod server;
pub mod table;
pub mod text;
pub mod validation;

pub use config::{ListenConfig, PorterConfig, ServerConfig, TransportKind};
pub use env::{parse_env_ref, referenced_var, referenced_vars, resolve_env_vars};
pub use error::{PorterError, Result};
pub use filter::ToolFilter;
pub use registry::PorterRegistry;
pub use server::{HealthState, ServerHandle, Tool};
pub use table::Table;
