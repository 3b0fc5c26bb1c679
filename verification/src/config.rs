//! Porter server configuration.

use std::path::PathBuf;

use vstd::prelude::*;
use vstd::string::*;

use crate::filter::{Policy, ToolFilter};
use crate::table::Table;
use crate::{env, filter, text};

verus! {

/// `std::path::PathBuf`, carried through as an opaque value.
#[verifier::external_type_specification]
#[verifier::external_body]
pub struct ExPathBuf(PathBuf);

/// HTTP listen address defaults for `porter serve`.
///
/// Configured under `[listen]`. CLI flags `--host` and `--port` override these
/// values when provided.
#[derive(Debug, Clone)]
pub struct ListenConfig {
    pub host: String,
    pub port: u16,
}

/// Top-level Porter configuration.
#[derive(Debug, Clone)]
pub struct PorterConfig {
    pub listen: ListenConfig,
    /// The servers under the names that the configuration gives them.
    pub servers: Table<ServerConfig>,
}

/// Configuration for a single managed MCP server.
#[derive(Debug, Clone)]
pub struct ServerConfig {
    pub slug: String,
    pub enabled: bool,
    pub transport: TransportKind,
    // STDIO fields
    pub command: Option<String>,
    pub args: Vec<String>,
    pub env: Table<String>,
    pub cwd: Option<PathBuf>,
    // HTTP fields
    pub url: Option<String>,
    /// MCP handshake timeout.
    pub handshake_timeout_secs: u64,
    /// Tool allow-list, matched against the downstream (un-namespaced) tool
    /// name: `create_issue`, not `github__create_issue`.
    ///
    /// Without one, everything not explicitly denied is allowed. With one, a
    /// tool is permitted only if it matches at least one entry, so an empty
    /// list blocks every tool. Entries are exact names or a simple glob
    /// (`prefix*`, `*suffix`, `*inner*`).
    pub allow: Option<Vec<String>>,
    /// Tool deny-list, matched against the downstream (un-namespaced) tool
    /// name: `delete_issue`, not `github__delete_issue`.
    ///
    /// A tool matching any deny entry is blocked regardless of `allow`.
    /// Entries are exact names or a simple glob (`prefix*`, `*suffix`,
    /// `*inner*`).
    pub deny: Vec<String>,
}

/// Supported MCP transport types.
#[derive(Debug, Clone, Copy, PartialEq, Eq, Structural)]
pub enum TransportKind {
    Stdio,
    Http,
}

/// The host that is listened on unless the configuration names one.
pub fn default_host() -> (host: String)
    ensures
        host@ == "127.0.0.1"@,
{
    "127.0.0.1".to_string()
}

/// The port that is listened on unless the configuration names one.
pub fn default_port() -> (port: u16)
    ensures
        port == 3000,
{
    3000
}

/// Servers are enabled unless the configuration says otherwise.
pub fn default_enabled() -> (enabled: bool)
    ensures
        enabled,
{
    true
}

/// The handshake timeout unless the configuration names one.
pub fn default_handshake_timeout_secs() -> (secs: u64)
    ensures
        secs == 30,
{
    30
}

impl Default for ListenConfig {
    fn default() -> (listen: Self)
        ensures
            listen.host@ == "127.0.0.1"@,
            listen.port == 3000,
    {
        ListenConfig { host: default_host(), port: default_port() }
    }
}

impl Default for PorterConfig {
    fn default() -> (config: Self)
        ensures
            config.listen.host@ == "127.0.0.1"@,
            config.listen.port == 3000,
            config.servers.rows() == Seq::<(Seq<char>, ServerConfig)>::empty(),
    {
        PorterConfig { listen: ListenConfig::default(), servers: Table::new() }
    }
}

/// What validation reads of a server.
pub struct ServerModel {
    pub slug: Seq<char>,
    pub enabled: bool,
    pub transport: TransportKind,
    pub has_command: bool,
    pub has_url: bool,
    pub env: Map<Seq<char>, Seq<char>>,
    pub policy: Policy,
}

impl View for ServerConfig {
    type V = ServerModel;

    open spec fn view(&self) -> ServerModel {
        ServerModel {
            slug: self.slug@,
            enabled: self.enabled,
            transport: self.transport,
            has_command: self.command is Some,
            has_url: self.url is Some,
            env: env::text_map(self.env),
            policy: Policy {
                allow: filter::optional_views(self.allow),
                deny: text::views(self.deny@),
            },
        }
    }
}

impl ServerConfig {
    /// Builds the compiled tool-access filter for this server from its
    /// `allow`/`deny` lists.
    pub fn tool_filter(&self) -> (compiled: ToolFilter)
        ensures
            compiled@ == self@.policy,
    {
        let allow = self.allow.clone();
        let deny = self.deny.clone();
        assert(text::views(deny@) =~= text::views(self.deny@));
        proof {
            if self.allow is Some {
                assert(text::views(allow->0@) =~= text::views(self.allow->0@));
            }
        }
        ToolFilter::new(allow, deny)
    }

    /// The allow entries that the deny list holds too. Deny wins, so such an
    /// entry is almost certainly a mistake.
    pub fn overlapping_entries(&self) -> (entries: Vec<String>)
        ensures
            text::views(entries@) == allow_entries(self@.policy).filter(
                |entry: Seq<char>| self@.policy.deny.contains(entry),
            ),
    {
        let ghost deny = self@.policy.deny;
        let ghost denied = |entry: Seq<char>| self@.policy.deny.contains(entry);
        let ghost listed = allow_entries(self@.policy);
        let mut entries: Vec<String> = Vec::new();
        proof {
            reveal(Seq::filter);
            assert(text::views(entries@) =~= listed.take(0).filter(denied));
        }
        if let Some(allow) = &self.allow {
            let mut i: usize = 0;
            while i < allow.len()
                invariant
                    i <= allow.len(),
                    deny == text::views(self.deny@),
                    forall|entry: Seq<char>| #[trigger] denied(entry) == deny.contains(entry),
                    listed == text::views(allow@),
                    text::views(entries@) == listed.take(i as int).filter(denied),
                decreases allow.len() - i,
            {
                let ghost before = entries@;
                proof {
                    reveal(Seq::filter);
                    assert(listed.take(i + 1).drop_last() =~= listed.take(i as int));
                    assert(listed.take(i + 1).last() == allow@[i as int]@);
                }
                if holds(&self.deny, allow[i].as_str()) {
                    entries.push(allow[i].clone());
                    assert(text::views(entries@) =~= text::views(before).push(allow@[i as int]@));
                }
                i += 1;
            }
            assert(listed.take(i as int) =~= listed);
        } else {
            assert(listed.take(0) =~= listed);
        }
        entries
    }
}

/// Whether `list` holds `wanted`.
fn holds(list: &Vec<String>, wanted: &str) -> (found: bool)
    ensures
        found == text::views(list@).contains(wanted@),
{
    let ghost views = text::views(list@);
    let mut i: usize = 0;
    while i < list.len()
        invariant
            views == text::views(list@),
            i <= list.len(),
            forall|j: int| 0 <= j < i ==> #[trigger] views[j] != wanted@,
        decreases list.len() - i,
    {
        if text::same(list[i].as_str(), wanted) {
            assert(views[i as int] == wanted@);
            return true;
        }
        i += 1;
    }
    false
}

/// The entries of an allow list; one that is absent has none.
pub open spec fn allow_entries(policy: Policy) -> Seq<Seq<char>> {
    match policy.allow {
        Some(allow) => allow,
        None => Seq::empty(),
    }
}

} // verus!
