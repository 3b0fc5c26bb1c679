//! One managed MCP server: its health, its tools and the calls made to it.

use vstd::prelude::*;
use vstd::string::*;

use crate::config::ServerConfig;
use crate::error::{Fault, PorterError};
use crate::filter::{Policy, ToolFilter};
use crate::namespace::downstream_tool_name;
use crate::{filter, namespace, validation};

verus! {

/// Maximum consecutive failures before a server is marked Unhealthy.
pub const MAX_FAILURES: u32 = 5;

/// Initial backoff of restart and reconnect loops, in seconds.
pub const BACKOFF_INITIAL_SECS: u64 = 1;

/// Cap on the backoff, in seconds.
pub const BACKOFF_MAX_SECS: u64 = 30;

/// The health of a managed server.
#[derive(Debug, Clone, Copy, PartialEq, Eq, Structural)]
pub enum HealthState {
    /// The server has been spawned and has not completed its handshake.
    Starting,
    /// The server answers.
    Healthy,
    /// The server failed and is being restarted or reconnected.
    Degraded,
    /// The server failed too often and is given up on.
    Unhealthy,
}

/// A tool as a server announces it, under its namespaced name.
#[derive(Debug, PartialEq, Eq)]
pub struct Tool {
    pub name: String,
    /// What is announced of the tool beyond its name, in a form that whoever
    /// announces it can read back: a JSON document, or a key to one.
    pub definition: String,
}

/// A tool as plain text.
pub struct ToolModel {
    pub name: Seq<char>,
    pub definition: Seq<char>,
}

impl View for Tool {
    type V = ToolModel;

    open spec fn view(&self) -> ToolModel {
        ToolModel { name: self.name@, definition: self.definition@ }
    }
}

impl Clone for Tool {
    fn clone(&self) -> (copy: Self)
        ensures
            copy@ == self@,
    {
        Tool { name: self.name.clone(), definition: self.definition.clone() }
    }
}

/// The views of a sequence of tools.
pub open spec fn tool_views(tools: Seq<Tool>) -> Seq<ToolModel> {
    tools.map_values(|tool: Tool| tool@)
}

/// A request to call a tool, `A` being a JSON object.
#[derive(Debug)]
pub struct CallToolRequestParams<A> {
    pub name: String,
    pub arguments: Option<A>,
    pub task: Option<A>,
    pub meta: Option<A>,
}

/// A request on its way to the server that it is meant for.
#[derive(Debug)]
pub struct Dispatch<A> {
    pub slug: String,
    pub params: CallToolRequestParams<A>,
}

/// What came of a request that was put on the channel of a server.
#[derive(Debug)]
pub enum Exchange<R> {
    /// The channel was closed, so the request was not taken.
    ChannelClosed,
    /// The request was taken, and the channel for its response dropped.
    ResponseDropped,
    /// The server loop responded.
    Answered(Result<R, PorterError>),
}

impl<A> Dispatch<A> {
    /// What the caller is told of a request, once it is known what came of it.
    pub fn settle<R>(&self, exchange: Exchange<R>) -> (answer: Result<R, PorterError>)
        ensures
            match exchange {
                Exchange::ChannelClosed => validation::reported(answer) == Some(
                    Fault::ServerUnhealthy(self.slug@, "server channel closed"@),
                ),
                Exchange::ResponseDropped => validation::reported(answer) == Some(
                    Fault::Protocol(self.slug@, "response channel dropped"@),
                ),
                Exchange::Answered(response) => answer == response,
            },
    {
        match exchange {
            Exchange::ChannelClosed => Err(
                PorterError::ServerUnhealthy(
                    self.slug.clone(),
                    "server channel closed".to_string(),
                ),
            ),
            Exchange::ResponseDropped => Err(
                PorterError::Protocol(self.slug.clone(), "response channel dropped".to_string()),
            ),
            Exchange::Answered(response) => response,
        }
    }
}

/// A managed MCP server: the configuration that it was spawned from, and what
/// was last heard of it.
#[derive(Debug)]
pub struct ServerHandle {
    config: ServerConfig,
    filter: ToolFilter,
    health: HealthState,
    tools: Vec<Tool>,
}

/// A managed server as contracts see it.
pub struct HandleModel {
    pub config: ServerConfig,
    pub health: HealthState,
    pub tools: Seq<ToolModel>,
}

impl HandleModel {
    /// The slug that the server is known by.
    pub open spec fn slug(self) -> Seq<char> {
        self.config.slug@
    }

    /// The allow/deny policy of the server.
    pub open spec fn policy(self) -> Policy {
        self.config@.policy
    }

    /// Why the tool `name`, under the namespace of the server or not, is blocked.
    pub open spec fn block_reason(self, name: Seq<char>) -> Option<Seq<char>> {
        self.policy().block_reason(namespace::downstream(self.slug(), name))
    }

    /// Whether `tool` is permitted.
    pub open spec fn exposes(self, tool: ToolModel) -> bool {
        self.policy().permits(namespace::downstream(self.slug(), tool.name))
    }

    /// The server after a report.
    pub open spec fn after(self, report: Report) -> HandleModel {
        match report {
            Report::Health(health) => HandleModel { health, ..self },
            Report::Tools(tools) => HandleModel { tools: tool_views(tools@), ..self },
        }
    }

    /// The tools that are permitted, in the order in which they are cached.
    pub open spec fn visible_tools(self) -> Seq<ToolModel> {
        self.tools.filter(|tool: ToolModel| self.exposes(tool))
    }
}

/// What a server loop reports of its server.
#[derive(Debug)]
pub enum Report {
    /// The health of the server changed.
    Health(HealthState),
    /// The server announced its tools, here under their namespaced names.
    Tools(Vec<Tool>),
}

/// A server that was just spawned.
pub open spec fn just_spawned(config: ServerConfig) -> HandleModel {
    HandleModel { config, health: HealthState::Starting, tools: Seq::empty() }
}

impl View for ServerHandle {
    type V = HandleModel;

    closed spec fn view(&self) -> HandleModel {
        HandleModel { config: self.config, health: self.health, tools: tool_views(self.tools@) }
    }
}

impl ServerHandle {
    /// The compiled filter is that of the configuration.
    #[verifier::type_invariant]
    spec fn filter_is_compiled(self) -> bool {
        self.filter@ == self.config@.policy
    }

    /// A handle for a server that is being spawned.
    pub fn new(config: ServerConfig) -> (handle: Self)
        ensures
            handle@ == just_spawned(config),
    {
        let filter = config.tool_filter();
        let handle = ServerHandle {
            config,
            filter,
            health: HealthState::Starting,
            tools: Vec::new(),
        };
        assert(tool_views(handle.tools@) =~= Seq::<ToolModel>::empty());
        handle
    }

    /// The configuration that the server was spawned from.
    pub fn config(&self) -> (config: &ServerConfig)
        ensures
            *config == self@.config,
    {
        &self.config
    }

    /// The current health state of the managed server.
    pub fn health(&self) -> (health: HealthState)
        ensures
            health == self@.health,
    {
        self.health
    }

    /// Takes note of the health that the server reports.
    pub fn set_health(&mut self, health: HealthState)
        ensures
            final(self)@ == (HandleModel { health, ..old(self)@ }),
    {
        proof {
            use_type_invariant(&*self);
        }
        self.health = health;
    }

    /// Takes note of the tools that the server announces, under their
    /// namespaced names.
    pub fn set_tools(&mut self, tools: Vec<Tool>)
        ensures
            final(self)@ == (HandleModel { tools: tool_views(tools@), ..old(self)@ }),
    {
        proof {
            use_type_invariant(&*self);
        }
        self.tools = tools;
    }

    /// Takes note of a report.
    pub fn apply(&mut self, report: Report)
        ensures
            final(self)@ == old(self)@.after(report),
    {
        match report {
            Report::Health(health) => self.set_health(health),
            Report::Tools(tools) => self.set_tools(tools),
        }
    }

    /// A snapshot of the currently cached tools (namespaced).
    ///
    /// Tools blocked by this server's allow/deny policy are omitted, so callers
    /// never see a tool they are not permitted to invoke.
    pub fn tools(&self) -> (visible: Vec<Tool>)
        ensures
            tool_views(visible@) == self@.visible_tools(),
    {
        proof {
            use_type_invariant(self);
        }
        let ghost cached = self@.tools;
        let ghost shown = |tool: ToolModel| self@.exposes(tool);
        let mut visible: Vec<Tool> = Vec::new();
        let mut i: usize = 0;
        proof {
            reveal(Seq::filter);
            assert(tool_views(visible@) =~= cached.take(0).filter(shown));
        }
        while i < self.tools.len()
            invariant
                i <= self.tools.len(),
                self.filter@ == self@.policy(),
                cached == tool_views(self.tools@),
                shown == |tool: ToolModel| self@.exposes(tool),
                tool_views(visible@) == cached.take(i as int).filter(shown),
            decreases self.tools.len() - i,
        {
            let ghost before = visible@;
            let tool = &self.tools[i];
            proof {
                reveal(Seq::filter);
                assert(cached.take(i + 1).drop_last() =~= cached.take(i as int));
                assert(cached.take(i + 1).last() == tool@);
            }
            if self.filter.permits(self.downstream_name(tool.name.as_str())) {
                visible.push(tool.clone());
                assert(tool_views(visible@) =~= tool_views(before).push(tool@));
            }
            i += 1;
        }
        assert(cached.take(i as int) =~= cached);
        visible
    }

    /// Why the given tool is blocked by this server's allow/deny policy ("deny
    /// list" / "not in allow list"), or `None` if permitted.
    ///
    /// Accepts either the namespaced name (`slug__tool`) or the downstream,
    /// un-namespaced name: the policy is always evaluated against the
    /// downstream name.
    pub fn tool_block_reason(&self, name: &str) -> (reason: Option<&'static str>)
        ensures
            filter::reason_text(reason) == self@.block_reason(name@),
    {
        proof {
            use_type_invariant(self);
        }
        self.filter.block_reason(self.downstream_name(name))
    }

    /// Strips the namespace prefix of this server if present, yielding the
    /// downstream tool name.
    pub fn downstream_name<'a>(&self, name: &'a str) -> (tool: &'a str)
        ensures
            tool@ == namespace::downstream(self@.slug(), name@),
    {
        downstream_tool_name(self.config.slug.as_str(), name)
    }

    /// Starts a call of a tool on the managed server.
    ///
    /// Returns the request that is to be put on the channel of the server, or
    /// an error if the server is unhealthy. What comes of the request settles
    /// the call: see [`Dispatch::settle`].
    pub fn call_tool<A>(&self, params: CallToolRequestParams<A>) -> (started: Result<
        Dispatch<A>,
        PorterError,
    >)
        ensures
            match started {
                Ok(dispatch) => self@.health != HealthState::Unhealthy && dispatch.slug@
                    == self@.slug() && dispatch.params == params,
                Err(e) => self@.health == HealthState::Unhealthy && e@ == Fault::ServerUnhealthy(
                    self@.slug(),
                    "server is unhealthy"@,
                ),
            },
    {
        if self.health == HealthState::Unhealthy {
            return Err(
                PorterError::ServerUnhealthy(
                    self.config.slug.clone(),
                    "server is unhealthy".to_string(),
                ),
            );
        }
        Ok(Dispatch { slug: self.config.slug.clone(), params })
    }
}

/// Every tool that a server shows is permitted, and every cached tool that is
/// permitted is shown: a tool is listed exactly when there is no reason to
/// block it.
pub proof fn listed_means_permitted(handle: HandleModel, tool: ToolModel)
    ensures
        handle.visible_tools().contains(tool) <==> handle.tools.contains(tool)
            && handle.block_reason(tool.name) is None,
{
    let shown = |tool: ToolModel| handle.exposes(tool);
    filter::permitted_means_no_reason(
        handle.policy(),
        namespace::downstream(handle.slug(), tool.name),
    );
    if handle.visible_tools().contains(tool) {
        handle.tools.lemma_filter_contains_rev(shown, tool);
        let i = choose|i: int|
            0 <= i < handle.visible_tools().len() && handle.visible_tools()[i] == tool;
        handle.tools.lemma_filter_pred(shown, i);
    }
    if handle.tools.contains(tool) && handle.exposes(tool) {
        let i = choose|i: int| 0 <= i < handle.tools.len() && handle.tools[i] == tool;
        handle.tools.lemma_filter_contains(shown, i);
    }
}

/// The policy sees the downstream name: a tool is blocked under its namespaced
/// name for the reason for which it is blocked under its own. The one tool name
/// that is read otherwise is one that itself starts with the namespace.
pub proof fn block_reason_ignores_namespace(handle: HandleModel, tool: Seq<char>)
    ensures
        handle.block_reason(namespace::namespaced(handle.slug(), tool))
            == handle.policy().block_reason(tool),
        !namespace::under(handle.slug(), tool) ==> handle.block_reason(tool)
            == handle.block_reason(namespace::namespaced(handle.slug(), tool)),
{
    namespace::downstream_round_trip(handle.slug(), tool);
}

} // verus!
