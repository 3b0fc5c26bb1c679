//! The registry of managed servers: which there are, what they offer, and where
//! a tool call goes.

use vstd::prelude::*;
use vstd::string::*;

use crate::config::{PorterConfig, ServerConfig};
use crate::error::{Fault, PorterError};
use crate::namespace::unnamespace_tool_name;
use crate::server::{
    CallToolRequestParams, Dispatch, HandleModel, HealthState, Report, ServerHandle, Tool,
    ToolModel,
};
use crate::table::Table;
use crate::{namespace, server, table, text, validation};

verus! {

/// The single public entry point for Porter's multi-server MCP gateway.
///
/// Knows all configured MCP servers that are enabled, aggregates their
/// namespaced tool surfaces, and routes tool calls to the correct backend
/// based on the slug embedded in the namespaced tool name.
#[derive(Debug)]
pub struct PorterRegistry {
    /// From server slug to the handle of the managed server.
    servers: Table<ServerHandle>,
    /// Whether all server tasks have been told to stop.
    shutting_down: bool,
}

/// The servers with their slugs in front.
pub open spec fn slug_rows(walk: Seq<HandleModel>) -> Seq<(Seq<char>, HandleModel)> {
    walk.map_values(|handle: HandleModel| (handle.slug(), handle))
}

/// Whether no two servers share a slug.
pub open spec fn slugs_distinct(walk: Seq<HandleModel>) -> bool {
    table::keys_distinct(slug_rows(walk))
}

/// The servers of `rows` that are spawned: those that are enabled.
pub open spec fn spawned(rows: Seq<(Seq<char>, ServerConfig)>) -> Seq<HandleModel> {
    rows.filter(|row: (Seq<char>, ServerConfig)| row.1.enabled).map_values(
        |row: (Seq<char>, ServerConfig)| server::just_spawned(row.1),
    )
}

/// The tools that a server contributes: none if it is unhealthy.
pub open spec fn contributed(handle: HandleModel) -> Seq<ToolModel> {
    if handle.health == HealthState::Unhealthy {
        Seq::empty()
    } else {
        handle.visible_tools()
    }
}

/// The tools of all servers, one server after the other.
pub open spec fn aggregated(walk: Seq<HandleModel>) -> Seq<ToolModel> {
    walk.map_values(|handle: HandleModel| contributed(handle)).flatten()
}

/// Where a call of `name` goes: the slug of the server and the name that the
/// server knows the tool by, or the fault that the caller is told.
pub open spec fn route(servers: Map<Seq<char>, HandleModel>, name: Seq<char>) -> Result<
    (Seq<char>, Seq<char>),
    Fault,
> {
    match namespace::unnamespaced(name) {
        None => Err(
            Fault::Protocol(
                "unknown"@,
                "tool name '"@ + name + "' has no namespace prefix"@,
            ),
        ),
        Some((slug, tool)) => if !servers.contains_key(slug) {
            Err(Fault::Protocol(slug, "no server with slug '"@ + slug + "'"@))
        } else if servers[slug].health == HealthState::Unhealthy {
            Err(Fault::ServerUnhealthy(slug, "server is unhealthy"@))
        } else {
            Ok((slug, tool))
        },
    }
}

impl View for PorterRegistry {
    type V = Map<Seq<char>, HandleModel>;

    open spec fn view(&self) -> Map<Seq<char>, HandleModel> {
        table::as_map(slug_rows(self.walk()))
    }
}

impl PorterRegistry {
    /// The servers in the order of a walk.
    pub closed spec fn walk(self) -> Seq<HandleModel> {
        self.servers.rows().map_values(|row: (Seq<char>, ServerHandle)| row.1@)
    }

    /// Whether all server tasks have been told to stop.
    pub closed spec fn told_to_stop(self) -> bool {
        self.shutting_down
    }

    /// Each server stands under its own slug.
    #[verifier::type_invariant]
    spec fn keyed_by_slug(self) -> bool {
        forall|i: int|
            0 <= i < self.servers.rows().len() ==> (#[trigger] self.servers.rows()[i]).0
                == self.servers.rows()[i].1@.slug()
    }

    /// The table and the view say the same of every slug.
    proof fn table_is_view(&self)
        requires
            self.keyed_by_slug(),
            self.servers.well_formed(),
        ensures
            slugs_distinct(self.walk()),
            forall|slug: Seq<char>|
                self@.contains_key(slug) <==> #[trigger] self.servers@.contains_key(slug),
            forall|slug: Seq<char>| #[trigger]
                self.servers@.contains_key(slug) ==> self@[slug] == self.servers@[slug]@,
    {
        let rows = self.servers.rows();
        let models = slug_rows(self.walk());
        assert forall|i: int| 0 <= i < rows.len() implies #[trigger] models[i] == (
            rows[i].0,
            rows[i].1@,
        ) by {
            assert(self.walk()[i] == rows[i].1@);
        }
        assert(table::keys_distinct(models)) by {
            assert forall|i: int, j: int|
                0 <= i < models.len() && 0 <= j < models.len() && i
                    != j implies #[trigger] models[i].0 != #[trigger] models[j].0 by {
                assert(rows[i].0 != rows[j].0);
            }
        }
        assert forall|slug: Seq<char>| #[trigger] self.servers@.contains_key(
            slug,
        ) implies self@.contains_key(slug) && self@[slug] == self.servers@[slug]@ by {
            let i = choose|i: int| table::row_has_key(rows, i, slug);
            assert(table::row_has_key(rows, i, slug));
            table::row_is_mapped(rows, i);
            assert(models[i].0 == slug);
            table::row_is_mapped(models, i);
        }
        assert forall|slug: Seq<char>| self@.contains_key(
            slug,
        ) implies #[trigger] self.servers@.contains_key(slug) by {
            let i = choose|i: int| table::row_has_key(models, i, slug);
            assert(table::row_has_key(models, i, slug));
            assert(models[i] == (rows[i].0, rows[i].1@));
            table::row_is_mapped(rows, i);
        }
    }

    /// A registry without servers.
    pub fn new() -> (registry: Self)
        ensures
            registry.walk() == Seq::<HandleModel>::empty(),
            registry@ == Map::<Seq<char>, HandleModel>::empty(),
            !registry.told_to_stop(),
    {
        let registry = PorterRegistry { servers: Table::new(), shutting_down: false };
        assert(registry.walk() =~= Seq::<HandleModel>::empty());
        assert(registry@ =~= Map::<Seq<char>, HandleModel>::empty());
        registry
    }

    /// Adds a server under its slug and hands back the one that it replaces. A
    /// new server comes last in a walk; one that replaces another takes its
    /// place.
    pub fn add(&mut self, handle: ServerHandle) -> (replaced: Option<ServerHandle>)
        ensures
            slugs_distinct(final(self).walk()),
            final(self)@ == old(self)@.insert(handle@.slug(), handle@),
            final(self).told_to_stop() == old(self).told_to_stop(),
            match replaced {
                Some(previous) => old(self)@.contains_key(handle@.slug()) && previous@
                    == old(self)@[handle@.slug()],
                None => !old(self)@.contains_key(handle@.slug()),
            },
            !old(self)@.contains_key(handle@.slug()) ==> final(self).walk()
                == old(self).walk().push(handle@),
            forall|i: int|
                0 <= i < old(self).walk().len() && (#[trigger] old(self).walk()[i]).slug()
                    == handle@.slug() ==> final(self).walk() == old(self).walk().update(i, handle@),
    {
        let ghost before = *self;
        let ghost model = handle@;
        proof {
            use_type_invariant(&*self);
            use_type_invariant(&self.servers);
            self.table_is_view();
        }
        let slug = handle.config().slug.clone();
        let mut servers: Table<ServerHandle> = Table::new();
        std::mem::swap(&mut servers, &mut self.servers);
        let replaced = servers.insert(slug, handle);
        proof {
            let rows = before.servers.rows();
            assert forall|i: int| 0 <= i < servers.rows().len() implies (#[trigger] servers.rows()[
                i
            ]).0 == servers.rows()[i].1@.slug() by {
                if before.servers@.contains_key(slug@) {
                    let k = choose|k: int| table::row_has_key(rows, k, slug@);
                    assert(table::row_has_key(rows, k, slug@));
                    assert(i != k ==> servers.rows()[i] == rows[i]);
                } else {
                    assert(i < rows.len() ==> servers.rows()[i] == rows[i]);
                }
            }
        }
        self.servers = servers;
        proof {
            self.table_is_view();
            let rows = before.servers.rows();
            if before.servers@.contains_key(slug@) {
                let k = choose|k: int| table::row_has_key(rows, k, slug@);
                assert(table::row_has_key(rows, k, slug@));
                assert(self.walk() =~= before.walk().update(k, model));
                assert forall|i: int|
                    0 <= i < before.walk().len() && (#[trigger] before.walk()[i]).slug()
                        == model.slug() implies self.walk() == before.walk().update(i, model) by {
                    assert(before.walk()[i] == rows[i].1@);
                    assert(rows[i].0 == rows[k].0);
                }
            } else {
                assert(self.walk() =~= before.walk().push(model));
                assert forall|i: int|
                    0 <= i < before.walk().len() && (#[trigger] before.walk()[i]).slug()
                        == model.slug() implies self.walk() == before.walk().update(i, model) by {
                    assert(before.walk()[i] == rows[i].1@);
                    table::row_is_mapped(rows, i);
                }
            }
            assert forall|s: Seq<char>| self@.contains_key(s) <==> before@.insert(
                model.slug(),
                model,
            ).contains_key(s) by {
                assert(self.servers@.contains_key(s) <==> before.servers@.contains_key(s) || s
                    == slug@);
            }
            assert forall|s: Seq<char>| #[trigger] self@.contains_key(s) implies self@[s]
                == before@.insert(model.slug(), model)[s] by {
                assert(self.servers@.contains_key(s));
                if s != slug@ {
                    assert(before.servers@.contains_key(s));
                }
            }
            assert(self@ =~= before@.insert(model.slug(), model));
        }
        replaced
    }

    /// Builds a registry from config, with a handle for every enabled server.
    ///
    /// Validates the config first and returns its error if it is invalid, so
    /// that nothing is spawned. Disabled servers are silently skipped. Each
    /// handle carries the configuration, with its transport, that its server
    /// is to be spawned from.
    pub fn from_config(config: PorterConfig) -> (built: Result<PorterRegistry, PorterError>)
        ensures
            validation::reported(built) == validation::first_fault(
                validation::config_faults(config.servers.rows()),
            ),
            built is Ok <==> validation::valid_servers(config.server_models()),
            built matches Ok(registry) ==> {
                &&& registry.walk() == spawned(config.servers.rows())
                &&& slugs_distinct(registry.walk())
                &&& !registry.told_to_stop()
            },
    {
        if let Err(e) = config.validate() {
            return Err(e);
        }
        let ghost rows = config.servers.rows();
        proof {
            validation::faultless_config_has_distinct_slugs(rows);
        }
        let mut registry = PorterRegistry::new();
        let mut pending = config.servers.into_rows();
        let ghost all = pending@;
        let ghost mut done: int = 0;
        proof {
            reveal(Seq::filter);
            assert(spawned(rows.take(0)) =~= Seq::empty());
            assert(all.skip(0) =~= all);
        }
        while pending.len() > 0
            invariant
                rows == all.map_values(|entry: (String, ServerConfig)| (entry.0@, entry.1)),
                0 <= done <= all.len(),
                pending@ == all.skip(done),
                registry.walk() == spawned(rows.take(done)),
                slugs_distinct(registry.walk()),
                !registry.told_to_stop(),
                forall|i: int, j: int|
                    0 <= i < j < rows.len() ==> (#[trigger] rows[i]).1.slug@ != (
                    #[trigger] rows[j]).1.slug@,
            decreases pending.len(),
        {
            let (_, server_config) = pending.remove(0);
            proof {
                assert(pending@ =~= all.skip(done + 1));
                assert(server_config == all[done].1);
                assert(rows[done].1 == server_config);
                reveal(Seq::filter);
                assert(rows.take(done + 1).drop_last() =~= rows.take(done));
                assert(rows.take(done + 1).last() == rows[done]);
            }
            if server_config.enabled {
                let handle = ServerHandle::new(server_config);
                proof {
                    if registry@.contains_key(handle@.slug()) {
                        let models = slug_rows(registry.walk());
                        let k = choose|k: int| table::row_has_key(models, k, handle@.slug());
                        assert(table::row_has_key(models, k, handle@.slug()));
                        assert(models[k].0 == registry.walk()[k].slug());
                        spawned_from_row(rows.take(done), k);
                        let j = choose|j: int|
                            0 <= j < done && #[trigger] rows.take(done)[j].1
                                == registry.walk()[k].config;
                        assert(rows[j].1.slug@ == rows[done].1.slug@);
                    }
                    assert(spawned(rows.take(done + 1)) =~= spawned(rows.take(done)).push(
                        handle@,
                    ));
                }
                registry.add(handle);
            } else {
                assert(spawned(rows.take(done + 1)) =~= spawned(rows.take(done)));
            }
            proof {
                done = done + 1;
            }
        }
        assert(rows.take(done) =~= rows);
        Ok(registry)
    }

    /// All tools from all non-Unhealthy servers, aggregated into one list.
    ///
    /// Tools from Starting, Healthy, and Degraded MCP servers are all included:
    /// they may be stale but are still available.
    pub fn tools(&self) -> (all: Vec<Tool>)
        ensures
            server::tool_views(all@) == aggregated(self.walk()),
    {
        let ghost walk = self.walk();
        let ghost parts = walk.map_values(|handle: HandleModel| contributed(handle));
        let count: usize = self.servers.len();
        let mut all: Vec<Tool> = Vec::new();
        let mut i: usize = 0;
        proof {
            assert(parts.take(0) =~= Seq::empty());
            parts.take(0).lemma_flatten_and_flatten_alt_are_equivalent();
            assert(server::tool_views(all@) =~= parts.take(0).flatten());
        }
        while i < count
            invariant
                count == self.servers.rows().len(),
                walk == self.walk(),
                parts == walk.map_values(|handle: HandleModel| contributed(handle)),
                i <= count,
                server::tool_views(all@) == parts.take(i as int).flatten(),
            decreases count - i,
        {
            let handle = self.servers.value_at(i);
            let ghost before = all@;
            proof {
                assert(walk[i as int] == handle@);
                assert(parts.take(i + 1).drop_last() =~= parts.take(i as int));
                assert(parts.take(i + 1).last() == contributed(handle@));
                parts.take(i + 1).lemma_flatten_and_flatten_alt_are_equivalent();
                parts.take(i as int).lemma_flatten_and_flatten_alt_are_equivalent();
                assert(parts.take(i + 1).flatten() == parts.take(i as int).flatten()
                    + contributed(handle@));
            }
            if handle.health() != HealthState::Unhealthy {
                let mut more = handle.tools();
                let ghost added = more@;
                all.append(&mut more);
                assert(server::tool_views(all@) =~= server::tool_views(before)
                    + server::tool_views(added));
            }
            i += 1;
        }
        assert(parts.take(i as int) =~= parts);
        all
    }

    /// The server with the given slug.
    pub fn server(&self, slug: &str) -> (handle: Option<&ServerHandle>)
        ensures
            match handle {
                Some(h) => self@.contains_key(slug@) && h@ == self@[slug@] && h@.slug() == slug@,
                None => !self@.contains_key(slug@),
            },
    {
        proof {
            use_type_invariant(self);
            use_type_invariant(&self.servers);
            self.table_is_view();
        }
        match self.servers.find(slug) {
            Some(i) => Some(self.servers.value_at(i)),
            None => None,
        }
    }

    /// Calls a tool by its namespaced name, routing to the correct backend.
    ///
    /// The namespaced name must have the form `slug__tool_name`. The slug is
    /// used to look up the correct server. The request is forwarded with the
    /// ORIGINAL (un-namespaced) tool name per the backend's expectation. What
    /// comes of it settles the call: see [`Dispatch::settle`].
    pub fn call_tool<A>(&self, namespaced_name: &str, arguments: Option<A>) -> (started: Result<
        Dispatch<A>,
        PorterError,
    >)
        ensures
            match route(self@, namespaced_name@) {
                Ok((slug, tool)) => started matches Ok(dispatch) && dispatch.slug@ == slug
                    && dispatch.params.name@ == tool && dispatch.params.arguments == arguments
                    && dispatch.params.task is None && dispatch.params.meta is None,
                Err(fault) => started matches Err(e) && e@ == fault,
            },
    {
        let (slug, original_name) = match unnamespace_tool_name(namespaced_name) {
            Some(parts) => parts,
            None => {
                let mut why = "tool name '".to_string();
                why.append(namespaced_name);
                why.append("' has no namespace prefix");
                return Err(PorterError::Protocol("unknown".to_string(), why));
            },
        };
        let handle = match self.server(slug) {
            Some(handle) => handle,
            None => {
                let mut why = "no server with slug '".to_string();
                why.append(slug);
                why.append("'");
                return Err(PorterError::Protocol(slug.to_string(), why));
            },
        };
        let params = CallToolRequestParams {
            name: original_name.to_string(),
            arguments,
            task: None,
            meta: None,
        };
        handle.call_tool(params)
    }

    /// The health state for a specific server slug, or `None` if not found.
    pub fn server_health(&self, slug: &str) -> (health: Option<HealthState>)
        ensures
            health == (if self@.contains_key(slug@) {
                Some(self@[slug@].health)
            } else {
                None
            }),
    {
        match self.server(slug) {
            Some(handle) => Some(handle.health()),
            None => None,
        }
    }

    /// All server slugs with their current health states.
    pub fn all_server_health(&self) -> (healths: Table<HealthState>)
        ensures
            healths.well_formed(),
            healths.rows() == self.walk().map_values(
                |handle: HandleModel| (handle.slug(), handle.health),
            ),
            healths@ == self@.map_values(|handle: HandleModel| handle.health),
    {
        let ghost walk = self.walk();
        let ghost listed = walk.map_values(|handle: HandleModel| (handle.slug(), handle.health));
        proof {
            use_type_invariant(self);
            use_type_invariant(&self.servers);
            self.table_is_view();
        }
        let count: usize = self.servers.len();
        let mut healths: Table<HealthState> = Table::new();
        let mut i: usize = 0;
        assert(listed.take(0) =~= Seq::empty());
        while i < count
            invariant
                count == self.servers.rows().len(),
                walk == self.walk(),
                slugs_distinct(walk),
                listed == walk.map_values(
                    |handle: HandleModel| (handle.slug(), handle.health),
                ),
                i <= count,
                healths.well_formed(),
                healths.rows() == listed.take(i as int),
            decreases count - i,
        {
            let handle = self.servers.value_at(i);
            proof {
                assert(walk[i as int] == handle@);
                if healths@.contains_key(handle@.slug()) {
                    let j = choose|j: int|
                        table::row_has_key(healths.rows(), j, handle@.slug());
                    assert(table::row_has_key(healths.rows(), j, handle@.slug()));
                    let models = slug_rows(walk);
                    assert(models[j].0 == listed[j].0);
                    assert(models[j].0 != models[i as int].0);
                }
                assert(listed.take(i + 1) =~= listed.take(i as int).push(
                    (handle@.slug(), handle@.health),
                ));
            }
            healths.insert(handle.config().slug.clone(), handle.health());
            i += 1;
        }
        proof {
            assert(listed.take(i as int) =~= listed);
            let models = slug_rows(walk);
            let expected = self@.map_values(|handle: HandleModel| handle.health);
            assert forall|slug: Seq<char>| #[trigger] healths@.dom().contains(
                slug,
            ) implies expected.dom().contains(slug) && healths@[slug] == expected[slug] by {
                let j = choose|j: int| table::row_has_key(listed, j, slug);
                assert(table::row_has_key(listed, j, slug));
                table::row_is_mapped(listed, j);
                assert(models[j].0 == slug);
                table::row_is_mapped(models, j);
            }
            assert forall|slug: Seq<char>| #[trigger] expected.dom().contains(
                slug,
            ) implies healths@.dom().contains(slug) by {
                let j = choose|j: int| table::row_has_key(models, j, slug);
                assert(table::row_has_key(models, j, slug));
                assert(listed[j].0 == slug);
                table::row_is_mapped(listed, j);
            }
            assert(healths@ =~= expected);
        }
        healths
    }

    /// A sorted list of all managed server slugs.
    pub fn server_slugs(&self) -> (slugs: Vec<String>)
        ensures
            text::in_order(text::views(slugs@)),
            text::views(slugs@).to_set() == self@.dom(),
            slugs@.len() == self.walk().len(),
    {
        let ghost walk = self.walk();
        let ghost models = slug_rows(walk);
        proof {
            use_type_invariant(self);
            use_type_invariant(&self.servers);
            self.table_is_view();
        }
        let count: usize = self.servers.len();
        let mut slugs: Vec<String> = Vec::new();
        let mut i: usize = 0;
        while i < count
            invariant
                count == self.servers.rows().len(),
                walk == self.walk(),
                models == slug_rows(walk),
                slugs_distinct(walk),
                i <= count,
                slugs@.len() == i,
                text::in_order(text::views(slugs@)),
                forall|slug: Seq<char>|
                    text::views(slugs@).to_set().contains(slug) <==> exists|j: int|
                        0 <= j < i && #[trigger] table::row_has_key(models, j, slug),
            decreases count - i,
        {
            let slug = self.servers.value_at(i).config().slug.clone();
            proof {
                assert(models[i as int].0 == walk[i as int].slug());
                assert(slug@ == models[i as int].0);
                assert(table::row_has_key(models, i as int, slug@));
                if text::views(slugs@).contains(slug@) {
                    assert(text::views(slugs@).to_set().contains(slug@));
                    let j = choose|j: int|
                        0 <= j < i && #[trigger] table::row_has_key(models, j, slug@);
                    assert(models[j].0 != models[i as int].0);
                }
            }
            text::insert_in_order(&mut slugs, slug);
            i += 1;
        }
        assert(text::views(slugs@).to_set() =~= self@.dom()) by {
            assert forall|slug: Seq<char>| text::views(slugs@).to_set().contains(
                slug,
            ) <==> #[trigger] self@.dom().contains(slug) by {
                if self@.dom().contains(slug) {
                    let j = choose|j: int| table::row_has_key(models, j, slug);
                    assert(table::row_has_key(models, j, slug));
                }
            }
        }
        slugs
    }

    /// The total number of managed server handles (enabled at startup).
    pub fn server_count(&self) -> (count: usize)
        ensures
            count == self.walk().len(),
            count == self@.len(),
    {
        proof {
            use_type_invariant(self);
            use_type_invariant(&self.servers);
            self.table_is_view();
            table::map_len_is_row_count(slug_rows(self.walk()));
        }
        self.servers.len()
    }

    /// The server at place `i` of a walk.
    pub fn server_at(&self, i: usize) -> (handle: &ServerHandle)
        requires
            i < self.walk().len(),
        ensures
            handle@ == self.walk()[i as int],
    {
        self.servers.value_at(i)
    }

    /// Takes note of a report on the server `slug`. Returns whether there is
    /// such a server.
    pub fn record(&mut self, slug: &str, report: Report) -> (known: bool)
        ensures
            known == old(self)@.contains_key(slug@),
            slugs_distinct(final(self).walk()),
            final(self).told_to_stop() == old(self).told_to_stop(),
            final(self)@ == (if known {
                old(self)@.insert(slug@, old(self)@[slug@].after(report))
            } else {
                old(self)@
            }),
            !known ==> final(self).walk() == old(self).walk(),
            final(self).walk().len() == old(self).walk().len(),
            forall|i: int|
                0 <= i < old(self).walk().len() ==> #[trigger] final(self).walk()[i] == (if old(
                    self,
                ).walk()[i].slug() == slug@ {
                    old(self).walk()[i].after(report)
                } else {
                    old(self).walk()[i]
                }),
    {
        let ghost before = *self;
        let ghost rows = self.servers.rows();
        proof {
            use_type_invariant(&*self);
            use_type_invariant(&self.servers);
            self.table_is_view();
        }
        let i = match self.servers.find(slug) {
            Some(i) => i,
            None => {
                proof {
                    assert forall|j: int| 0 <= j < rows.len() implies self.walk()[j].slug()
                        != slug@ by {
                        assert(self.walk()[j] == rows[j].1@);
                        table::row_is_mapped(rows, j);
                    }
                }
                return false;
            },
        };
        let mut servers: Table<ServerHandle> = Table::new();
        std::mem::swap(&mut servers, &mut self.servers);
        let (key, mut handle) = servers.remove_at(i);
        proof {
            if servers@.contains_key(key@) {
                let j = choose|j: int| table::row_has_key(servers.rows(), j, key@);
                assert(table::row_has_key(servers.rows(), j, key@));
                let old_j = if j < i {
                    j
                } else {
                    j + 1
                };
                assert(servers.rows()[j] == rows[old_j]);
                assert(rows[old_j].0 != rows[i as int].0);
            }
        }
        handle.apply(report);
        let ghost model = handle@;
        servers.insert_at(i, key, handle);
        proof {
            assert forall|j: int| 0 <= j < rows.len() implies (#[trigger] servers.rows()[j]).0
                == rows[j].0 && servers.rows()[j].1@ == (if j == i {
                model
            } else {
                rows[j].1@
            }) by {
            }
        }
        self.servers = servers;
        proof {
            self.table_is_view();
            table::row_is_mapped(rows, i as int);
            assert(model == before@[slug@].after(report));
            let models = slug_rows(self.walk());
            let old_models = slug_rows(before.walk());
            assert forall|j: int| 0 <= j < rows.len() implies #[trigger] models[j] == (if j == i {
                (slug@, model)
            } else {
                old_models[j]
            }) by {
                assert(self.walk()[j] == servers.rows()[j].1@);
                assert(before.walk()[j] == rows[j].1@);
            }
            assert(models =~= old_models.update(i as int, (slug@, model)));
            assert(before.walk()[i as int] == rows[i as int].1@);
            assert(table::row_has_key(old_models, i as int, slug@));
            table::insert_maps(old_models, models, slug@, model);
            assert forall|j: int| 0 <= j < before.walk().len() implies #[trigger] self.walk()[j]
                == (if before.walk()[j].slug() == slug@ {
                before.walk()[j].after(report)
            } else {
                before.walk()[j]
            }) by {
                assert(self.walk()[j] == servers.rows()[j].1@);
                assert(before.walk()[j] == rows[j].1@);
                assert(rows[i as int].0 == slug@);
                if j != i {
                    assert(rows[j].0 != rows[i as int].0);
                }
            }
        }
        true
    }

    /// Tells all server tasks to stop, initiating a clean shutdown.
    ///
    /// The servers stay registered; their tasks exit on their own.
    pub fn shutdown(&mut self)
        ensures
            final(self).told_to_stop(),
            final(self).walk() == old(self).walk(),
            final(self)@ == old(self)@,
    {
        proof {
            use_type_invariant(&*self);
        }
        self.shutting_down = true;
    }

    /// Whether all server tasks have been told to stop.
    pub fn is_shutting_down(&self) -> (told: bool)
        ensures
            told == self.told_to_stop(),
    {
        self.shutting_down
    }
}

/// A spawned server has the configuration of a row.
proof fn spawned_from_row(rows: Seq<(Seq<char>, ServerConfig)>, k: int)
    requires
        0 <= k < spawned(rows).len(),
    ensures
        exists|j: int| 0 <= j < rows.len() && #[trigger] rows[j].1 == spawned(rows)[k].config,
{
    let enabled = |row: (Seq<char>, ServerConfig)| row.1.enabled;
    let kept = rows.filter(enabled);
    assert(spawned(rows)[k] == server::just_spawned(kept[k].1));
    assert(kept.contains(kept[k]));
    rows.lemma_filter_contains_rev(enabled, kept[k]);
    let j = choose|j: int| 0 <= j < rows.len() && rows[j] == kept[k];
    assert(rows[j].1 == spawned(rows)[k].config);
}

/// The servers that are spawned are just the enabled ones, each from its own
/// configuration.
pub proof fn just_enabled_servers_are_spawned(
    rows: Seq<(Seq<char>, ServerConfig)>,
    server: ServerConfig,
)
    ensures
        spawned(rows).contains(server::just_spawned(server)) <==> server.enabled && exists|i: int|
            0 <= i < rows.len() && #[trigger] rows[i].1 == server,
{
    let enabled = |row: (Seq<char>, ServerConfig)| row.1.enabled;
    let kept = rows.filter(enabled);
    if spawned(rows).contains(server::just_spawned(server)) {
        let k = choose|k: int|
            0 <= k < spawned(rows).len() && spawned(rows)[k] == server::just_spawned(server);
        spawned_from_row(rows, k);
        assert(spawned(rows)[k] == server::just_spawned(kept[k].1));
        rows.lemma_filter_pred(enabled, k);
    }
    if server.enabled && exists|i: int| 0 <= i < rows.len() && #[trigger] rows[i].1 == server {
        let i = choose|i: int| 0 <= i < rows.len() && #[trigger] rows[i].1 == server;
        rows.lemma_filter_contains(enabled, i);
        let k = choose|k: int| 0 <= k < kept.len() && kept[k] == rows[i];
        assert(spawned(rows)[k] == server::just_spawned(server));
    }
}

/// A namespaced call reaches the server that its slug names, under the name
/// that this server knows the tool by.
pub proof fn namespaced_call_reaches_its_server(
    servers: Map<Seq<char>, HandleModel>,
    slug: Seq<char>,
    tool: Seq<char>,
)
    requires
        servers.contains_key(slug),
        servers[slug].health != HealthState::Unhealthy,
        namespace::separable(slug),
    ensures
        route(servers, namespace::namespaced(slug, tool)) == Ok::<_, Fault>((slug, tool)),
{
    namespace::namespace_round_trip(slug, tool);
}

/// Every enabled server of a valid configuration can be reached: the registry
/// built from it holds the server under its slug, and sends there every call
/// under that slug.
pub proof fn configured_servers_are_reachable(
    rows: Seq<(Seq<char>, ServerConfig)>,
    i: int,
    tool: Seq<char>,
)
    requires
        validation::first_fault(validation::config_faults(rows)) is None,
        0 <= i < rows.len(),
        rows[i].1.enabled,
    ensures
        table::as_map(slug_rows(spawned(rows))).contains_key(rows[i].1.slug@),
        table::as_map(slug_rows(spawned(rows)))[rows[i].1.slug@] == server::just_spawned(rows[i].1),
        route(
            table::as_map(slug_rows(spawned(rows))),
            namespace::namespaced(rows[i].1.slug@, tool),
        ) == Ok::<_, Fault>((rows[i].1.slug@, tool)),
{
    let slug = rows[i].1.slug@;
    let walk = spawned(rows);
    let models = slug_rows(walk);
    validation::faultless_config_has_distinct_slugs(rows);
    spawned_slugs_are_distinct(rows);
    just_enabled_servers_are_spawned(rows, rows[i].1);
    let k = choose|k: int| 0 <= k < walk.len() && walk[k] == server::just_spawned(rows[i].1);
    assert(models[k] == (slug, walk[k]));
    table::row_is_mapped(models, k);
    validation::valid_slug_is_separable(slug);
    namespaced_call_reaches_its_server(table::as_map(models), slug, tool);
}

/// Where no two configured servers share a slug, no two spawned ones do.
pub proof fn spawned_slugs_are_distinct(rows: Seq<(Seq<char>, ServerConfig)>)
    requires
        forall|i: int, j: int|
            0 <= i < j < rows.len() ==> (#[trigger] rows[i]).1.slug@ != (
            #[trigger] rows[j]).1.slug@,
    ensures
        slugs_distinct(spawned(rows)),
    decreases rows.len(),
{
    reveal(Seq::filter);
    let models = slug_rows(spawned(rows));
    if rows.len() > 0 {
        let rest = rows.drop_last();
        let rest_models = slug_rows(spawned(rest));
        assert forall|i: int, j: int| 0 <= i < j < rest.len() implies (#[trigger] rest[i]).1.slug@
            != (#[trigger] rest[j]).1.slug@ by {
            assert(rest[i] == rows[i] && rest[j] == rows[j]);
        }
        spawned_slugs_are_distinct(rest);
        if rows.last().1.enabled {
            assert(spawned(rows) =~= spawned(rest).push(server::just_spawned(rows.last().1)));
            assert(models =~= rest_models.push(
                (rows.last().1.slug@, server::just_spawned(rows.last().1)),
            ));
            assert forall|k: int| 0 <= k < rest_models.len() implies (#[trigger] rest_models[k]).0
                != rows.last().1.slug@ by {
                spawned_from_row(rest, k);
                let j = choose|j: int|
                    0 <= j < rest.len() && #[trigger] rest[j].1 == spawned(rest)[k].config;
                assert(rows[j].1.slug@ != rows[rows.len() - 1].1.slug@);
            }
        } else {
            assert(spawned(rows) =~= spawned(rest));
        }
    }
}

/// The aggregated list holds just what the servers contribute.
pub proof fn aggregated_is_what_servers_contribute(walk: Seq<HandleModel>, tool: ToolModel)
    ensures
        aggregated(walk).contains(tool) <==> exists|i: int|
            0 <= i < walk.len() && #[trigger] contributed(walk[i]).contains(tool),
    decreases walk.len(),
{
    let parts = walk.map_values(|handle: HandleModel| contributed(handle));
    if walk.len() > 0 {
        let first = contributed(walk[0]);
        let rest = walk.drop_first();
        let more = aggregated(rest);
        aggregated_is_what_servers_contribute(rest, tool);
        assert(parts.drop_first() =~= rest.map_values(
            |handle: HandleModel| contributed(handle),
        ));
        assert(aggregated(walk) == first + more);
        if aggregated(walk).contains(tool) {
            let k = choose|k: int| 0 <= k < aggregated(walk).len() && aggregated(walk)[k] == tool;
            if k < first.len() {
                assert(first[k] == tool);
                assert(contributed(walk[0]).contains(tool));
            } else {
                assert(more[k - first.len()] == tool);
                let i = choose|i: int|
                    0 <= i < rest.len() && #[trigger] contributed(rest[i]).contains(tool);
                assert(contributed(walk[i + 1]).contains(tool));
            }
        }
        if exists|i: int| 0 <= i < walk.len() && #[trigger] contributed(walk[i]).contains(tool) {
            let i = choose|i: int|
                0 <= i < walk.len() && #[trigger] contributed(walk[i]).contains(tool);
            if i == 0 {
                let k = choose|k: int| 0 <= k < first.len() && first[k] == tool;
                assert(aggregated(walk)[k] == tool);
            } else {
                assert(rest[i - 1] == walk[i]);
                assert(contributed(rest[i - 1]).contains(tool));
                let k = choose|k: int| 0 <= k < more.len() && more[k] == tool;
                assert(aggregated(walk)[first.len() + k] == tool);
            }
        }
    }
}

/// Callers never see a tool that they cannot call: a tool that a server
/// contributes under its namespace is permitted, and a call of it is routed to
/// that server.
pub proof fn contributed_tools_are_callable(
    walk: Seq<HandleModel>,
    i: int,
    tool: ToolModel,
    own_name: Seq<char>,
)
    requires
        slugs_distinct(walk),
        0 <= i < walk.len(),
        contributed(walk[i]).contains(tool),
        namespace::separable(walk[i].slug()),
        tool.name == namespace::namespaced(walk[i].slug(), own_name),
    ensures
        aggregated(walk).contains(tool),
        walk[i].block_reason(tool.name) is None,
        walk[i].policy().permits(own_name),
        route(table::as_map(slug_rows(walk)), tool.name) == Ok::<_, Fault>(
            (walk[i].slug(), own_name),
        ),
{
    let models = slug_rows(walk);
    aggregated_is_what_servers_contribute(walk, tool);
    server::listed_means_permitted(walk[i], tool);
    namespace::downstream_round_trip(walk[i].slug(), own_name);
    assert(models[i] == (walk[i].slug(), walk[i]));
    table::row_is_mapped(models, i);
    namespaced_call_reaches_its_server(table::as_map(models), walk[i].slug(), own_name);
}

/// A call is refused exactly when its name has no namespace, when no server has
/// the slug, or when the server that has it is unhealthy.
pub proof fn refused_calls(servers: Map<Seq<char>, HandleModel>, name: Seq<char>)
    ensures
        route(servers, name) is Err <==> {
            ||| !text::occurs_in(namespace::separator(), name)
            ||| namespace::unnamespaced(name) matches Some((slug, _)) && (!servers.contains_key(
                slug,
            ) || servers[slug].health == HealthState::Unhealthy)
        },
{
}

/// What was last recorded of a server decides: calls under its slug are refused
/// exactly while its health is Unhealthy.
pub proof fn recorded_health_decides(
    servers: Map<Seq<char>, HandleModel>,
    slug: Seq<char>,
    heard: HandleModel,
    tool: Seq<char>,
)
    requires
        namespace::separable(slug),
    ensures
        route(servers.insert(slug, heard), namespace::namespaced(slug, tool)) == (if heard.health
            == HealthState::Unhealthy {
            Err(Fault::ServerUnhealthy(slug, "server is unhealthy"@))
        } else {
            Ok((slug, tool))
        }),
{
    namespace::namespace_round_trip(slug, tool);
}

/// What was recorded of one server does not touch the calls of another.
pub proof fn recording_leaves_other_servers_alone(
    servers: Map<Seq<char>, HandleModel>,
    slug: Seq<char>,
    heard: HandleModel,
    name: Seq<char>,
)
    requires
        namespace::unnamespaced(name) matches Some((other, _)) ==> other != slug,
    ensures
        route(servers.insert(slug, heard), name) == route(servers, name),
{
}

proof fn aggregated_of_both(left: Seq<HandleModel>, right: Seq<HandleModel>)
    ensures
        aggregated(left + right) == aggregated(left) + aggregated(right),
    decreases left.len(),
{
    let of_handle = |handle: HandleModel| contributed(handle);
    let both = left + right;
    if left.len() == 0 {
        assert(both =~= right);
        assert(aggregated(left) =~= Seq::empty());
        assert(aggregated(left) + aggregated(right) =~= aggregated(right));
    } else {
        let rest = left.drop_first();
        aggregated_of_both(rest, right);
        assert(both.map_values(of_handle).drop_first() =~= (rest + right).map_values(of_handle));
        assert(left.map_values(of_handle).drop_first() =~= rest.map_values(of_handle));
        assert(aggregated(both) == contributed(left[0]) + aggregated(rest + right));
        assert(aggregated(left) == contributed(left[0]) + aggregated(rest));
        assert(aggregated(both) =~= aggregated(left) + aggregated(right));
    }
}

proof fn aggregated_of_one(handle: HandleModel)
    ensures
        aggregated(seq![handle]) == contributed(handle),
{
    let parts = seq![handle].map_values(|handle: HandleModel| contributed(handle));
    assert(parts.drop_first() =~= Seq::empty());
    reveal_with_fuel(Seq::flatten, 2);
    assert(aggregated(seq![handle]) =~= contributed(handle));
}

proof fn aggregated_of_same_servers(walk: Seq<HandleModel>, other: Seq<HandleModel>)
    requires
        walk.no_duplicates(),
        other.no_duplicates(),
        forall|handle: HandleModel| walk.contains(handle) <==> other.contains(handle),
    ensures
        aggregated(walk).to_multiset() == aggregated(other).to_multiset(),
    decreases walk.len(),
{
    if walk.len() == 0 {
        if other.len() > 0 {
            assert(other.contains(other[0]));
            assert(walk.contains(other[0]));
        }
        assert(walk =~= other);
    } else {
        let handle = walk.last();
        let rest = walk.drop_last();
        assert(walk.contains(handle));
        assert(other.contains(handle));
        let k = choose|k: int| 0 <= k < other.len() && other[k] == handle;
        let front = other.take(k);
        let back = other.skip(k + 1);
        let others = front + back;
        assert forall|a: int, b: int|
            0 <= a < others.len() && 0 <= b < others.len() && a != b implies others[a]
            != others[b] by {
            let old_a = if a < k {
                a
            } else {
                a + 1
            };
            let old_b = if b < k {
                b
            } else {
                b + 1
            };
            assert(others[a] == other[old_a] && others[b] == other[old_b]);
        }
        assert forall|h: HandleModel| rest.contains(h) <==> others.contains(h) by {
            if rest.contains(h) {
                let a = choose|a: int| 0 <= a < rest.len() && rest[a] == h;
                assert(walk[a] == h);
                assert(walk.contains(h));
                let b = choose|b: int| 0 <= b < other.len() && other[b] == h;
                assert(h != handle);
                assert(others[if b < k {
                    b
                } else {
                    b - 1
                }] == h);
            }
            if others.contains(h) {
                let b = choose|b: int| 0 <= b < others.len() && others[b] == h;
                let old_b = if b < k {
                    b
                } else {
                    b + 1
                };
                assert(other[old_b] == h);
                assert(other.contains(h));
                let a = choose|a: int| 0 <= a < walk.len() && walk[a] == h;
                assert(h != handle);
                assert(rest[a] == h);
            }
        }
        aggregated_of_same_servers(rest, others);
        aggregated_of_one(handle);
        aggregated_of_both(rest, seq![handle]);
        assert(walk =~= rest + seq![handle]);
        aggregated_of_both(front, back);
        aggregated_of_both(front, seq![handle]);
        aggregated_of_both(front + seq![handle], back);
        assert(other =~= front + seq![handle] + back);
        let (f, h, b, r) = (
            aggregated(front),
            contributed(handle),
            aggregated(back),
            aggregated(rest),
        );
        vstd::seq_lib::lemma_multiset_commutative(r, h);
        vstd::seq_lib::lemma_multiset_commutative(f, b);
        vstd::seq_lib::lemma_multiset_commutative(f, h);
        vstd::seq_lib::lemma_multiset_commutative(f + h, b);
        assert(aggregated(walk).to_multiset() =~= aggregated(other).to_multiset());
    }
}

/// Which tools are listed, and how often, does not depend on the order in which
/// the servers are walked.
pub proof fn tools_ignore_order(walk: Seq<HandleModel>, other: Seq<HandleModel>)
    requires
        slugs_distinct(walk),
        slugs_distinct(other),
        table::as_map(slug_rows(walk)) == table::as_map(slug_rows(other)),
    ensures
        aggregated(walk).to_multiset() == aggregated(other).to_multiset(),
{
    distinct_slugs_mean_distinct_servers(walk);
    distinct_slugs_mean_distinct_servers(other);
    assert forall|handle: HandleModel| walk.contains(handle) <==> other.contains(handle) by {
        walked_means_mapped(walk, handle);
        walked_means_mapped(other, handle);
    }
    aggregated_of_same_servers(walk, other);
}

proof fn distinct_slugs_mean_distinct_servers(walk: Seq<HandleModel>)
    requires
        slugs_distinct(walk),
    ensures
        walk.no_duplicates(),
{
    let models = slug_rows(walk);
    assert forall|a: int, b: int|
        0 <= a < walk.len() && 0 <= b < walk.len() && a != b implies walk[a] != walk[b] by {
        assert(models[a].0 != models[b].0);
    }
}

/// A walk and the map from slugs tell of the same servers.
pub proof fn walked_means_mapped(walk: Seq<HandleModel>, handle: HandleModel)
    requires
        slugs_distinct(walk),
    ensures
        walk.contains(handle) <==> table::as_map(slug_rows(walk)).contains_key(handle.slug())
            && table::as_map(slug_rows(walk))[handle.slug()] == handle,
{
    let models = slug_rows(walk);
    if walk.contains(handle) {
        let i = choose|i: int| 0 <= i < walk.len() && walk[i] == handle;
        assert(models[i] == (handle.slug(), handle));
        table::row_is_mapped(models, i);
    }
    if table::as_map(models).contains_key(handle.slug()) && table::as_map(models)[handle.slug()]
        == handle {
        let i = choose|i: int| table::row_has_key(models, i, handle.slug());
        assert(table::row_has_key(models, i, handle.slug()));
        table::row_is_mapped(models, i);
        assert(walk[i] == handle);
    }
}

} // verus!
