//! Which configurations are valid, and what is reported of the others.

use vstd::prelude::*;
use vstd::string::*;

use crate::config::{PorterConfig, ServerConfig, ServerModel, TransportKind};
use crate::env::parse_env_ref;
use crate::error::{Fault, PorterError};
use crate::filter::{has_unsupported_glob_star, Policy};
use crate::{config, env, filter, namespace, table, text};

verus! {

/// What `char::is_alphanumeric` says of a character outside ASCII.
pub uninterp spec fn unicode_alphanumeric(c: char) -> bool;

/// Whether `c` is an ASCII letter or digit.
pub open spec fn ascii_alphanumeric(c: char) -> bool {
    ||| '0' <= c <= '9'
    ||| 'A' <= c <= 'Z'
    ||| 'a' <= c <= 'z'
}

/// `char::is_alphanumeric`: whether the character is alphabetic or numeric by
/// its Unicode properties. Of ASCII, these are the letters and the digits; of
/// the other characters, the claim is just that each always gets the same
/// answer.
pub assume_specification[ char::is_alphanumeric ](c: char) -> (answer: bool)
    ensures
        (c as int) < 128 ==> answer == ascii_alphanumeric(c),
        (c as int) >= 128 ==> answer == unicode_alphanumeric(c),
;

/// Whether `c` is a letter or a digit.
pub open spec fn alphanumeric(c: char) -> bool {
    if (c as int) < 128 {
        ascii_alphanumeric(c)
    } else {
        unicode_alphanumeric(c)
    }
}

/// The rule that a slug must keep to.
pub const SLUG_RULE: &'static str =
    "slug must be non-empty alphanumeric with hyphens, no double underscores";

/// Whether `slug` keeps to the slug rule, `letters` telling for each character
/// whether it is a letter or a digit.
pub open spec fn keeps_slug_rule(slug: Seq<char>, letters: Seq<bool>) -> bool {
    &&& slug.len() > 0
    &&& !text::occurs_in(namespace::separator(), slug)
    &&& forall|i: int| 0 <= i < slug.len() ==> letters[i] || #[trigger] slug[i] == '-'
}

/// Whether `slug` is a valid slug.
pub open spec fn valid_slug(slug: Seq<char>) -> bool {
    keeps_slug_rule(slug, slug.map_values(|c: char| alphanumeric(c)))
}

/// Checks a slug of which is known which characters are letters or digits.
pub fn check_slug(slug: &str, letters: &Vec<bool>) -> (checked: Result<(), PorterError>)
    requires
        letters@.len() == slug@.len(),
    ensures
        checked is Ok <==> keeps_slug_rule(slug@, letters@),
        checked matches Err(e) ==> e@ == Fault::InvalidConfig(slug@, SLUG_RULE@),
{
    proof {
        reveal_strlit("__");
        assert("__"@ =~= namespace::separator());
    }
    let chars = text::chars_of(slug);
    let mut good = chars.len() > 0 && !text::contains(slug, "__");
    let mut i: usize = 0;
    while i < chars.len() && good
        invariant
            chars@ == slug@,
            letters@.len() == slug@.len(),
            i <= chars.len(),
            good ==> slug@.len() > 0 && !text::occurs_in(namespace::separator(), slug@) && forall|
                j: int,
            |
                0 <= j < i ==> letters@[j] || #[trigger] slug@[j] == '-',
            !good ==> !keeps_slug_rule(slug@, letters@),
        decreases chars.len() - i,
    {
        if !letters[i] && chars[i] != '-' {
            assert(slug@[i as int] != '-');
            good = false;
        }
        i += 1;
    }
    if good {
        Ok(())
    } else {
        Err(PorterError::InvalidConfig(slug.to_string(), SLUG_RULE.to_string()))
    }
}

/// Validates slug format: non-empty, alphanumeric + hyphens only, no double
/// underscores.
pub fn validate_slug_format(slug: &str) -> (checked: Result<(), PorterError>)
    ensures
        checked is Ok <==> valid_slug(slug@),
        checked matches Err(e) ==> e@ == Fault::InvalidConfig(slug@, SLUG_RULE@),
{
    let chars = text::chars_of(slug);
    let mut letters: Vec<bool> = Vec::new();
    let mut i: usize = 0;
    while i < chars.len()
        invariant
            chars@ == slug@,
            i <= chars.len(),
            letters@ == slug@.take(i as int).map_values(|c: char| alphanumeric(c)),
        decreases chars.len() - i,
    {
        let c: char = chars[i];
        letters.push(c.is_alphanumeric());
        assert(slug@.take(i + 1) =~= slug@.take(i as int).push(c));
        assert(letters@ =~= slug@.take(i + 1).map_values(|c: char| alphanumeric(c)));
        i += 1;
    }
    assert(slug@.take(i as int) =~= slug@);
    check_slug(slug, &letters)
}

/// The first fault of a list of checks, each of which found one or none.
pub open spec fn first_fault(faults: Seq<Option<Fault>>) -> Option<Fault>
    decreases faults.len(),
{
    if faults.len() == 0 {
        None
    } else {
        match first_fault(faults.drop_last()) {
            Some(fault) => Some(fault),
            None => faults.last(),
        }
    }
}

/// There is no first fault exactly when no check found one.
pub proof fn no_fault_means_none_found(faults: Seq<Option<Fault>>)
    ensures
        first_fault(faults) is None <==> forall|i: int|
            0 <= i < faults.len() ==> #[trigger] faults[i] is None,
    decreases faults.len(),
{
    if faults.len() > 0 {
        let earlier = faults.drop_last();
        no_fault_means_none_found(earlier);
        if first_fault(faults) is None {
            assert forall|i: int| 0 <= i < faults.len() implies #[trigger] faults[i] is None by {
                if i < earlier.len() {
                    assert(earlier[i] is None);
                }
            }
        } else if first_fault(earlier) is Some {
            let i = choose|i: int| 0 <= i < earlier.len() && #[trigger] earlier[i] is Some;
            assert(faults[i] is Some);
        }
    }
}

/// The first fault of one list of checks after another.
proof fn first_fault_of_both(left: Seq<Option<Fault>>, right: Seq<Option<Fault>>)
    ensures
        first_fault(left + right) == (match first_fault(left) {
            Some(fault) => Some(fault),
            None => first_fault(right),
        }),
    decreases right.len(),
{
    if right.len() == 0 {
        assert(left + right =~= left);
    } else {
        assert((left + right).drop_last() =~= left + right.drop_last());
        first_fault_of_both(left, right.drop_last());
    }
}

/// The first fault of a list is that of any part of it at the front that has
/// one.
proof fn first_fault_of_front(faults: Seq<Option<Fault>>, n: int)
    requires
        0 <= n <= faults.len(),
        first_fault(faults.take(n)) is Some,
    ensures
        first_fault(faults) == first_fault(faults.take(n)),
{
    assert(faults =~= faults.take(n) + faults.skip(n));
    first_fault_of_both(faults.take(n), faults.skip(n));
}

/// The fault that a check reported.
pub open spec fn reported<T>(checked: Result<T, PorterError>) -> Option<Fault> {
    match checked {
        Ok(_) => None,
        Err(e) => Some(e@),
    }
}

pub const COMMAND_MISSING: &'static str = "STDIO transport requires 'command' field";

pub const URL_MISPLACED: &'static str = "STDIO transport should not have 'url' field";

pub const URL_MISSING: &'static str = "HTTP transport requires 'url' field";

pub const COMMAND_MISPLACED: &'static str = "HTTP transport should not have 'command' field";

pub const ENTRY_EMPTY: &'static str = "allow/deny entries must be non-empty tool names";

/// What is said of an env value that is no reference.
pub open spec fn not_a_reference(key: Seq<char>, value: Seq<char>) -> Seq<char> {
    "env value for key '"@ + key + "' must be a ${VAR} reference, got '"@ + value + "'"@
}

/// What is said of a pattern with an interior star.
pub open spec fn star_misplaced(entry: Seq<char>) -> Seq<char> {
    "allow/deny entry '"@ + entry
        + "' has a '*' in an unsupported position — wildcards are only allowed as a single leading and/or trailing character (e.g. 'get_*', '*_issue', '*delete*')"@
}

/// The fault in the fields that the transport asks for or rules out.
pub open spec fn transport_fault(server: ServerModel) -> Option<Fault> {
    match server.transport {
        TransportKind::Stdio => if !server.has_command {
            Some(Fault::InvalidConfig(server.slug, COMMAND_MISSING@))
        } else if server.has_url {
            Some(Fault::InvalidConfig(server.slug, URL_MISPLACED@))
        } else {
            None
        },
        TransportKind::Http => if !server.has_url {
            Some(Fault::InvalidConfig(server.slug, URL_MISSING@))
        } else if server.has_command {
            Some(Fault::InvalidConfig(server.slug, COMMAND_MISPLACED@))
        } else {
            None
        },
    }
}

/// The fault in one env entry of the server `slug`.
pub open spec fn env_fault(slug: Seq<char>, key: Seq<char>, value: Seq<char>) -> Option<Fault> {
    if env::env_ref(value) is None {
        Some(Fault::InvalidConfig(slug, not_a_reference(key, value)))
    } else {
        None
    }
}

/// The faults in the env entries of a server, in the order of a walk.
pub open spec fn env_faults(server: ServerConfig) -> Seq<Option<Fault>> {
    env::text_rows(server.env).map_values(
        |row: (Seq<char>, Seq<char>)| env_fault(server.slug@, row.0, row.1),
    )
}

/// The fault in one allow or deny entry of the server `slug`.
pub open spec fn entry_fault(slug: Seq<char>, entry: Seq<char>) -> Option<Fault> {
    if entry.len() == 0 {
        Some(Fault::InvalidConfig(slug, ENTRY_EMPTY@))
    } else if filter::has_interior_star(entry) {
        Some(Fault::InvalidConfig(slug, star_misplaced(entry)))
    } else {
        None
    }
}

/// The faults in the entries of a policy, those of the allow list first.
pub open spec fn entry_faults(slug: Seq<char>, policy: Policy) -> Seq<Option<Fault>> {
    (config::allow_entries(policy) + policy.deny).map_values(
        |entry: Seq<char>| entry_fault(slug, entry),
    )
}

/// The first fault of a server beyond its slug. A disabled server has none.
pub open spec fn server_fault(server: ServerConfig) -> Option<Fault> {
    if server.enabled {
        first_fault(
            seq![transport_fault(server@)] + env_faults(server) + entry_faults(
                server.slug@,
                server@.policy,
            ),
        )
    } else {
        None
    }
}

/// The fault in the slug of row `i`: it breaks the slug rule, or an earlier
/// row has it already.
pub open spec fn slug_fault(rows: Seq<(Seq<char>, ServerConfig)>, i: int) -> Option<Fault> {
    let slug = rows[i].1.slug@;
    if !valid_slug(slug) {
        Some(Fault::InvalidConfig(slug, SLUG_RULE@))
    } else if exists|j: int| 0 <= j < i && #[trigger] rows[j].1.slug@ == slug {
        Some(Fault::DuplicateSlug(slug))
    } else {
        None
    }
}

/// What validation finds, check by check: the slugs of all servers first, then
/// each server on its own.
pub open spec fn config_faults(rows: Seq<(Seq<char>, ServerConfig)>) -> Seq<Option<Fault>> {
    Seq::new(rows.len(), |i: int| slug_fault(rows, i)) + rows.map_values(
        |row: (Seq<char>, ServerConfig)| server_fault(row.1),
    )
}

/// Whether a server is valid beyond its slug. A disabled server is.
pub open spec fn valid_server(server: ServerModel) -> bool {
    server.enabled ==> {
        &&& match server.transport {
            TransportKind::Stdio => server.has_command && !server.has_url,
            TransportKind::Http => server.has_url && !server.has_command,
        }
        &&& forall|key: Seq<char>| #[trigger]
            server.env.contains_key(key) ==> env::env_ref(server.env[key]) is Some
        &&& valid_entries(config::allow_entries(server.policy))
        &&& valid_entries(server.policy.deny)
    }
}

/// Whether every entry is a pattern that is supported.
pub open spec fn valid_entries(entries: Seq<Seq<char>>) -> bool {
    forall|i: int|
        0 <= i < entries.len() ==> (#[trigger] entries[i]).len() > 0 && !filter::has_interior_star(
            entries[i],
        )
}

/// Whether a set of servers is valid: each has a valid slug that no other has,
/// and each is valid.
pub open spec fn valid_servers(servers: Map<Seq<char>, ServerModel>) -> bool {
    &&& forall|name: Seq<char>| #[trigger]
        servers.contains_key(name) ==> valid_slug(servers[name].slug) && valid_server(servers[name])
    &&& forall|a: Seq<char>, b: Seq<char>| #[trigger]
        servers.contains_key(a) && #[trigger] servers.contains_key(b) && a != b ==> servers[a].slug
            != servers[b].slug
}

/// A report that the server `slug` is configured wrongly.
fn invalid<T>(slug: &str, why: &str) -> (report: Result<T, PorterError>)
    ensures
        reported(report) == Some(Fault::InvalidConfig(slug@, why@)),
{
    Err(PorterError::InvalidConfig(slug.to_string(), why.to_string()))
}

/// Checks one allow or deny entry of the server `slug`.
fn check_entry(slug: &str, entry: &str) -> (checked: Result<(), PorterError>)
    ensures
        reported(checked) == entry_fault(slug@, entry@),
{
    if entry.is_empty() {
        return invalid(slug, ENTRY_EMPTY);
    }
    if has_unsupported_glob_star(entry) {
        let mut why = "allow/deny entry '".to_string();
        why.append(entry);
        why.append(
            "' has a '*' in an unsupported position — wildcards are only allowed as a single leading and/or trailing character (e.g. 'get_*', '*_issue', '*delete*')",
        );
        return invalid(slug, why.as_str());
    }
    Ok(())
}

/// Checks the entries of an allow or deny list of the server `slug`, in order.
fn check_entries(slug: &str, entries: &Vec<String>) -> (checked: Result<(), PorterError>)
    ensures
        reported(checked) == first_fault(
            text::views(entries@).map_values(|entry: Seq<char>| entry_fault(slug@, entry)),
        ),
{
    let ghost faults = text::views(entries@).map_values(
        |entry: Seq<char>| entry_fault(slug@, entry),
    );
    let mut i: usize = 0;
    while i < entries.len()
        invariant
            faults == text::views(entries@).map_values(
                |entry: Seq<char>| entry_fault(slug@, entry),
            ),
            i <= entries.len(),
            first_fault(faults.take(i as int)) is None,
        decreases entries.len() - i,
    {
        let checked = check_entry(slug, entries[i].as_str());
        proof {
            assert(faults.take(i + 1).drop_last() =~= faults.take(i as int));
            assert(faults.take(i + 1).last() == faults[i as int]);
        }
        if checked.is_err() {
            proof {
                first_fault_of_front(faults, i + 1);
            }
            return checked;
        }
        i += 1;
    }
    assert(faults.take(i as int) =~= faults);
    Ok(())
}

impl ServerConfig {
    /// Checks the fields that the transport asks for or rules out.
    fn check_transport(&self) -> (checked: Result<(), PorterError>)
        ensures
            reported(checked) == transport_fault(self@),
    {
        let slug = self.slug.as_str();
        match self.transport {
            TransportKind::Stdio => {
                if self.command.is_none() {
                    return invalid(slug, COMMAND_MISSING);
                }
                if self.url.is_some() {
                    return invalid(slug, URL_MISPLACED);
                }
            },
            TransportKind::Http => {
                if self.url.is_none() {
                    return invalid(slug, URL_MISSING);
                }
                if self.command.is_some() {
                    return invalid(slug, COMMAND_MISPLACED);
                }
            },
        }
        Ok(())
    }

    /// Checks that every env value is a reference, in the order of a walk.
    fn check_env(&self) -> (checked: Result<(), PorterError>)
        ensures
            reported(checked) == first_fault(env_faults(*self)),
    {
        let ghost faults = env_faults(*self);
        let count: usize = self.env.len();
        let mut i: usize = 0;
        while i < count
            invariant
                faults == env_faults(*self),
                count == self.env.rows().len(),
                i <= count,
                first_fault(faults.take(i as int)) is None,
            decreases count - i,
        {
            let key = self.env.key_at(i);
            let value = self.env.value_at(i);
            proof {
                assert(faults.take(i + 1).drop_last() =~= faults.take(i as int));
                assert(faults.take(i + 1).last() == faults[i as int]);
                assert(faults[i as int] == env_fault(self.slug@, key@, value@));
            }
            if parse_env_ref(value.as_str()).is_none() {
                let mut why = "env value for key '".to_string();
                why.append(key.as_str());
                why.append("' must be a ${VAR} reference, got '");
                why.append(value.as_str());
                why.append("'");
                proof {
                    first_fault_of_front(faults, i + 1);
                }
                return invalid(self.slug.as_str(), why.as_str());
            }
            i += 1;
        }
        assert(faults.take(i as int) =~= faults);
        Ok(())
    }

    /// Checks the entries of the allow list, then those of the deny list.
    fn check_policy(&self) -> (checked: Result<(), PorterError>)
        ensures
            reported(checked) == first_fault(entry_faults(self.slug@, self@.policy)),
    {
        let ghost slug = self.slug@;
        let ghost of_entry = |entry: Seq<char>| entry_fault(slug, entry);
        let ghost allow = config::allow_entries(self@.policy);
        let ghost deny = self@.policy.deny;
        proof {
            assert((allow + deny).map_values(of_entry) =~= allow.map_values(of_entry)
                + deny.map_values(of_entry));
            first_fault_of_both(allow.map_values(of_entry), deny.map_values(of_entry));
        }
        if let Some(entries) = &self.allow {
            let checked = check_entries(self.slug.as_str(), entries);
            if checked.is_err() {
                return checked;
            }
        } else {
            assert(allow.map_values(of_entry) =~= Seq::empty());
        }
        check_entries(self.slug.as_str(), &self.deny)
    }

    /// Validates the server beyond its slug. A disabled server passes.
    pub fn validate(&self) -> (checked: Result<(), PorterError>)
        ensures
            reported(checked) == server_fault(*self),
            checked is Ok <==> valid_server(self@),
    {
        proof {
            use_type_invariant(&self.env);
            valid_server_has_no_fault(*self);
        }
        if !self.enabled {
            return Ok(());
        }
        let ghost transport = seq![transport_fault(self@)];
        let ghost entries = entry_faults(self.slug@, self@.policy);
        proof {
            assert(transport.drop_last() =~= Seq::empty());
            reveal_with_fuel(first_fault, 2);
            assert(first_fault(transport) == transport_fault(self@));
            first_fault_of_both(transport, env_faults(*self));
            first_fault_of_both(transport + env_faults(*self), entries);
        }
        let checked = self.check_transport();
        if checked.is_err() {
            return checked;
        }
        let checked = self.check_env();
        if checked.is_err() {
            return checked;
        }
        self.check_policy()
    }
}

impl PorterConfig {
    /// The servers as validation reads them.
    pub open spec fn server_models(self) -> Map<Seq<char>, ServerModel> {
        self.servers@.map_values(|server: ServerConfig| server@)
    }

    /// Whether a server before row `i` has the slug of row `i`.
    fn slug_taken_before(&self, i: usize) -> (taken: bool)
        requires
            i < self.servers.rows().len(),
        ensures
            taken == exists|j: int|
                0 <= j < i && #[trigger] self.servers.rows()[j].1.slug@
                    == self.servers.rows()[i as int].1.slug@,
    {
        let slug = &self.servers.value_at(i).slug;
        let mut j: usize = 0;
        while j < i
            invariant
                i < self.servers.rows().len(),
                slug@ == self.servers.rows()[i as int].1.slug@,
                j <= i,
                forall|k: int| 0 <= k < j ==> #[trigger] self.servers.rows()[k].1.slug@ != slug@,
            decreases i - j,
        {
            if text::same(self.servers.value_at(j).slug.as_str(), slug.as_str()) {
                assert(self.servers.rows()[j as int].1.slug@ == slug@);
                return true;
            }
            j += 1;
        }
        false
    }

    /// Validates the config, failing fast on misconfigurations before any
    /// servers are spawned.
    ///
    /// The slugs of all servers are checked first, then each enabled server.
    /// Which fault is reported of several follows the order of the table;
    /// whether there is one does not.
    pub fn validate(&self) -> (checked: Result<(), PorterError>)
        ensures
            self.servers.well_formed(),
            reported(checked) == first_fault(config_faults(self.servers.rows())),
            checked is Ok <==> valid_servers(self.server_models()),
    {
        let ghost rows = self.servers.rows();
        let ghost faults = config_faults(rows);
        let count: usize = self.servers.len();
        let mut i: usize = 0;
        while i < count
            invariant
                rows == self.servers.rows(),
                faults == config_faults(rows),
                count == rows.len(),
                i <= count,
                self.servers.well_formed(),
                first_fault(faults.take(i as int)) is None,
                forall|j: int| 0 <= j < i ==> #[trigger] slug_fault(rows, j) is None,
            decreases count - i,
        {
            proof {
                assert(faults.take(i + 1).drop_last() =~= faults.take(i as int));
                assert(faults.take(i + 1).last() == faults[i as int]);
                assert(faults[i as int] == slug_fault(rows, i as int));
                if slug_fault(rows, i as int) is Some {
                    faulty_slug_is_invalid(*self, i as int);
                }
            }
            let slug = &self.servers.value_at(i).slug;
            let checked = validate_slug_format(slug.as_str());
            if checked.is_err() {
                proof {
                    first_fault_of_front(faults, i + 1);
                }
                return checked;
            }
            if self.slug_taken_before(i) {
                proof {
                    first_fault_of_front(faults, i + 1);
                }
                return Err(PorterError::DuplicateSlug(slug.clone()));
            }
            i += 1;
        }
        i = 0;
        while i < count
            invariant
                rows == self.servers.rows(),
                faults == config_faults(rows),
                count == rows.len(),
                i <= count,
                self.servers.well_formed(),
                first_fault(faults.take(count + i)) is None,
                forall|j: int| 0 <= j < count ==> #[trigger] slug_fault(rows, j) is None,
                forall|j: int| 0 <= j < i ==> valid_server((#[trigger] rows[j]).1@),
            decreases count - i,
        {
            proof {
                assert(faults.take(count + i + 1).drop_last() =~= faults.take(count + i));
                assert(faults.take(count + i + 1).last() == faults[count + i]);
                assert(faults[count + i] == server_fault(rows[i as int].1));
            }
            let checked = self.servers.value_at(i).validate();
            if checked.is_err() {
                proof {
                    first_fault_of_front(faults, count + i + 1);
                    table::row_is_mapped(rows, i as int);
                    assert(self.server_models().contains_key(rows[i as int].0));
                }
                return checked;
            }
            i += 1;
        }
        assert(faults.take(count + i) =~= faults);
        proof {
            faultless_servers_are_valid(*self);
        }
        Ok(())
    }
}

/// A server has no fault beyond its slug exactly when it is valid.
pub proof fn valid_server_has_no_fault(server: ServerConfig)
    requires
        server.env.well_formed(),
    ensures
        server_fault(server) is None <==> valid_server(server@),
{
    if server.enabled {
        let transport = seq![transport_fault(server@)];
        let envs = env_faults(server);
        let entries = entry_faults(server.slug@, server@.policy);
        let allow = config::allow_entries(server@.policy);
        let deny = server@.policy.deny;
        let all = transport + envs + entries;
        no_fault_means_none_found(all);
        if server_fault(server) is None {
            assert(all[0] is None);
            assert forall|key: Seq<char>| #[trigger] server@.env.contains_key(key) implies env::env_ref(
                server@.env[key],
            ) is Some by {
                let rows = server.env.rows();
                let i = choose|i: int| table::row_has_key(rows, i, key);
                assert(table::row_has_key(rows, i, key));
                table::row_is_mapped(rows, i);
                assert(all[1 + i] == envs[i]);
                assert(envs[i] == env_fault(server.slug@, rows[i].0, rows[i].1@));
            }
            assert forall|i: int| 0 <= i < allow.len() implies entry_fault(
                server.slug@,
                #[trigger] allow[i],
            ) is None by {
                assert(all[1 + envs.len() + i] == entries[i]);
                assert(entries[i] == entry_fault(server.slug@, allow[i]));
            }
            assert forall|i: int| 0 <= i < deny.len() implies entry_fault(
                server.slug@,
                #[trigger] deny[i],
            ) is None by {
                assert(all[1 + envs.len() + allow.len() + i] == entries[allow.len() + i]);
                assert(entries[allow.len() + i] == entry_fault(server.slug@, deny[i]));
            }
        }
        if valid_server(server@) {
            assert forall|i: int| 0 <= i < all.len() implies #[trigger] all[i] is None by {
                if i == 0 {
                } else if i < 1 + envs.len() {
                    let rows = server.env.rows();
                    table::row_is_mapped(rows, i - 1);
                    assert(all[i] == env_fault(server.slug@, rows[i - 1].0, rows[i - 1].1@));
                    assert(server@.env.contains_key(rows[i - 1].0));
                } else {
                    let k = i - 1 - envs.len();
                    assert(all[i] == entry_fault(server.slug@, (allow + deny)[k]));
                    if k < allow.len() {
                        assert((allow + deny)[k] == allow[k]);
                    } else {
                        assert((allow + deny)[k] == deny[k - allow.len()]);
                    }
                }
            }
        }
    }
}

/// A fault in a slug makes the servers invalid.
proof fn faulty_slug_is_invalid(config: PorterConfig, i: int)
    requires
        config.servers.well_formed(),
        0 <= i < config.servers.rows().len(),
        slug_fault(config.servers.rows(), i) is Some,
    ensures
        !valid_servers(config.server_models()),
{
    let rows = config.servers.rows();
    let models = config.server_models();
    table::row_is_mapped(rows, i);
    assert(models.contains_key(rows[i].0));
    if valid_slug(rows[i].1.slug@) {
        let j = choose|j: int| 0 <= j < i && #[trigger] rows[j].1.slug@ == rows[i].1.slug@;
        table::row_is_mapped(rows, j);
        assert(models.contains_key(rows[j].0));
        assert(rows[i].0 != rows[j].0);
    }
}

/// Servers without a fault are valid.
proof fn faultless_servers_are_valid(config: PorterConfig)
    requires
        config.servers.well_formed(),
        forall|i: int|
            0 <= i < config.servers.rows().len() ==> #[trigger] slug_fault(
                config.servers.rows(),
                i,
            ) is None,
        forall|i: int|
            0 <= i < config.servers.rows().len() ==> valid_server(
                (#[trigger] config.servers.rows()[i]).1@,
            ),
    ensures
        valid_servers(config.server_models()),
{
    let rows = config.servers.rows();
    let models = config.server_models();
    assert forall|name: Seq<char>| #[trigger] models.contains_key(name) implies valid_slug(
        models[name].slug,
    ) && valid_server(models[name]) by {
        let i = choose|i: int| table::row_has_key(rows, i, name);
        assert(table::row_has_key(rows, i, name));
        table::row_is_mapped(rows, i);
        assert(slug_fault(rows, i) is None);
    }
    assert forall|a: Seq<char>, b: Seq<char>| #[trigger]
        models.contains_key(a) && #[trigger] models.contains_key(b) && a
            != b implies models[a].slug != models[b].slug by {
        let i = choose|i: int| table::row_has_key(rows, i, a);
        assert(table::row_has_key(rows, i, a));
        table::row_is_mapped(rows, i);
        let j = choose|j: int| table::row_has_key(rows, j, b);
        assert(table::row_has_key(rows, j, b));
        table::row_is_mapped(rows, j);
        assert(slug_fault(rows, i) is None);
        assert(slug_fault(rows, j) is None);
        if rows[i].1.slug@ == rows[j].1.slug@ {
            if i < j {
                assert(rows[i].1.slug@ == rows[j].1.slug@);
            }
        }
    }
}

/// In a configuration without a fault every slug is valid, and no two rows
/// share one.
pub proof fn faultless_config_has_distinct_slugs(rows: Seq<(Seq<char>, ServerConfig)>)
    ensures
        first_fault(config_faults(rows)) is None ==> (forall|i: int|
            0 <= i < rows.len() ==> valid_slug((#[trigger] rows[i]).1.slug@)),
        first_fault(config_faults(rows)) is None ==> (forall|i: int, j: int|
            0 <= i < j < rows.len() ==> (#[trigger] rows[i]).1.slug@ != (
            #[trigger] rows[j]).1.slug@),
{
    let faults = config_faults(rows);
    no_fault_means_none_found(faults);
    if first_fault(faults) is None {
        assert forall|i: int| 0 <= i < rows.len() implies slug_fault(rows, i) is None by {
            assert(faults[i] == slug_fault(rows, i));
        }
        assert forall|i: int| 0 <= i < rows.len() implies valid_slug(
            (#[trigger] rows[i]).1.slug@,
        ) by {
            assert(slug_fault(rows, i) is None);
        }
        assert forall|i: int, j: int| 0 <= i < j < rows.len() implies (#[trigger] rows[i]).1.slug@
            != (#[trigger] rows[j]).1.slug@ by {
            assert(slug_fault(rows, j) is None);
        }
    }
}

/// Whether the tables of a configuration hold each key once. Every
/// configuration that exists does so.
pub open spec fn well_formed(config: PorterConfig) -> bool {
    &&& config.servers.well_formed()
    &&& forall|i: int|
        0 <= i < config.servers.rows().len() ==> (#[trigger] config.servers.rows()[
            i
        ]).1.env.well_formed()
}

/// Validation finds no fault exactly when the servers are valid.
pub proof fn valid_servers_have_no_fault(config: PorterConfig)
    requires
        well_formed(config),
    ensures
        first_fault(config_faults(config.servers.rows())) is None <==> valid_servers(
            config.server_models(),
        ),
{
    let rows = config.servers.rows();
    let faults = config_faults(rows);
    no_fault_means_none_found(faults);
    assert forall|i: int| 0 <= i < rows.len() implies faults[i] == #[trigger] slug_fault(rows, i) by {
    }
    assert forall|i: int| 0 <= i < rows.len() implies (faults[rows.len() + i] is None
        <==> valid_server((#[trigger] rows[i]).1@)) by {
        assert(faults[rows.len() + i] == server_fault(rows[i].1));
        valid_server_has_no_fault(rows[i].1);
    }
    if first_fault(faults) is None {
        assert forall|i: int| 0 <= i < rows.len() implies valid_server(
            (#[trigger] rows[i]).1@,
        ) by {
            assert(faults[rows.len() + i] is None);
        }
        faultless_servers_are_valid(config);
    } else {
        let k = choose|k: int| 0 <= k < faults.len() && #[trigger] faults[k] is Some;
        if k < rows.len() {
            assert(faults[k] == slug_fault(rows, k));
            faulty_slug_is_invalid(config, k);
        } else {
            let i = k - rows.len();
            assert(faults[rows.len() + i] is Some);
            assert(!valid_server(rows[i].1@));
            table::row_is_mapped(rows, i);
            assert(config.server_models().contains_key(rows[i].0));
        }
    }
}

/// The verdict does not depend on the order in which servers and env entries
/// are walked: configurations that hold the same servers pass or fail alike.
pub proof fn verdict_ignores_order(config: PorterConfig, reordered: PorterConfig)
    requires
        well_formed(config),
        well_formed(reordered),
        config.server_models() == reordered.server_models(),
    ensures
        first_fault(config_faults(config.servers.rows())) is None <==> first_fault(
            config_faults(reordered.servers.rows()),
        ) is None,
{
    valid_servers_have_no_fault(config);
    valid_servers_have_no_fault(reordered);
}

/// A valid slug holds no underscore, so it can be told from what follows it in
/// a namespaced name.
pub proof fn valid_slug_is_separable(slug: Seq<char>)
    requires
        valid_slug(slug),
    ensures
        namespace::separable(slug),
{
    let letters = slug.map_values(|c: char| alphanumeric(c));
    assert forall|i: int| 0 <= i < slug.len() implies #[trigger] slug[i] != '_' by {
        assert(letters[i] == alphanumeric(slug[i]));
    }
}

/// A disabled server is exempt: whatever it holds beyond its slug, it passes.
pub proof fn disabled_server_passes(server: ServerConfig)
    requires
        !server.enabled,
    ensures
        server_fault(server) is None,
        valid_server(server@),
{
}

/// An enabled server of a valid configuration holds just env values that are
/// references and just patterns that are wildcards.
pub proof fn valid_server_entries_are_supported(
    servers: Map<Seq<char>, ServerModel>,
    name: Seq<char>,
    key: Seq<char>,
    tool: Seq<char>,
)
    requires
        valid_servers(servers),
        servers.contains_key(name),
        servers[name].enabled,
    ensures
        servers[name].env.contains_key(key) ==> env::env_ref(servers[name].env[key]) is Some,
        forall|i: int|
            0 <= i < servers[name].policy.deny.len() ==> (filter::matches_pattern(
                #[trigger] servers[name].policy.deny[i],
                tool,
            ) <==> filter::matches_wildcard(servers[name].policy.deny[i], tool)),
        forall|i: int|
            0 <= i < config::allow_entries(servers[name].policy).len() ==> (
            filter::matches_pattern(
                #[trigger] config::allow_entries(servers[name].policy)[i],
                tool,
            ) <==> filter::matches_wildcard(
                config::allow_entries(servers[name].policy)[i],
                tool,
            )),
{
    let policy = servers[name].policy;
    let allow = config::allow_entries(policy);
    assert forall|i: int| 0 <= i < policy.deny.len() implies (filter::matches_pattern(
        #[trigger] policy.deny[i],
        tool,
    ) <==> filter::matches_wildcard(policy.deny[i], tool)) by {
        filter::supported_patterns_are_wildcards(policy.deny[i], tool);
    }
    assert forall|i: int| 0 <= i < allow.len() implies (filter::matches_pattern(
        #[trigger] allow[i],
        tool,
    ) <==> filter::matches_wildcard(allow[i], tool)) by {
        filter::supported_patterns_are_wildcards(allow[i], tool);
    }
}

/// An entry that both lists hold is lost: whatever matches it is blocked by the
/// deny list.
pub proof fn overlapping_entries_are_blocked(policy: Policy, entry: Seq<char>, tool: Seq<char>)
    requires
        config::allow_entries(policy).filter(
            |entry: Seq<char>| policy.deny.contains(entry),
        ).contains(entry),
        filter::matches_pattern(entry, tool),
    ensures
        policy.block_reason(tool) == Some("deny list"@),
        !policy.permits(tool),
{
    let denied = |entry: Seq<char>| policy.deny.contains(entry);
    let overlap = config::allow_entries(policy).filter(denied);
    let k = choose|k: int| 0 <= k < overlap.len() && overlap[k] == entry;
    config::allow_entries(policy).lemma_filter_pred(denied, k);
    let i = choose|i: int| 0 <= i < policy.deny.len() && policy.deny[i] == entry;
    assert(filter::matches_pattern(policy.deny[i], tool));
}

} // verus!
