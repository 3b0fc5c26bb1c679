//! What the library promises, said of plain text, lists and fields.
//!
//! The contracts of the library speak through models. The laws here tie those
//! models to what a user of the gateway sees. They have words of their own,
//! which no contract uses.

use vstd::prelude::*;
use vstd::string::*;

use crate::config::{PorterConfig, ServerConfig, TransportKind};
use crate::error::{Fault, PorterError};
use crate::filter::Policy;
use crate::registry::PorterRegistry;
use crate::server::{HandleModel, HealthState, Report, Tool, ToolModel};
use crate::table::Table;
use crate::{config, env, error, filter, namespace, registry, server, table, text, validation};

verus! {

// Text.

/// A part occurs in a text exactly when the text is that part with something,
/// or nothing, before and after it.
pub proof fn occurring_means_standing_between(part: Seq<char>, text: Seq<char>)
    ensures
        text::occurs_in(part, text) <==> exists|before: Seq<char>, after: Seq<char>|
            text == #[trigger] (before + part + after),
{
    if text::occurs_in(part, text) {
        let at = choose|at: int| text::stands_at(text, part, at);
        let before = text.take(at);
        let after = text.skip(at + part.len());
        assert(text =~= before + part + after);
    }
    if exists|before: Seq<char>, after: Seq<char>| text == #[trigger] (before + part + after) {
        let (before, after) = choose|before: Seq<char>, after: Seq<char>|
            text == #[trigger] (before + part + after);
        let at = before.len() as int;
        assert(text.subrange(at, at + part.len()) =~= part);
        assert(text::stands_at(text, part, at));
    }
}

/// A part stands at a place exactly when the text agrees with it from there on,
/// character by character.
pub proof fn standing_means_agreeing(text: Seq<char>, part: Seq<char>, at: int)
    ensures
        text::stands_at(text, part, at) <==> 0 <= at && at + part.len() <= text.len() && forall|
            i: int,
        |
            0 <= i < part.len() ==> text[at + i] == #[trigger] part[i],
{
    if 0 <= at && at + part.len() <= text.len() {
        let found = text.subrange(at, at + part.len());
        if text::stands_at(text, part, at) {
            assert forall|i: int| 0 <= i < part.len() implies text[at + i] == #[trigger] part[i] by {
                assert(found[i] == text[at + i]);
            }
        }
        if forall|i: int| 0 <= i < part.len() ==> text[at + i] == #[trigger] part[i] {
            assert(found =~= part);
        }
    }
}

/// Two texts are ordered by the first character in which they differ.
pub proof fn the_first_difference_decides(
    common: Seq<char>,
    c: char,
    d: char,
    after_c: Seq<char>,
    after_d: Seq<char>,
)
    requires
        c != d,
    ensures
        text::precedes(common + seq![c] + after_c, common + seq![d] + after_d) <==> (c as int) < (
        d as int),
    decreases common.len(),
{
    let a = common + seq![c] + after_c;
    let b = common + seq![d] + after_d;
    if common.len() == 0 {
        assert(a[0] == c && b[0] == d);
    } else {
        let rest = common.drop_first();
        assert(a[0] == common[0] && b[0] == common[0]);
        assert(a.drop_first() =~= rest + seq![c] + after_c);
        assert(b.drop_first() =~= rest + seq![d] + after_d);
        the_first_difference_decides(rest, c, d, after_c, after_d);
    }
}

/// A text comes before what it is the start of, and not after it.
pub proof fn the_shorter_start_comes_first(start: Seq<char>, more: Seq<char>)
    ensures
        text::precedes(start, start + more) <==> more.len() > 0,
        !text::precedes(start + more, start),
    decreases start.len(),
{
    let whole = start + more;
    if start.len() > 0 {
        assert(whole[0] == start[0]);
        assert(whole.drop_first() =~= start.drop_first() + more);
        the_shorter_start_comes_first(start.drop_first(), more);
    } else {
        assert(whole =~= more);
    }
}

/// A list is in order exactly when each text precedes every later one.
pub proof fn in_order_means_each_before_the_later(texts: Seq<Seq<char>>)
    ensures
        text::in_order(texts) <==> forall|i: int, j: int|
            0 <= i < j < texts.len() ==> text::precedes(#[trigger] texts[i], #[trigger] texts[j]),
{
}

/// A list of strings as texts has the same length and the same texts.
pub proof fn strings_as_texts(strings: Seq<String>)
    ensures
        text::views(strings).len() == strings.len(),
        forall|i: int|
            0 <= i < strings.len() ==> #[trigger] text::views(strings)[i] == strings[i]@,
{
}

// Tables.

/// The rows of a table spell out the map of their keys to their values.
pub proof fn rows_spell_out_a_map<V>(rows: Seq<(Seq<char>, V)>, key: Seq<char>)
    ensures
        table::keys_distinct(rows) <==> forall|i: int, j: int|
            0 <= i < rows.len() && 0 <= j < rows.len() && i != j ==> (#[trigger] rows[i]).0 != (
            #[trigger] rows[j]).0,
        forall|i: int| #[trigger]
            table::row_has_key(rows, i, key) <==> 0 <= i < rows.len() && rows[i].0 == key,
        table::as_map(rows).contains_key(key) <==> exists|i: int|
            0 <= i < rows.len() && (#[trigger] rows[i]).0 == key,
        table::keys_distinct(rows) ==> forall|i: int|
            0 <= i < rows.len() && (#[trigger] rows[i]).0 == key ==> table::as_map(rows)[key]
                == rows[i].1,
{
    if table::as_map(rows).contains_key(key) {
        let i = choose|i: int| table::row_has_key(rows, i, key);
        assert(rows[i].0 == key);
    }
    if exists|i: int| 0 <= i < rows.len() && (#[trigger] rows[i]).0 == key {
        let i = choose|i: int| 0 <= i < rows.len() && (#[trigger] rows[i]).0 == key;
        assert(table::row_has_key(rows, i, key));
    }
    if table::keys_distinct(rows) {
        assert forall|i: int| 0 <= i < rows.len() && (#[trigger] rows[i]).0
            == key implies table::as_map(rows)[key] == rows[i].1 by {
            table::row_is_mapped(rows, i);
        }
    }
}

/// A table of strings as texts has the same keys, the same order, and the texts
/// of its strings.
pub proof fn string_tables_as_texts(strings: Table<String>)
    ensures
        env::text_map(strings).dom() == strings@.dom(),
        forall|key: Seq<char>|
            strings@.contains_key(key) ==> #[trigger] env::text_map(strings)[key] == strings@[key]@,
        env::text_rows(strings).len() == strings.rows().len(),
        forall|i: int|
            0 <= i < strings.rows().len() ==> #[trigger] env::text_rows(strings)[i] == (
                strings.rows()[i].0,
                strings.rows()[i].1@,
            ),
{
    assert(env::text_map(strings).dom() =~= strings@.dom());
}

// Errors.

/// An error as plain text has the kind and the texts of the error.
pub proof fn errors_as_texts(e: PorterError)
    ensures
        match e {
            PorterError::DuplicateSlug(slug) => e@ == Fault::DuplicateSlug(slug@),
            PorterError::InvalidConfig(slug, why) => e@ == Fault::InvalidConfig(slug@, why@),
            PorterError::InitializationFailed(slug, why) => e@ == Fault::InitializationFailed(
                slug@,
                why@,
            ),
            PorterError::ServerUnhealthy(slug, why) => e@ == Fault::ServerUnhealthy(slug@, why@),
            PorterError::Protocol(slug, why) => e@ == Fault::Protocol(slug@, why@),
            PorterError::Transport(slug, why) => e@ == Fault::Transport(slug@, why@),
            PorterError::ShuttingDown(slug) => e@ == Fault::ShuttingDown(slug@),
        },
        validation::reported(Err::<(), PorterError>(e)) == Some(e@),
{
}

/// Success reports nothing, failure reports its error.
pub proof fn reports_tell_success_from_failure<T>(outcome: Result<T, PorterError>)
    ensures
        validation::reported(outcome) is None <==> outcome is Ok,
        outcome matches Err(e) ==> validation::reported(outcome) == Some(e@),
{
}

/// A message is made of fixed words around the slug and the reason, both in
/// full.
pub proof fn messages_hold_slug_and_reason(slug: Seq<char>, why: Seq<char>)
    ensures
        error::message(Fault::DuplicateSlug(slug)) == "duplicate server slug: "@ + slug,
        error::message(Fault::InvalidConfig(slug, why)) == "invalid config for server '"@ + slug
            + "': "@ + why,
        error::message(Fault::InitializationFailed(slug, why))
            == "initialization failed for server '"@ + slug + "': "@ + why,
        error::message(Fault::ServerUnhealthy(slug, why)) == "server '"@ + slug
            + "' is unhealthy: "@ + why,
        error::message(Fault::Protocol(slug, why)) == "protocol error for server '"@ + slug
            + "': "@ + why,
        error::message(Fault::Transport(slug, why)) == "transport error for server '"@ + slug
            + "': "@ + why,
        error::message(Fault::ShuttingDown(slug)) == "server '"@ + slug + "' shutting down"@,
{
}

// Patterns and policies.

/// Whether `name` fits `pattern`, by the characters at the ends of the pattern.
pub open spec fn fits(pattern: Seq<char>, name: Seq<char>) -> bool {
    let n = pattern.len() as int;
    if n == 0 {
        name.len() == 0
    } else if pattern[0] == '*' && n == 1 {
        true
    } else if pattern[0] == '*' && pattern[n - 1] == '*' {
        exists|before: Seq<char>, after: Seq<char>|
            name == #[trigger] (before + pattern.subrange(1, n - 1) + after)
    } else if pattern[0] == '*' {
        exists|before: Seq<char>| name == #[trigger] (before + pattern.subrange(1, n))
    } else if pattern[n - 1] == '*' {
        exists|after: Seq<char>| name == #[trigger] (pattern.subrange(0, n - 1) + after)
    } else {
        name == pattern
    }
}

/// A pattern matches just the names that fit it.
pub proof fn patterns_match_what_fits(pattern: Seq<char>, name: Seq<char>)
    ensures
        filter::matches_pattern(pattern, name) <==> fits(pattern, name),
{
    let n = pattern.len() as int;
    let nothing = Seq::<char>::empty();
    if n == 0 {
        assert(pattern =~= nothing);
        if name.len() == 0 {
            assert(name =~= nothing);
        }
    } else if pattern[0] == '*' && n == 1 {
        assert(pattern =~= seq!['*']);
        filter::bare_star_matches_everything(name);
    } else if pattern[0] == '*' && pattern[n - 1] == '*' {
        let part = pattern.subrange(1, n - 1);
        assert(pattern =~= seq!['*'] + part + seq!['*']);
        filter::pattern_forms(part, name);
        occurring_means_standing_between(part, name);
    } else if pattern[0] == '*' {
        let part = pattern.subrange(1, n);
        assert(pattern =~= seq!['*'] + part);
        assert(part.last() == pattern[n - 1]);
        filter::pattern_forms(part, name);
        if part.is_suffix_of(name) {
            assert(name =~= name.take(name.len() - part.len()) + part);
        }
        if fits(pattern, name) {
            let before = choose|before: Seq<char>| name == #[trigger] (before + part);
            assert(part =~= name.subrange(name.len() - part.len(), name.len() as int));
        }
    } else if pattern[n - 1] == '*' {
        let part = pattern.subrange(0, n - 1);
        assert(pattern =~= part + seq!['*']);
        assert(part[0] == pattern[0]);
        filter::pattern_forms(part, name);
        if part.is_prefix_of(name) {
            assert(name =~= part + name.skip(part.len() as int));
        }
        if fits(pattern, name) {
            let after = choose|after: Seq<char>| name == #[trigger] (part + after);
            assert(part =~= name.subrange(0, part.len() as int));
        }
    } else {
        filter::pattern_forms(pattern, name);
    }
}

/// A star is misplaced exactly when it is neither the first nor the last
/// character.
pub proof fn misplaced_stars_are_interior(pattern: Seq<char>)
    ensures
        filter::has_interior_star(pattern) <==> exists|before: Seq<char>, after: Seq<char>|
            before.len() > 0 && after.len() > 0 && pattern == #[trigger] (before + seq!['*']
                + after),
{
    if filter::has_interior_star(pattern) {
        let i = choose|i: int| 0 < i < pattern.len() - 1 && pattern[i] == '*';
        assert(pattern =~= pattern.take(i) + seq!['*'] + pattern.skip(i + 1));
    }
    if exists|before: Seq<char>, after: Seq<char>|
        before.len() > 0 && after.len() > 0 && pattern == #[trigger] (before + seq!['*']
            + after) {
        let (before, after) = choose|before: Seq<char>, after: Seq<char>|
            before.len() > 0 && after.len() > 0 && pattern == #[trigger] (before + seq!['*']
                + after);
        assert(pattern[before.len() as int] == '*');
    }
}

/// Whether an entry of `list` fits `name`.
pub open spec fn some_entry_fits(list: Seq<Seq<char>>, name: Seq<char>) -> bool {
    exists|i: int| 0 <= i < list.len() && fits(#[trigger] list[i], name)
}

/// A list acts on a name exactly when one of its entries fits the name.
pub proof fn lists_act_through_their_entries(list: Seq<Seq<char>>, name: Seq<char>)
    ensures
        filter::any_matches(list, name) <==> some_entry_fits(list, name),
{
    if filter::any_matches(list, name) {
        let i = choose|i: int|
            0 <= i < list.len() && #[trigger] filter::matches_pattern(list[i], name);
        patterns_match_what_fits(list[i], name);
        assert(fits(list[i], name));
    }
    if some_entry_fits(list, name) {
        let i = choose|i: int| 0 <= i < list.len() && fits(#[trigger] list[i], name);
        patterns_match_what_fits(list[i], name);
        assert(filter::matches_pattern(list[i], name));
    }
}

/// A name is permitted exactly when no deny entry fits it and, if there is an
/// allow list, an allow entry does. Why a name is blocked tells which of the two
/// failed, the deny list first.
pub proof fn policies_decide_by_their_entries(policy: Policy, name: Seq<char>)
    ensures
        policy.permits(name) <==> !some_entry_fits(policy.deny, name) && (match policy.allow {
            Some(allow) => some_entry_fits(allow, name),
            None => true,
        }),
        some_entry_fits(policy.deny, name) ==> policy.block_reason(name) == Some("deny list"@),
        !some_entry_fits(policy.deny, name) ==> policy.block_reason(name) == (match policy.allow {
            Some(allow) => if some_entry_fits(allow, name) {
                None
            } else {
                Some("not in allow list"@)
            },
            None => None,
        }),
{
    lists_act_through_their_entries(policy.deny, name);
    if let Some(allow) = policy.allow {
        lists_act_through_their_entries(allow, name);
    }
}

/// An entry without a star acts on its own name and no other: a policy that
/// denies just that entry blocks just that name, and one that allows just that
/// entry permits just that name.
pub proof fn an_exact_entry_acts_on_its_name_alone(entry: Seq<char>, name: Seq<char>)
    requires
        forall|i: int| 0 <= i < entry.len() ==> entry[i] != '*',
    ensures
        (Policy { allow: None, deny: seq![entry] }).permits(name) <==> name != entry,
        (Policy { allow: Some(seq![entry]), deny: Seq::empty() }).permits(name) <==> name == entry,
{
    let one = seq![entry];
    let none = Seq::<Seq<char>>::empty();
    policies_decide_by_their_entries(Policy { allow: None, deny: one }, name);
    policies_decide_by_their_entries(Policy { allow: Some(one), deny: none }, name);
    assert(fits(entry, name) <==> name == entry) by {
        if entry.len() == 0 {
            assert(entry =~= Seq::<char>::empty());
            if name.len() == 0 {
                assert(name =~= entry);
            }
        }
    }
    assert(some_entry_fits(one, name) <==> name == entry) by {
        assert(one[0] == entry);
    }
}

/// One more deny entry blocks just the names that fit it, beyond those that were
/// blocked before.
pub proof fn one_more_deny_entry(policy: Policy, entry: Seq<char>, name: Seq<char>)
    ensures
        (Policy { deny: policy.deny.push(entry), ..policy }).permits(name) <==> policy.permits(name)
            && !fits(entry, name),
{
    let more = policy.deny.push(entry);
    policies_decide_by_their_entries(policy, name);
    policies_decide_by_their_entries(Policy { deny: more, ..policy }, name);
    one_more_entry(policy.deny, entry, name);
}

/// One more allow entry permits just the names that fit it and that are not
/// denied, beyond those that were permitted before.
pub proof fn one_more_allow_entry(
    allow: Seq<Seq<char>>,
    deny: Seq<Seq<char>>,
    entry: Seq<char>,
    name: Seq<char>,
)
    ensures
        (Policy { allow: Some(allow.push(entry)), deny }).permits(name) <==> (Policy {
            allow: Some(allow),
            deny,
        }).permits(name) || fits(entry, name) && !some_entry_fits(deny, name),
{
    policies_decide_by_their_entries(Policy { allow: Some(allow), deny }, name);
    policies_decide_by_their_entries(Policy { allow: Some(allow.push(entry)), deny }, name);
    one_more_entry(allow, entry, name);
}

proof fn one_more_entry(list: Seq<Seq<char>>, entry: Seq<char>, name: Seq<char>)
    ensures
        some_entry_fits(list.push(entry), name) <==> some_entry_fits(list, name) || fits(
            entry,
            name,
        ),
{
    let more = list.push(entry);
    if some_entry_fits(list, name) {
        let i = choose|i: int| 0 <= i < list.len() && fits(#[trigger] list[i], name);
        assert(more[i] == list[i]);
    }
    if fits(entry, name) {
        assert(more[list.len() as int] == entry);
    }
    if some_entry_fits(more, name) {
        let i = choose|i: int| 0 <= i < more.len() && fits(#[trigger] more[i], name);
        if i < list.len() {
            assert(list[i] == more[i]);
        }
    }
}

/// The lists of a filter and a reason as texts lose nothing.
pub proof fn lists_and_reasons_as_texts(list: Option<Vec<String>>, reason: Option<&'static str>)
    ensures
        match list {
            Some(strings) => filter::optional_views(list) == Some(text::views(strings@)),
            None => filter::optional_views(list) is None,
        },
        match reason {
            Some(why) => filter::reason_text(reason) == Some(why@),
            None => filter::reason_text(reason) is None,
        },
{
}

// References to variables.

/// Whether `value` is `${name}` for some name.
pub open spec fn is_reference(value: Seq<char>) -> bool {
    exists|name: Seq<char>| value == #[trigger] ("${"@ + name + "}"@)
}

/// Just the values of the form `${name}` are references, and each is one to the
/// name in it.
pub proof fn references_hold_their_name(value: Seq<char>, name: Seq<char>)
    ensures
        env::env_ref("${"@ + name + "}"@) == Some(name),
        env::env_ref(value) is Some <==> is_reference(value),
        env::reference_to(name) == "${"@ + name + "}"@,
{
    env::reference_round_trip(env::reference_to(name), name);
    if env::env_ref(value) is Some {
        let n = env::env_ref(value)->0;
        env::reference_round_trip(value, n);
        assert(value == "${"@ + n + "}"@);
    }
    if is_reference(value) {
        let n = choose|n: Seq<char>| value == #[trigger] ("${"@ + n + "}"@);
        env::reference_round_trip(value, n);
    }
}

/// A reference to a variable that is set resolves to all of its value, and
/// nothing else: whatever the value holds, it is not resolved again.
pub proof fn set_variables_resolve_to_their_value(
    name: Seq<char>,
    content: Seq<char>,
    vars: Map<Seq<char>, Seq<char>>,
)
    ensures
        env::resolved_value("${"@ + name + "}"@, vars.insert(name, content)) == content,
        name.len() > 0 && name[0] != '{' ==> env::resolved_value(
            "$"@ + name,
            vars.insert(name, content),
        ) == content,
{
    env::both_forms_stand_for_their_variable(name);
    references_hold_their_name(env::reference_to(name), name);
}

/// A reference to a variable that is not set resolves to the empty text.
pub proof fn unset_variables_resolve_to_nothing(
    name: Seq<char>,
    vars: Map<Seq<char>, Seq<char>>,
)
    ensures
        env::resolved_value("${"@ + name + "}"@, vars.remove(name)) == Seq::<char>::empty(),
        name.len() > 0 && name[0] != '{' ==> env::resolved_value("$"@ + name, vars.remove(name))
            == Seq::<char>::empty(),
{
    env::both_forms_stand_for_their_variable(name);
    references_hold_their_name(env::reference_to(name), name);
}

/// A value that refers to no variable resolves to itself: one that is no
/// reference, and that is not a dollar sign before something other than a brace.
pub proof fn other_values_resolve_to_themselves(
    value: Seq<char>,
    vars: Map<Seq<char>, Seq<char>>,
)
    requires
        !is_reference(value),
        value.len() < 2 || value[0] != '$' || value[1] == '{',
    ensures
        env::resolved_value(value, vars) == value,
        env::variable(value) is None,
{
    references_hold_their_name(value, value);
}

/// The variable that a value stands for is the one that it names.
pub proof fn values_stand_for_what_they_name(value: Seq<char>, name: Seq<char>)
    ensures
        env::variable(value) == Some(name) <==> value == "${"@ + name + "}"@ || (value == "$"@ + name
            && name.len() > 0 && name[0] != '{'),
{
    reveal_strlit("$");
    reveal_strlit("${");
    env::both_forms_stand_for_their_variable(name);
    references_hold_their_name(value, name);
    env::reference_round_trip(value, name);
    if env::variable(value) == Some(name) && env::env_ref(value) is None {
        assert(value =~= "$"@ + name);
    }
}

/// The referenced variables are those of the rows, one after the other, each as
/// often as it is referred to.
pub proof fn referenced_variables_row_by_row(
    rows: Seq<(Seq<char>, Seq<char>)>,
    row: (Seq<char>, Seq<char>),
)
    ensures
        env::referenced(Seq::empty()) == Seq::<Seq<char>>::empty(),
        env::referenced(rows.push(row)) == (match env::variable(row.1) {
            Some(name) => env::referenced(rows).push(name),
            None => env::referenced(rows),
        }),
{
    reveal(Seq::filter_map);
    assert(rows.push(row).drop_last() =~= rows);
    assert(rows.push(row).last() == row);
    assert(env::referenced(Seq::empty()) =~= Seq::<Seq<char>>::empty());
    match env::variable(row.1) {
        Some(name) => {
            assert(env::referenced(rows.push(row)) =~= env::referenced(rows).push(name));
        },
        None => {
            assert(env::referenced(rows.push(row)) =~= env::referenced(rows));
        },
    }
}

// Namespaced names.

/// A namespaced name is the slug, two underscores and the tool.
pub proof fn names_are_slug_separator_tool(slug: Seq<char>, tool: Seq<char>)
    ensures
        namespace::separator() == "__"@,
        namespace::namespaced(slug, tool) == slug + "__"@ + tool,
{
    reveal_strlit("__");
    assert(namespace::separator() =~= "__"@);
}

/// Whether two underscores stand in `name` at `at`.
pub open spec fn underscores_at(name: Seq<char>, at: int) -> bool {
    0 <= at < name.len() - 1 && name[at] == '_' && name[at + 1] == '_'
}

/// A name splits at its first two underscores, and only where there are two.
pub proof fn names_split_at_the_first_underscores(name: Seq<char>, at: int)
    ensures
        namespace::unnamespaced(name) is None <==> forall|j: int| !underscores_at(name, j),
        underscores_at(name, at) && (forall|j: int| 0 <= j < at ==> !underscores_at(name, j))
            ==> namespace::unnamespaced(name) == Some(
            (name.subrange(0, at), name.subrange(at + 2, name.len() as int)),
        ),
{
    let sep = namespace::separator();
    assert forall|j: int| #[trigger] underscores_at(name, j) <==> text::stands_at(
        name,
        sep,
        j,
    ) by {
        if underscores_at(name, j) {
            assert(name.subrange(j, j + 2) =~= sep);
        }
        if text::stands_at(name, sep, j) {
            assert(name.subrange(j, j + 2)[0] == '_' && name.subrange(j, j + 2)[1] == '_');
        }
    }
    if namespace::unnamespaced(name) is None {
        assert forall|j: int| !underscores_at(name, j) by {
            if underscores_at(name, j) {
                assert(text::stands_at(name, sep, j));
            }
        }
    } else {
        let j = choose|j: int| text::stands_at(name, sep, j);
        assert(underscores_at(name, j));
    }
    if underscores_at(name, at) && (forall|j: int| 0 <= j < at ==> !underscores_at(name, j)) {
        assert(text::stands_at(name, sep, at));
        assert forall|j: int| 0 <= j < at implies !text::stands_at(name, sep, j) by {
            assert(!underscores_at(name, j));
        }
        assert(namespace::first_separator(name, at));
        let chosen = choose|i: int| namespace::first_separator(name, i);
        assert(namespace::first_separator(name, chosen));
        assert(chosen == at);
        assert(name.take(at) =~= name.subrange(0, at));
        assert(name.skip(at + 2) =~= name.subrange(at + 2, name.len() as int));
    }
}

/// A slug without an underscore is told from every tool: the namespaced name
/// splits back into both.
pub proof fn names_split_back(slug: Seq<char>, tool: Seq<char>)
    requires
        forall|i: int| 0 <= i < slug.len() ==> slug[i] != '_',
    ensures
        namespace::separable(slug),
        namespace::unnamespaced(slug + "__"@ + tool) == Some((slug, tool)),
{
    reveal_strlit("__");
    let name = slug + "__"@ + tool;
    let at = slug.len() as int;
    assert(name[at] == '_' && name[at + 1] == '_');
    assert(underscores_at(name, at));
    assert forall|j: int| 0 <= j < at implies !underscores_at(name, j) by {
        assert(name[j] == slug[j]);
    }
    names_split_at_the_first_underscores(name, at);
    assert(name.subrange(0, at) =~= slug);
    assert(name.subrange(at + 2, name.len() as int) =~= tool);
    if text::occurs_in(namespace::separator(), slug) {
        let k = choose|k: int| text::stands_at(slug, namespace::separator(), k);
        assert(slug.subrange(k, k + 2)[0] == '_');
    }
}

/// A server knows a tool by what follows its own prefix, and every other name as
/// it is.
pub proof fn servers_strip_their_own_prefix(slug: Seq<char>, tool: Seq<char>, name: Seq<char>)
    ensures
        namespace::downstream(slug, slug + "__"@ + tool) == tool,
        (forall|t: Seq<char>| name != #[trigger] (slug + "__"@ + t)) ==> namespace::downstream(
            slug,
            name,
        ) == name,
{
    reveal_strlit("__");
    names_are_slug_separator_tool(slug, tool);
    namespace::downstream_round_trip(slug, tool);
    if forall|t: Seq<char>| name != #[trigger] (slug + "__"@ + t) {
        if namespace::under(slug, name) {
            let prefix = namespace::namespaced(slug, Seq::empty());
            names_are_slug_separator_tool(slug, Seq::empty());
            assert(prefix =~= slug + "__"@);
            let t = name.skip(prefix.len() as int);
            assert(name =~= prefix + t);
            assert(name =~= slug + "__"@ + t);
        }
    }
}

/// A pair of strings as texts loses nothing.
pub proof fn pairs_as_texts(slug: &str, tool: &str)
    ensures
        namespace::pair_text(Some((slug, tool))) == Some((slug@, tool@)),
        namespace::pair_text(None) is None,
{
}

// Validation.

/// Whether `c` may stand in a slug: a hyphen, an ASCII letter or digit, or a
/// character beyond ASCII that is alphanumeric.
pub open spec fn slug_char(c: char) -> bool {
    ||| c == '-'
    ||| '0' <= c <= '9'
    ||| 'A' <= c <= 'Z'
    ||| 'a' <= c <= 'z'
    ||| (c as int) >= 128 && validation::unicode_alphanumeric(c)
}

/// Whether `slug` is not empty and made of slug characters alone.
pub open spec fn fine_slug(slug: Seq<char>) -> bool {
    slug.len() > 0 && forall|i: int| 0 <= i < slug.len() ==> slug_char(#[trigger] slug[i])
}

/// Just the texts that are not empty and made of slug characters are slugs.
pub proof fn slugs_are_letters_digits_and_hyphens(slug: Seq<char>)
    ensures
        validation::valid_slug(slug) <==> fine_slug(slug),
{
    let letters = slug.map_values(|c: char| validation::alphanumeric(c));
    if validation::valid_slug(slug) {
        assert forall|i: int| 0 <= i < slug.len() implies slug_char(#[trigger] slug[i]) by {
            assert(letters[i] == validation::alphanumeric(slug[i]));
        }
    }
    if fine_slug(slug) {
        assert forall|i: int| 0 <= i < slug.len() implies letters[i] || #[trigger] slug[i]
            == '-' by {
            assert(slug_char(slug[i]));
            assert(letters[i] == validation::alphanumeric(slug[i]));
        }
        if text::occurs_in(namespace::separator(), slug) {
            let k = choose|k: int| text::stands_at(slug, namespace::separator(), k);
            assert(slug.subrange(k, k + 2)[0] == '_');
            assert(slug[k] == '_');
            assert(slug_char(slug[k]));
        }
    }
}

/// The slug rule asks for a character, forbids two underscores in a row, and
/// asks of every other character than a hyphen that it is a letter or digit.
pub proof fn the_slug_rule(slug: Seq<char>, letters: Seq<bool>)
    requires
        letters.len() == slug.len(),
    ensures
        validation::keeps_slug_rule(slug, letters) <==> slug.len() > 0 && (forall|j: int|
            !underscores_at(slug, j)) && (forall|i: int|
            0 <= i < slug.len() ==> letters[i] || #[trigger] slug[i] == '-'),
{
    names_split_at_the_first_underscores(slug, 0);
}

/// Of ASCII just the letters and digits are alphanumeric; beyond it the answer of
/// the standard library counts.
pub proof fn alphanumeric_characters(c: char)
    ensures
        validation::alphanumeric(c) <==> ('0' <= c <= '9' || 'A' <= c <= 'Z' || 'a' <= c <= 'z' || (
        c as int) >= 128 && validation::unicode_alphanumeric(c)),
{
}

/// The texts of a list of strings.
pub open spec fn texts_of(list: Seq<String>) -> Seq<Seq<char>> {
    Seq::new(list.len(), |i: int| list[i]@)
}

/// The entries of the allow list of a server, none if it has no such list.
pub open spec fn allowed_entries(server: ServerConfig) -> Seq<Seq<char>> {
    match server.allow {
        Some(list) => texts_of(list@),
        None => Seq::empty(),
    }
}

/// Whether `entry` is not empty and has no star but at its ends.
pub open spec fn fine_entry(entry: Seq<char>) -> bool {
    entry.len() > 0 && forall|j: int| 0 < j < entry.len() - 1 ==> entry[j] != '*'
}

/// Whether a server has just the fields that its transport needs.
pub open spec fn fine_transport(server: ServerConfig) -> bool {
    match server.transport {
        TransportKind::Stdio => server.command is Some && server.url is None,
        TransportKind::Http => server.url is Some && server.command is None,
    }
}

/// Whether every env value of a server is a reference.
pub open spec fn fine_env(server: ServerConfig) -> bool {
    forall|i: int|
        0 <= i < server.env.rows().len() ==> is_reference((#[trigger] server.env.rows()[i]).1@)
}

/// Whether every entry of `entries` is fine.
pub open spec fn fine_entries(entries: Seq<Seq<char>>) -> bool {
    forall|i: int| 0 <= i < entries.len() ==> fine_entry(#[trigger] entries[i])
}

/// Whether a server, if it is enabled, is fine in all that is checked beyond its
/// slug.
pub open spec fn fine_server(server: ServerConfig) -> bool {
    server.enabled ==> {
        &&& fine_transport(server)
        &&& fine_env(server)
        &&& fine_entries(allowed_entries(server))
        &&& fine_entries(texts_of(server.deny@))
    }
}

/// What validation reads of a server is what its fields hold.
pub proof fn servers_as_read(server: ServerConfig)
    ensures
        server@.slug == server.slug@,
        server@.enabled == server.enabled,
        server@.transport == server.transport,
        server@.has_command <==> server.command is Some,
        server@.has_url <==> server.url is Some,
        server@.env == env::text_map(server.env),
        server@.policy.deny == texts_of(server.deny@),
        server@.policy.allow == (match server.allow {
            Some(list) => Some(texts_of(list@)),
            None => None,
        }),
        config::allow_entries(server@.policy) == allowed_entries(server),
{
    assert(text::views(server.deny@) =~= texts_of(server.deny@));
    if let Some(list) = server.allow {
        assert(text::views(list@) =~= texts_of(list@));
    }
}

/// The first fault is the one before which there is none.
pub proof fn the_first_fault_is_reported(faults: Seq<Option<Fault>>, i: int)
    requires
        0 <= i < faults.len(),
        faults[i] is Some,
        forall|j: int| 0 <= j < i ==> faults[j] is None,
    ensures
        validation::first_fault(faults) == faults[i],
    decreases faults.len(),
{
    let earlier = faults.drop_last();
    if i < earlier.len() {
        the_first_fault_is_reported(earlier, i);
    } else {
        validation::no_fault_means_none_found(earlier);
    }
}

proof fn entry_is_fine(slug: Seq<char>, entry: Seq<char>)
    ensures
        validation::entry_fault(slug, entry) is None <==> fine_entry(entry),
        entry.len() == 0 ==> validation::entry_fault(slug, entry) == Some(
            Fault::InvalidConfig(slug, "allow/deny entries must be non-empty tool names"@),
        ),
        entry.len() > 0 && !fine_entry(entry) ==> validation::entry_fault(slug, entry) == Some(
            Fault::InvalidConfig(
                slug,
                "allow/deny entry '"@ + entry
                    + "' has a '*' in an unsupported position — wildcards are only allowed as a single leading and/or trailing character (e.g. 'get_*', '*_issue', '*delete*')"@,
            ),
        ),
{
}

/// All that is found of a server, check by check.
proof fn checks_of_a_server(server: ServerConfig) -> (faults: Seq<Option<Fault>>)
    requires
        server.enabled,
    ensures
        validation::server_fault(server) == validation::first_fault(faults),
        faults.len() == 1 + server.env.rows().len() + allowed_entries(server).len()
            + server.deny@.len(),
        faults[0] == validation::transport_fault(server@),
        forall|i: int|
            0 <= i < server.env.rows().len() ==> faults[1 + i] == #[trigger] validation::env_fault(
                server.slug@,
                server.env.rows()[i].0,
                server.env.rows()[i].1@,
            ),
        forall|i: int|
            0 <= i < allowed_entries(server).len() ==> faults[1 + server.env.rows().len() + i]
                == validation::entry_fault(server.slug@, #[trigger] allowed_entries(server)[i]),
        forall|i: int|
            0 <= i < server.deny@.len() ==> faults[1 + server.env.rows().len() + allowed_entries(
                server,
            ).len() + i] == validation::entry_fault(
                server.slug@,
                #[trigger] texts_of(server.deny@)[i],
            ),
{
    servers_as_read(server);
    let transport = seq![validation::transport_fault(server@)];
    let envs = validation::env_faults(server);
    let entries = validation::entry_faults(server.slug@, server@.policy);
    let faults = transport + envs + entries;
    let both = allowed_entries(server) + texts_of(server.deny@);
    assert forall|i: int| 0 <= i < server.env.rows().len() implies faults[1 + i]
        == #[trigger] validation::env_fault(
        server.slug@,
        server.env.rows()[i].0,
        server.env.rows()[i].1@,
    ) by {
        assert(faults[1 + i] == envs[i]);
    }
    assert forall|i: int| 0 <= i < allowed_entries(server).len() implies faults[1
        + server.env.rows().len() + i] == validation::entry_fault(
        server.slug@,
        #[trigger] allowed_entries(server)[i],
    ) by {
        assert(faults[1 + server.env.rows().len() + i] == entries[i]);
        assert(both[i] == allowed_entries(server)[i]);
    }
    assert forall|i: int| 0 <= i < server.deny@.len() implies faults[1 + server.env.rows().len()
        + allowed_entries(server).len() + i] == validation::entry_fault(
        server.slug@,
        #[trigger] texts_of(server.deny@)[i],
    ) by {
        let k = allowed_entries(server).len() + i;
        assert(faults[1 + server.env.rows().len() + k] == entries[k]);
        assert(both[k] == texts_of(server.deny@)[i]);
    }
    faults
}

/// A server passes exactly when it is fine.
pub proof fn fine_servers_pass(server: ServerConfig)
    ensures
        validation::server_fault(server) is None <==> fine_server(server),
{
    if server.enabled {
        let faults = checks_of_a_server(server);
        let rows = server.env.rows();
        let allow = allowed_entries(server);
        let deny = texts_of(server.deny@);
        validation::no_fault_means_none_found(faults);
        servers_as_read(server);
        if validation::server_fault(server) is None {
            assert(faults[0] is None);
            assert forall|i: int| 0 <= i < rows.len() implies is_reference(
                (#[trigger] rows[i]).1@,
            ) by {
                let found = validation::env_fault(server.slug@, rows[i].0, rows[i].1@);
                assert(faults[1 + i] is None);
                references_hold_their_name(rows[i].1@, rows[i].0);
            }
            assert forall|i: int| 0 <= i < allow.len() implies fine_entry(#[trigger] allow[i]) by {
                assert(faults[1 + rows.len() + i] is None);
                entry_is_fine(server.slug@, allow[i]);
            }
            assert forall|i: int| 0 <= i < deny.len() implies fine_entry(#[trigger] deny[i]) by {
                assert(faults[1 + rows.len() + allow.len() + i] is None);
                entry_is_fine(server.slug@, deny[i]);
            }
        }
        if fine_server(server) {
            assert forall|k: int| 0 <= k < faults.len() implies #[trigger] faults[k] is None by {
                if k == 0 {
                } else if k < 1 + rows.len() {
                    let i = k - 1;
                    let found = validation::env_fault(server.slug@, rows[i].0, rows[i].1@);
                    assert(faults[1 + i] == found);
                    references_hold_their_name(rows[i].1@, rows[i].0);
                } else if k < 1 + rows.len() + allow.len() {
                    let i = k - 1 - rows.len();
                    assert(faults[1 + rows.len() + i] == validation::entry_fault(
                        server.slug@,
                        allow[i],
                    ));
                    entry_is_fine(server.slug@, allow[i]);
                } else {
                    let i = k - 1 - rows.len() - allow.len();
                    assert(faults[1 + rows.len() + allow.len() + i] == validation::entry_fault(
                        server.slug@,
                        deny[i],
                    ));
                    entry_is_fine(server.slug@, deny[i]);
                }
            }
        }
    }
}

/// The fields that the transport asks for or rules out are checked first, the
/// missing one before the misplaced one.
pub proof fn transport_fields_are_checked_first(server: ServerConfig)
    requires
        server.enabled,
    ensures
        server.transport == TransportKind::Stdio && server.command is None
            ==> validation::server_fault(server) == Some(
            Fault::InvalidConfig(server.slug@, "STDIO transport requires 'command' field"@),
        ),
        server.transport == TransportKind::Stdio && server.command is Some && server.url is Some
            ==> validation::server_fault(server) == Some(
            Fault::InvalidConfig(server.slug@, "STDIO transport should not have 'url' field"@),
        ),
        server.transport == TransportKind::Http && server.url is None
            ==> validation::server_fault(server) == Some(
            Fault::InvalidConfig(server.slug@, "HTTP transport requires 'url' field"@),
        ),
        server.transport == TransportKind::Http && server.url is Some && server.command is Some
            ==> validation::server_fault(server) == Some(
            Fault::InvalidConfig(server.slug@, "HTTP transport should not have 'command' field"@),
        ),
{
    let faults = checks_of_a_server(server);
    servers_as_read(server);
    if faults[0] is Some {
        the_first_fault_is_reported(faults, 0);
    }
}

/// Once the transport is fine, the first env value that is no reference is
/// reported, with its key and the value in full.
pub proof fn env_values_are_checked_next(server: ServerConfig, i: int)
    requires
        server.enabled,
        fine_transport(server),
        0 <= i < server.env.rows().len(),
        !is_reference(server.env.rows()[i].1@),
        forall|j: int| 0 <= j < i ==> is_reference((#[trigger] server.env.rows()[j]).1@),
    ensures
        validation::server_fault(server) == Some(
            Fault::InvalidConfig(
                server.slug@,
                "env value for key '"@ + server.env.rows()[i].0
                    + "' must be a ${VAR} reference, got '"@ + server.env.rows()[i].1@ + "'"@,
            ),
        ),
{
    let faults = checks_of_a_server(server);
    let rows = server.env.rows();
    servers_as_read(server);
    assert forall|k: int| 0 <= k < 1 + i implies faults[k] is None by {
        if k > 0 {
            let j = k - 1;
            let found = validation::env_fault(server.slug@, rows[j].0, rows[j].1@);
            assert(faults[1 + j] == found);
            references_hold_their_name(rows[j].1@, rows[j].0);
        }
    }
    let found = validation::env_fault(server.slug@, rows[i].0, rows[i].1@);
    assert(faults[1 + i] == found);
    references_hold_their_name(rows[i].1@, rows[i].0);
    the_first_fault_is_reported(faults, 1 + i);
}

/// What is reported of an entry that is not fine.
pub open spec fn complaint(entry: Seq<char>) -> Seq<char> {
    if entry.len() == 0 {
        "allow/deny entries must be non-empty tool names"@
    } else {
        "allow/deny entry '"@ + entry
            + "' has a '*' in an unsupported position — wildcards are only allowed as a single leading and/or trailing character (e.g. 'get_*', '*_issue', '*delete*')"@
    }
}

/// Once transport and env are fine, the first entry that is not is reported,
/// those of the allow list before those of the deny list.
pub proof fn entries_are_checked_last(server: ServerConfig, i: int)
    requires
        server.enabled,
        fine_transport(server),
        fine_env(server),
        0 <= i < allowed_entries(server).len() + server.deny@.len(),
        !fine_entry((allowed_entries(server) + texts_of(server.deny@))[i]),
        forall|j: int|
            0 <= j < i ==> fine_entry(
                #[trigger] (allowed_entries(server) + texts_of(server.deny@))[j],
            ),
    ensures
        validation::server_fault(server) == Some(
            Fault::InvalidConfig(
                server.slug@,
                complaint((allowed_entries(server) + texts_of(server.deny@))[i]),
            ),
        ),
{
    let faults = checks_of_a_server(server);
    let rows = server.env.rows();
    let allow = allowed_entries(server);
    let deny = texts_of(server.deny@);
    let both = allow + deny;
    servers_as_read(server);
    assert forall|j: int| 0 <= j < both.len() implies faults[1 + rows.len() + j]
        == validation::entry_fault(server.slug@, #[trigger] both[j]) by {
        if j < allow.len() {
            assert(both[j] == allow[j]);
        } else {
            let d = j - allow.len();
            assert(both[j] == deny[d]);
            assert(faults[1 + rows.len() + allow.len() + d] == validation::entry_fault(
                server.slug@,
                deny[d],
            ));
        }
    }
    assert forall|k: int| 0 <= k < 1 + rows.len() + i implies faults[k] is None by {
        if k == 0 {
        } else if k < 1 + rows.len() {
            let j = k - 1;
            let found = validation::env_fault(server.slug@, rows[j].0, rows[j].1@);
            assert(faults[1 + j] == found);
            references_hold_their_name(rows[j].1@, rows[j].0);
        } else {
            let j = k - 1 - rows.len();
            assert(fine_entry(both[j]));
            entry_is_fine(server.slug@, both[j]);
            assert(faults[1 + rows.len() + j] is None);
        }
    }
    entry_is_fine(server.slug@, both[i]);
    the_first_fault_is_reported(faults, 1 + rows.len() + i);
}

/// Whether the slug of row `i` is fine and none of an earlier row.
pub open spec fn fresh_slug(rows: Seq<(Seq<char>, ServerConfig)>, i: int) -> bool {
    &&& fine_slug(rows[i].1.slug@)
    &&& forall|j: int| 0 <= j < i ==> (#[trigger] rows[j]).1.slug@ != rows[i].1.slug@
}

proof fn slug_is_fresh(rows: Seq<(Seq<char>, ServerConfig)>, i: int)
    ensures
        validation::slug_fault(rows, i) is None <==> fresh_slug(rows, i),
        !fine_slug(rows[i].1.slug@) ==> validation::slug_fault(rows, i) == Some(
            Fault::InvalidConfig(
                rows[i].1.slug@,
                "slug must be non-empty alphanumeric with hyphens, no double underscores"@,
            ),
        ),
        fine_slug(rows[i].1.slug@) && !fresh_slug(rows, i) ==> validation::slug_fault(rows, i)
            == Some(Fault::DuplicateSlug(rows[i].1.slug@)),
{
    slugs_are_letters_digits_and_hyphens(rows[i].1.slug@);
    if exists|j: int| 0 <= j < i && #[trigger] rows[j].1.slug@ == rows[i].1.slug@ {
        let j = choose|j: int| 0 <= j < i && #[trigger] rows[j].1.slug@ == rows[i].1.slug@;
        assert(rows[j].1.slug@ == rows[i].1.slug@);
    }
}

/// A configuration passes exactly when every slug is fine and a server's own,
/// and every server is fine.
pub proof fn fine_configurations_pass(rows: Seq<(Seq<char>, ServerConfig)>)
    ensures
        validation::first_fault(validation::config_faults(rows)) is None <==> {
            &&& forall|i: int| 0 <= i < rows.len() ==> fine_slug((#[trigger] rows[i]).1.slug@)
            &&& forall|i: int, j: int|
                0 <= i < j < rows.len() ==> (#[trigger] rows[i]).1.slug@ != (
                #[trigger] rows[j]).1.slug@
            &&& forall|i: int| 0 <= i < rows.len() ==> fine_server((#[trigger] rows[i]).1)
        },
{
    let faults = validation::config_faults(rows);
    let n = rows.len() as int;
    validation::no_fault_means_none_found(faults);
    assert forall|i: int| 0 <= i < n implies (faults[i] is None <==> fresh_slug(rows, i)) && (
    faults[n + i] is None <==> fine_server((#[trigger] rows[i]).1)) by {
        assert(faults[i] == validation::slug_fault(rows, i));
        assert(faults[n + i] == validation::server_fault(rows[i].1));
        slug_is_fresh(rows, i);
        fine_servers_pass(rows[i].1);
    }
    if validation::first_fault(faults) is None {
        assert forall|i: int| 0 <= i < n implies fine_slug((#[trigger] rows[i]).1.slug@)
            && fine_server(rows[i].1) by {
            assert(faults[i] is None && faults[n + i] is None);
        }
        assert forall|i: int, j: int| 0 <= i < j < n implies (#[trigger] rows[i]).1.slug@ != (
        #[trigger] rows[j]).1.slug@ by {
            assert(faults[j] is None);
            assert(fresh_slug(rows, j));
        }
    } else {
        let k = choose|k: int| 0 <= k < faults.len() && #[trigger] faults[k] is Some;
        if k < n {
            assert(!fresh_slug(rows, k)) by {
                assert(rows[k] == rows[k]);
            }
            if fine_slug(rows[k].1.slug@) {
                let j = choose|j: int|
                    0 <= j < k && (#[trigger] rows[j]).1.slug@ == rows[k].1.slug@;
                assert(rows[j].1.slug@ == rows[k].1.slug@);
            }
        } else {
            let i = k - n;
            assert(faults[n + i] is Some);
            assert(!fine_server(rows[i].1));
        }
    }
}

/// All slugs are checked before any server is: the first slug that is not fine,
/// or that an earlier server has, is reported.
pub proof fn slugs_are_checked_first(rows: Seq<(Seq<char>, ServerConfig)>, i: int)
    requires
        0 <= i < rows.len(),
        !fresh_slug(rows, i),
        forall|j: int| 0 <= j < i ==> #[trigger] fresh_slug(rows, j),
    ensures
        validation::first_fault(validation::config_faults(rows)) == Some(
            if fine_slug(rows[i].1.slug@) {
                Fault::DuplicateSlug(rows[i].1.slug@)
            } else {
                Fault::InvalidConfig(
                    rows[i].1.slug@,
                    "slug must be non-empty alphanumeric with hyphens, no double underscores"@,
                )
            },
        ),
{
    let faults = validation::config_faults(rows);
    assert forall|j: int| 0 <= j < i implies faults[j] is None by {
        assert(fresh_slug(rows, j));
        assert(faults[j] == validation::slug_fault(rows, j));
        slug_is_fresh(rows, j);
    }
    assert(faults[i] == validation::slug_fault(rows, i));
    slug_is_fresh(rows, i);
    the_first_fault_is_reported(faults, i);
}

/// Once all slugs are fine, the first server that is not is reported, with its
/// first fault.
pub proof fn servers_are_checked_in_order(rows: Seq<(Seq<char>, ServerConfig)>, i: int)
    requires
        forall|j: int| 0 <= j < rows.len() ==> #[trigger] fresh_slug(rows, j),
        0 <= i < rows.len(),
        !fine_server(rows[i].1),
        forall|j: int| 0 <= j < i ==> fine_server((#[trigger] rows[j]).1),
    ensures
        validation::first_fault(validation::config_faults(rows)) == validation::server_fault(
            rows[i].1,
        ),
        validation::server_fault(rows[i].1) is Some,
{
    let faults = validation::config_faults(rows);
    let n = rows.len() as int;
    assert forall|k: int| 0 <= k < n + i implies faults[k] is None by {
        if k < n {
            assert(fresh_slug(rows, k));
            assert(faults[k] == validation::slug_fault(rows, k));
            slug_is_fresh(rows, k);
        } else {
            let j = k - n;
            assert(fine_server(rows[j].1));
            assert(faults[n + j] == validation::server_fault(rows[j].1));
            fine_servers_pass(rows[j].1);
        }
    }
    assert(faults[n + i] == validation::server_fault(rows[i].1));
    fine_servers_pass(rows[i].1);
    the_first_fault_is_reported(faults, n + i);
}

/// What the order-free verdict says of a configuration is what the checks say.
pub proof fn the_verdict_is_that_of_the_checks(config: PorterConfig)
    requires
        validation::well_formed(config),
    ensures
        validation::valid_servers(config.server_models()) <==> validation::first_fault(
            validation::config_faults(config.servers.rows()),
        ) is None,
        forall|i: int|
            0 <= i < config.servers.rows().len() ==> (validation::valid_server(
                (#[trigger] config.servers.rows()[i]).1@,
            ) <==> fine_server(config.servers.rows()[i].1)),
{
    validation::valid_servers_have_no_fault(config);
    assert forall|i: int| 0 <= i < config.servers.rows().len() implies (validation::valid_server(
        (#[trigger] config.servers.rows()[i]).1@,
    ) <==> fine_server(config.servers.rows()[i].1)) by {
        validation::valid_server_has_no_fault(config.servers.rows()[i].1);
        fine_servers_pass(config.servers.rows()[i].1);
    }
}

// Servers.

/// What a list of tools looks like in contracts: the same tools in the same
/// order, each with its name and its definition in full.
pub proof fn tools_as_texts(tools: Seq<Tool>)
    ensures
        server::tool_views(tools).len() == tools.len(),
        forall|i: int|
            0 <= i < tools.len() ==> (#[trigger] server::tool_views(tools)[i]).name
                == tools[i].name@ && server::tool_views(tools)[i].definition
                == tools[i].definition@,
{
}

/// A server is known by the slug of its configuration, and its policy is made of
/// the lists there.
pub proof fn servers_go_by_their_configuration(handle: HandleModel)
    ensures
        handle.slug() == handle.config.slug@,
        handle.policy().deny == texts_of(handle.config.deny@),
        handle.policy().allow == (match handle.config.allow {
            Some(list) => Some(texts_of(list@)),
            None => None,
        }),
{
    servers_as_read(handle.config);
}

/// A server that was just spawned is starting, has announced no tool, and has
/// the configuration that it was spawned from.
pub proof fn spawned_servers_are_starting(server: ServerConfig)
    ensures
        server::just_spawned(server).config == server,
        server::just_spawned(server).health == HealthState::Starting,
        server::just_spawned(server).tools.len() == 0,
{
}

/// After a report on its health a server has the reported health, whatever it
/// had before, and all else is as it was.
pub proof fn the_last_reported_health_counts(handle: HandleModel, health: HealthState)
    ensures
        handle.after(Report::Health(health)).health == health,
        handle.after(Report::Health(health)).tools == handle.tools,
        handle.after(Report::Health(health)).config == handle.config,
{
}

/// After a report on its tools a server has just the reported tools, whatever it
/// had before, and all else is as it was.
pub proof fn the_last_reported_tools_count(handle: HandleModel, tools: Vec<Tool>)
    ensures
        handle.after(Report::Tools(tools)).tools == server::tool_views(tools@),
        handle.after(Report::Tools(tools)).health == handle.health,
        handle.after(Report::Tools(tools)).config == handle.config,
{
}

/// A later report makes an earlier one of its kind as if it had not been, and
/// reports of different kinds do not touch each other.
pub proof fn later_reports_replace_earlier_ones(
    handle: HandleModel,
    earlier: HealthState,
    later: HealthState,
    first: Vec<Tool>,
    second: Vec<Tool>,
)
    ensures
        handle.after(Report::Health(earlier)).after(Report::Health(later)) == handle.after(
            Report::Health(later),
        ),
        handle.after(Report::Tools(first)).after(Report::Tools(second)) == handle.after(
            Report::Tools(second),
        ),
        handle.after(Report::Health(later)).after(Report::Tools(second)) == handle.after(
            Report::Tools(second),
        ).after(Report::Health(later)),
{
}

/// Whether the lists of a server permit the tool that it knows as `tool`.
pub open spec fn lists_permit(server: ServerConfig, tool: Seq<char>) -> bool {
    &&& !some_entry_fits(texts_of(server.deny@), tool)
    &&& server.allow matches Some(list) ==> some_entry_fits(texts_of(list@), tool)
}

/// What `name` is to the server `slug`: what follows its prefix, if it has that.
pub open spec fn own_name(slug: Seq<char>, name: Seq<char>) -> Seq<char> {
    if exists|tool: Seq<char>| name == #[trigger] (slug + "__"@ + tool) {
        choose|tool: Seq<char>| name == #[trigger] (slug + "__"@ + tool)
    } else {
        name
    }
}

proof fn own_name_is_downstream(slug: Seq<char>, name: Seq<char>)
    ensures
        own_name(slug, name) == namespace::downstream(slug, name),
{
    servers_strip_their_own_prefix(slug, own_name(slug, name), name);
}

/// A tool is blocked by the lists of its server, under its own name and under
/// its namespaced one, and the reason tells by which.
pub proof fn servers_block_by_their_lists(handle: HandleModel, tool: Seq<char>, name: Seq<char>)
    ensures
        handle.block_reason(name) is None <==> lists_permit(
            handle.config,
            own_name(handle.config.slug@, name),
        ),
        handle.block_reason(name) == Some("deny list"@) <==> some_entry_fits(
            texts_of(handle.config.deny@),
            own_name(handle.config.slug@, name),
        ),
        handle.block_reason(name) == Some("not in allow list"@) <==> !some_entry_fits(
            texts_of(handle.config.deny@),
            own_name(handle.config.slug@, name),
        ) && !lists_permit(handle.config, own_name(handle.config.slug@, name)),
        handle.block_reason(handle.config.slug@ + "__"@ + tool) is None <==> lists_permit(
            handle.config,
            tool,
        ),
{
    let slug = handle.config.slug@;
    servers_go_by_their_configuration(handle);
    own_name_is_downstream(slug, name);
    servers_strip_their_own_prefix(slug, tool, name);
    policies_decide_by_their_entries(handle.policy(), own_name(slug, name));
    policies_decide_by_their_entries(handle.policy(), tool);
    reveal_strlit("deny list");
    reveal_strlit("not in allow list");
    assert("deny list"@.len() != "not in allow list"@.len());
}

/// The tools that a server shows are its cached tools in their order, without
/// those that its lists block, and with all others, each as often as it is
/// cached.
pub proof fn servers_show_every_permitted_tool(handle: HandleModel, tool: ToolModel)
    ensures
        (HandleModel { tools: Seq::empty(), ..handle }).visible_tools()
            == Seq::<ToolModel>::empty(),
        (HandleModel { tools: handle.tools.push(tool), ..handle }).visible_tools() == (
        if lists_permit(handle.config, own_name(handle.config.slug@, tool.name)) {
            handle.visible_tools().push(tool)
        } else {
            handle.visible_tools()
        }),
{
    let none = HandleModel { tools: Seq::empty(), ..handle };
    let more = HandleModel { tools: handle.tools.push(tool), ..handle };
    let shown = |t: ToolModel| handle.exposes(t);
    reveal(Seq::filter);
    assert(none.visible_tools() =~= Seq::<ToolModel>::empty());
    assert(shown =~= |t: ToolModel| more.exposes(t)) by {
        assert forall|t: ToolModel| handle.exposes(t) == more.exposes(t) by {
        }
    }
    assert(more.tools.drop_last() =~= handle.tools);
    assert(more.tools.last() == tool);
    servers_block_by_their_lists(handle, tool.name, tool.name);
    filter::permitted_means_no_reason(
        handle.policy(),
        namespace::downstream(handle.slug(), tool.name),
    );
}

/// A name that is under no namespace is judged as it is.
pub proof fn plain_names_are_judged_as_they_are(handle: HandleModel, name: Seq<char>)
    requires
        forall|j: int| !underscores_at(name, j),
    ensures
        handle.block_reason(name) is None <==> lists_permit(handle.config, name),
{
    reveal_strlit("__");
    let slug = handle.config.slug@;
    assert forall|t: Seq<char>| name != #[trigger] (slug + "__"@ + t) by {
        let other = slug + "__"@ + t;
        assert(other[slug.len() as int] == '_' && other[slug.len() + 1int] == '_');
        assert(underscores_at(other, slug.len() as int));
    }
    servers_block_by_their_lists(handle, name, name);
}

// The registry.

/// The registry holds the servers of a walk, each under its slug.
pub proof fn registries_hold_servers_by_slug(walk: Seq<HandleModel>, slug: Seq<char>)
    ensures
        registry::slugs_distinct(walk) <==> forall|i: int, j: int|
            0 <= i < j < walk.len() ==> (#[trigger] walk[i]).config.slug@ != (
            #[trigger] walk[j]).config.slug@,
        table::as_map(registry::slug_rows(walk)).contains_key(slug) <==> exists|i: int|
            0 <= i < walk.len() && (#[trigger] walk[i]).config.slug@ == slug,
        registry::slugs_distinct(walk) ==> forall|i: int|
            0 <= i < walk.len() && (#[trigger] walk[i]).config.slug@ == slug ==> table::as_map(
                registry::slug_rows(walk),
            )[slug] == walk[i],
{
    let models = registry::slug_rows(walk);
    assert forall|i: int| 0 <= i < walk.len() implies #[trigger] models[i] == (
        walk[i].config.slug@,
        walk[i],
    ) by {
    }
    rows_spell_out_a_map(models, slug);
    if registry::slugs_distinct(walk) {
        assert forall|i: int, j: int| 0 <= i < j < walk.len() implies (
        #[trigger] walk[i]).config.slug@ != (#[trigger] walk[j]).config.slug@ by {
            assert(models[i].0 != models[j].0);
        }
        assert forall|i: int| 0 <= i < walk.len() && (#[trigger] walk[i]).config.slug@
            == slug implies table::as_map(models)[slug] == walk[i] by {
            assert(models[i].0 == slug);
        }
    }
    if forall|i: int, j: int|
        0 <= i < j < walk.len() ==> (#[trigger] walk[i]).config.slug@ != (
        #[trigger] walk[j]).config.slug@ {
        assert forall|i: int, j: int|
            0 <= i < models.len() && 0 <= j < models.len() && i != j implies (
        #[trigger] models[i]).0 != (#[trigger] models[j]).0 by {
            if i < j {
                assert(walk[i].config.slug@ != walk[j].config.slug@);
            } else {
                assert(walk[j].config.slug@ != walk[i].config.slug@);
            }
        }
    }
    if table::as_map(models).contains_key(slug) {
        let i = choose|i: int| 0 <= i < models.len() && (#[trigger] models[i]).0 == slug;
        assert(walk[i].config.slug@ == slug);
    }
    if exists|i: int| 0 <= i < walk.len() && (#[trigger] walk[i]).config.slug@ == slug {
        let i = choose|i: int| 0 <= i < walk.len() && (#[trigger] walk[i]).config.slug@ == slug;
        assert(models[i].0 == slug);
    }
}

/// What contracts say of a registry is said of the servers that it holds.
pub proof fn registries_as_maps(r: PorterRegistry, slug: Seq<char>)
    ensures
        r@.contains_key(slug) <==> exists|i: int|
            0 <= i < r.walk().len() && (#[trigger] r.walk()[i]).config.slug@ == slug,
{
    registries_hold_servers_by_slug(r.walk(), slug);
}

/// The servers are spawned in the order of the configuration: each that is
/// enabled, starting and without tools, and none that is disabled.
pub proof fn enabled_servers_are_spawned_in_order(
    rows: Seq<(Seq<char>, ServerConfig)>,
    row: (Seq<char>, ServerConfig),
)
    ensures
        registry::spawned(Seq::empty()) == Seq::<HandleModel>::empty(),
        registry::spawned(rows.push(row)) == (if row.1.enabled {
            registry::spawned(rows).push(
                HandleModel { config: row.1, health: HealthState::Starting, tools: Seq::empty() },
            )
        } else {
            registry::spawned(rows)
        }),
{
    reveal(Seq::filter);
    assert(registry::spawned(Seq::empty()) =~= Seq::<HandleModel>::empty());
    assert(rows.push(row).drop_last() =~= rows);
    assert(rows.push(row).last() == row);
    let started = HandleModel { config: row.1, health: HealthState::Starting, tools: Seq::empty() };
    if row.1.enabled {
        assert(registry::spawned(rows.push(row)) =~= registry::spawned(rows).push(started));
    } else {
        assert(registry::spawned(rows.push(row)) =~= registry::spawned(rows));
    }
}

/// A server that is unhealthy contributes nothing, and any other exactly the
/// tools that it shows.
pub proof fn healthy_enough_servers_contribute_all_they_show(handle: HandleModel)
    ensures
        handle.health == HealthState::Unhealthy ==> registry::contributed(handle).len() == 0,
        handle.health != HealthState::Unhealthy ==> registry::contributed(handle)
            == handle.tools.filter(
            |tool: ToolModel|
                lists_permit(handle.config, own_name(handle.config.slug@, tool.name)),
        ),
{
    let permitted = |tool: ToolModel|
        lists_permit(handle.config, own_name(handle.config.slug@, tool.name));
    let shown = |tool: ToolModel| handle.exposes(tool);
    assert forall|tool: ToolModel| #[trigger] shown(tool) == permitted(tool) by {
        servers_block_by_their_lists(handle, tool.name, tool.name);
        filter::permitted_means_no_reason(
            handle.policy(),
            namespace::downstream(handle.slug(), tool.name),
        );
    }
    assert(shown =~= permitted);
}

/// The list of all tools is what the servers contribute, one server after the
/// other and nothing left out.
pub proof fn the_list_grows_by_what_each_server_shows(walk: Seq<HandleModel>, handle: HandleModel)
    ensures
        registry::aggregated(Seq::empty()) == Seq::<ToolModel>::empty(),
        registry::aggregated(walk.push(handle)) == registry::aggregated(walk) + (if handle.health
            == HealthState::Unhealthy {
            Seq::empty()
        } else {
            handle.tools.filter(
                |tool: ToolModel|
                    lists_permit(handle.config, own_name(handle.config.slug@, tool.name)),
            )
        }),
{
    let of_handle = |h: HandleModel| registry::contributed(h);
    let parts = walk.map_values(of_handle);
    let more = walk.push(handle).map_values(of_handle);
    healthy_enough_servers_contribute_all_they_show(handle);
    assert(registry::aggregated(Seq::empty()) =~= Seq::<ToolModel>::empty());
    assert(more.drop_last() =~= parts);
    assert(more.last() == registry::contributed(handle));
    more.lemma_flatten_and_flatten_alt_are_equivalent();
    parts.lemma_flatten_and_flatten_alt_are_equivalent();
    if handle.health == HealthState::Unhealthy {
        assert(registry::contributed(handle) =~= Seq::<ToolModel>::empty());
    }
}

/// Every cached tool of every server that is not unhealthy is listed, unless the
/// lists of the server block it.
pub proof fn every_permitted_tool_is_listed(walk: Seq<HandleModel>, i: int, k: int)
    requires
        0 <= i < walk.len(),
        walk[i].health != HealthState::Unhealthy,
        0 <= k < walk[i].tools.len(),
        lists_permit(
            walk[i].config,
            own_name(walk[i].config.slug@, walk[i].tools[k].name),
        ),
    ensures
        registry::aggregated(walk).contains(walk[i].tools[k]),
{
    let handle = walk[i];
    let tool = handle.tools[k];
    let permitted = |tool: ToolModel|
        lists_permit(handle.config, own_name(handle.config.slug@, tool.name));
    healthy_enough_servers_contribute_all_they_show(handle);
    handle.tools.lemma_filter_contains(permitted, k);
    assert(registry::contributed(walk[i]).contains(tool));
    registry::aggregated_is_what_servers_contribute(walk, tool);
}

/// No tool is listed but a cached and permitted one of a server that is not
/// unhealthy.
pub proof fn nothing_else_is_listed(walk: Seq<HandleModel>, tool: ToolModel)
    requires
        registry::aggregated(walk).contains(tool),
    ensures
        exists|i: int|
            0 <= i < walk.len() && (#[trigger] walk[i]).health != HealthState::Unhealthy
                && walk[i].tools.contains(tool) && lists_permit(
                walk[i].config,
                own_name(walk[i].config.slug@, tool.name),
            ),
{
    registry::aggregated_is_what_servers_contribute(walk, tool);
    let i = choose|i: int|
        0 <= i < walk.len() && #[trigger] registry::contributed(walk[i]).contains(tool);
    let handle = walk[i];
    let permitted = |tool: ToolModel|
        lists_permit(handle.config, own_name(handle.config.slug@, tool.name));
    healthy_enough_servers_contribute_all_they_show(handle);
    let shown = registry::contributed(handle);
    let k = choose|k: int| 0 <= k < shown.len() && shown[k] == tool;
    handle.tools.lemma_filter_pred(permitted, k);
    handle.tools.lemma_filter_contains_rev(permitted, tool);
    assert(walk[i].health != HealthState::Unhealthy);
}

/// A call goes by what stands before the first two underscores of the name: it is
/// handed to the server with that slug, under all that follows them, unless there
/// is no such server or it is unhealthy.
pub proof fn calls_go_by_what_precedes_the_first_underscores(
    servers: Map<Seq<char>, HandleModel>,
    name: Seq<char>,
    at: int,
)
    requires
        underscores_at(name, at),
        forall|j: int| 0 <= j < at ==> !underscores_at(name, j),
    ensures
        !servers.contains_key(name.subrange(0, at)) ==> registry::route(servers, name) == Err::<
            (Seq<char>, Seq<char>),
            Fault,
        >(
            Fault::Protocol(
                name.subrange(0, at),
                "no server with slug '"@ + name.subrange(0, at) + "'"@,
            ),
        ),
        servers.contains_key(name.subrange(0, at)) && servers[name.subrange(0, at)].health
            == HealthState::Unhealthy ==> registry::route(servers, name) == Err::<
            (Seq<char>, Seq<char>),
            Fault,
        >(Fault::ServerUnhealthy(name.subrange(0, at), "server is unhealthy"@)),
        servers.contains_key(name.subrange(0, at)) && servers[name.subrange(0, at)].health
            != HealthState::Unhealthy ==> registry::route(servers, name) == Ok::<
            (Seq<char>, Seq<char>),
            Fault,
        >((name.subrange(0, at), name.subrange(at + 2, name.len() as int))),
{
    names_split_at_the_first_underscores(name, at);
}

/// A name without two underscores in a row names no server.
pub proof fn calls_need_a_namespace(servers: Map<Seq<char>, HandleModel>, name: Seq<char>)
    requires
        forall|j: int| !underscores_at(name, j),
    ensures
        registry::route(servers, name) == Err::<(Seq<char>, Seq<char>), Fault>(
            Fault::Protocol(
                "unknown"@,
                "tool name '"@ + name + "' has no namespace prefix"@,
            ),
        ),
{
    names_split_at_the_first_underscores(name, 0);
}

} // verus!
