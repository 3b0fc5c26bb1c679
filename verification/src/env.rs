//! References to environment variables in server configurations.

use vstd::prelude::*;
use vstd::string::*;

use crate::table::Table;
use crate::{table, text};

verus! {

/// The variable that `value` refers to: what stands between `${` and `}`.
pub open spec fn env_ref(value: Seq<char>) -> Option<Seq<char>> {
    if value.len() >= 3 && value[0] == '$' && value[1] == '{' && value.last() == '}' {
        Some(value.subrange(2, value.len() - 1))
    } else {
        None
    }
}

/// The variable whose value `value` stands for: the one between `${` and `}`,
/// or the one after a bare `$`.
pub open spec fn variable(value: Seq<char>) -> Option<Seq<char>> {
    if env_ref(value) is Some {
        env_ref(value)
    } else if value.len() > 1 && value[0] == '$' && value[1] != '{' {
        Some(value.skip(1))
    } else {
        None
    }
}

/// The reference to the variable `name`.
pub open spec fn reference_to(name: Seq<char>) -> Seq<char> {
    "${"@ + name + "}"@
}

/// A table of strings as a map of texts.
pub open spec fn text_map(strings: Table<String>) -> Map<Seq<char>, Seq<char>> {
    strings@.map_values(|s: String| s@)
}

/// The rows of a table of strings as texts.
pub open spec fn text_rows(strings: Table<String>) -> Seq<(Seq<char>, Seq<char>)> {
    strings.rows().map_values(|row: (Seq<char>, String)| (row.0, row.1@))
}

/// What `value` resolves to when the variables have the values `vars`: a
/// reference to what its variable holds, or to nothing if that is not set;
/// any other value to itself.
pub open spec fn resolved_value(value: Seq<char>, vars: Map<Seq<char>, Seq<char>>) -> Seq<char> {
    match variable(value) {
        Some(name) => if vars.contains_key(name) {
            vars[name]
        } else {
            Seq::empty()
        },
        None => value,
    }
}

/// The variables that the values of `rows` refer to, in the order of the rows.
pub open spec fn referenced(rows: Seq<(Seq<char>, Seq<char>)>) -> Seq<Seq<char>> {
    rows.filter_map(|row: (Seq<char>, Seq<char>)| variable(row.1))
}

/// Strips an env var reference to its variable name.
///
/// Accepts `${VAR_NAME}` syntax only. Returns `None` if the value is not a
/// valid env-var reference.
pub fn parse_env_ref(value: &str) -> (name: Option<&str>)
    ensures
        match name {
            Some(n) => value@ == reference_to(n@) && env_ref(value@) == Some(n@),
            None => env_ref(value@) is None && forall|n: Seq<char>|
                value@ != #[trigger] reference_to(n),
        },
{
    proof {
        reveal_strlit("${");
        reveal_strlit("}");
    }
    let chars = text::chars_of(value);
    let n: usize = chars.len();
    if n >= 3 && chars[0] == '$' && chars[1] == '{' && chars[n - 1] == '}' {
        let name = value.substring_char(2, n - 1);
        assert(value@ =~= reference_to(name@));
        Some(name)
    } else {
        assert forall|name: Seq<char>| value@ != #[trigger] reference_to(name) by {
            let r = reference_to(name);
            assert(r[0] == '$' && r[1] == '{' && r.last() == '}');
        }
        None
    }
}

/// The variable whose value [`resolve_env_vars`] puts in the place of `value`:
/// that of `${VAR}` or `$VAR`.
pub fn referenced_var(value: &str) -> (name: Option<&str>)
    ensures
        match name {
            Some(n) => variable(value@) == Some(n@),
            None => variable(value@) is None,
        },
{
    if let Some(name) = parse_env_ref(value) {
        return Some(name);
    }
    let chars = text::chars_of(value);
    let n: usize = chars.len();
    if n > 1 && chars[0] == '$' && chars[1] != '{' {
        let name = value.substring_char(1, n);
        assert(name@ =~= value@.skip(1));
        Some(name)
    } else {
        None
    }
}

/// The variables whose values [`resolve_env_vars`] needs, in the order of a
/// walk through `env`.
pub fn referenced_vars(env: &Table<String>) -> (names: Vec<String>)
    ensures
        text::views(names@) == referenced(text_rows(*env)),
{
    let ghost rows = text_rows(*env);
    let ghost of_row = |row: (Seq<char>, Seq<char>)| variable(row.1);
    let mut names: Vec<String> = Vec::new();
    let mut i: usize = 0;
    proof {
        reveal(Seq::filter_map);
        assert(rows.take(0) =~= Seq::empty());
        assert(text::views(names@) =~= rows.take(0).filter_map(of_row));
    }
    let count: usize = env.len();
    while i < count
        invariant
            count == env.rows().len(),
            i <= count,
            rows == text_rows(*env),
            of_row == |row: (Seq<char>, Seq<char>)| variable(row.1),
            text::views(names@) == rows.take(i as int).filter_map(of_row),
        decreases count - i,
    {
        let ghost before = names@;
        let value = env.value_at(i);
        proof {
            reveal(Seq::filter_map);
            assert(rows.take(i + 1).drop_last() =~= rows.take(i as int));
            assert(rows.take(i + 1).last() == rows[i as int]);
        }
        if let Some(name) = referenced_var(value.as_str()) {
            names.push(name.to_string());
            assert(text::views(names@) =~= text::views(before).push(name@));
        }
        i += 1;
    }
    assert(rows.take(count as int) =~= rows);
    names
}

/// Resolves a table of env-var references to their values.
///
/// Each value is `${VAR}` or `$VAR`; a configuration with the latter is not
/// valid, but the value still resolves.
///
/// `vars` holds the variables that are set; it may hold just those of
/// [`referenced_vars`]. A variable that is not set resolves to the empty
/// string (same as shell `${UNSET-}`). A value that is no reference is kept.
pub fn resolve_env_vars(env: &Table<String>, vars: &Table<String>) -> (resolved: Table<String>)
    ensures
        resolved.well_formed(),
        text_rows(resolved) == text_rows(*env).map_values(
            |row: (Seq<char>, Seq<char>)| (row.0, resolved_value(row.1, text_map(*vars))),
        ),
        text_map(resolved) == text_map(*env).map_values(
            |value: Seq<char>| resolved_value(value, text_map(*vars)),
        ),
{
    let mut resolved: Table<String> = Table::new();
    let mut i: usize = 0;
    let count: usize = env.len();
    while i < count
        invariant
            env.well_formed(),
            count == env.rows().len(),
            i <= count,
            resolved.well_formed(),
            resolved.rows().len() == i,
            forall|j: int|
                0 <= j < i ==> (#[trigger] resolved.rows()[j]).0 == env.rows()[j].0
                    && resolved.rows()[j].1@ == resolved_value(
                    env.rows()[j].1@,
                    text_map(*vars),
                ),
        decreases count - i,
    {
        let key = env.key_at(i);
        let value = env.value_at(i);
        let text = match referenced_var(value.as_str()) {
            Some(name) => match vars.get(name) {
                Some(set) => set.clone(),
                None => String::new(),
            },
            None => value.clone(),
        };
        proof {
            if resolved@.contains_key(key@) {
                let j = choose|j: int| table::row_has_key(resolved.rows(), j, key@);
                assert(table::row_has_key(resolved.rows(), j, key@));
                assert(env.rows()[j].0 == env.rows()[i as int].0);
            }
        }
        resolved.insert(key.clone(), text);
        i += 1;
    }
    proof {
        let ghost of_row = |row: (Seq<char>, Seq<char>)|
            (row.0, resolved_value(row.1, text_map(*vars)));
        assert(text_rows(resolved) =~= text_rows(*env).map_values(of_row));
        same_keys_map(resolved, *env, |value: Seq<char>| resolved_value(value, text_map(*vars)));
    }
    resolved
}

/// Tables with the same keys, row by row, and values that `f` leads from one to
/// the other spell out maps that are related in the same way.
proof fn same_keys_map(
    to: Table<String>,
    from: Table<String>,
    f: spec_fn(Seq<char>) -> Seq<char>,
)
    requires
        to.well_formed(),
        from.well_formed(),
        to.rows().len() == from.rows().len(),
        forall|i: int|
            0 <= i < from.rows().len() ==> (#[trigger] to.rows()[i]).0 == from.rows()[i].0
                && to.rows()[i].1@ == f(from.rows()[i].1@),
    ensures
        text_map(to) == text_map(from).map_values(f),
{
    assert forall|key: Seq<char>| #[trigger] to@.contains_key(key) implies from@.contains_key(key)
        && to@[key]@ == f(from@[key]@) by {
        let i = choose|i: int| table::row_has_key(to.rows(), i, key);
        assert(table::row_has_key(to.rows(), i, key));
        assert(table::row_has_key(from.rows(), i, key));
        table::row_is_mapped(to.rows(), i);
        table::row_is_mapped(from.rows(), i);
    }
    assert forall|key: Seq<char>| #[trigger] from@.contains_key(key) implies to@.contains_key(
        key,
    ) by {
        let i = choose|i: int| table::row_has_key(from.rows(), i, key);
        assert(table::row_has_key(from.rows(), i, key));
        assert(table::row_has_key(to.rows(), i, key));
    }
    assert(text_map(to) =~= text_map(from).map_values(f));
}

/// References and names are one and the same: a value refers to `name` exactly
/// when it is the reference to `name`.
pub proof fn reference_round_trip(value: Seq<char>, name: Seq<char>)
    ensures
        env_ref(reference_to(name)) == Some(name),
        env_ref(value) == Some(name) <==> value == reference_to(name),
{
    reveal_strlit("${");
    reveal_strlit("}");
    let reference = reference_to(name);
    assert(reference.subrange(2, reference.len() - 1) =~= name);
    if env_ref(value) == Some(name) {
        assert(value =~= reference);
    }
}

/// Both forms stand for their variable: `${name}` for every name, and `$name`
/// for every name that is not empty and does not start with a brace.
pub proof fn both_forms_stand_for_their_variable(name: Seq<char>)
    ensures
        variable(reference_to(name)) == Some(name),
        name.len() > 0 && name[0] != '{' ==> variable("$"@ + name) == Some(name),
{
    reference_round_trip(reference_to(name), name);
    reveal_strlit("$");
    if name.len() > 0 {
        assert(("$"@ + name)[1] == name[0]);
        assert(("$"@ + name).skip(1) =~= name);
    }
}

/// Variables that no value refers to do not matter: two environments that agree
/// on the referenced variables resolve every value alike.
pub proof fn only_referenced_variables_matter(
    rows: Seq<(Seq<char>, Seq<char>)>,
    vars: Map<Seq<char>, Seq<char>>,
    others: Map<Seq<char>, Seq<char>>,
)
    requires
        forall|name: Seq<char>| #[trigger]
            referenced(rows).contains(name) ==> vars.get(name) == others.get(name),
    ensures
        forall|i: int|
            0 <= i < rows.len() ==> resolved_value((#[trigger] rows[i]).1, vars)
                == resolved_value(rows[i].1, others),
{
    assert forall|i: int| 0 <= i < rows.len() implies resolved_value((#[trigger] rows[i]).1, vars)
        == resolved_value(rows[i].1, others) by {
        if let Some(name) = variable(rows[i].1) {
            referenced_holds(rows, i);
            assert(vars.get(name) == others.get(name));
        }
    }
}

/// The variable that a row refers to is among the referenced ones.
pub proof fn referenced_holds(rows: Seq<(Seq<char>, Seq<char>)>, i: int)
    requires
        0 <= i < rows.len(),
        variable(rows[i].1) is Some,
    ensures
        referenced(rows).contains(variable(rows[i].1)->0),
    decreases rows.len(),
{
    reveal(Seq::filter_map);
    let of_row = |row: (Seq<char>, Seq<char>)| variable(row.1);
    let name = variable(rows[i].1)->0;
    let rest = rows.drop_last();
    if i < rest.len() {
        referenced_holds(rest, i);
        let k = choose|k: int| 0 <= k < referenced(rest).len() && referenced(rest)[k] == name;
        assert(referenced(rows)[k] == name);
    } else {
        assert(rows.filter_map(of_row) == rest.filter_map(of_row) + seq![name]);
        assert(referenced(rows)[rest.filter_map(of_row).len() as int] == name);
    }
}

} // verus!
