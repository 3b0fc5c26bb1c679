//! Tool names under the slug of the server that they belong to.

use vstd::prelude::*;
use vstd::string::*;

use crate::text;

verus! {

/// What stands between the slug and the tool in a namespaced name.
pub open spec fn separator() -> Seq<char> {
    seq!['_', '_']
}

/// The name of `tool` under `slug`.
pub open spec fn namespaced(slug: Seq<char>, tool: Seq<char>) -> Seq<char> {
    slug + separator() + tool
}

/// Whether the first separator of `name` starts at `at`.
pub open spec fn first_separator(name: Seq<char>, at: int) -> bool {
    &&& text::stands_at(name, separator(), at)
    &&& forall|j: int| 0 <= j < at ==> !text::stands_at(name, separator(), j)
}

/// The slug and the tool of a namespaced name, or `None` if there is no
/// separator in `name`.
pub open spec fn unnamespaced(name: Seq<char>) -> Option<(Seq<char>, Seq<char>)> {
    if text::occurs_in(separator(), name) {
        let at = choose|at: int| first_separator(name, at);
        Some((name.take(at), name.skip(at + 2)))
    } else {
        None
    }
}

/// Whether `name` starts with the namespace of the server `slug`.
pub open spec fn under(slug: Seq<char>, name: Seq<char>) -> bool {
    namespaced(slug, Seq::empty()).is_prefix_of(name)
}

/// The name that the server `slug` itself knows the tool by: what follows its
/// namespace, or the whole name if it does not start with that.
pub open spec fn downstream(slug: Seq<char>, name: Seq<char>) -> Seq<char> {
    if under(slug, name) {
        name.skip(slug.len() + 2int)
    } else {
        name
    }
}

/// Whether `slug` can be told from what follows it: it holds no separator and
/// cannot become the start of one.
pub open spec fn separable(slug: Seq<char>) -> bool {
    &&& !text::occurs_in(separator(), slug)
    &&& slug.len() > 0 ==> slug.last() != '_'
}

/// A pair of strings as plain text.
pub open spec fn pair_text(pair: Option<(&str, &str)>) -> Option<(Seq<char>, Seq<char>)> {
    match pair {
        Some((slug, tool)) => Some((slug@, tool@)),
        None => None,
    }
}

/// Splits a namespaced tool name `slug__tool` at its first `__`.
pub fn unnamespace_tool_name(name: &str) -> (parts: Option<(&str, &str)>)
    ensures
        pair_text(parts) == unnamespaced(name@),
{
    proof {
        reveal_strlit("__");
        assert("__"@ =~= separator());
    }
    match text::find(name, "__") {
        Some(at) => {
            let end: usize = name.unicode_len();
            assert(first_separator(name@, at as int));
            let ghost chosen = choose|i: int| first_separator(name@, i);
            assert(chosen == at) by {
                assert(first_separator(name@, chosen));
            }
            let slug = name.substring_char(0, at);
            let tool = name.substring_char(at + 2, end);
            Some((slug, tool))
        },
        None => None,
    }
}

/// A namespaced name leads back to its slug and its tool.
pub proof fn namespace_round_trip(slug: Seq<char>, tool: Seq<char>)
    requires
        separable(slug),
    ensures
        unnamespaced(namespaced(slug, tool)) == Some((slug, tool)),
{
    let name = namespaced(slug, tool);
    let at = slug.len() as int;
    assert(name.subrange(at, at + 2) =~= separator());
    assert(text::stands_at(name, separator(), at));
    assert forall|j: int| 0 <= j < at implies !text::stands_at(name, separator(), j) by {
        if text::stands_at(name, separator(), j) {
            assert(name.subrange(j, j + 2)[0] == '_' && name.subrange(j, j + 2)[1] == '_');
            if j + 1 < at {
                assert(slug.subrange(j, j + 2) =~= separator());
                assert(text::stands_at(slug, separator(), j));
            }
        }
    }
    let chosen = choose|i: int| first_separator(name, i);
    assert(first_separator(name, at));
    assert(first_separator(name, chosen));
    assert(chosen == at);
    assert(name.take(at) =~= slug);
    assert(name.skip(at + 2) =~= tool);
}

/// Strips the namespace of the server `slug` from a tool name that starts with
/// it. Any other name is already that of the tool, whatever it holds.
pub fn downstream_tool_name<'a>(slug: &str, name: &'a str) -> (tool: &'a str)
    ensures
        tool@ == downstream(slug@, name@),
{
    let mut prefix = slug.to_string();
    prefix.append("__");
    proof {
        reveal_strlit("__");
        assert(prefix@ =~= namespaced(slug@, Seq::empty()));
    }
    if text::starts_with(name, prefix.as_str()) {
        let from: usize = prefix.as_str().unicode_len();
        let end: usize = name.unicode_len();
        let tool = name.substring_char(from, end);
        assert(tool@ =~= name@.skip(slug@.len() + 2int));
        tool
    } else {
        name
    }
}

/// A server knows a tool by the name that it was namespaced from.
pub proof fn downstream_round_trip(slug: Seq<char>, tool: Seq<char>)
    ensures
        under(slug, namespaced(slug, tool)),
        downstream(slug, namespaced(slug, tool)) == tool,
{
    let name = namespaced(slug, tool);
    let prefix = namespaced(slug, Seq::empty());
    assert(prefix =~= name.subrange(0, prefix.len() as int));
    assert(name.skip(slug.len() + 2int) =~= tool);
}

/// A name that is not under the namespace of a server is its own downstream
/// name, and so is every name without a separator.
pub proof fn plain_name_is_downstream(slug: Seq<char>, name: Seq<char>)
    ensures
        !under(slug, name) ==> downstream(slug, name) == name,
        !text::occurs_in(separator(), name) ==> downstream(slug, name) == name,
{
    if under(slug, name) {
        let prefix = namespaced(slug, Seq::empty());
        let at = slug.len() as int;
        assert(prefix.subrange(at, at + 2) =~= separator());
        assert(name.subrange(at, at + 2) =~= prefix.subrange(at, at + 2));
        assert(text::stands_at(name, separator(), at));
    }
}

} // verus!
