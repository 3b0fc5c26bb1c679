//! Which tools of a server are exposed: patterns and the allow/deny policy.

use vstd::prelude::*;
use vstd::string::*;

use crate::text;

verus! {

/// Whether `text` starts with a star.
pub open spec fn star_in_front(text: Seq<char>) -> bool {
    text.len() > 0 && text[0] == '*'
}

/// Whether `text` ends with a star.
pub open spec fn star_at_back(text: Seq<char>) -> bool {
    text.len() > 0 && text.last() == '*'
}

/// What is left of `pattern` without a star at its front and a star at its
/// back. Just one is taken from either end.
pub open spec fn stem(pattern: Seq<char>) -> Seq<char> {
    let rest = if star_in_front(pattern) {
        pattern.drop_first()
    } else {
        pattern
    };
    if star_at_back(rest) {
        rest.drop_last()
    } else {
        rest
    }
}

/// Whether `name` matches `pattern`: a star at the front frees the start of
/// the name, a star at the back frees its end, and any other star stands for
/// itself.
pub open spec fn matches_pattern(pattern: Seq<char>, name: Seq<char>) -> bool {
    let open_front = star_in_front(pattern);
    let open_back = star_at_back(pattern);
    if open_front && open_back {
        text::occurs_in(stem(pattern), name)
    } else if open_front {
        stem(pattern).is_suffix_of(name)
    } else if open_back {
        stem(pattern).is_prefix_of(name)
    } else {
        name == stem(pattern)
    }
}

/// Whether `pattern` has a star that is neither its first nor its last
/// character.
pub open spec fn has_interior_star(pattern: Seq<char>) -> bool {
    exists|i: int| 0 < i < pattern.len() - 1 && pattern[i] == '*'
}

/// Whether some pattern of `patterns` matches `name`.
pub open spec fn any_matches(patterns: Seq<Seq<char>>, name: Seq<char>) -> bool {
    exists|i: int| 0 <= i < patterns.len() && #[trigger] matches_pattern(patterns[i], name)
}

/// An allow/deny policy.
pub struct Policy {
    /// The patterns of which one must match, if there is such a list.
    pub allow: Option<Seq<Seq<char>>>,
    /// The patterns of which none may match.
    pub deny: Seq<Seq<char>>,
}

impl Policy {
    /// Why `name` is blocked, or `None` if it is permitted.
    pub open spec fn block_reason(self, name: Seq<char>) -> Option<Seq<char>> {
        if any_matches(self.deny, name) {
            Some("deny list"@)
        } else if self.allow matches Some(allow) && !any_matches(allow, name) {
            Some("not in allow list"@)
        } else {
            None
        }
    }

    /// Whether `name` is permitted.
    pub open spec fn permits(self, name: Seq<char>) -> bool {
        &&& self.allow matches Some(allow) ==> any_matches(allow, name)
        &&& !any_matches(self.deny, name)
    }
}

/// Matches a tool name against a single pattern.
///
/// - `name`: exact match.
/// - `prefix*`: prefix match.
/// - `*suffix`: suffix match.
/// - `*inner*`: substring match.
///
/// A bare `*` (or `**`) matches everything. A star anywhere else stands for
/// itself.
pub fn glob_match(pattern: &str, name: &str) -> (matched: bool)
    ensures
        matched == matches_pattern(pattern@, name@),
{
    let chars = text::chars_of(pattern);
    let open_front = chars.len() > 0 && chars[0] == '*';
    let open_back = chars.len() > 0 && chars[chars.len() - 1] == '*';
    let from: usize = if open_front {
        1
    } else {
        0
    };
    let to: usize = if chars.len() > from && open_back {
        chars.len() - 1
    } else {
        chars.len()
    };
    assert(pattern@.subrange(from as int, to as int) =~= stem(pattern@));
    let stem = pattern.substring_char(from, to);
    if open_front && open_back {
        text::contains(name, stem)
    } else if open_front {
        text::ends_with(name, stem)
    } else if open_back {
        text::starts_with(name, stem)
    } else {
        text::same(name, stem)
    }
}

/// Whether `pattern` has a star in a position that [`glob_match`] does not
/// interpret: anywhere but as its first or its last character.
///
/// Such a star is a literal, so the pattern would hardly ever fire;
/// a configuration that holds one is rejected.
pub fn has_unsupported_glob_star(pattern: &str) -> (unsupported: bool)
    ensures
        unsupported == has_interior_star(pattern@),
{
    let chars = text::chars_of(pattern);
    let mut i: usize = 1;
    while i < chars.len()
        invariant
            chars@ == pattern@,
            1 <= i,
            forall|j: int| 0 < j < i && j < chars.len() - 1 ==> pattern@[j] != '*',
        decreases chars.len() - i,
    {
        if i + 1 < chars.len() && chars[i] == '*' {
            return true;
        }
        i += 1;
    }
    false
}

/// Whether some pattern of `patterns` matches `name`.
fn any_match(patterns: &Vec<String>, name: &str) -> (matched: bool)
    ensures
        matched == any_matches(text::views(patterns@), name@),
{
    let ghost views = text::views(patterns@);
    let mut i: usize = 0;
    while i < patterns.len()
        invariant
            views == text::views(patterns@),
            i <= patterns.len(),
            forall|j: int| 0 <= j < i ==> !matches_pattern(#[trigger] views[j], name@),
        decreases patterns.len() - i,
    {
        if glob_match(patterns[i].as_str(), name) {
            assert(matches_pattern(views[i as int], name@));
            return true;
        }
        i += 1;
    }
    false
}

/// Compiled allow/deny policy that decides whether a downstream tool is
/// exposed.
///
/// A tool name is permitted if and only if there is no allow list or the name
/// matches one of its entries, and the name matches no deny entry. Deny always
/// wins over allow.
#[derive(Debug, Clone)]
pub struct ToolFilter {
    allow: Option<Vec<String>>,
    deny: Vec<String>,
}

impl View for ToolFilter {
    type V = Policy;

    closed spec fn view(&self) -> Policy {
        Policy { allow: optional_views(self.allow), deny: text::views(self.deny@) }
    }
}

/// The views of a list of strings that may be absent.
pub open spec fn optional_views(list: Option<Vec<String>>) -> Option<Seq<Seq<char>>> {
    match list {
        Some(strings) => Some(text::views(strings@)),
        None => None,
    }
}

/// A reason as plain text.
pub open spec fn reason_text(reason: Option<&'static str>) -> Option<Seq<char>> {
    match reason {
        Some(why) => Some(why@),
        None => None,
    }
}

impl ToolFilter {
    /// A filter with the given lists.
    pub fn new(allow: Option<Vec<String>>, deny: Vec<String>) -> (filter: Self)
        ensures
            filter@ == (Policy { allow: optional_views(allow), deny: text::views(deny@) }),
    {
        ToolFilter { allow, deny }
    }

    /// Why `tool_name` (the downstream, un-namespaced name) is blocked by this
    /// policy, or `None` if it is permitted. A name that both lists match is
    /// blocked by the deny list.
    pub fn block_reason(&self, tool_name: &str) -> (reason: Option<&'static str>)
        ensures
            reason_text(reason) == self@.block_reason(tool_name@),
    {
        if any_match(&self.deny, tool_name) {
            return Some("deny list");
        }
        match &self.allow {
            None => None,
            Some(allow) => if any_match(allow, tool_name) {
                None
            } else {
                Some("not in allow list")
            },
        }
    }

    /// Whether `tool_name` (the downstream, un-namespaced name) is permitted
    /// by this policy.
    pub fn permits(&self, tool_name: &str) -> (permitted: bool)
        ensures
            permitted == self@.permits(tool_name@),
    {
        self.block_reason(tool_name).is_none()
    }
}

impl Default for ToolFilter {
    fn default() -> (filter: Self)
        ensures
            filter@ == (Policy { allow: None, deny: Seq::empty() }),
    {
        let filter = ToolFilter { allow: None, deny: Vec::new() };
        assert(text::views(filter.deny@) =~= Seq::<Seq<char>>::empty());
        filter
    }
}

/// Wildcard matching in full: each star stands for any run of characters,
/// every other character for itself.
pub open spec fn matches_wildcard(pattern: Seq<char>, name: Seq<char>) -> bool
    decreases pattern.len(), name.len(),
{
    if pattern.len() == 0 {
        name.len() == 0
    } else if pattern[0] == '*' {
        ||| matches_wildcard(pattern.drop_first(), name)
        ||| name.len() > 0 && matches_wildcard(pattern, name.drop_first())
    } else {
        &&& name.len() > 0
        &&& name[0] == pattern[0]
        &&& matches_wildcard(pattern.drop_first(), name.drop_first())
    }
}

/// Whether `part` has no star.
pub open spec fn star_free(part: Seq<char>) -> bool {
    forall|i: int| 0 <= i < part.len() ==> part[i] != '*'
}

/// The four forms of a pattern mean what they say. `part` matches just itself,
/// `part*` whatever starts with it, `*part` whatever ends with it, and `*part*`
/// whatever holds it. A star within `part` stands for itself, and so does one at
/// an end of `part` that the pattern frees.
pub proof fn pattern_forms(part: Seq<char>, name: Seq<char>)
    ensures
        !star_in_front(part) && !star_at_back(part) ==> (matches_pattern(part, name) <==> name
            == part),
        !star_in_front(part) ==> (matches_pattern(part + seq!['*'], name)
            <==> part.is_prefix_of(name)),
        !star_at_back(part) ==> (matches_pattern(seq!['*'] + part, name)
            <==> part.is_suffix_of(name)),
        matches_pattern(seq!['*'] + part + seq!['*'], name) <==> text::occurs_in(part, name),
{
    let star = seq!['*'];
    let open_back = part + star;
    let open_front = star + part;
    let open_both = star + part + star;
    assert(open_back.drop_last() =~= part);
    assert(open_front.drop_first() =~= part);
    assert(open_both.drop_first() =~= open_back);
    assert(open_both.last() == '*');
    assert(open_back.last() == '*');
    if part.len() == 0 {
        assert(open_back =~= star);
        assert(open_front =~= star);
        assert(star.drop_first() =~= part);
        assert(name.subrange(0, 0) =~= part);
        assert(text::stands_at(name, part, 0));
    } else {
        assert(open_back[0] == part[0]);
        assert(open_front.last() == part.last());
    }
}

/// A bare `*` and a bare `**` match every name.
pub proof fn bare_star_matches_everything(name: Seq<char>)
    ensures
        matches_pattern(seq!['*'], name),
        matches_pattern(seq!['*', '*'], name),
{
    let nothing = Seq::<char>::empty();
    pattern_forms(nothing, name);
    assert(nothing + seq!['*'] =~= seq!['*']);
    assert(seq!['*'] + nothing + seq!['*'] =~= seq!['*', '*']);
    assert(name.subrange(0, 0) =~= nothing);
    assert(text::stands_at(name, nothing, 0));
}

proof fn wildcard_after_literal(part: Seq<char>, rest: Seq<char>, name: Seq<char>)
    requires
        star_free(part),
    ensures
        matches_wildcard(part + rest, name) <==> part.is_prefix_of(name) && matches_wildcard(
            rest,
            name.skip(part.len() as int),
        ),
    decreases part.len(),
{
    if part.len() == 0 {
        assert(part + rest =~= rest);
        assert(name.skip(0) =~= name);
    } else {
        let pattern = part + rest;
        assert(pattern[0] == part[0]);
        assert(pattern.drop_first() =~= part.drop_first() + rest);
        if name.len() > 0 && name[0] == part[0] {
            wildcard_after_literal(part.drop_first(), rest, name.drop_first());
            if part.len() <= name.len() {
                assert(name.drop_first().skip(part.len() - 1) =~= name.skip(part.len() as int));
            }
            if part.is_prefix_of(name) {
                assert(part.drop_first() =~= name.drop_first().subrange(0, part.len() - 1));
            }
            if part.drop_first().is_prefix_of(name.drop_first()) {
                assert forall|i: int| 0 <= i < part.len() implies part[i] == name[i] by {
                    if i > 0 {
                        assert(part.drop_first()[i - 1] == name.drop_first().subrange(
                            0,
                            part.len() - 1,
                        )[i - 1]);
                    }
                }
                assert(part =~= name.subrange(0, part.len() as int));
            }
        } else if part.is_prefix_of(name) {
            assert(part[0] == name.subrange(0, part.len() as int)[0]);
        }
    }
}

proof fn wildcard_after_star(rest: Seq<char>, name: Seq<char>)
    ensures
        matches_wildcard(seq!['*'] + rest, name) <==> exists|k: int|
            0 <= k <= name.len() && #[trigger] matches_wildcard(rest, name.skip(k)),
    decreases name.len(),
{
    let pattern = seq!['*'] + rest;
    assert(pattern.drop_first() =~= rest);
    assert(name.skip(0) =~= name);
    if name.len() > 0 {
        let tail = name.drop_first();
        wildcard_after_star(rest, tail);
        if matches_wildcard(pattern, tail) {
            let k = choose|k: int|
                0 <= k <= tail.len() && #[trigger] matches_wildcard(rest, tail.skip(k));
            assert(tail.skip(k) =~= name.skip(k + 1));
        }
        if exists|k: int| 0 <= k <= name.len() && #[trigger] matches_wildcard(rest, name.skip(k)) {
            let k = choose|k: int|
                0 <= k <= name.len() && #[trigger] matches_wildcard(rest, name.skip(k));
            if k > 0 {
                assert(tail.skip(k - 1) =~= name.skip(k));
                assert(matches_wildcard(rest, tail.skip(k - 1)));
            }
        }
    }
    if matches_wildcard(rest, name) {
        assert(matches_wildcard(rest, name.skip(0)));
    }
}

/// On every pattern without an interior star, that is on every pattern that a
/// valid configuration can hold, matching is wildcard matching.
pub proof fn supported_patterns_are_wildcards(pattern: Seq<char>, name: Seq<char>)
    requires
        !has_interior_star(pattern),
    ensures
        matches_pattern(pattern, name) <==> matches_wildcard(pattern, name),
{
    let star = seq!['*'];
    let nothing = Seq::<char>::empty();
    let open_front = star_in_front(pattern);
    let open_back = star_at_back(pattern);
    if pattern =~= star {
        bare_star_matches_everything(name);
        wildcard_after_star(nothing, name);
        assert(star + nothing =~= star);
        assert(name.skip(name.len() as int) =~= nothing);
        assert(matches_wildcard(nothing, name.skip(name.len() as int)));
    } else if open_front && open_back {
        let part = pattern.subrange(1, pattern.len() - 1);
        assert(star_free(part)) by {
            assert forall|i: int| 0 <= i < part.len() implies part[i] != '*' by {
                assert(part[i] == pattern[i + 1]);
            }
        }
        assert(pattern =~= star + part + star);
        pattern_forms(part, name);
        assert(pattern =~= star + (part + star));
        wildcard_after_star(part + star, name);
        assert forall|k: int| 0 <= k <= name.len() implies (#[trigger] matches_wildcard(
            part + star,
            name.skip(k),
        ) <==> text::stands_at(name, part, k)) by {
            wildcard_with_open_back(part, name.skip(k));
            if text::stands_at(name, part, k) {
                assert(name.skip(k).subrange(0, part.len() as int) =~= part);
            }
            if part.is_prefix_of(name.skip(k)) {
                assert(name.subrange(k, k + part.len()) =~= name.skip(k).subrange(
                    0,
                    part.len() as int,
                ));
            }
        }
        if text::occurs_in(part, name) {
            let at = choose|at: int| text::stands_at(name, part, at);
            assert(matches_wildcard(part + star, name.skip(at)));
        }
    } else if open_front {
        let part = pattern.drop_first();
        assert(star_free(part)) by {
            assert forall|i: int| 0 <= i < part.len() implies part[i] != '*' by {
                assert(part[i] == pattern[i + 1]);
            }
        }
        assert(pattern =~= star + part);
        pattern_forms(part, name);
        wildcard_after_star(part, name);
        assert forall|k: int| 0 <= k <= name.len() implies (#[trigger] matches_wildcard(
            part,
            name.skip(k),
        ) <==> name.skip(k) == part) by {
            wildcard_exact(part, name.skip(k));
        }
        if part.is_suffix_of(name) {
            let k = name.len() - part.len();
            assert(name.skip(k) =~= part);
            assert(matches_wildcard(part, name.skip(k)));
        }
        if matches_wildcard(pattern, name) {
            let k = choose|k: int|
                0 <= k <= name.len() && #[trigger] matches_wildcard(part, name.skip(k));
            assert(name.skip(k) == part);
            assert(part =~= name.subrange(name.len() - part.len(), name.len() as int));
        }
    } else if open_back {
        let part = pattern.drop_last();
        assert(star_free(part)) by {
            assert forall|i: int| 0 <= i < part.len() implies part[i] != '*' by {
                assert(part[i] == pattern[i]);
            }
        }
        assert(pattern =~= part + star);
        pattern_forms(part, name);
        wildcard_with_open_back(part, name);
    } else {
        assert(star_free(pattern));
        pattern_forms(pattern, name);
        wildcard_exact(pattern, name);
    }
}

proof fn wildcard_exact(part: Seq<char>, name: Seq<char>)
    requires
        star_free(part),
    ensures
        matches_wildcard(part, name) <==> name == part,
{
    let nothing = Seq::<char>::empty();
    wildcard_after_literal(part, nothing, name);
    assert(part + nothing =~= part);
    if part.is_prefix_of(name) && name.skip(part.len() as int).len() == 0 {
        assert(name =~= part);
    }
}

proof fn wildcard_with_open_back(part: Seq<char>, name: Seq<char>)
    requires
        star_free(part),
    ensures
        matches_wildcard(part + seq!['*'], name) <==> part.is_prefix_of(name),
{
    let nothing = Seq::<char>::empty();
    let star = seq!['*'];
    wildcard_after_literal(part, star, name);
    if part.is_prefix_of(name) {
        let tail = name.skip(part.len() as int);
        wildcard_after_star(nothing, tail);
        assert(star + nothing =~= star);
        assert(tail.skip(tail.len() as int) =~= nothing);
        assert(matches_wildcard(nothing, tail.skip(tail.len() as int)));
    }
}

/// Deny always wins: a name that a deny entry matches is blocked by the deny
/// list, whatever the allow list says.
pub proof fn deny_wins(policy: Policy, name: Seq<char>)
    requires
        any_matches(policy.deny, name),
    ensures
        policy.block_reason(name) == Some("deny list"@),
        !policy.permits(name),
{
}

/// An allow list without entries blocks every name.
pub proof fn empty_allow_list_blocks_everything(policy: Policy, name: Seq<char>)
    requires
        policy.allow == Some(Seq::<Seq<char>>::empty()),
    ensures
        policy.block_reason(name) is Some,
        !policy.permits(name),
{
}

/// Without an allow list, just the denied names are blocked; without either
/// list, none is.
pub proof fn absent_allow_list_permits_what_is_not_denied(policy: Policy, name: Seq<char>)
    requires
        policy.allow is None,
    ensures
        policy.permits(name) <==> !any_matches(policy.deny, name),
        policy.deny.len() == 0 ==> policy.permits(name),
{
}

/// A name is permitted exactly when there is no reason to block it.
pub proof fn permitted_means_no_reason(policy: Policy, name: Seq<char>)
    ensures
        policy.permits(name) <==> policy.block_reason(name) is None,
{
}

} // verus!
