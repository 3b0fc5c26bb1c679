//! Text as sequences of characters: comparison, search and ordering.

use vstd::prelude::*;
use vstd::string::*;

verus! {

/// Whether `part` stands in `text`, starting at character `at`.
pub open spec fn stands_at(text: Seq<char>, part: Seq<char>, at: int) -> bool {
    &&& 0 <= at
    &&& at + part.len() <= text.len()
    &&& text.subrange(at, at + part.len()) == part
}

/// Whether `part` stands anywhere in `text`. The empty text stands in every text.
pub open spec fn occurs_in(part: Seq<char>, text: Seq<char>) -> bool {
    exists|at: int| stands_at(text, part, at)
}

/// Order by code points: the first differing character decides, and a proper
/// prefix comes before what it starts.
pub open spec fn precedes(a: Seq<char>, b: Seq<char>) -> bool
    decreases a.len(),
{
    if b.len() == 0 {
        false
    } else if a.len() == 0 {
        true
    } else if a[0] != b[0] {
        (a[0] as int) < (b[0] as int)
    } else {
        precedes(a.drop_first(), b.drop_first())
    }
}

/// The views of a sequence of strings.
pub open spec fn views(strings: Seq<String>) -> Seq<Seq<char>> {
    strings.map_values(|s: String| s@)
}

/// No text precedes itself.
pub proof fn precedes_irreflexive(a: Seq<char>)
    ensures
        !precedes(a, a),
    decreases a.len(),
{
    if a.len() > 0 {
        precedes_irreflexive(a.drop_first());
    }
}

/// The order is transitive.
pub proof fn precedes_transitive(a: Seq<char>, b: Seq<char>, c: Seq<char>)
    requires
        precedes(a, b),
        precedes(b, c),
    ensures
        precedes(a, c),
    decreases a.len(),
{
    if a.len() > 0 && a[0] == b[0] && b[0] == c[0] {
        precedes_transitive(a.drop_first(), b.drop_first(), c.drop_first());
    }
}

/// Two different texts are ordered one way or the other.
pub proof fn precedes_total(a: Seq<char>, b: Seq<char>)
    ensures
        a == b || precedes(a, b) || precedes(b, a),
    decreases a.len(),
{
    if a.len() == 0 {
        if b.len() == 0 {
            assert(a =~= b);
        }
    } else if b.len() > 0 && a[0] == b[0] {
        precedes_total(a.drop_first(), b.drop_first());
        assert(a =~= seq![a[0]] + a.drop_first());
        assert(b =~= seq![b[0]] + b.drop_first());
    }
}

/// The characters of `s`, in order.
pub fn chars_of(s: &str) -> (chars: Vec<char>)
    ensures
        chars@ == s@,
{
    let mut chars: Vec<char> = Vec::new();
    for c in it: s.chars()
        invariant
            it.seq() == s@,
            chars@ == s@.take(it.index() as int),
    {
        chars.push(c);
    }
    chars
}

/// Whether `part` stands in `text` at `at`.
pub fn matches_at(text: &Vec<char>, part: &Vec<char>, at: usize) -> (found: bool)
    ensures
        found == stands_at(text@, part@, at as int),
{
    if part.len() > text.len() || at > text.len() - part.len() {
        return false;
    }
    let mut k: usize = 0;
    while k < part.len()
        invariant
            k <= part.len(),
            at + part.len() <= text.len(),
            forall|j: int| 0 <= j < k ==> text@[at + j] == part@[j],
        decreases part.len() - k,
    {
        if text[at + k] != part[k] {
            assert(text@.subrange(at as int, at + part.len())[k as int] != part@[k as int]);
            return false;
        }
        k += 1;
    }
    assert(text@.subrange(at as int, at + part.len()) =~= part@);
    true
}

/// Whether `text` starts with `prefix`.
pub fn starts_with(text: &str, prefix: &str) -> (found: bool)
    ensures
        found == prefix@.is_prefix_of(text@),
{
    matches_at(&chars_of(text), &chars_of(prefix), 0)
}

/// Whether `text` ends with `suffix`.
pub fn ends_with(text: &str, suffix: &str) -> (found: bool)
    ensures
        found == suffix@.is_suffix_of(text@),
{
    let whole = chars_of(text);
    let part = chars_of(suffix);
    if part.len() > whole.len() {
        return false;
    }
    matches_at(&whole, &part, whole.len() - part.len())
}

/// Whether `part` stands anywhere in `text`.
pub fn contains(text: &str, part: &str) -> (found: bool)
    ensures
        found == occurs_in(part@, text@),
{
    find(text, part).is_some()
}

/// The first character position at which `part` stands in `text`.
pub fn find(text: &str, part: &str) -> (at: Option<usize>)
    ensures
        at is None <==> !occurs_in(part@, text@),
        at matches Some(i) ==> stands_at(text@, part@, i as int) && forall|j: int|
            0 <= j < i ==> !stands_at(text@, part@, j),
{
    let whole = chars_of(text);
    let wanted = chars_of(part);
    if wanted.len() > whole.len() {
        return None;
    }
    let mut at: usize = 0;
    while at <= whole.len() - wanted.len()
        invariant
            whole@ == text@,
            wanted@ == part@,
            wanted.len() <= whole.len(),
            at <= whole.len() - wanted.len() + 1,
            forall|j: int| 0 <= j < at ==> !stands_at(text@, part@, j),
        decreases whole.len() - wanted.len() + 1 - at,
    {
        if matches_at(&whole, &wanted, at) {
            return Some(at);
        }
        if at == whole.len() - wanted.len() {
            return None;
        }
        at += 1;
    }
    None
}

/// Whether two texts hold the same characters.
pub fn same(a: &str, b: &str) -> (equal: bool)
    ensures
        equal == (a@ == b@),
{
    let left = chars_of(a);
    let right = chars_of(b);
    if left.len() != right.len() {
        return false;
    }
    let equal = matches_at(&left, &right, 0);
    assert(a@.subrange(0, b@.len() as int) =~= a@);
    equal
}

/// Whether `a` comes before `b` in code point order.
pub fn comes_before(a: &str, b: &str) -> (before: bool)
    ensures
        before == precedes(a@, b@),
{
    let left = chars_of(a);
    let right = chars_of(b);
    let mut i: usize = 0;
    assert(a@.skip(0) =~= a@);
    assert(b@.skip(0) =~= b@);
    while i < left.len() && i < right.len()
        invariant
            left@ == a@,
            right@ == b@,
            i <= left.len(),
            i <= right.len(),
            precedes(a@, b@) == precedes(a@.skip(i as int), b@.skip(i as int)),
        decreases left.len() - i,
    {
        let c: char = left[i];
        let d: char = right[i];
        assert(a@.skip(i as int)[0] == c);
        assert(b@.skip(i as int)[0] == d);
        if c != d {
            return c < d;
        }
        assert(a@.skip(i as int).drop_first() =~= a@.skip(i + 1));
        assert(b@.skip(i as int).drop_first() =~= b@.skip(i + 1));
        i += 1;
    }
    i < right.len()
}

/// Whether each text precedes all that come after it.
pub open spec fn in_order(texts: Seq<Seq<char>>) -> bool {
    forall|i: int, j: int|
        0 <= i < j < texts.len() ==> precedes(#[trigger] texts[i], #[trigger] texts[j])
}

/// Puts `s` into an ordered list that does not hold it yet, in its place.
pub fn insert_in_order(list: &mut Vec<String>, s: String)
    requires
        in_order(views(old(list)@)),
        !views(old(list)@).contains(s@),
    ensures
        in_order(views(final(list)@)),
        views(final(list)@).to_set() == views(old(list)@).to_set().insert(s@),
        final(list)@.len() == old(list)@.len() + 1,
{
    let ghost before = views(list@);
    let ghost added = s@;
    let mut at: usize = 0;
    while at < list.len() && comes_before(list[at].as_str(), s.as_str())
        invariant
            before == views(list@),
            added == s@,
            at <= list.len(),
            forall|i: int| 0 <= i < at ==> precedes(#[trigger] before[i], added),
        decreases list.len() - at,
    {
        at += 1;
    }
    proof {
        assert forall|i: int| at <= i < before.len() implies precedes(
            added,
            #[trigger] before[i],
        ) by {
            precedes_total(before[at as int], added);
            assert(before[at as int] != added);
            if i > at {
                precedes_transitive(added, before[at as int], before[i]);
            }
        }
    }
    list.insert(at, s);
    proof {
        let after = views(list@);
        assert(after =~= before.insert(at as int, added));
        assert forall|i: int, j: int| 0 <= i < j < after.len() implies precedes(
            #[trigger] after[i],
            #[trigger] after[j],
        ) by {
            let old_i = if i > at {
                i - 1
            } else {
                i
            };
            let old_j = if j > at {
                j - 1
            } else {
                j
            };
            if i == at {
                assert(after[j] == before[old_j]);
            } else if j == at {
                assert(after[i] == before[old_i]);
            } else {
                assert(after[i] == before[old_i] && after[j] == before[old_j]);
            }
        }
        assert forall|t: Seq<char>| after.to_set().contains(t) <==> before.to_set().insert(
            added,
        ).contains(t) by {
            if before.contains(t) {
                let i = choose|i: int| 0 <= i < before.len() && before[i] == t;
                assert(after[if i < at {
                    i
                } else {
                    i + 1
                }] == t);
            }
            assert(after[at as int] == added);
            if after.contains(t) && t != added {
                let i = choose|i: int| 0 <= i < after.len() && after[i] == t;
                assert(before[if i < at {
                    i
                } else {
                    i - 1
                }] == t);
            }
        }
        assert(after.to_set() =~= before.to_set().insert(added));
    }
}

/// A set of texts can be put in order in one way only.
pub proof fn order_is_unique(a: Seq<Seq<char>>, b: Seq<Seq<char>>)
    requires
        in_order(a),
        in_order(b),
        a.to_set() == b.to_set(),
    ensures
        a == b,
    decreases a.len(),
{
    if a.len() == 0 || b.len() == 0 {
        if a.len() > 0 {
            assert(a.to_set().contains(a[0]));
            assert(b.contains(a[0]));
        }
        if b.len() > 0 {
            assert(b.to_set().contains(b[0]));
            assert(a.contains(b[0]));
        }
        assert(a =~= b);
    } else {
        last_is_greatest(a, b);
        last_is_greatest(b, a);
        assert(a.last() == b.last()) by {
            precedes_irreflexive(a.last());
            if a.last() != b.last() {
                precedes_transitive(a.last(), b.last(), a.last());
            }
        }
        drop_last_set(a);
        drop_last_set(b);
        order_is_unique(a.drop_last(), b.drop_last());
        assert(a =~= a.drop_last().push(a.last()));
        assert(b =~= b.drop_last().push(b.last()));
    }
}

proof fn last_is_greatest(a: Seq<Seq<char>>, b: Seq<Seq<char>>)
    requires
        in_order(b),
        a.to_set() == b.to_set(),
        a.len() > 0,
        b.len() > 0,
    ensures
        a.last() == b.last() || precedes(a.last(), b.last()),
{
    assert(a.to_set().contains(a.last()));
    assert(b.contains(a.last()));
    let i = choose|i: int| 0 <= i < b.len() && b[i] == a.last();
    if i < b.len() - 1 {
        assert(precedes(b[i], b[b.len() - 1]));
    }
}

proof fn drop_last_set(a: Seq<Seq<char>>)
    requires
        in_order(a),
        a.len() > 0,
    ensures
        in_order(a.drop_last()),
        a.drop_last().to_set() == a.to_set().remove(a.last()),
{
    let rest = a.drop_last();
    assert forall|i: int, j: int| 0 <= i < j < rest.len() implies precedes(
        #[trigger] rest[i],
        #[trigger] rest[j],
    ) by {
        assert(rest[i] == a[i] && rest[j] == a[j]);
    }
    assert forall|t: Seq<char>| rest.to_set().contains(t) <==> a.to_set().remove(
        a.last(),
    ).contains(t) by {
        if rest.contains(t) {
            let i = choose|i: int| 0 <= i < rest.len() && rest[i] == t;
            assert(a[i] == t);
            assert(precedes(a[i], a[a.len() - 1]));
            precedes_irreflexive(t);
        }
        if a.contains(t) && t != a.last() {
            let i = choose|i: int| 0 <= i < a.len() && a[i] == t;
            assert(rest[i] == t);
        }
    }
    assert(rest.to_set() =~= a.to_set().remove(a.last()));
}

} // verus!
