//! A map from text to values that is walked in the order of insertion.

use vstd::prelude::*;
use vstd::string::*;

use crate::text;

verus! {

/// A map keyed by text. Each key occurs once; a walk visits the keys in the
/// order in which they were first inserted.
#[derive(Debug)]
#[verifier::reject_recursive_types(V)]
pub struct Table<V> {
    entries: Vec<(String, V)>,
}

/// Whether each key of `rows` occurs once.
pub open spec fn keys_distinct<V>(rows: Seq<(Seq<char>, V)>) -> bool {
    forall|i: int, j: int|
        0 <= i < rows.len() && 0 <= j < rows.len() && i != j ==> #[trigger] rows[i].0
            != #[trigger] rows[j].0
}

/// Whether `key` is the key of row `i`.
pub open spec fn row_has_key<V>(rows: Seq<(Seq<char>, V)>, i: int, key: Seq<char>) -> bool {
    0 <= i < rows.len() && rows[i].0 == key
}

/// The map that `rows` spell out.
pub open spec fn as_map<V>(rows: Seq<(Seq<char>, V)>) -> Map<Seq<char>, V> {
    Map::new(
        |key: Seq<char>| exists|i: int| row_has_key(rows, i, key),
        |key: Seq<char>| rows[choose|i: int| row_has_key(rows, i, key)].1,
    )
}

/// A row's key leads to that row's value.
pub proof fn row_is_mapped<V>(rows: Seq<(Seq<char>, V)>, i: int)
    requires
        keys_distinct(rows),
        0 <= i < rows.len(),
    ensures
        as_map(rows).contains_key(rows[i].0),
        as_map(rows)[rows[i].0] == rows[i].1,
{
    assert(row_has_key(rows, i, rows[i].0));
    let j = choose|j: int| row_has_key(rows, j, rows[i].0);
    assert(row_has_key(rows, j, rows[i].0));
}

/// A map has as many keys as its rows are many.
pub proof fn map_len_is_row_count<V>(rows: Seq<(Seq<char>, V)>)
    requires
        keys_distinct(rows),
    ensures
        as_map(rows).dom().finite(),
        as_map(rows).len() == rows.len(),
{
    let keys = rows.map_values(|row: (Seq<char>, V)| row.0);
    assert(keys.no_duplicates());
    keys.unique_seq_to_set();
    assert(as_map(rows).dom() =~= keys.to_set()) by {
        assert forall|key: Seq<char>| as_map(rows).dom().contains(key) implies keys.to_set().contains(
            key,
        ) by {
            let i = choose|i: int| row_has_key(rows, i, key);
            assert(keys[i] == key);
        }
        assert forall|key: Seq<char>| keys.to_set().contains(key) implies as_map(
            rows,
        ).dom().contains(key) by {
            let i = choose|i: int| 0 <= i < keys.len() && keys[i] == key;
            assert(row_has_key(rows, i, key));
        }
    }
}

impl<V> Table<V> {
    /// The rows in the order of a walk.
    pub closed spec fn rows(self) -> Seq<(Seq<char>, V)> {
        self.entries@.map_values(|entry: (String, V)| (entry.0@, entry.1))
    }

    /// Each key occurs once.
    #[verifier::type_invariant]
    pub open spec fn well_formed(self) -> bool {
        keys_distinct(self.rows())
    }

    /// An empty table.
    pub fn new() -> (table: Self)
        ensures
            table.well_formed(),
            table.rows() == Seq::<(Seq<char>, V)>::empty(),
            table@ == Map::<Seq<char>, V>::empty(),
    {
        let table = Table { entries: Vec::new() };
        assert(table.rows() =~= Seq::<(Seq<char>, V)>::empty());
        assert(table@ =~= Map::<Seq<char>, V>::empty());
        table
    }

    /// The number of keys.
    pub fn len(&self) -> (count: usize)
        ensures
            self.well_formed(),
            count == self.rows().len(),
            count == self@.len(),
    {
        proof {
            use_type_invariant(self);
            map_len_is_row_count(self.rows());
        }
        self.entries.len()
    }

    /// Whether the table holds no key.
    pub fn is_empty(&self) -> (empty: bool)
        ensures
            empty == (self.rows().len() == 0),
            empty == (self@ == Map::<Seq<char>, V>::empty()),
    {
        let empty = self.entries.len() == 0;
        proof {
            if empty {
                assert(self@ =~= Map::<Seq<char>, V>::empty());
            } else {
                assert(row_has_key(self.rows(), 0, self.rows()[0].0));
                assert(self@.contains_key(self.rows()[0].0));
            }
        }
        empty
    }

    /// The key of row `i`.
    pub fn key_at(&self, i: usize) -> (key: &String)
        requires
            i < self.rows().len(),
        ensures
            self.well_formed(),
            key@ == self.rows()[i as int].0,
    {
        proof {
            use_type_invariant(self);
        }
        &self.entries[i].0
    }

    /// The value of row `i`.
    pub fn value_at(&self, i: usize) -> (value: &V)
        requires
            i < self.rows().len(),
        ensures
            self.well_formed(),
            *value == self.rows()[i as int].1,
    {
        proof {
            use_type_invariant(self);
        }
        &self.entries[i].1
    }

    /// The row that holds `key`.
    pub fn find(&self, key: &str) -> (row: Option<usize>)
        ensures
            self.well_formed(),
            row is Some <==> self@.contains_key(key@),
            row matches Some(i) ==> row_has_key(self.rows(), i as int, key@) && self@[key@]
                == self.rows()[i as int].1,
    {
        proof {
            use_type_invariant(self);
        }
        let mut i: usize = 0;
        while i < self.entries.len()
            invariant
                self.well_formed(),
                i <= self.entries.len(),
                forall|j: int| 0 <= j < i ==> !row_has_key(self.rows(), j, key@),
            decreases self.entries.len() - i,
        {
            if text::same(self.entries[i].0.as_str(), key) {
                proof {
                    row_is_mapped(self.rows(), i as int);
                }
                return Some(i);
            }
            i += 1;
        }
        None
    }

    /// The value under `key`.
    pub fn get(&self, key: &str) -> (value: Option<&V>)
        ensures
            self.well_formed(),
            match value {
                Some(v) => self@.contains_key(key@) && *v == self@[key@],
                None => !self@.contains_key(key@),
            },
    {
        match self.find(key) {
            Some(i) => Some(self.value_at(i)),
            None => None,
        }
    }

    /// Puts `value` under `key` and hands back what stood there. A key that was
    /// there keeps its place in the walk; a new one comes last.
    pub fn insert(&mut self, key: String, value: V) -> (previous: Option<V>)
        ensures
            final(self).well_formed(),
            final(self)@ == old(self)@.insert(key@, value),
            match previous {
                Some(v) => old(self)@.contains_key(key@) && v == old(self)@[key@],
                None => !old(self)@.contains_key(key@),
            },
            !old(self)@.contains_key(key@) ==> final(self).rows() == old(self).rows().push(
                (key@, value),
            ),
            forall|i: int|
                #[trigger] row_has_key(old(self).rows(), i, key@) ==> final(self).rows()
                    == old(self).rows().update(i, (key@, value)),
    {
        proof {
            use_type_invariant(&*self);
        }
        let ghost before = self.rows();
        let place = self.find(key.as_str());
        let ghost view = key@;
        let mut entries: Vec<(String, V)> = Vec::new();
        std::mem::swap(&mut entries, &mut self.entries);
        let previous = match place {
            Some(i) => {
                let (_, v) = entries.remove(i);
                entries.insert(i, (key, value));
                Some(v)
            },
            None => {
                entries.push((key, value));
                None
            },
        };
        let ghost after = entries@.map_values(|entry: (String, V)| (entry.0@, entry.1));
        proof {
            match place {
                Some(i) => {
                    assert(after =~= before.update(i as int, (view, value)));
                },
                None => {
                    assert forall|i: int| 0 <= i < before.len() implies before[i].0 != view by {
                        if before[i].0 == view {
                            assert(row_has_key(before, i, view));
                        }
                    }
                    assert(after =~= before.push((view, value)));
                },
            }
            assert(keys_distinct(after));
        }
        self.entries = entries;
        proof {
            insert_maps(before, after, view, value);
        }
        previous
    }

    /// Takes row `i` out of the table.
    pub fn remove_at(&mut self, i: usize) -> (row: (String, V))
        requires
            i < old(self).rows().len(),
        ensures
            final(self).well_formed(),
            final(self).rows() == old(self).rows().remove(i as int),
            (row.0@, row.1) == old(self).rows()[i as int],
    {
        proof {
            use_type_invariant(&*self);
        }
        let ghost before = self.rows();
        let mut entries: Vec<(String, V)> = Vec::new();
        std::mem::swap(&mut entries, &mut self.entries);
        let row = entries.remove(i);
        let ghost after = entries@.map_values(|entry: (String, V)| (entry.0@, entry.1));
        assert(after =~= before.remove(i as int));
        self.entries = entries;
        row
    }

    /// Puts a row in at place `i`, under a key that the table does not hold.
    pub fn insert_at(&mut self, i: usize, key: String, value: V)
        requires
            i <= old(self).rows().len(),
            !old(self)@.contains_key(key@),
        ensures
            final(self).well_formed(),
            final(self).rows() == old(self).rows().insert(i as int, (key@, value)),
    {
        proof {
            use_type_invariant(&*self);
        }
        let ghost before = self.rows();
        let ghost view = key@;
        proof {
            assert forall|j: int| 0 <= j < before.len() implies before[j].0 != view by {
                if before[j].0 == view {
                    assert(row_has_key(before, j, view));
                }
            }
        }
        let mut entries: Vec<(String, V)> = Vec::new();
        std::mem::swap(&mut entries, &mut self.entries);
        entries.insert(i, (key, value));
        let ghost after = entries@.map_values(|entry: (String, V)| (entry.0@, entry.1));
        assert(after =~= before.insert(i as int, (view, value)));
        self.entries = entries;
    }

    /// The rows, handed out in the order of a walk.
    pub fn into_rows(self) -> (rows: Vec<(String, V)>)
        ensures
            self.well_formed(),
            rows@.map_values(|entry: (String, V)| (entry.0@, entry.1)) == self.rows(),
    {
        proof {
            use_type_invariant(&self);
        }
        self.entries
    }
}

/// Writing a row, in place or at the end, is an insertion into the map.
pub proof fn insert_maps<V>(
    before: Seq<(Seq<char>, V)>,
    after: Seq<(Seq<char>, V)>,
    key: Seq<char>,
    value: V,
)
    requires
        keys_distinct(before),
        keys_distinct(after),
        (!as_map(before).contains_key(key) && after == before.push((key, value))) || exists|i: int|
            row_has_key(before, i, key) && after == before.update(i, (key, value)),
    ensures
        as_map(after) == as_map(before).insert(key, value),
{
    let place = if after.len() > before.len() {
        before.len() as int
    } else {
        choose|i: int| row_has_key(before, i, key) && after == before.update(i, (key, value))
    };
    assert(row_has_key(after, place, key));
    row_is_mapped(after, place);
    let left = as_map(after);
    let right = as_map(before).insert(key, value);
    assert forall|k: Seq<char>| #[trigger]
        left.dom().contains(k) implies right.dom().contains(k) && left[k] == right[k] by {
        let i = choose|i: int| row_has_key(after, i, k);
        assert(row_has_key(after, i, k));
        row_is_mapped(after, i);
        if k != key {
            assert(row_has_key(before, i, k));
            row_is_mapped(before, i);
        }
    }
    assert forall|k: Seq<char>| #[trigger] right.dom().contains(k) implies left.dom().contains(
        k,
    ) by {
        if k != key {
            let i = choose|i: int| row_has_key(before, i, k);
            assert(row_has_key(before, i, k));
            assert(row_has_key(after, i, k));
        }
    }
    assert(left =~= right);
}

impl<V> View for Table<V> {
    type V = Map<Seq<char>, V>;

    open spec fn view(&self) -> Map<Seq<char>, V> {
        as_map(self.rows())
    }
}

impl<V: Clone> Clone for Table<V> {
    fn clone(&self) -> (copy: Self)
        ensures
            copy.well_formed(),
            copy.rows().len() == self.rows().len(),
            forall|i: int|
                0 <= i < self.rows().len() ==> (#[trigger] copy.rows()[i]).0 == self.rows()[i].0
                    && cloned::<V>(self.rows()[i].1, copy.rows()[i].1),
    {
        proof {
            use_type_invariant(self);
        }
        let mut entries: Vec<(String, V)> = Vec::new();
        let mut i: usize = 0;
        while i < self.entries.len()
            invariant
                i <= self.entries.len(),
                entries.len() == i,
                forall|j: int|
                    0 <= j < i ==> (#[trigger] entries@[j]).0@ == self.entries@[j].0@ && cloned::<V>(
                        self.entries@[j].1,
                        entries@[j].1,
                    ),
            decreases self.entries.len() - i,
        {
            entries.push((self.entries[i].0.clone(), self.entries[i].1.clone()));
            i += 1;
        }
        let ghost rows = entries@.map_values(|entry: (String, V)| (entry.0@, entry.1));
        assert forall|a: int, b: int|
            0 <= a < rows.len() && 0 <= b < rows.len() && a != b implies #[trigger] rows[a].0
            != #[trigger] rows[b].0 by {
            assert(self.rows()[a].0 != self.rows()[b].0);
        }
        Table { entries }
    }
}

impl<V> Default for Table<V> {
    fn default() -> (table: Self)
        ensures
            table.well_formed(),
            table.rows() == Seq::<(Seq<char>, V)>::empty(),
            table@ == Map::<Seq<char>, V>::empty(),
    {
        Table::new()
    }
}

} // verus!
