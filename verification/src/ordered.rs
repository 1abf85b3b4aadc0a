//! Maps with text keys, kept as entries in ascending order of their keys.
use crate::text::{
    precedes, same_text, text_before, text_before_irreflexive, text_before_total,
    text_before_transitive,
};
use vstd::prelude::*;

verus! {

/// The map that a list of entries stands for: of two entries with one key, the
/// later one counts.
pub open spec fn entry_map<V>(entries: Seq<(String, V)>) -> Map<Seq<char>, V>
    decreases entries.len(),
{
    if entries.len() == 0 {
        Map::empty()
    } else {
        entry_map(entries.drop_last()).insert(entries.last().0@, entries.last().1)
    }
}

/// Keys in strictly ascending order, so that none occurs twice.
pub open spec fn ascending<V>(entries: Seq<(String, V)>) -> bool {
    forall|i: int, j: int|
        #![trigger entries[i], entries[j]]
        0 <= i < j < entries.len() ==> text_before(entries[i].0@, entries[j].0@)
}

/// The keys of a list of entries are the keys of its map.
pub proof fn entry_map_keys<V>(entries: Seq<(String, V)>, key: Seq<char>)
    ensures
        entry_map(entries).contains_key(key) <==> exists|i: int|
            0 <= i < entries.len() && #[trigger] entries[i].0@ == key,
    decreases entries.len(),
{
    if entries.len() > 0 {
        let rest = entries.drop_last();
        entry_map_keys(rest, key);
        assert(forall|i: int| 0 <= i < rest.len() ==> rest[i] == entries[i]);
        if entry_map(rest).contains_key(key) {
            let i = choose|i: int| 0 <= i < rest.len() && #[trigger] rest[i].0@ == key;
            assert(entries[i].0@ == key);
        }
        if exists|i: int| 0 <= i < entries.len() && #[trigger] entries[i].0@ == key {
            let i = choose|i: int| 0 <= i < entries.len() && #[trigger] entries[i].0@ == key;
            if i < rest.len() {
                assert(rest[i].0@ == key);
            }
        }
        assert(entries[entries.len() - 1] == entries.last());
    }
}

/// In ascending entries each key has the value of its one entry.
pub proof fn entry_map_value<V>(entries: Seq<(String, V)>, i: int)
    requires
        ascending(entries),
        0 <= i < entries.len(),
    ensures
        entry_map(entries).contains_key(entries[i].0@),
        entry_map(entries)[entries[i].0@] == entries[i].1,
    decreases entries.len(),
{
    if i < entries.len() - 1 {
        entry_map_value(entries.drop_last(), i);
        text_before_irreflexive(entries[i].0@);
        assert(text_before(entries[i].0@, entries[entries.len() - 1].0@));
    }
}

/// The value of the last entry with a key.
pub fn find_entry<'a, V>(entries: &'a Vec<(String, V)>, key: &str) -> (found: Option<&'a V>)
    ensures
        match found {
            Some(value) => entry_map(entries@).contains_key(key@) && entry_map(entries@)[key@]
                == *value,
            None => !entry_map(entries@).contains_key(key@),
        },
{
    let mut end: usize = entries.len();
    assert(entries@.take(end as int) =~= entries@);
    while end > 0
        invariant
            end <= entries.len(),
            entry_map(entries@).contains_key(key@) == entry_map(
                entries@.take(end as int),
            ).contains_key(key@),
            entry_map(entries@)[key@] == entry_map(entries@.take(end as int))[key@],
        decreases end,
    {
        assert(entries@.take(end as int).drop_last() =~= entries@.take(end - 1));
        assert(entries@.take(end as int).last() == entries@[end - 1]);
        if same_text(entries[end - 1].0.as_str(), key) {
            return Some(&entries[end - 1].1);
        }
        end -= 1;
    }
    None
}

/// Sets the value of a key in ascending entries and returns the value it had.
pub fn insert_entry<V>(entries: &mut Vec<(String, V)>, key: String, value: V) -> (previous: Option<
    V,
>)
    requires
        ascending(old(entries)@),
    ensures
        ascending(final(entries)@),
        entry_map(final(entries)@) == entry_map(old(entries)@).insert(key@, value),
        match previous {
            Some(was) => entry_map(old(entries)@).contains_key(key@) && entry_map(
                old(entries)@,
            )[key@] == was,
            None => !entry_map(old(entries)@).contains_key(key@),
        },
{
    let ghost before = entries@;
    let mut at: usize = entries.len();
    while at > 0 && precedes(key.as_str(), entries[at - 1].0.as_str())
        invariant
            at <= entries.len(),
            entries@ == before,
            forall|j: int| at <= j < before.len() ==> text_before(key@, #[trigger] before[j].0@),
        decreases at,
    {
        at -= 1;
    }
    let ghost k = key@;
    if at > 0 && same_text(entries[at - 1].0.as_str(), key.as_str()) {
        let (_, was) = entries.remove(at - 1);
        entries.insert(at - 1, (key, value));
        proof {
            assert(entries@ =~= before.update(at - 1, (key, value)));
            entry_map_value(before, at - 1);
            entries_with_one_set(before, entries@, at - 1);
        }
        Some(was)
    } else {
        proof {
            assert forall|j: int| 0 <= j < at implies text_before(#[trigger] before[j].0@, k) by {
                text_before_total(before[at - 1].0@, k);
                if j < at - 1 {
                    text_before_transitive(before[j].0@, before[at - 1].0@, k);
                }
            }
            entry_map_keys(before, k);
            assert forall|j: int| 0 <= j < before.len() implies #[trigger] before[j].0@ != k by {
                text_before_irreflexive(k);
            }
        }
        entries.insert(at, (key, value));
        proof {
            assert(entries@ =~= before.insert(at as int, (key, value)));
            assert(ascending(entries@));
            entries_with_one_more(before, entries@, at as int);
        }
        None
    }
}

proof fn entries_with_one_set<V>(before: Seq<(String, V)>, after: Seq<(String, V)>, at: int)
    requires
        ascending(before),
        0 <= at < before.len(),
        after == before.update(at, after[at]),
        after[at].0@ == before[at].0@,
    ensures
        ascending(after),
        entry_map(after) == entry_map(before).insert(after[at].0@, after[at].1),
{
    assert(forall|i: int| 0 <= i < before.len() ==> after[i].0@ == before[i].0@);
    assert forall|i: int, j: int| 0 <= i < j < after.len() implies text_before(
        (#[trigger] after[i]).0@,
        (#[trigger] after[j]).0@,
    ) by {
        assert(text_before(before[i].0@, before[j].0@));
    }
    let expected = entry_map(before).insert(after[at].0@, after[at].1);
    assert forall|key: Seq<char>| entry_map(after).contains_key(key)
        == #[trigger] expected.contains_key(key) by {
        entry_map_keys(after, key);
        entry_map_keys(before, key);
        if entry_map(before).contains_key(key) {
            let i = choose|i: int| 0 <= i < before.len() && #[trigger] before[i].0@ == key;
            assert(after[i].0@ == key);
        }
        assert(after[at].0@ == before[at].0@);
    }
    assert forall|key: Seq<char>| #[trigger] expected.contains_key(key) implies entry_map(after)[key]
        == expected[key] by {
        entry_map_keys(after, key);
        let i = choose|i: int| 0 <= i < after.len() && #[trigger] after[i].0@ == key;
        entry_map_value(after, i);
        entry_map_value(before, i);
        if i != at {
            text_before_irreflexive(key);
            if i < at {
                assert(text_before(after[i].0@, after[at].0@));
            } else {
                assert(text_before(after[at].0@, after[i].0@));
            }
        }
    }
    assert(entry_map(after) =~= expected);
}

proof fn entries_with_one_more<V>(before: Seq<(String, V)>, after: Seq<(String, V)>, at: int)
    requires
        ascending(before),
        ascending(after),
        0 <= at <= before.len(),
        after == before.insert(at, after[at]),
    ensures
        entry_map(after) == entry_map(before).insert(after[at].0@, after[at].1),
{
    let expected = entry_map(before).insert(after[at].0@, after[at].1);
    assert forall|key: Seq<char>| entry_map(after).contains_key(key)
        == #[trigger] expected.contains_key(key) by {
        entry_map_keys(after, key);
        entry_map_keys(before, key);
        if entry_map(before).contains_key(key) {
            let i = choose|i: int| 0 <= i < before.len() && #[trigger] before[i].0@ == key;
            assert(after[if i < at { i } else { i + 1 }].0@ == key);
        }
        if entry_map(after).contains_key(key) {
            let i = choose|i: int| 0 <= i < after.len() && #[trigger] after[i].0@ == key;
            if i != at {
                assert(before[if i < at { i } else { i - 1 }].0@ == key);
            }
        }
    }
    assert forall|key: Seq<char>| #[trigger] expected.contains_key(key) implies entry_map(after)[key]
        == expected[key] by {
        entry_map_keys(after, key);
        let i = choose|i: int| 0 <= i < after.len() && #[trigger] after[i].0@ == key;
        entry_map_value(after, i);
        if i != at {
            let was = if i < at { i } else { i - 1 };
            assert(before[was] == after[i]);
            entry_map_value(before, was);
            text_before_irreflexive(key);
            if i < at {
                assert(text_before(after[i].0@, after[at].0@));
            } else {
                assert(text_before(after[at].0@, after[i].0@));
            }
        }
    }
    assert(entry_map(after) =~= expected);
}

/// A map with text keys, walked in ascending order of the keys.
#[derive(Debug, PartialEq)]
pub struct TextMap<V> {
    entries: Vec<(String, V)>,
}

impl<V> View for TextMap<V> {
    type V = Map<Seq<char>, V>;

    closed spec fn view(&self) -> Map<Seq<char>, V> {
        entry_map(self.entries@)
    }
}

impl<V> TextMap<V> {
    #[verifier::type_invariant]
    spec fn in_order(self) -> bool {
        ascending(self.entries@)
    }

    /// The entries in the order in which they are walked.
    pub closed spec fn entries(self) -> Seq<(String, V)> {
        self.entries@
    }

    /// The map without entries.
    pub fn new() -> (map: Self)
        ensures
            map.entries() == Seq::<(String, V)>::empty(),
            map@ == Map::<Seq<char>, V>::empty(),
    {
        TextMap { entries: Vec::new() }
    }

    /// The number of entries.
    pub fn len(&self) -> (len: usize)
        ensures
            len == self.entries().len(),
            ascending(self.entries()),
            self@ == entry_map(self.entries()),
    {
        proof {
            use_type_invariant(self);
        }
        self.entries.len()
    }

    /// The entry at a position in ascending order of the keys.
    pub fn entry(&self, position: usize) -> (entry: &(String, V))
        requires
            position < self.entries().len(),
        ensures
            *entry == self.entries()[position as int],
    {
        &self.entries[position]
    }

    /// The value of a key.
    pub fn get(&self, key: &str) -> (found: Option<&V>)
        ensures
            match found {
                Some(value) => self@.contains_key(key@) && self@[key@] == *value,
                None => !self@.contains_key(key@),
            },
    {
        find_entry(&self.entries, key)
    }

    /// Sets the value of a key and returns the value it had.
    pub fn insert(&mut self, key: String, value: V) -> (previous: Option<V>)
        ensures
            final(self)@ == old(self)@.insert(key@, value),
            ascending(final(self).entries()),
            final(self)@ == entry_map(final(self).entries()),
            match previous {
                Some(was) => old(self)@.contains_key(key@) && old(self)@[key@] == was,
                None => !old(self)@.contains_key(key@),
            },
    {
        proof {
            use_type_invariant(&*self);
        }
        let mut entries: Vec<(String, V)> = Vec::new();
        std::mem::swap(&mut entries, &mut self.entries);
        let previous = insert_entry(&mut entries, key, value);
        self.entries = entries;
        previous
    }
}

impl<V: Clone> Clone for TextMap<V> {
    /// A map with the same keys, each with a clone of its value.
    fn clone(&self) -> (copy: Self)
        ensures
            copy.entries().len() == self.entries().len(),
            forall|i: int|
                0 <= i < self.entries().len() ==> {
                    &&& (#[trigger] copy.entries()[i]).0 == self.entries()[i].0
                    &&& cloned(self.entries()[i].1, copy.entries()[i].1)
                },
    {
        proof {
            use_type_invariant(self);
        }
        let mut entries: Vec<(String, V)> = Vec::new();
        let mut i: usize = 0;
        while i < self.entries.len()
            invariant
                i <= self.entries.len(),
                entries.len() == i,
                forall|j: int|
                    0 <= j < i ==> {
                        &&& (#[trigger] entries@[j]).0 == self.entries@[j].0
                        &&& cloned(self.entries@[j].1, entries@[j].1)
                    },
            decreases self.entries.len() - i,
        {
            entries.push((self.entries[i].0.clone(), self.entries[i].1.clone()));
            i += 1;
        }
        assert(ascending(entries@)) by {
            assert forall|i: int, j: int| 0 <= i < j < entries@.len() implies text_before(
                (#[trigger] entries@[i]).0@,
                (#[trigger] entries@[j]).0@,
            ) by {
                assert(text_before(self.entries@[i].0@, self.entries@[j].0@));
            }
        }
        TextMap { entries }
    }
}

} // verus!
