//! A map from texts to values, walked in the order of its keys.

use vstd::prelude::*;

use crate::order::{
    ascending, lemma_irreflexive, lemma_total, lemma_transitive, precedes, text_precedes,
};
use crate::text::same_text;

verus! {

/// A value under its key.
#[derive(Debug)]
struct Entry<V> {
    key: String,
    value: V,
}

/// A map from texts to values, walked in the order of its keys. That keeps
/// what is made from it deterministic.
#[derive(Debug)]
pub struct SortedMap<V> {
    entries: Vec<Entry<V>>,
}

/// The keys of a list of entries.
pub open spec fn keys<T>(entries: Seq<(Seq<char>, T)>) -> Seq<Seq<char>> {
    entries.map_values(|entry: (Seq<char>, T)| entry.0)
}

/// The value under `key`.
pub open spec fn lookup<T>(entries: Seq<(Seq<char>, T)>, key: Seq<char>) -> Option<T>
    decreases entries.len(),
{
    if entries.len() == 0 {
        None
    } else if entries[0].0 == key {
        Some(entries[0].1)
    } else {
        lookup(entries.skip(1), key)
    }
}

/// `entries` with `value` under `key`: in place of what stood there, or where
/// the order of the keys calls for it.
pub open spec fn put<T>(entries: Seq<(Seq<char>, T)>, key: Seq<char>, value: T) -> Seq<
    (Seq<char>, T),
>
    decreases entries.len(),
{
    if entries.len() == 0 || precedes(key, entries[0].0) {
        seq![(key, value)] + entries
    } else if entries[0].0 == key {
        seq![(key, value)] + entries.skip(1)
    } else {
        seq![entries[0]] + put(entries.skip(1), key, value)
    }
}

/// What `lookup` finds stands at the first position that has the key.
pub proof fn lemma_lookup_at<T>(entries: Seq<(Seq<char>, T)>, at: int)
    requires
        0 <= at < entries.len(),
        forall|i: int| 0 <= i < at ==> (#[trigger] entries[i]).0 != entries[at].0,
    ensures
        lookup(entries, entries[at].0) == Some(entries[at].1),
    decreases entries.len(),
{
    if at > 0 {
        assert forall|i: int| 0 <= i < at - 1 implies (#[trigger] entries.skip(1)[i]).0
            != entries[at].0 by {
            assert(entries.skip(1)[i] == entries[i + 1]);
        }
        lemma_lookup_at(entries.skip(1), at - 1);
        assert(entries[0].0 != entries[at].0);
    }
}

/// `lookup` finds nothing where no entry has the key.
pub proof fn lemma_lookup_none<T>(entries: Seq<(Seq<char>, T)>, key: Seq<char>)
    requires
        forall|i: int| 0 <= i < entries.len() ==> (#[trigger] entries[i]).0 != key,
    ensures
        lookup(entries, key) is None,
    decreases entries.len(),
{
    if entries.len() > 0 {
        assert forall|i: int| 0 <= i < entries.skip(1).len() implies (#[trigger] entries.skip(
            1,
        )[i]).0 != key by {
            assert(entries.skip(1)[i] == entries[i + 1]);
        }
        lemma_lookup_none(entries.skip(1), key);
    }
}

/// What `lookup` finds stands somewhere.
pub proof fn lemma_lookup_found<T>(entries: Seq<(Seq<char>, T)>, key: Seq<char>) -> (at: int)
    requires
        lookup(entries, key) is Some,
    ensures
        0 <= at < entries.len(),
        entries[at].0 == key,
        lookup(entries, key) == Some(entries[at].1),
    decreases entries.len(),
{
    if entries[0].0 == key {
        0
    } else {
        let rest = lemma_lookup_found(entries.skip(1), key);
        assert(entries.skip(1)[rest] == entries[rest + 1]);
        rest + 1
    }
}

/// In a map every entry is the one found under its key.
pub proof fn lemma_every_entry_is_found<T>(entries: Seq<(Seq<char>, T)>, at: int)
    requires
        ascending(keys(entries)),
        0 <= at < entries.len(),
    ensures
        lookup(entries, entries[at].0) == Some(entries[at].1),
{
    assert forall|i: int| 0 <= i < at implies (#[trigger] entries[i]).0 != entries[at].0 by {
        assert(precedes(keys(entries)[i], keys(entries)[at]));
        lemma_irreflexive(entries[at].0);
    }
    lemma_lookup_at(entries, at);
}

/// Putting a value under a key changes what is found under that key alone.
pub proof fn lemma_put_lookup<T>(
    entries: Seq<(Seq<char>, T)>,
    key: Seq<char>,
    value: T,
    other: Seq<char>,
)
    requires
        ascending(keys(entries)),
    ensures
        lookup(put(entries, key, value), other) == (if other == key {
            Some(value)
        } else {
            lookup(entries, other)
        }),
    decreases entries.len(),
{
    let after = put(entries, key, value);
    if entries.len() == 0 || precedes(key, entries[0].0) {
        assert(after.skip(1) == entries);
    } else if entries[0].0 == key {
        assert(after.skip(1) == entries.skip(1));
    } else {
        assert(after.skip(1) == put(entries.skip(1), key, value));
        assert(keys(entries.skip(1)) == keys(entries).skip(1));
        lemma_put_lookup(entries.skip(1), key, value, other);
    }
}

/// Putting a value under a key keeps the order.
pub proof fn lemma_put_ascending<T>(entries: Seq<(Seq<char>, T)>, key: Seq<char>, value: T)
    requires
        ascending(keys(entries)),
    ensures
        ascending(keys(put(entries, key, value))),
        forall|i: int|
            0 <= i < put(entries, key, value).len() ==> (#[trigger] put(entries, key, value)[i]).0
                == key || keys(entries).contains(put(entries, key, value)[i].0),
    decreases entries.len(),
{
    let before = keys(entries);
    let after = put(entries, key, value);
    if entries.len() == 0 || precedes(key, entries[0].0) {
        assert(keys(after) == seq![key] + before);
        assert forall|i: int, j: int| 0 <= i < j < keys(after).len() implies precedes(
            #[trigger] keys(after)[i],
            #[trigger] keys(after)[j],
        ) by {
            assert(keys(after)[j] == before[j - 1]);
            if i > 0 {
                assert(keys(after)[i] == before[i - 1]);
            } else if j > 1 {
                assert(precedes(before[0], before[j - 1]));
                lemma_transitive(key, before[0], before[j - 1]);
            }
        }
        assert forall|i: int| 0 <= i < after.len() implies (#[trigger] after[i]).0 == key
            || before.contains(after[i].0) by {
            if i > 0 {
                assert(before[i - 1] == after[i].0);
            }
        }
    } else if entries[0].0 == key {
        assert(keys(after) == before);
        assert forall|i: int| 0 <= i < after.len() implies (#[trigger] after[i]).0 == key
            || before.contains(after[i].0) by {
            assert(before[i] == after[i].0);
        }
    } else {
        let rest = entries.skip(1);
        assert(keys(rest) == before.skip(1));
        lemma_put_ascending(rest, key, value);
        let placed = put(rest, key, value);
        assert(keys(after) == seq![before[0]] + keys(placed));
        lemma_total(key, entries[0].0);
        assert forall|i: int, j: int| 0 <= i < j < keys(after).len() implies precedes(
            #[trigger] keys(after)[i],
            #[trigger] keys(after)[j],
        ) by {
            assert(keys(after)[j] == keys(placed)[j - 1]);
            if i > 0 {
                assert(keys(after)[i] == keys(placed)[i - 1]);
            } else {
                assert(placed[j - 1].0 == keys(placed)[j - 1]);
                if placed[j - 1].0 != key {
                    let k = choose|k: int|
                        0 <= k < keys(rest).len() && keys(rest)[k] == placed[j - 1].0;
                    assert(precedes(before[0], before[k + 1]));
                }
            }
        }
        assert forall|i: int| 0 <= i < after.len() implies (#[trigger] after[i]).0 == key
            || before.contains(after[i].0) by {
            if i == 0 {
                assert(before[0] == after[0].0);
            } else {
                assert(after[i] == placed[i - 1]);
                if placed[i - 1].0 != key {
                    let k = choose|k: int|
                        0 <= k < keys(rest).len() && keys(rest)[k] == placed[i - 1].0;
                    assert(before[k + 1] == after[i].0);
                }
            }
        }
    }
}

/// Where `put` puts.
proof fn lemma_put_at<T>(entries: Seq<(Seq<char>, T)>, key: Seq<char>, value: T, at: int)
    requires
        0 <= at <= entries.len(),
        forall|k: int| 0 <= k < at ==> precedes((#[trigger] entries[k]).0, key),
        at < entries.len() ==> !precedes(entries[at].0, key),
    ensures
        put(entries, key, value) == (if at < entries.len() && entries[at].0 == key {
            entries.update(at, (key, value))
        } else {
            entries.insert(at, (key, value))
        }),
    decreases entries.len(),
{
    if at == 0 {
        if entries.len() > 0 {
            lemma_total(key, entries[0].0);
            lemma_irreflexive(key);
        }
    } else {
        assert(precedes(entries[0].0, key));
        if precedes(key, entries[0].0) {
            lemma_transitive(key, entries[0].0, key);
        }
        lemma_irreflexive(key);
        assert forall|k: int| 0 <= k < at - 1 implies precedes(
            (#[trigger] entries.skip(1)[k]).0,
            key,
        ) by {
            assert(entries.skip(1)[k] == entries[k + 1]);
        }
        lemma_put_at(entries.skip(1), key, value, at - 1);
    }
}

impl<V: View> View for Entry<V> {
    type V = (Seq<char>, V::V);

    closed spec fn view(&self) -> (Seq<char>, V::V) {
        (self.key@, self.value@)
    }
}

impl<V: View> View for SortedMap<V> {
    type V = Seq<(Seq<char>, V::V)>;

    closed spec fn view(&self) -> Seq<(Seq<char>, V::V)> {
        self.entries@.map_values(|entry: Entry<V>| entry@)
    }
}

/// The keys of the entries as they are held.
spec fn held_keys<V>(entries: Seq<Entry<V>>) -> Seq<Seq<char>> {
    entries.map_values(|entry: Entry<V>| entry.key@)
}

impl<V> SortedMap<V> {
    #[verifier::type_invariant]
    spec fn ordered(self) -> bool {
        ascending(held_keys(self.entries@))
    }
}

impl<V: View> SortedMap<V> {
    /// A map without entries.
    pub fn new() -> (result: Self)
        ensures
            result@ == Seq::<(Seq<char>, V::V)>::empty(),
    {
        let entries: Vec<Entry<V>> = Vec::new();
        assert(held_keys(entries@).len() == 0);
        let result = SortedMap { entries };
        assert(result@ == Seq::<(Seq<char>, V::V)>::empty());
        result
    }

    /// How many entries there are.
    pub fn len(&self) -> (result: usize)
        ensures
            result == self@.len(),
            ascending(keys(self@)),
    {
        proof {
            use_type_invariant(self);
            assert(keys(self@) == held_keys(self.entries@));
        }
        self.entries.len()
    }

    /// Whether there is no entry.
    pub fn is_empty(&self) -> (result: bool)
        ensures
            result == (self@.len() == 0),
    {
        self.entries.len() == 0
    }

    /// The key at position `index`, in order.
    pub fn key_at(&self, index: usize) -> (result: &String)
        requires
            index < self@.len(),
        ensures
            result@ == self@[index as int].0,
    {
        &self.entries[index].key
    }

    /// The value at position `index`, in the order of the keys.
    pub fn value_at(&self, index: usize) -> (result: &V)
        requires
            index < self@.len(),
        ensures
            result@ == self@[index as int].1,
    {
        &self.entries[index].value
    }

    /// The value under `key`.
    pub fn get(&self, key: &str) -> (result: Option<&V>)
        ensures
            result is Some == lookup(self@, key@) is Some,
            result matches Some(value) ==> Some(value@) == lookup(self@, key@),
    {
        let mut i: usize = 0;
        while i < self.entries.len()
            invariant
                i <= self.entries@.len(),
                forall|k: int| 0 <= k < i ==> (#[trigger] self@[k]).0 != key@,
            decreases self.entries@.len() - i,
        {
            if same_text(self.entries[i].key.as_str(), key) {
                proof {
                    lemma_lookup_at(self@, i as int);
                }
                return Some(&self.entries[i].value);
            }
            assert(self@[i as int].0 == self.entries@[i as int].key@);
            i = i + 1;
        }
        proof {
            lemma_lookup_none(self@, key@);
        }
        None
    }

    /// Whether there is a value under `key`.
    pub fn contains_key(&self, key: &str) -> (result: bool)
        ensures
            result == lookup(self@, key@) is Some,
    {
        self.get(key).is_some()
    }

    /// Puts `value` under `key`, in place of what stood there.
    pub fn insert(&mut self, key: String, value: V)
        ensures
            final(self)@ == put(old(self)@, key@, value@),
            ascending(keys(final(self)@)),
    {
        proof {
            use_type_invariant(&*self);
            assert(keys(self@) == held_keys(self.entries@));
        }
        let mut at: usize = 0;
        while at < self.entries.len() && text_precedes(self.entries[at].key.as_str(), key.as_str())
            invariant
                at <= self.entries@.len(),
                forall|k: int| 0 <= k < at ==> precedes((#[trigger] self@[k]).0, key@),
            decreases self.entries@.len() - at,
        {
            assert(self@[at as int].0 == self.entries@[at as int].key@);
            at = at + 1;
        }
        let ghost before = self@;
        let ghost added = (key@, value@);
        let replaces = at < self.entries.len() && same_text(
            self.entries[at].key.as_str(),
            key.as_str(),
        );
        let mut entries: Vec<Entry<V>> = Vec::new();
        assert(held_keys(entries@).len() == 0);
        std::mem::swap(&mut entries, &mut self.entries);
        if replaces {
            entries.remove(at);
        }
        entries.insert(at, Entry { key, value });
        proof {
            let after = entries@.map_values(|entry: Entry<V>| entry@);
            if replaces {
                assert(after == before.update(at as int, added));
            } else {
                assert(after == before.insert(at as int, added));
            }
            lemma_put_at(before, added.0, added.1, at as int);
            lemma_put_ascending(before, added.0, added.1);
            assert(keys(after) == held_keys(entries@));
        }
        self.entries = entries;
    }
}

/// A map is determined by what is found under each key.
pub proof fn law_lookup_determines_a_map<T>(
    left: Seq<(Seq<char>, T)>,
    right: Seq<(Seq<char>, T)>,
)
    requires
        ascending(keys(left)),
        ascending(keys(right)),
        forall|key: Seq<char>| #[trigger] lookup(left, key) == lookup(right, key),
    ensures
        left == right,
    decreases left.len(),
{
    if left.len() == 0 {
        if right.len() > 0 {
            assert(lookup(left, right[0].0) == lookup(right, right[0].0));
        }
    } else if right.len() == 0 {
        assert(lookup(left, left[0].0) == lookup(right, left[0].0));
    } else {
        let here = lemma_lookup_found(right, left[0].0);
        let there = lemma_lookup_found(left, right[0].0);
        assert(keys(left)[0] == left[0].0 && keys(right)[0] == right[0].0);
        if here > 0 {
            assert(precedes(keys(right)[0], keys(right)[here]));
            if there > 0 {
                assert(precedes(keys(left)[0], keys(left)[there]));
                lemma_transitive(left[0].0, right[0].0, left[0].0);
            }
            lemma_irreflexive(left[0].0);
        }
        assert(left[0] == right[0]);
        let key = left[0].0;
        assert(keys(left.skip(1)) == keys(left).skip(1));
        assert(keys(right.skip(1)) == keys(right).skip(1));
        assert forall|other: Seq<char>| #[trigger] lookup(left.skip(1), other) == lookup(
            right.skip(1),
            other,
        ) by {
            assert(lookup(left, other) == lookup(right, other));
            if other == key {
                assert forall|i: int| 0 <= i < left.skip(1).len() implies (#[trigger] left.skip(
                    1,
                )[i]).0 != key by {
                    assert(precedes(keys(left)[0], keys(left)[i + 1]));
                    lemma_irreflexive(key);
                }
                assert forall|i: int| 0 <= i < right.skip(1).len() implies (#[trigger] right.skip(
                    1,
                )[i]).0 != key by {
                    assert(precedes(keys(right)[0], keys(right)[i + 1]));
                    lemma_irreflexive(key);
                }
                lemma_lookup_none(left.skip(1), key);
                lemma_lookup_none(right.skip(1), key);
            }
        }
        law_lookup_determines_a_map(left.skip(1), right.skip(1));
        assert(left == seq![left[0]] + left.skip(1));
        assert(right == seq![right[0]] + right.skip(1));
    }
}

/// What is found under a key is the value of the first entry that has it, and
/// something is found exactly if some entry has it.
pub proof fn law_what_is_found<T>(entries: Seq<(Seq<char>, T)>, key: Seq<char>, at: int)
    ensures
        (forall|i: int| 0 <= i < entries.len() ==> (#[trigger] entries[i]).0 != key) ==> lookup(
            entries,
            key,
        ) is None,
        0 <= at < entries.len() && entries[at].0 == key && (forall|i: int|
            0 <= i < at ==> (#[trigger] entries[i]).0 != key) ==> lookup(entries, key) == Some(
            entries[at].1,
        ),
        keys(entries).len() == entries.len(),
        0 <= at < entries.len() ==> keys(entries)[at] == entries[at].0,
{
    if forall|i: int| 0 <= i < entries.len() ==> (#[trigger] entries[i]).0 != key {
        lemma_lookup_none(entries, key);
    }
    if 0 <= at < entries.len() && entries[at].0 == key && (forall|i: int|
        0 <= i < at ==> (#[trigger] entries[i]).0 != key) {
        lemma_lookup_at(entries, at);
    }
}

}
