//! A small map from integers, kept in order of its keys.

use vstd::prelude::*;

verus! {

/// Values under integer keys, in ascending order of the keys.
#[derive(Clone, Debug)]
pub struct IdMap<V> {
    entries: Vec<(i64, V)>,
}

/// The keys of some entries ascend.
pub open spec fn ascending<V>(entries: Seq<(i64, V)>) -> bool {
    forall|i: int, j: int|
        0 <= i < j < entries.len() ==> (#[trigger] entries[i]).0 < (#[trigger] entries[j]).0
}

/// Where an entry with the key stands, or would stand: behind every smaller key.
pub open spec fn rank_of<V>(entries: Seq<(i64, V)>, key: i64) -> int
    decreases entries.len(),
{
    if entries.len() == 0 {
        0
    } else if entries.last().0 < key {
        entries.len() as int
    } else {
        rank_of(entries.drop_last(), key)
    }
}

/// Some entry has the key.
pub open spec fn has_key<V>(entries: Seq<(i64, V)>, key: i64) -> bool {
    exists|i: int| 0 <= i < entries.len() && (#[trigger] entries[i]).0 == key
}

/// The value under a key, if there is one.
pub open spec fn lookup<V>(entries: Seq<(i64, V)>, key: i64) -> Option<V> {
    let place = rank_of(entries, key);
    if place < entries.len() && entries[place].0 == key {
        Some(entries[place].1)
    } else {
        None
    }
}

/// The entries with a value put under a key.
pub open spec fn inserted<V>(entries: Seq<(i64, V)>, key: i64, value: V) -> Seq<(i64, V)> {
    let place = rank_of(entries, key);
    if place < entries.len() && entries[place].0 == key {
        entries.update(place, (key, value))
    } else {
        entries.insert(place, (key, value))
    }
}

/// The entries without the one under a key.
pub open spec fn removed<V>(entries: Seq<(i64, V)>, key: i64) -> Seq<(i64, V)> {
    let place = rank_of(entries, key);
    if place < entries.len() && entries[place].0 == key {
        entries.remove(place)
    } else {
        entries
    }
}

/// Smaller keys stand before the rank of a key, and no smaller key from it on.
pub proof fn lemma_rank<V>(entries: Seq<(i64, V)>, key: i64)
    requires
        ascending(entries),
    ensures
        0 <= rank_of(entries, key) <= entries.len(),
        forall|i: int| 0 <= i < rank_of(entries, key) ==> (#[trigger] entries[i]).0 < key,
        forall|i: int|
            rank_of(entries, key) <= i < entries.len() ==> key <= (#[trigger] entries[i]).0,
    decreases entries.len(),
{
    if entries.len() > 0 && !(entries.last().0 < key) {
        let front = entries.drop_last();
        assert forall|i: int, j: int| 0 <= i < j < front.len() implies (#[trigger] front[i]).0 < (
        #[trigger] front[j]).0 by {
            assert(entries[i].0 < entries[j].0);
        }
        lemma_rank(front, key);
        assert forall|i: int| 0 <= i < rank_of(entries, key) implies (#[trigger] entries[i]).0
            < key by {
            assert(front[i].0 < key);
        }
        assert forall|i: int| rank_of(entries, key) <= i < entries.len() implies key <= (
        #[trigger] entries[i]).0 by {
            if i < front.len() {
                assert(key <= front[i].0);
            }
        }
    } else if entries.len() > 0 {
        assert forall|i: int| 0 <= i < entries.len() implies (#[trigger] entries[i]).0 < key by {
            if i < entries.len() - 1 {
                assert(entries[i].0 < entries[entries.len() - 1].0);
            }
        }
    }
}

/// A place with smaller keys before it and no smaller key from it on is the rank.
proof fn lemma_rank_is_unique<V>(entries: Seq<(i64, V)>, key: i64, place: int)
    requires
        ascending(entries),
        0 <= place <= entries.len(),
        forall|i: int| 0 <= i < place ==> (#[trigger] entries[i]).0 < key,
        forall|i: int| place <= i < entries.len() ==> key <= (#[trigger] entries[i]).0,
    ensures
        place == rank_of(entries, key),
{
    lemma_rank(entries, key);
    let rank = rank_of(entries, key);
    if place < rank {
        assert(entries[place].0 < key);
    } else if rank < place {
        assert(entries[rank].0 < key);
    }
}

/// Looking a key up finds just the entry that has it.
pub proof fn lemma_lookup<V>(entries: Seq<(i64, V)>, key: i64)
    requires
        ascending(entries),
    ensures
        has_key(entries, key) <==> lookup(entries, key) is Some,
        forall|i: int|
            0 <= i < entries.len() && (#[trigger] entries[i]).0 == key ==> lookup(entries, key)
                == Some(entries[i].1),
{
    lemma_rank(entries, key);
    let place = rank_of(entries, key);
    assert forall|i: int| 0 <= i < entries.len() && (#[trigger] entries[i]).0 == key implies i
        == place by {
        if i > place {
            assert(entries[place].0 < entries[i].0);
        }
    }
    if place < entries.len() && entries[place].0 == key {
        assert(has_key(entries, key));
    }
}

/// Putting a value under a key keeps the order, shows under that key and changes no other.
pub proof fn lemma_inserted<V>(entries: Seq<(i64, V)>, key: i64, value: V)
    requires
        ascending(entries),
    ensures
        ascending(inserted(entries, key, value)),
        lookup(inserted(entries, key, value), key) == Some(value),
        forall|other: i64|
            other != key ==> #[trigger] lookup(inserted(entries, key, value), other) == lookup(
                entries,
                other,
            ),
{
    lemma_rank(entries, key);
    let place = rank_of(entries, key);
    let after = inserted(entries, key, value);
    let present = place < entries.len() && entries[place].0 == key;
    assert forall|i: int, j: int| 0 <= i < j < after.len() implies (#[trigger] after[i]).0 < (
    #[trigger] after[j]).0 by {
        if present {
            assert(entries[i].0 < entries[j].0);
        } else {
            if i < place && j > place {
                assert(entries[i].0 < entries[j - 1].0);
            } else if j < place {
                assert(entries[i].0 < entries[j].0);
            } else if i > place {
                assert(entries[i - 1].0 < entries[j - 1].0);
            } else if j == place {
                assert(entries[i].0 < key);
            } else {
                assert(key <= entries[j - 1].0);
            }
        }
    }
    assert(after[place] == (key, value));
    lemma_lookup(after, key);
    assert forall|other: i64| other != key implies #[trigger] lookup(after, other) == lookup(
        entries,
        other,
    ) by {
        lemma_lookup(after, other);
        lemma_lookup(entries, other);
        if has_key(entries, other) {
            let i = choose|i: int| 0 <= i < entries.len() && (#[trigger] entries[i]).0 == other;
            let k = if present || i < place {
                i
            } else {
                i + 1
            };
            assert(after[k] == entries[i]);
        }
        if has_key(after, other) {
            let i = choose|i: int| 0 <= i < after.len() && (#[trigger] after[i]).0 == other;
            let k = if present || i < place {
                i
            } else {
                i - 1
            };
            assert(entries[k] == after[i]);
        }
    }
}

/// Removing a key keeps the order and every other entry.
pub proof fn lemma_removed<V>(entries: Seq<(i64, V)>, key: i64)
    requires
        ascending(entries),
    ensures
        ascending(removed(entries, key)),
        lookup(removed(entries, key), key) is None,
        forall|other: i64|
            other != key ==> #[trigger] lookup(removed(entries, key), other) == lookup(
                entries,
                other,
            ),
{
    lemma_rank(entries, key);
    let place = rank_of(entries, key);
    let after = removed(entries, key);
    let present = place < entries.len() && entries[place].0 == key;
    assert forall|i: int, j: int| 0 <= i < j < after.len() implies (#[trigger] after[i]).0 < (
    #[trigger] after[j]).0 by {
        let a = if present && i >= place {
            i + 1
        } else {
            i
        };
        let b = if present && j >= place {
            j + 1
        } else {
            j
        };
        assert(entries[a].0 < entries[b].0);
    }
    lemma_lookup(after, key);
    assert(!has_key(after, key)) by {
        if has_key(after, key) {
            let i = choose|i: int| 0 <= i < after.len() && (#[trigger] after[i]).0 == key;
            let k = if present && i >= place {
                i + 1
            } else {
                i
            };
            assert(entries[k].0 == key);
            lemma_lookup(entries, key);
            if k > place {
                assert(entries[place].0 < entries[k].0);
            }
        }
    }
    assert forall|other: i64| other != key implies #[trigger] lookup(after, other) == lookup(
        entries,
        other,
    ) by {
        lemma_lookup(after, other);
        lemma_lookup(entries, other);
        if has_key(entries, other) {
            let i = choose|i: int| 0 <= i < entries.len() && (#[trigger] entries[i]).0 == other;
            let k = if present && i > place {
                i - 1
            } else {
                i
            };
            assert(after[k] == entries[i]);
        }
        if has_key(after, other) {
            let i = choose|i: int| 0 <= i < after.len() && (#[trigger] after[i]).0 == other;
            let k = if present && i >= place {
                i + 1
            } else {
                i
            };
            assert(entries[k] == after[i]);
        }
    }
}

/// The entries with another value, made from its own, under each key.
pub open spec fn mapped<V, W>(entries: Seq<(i64, V)>, change: spec_fn(V) -> W) -> Seq<(i64, W)> {
    entries.map_values(|entry: (i64, V)| (entry.0, change(entry.1)))
}

/// A value made from one that may be absent.
pub open spec fn mapped_option<V, W>(value: Option<V>, change: spec_fn(V) -> W) -> Option<W> {
    match value {
        Some(present) => Some(change(present)),
        None => None,
    }
}

proof fn lemma_mapped_rank<V, W>(entries: Seq<(i64, V)>, change: spec_fn(V) -> W, key: i64)
    ensures
        rank_of(mapped(entries, change), key) == rank_of(entries, key),
    decreases entries.len(),
{
    if entries.len() > 0 {
        lemma_mapped_rank(entries.drop_last(), change, key);
        assert(mapped(entries, change).drop_last() =~= mapped(entries.drop_last(), change));
    }
}

/// Changing the values commutes with looking up.
pub proof fn lemma_mapped_lookup<V, W>(entries: Seq<(i64, V)>, change: spec_fn(V) -> W, key: i64)
    requires
        ascending(entries),
    ensures
        ascending(mapped(entries, change)),
        lookup(mapped(entries, change), key) == mapped_option(lookup(entries, key), change),
{
    lemma_rank(entries, key);
    lemma_mapped_rank(entries, change, key);
}

/// Changing the values commutes with inserting.
pub proof fn lemma_mapped_inserted<V, W>(
    entries: Seq<(i64, V)>,
    change: spec_fn(V) -> W,
    key: i64,
    value: V,
)
    requires
        ascending(entries),
    ensures
        mapped(inserted(entries, key, value), change) == inserted(
            mapped(entries, change),
            key,
            change(value),
        ),
{
    lemma_rank(entries, key);
    lemma_mapped_rank(entries, change, key);
    assert(mapped(inserted(entries, key, value), change) =~= inserted(
        mapped(entries, change),
        key,
        change(value),
    ));
}

/// Changing the values commutes with removing.
pub proof fn lemma_mapped_removed<V, W>(entries: Seq<(i64, V)>, change: spec_fn(V) -> W, key: i64)
    requires
        ascending(entries),
    ensures
        mapped(removed(entries, key), change) == removed(mapped(entries, change), key),
{
    lemma_rank(entries, key);
    lemma_mapped_rank(entries, change, key);
    assert(mapped(removed(entries, key), change) =~= removed(mapped(entries, change), key));
}

impl<V> IdMap<V> {
    /// The entries, in ascending order of their keys.
    pub closed spec fn entries(&self) -> Seq<(i64, V)> {
        self.entries@
    }

    pub open spec fn well_formed(&self) -> bool {
        ascending(self.entries())
    }

    pub fn new() -> (map: Self)
        ensures
            map.well_formed(),
            map.entries() == Seq::<(i64, V)>::empty(),
    {
        IdMap { entries: Vec::new() }
    }

    pub fn len(&self) -> (count: usize)
        ensures
            count == self.entries().len(),
    {
        self.entries.len()
    }

    /// The key of the entry at an index.
    pub fn key_at(&self, index: usize) -> (key: i64)
        requires
            index < self.entries().len(),
        ensures
            key == self.entries()[index as int].0,
    {
        self.entries[index].0
    }

    /// The value of the entry at an index.
    pub fn value_at(&self, index: usize) -> (value: &V)
        requires
            index < self.entries().len(),
        ensures
            *value == self.entries()[index as int].1,
    {
        &self.entries[index].1
    }

    fn place(&self, key: i64) -> (place: usize)
        requires
            self.well_formed(),
        ensures
            place == rank_of(self.entries(), key),
            place <= self.entries().len(),
    {
        let mut place: usize = 0;
        while place < self.entries.len() && self.entries[place].0 < key
            invariant
                self.well_formed(),
                place <= self.entries@.len(),
                forall|i: int| 0 <= i < place ==> (#[trigger] self.entries@[i]).0 < key,
            decreases self.entries@.len() - place,
        {
            place = place + 1;
        }
        proof {
            assert forall|i: int| place <= i < self.entries@.len() implies key <= (
            #[trigger] self.entries@[i]).0 by {
                if i > place {
                    assert(self.entries@[place as int].0 < self.entries@[i].0);
                }
            }
            lemma_rank_is_unique(self.entries@, key, place as int);
        }
        place
    }

    pub fn get(&self, key: i64) -> (value: Option<&V>)
        requires
            self.well_formed(),
        ensures
            match value {
                Some(found) => lookup(self.entries(), key) == Some(*found),
                None => lookup(self.entries(), key) is None,
            },
    {
        let place: usize = self.place(key);
        if place < self.entries.len() && self.entries[place].0 == key {
            Some(&self.entries[place].1)
        } else {
            None
        }
    }

    /// Puts a value under a key, and returns the one that was there.
    pub fn insert(&mut self, key: i64, value: V) -> (previous: Option<V>)
        requires
            old(self).well_formed(),
        ensures
            final(self).well_formed(),
            final(self).entries() == inserted(old(self).entries(), key, value),
            previous == lookup(old(self).entries(), key),
    {
        let place: usize = self.place(key);
        proof {
            lemma_inserted(self.entries@, key, value);
        }
        if place < self.entries.len() && self.entries[place].0 == key {
            let (_, previous) = self.entries.remove(place);
            self.entries.insert(place, (key, value));
            assert(self.entries@ =~= inserted(old(self).entries@, key, value));
            Some(previous)
        } else {
            self.entries.insert(place, (key, value));
            None
        }
    }

    /// Removes what is under a key, and returns it.
    pub fn remove(&mut self, key: i64) -> (previous: Option<V>)
        requires
            old(self).well_formed(),
        ensures
            final(self).well_formed(),
            final(self).entries() == removed(old(self).entries(), key),
            previous == lookup(old(self).entries(), key),
    {
        let place: usize = self.place(key);
        proof {
            lemma_removed(self.entries@, key);
        }
        if place < self.entries.len() && self.entries[place].0 == key {
            let (_, previous) = self.entries.remove(place);
            Some(previous)
        } else {
            None
        }
    }

    pub fn clear(&mut self)
        ensures
            final(self).well_formed(),
            final(self).entries() == Seq::<(i64, V)>::empty(),
    {
        self.entries.clear();
    }
}

/// The value under the greatest key that is not above the given one.
pub open spec fn floor<V>(entries: Seq<(i64, V)>, key: i64) -> Option<V> {
    let place = rank_of(entries, key);
    if place < entries.len() && entries[place].0 == key {
        Some(entries[place].1)
    } else if place > 0 {
        Some(entries[place - 1].1)
    } else {
        None
    }
}

/// The floor is the value of an entry at or below the key, above which no other such entry is;
/// where there is none, every key is above.
pub proof fn lemma_floor<V>(entries: Seq<(i64, V)>, key: i64)
    requires
        ascending(entries),
    ensures
        match floor(entries, key) {
            Some(value) => exists|i: int|
                0 <= i < entries.len() && (#[trigger] entries[i]).1 == value && entries[i].0 <= key
                    && forall|j: int| i < j < entries.len() ==> (#[trigger] entries[j]).0 > key,
            None => forall|i: int| 0 <= i < entries.len() ==> (#[trigger] entries[i]).0 > key,
        },
{
    lemma_rank(entries, key);
    let place = rank_of(entries, key);
    if place < entries.len() && entries[place].0 == key {
        assert(entries[place].1 == floor(entries, key)->0);
        assert forall|j: int| place < j < entries.len() implies (#[trigger] entries[j]).0
            > key by {
            assert(entries[place].0 < entries[j].0);
        }
    } else {
        assert forall|j: int| place <= j < entries.len() implies (#[trigger] entries[j]).0
            > key by {
            if j > place {
                assert(entries[place].0 < entries[j].0);
            }
        }
        if place > 0 {
            assert(entries[place - 1].1 == floor(entries, key)->0);
        }
    }
}

/// Changing the values commutes with taking the floor.
pub proof fn lemma_mapped_floor<V, W>(entries: Seq<(i64, V)>, change: spec_fn(V) -> W, key: i64)
    requires
        ascending(entries),
    ensures
        floor(mapped(entries, change), key) == mapped_option(floor(entries, key), change),
{
    lemma_rank(entries, key);
    lemma_mapped_rank(entries, change, key);
}

impl<V> IdMap<V> {
    /// The value under the greatest key that is not above the given one.
    pub fn at_or_before(&self, key: i64) -> (value: Option<&V>)
        requires
            self.well_formed(),
        ensures
            match value {
                Some(found) => floor(self.entries(), key) == Some(*found),
                None => floor(self.entries(), key) is None,
            },
    {
        let place: usize = self.place(key);
        if place < self.entries.len() && self.entries[place].0 == key {
            Some(&self.entries[place].1)
        } else if place > 0 {
            Some(&self.entries[place - 1].1)
        } else {
            None
        }
    }

    /// Appends an entry above every key.
    pub fn push(&mut self, key: i64, value: V)
        requires
            old(self).well_formed(),
            forall|i: int|
                0 <= i < old(self).entries().len() ==> (#[trigger] old(self).entries()[i]).0 < key,
        ensures
            final(self).well_formed(),
            final(self).entries() == old(self).entries().push((key, value)),
    {
        self.entries.push((key, value));
    }
}

} // verus!
