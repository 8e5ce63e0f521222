//! A small map from names.

use crate::message::text::same_text;
use vstd::prelude::*;

verus! {

/// Values under names, each name once.
#[derive(Clone, Debug)]
pub struct NameMap<V> {
    entries: Vec<(String, V)>,
}

spec fn distinct<V>(entries: Seq<(String, V)>) -> bool {
    forall|i: int, j: int|
        0 <= i < j < entries.len() ==> (#[trigger] entries[i]).0@ != (#[trigger] entries[j]).0@
}

spec fn has_name<V>(entries: Seq<(String, V)>, name: Seq<char>) -> bool {
    exists|i: int| 0 <= i < entries.len() && (#[trigger] entries[i]).0@ == name
}

spec fn place_of<V>(entries: Seq<(String, V)>, name: Seq<char>) -> int {
    choose|i: int| 0 <= i < entries.len() && (#[trigger] entries[i]).0@ == name
}

spec fn as_map<V>(entries: Seq<(String, V)>) -> Map<Seq<char>, V> {
    Map::new(
        |name: Seq<char>| has_name(entries, name),
        |name: Seq<char>| entries[place_of(entries, name)].1,
    )
}

/// A name leads to the value of the entry that has it.
proof fn lemma_place<V>(entries: Seq<(String, V)>, place: int)
    requires
        distinct(entries),
        0 <= place < entries.len(),
    ensures
        as_map(entries).dom().contains(entries[place].0@),
        as_map(entries)[entries[place].0@] == entries[place].1,
{
    let name = entries[place].0@;
    assert(has_name(entries, name));
    let found = place_of(entries, name);
    assert(entries[found].0@ == name);
    assert(found == place) by {
        if found < place {
            assert(entries[found].0@ != entries[place].0@);
        } else if place < found {
            assert(entries[place].0@ != entries[found].0@);
        }
    }
}

proof fn lemma_pushed<V>(entries: Seq<(String, V)>, entry: (String, V))
    requires
        distinct(entries),
        !has_name(entries, entry.0@),
    ensures
        distinct(entries.push(entry)),
        as_map(entries.push(entry)) == as_map(entries).insert(entry.0@, entry.1),
{
    let after = entries.push(entry);
    let last = entries.len() as int;
    assert forall|i: int, j: int| 0 <= i < j < after.len() implies (#[trigger] after[i]).0@ != (
    #[trigger] after[j]).0@ by {
        if j == last {
            assert(after[i] == entries[i]);
        } else {
            assert(entries[i].0@ != entries[j].0@);
        }
    }
    assert forall|name: Seq<char>| #[trigger]
        as_map(after).dom().contains(name) <==> as_map(entries).insert(
            entry.0@,
            entry.1,
        ).dom().contains(name) by {
        if has_name(after, name) {
            let i = place_of(after, name);
            if i < last {
                assert(entries[i].0@ == name);
                assert(has_name(entries, name));
            }
        }
        if has_name(entries, name) {
            let i = place_of(entries, name);
            assert(after[i].0@ == name);
        }
        if name == entry.0@ {
            assert(after[last].0@ == name);
        }
    }
    assert forall|name: Seq<char>| #[trigger]
        as_map(after).dom().contains(name) implies as_map(after)[name] == as_map(entries).insert(
        entry.0@,
        entry.1,
    )[name] by {
        let i = place_of(after, name);
        lemma_place(after, i);
        if i < last {
            lemma_place(entries, i);
        }
    }
    assert(as_map(after) =~= as_map(entries).insert(entry.0@, entry.1));
}

proof fn lemma_dropped<V>(entries: Seq<(String, V)>, place: int)
    requires
        distinct(entries),
        0 <= place < entries.len(),
    ensures
        distinct(entries.remove(place)),
        !has_name(entries.remove(place), entries[place].0@),
        as_map(entries.remove(place)) == as_map(entries).remove(entries[place].0@),
{
    let after = entries.remove(place);
    let gone = entries[place].0@;
    assert forall|i: int, j: int| 0 <= i < j < after.len() implies (#[trigger] after[i]).0@ != (
    #[trigger] after[j]).0@ by {
        let a = if i < place {
            i
        } else {
            i + 1
        };
        let b = if j < place {
            j
        } else {
            j + 1
        };
        assert(entries[a].0@ != entries[b].0@);
    }
    assert forall|i: int| 0 <= i < after.len() implies (#[trigger] after[i]).0@ != gone by {
        if i < place {
            assert(entries[i].0@ != entries[place].0@);
        } else {
            assert(entries[place].0@ != entries[i + 1].0@);
        }
    }
    assert forall|name: Seq<char>| #[trigger]
        as_map(after).dom().contains(name) <==> as_map(entries).remove(gone).dom().contains(
            name,
        ) by {
        if has_name(after, name) {
            let i = place_of(after, name);
            let k = if i < place {
                i
            } else {
                i + 1
            };
            assert(entries[k].0@ == name);
        }
        if has_name(entries, name) && name != gone {
            let i = place_of(entries, name);
            let k = if i < place {
                i
            } else {
                i - 1
            };
            assert(after[k].0@ == name);
        }
    }
    assert forall|name: Seq<char>| #[trigger]
        as_map(after).dom().contains(name) implies as_map(after)[name] == as_map(entries).remove(
        gone,
    )[name] by {
        let i = place_of(after, name);
        lemma_place(after, i);
        let k = if i < place {
            i
        } else {
            i + 1
        };
        lemma_place(entries, k);
    }
    assert(as_map(after) =~= as_map(entries).remove(gone));
}

proof fn lemma_size<V>(entries: Seq<(String, V)>)
    requires
        distinct(entries),
    ensures
        as_map(entries).dom().finite(),
        as_map(entries).dom().len() == entries.len(),
    decreases entries.len(),
{
    if entries.len() == 0 {
        assert(as_map(entries).dom() =~= Set::<Seq<char>>::empty());
    } else {
        let last = entries.len() - 1;
        lemma_dropped(entries, last);
        lemma_size(entries.remove(last));
        lemma_place(entries, last);
        let front = as_map(entries.remove(last)).dom();
        assert(as_map(entries).dom() =~= front.insert(entries[last].0@));
        assert(!front.contains(entries[last].0@));
    }
}

impl<V> View for NameMap<V> {
    type V = Map<Seq<char>, V>;

    closed spec fn view(&self) -> Map<Seq<char>, V> {
        as_map(self.entries@)
    }
}

impl<V> NameMap<V> {
    pub closed spec fn well_formed(&self) -> bool {
        distinct(self.entries@)
    }

    pub fn new() -> (map: Self)
        ensures
            map.well_formed(),
            map@ == Map::<Seq<char>, V>::empty(),
    {
        let map = NameMap { entries: Vec::new() };
        assert(map@ =~= Map::<Seq<char>, V>::empty());
        map
    }

    pub fn len(&self) -> (count: usize)
        requires
            self.well_formed(),
        ensures
            self@.dom().finite(),
            count == self@.dom().len(),
    {
        proof {
            lemma_size(self.entries@);
        }
        self.entries.len()
    }

    fn find(&self, name: &str) -> (place: Option<usize>)
        ensures
            match place {
                Some(index) => index < self.entries@.len() && self.entries@[index as int].0@
                    == name@,
                None => !has_name(self.entries@, name@),
            },
    {
        let mut index: usize = 0;
        while index < self.entries.len()
            invariant
                index <= self.entries@.len(),
                forall|i: int| 0 <= i < index ==> (#[trigger] self.entries@[i]).0@ != name@,
            decreases self.entries@.len() - index,
        {
            if same_text(self.entries[index].0.as_str(), name) {
                return Some(index);
            }
            index = index + 1;
        }
        None
    }

    pub fn get(&self, name: &str) -> (value: Option<&V>)
        requires
            self.well_formed(),
        ensures
            match value {
                Some(found) => self@.dom().contains(name@) && self@[name@] == *found,
                None => !self@.dom().contains(name@),
            },
    {
        match self.find(name) {
            Some(index) => {
                proof {
                    lemma_place(self.entries@, index as int);
                }
                Some(&self.entries[index].1)
            },
            None => None,
        }
    }

    /// Takes what is under a name out of the map.
    pub fn remove(&mut self, name: &str) -> (value: Option<V>)
        requires
            old(self).well_formed(),
        ensures
            final(self).well_formed(),
            final(self)@ == old(self)@.remove(name@),
            match value {
                Some(found) => old(self)@.dom().contains(name@) && old(self)@[name@] == found,
                None => !old(self)@.dom().contains(name@),
            },
    {
        match self.find(name) {
            Some(index) => {
                proof {
                    lemma_place(self.entries@, index as int);
                    lemma_dropped(self.entries@, index as int);
                }
                let (_, value) = self.entries.remove(index);
                Some(value)
            },
            None => {
                assert(self@ =~= self@.remove(name@));
                None
            },
        }
    }

    /// Puts a value under a name, in place of the one that is there.
    pub fn insert(&mut self, name: String, value: V)
        requires
            old(self).well_formed(),
        ensures
            final(self).well_formed(),
            final(self)@ == old(self)@.insert(name@, value),
    {
        self.remove(name.as_str());
        proof {
            assert(!self@.dom().contains(name@));
            lemma_pushed(self.entries@, (name, value));
            assert(old(self)@.remove(name@).insert(name@, value) =~= old(self)@.insert(
                name@,
                value,
            ));
        }
        self.entries.push((name, value));
    }

    /// The names, each once.
    pub fn names(&self) -> (names: Vec<String>)
        requires
            self.well_formed(),
        ensures
            forall|i: int|
                0 <= i < names@.len() ==> self@.dom().contains((#[trigger] names@[i])@),
            forall|name: Seq<char>| #[trigger]
                self@.dom().contains(name) ==> exists|i: int|
                    0 <= i < names@.len() && (#[trigger] names@[i])@ == name,
    {
        let mut names: Vec<String> = Vec::with_capacity(self.entries.len());
        let mut index: usize = 0;
        while index < self.entries.len()
            invariant
                index <= self.entries@.len(),
                names@.len() == index,
                forall|i: int|
                    0 <= i < index ==> (#[trigger] names@[i])@ == self.entries@[i].0@,
            decreases self.entries@.len() - index,
        {
            let name: String = self.entries[index].0.clone();
            names.push(name);
            index = index + 1;
        }
        proof {
            assert forall|i: int| 0 <= i < names@.len() implies self@.dom().contains(
                (#[trigger] names@[i])@,
            ) by {
                assert(self.entries@[i].0@ == names@[i]@);
            }
            assert forall|name: Seq<char>| #[trigger]
                self@.dom().contains(name) implies exists|i: int|
                0 <= i < names@.len() && (#[trigger] names@[i])@ == name by {
                let i = choose|i: int|
                    0 <= i < self.entries@.len() && (#[trigger] self.entries@[i]).0@ == name;
                assert(names@[i]@ == name);
            }
        }
        names
    }

    pub fn clear(&mut self)
        ensures
            final(self).well_formed(),
            final(self)@ == Map::<Seq<char>, V>::empty(),
    {
        self.entries.clear();
        assert(self@ =~= Map::<Seq<char>, V>::empty());
    }
}

} // verus!
