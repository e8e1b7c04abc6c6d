//! Sets of identifiers, and values keyed by identifiers.

use vstd::prelude::*;

use crate::text::{contains_text, copy_texts, same_text, texts};

verus! {

/// A set of identifiers.
#[derive(Debug)]
pub struct IdSet {
    ids: Vec<String>,
}

impl View for IdSet {
    type V = Set<Seq<char>>;

    closed spec fn view(&self) -> Set<Seq<char>> {
        texts(self.ids@).to_set()
    }
}

/// The set of the texts in a list.
pub open spec fn text_set(list: Seq<String>) -> Set<Seq<char>> {
    texts(list).to_set()
}

impl IdSet {
    /// No identifier is held twice.
    pub closed spec fn wf(self) -> bool {
        texts(self.ids@).no_duplicates()
    }

    /// The empty set.
    pub fn new() -> (r: Self)
        ensures
            r.wf(),
            r@ == Set::<Seq<char>>::empty(),
    {
        let r = IdSet { ids: Vec::new() };
        assert(r@ =~= Set::empty());
        r
    }

    /// The set of the identifiers in a list.
    pub fn from_ids(list: &[String]) -> (r: Self)
        ensures
            r.wf(),
            r@ == text_set(list@),
    {
        let mut r = Self::new();
        r.extend(list);
        assert(r@ =~= text_set(list@));
        r
    }

    /// Tells whether an identifier is in the set.
    pub fn contains(&self, id: &str) -> (r: bool)
        ensures
            r == self@.contains(id@),
    {
        contains_text(&self.ids, id)
    }

    /// Puts an identifier into the set, and tells whether it was not there before.
    pub fn insert(&mut self, id: &str) -> (r: bool)
        requires
            old(self).wf(),
        ensures
            final(self).wf(),
            final(self)@ == old(self)@.insert(id@),
            r == !old(self)@.contains(id@),
    {
        if self.contains(id) {
            assert(old(self)@.insert(id@) =~= old(self)@);
            return false;
        }
        self.ids.push(id.to_owned());
        proof {
            let before = texts(old(self).ids@);
            let now = texts(self.ids@);
            assert(now =~= before.push(id@));
            assert(!before.contains(id@));
            assert(self@ =~= old(self)@.insert(id@)) by {
                assert forall|x: Seq<char>| now.contains(x) <==> before.contains(x) || x == id@ by {
                    if before.contains(x) {
                        let i = choose|i: int| 0 <= i < before.len() && before[i] == x;
                        assert(now[i] == x);
                    }
                    if x == id@ {
                        assert(now[before.len() as int] == x);
                    }
                }
            }
        }
        true
    }

    /// Puts all identifiers of a list into the set.
    pub fn extend(&mut self, list: &[String])
        requires
            old(self).wf(),
        ensures
            final(self).wf(),
            final(self)@ == old(self)@.union(text_set(list@)),
    {
        let mut i: usize = 0;
        assert(old(self)@.union(text_set(list@.take(0))) =~= old(self)@);
        while i < list.len()
            invariant
                i <= list@.len(),
                self.wf(),
                self@ == old(self)@.union(text_set(list@.take(i as int))),
            decreases list@.len() - i,
        {
            let _ = self.insert(list[i].as_str());
            proof {
                let before = texts(list@.take(i as int));
                let now = texts(list@.take(i + 1));
                assert(now =~= before.push(list@[i as int]@));
                assert forall|x: Seq<char>|
                    now.contains(x) <==> before.contains(x) || x == list@[i as int]@ by {
                    if before.contains(x) {
                        let k = choose|k: int| 0 <= k < before.len() && before[k] == x;
                        assert(now[k] == x);
                    }
                    if x == list@[i as int]@ {
                        assert(now[i as int] == x);
                    }
                }
                assert(self@ =~= old(self)@.union(text_set(list@.take(i + 1))));
            }
            i += 1;
        }
        assert(list@.take(i as int) =~= list@);
    }

    /// The number of identifiers in the set.
    pub fn len(&self) -> (r: usize)
        requires
            self.wf(),
        ensures
            r == self@.len(),
    {
        proof {
            texts(self.ids@).unique_seq_to_set();
        }
        self.ids.len()
    }

    /// Tells whether two sets hold the same identifiers.
    pub fn same_as(&self, other: &Self) -> (r: bool)
        ensures
            r == (self@ == other@),
    {
        let r = self.is_subset_of(other) && other.is_subset_of(self);
        assert(r ==> self@ =~= other@);
        r
    }

    /// Tells whether the identifiers of this set are all in another one.
    pub fn is_subset_of(&self, other: &Self) -> (r: bool)
        ensures
            r == self@.subset_of(other@),
    {
        let mut i: usize = 0;
        while i < self.ids.len()
            invariant
                i <= self.ids@.len(),
                forall|k: int| 0 <= k < i ==> other@.contains(#[trigger] self.ids@[k]@),
            decreases self.ids@.len() - i,
        {
            if !other.contains(self.ids[i].as_str()) {
                proof {
                    assert(texts(self.ids@)[i as int] == self.ids@[i as int]@);
                    assert(self@.contains(self.ids@[i as int]@));
                }
                return false;
            }
            i += 1;
        }
        proof {
            assert forall|x: Seq<char>| self@.contains(x) implies other@.contains(x) by {
                let k = choose|k: int| 0 <= k < texts(self.ids@).len() && texts(self.ids@)[k] == x;
                assert(self.ids@[k]@ == x);
            }
        }
        true
    }

    /// The identifiers in the set, each of them once.
    pub fn to_ids(&self) -> (r: Vec<String>)
        requires
            self.wf(),
        ensures
            texts(r@).no_duplicates(),
            text_set(r@) == self@,
    {
        copy_texts(&self.ids)
    }
}

impl Clone for IdSet {
    fn clone(&self) -> (r: Self)
        ensures
            r@ == self@,
            r.wf() == self.wf(),
    {
        IdSet { ids: copy_texts(&self.ids) }
    }
}

/// Values keyed by identifiers.
#[derive(Debug)]
pub struct KeyedList<V> {
    entries: Vec<(String, V)>,
}

/// The values of a list of entries by key; of several with one key, the last.
pub open spec fn entries_map<V>(entries: Seq<(String, V)>) -> Map<Seq<char>, V>
    decreases entries.len(),
{
    if entries.len() == 0 {
        Map::empty()
    } else {
        entries_map(entries.drop_last()).insert(entries.last().0@, entries.last().1)
    }
}

/// Whether no key occurs twice.
pub open spec fn keys_are_distinct<V>(entries: Seq<(String, V)>) -> bool {
    forall|i: int, j: int|
        0 <= i < j < entries.len() ==> #[trigger] entries[i].0@ != #[trigger] entries[j].0@
}

proof fn entries_map_lookup<V>(entries: Seq<(String, V)>)
    requires
        keys_are_distinct(entries),
    ensures
        forall|i: int|
            0 <= i < entries.len() ==> entries_map(entries).contains_key(#[trigger] entries[i].0@)
                && entries_map(entries)[entries[i].0@] == entries[i].1,
        forall|key: Seq<char>| #[trigger]
            entries_map(entries).contains_key(key) ==> exists|i: int|
                0 <= i < entries.len() && #[trigger] entries[i].0@ == key,
    decreases entries.len(),
{
    if entries.len() > 0 {
        let rest = entries.drop_last();
        assert(keys_are_distinct(rest)) by {
            assert forall|i: int, j: int| 0 <= i < j < rest.len() implies #[trigger] rest[i].0@
                != #[trigger] rest[j].0@ by {
                assert(rest[i] == entries[i] && rest[j] == entries[j]);
            }
        }
        entries_map_lookup(rest);
        assert forall|i: int| 0 <= i < entries.len() implies entries_map(entries).contains_key(
            #[trigger] entries[i].0@,
        ) && entries_map(entries)[entries[i].0@] == entries[i].1 by {
            if i < rest.len() {
                assert(rest[i] == entries[i]);
                assert(entries[i].0@ != entries[rest.len() as int].0@);
            }
        }
        assert forall|key: Seq<char>| #[trigger] entries_map(entries).contains_key(key) implies exists|
            i: int,
        |
            0 <= i < entries.len() && #[trigger] entries[i].0@ == key by {
            if key == entries.last().0@ {
                assert(entries[rest.len() as int].0@ == key);
            } else {
                assert(entries_map(rest).contains_key(key));
                let i = choose|i: int| 0 <= i < rest.len() && #[trigger] rest[i].0@ == key;
                assert(rest[i] == entries[i]);
                assert(entries[i].0@ == key);
            }
        }
    }
}

impl<V> View for KeyedList<V> {
    type V = Map<Seq<char>, V>;

    closed spec fn view(&self) -> Map<Seq<char>, V> {
        entries_map(self.entries@)
    }
}

impl<V> KeyedList<V> {
    /// No key occurs twice.
    pub closed spec fn wf(self) -> bool {
        keys_are_distinct(self.entries@)
    }

    /// A list without values.
    pub fn new() -> (r: Self)
        ensures
            r.wf(),
            r@ == Map::<Seq<char>, V>::empty(),
    {
        KeyedList { entries: Vec::new() }
    }

    fn position(&self, key: &str) -> (r: Option<usize>)
        requires
            self.wf(),
        ensures
            match r {
                Some(i) => {
                    &&& i < self.entries@.len()
                    &&& self.entries@[i as int].0@ == key@
                    &&& self@.contains_key(key@)
                    &&& self@[key@] == self.entries@[i as int].1
                },
                None => {
                    &&& !self@.contains_key(key@)
                    &&& forall|k: int|
                        0 <= k < self.entries@.len() ==> #[trigger] self.entries@[k].0@ != key@
                },
            },
    {
        proof {
            entries_map_lookup(self.entries@);
        }
        let mut i: usize = 0;
        while i < self.entries.len()
            invariant
                i <= self.entries@.len(),
                forall|k: int| 0 <= k < i ==> #[trigger] self.entries@[k].0@ != key@,
                forall|k: int|
                    0 <= k < self.entries@.len() ==> self@.contains_key(
                        #[trigger] self.entries@[k].0@,
                    ) && self@[self.entries@[k].0@] == self.entries@[k].1,
            decreases self.entries@.len() - i,
        {
            if same_text(self.entries[i].0.as_str(), key) {
                return Some(i);
            }
            i += 1;
        }
        None
    }

    /// The value of a key.
    pub fn get(&self, key: &str) -> (r: Option<&V>)
        requires
            self.wf(),
        ensures
            match r {
                Some(value) => self@.contains_key(key@) && *value == self@[key@],
                None => !self@.contains_key(key@),
            },
    {
        match self.position(key) {
            Some(i) => Some(&self.entries[i].1),
            None => None,
        }
    }

    /// Sets the value of a key.
    pub fn insert(&mut self, key: String, value: V)
        requires
            old(self).wf(),
        ensures
            final(self).wf(),
            final(self)@ == old(self)@.insert(key@, value),
    {
        let at = self.position(key.as_str());
        match at {
            Some(i) => {
                self.entries[i] = (key, value);
            },
            None => {
                self.entries.push((key, value));
            },
        }
        proof {
            let before = old(self).entries@;
            let now = self.entries@;
            assert(keys_are_distinct(now)) by {
                assert forall|a: int, b: int| 0 <= a < b < now.len() implies #[trigger] now[a].0@
                    != #[trigger] now[b].0@ by {
                    match at {
                        Some(i) => {
                            assert(before[a].0@ != before[b].0@);
                        },
                        None => {
                            if b < before.len() {
                                assert(before[a].0@ != before[b].0@);
                            } else {
                                assert(before[a].0@ != key@);
                            }
                        },
                    }
                }
            }
            match at {
                Some(i) => {
                    entries_map_lookup(before);
                    entries_map_lookup(now);
                    assert(now =~= before.update(i as int, (key, value)));
                    assert forall|k: Seq<char>| self@.contains_key(k) <==> old(self)@.insert(
                        key@,
                        value,
                    ).contains_key(k) by {
                        if self@.contains_key(k) && k != key@ {
                            let a = choose|a: int| 0 <= a < now.len() && #[trigger] now[a].0@ == k;
                            assert(before[a].0@ == k);
                        }
                        if old(self)@.contains_key(k) && k != key@ {
                            let a = choose|a: int|
                                0 <= a < before.len() && #[trigger] before[a].0@ == k;
                            assert(now[a].0@ == k);
                        }
                        assert(now[i as int].0@ == key@);
                    }
                    assert forall|k: Seq<char>| self@.contains_key(k) implies #[trigger] self@[k]
                        == old(self)@.insert(key@, value)[k] by {
                        let a = choose|a: int| 0 <= a < now.len() && #[trigger] now[a].0@ == k;
                        if a != i {
                            assert(before[a].0@ == k);
                            assert(now[i as int].0@ == key@);
                        }
                    }
                    assert(self@ =~= old(self)@.insert(key@, value));
                },
                None => {
                    assert(now.drop_last() =~= before);
                },
            }
        }
    }

    /// Removes all values.
    pub fn clear(&mut self)
        ensures
            final(self).wf(),
            final(self)@ == Map::<Seq<char>, V>::empty(),
    {
        self.entries.clear();
    }

    /// The entries, each key once.
    pub fn entries(&self) -> (r: &Vec<(String, V)>)
        requires
            self.wf(),
        ensures
            keys_are_distinct(r@),
            entries_map(r@) == self@,
    {
        &self.entries
    }
}

/// The set of a list of texts holds exactly those that stand in the list.
pub proof fn set_of_texts_holds_those_of_the_list(list: Seq<String>, text: Seq<char>)
    ensures
        text_set(list).contains(text) <==> exists|i: int|
            0 <= i < list.len() && #[trigger] list[i]@ == text,
{
    if text_set(list).contains(text) {
        let i = choose|i: int| 0 <= i < texts(list).len() && texts(list)[i] == text;
        assert(list[i]@ == text);
    }
    if exists|i: int| 0 <= i < list.len() && #[trigger] list[i]@ == text {
        let i = choose|i: int| 0 <= i < list.len() && #[trigger] list[i]@ == text;
        assert(texts(list)[i] == text);
    }
}

/// An entry put behind others decides the value of its key, and no other one.
pub proof fn last_entry_decides_the_value_of_its_key<V>(
    entries: Seq<(String, V)>,
    entry: (String, V),
    key: Seq<char>,
)
    ensures
        !entries_map(Seq::<(String, V)>::empty()).contains_key(key),
        key == entry.0@ ==> entries_map(entries.push(entry)).contains_key(key) && entries_map(
            entries.push(entry),
        )[key] == entry.1,
        key != entry.0@ ==> entries_map(entries.push(entry)).contains_key(key) == entries_map(
            entries,
        ).contains_key(key),
        key != entry.0@ && entries_map(entries).contains_key(key) ==> entries_map(
            entries.push(entry),
        )[key] == entries_map(entries)[key],
        keys_are_distinct(Seq::<(String, V)>::empty()),
        keys_are_distinct(entries.push(entry)) <==> keys_are_distinct(entries) && forall|i: int|
            0 <= i < entries.len() ==> #[trigger] entries[i].0@ != entry.0@,
{
    let more = entries.push(entry);
    assert(more.drop_last() =~= entries);
    assert(more[entries.len() as int] == entry);
    assert forall|i: int| 0 <= i < entries.len() implies #[trigger] more[i] == entries[i] by {}
    if keys_are_distinct(more) {
        assert forall|i: int, j: int| 0 <= i < j < entries.len() implies #[trigger] entries[i].0@
            != #[trigger] entries[j].0@ by {
            assert(more[i].0@ != more[j].0@);
        }
        assert forall|i: int| 0 <= i < entries.len() implies #[trigger] entries[i].0@
            != entry.0@ by {
            assert(more[i].0@ != more[entries.len() as int].0@);
        }
    }
}

} // verus!
