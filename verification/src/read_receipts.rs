//! The read receipts of an event, by reader and in a stable order.

use vstd::prelude::*;

verus! {

/// The thread that a receipt is for.
#[derive(Debug, PartialEq, Eq)]
pub enum ReceiptThread {
    /// The receipt is for the timeline, whatever the thread.
    Unthreaded,
    /// The receipt is for the main timeline.
    Main,
    /// The receipt is for the thread with this root.
    Thread(String),
    /// The receipt is for something else.
    Custom(String),
}

impl Clone for ReceiptThread {
    fn clone(&self) -> (r: Self)
        ensures
            r == *self,
    {
        match self {
            ReceiptThread::Unthreaded => ReceiptThread::Unthreaded,
            ReceiptThread::Main => ReceiptThread::Main,
            ReceiptThread::Thread(root) => ReceiptThread::Thread(root.clone()),
            ReceiptThread::Custom(other) => ReceiptThread::Custom(other.clone()),
        }
    }
}

/// A read receipt.
#[derive(Debug, PartialEq, Eq)]
pub struct Receipt {
    /// When the receipt was sent, in milliseconds since the Unix epoch.
    pub ts: Option<u64>,
    /// The thread that it is for.
    pub thread: ReceiptThread,
}

impl Receipt {
    /// An unthreaded receipt that was sent at the given time.
    pub fn new(ts: u64) -> (r: Self)
        ensures
            r == (Receipt { ts: Some(ts), thread: ReceiptThread::Unthreaded }),
    {
        Receipt { ts: Some(ts), thread: ReceiptThread::Unthreaded }
    }
}

impl Default for Receipt {
    fn default() -> (r: Self)
        ensures
            r == (Receipt { ts: None, thread: ReceiptThread::Unthreaded }),
    {
        Receipt { ts: None, thread: ReceiptThread::Unthreaded }
    }
}

impl Clone for Receipt {
    fn clone(&self) -> (r: Self)
        ensures
            r == *self,
    {
        Receipt { ts: self.ts, thread: self.thread.clone() }
    }
}

/// Receipts by reader, each with the slot of its reader. It holds an `imbl::OrdMap`, whose pointer
/// type is bound by a trait of another crate.
#[verifier::external_body]
#[derive(Debug)]
pub struct ReceiptIndex {
    map: imbl::OrdMap<String, (usize, Receipt)>,
}

/// What a [`ReceiptIndex`] holds.
pub uninterp spec fn indexed_receipts(index: ReceiptIndex) -> Map<Seq<char>, (usize, Receipt)>;

impl ReceiptIndex {
    /// `imbl::OrdMap::new` gives an empty map.
    #[verifier::external_body]
    fn new() -> (r: Self)
        ensures
            indexed_receipts(r).is_empty(),
    {
        ReceiptIndex { map: imbl::OrdMap::new() }
    }

    /// The clone of an `imbl::OrdMap` holds the same entries.
    #[verifier::external_body]
    fn copy(&self) -> (r: Self)
        ensures
            indexed_receipts(r) == indexed_receipts(*self),
    {
        ReceiptIndex { map: self.map.clone() }
    }

    /// `imbl::OrdMap::len` gives the number of entries.
    #[verifier::external_body]
    fn len(&self) -> (r: usize)
        ensures
            r == indexed_receipts(*self).len(),
    {
        self.map.len()
    }

    /// `imbl::OrdMap::is_empty` tells whether there is no entry.
    #[verifier::external_body]
    fn is_empty(&self) -> (r: bool)
        ensures
            r == indexed_receipts(*self).is_empty(),
    {
        self.map.is_empty()
    }

    /// `imbl::OrdMap::get` gives the value of the key, where the map has it.
    #[verifier::external_body]
    fn get(&self, user_id: &str) -> (r: Option<&(usize, Receipt)>)
        ensures
            match r {
                Some(entry) => indexed_receipts(*self).contains_key(user_id@) && *entry
                    == indexed_receipts(*self)[user_id@],
                None => !indexed_receipts(*self).contains_key(user_id@),
            },
    {
        self.map.get(user_id)
    }

    /// `imbl::OrdMap::get_mut` gives the value of the key for writing, where the map has it; the
    /// other entries stay as they are.
    #[verifier::external_body]
    fn get_mut(&mut self, user_id: &str) -> (r: Option<&mut (usize, Receipt)>)
        ensures
            match r {
                Some(entry) => {
                    &&& indexed_receipts(*old(self)).contains_key(user_id@)
                    &&& *entry == indexed_receipts(*old(self))[user_id@]
                    &&& indexed_receipts(*final(self)) == indexed_receipts(*old(self)).insert(
                        user_id@,
                        *final(entry),
                    )
                },
                None => {
                    &&& !indexed_receipts(*old(self)).contains_key(user_id@)
                    &&& indexed_receipts(*final(self)) == indexed_receipts(*old(self))
                },
            },
    {
        self.map.get_mut(user_id)
    }

    /// `imbl::OrdMap::insert` sets the value of the key, and returns the one it had.
    #[verifier::external_body]
    fn insert(&mut self, user_id: String, entry: (usize, Receipt)) -> (r: Option<(usize, Receipt)>)
        ensures
            indexed_receipts(*final(self)) == indexed_receipts(*old(self)).insert(user_id@, entry),
            match r {
                Some(former) => indexed_receipts(*old(self)).contains_key(user_id@) && former
                    == indexed_receipts(*old(self))[user_id@],
                None => !indexed_receipts(*old(self)).contains_key(user_id@),
            },
    {
        self.map.insert(user_id, entry)
    }

    /// `imbl::OrdMap::remove` takes the key out, and returns the value it had.
    #[verifier::external_body]
    fn remove(&mut self, user_id: &str) -> (r: Option<(usize, Receipt)>)
        ensures
            indexed_receipts(*final(self)) == indexed_receipts(*old(self)).remove(user_id@),
            match r {
                Some(former) => indexed_receipts(*old(self)).contains_key(user_id@) && former
                    == indexed_receipts(*old(self))[user_id@],
                None => !indexed_receipts(*old(self)).contains_key(user_id@),
            },
    {
        self.map.remove(user_id)
    }

    /// `imbl::OrdMap::ptr_eq` tells whether two maps have the same root node, or none. Such maps
    /// hold the same entries. Which maps with the same entries have the same root depends on where
    /// they stand in memory, so nothing more is claimed.
    #[verifier::external_body]
    fn ptr_eq(&self, other: &Self) -> (r: bool)
        ensures
            r ==> indexed_receipts(*self) == indexed_receipts(*other),
    {
        self.map.ptr_eq(&other.map)
    }
}

/// Readers in order. It holds an `imbl::Vector`, whose pointer type is bound by a trait of another
/// crate.
#[verifier::external_body]
#[derive(Debug)]
pub struct ReaderOrder {
    readers: imbl::Vector<String>,
}

/// What a [`ReaderOrder`] holds.
pub uninterp spec fn ordered_readers(order: ReaderOrder) -> Seq<Seq<char>>;

impl ReaderOrder {
    /// `imbl::Vector::new` gives an empty vector.
    #[verifier::external_body]
    fn new() -> (r: Self)
        ensures
            ordered_readers(r).len() == 0,
    {
        ReaderOrder { readers: imbl::Vector::new() }
    }

    /// The clone of an `imbl::Vector` holds the same elements.
    #[verifier::external_body]
    fn copy(&self) -> (r: Self)
        ensures
            ordered_readers(r) == ordered_readers(*self),
    {
        ReaderOrder { readers: self.readers.clone() }
    }

    /// `imbl::Vector::len` gives the number of elements.
    #[verifier::external_body]
    fn len(&self) -> (r: usize)
        ensures
            r == ordered_readers(*self).len(),
    {
        self.readers.len()
    }

    /// `imbl::Vector::get` gives the element at an index, where there is one.
    #[verifier::external_body]
    fn get(&self, index: usize) -> (r: Option<&String>)
        ensures
            match r {
                Some(reader) => index < ordered_readers(*self).len() && reader@ == ordered_readers(
                    *self,
                )[index as int],
                None => index >= ordered_readers(*self).len(),
            },
    {
        self.readers.get(index)
    }

    /// `imbl::Vector::push_back` puts an element behind the last one.
    #[verifier::external_body]
    fn push_back(&mut self, reader: String)
        ensures
            ordered_readers(*final(self)) == ordered_readers(*old(self)).push(reader@),
    {
        self.readers.push_back(reader);
    }

    /// `imbl::Vector::pop_back` takes the last element out, where there is one.
    #[verifier::external_body]
    fn pop_back(&mut self) -> (r: Option<String>)
        ensures
            match r {
                Some(reader) => {
                    &&& ordered_readers(*old(self)).len() > 0
                    &&& reader@ == ordered_readers(*old(self)).last()
                    &&& ordered_readers(*final(self)) == ordered_readers(*old(self)).drop_last()
                },
                None => {
                    &&& ordered_readers(*old(self)).len() == 0
                    &&& ordered_readers(*final(self)) == ordered_readers(*old(self))
                },
            },
    {
        self.readers.pop_back()
    }

    /// `imbl::Vector::set` replaces the element at an index; it panics where there is none. The
    /// former element is dropped.
    #[verifier::external_body]
    fn set(&mut self, index: usize, reader: String)
        requires
            index < ordered_readers(*old(self)).len(),
        ensures
            ordered_readers(*final(self)) == ordered_readers(*old(self)).update(
                index as int,
                reader@,
            ),
    {
        let _ = self.readers.set(index, reader);
    }
}

/// `indexmap::IndexMap`, a map that keeps its entries in order.
#[verifier::external_type_specification]
#[verifier::external_body]
#[verifier::reject_recursive_types(K)]
#[verifier::reject_recursive_types(V)]
#[verifier::reject_recursive_types(S)]
pub struct ExIndexMap<K, V, S>(indexmap::IndexMap<K, V, S>);

/// The entries of an `indexmap::IndexMap`, in order.
pub uninterp spec fn index_map_entries(map: indexmap::IndexMap<String, Receipt>) -> Seq<
    (Seq<char>, Receipt),
>;

/// `indexmap::IndexMap::new` gives an empty map.
#[verifier::external_body]
fn new_index_map() -> (r: indexmap::IndexMap<String, Receipt>)
    ensures
        index_map_entries(r).len() == 0,
{
    indexmap::IndexMap::new()
}

/// `indexmap::IndexMap::insert` sets the value of a key that the map has, and puts another key
/// behind the last one. The former value is dropped.
#[verifier::external_body]
fn insert_into_index_map(
    map: &mut indexmap::IndexMap<String, Receipt>,
    user_id: String,
    receipt: Receipt,
)
    ensures
        index_map_entries(*final(map)) == inserted(index_map_entries(*old(map)), user_id@, receipt),
{
    let _ = map.insert(user_id, receipt);
}

/// `indexmap::IndexMap::into_iter` hands out the entries in order. No key occurs twice in a map.
#[verifier::external_body]
fn take_index_map_entries(map: indexmap::IndexMap<String, Receipt>) -> (r: Vec<(String, Receipt)>)
    ensures
        entry_views(r@) == index_map_entries(map),
        readers_are_distinct(entry_views(r@)),
{
    map.into_iter().collect()
}

/// Entries with the characters of their readers.
pub open spec fn entry_views(entries: Seq<(String, Receipt)>) -> Seq<(Seq<char>, Receipt)> {
    entries.map_values(|entry: (String, Receipt)| (entry.0@, entry.1))
}

/// Whether no reader occurs twice.
pub open spec fn readers_are_distinct(entries: Seq<(Seq<char>, Receipt)>) -> bool {
    forall|i: int, j: int|
        0 <= i < j < entries.len() ==> (#[trigger] entries[i]).0 != (#[trigger] entries[j]).0
}

/// Whether the entry at a slot is that of a reader.
pub open spec fn is_slot_of(entries: Seq<(Seq<char>, Receipt)>, user: Seq<char>, slot: int) -> bool {
    0 <= slot < entries.len() && entries[slot].0 == user
}

/// Whether a reader has an entry.
pub open spec fn has_reader(entries: Seq<(Seq<char>, Receipt)>, user: Seq<char>) -> bool {
    exists|slot: int| is_slot_of(entries, user, slot)
}

/// The slot of a reader.
pub open spec fn slot_of(entries: Seq<(Seq<char>, Receipt)>, user: Seq<char>) -> int {
    choose|slot: int| is_slot_of(entries, user, slot)
}

/// The receipt of a reader.
pub open spec fn receipt_of(entries: Seq<(Seq<char>, Receipt)>, user: Seq<char>) -> Option<
    Receipt,
> {
    if has_reader(entries, user) {
        Some(entries[slot_of(entries, user)].1)
    } else {
        None
    }
}

/// Entries with the receipt of a reader set: a reader that was there keeps its slot, another one
/// comes last.
pub open spec fn inserted(
    entries: Seq<(Seq<char>, Receipt)>,
    user: Seq<char>,
    receipt: Receipt,
) -> Seq<(Seq<char>, Receipt)> {
    if has_reader(entries, user) {
        entries.update(slot_of(entries, user), (user, receipt))
    } else {
        entries.push((user, receipt))
    }
}

/// Entries without a reader: the last entry takes the slot that becomes free.
pub open spec fn swap_removed(
    entries: Seq<(Seq<char>, Receipt)>,
    user: Seq<char>,
) -> Seq<(Seq<char>, Receipt)> {
    if has_reader(entries, user) {
        let slot = slot_of(entries, user);
        if slot == entries.len() - 1 {
            entries.drop_last()
        } else {
            entries.drop_last().update(slot, entries.last())
        }
    } else {
        entries
    }
}

/// What inserting entries one after the other into an empty collection gives.
pub open spec fn collected(entries: Seq<(Seq<char>, Receipt)>) -> Seq<(Seq<char>, Receipt)>
    decreases entries.len(),
{
    if entries.len() == 0 {
        Seq::empty()
    } else {
        inserted(collected(entries.drop_last()), entries.last().0, entries.last().1)
    }
}

/// A cheaply cloned receipt collection in insertion and swap-remove order.
///
/// Reading it does not build the full map. Clones share the storage of the tree and of the vector;
/// a change copies the nodes it touches.
#[derive(Debug)]
pub struct ReadReceiptSnapshot {
    by_user: ReceiptIndex,
    order: ReaderOrder,
    legacy: Option<indexmap::IndexMap<String, Receipt>>,
}

impl View for ReadReceiptSnapshot {
    type V = Seq<(Seq<char>, Receipt)>;

    closed spec fn view(&self) -> Seq<(Seq<char>, Receipt)> {
        let index = indexed_receipts(self.by_user);
        ordered_readers(self.order).map_values(|user: Seq<char>| (user, index[user].1))
    }
}

impl ReadReceiptSnapshot {
    /// The index and the order agree: each reader stands in the order once, at the slot that the
    /// index gives. A full map that was built holds the entries.
    pub closed spec fn wf(self) -> bool {
        let index = indexed_receipts(self.by_user);
        let order = ordered_readers(self.order);
        &&& index.dom().finite()
        &&& index.len() == order.len()
        &&& forall|user: Seq<char>| #[trigger]
            index.contains_key(user) ==> index[user].0 < order.len() && order[index[user].0 as int]
                == user
        &&& forall|slot: int|
            0 <= slot < order.len() ==> index.contains_key(#[trigger] order[slot])
                && index[order[slot]].0 == slot
        &&& self.legacy matches Some(map) ==> index_map_entries(map) == self@
    }

    /// Whether the full map has been built.
    pub closed spec fn full_map_is_built(self) -> bool {
        self.legacy is Some
    }

    proof fn entry_facts(&self)
        requires
            self.wf(),
        ensures
            readers_are_distinct(self@),
            self@.len() == ordered_readers(self.order).len(),
            forall|slot: int|
                0 <= slot < self@.len() ==> {
                    &&& (#[trigger] self@[slot]).0 == ordered_readers(self.order)[slot]
                    &&& self@[slot].1 == indexed_receipts(self.by_user)[self@[slot].0].1
                },
            forall|user: Seq<char>| #[trigger]
                indexed_receipts(self.by_user).contains_key(user) <==> has_reader(self@, user),
            forall|user: Seq<char>| #[trigger]
                indexed_receipts(self.by_user).contains_key(user) ==> slot_of(self@, user)
                    == indexed_receipts(self.by_user)[user].0 && receipt_of(self@, user) == Some(
                    indexed_receipts(self.by_user)[user].1,
                ),
    {
        let index = indexed_receipts(self.by_user);
        let order = ordered_readers(self.order);
        assert forall|i: int, j: int| 0 <= i < j < self@.len() implies (#[trigger] self@[i]).0 != (
        #[trigger] self@[j]).0 by {
            assert(index[order[i]].0 == i);
            assert(index[order[j]].0 == j);
        }
        assert forall|user: Seq<char>| has_reader(self@, user) implies #[trigger]
            index.contains_key(user) by {
            let slot = choose|slot: int| is_slot_of(self@, user, slot);
            assert(index.contains_key(order[slot]));
        }
        assert forall|user: Seq<char>| #[trigger] index.contains_key(user) implies has_reader(
            self@,
            user,
        ) && slot_of(self@, user) == index[user].0 && receipt_of(self@, user) == Some(
            index[user].1,
        ) by {
            let slot = index[user].0 as int;
            assert(is_slot_of(self@, user, slot));
            let chosen = slot_of(self@, user);
            assert(is_slot_of(self@, user, chosen));
            assert(order[chosen] == user);
            assert(index[order[chosen]].0 == chosen);
        }
    }

    /// No reader occurs twice in a collection.
    pub proof fn readers_occur_once(&self)
        requires
            self.wf(),
        ensures
            readers_are_distinct(self@),
    {
        self.entry_facts();
    }

    /// Number of readers in the collection.
    pub fn len(&self) -> (r: usize)
        requires
            self.wf(),
        ensures
            r == self@.len(),
    {
        self.by_user.len()
    }

    /// Whether the collection contains no readers.
    pub fn is_empty(&self) -> (r: bool)
        requires
            self.wf(),
        ensures
            r == (self@.len() == 0),
    {
        proof {
            let index = indexed_receipts(self.by_user);
            if self@.len() > 0 {
                assert(index.contains_key(ordered_readers(self.order)[0]));
            } else {
                assert(index.dom() =~= Set::empty());
            }
        }
        self.by_user.is_empty()
    }

    /// Borrows a reader's receipt without building the full map.
    pub fn get(&self, user_id: &str) -> (r: Option<&Receipt>)
        requires
            self.wf(),
        ensures
            match r {
                Some(receipt) => receipt_of(self@, user_id@) == Some(*receipt),
                None => receipt_of(self@, user_id@) is None,
            },
    {
        proof {
            self.entry_facts();
        }
        match self.by_user.get(user_id) {
            Some((_, receipt)) => Some(receipt),
            None => None,
        }
    }

    /// The slot of a reader in the order.
    pub fn slot(&self, user_id: &str) -> (r: Option<usize>)
        requires
            self.wf(),
        ensures
            match r {
                Some(slot) => is_slot_of(self@, user_id@, slot as int),
                None => !has_reader(self@, user_id@),
            },
    {
        proof {
            self.entry_facts();
        }
        match self.by_user.get(user_id) {
            Some((slot, _)) => Some(*slot),
            None => None,
        }
    }

    /// Borrows the receipts in the order of the full map, without building it.
    pub fn iter(&self) -> (r: Vec<(&String, &Receipt)>)
        requires
            self.wf(),
        ensures
            r@.len() == self@.len(),
            forall|i: int|
                0 <= i < r@.len() ==> (#[trigger] r@[i]).0@ == self@[i].0 && *r@[i].1 == self@[i].1,
    {
        proof {
            self.entry_facts();
        }
        let mut entries: Vec<(&String, &Receipt)> = Vec::new();
        let len = self.order.len();
        let mut slot: usize = 0;
        while slot < len
            invariant
                self.wf(),
                len == self@.len(),
                len == ordered_readers(self.order).len(),
                slot <= len,
                entries@.len() == slot,
                forall|i: int|
                    0 <= i < entries@.len() ==> (#[trigger] entries@[i]).0@ == self@[i].0
                        && *entries@[i].1 == self@[i].1,
            decreases len - slot,
        {
            proof {
                self.entry_facts();
            }
            if let Some(user_id) = self.order.get(slot) {
                if let Some((_, receipt)) = self.by_user.get(user_id.as_str()) {
                    entries.push((user_id, receipt));
                    assert(user_id@ == self@[slot as int].0);
                }
            }
            slot += 1;
        }
        entries
    }

    /// Sets the receipt of a reader, and returns the one it had.
    pub fn insert(&mut self, user_id: String, receipt: Receipt) -> (r: Option<Receipt>)
        requires
            old(self).wf(),
        ensures
            final(self).wf(),
            final(self)@ == inserted(old(self)@, user_id@, receipt),
            r == receipt_of(old(self)@, user_id@),
            !final(self).full_map_is_built(),
    {
        let ghost index = indexed_receipts(self.by_user);
        let ghost order = ordered_readers(self.order);
        proof {
            self.entry_facts();
        }
        let known = match self.by_user.get(user_id.as_str()) {
            Some((slot, _)) => Some(*slot),
            None => None,
        };
        let slot = match known {
            Some(slot) => slot,
            None => {
                let slot = self.order.len();
                self.order.push_back(user_id.clone());
                slot
            },
        };
        self.legacy = None;
        let former = self.by_user.insert(user_id, (slot, receipt));
        proof {
            let now = indexed_receipts(self.by_user);
            assert forall|user: Seq<char>| #[trigger] now.contains_key(user) implies now[user].0
                < ordered_readers(self.order).len() && ordered_readers(self.order)[now[user].0 as int]
                == user by {
                if user != user_id@ {
                    assert(index.contains_key(user));
                }
            }
            assert forall|s: int|
                0 <= s < ordered_readers(self.order).len() implies now.contains_key(
                #[trigger] ordered_readers(self.order)[s],
            ) && now[ordered_readers(self.order)[s]].0 == s by {
                if s < order.len() {
                    assert(index.contains_key(order[s]));
                }
            }
            assert(self@ =~= inserted(old(self)@, user_id@, receipt));
        }
        match former {
            Some((_, receipt)) => Some(receipt),
            None => None,
        }
    }

    /// Takes a reader out, and returns the receipt it had. The last reader takes the free slot.
    pub fn swap_remove(&mut self, user_id: &str) -> (r: Option<Receipt>)
        requires
            old(self).wf(),
        ensures
            final(self).wf(),
            final(self)@ == swap_removed(old(self)@, user_id@),
            r == receipt_of(old(self)@, user_id@),
            r is Some ==> !final(self).full_map_is_built(),
            r is None ==> final(self).full_map_is_built() == old(self).full_map_is_built(),
    {
        let ghost index = indexed_receipts(self.by_user);
        let ghost order = ordered_readers(self.order);
        proof {
            self.entry_facts();
        }
        let (slot, receipt) = match self.by_user.remove(user_id) {
            Some(entry) => entry,
            None => {
                assert(indexed_receipts(self.by_user) =~= index);
                assert(self@ =~= old(self)@);
                return None;
            },
        };
        if let Some(last) = self.order.pop_back() {
            if slot < self.order.len() {
                self.order.set(slot, last.clone());
                proof {
                    assert(index.contains_key(order.last()));
                    assert(order[slot as int] == user_id@);
                    assert(index[order.last()].0 == order.len() - 1);
                }
                if let Some(entry) = self.by_user.get_mut(last.as_str()) {
                    entry.0 = slot;
                }
            }
        }
        self.legacy = None;
        proof {
            let now = indexed_receipts(self.by_user);
            let readers = ordered_readers(self.order);
            let last = order.last();
            assert(index.contains_key(last) && index[last].0 == order.len() - 1);
            assert(readers.len() == order.len() - 1);
            if slot < readers.len() {
                assert(now =~= index.remove(user_id@).insert(last, (slot, index[last].1)));
                assert(readers =~= order.drop_last().update(slot as int, last));
            } else {
                assert(now =~= index.remove(user_id@));
                assert(readers =~= order.drop_last());
            }
            assert forall|user: Seq<char>| #[trigger] now.contains_key(user) implies now[user].0
                < readers.len() && readers[now[user].0 as int] == user by {
                assert(index.contains_key(user));
                if user != last {
                    assert(index[user].0 != order.len() - 1);
                    assert(index[user].0 != slot);
                }
            }
            assert forall|s: int| 0 <= s < readers.len() implies now.contains_key(
                #[trigger] readers[s],
            ) && now[readers[s]].0 == s by {
                if s != slot {
                    assert(readers[s] == order[s]);
                    assert(index.contains_key(order[s]) && index[order[s]].0 == s);
                }
            }
            assert(self@ =~= swap_removed(old(self)@, user_id@));
        }
        Some(receipt)
    }

    /// The full map, which is built on first use and kept until the next change.
    pub fn as_index_map(&mut self) -> (r: &indexmap::IndexMap<String, Receipt>)
        requires
            old(self).wf(),
        ensures
            index_map_entries(*r) == old(self)@,
            final(self).wf(),
            final(self)@ == old(self)@,
            final(self).full_map_is_built(),
    {
        if self.legacy.is_none() {
            let map = self.build_index_map();
            self.legacy = Some(map);
        }
        assert(self@ =~= old(self)@);
        match &self.legacy {
            Some(map) => map,
            None => unreached(),
        }
    }

    fn build_index_map(&self) -> (r: indexmap::IndexMap<String, Receipt>)
        requires
            self.wf(),
        ensures
            index_map_entries(r) == self@,
    {
        let mut map = new_index_map();
        let entries = self.iter();
        proof {
            self.entry_facts();
            assert(index_map_entries(map) =~= self@.take(0));
        }
        let mut i: usize = 0;
        while i < entries.len()
            invariant
                self.wf(),
                readers_are_distinct(self@),
                i <= entries@.len(),
                entries@.len() == self@.len(),
                forall|k: int|
                    0 <= k < entries@.len() ==> (#[trigger] entries@[k]).0@ == self@[k].0
                        && *entries@[k].1 == self@[k].1,
                index_map_entries(map) == self@.take(i as int),
            decreases entries@.len() - i,
        {
            insert_into_index_map(&mut map, entries[i].0.clone(), entries[i].1.clone());
            proof {
                inserting_a_new_reader_appends(self@.take(i as int), self@[i as int]);
                assert(self@.take(i + 1) =~= self@.take(i as int).push(self@[i as int]));
            }
            i += 1;
        }
        assert(self@.take(i as int) =~= self@);
        map
    }

    /// Tells whether the full map has been built.
    pub fn has_index_map(&self) -> (r: bool)
        ensures
            r == self.full_map_is_built(),
    {
        self.legacy.is_some()
    }

    /// Tells whether the receipts of two collections stand in the same storage. Collections that
    /// share it hold the same entries in the same order. Whether collections with the same entries
    /// share it depends on where they stand in memory.
    pub fn shares_storage_with(&self, other: &Self) -> (r: bool)
        ensures
            r && self.wf() && other.wf() ==> self@ == other@,
    {
        let shared = self.by_user.ptr_eq(&other.by_user);
        proof {
            if shared && self.wf() && other.wf() {
                Self::same_index_means_same_entries(self, other);
            }
        }
        shared
    }

    proof fn same_index_means_same_entries(one: &Self, other: &Self)
        requires
            one.wf(),
            other.wf(),
            indexed_receipts(one.by_user) == indexed_receipts(other.by_user),
        ensures
            one@ == other@,
    {
        let index = indexed_receipts(one.by_user);
        let readers = ordered_readers(one.order);
        assert forall|slot: int| 0 <= slot < readers.len() implies readers[slot]
            == ordered_readers(other.order)[slot] by {
            assert(index.contains_key(readers[slot]));
        }
        assert(readers =~= ordered_readers(other.order));
        assert(one@ =~= other@);
    }

    /// A collection without readers.
    pub fn new() -> (r: Self)
        ensures
            r.wf(),
            r@ == Seq::<(Seq<char>, Receipt)>::empty(),
            !r.full_map_is_built(),
    {
        let r = ReadReceiptSnapshot {
            by_user: ReceiptIndex::new(),
            order: ReaderOrder::new(),
            legacy: None,
        };
        proof {
            assert(indexed_receipts(r.by_user).dom() =~= Set::empty());
            assert(r@ =~= Seq::empty());
        }
        r
    }

    /// Inserts entries one after the other into an empty collection.
    pub fn from_entries(entries: Vec<(String, Receipt)>) -> (r: Self)
        ensures
            r.wf(),
            r@ == collected(entry_views(entries@)),
            !r.full_map_is_built(),
    {
        let mut result = Self::new();
        let ghost all = entry_views(entries@);
        assert(result@ =~= collected(all.take(0)));
        for entry in it: entries
            invariant
                it.seq() == entries@,
                all == entry_views(entries@),
                result.wf(),
                result@ == collected(all.take(it.index() as int)),
                !result.full_map_is_built(),
        {
            proof {
                assert(all.take(it.index() + 1).drop_last() =~= all.take(it.index() as int));
                assert(all.take(it.index() + 1).last() == (entry.0@, entry.1));
            }
            let (user_id, receipt) = entry;
            let _ = result.insert(user_id, receipt);
        }
        assert(all.take(all.len() as int) =~= all);
        result
    }

    /// The collection of a full map.
    pub fn from_index_map(receipts: indexmap::IndexMap<String, Receipt>) -> (r: Self)
        ensures
            r.wf(),
            r@ == index_map_entries(receipts),
            !r.full_map_is_built(),
    {
        let entries = take_index_map_entries(receipts);
        proof {
            collecting_distinct_readers_keeps_the_entries(entry_views(entries@));
        }
        Self::from_entries(entries)
    }
}

impl Clone for ReadReceiptSnapshot {
    fn clone(&self) -> (r: Self)
        ensures
            r@ == self@,
            self.wf() ==> r.wf(),
            !r.full_map_is_built(),
    {
        let r = ReadReceiptSnapshot {
            by_user: self.by_user.copy(),
            order: self.order.copy(),
            legacy: None,
        };
        assert(r@ =~= self@);
        r
    }
}

impl Default for ReadReceiptSnapshot {
    fn default() -> (r: Self)
        ensures
            r.wf(),
            r@ == Seq::<(Seq<char>, Receipt)>::empty(),
            !r.full_map_is_built(),
    {
        Self::new()
    }
}

proof fn inserting_a_new_reader_appends(
    entries: Seq<(Seq<char>, Receipt)>,
    entry: (Seq<char>, Receipt),
)
    requires
        forall|i: int| 0 <= i < entries.len() ==> (#[trigger] entries[i]).0 != entry.0,
    ensures
        inserted(entries, entry.0, entry.1) == entries.push(entry),
{
}

/// Collecting entries without a repeated reader gives these entries.
pub proof fn collecting_distinct_readers_keeps_the_entries(entries: Seq<(Seq<char>, Receipt)>)
    requires
        readers_are_distinct(entries),
    ensures
        collected(entries) == entries,
    decreases entries.len(),
{
    if entries.len() > 0 {
        let rest = entries.drop_last();
        assert(readers_are_distinct(rest)) by {
            assert forall|i: int, j: int| 0 <= i < j < rest.len() implies (#[trigger] rest[i]).0
                != (#[trigger] rest[j]).0 by {
                assert(rest[i] == entries[i] && rest[j] == entries[j]);
            }
        }
        collecting_distinct_readers_keeps_the_entries(rest);
        assert forall|i: int| 0 <= i < rest.len() implies (#[trigger] rest[i]).0
            != entries.last().0 by {
            assert(rest[i] == entries[i]);
        }
        inserting_a_new_reader_appends(rest, entries.last());
        assert(rest.push(entries.last()) =~= entries);
    } else {
        assert(collected(entries) =~= entries);
    }
}

proof fn slot_is_unique(entries: Seq<(Seq<char>, Receipt)>, user: Seq<char>, slot: int)
    requires
        readers_are_distinct(entries),
        is_slot_of(entries, user, slot),
    ensures
        has_reader(entries, user),
        slot_of(entries, user) == slot,
        receipt_of(entries, user) == Some(entries[slot].1),
{
    let chosen = slot_of(entries, user);
    assert(is_slot_of(entries, user, chosen));
    if chosen < slot {
        assert(entries[chosen].0 != entries[slot].0);
    }
    if slot < chosen {
        assert(entries[slot].0 != entries[chosen].0);
    }
}

/// After an insertion the reader has the new receipt, all others have the one they had, and no
/// reader occurs twice. Those who were there keep their slots.
pub proof fn insertion_sets_one_receipt(
    entries: Seq<(Seq<char>, Receipt)>,
    user: Seq<char>,
    receipt: Receipt,
    other: Seq<char>,
)
    requires
        readers_are_distinct(entries),
        other != user,
    ensures
        ({
            let now = inserted(entries, user, receipt);
            &&& readers_are_distinct(now)
            &&& receipt_of(now, user) == Some(receipt)
            &&& receipt_of(now, other) == receipt_of(entries, other)
            &&& forall|slot: int| 0 <= slot < entries.len() ==> (#[trigger] now[slot]).0
                == entries[slot].0
        }),
{
    let now = inserted(entries, user, receipt);
    if has_reader(entries, user) {
        assert(is_slot_of(entries, user, slot_of(entries, user)));
        assert(is_slot_of(now, user, slot_of(entries, user)));
    } else {
        assert forall|i: int| 0 <= i < entries.len() implies (#[trigger] entries[i]).0 != user by {
            if entries[i].0 == user {
                assert(is_slot_of(entries, user, i));
            }
        }
        assert(is_slot_of(now, user, entries.len() as int));
    }
    assert(readers_are_distinct(now)) by {
        assert forall|i: int, j: int| 0 <= i < j < now.len() implies (#[trigger] now[i]).0 != (
        #[trigger] now[j]).0 by {
            if j < entries.len() {
                assert(entries[i].0 != entries[j].0);
            } else {
                assert(entries[i].0 != user);
            }
        }
    }
    if has_reader(entries, user) {
        slot_is_unique(now, user, slot_of(entries, user));
    } else {
        slot_is_unique(now, user, entries.len() as int);
    }
    assert forall|i: int|
        0 <= i < entries.len() && (#[trigger] entries[i]).0 == other implies exists|k: int|
        0 <= k < now.len() && #[trigger] now[k] == entries[i] by {
        assert(now[i] == entries[i]);
    }
    assert forall|k: int| 0 <= k < now.len() && (#[trigger] now[k]).0 == other implies exists|
        i: int,
    |
        0 <= i < entries.len() && #[trigger] entries[i] == now[k] by {
        assert(entries[k] == now[k]);
    }
    others_keep_their_receipt(entries, now, other);
}

proof fn others_keep_their_receipt(
    before: Seq<(Seq<char>, Receipt)>,
    now: Seq<(Seq<char>, Receipt)>,
    other: Seq<char>,
)
    requires
        readers_are_distinct(before),
        readers_are_distinct(now),
        forall|i: int|
            0 <= i < before.len() && (#[trigger] before[i]).0 == other ==> exists|k: int|
                0 <= k < now.len() && #[trigger] now[k] == before[i],
        forall|k: int|
            0 <= k < now.len() && (#[trigger] now[k]).0 == other ==> exists|i: int|
                0 <= i < before.len() && #[trigger] before[i] == now[k],
    ensures
        receipt_of(now, other) == receipt_of(before, other),
{
    if has_reader(before, other) {
        let i = slot_of(before, other);
        assert(is_slot_of(before, other, i));
        let k = choose|k: int| 0 <= k < now.len() && #[trigger] now[k] == before[i];
        assert(is_slot_of(now, other, k));
        slot_is_unique(now, other, k);
    } else if has_reader(now, other) {
        let k = slot_of(now, other);
        assert(is_slot_of(now, other, k));
        let i = choose|i: int| 0 <= i < before.len() && #[trigger] before[i] == now[k];
        assert(is_slot_of(before, other, i));
    }
}

/// After a removal the reader has no receipt, all others have the one they had, and no reader
/// occurs twice.
pub proof fn removal_takes_one_reader_out(
    entries: Seq<(Seq<char>, Receipt)>,
    user: Seq<char>,
    other: Seq<char>,
)
    requires
        readers_are_distinct(entries),
        other != user,
    ensures
        ({
            let now = swap_removed(entries, user);
            &&& readers_are_distinct(now)
            &&& receipt_of(now, user) is None
            &&& receipt_of(now, other) == receipt_of(entries, other)
            &&& now.len() == entries.len() - (if has_reader(entries, user) {
                1int
            } else {
                0int
            })
        }),
{
    let now = swap_removed(entries, user);
    if has_reader(entries, user) {
        let slot = slot_of(entries, user);
        let last = entries.len() - 1;
        assert(is_slot_of(entries, user, slot));
        assert forall|i: int| 0 <= i < now.len() implies #[trigger] now[i] == entries[if i == slot {
            last
        } else {
            i
        }] by {}
        assert(readers_are_distinct(now)) by {
            assert forall|i: int, j: int| 0 <= i < j < now.len() implies (#[trigger] now[i]).0 != (
            #[trigger] now[j]).0 by {
                let oi = if i == slot {
                    last
                } else {
                    i
                };
                let oj = if j == slot {
                    last
                } else {
                    j
                };
                assert(now[i] == entries[oi] && now[j] == entries[oj]);
                if oi < oj {
                    assert(entries[oi].0 != entries[oj].0);
                } else {
                    assert(entries[oj].0 != entries[oi].0);
                }
            }
        }
        if has_reader(now, user) {
            let k = slot_of(now, user);
            assert(is_slot_of(now, user, k));
            let ok = if k == slot {
                last
            } else {
                k
            };
            assert(now[k] == entries[ok]);
            if ok < slot {
                assert(entries[ok].0 != entries[slot].0);
            } else {
                assert(entries[slot].0 != entries[ok].0);
            }
        }
        assert forall|i: int|
            0 <= i < entries.len() && (#[trigger] entries[i]).0 == other implies exists|k: int|
            0 <= k < now.len() && #[trigger] now[k] == entries[i] by {
            if i == last {
                assert(now[slot] == entries[i]);
            } else {
                assert(now[i] == entries[i]);
            }
        }
        assert forall|k: int| 0 <= k < now.len() && (#[trigger] now[k]).0 == other implies exists|
            i: int,
        |
            0 <= i < entries.len() && #[trigger] entries[i] == now[k] by {
            if k == slot {
                assert(entries[last] == now[k]);
            } else {
                assert(entries[k] == now[k]);
            }
        }
        others_keep_their_receipt(entries, now, other);
    }
}

/// Entries are read one for one, and a reader put behind others is distinct where no other entry has it.
pub proof fn entries_are_read_one_for_one(
    entries: Seq<(String, Receipt)>,
    readers: Seq<(Seq<char>, Receipt)>,
    entry: (Seq<char>, Receipt),
)
    ensures
        entry_views(entries).len() == entries.len(),
        forall|i: int|
            0 <= i < entries.len() ==> #[trigger] entry_views(entries)[i] == (
                entries[i].0@,
                entries[i].1,
            ),
        readers_are_distinct(Seq::empty()),
        readers_are_distinct(readers.push(entry)) <==> readers_are_distinct(readers) && forall|
            i: int,
        |
            0 <= i < readers.len() ==> (#[trigger] readers[i]).0 != entry.0,
{
    let more = readers.push(entry);
    assert(more[readers.len() as int] == entry);
    assert forall|i: int| 0 <= i < readers.len() implies #[trigger] more[i] == readers[i] by {}
    if readers_are_distinct(more) {
        assert forall|i: int, j: int| 0 <= i < j < readers.len() implies (
        #[trigger] readers[i]).0 != (#[trigger] readers[j]).0 by {
            assert(more[i].0 != more[j].0);
        }
        assert forall|i: int| 0 <= i < readers.len() implies (#[trigger] readers[i]).0
            != entry.0 by {
            assert(more[i].0 != more[readers.len() as int].0);
        }
    }
}

/// The receipt of a reader is the one in the entry that has the reader, and there is none without such
/// an entry.
pub proof fn receipt_is_that_of_the_readers_entry(
    entries: Seq<(Seq<char>, Receipt)>,
    user: Seq<char>,
    slot: int,
)
    requires
        readers_are_distinct(entries),
        0 <= slot < entries.len(),
    ensures
        entries[slot].0 == user ==> {
            &&& has_reader(entries, user)
            &&& slot_of(entries, user) == slot
            &&& receipt_of(entries, user) == Some(entries[slot].1)
        },
        (forall|i: int| 0 <= i < entries.len() ==> (#[trigger] entries[i]).0 != user)
            ==> !has_reader(entries, user) && receipt_of(entries, user) is None,
{
    if entries[slot].0 == user {
        assert(is_slot_of(entries, user, slot));
        let chosen = slot_of(entries, user);
        assert(is_slot_of(entries, user, chosen));
        if chosen < slot {
            assert(entries[chosen].0 != entries[slot].0);
        }
        if slot < chosen {
            assert(entries[slot].0 != entries[chosen].0);
        }
    }
    if forall|i: int| 0 <= i < entries.len() ==> (#[trigger] entries[i]).0 != user {
        if has_reader(entries, user) {
            let i = choose|i: int| is_slot_of(entries, user, i);
            assert(entries[i].0 != user);
        }
    }
}

/// A receipt is set in the slot of its reader, and in a new last slot where the reader has none. All
/// other slots stay.
pub proof fn insertion_changes_one_slot(
    entries: Seq<(Seq<char>, Receipt)>,
    user: Seq<char>,
    receipt: Receipt,
    slot: int,
)
    requires
        readers_are_distinct(entries),
    ensures
        0 <= slot < entries.len() && entries[slot].0 == user ==> {
            let now = inserted(entries, user, receipt);
            &&& now.len() == entries.len()
            &&& now[slot] == (user, receipt)
            &&& forall|i: int|
                0 <= i < entries.len() && i != slot ==> #[trigger] now[i] == entries[i]
        },
        (forall|i: int| 0 <= i < entries.len() ==> (#[trigger] entries[i]).0 != user) ==> {
            let now = inserted(entries, user, receipt);
            &&& now.len() == entries.len() + 1
            &&& now[entries.len() as int] == (user, receipt)
            &&& forall|i: int| 0 <= i < entries.len() ==> #[trigger] now[i] == entries[i]
        },
{
    if 0 <= slot < entries.len() {
        receipt_is_that_of_the_readers_entry(entries, user, slot);
    }
}

/// A reader that is taken out leaves its slot to the last entry. All other slots stay, and so do all of
/// them where the reader has no entry.
pub proof fn removal_moves_the_last_entry_into_the_free_slot(
    entries: Seq<(Seq<char>, Receipt)>,
    user: Seq<char>,
    slot: int,
)
    requires
        readers_are_distinct(entries),
    ensures
        0 <= slot < entries.len() && entries[slot].0 == user ==> {
            let now = swap_removed(entries, user);
            &&& now.len() == entries.len() - 1
            &&& slot < now.len() ==> now[slot] == entries.last()
            &&& forall|i: int| 0 <= i < now.len() && i != slot ==> #[trigger] now[i] == entries[i]
        },
        (forall|i: int| 0 <= i < entries.len() ==> (#[trigger] entries[i]).0 != user)
            ==> swap_removed(entries, user) == entries,
{
    if 0 <= slot < entries.len() {
        receipt_is_that_of_the_readers_entry(entries, user, slot);
    }
}

/// Entries are collected one after the other: of several with one reader, the first decides where the
/// reader stands, and the last decides its receipt.
pub proof fn last_receipt_of_a_reader_is_collected(
    entries: Seq<(Seq<char>, Receipt)>,
    entry: (Seq<char>, Receipt),
    slot: int,
)
    ensures
        collected(Seq::empty()).len() == 0,
        readers_are_distinct(collected(entries)),
        ({
            let before = collected(entries);
            let now = collected(entries.push(entry));
            &&& (forall|i: int| 0 <= i < before.len() ==> (#[trigger] before[i]).0 != entry.0)
                ==> now == before.push(entry)
            &&& 0 <= slot < before.len() && before[slot].0 == entry.0 ==> {
                &&& now.len() == before.len()
                &&& now[slot] == entry
                &&& forall|i: int|
                    0 <= i < before.len() && i != slot ==> #[trigger] now[i] == before[i]
            }
        }),
{
    collected_readers_are_distinct(entries);
    assert(entries.push(entry).drop_last() =~= entries);
    let before = collected(entries);
    insertion_changes_one_slot(before, entry.0, entry.1, slot);
    if forall|i: int| 0 <= i < before.len() ==> (#[trigger] before[i]).0 != entry.0 {
        inserting_a_new_reader_appends(before, entry);
    }
}

proof fn collected_readers_are_distinct(entries: Seq<(Seq<char>, Receipt)>)
    ensures
        readers_are_distinct(collected(entries)),
    decreases entries.len(),
{
    if entries.len() > 0 {
        let rest = entries.drop_last();
        let last = entries.last();
        collected_readers_are_distinct(rest);
        let other = last.0.push('a');
        assert(other.len() != last.0.len());
        insertion_sets_one_receipt(collected(rest), last.0, last.1, other);
    }
}

} // verus!
