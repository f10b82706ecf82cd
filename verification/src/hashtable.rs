//! An open-addressed hash table with linear probing and tombstones, keyed by object handle.
//!
//! The table serves twice: as the set of interned strings (all values `nil`) and as the
//! store of global variables. Its abstract value is a finite map from handles to values.

use vstd::prelude::*;
use crate::value::{LoxObject, ObjRef, Value};

verus! {

/// One slot of the table. A slot with no key is empty when its value is `nil`, and a
/// tombstone otherwise.
#[derive(Debug, Clone, Copy)]
pub struct Entry {
    pub key: Option<ObjRef>,
    pub value: Value,
}

impl Entry {
    /// A slot that was never used.
    pub open spec fn is_empty(self) -> bool {
        self.key is None && self.value is Nil
    }

    /// A slot whose key was deleted.
    pub open spec fn is_tombstone(self) -> bool {
        self.key is None && !(self.value is Nil)
    }

    /// The empty slot.
    pub fn all_none() -> (entry: Entry)
        ensures
            entry == (Entry { key: None, value: Value::Nil }),
            entry.is_empty(),
    {
        Entry { key: None, value: Value::Nil }
    }
}

/// The slot at which probing for a hash starts.
pub open spec fn home_slot(hash: u32, capacity: int) -> int {
    (hash as int) % capacity
}

/// The slot reached after `distance` steps from `home`, wrapping round at the end.
pub open spec fn probe_slot(home: int, distance: int, capacity: int) -> int {
    if home + distance < capacity {
        home + distance
    } else {
        home + distance - capacity
    }
}

/// How many steps lead from `home` to `slot`.
pub open spec fn probe_distance(home: int, slot: int, capacity: int) -> int {
    if slot >= home {
        slot - home
    } else {
        slot - home + capacity
    }
}

/// No slot within `distance` steps of `home` is empty.
pub open spec fn path_clear(entries: Seq<Entry>, home: int, distance: int) -> bool {
    forall|d: int|
        0 <= d < distance ==> !(#[trigger] entries[probe_slot(home, d, entries.len() as int)]).is_empty()
}

/// Whether the first slot without a key that probing from `home` meets, `distance` steps
/// on or later, is a tombstone.
pub open spec fn meets_tombstone(entries: Seq<Entry>, home: int, distance: int) -> bool
    decreases entries.len() - distance,
{
    if 0 <= distance < entries.len() {
        let entry = entries[probe_slot(home, distance, entries.len() as int)];
        if entry.key is None {
            entry.is_tombstone()
        } else {
            meets_tombstone(entries, home, distance + 1)
        }
    } else {
        false
    }
}

/// The first slot without a key on a probe path decides whether a tombstone is met.
proof fn lemma_meets_tombstone(entries: Seq<Entry>, home: int, slot: int, from: int)
    requires
        0 <= home < entries.len(),
        0 <= slot < entries.len(),
        0 <= from <= probe_distance(home, slot, entries.len() as int),
        entries[slot].key is None,
        forall|d: int|
            0 <= d < probe_distance(home, slot, entries.len() as int) ==> (
            #[trigger] entries[probe_slot(home, d, entries.len() as int)]).key is Some,
    ensures
        meets_tombstone(entries, home, from) == entries[slot].is_tombstone(),
    decreases probe_distance(home, slot, entries.len() as int) - from,
{
    let distance = probe_distance(home, slot, entries.len() as int);
    if from < distance {
        assert(entries[probe_slot(home, from, entries.len() as int)].key is Some);
        lemma_meets_tombstone(entries, home, slot, from + 1);
    } else {
        assert(probe_slot(home, distance, entries.len() as int) == slot);
    }
}

/// Slot `i` holds the key `key`.
pub open spec fn holds_key(entries: Seq<Entry>, i: int, key: ObjRef) -> bool {
    0 <= i < entries.len() && entries[i].key == Some(key)
}

/// The number of slots that are not empty: live keys and tombstones.
pub open spec fn occupied(entries: Seq<Entry>) -> nat
    decreases entries.len(),
{
    if entries.len() == 0 {
        0
    } else {
        occupied(entries.drop_last()) + if entries.last().is_empty() {
            0nat
        } else {
            1nat
        }
    }
}

/// No key sits in two slots, and probing for a key from its home slot meets no empty slot
/// before it meets the key.
pub open spec fn entries_wf(entries: Seq<Entry>) -> bool {
    &&& forall|i: int, j: int|
        0 <= i < entries.len() && 0 <= j < entries.len() && i != j && (
        #[trigger] entries[i]).key is Some ==> entries[i].key != (#[trigger] entries[j]).key
    &&& forall|i: int|
        0 <= i < entries.len() && (#[trigger] entries[i]).key is Some ==> path_clear(
            entries,
            home_slot(entries[i].key->0.hash, entries.len() as int),
            probe_distance(
                home_slot(entries[i].key->0.hash, entries.len() as int),
                i,
                entries.len() as int,
            ),
        )
}

/// The map that a sequence of slots stands for.
pub open spec fn entries_view(entries: Seq<Entry>) -> Map<ObjRef, Value> {
    Map::new(
        |key: ObjRef| exists|i: int| holds_key(entries, i, key),
        |key: ObjRef| entries[choose|i: int| holds_key(entries, i, key)].value,
    )
}

proof fn lemma_occupied_bound(entries: Seq<Entry>)
    ensures
        occupied(entries) <= entries.len(),
        occupied(entries) == entries.len() ==> forall|i: int|
            0 <= i < entries.len() ==> !(#[trigger] entries[i]).is_empty(),
    decreases entries.len(),
{
    if entries.len() > 0 {
        lemma_occupied_bound(entries.drop_last());
        if occupied(entries) == entries.len() {
            assert forall|i: int| 0 <= i < entries.len() implies !(#[trigger] entries[i]).is_empty() by {
                if i < entries.len() - 1 {
                    assert(entries.drop_last()[i] == entries[i]);
                }
            }
        }
    }
}

proof fn lemma_occupied_update(entries: Seq<Entry>, i: int, entry: Entry)
    requires
        0 <= i < entries.len(),
    ensures
        occupied(entries.update(i, entry)) + (if entries[i].is_empty() {
            0nat
        } else {
            1nat
        }) == occupied(entries) + (if entry.is_empty() {
            0nat
        } else {
            1nat
        }),
    decreases entries.len(),
{
    let updated = entries.update(i, entry);
    if i == entries.len() - 1 {
        assert(updated.drop_last() =~= entries.drop_last());
    } else {
        lemma_occupied_update(entries.drop_last(), i, entry);
        assert(updated.drop_last() =~= entries.drop_last().update(i, entry));
    }
}

proof fn lemma_occupied_all_empty(entries: Seq<Entry>)
    requires
        forall|i: int| 0 <= i < entries.len() ==> (#[trigger] entries[i]).is_empty(),
    ensures
        occupied(entries) == 0,
    decreases entries.len(),
{
    if entries.len() > 0 {
        assert forall|i: int| 0 <= i < entries.drop_last().len() implies (
        #[trigger] entries.drop_last()[i]).is_empty() by {
            assert(entries.drop_last()[i] == entries[i]);
        }
        lemma_occupied_all_empty(entries.drop_last());
    }
}

/// The keys found in the first `n` slots.
spec fn keys_upto(entries: Seq<Entry>, n: int) -> Set<ObjRef> {
    Set::new(|key: ObjRef| exists|i: int| 0 <= i < n && holds_key(entries, i, key))
}

/// The number of live slots among the first `n`.
spec fn live_upto(entries: Seq<Entry>, n: int) -> nat
    decreases n,
{
    if n <= 0 {
        0
    } else {
        live_upto(entries, n - 1) + if entries[n - 1].key is Some {
            1nat
        } else {
            0nat
        }
    }
}

proof fn lemma_live_le_occupied(entries: Seq<Entry>, n: int)
    requires
        0 <= n <= entries.len(),
    ensures
        live_upto(entries, n) <= occupied(entries.take(n)),
    decreases n,
{
    if n > 0 {
        lemma_live_le_occupied(entries, n - 1);
        assert(entries.take(n).drop_last() =~= entries.take(n - 1));
        assert(entries.take(n).last() == entries[n - 1]);
    }
}

proof fn lemma_keys_count(entries: Seq<Entry>, n: int)
    requires
        0 <= n <= entries.len(),
    ensures
        keys_upto(entries, n).finite(),
        keys_upto(entries, n).len() <= live_upto(entries, n),
    decreases n,
{
    if n == 0 {
        assert(keys_upto(entries, n) =~= Set::<ObjRef>::empty());
    } else {
        lemma_keys_count(entries, n - 1);
        let before = keys_upto(entries, n - 1);
        let now = keys_upto(entries, n);
        match entries[n - 1].key {
            Some(key) => {
                assert(holds_key(entries, n - 1, key));
                assert forall|k: ObjRef| now.contains(k) <==> before.insert(key).contains(k) by {
                    if now.contains(k) {
                        let i = choose|i: int| 0 <= i < n && holds_key(entries, i, k);
                        if i < n - 1 {
                            assert(before.contains(k));
                        }
                    }
                    if before.contains(k) {
                        let i = choose|i: int| 0 <= i < n - 1 && holds_key(entries, i, k);
                        assert(0 <= i < n && holds_key(entries, i, k));
                    }
                }
                assert(now =~= before.insert(key));
            },
            None => {
                assert forall|k: ObjRef| now.contains(k) <==> before.contains(k) by {
                    if now.contains(k) {
                        let i = choose|i: int| 0 <= i < n && holds_key(entries, i, k);
                        assert(i < n - 1);
                    }
                    if before.contains(k) {
                        let i = choose|i: int| 0 <= i < n - 1 && holds_key(entries, i, k);
                        assert(0 <= i < n && holds_key(entries, i, k));
                    }
                }
                assert(now =~= before);
            },
        }
    }
}

proof fn lemma_keys_finite(entries: Seq<Entry>, n: int)
    requires
        n == entries.len(),
    ensures
        entries_view(entries).dom().finite(),
        entries_view(entries).dom().len() <= occupied(entries),
{
    lemma_keys_count(entries, n);
    lemma_live_le_occupied(entries, n);
    assert(entries.take(n) =~= entries);
    assert(entries_view(entries).dom() =~= keys_upto(entries, n));
}

/// With a free slot somewhere, probing from any home slot meets an empty slot.
proof fn lemma_exists_empty(entries: Seq<Entry>, home: int) -> (distance: int)
    requires
        occupied(entries) < entries.len(),
        0 <= home < entries.len(),
    ensures
        0 <= distance < entries.len(),
        entries[probe_slot(home, distance, entries.len() as int)].is_empty(),
{
    lemma_occupied_bound(entries);
    if forall|i: int| 0 <= i < entries.len() ==> !(#[trigger] entries[i]).is_empty() {
        lemma_occupied_full(entries);
    }
    let slot = choose|i: int| 0 <= i < entries.len() && (#[trigger] entries[i]).is_empty();
    probe_distance(home, slot, entries.len() as int)
}

proof fn lemma_occupied_full(entries: Seq<Entry>)
    requires
        forall|i: int| 0 <= i < entries.len() ==> !(#[trigger] entries[i]).is_empty(),
    ensures
        occupied(entries) == entries.len(),
    decreases entries.len(),
{
    if entries.len() > 0 {
        assert forall|i: int| 0 <= i < entries.drop_last().len() implies !(
        #[trigger] entries.drop_last()[i]).is_empty() by {
            assert(entries.drop_last()[i] == entries[i]);
        }
        lemma_occupied_full(entries.drop_last());
    }
}

/// A key that the table holds is held by one slot only, and the view gives its value.
proof fn lemma_view_at(entries: Seq<Entry>, i: int)
    requires
        entries_wf(entries),
        0 <= i < entries.len(),
        entries[i].key is Some,
    ensures
        entries_view(entries).dom().contains(entries[i].key->0),
        entries_view(entries)[entries[i].key->0] == entries[i].value,
{
    let key = entries[i].key->0;
    assert(holds_key(entries, i, key));
    let j = choose|j: int| holds_key(entries, j, key);
    assert(j == i);
}

/// Writing a key that the table lacks into a free slot that its probe path reaches
/// inserts it; writing over the slot that holds the key replaces its value.
proof fn lemma_store(entries: Seq<Entry>, slot: int, key: ObjRef, value: Value)
    requires
        entries_wf(entries),
        0 <= slot < entries.len(),
        entries[slot].key == Some(key) || (entries[slot].key is None && !entries_view(
            entries,
        ).dom().contains(key)),
        path_clear(
            entries,
            home_slot(key.hash, entries.len() as int),
            probe_distance(home_slot(key.hash, entries.len() as int), slot, entries.len() as int),
        ),
    ensures
        entries_wf(entries.update(slot, Entry { key: Some(key), value })),
        entries_view(entries.update(slot, Entry { key: Some(key), value })) == entries_view(
            entries,
        ).insert(key, value),
{
    let capacity = entries.len() as int;
    let stored = entries.update(slot, Entry { key: Some(key), value });
    assert forall|i: int, j: int|
        0 <= i < stored.len() && 0 <= j < stored.len() && i != j && (
        #[trigger] stored[i]).key is Some implies stored[i].key != (#[trigger] stored[j]).key by {
        if i == slot && stored[j].key == Some(key) {
            assert(holds_key(entries, j, key));
        }
        if j == slot && stored[i].key == Some(key) {
            assert(holds_key(entries, i, key));
        }
    }
    assert forall|i: int| 0 <= i < stored.len() && (#[trigger] stored[i]).key is Some implies path_clear(
        stored,
        home_slot(stored[i].key->0.hash, capacity),
        probe_distance(home_slot(stored[i].key->0.hash, capacity), i, capacity),
    ) by {
        let home = home_slot(stored[i].key->0.hash, capacity);
        let distance = probe_distance(home, i, capacity);
        if i != slot {
            assert(entries[i].key is Some);
        }
        assert(path_clear(entries, home, distance));
        assert forall|d: int| 0 <= d < distance implies !(#[trigger] stored[probe_slot(
            home,
            d,
            capacity,
        )]).is_empty() by {
            let s = probe_slot(home, d, capacity);
            if s != slot {
                assert(!entries[s].is_empty());
            }
        }
    }
    let before = entries_view(entries);
    let after = entries_view(stored);
    assert forall|k: ObjRef| after.dom().contains(k) <==> before.insert(key, value).dom().contains(
        k,
    ) by {
        if after.dom().contains(k) && k != key {
            let i = choose|i: int| holds_key(stored, i, k);
            assert(holds_key(entries, i, k));
        }
        if before.dom().contains(k) && k != key {
            let i = choose|i: int| holds_key(entries, i, k);
            assert(holds_key(stored, i, k));
        }
        if k == key {
            assert(holds_key(stored, slot, key));
        }
    }
    assert forall|k: ObjRef| after.dom().contains(k) implies after[k] == before.insert(
        key,
        value,
    )[k] by {
        let i = choose|i: int| holds_key(stored, i, k);
        lemma_view_at(stored, i);
        if k != key {
            assert(i != slot);
            lemma_view_at(entries, i);
        } else {
            assert(holds_key(stored, slot, key));
        }
    }
    assert(after =~= before.insert(key, value));
}

/// Turning the slot of a key into a tombstone removes the key and nothing else.
proof fn lemma_bury(entries: Seq<Entry>, slot: int, key: ObjRef)
    requires
        entries_wf(entries),
        0 <= slot < entries.len(),
        entries[slot].key == Some(key),
    ensures
        entries_wf(entries.update(slot, Entry { key: None, value: Value::Bool(true) })),
        entries_view(entries.update(slot, Entry { key: None, value: Value::Bool(true) }))
            == entries_view(entries).remove(key),
        occupied(entries.update(slot, Entry { key: None, value: Value::Bool(true) })) == occupied(
            entries,
        ),
{
    let capacity = entries.len() as int;
    let tomb = Entry { key: None, value: Value::Bool(true) };
    let buried = entries.update(slot, tomb);
    lemma_occupied_update(entries, slot, tomb);
    assert forall|i: int| 0 <= i < buried.len() && (#[trigger] buried[i]).key is Some implies path_clear(
        buried,
        home_slot(buried[i].key->0.hash, capacity),
        probe_distance(home_slot(buried[i].key->0.hash, capacity), i, capacity),
    ) by {
        let home = home_slot(buried[i].key->0.hash, capacity);
        let distance = probe_distance(home, i, capacity);
        assert(entries[i].key is Some);
        assert(path_clear(entries, home, distance));
        assert forall|d: int| 0 <= d < distance implies !(#[trigger] buried[probe_slot(
            home,
            d,
            capacity,
        )]).is_empty() by {
            let s = probe_slot(home, d, capacity);
            if s != slot {
                assert(!entries[s].is_empty());
            }
        }
    }
    assert forall|i: int, j: int|
        0 <= i < buried.len() && 0 <= j < buried.len() && i != j && (
        #[trigger] buried[i]).key is Some implies buried[i].key != (#[trigger] buried[j]).key by {
        assert(entries[i].key is Some);
        if j != slot {
            assert(entries[j] == buried[j]);
        }
    }
    let before = entries_view(entries);
    let after = entries_view(buried);
    assert forall|k: ObjRef| after.dom().contains(k) <==> before.remove(key).dom().contains(k) by {
        if after.dom().contains(k) {
            let i = choose|i: int| holds_key(buried, i, k);
            assert(holds_key(entries, i, k));
            if k == key {
                assert(i != slot);
                assert(entries[slot].key is Some);
            }
        }
        if before.dom().contains(k) && k != key {
            let i = choose|i: int| holds_key(entries, i, k);
            assert(holds_key(buried, i, k));
        }
    }
    assert forall|k: ObjRef| after.dom().contains(k) implies after[k] == before.remove(key)[k] by {
        let i = choose|i: int| holds_key(buried, i, k);
        lemma_view_at(buried, i);
        lemma_view_at(entries, i);
    }
    assert(after =~= before.remove(key));
}

/// A key with the probed hash that the table holds lies on the probe path before the
/// first empty slot.
proof fn lemma_key_on_path(entries: Seq<Entry>, key: ObjRef, end: int) -> (distance: int)
    requires
        entries_wf(entries),
        entries.len() > 0,
        entries_view(entries).dom().contains(key),
        0 <= end < entries.len(),
        entries[probe_slot(home_slot(key.hash, entries.len() as int), end, entries.len() as int)].is_empty(),
    ensures
        0 <= distance < end,
        entries[probe_slot(
            home_slot(key.hash, entries.len() as int),
            distance,
            entries.len() as int,
        )].key == Some(key),
{
    let capacity = entries.len() as int;
    let home = home_slot(key.hash, capacity);
    let i = choose|i: int| holds_key(entries, i, key);
    let distance = probe_distance(home, i, capacity);
    assert(entries[i].key is Some);
    assert(path_clear(entries, home, distance));
    assert(probe_slot(home, distance, capacity) == i);
    if distance > end {
        assert(!entries[probe_slot(home, end, capacity)].is_empty());
    }
    distance
}

/// The table: a vector of slots and the number of them that are not empty.
#[derive(Debug)]
pub struct HashTable {
    count: usize,
    entries: Vec<Entry>,
}

impl View for HashTable {
    type V = Map<ObjRef, Value>;

    /// The keys that the table holds, each with its value.
    closed spec fn view(&self) -> Map<ObjRef, Value> {
        entries_view(self.entries@)
    }
}

impl HashTable {
    /// The invariant of the table: `count` is the number of slots in use (live keys and
    /// tombstones), at most three quarters of the slots are in use, no key sits in two
    /// slots, and every key can be reached from its home slot.
    pub closed spec fn wf(&self) -> bool {
        &&& self.count == occupied(self.entries@)
        &&& 4 * self.count <= 3 * self.entries@.len()
        &&& entries_wf(self.entries@)
    }

    /// The number of slots.
    pub closed spec fn spec_capacity(&self) -> nat {
        self.entries@.len()
    }

    /// The number of slots in use: live keys and tombstones.
    pub closed spec fn spec_count(&self) -> nat {
        self.count as nat
    }

    /// Whether probing for `key` meets a tombstone before it meets an empty slot: a key
    /// that is new to the table then takes the place of the tombstone.
    pub closed spec fn spec_meets_tombstone(&self, key: ObjRef) -> bool {
        meets_tombstone(
            self.entries@,
            home_slot(key.hash, self.entries@.len() as int),
            0,
        )
    }

    /// Whether storing `key` puts an empty slot to use: the key is new to the table, and
    /// probing for it meets no tombstone to take the place of.
    pub open spec fn spec_takes_empty_slot(&self, key: ObjRef) -> bool {
        !self@.dom().contains(key) && !self.spec_meets_tombstone(key)
    }

    /// The number of tombstones: the slots in use that hold no key.
    pub open spec fn spec_tombstones(&self) -> int {
        self.spec_count() - self@.dom().len()
    }

    /// In a table without tombstones probing meets none: every new key puts an empty slot
    /// to use.
    pub proof fn lemma_no_tombstone_met(&self, key: ObjRef)
        requires
            self.wf(),
            self.spec_tombstones() == 0,
        ensures
            !self.spec_meets_tombstone(key),
    {
        let entries = self.entries@;
        let n = entries.len() as int;
        if self.spec_meets_tombstone(key) {
            let slot = lemma_met_tombstone(entries, home_slot(key.hash, n), 0);
            lemma_tombstone_counts(entries, n, slot);
            lemma_keys_exact(entries, n);
            assert(entries.take(n) =~= entries);
            assert(entries_view(entries).dom() =~= keys_upto(entries, n));
        }
    }

    /// The table holds finitely many keys, no more than slots are in use.
    pub proof fn lemma_finite(&self)
        requires
            self.wf(),
        ensures
            self@.dom().finite(),
            self@.dom().len() <= self.spec_count(),
            4 * self.spec_count() <= 3 * self.spec_capacity(),
    {
        lemma_keys_finite(self.entries@, self.entries@.len() as int);
    }

    /// An empty table without any slot.
    pub fn new() -> (table: HashTable)
        ensures
            table.wf(),
            table@ == Map::<ObjRef, Value>::empty(),
            table.spec_capacity() == 0,
            table.spec_count() == 0,
    {
        let table = HashTable { count: 0, entries: Vec::new() };
        assert(table@ =~= Map::<ObjRef, Value>::empty());
        table
    }

    /// The number of slots.
    pub fn capacity(&self) -> (capacity: usize)
        ensures
            capacity == self.spec_capacity(),
    {
        self.entries.len()
    }

    /// Whether the table can take one more key: doubling its slots must not overflow.
    pub fn can_grow(&self) -> (ok: bool)
        ensures
            ok == (2 * self.spec_capacity() <= usize::MAX),
    {
        self.entries.len() <= usize::MAX / 2
    }

    /// Stores `value` under `key`, growing the table first when more than three quarters of
    /// its slots would be in use. Returns whether the key is new to the table.
    pub fn set(&mut self, key: ObjRef, value: Value) -> (is_new: bool)
        requires
            old(self).wf(),
            2 * old(self).spec_capacity() <= usize::MAX,
        ensures
            final(self).wf(),
            final(self)@ == old(self)@.insert(key, value),
            is_new == !old(self)@.dom().contains(key),
            final(self).spec_capacity() == spec_capacity_after(
                old(self).spec_count(),
                old(self).spec_capacity(),
            ),
            final(self).spec_capacity() != old(self).spec_capacity() ==> final(self).spec_count()
                == final(self)@.dom().len(),
            final(self).spec_capacity() == old(self).spec_capacity() ==> final(self).spec_count()
                == old(self).spec_count() + if old(self).spec_takes_empty_slot(key) {
                1nat
            } else {
                0nat
            },
            final(self).spec_tombstones() <= old(self).spec_tombstones(),
            final(self).spec_count() <= old(self).spec_count() + 1,
    {
        proof {
            lemma_keys_finite(self.entries@, self.entries@.len() as int);
        }
        let capacity = self.entries.len();
        let ghost mut grown = false;
        if 4 * (self.count as u128 + 1) > 3 * (capacity as u128) {
            let new_capacity: usize = if capacity == 0 {
                8
            } else {
                capacity * 2
            };
            self.adjust_capacity(new_capacity);
            proof {
                grown = true;
            }
        }
        let slot = Self::find_entry(&self.entries, self.count, key);
        let entry = self.entries[slot];
        let is_new = entry.key.is_none();
        proof {
            lemma_store(self.entries@, slot as int, key, value);
            lemma_occupied_update(self.entries@, slot as int, Entry { key: Some(key), value });
            lemma_keys_finite(self.entries@, self.entries@.len() as int);
            if !is_new {
                lemma_view_at(self.entries@, slot as int);
                assert(self@.insert(key, value).dom() =~= self@.dom());
            }
            if grown {
                assert(!self.entries@[slot as int].is_tombstone());
            } else if is_new {
                lemma_meets_tombstone(
                    self.entries@,
                    home_slot(key.hash, self.entries@.len() as int),
                    slot as int,
                    0,
                );
            }
        }
        if is_new && entry.value.is_nil() {
            self.count += 1;
        }
        self.entries[slot] = Entry { key: Some(key), value };
        is_new
    }

    /// The value stored under `key`, if the table holds the key.
    pub fn get(&self, key: &ObjRef) -> (value: Option<&Value>)
        requires
            self.wf(),
        ensures
            match value {
                Some(v) => self@.dom().contains(*key) && *v == self@[*key],
                None => !self@.dom().contains(*key),
            },
    {
        if self.count == 0 {
            proof {
                self.lemma_finite();
            }
            return None;
        }
        let slot = Self::find_entry(&self.entries, self.count, *key);
        if self.entries[slot].key.is_some() {
            proof {
                lemma_view_at(self.entries@, slot as int);
            }
            Some(&self.entries[slot].value)
        } else {
            None
        }
    }

    /// Removes `key`, leaving a tombstone in its slot. Returns whether the table held it.
    pub fn delete(&mut self, key: &ObjRef) -> (found: bool)
        requires
            old(self).wf(),
        ensures
            final(self).wf(),
            final(self)@ == old(self)@.remove(*key),
            found == old(self)@.dom().contains(*key),
            final(self).spec_capacity() == old(self).spec_capacity(),
            final(self).spec_count() == old(self).spec_count(),
    {
        if self.count == 0 {
            proof {
                self.lemma_finite();
                assert(self@.remove(*key) =~= self@);
            }
            return false;
        }
        let slot = Self::find_entry(&self.entries, self.count, *key);
        if self.entries[slot].key.is_none() {
            proof {
                assert(self@.remove(*key) =~= self@);
            }
            return false;
        }
        proof {
            lemma_bury(self.entries@, slot as int, *key);
            lemma_view_at(self.entries@, slot as int);
        }
        self.entries[slot] = Entry { key: None, value: Value::Bool(true) };
        true
    }

    /// Drops every key and every slot.
    pub fn clear(&mut self)
        ensures
            final(self).wf(),
            final(self)@ == Map::<ObjRef, Value>::empty(),
            final(self).spec_capacity() == 0,
    {
        self.entries.clear();
        self.count = 0;
        assert(self@ =~= Map::<ObjRef, Value>::empty());
    }

    /// Probes for `key`. Returns the slot that holds it, or else the slot where it belongs:
    /// the first tombstone on its probe path, or the empty slot that ends the path if no
    /// tombstone comes before it. Either way it is the first slot of the path without a key.
    fn find_entry(entries: &Vec<Entry>, count: usize, key: ObjRef) -> (slot: usize)
        requires
            entries_wf(entries@),
            count == occupied(entries@),
            count < entries@.len(),
        ensures
            slot < entries@.len(),
            entries_view(entries@).dom().contains(key) ==> entries@[slot as int].key == Some(key),
            !entries_view(entries@).dom().contains(key) ==> entries@[slot as int].key is None,
            path_clear(
                entries@,
                home_slot(key.hash, entries@.len() as int),
                probe_distance(
                    home_slot(key.hash, entries@.len() as int),
                    slot as int,
                    entries@.len() as int,
                ),
            ),
            !entries_view(entries@).dom().contains(key) ==> forall|d: int|
                0 <= d < probe_distance(
                    home_slot(key.hash, entries@.len() as int),
                    slot as int,
                    entries@.len() as int,
                ) ==> (#[trigger] entries@[probe_slot(
                    home_slot(key.hash, entries@.len() as int),
                    d,
                    entries@.len() as int,
                )]).key is Some,
    {
        let capacity = entries.len();
        let mut index: usize = (key.hash as usize) % capacity;
        let mut tombstone: Option<usize> = None;
        let ghost home = home_slot(key.hash, capacity as int);
        let ghost mut distance: int = 0;
        let ghost end = lemma_exists_empty(entries@, home);
        loop
            invariant
                capacity == entries@.len(),
                capacity > 0,
                entries_wf(entries@),
                home == home_slot(key.hash, capacity as int),
                0 <= home < capacity,
                0 <= end < capacity,
                entries@[probe_slot(home, end, capacity as int)].is_empty(),
                0 <= distance <= end,
                index == probe_slot(home, distance, capacity as int),
                path_clear(entries@, home, distance),
                forall|d: int|
                    0 <= d < distance ==> (#[trigger] entries@[probe_slot(
                        home,
                        d,
                        capacity as int,
                    )]).key != Some(key),
                match tombstone {
                    Some(t) => t < capacity && entries@[t as int].key is None
                        && probe_distance(home, t as int, capacity as int) < distance
                        && forall|d: int|
                        0 <= d < probe_distance(home, t as int, capacity as int) ==> (
                        #[trigger] entries@[probe_slot(home, d, capacity as int)]).key is Some,
                    None => forall|d: int|
                        0 <= d < distance ==> (#[trigger] entries@[probe_slot(
                            home,
                            d,
                            capacity as int,
                        )]).key is Some,
                },
            decreases end - distance,
        {
            let entry = entries[index];
            match entry.key {
                None => {
                    if entry.value.is_nil() {
                        proof {
                            if entries_view(entries@).dom().contains(key) {
                                let d = lemma_key_on_path(entries@, key, distance);
                            }
                        }
                        match tombstone {
                            Some(t) => {
                                proof {
                                    let dt = probe_distance(home, t as int, capacity as int);
                                    assert forall|d: int| 0 <= d < dt implies !(
                                    #[trigger] entries@[probe_slot(
                                        home,
                                        d,
                                        capacity as int,
                                    )]).is_empty() by {}
                                }
                                return t;
                            },
                            None => {
                                return index;
                            },
                        }
                    } else if tombstone.is_none() {
                        tombstone = Some(index);
                    }
                },
                Some(k) => {
                    if k == key {
                        proof {
                            assert(holds_key(entries@, index as int, key));
                        }
                        return index;
                    }
                },
            }
            proof {
                assert(distance < end);
                distance = distance + 1;
            }
            index += 1;
            if index == capacity {
                index = 0;
            }
        }
    }

    /// Replaces the slots by `new_capacity` fresh ones and stores every live key again.
    /// Tombstones are left behind.
    fn adjust_capacity(&mut self, new_capacity: usize)
        requires
            old(self).wf(),
            4 * (old(self).count + 1) <= 3 * new_capacity,
        ensures
            final(self).wf(),
            final(self)@ == old(self)@,
            final(self).entries@.len() == new_capacity,
            final(self).count <= old(self).count,
            final(self).count == final(self)@.dom().len(),
            forall|j: int|
                0 <= j < final(self).entries@.len() ==> !(#[trigger] final(self).entries@[j]).is_tombstone(),
    {
        let mut entries: Vec<Entry> = Vec::new();
        let mut n: usize = 0;
        while n < new_capacity
            invariant
                n <= new_capacity,
                entries@.len() == n,
                forall|i: int| 0 <= i < n ==> (#[trigger] entries@[i]).is_empty(),
            decreases new_capacity - n,
        {
            entries.push(Entry::all_none());
            n += 1;
        }
        let old_entries = &self.entries;
        let mut count: usize = 0;
        let mut i: usize = 0;
        proof {
            lemma_occupied_all_empty(entries@);
            assert(entries_view(entries@) =~= Map::<ObjRef, Value>::empty());
            lemma_live_le_occupied(old_entries@, old_entries@.len() as int);
            assert(old_entries@.take(old_entries@.len() as int) =~= old_entries@);
        }
        while i < old_entries.len()
            invariant
                i <= old_entries@.len(),
                old_entries@ == old(self).entries@,
                old(self).wf(),
                entries@.len() == new_capacity,
                4 * (old(self).count + 1) <= 3 * new_capacity,
                entries_wf(entries@),
                count == occupied(entries@),
                count == live_upto(old_entries@, i as int),
                live_upto(old_entries@, old_entries@.len() as int) <= old(self).count,
                forall|j: int| 0 <= j < entries@.len() ==> !(#[trigger] entries@[j]).is_tombstone(),
                forall|k: ObjRef|
                    entries_view(entries@).dom().contains(k) <==> exists|j: int|
                        0 <= j < i && holds_key(old_entries@, j, k),
                forall|k: ObjRef| #[trigger]
                    entries_view(entries@).dom().contains(k) ==> entries_view(entries@)[k]
                        == entries_view(old_entries@)[k],
            decreases old_entries@.len() - i,
        {
            let entry = old_entries[i];
            proof {
                lemma_live_mono(old_entries@, i as int + 1, old_entries@.len() as int);
            }
            if let Some(key) = entry.key {
                proof {
                    if entries_view(entries@).dom().contains(key) {
                        let j = choose|j: int| 0 <= j < i && holds_key(old_entries@, j, key);
                        assert(old_entries@[i as int].key is Some);
                    }
                }
                let slot = Self::find_entry(&entries, count, key);
                proof {
                    lemma_store(entries@, slot as int, key, entry.value);
                    lemma_occupied_update(
                        entries@,
                        slot as int,
                        Entry { key: Some(key), value: entry.value },
                    );
                    lemma_view_at(old_entries@, i as int);
                    assert(!entries@[slot as int].is_tombstone());
                }
                let ghost before = entries@;
                entries[slot] = Entry { key: Some(key), value: entry.value };
                count += 1;
                proof {
                    assert forall|k: ObjRef|
                        entries_view(entries@).dom().contains(k) <==> exists|j: int|
                            0 <= j < i + 1 && holds_key(old_entries@, j, k) by {
                        if entries_view(entries@).dom().contains(k) {
                            if k == key {
                                assert(holds_key(old_entries@, i as int, k));
                            } else {
                                assert(entries_view(before).dom().contains(k));
                                let j = choose|j: int| 0 <= j < i && holds_key(old_entries@, j, k);
                                assert(0 <= j < i + 1 && holds_key(old_entries@, j, k));
                            }
                        }
                        if exists|j: int| 0 <= j < i + 1 && holds_key(old_entries@, j, k) {
                            let j = choose|j: int| 0 <= j < i + 1 && holds_key(old_entries@, j, k);
                            if j < i {
                                assert(entries_view(before).dom().contains(k));
                            }
                        }
                    }
                }
            } else {
                proof {
                    assert forall|k: ObjRef|
                        entries_view(entries@).dom().contains(k) <==> exists|j: int|
                            0 <= j < i + 1 && holds_key(old_entries@, j, k) by {
                        if entries_view(entries@).dom().contains(k) {
                            let j = choose|j: int| 0 <= j < i && holds_key(old_entries@, j, k);
                            assert(0 <= j < i + 1 && holds_key(old_entries@, j, k));
                        }
                        if exists|j: int| 0 <= j < i + 1 && holds_key(old_entries@, j, k) {
                            let j = choose|j: int| 0 <= j < i + 1 && holds_key(old_entries@, j, k);
                            assert(j < i);
                        }
                    }
                }
            }
            i += 1;
        }
        proof {
            assert forall|k: ObjRef|
                entries_view(entries@).dom().contains(k) <==> entries_view(
                    old_entries@,
                ).dom().contains(k) by {
                if entries_view(old_entries@).dom().contains(k) {
                    let j = choose|j: int| holds_key(old_entries@, j, k);
                    assert(0 <= j < i && holds_key(old_entries@, j, k));
                }
            }
            assert(entries_view(entries@) =~= entries_view(old_entries@));
            lemma_count_exact(entries@);
        }
        self.entries = entries;
        self.count = count;
    }

    /// The number of slots in use: live keys and tombstones.
    pub fn count(&self) -> (count: usize)
        ensures
            count == self.spec_count(),
    {
        self.count
    }

    /// Whether the table can take `more` keys one after the other: neither the table as it
    /// is nor the largest table that so many insertions can make it grow to is too large to
    /// be doubled.
    pub open spec fn spec_room_for(&self, more: nat) -> bool {
        2 * self.spec_capacity() <= usize::MAX && 16 * (self.spec_count() + more + 1) <= 3
            * usize::MAX
    }

    /// Stores every key of `from` in `to`, with its value; a key that `to` holds already
    /// gets the value it has in `from`. Where `to` has no room for as many keys as `from`
    /// has slots in use, nothing is stored. Returns whether the keys were stored.
    pub fn table_add_all(from: &HashTable, to: &mut HashTable) -> (complete: bool)
        requires
            from.wf(),
            old(to).wf(),
        ensures
            final(to).wf(),
            complete == old(to).spec_room_for(from.spec_count()),
            complete ==> final(to)@ == old(to)@.union_prefer_right(from@),
            !complete ==> *final(to) == *old(to),
    {
        if to.entries.len() > usize::MAX / 2 || 16 * (to.count as u128 + from.count as u128 + 1)
            > 3 * (usize::MAX as u128) {
            return false;
        }
        let mut i: usize = 0;
        proof {
            assert(to@ =~= to@.union_prefer_right(entries_view(from.entries@.take(0))));
            lemma_live_le_occupied(from.entries@, from.entries@.len() as int);
            assert(from.entries@.take(from.entries@.len() as int) =~= from.entries@);
        }
        while i < from.entries.len()
            invariant
                i <= from.entries@.len(),
                from.wf(),
                to.wf(),
                old(to).spec_room_for(from.spec_count()),
                live_upto(from.entries@, from.entries@.len() as int) <= from.count,
                to@ == old(to)@.union_prefer_right(entries_view(from.entries@.take(i as int))),
                to.count <= old(to).count + live_upto(from.entries@, i as int),
                to.entries@.len() <= old(to).entries@.len() || to.entries@.len() <= 8 || 3
                    * to.entries@.len() < 8 * (old(to).count + live_upto(from.entries@, i as int)
                    + 1),
            decreases from.entries@.len() - i,
        {
            let entry = from.entries[i];
            proof {
                lemma_view_take(from.entries@, i as int);
                lemma_live_mono(from.entries@, i as int + 1, from.entries@.len() as int);
            }
            if let Some(key) = entry.key {
                to.set(key, entry.value);
                proof {
                    assert(to@ =~= old(to)@.union_prefer_right(
                        entries_view(from.entries@.take(i + 1)),
                    ));
                }
            }
            i += 1;
        }
        proof {
            assert(from.entries@.take(i as int) =~= from.entries@);
        }
        true
    }

    /// Looks for an interned string with the text and hash of `string`. The keys of the
    /// table are handles into `objects`.
    pub fn find_string(&self, objects: &Vec<LoxObject>, string: &LoxObject) -> (found: Option<
        ObjRef,
    >)
        requires
            self.wf(),
            forall|k: ObjRef| #[trigger] self@.dom().contains(k) ==> k.index < objects@.len(),
        ensures
            match found {
                Some(k) => self@.dom().contains(k) && k.hash == string.stored_hash()
                    && objects@[k.index as int].text() == string.text(),
                None => forall|k: ObjRef| #[trigger]
                    self@.dom().contains(k) ==> !(k.hash == string.stored_hash()
                        && objects@[k.index as int].text() == string.text()),
            },
    {
        let (text, hash) = match string {
            LoxObject::String { value, hash } => (value, *hash),
        };
        if self.count == 0 {
            proof {
                self.lemma_finite();
            }
            return None;
        }
        let capacity = self.entries.len();
        let mut index: usize = (hash as usize) % capacity;
        let ghost home = home_slot(hash, capacity as int);
        let ghost mut distance: int = 0;
        let ghost end = lemma_exists_empty(self.entries@, home);
        loop
            invariant
                self.wf(),
                forall|k: ObjRef| #[trigger] self@.dom().contains(k) ==> k.index < objects@.len(),
                capacity == self.entries@.len(),
                capacity > 0,
                text@ == string.text(),
                hash == string.stored_hash(),
                home == home_slot(hash, capacity as int),
                0 <= home < capacity,
                0 <= end < capacity,
                self.entries@[probe_slot(home, end, capacity as int)].is_empty(),
                0 <= distance <= end,
                index == probe_slot(home, distance, capacity as int),
                forall|d: int|
                    0 <= d < distance ==> match (#[trigger] self.entries@[probe_slot(
                        home,
                        d,
                        capacity as int,
                    )]).key {
                        Some(k) => !(k.hash == hash && objects@[k.index as int].text()
                            == string.text()),
                        None => true,
                    },
            decreases end - distance,
        {
            let entry = self.entries[index];
            match entry.key {
                None => {
                    if entry.value.is_nil() {
                        proof {
                            assert forall|k: ObjRef| #[trigger]
                                self@.dom().contains(k) implies !(k.hash == hash
                                && objects@[k.index as int].text() == string.text()) by {
                                if k.hash == hash {
                                    let d = lemma_key_on_path(self.entries@, k, distance);
                                }
                            }
                        }
                        return None;
                    }
                },
                Some(k) => {
                    proof {
                        lemma_view_at(self.entries@, index as int);
                        assert(self@.dom().contains(k));
                    }
                    if k.hash == hash {
                        match &objects[k.index] {
                            LoxObject::String { value, hash: _ } => {
                                if *value == *text {
                                    return Some(k);
                                }
                            },
                        }
                    }
                },
            }
            proof {
                assert(distance < end);
                distance = distance + 1;
            }
            index += 1;
            if index == capacity {
                index = 0;
            }
        }
    }
}

proof fn lemma_live_mono(entries: Seq<Entry>, a: int, b: int)
    requires
        0 <= a <= b,
    ensures
        live_upto(entries, a) <= live_upto(entries, b),
    decreases b - a,
{
    if a < b {
        lemma_live_mono(entries, a, b - 1);
    }
}

/// The number of slots of a table after an insertion: a table of which more than three
/// quarters would be in use is doubled first, and a table without slots gets 8.
pub open spec fn spec_capacity_after(count: nat, capacity: nat) -> nat {
    if 4 * (count + 1) > 3 * capacity {
        if capacity == 0 {
            8
        } else {
            2 * capacity
        }
    } else {
        capacity
    }
}

/// In a table without tombstones the slots in use are the live keys.
/// A tombstone among the first `n` slots is a slot in use that is not live.
proof fn lemma_tombstone_counts(entries: Seq<Entry>, n: int, j: int)
    requires
        0 <= j < n <= entries.len(),
        entries[j].is_tombstone(),
    ensures
        live_upto(entries, n) < occupied(entries.take(n)),
    decreases n,
{
    assert(entries.take(n).drop_last() =~= entries.take(n - 1));
    assert(entries.take(n).last() == entries[n - 1]);
    if j == n - 1 {
        lemma_live_le_occupied(entries, n - 1);
    } else {
        lemma_tombstone_counts(entries, n - 1, j);
    }
}

/// Where probing meets a tombstone, a slot is a tombstone.
proof fn lemma_met_tombstone(entries: Seq<Entry>, home: int, distance: int) -> (slot: int)
    requires
        0 <= home < entries.len(),
        0 <= distance,
        meets_tombstone(entries, home, distance),
    ensures
        0 <= slot < entries.len(),
        entries[slot].is_tombstone(),
    decreases entries.len() - distance,
{
    let here = probe_slot(home, distance, entries.len() as int);
    if entries[here].key is None {
        here
    } else {
        lemma_met_tombstone(entries, home, distance + 1)
    }
}

proof fn lemma_count_exact(entries: Seq<Entry>)
    requires
        entries_wf(entries),
        forall|j: int| 0 <= j < entries.len() ==> !(#[trigger] entries[j]).is_tombstone(),
    ensures
        entries_view(entries).dom().finite(),
        entries_view(entries).dom().len() == occupied(entries),
{
    let n = entries.len() as int;
    lemma_keys_exact(entries, n);
    lemma_live_exact(entries, n);
    assert(entries.take(n) =~= entries);
    assert(entries_view(entries).dom() =~= keys_upto(entries, n));
}

proof fn lemma_live_exact(entries: Seq<Entry>, n: int)
    requires
        0 <= n <= entries.len(),
        forall|j: int| 0 <= j < entries.len() ==> !(#[trigger] entries[j]).is_tombstone(),
    ensures
        live_upto(entries, n) == occupied(entries.take(n)),
    decreases n,
{
    if n > 0 {
        lemma_live_exact(entries, n - 1);
        assert(entries.take(n).drop_last() =~= entries.take(n - 1));
        assert(entries.take(n).last() == entries[n - 1]);
        assert(!entries[n - 1].is_tombstone());
    }
}

proof fn lemma_keys_exact(entries: Seq<Entry>, n: int)
    requires
        entries_wf(entries),
        0 <= n <= entries.len(),
    ensures
        keys_upto(entries, n).finite(),
        keys_upto(entries, n).len() == live_upto(entries, n),
    decreases n,
{
    if n == 0 {
        assert(keys_upto(entries, n) =~= Set::<ObjRef>::empty());
    } else {
        lemma_keys_exact(entries, n - 1);
        let before = keys_upto(entries, n - 1);
        let now = keys_upto(entries, n);
        match entries[n - 1].key {
            Some(key) => {
                assert(holds_key(entries, n - 1, key));
                if before.contains(key) {
                    let i = choose|i: int| 0 <= i < n - 1 && holds_key(entries, i, key);
                    assert(entries[i].key is Some);
                    assert(entries[i].key != entries[n - 1].key);
                }
                assert forall|k: ObjRef| now.contains(k) <==> before.insert(key).contains(k) by {
                    if now.contains(k) {
                        let i = choose|i: int| 0 <= i < n && holds_key(entries, i, k);
                        if i < n - 1 {
                            assert(before.contains(k));
                        }
                    }
                    if before.contains(k) {
                        let i = choose|i: int| 0 <= i < n - 1 && holds_key(entries, i, k);
                        assert(0 <= i < n && holds_key(entries, i, k));
                    }
                }
                assert(now =~= before.insert(key));
            },
            None => {
                assert forall|k: ObjRef| now.contains(k) <==> before.contains(k) by {
                    if now.contains(k) {
                        let i = choose|i: int| 0 <= i < n && holds_key(entries, i, k);
                        assert(i < n - 1);
                    }
                    if before.contains(k) {
                        let i = choose|i: int| 0 <= i < n - 1 && holds_key(entries, i, k);
                        assert(0 <= i < n && holds_key(entries, i, k));
                    }
                }
                assert(now =~= before);
            },
        }
    }
}

/// The map of the first `n + 1` slots is the map of the first `n`, with the key of slot
/// `n` added if the slot holds one.
proof fn lemma_view_take(entries: Seq<Entry>, n: int)
    requires
        entries_wf(entries),
        0 <= n < entries.len(),
    ensures
        entries_view(entries.take(n + 1)) == (match entries[n].key {
            Some(key) => entries_view(entries.take(n)).insert(key, entries[n].value),
            None => entries_view(entries.take(n)),
        }),
{
    let shorter = entries.take(n);
    let longer = entries.take(n + 1);
    let expected = match entries[n].key {
        Some(key) => entries_view(shorter).insert(key, entries[n].value),
        None => entries_view(shorter),
    };
    assert forall|k: ObjRef| entries_view(longer).dom().contains(k) <==> expected.dom().contains(
        k,
    ) by {
        if entries_view(longer).dom().contains(k) {
            let i = choose|i: int| holds_key(longer, i, k);
            if i < n {
                assert(holds_key(shorter, i, k));
            }
        }
        if entries_view(shorter).dom().contains(k) {
            let i = choose|i: int| holds_key(shorter, i, k);
            assert(holds_key(longer, i, k));
        }
        if entries[n].key == Some(k) {
            assert(holds_key(longer, n, k));
        }
    }
    assert forall|k: ObjRef| entries_view(longer).dom().contains(k) implies entries_view(
        longer,
    )[k] == expected[k] by {
        let i = choose|i: int| holds_key(longer, i, k);
        assert(longer[i] == entries[i]);
        if entries[n].key == Some(k) {
            assert(entries[i].key is Some);
            assert(i == n);
        } else {
            assert(holds_key(shorter, i, k));
            let j = choose|j: int| holds_key(shorter, j, k);
            assert(shorter[j] == entries[j]);
            assert(entries[i].key is Some);
            assert(i == j);
        }
    }
    assert(entries_view(longer) =~= expected);
}

/// A lookup after an insertion finds the inserted value: whatever the table held, after
/// `set(key, value)` the table holds `key` with `value`, which is what `get(key)` returns.
pub proof fn law_set_then_get(before: HashTable, after: HashTable, key: ObjRef, value: Value)
    requires
        before.wf(),
        after@ == before@.insert(key, value),
    ensures
        after@.dom().contains(key),
        after@[key] == value,
{
}

/// A lookup after a deletion misses: after `delete(key)` the table does not hold `key`, so
/// `get(key)` returns `None`.
pub proof fn law_delete_then_get(before: HashTable, after: HashTable, key: ObjRef)
    requires
        before.wf(),
        after@ == before@.remove(key),
    ensures
        !after@.dom().contains(key),
{
}

/// Growth keeps every live entry: an insertion, whether or not it makes the table grow,
/// leaves every other key with the value it had, and a deletion does so too.
pub proof fn law_other_keys_stay(
    before: HashTable,
    after: HashTable,
    key: ObjRef,
    value: Value,
    other: ObjRef,
)
    requires
        before.wf(),
        after@ == before@.insert(key, value) || after@ == before@.remove(key),
        other != key,
    ensures
        after@.dom().contains(other) == before@.dom().contains(other),
        before@.dom().contains(other) ==> after@[other] == before@[other],
{
}

} // verus!
