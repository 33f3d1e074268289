//! The cache of decoded pack objects: by hash, and by the offset at which
//! an object stood in its pack.
//!
//! A decode session owns one cache, made empty before the session starts.
//! The objects are shared with whoever looked them up before.

use crate::errors::GitError;
use crate::object::Object;
use crate::patch::{apply_delta, apply_delta_spec};
use std::collections::BTreeMap;
use std::collections::HashMap;
use std::rc::Rc;
use vstd::prelude::*;

verus! {

broadcast use {vstd::std_specs::hash::group_hash_axioms, vstd::std_specs::btree::group_btree_axioms};

/// One object of the cache, with the offset it was last seen at.
pub struct Slot {
    pub hash: crate::hash::Hash,
    pub object: Rc<Object>,
    pub offset: u64,
}

/// The number under which the slots of `hash` are indexed: its first eight
/// bytes, least significant first.
pub open spec fn bucket_key(hash: crate::hash::Hash) -> u64 {
    (hash@[0] + 0x100 * (hash@[1] + 0x100 * (hash@[2] + 0x100 * (hash@[3] + 0x100 * (hash@[4]
        + 0x100 * (hash@[5] + 0x100 * (hash@[6] + 0x100 * hash@[7]))))))) as u64
}

/// Computes the number under which the slots of `hash` are indexed.
fn key_of(hash: &crate::hash::Hash) -> (key: u64)
    ensures
        key == bucket_key(*hash),
{
    let b = &hash.0;
    let mut key: u64 = b[7] as u64;
    key = b[6] as u64 + 0x100 * key;
    key = b[5] as u64 + 0x100 * key;
    key = b[4] as u64 + 0x100 * key;
    key = b[3] as u64 + 0x100 * key;
    key = b[2] as u64 + 0x100 * key;
    key = b[1] as u64 + 0x100 * key;
    key = b[0] as u64 + 0x100 * key;
    key
}

/// The object behind a shared handle.
pub open spec fn shared_value(object: Rc<Object>) -> Object {
    *object
}

/// Decoded objects, found by hash and by pack offset.
pub struct PackObjectCache {
    slots: Vec<Slot>,
    buckets: HashMap<u64, Vec<usize>>,
    offsets: BTreeMap<u64, usize>,
    by_hash: Ghost<Map<crate::hash::Hash, Object>>,
    by_offset: Ghost<Map<crate::hash::Hash, u64>>,
    offset_hash: Ghost<Map<u64, crate::hash::Hash>>,
    slot_of: Ghost<Map<crate::hash::Hash, int>>,
}

impl Default for PackObjectCache {
    fn default() -> (cache: PackObjectCache)
        ensures
            cache.wf(),
            cache.consistent(),
            cache.by_hash() == Map::<crate::hash::Hash, Object>::empty(),
            cache.by_offset() == Map::<crate::hash::Hash, u64>::empty(),
            cache.offset_hash() == Map::<u64, crate::hash::Hash>::empty(),
    {
        PackObjectCache::new()
    }
}

impl PackObjectCache {
    /// The object that each hash resolves to.
    pub closed spec fn by_hash(&self) -> Map<crate::hash::Hash, Object> {
        self.by_hash@
    }

    /// The offset that each hash was last seen at.
    pub closed spec fn by_offset(&self) -> Map<crate::hash::Hash, u64> {
        self.by_offset@
    }

    /// The hash that was last seen at each offset.
    pub closed spec fn offset_hash(&self) -> Map<u64, crate::hash::Hash> {
        self.offset_hash@
    }

    /// Whether the three mappings agree: every hash has an object and an
    /// offset, the object of a hash has that hash as its id, and every
    /// offset leads to a hash that has an object.
    pub open spec fn consistent(&self) -> bool {
        &&& self.by_offset().dom() == self.by_hash().dom()
        &&& forall|h: crate::hash::Hash| #[trigger]
            self.by_hash().dom().contains(h) ==> self.by_hash()[h].id == h
        &&& forall|offset: u64| #[trigger]
            self.offset_hash().dom().contains(offset) ==> self.by_hash().dom().contains(
                self.offset_hash()[offset],
            )
    }

    /// The object that `hash` resolves to.
    pub open spec fn resolve_hash(&self, hash: crate::hash::Hash) -> Option<Object> {
        if self.by_hash().dom().contains(hash) {
            Some(self.by_hash()[hash])
        } else {
            None
        }
    }

    /// The object that `offset` resolves to: the object of the hash that
    /// was last seen at it.
    pub open spec fn resolve_offset(&self, offset: u64) -> Option<Object> {
        if self.offset_hash().dom().contains(offset) {
            self.resolve_hash(self.offset_hash()[offset])
        } else {
            None
        }
    }

    /// Whether the cache is as its operations leave it.
    pub closed spec fn wf(&self) -> bool {
        &&& forall|i: int|
            0 <= i < self.slots@.len() ==> {
                let slot = #[trigger] self.slots@[i];
                &&& self.by_hash@.dom().contains(slot.hash)
                &&& self.by_hash@[slot.hash] == *slot.object
                &&& self.by_offset@[slot.hash] == slot.offset
                &&& slot.object.id == slot.hash
                &&& self.slot_of@[slot.hash] == i
                &&& self.buckets@.contains_key(bucket_key(slot.hash))
                &&& self.buckets@[bucket_key(slot.hash)]@.contains(i as usize)
            }
        &&& forall|h: crate::hash::Hash| #[trigger]
            self.by_hash@.dom().contains(h) ==> 0 <= self.slot_of@[h] < self.slots@.len()
                && self.slots@[self.slot_of@[h]].hash == h
        &&& self.by_offset@.dom() == self.by_hash@.dom()
        &&& self.slot_of@.dom() == self.by_hash@.dom()
        &&& forall|k: u64, j: int|
            self.buckets@.contains_key(k) && 0 <= j < self.buckets@[k]@.len() ==> (
            #[trigger] self.buckets@[k]@[j]) < self.slots@.len() && bucket_key(
                self.slots@[self.buckets@[k]@[j] as int].hash,
            ) == k
        &&& self.offsets@.dom() == self.offset_hash@.dom()
        &&& forall|offset: u64| #[trigger]
            self.offsets@.contains_key(offset) ==> self.offsets@[offset] < self.slots@.len()
                && self.slots@[self.offsets@[offset] as int].hash == self.offset_hash@[offset]
    }

    /// A cache as its operations leave it is consistent.
    pub proof fn lemma_consistent(&self)
        requires
            self.wf(),
        ensures
            self.consistent(),
    {
        assert forall|h: crate::hash::Hash| #[trigger]
            self.by_hash().dom().contains(h) implies self.by_hash()[h].id == h by {
            let i = self.slot_of@[h];
            assert(self.slots@[i].hash == h);
        }
        assert forall|offset: u64| #[trigger]
            self.offset_hash().dom().contains(offset) implies self.by_hash().dom().contains(
            self.offset_hash()[offset],
        ) by {
            assert(self.offsets@.contains_key(offset));
            let i = self.offsets@[offset] as int;
            assert(self.slots@[i].hash == self.offset_hash@[offset]);
        }
    }

    /// An empty cache.
    pub fn new() -> (cache: PackObjectCache)
        ensures
            cache.wf(),
            cache.consistent(),
            cache.by_hash() == Map::<crate::hash::Hash, Object>::empty(),
            cache.by_offset() == Map::<crate::hash::Hash, u64>::empty(),
            cache.offset_hash() == Map::<u64, crate::hash::Hash>::empty(),
    {
        let cache = PackObjectCache {
            slots: Vec::new(),
            buckets: HashMap::new(),
            offsets: BTreeMap::new(),
            by_hash: Ghost(Map::empty()),
            by_offset: Ghost(Map::empty()),
            offset_hash: Ghost(Map::empty()),
            slot_of: Ghost(Map::empty()),
        };
        assert(cache.by_offset@.dom() =~= cache.by_hash@.dom());
        assert(cache.slot_of@.dom() =~= cache.by_hash@.dom());
        assert(cache.offsets@.dom() =~= cache.offset_hash@.dom());
        proof {
            cache.lemma_consistent();
        }
        cache
    }

    /// The slot that holds `hash`, if one does.
    fn find_slot(&self, hash: &crate::hash::Hash) -> (r: Option<usize>)
        requires
            self.wf(),
        ensures
            match r {
                Some(i) => i < self.slots@.len() && self.slots@[i as int].hash == *hash
                    && self.by_hash@.dom().contains(*hash),
                None => !self.by_hash@.dom().contains(*hash),
            },
    {
        let key = key_of(hash);
        let total: usize = self.slots.len();
        match self.buckets.get(&key) {
            None => {
                proof {
                    if self.by_hash@.dom().contains(*hash) {
                        let i = self.slot_of@[*hash];
                        assert(self.slots@[i].hash == *hash);
                    }
                }
                None
            },
            Some(bucket) => {
                let mut j: usize = 0;
                while j < bucket.len()
                    invariant
                        j <= bucket@.len(),
                        self.wf(),
                        self.buckets@.contains_key(key),
                        self.buckets@[key] == *bucket,
                        key == bucket_key(*hash),
                        forall|t: int|
                            0 <= t < j ==> self.slots@[(#[trigger] bucket@[t]) as int].hash
                                != *hash,
                    decreases bucket@.len() - j,
                {
                    let i: usize = bucket[j];
                    assert(self.buckets@[key]@[j as int] == i);
                    if self.slots[i].hash.same(hash) {
                        assert(self.slots@[i as int].hash == *hash);
                        return Some(i);
                    }
                    j += 1;
                }
                proof {
                    if self.by_hash@.dom().contains(*hash) {
                        let i = self.slot_of@[*hash];
                        assert(self.slots@[i].hash == *hash);
                        assert(self.buckets@[key]@.contains(i as usize));
                        let t = choose|t: int|
                            0 <= t < bucket@.len() && bucket@[t] == i as usize;
                        assert(self.slots@[bucket@[t] as int].hash != *hash);
                    }
                }
                None
            },
        }
    }

    /// Registers `object` under its hash and at `offset`: the three
    /// mappings change together, and the last write for a hash or an offset
    /// wins. Afterwards the hash of `object` and `offset` both resolve to
    /// `object`.
    pub fn update(&mut self, object: Rc<Object>, offset: u64)
        requires
            old(self).wf(),
        ensures
            final(self).wf(),
            final(self).consistent(),
            final(self).by_hash() == old(self).by_hash().insert(object.id, *object),
            final(self).by_offset() == old(self).by_offset().insert(object.id, offset),
            final(self).offset_hash() == old(self).offset_hash().insert(offset, object.id),
            final(self).resolve_hash(object.id) == Some(*object),
            final(self).resolve_offset(offset) == Some(*object),
    {
        let hash = object.hash();
        let key = key_of(&hash);
        let total: usize = self.slots.len();
        let ghost before = *self;
        let ghost value: Object = shared_value(object);
        let found = self.find_slot(&hash);
        let index: usize = match found {
            Some(i) => {
                self.slots.set(i, Slot { hash, object, offset });
                i
            },
            None => {
                self.slots.push(Slot { hash, object, offset });
                let mut bucket: Vec<usize> = match self.buckets.remove(&key) {
                    Some(b) => b,
                    None => Vec::new(),
                };
                let ghost shorter = bucket@;
                bucket.push(total);
                proof {
                    assert forall|v: usize| shorter.contains(v) implies bucket@.contains(v) by {
                        let t = choose|t: int| 0 <= t < shorter.len() && shorter[t] == v;
                        assert(bucket@[t] == v);
                    }
                    assert(bucket@[shorter.len() as int] == total);
                }
                self.buckets.insert(key, bucket);
                proof {
                    self.slot_of@ = self.slot_of@.insert(hash, total as int);
                }
                total
            },
        };
        self.offsets.insert(offset, index);
        proof {
            self.by_hash@ = self.by_hash@.insert(hash, value);
            self.by_offset@ = self.by_offset@.insert(hash, offset);
            self.offset_hash@ = self.offset_hash@.insert(offset, hash);
            assert(self.by_offset@.dom() =~= self.by_hash@.dom());
            assert(self.slot_of@.dom() =~= self.by_hash@.dom());
            assert(self.offsets@.dom() =~= self.offset_hash@.dom());
            assert forall|i: int| 0 <= i < self.slots@.len() implies {
                let slot = #[trigger] self.slots@[i];
                &&& self.by_hash@.dom().contains(slot.hash)
                &&& self.by_hash@[slot.hash] == *slot.object
                &&& self.by_offset@[slot.hash] == slot.offset
                &&& slot.object.id == slot.hash
                &&& self.slot_of@[slot.hash] == i
                &&& self.buckets@.contains_key(bucket_key(slot.hash))
                &&& self.buckets@[bucket_key(slot.hash)]@.contains(i as usize)
            } by {
                if i != index {
                    assert(before.slots@[i] == self.slots@[i]);
                    assert(before.slots@[i].hash != hash);
                }
            }
            assert forall|h: crate::hash::Hash| #[trigger]
                self.by_hash@.dom().contains(h) implies 0 <= self.slot_of@[h] < self.slots@.len()
                && self.slots@[self.slot_of@[h]].hash == h by {
                if h != hash {
                    assert(before.by_hash@.dom().contains(h));
                    assert(before.slots@[before.slot_of@[h]].hash == h);
                }
            }
            assert forall|k: u64, j: int|
                self.buckets@.contains_key(k) && 0 <= j < self.buckets@[k]@.len() implies (
            #[trigger] self.buckets@[k]@[j]) < self.slots@.len() && bucket_key(
                self.slots@[self.buckets@[k]@[j] as int].hash,
            ) == k by {
                if found is None && k == key {
                    if j < self.buckets@[k]@.len() - 1 {
                        assert(before.buckets@.contains_key(k));
                        assert(before.buckets@[k]@[j] == self.buckets@[k]@[j]);
                    }
                } else {
                    assert(before.buckets@.contains_key(k));
                    assert(before.buckets@[k]@[j] == self.buckets@[k]@[j]);
                }
            }
            assert forall|at: u64| #[trigger]
                self.offsets@.contains_key(at) implies self.offsets@[at] < self.slots@.len()
                && self.slots@[self.offsets@[at] as int].hash == self.offset_hash@[at] by {
                if at != offset {
                    assert(before.offsets@.contains_key(at));
                }
            }
            self.lemma_consistent();
        }
    }

    /// Empties the three mappings together, as a new decode session needs
    /// them.
    pub fn clean(&mut self)
        ensures
            final(self).wf(),
            final(self).consistent(),
            final(self).by_hash() == Map::<crate::hash::Hash, Object>::empty(),
            final(self).by_offset() == Map::<crate::hash::Hash, u64>::empty(),
            final(self).offset_hash() == Map::<u64, crate::hash::Hash>::empty(),
    {
        self.slots.clear();
        self.buckets.clear();
        self.offsets.clear();
        proof {
            self.by_hash@ = Map::empty();
            self.by_offset@ = Map::empty();
            self.offset_hash@ = Map::empty();
            self.slot_of@ = Map::empty();
            assert(self.by_offset@.dom() =~= self.by_hash@.dom());
            assert(self.slot_of@.dom() =~= self.by_hash@.dom());
            assert(self.offsets@.dom() =~= self.offset_hash@.dom());
            self.lemma_consistent();
        }
    }

    /// The object with hash `hash`, if the cache holds one.
    pub fn hash_object(&self, hash: crate::hash::Hash) -> (r: Option<&Rc<Object>>)
        requires
            self.wf(),
        ensures
            match r {
                Some(object) => self.resolve_hash(hash) == Some(**object),
                None => self.resolve_hash(hash) is None,
            },
    {
        match self.find_slot(&hash) {
            Some(i) => Some(&self.slots[i].object),
            None => None,
        }
    }

    /// The object that was last seen at `offset`, if an object was seen
    /// there. An offset that is not registered is no failure: while a pack
    /// streams in, the base of a delta may not have arrived yet.
    pub fn offset_object(&self, offset: u64) -> (r: Option<&Rc<Object>>)
        requires
            self.wf(),
        ensures
            match r {
                Some(object) => self.resolve_offset(offset) == Some(**object),
                None => self.resolve_offset(offset) is None
                    && !self.offset_hash().dom().contains(offset),
            },
    {
        match self.offsets.get(&offset) {
            Some(i) => {
                assert(self.offsets@.contains_key(offset));
                let slot = &self.slots[*i];
                assert(self.by_hash@.dom().contains(slot.hash));
                Some(&slot.object)
            },
            None => None,
        }
    }

    /// Rebuilds the object that `delta` describes relative to the object
    /// that was last seen at `base_offset`. Fails with `LookupError` where
    /// no object is registered at the offset, which may only mean that the
    /// base has not arrived yet, and with `FormatError` where the delta
    /// does not apply to the base.
    pub fn offset_delta(&self, base_offset: u64, delta: &[u8]) -> (r: Result<Vec<u8>, GitError>)
        requires
            self.wf(),
        ensures
            match r {
                Ok(data) => self.resolve_offset(base_offset) matches Some(base)
                    && apply_delta_spec(base.data@, delta@) == Some(data@),
                Err(e) => match self.resolve_offset(base_offset) {
                    None => e == GitError::LookupError,
                    Some(base) => e == GitError::FormatError && apply_delta_spec(
                        base.data@,
                        delta@,
                    ) is None,
                },
            },
    {
        match self.offset_object(base_offset) {
            Some(base) => apply_delta(base.data.as_slice(), delta),
            None => Err(GitError::LookupError),
        }
    }

    /// Rebuilds the object that `delta` describes relative to the object
    /// with the hash `base_hash`. Fails with `LookupError` where the cache
    /// holds no such object, and with `FormatError` where the delta does
    /// not apply to the base.
    pub fn hash_delta(&self, base_hash: crate::hash::Hash, delta: &[u8]) -> (r: Result<
        Vec<u8>,
        GitError,
    >)
        requires
            self.wf(),
        ensures
            match r {
                Ok(data) => self.resolve_hash(base_hash) matches Some(base) && apply_delta_spec(
                    base.data@,
                    delta@,
                ) == Some(data@),
                Err(e) => match self.resolve_hash(base_hash) {
                    None => e == GitError::LookupError,
                    Some(base) => e == GitError::FormatError && apply_delta_spec(
                        base.data@,
                        delta@,
                    ) is None,
                },
            },
    {
        match self.hash_object(base_hash) {
            Some(base) => apply_delta(base.data.as_slice(), delta),
            None => Err(GitError::LookupError),
        }
    }
}

} // verus!
