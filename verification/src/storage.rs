//! Trusted bridge to the persistent tables.
//!
//! Both durable tables live in one [`Store`]: post records and ledger
//! records, each keyed by post id and holding raw record bytes. The tables
//! are `ic_stable_structures` B-tree maps carved out of one managed memory.
//! Verus cannot read that crate's types, so the struct is opaque and every
//! operation is a trusted wrapper whose contract states, over the two
//! contents maps, what the crate's source shows.

use vstd::prelude::*;

use ic_stable_structures::memory_manager::{MemoryId, MemoryManager, VirtualMemory};
use ic_stable_structures::{DefaultMemoryImpl, StableBTreeMap};

verus! {

/// The two durable tables: post records and ledger records.
#[verifier::external_body]
pub struct Store {
    posts: StableBTreeMap<u32, Vec<u8>, VirtualMemory<DefaultMemoryImpl>>,
    votes: StableBTreeMap<u32, Vec<u8>, VirtualMemory<DefaultMemoryImpl>>,
}

/// A contents map with nothing stored yet.
pub open spec fn no_records() -> Map<u32, Seq<u8>> {
    Map::empty()
}

/// The record bytes the post table holds, by key.
pub uninterp spec fn store_posts(s: Store) -> Map<u32, Seq<u8>>;

/// The record bytes the ledger table holds, by key.
pub uninterp spec fn store_votes(s: Store) -> Map<u32, Seq<u8>>;

impl Store {
    /// Relies on `MemoryManager::init` and `StableBTreeMap::new`: a map
    /// created with `new` over a fresh region is empty.
    #[verifier::external_body]
    pub fn new() -> (r: Store)
        ensures
            store_posts(r) == no_records(),
            store_votes(r) == no_records(),
    {
        let manager = MemoryManager::init(DefaultMemoryImpl::default());
        Store {
            posts: StableBTreeMap::new(manager.get(MemoryId::new(0))),
            votes: StableBTreeMap::new(manager.get(MemoryId::new(1))),
        }
    }

    /// Relies on `StableBTreeMap::get`: returns the value stored under the
    /// key, if one exists.
    #[verifier::external_body]
    pub fn posts_get(&self, key: u32) -> (r: Option<Vec<u8>>)
        ensures
            match r {
                Some(v) => store_posts(*self).contains_key(key) && v@ == store_posts(*self)[key],
                None => !store_posts(*self).contains_key(key),
            },
    {
        self.posts.get(&key)
    }

    /// Relies on `StableBTreeMap::insert`: stores the value under the key
    /// and returns the previous value, if one existed. The value type is
    /// unbounded for the map, so the call cannot reject it.
    #[verifier::external_body]
    pub fn posts_insert(&mut self, key: u32, value: Vec<u8>) -> (prev: Option<Vec<u8>>)
        ensures
            store_posts(*final(self)) == store_posts(*old(self)).insert(key, value@),
            store_votes(*final(self)) == store_votes(*old(self)),
            match prev {
                Some(v) => store_posts(*old(self)).contains_key(key) && v@ == store_posts(
                    *old(self),
                )[key],
                None => !store_posts(*old(self)).contains_key(key),
            },
    {
        self.posts.insert(key, value)
    }

    /// Relies on `StableBTreeMap::remove`: deletes the key and returns the
    /// previous value, if one existed.
    #[verifier::external_body]
    pub fn posts_remove(&mut self, key: u32) -> (prev: Option<Vec<u8>>)
        ensures
            store_posts(*final(self)) == store_posts(*old(self)).remove(key),
            store_votes(*final(self)) == store_votes(*old(self)),
            match prev {
                Some(v) => store_posts(*old(self)).contains_key(key) && v@ == store_posts(
                    *old(self),
                )[key],
                None => !store_posts(*old(self)).contains_key(key),
            },
    {
        self.posts.remove(&key)
    }

    /// Relies on `StableBTreeMap::iter`: yields every entry of the post
    /// table once, sorted by key in ascending order.
    #[verifier::external_body]
    pub fn posts_entries(&self) -> (r: Vec<(u32, Vec<u8>)>)
        ensures
            forall|i: int, j: int| 0 <= i < j < r@.len() ==> r@[i].0 < r@[j].0,
            forall|i: int|
                0 <= i < r@.len() ==> store_posts(*self).contains_key((#[trigger] r@[i]).0)
                    && r@[i].1@ == store_posts(*self)[r@[i].0],
            forall|k: u32|
                store_posts(*self).contains_key(k) ==> exists|i: int|
                    0 <= i < r@.len() && (#[trigger] r@[i]).0 == k,
    {
        let mut out = Vec::new();
        for entry in self.posts.iter() {
            out.push(entry.into_pair());
        }
        out
    }

    /// Relies on `StableBTreeMap::get` on the ledger table.
    #[verifier::external_body]
    pub fn votes_get(&self, key: u32) -> (r: Option<Vec<u8>>)
        ensures
            match r {
                Some(v) => store_votes(*self).contains_key(key) && v@ == store_votes(*self)[key],
                None => !store_votes(*self).contains_key(key),
            },
    {
        self.votes.get(&key)
    }

    /// Relies on `StableBTreeMap::insert` on the ledger table.
    #[verifier::external_body]
    pub fn votes_insert(&mut self, key: u32, value: Vec<u8>) -> (prev: Option<Vec<u8>>)
        ensures
            store_votes(*final(self)) == store_votes(*old(self)).insert(key, value@),
            store_posts(*final(self)) == store_posts(*old(self)),
            match prev {
                Some(v) => store_votes(*old(self)).contains_key(key) && v@ == store_votes(
                    *old(self),
                )[key],
                None => !store_votes(*old(self)).contains_key(key),
            },
    {
        self.votes.insert(key, value)
    }

    /// Relies on `StableBTreeMap::remove` on the ledger table.
    #[verifier::external_body]
    pub fn votes_remove(&mut self, key: u32) -> (prev: Option<Vec<u8>>)
        ensures
            store_votes(*final(self)) == store_votes(*old(self)).remove(key),
            store_posts(*final(self)) == store_posts(*old(self)),
            match prev {
                Some(v) => store_votes(*old(self)).contains_key(key) && v@ == store_votes(
                    *old(self),
                )[key],
                None => !store_votes(*old(self)).contains_key(key),
            },
    {
        self.votes.remove(&key)
    }
}

} // verus!
