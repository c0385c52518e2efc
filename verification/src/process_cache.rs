//! The executable-name cache: a fully verified map from `unique_id` to
//! the name the kernel reported, with the same lazy, idempotent protocol
//! as the metadata cache.
//!
//! A lookup answers from the cache or queues the id and reports a miss;
//! the worker takes queued ids through `next_request`, which drops every
//! id answered in the meantime, and records each answer once with
//! `resolve_request`. Entries are never removed and never change.
use vstd::prelude::*;

use std::collections::HashMap;

use crate::messages::SerializableNtString;

verus! {

/// What one lookup yields: a hit — possibly a cached negative — or a
/// miss that has queued the id for the worker.
pub enum CacheLookup {
    Hit(Option<SerializableNtString>),
    Miss,
}

/// The mathematical value of a cached entry.
pub open spec fn entry_view(v: Option<SerializableNtString>) -> Option<Seq<u16>> {
    match v {
        None => None,
        Some(name) => Some(name@),
    }
}

/// The executable-name cache.
pub struct ProcessCache {
    cache: HashMap<u64, Option<SerializableNtString>>,
    pending: Vec<u64>,
}

impl ProcessCache {
    /// The cached answers, by `unique_id`.
    pub closed spec fn cache_view(&self) -> Map<u64, Option<SerializableNtString>> {
        self.cache@
    }

    /// The ids queued for the worker, oldest first.
    pub closed spec fn pending_view(&self) -> Seq<u64> {
        self.pending@
    }

    /// A fresh cache: nothing known, nothing queued.
    pub fn new() -> (r: Self)
        ensures
            r.cache_view() == Map::<u64, Option<SerializableNtString>>::empty(),
            r.pending_view() == Seq::<u64>::empty(),
    {
        ProcessCache { cache: HashMap::new(), pending: Vec::new() }
    }

    /// Looks a name up: a hit answers at once, view-for-view, and changes
    /// nothing; a miss queues the id for the worker.
    pub fn try_get(&mut self, uid: u64) -> (r: CacheLookup)
        ensures
            final(self).cache_view() == old(self).cache_view(),
            match r {
                CacheLookup::Hit(v) => {
                    &&& old(self).cache_view().contains_key(uid)
                    &&& entry_view(old(self).cache_view()[uid]) == entry_view(v)
                    &&& final(self).pending_view() == old(self).pending_view()
                },
                CacheLookup::Miss => {
                    &&& !old(self).cache_view().contains_key(uid)
                    &&& final(self).pending_view() == old(self).pending_view().push(uid)
                },
            },
    {
        proof {
            broadcast use vstd::std_specs::hash::group_hash_axioms;

        }
        match self.cache.get(&uid) {
            Some(value) => {
                let copy = match value {
                    None => None,
                    Some(name) => Some(name.clone()),
                };
                CacheLookup::Hit(copy)
            },
            None => {
                self.pending.push(uid);
                CacheLookup::Miss
            },
        }
    }

    /// Hands the worker the next id that still needs a kernel round trip,
    /// dropping every queued id answered in the meantime — one id, one
    /// request. `None` only once every queued id has an answer in the
    /// cache, so nothing queued is ever left unserved.
    pub fn next_request(&mut self) -> (r: Option<u64>)
        ensures
            final(self).cache_view() == old(self).cache_view(),
            match r {
                Some(uid) => {
                    &&& !final(self).cache_view().contains_key(uid)
                    &&& old(self).pending_view().contains(uid)
                },
                None => {
                    &&& final(self).pending_view() == Seq::<u64>::empty()
                    &&& forall|x: u64|
                        old(self).pending_view().contains(x) ==> old(
                            self,
                        ).cache_view().contains_key(x)
                },
            },
            forall|x: u64|
                final(self).pending_view().contains(x) ==> old(self).pending_view().contains(x),
    {
        proof {
            broadcast use vstd::std_specs::hash::group_hash_axioms;

        }
        loop
            invariant
                self.cache == old(self).cache,
                forall|x: u64| self.pending@.contains(x) ==> old(self).pending@.contains(x),
                forall|x: u64|
                    old(self).pending@.contains(x) ==> self.pending@.contains(x)
                        || self.cache@.contains_key(x),
            decreases self.pending@.len(),
        {
            proof {
                broadcast use vstd::std_specs::hash::group_hash_axioms;

            }
            if self.pending.len() == 0 {
                proof {
                    assert(self.pending@ =~= Seq::<u64>::empty());
                }
                return None;
            }
            let ghost pending_before = self.pending@;
            let uid = self.pending.remove(0);
            proof {
                assert(pending_before.contains(uid)) by {
                    assert(pending_before[0] == uid);
                }
                assert forall|x: u64| self.pending@.contains(x) implies pending_before.contains(
                    x,
                ) by {
                    let j = choose|j: int| 0 <= j < self.pending@.len() && self.pending@[j] == x;
                    assert(pending_before[j + 1] == x);
                }
            }
            if !self.cache.contains_key(&uid) {
                return Some(uid);
            }
            proof {
                assert forall|x: u64|
                    pending_before.contains(x) implies self.pending@.contains(x)
                    || self.cache@.contains_key(x) by {
                    let j = choose|j: int|
                        0 <= j < pending_before.len() && pending_before[j] == x;
                    if j == 0 {
                        assert(x == uid);
                    } else {
                        assert(self.pending@[j - 1] == x);
                    }
                }
            }
        }
    }

    /// Records the kernel's answer for one id, positively or negatively,
    /// only if the id is still unanswered; an answered id keeps its entry.
    pub fn resolve_request(&mut self, uid: u64, name: Option<SerializableNtString>)
        ensures
            final(self).pending_view() == old(self).pending_view(),
            old(self).cache_view().contains_key(uid) ==> final(self).cache_view() == old(
                self,
            ).cache_view(),
            !old(self).cache_view().contains_key(uid) ==> final(self).cache_view() == old(
                self,
            ).cache_view().insert(uid, name),
    {
        proof {
            broadcast use vstd::std_specs::hash::group_hash_axioms;

        }
        if self.cache.contains_key(&uid) {
            return ;
        }
        self.cache.insert(uid, name);
    }
}

} // verus!
