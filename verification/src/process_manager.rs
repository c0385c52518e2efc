//! The process-metadata cache behind the display: a concurrent map from
//! `unique_id` to what the kernel reported about that process instance.
//!
//! Lookups are lazy and idempotent: `try_get_async` answers at once from
//! the cache — positively or negatively — and otherwise queues the id and
//! reports a miss. A worker loop takes queued ids one at a time through
//! `next_request`, which skips every id that has been answered meanwhile,
//! asks the kernel, and records the answer with `resolve_request`; a
//! failed or ill-matched reply is recorded as a negative entry. Once an id
//! is in the cache its entry never changes and is never removed, so the
//! same id can never cause a second kernel request.
//!
//! The map itself is dashmap's sharded concurrent map, taken on trust
//! behind the small wrappers below; everything around it is verified
//! against their contracts.
use vstd::prelude::*;

use dashmap::DashMap;

use crate::messages::ProcessInformation;

verus! {

/// dashmap's sharded concurrent hash map, declared for use in verified
/// signatures; its contents are known only through `cache_contents`.
#[verifier::external_type_specification]
#[verifier::external_body]
#[verifier::reject_recursive_types(K)]
#[verifier::reject_recursive_types(V)]
#[verifier::reject_recursive_types(S)]
pub struct ExDashMap<K, V, S>(DashMap<K, V, S>);

/// One cached record: the process metadata as the kernel reported it, and
/// the executable's name, split off the path once at insertion.
pub struct ProcessCacheInformation {
    exe_name: Vec<u16>,
    base_info: ProcessInformation,
}

/// What one cached lookup yields: a hit — possibly a cached negative —
/// or a miss that has queued the id for the worker.
pub enum ProcessCacheEntry {
    Hit(Option<ProcessCacheInformation>),
    Miss,
}

/// What the cache maps each requested `unique_id` to: `None` records that
/// the kernel was asked and had no answer.
pub uninterp spec fn cache_contents(m: DashMap<u64, Option<ProcessCacheInformation>>) -> Map<
    u64,
    Option<ProcessCacheInformation>,
>;

/// The empty cache contents.
pub open spec fn empty_cache_contents() -> Map<u64, Option<ProcessCacheInformation>> {
    Map::empty()
}

/// Relies on dashmap::DashMap::new: a freshly created map has no entries.
#[verifier::external_body]
fn cache_new() -> (r: DashMap<u64, Option<ProcessCacheInformation>>)
    ensures
        cache_contents(r) == empty_cache_contents(),
{
    DashMap::new()
}

/// Relies on dashmap::DashMap::insert: afterwards the key maps to the
/// value and every other key is unaffected.
#[verifier::external_body]
fn cache_insert(
    m: &mut DashMap<u64, Option<ProcessCacheInformation>>,
    key: u64,
    value: Option<ProcessCacheInformation>,
)
    ensures
        cache_contents(*final(m)) == cache_contents(*old(m)).insert(key, value),
{
    m.insert(key, value);
}

/// Relies on dashmap::DashMap::get: returns the entry under the key
/// exactly when one is present. The entry is handed out by value.
#[verifier::external_body]
fn cache_get(m: &DashMap<u64, Option<ProcessCacheInformation>>, key: u64) -> (r: Option<
    Option<ProcessCacheInformation>,
>)
    ensures
        match r {
            Some(v) => cache_contents(*m).contains_key(key) && cache_contents(*m)[key] == v,
            None => !cache_contents(*m).contains_key(key),
        },
{
    m.get(&key).map(|entry| entry.value().clone())
}

/// Relies on dashmap::DashMap::contains_key.
#[verifier::external_body]
fn cache_contains(m: &DashMap<u64, Option<ProcessCacheInformation>>, key: u64) -> (r: bool)
    ensures
        r == cache_contents(*m).contains_key(key),
{
    m.contains_key(&key)
}

/// The executable name carried by a path: the code units after the last
/// path separator — backslash or slash — or the whole path when it has
/// none.
pub open spec fn basename_of(path: Seq<u16>) -> Seq<u16>
    decreases path.len(),
{
    if path.len() == 0 {
        path
    } else if path.last() == 92 || path.last() == 47 {
        Seq::<u16>::empty()
    } else {
        basename_of(path.drop_last()).push(path.last())
    }
}

/// Splitting at the last separator: when no separator follows position
/// `cut`, and `cut` is either the start or just past a separator, the
/// basename is the suffix from `cut`.
proof fn lemma_basename_suffix(path: Seq<u16>, cut: int)
    requires
        0 <= cut <= path.len(),
        cut > 0 ==> path[cut - 1] == 92 || path[cut - 1] == 47,
        cut == 0 ==> forall|k: int| 0 <= k < path.len() ==> path[k] != 92 && path[k] != 47,
        forall|k: int| cut <= k < path.len() ==> path[k] != 92 && path[k] != 47,
    ensures
        basename_of(path) == path.skip(cut),
    decreases path.len(),
{
    if path.len() == 0 {
        assert(basename_of(path) =~= path.skip(cut));
    } else if cut == path.len() {
        assert(path.last() == path[cut - 1]);
        assert(basename_of(path) =~= path.skip(cut));
    } else {
        assert(path.last() != 92 && path.last() != 47);
        lemma_basename_suffix(path.drop_last(), cut);
        assert(path.drop_last().skip(cut).push(path.last()) =~= path.skip(cut));
    }
}

impl ProcessCacheInformation {
    /// The record's executable name, as computed from the path.
    pub closed spec fn exe_name_spec(&self) -> Seq<u16> {
        self.exe_name@
    }

    /// The record's base metadata.
    pub closed spec fn base_info_spec(&self) -> ProcessInformation {
        self.base_info
    }

    /// Builds the cached record: keeps the metadata and splits the
    /// executable name off the path, after its last separator.
    pub fn new(info: ProcessInformation) -> (r: Self)
        ensures
            r.base_info_spec() == info,
            r.exe_name_spec() == basename_of(info.path@),
    {
        let units = &info.path.0;
        let mut cut: usize = 0;
        let mut k: usize = 0;
        while k < units.len()
            invariant
                cut <= k <= units@.len(),
                cut > 0 ==> units@[cut - 1] == 92 || units@[cut - 1] == 47,
                cut == 0 ==> forall|j: int| 0 <= j < k ==> units@[j] != 92 && units@[j] != 47,
                forall|j: int| cut <= j < k ==> units@[j] != 92 && units@[j] != 47,
            decreases units@.len() - k,
        {
            let unit = units[k];
            if unit == 92 || unit == 47 {
                cut = k + 1;
            }
            k = k + 1;
        }
        let mut exe_name: Vec<u16> = Vec::new();
        let mut j: usize = cut;
        while j < units.len()
            invariant
                cut <= j <= units@.len(),
                exe_name@ == units@.subrange(cut as int, j as int),
            decreases units@.len() - j,
        {
            exe_name.push(units[j]);
            j = j + 1;
            proof {
                assert(exe_name@ =~= units@.subrange(cut as int, j as int));
            }
        }
        proof {
            lemma_basename_suffix(units@, cut as int);
            assert(exe_name@ =~= units@.skip(cut as int));
        }
        ProcessCacheInformation { exe_name, base_info: info }
    }

    /// The base metadata of this record.
    pub fn get_info(&self) -> (r: &ProcessInformation)
        ensures
            *r == self.base_info_spec(),
    {
        &self.base_info
    }

    /// The executable name of this record.
    pub fn get_process_name(&self) -> (r: &Vec<u16>)
        ensures
            r@ == self.exe_name_spec(),
    {
        &self.exe_name
    }
}

impl Clone for ProcessCacheInformation {
    fn clone(&self) -> (r: Self) {
        ProcessCacheInformation {
            exe_name: self.exe_name.clone(),
            base_info: self.base_info.clone(),
        }
    }
}

/// The lazy, request-driven process-metadata cache.
pub struct ProcessManager {
    cache: DashMap<u64, Option<ProcessCacheInformation>>,
    pending: Vec<u64>,
}

impl ProcessManager {
    /// The cached answers, by `unique_id`.
    pub closed spec fn cache_view(&self) -> Map<u64, Option<ProcessCacheInformation>> {
        cache_contents(self.cache)
    }

    /// The ids queued for the worker, oldest first.
    pub closed spec fn pending_view(&self) -> Seq<u64> {
        self.pending@
    }

    /// A fresh cache: nothing known, nothing queued.
    pub fn new() -> (r: Self)
        ensures
            r.cache_view() == empty_cache_contents(),
            r.pending_view() == Seq::<u64>::empty(),
    {
        ProcessManager { cache: cache_new(), pending: Vec::new() }
    }

    /// Looks a process up: a hit — including a cached negative — answers
    /// at once and changes nothing; a miss queues the id for the worker.
    pub fn try_get_async(&mut self, uid: u64) -> (r: ProcessCacheEntry)
        ensures
            final(self).cache_view() == old(self).cache_view(),
            match r {
                ProcessCacheEntry::Hit(v) => {
                    &&& old(self).cache_view().contains_key(uid)
                    &&& old(self).cache_view()[uid] == v
                    &&& final(self).pending_view() == old(self).pending_view()
                },
                ProcessCacheEntry::Miss => {
                    &&& !old(self).cache_view().contains_key(uid)
                    &&& final(self).pending_view() == old(self).pending_view().push(uid)
                },
            },
    {
        match cache_get(&self.cache, uid) {
            Some(value) => ProcessCacheEntry::Hit(value),
            None => {
                self.pending.push(uid);
                ProcessCacheEntry::Miss
            },
        }
    }

    /// Hands the worker the next id that still needs a kernel round trip,
    /// dropping every queued id that was answered in the meantime — the
    /// same id never causes two kernel requests. `None` only once every
    /// queued id has an answer in the cache, so nothing queued is ever
    /// left unserved.
    pub fn next_request(&mut self) -> (r: Option<u64>)
        ensures
            final(self).cache_view() == old(self).cache_view(),
            match r {
                Some(uid) => {
                    &&& !final(self).cache_view().contains_key(uid)
                    &&& old(self).pending_view().contains(uid)
                },
                None => {
                    &&& final(self).pending_view() == Seq::<u64>::empty()
                    &&& forall|x: u64|
                        old(self).pending_view().contains(x) ==> old(
                            self,
                        ).cache_view().contains_key(x)
                },
            },
            forall|x: u64|
                final(self).pending_view().contains(x) ==> old(self).pending_view().contains(x),
    {
        loop
            invariant
                self.cache == old(self).cache,
                forall|x: u64| self.pending@.contains(x) ==> old(self).pending@.contains(x),
                forall|x: u64|
                    old(self).pending@.contains(x) ==> self.pending@.contains(x)
                        || cache_contents(self.cache).contains_key(x),
            decreases self.pending@.len(),
        {
            if self.pending.len() == 0 {
                proof {
                    assert(self.pending@ =~= Seq::<u64>::empty());
                }
                return None;
            }
            let ghost pending_before = self.pending@;
            let uid = self.pending.remove(0);
            proof {
                assert(pending_before.contains(uid)) by {
                    assert(pending_before[0] == uid);
                }
                assert forall|x: u64| self.pending@.contains(x) implies pending_before.contains(
                    x,
                ) by {
                    let j = choose|j: int|
                        0 <= j < self.pending@.len() && self.pending@[j] == x;
                    assert(pending_before[j + 1] == x);
                }
            }
            if !cache_contains(&self.cache, uid) {
                return Some(uid);
            }
            proof {
                assert forall|x: u64|
                    pending_before.contains(x) implies self.pending@.contains(x)
                    || cache_contents(self.cache).contains_key(x) by {
                    let j = choose|j: int|
                        0 <= j < pending_before.len() && pending_before[j] == x;
                    if j == 0 {
                        assert(x == uid);
                    } else {
                        assert(self.pending@[j - 1] == x);
                    }
                }
            }
        }
    }

    /// Records the kernel's answer for one id: inserted — positively or
    /// negatively — only if the id is still unanswered; an id already in
    /// the cache keeps its entry untouched.
    pub fn resolve_request(&mut self, uid: u64, info: Option<ProcessInformation>)
        ensures
            final(self).pending_view() == old(self).pending_view(),
            old(self).cache_view().contains_key(uid) ==> final(self).cache_view() == old(
                self,
            ).cache_view(),
            !old(self).cache_view().contains_key(uid) ==> {
                &&& final(self).cache_view().contains_key(uid)
                &&& final(self).cache_view() == old(self).cache_view().insert(
                    uid,
                    final(self).cache_view()[uid],
                )
                &&& match (info, final(self).cache_view()[uid]) {
                    (None, None) => true,
                    (Some(i), Some(record)) => record.base_info_spec() == i
                        && record.exe_name_spec() == basename_of(i.path@),
                    _ => false,
                }
            },
    {
        if cache_contains(&self.cache, uid) {
            return ;
        }
        let record = match info {
            None => None,
            Some(i) => Some(ProcessCacheInformation::new(i)),
        };
        cache_insert(&mut self.cache, uid, record);
        proof {
            assert(cache_contents(self.cache) =~= cache_contents(old(self).cache).insert(
                uid,
                cache_contents(self.cache)[uid],
            ));
        }
    }
}

/// Process-cache idempotence: recording an answer for a still-unanswered
/// id leaves every already-answered id exactly as it was — so once a
/// lookup hits, every later lookup of the same id hits with the same
/// value.
pub proof fn lemma_cache_idempotence(
    cache: Map<u64, Option<ProcessCacheInformation>>,
    answered: u64,
    fresh: u64,
    value: Option<ProcessCacheInformation>,
)
    requires
        cache.contains_key(answered),
        !cache.contains_key(fresh),
    ensures
        cache.insert(fresh, value).contains_key(answered),
        cache.insert(fresh, value)[answered] == cache[answered],
{
}

} // verus!
