//! Event filters.
//!
//! A filter is a simple predicate on one event; an event passes a filter
//! set exactly when every filter of the set accepts it, so the empty set
//! accepts everything.
use vstd::prelude::*;

use crate::messages::{KmMessage, KmMessageV};

verus! {

/// A predicate on one event.
#[derive(Clone, Copy, PartialEq, Eq, Structural, Debug)]
pub enum SimpleFilter {
    /// Accepts events whose pid equals the given one.
    FilterPid(u64),
    /// Accepts events whose pid is at most the given one.
    FilterPidLessEq(u64),
}

impl SimpleFilter {
    /// What the filter accepts.
    pub open spec fn matches_spec(self, m: KmMessageV) -> bool {
        match self {
            SimpleFilter::FilterPid(pid) => m.process.pid == pid,
            SimpleFilter::FilterPidLessEq(pid) => m.process.pid <= pid,
        }
    }

    /// Whether the event passes this filter.
    pub fn matches(&self, event: &KmMessage) -> (r: bool)
        ensures
            r == self.matches_spec(event@),
    {
        match self {
            SimpleFilter::FilterPid(pid) => event.process.pid == *pid,
            SimpleFilter::FilterPidLessEq(pid) => event.process.pid <= *pid,
        }
    }
}

/// An event is visible under a filter set iff every filter accepts it;
/// the empty set accepts every event.
pub open spec fn all_match(filters: Seq<SimpleFilter>, m: KmMessageV) -> bool {
    forall|k: int| 0 <= k < filters.len() ==> (#[trigger] filters[k]).matches_spec(m)
}

/// Whether the event passes every filter of the set.
pub fn event_visible(filters: &Vec<SimpleFilter>, event: &KmMessage) -> (r: bool)
    ensures
        r == all_match(filters@, event@),
{
    let mut k: usize = 0;
    while k < filters.len()
        invariant
            k <= filters@.len(),
            forall|j: int| 0 <= j < k ==> (#[trigger] filters@[j]).matches_spec(event@),
        decreases filters@.len() - k,
    {
        if !filters[k].matches(event) {
            return false;
        }
        k = k + 1;
    }
    true
}

} // verus!
