//! Coalescing grow-notification bus.
//!
//! Subscribers register and receive "the event log has grown" signals. To
//! survive ingest storms, notifications coalesce through a binary permit:
//! `notify` schedules a dispatch only when the permit is free and takes it;
//! while a dispatch is scheduled every further `notify` is a no-op. The
//! dispatcher releases the permit when it begins, before it invokes the
//! subscribers, so a `notify` arriving during a dispatch schedules exactly
//! one fresh one. Thus at most one dispatch is ever queued, never more
//! dispatches are scheduled than `notify` calls were made, and after any
//! `notify` a dispatch is pending or about to begin.
//!
//! The bus decides; running the dispatch and invoking the callbacks is the
//! caller's loop. Subscribers are ids: the caller keeps the callbacks and
//! invokes, for each id `begin_dispatch` hands back, the matching one.
use vstd::prelude::*;

verus! {

/// A handle for one subscription; dropping interest means handing the id
/// back to `unsubscribe`.
pub struct NotificationBusSubscriber {
    pub id: u64,
}

/// The coalescing pub/sub bus.
pub struct NotificationBus {
    permit_free: bool,
    subscribers: Vec<u64>,
    next_id: u64,
    notified: Ghost<nat>,
    scheduled: Ghost<nat>,
    dispatched: Ghost<nat>,
}

impl NotificationBus {
    /// How many times `notify` was called.
    pub closed spec fn notified(&self) -> nat {
        self.notified@
    }

    /// How many dispatches were scheduled.
    pub closed spec fn scheduled(&self) -> nat {
        self.scheduled@
    }

    /// How many dispatches have begun.
    pub closed spec fn dispatched(&self) -> nat {
        self.dispatched@
    }

    /// A dispatch is scheduled and has not yet begun.
    pub open spec fn pending(&self) -> bool {
        self.scheduled() > self.dispatched()
    }

    /// The registered subscriber ids, in registration order.
    pub closed spec fn subscribers(&self) -> Seq<u64> {
        self.subscribers@
    }

    /// Spec view of the id counter.
    pub closed spec fn next_id_spec(&self) -> int {
        self.next_id as int
    }

    /// Coalescing bookkeeping: dispatches begin only after they are
    /// scheduled, never more are scheduled than `notify` calls were made,
    /// at most one is queued at a time, and the permit is free exactly
    /// when nothing is queued. Subscriber ids are pairwise distinct.
    pub closed spec fn wf(&self) -> bool {
        &&& self.dispatched@ <= self.scheduled@ <= self.notified@
        &&& self.scheduled@ - self.dispatched@ <= 1
        &&& self.permit_free == (self.scheduled@ == self.dispatched@)
        &&& forall|k: int|
            0 <= k < self.subscribers@.len() ==> (#[trigger] self.subscribers@[k]) < self.next_id
        &&& forall|k: int, l: int|
            0 <= k < l < self.subscribers@.len() ==> self.subscribers@[k] != self.subscribers@[l]
    }

    /// A fresh bus: permit free, nothing scheduled, no subscribers.
    pub fn new() -> (r: Self)
        ensures
            r.wf(),
            r.notified() == 0,
            r.scheduled() == 0,
            r.dispatched() == 0,
            !r.pending(),
            r.subscribers() == Seq::<u64>::empty(),
    {
        NotificationBus {
            permit_free: true,
            subscribers: Vec::new(),
            next_id: 0,
            notified: Ghost(0),
            scheduled: Ghost(0),
            dispatched: Ghost(0),
        }
    }

    /// Registers a subscriber and returns its handle. The caller keeps the
    /// callback under the returned id.
    pub fn subscribe(&mut self) -> (r: NotificationBusSubscriber)
        requires
            old(self).wf(),
            old(self).next_id_spec() < u64::MAX,
        ensures
            final(self).wf(),
            final(self).subscribers() == old(self).subscribers().push(r.id),
            !old(self).subscribers().contains(r.id),
            final(self).notified() == old(self).notified(),
            final(self).scheduled() == old(self).scheduled(),
            final(self).dispatched() == old(self).dispatched(),
    {
        let id = self.next_id;
        self.next_id = self.next_id + 1;
        self.subscribers.push(id);
        NotificationBusSubscriber { id }
    }

    /// Removes the subscription of the given handle, if it is registered.
    pub fn unsubscribe(&mut self, subscriber: NotificationBusSubscriber)
        requires
            old(self).wf(),
        ensures
            final(self).wf(),
            !final(self).subscribers().contains(subscriber.id),
            final(self).notified() == old(self).notified(),
            final(self).scheduled() == old(self).scheduled(),
            final(self).dispatched() == old(self).dispatched(),
            forall|x: u64|
                x != subscriber.id ==> (final(self).subscribers().contains(x) <==> old(
                    self,
                ).subscribers().contains(x)),
    {
        let mut k: usize = 0;
        while k < self.subscribers.len()
            invariant
                old(self).wf(),
                self.permit_free == old(self).permit_free,
                self.notified == old(self).notified,
                self.scheduled == old(self).scheduled,
                self.dispatched == old(self).dispatched,
                self.next_id == old(self).next_id,
                k <= self.subscribers@.len(),
                self.subscribers@ == old(self).subscribers@,
                forall|j: int| 0 <= j < k ==> old(self).subscribers@[j] != subscriber.id,
            decreases self.subscribers@.len() - k,
        {
            if self.subscribers[k] == subscriber.id {
                self.subscribers.remove(k);
                proof {
                    let pre = old(self).subscribers@;
                    assert forall|x: u64|
                        x != subscriber.id && pre.contains(x) implies self
                        .subscribers@.contains(x) by {
                        let j = choose|j: int| 0 <= j < pre.len() && pre[j] == x;
                        if j < k {
                            assert(self.subscribers@[j] == x);
                        } else {
                            assert(j > k);
                            assert(self.subscribers@[j - 1] == x);
                        }
                    }
                    assert forall|x: u64|
                        self.subscribers@.contains(x) implies pre.contains(x) by {
                        let j = choose|j: int|
                            0 <= j < self.subscribers@.len() && self.subscribers@[j] == x;
                        if j < k {
                            assert(pre[j] == x);
                        } else {
                            assert(pre[j + 1] == x);
                        }
                    }
                    assert forall|j: int|
                        0 <= j < self.subscribers@.len() implies !(self.subscribers@[j]
                            == subscriber.id) by {
                        if j < k {
                            assert(pre[j] == self.subscribers@[j]);
                        } else {
                            assert(pre[j + 1] == self.subscribers@[j]);
                        }
                    }
                }
                return ;
            }
            k = k + 1;
        }
    }

    /// Whether a dispatch is queued and has not yet begun.
    pub fn dispatch_pending(&self) -> (r: bool)
        requires
            self.wf(),
        ensures
            r == self.pending(),
    {
        !self.permit_free
    }

    /// Signals growth. When the permit is free it is taken and one
    /// dispatch is scheduled; when a dispatch is already queued the call
    /// changes nothing but the call count — bursts collapse into the one
    /// queued dispatch. Either way a dispatch is pending afterwards.
    pub fn notify(&mut self)
        requires
            old(self).wf(),
        ensures
            final(self).wf(),
            final(self).notified() == old(self).notified() + 1,
            final(self).scheduled() == old(self).scheduled() + (if old(self).pending() {
                0int
            } else {
                1int
            }),
            final(self).dispatched() == old(self).dispatched(),
            final(self).pending(),
            final(self).subscribers() == old(self).subscribers(),
    {
        self.notified = Ghost(self.notified@ + 1);
        if self.permit_free {
            self.permit_free = false;
            self.scheduled = Ghost(self.scheduled@ + 1);
        }
    }

    /// Begins the queued dispatch: releases the permit first — so a
    /// `notify` arriving while the callbacks run schedules a fresh
    /// dispatch — and hands back the subscriber ids to invoke.
    pub fn begin_dispatch(&mut self) -> (r: Vec<u64>)
        requires
            old(self).wf(),
            old(self).pending(),
        ensures
            final(self).wf(),
            r@ == old(self).subscribers(),
            final(self).dispatched() == old(self).dispatched() + 1,
            final(self).scheduled() == old(self).scheduled(),
            final(self).notified() == old(self).notified(),
            !final(self).pending(),
            final(self).subscribers() == old(self).subscribers(),
    {
        self.permit_free = true;
        self.dispatched = Ghost(self.dispatched@ + 1);
        let mut ids: Vec<u64> = Vec::new();
        let mut k: usize = 0;
        while k < self.subscribers.len()
            invariant
                k <= self.subscribers@.len(),
                ids@ == self.subscribers@.subrange(0, k as int),
            decreases self.subscribers@.len() - k,
        {
            ids.push(self.subscribers[k]);
            k = k + 1;
            proof {
                assert(ids@ =~= self.subscribers@.subrange(0, k as int));
            }
        }
        proof {
            assert(ids@ =~= self.subscribers@);
        }
        ids
    }
}

/// Notification coalescing: however many `notify` calls arrive, never more
/// dispatches are scheduled than calls were made, and at most one dispatch
/// is queued at any moment — a burst of calls collapses into the one
/// pending dispatch.
pub proof fn lemma_notification_coalescing(bus: NotificationBus)
    requires
        bus.wf(),
    ensures
        bus.dispatched() <= bus.scheduled() <= bus.notified(),
        bus.scheduled() - bus.dispatched() <= 1,
{
}

} // verus!
