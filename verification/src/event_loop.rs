//! A time-ordered, cancellable event queue driving all simulated activity.
//!
//! The loop stores plain action values of a caller-chosen type `A`; whoever
//! pumps the loop interprets the action popped by [`EventLoop::advance`].
//! Events fire in ascending `(time, id)` order: earlier time wins, and the
//! earlier-scheduled event breaks a tie.

#![verifier::loop_isolation(false)]

use vstd::prelude::*;

verus! {

/// One scheduled entry: `action` is due at `time`; `id` both identifies the
/// entry for cancellation and breaks ties among equal times.
pub struct Event<A> {
    /// Simulated time, in ticks, at which the action is due.
    pub time: u64,
    /// Identifier assigned at scheduling time, unique per loop.
    pub id: i64,
    /// The deferred action itself.
    pub action: A,
}

/// True when an event keyed `(t1, i1)` fires strictly before one keyed
/// `(t2, i2)`: earlier time first, earlier id among equal times.
pub open spec fn fires_before(t1: u64, i1: i64, t2: u64, i2: i64) -> bool {
    t1 < t2 || (t1 == t2 && i1 < i2)
}

/// Executable form of [`fires_before`].
fn fires_earlier(t1: u64, i1: i64, t2: u64, i2: i64) -> (r: bool)
    ensures
        r == fires_before(t1, i1, t2, i2),
{
    t1 < t2 || (t1 == t2 && i1 < i2)
}

/// An event loop for discrete-time simulation: a pending queue kept sorted
/// by `(time, id)`, a set of cancelled ids, and the next fresh id.
pub struct EventLoop<A> {
    events: Vec<Event<A>>,
    cancelled: Vec<i64>,
    next_id: i64,
}

impl<A> EventLoop<A> {
    /// The pending events, earliest first.
    pub closed spec fn queue(&self) -> Seq<Event<A>> {
        self.events@
    }

    /// Whether `id` has been cancelled and its event not yet popped.
    pub closed spec fn is_cancelled(&self, id: i64) -> bool {
        self.cancelled@.contains(id)
    }

    /// The id the next scheduled event will receive.
    pub closed spec fn next_id_spec(&self) -> int {
        self.next_id as int
    }

    /// The queue is strictly sorted by `(time, id)`, every pending id was
    /// issued earlier than `next_id`, and the cancelled set holds no
    /// duplicates.
    pub closed spec fn wf(&self) -> bool {
        &&& forall|j: int, k: int|
            0 <= j < k < self.events@.len() ==> #[trigger] fires_before(
                self.events@[j].time,
                self.events@[j].id,
                self.events@[k].time,
                self.events@[k].id,
            )
        &&& forall|j: int|
            0 <= j < self.events@.len() ==> 0 <= (#[trigger] self.events@[j]).id < self.next_id
        &&& self.cancelled@.no_duplicates()
        &&& 0 <= self.next_id
    }

    /// Creates an empty loop.
    pub fn new() -> (r: Self)
        ensures
            r.wf(),
            r.queue().len() == 0,
            r.next_id_spec() == 0,
            forall|i: i64| !r.is_cancelled(i),
    {
        EventLoop { events: Vec::new(), cancelled: Vec::new(), next_id: 0 }
    }

    /// Enqueues `action` to fire at `time` and returns its fresh id.
    ///
    /// The new entry is the only change to the queue; ids grow by one per
    /// call, so a later-scheduled event never fires before an
    /// earlier-scheduled one due at the same time.
    pub fn schedule(&mut self, time: u64, action: A) -> (id: i64)
        requires
            old(self).wf(),
            old(self).next_id_spec() < i64::MAX,
        ensures
            final(self).wf(),
            id == old(self).next_id_spec(),
            final(self).next_id_spec() == id + 1,
            final(self).queue().len() == old(self).queue().len() + 1,
            forall|e: Event<A>|
                #[trigger] final(self).queue().contains(e) <==> (old(self).queue().contains(e)
                    || e == (Event { time, id, action })),
            forall|i: i64| #[trigger] final(self).is_cancelled(i) == old(self).is_cancelled(i),
    {
        let id = self.next_id;
        self.next_id = self.next_id + 1;
        let mut pos: usize = 0;
        while pos < self.events.len() && fires_earlier(
            self.events[pos].time,
            self.events[pos].id,
            time,
            id,
        )
            invariant
                pos <= self.events@.len(),
                forall|j: int|
                    0 <= j < pos ==> #[trigger] fires_before(
                        self.events@[j].time,
                        self.events@[j].id,
                        time,
                        id,
                    ),
            decreases self.events@.len() - pos,
        {
            pos = pos + 1;
        }
        let ghost pre = self.events@;
        let ghost ev = Event { time, id, action };
        self.events.insert(pos, Event { time, id, action });
        proof {
            let post = self.events@;
            pre.insert_ensures(pos as int, ev);
            assert(post == pre.insert(pos as int, ev));
            // the entry at `pos`, if any, does not fire before the new one,
            // and its id is older, so the new one fires strictly before it
            assert forall|j: int, k: int| 0 <= j < k < post.len() implies #[trigger] fires_before(
                post[j].time,
                post[j].id,
                post[k].time,
                post[k].id,
            ) by {
                if k < pos {
                    assert(post[j] == pre[j] && post[k] == pre[k]);
                } else if j > pos {
                    assert(post[j] == pre[j - 1] && post[k] == pre[k - 1]);
                } else if j < pos && k == pos {
                    assert(post[j] == pre[j] && post[k] == ev);
                } else if j < pos && k > pos {
                    assert(post[j] == pre[j] && post[k] == pre[k - 1]);
                } else if j == pos && k > pos {
                    assert(post[j] == ev && post[k] == pre[k - 1]);
                    if pos < pre.len() {
                        assert(!fires_before(pre[pos as int].time, pre[pos as int].id, time, id));
                        assert(pre[pos as int].id < id);
                        if k - 1 > pos {
                            assert(fires_before(
                                pre[pos as int].time,
                                pre[pos as int].id,
                                pre[k - 1].time,
                                pre[k - 1].id,
                            ));
                        }
                    }
                }
            }
            assert forall|e: Event<A>| #[trigger] post.contains(e) implies (pre.contains(e) || e
                == ev) by {
                let j = choose|j: int| 0 <= j < post.len() && post[j] == e;
                if j < pos {
                    assert(pre[j] == e);
                } else if j > pos {
                    assert(pre[j - 1] == e);
                }
            }
            assert forall|e: Event<A>| pre.contains(e) || e == ev implies #[trigger] post.contains(
                e,
            ) by {
                if pre.contains(e) {
                    let j = choose|j: int| 0 <= j < pre.len() && pre[j] == e;
                    if j < pos {
                        assert(post[j] == e);
                    } else {
                        assert(post[j + 1] == e);
                    }
                } else {
                    assert(post[pos as int] == e);
                }
            }
        }
        id
    }

    /// Marks `event_id` void: firing it becomes a no-op.  Idempotent, and
    /// harmless for ids that already fired or were never issued.
    pub fn cancel(&mut self, event_id: i64)
        requires
            old(self).wf(),
        ensures
            final(self).wf(),
            final(self).queue() == old(self).queue(),
            final(self).next_id_spec() == old(self).next_id_spec(),
            forall|i: i64|
                #[trigger] final(self).is_cancelled(i) == (old(self).is_cancelled(i) || i
                    == event_id),
    {
        let mut j: usize = 0;
        while j < self.cancelled.len() && self.cancelled[j] != event_id
            invariant
                j <= self.cancelled@.len(),
                forall|k: int| 0 <= k < j ==> self.cancelled@[k] != event_id,
            decreases self.cancelled@.len() - j,
        {
            j = j + 1;
        }
        if j == self.cancelled.len() {
            let ghost pre = self.cancelled@;
            self.cancelled.push(event_id);
            proof {
                assert forall|i: i64|
                    #[trigger] self.cancelled@.contains(i) == (pre.contains(i) || i
                        == event_id) by {
                    let post = self.cancelled@;
                    if pre.contains(i) {
                        let k = choose|k: int| 0 <= k < pre.len() && pre[k] == i;
                        assert(post[k] == i);
                    }
                    if i == event_id {
                        assert(post[pre.len() as int] == i);
                    }
                    if post.contains(i) {
                        let k = choose|k: int| 0 <= k < post.len() && post[k] == i;
                        if k < pre.len() {
                            assert(pre[k] == i);
                        }
                    }
                }
            }
        }
    }

    /// Pops the earliest pending event.  Returns its time and action, or
    /// `None` when the queue is empty or the popped event had been
    /// cancelled (in which case its cancellation mark is consumed).
    pub fn advance(&mut self) -> (r: Option<(u64, A)>)
        requires
            old(self).wf(),
        ensures
            final(self).wf(),
            final(self).next_id_spec() == old(self).next_id_spec(),
            old(self).queue().len() == 0 ==> r is None && *final(self) == *old(self),
            old(self).queue().len() > 0 ==> ({
                let first = old(self).queue()[0];
                &&& final(self).queue() == old(self).queue().drop_first()
                &&& (old(self).is_cancelled(first.id) ==> r is None && (forall|i: i64|
                    #[trigger] final(self).is_cancelled(i) == (old(self).is_cancelled(i) && i
                        != first.id)))
                &&& (!old(self).is_cancelled(first.id) ==> r == Some((first.time, first.action))
                    && (forall|i: i64|
                    #[trigger] final(self).is_cancelled(i) == old(self).is_cancelled(i)))
            }),
    {
        if self.events.len() == 0 {
            return None;
        }
        let ghost pre_events = self.events@;
        let ev = self.events.remove(0);
        proof {
            pre_events.remove_ensures(0);
            assert(self.events@ =~= pre_events.drop_first());
        }
        let mut j: usize = 0;
        while j < self.cancelled.len() && self.cancelled[j] != ev.id
            invariant
                j <= self.cancelled@.len(),
                forall|k: int| 0 <= k < j ==> self.cancelled@[k] != ev.id,
            decreases self.cancelled@.len() - j,
        {
            j = j + 1;
        }
        if j < self.cancelled.len() {
            let ghost pre = self.cancelled@;
            let ghost fi = j as int;
            self.cancelled.remove(j);
            proof {
                pre.remove_ensures(fi);
                assert(pre[fi] == ev.id);
                assert(pre.contains(ev.id));
                assert forall|i: i64|
                    #[trigger] self.cancelled@.contains(i) == (pre.contains(i) && i != ev.id) by {
                    let post = self.cancelled@;
                    if post.contains(i) {
                        let k = choose|k: int| 0 <= k < post.len() && post[k] == i;
                        if k < fi {
                            assert(pre[k] == i);
                            assert(i != ev.id) by {
                                if i == ev.id {
                                    assert(pre[k] == pre[fi]);
                                }
                            }
                        } else {
                            assert(pre[k + 1] == i);
                            assert(i != ev.id) by {
                                if i == ev.id {
                                    assert(pre[k + 1] == pre[fi]);
                                }
                            }
                        }
                    }
                    if pre.contains(i) && i != ev.id {
                        let k = choose|k: int| 0 <= k < pre.len() && pre[k] == i;
                        if k < fi {
                            assert(post[k] == i);
                        } else {
                            assert(k != fi);
                            assert(post[k - 1] == i);
                        }
                    }
                }
            }
            None
        } else {
            proof {
                assert(!self.cancelled@.contains(ev.id));
            }
            Some((ev.time, ev.action))
        }
    }

    /// The number of not-yet-fired events, cancelled ones included.
    pub fn pending_count(&self) -> (r: usize)
        ensures
            r == self.queue().len(),
    {
        self.events.len()
    }

    /// Pending events fire in nondecreasing time order: an event nearer the
    /// front of the queue, which `advance` pops first, is due no later than
    /// any event behind it.
    pub proof fn lemma_queue_time_ordered(&self)
        requires
            self.wf(),
        ensures
            forall|j: int, k: int|
                0 <= j <= k < self.queue().len() ==> self.queue()[j].time <= self.queue()[k].time,
    {
        assert forall|j: int, k: int| 0 <= j <= k < self.queue().len() implies self.queue()[j].time
            <= self.queue()[k].time by {
            if j < k {
                assert(fires_before(
                    self.events@[j].time,
                    self.events@[j].id,
                    self.events@[k].time,
                    self.events@[k].id,
                ));
            }
        }
    }
}

impl<A> Default for EventLoop<A> {
    /// Same as [`EventLoop::new`].
    fn default() -> (r: Self)
        ensures
            r.wf(),
            r.queue().len() == 0,
            r.next_id_spec() == 0,
            forall|i: i64| !r.is_cancelled(i),
    {
        EventLoop::new()
    }
}

} // verus!
