//! The funnel: merges the events of several input sources into one
//! totally ordered stream consumed by the engine loop.
//!
//! Sources stamp their events with arrival order; the funnel keeps the
//! pending events sorted by stamp, delivers the oldest first, and on a
//! tie keeps the order of arrival at the funnel, so no source starves
//! another. A lost source stops being served while the rest continue;
//! only total source loss closes the funnel.

use vstd::prelude::*;

use crate::event::Event;

verus! {

/// One event as produced by a source, tagged with the source and its
/// arrival stamp.
pub struct StampedEvent {
    pub source: usize,
    pub stamp: u64,
    pub event: Event,
}

/// Pending events are ordered by stamp, oldest first.
pub open spec fn sorted_by_stamp(q: Seq<StampedEvent>) -> bool {
    forall|a: int, b: int|
        0 <= a < b < q.len() ==> (#[trigger] q[a]).stamp <= (#[trigger] q[b]).stamp
}

/// Where a new event of the given stamp goes: after every pending event
/// with an equal or older stamp, keeping arrival order among ties.
pub open spec fn insert_pos(q: Seq<StampedEvent>, stamp: u64) -> int
    decreases q.len(),
{
    if q.len() == 0 {
        0
    } else if q.last().stamp <= stamp {
        q.len() as int
    } else {
        insert_pos(q.drop_last(), stamp)
    }
}

/// Every source is lost.
pub open spec fn all_lost(lost: Seq<bool>) -> bool {
    forall|i: int| 0 <= i < lost.len() ==> lost[i]
}

/// What one poll of the funnel yields.
pub enum FunnelOut {
    /// The oldest pending event across all sources.
    Delivered { event: Event, source: usize, stamp: u64 },
    /// No event is pending, but live sources remain.
    Pending,
    /// No event is pending and every source is lost: the funnel is done.
    Closed,
}

/// The funnel: the merged pending queue and the liveness of each
/// registered source.
pub struct Funnel {
    pub queue: Vec<StampedEvent>,
    pub lost: Vec<bool>,
}

impl Funnel {
    pub open spec fn wf(&self) -> bool {
        sorted_by_stamp(self.queue@)
    }

    /// A funnel over `sources` registered sources, all live, with
    /// nothing pending.
    pub fn new(sources: usize) -> (f: Funnel)
        ensures
            f.wf(),
            f.queue@.len() == 0,
            f.lost@.len() == sources,
            forall|i: int| 0 <= i < sources ==> !(#[trigger] f.lost@[i]),
    {
        let mut lost: Vec<bool> = Vec::new();
        let mut i: usize = 0;
        while i < sources
            invariant
                i <= sources,
                lost@.len() == i,
                forall|j: int| 0 <= j < i ==> !(#[trigger] lost@[j]),
            decreases sources - i,
        {
            lost.push(false);
            i += 1;
        }
        Funnel { queue: Vec::new(), lost }
    }

    /// A source hands one event in. Events of a lost or unregistered
    /// source are refused; an accepted event is merged into stamp order,
    /// after every pending event with an equal or older stamp.
    #[verifier::rlimit(30)]
    pub fn offer(&mut self, source: usize, stamp: u64, event: Event) -> (accepted: bool)
        requires
            old(self).wf(),
        ensures
            final(self).wf(),
            final(self).lost == old(self).lost,
            accepted == (source < old(self).lost@.len() && !old(self).lost@[source as int]),
            accepted ==> final(self).queue@ == old(self).queue@.insert(
                insert_pos(old(self).queue@, stamp),
                StampedEvent { source, stamp, event },
            ),
            !accepted ==> final(self).queue == old(self).queue,
    {
        if !(source < self.lost.len() && !self.lost[source]) {
            return false;
        }
        let ghost q0 = self.queue@;
        let mut pos: usize = self.queue.len();
        proof {
            assert(q0.take(pos as int) =~= q0);
        }
        while pos > 0 && self.queue[pos - 1].stamp > stamp
            invariant
                pos <= self.queue@.len(),
                self.queue@ == q0,
                insert_pos(q0, stamp) == insert_pos(q0.take(pos as int), stamp),
                forall|m: int| pos <= m < q0.len() ==> #[trigger] q0[m].stamp > stamp,
            decreases pos,
        {
            proof {
                assert(q0.take(pos as int).drop_last() =~= q0.take(pos as int - 1));
                assert(q0.take(pos as int).last() == q0[pos as int - 1]);
            }
            pos -= 1;
        }
        proof {
            assert(q0.take(self.queue@.len() as int) =~= q0);
            if pos > 0 {
                assert(q0.take(pos as int).last() == q0[pos as int - 1]);
                assert(insert_pos(q0.take(pos as int), stamp) == pos as int);
            } else {
                assert(q0.take(0).len() == 0);
            }
        }
        let e = StampedEvent { source, stamp, event };
        self.queue.insert(pos, e);
        proof {
            let q1 = self.queue@;
            assert forall|a: int, b: int| 0 <= a < b < q1.len() implies (#[trigger] q1[a]).stamp
                <= (#[trigger] q1[b]).stamp by {
                if a < pos && b < pos {
                    assert(q1[a] == q0[a] && q1[b] == q0[b]);
                } else if a < pos && b == pos {
                    assert(q1[a] == q0[a]);
                    assert(q0[pos - 1].stamp <= stamp);
                    assert(q0[a].stamp <= q0[pos - 1].stamp);
                } else if a < pos && b > pos {
                    assert(q1[a] == q0[a] && q1[b] == q0[b - 1]);
                } else if a == pos {
                    assert(q1[b] == q0[b - 1]);
                } else {
                    assert(q1[a] == q0[a - 1] && q1[b] == q0[b - 1]);
                }
            }
        }
        true
    }

    /// Delivers the oldest pending event: its stamp is no newer than any
    /// event still pending, across all sources. With nothing pending the
    /// funnel reports whether live sources remain.
    pub fn next_event(&mut self) -> (r: FunnelOut)
        requires
            old(self).wf(),
        ensures
            final(self).wf(),
            final(self).lost == old(self).lost,
            old(self).queue@.len() > 0 ==> {
                let head = old(self).queue@[0];
                &&& r matches FunnelOut::Delivered { event, source, stamp } && event == head.event
                    && source == head.source && stamp == head.stamp
                &&& final(self).queue@ == old(self).queue@.remove(0)
                &&& forall|m: int|
                    0 <= m < final(self).queue@.len() ==> head.stamp <= (
                    #[trigger] final(self).queue@[m]).stamp
            },
            old(self).queue@.len() == 0 ==> {
                &&& final(self).queue == old(self).queue
                &&& (r matches FunnelOut::Closed) == all_lost(old(self).lost@)
                &&& (r matches FunnelOut::Pending) == !all_lost(old(self).lost@)
            },
    {
        if self.queue.len() > 0 {
            let e = self.queue.remove(0);
            return FunnelOut::Delivered { event: e.event, source: e.source, stamp: e.stamp };
        }
        proof {
            assert(self.queue@.len() == 0);
        }
        let mut i: usize = 0;
        while i < self.lost.len()
            invariant
                i <= self.lost@.len(),
                self.wf(),
                self.queue == old(self).queue,
                self.lost == old(self).lost,
                old(self).queue@.len() == 0,
                forall|j: int| 0 <= j < i ==> self.lost@[j],
            decreases self.lost@.len() - i,
        {
            if !self.lost[i] {
                return FunnelOut::Pending;
            }
            i += 1;
        }
        FunnelOut::Closed
    }

    /// Marks one source as lost. Its pending events stay deliverable;
    /// it is simply never served again. Reports whether every source is
    /// now lost, which the engine treats as fatal.
    pub fn mark_lost(&mut self, source: usize) -> (all_gone: bool)
        requires
            old(self).wf(),
        ensures
            final(self).wf(),
            final(self).queue == old(self).queue,
            source < old(self).lost@.len() ==> final(self).lost@ == old(self).lost@.update(
                source as int,
                true,
            ),
            source >= old(self).lost@.len() ==> final(self).lost == old(self).lost,
            all_gone == all_lost(final(self).lost@),
    {
        if source < self.lost.len() {
            self.lost[source] = true;
        }
        let ghost lost1 = self.lost@;
        let mut i: usize = 0;
        while i < self.lost.len()
            invariant
                i <= self.lost@.len(),
                self.wf(),
                self.queue == old(self).queue,
                self.lost@ == lost1,
                source < old(self).lost@.len() ==> lost1 == old(self).lost@.update(
                    source as int,
                    true,
                ),
                source >= old(self).lost@.len() ==> self.lost == old(self).lost,
                forall|j: int| 0 <= j < i ==> self.lost@[j],
            decreases self.lost@.len() - i,
        {
            if !self.lost[i] {
                return false;
            }
            i += 1;
        }
        true
    }
}

} // verus!
