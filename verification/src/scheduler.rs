//! The transfer admission queue: priority-ordered waiting downloads and a
//! cap on how many run at once.

use vstd::prelude::*;
use crate::types::{DownloadId, DownloadOptions, Priority, priority_rank, spec_priority_rank};

verus! {

#[derive(Debug, Clone)]
pub struct QueuedDownload {
    pub id: DownloadId,
    pub options: DownloadOptions,
    pub priority: Priority,
}

/// Ordered by priority rank, most urgent first.
pub open spec fn sorted_by_rank(s: Seq<QueuedDownload>) -> bool {
    forall|i: int, j: int|
        #![trigger s[i], s[j]]
        0 <= i < j < s.len() ==> spec_priority_rank(s[i].priority) <= spec_priority_rank(
            s[j].priority,
        )
}

/// The queue with every entry of `id` removed, order otherwise kept.
pub open spec fn spec_without_id(s: Seq<QueuedDownload>, id: DownloadId) -> Seq<QueuedDownload>
    decreases s.len(),
{
    if s.len() == 0 {
        Seq::empty()
    } else {
        spec_without_id(s.drop_last(), id) + if s.last().id == id {
            Seq::<QueuedDownload>::empty()
        } else {
            seq![s.last()]
        }
    }
}

/// A bounded-concurrency queue of pending downloads, most urgent first.
pub struct DownloadQueue {
    queue: Vec<QueuedDownload>,
    max_concurrent: usize,
    active_count: usize,
}

impl DownloadQueue {
    pub closed spec fn q(self) -> Seq<QueuedDownload> {
        self.queue@
    }

    pub closed spec fn spec_max_concurrent(self) -> usize {
        self.max_concurrent
    }

    pub closed spec fn spec_active(self) -> usize {
        self.active_count
    }

    /// Entries are ordered by priority rank, most urgent first; equal ranks
    /// keep their arrival order.
    pub open spec fn wf(self) -> bool {
        sorted_by_rank(self.q())
    }

    pub fn new(max_concurrent: usize) -> (q: DownloadQueue)
        ensures
            q.wf(),
            q.q().len() == 0,
            q.spec_max_concurrent() == max_concurrent,
            q.spec_active() == 0,
    {
        DownloadQueue { queue: Vec::new(), max_concurrent, active_count: 0 }
    }

    /// Position where an entry of rank `r` is inserted: after every entry
    /// of rank at most `r`, before the first entry of a higher rank.
    fn insert_pos(&self, r: u8) -> (pos: usize)
        requires
            self.wf(),
        ensures
            pos <= self.q().len(),
            forall|j: int| 0 <= j < pos ==> spec_priority_rank((#[trigger] self.q()[j]).priority) <= r,
            pos < self.q().len() ==> spec_priority_rank(self.q()[pos as int].priority) > r,
    {
        let n = self.queue.len();
        for i in 0..n
            invariant
                n == self.q().len(),
                forall|j: int| 0 <= j < i ==> spec_priority_rank((#[trigger] self.q()[j]).priority) <= r,
        {
            if priority_rank(self.queue[i].priority) > r {
                return i;
            }
        }
        n
    }

    /// Inserts a waiting download behind its priority peers.
    pub fn enqueue(&mut self, download: QueuedDownload)
        requires
            old(self).wf(),
        ensures
            final(self).wf(),
            final(self).spec_max_concurrent() == old(self).spec_max_concurrent(),
            final(self).spec_active() == old(self).spec_active(),
            final(self).q().len() == old(self).q().len() + 1,
            exists|pos: int|
                {
                    &&& 0 <= pos <= old(self).q().len()
                    &&& final(self).q() == #[trigger] old(self).q().insert(pos, download)
                    &&& (forall|j: int|
                        0 <= j < pos ==> spec_priority_rank((#[trigger] old(self).q()[j]).priority)
                            <= spec_priority_rank(download.priority))
                    &&& (pos < old(self).q().len() ==> spec_priority_rank(
                        old(self).q()[pos].priority,
                    ) > spec_priority_rank(download.priority))
                },
    {
        let r = priority_rank(download.priority);
        let pos = self.insert_pos(r);
        let ghost pos_g = pos as int;
        self.queue.insert(pos, download);
        proof {
            assert(self.queue@ == old(self).q().insert(pos_g, download));
        }
    }

    /// Hands out the most urgent waiting download, counting it active, when
    /// the concurrency cap allows another one.
    pub fn dequeue(&mut self) -> (r: Option<QueuedDownload>)
        requires
            old(self).wf(),
        ensures
            final(self).wf(),
            final(self).spec_max_concurrent() == old(self).spec_max_concurrent(),
            old(self).spec_active() >= old(self).spec_max_concurrent() || old(self).q().len() == 0
                ==> r is None && *final(self) == *old(self),
            old(self).spec_active() < old(self).spec_max_concurrent() && old(self).q().len() > 0
                ==> (r matches Some(d) && d == old(self).q()[0] && final(self).q() == old(
                self,
            ).q().drop_first() && final(self).spec_active() == old(self).spec_active() + 1),
    {
        if self.active_count >= self.max_concurrent {
            return None;
        }
        if self.queue.len() == 0 {
            return None;
        }
        let d = self.queue.remove(0);
        self.active_count = self.active_count + 1;
        proof {
            assert(self.queue@ =~= old(self).q().drop_first());
        }
        Some(d)
    }

    /// Marks one running download finished, freeing a concurrency slot.
    pub fn complete(&mut self, _id: DownloadId)
        ensures
            final(self).q() == old(self).q(),
            final(self).spec_max_concurrent() == old(self).spec_max_concurrent(),
            final(self).spec_active() == if old(self).spec_active() > 0 {
                old(self).spec_active() - 1
            } else {
                0int
            },
    {
        if self.active_count > 0 {
            self.active_count = self.active_count - 1;
        }
    }

    /// Drops every waiting entry of the given download.
    pub fn cancel(&mut self, id: DownloadId)
        requires
            old(self).wf(),
        ensures
            final(self).wf(),
            final(self).spec_max_concurrent() == old(self).spec_max_concurrent(),
            final(self).spec_active() == old(self).spec_active(),
            final(self).q() == spec_without_id(old(self).q(), id),
    {
        let ghost orig = self.queue@;
        let n0 = self.queue.len();
        let mut i: usize = 0;
        let mut processed: usize = 0;
        while i < self.queue.len()
            invariant
                old(self).wf(),
                orig == old(self).q(),
                orig.len() == n0,
                processed <= orig.len(),
                self.queue@ =~= spec_without_id(orig.take(processed as int), id) + orig.skip(
                    processed as int,
                ),
                i == spec_without_id(orig.take(processed as int), id).len(),
                i <= self.queue@.len(),
                sorted_by_rank(self.queue@),
                self.max_concurrent == old(self).max_concurrent,
                self.active_count == old(self).active_count,
            decreases orig.len() - processed,
        {
            proof {
                assert(processed < orig.len());
                assert(orig.take(processed + 1).drop_last() =~= orig.take(processed as int));
                assert(orig.take(processed + 1).last() == orig[processed as int]);
                assert(self.queue@[i as int] == orig[processed as int]);
            }
            if dl_id_eq(self.queue[i].id, id) {
                self.queue.remove(i);
                proof {
                    assert(self.queue@ =~= spec_without_id(orig.take(processed + 1), id)
                        + orig.skip(processed + 1));
                }
            } else {
                i = i + 1;
                proof {
                    assert(self.queue@ =~= spec_without_id(orig.take(processed + 1), id)
                        + orig.skip(processed + 1));
                }
            }
            processed = processed + 1;
        }
        proof {
            assert(orig.take(processed as int) =~= orig);
            assert(self.queue@ =~= spec_without_id(orig, id));
        }
    }

    pub fn len(&self) -> (n: usize)
        ensures
            n == self.q().len(),
    {
        self.queue.len()
    }

    pub fn is_empty(&self) -> (b: bool)
        ensures
            b == (self.q().len() == 0),
    {
        self.queue.is_empty()
    }

    pub fn active_count(&self) -> (n: usize)
        ensures
            n == self.spec_active(),
    {
        self.active_count
    }

    pub fn can_start(&self) -> (b: bool)
        ensures
            b == (self.spec_active() < self.spec_max_concurrent()),
    {
        self.active_count < self.max_concurrent
    }

    pub fn set_max_concurrent(&mut self, max: usize)
        ensures
            final(self).q() == old(self).q(),
            final(self).spec_active() == old(self).spec_active(),
            final(self).spec_max_concurrent() == max,
    {
        self.max_concurrent = max;
    }

    /// Moves the first waiting entry of `id` to the place its new priority
    /// orders it at; without such an entry the queue is unchanged.
    pub fn reorder(&mut self, id: DownloadId, new_priority: Priority)
        requires
            old(self).wf(),
        ensures
            final(self).wf(),
            final(self).spec_max_concurrent() == old(self).spec_max_concurrent(),
            final(self).spec_active() == old(self).spec_active(),
            (forall|j: int| 0 <= j < old(self).q().len() ==> (#[trigger] old(self).q()[j]).id != id)
                ==> final(self).q() == old(self).q(),
            (exists|j: int| 0 <= j < old(self).q().len() && (#[trigger] old(self).q()[j]).id == id)
                ==> exists|pos: int, pos2: int|
                #![trigger old(self).q().remove(pos)[pos2]]
                {
                    let shrunk = old(self).q().remove(pos);
                    let moved = (QueuedDownload {
                        priority: new_priority,
                        ..old(self).q()[pos]
                    });
                    &&& 0 <= pos < old(self).q().len()
                    &&& old(self).q()[pos].id == id
                    &&& (forall|j: int| 0 <= j < pos ==> (#[trigger] old(self).q()[j]).id != id)
                    &&& 0 <= pos2 <= shrunk.len()
                    &&& final(self).q() == shrunk.insert(pos2, moved)
                    &&& (forall|j: int|
                        0 <= j < pos2 ==> spec_priority_rank((#[trigger] shrunk[j]).priority)
                            <= spec_priority_rank(new_priority))
                    &&& (pos2 < shrunk.len() ==> spec_priority_rank(shrunk[pos2].priority)
                        > spec_priority_rank(new_priority))
                },
    {
        let n = self.queue.len();
        let mut found: Option<usize> = None;
        for i in 0..n
            invariant
                n == self.q().len(),
                found is None ==> forall|j: int| 0 <= j < i ==> (#[trigger] self.q()[j]).id != id,
                found matches Some(p) ==> p < n && self.q()[p as int].id == id && (forall|j: int|
                    0 <= j < p ==> (#[trigger] self.q()[j]).id != id),
            {
            if found.is_none() && dl_id_eq(self.queue[i].id, id) {
                found = Some(i);
            }
        }
        if let Some(pos) = found {
            let ghost pos_g = pos as int;
            let d = self.queue.remove(pos);
            let moved = QueuedDownload { priority: new_priority, ..d };
            let r = priority_rank(new_priority);
            let pos2 = self.insert_pos(r);
            let ghost pos2_g = pos2 as int;
            self.queue.insert(pos2, moved);
            proof {
                assert(self.queue@ == old(self).q().remove(pos_g).insert(
                    pos2_g,
                    (QueuedDownload { priority: new_priority, ..old(self).q()[pos_g] }),
                ));
            }
        }
    }
}

fn dl_id_eq(a: DownloadId, b: DownloadId) -> (r: bool)
    ensures
        r == (a == b),
{
    a.0 == b.0
}

} // verus!
