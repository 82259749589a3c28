use vstd::prelude::*;

use crate::frame::Frame;

verus! {

/// Default bound of a connection's outbound queue.
pub const DEFAULT_QUEUE_CAPACITY: usize = 256;

/// A frame waiting to be written, with whether it may never be evicted and the order in
/// which it was queued.
#[derive(Debug)]
pub struct Queued {
    pub frame: Frame,
    pub critical: bool,
    pub stamp: u64,
}

/// What queuing a frame did.
#[derive(Debug, Clone, Copy, PartialEq, Eq, Structural)]
pub enum PushOutcome {
    /// The frame was queued.
    Queued,
    /// The frame was queued after the oldest evictable frame was dropped.
    QueuedEvicting,
    /// The queue was full of frames that may not be evicted: the frame was dropped.
    Dropped,
}

/// A connection's bounded outbound queue. When it is full, the oldest frame that is not
/// critical makes room; critical frames (pings, start and token packets, disconnects) are
/// never evicted and are queued even past the bound.
#[derive(Debug)]
pub struct OutboundQueue {
    items: Vec<Queued>,
    capacity: usize,
    next_stamp: u64,
    evicted: u64,
}

/// Frames leave in the order they were queued: stamps increase along the queue.
pub open spec fn stamps_increasing(q: Seq<Queued>) -> bool {
    forall|i: int, j: int| 0 <= i < j < q.len() ==> #[trigger] q[i].stamp < #[trigger] q[j].stamp
}

/// The first frame that may be evicted.
pub open spec fn is_first_evictable(q: Seq<Queued>, i: int) -> bool {
    &&& 0 <= i < q.len()
    &&& !q[i].critical
    &&& forall|k: int| 0 <= k < i ==> #[trigger] q[k].critical
}

pub open spec fn has_evictable(q: Seq<Queued>) -> bool {
    exists|i: int| 0 <= i < q.len() && !#[trigger] q[i].critical
}

impl OutboundQueue {
    pub closed spec fn items(&self) -> Seq<Queued> {
        self.items@
    }

    pub closed spec fn capacity(&self) -> nat {
        self.capacity as nat
    }

    pub closed spec fn next_stamp(&self) -> u64 {
        self.next_stamp
    }

    pub closed spec fn evicted(&self) -> u64 {
        self.evicted
    }

    /// Every queued stamp is below the next one, and stamps increase along the queue.
    pub open spec fn wf(&self) -> bool {
        &&& stamps_increasing(self.items())
        &&& forall|i: int| 0 <= i < self.items().len() ==> #[trigger] self.items()[i].stamp < self.next_stamp()
    }

    /// An empty queue holding at most `capacity` evictable frames.
    pub fn new(capacity: usize) -> (r: OutboundQueue)
        ensures
            r.wf(),
            r.items().len() == 0,
            r.capacity() == capacity,
            r.next_stamp() == 0,
            r.evicted() == 0,
    {
        OutboundQueue { items: Vec::new(), capacity, next_stamp: 0, evicted: 0 }
    }

    pub fn len(&self) -> (r: usize)
        ensures
            r == self.items().len(),
    {
        self.items.len()
    }

    /// How many frames were evicted so far.
    pub fn evicted_count(&self) -> (r: u64)
        ensures
            r == self.evicted(),
    {
        self.evicted
    }

    /// Queues `frame`. Below the bound, or for a critical frame, it is appended. At the bound,
    /// the oldest evictable frame is dropped to make room; when there is none, an evictable
    /// `frame` is dropped instead.
    pub fn push(&mut self, frame: Frame, critical: bool) -> (r: PushOutcome)
        requires
            old(self).wf(),
        ensures
            final(self).wf(),
            final(self).capacity() == old(self).capacity(),
            old(self).next_stamp() == u64::MAX ==> r == PushOutcome::Dropped && final(self).items() == old(self).items(),
            old(self).next_stamp() < u64::MAX ==> {
                let q = old(self).items();
                let x = Queued { frame, critical, stamp: old(self).next_stamp() };
                if q.len() < old(self).capacity() || (critical && !has_evictable(q)) {
                    r == PushOutcome::Queued && final(self).items() == q.push(x)
                } else if has_evictable(q) {
                    r == PushOutcome::QueuedEvicting && exists|i: int|
                        is_first_evictable(q, i) && final(self).items() == q.remove(i).push(x)
                } else {
                    r == PushOutcome::Dropped && final(self).items() == q
                }
            },
    {
        if self.next_stamp == u64::MAX {
            return PushOutcome::Dropped;
        }
        let stamp = self.next_stamp;
        let ghost q = self.items@;
        let mut outcome = PushOutcome::Queued;
        if self.items.len() >= self.capacity {
            let mut i: usize = 0;
            while i < self.items.len() && self.items[i].critical
                invariant
                    i <= self.items.len(),
                    self.items@ == q,
                    forall|k: int| 0 <= k < i ==> #[trigger] q[k].critical,
                decreases self.items.len() - i,
            {
                i = i + 1;
            }
            if i < self.items.len() {
                let _ = self.items.remove(i);
                self.evicted = if self.evicted < u64::MAX {
                    self.evicted + 1
                } else {
                    self.evicted
                };
                outcome = PushOutcome::QueuedEvicting;
                proof {
                    assert(is_first_evictable(q, i as int));
                    assert(has_evictable(q));
                }
            } else if !critical {
                proof {
                    assert forall|k: int| 0 <= k < q.len() implies #[trigger] q[k].critical by {
                    }
                }
                return PushOutcome::Dropped;
            } else {
                proof {
                    assert forall|k: int| 0 <= k < q.len() implies #[trigger] q[k].critical by {
                    }
                }
            }
        }
        let ghost before = self.items@;
        self.items.push(Queued { frame, critical, stamp });
        self.next_stamp = stamp + 1;
        proof {
            let n = self.items@;
            assert forall|a: int, b: int| 0 <= a < b < n.len() implies #[trigger] n[a].stamp < #[trigger] n[b].stamp by {
                if b < n.len() - 1 {
                    if outcome == PushOutcome::QueuedEvicting {
                        let i = choose|i: int| is_first_evictable(q, i) && before == q.remove(i);
                        let a0 = if a < i { a } else { a + 1 };
                        let b0 = if b < i { b } else { b + 1 };
                        assert(n[a] == q[a0]);
                        assert(n[b] == q[b0]);
                    }
                } else {
                    if outcome == PushOutcome::QueuedEvicting {
                        let i = choose|i: int| is_first_evictable(q, i) && before == q.remove(i);
                        let a0 = if a < i { a } else { a + 1 };
                        assert(n[a] == q[a0]);
                    }
                }
            }
            assert forall|a: int| 0 <= a < n.len() implies #[trigger] n[a].stamp < stamp + 1 by {
                if a < n.len() - 1 && outcome == PushOutcome::QueuedEvicting {
                    let i = choose|i: int| is_first_evictable(q, i) && before == q.remove(i);
                    let a0 = if a < i { a } else { a + 1 };
                    assert(n[a] == q[a0]);
                }
            }
            if outcome == PushOutcome::Queued {
                if !(q.len() < self.capacity) {
                    assert(!has_evictable(q));
                }
            }
        }
        outcome
    }

    /// Takes the oldest queued frame.
    pub fn pop(&mut self) -> (r: Option<Queued>)
        requires
            old(self).wf(),
        ensures
            final(self).wf(),
            final(self).capacity() == old(self).capacity(),
            final(self).next_stamp() == old(self).next_stamp(),
            old(self).items().len() == 0 ==> r is None && final(self).items() == old(self).items(),
            old(self).items().len() > 0 ==> r == Some(old(self).items()[0]) && final(self).items()
                == old(self).items().subrange(1, old(self).items().len() as int),
    {
        if self.items.len() == 0 {
            return None;
        }
        let ghost q = self.items@;
        let x = self.items.remove(0);
        assert(self.items@ =~= q.subrange(1, q.len() as int));
        Some(x)
    }
}

/// A frame queued before another leaves before it: with increasing stamps, the frame at a
/// lower position always has the lower stamp, and popping takes the lowest.
pub proof fn lemma_queue_fifo(q: Seq<Queued>, i: int, j: int)
    requires
        stamps_increasing(q),
        0 <= i < q.len(),
        0 <= j < q.len(),
        q[i].stamp < q[j].stamp,
    ensures
        i < j,
{
    if j <= i {
        if j < i {
            assert(q[j].stamp < q[i].stamp);
        }
    }
}

/// A recipient's mailbox: their player id and their connection's queue.
#[derive(Debug)]
pub struct Mailbox {
    pub player_id: i32,
    pub queue: OutboundQueue,
}

/// Copies a frame.
pub fn copy_frame(f: &Frame) -> (r: Frame)
    ensures
        r.type_id == f.type_id,
        r.payload@ == f.payload@,
{
    let mut payload: Vec<u8> = Vec::new();
    let mut i: usize = 0;
    while i < f.payload.len()
        invariant
            i <= f.payload.len(),
            payload@ == f.payload@.subrange(0, i as int),
        decreases f.payload.len() - i,
    {
        payload.push(f.payload[i]);
        assert(f.payload@.subrange(0, i + 1) =~= f.payload@.subrange(0, i as int).push(f.payload@[i as int]));
        i = i + 1;
    }
    assert(f.payload@.subrange(0, f.payload.len() as int) =~= f.payload@);
    Frame { type_id: f.type_id, payload }
}

/// Whether `x` holds a copy of `f` with the given flag.
pub open spec fn holds_copy(x: Queued, f: Frame, critical: bool) -> bool {
    x.frame.type_id == f.type_id && x.frame.payload@ == f.payload@ && x.critical == critical
}

/// Queues a copy of `frame` on the mailbox of each player in `targets`; players without a
/// mailbox are skipped. Returns how many mailboxes received it. In every receiving mailbox,
/// the copy is queued after everything queued before, so two broadcasts reach each
/// recipient in the order they were made.
pub fn broadcast(boxes: &mut Vec<Mailbox>, targets: &Vec<i32>, frame: &Frame, critical: bool) -> (r: usize)
    requires
        forall|k: int| 0 <= k < old(boxes)@.len() ==> #[trigger] old(boxes)@[k].queue.wf(),
    ensures
        final(boxes)@.len() == old(boxes)@.len(),
        r <= final(boxes)@.len(),
        forall|k: int|
            #![trigger final(boxes)@[k]]
            0 <= k < final(boxes)@.len() ==> {
                let before = old(boxes)@[k];
                let after = final(boxes)@[k];
                &&& after.player_id == before.player_id
                &&& after.queue.wf()
                &&& !targets@.contains(before.player_id) ==> after.queue.items() == before.queue.items()
                &&& targets@.contains(before.player_id) && before.queue.next_stamp() < u64::MAX
                    && (before.queue.items().len() < before.queue.capacity() || critical
                    || has_evictable(before.queue.items())) ==> {
                    let n = after.queue.items();
                    &&& n.len() > 0
                    &&& holds_copy(n.last(), *frame, critical)
                    &&& forall|a: int| 0 <= a < n.len() - 1 ==> #[trigger] n[a].stamp < n.last().stamp
                }
            },
{
    let mut count: usize = 0;
    let mut k: usize = 0;
    let ghost start = boxes@;
    while k < boxes.len()
        invariant
            boxes@.len() == start.len(),
            k <= boxes.len(),
            count <= k,
            forall|a: int| 0 <= a < start.len() ==> #[trigger] start[a].queue.wf(),
            forall|a: int| k <= a < boxes@.len() ==> #[trigger] boxes@[a] == start[a],
            forall|a: int|
                #![trigger boxes@[a]]
                0 <= a < k ==> {
                    let before = start[a];
                    let after = boxes@[a];
                    &&& after.player_id == before.player_id
                    &&& after.queue.wf()
                    &&& !targets@.contains(before.player_id) ==> after.queue.items() == before.queue.items()
                    &&& targets@.contains(before.player_id) && before.queue.next_stamp() < u64::MAX
                        && (before.queue.items().len() < before.queue.capacity() || critical
                        || has_evictable(before.queue.items())) ==> {
                        let n = after.queue.items();
                        &&& n.len() > 0
                        &&& holds_copy(n.last(), *frame, critical)
                        &&& forall|b: int| 0 <= b < n.len() - 1 ==> #[trigger] n[b].stamp < n.last().stamp
                    }
                },
        decreases boxes.len() - k,
    {
        let id = boxes[k].player_id;
        if contains_id(targets, id) {
            let mut mb = boxes.remove(k);
            let copy = copy_frame(frame);
            let ghost q0 = mb.queue.items();
            let _ = mb.queue.push(copy, critical);
            proof {
                let n = mb.queue.items();
                if q0.len() < mb.queue.capacity() || critical || has_evictable(q0) {
                    if start[k as int].queue.next_stamp() < u64::MAX {
                        assert forall|b: int| 0 <= b < n.len() - 1 implies #[trigger] n[b].stamp < n.last().stamp by {
                            if !(q0.len() < mb.queue.capacity() || (critical && !has_evictable(q0))) {
                                let i = choose|i: int| is_first_evictable(q0, i) && n == q0.remove(i).push(n.last());
                                let b0 = if b < i { b } else { b + 1 };
                                assert(n[b] == q0[b0]);
                            } else {
                                assert(n[b] == q0[b]);
                            }
                        }
                    }
                }
            }
            boxes.insert(k, mb);
            count = count + 1;
        }
        k = k + 1;
    }
    count
}

/// Whether `ids` holds `id`.
pub fn contains_id(ids: &Vec<i32>, id: i32) -> (r: bool)
    ensures
        r == ids@.contains(id),
{
    let mut i: usize = 0;
    while i < ids.len()
        invariant
            i <= ids.len(),
            forall|k: int| 0 <= k < i ==> ids@[k] != id,
        decreases ids.len() - i,
    {
        if ids[i] == id {
            assert(ids@[i as int] == id);
            return true;
        }
        i = i + 1;
    }
    false
}

/// A packet for a player who has no connection.
#[derive(Debug, Clone, Copy, PartialEq, Eq, Structural)]
pub struct NotConnected;

/// Queues `frame` on the mailbox of `player_id`; `NotConnected` when they have none.
pub fn send_packet(boxes: &mut Vec<Mailbox>, player_id: i32, frame: Frame, critical: bool) -> (r: Result<PushOutcome, NotConnected>)
    requires
        forall|k: int| 0 <= k < old(boxes)@.len() ==> #[trigger] old(boxes)@[k].queue.wf(),
    ensures
        final(boxes)@.len() == old(boxes)@.len(),
        forall|k: int| 0 <= k < final(boxes)@.len() ==> #[trigger] final(boxes)@[k].queue.wf(),
        r is Err <==> forall|k: int| 0 <= k < old(boxes)@.len() ==> #[trigger] old(boxes)@[k].player_id != player_id,
        r is Err ==> final(boxes)@ == old(boxes)@,
        r matches Ok(outcome) ==> exists|k: int|
            0 <= k < old(boxes)@.len() && old(boxes)@[k].player_id == player_id
                && (forall|m: int| 0 <= m < k ==> #[trigger] old(boxes)@[m].player_id != player_id)
                && final(boxes)@ == old(boxes)@.update(k, final(boxes)@[k])
                && final(boxes)@[k].player_id == player_id
                && (outcome != PushOutcome::Dropped ==> holds_copy(final(boxes)@[k].queue.items().last(), frame, critical)),
{
    let mut k: usize = 0;
    while k < boxes.len() && boxes[k].player_id != player_id
        invariant
            k <= boxes.len(),
            forall|m: int| 0 <= m < k ==> #[trigger] boxes@[m].player_id != player_id,
        decreases boxes.len() - k,
    {
        k = k + 1;
    }
    if k == boxes.len() {
        return Err(NotConnected);
    }
    let ghost before = boxes@;
    let mut mb = boxes.remove(k);
    let ghost f0 = frame;
    let outcome = mb.queue.push(frame, critical);
    proof {
        if outcome != PushOutcome::Dropped {
            assert(mb.queue.items().last() == (Queued { frame: f0, critical, stamp: mb.queue.items().last().stamp }));
        }
    }
    boxes.insert(k, mb);
    proof {
        assert(boxes@ =~= before.update(k as int, boxes@[k as int]));
        assert forall|a: int| 0 <= a < boxes@.len() implies #[trigger] boxes@[a].queue.wf() by {
            if a != k {
                assert(boxes@[a] == before[a]);
            }
        }
    }
    Ok(outcome)
}

} // verus!
