//! Bounded queues between the workers of a connection. A queue of messages
//! to send refuses what does not fit, so that the slow peer can be dropped;
//! a queue of messages to deliver makes room by dropping its oldest message,
//! and counts what it dropped.

use vstd::prelude::*;
use crate::tcpros::frame::bodies_of;

verus! {

/// How many messages a queue holds unless told otherwise.
pub const DEFAULT_LIMIT: usize = 8;

/// Messages in the order of their arrival, at most `limit` of them.
pub struct Queue {
    items: Vec<Vec<u8>>,
    limit: usize,
    dropped: u64,
}

/// What the contracts say of a queue: its messages, oldest first, its limit,
/// and how many messages it has dropped. The count stops at the largest
/// number it can hold.
pub struct QueueModel {
    pub items: Seq<Seq<u8>>,
    pub limit: nat,
    pub dropped: nat,
}

impl View for Queue {
    type V = QueueModel;

    closed spec fn view(&self) -> QueueModel {
        QueueModel {
            items: bodies_of(self.items@),
            limit: self.limit as nat,
            dropped: self.dropped as nat,
        }
    }
}

/// A queue never holds more than its limit.
pub open spec fn within(m: QueueModel) -> bool {
    m.items.len() <= m.limit
}

/// One more dropped message, as far as the count goes.
pub open spec fn counted(dropped: nat) -> nat {
    if dropped < u64::MAX {
        dropped + 1
    } else {
        dropped
    }
}

/// The queue after `item` was handed to it for delivery: where there is no
/// room the oldest message makes way and is counted; a queue that can hold
/// nothing drops the item itself.
pub open spec fn delivered(m: QueueModel, item: Seq<u8>) -> QueueModel {
    if m.items.len() < m.limit {
        QueueModel { items: m.items.push(item), ..m }
    } else if m.limit == 0 {
        QueueModel { dropped: counted(m.dropped), ..m }
    } else {
        QueueModel { items: m.items.drop_first().push(item), dropped: counted(m.dropped), ..m }
    }
}

/// The queue after `item` was offered to it: at its end where there is room,
/// else unchanged.
pub open spec fn offered(m: QueueModel, item: Seq<u8>) -> QueueModel {
    if m.items.len() < m.limit {
        QueueModel { items: m.items.push(item), ..m }
    } else {
        m
    }
}

/// The queue after its oldest message was taken out.
pub open spec fn popped(m: QueueModel) -> QueueModel {
    if m.items.len() > 0 {
        QueueModel { items: m.items.drop_first(), ..m }
    } else {
        m
    }
}

/// One step in the life of a queue.
pub enum Step {
    /// A message is offered for sending.
    Offer(Seq<u8>),
    /// A message is handed in for delivery.
    Deliver(Seq<u8>),
    /// The oldest message is taken out, if there is one.
    Pop,
}

/// A queue with the messages that were handed to it, without those that
/// were offered and refused, and the messages that were taken out of it,
/// each list in its order.
pub struct Trace {
    pub queue: QueueModel,
    pub handed: Seq<Seq<u8>>,
    pub taken: Seq<Seq<u8>>,
}

/// What has become of an empty queue with the given limit after the first
/// `n` of the given steps.
pub open spec fn after(limit: nat, steps: Seq<Step>, n: nat) -> Trace
    decreases n,
{
    if n == 0 {
        Trace {
            queue: QueueModel { items: Seq::empty(), limit, dropped: 0 },
            handed: Seq::empty(),
            taken: Seq::empty(),
        }
    } else {
        let t = after(limit, steps, (n - 1) as nat);
        match steps[n - 1] {
            Step::Offer(item) => Trace {
                queue: offered(t.queue, item),
                handed: if t.queue.items.len() < t.queue.limit {
                    t.handed.push(item)
                } else {
                    t.handed
                },
                taken: t.taken,
            },
            Step::Deliver(item) => Trace {
                queue: delivered(t.queue, item),
                handed: t.handed.push(item),
                taken: t.taken,
            },
            Step::Pop => Trace {
                queue: popped(t.queue),
                handed: t.handed,
                taken: if t.queue.items.len() > 0 {
                    t.taken.push(t.queue.items[0])
                } else {
                    t.taken
                },
            },
        }
    }
}

/// As long as a queue has dropped nothing, what was taken out of it,
/// followed by what is still in it, is what was handed to it: the messages
/// come out in the order in which they went in, none twice and none skipped.
/// A queue that is only offered messages never drops one.
pub proof fn lemma_first_in_first_out(limit: nat, steps: Seq<Step>, n: nat)
    requires
        n <= steps.len(),
    ensures
        within(after(limit, steps, n).queue),
        after(limit, steps, n).queue.dropped == 0 ==> after(limit, steps, n).taken + after(
            limit,
            steps,
            n,
        ).queue.items == after(limit, steps, n).handed,
        after(limit, steps, n).queue.dropped == 0 ==> after(limit, steps, n).taken.is_prefix_of(
            after(limit, steps, n).handed,
        ),
        (forall|i: int| 0 <= i < n ==> !(#[trigger] steps[i] is Deliver)) ==> after(
            limit,
            steps,
            n,
        ).queue.dropped == 0,
    decreases n,
{
    let now = after(limit, steps, n);
    if n == 0 {
        assert(now.taken + now.queue.items =~= now.handed);
    } else {
        lemma_first_in_first_out(limit, steps, (n - 1) as nat);
        let t = after(limit, steps, (n - 1) as nat);
        if now.queue.dropped == 0 {
            assert(t.queue.dropped == 0);
            assert(now.taken + now.queue.items =~= now.handed);
        }
        if forall|i: int| 0 <= i < n ==> !(#[trigger] steps[i] is Deliver) {
            assert(!(steps[n - 1] is Deliver));
        }
    }
    if now.queue.dropped == 0 {
        assert(now.taken =~= now.handed.subrange(0, now.taken.len() as int));
    }
}

impl Queue {
    /// The queue holds no more than its limit.
    pub closed spec fn wf(&self) -> bool {
        self.items@.len() <= self.limit
    }

    /// A well-formed queue is within its limit.
    pub proof fn lemma_wf_within(&self)
        requires
            self.wf(),
        ensures
            within(self@),
    {
    }

    /// An empty queue for at most `limit` messages.
    pub fn new(limit: usize) -> (r: Queue)
        ensures
            r.wf(),
            r@ == (QueueModel { items: Seq::empty(), limit: limit as nat, dropped: 0 }),
    {
        let r = Queue { items: Vec::new(), limit, dropped: 0 };
        assert(r@.items =~= Seq::empty());
        r
    }

    /// The number of messages in the queue.
    pub fn len(&self) -> (r: usize)
        ensures
            r == self@.items.len(),
    {
        self.items.len()
    }

    /// How many messages the queue has dropped.
    pub fn dropped(&self) -> (r: u64)
        ensures
            r == self@.dropped,
    {
        self.dropped
    }

    /// Puts `item` at the end of the queue if there is room, and says whether
    /// there was. A queue without room stays as it is.
    pub fn offer(&mut self, item: Vec<u8>) -> (r: bool)
        requires
            old(self).wf(),
        ensures
            r == (old(self)@.items.len() < old(self)@.limit),
            final(self)@ == offered(old(self)@, item@),
            final(self).wf(),
    {
        if self.items.len() < self.limit {
            self.items.push(item);
            assert(self@.items =~= old(self)@.items.push(item@));
            true
        } else {
            false
        }
    }

    /// Puts `item` at the end of the queue, dropping the oldest message
    /// where there is no room.
    pub fn deliver(&mut self, item: Vec<u8>)
        requires
            old(self).wf(),
        ensures
            final(self)@ == delivered(old(self)@, item@),
            final(self).wf(),
    {
        if self.items.len() < self.limit {
            self.items.push(item);
            assert(self@.items =~= old(self)@.items.push(item@));
            return ;
        }
        if self.dropped < u64::MAX {
            self.dropped = self.dropped + 1;
        }
        if self.limit == 0 {
            return ;
        }
        let _ = self.items.remove(0);
        self.items.push(item);
        assert(self@.items =~= old(self)@.items.drop_first().push(item@));
    }

    /// Takes the oldest message out of the queue.
    pub fn pop(&mut self) -> (r: Option<Vec<u8>>)
        requires
            old(self).wf(),
        ensures
            match r {
                Some(item) => old(self)@.items.len() > 0 && item@ == old(self)@.items[0],
                None => old(self)@.items.len() == 0,
            },
            final(self)@ == popped(old(self)@),
            final(self).wf(),
    {
        if self.items.len() == 0 {
            return None;
        }
        let item = self.items.remove(0);
        assert(self@.items =~= old(self)@.items.drop_first());
        Some(item)
    }
}

} // verus!
