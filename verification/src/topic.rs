//! A bounded broadcast topic for task snapshots.
//!
//! The producer publishes into a ring of fixed capacity; when the ring is
//! full the oldest snapshot is dropped, never the newest. Every subscriber
//! keeps its own cursor: a slow subscriber may miss intermediate snapshots,
//! but the latest published snapshot is always retained, so a subscriber
//! that keeps polling observes the final state.

use vstd::prelude::*;

use crate::task::TaskSnapshot;

verus! {

/// A bounded multi-subscriber topic with drop-oldest overflow.
pub struct ProgressTopic {
    pub capacity: usize,
    pub next_seq: u64,
    pub buffer: Vec<TaskSnapshot>,
}

/// One subscriber's position: the sequence number it will read next.
pub struct Subscriber {
    pub cursor: u64,
}

impl ProgressTopic {
    /// The sequence number of the oldest retained snapshot.
    pub open spec fn oldest(&self) -> int {
        self.next_seq - self.buffer@.len()
    }

    /// Well-formedness: the ring holds at most `capacity` snapshots, and
    /// never more than were ever published.
    pub open spec fn wf(&self) -> bool {
        &&& 1 <= self.capacity
        &&& self.buffer@.len() <= self.capacity
        &&& self.buffer@.len() <= self.next_seq
        &&& self.next_seq > 0 ==> self.buffer@.len() >= 1
    }

    /// An empty topic.
    pub fn new(capacity: usize) -> (r: ProgressTopic)
        requires
            capacity >= 1,
        ensures
            r.wf(),
            r.next_seq == 0,
            r.buffer@.len() == 0,
            r.capacity == capacity,
    {
        ProgressTopic { capacity, next_seq: 0, buffer: Vec::new() }
    }

    /// Publishes a snapshot: it becomes the newest retained one, and when
    /// the ring was full the oldest is dropped.
    pub fn publish(&mut self, item: TaskSnapshot)
        requires
            old(self).wf(),
            old(self).next_seq < u64::MAX,
        ensures
            final(self).wf(),
            final(self).capacity == old(self).capacity,
            final(self).next_seq == old(self).next_seq + 1,
            final(self).buffer@ == (if old(self).buffer@.len() == old(self).capacity {
                old(self).buffer@.drop_first().push(item)
            } else {
                old(self).buffer@.push(item)
            }),
            final(self).buffer@.len() >= 1,
            final(self).buffer@.last() == item,
    {
        if self.buffer.len() == self.capacity {
            self.buffer.remove(0);
            proof {
                assert(self.buffer@ =~= old(self).buffer@.drop_first());
            }
        }
        self.buffer.push(item);
        self.next_seq = self.next_seq + 1;
    }

    /// A new subscriber, positioned after everything published so far: it
    /// observes only future snapshots.
    pub fn subscribe(&self) -> (r: Subscriber)
        ensures
            r.cursor == self.next_seq,
    {
        Subscriber { cursor: self.next_seq }
    }

    /// What a poll at a cursor yields: nothing when the cursor has caught
    /// up; otherwise the snapshot at the cursor, or — when the cursor has
    /// lagged behind the ring — at the oldest retained position, together
    /// with the next cursor.
    pub open spec fn poll_spec(&self, cursor: u64) -> Option<(TaskSnapshot, int)> {
        if cursor >= self.next_seq {
            None
        } else {
            let start = if cursor < self.oldest() {
                self.oldest()
            } else {
                cursor as int
            };
            Some((self.buffer@[start - self.oldest()], start + 1))
        }
    }

    /// Polls the topic: hands back the subscriber's next snapshot, skipping
    /// to the oldest retained one after an overflow dropped what the
    /// subscriber had not read yet.
    pub fn poll(&self, sub: &mut Subscriber) -> (r: Option<TaskSnapshot>)
        requires
            self.wf(),
        ensures
            match self.poll_spec(old(sub).cursor) {
                None => r is None && final(sub).cursor == old(sub).cursor,
                Some((item, next)) => r == Some(item) && final(sub).cursor == next,
            },
    {
        if sub.cursor >= self.next_seq {
            return None;
        }
        let oldest: u64 = self.next_seq - (self.buffer.len() as u64);
        let start: u64 = if sub.cursor < oldest {
            oldest
        } else {
            sub.cursor
        };
        proof {
            assert(start - oldest < self.buffer@.len());
        }
        let idx: usize = (start - oldest) as usize;
        let item = self.buffer[idx].duplicate();
        sub.cursor = start + 1;
        proof {
            assert(self.buffer@[idx as int] == self.poll_spec(old(sub).cursor).unwrap().0);
        }
        Some(item)
    }
}

/// Law: a subscriber that is behind always receives something, each poll
/// advances its cursor, and a poll from the newest position yields the last
/// published snapshot — so a subscriber that keeps polling observes the
/// final state, however many intermediate snapshots overflow dropped.
pub proof fn lemma_lagging_subscriber_reaches_latest(t: ProgressTopic, cursor: u64)
    requires
        t.wf(),
        t.buffer@.len() >= 1,
        cursor < t.next_seq,
    ensures
        t.poll_spec(cursor) is Some,
        t.poll_spec(cursor).unwrap().1 > cursor || t.poll_spec(cursor).unwrap().1 > t.oldest(),
        t.poll_spec(cursor).unwrap().1 <= t.next_seq,
        cursor == t.next_seq - 1 ==> t.poll_spec(cursor).unwrap().0 == t.buffer@.last(),
{
}

} // verus!
