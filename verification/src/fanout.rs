//! Single-producer, multi-subscriber alert broadcast with a bounded buffer.
//! Publishing never blocks: a subscriber that falls more than the buffer
//! size behind observes a lag signal naming how many alerts it missed, and
//! resynchronizes to the oldest alert still buffered.
use vstd::prelude::*;

use crate::telemetry::{Alert, AlertModel};

verus! {

/// What one poll of a subscription yields.
#[derive(Debug)]
pub enum RecvOutcome {
    /// The next alert, in publish order.
    Received(Alert),
    /// The subscriber fell behind and missed this many alerts; its cursor
    /// now points at the oldest alert still buffered.
    Lagged(u64),
    /// Nothing published beyond this subscriber's cursor yet.
    Empty,
}

/// The broadcast: the last `capacity` alerts, a running publish count, and
/// one cursor per subscriber.
pub struct AlertBus {
    capacity: usize,
    buffer: Vec<Alert>,
    next_seq: u64,
    cursors: Vec<u64>,
}

impl AlertBus {
    pub closed spec fn spec_capacity(&self) -> int {
        self.capacity as int
    }

    /// How many alerts were ever published.
    pub closed spec fn published(&self) -> int {
        self.next_seq as int
    }

    /// The models of the alerts still buffered, oldest first.
    pub closed spec fn buffered(&self) -> Seq<AlertModel> {
        self.buffer@.map_values(|a: Alert| a@)
    }

    pub closed spec fn num_subscribers(&self) -> int {
        self.cursors@.len() as int
    }

    /// The next publish position subscriber `sub` will read.
    pub closed spec fn cursor(&self, sub: int) -> int {
        self.cursors@[sub] as int
    }

    pub closed spec fn wf(&self) -> bool {
        &&& self.capacity > 0
        &&& self.buffer@.len() <= self.capacity
        &&& self.buffer@.len() <= self.next_seq
        &&& forall|i: int| 0 <= i < self.cursors@.len() ==> #[trigger] self.cursors@[i]
            <= self.next_seq
    }

    /// How many alerts were ever published, as a counter an embedder can
    /// test before publishing more.
    pub fn published_count(&self) -> (n: u64)
        ensures
            n == self.published(),
    {
        self.next_seq
    }

    /// A broadcast with room for `capacity` alerts per subscriber and no
    /// subscribers yet.
    pub fn new(capacity: usize) -> (b: AlertBus)
        requires
            capacity > 0,
        ensures
            b.wf(),
            b.spec_capacity() == capacity,
            b.published() == 0,
            b.buffered() == Seq::<AlertModel>::empty(),
            b.num_subscribers() == 0,
    {
        let b = AlertBus { capacity, buffer: Vec::new(), next_seq: 0, cursors: Vec::new() };
        proof {
            assert(b.buffered() =~= Seq::<AlertModel>::empty());
        }
        b
    }

    /// Opens a subscription that sees only alerts published from now on.
    pub fn subscribe(&mut self) -> (sub: usize)
        requires
            old(self).wf(),
        ensures
            final(self).wf(),
            sub == old(self).num_subscribers(),
            final(self).num_subscribers() == old(self).num_subscribers() + 1,
            final(self).cursor(sub as int) == old(self).published(),
            forall|i: int| 0 <= i < old(self).num_subscribers() ==> #[trigger] final(self).cursor(i)
                == old(self).cursor(i),
            final(self).published() == old(self).published(),
            final(self).buffered() == old(self).buffered(),
            final(self).spec_capacity() == old(self).spec_capacity(),
    {
        let sub = self.cursors.len();
        self.cursors.push(self.next_seq);
        sub
    }

    /// Publishes one alert to every subscriber without ever blocking: the
    /// oldest buffered alert is dropped once the buffer is full.
    pub fn publish(&mut self, alert: Alert)
        requires
            old(self).wf(),
            old(self).published() < u64::MAX,
        ensures
            final(self).wf(),
            final(self).published() == old(self).published() + 1,
            final(self).buffered() == (if old(self).buffered().len() < old(self).spec_capacity() {
                old(self).buffered().push(alert@)
            } else {
                old(self).buffered().drop_first().push(alert@)
            }),
            final(self).num_subscribers() == old(self).num_subscribers(),
            forall|i: int| 0 <= i < old(self).num_subscribers() ==> #[trigger] final(self).cursor(i)
                == old(self).cursor(i),
            final(self).spec_capacity() == old(self).spec_capacity(),
    {
        if self.buffer.len() == self.capacity {
            self.buffer.remove(0);
            self.buffer.push(alert);
            proof {
                assert(self.buffer@ =~= old(self).buffer@.drop_first().push(alert));
                assert(self.buffered() =~= old(self).buffered().drop_first().push(alert@));
            }
        } else {
            self.buffer.push(alert);
            proof {
                assert(self.buffered() =~= old(self).buffered().push(alert@));
            }
        }
        self.next_seq = self.next_seq + 1;
    }

    /// Polls subscription `sub`: the next alert in publish order, a lag
    /// signal when the subscriber fell out of the buffer, or nothing when
    /// it has read everything published.
    pub fn try_recv(&mut self, sub: usize) -> (r: RecvOutcome)
        requires
            old(self).wf(),
            sub < old(self).num_subscribers(),
        ensures
            final(self).wf(),
            final(self).published() == old(self).published(),
            final(self).buffered() == old(self).buffered(),
            final(self).num_subscribers() == old(self).num_subscribers(),
            final(self).spec_capacity() == old(self).spec_capacity(),
            forall|i: int| 0 <= i < old(self).num_subscribers() && i != sub ==> #[trigger] final(self).cursor(i) == old(self).cursor(i),
            ({
                let c = old(self).cursor(sub as int);
                let p = old(self).published();
                let buffered = old(self).buffered();
                let oldest = p - buffered.len();
                if c == p {
                    r is Empty && final(self).cursor(sub as int) == c
                } else if c < oldest {
                    r matches RecvOutcome::Lagged(n) && r->Lagged_0 == oldest - c && final(self).cursor(sub as int) == oldest
                } else {
                    r matches RecvOutcome::Received(a) && r->Received_0@ == buffered[c - oldest]
                        && final(self).cursor(sub as int) == c + 1
                }
            }),
    {
        let c = self.cursors[sub];
        if c == self.next_seq {
            return RecvOutcome::Empty;
        }
        let oldest = self.next_seq - (self.buffer.len() as u64);
        if c < oldest {
            let missed = oldest - c;
            self.cursors[sub] = oldest;
            return RecvOutcome::Lagged(missed);
        }
        let idx: usize = (c - oldest) as usize;
        let a = self.buffer[idx].clone();
        self.cursors[sub] = c + 1;
        RecvOutcome::Received(a)
    }
}

} // verus!
