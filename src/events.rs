use vstd::prelude::*;

use crate::address::Address;
use crate::state::{Event, MarketError, MAX_EVENTS};

verus! {

/// The event queue: events not yet consumed, in the order they were appended.
#[derive(Debug)]
pub struct MarketEvents {
    pub events: Vec<Event>,
    pub market: Address,
    pub count: u64,
    pub seq_num: u64,
    pub events_to_process: u64,
}

impl MarketEvents {
    /// The queue holds exactly `count` events, all awaiting the consumer, within capacity.
    pub open spec fn wf(&self) -> bool {
        &&& self.events@.len() == self.count
        &&& self.events_to_process == self.count
        &&& self.count <= MAX_EVENTS
        &&& forall|i: int| 0 <= i < self.events@.len() ==> (#[trigger] self.events@[i]).wf()
    }

    /// An empty queue for `market`, with the sequence number at zero.
    pub fn new(market: Address) -> (r: MarketEvents)
        ensures
            r.wf(),
            r.events@ == Seq::<Event>::empty(),
            r.market == market,
            r.seq_num == 0,
    {
        MarketEvents { events: Vec::new(), market, count: 0, seq_num: 0, events_to_process: 0 }
    }

    /// Appends `event`; fails with `QueueFull` at capacity.
    pub fn add_event(&mut self, event: Event) -> (r: Result<(), MarketError>)
        requires
            old(self).wf(),
            event.wf(),
            old(self).seq_num < u64::MAX,
        ensures
            final(self).wf(),
            final(self).market == old(self).market,
            old(self).count >= MAX_EVENTS ==> r == Err::<(), MarketError>(MarketError::QueueFull)
                && *final(self) == *old(self),
            old(self).count < MAX_EVENTS ==> {
                &&& r is Ok
                &&& final(self).events@ == old(self).events@.push(event)
                &&& final(self).seq_num == old(self).seq_num + 1
            },
    {
        if self.count >= MAX_EVENTS as u64 {
            return Err(MarketError::QueueFull);
        }
        self.events.push(event);
        self.count = self.count + 1;
        self.seq_num = self.seq_num + 1;
        self.events_to_process = self.events_to_process + 1;
        proof {
            assert forall|i: int| 0 <= i < self.events@.len() implies (
            #[trigger] self.events@[i]).wf() by {
                if i < old(self).events@.len() {
                    assert(self.events@[i] == old(self).events@[i]);
                }
            }
        }
        Ok(())
    }
}

} // verus!
