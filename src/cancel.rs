use vstd::prelude::*;

use crate::address::{zero_address, Address};
use crate::balance::{can_unlock, unlock, unlocked};
use crate::book::{
    lemma_swap_removed_ids, lemma_within_keeps, order_ids_fresh, swap_removed,
    OrderBook,
};
use crate::events::MarketEvents;
use crate::state::{
    lemma_notional_smaller, quote_amount, Event, EventType, MarketError, Order, Side, UserBalance,
    MAX_EVENTS,
};

verus! {

/// Order `o` is `owner`'s order with id `order_id`.
pub open spec fn is_target(o: Order, order_id: u64, owner: Address) -> bool {
    o.order_id == order_id && o.owner == owner
}

/// Slot `i` is the first slot of `s` that holds `owner`'s order `order_id`.
pub open spec fn first_target(s: Seq<Order>, order_id: u64, owner: Address, i: int) -> bool {
    &&& 0 <= i < s.len()
    &&& is_target(s[i], order_id, owner)
    &&& forall|j: int| 0 <= j < i ==> !is_target(#[trigger] s[j], order_id, owner)
}

/// The first slot of `s` that holds `owner`'s order `order_id`, if any.
pub open spec fn locate(s: Seq<Order>, order_id: u64, owner: Address) -> Option<int> {
    if exists|i: int| first_target(s, order_id, owner, i) {
        Some(choose|i: int| first_target(s, order_id, owner, i))
    } else {
        None
    }
}

pub proof fn lemma_locate_first(s: Seq<Order>, order_id: u64, owner: Address, i: int)
    requires
        first_target(s, order_id, owner, i),
    ensures
        locate(s, order_id, owner) == Some(i),
{
    let k = choose|k: int| first_target(s, order_id, owner, k);
    assert(first_target(s, order_id, owner, k));
    if k < i {
        assert(!is_target(s[k], order_id, owner));
    } else if k > i {
        assert(!is_target(s[i], order_id, owner));
    }
}

pub proof fn lemma_locate_none(s: Seq<Order>, order_id: u64, owner: Address)
    requires
        forall|j: int| 0 <= j < s.len() ==> !is_target(#[trigger] s[j], order_id, owner),
    ensures
        locate(s, order_id, owner) is None,
{
    if exists|i: int| first_target(s, order_id, owner, i) {
        let k = choose|k: int| first_target(s, order_id, owner, k);
        assert(is_target(s[k], order_id, owner));
    }
}

/// The cancellation event for order `o`, reporting its unfilled quantity.
pub open spec fn out_event(o: Order, timestamp: i64) -> Event {
    Event {
        maker: o.owner,
        taker: zero_address(),
        timestamp,
        maker_order_id: o.order_id,
        quantity: (o.quantity - o.filled_quantity) as u64,
        price: o.price,
        event_type: EventType::Out,
        side: o.side,
    }
}

/// Cancelling the order in slot `i` of `book0`, whose collateral is on `unlock_side`.
pub open spec fn cancelled_at(
    b0: UserBalance,
    book0: OrderBook,
    ev0: MarketEvents,
    b1: UserBalance,
    book1: OrderBook,
    ev1: MarketEvents,
    i: int,
    unlock_side: Side,
    timestamp: i64,
    r: Result<(), MarketError>,
) -> bool {
    let o = book0.orders@[i];
    let rem = (o.quantity - o.filled_quantity) as u64;
    if ev0.count >= MAX_EVENTS {
        &&& r == Err::<(), MarketError>(MarketError::QueueFull)
        &&& b1 == b0
        &&& book1 == book0
        &&& ev1 == ev0
    } else if !can_unlock(b0, unlock_side, rem, o.price) {
        &&& r == Err::<(), MarketError>(MarketError::BalanceMismatch)
        &&& b1 == b0
        &&& book1 == book0
        &&& ev1 == ev0
    } else {
        &&& r is Ok
        &&& b1 == unlocked(b0, unlock_side, rem, o.price)
        &&& book1.orders@ == swap_removed(book0.orders@, i)
        &&& book1.market == book0.market
        &&& book1.side == book0.side
        &&& ev1.events@ == ev0.events@.push(out_event(o, timestamp))
        &&& ev1.seq_num == ev0.seq_num + 1
        &&& ev1.market == ev0.market
    }
}

/// How the records relate before and after cancelling `order_id` for the owner of `b0`.
pub open spec fn order_cancelled(
    b0: UserBalance,
    bids0: OrderBook,
    asks0: OrderBook,
    ev0: MarketEvents,
    b1: UserBalance,
    bids1: OrderBook,
    asks1: OrderBook,
    ev1: MarketEvents,
    order_id: u64,
    timestamp: i64,
    r: Result<(), MarketError>,
) -> bool {
    match locate(bids0.orders@, order_id, b0.owner) {
        Some(i) => {
            &&& cancelled_at(b0, bids0, ev0, b1, bids1, ev1, i, Side::Buy, timestamp, r)
            &&& asks1 == asks0
        },
        None => match locate(asks0.orders@, order_id, b0.owner) {
            Some(i) => {
                &&& cancelled_at(b0, asks0, ev0, b1, asks1, ev1, i, Side::Sell, timestamp, r)
                &&& bids1 == bids0
            },
            None => {
                &&& r == Err::<(), MarketError>(MarketError::OrderNotFound)
                &&& b1 == b0
                &&& bids1 == bids0
                &&& asks1 == asks0
                &&& ev1 == ev0
            },
        },
    }
}

/// Finds the first slot holding `owner`'s order `order_id`.
fn find_order(orders: &Vec<Order>, order_id: u64, owner: &Address) -> (r: Option<usize>)
    ensures
        match r {
            Some(i) => first_target(orders@, order_id, *owner, i as int),
            None => forall|j: int|
                0 <= j < orders@.len() ==> !is_target(#[trigger] orders@[j], order_id, *owner),
        },
{
    let mut i: usize = 0;
    while i < orders.len()
        invariant
            i <= orders@.len(),
            forall|j: int| 0 <= j < i ==> !is_target(#[trigger] orders@[j], order_id, *owner),
        decreases orders@.len() - i,
    {
        if orders[i].order_id == order_id && orders[i].owner.same_as(owner) {
            return Some(i);
        }
        i = i + 1;
    }
    None
}

/// Cancels the order in slot `i` of `book`, unlocking its collateral on `unlock_side`.
fn cancel_at(
    balance: &mut UserBalance,
    book: &mut OrderBook,
    events: &mut MarketEvents,
    i: usize,
    unlock_side: Side,
    timestamp: i64,
) -> (r: Result<(), MarketError>)
    requires
        old(balance).wf(),
        old(book).wf(),
        old(events).wf(),
        old(events).seq_num < u64::MAX,
        i < old(book).orders@.len(),
    ensures
        cancelled_at(
            *old(balance),
            *old(book),
            *old(events),
            *final(balance),
            *final(book),
            *final(events),
            i as int,
            unlock_side,
            timestamp,
            r,
        ),
        final(balance).wf(),
        final(book).wf(),
        final(events).wf(),
{
    let o = book.orders[i];
    assert(o.resting());
    let rem: u64 = o.quantity - o.filled_quantity;
    if events.count >= MAX_EVENTS as u64 {
        return Err(MarketError::QueueFull);
    }
    proof {
        lemma_notional_smaller(rem, o.quantity, o.price);
    }
    let enough = match unlock_side {
        Side::Buy => balance.locked_quote_balance >= quote_amount(rem, o.price),
        Side::Sell => balance.locked_base_balance >= rem,
    };
    if !enough {
        return Err(MarketError::BalanceMismatch);
    }
    unlock(balance, unlock_side, rem, o.price);
    let _removed = book.remove_order(i);
    let e = Event {
        maker: o.owner,
        taker: Address::zero(),
        timestamp,
        maker_order_id: o.order_id,
        quantity: rem,
        price: o.price,
        event_type: EventType::Out,
        side: o.side,
    };
    let _queued = events.add_event(e);
    Ok(())
}

/// Cancels the owner of `balance`'s order `order_id`: searches the bids, then the asks, in slot
/// order; unlocks the order's unfilled collateral into the available bucket, removes its slot by
/// moving the last order into it, and queues an `Out` event. Fails, changing nothing, with
/// `OrderNotFound`, `QueueFull`, or `BalanceMismatch` where the locked bucket cannot cover it.
pub fn process_cancel_order(
    balance: &mut UserBalance,
    bids: &mut OrderBook,
    asks: &mut OrderBook,
    events: &mut MarketEvents,
    order_id: u64,
    timestamp: i64,
) -> (r: Result<(), MarketError>)
    requires
        old(balance).wf(),
        old(bids).wf(),
        old(asks).wf(),
        old(events).wf(),
        old(events).seq_num < u64::MAX,
    ensures
        order_cancelled(
            *old(balance),
            *old(bids),
            *old(asks),
            *old(events),
            *final(balance),
            *final(bids),
            *final(asks),
            *final(events),
            order_id,
            timestamp,
            r,
        ),
        final(balance).wf(),
        final(bids).wf(),
        final(asks).wf(),
        final(events).wf(),
        forall|next: u64|
            order_ids_fresh(next, old(bids).orders@, old(asks).orders@) ==> #[trigger] order_ids_fresh(
                next,
                final(bids).orders@,
                final(asks).orders@,
            ),
{
    let ghost bids0 = bids.orders@;
    let ghost asks0 = asks.orders@;
    let owner = balance.owner;
    match find_order(&bids.orders, order_id, &owner) {
        Some(i) => {
            proof {
                lemma_locate_first(bids.orders@, order_id, owner, i as int);
            }
            let r = cancel_at(balance, bids, events, i, Side::Buy, timestamp);
            proof {
                lemma_swap_removed_ids(bids0, i as int);
                assert forall|next: u64| order_ids_fresh(next, bids0, asks0) implies #[trigger] order_ids_fresh(
                    next,
                    bids.orders@,
                    asks.orders@,
                ) by {
                    if r is Ok {
                        lemma_within_keeps(bids.orders@, bids0, asks0, next);
                    }
                }
            }
            r
        },
        None => {
            proof {
                lemma_locate_none(bids.orders@, order_id, owner);
            }
            match find_order(&asks.orders, order_id, &owner) {
                Some(i) => {
                    proof {
                        lemma_locate_first(asks.orders@, order_id, owner, i as int);
                    }
                    let r = cancel_at(balance, asks, events, i, Side::Sell, timestamp);
                    proof {
                        lemma_swap_removed_ids(asks0, i as int);
                        assert forall|next: u64| order_ids_fresh(next, bids0, asks0) implies #[trigger] order_ids_fresh(
                            next,
                            bids.orders@,
                            asks.orders@,
                        ) by {
                            if r is Ok {
                                lemma_within_keeps(asks.orders@, asks0, bids0, next);
                            }
                        }
                    }
                    r
                },
                None => {
                    proof {
                        lemma_locate_none(asks.orders@, order_id, owner);
                    }
                    Err(MarketError::OrderNotFound)
                },
            }
        },
    }
}

} // verus!
