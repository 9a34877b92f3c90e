use vstd::prelude::*;

use crate::address::Address;
use crate::balance::{can_lock, lock_for_order, locked_for_order, required_base, required_quote};
use crate::book::{
    ids_apart, ids_distinct, ids_within, lemma_apart_symmetric, lemma_push_fresh,
    lemma_same_ids, lemma_swap_removed_ids, lemma_within_keeps, lemma_within_trans,
    order_ids_fresh, swap_removed, OrderBook,
};
use crate::events::MarketEvents;
use crate::state::{
    lemma_notional_smaller, notional_fits, quote_amount, Asset, Event, EventType, MarketError, MarketState, Order, Side,
    UserBalance, MAX_EVENTS, MAX_ORDERS,
};

verus! {

/// Tokens that move from the user's wallet into the vault of `asset` when an order is placed.
#[derive(Clone, Copy, Debug, PartialEq, Eq, Structural)]
pub struct VaultTransfer {
    pub asset: Asset,
    pub amount: u64,
}

/// A taker on `side` at `price` trades with a maker resting at `maker_price`.
pub open spec fn crosses(side: Side, price: u64, maker_price: u64) -> bool {
    match side {
        Side::Buy => price >= maker_price,
        Side::Sell => price <= maker_price,
    }
}

/// The fill event for `fill` units taken from maker order `o`.
pub open spec fn fill_event(o: Order, taker: Address, fill: u64, timestamp: i64, side: Side) -> Event {
    Event {
        maker: o.owner,
        taker,
        timestamp,
        maker_order_id: o.order_id,
        quantity: fill,
        price: o.price,
        event_type: EventType::Fill,
        side,
    }
}

/// Scan state over the opposite book: the makers as updated so far, the fills emitted so far,
/// and the taker quantity still unfilled.
pub type ScanState = (Seq<Order>, Seq<Event>, u64);

/// Visits maker slot `k`: where the prices cross and both sides have quantity left,
/// fills the smaller of the two.
pub open spec fn match_step(
    st: ScanState,
    k: int,
    taker: Address,
    side: Side,
    price: u64,
    timestamp: i64,
) -> ScanState {
    let o = st.0[k];
    let open_qty: int = o.quantity - o.filled_quantity;
    let fill: int = if (st.2 as int) < open_qty {
        st.2 as int
    } else {
        open_qty
    };
    if st.2 > 0 && crosses(side, price, o.price) && fill > 0 {
        (
            st.0.update(k, Order { filled_quantity: (o.filled_quantity + fill) as u64, ..o }),
            st.1.push(fill_event(o, taker, fill as u64, timestamp, side)),
            (st.2 - fill) as u64,
        )
    } else {
        st
    }
}

/// The scan after visiting the first `n` maker slots in order.
pub open spec fn match_prefix(
    makers: Seq<Order>,
    n: nat,
    taker: Address,
    side: Side,
    price: u64,
    quantity: u64,
    timestamp: i64,
) -> ScanState
    decreases n,
{
    if n == 0 {
        (makers, Seq::empty(), quantity)
    } else {
        match_step(
            match_prefix(makers, (n - 1) as nat, taker, side, price, quantity, timestamp),
            n - 1,
            taker,
            side,
            price,
            timestamp,
        )
    }
}

/// The scan of the whole opposite book.
pub open spec fn match_book(
    makers: Seq<Order>,
    taker: Address,
    side: Side,
    price: u64,
    quantity: u64,
    timestamp: i64,
) -> ScanState {
    match_prefix(makers, makers.len(), taker, side, price, quantity, timestamp)
}

/// Removes every fully filled order among the first `k` slots, from the highest slot down,
/// each by moving the last order into its place.
pub open spec fn sweep_filled(m: Seq<Order>, k: nat) -> Seq<Order>
    decreases k,
{
    if k == 0 || k > m.len() {
        m
    } else {
        let o = m[k - 1];
        let next = if o.filled_quantity == o.quantity {
            swap_removed(m, k - 1)
        } else {
            m
        };
        sweep_filled(next, (k - 1) as nat)
    }
}

/// The order that rests with the unfilled part of a taker's order.
pub open spec fn resting_order(
    market: MarketState,
    taker_book: OrderBook,
    owner: Address,
    side: Side,
    price: u64,
    remaining: u64,
    timestamp: i64,
) -> Order {
    Order {
        owner,
        market: taker_book.market,
        timestamp,
        order_id: market.next_order_id,
        price,
        quantity: remaining,
        filled_quantity: 0,
        side,
    }
}

/// The collateral transfer that placing an order asks of the user's wallet.
pub open spec fn collateral(side: Side, quantity: u64, price: u64) -> VaultTransfer {
    match side {
        Side::Buy => VaultTransfer {
            asset: Asset::Quote,
            amount: required_quote(side, quantity, price) as u64,
        },
        Side::Sell => VaultTransfer {
            asset: Asset::Base,
            amount: required_base(side, quantity) as u64,
        },
    }
}

/// What placing an order returns, given the records before the call.
pub open spec fn place_result(
    b0: UserBalance,
    taker0: OrderBook,
    maker0: OrderBook,
    ev0: MarketEvents,
    side: Side,
    price: u64,
    quantity: u64,
    timestamp: i64,
) -> Result<VaultTransfer, MarketError> {
    let scan = match_book(maker0.orders@, b0.owner, side, price, quantity, timestamp);
    if !can_lock(b0, side, quantity, price) {
        Err(MarketError::InsufficientFunds)
    } else if ev0.count + scan.1.len() > MAX_EVENTS {
        Err(MarketError::QueueFull)
    } else if scan.2 > 0 && taker0.active_orders_count >= MAX_ORDERS {
        Err(MarketError::BookFull)
    } else {
        Ok(collateral(side, quantity, price))
    }
}

/// How the records relate before and after placing an order, with the taker's own side of the
/// book as `taker*` and the opposite side as `maker*`.
pub open spec fn order_placed(
    m0: MarketState,
    b0: UserBalance,
    taker0: OrderBook,
    maker0: OrderBook,
    ev0: MarketEvents,
    m1: MarketState,
    b1: UserBalance,
    taker1: OrderBook,
    maker1: OrderBook,
    ev1: MarketEvents,
    side: Side,
    price: u64,
    quantity: u64,
    timestamp: i64,
    r: Result<VaultTransfer, MarketError>,
) -> bool {
    let scan = match_book(maker0.orders@, b0.owner, side, price, quantity, timestamp);
    &&& r == place_result(b0, taker0, maker0, ev0, side, price, quantity, timestamp)
    &&& r is Err ==> {
        &&& m1 == m0
        &&& b1 == b0
        &&& taker1 == taker0
        &&& maker1 == maker0
        &&& ev1 == ev0
    }
    &&& r is Ok ==> {
        &&& b1 == locked_for_order(b0, side, quantity, price)
        &&& maker1.orders@ == sweep_filled(scan.0, scan.0.len())
        &&& maker1.market == maker0.market
        &&& maker1.side == maker0.side
        &&& ev1.events@ == ev0.events@ + scan.1
        &&& ev1.seq_num == ev0.seq_num + scan.1.len()
        &&& ev1.market == ev0.market
        &&& taker1.market == taker0.market
        &&& taker1.side == taker0.side
        &&& if scan.2 > 0 {
            &&& taker1.orders@ == taker0.orders@.push(
                resting_order(m0, taker0, b0.owner, side, price, scan.2, timestamp),
            )
            &&& m1 == MarketState { next_order_id: (m0.next_order_id + 1) as u64, ..m0 }
        } else {
            &&& taker1.orders@ == taker0.orders@
            &&& m1 == m0
        }
    }
}

} // verus!

verus! {

/// Runs the scan over a copy of the opposite book's orders.
fn run_match(
    maker_orders: &Vec<Order>,
    taker: Address,
    side: Side,
    price: u64,
    quantity: u64,
    timestamp: i64,
) -> (r: (Vec<Order>, Vec<Event>, u64))
    requires
        forall|j: int| 0 <= j < maker_orders@.len() ==> (#[trigger] maker_orders@[j]).resting(),
    ensures
        (r.0@, r.1@, r.2) == match_book(maker_orders@, taker, side, price, quantity, timestamp),
        r.0@.len() == maker_orders@.len(),
        forall|j: int| 0 <= j < r.0@.len() ==> (#[trigger] r.0@[j]).live(),
        forall|j: int| 0 <= j < r.1@.len() ==> (#[trigger] r.1@[j]).wf(),
        forall|j: int|
            0 <= j < r.0@.len() ==> (#[trigger] r.0@[j]).order_id == maker_orders@[j].order_id,
        r.2 <= quantity,
{
    let n = maker_orders.len();
    let mut makers: Vec<Order> = Vec::new();
    let mut c: usize = 0;
    while c < n
        invariant
            n == maker_orders@.len(),
            c <= n,
            makers@ == maker_orders@.subrange(0, c as int),
        decreases n - c,
    {
        makers.push(maker_orders[c]);
        c = c + 1;
        assert(makers@ =~= maker_orders@.subrange(0, c as int));
    }
    assert(makers@ =~= maker_orders@);
    let mut fills: Vec<Event> = Vec::new();
    let mut remaining: u64 = quantity;
    let mut i: usize = 0;
    while i < n
        invariant
            n == maker_orders@.len(),
            makers@.len() == n,
            i <= n,
            forall|j: int| 0 <= j < n ==> (#[trigger] maker_orders@[j]).resting(),
            (makers@, fills@, remaining) == match_prefix(
                maker_orders@,
                i as nat,
                taker,
                side,
                price,
                quantity,
                timestamp,
            ),
            forall|j: int| i <= j < n ==> #[trigger] makers@[j] == maker_orders@[j],
            forall|j: int| 0 <= j < n ==> (#[trigger] makers@[j]).live(),
            forall|j: int| 0 <= j < fills@.len() ==> (#[trigger] fills@[j]).wf(),
            forall|j: int|
                0 <= j < n ==> (#[trigger] makers@[j]).order_id == maker_orders@[j].order_id,
            remaining <= quantity,
        decreases n - i,
    {
        let o = makers[i];
        assert(o == maker_orders@[i as int]);
        let open_qty: u64 = o.quantity - o.filled_quantity;
        let fill: u64 = if remaining < open_qty {
            remaining
        } else {
            open_qty
        };
        let cross = match side {
            Side::Buy => price >= o.price,
            Side::Sell => price <= o.price,
        };
        if remaining > 0 && cross && fill > 0 {
            let updated = Order { filled_quantity: o.filled_quantity + fill, ..o };
            makers[i] = updated;
            proof {
                lemma_notional_smaller(fill, o.quantity, o.price);
            }
            let e = Event {
                maker: o.owner,
                taker,
                timestamp,
                maker_order_id: o.order_id,
                quantity: fill,
                price: o.price,
                event_type: EventType::Fill,
                side,
            };
            fills.push(e);
            remaining = remaining - fill;
        }
        i = i + 1;
    }
    (makers, fills, remaining)
}

/// Removes the fully filled orders as `sweep_filled` describes.
fn sweep(makers: &mut Vec<Order>)
    requires
        forall|j: int| 0 <= j < old(makers)@.len() ==> (#[trigger] old(makers)@[j]).live(),
    ensures
        final(makers)@ == sweep_filled(old(makers)@, old(makers)@.len()),
        final(makers)@.len() <= old(makers)@.len(),
        forall|j: int| 0 <= j < final(makers)@.len() ==> (#[trigger] final(makers)@[j]).resting(),
        ids_within(final(makers)@, old(makers)@),
        ids_distinct(old(makers)@) ==> ids_distinct(final(makers)@),
{
    let mut k: usize = makers.len();
    proof {
        lemma_same_ids(makers@, makers@);
    }
    while k > 0
        invariant
            k <= makers@.len(),
            makers@.len() <= old(makers)@.len(),
            sweep_filled(makers@, k as nat) == sweep_filled(old(makers)@, old(makers)@.len()),
            forall|j: int| 0 <= j < k ==> (#[trigger] makers@[j]).live(),
            forall|j: int| k <= j < makers@.len() ==> (#[trigger] makers@[j]).resting(),
            ids_within(makers@, old(makers)@),
            ids_distinct(old(makers)@) ==> ids_distinct(makers@),
        decreases k,
    {
        let full = makers[k - 1].filled_quantity == makers[k - 1].quantity;
        if full {
            let ghost before = makers@;
            let _gone = makers.swap_remove(k - 1);
            proof {
                assert forall|j: int| k - 1 <= j < makers@.len() implies (
                #[trigger] makers@[j]).resting() by {
                    if j == k - 1 {
                        assert(makers@[j] == before[before.len() - 1]);
                    } else {
                        assert(makers@[j] == before[j]);
                    }
                }
                assert forall|j: int| 0 <= j < k - 1 implies (#[trigger] makers@[j]).live() by {
                    assert(makers@[j] == before[j]);
                }
                lemma_swap_removed_ids(before, k - 1);
                lemma_within_trans(makers@, before, old(makers)@);
            }
        }
        k = k - 1;
    }
}

/// Places an order with `taker_book` as the taker's own side and `maker_book` as the opposite side.
#[verifier::rlimit(40)]
fn execute_order(
    market: &mut MarketState,
    balance: &mut UserBalance,
    taker_book: &mut OrderBook,
    maker_book: &mut OrderBook,
    events: &mut MarketEvents,
    side: Side,
    price: u64,
    quantity: u64,
    timestamp: i64,
) -> (r: Result<VaultTransfer, MarketError>)
    requires
        old(balance).wf(),
        old(taker_book).wf(),
        old(maker_book).wf(),
        old(events).wf(),
        notional_fits(quantity, price),
        old(market).next_order_id < u64::MAX,
        old(events).seq_num + MAX_EVENTS <= u64::MAX,
    ensures
        order_placed(
            *old(market),
            *old(balance),
            *old(taker_book),
            *old(maker_book),
            *old(events),
            *final(market),
            *final(balance),
            *final(taker_book),
            *final(maker_book),
            *final(events),
            side,
            price,
            quantity,
            timestamp,
            r,
        ),
        final(balance).wf(),
        final(taker_book).wf(),
        final(maker_book).wf(),
        final(events).wf(),
        order_ids_fresh(old(market).next_order_id, old(taker_book).orders@, old(maker_book).orders@)
            ==> order_ids_fresh(
            final(market).next_order_id,
            final(taker_book).orders@,
            final(maker_book).orders@,
        ),
{
    let ghost next0 = market.next_order_id;
    let ghost takers0 = taker_book.orders@;
    let ghost makers0 = maker_book.orders@;
    let required: u64 = match side {
        Side::Sell => quantity,
        Side::Buy => quote_amount(quantity, price),
    };
    let funded = match side {
        Side::Sell => balance.available_base_balance >= required,
        Side::Buy => balance.available_quote_balance >= required,
    };
    if !funded {
        return Err(MarketError::InsufficientFunds);
    }
    let taker = balance.owner;
    let (mut makers, mut fills, remaining) = run_match(
        &maker_book.orders,
        taker,
        side,
        price,
        quantity,
        timestamp,
    );
    let room: u64 = MAX_EVENTS as u64 - events.count;
    if fills.len() as u64 > room {
        return Err(MarketError::QueueFull);
    }
    if remaining > 0 && taker_book.active_orders_count >= MAX_ORDERS as u64 {
        return Err(MarketError::BookFull);
    }
    let ghost scanned = makers@;
    sweep(&mut makers);
    proof {
        lemma_same_ids(scanned, makers0);
        lemma_within_trans(makers@, scanned, makers0);
        if order_ids_fresh(next0, takers0, makers0) {
            lemma_within_keeps(makers@, makers0, takers0, next0);
        }
    }
    lock_for_order(balance, side, quantity, price);

    let n_makers = makers.len();
    maker_book.orders = makers;
    maker_book.active_orders_count = n_makers as u64;

    let n_fills = fills.len() as u64;
    let ghost queued = events.events@;
    events.events.append(&mut fills);
    events.count = events.count + n_fills;
    events.seq_num = events.seq_num + n_fills;
    events.events_to_process = events.events_to_process + n_fills;
    proof {
        assert forall|j: int| 0 <= j < events.events@.len() implies (
        #[trigger] events.events@[j]).wf() by {
            if j < queued.len() {
                assert(events.events@[j] == queued[j]);
            }
        }
    }

    if remaining > 0 {
        proof {
            lemma_notional_smaller(remaining, quantity, price);
        }
        let order = Order {
            owner: taker,
            market: taker_book.market,
            timestamp,
            order_id: market.next_order_id,
            price,
            quantity: remaining,
            filled_quantity: 0,
            side,
        };
        let _added = taker_book.add_order(order);
        market.next_order_id = market.next_order_id + 1;
        proof {
            if order_ids_fresh(next0, takers0, makers0) {
                lemma_push_fresh(takers0, maker_book.orders@, order, next0);
            }
        }
    }
    match side {
        Side::Buy => Ok(VaultTransfer { asset: Asset::Quote, amount: required }),
        Side::Sell => Ok(VaultTransfer { asset: Asset::Base, amount: required }),
    }
}

} // verus!

verus! {

/// Places a limit order for the owner of `balance`: locks its collateral, fills it against the
/// opposite book in slot order, queues one fill event per maker touched, removes fully filled
/// makers, and rests any unfilled remainder on the owner's side with the next order id.
/// Fails, changing nothing, with `InsufficientFunds`, `QueueFull` or `BookFull`.
pub fn process_place_order(
    market: &mut MarketState,
    balance: &mut UserBalance,
    bids: &mut OrderBook,
    asks: &mut OrderBook,
    events: &mut MarketEvents,
    side: Side,
    price: u64,
    quantity: u64,
    timestamp: i64,
) -> (r: Result<VaultTransfer, MarketError>)
    requires
        old(balance).wf(),
        old(bids).wf(),
        old(asks).wf(),
        old(events).wf(),
        notional_fits(quantity, price),
        old(market).next_order_id < u64::MAX,
        old(events).seq_num + MAX_EVENTS <= u64::MAX,
    ensures
        match side {
            Side::Buy => order_placed(
                *old(market),
                *old(balance),
                *old(bids),
                *old(asks),
                *old(events),
                *final(market),
                *final(balance),
                *final(bids),
                *final(asks),
                *final(events),
                side,
                price,
                quantity,
                timestamp,
                r,
            ),
            Side::Sell => order_placed(
                *old(market),
                *old(balance),
                *old(asks),
                *old(bids),
                *old(events),
                *final(market),
                *final(balance),
                *final(asks),
                *final(bids),
                *final(events),
                side,
                price,
                quantity,
                timestamp,
                r,
            ),
        },
        final(balance).wf(),
        final(bids).wf(),
        final(asks).wf(),
        final(events).wf(),
        order_ids_fresh(old(market).next_order_id, old(bids).orders@, old(asks).orders@)
            ==> order_ids_fresh(final(market).next_order_id, final(bids).orders@, final(asks).orders@),
{
    match side {
        Side::Buy => execute_order(market, balance, bids, asks, events, side, price, quantity, timestamp),
        Side::Sell => {
            proof {
                if ids_apart(bids.orders@, asks.orders@) {
                    lemma_apart_symmetric(bids.orders@, asks.orders@);
                }
            }
            let r = execute_order(market, balance, asks, bids, events, side, price, quantity, timestamp);
            proof {
                if ids_apart(asks.orders@, bids.orders@) {
                    lemma_apart_symmetric(asks.orders@, bids.orders@);
                }
            }
            r
        },
    }
}

} // verus!
