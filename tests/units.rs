use orderbook::state::quote_amount;
use orderbook::{
    process_cancel_order, process_consume_events, process_create_acc_and_deposit_base_tokens,
    process_create_acc_and_deposit_quote_tokens, process_initialize_market, process_place_order,
    process_settle_balance, Address, Event, EventType, MarketAccounts, MarketError, MarketEvents,
    Order, OrderBook, Settlement, Side, UserBalance, MAX_EVENTS, MAX_ORDERS, PRICE_SCALE,
};

const S: u64 = PRICE_SCALE;

fn key(b: u8) -> Address {
    Address::new([b; 32])
}

fn accounts() -> MarketAccounts {
    MarketAccounts {
        authority: key(100),
        consume_events_authority: key(77),
        base_mint: key(101),
        quote_mint: key(102),
        fee_account: key(103),
        base_vault: key(104),
        quote_vault: key(105),
        market_events: key(106),
        bids: key(107),
        asks: key(108),
    }
}

fn order(id: u64, owner: Address, side: Side, price: u64, qty: u64) -> Order {
    Order { owner, market: key(200), timestamp: 0, order_id: id, price, quantity: qty, filled_quantity: 0, side }
}

fn fill(maker: Address, taker: Address, side: Side, qty: u64, price: u64) -> Event {
    Event { maker, taker, timestamp: 0, maker_order_id: 1, quantity: qty, price, event_type: EventType::Fill, side }
}

#[test]
fn initialize_sets_up_empty_market() {
    let m = process_initialize_market(key(200), &accounts(), 7, false, 10, 5).unwrap();
    assert_eq!(m.state.next_order_id, 1);
    assert_eq!(m.state.min_order_size, 10);
    assert_eq!(m.state.tick_size, 5);
    assert_eq!(m.state.fee_rate_bps, 30);
    assert_eq!(m.state.bump, 7);
    assert!(m.state.is_initialized);
    assert_eq!(m.state.consume_events_authority, key(77));
    assert!(m.bids.orders.is_empty());
    assert_eq!(m.bids.side, Side::Buy);
    assert_eq!(m.asks.side, Side::Sell);
    assert_eq!(m.events.seq_num, 0);
    assert_eq!(m.events.market, key(200));
}

#[test]
fn initialize_rejects_bad_parameters() {
    assert_eq!(process_initialize_market(key(200), &accounts(), 0, false, 0, 5).err(), Some(MarketError::InvalidInstructionData));
    assert_eq!(process_initialize_market(key(200), &accounts(), 0, false, 10, 0).err(), Some(MarketError::InvalidInstructionData));
    assert_eq!(process_initialize_market(key(200), &accounts(), 0, true, 10, 5).err(), Some(MarketError::AccountAlreadyInitialized));
}

#[test]
fn quote_amount_truncates() {
    assert_eq!(quote_amount(3, 1_500_000_000), 4);
    assert_eq!(quote_amount(1, S - 1), 0);
    assert_eq!(quote_amount(7, 2 * S), 14);
}

#[test]
fn custom_codes() {
    assert_eq!(MarketError::QueueFull.custom_code(), Some(1));
    assert_eq!(MarketError::BookFull.custom_code(), Some(2));
    assert_eq!(MarketError::OrderNotFound.custom_code(), Some(3));
    assert_eq!(MarketError::InsufficientFunds.custom_code(), None);
}

#[test]
fn address_equality_and_zero() {
    assert!(key(3).same_as(&key(3)));
    assert!(!key(3).same_as(&key(4)));
    let mut bytes = [0u8; 32];
    assert!(Address::new(bytes).is_zero());
    bytes[31] = 1;
    assert!(!Address::new(bytes).is_zero());
    assert!(!Address::new(bytes).same_as(&Address::zero()));
}

#[test]
fn add_and_remove_orders() {
    let mut book = OrderBook::new(key(200), Side::Sell);
    for id in 1..=3 {
        assert_eq!(book.add_order(order(id, key(1), Side::Sell, S, 1)), Ok(()));
    }
    assert_eq!(book.remove_order(5), Err(MarketError::OrderNotFound));
    assert_eq!(book.remove_order(0), Ok(()));
    let ids: Vec<u64> = book.orders.iter().map(|o| o.order_id).collect();
    assert_eq!(ids, vec![3, 2]);
    assert_eq!(book.active_orders_count, 2);
    assert_eq!(book.remove_order(1), Ok(()));
    assert_eq!(book.orders.len(), 1);
    assert_eq!(book.orders[0].order_id, 3);
}

#[test]
fn add_order_at_capacity_is_book_full() {
    let mut book = OrderBook::new(key(200), Side::Buy);
    for id in 0..MAX_ORDERS as u64 {
        book.add_order(order(id + 1, key(1), Side::Buy, S, 1)).unwrap();
    }
    assert_eq!(book.add_order(order(9999, key(1), Side::Buy, S, 1)), Err(MarketError::BookFull));
    assert_eq!(book.orders.len(), MAX_ORDERS);
}

#[test]
fn add_event_counts_and_fills_up() {
    let mut q = MarketEvents::new(key(200));
    for i in 0..MAX_EVENTS as u64 {
        assert_eq!(q.add_event(fill(key(1), key(2), Side::Buy, 1, S)), Ok(()));
        assert_eq!(q.seq_num, i + 1);
        assert_eq!(q.events_to_process, i + 1);
    }
    assert_eq!(q.add_event(fill(key(1), key(2), Side::Buy, 1, S)), Err(MarketError::QueueFull));
    assert_eq!(q.count, MAX_EVENTS as u64);
    assert_eq!(q.seq_num, MAX_EVENTS as u64);
}

#[test]
fn insufficient_funds_changes_nothing() {
    let mut m = process_initialize_market(key(200), &accounts(), 0, false, 1, 1).unwrap();
    let mut b = UserBalance::new(key(2), key(200));
    process_create_acc_and_deposit_quote_tokens(&mut b, 3);
    let before = b;
    let r = process_place_order(&mut m.state, &mut b, &mut m.bids, &mut m.asks, &mut m.events, Side::Buy, 2 * S, 2, 0);
    assert_eq!(r, Err(MarketError::InsufficientFunds));
    assert_eq!(b, before);
    assert!(m.bids.orders.is_empty());
    let r = process_place_order(&mut m.state, &mut b, &mut m.bids, &mut m.asks, &mut m.events, Side::Sell, S, 1, 0);
    assert_eq!(r, Err(MarketError::InsufficientFunds));
    assert_eq!(m.state.next_order_id, 1);
}

#[test]
fn queue_full_placement_changes_nothing() {
    let mut m = process_initialize_market(key(200), &accounts(), 0, false, 1, 1).unwrap();
    for _ in 0..MAX_EVENTS - 1 {
        m.events.add_event(fill(key(5), key(6), Side::Buy, 1, S)).unwrap();
    }
    let mut a = UserBalance::new(key(1), key(200));
    process_create_acc_and_deposit_base_tokens(&mut a, 10);
    let mut b = UserBalance::new(key(2), key(200));
    process_create_acc_and_deposit_quote_tokens(&mut b, 10);
    process_place_order(&mut m.state, &mut a, &mut m.bids, &mut m.asks, &mut m.events, Side::Sell, S, 1, 0).unwrap();
    process_place_order(&mut m.state, &mut a, &mut m.bids, &mut m.asks, &mut m.events, Side::Sell, S, 1, 0).unwrap();
    let before = b;
    let r = process_place_order(&mut m.state, &mut b, &mut m.bids, &mut m.asks, &mut m.events, Side::Buy, S, 2, 0);
    assert_eq!(r, Err(MarketError::QueueFull));
    assert_eq!(b, before);
    assert_eq!(m.asks.orders.len(), 2);
    assert_eq!(m.asks.orders[0].filled_quantity, 0);
    assert_eq!(m.events.events.len(), MAX_EVENTS - 1);
}

#[test]
fn taker_walks_book_in_slot_order_and_respects_price() {
    let mut m = process_initialize_market(key(200), &accounts(), 0, false, 1, 1).unwrap();
    let mut a = UserBalance::new(key(1), key(200));
    process_create_acc_and_deposit_base_tokens(&mut a, 100);
    let mut b = UserBalance::new(key(2), key(200));
    process_create_acc_and_deposit_quote_tokens(&mut b, 1000 * S);
    // Asks at 3S, 1S, 2S: a buy at 2S crosses the second and third only.
    for p in [3 * S, S, 2 * S] {
        process_place_order(&mut m.state, &mut a, &mut m.bids, &mut m.asks, &mut m.events, Side::Sell, p, 2, 0).unwrap();
    }
    let t = process_place_order(&mut m.state, &mut b, &mut m.bids, &mut m.asks, &mut m.events, Side::Buy, 2 * S, 5, 0).unwrap();
    assert_eq!(t.amount, 10);
    assert_eq!(m.events.events.len(), 2);
    assert_eq!(m.events.events[0].price, S);
    assert_eq!(m.events.events[0].maker_order_id, 2);
    assert_eq!(m.events.events[1].price, 2 * S);
    assert_eq!(m.events.events[1].maker_order_id, 3);
    // Both crossed asks are gone; the 3S ask stays; 1 unit rests as a bid with id 4.
    assert_eq!(m.asks.orders.len(), 1);
    assert_eq!(m.asks.orders[0].price, 3 * S);
    assert_eq!(m.bids.orders.len(), 1);
    assert_eq!(m.bids.orders[0].quantity, 1);
    assert_eq!(m.bids.orders[0].order_id, 4);
    assert_eq!(m.state.next_order_id, 5);
    assert_eq!(b.locked_quote_balance, 10);
}

#[test]
fn cancel_unknown_or_foreign_order_is_not_found() {
    let mut m = process_initialize_market(key(200), &accounts(), 0, false, 1, 1).unwrap();
    let mut a = UserBalance::new(key(1), key(200));
    process_create_acc_and_deposit_base_tokens(&mut a, 10);
    process_place_order(&mut m.state, &mut a, &mut m.bids, &mut m.asks, &mut m.events, Side::Sell, S, 4, 0).unwrap();
    let mut other = UserBalance::new(key(2), key(200));
    assert_eq!(process_cancel_order(&mut other, &mut m.bids, &mut m.asks, &mut m.events, 1, 0), Err(MarketError::OrderNotFound));
    assert_eq!(process_cancel_order(&mut a, &mut m.bids, &mut m.asks, &mut m.events, 42, 0), Err(MarketError::OrderNotFound));
    assert_eq!(m.asks.orders.len(), 1);
    assert_eq!(process_cancel_order(&mut a, &mut m.bids, &mut m.asks, &mut m.events, 1, 0), Ok(()));
    assert_eq!(a.available_base_balance, 10);
    assert_eq!(a.locked_base_balance, 0);
    assert_eq!(m.events.events[0].side, Side::Sell);
}

#[test]
fn cancel_partly_filled_order_unlocks_remainder() {
    let mut m = process_initialize_market(key(200), &accounts(), 0, false, 1, 1).unwrap();
    let mut a = UserBalance::new(key(1), key(200));
    process_create_acc_and_deposit_base_tokens(&mut a, 10);
    let mut b = UserBalance::new(key(2), key(200));
    process_create_acc_and_deposit_quote_tokens(&mut b, 10);
    process_place_order(&mut m.state, &mut a, &mut m.bids, &mut m.asks, &mut m.events, Side::Sell, S, 10, 0).unwrap();
    process_place_order(&mut m.state, &mut b, &mut m.bids, &mut m.asks, &mut m.events, Side::Buy, S, 3, 0).unwrap();
    assert_eq!(process_cancel_order(&mut a, &mut m.bids, &mut m.asks, &mut m.events, 1, 9), Ok(()));
    assert_eq!(a.locked_base_balance, 3);
    assert_eq!(a.available_base_balance, 7);
    let out = m.events.events[1];
    assert_eq!(out.event_type, EventType::Out);
    assert_eq!(out.quantity, 7);
    assert_eq!(out.timestamp, 9);
    assert_eq!(m.events.seq_num, 2);
}

#[test]
fn consume_rejects_wrong_authority() {
    let m = process_initialize_market(key(200), &accounts(), 0, false, 1, 1).unwrap();
    let mut q = MarketEvents::new(key(200));
    q.add_event(fill(key(1), key(2), Side::Buy, 1, S)).unwrap();
    let mut balances: Vec<UserBalance> = Vec::new();
    assert_eq!(process_consume_events(&m.state, &key(78), &mut q, &mut balances), Err(MarketError::InvalidAccount));
    assert_eq!(q.events_to_process, 1);
}

#[test]
fn consume_skips_missing_accounts_and_holes() {
    let m = process_initialize_market(key(200), &accounts(), 0, false, 1, 1).unwrap();
    let mut q = MarketEvents::new(key(200));
    q.add_event(fill(Address::zero(), Address::zero(), Side::Buy, 1, S)).unwrap();
    for _ in 0..8 {
        q.add_event(fill(key(1), key(2), Side::Buy, 1, S)).unwrap();
    }
    let mut maker = UserBalance::new(key(1), key(200));
    maker.locked_base_balance = 10;
    let mut balances = vec![maker];
    // The hole does not count toward the batch: seven fills are applied, the hole stays queued.
    assert_eq!(process_consume_events(&m.state, &key(77), &mut q, &mut balances), Ok(7));
    assert_eq!(q.events_to_process, 2);
    assert_eq!(q.count, 2);
    assert!(q.events[0].maker.is_zero() && q.events[0].taker.is_zero());
    assert_eq!(q.events[1].maker, key(1));
    assert_eq!(balances[0].locked_base_balance, 3);
    assert_eq!(balances[0].pending_quote_balance, 7);
}

#[test]
fn consume_leaves_a_lone_hole_queued() {
    let m = process_initialize_market(key(200), &accounts(), 0, false, 1, 1).unwrap();
    let mut q = MarketEvents::new(key(200));
    q.add_event(fill(Address::zero(), Address::zero(), Side::Sell, 1, S)).unwrap();
    let mut balances: Vec<UserBalance> = Vec::new();
    assert_eq!(process_consume_events(&m.state, &key(77), &mut q, &mut balances), Ok(0));
    assert_eq!(q.events_to_process, 1);
    assert_eq!(q.events.len(), 1);
}

#[test]
fn consume_removes_only_applied_events_around_a_hole() {
    let m = process_initialize_market(key(200), &accounts(), 0, false, 1, 1).unwrap();
    let mut q = MarketEvents::new(key(200));
    q.add_event(fill(key(1), key(2), Side::Buy, 1, S)).unwrap();
    q.add_event(fill(Address::zero(), Address::zero(), Side::Buy, 1, S)).unwrap();
    q.add_event(fill(key(1), key(2), Side::Buy, 2, S)).unwrap();
    let mut maker = UserBalance::new(key(1), key(200));
    maker.locked_base_balance = 3;
    let mut balances = vec![maker];
    assert_eq!(process_consume_events(&m.state, &key(77), &mut q, &mut balances), Ok(2));
    assert_eq!(q.events_to_process, 1);
    assert!(q.events[0].maker.is_zero());
    assert_eq!(balances[0].locked_base_balance, 0);
    assert_eq!(balances[0].pending_quote_balance, 3);
}

#[test]
fn consume_balance_mismatch_changes_nothing() {
    let m = process_initialize_market(key(200), &accounts(), 0, false, 1, 1).unwrap();
    let mut q = MarketEvents::new(key(200));
    q.add_event(fill(key(1), key(2), Side::Buy, 1, S)).unwrap();
    q.add_event(fill(key(1), key(2), Side::Buy, 5, S)).unwrap();
    let mut maker = UserBalance::new(key(1), key(200));
    maker.locked_base_balance = 2;
    let mut balances = vec![maker];
    assert_eq!(process_consume_events(&m.state, &key(77), &mut q, &mut balances), Err(MarketError::BalanceMismatch));
    assert_eq!(balances[0], maker);
    assert_eq!(q.events.len(), 2);
}

#[test]
fn consume_ignores_records_of_another_market() {
    let m = process_initialize_market(key(200), &accounts(), 0, false, 1, 1).unwrap();
    let mut q = MarketEvents::new(key(200));
    q.add_event(fill(key(1), key(2), Side::Sell, 2, S)).unwrap();
    let mut elsewhere = UserBalance::new(key(1), key(201));
    elsewhere.locked_quote_balance = 5;
    let mut taker = UserBalance::new(key(2), key(200));
    taker.locked_base_balance = 2;
    let mut balances = vec![elsewhere, taker];
    assert_eq!(process_consume_events(&m.state, &key(77), &mut q, &mut balances), Ok(1));
    assert_eq!(balances[0], elsewhere);
    assert_eq!(balances[1].locked_base_balance, 0);
    assert_eq!(balances[1].pending_quote_balance, 2);
}

#[test]
fn settle_twice_pays_once() {
    let mut b = UserBalance::new(key(1), key(200));
    b.pending_base_balance = 4;
    b.pending_quote_balance = 9;
    b.available_base_balance = 1;
    assert_eq!(process_settle_balance(&mut b), Settlement { base: 4, quote: 9 });
    let once = b;
    assert_eq!(process_settle_balance(&mut b), Settlement { base: 0, quote: 0 });
    assert_eq!(b, once);
    assert_eq!(b.available_base_balance, 1);
}

#[test]
fn deposits_credit_available() {
    let mut b = UserBalance::new(key(1), key(200));
    process_create_acc_and_deposit_base_tokens(&mut b, 6);
    process_create_acc_and_deposit_quote_tokens(&mut b, 8);
    process_create_acc_and_deposit_base_tokens(&mut b, 1);
    assert_eq!(b.available_base_balance, 7);
    assert_eq!(b.available_quote_balance, 8);
    assert!(b.is_wf());
    b.pending_base_balance = u64::MAX;
    assert!(!b.is_wf());
}

#[test]
fn fill_between_traders_conserves_totals() {
    let m = process_initialize_market(key(200), &accounts(), 0, false, 1, 1).unwrap();
    let mut q = MarketEvents::new(key(200));
    q.add_event(fill(key(1), key(2), Side::Buy, 3, 1_500_000_000)).unwrap();
    let mut maker = UserBalance::new(key(1), key(200));
    maker.locked_base_balance = 3;
    let mut taker = UserBalance::new(key(2), key(200));
    taker.locked_quote_balance = 5;
    let base_before = 3u64;
    let quote_before = 5u64;
    let mut balances = vec![maker, taker];
    process_consume_events(&m.state, &key(77), &mut q, &mut balances).unwrap();
    let total = |u: &UserBalance| (u.available_base_balance + u.locked_base_balance + u.pending_base_balance, u.available_quote_balance + u.locked_quote_balance + u.pending_quote_balance);
    let (mb, mq) = total(&balances[0]);
    let (tb, tq) = total(&balances[1]);
    assert_eq!(mb + tb, base_before);
    assert_eq!(mq + tq, quote_before);
    assert_eq!(balances[0].pending_quote_balance, 4);
    assert_eq!(balances[1].locked_quote_balance, 1);
    assert_eq!(balances[1].pending_base_balance, 3);
}
