use orderbook::{
    process_cancel_order, process_consume_events, process_create_acc_and_deposit_base_tokens,
    process_create_acc_and_deposit_quote_tokens, process_initialize_market, process_place_order,
    process_settle_balance, Address, Asset, EventType, MarketAccounts, MarketError, NewMarket,
    Settlement, Side, UserBalance, VaultTransfer, MAX_ORDERS, PRICE_SCALE,
};

const S: u64 = PRICE_SCALE;
const TS: i64 = 1_700_000_000;

fn key(b: u8) -> Address {
    Address::new([b; 32])
}

fn market_key() -> Address {
    key(200)
}

fn cranker() -> Address {
    key(77)
}

fn new_market() -> NewMarket {
    let accounts = MarketAccounts {
        authority: key(100),
        consume_events_authority: cranker(),
        base_mint: key(101),
        quote_mint: key(102),
        fee_account: key(103),
        base_vault: key(104),
        quote_vault: key(105),
        market_events: key(106),
        bids: key(107),
        asks: key(108),
    };
    process_initialize_market(market_key(), &accounts, 254, false, 1, 1).unwrap()
}

fn alice() -> Address {
    key(1)
}

fn bob() -> Address {
    key(2)
}

fn funded(owner: Address, base: u64, quote: u64) -> UserBalance {
    let mut b = UserBalance::new(owner, market_key());
    process_create_acc_and_deposit_base_tokens(&mut b, base);
    process_create_acc_and_deposit_quote_tokens(&mut b, quote);
    b
}

fn place(m: &mut NewMarket, b: &mut UserBalance, side: Side, price: u64, qty: u64) -> Result<VaultTransfer, MarketError> {
    process_place_order(&mut m.state, b, &mut m.bids, &mut m.asks, &mut m.events, side, price, qty, TS)
}

fn consume(m: &mut NewMarket, balances: &mut Vec<UserBalance>) -> Result<usize, MarketError> {
    process_consume_events(&m.state, &cranker(), &mut m.events, balances)
}

#[test]
fn cross_the_spread_full_fill() {
    let mut m = new_market();
    let mut a = funded(alice(), 10, 0);
    let mut b = funded(bob(), 0, 10 * S);

    let t = place(&mut m, &mut a, Side::Sell, S, 5).unwrap();
    assert_eq!(t, VaultTransfer { asset: Asset::Base, amount: 5 });
    assert_eq!(m.asks.orders.len(), 1);
    assert_eq!(m.asks.active_orders_count, 1);
    assert_eq!(a.locked_base_balance, 5);
    assert_eq!(a.available_base_balance, 5);

    let t = place(&mut m, &mut b, Side::Buy, S, 5).unwrap();
    assert_eq!(t, VaultTransfer { asset: Asset::Quote, amount: 5 });
    assert_eq!(b.locked_quote_balance, 5);
    assert!(m.asks.orders.is_empty());
    assert_eq!(m.asks.active_orders_count, 0);
    assert!(m.bids.orders.is_empty());
    assert_eq!(m.events.events.len(), 1);
    assert_eq!(m.events.seq_num, 1);
    let e = m.events.events[0];
    assert_eq!(e.event_type, EventType::Fill);
    assert_eq!(e.quantity, 5);
    assert_eq!(e.price, S);
    assert_eq!(e.maker, alice());
    assert_eq!(e.taker, bob());
    assert_eq!(e.maker_order_id, 1);

    let mut balances = vec![a, b];
    assert_eq!(consume(&mut m, &mut balances), Ok(1));
    let (mut a, mut b) = (balances[0], balances[1]);
    assert_eq!(a.pending_quote_balance, 5);
    assert_eq!(b.pending_base_balance, 5);
    assert_eq!(a.locked_base_balance, 0);
    assert_eq!(a.locked_quote_balance, 0);
    assert_eq!(b.locked_base_balance, 0);
    assert_eq!(b.locked_quote_balance, 0);
    assert_eq!(m.events.events_to_process, 0);
    assert_eq!(m.events.seq_num, 1);

    assert_eq!(process_settle_balance(&mut a), Settlement { base: 0, quote: 5 });
    assert_eq!(process_settle_balance(&mut b), Settlement { base: 5, quote: 0 });
    assert_eq!(a.pending_quote_balance, 0);
    assert_eq!(b.pending_base_balance, 0);
}

#[test]
fn partial_fill_residual_rests() {
    let mut m = new_market();
    let mut a = funded(alice(), 10, 0);
    let mut b = funded(bob(), 0, 10 * S);
    place(&mut m, &mut a, Side::Sell, S, 10).unwrap();
    place(&mut m, &mut b, Side::Buy, S, 3).unwrap();
    assert_eq!(m.asks.orders.len(), 1);
    assert_eq!(m.asks.orders[0].quantity, 10);
    assert_eq!(m.asks.orders[0].filled_quantity, 3);
    assert!(m.bids.orders.is_empty());
    assert_eq!(m.events.events.len(), 1);
    assert_eq!(m.events.events[0].quantity, 3);
    assert_eq!(m.events.events[0].event_type, EventType::Fill);
}

#[test]
fn buy_rests_then_sell_sweeps() {
    let mut m = new_market();
    let mut a = funded(alice(), 10, 0);
    let mut b = funded(bob(), 0, 10 * S);
    place(&mut m, &mut b, Side::Buy, S, 4).unwrap();
    assert_eq!(m.bids.orders.len(), 1);
    assert_eq!(m.bids.orders[0].quantity, 4);
    assert_eq!(m.bids.orders[0].side, Side::Buy);
    place(&mut m, &mut a, Side::Sell, S, 4).unwrap();
    assert!(m.bids.orders.is_empty());
    assert!(m.asks.orders.is_empty());
    assert_eq!(m.events.events.len(), 1);
    let e = m.events.events[0];
    assert_eq!(e.quantity, 4);
    assert_eq!(e.maker, bob());
    assert_eq!(e.taker, alice());
    assert_eq!(e.side, Side::Sell);
}

#[test]
fn cancel_before_match() {
    let mut m = new_market();
    let mut b = funded(bob(), 0, 10 * S);
    let before = b;
    place(&mut m, &mut b, Side::Buy, S, 2).unwrap();
    assert_eq!(b.locked_quote_balance, 2);
    let id = m.bids.orders[0].order_id;
    assert_eq!(process_cancel_order(&mut b, &mut m.bids, &mut m.asks, &mut m.events, id, TS), Ok(()));
    assert!(m.bids.orders.is_empty());
    assert_eq!(b.locked_quote_balance, 0);
    assert_eq!(b.available_quote_balance, before.available_quote_balance);
    assert_eq!(m.events.events.len(), 1);
    let e = m.events.events[0];
    assert_eq!(e.event_type, EventType::Out);
    assert_eq!(e.quantity, 2);
    assert_eq!(e.maker, bob());
    assert_eq!(e.taker, Address::zero());

    let mut balances = vec![b];
    assert_eq!(consume(&mut m, &mut balances), Ok(1));
    assert_eq!(balances[0], b);
    assert_eq!(m.events.events_to_process, 0);
}

#[test]
fn batch_consume_limit() {
    let mut m = new_market();
    let mut a = funded(alice(), 10, 0);
    let mut b = funded(bob(), 0, 10 * S);
    for _ in 0..10 {
        place(&mut m, &mut a, Side::Sell, S, 1).unwrap();
    }
    place(&mut m, &mut b, Side::Buy, S, 10).unwrap();
    assert_eq!(m.events.events.len(), 10);
    assert_eq!(m.events.seq_num, 10);
    let ids: Vec<u64> = m.events.events.iter().map(|e| e.maker_order_id).collect();

    let mut balances = vec![a, b];
    assert_eq!(consume(&mut m, &mut balances), Ok(7));
    assert_eq!(m.events.events_to_process, 3);
    assert_eq!(m.events.count, 3);
    let rest: Vec<u64> = m.events.events.iter().map(|e| e.maker_order_id).collect();
    assert_eq!(rest, ids[7..].to_vec());
    assert_eq!(balances[0].pending_quote_balance, 7);
    assert_eq!(balances[1].pending_base_balance, 7);

    assert_eq!(consume(&mut m, &mut balances), Ok(3));
    assert_eq!(m.events.events_to_process, 0);
    assert_eq!(balances[0].pending_quote_balance, 10);
    assert_eq!(balances[1].pending_base_balance, 10);
    assert_eq!(balances[0].locked_base_balance, 0);
    assert_eq!(balances[1].locked_quote_balance, 0);
    assert_eq!(m.events.seq_num, 10);
}

#[test]
fn self_trade_unlocks_both_sides() {
    let mut m = new_market();
    let mut a = funded(alice(), 10, 10 * S);
    place(&mut m, &mut a, Side::Sell, S, 2).unwrap();
    place(&mut m, &mut a, Side::Buy, S, 2).unwrap();
    assert!(m.asks.orders.is_empty());
    assert!(m.bids.orders.is_empty());
    assert_eq!(m.events.events.len(), 1);
    let e = m.events.events[0];
    assert_eq!(e.maker, e.taker);
    assert_eq!(e.event_type, EventType::Fill);
    assert_eq!(e.quantity, 2);
    assert_eq!(e.side, Side::Buy);
    assert_eq!(a.locked_quote_balance, 2);
    assert_eq!(a.locked_base_balance, 2);

    let mut balances = vec![a];
    assert_eq!(consume(&mut m, &mut balances), Ok(1));
    let a2 = balances[0];
    assert_eq!(a2.locked_quote_balance, 0);
    assert_eq!(a2.locked_base_balance, 0);
    assert_eq!(a2.available_quote_balance, 10 * S);
    assert_eq!(a2.available_base_balance, 10);
    assert_eq!(a2.pending_base_balance, a.pending_base_balance);
    assert_eq!(a2.pending_quote_balance, a.pending_quote_balance);
}

#[test]
fn book_full_leaves_state_unchanged() {
    let mut m = new_market();
    let mut b = funded(bob(), 0, 10 * S);
    for _ in 0..MAX_ORDERS {
        place(&mut m, &mut b, Side::Buy, S, 1).unwrap();
    }
    assert_eq!(m.bids.orders.len(), MAX_ORDERS);
    let balance_before = b;
    let next_before = m.state.next_order_id;
    let bids_before = m.bids.orders.clone();
    assert_eq!(place(&mut m, &mut b, Side::Buy, S, 1), Err(MarketError::BookFull));
    assert_eq!(b, balance_before);
    assert_eq!(m.state.next_order_id, next_before);
    assert_eq!(m.bids.orders, bids_before);
    assert_eq!(m.bids.active_orders_count, MAX_ORDERS as u64);
    assert!(m.events.events.is_empty());
}
