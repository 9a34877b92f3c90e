use vstd::prelude::*;

use crate::address::Address;
use crate::book::{order_ids_fresh, OrderBook};
use crate::events::MarketEvents;
use crate::state::{MarketError, MarketState, Side};

verus! {

/// Fee rate, in basis points, recorded for a new market.
pub const DEFAULT_FEE_RATE_BPS: u16 = 30;

/// The accounts a new market is built from.
#[derive(Clone, Copy, Debug)]
pub struct MarketAccounts {
    pub authority: Address,
    pub consume_events_authority: Address,
    pub base_mint: Address,
    pub quote_mint: Address,
    pub fee_account: Address,
    pub base_vault: Address,
    pub quote_vault: Address,
    pub market_events: Address,
    pub bids: Address,
    pub asks: Address,
}

/// A freshly initialised market: its state, both empty sides of the book, and an empty queue.
#[derive(Debug)]
pub struct NewMarket {
    pub state: MarketState,
    pub bids: OrderBook,
    pub asks: OrderBook,
    pub events: MarketEvents,
}

/// The state a market starts with.
pub open spec fn initial_state(
    accounts: MarketAccounts,
    bump: u8,
    min_order_size: u64,
    tick_size: u64,
) -> MarketState {
    MarketState {
        authority: accounts.authority,
        consume_events_authority: accounts.consume_events_authority,
        base_mint: accounts.base_mint,
        quote_mint: accounts.quote_mint,
        fee_account: accounts.fee_account,
        base_vault: accounts.base_vault,
        quote_vault: accounts.quote_vault,
        market_events: accounts.market_events,
        bids: accounts.bids,
        asks: accounts.asks,
        min_order_size,
        tick_size,
        next_order_id: 1,
        last_price: 0,
        volume_24h: 0,
        fee_rate_bps: DEFAULT_FEE_RATE_BPS,
        bump,
        is_initialized: true,
    }
}

/// Sets up the market at `market_key`: a zero minimum order size or tick size is refused with
/// `InvalidInstructionData`, and a market already initialised with `AccountAlreadyInitialized`.
/// Order ids start at 1; both books and the queue start empty.
pub fn process_initialize_market(
    market_key: Address,
    accounts: &MarketAccounts,
    bump: u8,
    already_initialized: bool,
    min_order_size: u64,
    tick_size: u64,
) -> (r: Result<NewMarket, MarketError>)
    ensures
        min_order_size == 0 || tick_size == 0 ==> r == Err::<NewMarket, MarketError>(
            MarketError::InvalidInstructionData,
        ),
        min_order_size != 0 && tick_size != 0 && already_initialized ==> r == Err::<
            NewMarket,
            MarketError,
        >(MarketError::AccountAlreadyInitialized),
        min_order_size != 0 && tick_size != 0 && !already_initialized ==> r is Ok,
        r matches Ok(m) ==> {
            &&& m.state == initial_state(*accounts, bump, min_order_size, tick_size)
            &&& m.bids.wf() && m.asks.wf() && m.events.wf()
            &&& m.bids.orders@.len() == 0 && m.bids.market == market_key && m.bids.side == Side::Buy
            &&& m.asks.orders@.len() == 0 && m.asks.market == market_key && m.asks.side
                == Side::Sell
            &&& m.events.events@.len() == 0 && m.events.market == market_key
                && m.events.seq_num == 0
            &&& order_ids_fresh(m.state.next_order_id, m.bids.orders@, m.asks.orders@)
        },
{
    if min_order_size == 0 || tick_size == 0 {
        return Err(MarketError::InvalidInstructionData);
    }
    if already_initialized {
        return Err(MarketError::AccountAlreadyInitialized);
    }
    let state = MarketState {
        authority: accounts.authority,
        consume_events_authority: accounts.consume_events_authority,
        base_mint: accounts.base_mint,
        quote_mint: accounts.quote_mint,
        fee_account: accounts.fee_account,
        base_vault: accounts.base_vault,
        quote_vault: accounts.quote_vault,
        market_events: accounts.market_events,
        bids: accounts.bids,
        asks: accounts.asks,
        min_order_size,
        tick_size,
        next_order_id: 1,
        last_price: 0,
        volume_24h: 0,
        fee_rate_bps: DEFAULT_FEE_RATE_BPS,
        bump,
        is_initialized: true,
    };
    let bids = OrderBook::new(market_key, Side::Buy);
    let asks = OrderBook::new(market_key, Side::Sell);
    let events = MarketEvents::new(market_key);
    Ok(NewMarket { state, bids, asks, events })
}

} // verus!
