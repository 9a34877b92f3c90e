//! A central-limit order book for one base/quote pair: limit orders matched against resting
//! liquidity in slot order, fills and cancellations recorded in an event queue, a consumer that
//! moves matched collateral from locked to pending, and settlement that pays pending out.
pub mod address;
pub mod state;
pub mod balance;
pub mod book;
pub mod events;
pub mod matching;
pub mod cancel;
pub mod consume;
pub mod market;
pub mod laws;

pub use address::Address;
pub use balance::{
    process_create_acc_and_deposit_base_tokens, process_create_acc_and_deposit_quote_tokens,
    process_create_update_user_balance_account, process_settle_balance, Settlement,
};
pub use book::OrderBook;
pub use cancel::process_cancel_order;
pub use consume::process_consume_events;
pub use events::MarketEvents;
pub use market::{process_initialize_market, MarketAccounts, NewMarket};
pub use matching::{process_place_order, VaultTransfer};
pub use state::{
    Asset, Event, EventType, Instruction, MarketError, MarketState, Order, Side, UserBalance,
    MAX_EVENTS, MAX_EVENTS_TO_CONSUME, MAX_ORDERS, PRICE_SCALE,
};
