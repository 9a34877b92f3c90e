use vstd::prelude::*;

use crate::address::Address;

verus! {

/// Capacity of each side of the book.
pub const MAX_ORDERS: usize = 1024;

/// Capacity of the event queue.
pub const MAX_EVENTS: usize = 512;

/// Most events one consumer invocation applies.
pub const MAX_EVENTS_TO_CONSUME: usize = 7;

/// Fixed-point scale relating base quantity times price to a quote amount.
pub const PRICE_SCALE: u64 = 1_000_000_000;

#[derive(Clone, Copy, Debug, PartialEq, Eq, Structural)]
pub enum Side {
    Buy,
    Sell,
}

#[derive(Clone, Copy, Debug, PartialEq, Eq, Structural)]
pub enum EventType {
    Fill,
    Out,
}

/// The two assets of a pair.
#[derive(Clone, Copy, Debug, PartialEq, Eq, Structural)]
pub enum Asset {
    Base,
    Quote,
}

/// Errors a market operation can report; every failing operation leaves its records unchanged.
#[derive(Clone, Copy, Debug, PartialEq, Eq, Structural)]
pub enum MarketError {
    MissingSignature,
    InvalidAccount,
    IncorrectProgram,
    InvalidInstructionData,
    AccountAlreadyInitialized,
    InsufficientFunds,
    BookFull,
    OrderNotFound,
    QueueFull,
    /// A consumed event asked for more locked collateral than the balance holds,
    /// or would push a balance past the `u64` range.
    BalanceMismatch,
}

impl MarketError {
    /// The custom error number that the market reports for this error, where it has one.
    pub fn custom_code(&self) -> (r: Option<u32>)
        ensures
            r == match *self {
                MarketError::QueueFull => Some(1u32),
                MarketError::BookFull => Some(2u32),
                MarketError::OrderNotFound => Some(3u32),
                _ => None,
            },
    {
        match self {
            MarketError::QueueFull => Some(1),
            MarketError::BookFull => Some(2),
            MarketError::OrderNotFound => Some(3),
            _ => None,
        }
    }
}

/// A request to the market, as decoded from a transaction.
#[derive(Clone, Copy, Debug, PartialEq, Eq)]
pub enum Instruction {
    InitializeMarket { min_order_size: u64, tick_size: u64 },
    DepositQuoteTokens { quantity: u64 },
    DepositBaseTokens { quantity: u64 },
    PlaceOrder { side: Side, price: u64, quantity: u64 },
    ConsumeEvents,
    SettleBalance,
    CancelOrder { order_id: u64 },
}

/// Per-market configuration and the order id counter.
#[derive(Clone, Copy, Debug)]
pub struct MarketState {
    pub authority: Address,
    pub consume_events_authority: Address,
    pub base_mint: Address,
    pub quote_mint: Address,
    pub fee_account: Address,
    pub base_vault: Address,
    pub quote_vault: Address,
    pub market_events: Address,
    pub bids: Address,
    pub asks: Address,
    pub min_order_size: u64,
    pub tick_size: u64,
    pub next_order_id: u64,
    pub last_price: u64,
    pub volume_24h: u64,
    pub fee_rate_bps: u16,
    pub bump: u8,
    pub is_initialized: bool,
}

/// One user's six balance buckets in one market.
#[derive(Clone, Copy, Debug, PartialEq, Eq)]
pub struct UserBalance {
    pub owner: Address,
    pub market: Address,
    pub available_base_balance: u64,
    pub available_quote_balance: u64,
    pub locked_base_balance: u64,
    pub locked_quote_balance: u64,
    pub pending_base_balance: u64,
    pub pending_quote_balance: u64,
}

/// A resting limit order.
#[derive(Clone, Copy, Debug, PartialEq, Eq)]
pub struct Order {
    pub owner: Address,
    pub market: Address,
    pub timestamp: i64,
    pub order_id: u64,
    pub price: u64,
    pub quantity: u64,
    pub filled_quantity: u64,
    pub side: Side,
}

/// A fill or a cancellation, as recorded in the event queue.
#[derive(Clone, Copy, Debug, PartialEq, Eq)]
pub struct Event {
    pub maker: Address,
    pub taker: Address,
    pub timestamp: i64,
    pub maker_order_id: u64,
    pub quantity: u64,
    pub price: u64,
    pub event_type: EventType,
    pub side: Side,
}

/// `quantity * price` fits in a `u64`.
pub open spec fn notional_fits(quantity: u64, price: u64) -> bool {
    quantity as int * price as int <= u64::MAX as int
}

/// Quote amount for `quantity` base units at `price`, truncated toward zero.
pub open spec fn quote_value(quantity: u64, price: u64) -> int {
    (quantity as int * price as int) / (PRICE_SCALE as int)
}

/// Computes `quantity * price / PRICE_SCALE`.
pub fn quote_amount(quantity: u64, price: u64) -> (r: u64)
    requires
        notional_fits(quantity, price),
    ensures
        r as int == quote_value(quantity, price),
        r <= quantity as int * price as int,
{
    let product: u64 = quantity * price;
    product / PRICE_SCALE
}

/// A smaller quantity at the same price has a notional that fits too.
pub proof fn lemma_notional_smaller(small: u64, large: u64, price: u64)
    requires
        small <= large,
        notional_fits(large, price),
    ensures
        notional_fits(small, price),
{
    assert(small as int * price as int <= large as int * price as int) by (nonlinear_arith)
        requires
            small <= large,
    ;
}

impl Order {
    /// A resting order: partly unfilled, with a notional that fits in a `u64`.
    pub open spec fn resting(&self) -> bool {
        &&& self.filled_quantity < self.quantity
        &&& notional_fits(self.quantity, self.price)
    }

    /// Filled at most up to its quantity, with a notional that fits in a `u64`.
    pub open spec fn live(&self) -> bool {
        &&& self.filled_quantity <= self.quantity
        &&& notional_fits(self.quantity, self.price)
    }

    pub open spec fn remaining(&self) -> int {
        self.quantity - self.filled_quantity
    }
}

impl Event {
    /// A queued event carries a notional that fits in a `u64`.
    pub open spec fn wf(&self) -> bool {
        notional_fits(self.quantity, self.price)
    }

    /// An event with neither maker nor taker: a hole that the consumer skips.
    pub open spec fn is_hole(&self) -> bool {
        self.maker == crate::address::zero_address() && self.taker
            == crate::address::zero_address()
    }
}

} // verus!
