use vstd::prelude::*;

use crate::address::Address;
use crate::state::{quote_amount, quote_value, notional_fits, Side, UserBalance};

verus! {

/// Amounts a settlement pays out of the vaults to the user's wallets.
#[derive(Clone, Copy, Debug, PartialEq, Eq, Structural)]
pub struct Settlement {
    pub base: u64,
    pub quote: u64,
}

impl UserBalance {
    pub open spec fn total_base(&self) -> int {
        self.available_base_balance + self.locked_base_balance + self.pending_base_balance
    }

    pub open spec fn total_quote(&self) -> int {
        self.available_quote_balance + self.locked_quote_balance + self.pending_quote_balance
    }

    /// Each asset's three buckets add up to a `u64`.
    pub open spec fn wf(&self) -> bool {
        &&& self.total_base() <= u64::MAX as int
        &&& self.total_quote() <= u64::MAX as int
    }

    /// An empty balance record of `owner` in `market`.
    pub fn new(owner: Address, market: Address) -> (r: UserBalance)
        ensures
            r.owner == owner,
            r.market == market,
            r.available_base_balance == 0,
            r.available_quote_balance == 0,
            r.locked_base_balance == 0,
            r.locked_quote_balance == 0,
            r.pending_base_balance == 0,
            r.pending_quote_balance == 0,
            r.wf(),
    {
        UserBalance {
            owner,
            market,
            available_base_balance: 0,
            available_quote_balance: 0,
            locked_base_balance: 0,
            locked_quote_balance: 0,
            pending_base_balance: 0,
            pending_quote_balance: 0,
        }
    }

    pub fn is_wf(&self) -> (r: bool)
        ensures
            r == self.wf(),
    {
        let base: u128 = self.available_base_balance as u128 + self.locked_base_balance as u128
            + self.pending_base_balance as u128;
        let quote: u128 = self.available_quote_balance as u128 + self.locked_quote_balance as u128
            + self.pending_quote_balance as u128;
        base <= u64::MAX as u128 && quote <= u64::MAX as u128
    }
}

/// Base collateral an order of `side` for `quantity` locks.
pub open spec fn required_base(side: Side, quantity: u64) -> int {
    match side {
        Side::Sell => quantity as int,
        Side::Buy => 0,
    }
}

/// Quote collateral an order of `side` for `quantity` at `price` locks.
pub open spec fn required_quote(side: Side, quantity: u64, price: u64) -> int {
    match side {
        Side::Buy => quote_value(quantity, price),
        Side::Sell => 0,
    }
}

/// The balance has the collateral an order needs.
pub open spec fn can_lock(b: UserBalance, side: Side, quantity: u64, price: u64) -> bool {
    &&& b.available_base_balance >= required_base(side, quantity)
    &&& b.available_quote_balance >= required_quote(side, quantity, price)
}

/// The balance after an order's collateral moves from available to locked.
pub open spec fn locked_for_order(b: UserBalance, side: Side, quantity: u64, price: u64) -> UserBalance {
    let rb = required_base(side, quantity);
    let rq = required_quote(side, quantity, price);
    UserBalance {
        available_base_balance: (b.available_base_balance - rb) as u64,
        locked_base_balance: (b.locked_base_balance + rb) as u64,
        available_quote_balance: (b.available_quote_balance - rq) as u64,
        locked_quote_balance: (b.locked_quote_balance + rq) as u64,
        ..b
    }
}

/// The locked collateral that backs `remaining` unfilled units of an order on `side` at `price`.
pub open spec fn unlock_amount(side: Side, remaining: u64, price: u64) -> int {
    match side {
        Side::Buy => quote_value(remaining, price),
        Side::Sell => remaining as int,
    }
}

pub open spec fn can_unlock(b: UserBalance, side: Side, remaining: u64, price: u64) -> bool {
    match side {
        Side::Buy => b.locked_quote_balance >= unlock_amount(side, remaining, price),
        Side::Sell => b.locked_base_balance >= unlock_amount(side, remaining, price),
    }
}

/// The balance after the collateral of `remaining` units moves from locked back to available.
pub open spec fn unlocked(b: UserBalance, side: Side, remaining: u64, price: u64) -> UserBalance {
    let v = unlock_amount(side, remaining, price);
    match side {
        Side::Buy => UserBalance {
            locked_quote_balance: (b.locked_quote_balance - v) as u64,
            available_quote_balance: (b.available_quote_balance + v) as u64,
            ..b
        },
        Side::Sell => UserBalance {
            locked_base_balance: (b.locked_base_balance - v) as u64,
            available_base_balance: (b.available_base_balance + v) as u64,
            ..b
        },
    }
}

/// A buyer's side of a consumed fill: `quote` leaves locked, `quantity` base becomes pending.
pub open spec fn buy_fill(b: UserBalance, quantity: u64, quote: int) -> Option<UserBalance> {
    if b.locked_quote_balance >= quote && b.total_base() + quantity <= u64::MAX as int {
        Some(
            UserBalance {
                locked_quote_balance: (b.locked_quote_balance - quote) as u64,
                pending_base_balance: (b.pending_base_balance + quantity) as u64,
                ..b
            },
        )
    } else {
        None
    }
}

/// A seller's side of a consumed fill: `quantity` base leaves locked, `quote` becomes pending.
pub open spec fn sell_fill(b: UserBalance, quantity: u64, quote: int) -> Option<UserBalance> {
    if b.locked_base_balance >= quantity && b.total_quote() + quote <= u64::MAX as int {
        Some(
            UserBalance {
                locked_base_balance: (b.locked_base_balance - quantity) as u64,
                pending_quote_balance: (b.pending_quote_balance + quote) as u64,
                ..b
            },
        )
    } else {
        None
    }
}

/// The balance after settlement: both pending buckets paid out.
pub open spec fn settled(b: UserBalance) -> UserBalance {
    UserBalance { pending_base_balance: 0, pending_quote_balance: 0, ..b }
}

/// Moves an order's collateral from available to locked.
pub fn lock_for_order(b: &mut UserBalance, side: Side, quantity: u64, price: u64)
    requires
        old(b).wf(),
        notional_fits(quantity, price),
        can_lock(*old(b), side, quantity, price),
    ensures
        *final(b) == locked_for_order(*old(b), side, quantity, price),
        final(b).wf(),
{
    match side {
        Side::Sell => {
            b.available_base_balance = b.available_base_balance - quantity;
            b.locked_base_balance = b.locked_base_balance + quantity;
        },
        Side::Buy => {
            let q = quote_amount(quantity, price);
            b.available_quote_balance = b.available_quote_balance - q;
            b.locked_quote_balance = b.locked_quote_balance + q;
        },
    }
}

/// Moves the collateral of `remaining` units from locked back to available.
pub fn unlock(b: &mut UserBalance, side: Side, remaining: u64, price: u64)
    requires
        old(b).wf(),
        notional_fits(remaining, price),
        can_unlock(*old(b), side, remaining, price),
    ensures
        *final(b) == unlocked(*old(b), side, remaining, price),
        final(b).wf(),
{
    match side {
        Side::Sell => {
            b.locked_base_balance = b.locked_base_balance - remaining;
            b.available_base_balance = b.available_base_balance + remaining;
        },
        Side::Buy => {
            let q = quote_amount(remaining, price);
            b.locked_quote_balance = b.locked_quote_balance - q;
            b.available_quote_balance = b.available_quote_balance + q;
        },
    }
}

/// Applies the buyer's side of a fill where the balance allows it; reports whether it did.
pub fn apply_buy_fill(b: &mut UserBalance, quantity: u64, quote: u64) -> (r: bool)
    ensures
        r == buy_fill(*old(b), quantity, quote as int) is Some,
        r ==> *final(b) == buy_fill(*old(b), quantity, quote as int)->Some_0,
        old(b).wf() ==> final(b).wf(),
        !r ==> *final(b) == *old(b),
{
    let total: u128 = b.available_base_balance as u128 + b.locked_base_balance as u128
        + b.pending_base_balance as u128 + quantity as u128;
    if b.locked_quote_balance >= quote && total <= u64::MAX as u128 {
        b.locked_quote_balance = b.locked_quote_balance - quote;
        b.pending_base_balance = b.pending_base_balance + quantity;
        true
    } else {
        false
    }
}

/// Applies the seller's side of a fill where the balance allows it; reports whether it did.
pub fn apply_sell_fill(b: &mut UserBalance, quantity: u64, quote: u64) -> (r: bool)
    ensures
        r == sell_fill(*old(b), quantity, quote as int) is Some,
        r ==> *final(b) == sell_fill(*old(b), quantity, quote as int)->Some_0,
        old(b).wf() ==> final(b).wf(),
        !r ==> *final(b) == *old(b),
{
    let total: u128 = b.available_quote_balance as u128 + b.locked_quote_balance as u128
        + b.pending_quote_balance as u128 + quote as u128;
    if b.locked_base_balance >= quantity && total <= u64::MAX as u128 {
        b.locked_base_balance = b.locked_base_balance - quantity;
        b.pending_quote_balance = b.pending_quote_balance + quote;
        true
    } else {
        false
    }
}

/// Pays out both pending buckets: returns what leaves the vaults and zeroes the buckets.
pub fn process_settle_balance(b: &mut UserBalance) -> (r: Settlement)
    ensures
        r.base == old(b).pending_base_balance,
        r.quote == old(b).pending_quote_balance,
        *final(b) == settled(*old(b)),
        old(b).wf() ==> final(b).wf(),
        final(b).total_base() == old(b).total_base() - r.base,
        final(b).total_quote() == old(b).total_quote() - r.quote,
{
    let r = Settlement { base: b.pending_base_balance, quote: b.pending_quote_balance };
    b.pending_base_balance = 0;
    b.pending_quote_balance = 0;
    r
}

/// Credits `quantity` deposited base tokens to the available bucket.
pub fn process_create_acc_and_deposit_base_tokens(b: &mut UserBalance, quantity: u64)
    requires
        old(b).total_base() + quantity <= u64::MAX as int,
    ensures
        *final(b) == (UserBalance {
            available_base_balance: (old(b).available_base_balance + quantity) as u64,
            ..*old(b)
        }),
        final(b).total_base() == old(b).total_base() + quantity,
        old(b).wf() ==> final(b).wf(),
{
    b.available_base_balance = b.available_base_balance + quantity;
}

/// Credits `quantity` deposited quote tokens to the available bucket.
pub fn process_create_acc_and_deposit_quote_tokens(b: &mut UserBalance, quantity: u64)
    requires
        old(b).total_quote() + quantity <= u64::MAX as int,
    ensures
        *final(b) == (UserBalance {
            available_quote_balance: (old(b).available_quote_balance + quantity) as u64,
            ..*old(b)
        }),
        final(b).total_quote() == old(b).total_quote() + quantity,
        old(b).wf() ==> final(b).wf(),
{
    b.available_quote_balance = b.available_quote_balance + quantity;
}

/// Opens `owner`'s balance record in `market` when `existing` holds none, then credits
/// `quantity` deposited quote tokens to its available bucket.
pub fn process_create_update_user_balance_account(
    existing: Option<UserBalance>,
    owner: Address,
    market: Address,
    quantity: u64,
) -> (r: UserBalance)
    requires
        existing matches Some(b) ==> b.total_quote() + quantity <= u64::MAX as int,
    ensures
        r == match existing {
            Some(b) => UserBalance {
                available_quote_balance: (b.available_quote_balance + quantity) as u64,
                ..b
            },
            None => UserBalance {
                owner,
                market,
                available_base_balance: 0,
                available_quote_balance: quantity,
                locked_base_balance: 0,
                locked_quote_balance: 0,
                pending_base_balance: 0,
                pending_quote_balance: 0,
            },
        },
        existing matches Some(b) && b.wf() ==> r.wf(),
        existing is None ==> r.wf(),
{
    let mut b = match existing {
        Some(b) => b,
        None => UserBalance::new(owner, market),
    };
    process_create_acc_and_deposit_quote_tokens(&mut b, quantity);
    b
}

} // verus!
