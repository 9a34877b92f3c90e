use vstd::prelude::*;

use crate::balance::{
    buy_fill, can_lock, can_unlock, locked_for_order, required_base, required_quote, sell_fill,
    settled, unlock_amount, unlocked,
};
use crate::address::Address;
use crate::consume::{
    all_wf, apply_event, apply_prefix, apply_to, balance_slot, batch_end, batch_end_from,
    consumed_before, first_balance, fill_op, lemma_balance_slot_first, owns_balance,
    self_trade_op,
};
use crate::events::MarketEvents;
use crate::state::{
    notional_fits, quote_value, Event, EventType, Side, UserBalance, MAX_EVENTS,
    MAX_EVENTS_TO_CONSUME,
};

verus! {

/// A fill between two different traders moves base and quote between them and creates or
/// destroys neither: the two records together hold as much of each asset afterwards.
pub proof fn law_fill_conserves_across_traders(maker: UserBalance, taker: UserBalance, e: Event)
    requires
        e.event_type == EventType::Fill,
        fill_op(e, e.side != Side::Buy)(maker) is Some,
        fill_op(e, e.side == Side::Buy)(taker) is Some,
    ensures
        ({
            let m1 = fill_op(e, e.side != Side::Buy)(maker)->Some_0;
            let t1 = fill_op(e, e.side == Side::Buy)(taker)->Some_0;
            &&& m1.total_base() + t1.total_base() == maker.total_base() + taker.total_base()
            &&& m1.total_quote() + t1.total_quote() == maker.total_quote() + taker.total_quote()
        }),
{
}

/// Locking collateral for an order, and unlocking it on cancellation, move tokens between
/// buckets of one record and leave each asset's total unchanged.
pub proof fn law_lock_unlock_keep_totals(b: UserBalance, side: Side, quantity: u64, price: u64)
    requires
        b.wf(),
    ensures
        can_lock(b, side, quantity, price) ==> {
            &&& locked_for_order(b, side, quantity, price).total_base() == b.total_base()
            &&& locked_for_order(b, side, quantity, price).total_quote() == b.total_quote()
        },
        can_unlock(b, side, quantity, price) ==> {
            &&& unlocked(b, side, quantity, price).total_base() == b.total_base()
            &&& unlocked(b, side, quantity, price).total_quote() == b.total_quote()
        },
{
}

/// No transition takes a bucket below zero or past the `u64` range: on a well-formed record,
/// whenever a transition applies, each bucket moves by exactly the stated amount.
pub proof fn law_buckets_stay_in_range(
    b: UserBalance,
    side: Side,
    quantity: u64,
    price: u64,
    quote: int,
)
    requires
        b.wf(),
        notional_fits(quantity, price),
        quote >= 0,
    ensures
        can_lock(b, side, quantity, price) ==> {
            let r = locked_for_order(b, side, quantity, price);
            &&& r.available_base_balance == b.available_base_balance - required_base(side, quantity)
            &&& r.locked_base_balance == b.locked_base_balance + required_base(side, quantity)
            &&& r.available_quote_balance == b.available_quote_balance - required_quote(
                side,
                quantity,
                price,
            )
            &&& r.locked_quote_balance == b.locked_quote_balance + required_quote(
                side,
                quantity,
                price,
            )
            &&& r.wf()
        },
        can_unlock(b, side, quantity, price) ==> {
            let r = unlocked(b, side, quantity, price);
            let v = unlock_amount(side, quantity, price);
            &&& side == Side::Buy ==> r.locked_quote_balance == b.locked_quote_balance - v
                && r.available_quote_balance == b.available_quote_balance + v
            &&& side == Side::Sell ==> r.locked_base_balance == b.locked_base_balance - v
                && r.available_base_balance == b.available_base_balance + v
            &&& r.wf()
        },
        buy_fill(b, quantity, quote) matches Some(r) ==> {
            &&& r.locked_quote_balance == b.locked_quote_balance - quote
            &&& r.pending_base_balance == b.pending_base_balance + quantity
            &&& r.wf()
        },
        sell_fill(b, quantity, quote) matches Some(r) ==> {
            &&& r.locked_base_balance == b.locked_base_balance - quantity
            &&& r.pending_quote_balance == b.pending_quote_balance + quote
            &&& r.wf()
        },
{
    lemma_quote_value_nonneg(quantity, price);
}

proof fn lemma_quote_value_nonneg(quantity: u64, price: u64)
    ensures
        quote_value(quantity, price) >= 0,
{
    assert(quantity as int * price as int >= 0) by (nonlinear_arith);
}

/// Placing an order and cancelling it before any fill gives every bucket its old value back:
/// the cancellation unlocks exactly what the placement locked.
pub proof fn law_cancel_round_trip(b: UserBalance, side: Side, quantity: u64, price: u64)
    requires
        b.wf(),
        notional_fits(quantity, price),
        can_lock(b, side, quantity, price),
    ensures
        can_unlock(locked_for_order(b, side, quantity, price), side, quantity, price),
        unlocked(locked_for_order(b, side, quantity, price), side, quantity, price) == b,
{
    assert(unlock_amount(side, quantity, price) == match side {
        Side::Buy => required_quote(side, quantity, price),
        Side::Sell => quantity as int,
    });
}

/// Consuming the `Out` event of a cancellation changes no balance: the cancellation already
/// unlocked the collateral, so placing, cancelling and consuming leaves the record as it was.
pub proof fn law_out_event_changes_no_balance(s: Seq<UserBalance>, e: Event, market: Address)
    requires
        e.event_type == EventType::Out,
    ensures
        apply_event(s, e, market) == Some(s),
{
}

/// Settling twice in a row has the effect of settling once; the second pays out nothing.
pub proof fn law_settle_idempotent(b: UserBalance)
    ensures
        settled(settled(b)) == settled(b),
        settled(b).pending_base_balance == 0,
        settled(b).pending_quote_balance == 0,
{
}

/// A well-formed queue never has more events to process than it holds, nor more than its
/// capacity.
pub proof fn law_queue_bound(q: MarketEvents)
    requires
        q.wf(),
    ensures
        q.events_to_process <= q.count <= MAX_EVENTS,
{
}

/// Base tokens held across all records.
pub open spec fn base_sum(s: Seq<UserBalance>) -> int
    decreases s.len(),
{
    if s.len() == 0 {
        0
    } else {
        base_sum(s.drop_last()) + s.last().total_base()
    }
}

/// Quote tokens held across all records.
pub open spec fn quote_sum(s: Seq<UserBalance>) -> int
    decreases s.len(),
{
    if s.len() == 0 {
        0
    } else {
        quote_sum(s.drop_last()) + s.last().total_quote()
    }
}

proof fn lemma_sums_update(s: Seq<UserBalance>, i: int, b: UserBalance)
    requires
        0 <= i < s.len(),
    ensures
        base_sum(s.update(i, b)) == base_sum(s) - s[i].total_base() + b.total_base(),
        quote_sum(s.update(i, b)) == quote_sum(s) - s[i].total_quote() + b.total_quote(),
    decreases s.len(),
{
    let u = s.update(i, b);
    if i == s.len() - 1 {
        assert(u.drop_last() =~= s.drop_last());
    } else {
        lemma_sums_update(s.drop_last(), i, b);
        assert(u.drop_last() =~= s.drop_last().update(i, b));
    }
}

/// Applying a consumed event to records that hold both of its participants keeps each asset's
/// total across all the records: a trade only moves tokens between the two traders.
pub proof fn law_consumed_event_conserves(s: Seq<UserBalance>, e: Event, market: Address)
    requires
        all_wf(s),
        balance_slot(s, e.maker, market) is Some,
        balance_slot(s, e.taker, market) is Some,
        apply_event(s, e, market) is Some,
    ensures
        base_sum(apply_event(s, e, market)->Some_0) == base_sum(s),
        quote_sum(apply_event(s, e, market)->Some_0) == quote_sum(s),
{
    if e.is_hole() || e.event_type == EventType::Out {
    } else if e.maker == e.taker {
        let i = balance_slot(s, e.maker, market)->Some_0;
        let b1 = self_trade_op(e)(s[i])->Some_0;
        let half = unlocked(s[i], Side::Sell, e.quantity, e.price);
        law_lock_unlock_keep_totals(s[i], Side::Sell, e.quantity, e.price);
        law_lock_unlock_keep_totals(half, Side::Buy, e.quantity, e.price);
        lemma_sums_update(s, i, b1);
    } else {
        let taker_buys = e.side == Side::Buy;
        let i = balance_slot(s, e.maker, market)->Some_0;
        let m1 = fill_op(e, !taker_buys)(s[i])->Some_0;
        let s1 = s.update(i, m1);
        lemma_sums_update(s, i, m1);
        assert(apply_to(s, e.maker, market, fill_op(e, !taker_buys)) == Some(s1));
        let j = balance_slot(s, e.taker, market)->Some_0;
        assert(first_balance(s, e.taker, market, j));
        assert(j != i);
        assert(s1[j] == s[j]);
        assert forall|q: int| 0 <= q < j implies !owns_balance(
            #[trigger] s1[q],
            e.taker,
            market,
        ) by {
            if q == i {
                assert(s1[q].owner == e.maker);
            } else {
                assert(s1[q] == s[q]);
            }
        }
        lemma_balance_slot_first(s1, e.taker, market, j);
        let t1 = fill_op(e, taker_buys)(s1[j])->Some_0;
        lemma_sums_update(s1, j, t1);
        law_fill_conserves_across_traders(s[i], s[j], e);
    }
}

/// Two record sequences with the same owner and market in every slot.
pub open spec fn same_holders(s: Seq<UserBalance>, t: Seq<UserBalance>) -> bool {
    &&& s.len() == t.len()
    &&& forall|i: int|
        0 <= i < s.len() ==> (#[trigger] s[i]).owner == t[i].owner && s[i].market == t[i].market
}

proof fn lemma_same_holders_slot(s: Seq<UserBalance>, t: Seq<UserBalance>, user: Address, market: Address)
    requires
        same_holders(s, t),
    ensures
        balance_slot(s, user, market) == balance_slot(t, user, market),
{
    assert forall|i: int| first_balance(s, user, market, i) <==> first_balance(t, user, market, i) by {
        if first_balance(s, user, market, i) {
            assert forall|j: int| 0 <= j < i implies !owns_balance(#[trigger] t[j], user, market) by {
                assert(!owns_balance(s[j], user, market));
            }
        }
        if first_balance(t, user, market, i) {
            assert forall|j: int| 0 <= j < i implies !owns_balance(#[trigger] s[j], user, market) by {
                assert(!owns_balance(t[j], user, market));
            }
        }
    }
    if let Some(i) = balance_slot(t, user, market) {
        let k = choose|k: int| first_balance(t, user, market, k);
        assert(first_balance(s, user, market, k));
        lemma_balance_slot_first(s, user, market, k);
    } else if let Some(i) = balance_slot(s, user, market) {
        let k = choose|k: int| first_balance(s, user, market, k);
        assert(first_balance(t, user, market, k));
    }
}

proof fn lemma_apply_to_shape(
    s: Seq<UserBalance>,
    user: Address,
    market: Address,
    op: spec_fn(UserBalance) -> Option<UserBalance>,
)
    requires
        apply_to(s, user, market, op) is Some,
        forall|b: UserBalance|
            #![trigger op(b)]
            b.wf() && op(b) is Some ==> op(b)->Some_0.wf() && op(b)->Some_0.owner == b.owner
                && op(b)->Some_0.market == b.market,
        all_wf(s),
    ensures
        same_holders(s, apply_to(s, user, market, op)->Some_0),
        all_wf(apply_to(s, user, market, op)->Some_0),
{
    if let Some(i) = balance_slot(s, user, market) {
        let k = choose|k: int| first_balance(s, user, market, k);
        let b = s[i];
        assert(op(b) is Some);
        let r = s.update(i, op(b)->Some_0);
        assert forall|j: int| 0 <= j < r.len() implies (#[trigger] r[j]).wf() by {
            if j != i {
                assert(r[j] == s[j]);
            }
        }
    }
}

proof fn lemma_apply_event_shape(s: Seq<UserBalance>, e: Event, market: Address)
    requires
        all_wf(s),
        apply_event(s, e, market) is Some,
    ensures
        same_holders(s, apply_event(s, e, market)->Some_0),
        all_wf(apply_event(s, e, market)->Some_0),
{
    if e.is_hole() || e.event_type == EventType::Out {
        assert(same_holders(s, s));
    } else if e.maker == e.taker {
        assert forall|b: UserBalance|
            #![trigger self_trade_op(e)(b)]
            b.wf() && self_trade_op(e)(b) is Some implies self_trade_op(e)(b)->Some_0.wf()
                && self_trade_op(e)(b)->Some_0.owner == b.owner && self_trade_op(e)(b)->Some_0.market
                == b.market by {
            law_lock_unlock_keep_totals(b, Side::Sell, e.quantity, e.price);
            law_lock_unlock_keep_totals(
                unlocked(b, Side::Sell, e.quantity, e.price),
                Side::Buy,
                e.quantity,
                e.price,
            );
        }
        lemma_apply_to_shape(s, e.maker, market, self_trade_op(e));
    } else {
        let taker_buys = e.side == Side::Buy;
        assert forall|buyer: bool, b: UserBalance|
            #![trigger fill_op(e, buyer)(b)]
            b.wf() && fill_op(e, buyer)(b) is Some implies fill_op(e, buyer)(b)->Some_0.wf()
                && fill_op(e, buyer)(b)->Some_0.owner == b.owner && fill_op(e, buyer)(b)->Some_0.market
                == b.market by {}
        lemma_apply_to_shape(s, e.maker, market, fill_op(e, !taker_buys));
        let s1 = apply_to(s, e.maker, market, fill_op(e, !taker_buys))->Some_0;
        lemma_apply_to_shape(s1, e.taker, market, fill_op(e, taker_buys));
    }
}

/// One consumer call keeps each asset's total across the records it is handed, provided every
/// trade it applies finds both of its traders among them: consumption only moves tokens between
/// the two sides of each trade and between buckets of one record.
pub proof fn law_consumed_batch_conserves(
    s: Seq<UserBalance>,
    evs: Seq<Event>,
    n: nat,
    market: Address,
)
    requires
        all_wf(s),
        n <= evs.len(),
        forall|k: int|
            0 <= k < n && !(#[trigger] evs[k]).is_hole() && evs[k].event_type == EventType::Fill
                ==> balance_slot(s, evs[k].maker, market) is Some && balance_slot(
                s,
                evs[k].taker,
                market,
            ) is Some,
        apply_prefix(s, evs, n, market) is Some,
    ensures
        same_holders(s, apply_prefix(s, evs, n, market)->Some_0),
        all_wf(apply_prefix(s, evs, n, market)->Some_0),
        base_sum(apply_prefix(s, evs, n, market)->Some_0) == base_sum(s),
        quote_sum(apply_prefix(s, evs, n, market)->Some_0) == quote_sum(s),
    decreases n,
{
    if n == 0 {
        assert(same_holders(s, s));
    } else {
        let m = (n - 1) as nat;
        if apply_prefix(s, evs, m, market) is None {
            lemma_apply_prefix_none_grows(s, evs, m, market);
        }
        law_consumed_batch_conserves(s, evs, m, market);
        let s1 = apply_prefix(s, evs, m, market)->Some_0;
        let e = evs[m as int];
        lemma_same_holders_slot(s, s1, e.maker, market);
        lemma_same_holders_slot(s, s1, e.taker, market);
        lemma_apply_event_shape(s1, e, market);
        let s2 = apply_event(s1, e, market)->Some_0;
        if e.is_hole() || e.event_type == EventType::Out {
        } else {
            law_consumed_event_conserves(s1, e, market);
        }
        assert forall|i: int| 0 <= i < s.len() implies (#[trigger] s[i]).owner == s2[i].owner
            && s[i].market == s2[i].market by {
            assert(s1[i].owner == s2[i].owner);
        }
    }
}

proof fn lemma_apply_prefix_none_grows(s: Seq<UserBalance>, evs: Seq<Event>, m: nat, market: Address)
    requires
        apply_prefix(s, evs, m, market) is None,
    ensures
        apply_prefix(s, evs, m + 1, market) is None,
{
}

proof fn lemma_no_holes_all_count(evs: Seq<Event>, i: int)
    requires
        0 <= i <= evs.len(),
        forall|k: int| 0 <= k < evs.len() ==> !(#[trigger] evs[k]).is_hole(),
    ensures
        consumed_before(evs, i) == i,
    decreases i,
{
    if i > 0 {
        lemma_no_holes_all_count(evs, i - 1);
    }
}

proof fn lemma_no_holes_batch_from(evs: Seq<Event>, i: nat)
    requires
        i <= evs.len(),
        i <= MAX_EVENTS_TO_CONSUME,
        forall|k: int| 0 <= k < evs.len() ==> !(#[trigger] evs[k]).is_hole(),
    ensures
        batch_end_from(evs, i) == if evs.len() < MAX_EVENTS_TO_CONSUME {
            evs.len()
        } else {
            MAX_EVENTS_TO_CONSUME as nat
        },
    decreases evs.len() - i,
{
    lemma_no_holes_all_count(evs, i as int);
    if !(i >= evs.len() || i >= MAX_EVENTS_TO_CONSUME) {
        lemma_no_holes_batch_from(evs, i + 1);
    }
}

/// On a queue without holes, one consumer call scans and applies exactly the first
/// `min(len, MAX_EVENTS_TO_CONSUME)` events, in queue order.
pub proof fn law_batch_takes_the_first_events(evs: Seq<Event>)
    requires
        forall|k: int| 0 <= k < evs.len() ==> !(#[trigger] evs[k]).is_hole(),
    ensures
        batch_end(evs) == if evs.len() < MAX_EVENTS_TO_CONSUME {
            evs.len()
        } else {
            MAX_EVENTS_TO_CONSUME as nat
        },
        consumed_before(evs, batch_end(evs) as int) == batch_end(evs),
{
    lemma_no_holes_batch_from(evs, 0);
    lemma_no_holes_all_count(evs, batch_end(evs) as int);
}

} // verus!
