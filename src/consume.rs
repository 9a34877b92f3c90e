use vstd::prelude::*;

use crate::address::Address;
use crate::balance::{
    apply_buy_fill, apply_sell_fill, buy_fill, can_unlock, sell_fill, unlock, unlocked,
};
use crate::events::MarketEvents;
use crate::state::{
    quote_amount, quote_value, Event, EventType, MarketError, MarketState, Side, UserBalance,
    MAX_EVENTS_TO_CONSUME,
};

verus! {

/// Record `b` is `user`'s balance in `market`.
pub open spec fn owns_balance(b: UserBalance, user: Address, market: Address) -> bool {
    b.owner == user && b.market == market
}

/// Slot `i` is the first record of `s` that is `user`'s balance in `market`.
pub open spec fn first_balance(s: Seq<UserBalance>, user: Address, market: Address, i: int) -> bool {
    &&& 0 <= i < s.len()
    &&& owns_balance(s[i], user, market)
    &&& forall|j: int| 0 <= j < i ==> !owns_balance(#[trigger] s[j], user, market)
}

/// The slot of `user`'s balance in `market` among the records handed to the consumer, if any.
pub open spec fn balance_slot(s: Seq<UserBalance>, user: Address, market: Address) -> Option<int> {
    if exists|i: int| first_balance(s, user, market, i) {
        Some(choose|i: int| first_balance(s, user, market, i))
    } else {
        None
    }
}

/// Every record handed to the consumer is well formed.
pub open spec fn all_wf(s: Seq<UserBalance>) -> bool {
    forall|i: int| 0 <= i < s.len() ==> (#[trigger] s[i]).wf()
}

/// Applies `op` to `user`'s record where there is one; a missing record is skipped.
pub open spec fn apply_to(
    s: Seq<UserBalance>,
    user: Address,
    market: Address,
    op: spec_fn(UserBalance) -> Option<UserBalance>,
) -> Option<Seq<UserBalance>> {
    match balance_slot(s, user, market) {
        None => Some(s),
        Some(i) => match op(s[i]) {
            Some(b) => Some(s.update(i, b)),
            None => None,
        },
    }
}

/// One participant's change from a fill: the buyer's quote leaves locked and base becomes
/// pending; the seller's base leaves locked and quote becomes pending.
pub open spec fn fill_op(e: Event, buyer: bool) -> spec_fn(UserBalance) -> Option<UserBalance> {
    let v = quote_value(e.quantity, e.price);
    if buyer {
        |b: UserBalance| buy_fill(b, e.quantity, v)
    } else {
        |b: UserBalance| sell_fill(b, e.quantity, v)
    }
}

/// A self-trade unlocks what both of its sides had locked: the filled base quantity of the
/// sell side and the fill's quote value of the buy side return to the available buckets, once.
pub open spec fn self_trade_op(e: Event) -> spec_fn(UserBalance) -> Option<UserBalance> {
    |b: UserBalance|
        if can_unlock(b, Side::Sell, e.quantity, e.price) && can_unlock(
            b,
            Side::Buy,
            e.quantity,
            e.price,
        ) {
            Some(
                unlocked(
                    unlocked(b, Side::Sell, e.quantity, e.price),
                    Side::Buy,
                    e.quantity,
                    e.price,
                ),
            )
        } else {
            None
        }
}

/// The records after the consumer applies event `e`; `None` where a record cannot take it.
/// Holes and `Out` events leave balances alone: a cancellation has already unlocked its
/// collateral.
pub open spec fn apply_event(s: Seq<UserBalance>, e: Event, market: Address) -> Option<
    Seq<UserBalance>,
> {
    if e.is_hole() || e.event_type == EventType::Out {
        Some(s)
    } else if e.maker == e.taker {
        apply_to(s, e.maker, market, self_trade_op(e))
    } else {
        let taker_buys = e.side == Side::Buy;
        match apply_to(s, e.maker, market, fill_op(e, !taker_buys)) {
            None => None,
            Some(s1) => apply_to(s1, e.taker, market, fill_op(e, taker_buys)),
        }
    }
}

/// The records after applying the first `n` events in order.
pub open spec fn apply_prefix(s: Seq<UserBalance>, evs: Seq<Event>, n: nat, market: Address) -> Option<
    Seq<UserBalance>,
>
    decreases n,
{
    if n == 0 {
        Some(s)
    } else {
        match apply_prefix(s, evs, (n - 1) as nat, market) {
            None => None,
            Some(s1) => apply_event(s1, evs[n - 1], market),
        }
    }
}

/// Events among the first `i` that are not holes.
pub open spec fn consumed_before(evs: Seq<Event>, i: int) -> nat
    decreases i,
{
    if i <= 0 {
        0
    } else {
        consumed_before(evs, i - 1) + if evs[i - 1].is_hole() {
            0nat
        } else {
            1nat
        }
    }
}

/// Where a scan that started at 0 and reached `i` stops: at the end of the queue or once the
/// batch holds `MAX_EVENTS_TO_CONSUME` events.
pub open spec fn batch_end_from(evs: Seq<Event>, i: nat) -> nat
    decreases evs.len() - i,
{
    if i >= evs.len() || consumed_before(evs, i as int) >= MAX_EVENTS_TO_CONSUME {
        i
    } else {
        batch_end_from(evs, i + 1)
    }
}

/// Number of queue slots one consumer invocation scans.
pub open spec fn batch_end(evs: Seq<Event>) -> nat {
    batch_end_from(evs, 0)
}

/// The holes among the first `n` events, in queue order: what of a scanned stretch stays queued.
pub open spec fn holes_before(evs: Seq<Event>, n: nat) -> Seq<Event>
    decreases n,
{
    if n == 0 {
        Seq::empty()
    } else {
        let kept = holes_before(evs, (n - 1) as nat);
        if evs[n - 1].is_hole() {
            kept.push(evs[n - 1])
        } else {
            kept
        }
    }
}

/// How the queue and records relate before and after one consumer invocation.
pub open spec fn events_consumed(
    m: MarketState,
    authority: Address,
    ev0: MarketEvents,
    s0: Seq<UserBalance>,
    ev1: MarketEvents,
    s1: Seq<UserBalance>,
    r: Result<usize, MarketError>,
) -> bool {
    let evs = ev0.events@;
    let n = batch_end(evs);
    if authority != m.consume_events_authority {
        &&& r == Err::<usize, MarketError>(MarketError::InvalidAccount)
        &&& ev1 == ev0
        &&& s1 == s0
    } else {
        match apply_prefix(s0, evs, n, ev0.market) {
            None => {
                &&& r == Err::<usize, MarketError>(MarketError::BalanceMismatch)
                &&& ev1 == ev0
                &&& s1 == s0
            },
            Some(s) => {
                &&& r == Ok::<usize, MarketError>(consumed_before(evs, n as int) as usize)
                &&& s1 == s
                &&& ev1.events@ == holes_before(evs, n) + evs.subrange(n as int, evs.len() as int)
                &&& ev1.events_to_process == ev0.events_to_process - consumed_before(evs, n as int)
                &&& ev1.seq_num == ev0.seq_num
                &&& ev1.market == ev0.market
            },
        }
    }
}

} // verus!

verus! {

pub proof fn lemma_balance_slot_first(s: Seq<UserBalance>, user: Address, market: Address, i: int)
    requires
        first_balance(s, user, market, i),
    ensures
        balance_slot(s, user, market) == Some(i),
{
    let k = choose|k: int| first_balance(s, user, market, k);
    assert(first_balance(s, user, market, k));
    if k < i {
        assert(!owns_balance(s[k], user, market));
    } else if k > i {
        assert(!owns_balance(s[i], user, market));
    }
}

pub proof fn lemma_balance_slot_none(s: Seq<UserBalance>, user: Address, market: Address)
    requires
        forall|j: int| 0 <= j < s.len() ==> !owns_balance(#[trigger] s[j], user, market),
    ensures
        balance_slot(s, user, market) is None,
{
    if exists|i: int| first_balance(s, user, market, i) {
        let k = choose|k: int| first_balance(s, user, market, k);
        assert(owns_balance(s[k], user, market));
    }
}

/// Once a record cannot take an event, no longer prefix can be applied either.
pub proof fn lemma_apply_prefix_stuck(
    s: Seq<UserBalance>,
    evs: Seq<Event>,
    a: nat,
    b: nat,
    market: Address,
)
    requires
        a <= b,
        apply_prefix(s, evs, a, market) is None,
    ensures
        apply_prefix(s, evs, b, market) is None,
    decreases b,
{
    if a < b {
        lemma_apply_prefix_stuck(s, evs, a, (b - 1) as nat, market);
    }
}

pub proof fn lemma_batch_end_from_at_least(evs: Seq<Event>, i: nat)
    ensures
        batch_end_from(evs, i) >= i,
        batch_end_from(evs, i) <= if i >= evs.len() { i } else { evs.len() },
    decreases evs.len() - i,
{
    if !(i >= evs.len() || consumed_before(evs, i as int) >= MAX_EVENTS_TO_CONSUME) {
        lemma_batch_end_from_at_least(evs, i + 1);
    }
}

fn find_balance(s: &Vec<UserBalance>, user: &Address, market: &Address) -> (r: Option<usize>)
    ensures
        match r {
            Some(i) => first_balance(s@, *user, *market, i as int),
            None => forall|j: int|
                0 <= j < s@.len() ==> !owns_balance(#[trigger] s@[j], *user, *market),
        },
{
    let mut i: usize = 0;
    while i < s.len()
        invariant
            i <= s@.len(),
            forall|j: int| 0 <= j < i ==> !owns_balance(#[trigger] s@[j], *user, *market),
        decreases s@.len() - i,
    {
        if s[i].owner.same_as(user) && s[i].market.same_as(market) {
            return Some(i);
        }
        i = i + 1;
    }
    None
}

/// Applies one participant's side of a fill to its record, if the record is present.
fn apply_fill_to(
    work: &mut Vec<UserBalance>,
    user: &Address,
    market: &Address,
    e: &Event,
    buyer: bool,
) -> (ok: bool)
    requires
        all_wf(old(work)@),
        e.wf(),
    ensures
        ok == apply_to(old(work)@, *user, *market, fill_op(*e, buyer)) is Some,
        ok ==> final(work)@ == apply_to(old(work)@, *user, *market, fill_op(*e, buyer))->Some_0,
        all_wf(final(work)@),
{
    match find_balance(work, user, market) {
        None => {
            proof {
                lemma_balance_slot_none(work@, *user, *market);
            }
            true
        },
        Some(i) => {
            proof {
                lemma_balance_slot_first(work@, *user, *market, i as int);
            }
            let mut b = work[i];
            let v = quote_amount(e.quantity, e.price);
            let ok = if buyer {
                apply_buy_fill(&mut b, e.quantity, v)
            } else {
                apply_sell_fill(&mut b, e.quantity, v)
            };
            if ok {
                work[i] = b;
                proof {
                    assert forall|j: int| 0 <= j < work@.len() implies (
                    #[trigger] work@[j]).wf() by {
                        if j != i {
                            assert(work@[j] == old(work)@[j]);
                        }
                    }
                }
            }
            ok
        },
    }
}

/// Applies a self-trade's unlock to the trader's record, if the record is present.
fn apply_self_trade(work: &mut Vec<UserBalance>, market: &Address, e: &Event) -> (ok: bool)
    requires
        all_wf(old(work)@),
        e.wf(),
    ensures
        ok == apply_to(old(work)@, e.maker, *market, self_trade_op(*e)) is Some,
        ok ==> final(work)@ == apply_to(old(work)@, e.maker, *market, self_trade_op(*e))->Some_0,
        all_wf(final(work)@),
{
    match find_balance(work, &e.maker, market) {
        None => {
            proof {
                lemma_balance_slot_none(work@, e.maker, *market);
            }
            true
        },
        Some(i) => {
            proof {
                lemma_balance_slot_first(work@, e.maker, *market, i as int);
            }
            let mut b = work[i];
            let enough = b.locked_base_balance >= e.quantity && b.locked_quote_balance
                >= quote_amount(e.quantity, e.price);
            if enough {
                unlock(&mut b, Side::Sell, e.quantity, e.price);
                unlock(&mut b, Side::Buy, e.quantity, e.price);
                work[i] = b;
                proof {
                    assert forall|j: int| 0 <= j < work@.len() implies (
                    #[trigger] work@[j]).wf() by {
                        if j != i {
                            assert(work@[j] == old(work)@[j]);
                        }
                    }
                }
            }
            enough
        },
    }
}

/// Applies event `e` to the records; reports whether every record involved could take it.
fn apply_one(work: &mut Vec<UserBalance>, e: &Event, market: &Address) -> (ok: bool)
    requires
        all_wf(old(work)@),
        e.wf(),
    ensures
        ok == apply_event(old(work)@, *e, *market) is Some,
        ok ==> final(work)@ == apply_event(old(work)@, *e, *market)->Some_0,
        all_wf(final(work)@),
{
    if e.maker.is_zero() && e.taker.is_zero() {
        return true;
    }
    match e.event_type {
        EventType::Out => true,
        EventType::Fill => {
            if e.maker.same_as(&e.taker) {
                apply_self_trade(work, market, e)
            } else {
                let taker_buys = match e.side {
                    Side::Buy => true,
                    Side::Sell => false,
                };
                let maker_ok = apply_fill_to(work, &e.maker, market, e, !taker_buys);
                if !maker_ok {
                    return false;
                }
                apply_fill_to(work, &e.taker, market, e, taker_buys)
            }
        },
    }
}

/// Cranks the event queue on behalf of the consume authority: scans the queued events in order,
/// skipping holes, until `MAX_EVENTS_TO_CONSUME` have been applied or the queue ends; applies each
/// fill to the maker's and the taker's records found among `balances` (a missing record is
/// skipped), then removes the applied events from the queue, leaving the skipped holes in place.
/// Returns how many events were applied; the count of events to process falls by that number. Fails, changing nothing, with `InvalidAccount` for a wrong authority and with
/// `BalanceMismatch` where a record cannot take an event.
pub fn process_consume_events(
    market: &MarketState,
    authority: &Address,
    events: &mut MarketEvents,
    balances: &mut Vec<UserBalance>,
) -> (r: Result<usize, MarketError>)
    requires
        old(events).wf(),
        all_wf(old(balances)@),
    ensures
        events_consumed(
            *market,
            *authority,
            *old(events),
            old(balances)@,
            *final(events),
            final(balances)@,
            r,
        ),
        final(events).wf(),
        all_wf(final(balances)@),
{
    if !authority.same_as(&market.consume_events_authority) {
        return Err(MarketError::InvalidAccount);
    }
    let ghost evs = events.events@;
    let ghost s0 = balances@;
    let ghost key = events.market;
    let n = events.events.len();

    let mut work: Vec<UserBalance> = Vec::new();
    let mut c: usize = 0;
    while c < balances.len()
        invariant
            c <= balances@.len(),
            balances@ == s0,
            work@ == s0.subrange(0, c as int),
        decreases balances@.len() - c,
    {
        work.push(balances[c]);
        c = c + 1;
        assert(work@ =~= s0.subrange(0, c as int));
    }
    assert(work@ =~= s0);

    let mut kept: Vec<Event> = Vec::new();
    let mut i: usize = 0;
    let mut consumed: usize = 0;
    while i < n && consumed < MAX_EVENTS_TO_CONSUME
        invariant
            kept@ == holes_before(evs, i as nat),
            kept@.len() + consumed == i,
            forall|k: int| 0 <= k < kept@.len() ==> (#[trigger] kept@[k]).wf(),
            n == evs.len(),
            events.events@ == evs,
            events.market == key,
            events.wf(),
            i <= n,
            consumed == consumed_before(evs, i as int),
            consumed <= MAX_EVENTS_TO_CONSUME,
            batch_end(evs) == batch_end_from(evs, i as nat),
            apply_prefix(s0, evs, i as nat, key) == Some(work@),
            all_wf(work@),
            all_wf(s0),
            balances@ == s0,
            *events == *old(events),
            *authority == market.consume_events_authority,
        decreases n - i,
    {
        let e = events.events[i];
        assert(e.wf());
        if !(e.maker.is_zero() && e.taker.is_zero()) {
            let ok = apply_one(&mut work, &e, &events.market);
            if !ok {
                proof {
                    lemma_batch_end_from_at_least(evs, (i + 1) as nat);
                    lemma_apply_prefix_stuck(s0, evs, (i + 1) as nat, batch_end(evs), key);
                }
                return Err(MarketError::BalanceMismatch);
            }
            consumed = consumed + 1;
        } else {
            kept.push(e);
        }
        i = i + 1;
    }
    assert(batch_end(evs) == i);

    let ghost holes = kept@;
    let mut j: usize = i;
    while j < n
        invariant
            n == evs.len(),
            events.events@ == evs,
            events.wf(),
            i <= j <= n,
            kept@ == holes + evs.subrange(i as int, j as int),
            forall|k: int| 0 <= k < kept@.len() ==> (#[trigger] kept@[k]).wf(),
        decreases n - j,
    {
        kept.push(events.events[j]);
        j = j + 1;
        assert(kept@ =~= holes + evs.subrange(i as int, j as int));
    }
    let left = kept.len() as u64;
    events.events = kept;
    events.count = left;
    events.events_to_process = left;
    *balances = work;
    Ok(consumed)
}

} // verus!
