use vstd::prelude::*;

use crate::address::Address;
use crate::state::{MarketError, Order, Side, MAX_ORDERS};

verus! {

/// One side of the book: its live orders in slot order.
#[derive(Debug)]
pub struct OrderBook {
    pub orders: Vec<Order>,
    pub market: Address,
    pub active_orders_count: u64,
    pub side: Side,
}

/// The sequence after removing slot `i` by moving the last order into it.
pub open spec fn swap_removed(s: Seq<Order>, i: int) -> Seq<Order> {
    s.update(i, s.last()).drop_last()
}

impl OrderBook {
    /// The count matches the live orders, stays within capacity, and every order is resting.
    pub open spec fn wf(&self) -> bool {
        &&& self.orders@.len() == self.active_orders_count
        &&& self.active_orders_count <= MAX_ORDERS
        &&& forall|i: int| 0 <= i < self.orders@.len() ==> (#[trigger] self.orders@[i]).resting()
    }

    /// An empty book of `side` for `market`.
    pub fn new(market: Address, side: Side) -> (r: OrderBook)
        ensures
            r.wf(),
            r.orders@ == Seq::<Order>::empty(),
            r.market == market,
            r.side == side,
    {
        OrderBook { orders: Vec::new(), market, active_orders_count: 0, side }
    }

    /// Appends `order` after the live orders; fails with `BookFull` at capacity.
    pub fn add_order(&mut self, order: Order) -> (r: Result<(), MarketError>)
        requires
            old(self).wf(),
            order.resting(),
        ensures
            final(self).wf(),
            final(self).market == old(self).market,
            final(self).side == old(self).side,
            old(self).active_orders_count >= MAX_ORDERS ==> r == Err::<(), MarketError>(
                MarketError::BookFull,
            ) && final(self).orders@ == old(self).orders@,
            old(self).active_orders_count < MAX_ORDERS ==> r is Ok && final(self).orders@ == old(
                self,
            ).orders@.push(order),
    {
        if self.active_orders_count >= MAX_ORDERS as u64 {
            return Err(MarketError::BookFull);
        }
        self.orders.push(order);
        self.active_orders_count = self.active_orders_count + 1;
        Ok(())
    }

    /// Removes slot `index` by moving the last live order into it; fails with
    /// `OrderNotFound` when `index` holds no live order.
    pub fn remove_order(&mut self, index: usize) -> (r: Result<(), MarketError>)
        requires
            old(self).wf(),
        ensures
            final(self).wf(),
            final(self).market == old(self).market,
            final(self).side == old(self).side,
            index >= old(self).active_orders_count ==> r == Err::<(), MarketError>(
                MarketError::OrderNotFound,
            ) && final(self).orders@ == old(self).orders@,
            index < old(self).active_orders_count ==> r is Ok && final(self).orders@
                == swap_removed(old(self).orders@, index as int),
    {
        if index as u64 >= self.active_orders_count {
            return Err(MarketError::OrderNotFound);
        }
        let _removed = self.orders.swap_remove(index);
        self.active_orders_count = self.active_orders_count - 1;
        proof {
            assert forall|i: int| 0 <= i < self.orders@.len() implies (
            #[trigger] self.orders@[i]).resting() by {
                if i == index {
                    assert(self.orders@[i] == old(self).orders@[old(self).orders@.len() - 1]);
                } else {
                    assert(self.orders@[i] == old(self).orders@[i]);
                }
            }
        }
        Ok(())
    }
}

} // verus!

verus! {

/// Every order id in `s` is below `n`.
pub open spec fn ids_below(s: Seq<Order>, n: u64) -> bool {
    forall|i: int| 0 <= i < s.len() ==> (#[trigger] s[i]).order_id < n
}

/// No two slots of `s` share an order id.
pub open spec fn ids_distinct(s: Seq<Order>) -> bool {
    forall|i: int, j: int|
        0 <= i < s.len() && 0 <= j < s.len() && i != j ==> (#[trigger] s[i]).order_id != (
        #[trigger] s[j]).order_id
}

/// No order id occurs in both `s` and `t`.
pub open spec fn ids_apart(s: Seq<Order>, t: Seq<Order>) -> bool {
    forall|i: int, j: int|
        0 <= i < s.len() && 0 <= j < t.len() ==> (#[trigger] s[i]).order_id != (
        #[trigger] t[j]).order_id
}

/// Every order id of `s` occurs in `t`.
pub open spec fn ids_within(s: Seq<Order>, t: Seq<Order>) -> bool {
    forall|i: int|
        #![trigger s[i]]
        0 <= i < s.len() ==> exists|j: int|
            #![trigger t[j]]
            0 <= j < t.len() && s[i].order_id == t[j].order_id
}

/// Order ids are unique across both sides of a market, and all lie below the next id to hand out.
pub open spec fn order_ids_fresh(next_order_id: u64, bids: Seq<Order>, asks: Seq<Order>) -> bool {
    &&& ids_below(bids, next_order_id)
    &&& ids_below(asks, next_order_id)
    &&& ids_distinct(bids)
    &&& ids_distinct(asks)
    &&& ids_apart(bids, asks)
}

pub proof fn lemma_swap_removed_ids(s: Seq<Order>, i: int)
    requires
        0 <= i < s.len(),
    ensures
        ids_within(swap_removed(s, i), s),
        ids_distinct(s) ==> ids_distinct(swap_removed(s, i)),
{
    let r = swap_removed(s, i);
    let last = s.len() - 1;
    assert forall|p: int| #![trigger r[p]] 0 <= p < r.len() implies exists|j: int|
        #![trigger s[j]]
        0 <= j < s.len() && r[p].order_id == s[j].order_id by {
        if p == i {
            assert(r[p] == s[last]);
        } else {
            assert(r[p] == s[p]);
        }
    }
    if ids_distinct(s) {
        assert forall|p: int, q: int|
            0 <= p < r.len() && 0 <= q < r.len() && p != q implies (#[trigger] r[p]).order_id != (
            #[trigger] r[q]).order_id by {
            let pp = if p == i {
                last
            } else {
                p
            };
            let qq = if q == i {
                last
            } else {
                q
            };
            assert(r[p] == s[pp]);
            assert(r[q] == s[qq]);
        }
    }
}

pub proof fn lemma_within_trans(a: Seq<Order>, b: Seq<Order>, c: Seq<Order>)
    requires
        ids_within(a, b),
        ids_within(b, c),
    ensures
        ids_within(a, c),
{
    assert forall|p: int| #![trigger a[p]] 0 <= p < a.len() implies exists|j: int|
        #![trigger c[j]]
        0 <= j < c.len() && a[p].order_id == c[j].order_id by {
        let ap = a[p];
        let q = choose|q: int| 0 <= q < b.len() && a[p].order_id == b[q].order_id;
        let bq = b[q];
        let k = choose|k: int| 0 <= k < c.len() && b[q].order_id == c[k].order_id;
        assert(a[p].order_id == c[k].order_id);
    }
}

/// Ids taken from `t` keep what `t` had: a bound and a separation from `u`.
pub proof fn lemma_within_keeps(s: Seq<Order>, t: Seq<Order>, u: Seq<Order>, n: u64)
    requires
        ids_within(s, t),
    ensures
        ids_below(t, n) ==> ids_below(s, n),
        ids_apart(t, u) ==> ids_apart(s, u),
        ids_apart(u, t) ==> ids_apart(u, s),
{
    if ids_below(t, n) {
        assert forall|p: int| 0 <= p < s.len() implies (#[trigger] s[p]).order_id < n by {
            let sp = s[p];
            let q = choose|q: int| 0 <= q < t.len() && s[p].order_id == t[q].order_id;
            let tq = t[q];
        }
    }
    if ids_apart(t, u) {
        assert forall|p: int, k: int| 0 <= p < s.len() && 0 <= k < u.len() implies (
        #[trigger] s[p]).order_id != (#[trigger] u[k]).order_id by {
            let sp = s[p];
            let q = choose|q: int| 0 <= q < t.len() && s[p].order_id == t[q].order_id;
            let tq = t[q];
        }
    }
    if ids_apart(u, t) {
        assert forall|k: int, p: int| 0 <= k < u.len() && 0 <= p < s.len() implies (
        #[trigger] u[k]).order_id != (#[trigger] s[p]).order_id by {
            let sp = s[p];
            let q = choose|q: int| 0 <= q < t.len() && s[p].order_id == t[q].order_id;
            let tq = t[q];
        }
    }
}

/// A sequence with the same ids slot by slot keeps their uniqueness.
pub proof fn lemma_same_ids(s: Seq<Order>, t: Seq<Order>)
    requires
        s.len() == t.len(),
        forall|j: int| 0 <= j < s.len() ==> (#[trigger] s[j]).order_id == t[j].order_id,
    ensures
        ids_within(s, t),
        ids_distinct(t) ==> ids_distinct(s),
{
    assert forall|p: int| #![trigger s[p]] 0 <= p < s.len() implies exists|j: int|
        #![trigger t[j]]
        0 <= j < t.len() && s[p].order_id == t[j].order_id by {
        let tp = t[p];
    }
    if ids_distinct(t) {
        assert forall|p: int, q: int|
            0 <= p < s.len() && 0 <= q < s.len() && p != q implies (#[trigger] s[p]).order_id != (
            #[trigger] s[q]).order_id by {
            let tp = t[p];
            let tq = t[q];
        }
    }
}

/// Appending an order whose id is `n` to a sequence whose ids lie below `n`.
pub proof fn lemma_push_fresh(s: Seq<Order>, u: Seq<Order>, o: Order, n: u64)
    requires
        o.order_id == n,
        n < u64::MAX,
        ids_below(s, n),
        ids_below(u, n),
    ensures
        ids_below(s.push(o), (n + 1) as u64),
        ids_below(u, (n + 1) as u64),
        ids_distinct(s) ==> ids_distinct(s.push(o)),
        ids_apart(s, u) ==> ids_apart(s.push(o), u),
{
    let r = s.push(o);
    assert forall|p: int| 0 <= p < r.len() implies (#[trigger] r[p]).order_id < n + 1 by {
        if p < s.len() {
            assert(r[p] == s[p]);
        }
    }
    if ids_distinct(s) {
        assert forall|p: int, q: int|
            0 <= p < r.len() && 0 <= q < r.len() && p != q implies (#[trigger] r[p]).order_id != (
            #[trigger] r[q]).order_id by {
            if p < s.len() {
                assert(r[p] == s[p]);
            }
            if q < s.len() {
                assert(r[q] == s[q]);
            }
        }
    }
    if ids_apart(s, u) {
        assert forall|p: int, k: int| 0 <= p < r.len() && 0 <= k < u.len() implies (
        #[trigger] r[p]).order_id != (#[trigger] u[k]).order_id by {
            if p < s.len() {
                assert(r[p] == s[p]);
            }
        }
    }
}

pub proof fn lemma_apart_symmetric(s: Seq<Order>, t: Seq<Order>)
    requires
        ids_apart(s, t),
    ensures
        ids_apart(t, s),
{
    assert forall|j: int, i: int| 0 <= j < t.len() && 0 <= i < s.len() implies (
    #[trigger] t[j]).order_id != (#[trigger] s[i]).order_id by {
        assert(s[i].order_id != t[j].order_id);
    }
}

} // verus!
