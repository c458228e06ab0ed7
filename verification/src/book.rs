//! The order book: two insertion-ordered sequences of resting orders, one per
//! side. Submission appends; a snapshot hands a matching pass an independent
//! copy of both sides.

use vstd::prelude::*;

use crate::Order;

verus! {

/// The two sides of the book. Submission appends to the side named by the
/// order's `is_buy` flag; nothing is ever removed.
pub struct OrderBook {
    pub buy_orders: Vec<Order>,
    pub sell_orders: Vec<Order>,
}

impl OrderBook {
    /// An empty book.
    pub fn new() -> (r: OrderBook)
        ensures
            r.buy_orders@ =~= Seq::<Order>::empty(),
            r.sell_orders@ =~= Seq::<Order>::empty(),
    {
        OrderBook { buy_orders: Vec::new(), sell_orders: Vec::new() }
    }

    /// Appends `order` to the side its `is_buy` flag names and returns the
    /// stored order unchanged. No validation happens here: price, quantity
    /// and owner are checked only at fill time.
    pub fn add_order(&mut self, order: Order) -> (r: Order)
        ensures
            r == order,
            order.is_buy ==> final(self).buy_orders@ == old(self).buy_orders@.push(order)
                && final(self).sell_orders@ == old(self).sell_orders@,
            !order.is_buy ==> final(self).sell_orders@ == old(self).sell_orders@.push(order)
                && final(self).buy_orders@ == old(self).buy_orders@,
    {
        if order.is_buy {
            self.buy_orders.push(order);
        } else {
            self.sell_orders.push(order);
        }
        order
    }

    /// An independent copy of both sides at a point in time, for a matching
    /// pass to consume without the book staying locked for its duration.
    pub fn snapshot(&self) -> (r: (Vec<Order>, Vec<Order>))
        ensures
            r.0@ == self.buy_orders@,
            r.1@ == self.sell_orders@,
    {
        (copy_orders(&self.buy_orders), copy_orders(&self.sell_orders))
    }
}

/// An element-for-element copy of a sequence of orders.
pub fn copy_orders(orders: &Vec<Order>) -> (r: Vec<Order>)
    ensures
        r@ == orders@,
{
    let mut r: Vec<Order> = Vec::new();
    let mut i: usize = 0;
    while i < orders.len()
        invariant
            i <= orders.len(),
            r@ == orders@.take(i as int),
        decreases orders.len() - i,
    {
        r.push(orders[i]);
        assert(orders@.take(i + 1 as int) == orders@.take(i as int).push(orders@[i as int]));
        i = i + 1;
    }
    assert(orders@.take(orders.len() as int) == orders@);
    r
}

/// A submitted order appears, unmodified, at the end of its side in any
/// snapshot taken after the submission: appending to one side leaves the
/// other untouched, so nothing already in the book is lost or changed.
pub proof fn lemma_submit_then_snapshot(before: OrderBook, after: OrderBook, order: Order)
    requires
        order.is_buy ==> after.buy_orders@ == before.buy_orders@.push(order)
            && after.sell_orders@ == before.sell_orders@,
        !order.is_buy ==> after.sell_orders@ == before.sell_orders@.push(order)
            && after.buy_orders@ == before.buy_orders@,
    ensures
        order.is_buy ==> after.buy_orders@.last() == order
            && after.buy_orders@.len() == before.buy_orders@.len() + 1
            && after.buy_orders@.take(before.buy_orders@.len() as int) == before.buy_orders@,
        !order.is_buy ==> after.sell_orders@.last() == order
            && after.sell_orders@.len() == before.sell_orders@.len() + 1
            && after.sell_orders@.take(before.sell_orders@.len() as int) == before.sell_orders@,
{
    if order.is_buy {
        assert(after.buy_orders@.take(before.buy_orders@.len() as int) =~= before.buy_orders@);
    } else {
        assert(after.sell_orders@.take(before.sell_orders@.len() as int) =~= before.sell_orders@);
    }
}

/// Submissions to the two sides commute: one arriving on the buy side and one
/// on the sell side end in the same book whichever is applied first, and
/// neither is lost. This is the order-book half of the claim that concurrent
/// submissions to opposite sides never drop an order; the mutual exclusion
/// that serialises two submissions to the *same* side lives in the caller.
pub proof fn lemma_opposite_side_submits_commute(
    start: OrderBook,
    mid_ab: OrderBook,
    end_ab: OrderBook,
    mid_ba: OrderBook,
    end_ba: OrderBook,
    buy: Order,
    sell: Order,
)
    requires
        buy.is_buy,
        !sell.is_buy,
        // first buy then sell
        mid_ab.buy_orders@ == start.buy_orders@.push(buy),
        mid_ab.sell_orders@ == start.sell_orders@,
        end_ab.sell_orders@ == mid_ab.sell_orders@.push(sell),
        end_ab.buy_orders@ == mid_ab.buy_orders@,
        // first sell then buy
        mid_ba.sell_orders@ == start.sell_orders@.push(sell),
        mid_ba.buy_orders@ == start.buy_orders@,
        end_ba.buy_orders@ == mid_ba.buy_orders@.push(buy),
        end_ba.sell_orders@ == mid_ba.sell_orders@,
    ensures
        end_ab.buy_orders@ == end_ba.buy_orders@,
        end_ab.sell_orders@ == end_ba.sell_orders@,
        end_ab.buy_orders@.last() == buy,
        end_ab.sell_orders@.last() == sell,
{
}

} // verus!
