//! The laws of the matching pass, proved over the model: exactly which pairs
//! settle, that the fee is conserved, and that sorting reorders the sides
//! without losing or inventing an order.

use vstd::prelude::*;

use crate::model::{
    cost_of, credit_of, fee_of, fills_of, fills_with, insert_desc, settles, sort_desc,
};
use crate::Order;

verus! {

/// What the buyer pays splits exactly into what the seller receives and the
/// fee the exchange keeps: no amount is double-counted or lost in a fill.
pub proof fn lemma_fee_conserved(b: Order, fee_percentage: u32)
    ensures
        cost_of(b) == credit_of(b, fee_percentage) + fee_of(b, fee_percentage),
{
}

/// One buy order fills against exactly the sell orders it settles with.
pub proof fn lemma_fills_with_contains(b: Order, sells: Seq<Order>, x: (Order, Order))
    ensures
        fills_with(b, sells).contains(x) <==> (x.0 == b && sells.contains(x.1) && settles(
            b,
            x.1,
        )),
    decreases sells.len(),
{
    broadcast use vstd::seq_lib::lemma_seq_concat_contains_all_elements;

    if sells.len() == 0 {
    } else {
        lemma_fills_with_contains(b, sells.drop_first(), x);
        assert(seq![sells[0]] + sells.drop_first() =~= sells);
        assert(seq![sells[0]][0] == sells[0]);
        assert(seq![sells[0]].contains(x.1) <==> x.1 == sells[0]);
        assert(seq![(b, sells[0])][0] == (b, sells[0]));
        assert(seq![(b, sells[0])].contains(x) <==> x == (b, sells[0]));
    }
}

/// A matching pass over given sides fills exactly the settling pairs drawn
/// from them.
pub proof fn lemma_fills_of_contains(buys: Seq<Order>, sells: Seq<Order>, x: (Order, Order))
    ensures
        fills_of(buys, sells).contains(x) <==> (buys.contains(x.0) && sells.contains(x.1)
            && settles(x.0, x.1)),
    decreases buys.len(),
{
    broadcast use vstd::seq_lib::lemma_seq_concat_contains_all_elements;

    if buys.len() == 0 {
    } else {
        lemma_fills_of_contains(buys.drop_first(), sells, x);
        lemma_fills_with_contains(buys[0], sells, x);
        assert(seq![buys[0]] + buys.drop_first() =~= buys);
        assert(seq![buys[0]][0] == buys[0]);
        assert(seq![buys[0]].contains(x.0) <==> x.0 == buys[0]);
    }
}

/// Inserting into a sorted side adds exactly the new order.
pub proof fn lemma_insert_desc_contains(s: Seq<Order>, o: Order, x: Order)
    ensures
        insert_desc(s, o).contains(x) <==> (s.contains(x) || x == o),
    decreases s.len(),
{
    broadcast use vstd::seq_lib::lemma_seq_concat_contains_all_elements;

    if s.len() == 0 {
        assert(seq![o][0] == o);
        assert(seq![o].contains(x) <==> x == o);
    } else if s[0].priority >= o.priority {
        lemma_insert_desc_contains(s.drop_first(), o, x);
        assert(seq![s[0]] + s.drop_first() =~= s);
        assert(seq![s[0]][0] == s[0]);
        assert(seq![s[0]].contains(x) <==> x == s[0]);
    } else {
        assert(seq![o][0] == o);
        assert(seq![o].contains(x) <==> x == o);
    }
}

/// Sorting a side changes which positions orders stand at, never which
/// orders stand on it.
pub proof fn lemma_sort_desc_contains(s: Seq<Order>, x: Order)
    ensures
        sort_desc(s).contains(x) <==> s.contains(x),
    decreases s.len(),
{
    broadcast use vstd::seq_lib::lemma_seq_contains_after_push;

    if s.len() == 0 {
    } else {
        lemma_sort_desc_contains(s.drop_last(), x);
        lemma_insert_desc_contains(sort_desc(s.drop_last()), s.last(), x);
        assert(s.drop_last().push(s.last()) =~= s);
    }
}

/// A pair is settled by a matching pass over a snapshot exactly when the buy
/// order stands on the buy side, the sell order on the sell side, the buy
/// price is at least the sell price, and the owners differ. In particular no
/// pair with `buy.price < sell.price` is ever settled.
pub proof fn lemma_pass_settles_iff(buys: Seq<Order>, sells: Seq<Order>, b: Order, s: Order)
    ensures
        fills_of(sort_desc(buys), sort_desc(sells)).contains((b, s)) <==> (buys.contains(b)
            && sells.contains(s) && b.is_buy && !s.is_buy && b.price >= s.price && b.owner_id
            != s.owner_id),
{
    lemma_fills_of_contains(sort_desc(buys), sort_desc(sells), (b, s));
    lemma_sort_desc_contains(buys, b);
    lemma_sort_desc_contains(sells, s);
}

/// A buy order is never settled against a sell order of the same owner,
/// regardless of price crossing.
pub proof fn lemma_self_match_never_settles(buys: Seq<Order>, sells: Seq<Order>, b: Order, s: Order)
    requires
        b.owner_id == s.owner_id,
    ensures
        !fills_of(sort_desc(buys), sort_desc(sells)).contains((b, s)),
{
    lemma_pass_settles_iff(buys, sells, b, s);
}

/// Priority order, highest first.
pub open spec fn sorted_desc(s: Seq<Order>) -> bool {
    forall|i: int, j: int| 0 <= i < j < s.len() ==> s[i].priority >= s[j].priority
}

/// Inserting into a priority-sorted side keeps it sorted.
pub proof fn lemma_insert_desc_sorted(s: Seq<Order>, o: Order)
    requires
        sorted_desc(s),
    ensures
        sorted_desc(insert_desc(s, o)),
    decreases s.len(),
{
    if s.len() == 0 {
    } else if s[0].priority >= o.priority {
        assert(forall|k: int| 0 <= k < s.drop_first().len() ==> s.drop_first()[k] == s[k + 1]);
        assert(sorted_desc(s.drop_first()));
        lemma_insert_desc_sorted(s.drop_first(), o);
        let t = insert_desc(s.drop_first(), o);
        assert forall|k: int| 0 <= k < t.len() implies s[0].priority >= t[k].priority by {
            assert(t.contains(t[k]));
            lemma_insert_desc_contains(s.drop_first(), o, t[k]);
            if s.drop_first().contains(t[k]) {
                let idx = choose|ii: int|
                    0 <= ii < s.drop_first().len() && s.drop_first()[ii] == t[k];
                assert(s.drop_first()[idx] == s[idx + 1]);
                assert(s[0].priority >= s[idx + 1].priority);
            }
        }
        let r = seq![s[0]] + t;
        assert forall|i: int, j: int| 0 <= i < j < r.len() implies r[i].priority
            >= r[j].priority by {
            if i == 0 {
                assert(r[j] == t[j - 1]);
            } else {
                assert(r[i] == t[i - 1] && r[j] == t[j - 1]);
            }
        }
    } else {
        let r = seq![o] + s;
        assert forall|i: int, j: int| 0 <= i < j < r.len() implies r[i].priority
            >= r[j].priority by {
            if i == 0 {
                if j == 1 {
                    assert(r[j] == s[0]);
                } else {
                    assert(r[j] == s[j - 1]);
                    assert(s[0].priority >= s[j - 1].priority);
                }
            } else {
                assert(r[i] == s[i - 1] && r[j] == s[j - 1]);
            }
        }
    }
}

/// A sorted snapshot really is in priority order, highest first: the order
/// matching attempts pairs in.
pub proof fn lemma_sort_desc_sorted(s: Seq<Order>)
    ensures
        sorted_desc(sort_desc(s)),
    decreases s.len(),
{
    if s.len() == 0 {
    } else {
        lemma_sort_desc_sorted(s.drop_last());
        lemma_insert_desc_sorted(sort_desc(s.drop_last()), s.last());
    }
}

/// Inserting into a side adds one order and keeps every other: nothing is
/// lost or duplicated.
pub proof fn lemma_insert_desc_multiset(s: Seq<Order>, o: Order)
    ensures
        insert_desc(s, o).to_multiset() == s.to_multiset().insert(o),
    decreases s.len(),
{
    broadcast use vstd::seq_lib::group_to_multiset_ensures;
    broadcast use vstd::multiset::group_multiset_axioms;

    if s.len() == 0 {
        assert(seq![o] =~= Seq::<Order>::empty().push(o));
        assert(Seq::<Order>::empty().push(o).to_multiset() =~= Seq::<
            Order,
        >::empty().to_multiset().insert(o));
        assert(s.to_multiset() =~= Seq::<Order>::empty().to_multiset());
    } else if s[0].priority >= o.priority {
        lemma_insert_desc_multiset(s.drop_first(), o);
        vstd::seq_lib::lemma_multiset_commutative(seq![s[0]], insert_desc(s.drop_first(), o));
        vstd::seq_lib::lemma_multiset_commutative(seq![s[0]], s.drop_first());
        assert(seq![s[0]] + s.drop_first() =~= s);
        assert((seq![s[0]] + insert_desc(s.drop_first(), o)).to_multiset()
            =~= s.to_multiset().insert(o));
    } else {
        vstd::seq_lib::lemma_multiset_commutative(seq![o], s);
        assert((seq![o] + s).to_multiset() =~= s.to_multiset().insert(o));
    }
}

/// Sorting a side permutes it: every order submitted is still there, exactly
/// as many times as it was submitted, and nothing new appears.
pub proof fn lemma_sort_desc_multiset(s: Seq<Order>)
    ensures
        sort_desc(s).to_multiset() == s.to_multiset(),
    decreases s.len(),
{
    broadcast use vstd::seq_lib::group_to_multiset_ensures;
    broadcast use vstd::multiset::group_multiset_axioms;

    if s.len() == 0 {
    } else {
        lemma_sort_desc_multiset(s.drop_last());
        lemma_insert_desc_multiset(sort_desc(s.drop_last()), s.last());
        assert(s.drop_last().push(s.last()) =~= s);
    }
}

} // verus!
