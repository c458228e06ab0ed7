//! The matching engine and settlement: sorting a snapshot by priority,
//! pairing crossing orders, and executing the balance transfer of each fill
//! against the ledger.

use vstd::prelude::*;

use crate::model::{
    acct_idx, apply_fill, apply_fills, cost_of, credit_of, fill_ok, fills_ok, fills_of,
    fills_with, lemma_acct_idx, lemma_apply_fills_append, lemma_apply_fills_singleton,
    lemma_fills_of_append, lemma_fills_of_singleton, lemma_fills_ok_append,
    lemma_fills_with_append, lemma_fills_with_singleton, lemma_insert_desc_at, settles, sort_desc,
};
use crate::{Account, Order};

verus! {

/// The settlement side of the exchange: the ledger of accounts and the fee
/// the exchange retains from each fill. The fee percentage is fixed at
/// construction for the lifetime of the processor.
pub struct OrderProcessor {
    pub fee_percentage: u32,
    pub accounts: Vec<Account>,
}

/// The index of the first account owned by `owner`.
pub fn find_account(accounts: &Vec<Account>, owner: u32) -> (idx: usize)
    requires
        acct_idx(accounts@, owner) >= 0,
    ensures
        idx as int == acct_idx(accounts@, owner),
        idx < accounts@.len(),
        accounts@[idx as int].owner_id == owner,
{
    match find_account_opt(accounts, owner) {
        Some(idx) => idx,
        None => {
            proof {
                assert(false);
            }
            0
        },
    }
}

/// The index of the first account owned by `owner`, if the ledger holds one.
fn find_account_opt(accounts: &Vec<Account>, owner: u32) -> (r: Option<usize>)
    ensures
        match r {
            Some(idx) => idx as int == acct_idx(accounts@, owner) && idx < accounts@.len()
                && accounts@[idx as int].owner_id == owner,
            None => acct_idx(accounts@, owner) < 0,
        },
{
    proof {
        lemma_acct_idx(accounts@, owner);
    }
    let ghost target: int = acct_idx(accounts@, owner);
    let mut i: usize = 0;
    while i < accounts.len()
        invariant
            0 <= i <= accounts@.len(),
            target == acct_idx(accounts@, owner),
            target >= 0 ==> target < accounts@.len() && accounts@[target].owner_id == owner,
            target < 0 ==> (forall|j: int|
                0 <= j < accounts@.len() ==> accounts@[j].owner_id != owner),
            forall|j: int| 0 <= j < i ==> accounts@[j].owner_id != owner,
        decreases accounts@.len() - i,
    {
        if accounts[i].owner_id == owner {
            proof {
                lemma_acct_idx(accounts@, owner);
                assert(i == target);
            }
            return Some(i);
        }
        i = i + 1;
    }
    None
}

/// An element-for-element copy of the ledger.
fn copy_accounts(accounts: &Vec<Account>) -> (r: Vec<Account>)
    ensures
        r@ == accounts@,
{
    let mut r: Vec<Account> = Vec::new();
    let mut i: usize = 0;
    while i < accounts.len()
        invariant
            i <= accounts.len(),
            r@ == accounts@.take(i as int),
        decreases accounts.len() - i,
    {
        r.push(accounts[i]);
        assert(accounts@.take(i + 1 as int) == accounts@.take(i as int).push(accounts@[i as int]));
        i = i + 1;
    }
    assert(accounts@.take(accounts.len() as int) == accounts@);
    r
}

/// Overwrites the balance of one account, leaving its owner and every other
/// account untouched.
fn set_balance(accounts: &mut Vec<Account>, i: usize, new_balance: i128)
    requires
        i < old(accounts).len(),
    ensures
        final(accounts)@ == old(accounts)@.update(
            i as int,
            (Account { owner_id: old(accounts)@[i as int].owner_id, balance: new_balance }),
        ),
{
    let owner_id = accounts[i].owner_id;
    accounts[i] = Account { owner_id, balance: new_balance };
}

/// Decides whether one fill can be applied to the ledger — both owners
/// resolve to distinct accounts and the two new balances stay in range — and
/// applies it when it can. Reports exactly the applicability of the fill;
/// a refused fill leaves the ledger as it was.
fn try_apply_fill(accounts: &mut Vec<Account>, b: &Order, s: &Order, fee_percentage: u32) -> (r:
    bool)
    ensures
        r == fill_ok(old(accounts)@, *b, *s, fee_percentage),
        r ==> final(accounts)@ == apply_fill(old(accounts)@, *b, *s, fee_percentage),
        !r ==> final(accounts)@ == old(accounts)@,
{
    proof {
        assert((b.price as int) * (b.quantity as int) <= 0xffff_ffff * 0xffff_ffff)
            by (nonlinear_arith)
            requires
                b.price <= 0xffff_ffffu32,
                b.quantity <= 0xffff_ffffu32,
        ;
        assert((b.price as int) * (b.quantity as int) >= 0) by (nonlinear_arith);
    }
    let total_cost: u64 = (b.price as u64) * (b.quantity as u64);
    proof {
        assert((total_cost as int) * (fee_percentage as int) <= 0xffff_ffff_ffff_ffff
            * 0xffff_ffff) by (nonlinear_arith)
            requires
                total_cost <= 0xffff_ffff_ffff_ffffu64,
                fee_percentage <= 0xffff_ffffu32,
        ;
        assert((total_cost as int) * (fee_percentage as int) >= 0) by (nonlinear_arith);
    }
    let fee: u128 = (total_cost as u128) * (fee_percentage as u128) / 100;
    let cost_signed: i128 = total_cost as i128;
    let credit: i128 = cost_signed - (fee as i128);

    let buyer_index = match find_account_opt(accounts, b.owner_id) {
        Some(idx) => idx,
        None => {
            return false;
        },
    };
    let seller_index = match find_account_opt(accounts, s.owner_id) {
        Some(idx) => idx,
        None => {
            return false;
        },
    };
    if buyer_index == seller_index {
        return false;
    }
    let buyer_balance = accounts[buyer_index].balance;
    if buyer_balance < i128::MIN + cost_signed {
        return false;
    }
    let seller_balance = accounts[seller_index].balance;
    if credit >= 0 {
        if seller_balance > i128::MAX - credit {
            return false;
        }
    } else {
        if seller_balance < i128::MIN - credit {
            return false;
        }
    }
    set_balance(accounts, buyer_index, buyer_balance - cost_signed);
    set_balance(accounts, seller_index, seller_balance + credit);
    true
}

/// A copy of the orders, stably sorted by priority with the highest first:
/// orders of equal priority keep the relative order they were submitted in.
pub fn sorted_by_priority(orders: &Vec<Order>) -> (r: Vec<Order>)
    ensures
        r@ == sort_desc(orders@),
{
    let mut r: Vec<Order> = Vec::new();
    let mut k: usize = 0;
    while k < orders.len()
        invariant
            k <= orders@.len(),
            r@ == sort_desc(orders@.take(k as int)),
        decreases orders@.len() - k,
    {
        let o = orders[k];
        let mut pos: usize = 0;
        while pos < r.len() && r[pos].priority >= o.priority
            invariant
                pos <= r@.len(),
                forall|j: int| 0 <= j < pos ==> r@[j].priority >= o.priority,
            decreases r@.len() - pos,
        {
            pos = pos + 1;
        }
        proof {
            lemma_insert_desc_at(r@, o, pos as int);
            assert(orders@.take(k as int + 1).drop_last() =~= orders@.take(k as int));
            assert(orders@.take(k as int + 1).last() == orders@[k as int]);
        }
        r.insert(pos, o);
        k = k + 1;
    }
    proof {
        assert(orders@.take(orders@.len() as int) =~= orders@);
    }
    r
}

/// One buy order's leg of a trial pass over a scratch ledger: decides
/// whether every fill the buy order produces, in attempt order, can be
/// applied, applying them as it goes. When it reports failure the scratch
/// ledger may be left mid-pass.
fn check_one_buy(
    sim: &mut Vec<Account>,
    buy_order: &Order,
    sells: &Vec<Order>,
    fee_percentage: u32,
) -> (r: bool)
    ensures
        r == fills_ok(old(sim)@, fills_with(*buy_order, sells@), fee_percentage),
        r ==> final(sim)@ == apply_fills(old(sim)@, fills_with(*buy_order, sells@), fee_percentage),
{
    let ghost l0 = sim@;
    let ghost b = *buy_order;
    let mut j: usize = 0;
    while j < sells.len()
        invariant
            j <= sells@.len(),
            b == *buy_order,
            l0 == old(sim)@,
            fills_ok(l0, fills_with(b, sells@.take(j as int)), fee_percentage),
            sim@ == apply_fills(l0, fills_with(b, sells@.take(j as int)), fee_percentage),
        decreases sells@.len() - j,
    {
        let sell_order = sells[j];
        proof {
            assert(sells@.take(j as int) + sells@.skip(j as int) =~= sells@);
            lemma_fills_with_append(b, sells@.take(j as int), sells@.skip(j as int));
            assert(sells@.take(j as int + 1) =~= sells@.take(j as int) + seq![sells@[j as int]]);
            lemma_fills_with_append(b, sells@.take(j as int), seq![sells@[j as int]]);
            lemma_fills_with_singleton(b, sells@[j as int]);
            assert(sells@.skip(j as int)[0] == sells@[j as int]);
            assert(sells@.skip(j as int).drop_first() =~= sells@.skip(j as int + 1));
        }
        if buy_order.is_buy && !sell_order.is_buy && buy_order.price >= sell_order.price
            && buy_order.owner_id != sell_order.owner_id {
            let ghost pre = sim@;
            let ok = try_apply_fill(sim, buy_order, &sell_order, fee_percentage);
            if !ok {
                proof {
                    lemma_fills_ok_append(
                        l0,
                        fills_with(b, sells@.take(j as int)),
                        fills_with(b, sells@.skip(j as int)),
                        fee_percentage,
                    );
                    assert(fills_with(b, sells@.skip(j as int)) == seq![(b, sells@[j as int])]
                        + fills_with(b, sells@.skip(j as int + 1)));
                    assert(fills_with(b, sells@.skip(j as int))[0] == (b, sells@[j as int]));
                    assert(!fill_ok(pre, b, sells@[j as int], fee_percentage));
                    assert(!fills_ok(pre, fills_with(b, sells@.skip(j as int)), fee_percentage));
                    assert(!fills_ok(l0, fills_with(b, sells@), fee_percentage));
                }
                return false;
            }
            proof {
                lemma_apply_fills_singleton(pre, (b, sells@[j as int]), fee_percentage);
                lemma_apply_fills_append(
                    l0,
                    fills_with(b, sells@.take(j as int)),
                    seq![(b, sells@[j as int])],
                    fee_percentage,
                );
                lemma_fills_ok_append(
                    l0,
                    fills_with(b, sells@.take(j as int)),
                    seq![(b, sells@[j as int])],
                    fee_percentage,
                );
                assert(seq![(b, sells@[j as int])].drop_first() =~= Seq::<(Order, Order)>::empty());
                assert(fills_ok(
                    apply_fill(pre, b, sells@[j as int], fee_percentage),
                    Seq::<(Order, Order)>::empty(),
                    fee_percentage,
                ));
                assert(fills_ok(pre, seq![(b, sells@[j as int])], fee_percentage));
            }
        } else {
            proof {
                assert(!settles(b, sells@[j as int]));
                assert(fills_with(b, sells@.take(j as int + 1)) =~= fills_with(
                    b,
                    sells@.take(j as int),
                ));
            }
        }
        j = j + 1;
    }
    proof {
        assert(sells@.take(sells@.len() as int) =~= sells@);
    }
    true
}

impl OrderProcessor {
    /// A processor over a starting ledger, with the fee the exchange keeps
    /// from each fill, as a percentage of trade value.
    pub fn new(fee_percentage: u32, accounts: Vec<Account>) -> (r: OrderProcessor)
        ensures
            r.fee_percentage == fee_percentage,
            r.accounts@ == accounts@,
    {
        OrderProcessor { fee_percentage, accounts }
    }

    /// Whether some account of the ledger belongs to `owner`. A caller can
    /// test this before asking for a fill, since a fill demands that both
    /// owners resolve.
    pub fn has_account(&self, owner: u32) -> (r: bool)
        ensures
            r == (acct_idx(self.accounts@, owner) >= 0),
    {
        find_account_opt(&self.accounts, owner).is_some()
    }

    /// One buy order's leg of a matching pass: tries the buy order against
    /// every sell order in sequence, settling each pair that crosses between
    /// distinct owners, in order.
    fn match_one_buy(&mut self, buy_order: &Order, sells: &Vec<Order>)
        requires
            fills_ok(
                old(self).accounts@,
                fills_with(*buy_order, sells@),
                old(self).fee_percentage,
            ),
        ensures
            final(self).fee_percentage == old(self).fee_percentage,
            final(self).accounts@ == apply_fills(
                old(self).accounts@,
                fills_with(*buy_order, sells@),
                old(self).fee_percentage,
            ),
    {
        let ghost l0 = self.accounts@;
        let ghost fee0 = self.fee_percentage;
        let ghost b = *buy_order;
        let mut j: usize = 0;
        while j < sells.len()
            invariant
                j <= sells@.len(),
                b == *buy_order,
                self.fee_percentage == fee0,
                fills_ok(l0, fills_with(b, sells@), fee0),
                self.accounts@ == apply_fills(l0, fills_with(b, sells@.take(j as int)), fee0),
            decreases sells@.len() - j,
        {
            let sell_order = sells[j];
            proof {
                assert(sells@.take(j as int) + sells@.skip(j as int) =~= sells@);
                lemma_fills_with_append(b, sells@.take(j as int), sells@.skip(j as int));
                lemma_fills_ok_append(
                    l0,
                    fills_with(b, sells@.take(j as int)),
                    fills_with(b, sells@.skip(j as int)),
                    fee0,
                );
                assert(sells@.take(j as int + 1) =~= sells@.take(j as int) + seq![sells@[j as int]]);
                lemma_fills_with_append(b, sells@.take(j as int), seq![sells@[j as int]]);
                lemma_fills_with_singleton(b, sells@[j as int]);
                assert(sells@.skip(j as int)[0] == sells@[j as int]);
                assert(sells@.skip(j as int).drop_first() =~= sells@.skip(j as int + 1));
            }
            if buy_order.is_buy && !sell_order.is_buy && buy_order.price >= sell_order.price
                && buy_order.owner_id != sell_order.owner_id {
                proof {
                    assert(settles(b, sells@[j as int]));
                    assert(fills_with(b, sells@.skip(j as int))[0] == (b, sells@[j as int]));
                    assert(fill_ok(self.accounts@, b, sells@[j as int], fee0));
                }
                let ghost pre = self.accounts@;
                self.fill_order(buy_order, &sell_order);
                proof {
                    lemma_apply_fills_singleton(pre, (b, sells@[j as int]), fee0);
                    lemma_apply_fills_append(
                        l0,
                        fills_with(b, sells@.take(j as int)),
                        seq![(b, sells@[j as int])],
                        fee0,
                    );
                    assert(self.accounts@ == apply_fills(
                        l0,
                        fills_with(b, sells@.take(j as int + 1)),
                        fee0,
                    ));
                }
            } else {
                proof {
                    assert(!settles(b, sells@[j as int]));
                    assert(fills_with(b, sells@.take(j as int + 1)) =~= fills_with(
                        b,
                        sells@.take(j as int),
                    ));
                }
            }
            j = j + 1;
        }
        proof {
            assert(sells@.take(sells@.len() as int) =~= sells@);
        }
    }

    /// Decides, without touching the ledger, whether a full matching pass
    /// over the given snapshot can run: every pair that would settle must
    /// resolve both owners to distinct accounts, and no balance may leave
    /// its machine range at any point of the pass. This is exactly the
    /// demand `match_orders` makes, so a caller that cannot establish it any
    /// other way can test it here first.
    pub fn check_pass(&self, buy_orders: &Vec<Order>, sell_orders: &Vec<Order>) -> (r: bool)
        ensures
            r == fills_ok(
                self.accounts@,
                fills_of(sort_desc(buy_orders@), sort_desc(sell_orders@)),
                self.fee_percentage,
            ),
    {
        let buys = sorted_by_priority(buy_orders);
        let sells = sorted_by_priority(sell_orders);
        let mut sim = copy_accounts(&self.accounts);
        let ghost l0 = self.accounts@;
        let ghost fee0 = self.fee_percentage;
        let mut i: usize = 0;
        while i < buys.len()
            invariant
                i <= buys@.len(),
                buys@ == sort_desc(buy_orders@),
                sells@ == sort_desc(sell_orders@),
                fee0 == self.fee_percentage,
                l0 == self.accounts@,
                fills_ok(l0, fills_of(buys@.take(i as int), sells@), fee0),
                sim@ == apply_fills(l0, fills_of(buys@.take(i as int), sells@), fee0),
            decreases buys@.len() - i,
        {
            proof {
                assert(buys@.take(i as int + 1) =~= buys@.take(i as int) + seq![buys@[i as int]]);
                lemma_fills_of_append(buys@.take(i as int), seq![buys@[i as int]], sells@);
                lemma_fills_of_singleton(buys@[i as int], sells@);
            }
            let buy = buys[i];
            let ghost pre = sim@;
            let ok = check_one_buy(&mut sim, &buy, &sells, self.fee_percentage);
            if !ok {
                proof {
                    assert(buys@.take(i as int) + buys@.skip(i as int) =~= buys@);
                    lemma_fills_of_append(buys@.take(i as int), buys@.skip(i as int), sells@);
                    lemma_fills_ok_append(
                        l0,
                        fills_of(buys@.take(i as int), sells@),
                        fills_of(buys@.skip(i as int), sells@),
                        fee0,
                    );
                    assert(buys@.skip(i as int)[0] == buys@[i as int]);
                    assert(buys@.skip(i as int).drop_first() =~= buys@.skip(i as int + 1));
                    lemma_fills_ok_append(
                        pre,
                        fills_with(buys@[i as int], sells@),
                        fills_of(buys@.skip(i as int + 1), sells@),
                        fee0,
                    );
                    assert(!fills_ok(l0, fills_of(buys@, sells@), fee0));
                }
                return false;
            }
            proof {
                lemma_apply_fills_append(
                    l0,
                    fills_of(buys@.take(i as int), sells@),
                    fills_with(buys@[i as int], sells@),
                    fee0,
                );
                lemma_fills_ok_append(
                    l0,
                    fills_of(buys@.take(i as int), sells@),
                    fills_with(buys@[i as int], sells@),
                    fee0,
                );
            }
            i = i + 1;
        }
        proof {
            assert(buys@.take(buys@.len() as int) =~= buys@);
        }
        true
    }

    /// One full matching pass over the snapshot, refused as a whole when it
    /// cannot run: the pass happens exactly when every fill it would make is
    /// applicable, and otherwise the ledger is left untouched.
    pub fn try_match_orders(&mut self, buy_orders: Vec<Order>, sell_orders: Vec<Order>) -> (r:
        bool)
        ensures
            r == fills_ok(
                old(self).accounts@,
                fills_of(sort_desc(buy_orders@), sort_desc(sell_orders@)),
                old(self).fee_percentage,
            ),
            final(self).fee_percentage == old(self).fee_percentage,
            r ==> final(self).accounts@ == apply_fills(
                old(self).accounts@,
                fills_of(sort_desc(buy_orders@), sort_desc(sell_orders@)),
                old(self).fee_percentage,
            ),
            !r ==> final(self).accounts@ == old(self).accounts@,
    {
        if self.check_pass(&buy_orders, &sell_orders) {
            self.match_orders(buy_orders, sell_orders);
            true
        } else {
            false
        }
    }

    /// One full matching pass over a snapshot of the book. Both sides are
    /// first sorted by priority, highest first (stable, so equal priorities
    /// keep submission order); then every buy order is tried against every
    /// sell order in that order, and every crossing pair between distinct
    /// owners is settled immediately and unconditionally. Orders are not
    /// consumed: one order may settle against many counter-orders in one
    /// pass. Demands that the whole sequence of fills is applicable: every
    /// settling pair's owners resolve to distinct accounts, and no balance
    /// leaves its machine range along the way.
    pub fn match_orders(&mut self, buy_orders: Vec<Order>, sell_orders: Vec<Order>)
        requires
            fills_ok(
                old(self).accounts@,
                fills_of(sort_desc(buy_orders@), sort_desc(sell_orders@)),
                old(self).fee_percentage,
            ),
        ensures
            final(self).fee_percentage == old(self).fee_percentage,
            final(self).accounts@ == apply_fills(
                old(self).accounts@,
                fills_of(sort_desc(buy_orders@), sort_desc(sell_orders@)),
                old(self).fee_percentage,
            ),
    {
        let buys = sorted_by_priority(&buy_orders);
        let sells = sorted_by_priority(&sell_orders);
        let ghost l0 = self.accounts@;
        let ghost fee0 = self.fee_percentage;
        let mut i: usize = 0;
        while i < buys.len()
            invariant
                i <= buys@.len(),
                self.fee_percentage == fee0,
                fills_ok(l0, fills_of(buys@, sells@), fee0),
                self.accounts@ == apply_fills(l0, fills_of(buys@.take(i as int), sells@), fee0),
            decreases buys@.len() - i,
        {
            proof {
                assert(buys@.take(i as int) + buys@.skip(i as int) =~= buys@);
                lemma_fills_of_append(buys@.take(i as int), buys@.skip(i as int), sells@);
                lemma_fills_ok_append(
                    l0,
                    fills_of(buys@.take(i as int), sells@),
                    fills_of(buys@.skip(i as int), sells@),
                    fee0,
                );
                assert(buys@.skip(i as int)[0] == buys@[i as int]);
                assert(buys@.skip(i as int).drop_first() =~= buys@.skip(i as int + 1));
                lemma_fills_ok_append(
                    self.accounts@,
                    fills_with(buys@[i as int], sells@),
                    fills_of(buys@.skip(i as int + 1), sells@),
                    fee0,
                );
                assert(buys@.take(i as int + 1) =~= buys@.take(i as int) + seq![buys@[i as int]]);
                lemma_fills_of_append(buys@.take(i as int), seq![buys@[i as int]], sells@);
                lemma_fills_of_singleton(buys@[i as int], sells@);
            }
            let buy = buys[i];
            self.match_one_buy(&buy, &sells);
            proof {
                lemma_apply_fills_append(
                    l0,
                    fills_of(buys@.take(i as int), sells@),
                    fills_with(buys@[i as int], sells@),
                    fee0,
                );
                assert(self.accounts@ == apply_fills(
                    l0,
                    fills_of(buys@.take(i as int + 1), sells@),
                    fee0,
                ));
            }
            i = i + 1;
        }
        proof {
            assert(buys@.take(buys@.len() as int) =~= buys@);
        }
    }

    /// Executes the monetary consequence of one matched pair: debits the
    /// buyer the full trade value (price times quantity of the buy order),
    /// then credits the seller that value net of the exchange fee. Demands
    /// that both owners resolve to distinct accounts and that the new
    /// balances fit a balance's machine range; no solvency check is made, so
    /// the buyer's balance may go negative.
    pub fn fill_order(&mut self, buy_order: &Order, sell_order: &Order)
        requires
            fill_ok(
                old(self).accounts@,
                *buy_order,
                *sell_order,
                old(self).fee_percentage,
            ),
        ensures
            final(self).fee_percentage == old(self).fee_percentage,
            final(self).accounts@ == apply_fill(
                old(self).accounts@,
                *buy_order,
                *sell_order,
                old(self).fee_percentage,
            ),
            final(self).accounts@.len() == old(self).accounts@.len(),
            final(self).accounts@[acct_idx(old(self).accounts@, buy_order.owner_id)].balance
                == old(self).accounts@[acct_idx(old(self).accounts@, buy_order.owner_id)].balance
                - cost_of(*buy_order),
            final(self).accounts@[acct_idx(old(self).accounts@, sell_order.owner_id)].balance
                == old(self).accounts@[acct_idx(old(self).accounts@, sell_order.owner_id)].balance
                + credit_of(*buy_order, old(self).fee_percentage),
            forall|j: int|
                0 <= j < old(self).accounts@.len()
                    && j != acct_idx(old(self).accounts@, buy_order.owner_id)
                    && j != acct_idx(old(self).accounts@, sell_order.owner_id)
                    ==> final(self).accounts@[j] == old(self).accounts@[j],
            forall|j: int|
                0 <= j < old(self).accounts@.len()
                    ==> final(self).accounts@[j].owner_id == old(self).accounts@[j].owner_id,
    {
        proof {
            lemma_acct_idx(self.accounts@, buy_order.owner_id);
            lemma_acct_idx(self.accounts@, sell_order.owner_id);
            assert((buy_order.price as int) * (buy_order.quantity as int) <= 0xffff_ffff
                * 0xffff_ffff) by (nonlinear_arith)
                requires
                    buy_order.price <= 0xffff_ffffu32,
                    buy_order.quantity <= 0xffff_ffffu32,
            ;
            assert((buy_order.price as int) * (buy_order.quantity as int) >= 0)
                by (nonlinear_arith);
        }
        let total_cost: u64 = (buy_order.price as u64) * (buy_order.quantity as u64);

        let buyer_index = find_account(&self.accounts, buy_order.owner_id);
        let seller_index = find_account(&self.accounts, sell_order.owner_id);

        let buyer_balance = self.accounts[buyer_index].balance;
        set_balance(&mut self.accounts, buyer_index, buyer_balance - (total_cost as i128));

        proof {
            assert((total_cost as int) * (self.fee_percentage as int) <= 0xffff_ffff_ffff_ffff
                * 0xffff_ffff) by (nonlinear_arith)
                requires
                    total_cost <= 0xffff_ffff_ffff_ffffu64,
                    self.fee_percentage <= 0xffff_ffffu32,
            ;
            assert((total_cost as int) * (self.fee_percentage as int) >= 0) by (nonlinear_arith);
        }
        let fee: u128 = (total_cost as u128) * (self.fee_percentage as u128) / 100;
        let seller_balance = self.accounts[seller_index].balance;
        set_balance(
            &mut self.accounts,
            seller_index,
            seller_balance + ((total_cost as i128) - (fee as i128)),
        );
    }
}

} // verus!
