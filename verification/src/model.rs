//! The mathematical model of one matching pass: which pairs settle, in what
//! order they are attempted, and what each settlement does to the ledger.

use vstd::prelude::*;

use crate::{Account, Order};

verus! {

/// A buy order crosses a sell order when the sides are right and the buyer
/// is willing to pay at least what the seller asks.
pub open spec fn crosses(b: Order, s: Order) -> bool {
    b.is_buy && !s.is_buy && b.price >= s.price
}

/// A pair settles when it crosses and the two orders belong to different
/// owners: an order is never matched against its own account.
pub open spec fn settles(b: Order, s: Order) -> bool {
    crosses(b, s) && b.owner_id != s.owner_id
}

/// The trade value of a fill: unit price times quantity, both taken from the
/// buy order alone (the sell order's quantity is not consulted).
pub open spec fn cost_of(b: Order) -> int {
    b.price * b.quantity
}

/// The exchange's cut of one fill: `fee_percentage` percent of the trade
/// value, rounded toward zero.
pub open spec fn fee_of(b: Order, fee_percentage: u32) -> int {
    cost_of(b) * fee_percentage / 100
}

/// What the seller receives from one fill: the trade value net of the fee.
pub open spec fn credit_of(b: Order, fee_percentage: u32) -> int {
    cost_of(b) - fee_of(b, fee_percentage)
}

/// The index of the first account owned by `owner`, or -1 when no account of
/// the ledger is.
pub open spec fn acct_idx(ledger: Seq<Account>, owner: u32) -> int
    decreases ledger.len(),
{
    if ledger.len() == 0 {
        -1
    } else if ledger[0].owner_id == owner {
        0
    } else if acct_idx(ledger.drop_first(), owner) < 0 {
        -1
    } else {
        acct_idx(ledger.drop_first(), owner) + 1
    }
}

/// `acct_idx` finds exactly the first account of the owner: a non-negative
/// result points at a matching account with none before it, and -1 means the
/// ledger holds none at all.
pub proof fn lemma_acct_idx(ledger: Seq<Account>, owner: u32)
    ensures
        acct_idx(ledger, owner) >= 0 ==> acct_idx(ledger, owner) < ledger.len()
            && ledger[acct_idx(ledger, owner)].owner_id == owner
            && (forall|j: int| 0 <= j < acct_idx(ledger, owner) ==> ledger[j].owner_id != owner),
        acct_idx(ledger, owner) < 0 ==> (forall|j: int|
            0 <= j < ledger.len() ==> ledger[j].owner_id != owner),
    decreases ledger.len(),
{
    if ledger.len() == 0 {
    } else if ledger[0].owner_id == owner {
    } else {
        lemma_acct_idx(ledger.drop_first(), owner);
        assert(forall|j: int|
            1 <= j < ledger.len() ==> ledger[j] == ledger.drop_first()[j - 1]);
    }
}

/// Whether one fill can be applied to the ledger without violating its
/// preconditions: both owners resolve to (distinct) accounts, and the two new
/// balances stay within the machine range of a balance.
pub open spec fn fill_ok(ledger: Seq<Account>, b: Order, s: Order, fee_percentage: u32) -> bool {
    let bi = acct_idx(ledger, b.owner_id);
    let si = acct_idx(ledger, s.owner_id);
    bi >= 0 && si >= 0 && bi != si
        && i128::MIN <= ledger[bi].balance - cost_of(b) <= i128::MAX
        && i128::MIN <= ledger[si].balance + credit_of(b, fee_percentage) <= i128::MAX
}

/// The ledger after one fill: the buyer's account is debited the full trade
/// value, then the seller's account is credited the value net of the fee.
pub open spec fn apply_fill(ledger: Seq<Account>, b: Order, s: Order, fee_percentage: u32) -> Seq<
    Account,
> {
    let bi = acct_idx(ledger, b.owner_id);
    let si = acct_idx(ledger, s.owner_id);
    let debited = ledger.update(
        bi,
        Account {
            owner_id: ledger[bi].owner_id,
            balance: (ledger[bi].balance - cost_of(b)) as i128,
        },
    );
    debited.update(
        si,
        Account {
            owner_id: debited[si].owner_id,
            balance: (debited[si].balance + credit_of(b, fee_percentage)) as i128,
        },
    )
}

/// The fills one buy order produces against a sequence of sell orders, in the
/// order they are attempted.
pub open spec fn fills_with(b: Order, sells: Seq<Order>) -> Seq<(Order, Order)>
    decreases sells.len(),
{
    if sells.len() == 0 {
        Seq::empty()
    } else {
        (if settles(b, sells[0]) {
            seq![(b, sells[0])]
        } else {
            Seq::empty()
        }) + fills_with(b, sells.drop_first())
    }
}

/// The fills of one whole matching pass over already-sorted sides: every buy
/// order, in sequence order, against every sell order, in sequence order.
pub open spec fn fills_of(buys: Seq<Order>, sells: Seq<Order>) -> Seq<(Order, Order)>
    decreases buys.len(),
{
    if buys.len() == 0 {
        Seq::empty()
    } else {
        fills_with(buys[0], sells) + fills_of(buys.drop_first(), sells)
    }
}

/// The ledger after a sequence of fills, applied left to right.
pub open spec fn apply_fills(
    ledger: Seq<Account>,
    fills: Seq<(Order, Order)>,
    fee_percentage: u32,
) -> Seq<Account>
    decreases fills.len(),
{
    if fills.len() == 0 {
        ledger
    } else {
        apply_fills(
            apply_fill(ledger, fills[0].0, fills[0].1, fee_percentage),
            fills.drop_first(),
            fee_percentage,
        )
    }
}

/// Whether a whole sequence of fills can be applied in order: each fill's
/// preconditions hold on the ledger left by the fills before it.
pub open spec fn fills_ok(
    ledger: Seq<Account>,
    fills: Seq<(Order, Order)>,
    fee_percentage: u32,
) -> bool
    decreases fills.len(),
{
    fills.len() == 0 || (fill_ok(ledger, fills[0].0, fills[0].1, fee_percentage) && fills_ok(
        apply_fill(ledger, fills[0].0, fills[0].1, fee_percentage),
        fills.drop_first(),
        fee_percentage,
    ))
}

/// Inserts an order into a priority-descending sequence, after every order of
/// equal or higher priority, so that equal priorities keep their prior order.
pub open spec fn insert_desc(sorted: Seq<Order>, o: Order) -> Seq<Order>
    decreases sorted.len(),
{
    if sorted.len() == 0 {
        seq![o]
    } else if sorted[0].priority >= o.priority {
        seq![sorted[0]] + insert_desc(sorted.drop_first(), o)
    } else {
        seq![o] + sorted
    }
}

/// Stable sort by priority, highest first: orders of equal priority keep
/// their relative order of submission.
pub open spec fn sort_desc(s: Seq<Order>) -> Seq<Order>
    decreases s.len(),
{
    if s.len() == 0 {
        Seq::empty()
    } else {
        insert_desc(sort_desc(s.drop_last()), s.last())
    }
}

/// `insert_desc` places the new order at the first position whose occupant
/// has strictly lower priority: positional insertion and the recursive scan
/// agree.
pub proof fn lemma_insert_desc_at(s: Seq<Order>, o: Order, pos: int)
    requires
        0 <= pos <= s.len(),
        forall|j: int| 0 <= j < pos ==> s[j].priority >= o.priority,
        pos < s.len() ==> s[pos].priority < o.priority,
    ensures
        insert_desc(s, o) == s.insert(pos, o),
    decreases pos + s.len(),
{
    if pos == 0 {
        if s.len() == 0 {
            assert(insert_desc(s, o) =~= s.insert(0, o));
        } else {
            assert(s[0].priority < o.priority);
            assert(seq![o] + s =~= s.insert(0, o));
        }
    } else {
        assert(s[0].priority >= o.priority);
        assert(forall|j: int| 0 <= j < pos - 1 ==> s.drop_first()[j] == s[j + 1]);
        assert(pos - 1 < s.drop_first().len() ==> s.drop_first()[pos - 1] == s[pos]);
        lemma_insert_desc_at(s.drop_first(), o, pos - 1);
        assert(seq![s[0]] + s.drop_first().insert(pos - 1, o) =~= s.insert(pos, o));
    }
}

/// One buy order's fills distribute over splitting the sell side.
pub proof fn lemma_fills_with_append(b: Order, s1: Seq<Order>, s2: Seq<Order>)
    ensures
        fills_with(b, s1 + s2) == fills_with(b, s1) + fills_with(b, s2),
    decreases s1.len(),
{
    if s1.len() == 0 {
        assert(s1 + s2 =~= s2);
        assert(fills_with(b, s1) + fills_with(b, s2) =~= fills_with(b, s2));
    } else {
        lemma_fills_with_append(b, s1.drop_first(), s2);
        assert((s1 + s2)[0] == s1[0]);
        assert((s1 + s2).drop_first() =~= s1.drop_first() + s2);
        assert(fills_with(b, s1 + s2) =~= fills_with(b, s1) + fills_with(b, s2));
    }
}

/// The fills of one buy order against a single sell order.
pub proof fn lemma_fills_with_singleton(b: Order, s: Order)
    ensures
        settles(b, s) ==> fills_with(b, seq![s]) == seq![(b, s)],
        !settles(b, s) ==> fills_with(b, seq![s]) == Seq::<(Order, Order)>::empty(),
{
    assert(seq![s].drop_first() =~= Seq::<Order>::empty());
    assert(fills_with(b, Seq::<Order>::empty()) == Seq::<(Order, Order)>::empty());
    if settles(b, s) {
        assert(fills_with(b, seq![s]) =~= seq![(b, s)]);
    } else {
        assert(fills_with(b, seq![s]) =~= Seq::<(Order, Order)>::empty());
    }
}

/// A pass's fills distribute over splitting the buy side.
pub proof fn lemma_fills_of_append(b1: Seq<Order>, b2: Seq<Order>, sells: Seq<Order>)
    ensures
        fills_of(b1 + b2, sells) == fills_of(b1, sells) + fills_of(b2, sells),
    decreases b1.len(),
{
    if b1.len() == 0 {
        assert(b1 + b2 =~= b2);
        assert(fills_of(b1, sells) + fills_of(b2, sells) =~= fills_of(b2, sells));
    } else {
        lemma_fills_of_append(b1.drop_first(), b2, sells);
        assert((b1 + b2)[0] == b1[0]);
        assert((b1 + b2).drop_first() =~= b1.drop_first() + b2);
        assert(fills_of(b1 + b2, sells) =~= fills_of(b1, sells) + fills_of(b2, sells));
    }
}

/// A pass with a single buy order produces exactly that order's fills.
pub proof fn lemma_fills_of_singleton(b: Order, sells: Seq<Order>)
    ensures
        fills_of(seq![b], sells) == fills_with(b, sells),
{
    assert(seq![b].drop_first() =~= Seq::<Order>::empty());
    assert(fills_of(Seq::<Order>::empty(), sells) == Seq::<(Order, Order)>::empty());
    assert(fills_of(seq![b], sells) =~= fills_with(b, sells));
}

/// Applying a split sequence of fills is applying its parts in turn.
pub proof fn lemma_apply_fills_append(
    ledger: Seq<Account>,
    f1: Seq<(Order, Order)>,
    f2: Seq<(Order, Order)>,
    fee_percentage: u32,
)
    ensures
        apply_fills(ledger, f1 + f2, fee_percentage) == apply_fills(
            apply_fills(ledger, f1, fee_percentage),
            f2,
            fee_percentage,
        ),
    decreases f1.len(),
{
    if f1.len() == 0 {
        assert(f1 + f2 =~= f2);
    } else {
        assert((f1 + f2)[0] == f1[0]);
        assert((f1 + f2).drop_first() =~= f1.drop_first() + f2);
        let l1 = apply_fill(ledger, f1[0].0, f1[0].1, fee_percentage);
        lemma_apply_fills_append(l1, f1.drop_first(), f2, fee_percentage);
    }
}

/// Applying one fill as a sequence is applying it alone.
pub proof fn lemma_apply_fills_singleton(
    ledger: Seq<Account>,
    f: (Order, Order),
    fee_percentage: u32,
)
    ensures
        apply_fills(ledger, seq![f], fee_percentage) == apply_fill(
            ledger,
            f.0,
            f.1,
            fee_percentage,
        ),
{
    assert(seq![f].drop_first() =~= Seq::<(Order, Order)>::empty());
    assert(apply_fills(
        apply_fill(ledger, f.0, f.1, fee_percentage),
        Seq::<(Order, Order)>::empty(),
        fee_percentage,
    ) == apply_fill(ledger, f.0, f.1, fee_percentage));
}

/// A split sequence of fills is applicable exactly when its first part is and
/// its second part is applicable to the ledger the first part leaves.
pub proof fn lemma_fills_ok_append(
    ledger: Seq<Account>,
    f1: Seq<(Order, Order)>,
    f2: Seq<(Order, Order)>,
    fee_percentage: u32,
)
    ensures
        fills_ok(ledger, f1 + f2, fee_percentage) <==> (fills_ok(ledger, f1, fee_percentage)
            && fills_ok(apply_fills(ledger, f1, fee_percentage), f2, fee_percentage)),
    decreases f1.len(),
{
    if f1.len() == 0 {
        assert(f1 + f2 =~= f2);
    } else {
        assert((f1 + f2)[0] == f1[0]);
        assert((f1 + f2).drop_first() =~= f1.drop_first() + f2);
        let l1 = apply_fill(ledger, f1[0].0, f1[0].1, fee_percentage);
        lemma_fills_ok_append(l1, f1.drop_first(), f2, fee_percentage);
    }
}

} // verus!
