use exchange_core::book::OrderBook;
use exchange_core::engine::{find_account, sorted_by_priority, OrderProcessor};
use exchange_core::{Account, Order};

fn buy(price: u32, quantity: u32, priority: i32, owner_id: u32) -> Order {
    Order { is_buy: true, price, quantity, priority, owner_id }
}

fn sell(price: u32, quantity: u32, priority: i32, owner_id: u32) -> Order {
    Order { is_buy: false, price, quantity, priority, owner_id }
}

fn two_accounts() -> Vec<Account> {
    vec![
        Account { owner_id: 1, balance: 1000 },
        Account { owner_id: 2, balance: 500 },
    ]
}

#[test]
fn submitted_order_appears_in_snapshot() {
    let mut book = OrderBook::new();
    let o = buy(100, 5, 1, 1);
    let stored = book.add_order(o);
    assert_eq!(stored, o);
    let (buys, sells) = book.snapshot();
    assert_eq!(buys, vec![o]);
    assert!(sells.is_empty());
}

#[test]
fn sell_order_goes_to_sell_side() {
    let mut book = OrderBook::new();
    let o = sell(100, 5, 1, 2);
    let stored = book.add_order(o);
    assert_eq!(stored, o);
    let (buys, sells) = book.snapshot();
    assert!(buys.is_empty());
    assert_eq!(sells, vec![o]);
}

#[test]
fn snapshot_is_independent_of_later_submissions() {
    let mut book = OrderBook::new();
    book.add_order(buy(10, 1, 0, 1));
    let (buys, _) = book.snapshot();
    book.add_order(buy(20, 1, 0, 2));
    assert_eq!(buys.len(), 1);
    let (buys_after, _) = book.snapshot();
    assert_eq!(buys_after.len(), 2);
}

#[test]
fn submissions_to_both_sides_keep_all_orders() {
    let mut book = OrderBook::new();
    let b = buy(100, 5, 1, 1);
    let s = sell(90, 5, 2, 2);
    book.add_order(b);
    book.add_order(s);
    let (buys, sells) = book.snapshot();
    assert_eq!(buys, vec![b]);
    assert_eq!(sells, vec![s]);
}

#[test]
fn end_to_end_single_match() {
    // Accounts {1: 1000, 2: 500}; fee 2%; buy 100x5 against sell 100x5:
    // total cost 500, fee 10, so 1000-500=500 and 500+500-10=990.
    let mut proc = OrderProcessor::new(2, two_accounts());
    let mut book = OrderBook::new();
    book.add_order(buy(100, 5, 1, 1));
    book.add_order(sell(100, 5, 2, 2));
    let (buys, sells) = book.snapshot();
    proc.match_orders(buys, sells);
    assert_eq!(proc.accounts[0].balance, 500);
    assert_eq!(proc.accounts[1].balance, 990);
}

#[test]
fn no_settlement_when_prices_do_not_cross() {
    // Buy at 90 against sell at 100: no fill, balances unchanged.
    let mut proc = OrderProcessor::new(2, two_accounts());
    let mut book = OrderBook::new();
    book.add_order(buy(90, 5, 1, 1));
    book.add_order(sell(100, 5, 2, 2));
    let (buys, sells) = book.snapshot();
    proc.match_orders(buys, sells);
    assert_eq!(proc.accounts[0].balance, 1000);
    assert_eq!(proc.accounts[1].balance, 500);
}

#[test]
fn higher_priority_sell_is_attempted_first() {
    let orders = vec![sell(100, 1, 1, 2), sell(100, 1, 5, 2)];
    let sorted = sorted_by_priority(&orders);
    assert_eq!(sorted[0].priority, 5);
    assert_eq!(sorted[1].priority, 1);
}

#[test]
fn equal_priorities_keep_submission_order() {
    let a = sell(10, 1, 3, 1);
    let b = sell(20, 2, 3, 2);
    let c = sell(30, 3, 7, 3);
    let sorted = sorted_by_priority(&vec![a, b, c]);
    assert_eq!(sorted, vec![c, a, b]);
}

#[test]
fn one_buy_settles_against_both_crossing_sells() {
    // Sells with priorities 5 and 1, one buy crossing both: both fills
    // happen, the priority-5 sell first. Each fill debits the full buy
    // cost, since orders are not consumed by a fill.
    let accounts = vec![
        Account { owner_id: 1, balance: 1000 },
        Account { owner_id: 2, balance: 0 },
        Account { owner_id: 3, balance: 0 },
    ];
    let mut proc = OrderProcessor::new(0, accounts);
    let mut book = OrderBook::new();
    book.add_order(sell(80, 1, 5, 2));
    book.add_order(sell(90, 1, 1, 3));
    book.add_order(buy(100, 2, 1, 1));
    let (buys, sells) = book.snapshot();
    proc.match_orders(buys, sells);
    // buy cost = 100 * 2 = 200, debited once per fill
    assert_eq!(proc.accounts[0].balance, 1000 - 200 - 200);
    assert_eq!(proc.accounts[1].balance, 200);
    assert_eq!(proc.accounts[2].balance, 200);
}

#[test]
fn same_owner_pair_never_settles() {
    // Crossing prices, same owner on both sides: nothing happens.
    let mut proc = OrderProcessor::new(2, two_accounts());
    let mut book = OrderBook::new();
    book.add_order(buy(100, 5, 1, 1));
    book.add_order(sell(50, 5, 1, 1));
    let (buys, sells) = book.snapshot();
    proc.match_orders(buys, sells);
    assert_eq!(proc.accounts[0].balance, 1000);
    assert_eq!(proc.accounts[1].balance, 500);
}

#[test]
fn fill_debits_buyer_and_credits_seller_net_of_fee() {
    let mut proc = OrderProcessor::new(2, two_accounts());
    let b = buy(100, 5, 1, 1);
    let s = sell(100, 5, 1, 2);
    proc.fill_order(&b, &s);
    // total cost 500; fee = 500 * 2 / 100 = 10
    assert_eq!(proc.accounts[0].balance, 500);
    assert_eq!(proc.accounts[1].balance, 990);
}

#[test]
fn fee_rounds_toward_zero() {
    // total cost = 111 * 3 = 333; fee = 333 * 7 / 100 = 23 (23.31 truncated)
    let mut proc = OrderProcessor::new(7, two_accounts());
    proc.fill_order(&buy(111, 3, 0, 1), &sell(100, 3, 0, 2));
    assert_eq!(proc.accounts[0].balance, 1000 - 333);
    assert_eq!(proc.accounts[1].balance, 500 + 333 - 23);
}

#[test]
fn zero_fee_transfers_full_cost() {
    let mut proc = OrderProcessor::new(0, two_accounts());
    proc.fill_order(&buy(100, 5, 0, 1), &sell(100, 5, 0, 2));
    assert_eq!(proc.accounts[0].balance, 500);
    assert_eq!(proc.accounts[1].balance, 1000);
}

#[test]
fn buyer_debit_equals_seller_credit_plus_fee() {
    // Fee conservation on a concrete fill: debit 333 = credit 310 + fee 23.
    let mut proc = OrderProcessor::new(7, two_accounts());
    proc.fill_order(&buy(111, 3, 0, 1), &sell(100, 3, 0, 2));
    let debit = 1000 - proc.accounts[0].balance;
    let credit = proc.accounts[1].balance - 500;
    assert_eq!(debit, credit + 23);
}

#[test]
fn buyer_balance_may_go_negative() {
    // No solvency check: the buyer is debited unconditionally.
    let accounts = vec![
        Account { owner_id: 1, balance: 100 },
        Account { owner_id: 2, balance: 0 },
    ];
    let mut proc = OrderProcessor::new(0, accounts);
    proc.fill_order(&buy(100, 5, 0, 1), &sell(100, 5, 0, 2));
    assert_eq!(proc.accounts[0].balance, -400);
    assert_eq!(proc.accounts[1].balance, 500);
}

#[test]
fn sell_quantity_is_not_consulted() {
    // Settlement uses the buy order's quantity alone.
    let mut proc = OrderProcessor::new(0, two_accounts());
    proc.fill_order(&buy(100, 2, 0, 1), &sell(100, 9, 0, 2));
    assert_eq!(proc.accounts[0].balance, 1000 - 200);
    assert_eq!(proc.accounts[1].balance, 500 + 200);
}

#[test]
fn orders_stay_in_the_book_after_a_pass() {
    // A matching pass works on a snapshot; nothing is removed from the book.
    let mut proc = OrderProcessor::new(2, two_accounts());
    let mut book = OrderBook::new();
    book.add_order(buy(100, 5, 1, 1));
    book.add_order(sell(100, 5, 2, 2));
    let (buys, sells) = book.snapshot();
    proc.match_orders(buys, sells);
    let (buys_after, sells_after) = book.snapshot();
    assert_eq!(buys_after.len(), 1);
    assert_eq!(sells_after.len(), 1);
}

#[test]
fn empty_sides_settle_nothing() {
    let mut proc = OrderProcessor::new(2, two_accounts());
    proc.match_orders(Vec::new(), Vec::new());
    assert_eq!(proc.accounts[0].balance, 1000);
    assert_eq!(proc.accounts[1].balance, 500);
}

#[test]
fn equal_prices_cross() {
    let mut proc = OrderProcessor::new(0, two_accounts());
    let mut book = OrderBook::new();
    book.add_order(buy(100, 1, 0, 1));
    book.add_order(sell(100, 1, 0, 2));
    let (buys, sells) = book.snapshot();
    proc.match_orders(buys, sells);
    assert_eq!(proc.accounts[0].balance, 900);
}

#[test]
fn has_account_and_find_account() {
    let proc = OrderProcessor::new(2, two_accounts());
    assert!(proc.has_account(1));
    assert!(proc.has_account(2));
    assert!(!proc.has_account(3));
    assert_eq!(find_account(&proc.accounts, 2), 1);
}

#[test]
fn check_pass_accepts_a_runnable_pass() {
    let proc = OrderProcessor::new(2, two_accounts());
    let buys = vec![buy(100, 5, 1, 1)];
    let sells = vec![sell(100, 5, 2, 2)];
    assert!(proc.check_pass(&buys, &sells));
}

#[test]
fn check_pass_rejects_a_settling_order_without_an_account() {
    let proc = OrderProcessor::new(2, two_accounts());
    let buys = vec![buy(100, 5, 1, 1)];
    let sells = vec![sell(100, 5, 2, 9)];
    assert!(!proc.check_pass(&buys, &sells));
}

#[test]
fn check_pass_ignores_an_unknown_owner_that_never_settles() {
    // The unknown owner's sell does not cross, so no fill involves it.
    let proc = OrderProcessor::new(2, two_accounts());
    let buys = vec![buy(100, 5, 1, 1)];
    let sells = vec![sell(200, 5, 2, 9)];
    assert!(proc.check_pass(&buys, &sells));
}

#[test]
fn try_match_orders_settles_when_applicable() {
    let mut proc = OrderProcessor::new(2, two_accounts());
    let settled = proc.try_match_orders(vec![buy(100, 5, 1, 1)], vec![sell(100, 5, 2, 2)]);
    assert!(settled);
    assert_eq!(proc.accounts[0].balance, 500);
    assert_eq!(proc.accounts[1].balance, 990);
}

#[test]
fn try_match_orders_refuses_and_leaves_ledger_unchanged() {
    let mut proc = OrderProcessor::new(2, two_accounts());
    let settled = proc.try_match_orders(vec![buy(100, 5, 1, 1)], vec![sell(100, 5, 2, 9)]);
    assert!(!settled);
    assert_eq!(proc.accounts[0].balance, 1000);
    assert_eq!(proc.accounts[1].balance, 500);
}

#[test]
fn sorting_an_empty_side_is_empty() {
    let sorted = sorted_by_priority(&Vec::new());
    assert!(sorted.is_empty());
}
