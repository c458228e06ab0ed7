//! A minimal exchange core: an order book that accepts buy and sell orders,
//! a priority-driven matching engine, and settlement that moves funds between
//! account balances net of an exchange fee.
//!
//! Money is held in integer units; the fee percentage is an integer percent.
//! The transport layer (HTTP ingestion, the polling match loop) lives outside
//! this crate and calls in through `OrderBook` and `OrderProcessor`.

use vstd::prelude::*;

pub mod book;
pub mod laws;
pub mod engine;
pub mod model;

verus! {

/// One resting order. Immutable once submitted; `priority` orders the
/// sequence in which orders on one side are attempted during a matching pass
/// (higher first), and `owner_id` names the account that placed it.
#[derive(Clone, Copy, PartialEq, Eq, Structural, Debug)]
pub struct Order {
    pub is_buy: bool,
    pub price: u32,
    pub quantity: u32,
    pub priority: i32,
    pub owner_id: u32,
}

/// One account of the ledger. The balance is a signed amount in integer
/// currency units; no floor is enforced, so it may go negative.
#[derive(Clone, Copy, PartialEq, Eq, Structural, Debug)]
pub struct Account {
    pub owner_id: u32,
    pub balance: i128,
}

} // verus!
