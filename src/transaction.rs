//! Ledger entries.
use vstd::prelude::*;
use crate::decimal::Decimal;

verus! {

/// Direction of a ledger entry.
#[derive(Clone, Copy, Debug, PartialEq, Eq, Structural)]
pub enum Type {
    Bought,
    Sold,
}

/// One ledger entry for an instrument (`currency`).
#[derive(Clone, Debug, PartialEq)]
pub struct Transaction {
    pub currency: String,
    pub kind: Type,
    pub amount: Decimal,
    pub total_value: Decimal,
    pub price: Decimal,
    /// An ISO-8601-like text whose lexical order is chronological.
    pub timestamp: String,
}

} // verus!
