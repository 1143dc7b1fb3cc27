//! Reconstruction of trades from a ledger of buy and sell transactions.
//!
//! Raw ledger rows are parsed into [`transaction::Transaction`] values, and
//! [`trade_computer::analyze`] pairs each purchase with the first matching sale.
pub mod decimal;
pub mod error;
pub mod parser;
pub mod store;
pub mod text;
pub mod trade;
pub mod trade_computer;
pub mod trade_laws;
pub mod transaction;
