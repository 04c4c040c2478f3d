//! A payments engine: client accounts that take deposits and withdrawals, and
//! transactions that can be disputed, resolved and charged back.
//!
//! Amounts are exact decimals with at most four fractional places, held as
//! integer counts of ten-thousandths.

pub mod amount;
pub mod domain;
pub mod tx_processor;
pub mod laws;
