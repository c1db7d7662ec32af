//! A constant-product market maker with threshold-triggered fee distribution,
//! and a time-locked staking ledger that pays accumulated fees as yield.
pub mod coin;
pub mod error;
pub mod math;
pub mod fees;
pub mod amm;
pub mod rewards;
pub mod msg;
