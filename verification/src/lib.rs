//! A staking-pool ledger with verified state transitions.
//!
//! The pool holds depositors' principal in an escrow balance, tracks each
//! depositor's stake and the start of its reward-accrual window, and pays a
//! reward proportional to staked amount and elapsed time. Every operation is
//! all-or-nothing: a failed operation leaves the ledger and the escrow exactly
//! as they were, and the pool's recorded total always equals the sum of the
//! per-user stakes.

pub mod counter;
pub mod engine;
pub mod laws;
pub mod ledger;
pub mod transitions;
