//! Specification-level transition functions: the exact mathematical meaning
//! of each operation, as a total function from the pre-state (plus the plain
//! values the host hands in: the caller's wallet balance and the current
//! time) to either the post-state or the error that rejects the request.
//!
//! The executable operations in [`crate::engine`] promise to agree with
//! these functions exactly, so every law proved here holds of the running
//! code.

use vstd::prelude::*;

use crate::ledger::ErrorCode;
use crate::ledger::LedgerView;
use crate::ledger::StakingPool;
use crate::ledger::UserStake;
use crate::ledger::user_index;

verus! {

/// Reward rate every pool starts with: one reward unit per staked unit per
/// second.
pub const INITIAL_REWARD_RATE: u64 = 1;

/// The reward owed for `amount` staked at `rate` over `elapsed` seconds.
pub open spec fn reward_of(amount: u64, rate: u64, elapsed: int) -> int {
    amount * rate * elapsed
}

/// The freshly created pool: no stakes, an empty escrow, and the fixed
/// initial reward rate.
pub open spec fn spec_initialize(authority: u64) -> LedgerView {
    LedgerView {
        pool: StakingPool {
            authority: authority,
            total_staked: 0,
            reward_rate: INITIAL_REWARD_RATE,
        },
        stakes: Seq::empty(),
        escrow: 0,
    }
}

/// Deposit `amount` from a wallet holding `bal` into the pool: the wallet
/// pays first, then the depositor's record (created on first use) and the
/// pool total grow by `amount`, and the accrual clock restarts at `now`.
/// Restarting the clock forfeits any reward accrued since the previous
/// action; a depositor who wants it must claim before staking again. A
/// zero `amount` is rejected before anything else is looked at: it would
/// deposit nothing yet still restart the accrual clock.
/// On success the result carries the post-state and the wallet's new
/// balance.
pub open spec fn spec_stake(
    s: LedgerView,
    user: u64,
    bal: u64,
    amount: u64,
    now: i64,
) -> Result<(LedgerView, u64), ErrorCode> {
    if amount == 0 {
        Err(ErrorCode::InvalidAmount)
    } else if bal < amount {
        Err(ErrorCode::InsufficientFunds)
    } else {
        let i = user_index(s.stakes, user);
        let prev: int = if i < s.stakes.len() {
            s.stakes[i].amount as int
        } else {
            0
        };
        if prev + amount > u64::MAX {
            Err(ErrorCode::ArithmeticOverflow)
        } else if s.pool.total_staked + amount > u64::MAX {
            Err(ErrorCode::ArithmeticOverflow)
        } else if s.escrow + amount > u64::MAX {
            Err(ErrorCode::ArithmeticOverflow)
        } else {
            let rec = UserStake {
                user: user,
                amount: (prev + amount) as u64,
                last_stake_timestamp: now,
            };
            let stakes2 = if i < s.stakes.len() {
                s.stakes.update(i, rec)
            } else {
                s.stakes.push(rec)
            };
            Ok(
                (
                    LedgerView {
                        pool: StakingPool {
                            authority: s.pool.authority,
                            total_staked: (s.pool.total_staked + amount) as u64,
                            reward_rate: s.pool.reward_rate,
                        },
                        stakes: stakes2,
                        escrow: (s.escrow + amount) as u64,
                    },
                    (bal - amount) as u64,
                ),
            )
        }
    }
}

/// Withdraw `amount` of principal back into a wallet holding `bal`: the
/// depositor must have a record covering `amount`, the escrow must cover
/// it, the record and the pool total shrink by `amount`, and the accrual
/// clock restarts at `now` (again forfeiting unclaimed reward).
pub open spec fn spec_unstake(
    s: LedgerView,
    user: u64,
    bal: u64,
    amount: u64,
    now: i64,
) -> Result<(LedgerView, u64), ErrorCode> {
    let i = user_index(s.stakes, user);
    if i >= s.stakes.len() {
        Err(ErrorCode::RecordNotFound)
    } else if amount > s.stakes[i].amount {
        Err(ErrorCode::InsufficientStake)
    } else if s.escrow < amount {
        Err(ErrorCode::InsufficientFunds)
    } else if bal + amount > u64::MAX {
        Err(ErrorCode::ArithmeticOverflow)
    } else {
        let rec = s.stakes[i];
        let rec2 = UserStake {
            user: rec.user,
            amount: (rec.amount - amount) as u64,
            last_stake_timestamp: now,
        };
        Ok(
            (
                LedgerView {
                    pool: StakingPool {
                        authority: s.pool.authority,
                        total_staked: (s.pool.total_staked - amount) as u64,
                        reward_rate: s.pool.reward_rate,
                    },
                    stakes: s.stakes.update(i, rec2),
                    escrow: (s.escrow - amount) as u64,
                },
                (bal + amount) as u64,
            ),
        )
    }
}

/// Pay the reward accrued since the depositor's last action into a wallet
/// holding `bal`: exactly `amount * rate * elapsed` units leave the escrow,
/// the principal and the pool total are untouched, and the accrual clock
/// restarts at `now`. A clock that ran backwards is a fatal inconsistency,
/// not a zero reward; if the escrow cannot cover the reward the clock is
/// not advanced, so the accrued reward is not forfeited.
pub open spec fn spec_claim_reward(
    s: LedgerView,
    user: u64,
    bal: u64,
    now: i64,
) -> Result<(LedgerView, u64), ErrorCode> {
    let i = user_index(s.stakes, user);
    if i >= s.stakes.len() {
        Err(ErrorCode::RecordNotFound)
    } else {
        let rec = s.stakes[i];
        if now < rec.last_stake_timestamp {
            Err(ErrorCode::ArithmeticUnderflow)
        } else {
            let elapsed: int = now - rec.last_stake_timestamp;
            if rec.amount * s.pool.reward_rate > u64::MAX {
                Err(ErrorCode::ArithmeticOverflow)
            } else if reward_of(rec.amount, s.pool.reward_rate, elapsed) > u64::MAX {
                Err(ErrorCode::ArithmeticOverflow)
            } else {
                let reward: int = reward_of(rec.amount, s.pool.reward_rate, elapsed);
                if s.escrow < reward {
                    Err(ErrorCode::InsufficientFunds)
                } else if bal + reward > u64::MAX {
                    Err(ErrorCode::ArithmeticOverflow)
                } else {
                    let rec2 = UserStake {
                        user: rec.user,
                        amount: rec.amount,
                        last_stake_timestamp: now,
                    };
                    Ok(
                        (
                            LedgerView {
                                pool: s.pool,
                                stakes: s.stakes.update(i, rec2),
                                escrow: (s.escrow - reward) as u64,
                            },
                            (bal + reward) as u64,
                        ),
                    )
                }
            }
        }
    }
}

/// The deployer tops the escrow up from a wallet holding `funder_bal`, so
/// that reward obligations beyond the staked principal can be paid. Only
/// the escrow balance moves; neither ledger record changes.
pub open spec fn spec_fund_escrow(
    s: LedgerView,
    funder_bal: u64,
    amount: u64,
) -> Result<(LedgerView, u64), ErrorCode> {
    if funder_bal < amount {
        Err(ErrorCode::InsufficientFunds)
    } else if s.escrow + amount > u64::MAX {
        Err(ErrorCode::ArithmeticOverflow)
    } else {
        Ok(
            (
                LedgerView { pool: s.pool, stakes: s.stakes, escrow: (s.escrow + amount) as u64 },
                (funder_bal - amount) as u64,
            ),
        )
    }
}

} // verus!
