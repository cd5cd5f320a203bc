//! Scenario tests for the staking engine: the four operations, every error
//! kind, and the pool invariant on concrete ledgers.

use stake::engine::StakingEngine;
use stake::ledger::ErrorCode;

#[test]
fn initialize_sets_defaults() {
    let e = StakingEngine::initialize(7);
    assert_eq!(e.pool.authority, 7);
    assert_eq!(e.pool.total_staked, 0);
    assert_eq!(e.pool.reward_rate, 1);
    assert_eq!(e.escrow, 0);
    assert!(e.stakes.is_empty());
    assert!(e.stake_of(7).is_none());
}

#[test]
fn stake_moves_funds_and_records() {
    let mut e = StakingEngine::initialize(7);
    let r = e.stake(1, 500, 100, 50);
    assert_eq!(r, Ok(400));
    assert_eq!(e.pool.total_staked, 100);
    assert_eq!(e.escrow, 100);
    let rec = e.stake_of(1).unwrap();
    assert_eq!(rec.user, 1);
    assert_eq!(rec.amount, 100);
    assert_eq!(rec.last_stake_timestamp, 50);
}

#[test]
fn stake_twice_accumulates() {
    let mut e = StakingEngine::initialize(7);
    assert_eq!(e.stake(1, 500, 100, 50), Ok(400));
    assert_eq!(e.stake(1, 400, 200, 60), Ok(200));
    let rec = e.stake_of(1).unwrap();
    assert_eq!(rec.amount, 300);
    assert_eq!(rec.last_stake_timestamp, 60);
    assert_eq!(e.pool.total_staked, 300);
    assert_eq!(e.stakes.len(), 1);
}

#[test]
fn stake_insufficient_funds_changes_nothing() {
    let mut e = StakingEngine::initialize(7);
    let r = e.stake(1, 99, 100, 50);
    assert_eq!(r, Err(ErrorCode::InsufficientFunds));
    assert_eq!(e.pool.total_staked, 0);
    assert_eq!(e.escrow, 0);
    assert!(e.stake_of(1).is_none());
}

#[test]
fn stake_overflow_changes_nothing() {
    // Staking once at the ceiling succeeds; one more unit cannot be
    // recorded and the whole state stays as it was after the first stake.
    let mut e = StakingEngine::initialize(7);
    assert_eq!(e.stake(2, u64::MAX, u64::MAX, 10), Ok(0));
    let r = e.stake(2, 1, 1, 11);
    assert_eq!(r, Err(ErrorCode::ArithmeticOverflow));
    assert_eq!(e.pool.total_staked, u64::MAX);
    assert_eq!(e.escrow, u64::MAX);
    let rec = e.stake_of(2).unwrap();
    assert_eq!(rec.amount, u64::MAX);
    assert_eq!(rec.last_stake_timestamp, 10);
}

#[test]
fn stake_zero_amount_is_rejected() {
    // A zero-value stake deposits nothing; accepting it would still reset
    // the accrual clock and forfeit the pending reward, so it is refused
    // and the record — clock included — is untouched.
    let mut e = StakingEngine::initialize(7);
    assert_eq!(e.stake(1, 500, 100, 50), Ok(400));
    assert_eq!(e.stake(1, 400, 0, 80), Err(ErrorCode::InvalidAmount));
    let rec = e.stake_of(1).unwrap();
    assert_eq!(rec.amount, 100);
    assert_eq!(rec.last_stake_timestamp, 50);
    assert_eq!(e.pool.total_staked, 100);
    assert_eq!(e.escrow, 100);
    // a depositor with no record gets the same rejection and no record
    assert_eq!(e.stake(2, 400, 0, 80), Err(ErrorCode::InvalidAmount));
    assert!(e.stake_of(2).is_none());
}

#[test]
fn unstake_returns_principal() {
    let mut e = StakingEngine::initialize(7);
    assert_eq!(e.stake(1, 500, 100, 50), Ok(400));
    let r = e.unstake(1, 400, 60, 70);
    assert_eq!(r, Ok(460));
    let rec = e.stake_of(1).unwrap();
    assert_eq!(rec.amount, 40);
    assert_eq!(rec.last_stake_timestamp, 70);
    assert_eq!(e.pool.total_staked, 40);
    assert_eq!(e.escrow, 40);
}

#[test]
fn unstake_without_record_fails() {
    // A depositor with no stake record cannot withdraw anything.
    let mut e = StakingEngine::initialize(7);
    let r = e.unstake(3, 100, 5, 10);
    assert_eq!(r, Err(ErrorCode::RecordNotFound));
    assert_eq!(e.pool.total_staked, 0);
    assert_eq!(e.escrow, 0);
}

#[test]
fn unstake_more_than_staked_fails() {
    let mut e = StakingEngine::initialize(7);
    assert_eq!(e.stake(1, 500, 50, 10), Ok(450));
    let r = e.unstake(1, 450, 60, 20);
    assert_eq!(r, Err(ErrorCode::InsufficientStake));
    let rec = e.stake_of(1).unwrap();
    assert_eq!(rec.amount, 50);
    assert_eq!(rec.last_stake_timestamp, 10);
    assert_eq!(e.pool.total_staked, 50);
    assert_eq!(e.escrow, 50);
}

#[test]
fn unstake_with_drained_escrow_fails() {
    // A reward claim may legitimately pay out of the escrow's principal
    // when no float was provided; the later withdrawal then fails and the
    // ledger records are untouched.
    let mut e = StakingEngine::initialize(7);
    assert_eq!(e.stake(1, 100, 100, 0), Ok(0));
    // reward = 100 * 1 * 1 = 100 drains the whole escrow
    assert_eq!(e.claim_reward(1, 0, 1), Ok(100));
    assert_eq!(e.escrow, 0);
    let r = e.unstake(1, 100, 100, 2);
    assert_eq!(r, Err(ErrorCode::InsufficientFunds));
    assert_eq!(e.stake_of(1).unwrap().amount, 100);
    assert_eq!(e.pool.total_staked, 100);
}

#[test]
fn stake_unstake_round_trip() {
    let mut e = StakingEngine::initialize(7);
    assert_eq!(e.stake(1, 500, 120, 10), Ok(380));
    let total_before = e.pool.total_staked;
    let escrow_before = e.escrow;
    assert_eq!(e.stake(1, 380, 100, 20), Ok(280));
    assert_eq!(e.unstake(1, 280, 100, 30), Ok(380));
    assert_eq!(e.pool.total_staked, total_before);
    assert_eq!(e.escrow, escrow_before);
    assert_eq!(e.stake_of(1).unwrap().amount, 120);
}

#[test]
fn claim_reward_pays_rate_times_stake_times_elapsed() {
    // With a rate of one unit per staked unit per second, 1000 staked for
    // ten seconds earns exactly 10000, and the accrual clock restarts, so
    // an immediate second claim pays zero.
    let mut e = StakingEngine::initialize(7);
    assert_eq!(e.fund_escrow(20000, 10000), Ok(10000));
    assert_eq!(e.stake(1, 5000, 1000, 0), Ok(4000));
    let r = e.claim_reward(1, 4000, 10);
    assert_eq!(r, Ok(14000));
    assert_eq!(e.stake_of(1).unwrap().last_stake_timestamp, 10);
    assert_eq!(e.escrow, 1000);
    let r2 = e.claim_reward(1, 14000, 10);
    assert_eq!(r2, Ok(14000));
    assert_eq!(e.pool.total_staked, 1000);
    assert_eq!(e.stake_of(1).unwrap().amount, 1000);
}

#[test]
fn claim_reward_grows_with_elapsed_time() {
    // Same stake and rate, longer wait: strictly larger, exact rewards.
    let mut e1 = StakingEngine::initialize(7);
    assert_eq!(e1.fund_escrow(10000, 10000), Ok(0));
    assert_eq!(e1.stake(1, 100, 100, 0), Ok(0));
    assert_eq!(e1.claim_reward(1, 0, 5), Ok(500));

    let mut e2 = StakingEngine::initialize(7);
    assert_eq!(e2.fund_escrow(10000, 10000), Ok(0));
    assert_eq!(e2.stake(1, 100, 100, 0), Ok(0));
    assert_eq!(e2.claim_reward(1, 0, 10), Ok(1000));
    assert!(500 < 1000u64);
}

#[test]
fn claim_reward_without_record_fails() {
    let mut e = StakingEngine::initialize(7);
    let r = e.claim_reward(9, 100, 10);
    assert_eq!(r, Err(ErrorCode::RecordNotFound));
}

#[test]
fn claim_reward_with_backwards_clock_fails() {
    let mut e = StakingEngine::initialize(7);
    assert_eq!(e.stake(1, 100, 100, 100), Ok(0));
    let r = e.claim_reward(1, 0, 50);
    assert_eq!(r, Err(ErrorCode::ArithmeticUnderflow));
    assert_eq!(e.stake_of(1).unwrap().last_stake_timestamp, 100);
    assert_eq!(e.escrow, 100);
}

#[test]
fn claim_reward_overflow_fails() {
    let mut e = StakingEngine::initialize(7);
    assert_eq!(e.stake(1, u64::MAX, u64::MAX, 0), Ok(0));
    // u64::MAX * 1 * 2 cannot be represented
    let r = e.claim_reward(1, 0, 2);
    assert_eq!(r, Err(ErrorCode::ArithmeticOverflow));
    assert_eq!(e.stake_of(1).unwrap().last_stake_timestamp, 0);
    assert_eq!(e.escrow, u64::MAX);
}

#[test]
fn claim_reward_insufficient_escrow_keeps_clock() {
    // The escrow cannot cover the reward: the claim fails and the accrual
    // clock is not advanced, so the reward window is not forfeited.
    let mut e = StakingEngine::initialize(7);
    assert_eq!(e.stake(1, 100, 100, 0), Ok(0));
    let r = e.claim_reward(1, 0, 2);
    assert_eq!(r, Err(ErrorCode::InsufficientFunds));
    assert_eq!(e.stake_of(1).unwrap().last_stake_timestamp, 0);
    assert_eq!(e.escrow, 100);
    // one second's reward still fits, and covers the whole window so far
    assert_eq!(e.claim_reward(1, 0, 1), Ok(100));
}

#[test]
fn fund_escrow_moves_only_escrow() {
    let mut e = StakingEngine::initialize(7);
    assert_eq!(e.fund_escrow(500, 200), Ok(300));
    assert_eq!(e.escrow, 200);
    assert_eq!(e.pool.total_staked, 0);
    assert_eq!(e.fund_escrow(100, 200), Err(ErrorCode::InsufficientFunds));
    assert_eq!(e.escrow, 200);
}

#[test]
fn fund_escrow_overflow_fails() {
    let mut e = StakingEngine::initialize(7);
    assert_eq!(e.fund_escrow(u64::MAX, u64::MAX), Ok(0));
    assert_eq!(e.fund_escrow(1, 1), Err(ErrorCode::ArithmeticOverflow));
    assert_eq!(e.escrow, u64::MAX);
}

#[test]
fn total_staked_matches_sum_over_users() {
    // The pool invariant on a concrete ledger with three depositors.
    let mut e = StakingEngine::initialize(7);
    assert_eq!(e.stake(1, 1000, 100, 0), Ok(900));
    assert_eq!(e.stake(2, 1000, 250, 1), Ok(750));
    assert_eq!(e.stake(3, 1000, 650, 2), Ok(350));
    assert_eq!(e.unstake(2, 750, 50, 3), Ok(800));
    let sum: u64 = [1u64, 2, 3]
        .iter()
        .map(|u| e.stake_of(*u).map(|r| r.amount).unwrap_or(0))
        .sum();
    assert_eq!(e.pool.total_staked, sum);
    assert_eq!(e.pool.total_staked, 950);
    assert_eq!(e.escrow, 950);
}
