//! The executable staking engine: the pool record, the per-user records and
//! the escrow balance, with the four operations (initialize, stake, unstake,
//! claim_reward) plus escrow funding.
//!
//! The host environment owns wallets and the clock, so each operation takes
//! the caller's wallet balance and the current time as plain values and
//! returns the wallet's new balance; the host performs the actual transfers.
//! Every operation's contract says it agrees exactly with the corresponding
//! specification-level transition, and that a rejected request leaves the
//! whole state untouched.

use vstd::prelude::*;

use crate::laws::lemma_claim_preserves_wf;
use crate::laws::lemma_initialize_wf;
use crate::laws::lemma_stake_preserves_wf;
use crate::laws::lemma_unstake_preserves_wf;
use crate::ledger::ErrorCode;
use crate::ledger::LedgerView;
use crate::ledger::StakingPool;
use crate::ledger::UserStake;
use crate::ledger::has_user;
use crate::ledger::lemma_sum_elem_le;
use crate::ledger::lemma_user_index;
use crate::ledger::user_index;
use crate::transitions::INITIAL_REWARD_RATE;
use crate::transitions::spec_claim_reward;
use crate::transitions::spec_fund_escrow;
use crate::transitions::spec_initialize;
use crate::transitions::spec_stake;
use crate::transitions::spec_unstake;

verus! {

/// The whole pool state: the singleton record, one stake record per
/// depositor, and the escrow balance the pool itself controls.
#[derive(Clone, Debug)]
pub struct StakingEngine {
    pub pool: StakingPool,
    pub stakes: Vec<UserStake>,
    pub escrow: u64,
}

impl View for StakingEngine {
    type V = LedgerView;

    open spec fn view(&self) -> LedgerView {
        LedgerView { pool: self.pool, stakes: self.stakes@, escrow: self.escrow }
    }
}

/// Linear scan for the record owned by `user`.
fn find_user(stakes: &Vec<UserStake>, user: u64) -> (r: Option<usize>)
    ensures
        (match r {
            Some(i) => i < stakes@.len() && user_index(stakes@, user) == i,
            None => user_index(stakes@, user) == stakes@.len(),
        }),
{
    let n: usize = stakes.len();
    let mut i: usize = 0;
    while i < n
        invariant
            i <= n,
            n == stakes@.len(),
            forall|j: int| 0 <= j < i ==> stakes@[j].user != user,
        decreases n - i,
    {
        if stakes[i].user == user {
            proof {
                lemma_user_index(stakes@, user);
                let ui: int = user_index(stakes@, user);
                if ui < i {
                    assert(stakes@[ui].user == user);
                    assert(false);
                }
                if ui > i {
                    assert(stakes@[i as int].user != user);
                    assert(false);
                }
            }
            return Some(i);
        }
        i = i + 1;
    }
    proof {
        lemma_user_index(stakes@, user);
        let ui: int = user_index(stakes@, user);
        if ui < n {
            assert(stakes@[ui].user == user);
            assert(false);
        }
    }
    None
}

impl StakingEngine {
    /// Create the singleton pool for a deployment: the given authority, no
    /// stakes, an empty escrow, and the fixed initial reward rate. The host
    /// guarantees this runs at most once per deployment.
    pub fn initialize(authority: u64) -> (s: StakingEngine)
        ensures
            s@ == spec_initialize(authority),
            s@.wf(),
    {
        let s = StakingEngine {
            pool: StakingPool {
                authority: authority,
                total_staked: 0,
                reward_rate: INITIAL_REWARD_RATE,
            },
            stakes: Vec::new(),
            escrow: 0,
        };
        proof {
            assert(s@ =~= spec_initialize(authority));
            lemma_initialize_wf(authority);
        }
        s
    }

    /// Read-only lookup of `user`'s stake record.
    pub fn stake_of(&self, user: u64) -> (r: Option<UserStake>)
        ensures
            (match r {
                Some(rec) => has_user(self@.stakes, user) && rec == self@.stakes[user_index(
                    self@.stakes,
                    user,
                )],
                None => !has_user(self@.stakes, user),
            }),
    {
        match find_user(&self.stakes, user) {
            Some(i) => Some(self.stakes[i]),
            None => None,
        }
    }

    /// Deposit `amount` from the depositor's wallet (holding `user_balance`)
    /// into the pool, creating the stake record on first use. Agrees exactly
    /// with [`spec_stake`]; on rejection — including a zero `amount` —
    /// nothing changes. Note that a successful stake restarts the
    /// reward-accrual clock, so a depositor who wants the reward accrued so
    /// far must claim it first.
    pub fn stake(&mut self, user: u64, user_balance: u64, amount: u64, now: i64) -> (r: Result<
        u64,
        ErrorCode,
    >)
        requires
            old(self)@.wf(),
        ensures
            final(self)@.wf(),
            (match r {
                Ok(new_balance) => spec_stake(old(self)@, user, user_balance, amount, now)
                    == Ok::<(LedgerView, u64), ErrorCode>((final(self)@, new_balance)),
                Err(e) => spec_stake(old(self)@, user, user_balance, amount, now) == Err::<
                    (LedgerView, u64),
                    ErrorCode,
                >(e) && final(self)@ == old(self)@,
            }),
    {
        if amount == 0 {
            return Err(ErrorCode::InvalidAmount);
        }
        if user_balance < amount {
            return Err(ErrorCode::InsufficientFunds);
        }
        let found = find_user(&self.stakes, user);
        let prev: u64 = match found {
            Some(i) => self.stakes[i].amount,
            None => 0,
        };
        let new_amount: u64 = match prev.checked_add(amount) {
            Some(v) => v,
            None => {
                return Err(ErrorCode::ArithmeticOverflow);
            },
        };
        let new_total: u64 = match self.pool.total_staked.checked_add(amount) {
            Some(v) => v,
            None => {
                return Err(ErrorCode::ArithmeticOverflow);
            },
        };
        let new_escrow: u64 = match self.escrow.checked_add(amount) {
            Some(v) => v,
            None => {
                return Err(ErrorCode::ArithmeticOverflow);
            },
        };
        let rec = UserStake { user: user, amount: new_amount, last_stake_timestamp: now };
        proof {
            lemma_stake_preserves_wf(old(self)@, user, user_balance, amount, now);
        }
        match found {
            Some(i) => {
                self.stakes[i] = rec;
            },
            None => {
                self.stakes.push(rec);
            },
        }
        self.pool.total_staked = new_total;
        self.escrow = new_escrow;
        proof {
            let r0 = spec_stake(old(self)@, user, user_balance, amount, now);
            assert(r0 is Ok);
            assert(self@ =~= r0->Ok_0.0);
            assert(r0->Ok_0.1 == user_balance - amount);
        }
        Ok(user_balance - amount)
    }

    /// Withdraw `amount` of principal back into the depositor's wallet
    /// (holding `user_balance`). Agrees exactly with [`spec_unstake`]; on
    /// rejection nothing changes.
    pub fn unstake(&mut self, user: u64, user_balance: u64, amount: u64, now: i64) -> (r: Result<
        u64,
        ErrorCode,
    >)
        requires
            old(self)@.wf(),
        ensures
            final(self)@.wf(),
            (match r {
                Ok(new_balance) => spec_unstake(old(self)@, user, user_balance, amount, now)
                    == Ok::<(LedgerView, u64), ErrorCode>((final(self)@, new_balance)),
                Err(e) => spec_unstake(old(self)@, user, user_balance, amount, now) == Err::<
                    (LedgerView, u64),
                    ErrorCode,
                >(e) && final(self)@ == old(self)@,
            }),
    {
        let i: usize = match find_user(&self.stakes, user) {
            Some(i) => i,
            None => {
                return Err(ErrorCode::RecordNotFound);
            },
        };
        let rec: UserStake = self.stakes[i];
        if amount > rec.amount {
            return Err(ErrorCode::InsufficientStake);
        }
        if self.escrow < amount {
            return Err(ErrorCode::InsufficientFunds);
        }
        let new_balance: u64 = match user_balance.checked_add(amount) {
            Some(v) => v,
            None => {
                return Err(ErrorCode::ArithmeticOverflow);
            },
        };
        proof {
            lemma_sum_elem_le(self.stakes@, i as int);
            lemma_unstake_preserves_wf(old(self)@, user, user_balance, amount, now);
        }
        let rec2 = UserStake {
            user: rec.user,
            amount: rec.amount - amount,
            last_stake_timestamp: now,
        };
        self.stakes[i] = rec2;
        self.pool.total_staked = self.pool.total_staked - amount;
        self.escrow = self.escrow - amount;
        proof {
            let r0 = spec_unstake(old(self)@, user, user_balance, amount, now);
            assert(r0 is Ok);
            assert(self@ =~= r0->Ok_0.0);
            assert(r0->Ok_0.1 == new_balance);
        }
        Ok(new_balance)
    }

    /// Pay out the reward accrued since the depositor's last action:
    /// exactly `amount * rate * elapsed` units, from the escrow into the
    /// depositor's wallet (holding `user_balance`). Agrees exactly with
    /// [`spec_claim_reward`]; on rejection nothing changes — in particular,
    /// when the escrow cannot cover the reward the accrual clock is left
    /// where it was, so the unpaid reward keeps accruing.
    pub fn claim_reward(&mut self, user: u64, user_balance: u64, now: i64) -> (r: Result<
        u64,
        ErrorCode,
    >)
        requires
            old(self)@.wf(),
        ensures
            final(self)@.wf(),
            (match r {
                Ok(new_balance) => spec_claim_reward(old(self)@, user, user_balance, now)
                    == Ok::<(LedgerView, u64), ErrorCode>((final(self)@, new_balance)),
                Err(e) => spec_claim_reward(old(self)@, user, user_balance, now) == Err::<
                    (LedgerView, u64),
                    ErrorCode,
                >(e) && final(self)@ == old(self)@,
            }),
    {
        let i: usize = match find_user(&self.stakes, user) {
            Some(i) => i,
            None => {
                return Err(ErrorCode::RecordNotFound);
            },
        };
        let rec: UserStake = self.stakes[i];
        if now < rec.last_stake_timestamp {
            return Err(ErrorCode::ArithmeticUnderflow);
        }
        let elapsed_wide: i128 = (now as i128) - (rec.last_stake_timestamp as i128);
        let elapsed: u64 = elapsed_wide as u64;
        let step1: u64 = match rec.amount.checked_mul(self.pool.reward_rate) {
            Some(v) => v,
            None => {
                return Err(ErrorCode::ArithmeticOverflow);
            },
        };
        let reward: u64 = match step1.checked_mul(elapsed) {
            Some(v) => v,
            None => {
                return Err(ErrorCode::ArithmeticOverflow);
            },
        };
        if self.escrow < reward {
            return Err(ErrorCode::InsufficientFunds);
        }
        let new_balance: u64 = match user_balance.checked_add(reward) {
            Some(v) => v,
            None => {
                return Err(ErrorCode::ArithmeticOverflow);
            },
        };
        proof {
            lemma_claim_preserves_wf(old(self)@, user, user_balance, now);
        }
        let rec2 = UserStake {
            user: rec.user,
            amount: rec.amount,
            last_stake_timestamp: now,
        };
        self.stakes[i] = rec2;
        self.escrow = self.escrow - reward;
        proof {
            let r0 = spec_claim_reward(old(self)@, user, user_balance, now);
            assert(r0 is Ok);
            assert(self@ =~= r0->Ok_0.0);
            assert(r0->Ok_0.1 == new_balance);
        }
        Ok(new_balance)
    }

    /// Top the escrow up from the deployer's wallet (holding
    /// `funder_balance`), so that reward obligations beyond the staked
    /// principal can be paid. Agrees exactly with [`spec_fund_escrow`].
    pub fn fund_escrow(&mut self, funder_balance: u64, amount: u64) -> (r: Result<u64, ErrorCode>)
        requires
            old(self)@.wf(),
        ensures
            final(self)@.wf(),
            (match r {
                Ok(new_balance) => spec_fund_escrow(old(self)@, funder_balance, amount)
                    == Ok::<(LedgerView, u64), ErrorCode>((final(self)@, new_balance)),
                Err(e) => spec_fund_escrow(old(self)@, funder_balance, amount) == Err::<
                    (LedgerView, u64),
                    ErrorCode,
                >(e) && final(self)@ == old(self)@,
            }),
    {
        if funder_balance < amount {
            return Err(ErrorCode::InsufficientFunds);
        }
        let new_escrow: u64 = match self.escrow.checked_add(amount) {
            Some(v) => v,
            None => {
                return Err(ErrorCode::ArithmeticOverflow);
            },
        };
        self.escrow = new_escrow;
        proof {
            let r0 = spec_fund_escrow(old(self)@, funder_balance, amount);
            assert(r0 is Ok);
            assert(self@ =~= r0->Ok_0.0);
        }
        Ok(funder_balance - amount)
    }
}

} // verus!
