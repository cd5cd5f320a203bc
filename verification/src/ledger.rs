//! The two ledger record types, the error taxonomy, and the mathematical
//! model of the whole pool state with its well-formedness invariant.
//!
//! Identities (the pool authority and each depositor) are plain `u64` account
//! ids; the host environment is responsible for mapping real account
//! addresses to these ids and for verifying that a request was signed by the
//! depositor it names.

use vstd::prelude::*;

verus! {

/// The singleton pool record: one per deployment.
#[derive(Clone, Copy, Debug, PartialEq, Eq, Structural)]
pub struct StakingPool {
    /// Identity of the deployer; set once at initialization.
    pub authority: u64,
    /// Sum of the staked principal over all depositors.
    pub total_staked: u64,
    /// Reward units accrued per staked unit per elapsed second.
    pub reward_rate: u64,
}

/// One record per depositor: their staked principal and the start of the
/// current reward-accrual window.
#[derive(Clone, Copy, Debug, PartialEq, Eq, Structural)]
pub struct UserStake {
    /// The owning depositor's identity.
    pub user: u64,
    /// Currently staked principal.
    pub amount: u64,
    /// Unix time of the most recent action that changed `amount` or paid a
    /// reward; rewards accrue from this instant.
    pub last_stake_timestamp: i64,
}

/// Why an operation was rejected. Every rejection leaves the ledger and the
/// escrow untouched.
#[derive(Clone, Copy, Debug, PartialEq, Eq, Structural)]
pub enum ErrorCode {
    /// A stake of zero units was rejected outright: accepting it would
    /// reset the reward-accrual clock while depositing nothing, silently
    /// forfeiting the depositor's pending reward.
    InvalidAmount,
    /// An unstake asked for more than the depositor's recorded principal.
    InsufficientStake,
    /// An unstake or reward claim named a depositor with no stake record.
    RecordNotFound,
    /// A balance (the depositor's wallet or the pool's escrow) cannot cover
    /// the requested transfer.
    InsufficientFunds,
    /// A checked addition or multiplication on amounts would wrap.
    ArithmeticOverflow,
    /// The clock ran backwards: the current time precedes the start of the
    /// reward-accrual window.
    ArithmeticUnderflow,
}

/// The mathematical value of the whole pool state: the singleton pool
/// record, the sequence of per-user records, and the escrow balance the
/// pool controls.
#[verifier::ext_equal]
pub struct LedgerView {
    pub pool: StakingPool,
    pub stakes: Seq<UserStake>,
    pub escrow: u64,
}

/// Sum of the staked principal recorded in a sequence of user records.
pub open spec fn sum_amounts(s: Seq<UserStake>) -> int
    decreases s.len(),
{
    if s.len() == 0 {
        0
    } else {
        sum_amounts(s.subrange(0, s.len() - 1)) + s[s.len() - 1].amount
    }
}

/// Index of the record owned by `user`, or `s.len()` if there is none.
pub open spec fn user_index(s: Seq<UserStake>, user: u64) -> int
    decreases s.len(),
{
    if s.len() == 0 {
        0
    } else if s[0].user == user {
        0
    } else {
        1 + user_index(s.subrange(1, s.len() as int), user)
    }
}

/// Does `user` own a record in `s`?
pub open spec fn has_user(s: Seq<UserStake>, user: u64) -> bool {
    user_index(s, user) < s.len()
}

/// The principal currently recorded for `user`; a depositor without a
/// record has staked nothing.
pub open spec fn stake_amount_of(s: Seq<UserStake>, user: u64) -> int {
    if has_user(s, user) {
        s[user_index(s, user)].amount as int
    } else {
        0
    }
}

/// No two records belong to the same depositor.
pub open spec fn users_distinct(s: Seq<UserStake>) -> bool {
    forall|i: int, j: int|
        #![trigger s[i].user, s[j].user]
        0 <= i < j < s.len() ==> s[i].user != s[j].user
}

impl LedgerView {
    /// The pool invariant: one record per depositor, and the recorded total
    /// equals the sum of the per-user stakes.
    pub open spec fn wf(self) -> bool {
        &&& users_distinct(self.stakes)
        &&& self.pool.total_staked == sum_amounts(self.stakes)
    }
}

/// `user_index` points at a record owned by `user` when one exists, and
/// every record before it belongs to someone else.
pub proof fn lemma_user_index(s: Seq<UserStake>, user: u64)
    ensures
        0 <= user_index(s, user) <= s.len(),
        user_index(s, user) < s.len() ==> s[user_index(s, user)].user == user,
        forall|j: int| 0 <= j < user_index(s, user) ==> s[j].user != user,
    decreases s.len(),
{
    if s.len() == 0 {
    } else if s[0].user == user {
    } else {
        let t = s.subrange(1, s.len() as int);
        lemma_user_index(t, user);
        assert forall|j: int| 0 <= j < user_index(s, user) implies s[j].user != user by {
            if j >= 1 {
                assert(t[j - 1] == s[j]);
            }
        }
        if user_index(s, user) < s.len() {
            assert(t[user_index(t, user)] == s[user_index(s, user)]);
        }
    }
}

/// Under distinctness, the record at any index owned by `user` is the one
/// `user_index` finds.
pub proof fn lemma_user_index_unique(s: Seq<UserStake>, user: u64, i: int)
    requires
        users_distinct(s),
        0 <= i < s.len(),
        s[i].user == user,
    ensures
        user_index(s, user) == i,
{
    lemma_user_index(s, user);
    let ui = user_index(s, user);
    if ui < i {
        assert(s[ui].user == user);
        assert(s[ui].user != s[i].user);
        assert(false);
    }
    if ui > i {
        assert(s[i].user != user);
        assert(false);
    }
}

/// Appending a record adds its amount to the sum.
pub proof fn lemma_sum_push(s: Seq<UserStake>, x: UserStake)
    ensures
        sum_amounts(s.push(x)) == sum_amounts(s) + x.amount,
{
    let sp = s.push(x);
    assert(sp.subrange(0, sp.len() - 1) =~= s);
    assert(sp[sp.len() - 1] == x);
}

/// Replacing the record at `i` changes the sum by the difference of the
/// amounts.
pub proof fn lemma_sum_update(s: Seq<UserStake>, i: int, x: UserStake)
    requires
        0 <= i < s.len(),
    ensures
        sum_amounts(s.update(i, x)) == sum_amounts(s) - s[i].amount + x.amount,
    decreases s.len(),
{
    let n = s.len() as int;
    let su = s.update(i, x);
    if i == n - 1 {
        assert(su.subrange(0, n - 1) =~= s.subrange(0, n - 1));
        assert(su[n - 1] == x);
    } else {
        assert(su.subrange(0, n - 1) =~= s.subrange(0, n - 1).update(i, x));
        lemma_sum_update(s.subrange(0, n - 1), i, x);
        assert(s.subrange(0, n - 1)[i] == s[i]);
        assert(su[n - 1] == s[n - 1]);
    }
}

/// Amounts are unsigned, so the sum is never negative.
pub proof fn lemma_sum_nonneg(s: Seq<UserStake>)
    ensures
        sum_amounts(s) >= 0,
    decreases s.len(),
{
    if s.len() > 0 {
        lemma_sum_nonneg(s.subrange(0, s.len() - 1));
    }
}

/// Each single stake is at most the sum of all stakes.
pub proof fn lemma_sum_elem_le(s: Seq<UserStake>, i: int)
    requires
        0 <= i < s.len(),
    ensures
        s[i].amount <= sum_amounts(s),
    decreases s.len(),
{
    let n = s.len() as int;
    if i == n - 1 {
        lemma_sum_nonneg(s.subrange(0, n - 1));
    } else {
        lemma_sum_elem_le(s.subrange(0, n - 1), i);
        assert(s.subrange(0, n - 1)[i] == s[i]);
    }
}

} // verus!
