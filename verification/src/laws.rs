//! The laws of the staking pool, proved once over the specification-level
//! transitions of [`crate::transitions`]. Because every executable
//! operation's contract says it agrees with those transitions exactly, each
//! law holds of the running engine as well.

use vstd::prelude::*;

use crate::ledger::ErrorCode;
use crate::ledger::LedgerView;
use crate::ledger::UserStake;
use crate::ledger::has_user;
use crate::ledger::lemma_sum_elem_le;
use crate::ledger::lemma_sum_push;
use crate::ledger::lemma_sum_update;
use crate::ledger::lemma_user_index;
use crate::ledger::lemma_user_index_unique;
use crate::ledger::stake_amount_of;
use crate::ledger::user_index;
use crate::transitions::reward_of;
use crate::transitions::spec_claim_reward;
use crate::transitions::spec_initialize;
use crate::transitions::spec_stake;
use crate::transitions::spec_unstake;

verus! {

/// Law: a fresh pool satisfies the invariant — no stakes, and a recorded
/// total of zero.
pub proof fn lemma_initialize_wf(authority: u64)
    ensures
        spec_initialize(authority).wf(),
{
}

/// Law: a successful stake keeps one record per depositor and keeps the
/// recorded total equal to the sum of the per-user stakes.
pub proof fn lemma_stake_preserves_wf(s: LedgerView, user: u64, bal: u64, amount: u64, now: i64)
    requires
        s.wf(),
    ensures
        (match spec_stake(s, user, bal, amount, now) {
            Ok(p) => p.0.wf(),
            Err(_) => true,
        }),
{
    lemma_user_index(s.stakes, user);
    let r = spec_stake(s, user, bal, amount, now);
    if r is Ok {
        let i = user_index(s.stakes, user);
        let s2 = r->Ok_0.0;
        if i < s.stakes.len() {
            let rec = UserStake {
                user: user,
                amount: (s.stakes[i].amount + amount) as u64,
                last_stake_timestamp: now,
            };
            lemma_sum_update(s.stakes, i, rec);
            assert forall|a: int, b: int|
                #![trigger s2.stakes[a].user, s2.stakes[b].user]
                0 <= a < b < s2.stakes.len() implies s2.stakes[a].user != s2.stakes[b].user by {
                assert(s2.stakes[a].user == s.stakes[a].user);
                assert(s2.stakes[b].user == s.stakes[b].user);
                assert(s.stakes[a].user != s.stakes[b].user);
            }
        } else {
            let rec = UserStake {
                user: user,
                amount: amount,
                last_stake_timestamp: now,
            };
            lemma_sum_push(s.stakes, rec);
            assert forall|a: int, b: int|
                #![trigger s2.stakes[a].user, s2.stakes[b].user]
                0 <= a < b < s2.stakes.len() implies s2.stakes[a].user != s2.stakes[b].user by {
                assert(s2.stakes[a].user == s.stakes[a].user);
                if b < s.stakes.len() {
                    assert(s2.stakes[b].user == s.stakes[b].user);
                    assert(s.stakes[a].user != s.stakes[b].user);
                } else {
                    assert(s2.stakes[b].user == user);
                    assert(s.stakes[a].user != user);
                }
            }
        }
    }
}

/// Law: a successful unstake keeps the invariant; the recorded total can
/// always absorb the withdrawal because it equals the sum of all stakes,
/// which the depositor's own stake bounds from below.
pub proof fn lemma_unstake_preserves_wf(s: LedgerView, user: u64, bal: u64, amount: u64, now: i64)
    requires
        s.wf(),
    ensures
        (match spec_unstake(s, user, bal, amount, now) {
            Ok(p) => p.0.wf(),
            Err(_) => true,
        }),
{
    let r = spec_unstake(s, user, bal, amount, now);
    if r is Ok {
        let i = user_index(s.stakes, user);
        lemma_user_index(s.stakes, user);
        lemma_sum_elem_le(s.stakes, i);
        let s2 = r->Ok_0.0;
        let rec = s.stakes[i];
        let rec2 = UserStake {
            user: rec.user,
            amount: (rec.amount - amount) as u64,
            last_stake_timestamp: now,
        };
        lemma_sum_update(s.stakes, i, rec2);
        assert forall|a: int, b: int|
            #![trigger s2.stakes[a].user, s2.stakes[b].user]
            0 <= a < b < s2.stakes.len() implies s2.stakes[a].user != s2.stakes[b].user by {
            assert(s2.stakes[a].user == s.stakes[a].user);
            assert(s2.stakes[b].user == s.stakes[b].user);
            assert(s.stakes[a].user != s.stakes[b].user);
        }
    }
}

/// Law: a successful reward claim moves only reward value — every stake,
/// and with it the recorded total, is exactly what it was.
pub proof fn lemma_claim_preserves_wf(s: LedgerView, user: u64, bal: u64, now: i64)
    requires
        s.wf(),
    ensures
        (match spec_claim_reward(s, user, bal, now) {
            Ok(p) => p.0.wf() && p.0.pool == s.pool && stake_amount_of(p.0.stakes, user)
                == stake_amount_of(s.stakes, user),
            Err(_) => true,
        }),
{
    let r = spec_claim_reward(s, user, bal, now);
    if r is Ok {
        let i = user_index(s.stakes, user);
        lemma_user_index(s.stakes, user);
        let s2 = r->Ok_0.0;
        let rec = s.stakes[i];
        let rec2 = UserStake { user: rec.user, amount: rec.amount, last_stake_timestamp: now };
        lemma_sum_update(s.stakes, i, rec2);
        assert forall|a: int, b: int|
            #![trigger s2.stakes[a].user, s2.stakes[b].user]
            0 <= a < b < s2.stakes.len() implies s2.stakes[a].user != s2.stakes[b].user by {
            assert(s2.stakes[a].user == s.stakes[a].user);
            assert(s2.stakes[b].user == s.stakes[b].user);
            assert(s.stakes[a].user != s.stakes[b].user);
        }
        lemma_user_index_unique(s2.stakes, user, i);
    }
}

/// Law: asking to withdraw more than the recorded stake is always rejected
/// with `InsufficientStake`, whatever the wallet, escrow or clock say.
pub proof fn lemma_unstake_insufficient_rejected(
    s: LedgerView,
    user: u64,
    bal: u64,
    amount: u64,
    now: i64,
)
    requires
        has_user(s.stakes, user),
        amount > s.stakes[user_index(s.stakes, user)].amount,
    ensures
        spec_unstake(s, user, bal, amount, now) == Err::<(LedgerView, u64), ErrorCode>(
            ErrorCode::InsufficientStake,
        ),
{
}

/// Law: staking and then unstaking the same amount round-trips. The second
/// step can never fail, and it restores the depositor's stake, the pool
/// record, the escrow and the wallet to what they were before the pair;
/// only the accrual clock has moved.
pub proof fn lemma_stake_unstake_round_trip(
    s: LedgerView,
    user: u64,
    bal: u64,
    amount: u64,
    now1: i64,
    now2: i64,
)
    requires
        s.wf(),
        spec_stake(s, user, bal, amount, now1) is Ok,
    ensures
        ({
            let (s1, b1) = spec_stake(s, user, bal, amount, now1)->Ok_0;
            &&& spec_unstake(s1, user, b1, amount, now2) is Ok
            &&& {
                let (s2, b2) = spec_unstake(s1, user, b1, amount, now2)->Ok_0;
                &&& s2.pool == s.pool
                &&& s2.escrow == s.escrow
                &&& b2 == bal
                &&& stake_amount_of(s2.stakes, user) == stake_amount_of(s.stakes, user)
            }
        }),
{
    lemma_user_index(s.stakes, user);
    lemma_stake_preserves_wf(s, user, bal, amount, now1);
    let i = user_index(s.stakes, user);
    let (s1, b1) = spec_stake(s, user, bal, amount, now1)->Ok_0;
    let j: int = if i < s.stakes.len() {
        i
    } else {
        s.stakes.len() as int
    };
    lemma_user_index_unique(s1.stakes, user, j);
    assert(spec_unstake(s1, user, b1, amount, now2) is Ok);
    let (s2, b2) = spec_unstake(s1, user, b1, amount, now2)->Ok_0;
    lemma_unstake_preserves_wf(s1, user, b1, amount, now2);
    lemma_user_index_unique(s2.stakes, user, j);
}

/// Law: a reward claim succeeds exactly when the depositor has a record,
/// the clock has not run backwards, both checked multiplications and the
/// wallet credit fit in the amount type, and the escrow covers the reward.
pub proof fn lemma_claim_success_condition(s: LedgerView, user: u64, bal: u64, now: i64)
    ensures
        spec_claim_reward(s, user, bal, now) is Ok <==> ({
            let rec = s.stakes[user_index(s.stakes, user)];
            let reward: int = reward_of(
                rec.amount,
                s.pool.reward_rate,
                now - rec.last_stake_timestamp,
            );
            &&& has_user(s.stakes, user)
            &&& now >= rec.last_stake_timestamp
            &&& rec.amount * s.pool.reward_rate <= u64::MAX
            &&& reward <= u64::MAX
            &&& s.escrow >= reward
            &&& bal + reward <= u64::MAX
        }),
{
}

/// Law: a successful claim pays exactly `amount * rate * elapsed` reward
/// units into the wallet, and exactly that much leaves the escrow.
pub proof fn lemma_claim_pays_exact(s: LedgerView, user: u64, bal: u64, now: i64)
    ensures
        (match spec_claim_reward(s, user, bal, now) {
            Ok(p) => ({
                let rec = s.stakes[user_index(s.stakes, user)];
                let reward: int = reward_of(
                    rec.amount,
                    s.pool.reward_rate,
                    now - rec.last_stake_timestamp,
                );
                &&& p.1 == bal + reward
                &&& p.0.escrow == s.escrow - reward
            }),
            Err(_) => true,
        }),
{
}

/// Law: for a fixed stake and reward rate, both at least one unit, the
/// reward grows strictly with the elapsed time. (With a zero stake or a
/// zero rate the reward is zero however long one waits.)
pub proof fn lemma_reward_monotonic(amount: u64, rate: u64, e1: int, e2: int)
    requires
        1 <= amount,
        1 <= rate,
        0 <= e1 < e2,
    ensures
        reward_of(amount, rate, e1) < reward_of(amount, rate, e2),
{
    assert(amount * rate * e1 < amount * rate * e2) by (nonlinear_arith)
        requires
            1 <= amount,
            1 <= rate,
            0 <= e1 < e2,
    ;
}

} // verus!
