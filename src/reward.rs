use vstd::prelude::*;

use crate::accounts::{PeriodCounter, REWARD_PER_PERIOD, TreasuryAccount, UserPeriodCounter};
use crate::error::ErrorCode;
use crate::identity::Identity;

verus! {

/// The records a reward claim reads and changes.
#[derive(Debug, Clone, Copy)]
pub struct ClaimReward {
    pub treasury: TreasuryAccount,
    /// The counters of the claimed period.
    pub period_counter: PeriodCounter,
    /// The claimant's counters in the claimed period.
    pub user_account_pda: UserPeriodCounter,
    /// The authenticated caller.
    pub user: Identity,
    pub treasury_balance: u64,
    pub user_balance: u64,
}

/// The pro-rata share of the period's pool for `redeemable` of `credit_total`
/// credit, rounded down.
pub open spec fn reward_for(redeemable: int, credit_total: int) -> int {
    (REWARD_PER_PERIOD as int) * redeemable / credit_total
}

/// The reward owed for a claim: nothing where the period has no credit.
pub open spec fn claim_amount(c: ClaimReward) -> int {
    if c.period_counter.credit == 0 {
        0
    } else {
        reward_for(c.user_account_pda.credit - c.user_account_pda.redeemed, c.period_counter.credit as int)
    }
}

/// The result of claiming the reward of `period`.
pub open spec fn claim_outcome(c: ClaimReward, period: u64) -> Result<ClaimReward, ErrorCode> {
    let a = c.user_account_pda;
    let pc = c.period_counter;
    let redeemable = a.credit - a.redeemed;
    if a.user != c.user {
        Err(ErrorCode::BadAccountOwner)
    } else if period >= c.treasury.current_period {
        Err(ErrorCode::BadPeriod)
    } else if a.credit <= a.redeemed {
        Err(ErrorCode::NoRedeemableCredit)
    } else if claim_amount(c) > c.treasury_balance {
        Err(ErrorCode::InsufficientFunds)
    } else if pc.redeemed + redeemable > u64::MAX || c.user_balance + claim_amount(c) > u64::MAX {
        Err(ErrorCode::ArithmeticOverflow)
    } else {
        let reward = claim_amount(c);
        Ok(ClaimReward {
            user_account_pda: UserPeriodCounter { redeemed: a.credit, ..a },
            period_counter: PeriodCounter { redeemed: (pc.redeemed + redeemable) as u64, ..pc },
            treasury_balance: (c.treasury_balance - reward) as u64,
            user_balance: (c.user_balance + reward) as u64,
            ..c
        })
    }
}

/// Pays the caller its share of a closed period's pool for its unredeemed
/// credit and marks that credit redeemed, even where the share rounds to zero.
/// Nothing changes on failure.
pub fn claim_reward(ctx: &mut ClaimReward, period: u64) -> (r: Result<(), ErrorCode>)
    ensures
        match claim_outcome(*old(ctx), period) {
            Ok(c) => r is Ok && *final(ctx) == c,
            Err(e) => r == Err::<(), ErrorCode>(e) && *final(ctx) == *old(ctx),
        },
{
    if !ctx.user_account_pda.user.same(&ctx.user) {
        return Err(ErrorCode::BadAccountOwner);
    }
    if period >= ctx.treasury.current_period {
        return Err(ErrorCode::BadPeriod);
    }
    if ctx.user_account_pda.credit <= ctx.user_account_pda.redeemed {
        return Err(ErrorCode::NoRedeemableCredit);
    }
    let redeemable = ctx.user_account_pda.credit - ctx.user_account_pda.redeemed;
    let total = ctx.period_counter.credit;
    let reward_wide: u128 = if total == 0 {
        0
    } else {
        (REWARD_PER_PERIOD as u128) * (redeemable as u128) / (total as u128)
    };
    if reward_wide > ctx.treasury_balance as u128 {
        return Err(ErrorCode::InsufficientFunds);
    }
    let reward = reward_wide as u64;
    if redeemable > u64::MAX - ctx.period_counter.redeemed || reward > u64::MAX - ctx.user_balance {
        return Err(ErrorCode::ArithmeticOverflow);
    }
    ctx.user_account_pda.redeemed = ctx.user_account_pda.credit;
    ctx.period_counter.redeemed = ctx.period_counter.redeemed + redeemable;
    ctx.treasury_balance = ctx.treasury_balance - reward;
    ctx.user_balance = ctx.user_balance + reward;
    Ok(())
}

} // verus!
