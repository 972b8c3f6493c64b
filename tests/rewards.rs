use grow_space::accounts::{PeriodCounter, TreasuryAccount, UserPeriodCounter};
use grow_space::error::ErrorCode;
use grow_space::growth::{grow_account, Growth};
use grow_space::identity::Identity;
use grow_space::reward::{claim_reward, ClaimReward};

fn id(n: u8) -> Identity {
    Identity { bytes: [n; 32] }
}

fn claim_ctx(credit: u64, redeemed: u64, total: u64) -> ClaimReward {
    ClaimReward {
        treasury: TreasuryAccount { genesis_ts: 0, current_period: 3 },
        period_counter: PeriodCounter { credit: total, debit: 0, redeemed: 0 },
        user_account_pda: UserPeriodCounter { user: id(1), inblock: 2, credit, debit: 0, redeemed },
        user: id(1),
        treasury_balance: 10_000_000,
        user_balance: 0,
    }
}

#[test]
fn claim_pays_pro_rata_share() {
    let mut ctx = claim_ctx(1, 0, 2);
    claim_reward(&mut ctx, 1).unwrap();
    assert_eq!(ctx.user_balance, 500_000);
    assert_eq!(ctx.treasury_balance, 9_500_000);
    assert_eq!(ctx.user_account_pda.redeemed, 1);
    assert_eq!(ctx.period_counter.redeemed, 1);
}

#[test]
fn claim_twice_is_refused() {
    let mut ctx = claim_ctx(1, 0, 2);
    claim_reward(&mut ctx, 1).unwrap();
    assert_eq!(claim_reward(&mut ctx, 1).unwrap_err(), ErrorCode::NoRedeemableCredit);
    assert_eq!(ctx.user_balance, 500_000);
}

#[test]
fn claims_of_a_period_stay_within_pool() {
    let mut a = claim_ctx(1, 0, 3);
    let mut b = claim_ctx(2, 0, 3);
    claim_reward(&mut a, 2).unwrap();
    claim_reward(&mut b, 2).unwrap();
    assert_eq!(a.user_balance, 333_333);
    assert_eq!(b.user_balance, 666_666);
    assert!(a.user_balance + b.user_balance <= 1_000_000);
}

#[test]
fn claim_rounding_to_zero_still_redeems() {
    let mut ctx = claim_ctx(1, 0, 3_000_000);
    claim_reward(&mut ctx, 1).unwrap();
    assert_eq!(ctx.user_balance, 0);
    assert_eq!(ctx.user_account_pda.redeemed, 1);
    assert_eq!(ctx.period_counter.redeemed, 1);
}

#[test]
fn claim_by_other_identity_is_refused() {
    let mut ctx = claim_ctx(1, 0, 2);
    ctx.user = id(2);
    assert_eq!(claim_reward(&mut ctx, 1).unwrap_err(), ErrorCode::BadAccountOwner);
    assert_eq!(ctx.user_account_pda.redeemed, 0);
}

#[test]
fn claim_of_open_period_is_refused() {
    let mut ctx = claim_ctx(1, 0, 2);
    assert_eq!(claim_reward(&mut ctx, 3).unwrap_err(), ErrorCode::BadPeriod);
    assert_eq!(claim_reward(&mut ctx, 4).unwrap_err(), ErrorCode::BadPeriod);
}

#[test]
fn claim_beyond_treasury_is_refused() {
    let mut ctx = claim_ctx(1, 0, 2);
    ctx.treasury_balance = 499_999;
    assert_eq!(claim_reward(&mut ctx, 1).unwrap_err(), ErrorCode::InsufficientFunds);
    assert_eq!(ctx.treasury_balance, 499_999);
    assert_eq!(ctx.user_account_pda.redeemed, 0);
}

#[test]
fn claim_balance_overflow_is_refused() {
    let mut ctx = claim_ctx(1, 0, 2);
    ctx.user_balance = u64::MAX;
    assert_eq!(claim_reward(&mut ctx, 1).unwrap_err(), ErrorCode::ArithmeticOverflow);
}

#[test]
fn growth_prepays_shortfall() {
    let g = grow_account(100, 1_000, 5_000, 64, 3_000).unwrap();
    assert_eq!(g, Growth { transfer: 2_000, new_size: 164 });
}

#[test]
fn growth_without_shortfall_transfers_nothing() {
    let g = grow_account(100, 4_000, 0, 32, 3_000).unwrap();
    assert_eq!(g, Growth { transfer: 0, new_size: 132 });
    let none = grow_account(100, 4_000, 0, 0, 3_000).unwrap();
    assert_eq!(none.new_size, 100);
}

#[test]
fn growth_fails_when_payer_is_short() {
    assert_eq!(grow_account(100, 1_000, 1_999, 64, 3_000).unwrap_err(), ErrorCode::InsufficientFunds);
}

#[test]
fn growth_fails_past_addressable_size() {
    assert_eq!(grow_account(usize::MAX, 0, 0, 1, 0).unwrap_err(), ErrorCode::ArithmeticOverflow);
}
