use grow_space::accounts::{PeriodCounter, TreasuryAccount, UserPeriodCounter, VoterCredited};
use grow_space::consensus::majority;
use grow_space::error::ErrorCode;
use grow_space::identity::Identity;
use grow_space::ledger::{fingerprint, FinalHashEntry, PDAAccount};
use grow_space::program::{append_data, initialize_pda, initialize_treasury, AppendData, InitializeTreasury};

fn id(n: u8) -> Identity {
    Identity { bytes: [n; 32] }
}

fn fresh_ctx(pda: u8, genesis: u64) -> AppendData {
    AppendData {
        treasury: TreasuryAccount { genesis_ts: genesis, current_period: 1 },
        pda: id(100 + pda),
        pda_account: PDAAccount::new(),
        prev_pda_account: None,
        period_counter: PeriodCounter::new(),
        user_account_pda: UserPeriodCounter::new(Identity::zero()),
        remaining_accounts: Vec::new(),
        credited: Vec::new(),
    }
}

/// Block 1 of the worked example: A and B endorse H1, C endorses H2.
fn block_one() -> PDAAccount {
    let mut ctx = fresh_ctx(1, 0);
    append_data(&mut ctx, 1, "H1", id(1), 0, &vec![], 10).unwrap();
    append_data(&mut ctx, 1, "H1", id(2), 0, &vec![], 10).unwrap();
    append_data(&mut ctx, 1, "H2", id(3), 0, &vec![], 10).unwrap();
    ctx.pda_account
}

fn block_two_ctx(prev: PDAAccount) -> AppendData {
    let mut ctx = fresh_ctx(2, 0);
    ctx.prev_pda_account = Some(prev);
    ctx.remaining_accounts = vec![
        UserPeriodCounter::new(id(1)),
        UserPeriodCounter::new(id(2)),
        UserPeriodCounter::new(id(3)),
    ];
    ctx
}

fn credit_of(ctx: &AppendData, who: u8) -> u64 {
    ctx.remaining_accounts.iter().find(|a| a.user.bytes == [who; 32]).unwrap().credit
}

#[test]
fn fingerprint_truncates_long_digests() {
    assert_eq!(fingerprint("abcdefghijkl"), *b"abcdefgh");
}

#[test]
fn fingerprint_pads_short_digests() {
    assert_eq!(fingerprint("ab"), [b'a', b'b', 0, 0, 0, 0, 0, 0]);
    assert_eq!(fingerprint(""), [0u8; 8]);
}

#[test]
fn append_reports_storage_taken() {
    let mut ctx = fresh_ctx(1, 0);
    let first = append_data(&mut ctx, 7, "H1", id(1), 0, &vec![], 10).unwrap();
    assert_eq!(first.add_size, 64);
    let second = append_data(&mut ctx, 7, "H1", id(2), 0, &vec![], 10).unwrap();
    assert_eq!(second.add_size, 32);
    let third = append_data(&mut ctx, 7, "H2", id(3), 0, &vec![], 10).unwrap();
    assert_eq!(third.add_size, 48);
    let again = append_data(&mut ctx, 7, "H1", id(1), 0, &vec![], 10).unwrap();
    assert_eq!(again.add_size, 0);
    assert_eq!(ctx.pda_account.block_ids.len(), 1);
    let entry = &ctx.pda_account.block_ids[0];
    assert_eq!(entry.final_hashes.len(), 2);
    assert_eq!(entry.final_hashes[0].pubkeys.len(), 2);
    assert_eq!(entry.final_hashes[1].pubkeys.len(), 1);
}

#[test]
fn append_keeps_blocks_apart() {
    let mut ctx = fresh_ctx(1, 0);
    append_data(&mut ctx, 1, "H1", id(1), 0, &vec![], 10).unwrap();
    append_data(&mut ctx, 2, "H1", id(1), 0, &vec![], 10).unwrap();
    assert_eq!(ctx.pda_account.block_ids.len(), 2);
    assert_eq!(ctx.pda_account.block_ids[1].block_id, 2);
}

#[test]
fn append_claims_unowned_submitter_account() {
    let mut ctx = fresh_ctx(1, 0);
    append_data(&mut ctx, 1, "H1", id(9), 0, &vec![], 10).unwrap();
    assert_eq!(ctx.user_account_pda.user.bytes, [9u8; 32]);
    append_data(&mut ctx, 2, "H1", id(8), 0, &vec![], 10).unwrap();
    assert_eq!(ctx.user_account_pda.user.bytes, [9u8; 32]);
}

#[test]
fn majority_credits_ballot_endorsers() {
    let mut ctx = block_two_ctx(block_one());
    append_data(&mut ctx, 2, "H9", id(4), 0, &vec![0, 1], 12).unwrap();
    assert_eq!(credit_of(&ctx, 1), 1);
    assert_eq!(credit_of(&ctx, 2), 1);
    assert_eq!(credit_of(&ctx, 3), 0);
    assert_eq!(ctx.period_counter.credit, 2);
    assert_eq!(ctx.credited.len(), 2);
    let e: &VoterCredited = &ctx.credited[0];
    assert_eq!(e.voter.bytes, [1u8; 32]);
    assert_eq!(e.user.bytes, [4u8; 32]);
    assert_eq!(e.pda.bytes, [102u8; 32]);
    assert_eq!(e.block_id, 2);
    assert_eq!(e.prev_block_id, 0);
    assert_eq!(e.credit, 1);
    assert_eq!(e.final_hash, fingerprint("H1"));
    assert_eq!(ctx.remaining_accounts[0].inblock, 2);
}

#[test]
fn resubmitted_append_does_not_recredit() {
    let mut ctx = block_two_ctx(block_one());
    append_data(&mut ctx, 2, "H9", id(4), 0, &vec![0, 1], 12).unwrap();
    append_data(&mut ctx, 2, "H9", id(4), 0, &vec![0, 1], 12).unwrap();
    assert_eq!(credit_of(&ctx, 1), 1);
    assert_eq!(credit_of(&ctx, 2), 1);
    assert_eq!(ctx.period_counter.credit, 2);
    assert_eq!(ctx.credited.len(), 2);
}

#[test]
fn submitter_is_not_credited_for_own_endorsement() {
    let mut ctx = block_two_ctx(block_one());
    append_data(&mut ctx, 2, "H9", id(1), 0, &vec![0, 1], 12).unwrap();
    assert_eq!(credit_of(&ctx, 1), 0);
    assert_eq!(credit_of(&ctx, 2), 1);
    assert_eq!(ctx.period_counter.credit, 1);
}

#[test]
fn ballot_stops_at_first_index_out_of_range() {
    let mut ctx = block_two_ctx(block_one());
    append_data(&mut ctx, 2, "H9", id(4), 0, &vec![0, 5, 1], 12).unwrap();
    assert_eq!(credit_of(&ctx, 1), 1);
    assert_eq!(credit_of(&ctx, 2), 0);
    assert_eq!(ctx.period_counter.credit, 1);
}

#[test]
fn absent_accounts_are_skipped() {
    let mut ctx = block_two_ctx(block_one());
    ctx.remaining_accounts = vec![UserPeriodCounter::new(id(2))];
    append_data(&mut ctx, 2, "H9", id(4), 0, &vec![0, 1], 12).unwrap();
    assert_eq!(ctx.remaining_accounts[0].credit, 1);
    assert_eq!(ctx.period_counter.credit, 1);
}

#[test]
fn split_vote_credits_nobody() {
    let mut prev_ctx = fresh_ctx(1, 0);
    append_data(&mut prev_ctx, 1, "H1", id(1), 0, &vec![], 10).unwrap();
    append_data(&mut prev_ctx, 1, "H2", id(2), 0, &vec![], 10).unwrap();
    let mut ctx = block_two_ctx(prev_ctx.pda_account);
    append_data(&mut ctx, 2, "H9", id(4), 0, &vec![0], 12).unwrap();
    assert_eq!(ctx.period_counter.credit, 0);
    assert!(ctx.credited.is_empty());
}

#[test]
fn majority_needs_more_than_half() {
    let entry = |n: usize| FinalHashEntry { final_hash: [0u8; 8], pubkeys: vec![id(1); n] };
    assert!(majority(&vec![entry(2), entry(1)]));
    assert!(!majority(&vec![entry(2), entry(2)]));
    assert!(!majority(&vec![entry(1), entry(1), entry(1)]));
    assert!(majority(&vec![entry(1), entry(3), entry(1)]));
    assert!(!majority(&vec![]));
}

#[test]
fn credit_overflow_fails_the_append() {
    let mut ctx = block_two_ctx(block_one());
    ctx.remaining_accounts[0].credit = u64::MAX;
    let r = append_data(&mut ctx, 2, "H9", id(4), 0, &vec![0, 1], 12);
    assert_eq!(r.unwrap_err(), ErrorCode::ArithmeticOverflow);
}

#[test]
fn append_before_genesis_fails() {
    let mut ctx = fresh_ctx(1, 100);
    let r = append_data(&mut ctx, 1, "H1", id(1), 0, &vec![], 50);
    assert_eq!(r.unwrap_err(), ErrorCode::ArithmeticOverflow);
}

#[test]
fn append_rolls_period_over() {
    let mut ctx = fresh_ctx(1, 1000);
    let quiet = append_data(&mut ctx, 1, "H1", id(1), 0, &vec![], 1015).unwrap();
    assert!(quiet.new_period.is_none());
    assert_eq!(ctx.treasury.current_period, 1);
    ctx.period_counter.credit = 5;
    ctx.period_counter.debit = 2;
    let rolled = append_data(&mut ctx, 2, "H1", id(1), 0, &vec![], 1037).unwrap();
    let ev = rolled.new_period.unwrap();
    assert_eq!(ev.new_period, 3);
    assert_eq!(ev.ts, 1037);
    assert_eq!(ev.prev_credit, 5);
    assert_eq!(ev.prev_debit, 2);
    assert_eq!(ctx.treasury.current_period, 3);
    let later = append_data(&mut ctx, 3, "H1", id(1), 0, &vec![], 1021).unwrap();
    assert!(later.new_period.is_none());
    assert_eq!(ctx.treasury.current_period, 3);
}

#[test]
fn treasury_initialisation_funds_and_opens_period_one() {
    let mut ctx = InitializeTreasury {
        treasury: TreasuryAccount { genesis_ts: 0, current_period: 0 },
        treasury_balance: 10,
        admin_balance: 5_000,
    };
    initialize_treasury(&mut ctx, 2_000, 777).unwrap();
    assert_eq!(ctx.treasury.genesis_ts, 777);
    assert_eq!(ctx.treasury.current_period, 1);
    assert_eq!(ctx.treasury_balance, 2_010);
    assert_eq!(ctx.admin_balance, 3_000);
}

#[test]
fn treasury_initialisation_needs_funds() {
    let mut ctx = InitializeTreasury {
        treasury: TreasuryAccount { genesis_ts: 0, current_period: 0 },
        treasury_balance: 0,
        admin_balance: 5,
    };
    assert_eq!(initialize_treasury(&mut ctx, 6, 1).unwrap_err(), ErrorCode::InsufficientFunds);
    assert_eq!(ctx.admin_balance, 5);
    assert_eq!(ctx.treasury.current_period, 0);
    let mut full = InitializeTreasury {
        treasury: TreasuryAccount { genesis_ts: 0, current_period: 0 },
        treasury_balance: u64::MAX,
        admin_balance: 5,
    };
    assert_eq!(initialize_treasury(&mut full, 1, 1).unwrap_err(), ErrorCode::ArithmeticOverflow);
}

#[test]
fn new_ledger_record_is_empty() {
    let r = initialize_pda(42);
    assert_eq!(r.unique_id, 42);
    assert!(r.pda_account.block_ids.is_empty());
}
