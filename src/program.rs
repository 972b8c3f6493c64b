use vstd::prelude::*;

use vstd::string::StringSliceAdditionalSpecFns;

use crate::accounts::{NewPeriod, PeriodCounter, TreasuryAccount, UserPeriodCounter, VoterCredited};
use crate::consensus::{Round, crediting_of, resolve_ledger, resolve_previous};
use crate::error::ErrorCode;
use crate::identity::Identity;
use crate::ledger::{PDAAccount, fingerprint, fingerprint_of, lemma_ledger_after_vote_len, ledger_after_vote, vote_size};
use crate::period::{period_at, roll_period};

verus! {

/// The records the one-time treasury setup reads and changes.
#[derive(Debug, Clone, Copy)]
pub struct InitializeTreasury {
    pub treasury: TreasuryAccount,
    pub treasury_balance: u64,
    pub admin_balance: u64,
}

/// Sets the genesis time to `now`, opens period 1 and moves `amount` from the
/// administrator into the treasury. Nothing changes on failure.
pub fn initialize_treasury(ctx: &mut InitializeTreasury, amount: u64, now: u64) -> (r: Result<(), ErrorCode>)
    ensures
        amount > old(ctx).admin_balance <==> r == Err::<(), ErrorCode>(ErrorCode::InsufficientFunds),
        amount <= old(ctx).admin_balance && old(ctx).treasury_balance + amount > u64::MAX
            <==> r == Err::<(), ErrorCode>(ErrorCode::ArithmeticOverflow),
        r is Ok <==> amount <= old(ctx).admin_balance && old(ctx).treasury_balance + amount <= u64::MAX,
        r is Err ==> *final(ctx) == *old(ctx),
        r is Ok ==> *final(ctx) == (InitializeTreasury {
            treasury: TreasuryAccount { genesis_ts: now, current_period: 1 },
            treasury_balance: (old(ctx).treasury_balance + amount) as u64,
            admin_balance: (old(ctx).admin_balance - amount) as u64,
        }),
{
    if amount > ctx.admin_balance {
        return Err(ErrorCode::InsufficientFunds);
    }
    if amount > u64::MAX - ctx.treasury_balance {
        return Err(ErrorCode::ArithmeticOverflow);
    }
    ctx.treasury.genesis_ts = now;
    ctx.treasury.current_period = 1;
    ctx.admin_balance = ctx.admin_balance - amount;
    ctx.treasury_balance = ctx.treasury_balance + amount;
    Ok(())
}

/// A freshly created ledger record and the id it is kept under.
#[derive(Debug)]
pub struct InitializePDA {
    pub unique_id: u64,
    pub pda_account: PDAAccount,
}

/// Creates the empty ledger record kept under `unique_id`.
pub fn initialize_pda(unique_id: u64) -> (r: InitializePDA)
    ensures
        r.unique_id == unique_id,
        r.pda_account@ == Seq::<crate::ledger::BlockVotes>::empty(),
{
    InitializePDA { unique_id, pda_account: PDAAccount::new() }
}

/// The records an append reads and changes.
#[derive(Debug)]
pub struct AppendData {
    pub treasury: TreasuryAccount,
    /// The address of the ledger record appended to.
    pub pda: Identity,
    pub pda_account: PDAAccount,
    /// The record of the previous block, whose majority is resolved.
    pub prev_pda_account: Option<PDAAccount>,
    /// The counters of the current period.
    pub period_counter: PeriodCounter,
    /// The submitter's counters in the current period.
    pub user_account_pda: UserPeriodCounter,
    /// The working set of endorsers' counters that may be credited.
    pub remaining_accounts: Vec<UserPeriodCounter>,
    /// The credit events emitted so far.
    pub credited: Vec<VoterCredited>,
}

/// What an append hands back: the storage bytes it newly takes, which the
/// record's growth must provide, and the rollover event, if a period closed.
#[derive(Debug, Clone, Copy)]
pub struct AppendOutcome {
    pub add_size: usize,
    pub new_period: Option<NewPeriod>,
}

/// The submitter's counters after an append: claimed for it if still unowned.
pub open spec fn claimed_by(a: UserPeriodCounter, who: Identity) -> UserPeriodCounter {
    if a.user.bytes@ == Seq::new(32, |_i: int| 0u8) {
        UserPeriodCounter { user: who, ..a }
    } else {
        a
    }
}

/// Appends `pubkey`'s vote for `final_hash` on block `block_id` at time `now`.
///
/// First the previous record's majority fingerprints are resolved: each
/// endorser the ballot `voters` names is credited once for this block (never
/// the submitter, and only if its counters are in the working set). Then the
/// vote is recorded under the digest's fingerprint, and the treasury rolls
/// over to the period containing `now` if that is later. Fails, and the
/// whole append must be discarded, when `now` precedes the genesis time or a
/// counter would overflow.
pub fn append_data(
    ctx: &mut AppendData,
    block_id: u64,
    final_hash: &str,
    pubkey: Identity,
    _period: u64,
    voters: &Vec<u64>,
    now: u64,
) -> (r: Result<AppendOutcome, ErrorCode>)
    ensures
        ({
            let round = Round { submitter: pubkey, pda: old(ctx).pda, block_id };
            let start = crediting_of(old(ctx).remaining_accounts@, old(ctx).period_counter, old(ctx).credited@);
            let resolved = match old(ctx).prev_pda_account {
                None => Some(start),
                Some(p) => resolve_ledger(start, p@, voters@, round),
            };
            let fp = fingerprint_of(final_hash.spec_bytes());
            &&& r is Err <==> (now < old(ctx).treasury.genesis_ts || resolved is None)
            &&& r is Err ==> r == Err::<AppendOutcome, ErrorCode>(ErrorCode::ArithmeticOverflow)
            &&& r is Ok ==> {
                &&& resolved == Some(crediting_of(final(ctx).remaining_accounts@, final(ctx).period_counter, final(ctx).credited@))
                &&& final(ctx).period_counter.debit == old(ctx).period_counter.debit
                &&& final(ctx).period_counter.redeemed == old(ctx).period_counter.redeemed
                &&& final(ctx).user_account_pda == claimed_by(old(ctx).user_account_pda, pubkey)
                &&& final(ctx).pda == old(ctx).pda
                &&& final(ctx).prev_pda_account == old(ctx).prev_pda_account
                &&& final(ctx).pda_account@.len() >= old(ctx).pda_account@.len()
                &&& fp.len() == 8
                &&& exists|f: [u8; 8]|
                    #![trigger ledger_after_vote(old(ctx).pda_account@, block_id, f, pubkey)]
                    f@ == fp && {
                    &&& final(ctx).pda_account@ == ledger_after_vote(old(ctx).pda_account@, block_id, f, pubkey)
                    &&& r->Ok_0.add_size as nat == vote_size(old(ctx).pda_account@, block_id, f, pubkey)
                }
                &&& final(ctx).treasury.genesis_ts == old(ctx).treasury.genesis_ts
                &&& final(ctx).treasury.current_period >= old(ctx).treasury.current_period
                &&& if period_at(old(ctx).treasury.genesis_ts, now) > old(ctx).treasury.current_period {
                    &&& final(ctx).treasury.current_period == period_at(old(ctx).treasury.genesis_ts, now)
                    &&& r->Ok_0.new_period == Some(NewPeriod {
                        new_period: final(ctx).treasury.current_period,
                        ts: now,
                        prev_credit: final(ctx).period_counter.credit,
                        prev_debit: final(ctx).period_counter.debit,
                    })
                } else {
                    &&& final(ctx).treasury == old(ctx).treasury
                    &&& r->Ok_0.new_period is None
                }
            }
        }),
{
    if now < ctx.treasury.genesis_ts {
        return Err(ErrorCode::ArithmeticOverflow);
    }
    let zero = Identity::zero();
    if ctx.user_account_pda.user.same(&zero) {
        ctx.user_account_pda.user = pubkey;
    }
    proof {
        if ctx.user_account_pda.user.bytes@ == zero.bytes@ {
            assert(ctx.user_account_pda.user.bytes == zero.bytes);
        }
    }
    let round = Round { submitter: pubkey, pda: ctx.pda, block_id };
    match &ctx.prev_pda_account {
        None => {},
        Some(prev) => {
            match resolve_previous(prev, voters, round, &mut ctx.remaining_accounts, &mut ctx.period_counter, &mut ctx.credited) {
                Err(e) => return Err(e),
                Ok(()) => {},
            }
        },
    }
    let fp = fingerprint(final_hash);
    let ghost l0 = ctx.pda_account@;
    let add_size = ctx.pda_account.append_vote(block_id, fp, pubkey);
    proof {
        lemma_ledger_after_vote_len(l0, block_id, fp, pubkey);
        assert(ctx.pda_account@ == ledger_after_vote(l0, block_id, fp, pubkey));
    }
    let new_period = roll_period(&mut ctx.treasury, &ctx.period_counter, now);
    Ok(AppendOutcome { add_size, new_period })
}

} // verus!
