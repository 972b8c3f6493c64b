use vstd::prelude::*;

use crate::identity::Identity;

verus! {

/// Length of a reward period, in seconds.
pub const REWARD_PERIOD_DURATION: u64 = 10;

/// The reward pool distributed for each closed period.
pub const REWARD_PER_PERIOD: u64 = 1_000_000;

/// The treasury's period state.
#[derive(Debug, Clone, Copy)]
pub struct TreasuryAccount {
    pub genesis_ts: u64,
    pub current_period: u64,
}

/// Aggregate counters of one period.
#[derive(Debug, Clone, Copy)]
pub struct PeriodCounter {
    pub credit: u64,
    pub debit: u64,
    pub redeemed: u64,
}

/// Counters of one identity in one period.
#[derive(Debug, Clone, Copy)]
pub struct UserPeriodCounter {
    pub user: Identity,
    /// The last block for which this identity was credited.
    pub inblock: u64,
    pub credit: u64,
    pub debit: u64,
    pub redeemed: u64,
}

/// Emitted when a new period begins; carries the closing period's counters.
#[derive(Debug, Clone, Copy)]
pub struct NewPeriod {
    pub new_period: u64,
    pub ts: u64,
    pub prev_credit: u64,
    pub prev_debit: u64,
}

/// Emitted when an endorser of a majority fingerprint is credited.
#[derive(Debug, Clone, Copy)]
pub struct VoterCredited {
    /// The submitter of the block whose append caused the credit.
    pub user: Identity,
    /// The credited endorser.
    pub voter: Identity,
    /// The address of the ledger record being appended to.
    pub pda: Identity,
    pub block_id: u64,
    pub prev_block_id: u64,
    pub final_hash: [u8; 8],
    pub credit: u64,
}

impl PeriodCounter {
    /// A period counter with nothing recorded.
    pub fn new() -> (r: PeriodCounter)
        ensures
            r.credit == 0 && r.debit == 0 && r.redeemed == 0,
    {
        PeriodCounter { credit: 0, debit: 0, redeemed: 0 }
    }
}

impl UserPeriodCounter {
    /// The counters of `user` before anything was recorded for it.
    pub fn new(user: Identity) -> (r: UserPeriodCounter)
        ensures
            r.user == user,
            r.inblock == 0 && r.credit == 0 && r.debit == 0 && r.redeemed == 0,
    {
        UserPeriodCounter { user, inblock: 0, credit: 0, debit: 0, redeemed: 0 }
    }
}

} // verus!
