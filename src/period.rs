use vstd::prelude::*;

use crate::accounts::{NewPeriod, PeriodCounter, REWARD_PERIOD_DURATION, TreasuryAccount};

verus! {

/// The index of the period that contains time `now`.
pub open spec fn period_at(genesis_ts: u64, now: u64) -> int {
    (now - genesis_ts) / (REWARD_PERIOD_DURATION as int)
}

/// Advances the treasury to the period containing `now`, if that is later
/// than its current one, and returns the rollover event carrying the closing
/// period's counters. The period index never decreases.
pub fn roll_period(treasury: &mut TreasuryAccount, pc: &PeriodCounter, now: u64) -> (r: Option<NewPeriod>)
    requires
        now >= old(treasury).genesis_ts,
    ensures
        final(treasury).genesis_ts == old(treasury).genesis_ts,
        final(treasury).current_period >= old(treasury).current_period,
        period_at(old(treasury).genesis_ts, now) > old(treasury).current_period ==> {
            &&& final(treasury).current_period == period_at(old(treasury).genesis_ts, now)
            &&& r == Some(NewPeriod { new_period: final(treasury).current_period, ts: now, prev_credit: pc.credit, prev_debit: pc.debit })
        },
        period_at(old(treasury).genesis_ts, now) <= old(treasury).current_period ==> {
            &&& *final(treasury) == *old(treasury)
            &&& r is None
        },
{
    let p = (now - treasury.genesis_ts) / REWARD_PERIOD_DURATION;
    if p > treasury.current_period {
        treasury.current_period = p;
        Some(NewPeriod { new_period: p, ts: now, prev_credit: pc.credit, prev_debit: pc.debit })
    } else {
        None
    }
}

} // verus!
