use vstd::prelude::*;

use crate::accounts::{PeriodCounter, UserPeriodCounter, VoterCredited};
use crate::error::ErrorCode;
use crate::identity::Identity;
use crate::ledger::{BlockEntry, BlockVotes, FinalHashEntry, HashVotes, PDAAccount};

verus! {

/// Sum of the endorsement counts of a block's fingerprints.
pub open spec fn total_votes(hs: Seq<HashVotes>) -> nat
    decreases hs.len(),
{
    if hs.len() == 0 {
        0
    } else {
        total_votes(hs.drop_last()) + hs.last().voters.len()
    }
}

/// Index of the leading fingerprint: the first of those with the most
/// endorsements (what a stable sort by descending count puts first), or -1.
pub open spec fn leader_index(hs: Seq<HashVotes>) -> int
    decreases hs.len(),
{
    if hs.len() == 0 {
        -1
    } else {
        let p = leader_index(hs.drop_last());
        if p < 0 || hs.last().voters.len() > hs[p].voters.len() {
            hs.len() - 1
        } else {
            p
        }
    }
}

/// Whether the leading fingerprint holds a strict majority of all endorsements.
pub open spec fn has_majority(hs: Seq<HashVotes>) -> bool {
    let k = leader_index(hs);
    k >= 0 && 2 * hs[k].voters.len() > total_votes(hs)
}

/// The state that crediting changes: the supplied working set of accounts,
/// the current period's credit total and the emitted events.
pub struct Crediting {
    pub accounts: Seq<UserPeriodCounter>,
    pub period_credit: u64,
    pub events: Seq<VoterCredited>,
}

/// Index of the first account at or after `k` owned by `who`, or -1.
pub open spec fn find_account_from(accts: Seq<UserPeriodCounter>, who: Identity, k: int) -> int
    decreases accts.len() - k,
{
    if k < 0 || k >= accts.len() {
        -1
    } else if accts[k].user == who {
        k
    } else {
        find_account_from(accts, who, k + 1)
    }
}

/// The parameters of one crediting pass.
#[derive(Debug, Clone, Copy)]
pub struct Round {
    /// The submitter of the block being appended.
    pub submitter: Identity,
    /// The address of the ledger record being appended to.
    pub pda: Identity,
    /// The block being appended.
    pub block_id: u64,
}

/// Credits `voter` for the winning fingerprint `fp`, if it is not the
/// submitter, its account is in the working set and it has not been
/// credited for this block yet. `None` when a counter would overflow.
pub open spec fn credit_voter(s: Crediting, voter: Identity, fp: [u8; 8], r: Round) -> Option<Crediting> {
    let k = find_account_from(s.accounts, voter, 0);
    if voter == r.submitter || k < 0 || s.accounts[k].inblock >= r.block_id {
        Some(s)
    } else if s.accounts[k].credit == u64::MAX || s.period_credit == u64::MAX {
        None
    } else {
        let a = s.accounts[k];
        let credited = UserPeriodCounter { inblock: r.block_id, credit: (a.credit + 1) as u64, ..a };
        Some(Crediting {
            accounts: s.accounts.update(k, credited),
            period_credit: (s.period_credit + 1) as u64,
            events: s.events.push(
                VoterCredited {
                    user: r.submitter,
                    voter,
                    pda: r.pda,
                    block_id: r.block_id,
                    prev_block_id: a.inblock,
                    final_hash: fp,
                    credit: credited.credit,
                },
            ),
        })
    }
}

/// Processes the ballot's positions into the winner's endorser list in
/// order, stopping at the first position past its end.
pub open spec fn credit_ballot(
    s: Crediting,
    voters: Seq<Identity>,
    ballot: Seq<u64>,
    fp: [u8; 8],
    r: Round,
) -> Option<Crediting>
    decreases ballot.len(),
{
    if ballot.len() == 0 || ballot[0] >= voters.len() {
        Some(s)
    } else {
        match credit_voter(s, voters[ballot[0] as int], fp, r) {
            None => None,
            Some(s2) => credit_ballot(s2, voters, ballot.drop_first(), fp, r),
        }
    }
}

/// Resolves one block entry: credits the ballot against its majority
/// fingerprint, if it has one.
pub open spec fn resolve_block(s: Crediting, b: BlockVotes, ballot: Seq<u64>, r: Round) -> Option<Crediting> {
    if has_majority(b.hashes) {
        let w = b.hashes[leader_index(b.hashes)];
        credit_ballot(s, w.voters, ballot, w.fingerprint, r)
    } else {
        Some(s)
    }
}

/// Resolves every block entry of a ledger record in order.
pub open spec fn resolve_ledger(s: Crediting, l: Seq<BlockVotes>, ballot: Seq<u64>, r: Round) -> Option<Crediting>
    decreases l.len(),
{
    if l.len() == 0 {
        Some(s)
    } else {
        match resolve_block(s, l[0], ballot, r) {
            None => None,
            Some(s2) => resolve_ledger(s2, l.drop_first(), ballot, r),
        }
    }
}

proof fn lemma_total_votes_prefix(hs: Seq<HashVotes>, i: int, j: int)
    requires
        0 <= i <= j <= hs.len(),
    ensures
        total_votes(hs.take(i)) <= total_votes(hs.take(j)),
    decreases j - i,
{
    if i < j {
        lemma_total_votes_prefix(hs, i, j - 1);
        assert(hs.take(j).drop_last() =~= hs.take(j - 1));
    }
}

proof fn lemma_leader_range(hs: Seq<HashVotes>)
    ensures
        hs.len() == 0 ==> leader_index(hs) == -1,
        hs.len() > 0 ==> 0 <= leader_index(hs) < hs.len(),
    decreases hs.len(),
{
    if hs.len() > 0 {
        lemma_leader_range(hs.drop_last());
    }
}

/// Index of the leading fingerprint of a non-empty entry list.
fn leader(hashes: &Vec<FinalHashEntry>) -> (k: usize)
    requires
        hashes.len() > 0,
    ensures
        k < hashes.len(),
        k as int == leader_index(hashes@.map_values(|h: FinalHashEntry| h@)),
{
    let ghost hs = hashes@.map_values(|h: FinalHashEntry| h@);
    let mut best: usize = 0;
    let mut i: usize = 1;
    proof {
        assert(hs.take(1).drop_last() =~= hs.take(0));
        assert(hs.take(0).len() == 0);
        assert(leader_index(hs.take(0)) == -1);
        assert(leader_index(hs.take(1)) == 0);
    }
    while i < hashes.len()
        invariant
            hs == hashes@.map_values(|h: FinalHashEntry| h@),
            1 <= i <= hashes.len(),
            best < i,
            best as int == leader_index(hs.take(i as int)),
        decreases hashes.len() - i,
    {
        proof {
            assert(hs.take(i + 1).drop_last() =~= hs.take(i as int));
            lemma_leader_range(hs.take(i as int));
            assert(hs[i as int] == hashes@[i as int]@);
            assert(hs[best as int] == hashes@[best as int]@);
        }
        if hashes[i].pubkeys.len() > hashes[best].pubkeys.len() {
            best = i;
        }
        i = i + 1;
    }
    proof {
        assert(hs.take(i as int) =~= hs);
    }
    best
}

/// Whether a block entry's leading fingerprint holds a strict majority.
pub fn majority(hashes: &Vec<FinalHashEntry>) -> (r: bool)
    ensures
        r == has_majority(hashes@.map_values(|h: FinalHashEntry| h@)),
{
    let ghost hs = hashes@.map_values(|h: FinalHashEntry| h@);
    if hashes.len() == 0 {
        proof {
            lemma_leader_range(hs);
        }
        return false;
    }
    let k = leader(hashes);
    let lead: u128 = hashes[k].pubkeys.len() as u128;
    proof {
        assert(hs[k as int] == hashes@[k as int]@);
    }
    let mut total: u128 = 0;
    let mut i: usize = 0;
    while i < hashes.len()
        invariant
            hs == hashes@.map_values(|h: FinalHashEntry| h@),
            0 <= i <= hashes.len(),
            k < hs.len(),
            k as int == leader_index(hs),
            lead == hs[k as int].voters.len(),
            lead <= u64::MAX,
            total == total_votes(hs.take(i as int)),
            total <= 2 * lead,
        decreases hashes.len() - i,
    {
        proof {
            assert(hs.take(i + 1).drop_last() =~= hs.take(i as int));
            assert(hs[i as int] == hashes@[i as int]@);
        }
        total = total + hashes[i].pubkeys.len() as u128;
        i = i + 1;
        if total > 2 * lead {
            proof {
                lemma_total_votes_prefix(hs, i as int, hs.len() as int);
                assert(hs.take(hs.len() as int) =~= hs);
                assert(total_votes(hs) >= total);
            }
            return false;
        }
    }
    proof {
        assert(hs.take(i as int) =~= hs);
    }
    2 * lead > total
}

/// The crediting state held by the working set, the period counter and the event log.
pub open spec fn crediting_of(ws: Seq<UserPeriodCounter>, pc: PeriodCounter, events: Seq<VoterCredited>) -> Crediting {
    Crediting { accounts: ws, period_credit: pc.credit, events }
}

pub(crate) proof fn lemma_find_account_range(accts: Seq<UserPeriodCounter>, who: Identity, k: int)
    ensures
        find_account_from(accts, who, k) == -1 || (k <= find_account_from(accts, who, k) < accts.len()
            && accts[find_account_from(accts, who, k)].user == who),
    decreases accts.len() - k,
{
    if 0 <= k < accts.len() && accts[k].user != who {
        lemma_find_account_range(accts, who, k + 1);
    }
}

/// Position of the first account in the working set owned by `who`.
pub fn find_account(ws: &Vec<UserPeriodCounter>, who: &Identity) -> (r: Option<usize>)
    ensures
        match r {
            None => find_account_from(ws@, *who, 0) < 0,
            Some(k) => k < ws.len() && k as int == find_account_from(ws@, *who, 0),
        },
{
    let mut i: usize = 0;
    while i < ws.len()
        invariant
            0 <= i <= ws.len(),
            find_account_from(ws@, *who, 0) == find_account_from(ws@, *who, i as int),
        decreases ws.len() - i,
    {
        if ws[i].user.same(who) {
            return Some(i);
        }
        i = i + 1;
    }
    None
}

/// Credits one endorser of the winning fingerprint, as `credit_voter` says.
pub fn credit_one(
    voter: Identity,
    fp: [u8; 8],
    round: Round,
    ws: &mut Vec<UserPeriodCounter>,
    pc: &mut PeriodCounter,
    events: &mut Vec<VoterCredited>,
) -> (r: Result<(), ErrorCode>)
    ensures
        final(pc).debit == old(pc).debit,
        final(pc).redeemed == old(pc).redeemed,
        match r {
            Ok(()) => credit_voter(crediting_of(old(ws)@, *old(pc), old(events)@), voter, fp, round)
                == Some(crediting_of(final(ws)@, *final(pc), final(events)@)),
            Err(e) => e == ErrorCode::ArithmeticOverflow && credit_voter(
                crediting_of(old(ws)@, *old(pc), old(events)@),
                voter,
                fp,
                round,
            ) is None,
        },
{
    proof {
        lemma_find_account_range(ws@, voter, 0);
    }
    if voter.same(&round.submitter) {
        return Ok(());
    }
    let k = match find_account(ws, &voter) {
        None => return Ok(()),
        Some(k) => k,
    };
    let a = ws[k];
    if a.inblock >= round.block_id {
        return Ok(());
    }
    if a.credit == u64::MAX || pc.credit == u64::MAX {
        return Err(ErrorCode::ArithmeticOverflow);
    }
    let credited = UserPeriodCounter { inblock: round.block_id, credit: a.credit + 1, ..a };
    ws.set(k, credited);
    pc.credit = pc.credit + 1;
    events.push(
        VoterCredited {
            user: round.submitter,
            voter,
            pda: round.pda,
            block_id: round.block_id,
            prev_block_id: a.inblock,
            final_hash: fp,
            credit: credited.credit,
        },
    );
    Ok(())
}

/// Credits the ballot's positions into `voters`, as `credit_ballot` says.
pub fn credit_voters(
    voters: &Vec<Identity>,
    ballot: &Vec<u64>,
    fp: [u8; 8],
    round: Round,
    ws: &mut Vec<UserPeriodCounter>,
    pc: &mut PeriodCounter,
    events: &mut Vec<VoterCredited>,
) -> (r: Result<(), ErrorCode>)
    ensures
        final(pc).debit == old(pc).debit,
        final(pc).redeemed == old(pc).redeemed,
        match r {
            Ok(()) => credit_ballot(crediting_of(old(ws)@, *old(pc), old(events)@), voters@, ballot@, fp, round)
                == Some(crediting_of(final(ws)@, *final(pc), final(events)@)),
            Err(e) => e == ErrorCode::ArithmeticOverflow && credit_ballot(
                crediting_of(old(ws)@, *old(pc), old(events)@),
                voters@,
                ballot@,
                fp,
                round,
            ) is None,
        },
{
    let ghost goal = credit_ballot(crediting_of(ws@, *pc, events@), voters@, ballot@, fp, round);
    let mut i: usize = 0;
    proof {
        assert(ballot@.skip(0) =~= ballot@);
    }
    while i < ballot.len()
        invariant
            0 <= i <= ballot.len(),
            pc.debit == old(pc).debit,
            pc.redeemed == old(pc).redeemed,
            goal == credit_ballot(crediting_of(old(ws)@, *old(pc), old(events)@), voters@, ballot@, fp, round),
            goal == credit_ballot(crediting_of(ws@, *pc, events@), voters@, ballot@.skip(i as int), fp, round),
        decreases ballot.len() - i,
    {
        let ghost rest = ballot@.skip(i as int);
        proof {
            assert(rest[0] == ballot@[i as int]);
            assert(rest.drop_first() =~= ballot@.skip(i + 1));
        }
        if ballot[i] >= voters.len() as u64 {
            return Ok(());
        }
        let idx = ballot[i] as usize;
        match credit_one(voters[idx], fp, round, ws, pc, events) {
            Err(e) => return Err(e),
            Ok(()) => {},
        }
        i = i + 1;
    }
    proof {
        assert(ballot@.skip(i as int).len() == 0);
    }
    Ok(())
}

/// Resolves one block entry of the previous ledger record, as `resolve_block` says.
pub fn resolve_entry(
    b: &BlockEntry,
    ballot: &Vec<u64>,
    round: Round,
    ws: &mut Vec<UserPeriodCounter>,
    pc: &mut PeriodCounter,
    events: &mut Vec<VoterCredited>,
) -> (r: Result<(), ErrorCode>)
    ensures
        final(pc).debit == old(pc).debit,
        final(pc).redeemed == old(pc).redeemed,
        match r {
            Ok(()) => resolve_block(crediting_of(old(ws)@, *old(pc), old(events)@), b@, ballot@, round)
                == Some(crediting_of(final(ws)@, *final(pc), final(events)@)),
            Err(e) => e == ErrorCode::ArithmeticOverflow && resolve_block(
                crediting_of(old(ws)@, *old(pc), old(events)@),
                b@,
                ballot@,
                round,
            ) is None,
        },
{
    if !majority(&b.final_hashes) {
        return Ok(());
    }
    let k = leader(&b.final_hashes);
    proof {
        assert(b@.hashes[k as int] == b.final_hashes@[k as int]@);
    }
    credit_voters(&b.final_hashes[k].pubkeys, ballot, b.final_hashes[k].final_hash, round, ws, pc, events)
}

/// Resolves every block entry of the previous ledger record in order, as
/// `resolve_ledger` says.
pub fn resolve_previous(
    prev: &PDAAccount,
    ballot: &Vec<u64>,
    round: Round,
    ws: &mut Vec<UserPeriodCounter>,
    pc: &mut PeriodCounter,
    events: &mut Vec<VoterCredited>,
) -> (r: Result<(), ErrorCode>)
    ensures
        final(pc).debit == old(pc).debit,
        final(pc).redeemed == old(pc).redeemed,
        match r {
            Ok(()) => resolve_ledger(crediting_of(old(ws)@, *old(pc), old(events)@), prev@, ballot@, round)
                == Some(crediting_of(final(ws)@, *final(pc), final(events)@)),
            Err(e) => e == ErrorCode::ArithmeticOverflow && resolve_ledger(
                crediting_of(old(ws)@, *old(pc), old(events)@),
                prev@,
                ballot@,
                round,
            ) is None,
        },
{
    let ghost goal = resolve_ledger(crediting_of(ws@, *pc, events@), prev@, ballot@, round);
    let mut i: usize = 0;
    proof {
        assert(prev@.skip(0) =~= prev@);
    }
    while i < prev.block_ids.len()
        invariant
            0 <= i <= prev.block_ids.len(),
            prev@.len() == prev.block_ids@.len(),
            pc.debit == old(pc).debit,
            pc.redeemed == old(pc).redeemed,
            goal == resolve_ledger(crediting_of(old(ws)@, *old(pc), old(events)@), prev@, ballot@, round),
            goal == resolve_ledger(crediting_of(ws@, *pc, events@), prev@.skip(i as int), ballot@, round),
        decreases prev.block_ids.len() - i,
    {
        let ghost rest = prev@.skip(i as int);
        proof {
            assert(rest[0] == prev.block_ids@[i as int]@);
            assert(rest.drop_first() =~= prev@.skip(i + 1));
        }
        match resolve_entry(&prev.block_ids[i], ballot, round, ws, pc, events) {
            Err(e) => return Err(e),
            Ok(()) => {},
        }
        i = i + 1;
    }
    proof {
        assert(prev@.skip(i as int).len() == 0);
    }
    Ok(())
}

/// Whether crediting `voter` in this round would change nothing: it is the
/// submitter, has no account in the working set, or was already credited.
pub open spec fn settled(s: Crediting, voter: Identity, r: Round) -> bool {
    let k = find_account_from(s.accounts, voter, 0);
    voter == r.submitter || k < 0 || s.accounts[k].inblock >= r.block_id
}

/// Whether every endorser that the ballot reaches is settled.
pub open spec fn ballot_settled(s: Crediting, voters: Seq<Identity>, ballot: Seq<u64>, r: Round) -> bool
    decreases ballot.len(),
{
    if ballot.len() == 0 || ballot[0] >= voters.len() {
        true
    } else {
        settled(s, voters[ballot[0] as int], r) && ballot_settled(s, voters, ballot.drop_first(), r)
    }
}

/// Updating an account without changing its owner keeps every lookup.
proof fn lemma_find_account_update(accts: Seq<UserPeriodCounter>, k: int, x: UserPeriodCounter, who: Identity, j: int)
    requires
        0 <= k < accts.len(),
        x.user == accts[k].user,
    ensures
        find_account_from(accts.update(k, x), who, j) == find_account_from(accts, who, j),
    decreases accts.len() - j,
{
    if 0 <= j < accts.len() && accts[j].user != who {
        lemma_find_account_update(accts, k, x, who, j + 1);
    }
}

/// Crediting one endorser settles it and keeps settled every other one.
proof fn lemma_credit_voter_settles(s: Crediting, voter: Identity, fp: [u8; 8], r: Round, w: Identity)
    requires
        credit_voter(s, voter, fp, r) is Some,
    ensures
        settled(credit_voter(s, voter, fp, r)->Some_0, voter, r),
        settled(s, w, r) ==> settled(credit_voter(s, voter, fp, r)->Some_0, w, r),
        credit_voter(s, voter, fp, r)->Some_0.accounts.len() == s.accounts.len(),
{
    let k = find_account_from(s.accounts, voter, 0);
    lemma_find_account_range(s.accounts, voter, 0);
    lemma_find_account_range(s.accounts, w, 0);
    if !(voter == r.submitter || k < 0 || s.accounts[k].inblock >= r.block_id) {
        let a = s.accounts[k];
        let credited = UserPeriodCounter { inblock: r.block_id, credit: (a.credit + 1) as u64, ..a };
        lemma_find_account_update(s.accounts, k, credited, voter, 0);
        lemma_find_account_update(s.accounts, k, credited, w, 0);
    }
}

/// A crediting pass keeps settled every endorser that was settled before it.
proof fn lemma_credit_ballot_keeps_settled(s: Crediting, voters: Seq<Identity>, ballot: Seq<u64>, fp: [u8; 8], r: Round, w: Identity)
    requires
        credit_ballot(s, voters, ballot, fp, r) is Some,
        settled(s, w, r),
    ensures
        settled(credit_ballot(s, voters, ballot, fp, r)->Some_0, w, r),
    decreases ballot.len(),
{
    if !(ballot.len() == 0 || ballot[0] >= voters.len()) {
        let v = voters[ballot[0] as int];
        lemma_credit_voter_settles(s, v, fp, r, w);
        let s1 = credit_voter(s, v, fp, r)->Some_0;
        lemma_credit_ballot_keeps_settled(s1, voters, ballot.drop_first(), fp, r, w);
    }
}

/// After a crediting pass every endorser that the ballot reaches is settled.
proof fn lemma_credit_ballot_settles(s: Crediting, voters: Seq<Identity>, ballot: Seq<u64>, fp: [u8; 8], r: Round)
    requires
        credit_ballot(s, voters, ballot, fp, r) is Some,
    ensures
        ballot_settled(credit_ballot(s, voters, ballot, fp, r)->Some_0, voters, ballot, r),
    decreases ballot.len(),
{
    if !(ballot.len() == 0 || ballot[0] >= voters.len()) {
        let v = voters[ballot[0] as int];
        lemma_credit_voter_settles(s, v, fp, r, v);
        let s1 = credit_voter(s, v, fp, r)->Some_0;
        lemma_credit_ballot_settles(s1, voters, ballot.drop_first(), fp, r);
        lemma_credit_ballot_keeps_settled(s1, voters, ballot.drop_first(), fp, r, v);
    }
}

/// A pass over a settled ballot changes nothing.
proof fn lemma_settled_ballot_is_noop(s: Crediting, voters: Seq<Identity>, ballot: Seq<u64>, fp: [u8; 8], r: Round)
    requires
        ballot_settled(s, voters, ballot, r),
    ensures
        credit_ballot(s, voters, ballot, fp, r) == Some(s),
    decreases ballot.len(),
{
    if !(ballot.len() == 0 || ballot[0] >= voters.len()) {
        lemma_settled_ballot_is_noop(s, voters, ballot.drop_first(), fp, r);
    }
}

/// Whether `s2` keeps the submitter's accounts of `s` unchanged and holds no
/// credit event for the submitter beyond those of `s`.
pub open spec fn submitter_untouched(s: Crediting, s2: Crediting, submitter: Identity) -> bool {
    &&& s2.accounts.len() == s.accounts.len()
    &&& forall|i: int| 0 <= i < s.accounts.len() && #[trigger] s.accounts[i].user == submitter
        ==> s2.accounts[i] == s.accounts[i]
    &&& s.events.len() <= s2.events.len()
    &&& s2.events.subrange(0, s.events.len() as int) == s.events
    &&& forall|e: int| s.events.len() <= e < s2.events.len() ==> #[trigger] s2.events[e].voter != submitter
}

proof fn lemma_credit_voter_skips_submitter(s: Crediting, voter: Identity, fp: [u8; 8], r: Round)
    requires
        credit_voter(s, voter, fp, r) is Some,
    ensures
        submitter_untouched(s, credit_voter(s, voter, fp, r)->Some_0, r.submitter),
{
    let s2 = credit_voter(s, voter, fp, r)->Some_0;
    lemma_find_account_range(s.accounts, voter, 0);
    assert(s2.events.subrange(0, s.events.len() as int) =~= s.events);
}

/// The submitter of a block is never credited for its own endorsement, even
/// when the ballot names it: its accounts keep their counters and no credit
/// event names it as the credited endorser.
pub proof fn lemma_no_self_credit(s: Crediting, voters: Seq<Identity>, ballot: Seq<u64>, fp: [u8; 8], r: Round)
    requires
        credit_ballot(s, voters, ballot, fp, r) is Some,
    ensures
        submitter_untouched(s, credit_ballot(s, voters, ballot, fp, r)->Some_0, r.submitter),
    decreases ballot.len(),
{
    let s2 = credit_ballot(s, voters, ballot, fp, r)->Some_0;
    if ballot.len() == 0 || ballot[0] >= voters.len() {
        assert(s2.events.subrange(0, s.events.len() as int) =~= s.events);
    } else {
        let v = voters[ballot[0] as int];
        lemma_credit_voter_skips_submitter(s, v, fp, r);
        let s1 = credit_voter(s, v, fp, r)->Some_0;
        lemma_no_self_credit(s1, voters, ballot.drop_first(), fp, r);
        assert(s2.events.subrange(0, s1.events.len() as int).subrange(0, s.events.len() as int)
            =~= s2.events.subrange(0, s.events.len() as int));
        assert forall|e: int| s.events.len() <= e < s2.events.len() implies #[trigger] s2.events[e].voter != r.submitter by {
            if e < s1.events.len() {
                assert(s2.events[e] == s2.events.subrange(0, s1.events.len() as int)[e]);
            }
        }
    }
}

/// An endorser credited in a round gains exactly one credit, is marked as
/// credited for the round's block, and adds exactly one to the period total.
pub proof fn lemma_credit_adds_one(s: Crediting, voter: Identity, fp: [u8; 8], r: Round)
    requires
        !settled(s, voter, r),
        credit_voter(s, voter, fp, r) is Some,
    ensures
        ({
            let k = find_account_from(s.accounts, voter, 0);
            let s2 = credit_voter(s, voter, fp, r)->Some_0;
            &&& 0 <= k < s.accounts.len()
            &&& s2.accounts[k].credit == s.accounts[k].credit + 1
            &&& s2.accounts[k].inblock == r.block_id
            &&& s2.period_credit == s.period_credit + 1
            &&& forall|i: int| 0 <= i < s.accounts.len() && i != k ==> s2.accounts[i] == s.accounts[i]
        }),
{
    lemma_find_account_range(s.accounts, voter, 0);
}

/// A crediting pass keeps settled every ballot that was settled before it.
proof fn lemma_credit_ballot_keeps_ballot_settled(
    s: Crediting,
    voters2: Seq<Identity>,
    ballot2: Seq<u64>,
    fp: [u8; 8],
    voters: Seq<Identity>,
    ballot: Seq<u64>,
    r: Round,
)
    requires
        credit_ballot(s, voters2, ballot2, fp, r) is Some,
        ballot_settled(s, voters, ballot, r),
    ensures
        ballot_settled(credit_ballot(s, voters2, ballot2, fp, r)->Some_0, voters, ballot, r),
    decreases ballot.len(),
{
    if !(ballot.len() == 0 || ballot[0] >= voters.len()) {
        lemma_credit_ballot_keeps_settled(s, voters2, ballot2, fp, r, voters[ballot[0] as int]);
        lemma_credit_ballot_keeps_ballot_settled(s, voters2, ballot2, fp, voters, ballot.drop_first(), r);
    }
}

/// Whether resolving `b` again with the ballot would change nothing.
pub open spec fn block_settled(s: Crediting, b: BlockVotes, ballot: Seq<u64>, r: Round) -> bool {
    has_majority(b.hashes) ==> ballot_settled(s, b.hashes[leader_index(b.hashes)].voters, ballot, r)
}

/// Whether resolving every entry of `l` again with the ballot would change nothing.
pub open spec fn ledger_settled(s: Crediting, l: Seq<BlockVotes>, ballot: Seq<u64>, r: Round) -> bool
    decreases l.len(),
{
    l.len() == 0 || (block_settled(s, l[0], ballot, r) && ledger_settled(s, l.drop_first(), ballot, r))
}

proof fn lemma_resolve_block_keeps_block_settled(s: Crediting, b2: BlockVotes, b: BlockVotes, ballot: Seq<u64>, r: Round)
    requires
        resolve_block(s, b2, ballot, r) is Some,
        block_settled(s, b, ballot, r),
    ensures
        block_settled(resolve_block(s, b2, ballot, r)->Some_0, b, ballot, r),
{
    if has_majority(b2.hashes) && has_majority(b.hashes) {
        let w2 = b2.hashes[leader_index(b2.hashes)];
        lemma_credit_ballot_keeps_ballot_settled(s, w2.voters, ballot, w2.fingerprint, b.hashes[leader_index(b.hashes)].voters, ballot, r);
    }
}

proof fn lemma_resolve_ledger_keeps_block_settled(s: Crediting, l: Seq<BlockVotes>, b: BlockVotes, ballot: Seq<u64>, r: Round)
    requires
        resolve_ledger(s, l, ballot, r) is Some,
        block_settled(s, b, ballot, r),
    ensures
        block_settled(resolve_ledger(s, l, ballot, r)->Some_0, b, ballot, r),
    decreases l.len(),
{
    if l.len() > 0 {
        lemma_resolve_block_keeps_block_settled(s, l[0], b, ballot, r);
        lemma_resolve_ledger_keeps_block_settled(resolve_block(s, l[0], ballot, r)->Some_0, l.drop_first(), b, ballot, r);
    }
}

proof fn lemma_resolve_ledger_settles(s: Crediting, l: Seq<BlockVotes>, ballot: Seq<u64>, r: Round)
    requires
        resolve_ledger(s, l, ballot, r) is Some,
    ensures
        ledger_settled(resolve_ledger(s, l, ballot, r)->Some_0, l, ballot, r),
    decreases l.len(),
{
    if l.len() > 0 {
        let b = l[0];
        let s1 = resolve_block(s, b, ballot, r)->Some_0;
        if has_majority(b.hashes) {
            let w = b.hashes[leader_index(b.hashes)];
            lemma_credit_ballot_settles(s, w.voters, ballot, w.fingerprint, r);
        }
        lemma_resolve_ledger_settles(s1, l.drop_first(), ballot, r);
        lemma_resolve_ledger_keeps_block_settled(s1, l.drop_first(), b, ballot, r);
    }
}

proof fn lemma_settled_ledger_is_noop(s: Crediting, l: Seq<BlockVotes>, ballot: Seq<u64>, r: Round)
    requires
        ledger_settled(s, l, ballot, r),
    ensures
        resolve_ledger(s, l, ballot, r) == Some(s),
    decreases l.len(),
{
    if l.len() > 0 {
        let b = l[0];
        if has_majority(b.hashes) {
            let w = b.hashes[leader_index(b.hashes)];
            lemma_settled_ballot_is_noop(s, w.voters, ballot, w.fingerprint, r);
        }
        lemma_settled_ledger_is_noop(s, l.drop_first(), ballot, r);
    }
}

/// Resubmitting the same append credits nobody again: resolving the previous
/// record a second time with the same ballot in the same round leaves the
/// accounts, the period total and the events as the first resolution left them.
pub proof fn lemma_resolve_ledger_idempotent(s: Crediting, l: Seq<BlockVotes>, ballot: Seq<u64>, r: Round)
    requires
        resolve_ledger(s, l, ballot, r) is Some,
    ensures
        resolve_ledger(resolve_ledger(s, l, ballot, r)->Some_0, l, ballot, r) == resolve_ledger(s, l, ballot, r),
{
    lemma_resolve_ledger_settles(s, l, ballot, r);
    lemma_settled_ledger_is_noop(resolve_ledger(s, l, ballot, r)->Some_0, l, ballot, r);
}

} // verus!
