use vstd::prelude::*;

use vstd::arithmetic::div_mod::{lemma_fundamental_div_mod, lemma_mod_bound};

use crate::accounts::{PeriodCounter, REWARD_PER_PERIOD, UserPeriodCounter};
use crate::consensus::{Crediting, Round, credit_ballot, credit_voter, find_account_from, resolve_block, resolve_ledger};
use crate::identity::Identity;
use crate::ledger::BlockVotes;
use crate::reward::{ClaimReward, claim_outcome, reward_for};

verus! {

/// Sum of the credit of a period's accounts.
pub open spec fn sum_credit(us: Seq<UserPeriodCounter>) -> int
    decreases us.len(),
{
    if us.len() == 0 {
        0
    } else {
        sum_credit(us.drop_last()) + us.last().credit
    }
}

/// Sum of the redeemed credit of a period's accounts.
pub open spec fn sum_redeemed(us: Seq<UserPeriodCounter>) -> int
    decreases us.len(),
{
    if us.len() == 0 {
        0
    } else {
        sum_redeemed(us.drop_last()) + us.last().redeemed
    }
}

/// The period's counters agree with its accounts, and no account has
/// redeemed more than it was credited.
pub open spec fn book_consistent(pc: PeriodCounter, users: Seq<UserPeriodCounter>) -> bool {
    &&& pc.credit == sum_credit(users)
    &&& pc.redeemed == sum_redeemed(users)
    &&& forall|i: int| 0 <= i < users.len() ==> #[trigger] users[i].redeemed <= users[i].credit
}

proof fn lemma_sums_update(us: Seq<UserPeriodCounter>, k: int, x: UserPeriodCounter)
    requires
        0 <= k < us.len(),
    ensures
        sum_credit(us.update(k, x)) == sum_credit(us) - us[k].credit + x.credit,
        sum_redeemed(us.update(k, x)) == sum_redeemed(us) - us[k].redeemed + x.redeemed,
    decreases us.len(),
{
    let u2 = us.update(k, x);
    if k == us.len() - 1 {
        assert(u2.drop_last() =~= us.drop_last());
    } else {
        lemma_sums_update(us.drop_last(), k, x);
        assert(u2.drop_last() =~= us.drop_last().update(k, x));
    }
}

proof fn lemma_redeemed_le_credit(us: Seq<UserPeriodCounter>)
    requires
        forall|i: int| 0 <= i < us.len() ==> #[trigger] us[i].redeemed <= us[i].credit,
    ensures
        sum_redeemed(us) <= sum_credit(us),
    decreases us.len(),
{
    if us.len() > 0 {
        let d = us.drop_last();
        assert forall|i: int| 0 <= i < d.len() implies #[trigger] d[i].redeemed <= d[i].credit by {
            assert(d[i] == us[i]);
        }
        lemma_redeemed_le_credit(d);
    }
}

/// In a consistent book the period never has more redeemed than credited,
/// and neither has any of its accounts.
pub proof fn lemma_book_bounds(pc: PeriodCounter, users: Seq<UserPeriodCounter>)
    requires
        book_consistent(pc, users),
    ensures
        pc.redeemed <= pc.credit,
        forall|i: int| 0 <= i < users.len() ==> #[trigger] users[i].redeemed <= users[i].credit,
{
    lemma_redeemed_le_credit(users);
}

/// The book of a crediting state: the working set's accounts followed by the
/// period's other accounts, under the period's counters.
pub open spec fn book_of(s: Crediting, others: Seq<UserPeriodCounter>, pc: PeriodCounter) -> bool {
    book_consistent(PeriodCounter { credit: s.period_credit, ..pc }, s.accounts + others)
}

proof fn lemma_credit_voter_keeps_book(s: Crediting, others: Seq<UserPeriodCounter>, pc: PeriodCounter, voter: Identity, fp: [u8; 8], r: Round)
    requires
        book_of(s, others, pc),
        credit_voter(s, voter, fp, r) is Some,
    ensures
        book_of(credit_voter(s, voter, fp, r)->Some_0, others, pc),
        credit_voter(s, voter, fp, r)->Some_0.accounts.len() == s.accounts.len(),
{
    let k = find_account_from(s.accounts, voter, 0);
    crate::consensus::lemma_find_account_range(s.accounts, voter, 0);
    if !(voter == r.submitter || k < 0 || s.accounts[k].inblock >= r.block_id) {
        let s2 = credit_voter(s, voter, fp, r)->Some_0;
        let a = s.accounts[k];
        let credited = UserPeriodCounter { inblock: r.block_id, credit: (a.credit + 1) as u64, ..a };
        let all = s.accounts + others;
        assert(s2.accounts + others =~= all.update(k, credited));
        assert(all[k] == a);
        lemma_sums_update(all, k, credited);
        let all2 = s2.accounts + others;
        assert forall|i: int| 0 <= i < all2.len() implies #[trigger] all2[i].redeemed <= all2[i].credit by {
            assert(all[i].redeemed <= all[i].credit);
        }
    }
}

proof fn lemma_credit_ballot_keeps_book(s: Crediting, others: Seq<UserPeriodCounter>, pc: PeriodCounter, voters: Seq<Identity>, ballot: Seq<u64>, fp: [u8; 8], r: Round)
    requires
        book_of(s, others, pc),
        credit_ballot(s, voters, ballot, fp, r) is Some,
    ensures
        book_of(credit_ballot(s, voters, ballot, fp, r)->Some_0, others, pc),
    decreases ballot.len(),
{
    if !(ballot.len() == 0 || ballot[0] >= voters.len()) {
        let v = voters[ballot[0] as int];
        lemma_credit_voter_keeps_book(s, others, pc, v, fp, r);
        lemma_credit_ballot_keeps_book(credit_voter(s, v, fp, r)->Some_0, others, pc, voters, ballot.drop_first(), fp, r);
    }
}

/// Crediting keeps the period's book consistent: every credit given to an
/// account of the working set is added to the period's total, so neither
/// the period nor any account ends up with more redeemed than credited.
pub proof fn lemma_resolve_keeps_book(s: Crediting, others: Seq<UserPeriodCounter>, pc: PeriodCounter, l: Seq<BlockVotes>, ballot: Seq<u64>, r: Round)
    requires
        book_of(s, others, pc),
        resolve_ledger(s, l, ballot, r) is Some,
    ensures
        book_of(resolve_ledger(s, l, ballot, r)->Some_0, others, pc),
    decreases l.len(),
{
    if l.len() > 0 {
        let b = l[0];
        if crate::consensus::has_majority(b.hashes) {
            let w = b.hashes[crate::consensus::leader_index(b.hashes)];
            lemma_credit_ballot_keeps_book(s, others, pc, w.voters, ballot, w.fingerprint, r);
        }
        lemma_resolve_keeps_book(resolve_block(s, b, ballot, r)->Some_0, others, pc, l.drop_first(), ballot, r);
    }
}

/// Claiming keeps the period's book consistent: the account redeems exactly
/// its unredeemed credit and the period's redeemed total grows by as much,
/// so redeemed never exceeds credit, for the account or for the period.
pub proof fn lemma_claim_keeps_book(c: ClaimReward, period: u64, users: Seq<UserPeriodCounter>, k: int)
    requires
        book_consistent(c.period_counter, users),
        0 <= k < users.len(),
        users[k] == c.user_account_pda,
        claim_outcome(c, period) is Ok,
    ensures
        book_consistent(
            claim_outcome(c, period)->Ok_0.period_counter,
            users.update(k, claim_outcome(c, period)->Ok_0.user_account_pda),
        ),
        claim_outcome(c, period)->Ok_0.period_counter.redeemed <= claim_outcome(c, period)->Ok_0.period_counter.credit,
{
    let c2 = claim_outcome(c, period)->Ok_0;
    lemma_sums_update(users, k, c2.user_account_pda);
    let u2 = users.update(k, c2.user_account_pda);
    assert forall|i: int| 0 <= i < u2.len() implies #[trigger] u2[i].redeemed <= u2[i].credit by {
        assert(users[i].redeemed <= users[i].credit);
    }
    lemma_redeemed_le_credit(u2);
}

/// Sum of a sequence of amounts.
pub open spec fn sum_of(xs: Seq<int>) -> int
    decreases xs.len(),
{
    if xs.len() == 0 {
        0
    } else {
        sum_of(xs.drop_last()) + xs.last()
    }
}

/// The rewards paid for the given redeemed amounts of a period whose credit
/// total is `total`.
pub open spec fn rewards_paid(redeemed: Seq<int>, total: int) -> int
    decreases redeemed.len(),
{
    if redeemed.len() == 0 {
        0
    } else {
        rewards_paid(redeemed.drop_last(), total) + reward_for(redeemed.last(), total)
    }
}

/// The rewards paid for a period never exceed its pool: claims whose
/// redeemed amounts add up to at most the period's credit total are paid at
/// most the pool, and short of the pool by no more than the rounding of each
/// claim (less than one unit per claim) beyond the unclaimed share.
pub proof fn lemma_rewards_within_pool(redeemed: Seq<int>, total: int)
    requires
        total > 0,
        forall|i: int| 0 <= i < redeemed.len() ==> #[trigger] redeemed[i] >= 0,
        sum_of(redeemed) <= total,
    ensures
        rewards_paid(redeemed, total) <= REWARD_PER_PERIOD,
        rewards_paid(redeemed, total) * total <= REWARD_PER_PERIOD * sum_of(redeemed),
        REWARD_PER_PERIOD * sum_of(redeemed) - rewards_paid(redeemed, total) * total <= redeemed.len() * (total - 1),
{
    lemma_rewards_scaled(redeemed, total);
    let p = rewards_paid(redeemed, total);
    let s = sum_of(redeemed);
    assert(REWARD_PER_PERIOD * s <= REWARD_PER_PERIOD * total) by (nonlinear_arith)
        requires s <= total;
    assert(p <= REWARD_PER_PERIOD) by (nonlinear_arith)
        requires p * total <= REWARD_PER_PERIOD * total, total > 0;
}

proof fn lemma_rewards_scaled(redeemed: Seq<int>, total: int)
    requires
        total > 0,
        forall|i: int| 0 <= i < redeemed.len() ==> #[trigger] redeemed[i] >= 0,
    ensures
        rewards_paid(redeemed, total) * total <= REWARD_PER_PERIOD * sum_of(redeemed),
        REWARD_PER_PERIOD * sum_of(redeemed) - rewards_paid(redeemed, total) * total <= redeemed.len() * (total - 1),
        sum_of(redeemed) >= 0,
    decreases redeemed.len(),
{
    if redeemed.len() > 0 {
        let d = redeemed.drop_last();
        assert forall|i: int| 0 <= i < d.len() implies #[trigger] d[i] >= 0 by {
            assert(d[i] == redeemed[i]);
        }
        lemma_rewards_scaled(d, total);
        let x = REWARD_PER_PERIOD * redeemed.last();
        lemma_fundamental_div_mod(x, total);
        lemma_mod_bound(x, total);
        let q = x / total;
        let p0 = rewards_paid(d, total);
        let s0 = sum_of(d);
        let n0 = d.len() as int;
        assert(rewards_paid(redeemed, total) == p0 + q);
        assert(sum_of(redeemed) == s0 + redeemed.last());
        assert((p0 + q) * total == p0 * total + q * total) by (nonlinear_arith);
        assert(REWARD_PER_PERIOD * (s0 + redeemed.last()) == REWARD_PER_PERIOD * s0 + x) by (nonlinear_arith)
            requires x == REWARD_PER_PERIOD * redeemed.last();
        assert((n0 + 1) * (total - 1) == n0 * (total - 1) + (total - 1)) by (nonlinear_arith);
        assert(q * total == total * q) by (nonlinear_arith);
    }
}

} // verus!
