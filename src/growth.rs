use vstd::prelude::*;

use crate::error::ErrorCode;

verus! {

/// What growing a record takes: the prepayment owed by the payer and the
/// record's new size.
#[derive(Debug, Clone, Copy, PartialEq, Eq, Structural)]
pub struct Growth {
    pub transfer: u64,
    pub new_size: usize,
}

/// The part of `min_balance` that `balance` does not cover.
pub open spec fn shortfall(min_balance: u64, balance: u64) -> nat {
    if min_balance > balance {
        (min_balance - balance) as nat
    } else {
        0
    }
}

/// Prepares the growth of a record of `size` bytes holding `balance` by
/// exactly `add_size` bytes, where `min_balance` is the balance the holding-cost
/// schedule demands for `size + add_size` bytes. The payer, holding
/// `payer_balance`, owes the shortfall; the whole growth fails if it cannot pay.
pub fn grow_account(size: usize, balance: u64, payer_balance: u64, add_size: usize, min_balance: u64) -> (r: Result<Growth, ErrorCode>)
    ensures
        size + add_size > usize::MAX <==> r == Err::<Growth, ErrorCode>(ErrorCode::ArithmeticOverflow),
        size + add_size <= usize::MAX && shortfall(min_balance, balance) > payer_balance
            <==> r == Err::<Growth, ErrorCode>(ErrorCode::InsufficientFunds),
        r is Ok <==> size + add_size <= usize::MAX && shortfall(min_balance, balance) <= payer_balance,
        r is Ok ==> r->Ok_0 == (Growth {
            transfer: shortfall(min_balance, balance) as u64,
            new_size: (size + add_size) as usize,
        }),
{
    if add_size > usize::MAX - size {
        return Err(ErrorCode::ArithmeticOverflow);
    }
    let transfer: u64 = if min_balance > balance { min_balance - balance } else { 0 };
    if transfer > payer_balance {
        return Err(ErrorCode::InsufficientFunds);
    }
    Ok(Growth { transfer, new_size: size + add_size })
}

/// A successful growth never shrinks the record, and leaves its balance at or
/// above the minimum the holding-cost schedule demands for its new size.
pub proof fn lemma_growth_keeps_capacity(size: usize, balance: u64, payer_balance: u64, add_size: usize, min_balance: u64, g: Growth)
    requires
        size + add_size <= usize::MAX,
        shortfall(min_balance, balance) <= payer_balance,
        g == (Growth { transfer: shortfall(min_balance, balance) as u64, new_size: (size + add_size) as usize }),
    ensures
        g.new_size >= size,
        g.new_size == size + add_size,
        balance + g.transfer >= min_balance,
        g.transfer <= payer_balance,
{
}

} // verus!
