use vstd::prelude::*;

verus! {

/// The tagged failures of the ledger's entry points.
#[derive(Debug, Clone, Copy, PartialEq, Eq, Structural)]
pub enum ErrorCode {
    BlockEntryNotFound,
    FinalHashEntryNotFound,
    InvalidUtf8,
    InsufficientPubkeys,
    SerializationError,
    /// The caller is not the identity that owns the account.
    BadAccountOwner,
    /// The account has no credit left to redeem.
    NoRedeemableCredit,
    /// The period is still open.
    BadPeriod,
    /// A payer or the treasury cannot cover a transfer.
    InsufficientFunds,
    /// The storage extension itself failed.
    GrowthFailed,
    /// A counter or balance would leave the range of `u64`.
    ArithmeticOverflow,
}

} // verus!
