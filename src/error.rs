use vstd::prelude::*;

verus! {

/// Why a call into the token was refused. Every refusal leaves the state as it was.
#[derive(Debug, Clone, Copy, PartialEq, Eq, Structural)]
pub enum TokenError {
    /// The account holds less than the amount asked for, or is not registered.
    InsufficientBalance,
    /// A balance or the total supply would pass the largest 128-bit value.
    Overflow,
    /// A transfer to oneself, or of a zero amount.
    InvalidTransfer,
    /// The account that would receive tokens is not registered.
    UnregisteredReceiver,
    /// The account is registered already.
    AlreadyRegistered,
    /// The attached deposit does not pay for the storage the call takes.
    InsufficientStorageDeposit,
    /// The account still holds tokens and the caller did not force the closing.
    NonZeroBalance,
    /// The account that would hold the tokens is not registered.
    NotRegistered,
    /// Only the owner may make this call.
    NotOwner,
    /// Only a minter may make this call.
    NotMinter,
    /// The account is a minter already.
    DuplicateMinter,
    /// The account to remove is not a minter.
    NotAMinter,
    /// The call must carry exactly one unit of the native currency.
    MissingExactPayment,
    /// A numeric argument is malformed, out of range, or asks for more than is available.
    InvalidAmount,
}

} // verus!
