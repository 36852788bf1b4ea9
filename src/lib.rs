//! A fungible token: a ledger of balances whose total supply is always their sum, storage
//! billing for account registration, call-style transfers settled after the receiver's hook
//! reports, and an owner who names the accounts allowed to mint.
//!
//! The host environment stays outside: the caller, the attached deposit and the hook's result
//! come in as plain values.

pub mod amount;
pub mod contract;
pub mod error;
pub mod ledger;
pub mod storage;
pub mod transfer;
