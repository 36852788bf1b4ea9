use vstd::prelude::*;
use crate::error::TokenError;

verus! {

/// The price of the storage one registered account takes: the bytes one account record
/// uses, measured once, and the price of one byte.
#[derive(Clone, Copy, Debug)]
pub struct StoragePolicy {
    account_storage_usage: u64,
    byte_cost: u128,
}

/// The storage deposit held for one account.
#[derive(Clone, Copy, Debug, PartialEq, Eq, Structural)]
pub struct StorageBalance {
    pub total: u128,
    pub available: u128,
}

/// The least and the most that registering one account can cost.
#[derive(Clone, Copy, Debug, PartialEq, Eq, Structural)]
pub struct StorageBalanceBounds {
    pub min: u128,
    pub max: Option<u128>,
}

impl StoragePolicy {
    pub closed spec fn usage(&self) -> nat {
        self.account_storage_usage as nat
    }

    pub closed spec fn price_per_byte(&self) -> nat {
        self.byte_cost as nat
    }

    /// What registering one account costs.
    pub open spec fn registration_cost(&self) -> nat {
        self.usage() * self.price_per_byte()
    }

    /// The cost, and the cost with one more unit, are representable.
    pub open spec fn wf(&self) -> bool {
        self.registration_cost() < u128::MAX
    }

    /// A policy for records of `account_storage_usage` bytes at `byte_cost` each; `None` where
    /// the price of one record does not fit below the largest 128-bit value.
    pub fn new(account_storage_usage: u64, byte_cost: u128) -> (r: Option<StoragePolicy>)
        ensures
            match r {
                Some(p) => {
                    &&& p.wf()
                    &&& p.usage() == account_storage_usage
                    &&& p.price_per_byte() == byte_cost
                },
                None => account_storage_usage * byte_cost >= u128::MAX,
            },
    {
        match (account_storage_usage as u128).checked_mul(byte_cost) {
            Some(c) => {
                if c == u128::MAX {
                    None
                } else {
                    Some(StoragePolicy { account_storage_usage, byte_cost })
                }
            },
            None => None,
        }
    }

    /// What registering one account costs.
    pub fn registration_cost_exec(&self) -> (r: u128)
        requires
            self.wf(),
        ensures
            r == self.registration_cost(),
    {
        proof {
            vstd::arithmetic::mul::lemma_mul_upper_bound(
                self.account_storage_usage as int,
                self.account_storage_usage as int,
                self.byte_cost as int,
                self.byte_cost as int,
            );
        }
        (self.account_storage_usage as u128) * self.byte_cost
    }

    /// The bytes one account record takes.
    pub fn account_storage_usage(&self) -> (r: u64)
        ensures
            r == self.usage(),
    {
        self.account_storage_usage
    }

    /// The price of one byte.
    pub fn byte_cost(&self) -> (r: u128)
        ensures
            r == self.price_per_byte(),
    {
        self.byte_cost
    }
}

/// What a caller gets back once a call that moved the storage use from `usage_before` to
/// `usage_after` bytes has run with `attached_deposit` attached: growth is paid out of the
/// deposit and the rest returned; shrinking returns the deposit and the price of the bytes freed.
pub open spec fn storage_refund(
    usage_before: nat,
    usage_after: nat,
    attached_deposit: nat,
    byte_cost: nat,
) -> int {
    if usage_after > usage_before {
        attached_deposit - (usage_after - usage_before) * byte_cost
    } else {
        attached_deposit + (usage_before - usage_after) * byte_cost
    }
}

/// Settles the storage a call took. Fails where growth costs more than the deposit attached,
/// or where the refund does not fit in 128 bits.
pub fn settle_storage(
    usage_before: u64,
    usage_after: u64,
    attached_deposit: u128,
    byte_cost: u128,
) -> (r: Result<u128, TokenError>)
    ensures
        match r {
            Ok(refund) => {
                &&& storage_refund(usage_before as nat, usage_after as nat, attached_deposit as nat, byte_cost as nat) >= 0
                &&& refund == storage_refund(usage_before as nat, usage_after as nat, attached_deposit as nat, byte_cost as nat)
            },
            Err(e) => {
                ||| e == TokenError::InsufficientStorageDeposit && usage_after > usage_before
                    && storage_refund(usage_before as nat, usage_after as nat, attached_deposit as nat, byte_cost as nat) < 0
                ||| e == TokenError::Overflow && usage_after <= usage_before
                    && storage_refund(usage_before as nat, usage_after as nat, attached_deposit as nat, byte_cost as nat) > u128::MAX
            },
        },
{
    if usage_after > usage_before {
        let grown = (usage_after - usage_before) as u128;
        match grown.checked_mul(byte_cost) {
            Some(required) => {
                if attached_deposit < required {
                    Err(TokenError::InsufficientStorageDeposit)
                } else {
                    Ok(attached_deposit - required)
                }
            },
            None => Err(TokenError::InsufficientStorageDeposit),
        }
    } else {
        let freed = (usage_before - usage_after) as u128;
        match freed.checked_mul(byte_cost) {
            Some(credit) => match attached_deposit.checked_add(credit) {
                Some(refund) => Ok(refund),
                None => Err(TokenError::Overflow),
            },
            None => {
                proof {
                    vstd::arithmetic::mul::lemma_mul_nonnegative(freed as int, byte_cost as int);
                }
                Err(TokenError::Overflow)
            },
        }
    }
}

} // verus!
