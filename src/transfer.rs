use vstd::prelude::*;
use crate::ledger::Ledger;

verus! {

/// A call-style transfer between its debit and its resolution: the sender has been debited
/// and the receiver credited; the receiver's hook has yet to report.
#[derive(Debug)]
pub struct PendingTransfer {
    pub sender_id: String,
    pub receiver_id: String,
    pub amount: u128,
}

/// How the receiver's hook settled.
#[derive(Clone, Copy, Debug, PartialEq, Eq, Structural)]
pub enum HookOutcome {
    /// The hook returned, reporting that it kept this much of the amount.
    Used(u128),
    /// The hook failed, or returned something that is not an amount.
    Failed,
}

/// What the resolution of a call-style transfer did.
#[derive(Clone, Copy, Debug, PartialEq, Eq, Structural)]
pub struct Resolution {
    /// What the receiver kept: the amount it reported, at most the amount sent.
    pub used_amount: u128,
    /// What went back from the receiver to the sender.
    pub refunded: u128,
    /// What was taken back from the receiver and burned, the sender being gone.
    pub burned: u128,
}

pub open spec fn min_nat(a: nat, b: nat) -> nat {
    if a < b {
        a
    } else {
        b
    }
}

/// What the receiver kept of `amount`, by its hook's report.
pub open spec fn spec_used_amount(amount: nat, outcome: HookOutcome) -> nat {
    match outcome {
        HookOutcome::Used(u) => min_nat(amount, u as nat),
        HookOutcome::Failed => 0,
    }
}

/// What can be taken back from the receiver: the part it refused, as far as it still holds it.
pub open spec fn recoverable(amount: nat, outcome: HookOutcome, receiver_balance: nat) -> nat {
    min_nat((amount - spec_used_amount(amount, outcome)) as nat, receiver_balance)
}

/// The amount the receiver kept of `amount`, by its hook's report.
pub fn used_amount(amount: u128, outcome: HookOutcome) -> (r: u128)
    ensures
        r == spec_used_amount(amount as nat, outcome),
{
    match outcome {
        HookOutcome::Used(u) => if u < amount {
            u
        } else {
            amount
        },
        HookOutcome::Failed => 0,
    }
}

/// The hook's outcome where the receiver reports the part of `amount` it did not use, as
/// receivers of call-style transfers do; a report beyond the amount refuses all of it.
pub fn outcome_from_unused(amount: u128, unused: u128) -> (r: HookOutcome)
    ensures
        r == HookOutcome::Used((amount - min_nat(amount as nat, unused as nat)) as u128),
{
    if unused < amount {
        HookOutcome::Used(amount - unused)
    } else {
        HookOutcome::Used(0)
    }
}

/// The state of `after`, once the resolution of `pending` with `outcome` has run on `before`.
pub open spec fn resolved(
    before: Ledger,
    after: Ledger,
    pending: PendingTransfer,
    outcome: HookOutcome,
    r: Resolution,
) -> bool {
    let s = pending.sender_id@;
    let rc = pending.receiver_id@;
    let back = recoverable(pending.amount as nat, outcome, before.balance(rc));
    let taken = before.balances().insert(rc, (before.balance(rc) - back) as nat);
    &&& r.used_amount == spec_used_amount(pending.amount as nat, outcome)
    &&& back == 0 ==> {
        &&& after.balances() == before.balances()
        &&& after.supply() == before.supply()
        &&& r.refunded == 0 && r.burned == 0
    }
    &&& back > 0 && before.registered(s) ==> {
        &&& after.balances() == taken.insert(s, taken[s] + back)
        &&& after.supply() == before.supply()
        &&& r.refunded == back && r.burned == 0
    }
    &&& back > 0 && !before.registered(s) ==> {
        &&& after.balances() == taken
        &&& after.supply() == before.supply() - back
        &&& r.refunded == 0 && r.burned == back
    }
}

/// Settles a call-style transfer once the receiver's hook has reported: what the receiver
/// refused goes back to the sender as far as the receiver still holds it, or is burned where
/// the sender is no longer registered.
pub fn resolve_transfer(ledger: &mut Ledger, pending: PendingTransfer, outcome: HookOutcome) -> (r:
    Resolution)
    requires
        old(ledger).wf(),
    ensures
        final(ledger).wf(),
        resolved(*old(ledger), *final(ledger), pending, outcome, r),
{
    let used = used_amount(pending.amount, outcome);
    let unused = pending.amount - used;
    let receiver_balance = ledger.balance_of(&pending.receiver_id);
    let back = if unused < receiver_balance {
        unused
    } else {
        receiver_balance
    };
    if back == 0 {
        return Resolution { used_amount: used, refunded: 0, burned: 0 };
    }
    let ghost start = *ledger;
    let taken = ledger.withdraw(&pending.receiver_id, back);
    assert(taken is Ok);
    assert(ledger.registered(pending.sender_id@) == ledger.balances().dom().contains(pending.sender_id@));
    assert(start.registered(pending.sender_id@) == start.balances().dom().contains(pending.sender_id@));
    assert(ledger.registered(pending.sender_id@) == start.registered(pending.sender_id@));
    if ledger.is_registered(&pending.sender_id) {
        assert(ledger.balances().dom().contains(pending.sender_id@));
        assert(ledger.balance(pending.sender_id@) == ledger.balances()[pending.sender_id@]);
        let given = ledger.deposit(&pending.sender_id, back);
        assert(given is Ok);
        Resolution { used_amount: used, refunded: back, burned: 0 }
    } else {
        Resolution { used_amount: used, refunded: 0, burned: back }
    }
}

} // verus!
