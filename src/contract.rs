use vstd::prelude::*;
use crate::error::TokenError;
use crate::ledger::Ledger;
use crate::storage::{StorageBalance, StorageBalanceBounds, StoragePolicy};
use crate::transfer::{resolve_transfer, resolved, HookOutcome, PendingTransfer, Resolution};

verus! {

/// The version of the token metadata standard this token follows.
pub const FT_METADATA_SPEC: &'static str = "ft-1.0.0";

/// Who makes a call, and how much of the native currency it carries.
#[derive(Debug)]
pub struct CallContext {
    pub predecessor_account_id: String,
    pub attached_deposit: u128,
}

/// Descriptive data of the token, kept as given.
#[derive(Debug)]
pub struct FungibleTokenMetadata {
    pub spec: String,
    pub name: String,
    pub symbol: String,
    pub icon: Option<String>,
    pub reference: Option<String>,
    pub reference_hash: Option<Vec<u8>>,
    pub decimals: u8,
}

/// What a storage deposit did: the storage balance the account now has, and what goes back to
/// the caller of the attached deposit.
#[derive(Clone, Copy, Debug, PartialEq, Eq, Structural)]
pub struct StorageDeposit {
    pub balance: StorageBalance,
    pub refund: u128,
}

/// What closing the caller's account did.
#[derive(Clone, Copy, Debug, PartialEq, Eq, Structural)]
pub enum UnregisterOutcome {
    /// The caller had no account; nothing changed.
    NotRegistered,
    /// The account is gone: `burned` tokens it still held left the supply, and `refund` of the
    /// native currency goes back to the caller.
    Closed { burned: u128, refund: u128 },
}

/// A fungible token: its ledger, the price of registering an account, its metadata, its owner
/// and the accounts allowed to mint.
pub struct Contract {
    token: Ledger,
    storage: StoragePolicy,
    metadata: FungibleTokenMetadata,
    owner_id: String,
    minters: Vec<String>,
}

/// Whether the call carries exactly one unit of the native currency.
pub fn assert_one_yocto(ctx: &CallContext) -> (r: Result<(), TokenError>)
    ensures
        r is Ok <==> ctx.attached_deposit == 1,
        r is Err ==> r == Err::<(), TokenError>(TokenError::MissingExactPayment),
{
    if ctx.attached_deposit == 1 {
        Ok(())
    } else {
        Err(TokenError::MissingExactPayment)
    }
}

/// `after` is `before` with `amount` minted to `account`.
pub open spec fn minted(before: Contract, after: Contract, account: Seq<char>, amount: nat) -> bool {
    &&& before.ledger().registered(account)
    &&& after.ledger().balances() == before.ledger().balances().insert(
        account,
        before.ledger().balance(account) + amount,
    )
    &&& after.ledger().supply() == before.ledger().supply() + amount
    &&& after.same_settings(before)
}

/// `after` is `before` with `amount` burned from `account`.
pub open spec fn burned(before: Contract, after: Contract, account: Seq<char>, amount: nat) -> bool {
    &&& before.ledger().registered(account)
    &&& amount <= before.ledger().balance(account)
    &&& after.ledger().balances() == before.ledger().balances().insert(
        account,
        (before.ledger().balance(account) - amount) as nat,
    )
    &&& after.ledger().supply() == before.ledger().supply() - amount
    &&& after.same_settings(before)
}

/// `after` is `before` with `amount` moved from `sender` to `receiver`.
pub open spec fn transferred(
    before: Contract,
    after: Contract,
    sender: Seq<char>,
    receiver: Seq<char>,
    amount: nat,
) -> bool {
    &&& after.ledger().balances() == before.ledger().balances().insert(
        sender,
        (before.ledger().balance(sender) - amount) as nat,
    ).insert(receiver, before.ledger().balance(receiver) + amount)
    &&& after.ledger().supply() == before.ledger().supply()
    &&& after.same_settings(before)
}

/// The storage balance of an account registered under `policy`: its deposit, none of it free.
pub open spec fn registered_storage(policy: StoragePolicy) -> StorageBalance {
    StorageBalance { total: policy.registration_cost() as u128, available: 0 }
}

/// A transfer leaves the sum of the two balances as it was, and takes exactly the amount from
/// the sender.
pub proof fn lemma_transfer_conserves(
    c0: Contract,
    c1: Contract,
    sender: Seq<char>,
    receiver: Seq<char>,
    amount: nat,
)
    requires
        c0.ledger().transfer_refusal(sender, receiver, amount) is None,
        transferred(c0, c1, sender, receiver, amount),
    ensures
        c1.ledger().balance(sender) + c1.ledger().balance(receiver) == c0.ledger().balance(sender)
            + c0.ledger().balance(receiver),
        c1.ledger().balance(sender) == c0.ledger().balance(sender) - amount,
        c1.ledger().supply() == c0.ledger().supply(),
{
    c0.ledger().lemma_balances(sender);
    c0.ledger().lemma_balances(receiver);
    c1.ledger().lemma_balances(sender);
    c1.ledger().lemma_balances(receiver);
}

/// Minting an amount and then burning it from the same account gives back the balances and
/// the total supply from before.
pub proof fn lemma_mint_then_burn(
    c0: Contract,
    c1: Contract,
    c2: Contract,
    account: Seq<char>,
    amount: nat,
)
    requires
        minted(c0, c1, account, amount),
        burned(c1, c2, account, amount),
    ensures
        c2.ledger().balances() == c0.ledger().balances(),
        c2.ledger().supply() == c0.ledger().supply(),
        c2.same_settings(c0),
{
    let m0 = c0.ledger().balances();
    assert(m0.dom().contains(account));
    assert(c1.ledger().balances().dom().contains(account));
    assert(c1.ledger().balance(account) == c1.ledger().balances()[account]);
    assert(c2.ledger().balances() =~= m0);
}

impl Contract {
    pub closed spec fn ledger(&self) -> Ledger {
        self.token
    }

    pub closed spec fn policy(&self) -> StoragePolicy {
        self.storage
    }

    pub closed spec fn meta(&self) -> FungibleTokenMetadata {
        self.metadata
    }

    pub closed spec fn owner(&self) -> Seq<char> {
        self.owner_id@
    }

    /// The minters, in the order they are listed.
    pub closed spec fn minter_list(&self) -> Seq<Seq<char>> {
        self.minters@.map_values(|m: String| m@)
    }

    pub open spec fn is_minter(&self, account: Seq<char>) -> bool {
        self.minter_list().contains(account)
    }

    /// The owner, the minters and the storage price are those of `other`.
    pub open spec fn same_settings(&self, other: Contract) -> bool {
        &&& self.owner() == other.owner()
        &&& self.minter_list() == other.minter_list()
        &&& self.policy() == other.policy()
    }

    /// The ledger is consistent, the storage price representable, and no minter listed twice.
    pub open spec fn wf(&self) -> bool {
        &&& self.ledger().wf()
        &&& self.policy().wf()
        &&& self.minter_list().no_duplicates()
    }

    /// A token whose `owner_id` holds all of `total_supply`, with the given metadata.
    pub fn new(
        owner_id: String,
        total_supply: u128,
        metadata: FungibleTokenMetadata,
        storage: StoragePolicy,
    ) -> (r: Contract)
        requires
            storage.wf(),
        ensures
            r.wf(),
            r.ledger().balances() == Map::<Seq<char>, nat>::empty().insert(owner_id@, total_supply as nat),
            r.ledger().supply() == total_supply,
            r.owner() == owner_id@,
            r.minter_list() == Seq::<Seq<char>>::empty(),
            r.policy() == storage,
    {
        let mut token = Ledger::new();
        assert(!token.balances().dom().contains(owner_id@));
        let registered = token.register(&owner_id);
        assert(registered is Ok);
        proof {
            token.lemma_balances(owner_id@);
        }
        let deposited = token.deposit(&owner_id, total_supply);
        assert(deposited is Ok);
        assert(token.balances() =~= Map::<Seq<char>, nat>::empty().insert(owner_id@, total_supply as nat));
        let r = Contract { token, storage, metadata, owner_id, minters: Vec::new() };
        assert(r.minter_list() =~= Seq::<Seq<char>>::empty());
        r
    }

    /// A token whose `owner_id` holds all of `total_supply`, with this token's own metadata.
    pub fn new_default_meta(owner_id: String, total_supply: u128, storage: StoragePolicy) -> (r:
        Contract)
        requires
            storage.wf(),
        ensures
            r.wf(),
            r.ledger().balances() == Map::<Seq<char>, nat>::empty().insert(owner_id@, total_supply as nat),
            r.ledger().supply() == total_supply,
            r.owner() == owner_id@,
            r.minter_list() == Seq::<Seq<char>>::empty(),
            r.policy() == storage,
    {
        let metadata = FungibleTokenMetadata {
            spec: FT_METADATA_SPEC.to_string(),
            name: "metapool.app DAO Governance Token".to_string(),
            symbol: "mpDAO".to_string(),
            icon: Some(DATA_IMAGE_SVG_ICON.to_string()),
            reference: None,
            reference_hash: None,
            decimals: 6,
        };
        Self::new(owner_id, total_supply, metadata, storage)
    }

    fn minter_index(&self, account: &String) -> (r: Option<usize>)
        ensures
            match r {
                Some(i) => i < self.minters.len() && self.minter_list()[i as int] == account@,
                None => !self.is_minter(account@),
            },
    {
        let mut i: usize = 0;
        while i < self.minters.len()
            invariant
                i <= self.minters.len(),
                self.minter_list().len() == self.minters.len(),
                forall|j: int| 0 <= j < i ==> #[trigger] self.minter_list()[j] != account@,
            decreases self.minters.len() - i,
        {
            if self.minters[i] == *account {
                return Some(i);
            }
            i += 1;
        }
        None
    }

    /// The owner's account.
    pub fn get_owner_id(&self) -> (r: String)
        ensures
            r@ == self.owner(),
    {
        self.owner_id.clone()
    }

    /// Hands the token over to `owner_id`; only the owner may, with exactly one unit attached.
    pub fn set_owner_id(&mut self, ctx: &CallContext, owner_id: String) -> (r: Result<
        (),
        TokenError,
    >)
        requires
            old(self).wf(),
        ensures
            final(self).wf(),
            match r {
                Ok(()) => {
                    &&& ctx.attached_deposit == 1
                    &&& ctx.predecessor_account_id@ == old(self).owner()
                    &&& final(self).owner() == owner_id@
                    &&& final(self).ledger() == old(self).ledger()
                    &&& final(self).minter_list() == old(self).minter_list()
                    &&& final(self).policy() == old(self).policy()
                },
                Err(e) => {
                    &&& *final(self) == *old(self)
                    &&& e == TokenError::MissingExactPayment <==> ctx.attached_deposit != 1
                    &&& e == TokenError::NotOwner <==> (ctx.attached_deposit == 1
                        && ctx.predecessor_account_id@ != old(self).owner())
                    &&& e == TokenError::MissingExactPayment || e == TokenError::NotOwner
                },
            },
    {
        assert_one_yocto(ctx)?;
        if ctx.predecessor_account_id != self.owner_id {
            return Err(TokenError::NotOwner);
        }
        self.owner_id = owner_id;
        Ok(())
    }

    /// Adds `account_id` to the minters; only the owner may, with exactly one unit attached.
    pub fn add_minter(&mut self, ctx: &CallContext, account_id: String) -> (r: Result<
        (),
        TokenError,
    >)
        requires
            old(self).wf(),
        ensures
            final(self).wf(),
            match r {
                Ok(()) => {
                    &&& ctx.attached_deposit == 1
                    &&& ctx.predecessor_account_id@ == old(self).owner()
                    &&& !old(self).is_minter(account_id@)
                    &&& final(self).minter_list() == old(self).minter_list().push(account_id@)
                    &&& final(self).ledger() == old(self).ledger()
                    &&& final(self).owner() == old(self).owner()
                    &&& final(self).policy() == old(self).policy()
                },
                Err(e) => {
                    &&& *final(self) == *old(self)
                    &&& e == TokenError::MissingExactPayment <==> ctx.attached_deposit != 1
                    &&& e == TokenError::NotOwner <==> (ctx.attached_deposit == 1
                        && ctx.predecessor_account_id@ != old(self).owner())
                    &&& e == TokenError::DuplicateMinter <==> (ctx.attached_deposit == 1
                        && ctx.predecessor_account_id@ == old(self).owner() && old(self).is_minter(
                        account_id@,
                    ))
                    &&& e == TokenError::MissingExactPayment || e == TokenError::NotOwner || e
                        == TokenError::DuplicateMinter
                },
            },
    {
        assert_one_yocto(ctx)?;
        if ctx.predecessor_account_id != self.owner_id {
            return Err(TokenError::NotOwner);
        }
        if self.minter_index(&account_id).is_some() {
            return Err(TokenError::DuplicateMinter);
        }
        let ghost before = self.minter_list();
        self.minters.push(account_id);
        assert(self.minter_list() =~= before.push(account_id@));
        Ok(())
    }

    /// Takes `account_id` off the minters; only the owner may, with exactly one unit attached.
    /// The last minter listed takes the place of the one removed.
    pub fn remove_minter(&mut self, ctx: &CallContext, account_id: &String) -> (r: Result<
        (),
        TokenError,
    >)
        requires
            old(self).wf(),
        ensures
            final(self).wf(),
            match r {
                Ok(()) => {
                    &&& ctx.attached_deposit == 1
                    &&& ctx.predecessor_account_id@ == old(self).owner()
                    &&& exists|i: int|
                        0 <= i < old(self).minter_list().len() && old(self).minter_list()[i]
                            == account_id@ && final(self).minter_list() == old(
                            self,
                        ).minter_list().update(i, old(self).minter_list().last()).drop_last()
                    &&& forall|a: Seq<char>| #[trigger]
                        final(self).is_minter(a) == (old(self).is_minter(a) && a != account_id@)
                    &&& final(self).ledger() == old(self).ledger()
                    &&& final(self).owner() == old(self).owner()
                    &&& final(self).policy() == old(self).policy()
                },
                Err(e) => {
                    &&& *final(self) == *old(self)
                    &&& e == TokenError::MissingExactPayment <==> ctx.attached_deposit != 1
                    &&& e == TokenError::NotOwner <==> (ctx.attached_deposit == 1
                        && ctx.predecessor_account_id@ != old(self).owner())
                    &&& e == TokenError::NotAMinter <==> (ctx.attached_deposit == 1
                        && ctx.predecessor_account_id@ == old(self).owner() && !old(
                        self,
                    ).is_minter(account_id@))
                    &&& e == TokenError::MissingExactPayment || e == TokenError::NotOwner || e
                        == TokenError::NotAMinter
                },
            },
    {
        assert_one_yocto(ctx)?;
        if ctx.predecessor_account_id != self.owner_id {
            return Err(TokenError::NotOwner);
        }
        match self.minter_index(account_id) {
            None => Err(TokenError::NotAMinter),
            Some(i) => {
                let ghost before = self.minter_list();
                self.minters.swap_remove(i);
                let ghost after = before.update(i as int, before.last()).drop_last();
                assert(self.minter_list() =~= after);
                let ghost n = before.len() - 1;
                assert forall|x: int| 0 <= x < after.len() implies #[trigger] after[x] == before[if x
                    == i { n } else { x }] by {}
                assert(after.no_duplicates()) by {
                    assert forall|a: int, b: int|
                        0 <= a < after.len() && 0 <= b < after.len() && a != b implies after[a]
                        != after[b] by {
                        let sa = if a == i { n } else { a };
                        let sb = if b == i { n } else { b };
                        assert(before[sa] != before[sb]);
                    }
                }
                assert forall|a: Seq<char>| #[trigger]
                    after.contains(a) == (before.contains(a) && a != account_id@) by {
                    if after.contains(a) {
                        let x = choose|x: int| 0 <= x < after.len() && after[x] == a;
                        let sx = if x == i { n } else { x };
                        assert(before[sx] == a);
                        assert(sx != i);
                    }
                    if before.contains(a) && a != account_id@ {
                        let x = choose|x: int| 0 <= x < before.len() && before[x] == a;
                        if x == n {
                            assert(after[i as int] == a);
                        } else {
                            assert(after[x] == a);
                        }
                    }
                }
                Ok(())
            },
        }
    }

    /// The minters, in the order they are listed.
    pub fn get_minters(&self) -> (r: Vec<String>)
        ensures
            r@.map_values(|m: String| m@) == self.minter_list(),
    {
        let mut r: Vec<String> = Vec::new();
        let mut i: usize = 0;
        while i < self.minters.len()
            invariant
                i <= self.minters.len(),
                r@.len() == i,
                forall|j: int| 0 <= j < i ==> #[trigger] r@[j] == self.minters@[j],
            decreases self.minters.len() - i,
        {
            r.push(self.minters[i].clone());
            i += 1;
        }
        assert(r@.map_values(|m: String| m@) =~= self.minter_list());
        r
    }

    /// Refuses an account that is not a minter.
    pub fn assert_minter(&self, account_id: &String) -> (r: Result<(), TokenError>)
        ensures
            r is Ok <==> self.is_minter(account_id@),
            r is Err ==> r == Err::<(), TokenError>(TokenError::NotMinter),
    {
        if self.minter_index(account_id).is_some() {
            Ok(())
        } else {
            Err(TokenError::NotMinter)
        }
    }

    /// Mints `amount` to the caller, who must be a minter and attach exactly one unit.
    pub fn ft_mint(&mut self, ctx: &CallContext, amount: u128) -> (r: Result<(), TokenError>)
        requires
            old(self).wf(),
        ensures
            final(self).wf(),
            match r {
                Ok(()) => {
                    &&& ctx.attached_deposit == 1
                    &&& old(self).is_minter(ctx.predecessor_account_id@)
                    &&& old(self).ledger().supply() + amount <= u128::MAX
                    &&& minted(*old(self), *final(self), ctx.predecessor_account_id@, amount as nat)
                },
                Err(e) => {
                    &&& *final(self) == *old(self)
                    &&& e == TokenError::MissingExactPayment <==> ctx.attached_deposit != 1
                    &&& e == TokenError::NotMinter <==> (ctx.attached_deposit == 1 && !old(
                        self,
                    ).is_minter(ctx.predecessor_account_id@))
                    &&& e == TokenError::NotRegistered <==> (ctx.attached_deposit == 1 && old(
                        self,
                    ).is_minter(ctx.predecessor_account_id@) && !old(self).ledger().registered(
                        ctx.predecessor_account_id@,
                    ))
                    &&& e == TokenError::Overflow <==> (ctx.attached_deposit == 1 && old(
                        self,
                    ).is_minter(ctx.predecessor_account_id@) && old(self).ledger().registered(
                        ctx.predecessor_account_id@,
                    ) && old(self).ledger().supply() + amount > u128::MAX)
                    &&& e == TokenError::MissingExactPayment || e == TokenError::NotMinter || e
                        == TokenError::NotRegistered || e == TokenError::Overflow
                },
            },
    {
        assert_one_yocto(ctx)?;
        self.assert_minter(&ctx.predecessor_account_id)?;
        self.token.deposit(&ctx.predecessor_account_id, amount)
    }

    /// Burns `amount` of the caller's own tokens; the caller must attach exactly one unit.
    pub fn ft_burn(&mut self, ctx: &CallContext, amount: u128) -> (r: Result<(), TokenError>)
        requires
            old(self).wf(),
        ensures
            final(self).wf(),
            match r {
                Ok(()) => {
                    &&& ctx.attached_deposit == 1
                    &&& burned(*old(self), *final(self), ctx.predecessor_account_id@, amount as nat)
                },
                Err(e) => {
                    &&& *final(self) == *old(self)
                    &&& e == TokenError::MissingExactPayment <==> ctx.attached_deposit != 1
                    &&& e == TokenError::InsufficientBalance <==> (ctx.attached_deposit == 1 && (
                    !old(self).ledger().registered(ctx.predecessor_account_id@) || old(
                        self,
                    ).ledger().balance(ctx.predecessor_account_id@) < amount))
                    &&& e == TokenError::MissingExactPayment || e
                        == TokenError::InsufficientBalance
                },
            },
    {
        assert_one_yocto(ctx)?;
        self.token.withdraw(&ctx.predecessor_account_id, amount)
    }

    /// Moves `amount` of the caller's tokens to `receiver_id`; the caller must attach exactly
    /// one unit.
    pub fn ft_transfer(&mut self, ctx: &CallContext, receiver_id: &String, amount: u128) -> (r:
        Result<(), TokenError>)
        requires
            old(self).wf(),
        ensures
            final(self).wf(),
            match r {
                Ok(()) => {
                    &&& ctx.attached_deposit == 1
                    &&& old(self).ledger().transfer_refusal(ctx.predecessor_account_id@, receiver_id@, amount as nat) is None
                    &&& transferred(*old(self), *final(self), ctx.predecessor_account_id@, receiver_id@, amount as nat)
                },
                Err(e) => {
                    &&& *final(self) == *old(self)
                    &&& ctx.attached_deposit != 1 ==> e == TokenError::MissingExactPayment
                    &&& ctx.attached_deposit == 1 ==> old(self).ledger().transfer_refusal(
                        ctx.predecessor_account_id@,
                        receiver_id@,
                        amount as nat,
                    ) == Some(e)
                },
            },
    {
        assert_one_yocto(ctx)?;
        self.token.transfer(&ctx.predecessor_account_id, receiver_id, amount)
    }

    /// Moves `amount` of the caller's tokens to `receiver_id` at once, and hands back the
    /// transfer to settle once the receiver's hook has reported. The caller must attach exactly
    /// one unit.
    pub fn ft_transfer_call(&mut self, ctx: &CallContext, receiver_id: String, amount: u128) -> (r:
        Result<PendingTransfer, TokenError>)
        requires
            old(self).wf(),
        ensures
            final(self).wf(),
            match r {
                Ok(p) => {
                    &&& ctx.attached_deposit == 1
                    &&& old(self).ledger().transfer_refusal(ctx.predecessor_account_id@, receiver_id@, amount as nat) is None
                    &&& transferred(*old(self), *final(self), ctx.predecessor_account_id@, receiver_id@, amount as nat)
                    &&& p.sender_id@ == ctx.predecessor_account_id@
                    &&& p.receiver_id@ == receiver_id@
                    &&& p.amount == amount
                },
                Err(e) => {
                    &&& *final(self) == *old(self)
                    &&& ctx.attached_deposit != 1 ==> e == TokenError::MissingExactPayment
                    &&& ctx.attached_deposit == 1 ==> old(self).ledger().transfer_refusal(
                        ctx.predecessor_account_id@,
                        receiver_id@,
                        amount as nat,
                    ) == Some(e)
                },
            },
    {
        assert_one_yocto(ctx)?;
        self.token.transfer(&ctx.predecessor_account_id, &receiver_id, amount)?;
        Ok(
            PendingTransfer {
                sender_id: ctx.predecessor_account_id.clone(),
                receiver_id,
                amount,
            },
        )
    }

    /// Settles a call-style transfer once the receiver's hook has reported.
    pub fn ft_resolve_transfer(&mut self, pending: PendingTransfer, outcome: HookOutcome) -> (r:
        Resolution)
        requires
            old(self).wf(),
        ensures
            final(self).wf(),
            resolved(old(self).ledger(), final(self).ledger(), pending, outcome, r),
            final(self).same_settings(*old(self)),
    {
        resolve_transfer(&mut self.token, pending, outcome)
    }

    /// The sum of all balances.
    pub fn ft_total_supply(&self) -> (r: u128)
        ensures
            r == self.ledger().supply(),
    {
        self.token.total_supply()
    }

    /// The balance of `account_id`: zero where it is not registered.
    pub fn ft_balance_of(&self, account_id: &String) -> (r: u128)
        requires
            self.wf(),
        ensures
            r == self.ledger().balance(account_id@),
            !self.ledger().registered(account_id@) ==> r == 0,
    {
        self.token.balance_of(account_id)
    }

    /// What registering one account costs, least and most; the two are equal.
    pub fn storage_balance_bounds(&self) -> (r: StorageBalanceBounds)
        requires
            self.wf(),
        ensures
            r.min == self.policy().registration_cost(),
            r.max == Some(r.min),
    {
        let min = self.storage.registration_cost_exec();
        StorageBalanceBounds { min, max: Some(min) }
    }

    /// The storage balance of `account_id`, where it is registered.
    pub fn storage_balance_of(&self, account_id: &String) -> (r: Option<StorageBalance>)
        requires
            self.wf(),
        ensures
            r is Some <==> self.ledger().registered(account_id@),
            r is Some ==> r == Some(registered_storage(self.policy())),
    {
        if self.token.is_registered(account_id) {
            Some(StorageBalance { total: self.storage.registration_cost_exec(), available: 0 })
        } else {
            None
        }
    }

    /// Registers `account_id`, or the caller where it is `None`, paid from the deposit attached:
    /// the price of one account is kept and the rest goes back.
    pub fn storage_deposit(&mut self, ctx: &CallContext, account_id: Option<String>) -> (r: Result<
        StorageDeposit,
        TokenError,
    >)
        requires
            old(self).wf(),
        ensures
            final(self).wf(),
            ({
                let a = match account_id {
                    Some(x) => x@,
                    None => ctx.predecessor_account_id@,
                };
                let cost = old(self).policy().registration_cost();
                match r {
                    Ok(d) => {
                        &&& !old(self).ledger().registered(a)
                        &&& cost <= ctx.attached_deposit
                        &&& d.refund == ctx.attached_deposit - cost
                        &&& d.balance == registered_storage(old(self).policy())
                        &&& final(self).ledger().balances() == old(self).ledger().balances().insert(a, 0)
                        &&& final(self).ledger().supply() == old(self).ledger().supply()
                        &&& final(self).same_settings(*old(self))
                    },
                    Err(e) => {
                        &&& *final(self) == *old(self)
                        &&& e == TokenError::AlreadyRegistered <==> old(self).ledger().registered(a)
                        &&& e == TokenError::InsufficientStorageDeposit <==> (!old(self).ledger().registered(a)
                            && ctx.attached_deposit < cost)
                        &&& e == TokenError::AlreadyRegistered || e == TokenError::InsufficientStorageDeposit
                    },
                }
            }),
    {
        let account = match account_id {
            Some(x) => x,
            None => ctx.predecessor_account_id.clone(),
        };
        if self.token.is_registered(&account) {
            return Err(TokenError::AlreadyRegistered);
        }
        let cost = self.storage.registration_cost_exec();
        if ctx.attached_deposit < cost {
            return Err(TokenError::InsufficientStorageDeposit);
        }
        let registered = self.token.register(&account);
        assert(registered is Ok);
        Ok(
            StorageDeposit {
                balance: StorageBalance { total: cost, available: 0 },
                refund: ctx.attached_deposit - cost,
            },
        )
    }

    /// The caller's storage balance, of which nothing can be withdrawn: `amount`, where given,
    /// must be zero. The caller must attach exactly one unit.
    pub fn storage_withdraw(&self, ctx: &CallContext, amount: Option<u128>) -> (r: Result<
        StorageBalance,
        TokenError,
    >)
        requires
            self.wf(),
        ensures
            match r {
                Ok(b) => {
                    &&& ctx.attached_deposit == 1
                    &&& self.ledger().registered(ctx.predecessor_account_id@)
                    &&& (amount is None || amount == Some(0u128))
                    &&& b == registered_storage(self.policy())
                },
                Err(e) => {
                    &&& e == TokenError::MissingExactPayment <==> ctx.attached_deposit != 1
                    &&& e == TokenError::NotRegistered <==> (ctx.attached_deposit == 1
                        && !self.ledger().registered(ctx.predecessor_account_id@))
                    &&& e == TokenError::InvalidAmount <==> (ctx.attached_deposit == 1
                        && self.ledger().registered(ctx.predecessor_account_id@) && amount is Some
                        && amount != Some(0u128))
                    &&& e == TokenError::MissingExactPayment || e == TokenError::NotRegistered || e
                        == TokenError::InvalidAmount
                },
            },
    {
        assert_one_yocto(ctx)?;
        if !self.token.is_registered(&ctx.predecessor_account_id) {
            return Err(TokenError::NotRegistered);
        }
        match amount {
            Some(a) => if a > 0 {
                return Err(TokenError::InvalidAmount);
            },
            None => {},
        }
        Ok(StorageBalance { total: self.storage.registration_cost_exec(), available: 0 })
    }

    /// Closes the caller's account and gives back its storage deposit with the unit attached.
    /// An account that still holds tokens is closed only where `force` is `Some(true)`; what it
    /// held is burned. The caller must attach exactly one unit.
    pub fn storage_unregister(&mut self, ctx: &CallContext, force: Option<bool>) -> (r: Result<
        UnregisterOutcome,
        TokenError,
    >)
        requires
            old(self).wf(),
        ensures
            final(self).wf(),
            ({
                let a = ctx.predecessor_account_id@;
                let held = old(self).ledger().balance(a);
                let forced = force == Some(true);
                match r {
                    Ok(UnregisterOutcome::NotRegistered) => {
                        &&& ctx.attached_deposit == 1
                        &&& !old(self).ledger().registered(a)
                        &&& *final(self) == *old(self)
                    },
                    Ok(UnregisterOutcome::Closed { burned, refund }) => {
                        &&& ctx.attached_deposit == 1
                        &&& old(self).ledger().registered(a)
                        &&& (held == 0 || forced)
                        &&& burned == held
                        &&& refund == old(self).policy().registration_cost() + 1
                        &&& final(self).ledger().balances() == old(self).ledger().balances().remove(a)
                        &&& final(self).ledger().supply() == old(self).ledger().supply() - held
                        &&& final(self).same_settings(*old(self))
                    },
                    Err(e) => {
                        &&& *final(self) == *old(self)
                        &&& e == TokenError::MissingExactPayment <==> ctx.attached_deposit != 1
                        &&& e == TokenError::NonZeroBalance <==> (ctx.attached_deposit == 1
                            && old(self).ledger().registered(a) && held > 0 && !forced)
                        &&& e == TokenError::MissingExactPayment || e == TokenError::NonZeroBalance
                    },
                }
            }),
    {
        assert_one_yocto(ctx)?;
        let account = &ctx.predecessor_account_id;
        if !self.token.is_registered(account) {
            return Ok(UnregisterOutcome::NotRegistered);
        }
        let forced = match force {
            Some(f) => f,
            None => false,
        };
        if self.token.balance_of(account) > 0 && !forced {
            return Err(TokenError::NonZeroBalance);
        }
        let refund = self.storage.registration_cost_exec() + 1;
        match self.token.remove(account) {
            Some(burned) => Ok(UnregisterOutcome::Closed { burned, refund }),
            None => Ok(UnregisterOutcome::NotRegistered),
        }
    }

    /// The token's metadata.
    pub fn ft_metadata(&self) -> (r: FungibleTokenMetadata)
        ensures
            r.spec@ == self.meta().spec@,
            r.name@ == self.meta().name@,
            r.symbol@ == self.meta().symbol@,
            r.icon == self.meta().icon,
            r.reference == self.meta().reference,
            match (r.reference_hash, self.meta().reference_hash) {
                (Some(a), Some(b)) => a@ == b@,
                (None, None) => true,
                _ => false,
            },
            r.decimals == self.meta().decimals,
    {
        let m = &self.metadata;
        FungibleTokenMetadata {
            spec: m.spec.clone(),
            name: m.name.clone(),
            symbol: m.symbol.clone(),
            icon: match &m.icon {
                Some(s) => Some(s.clone()),
                None => None,
            },
            reference: match &m.reference {
                Some(s) => Some(s.clone()),
                None => None,
            },
            reference_hash: match &m.reference_hash {
                Some(h) => {
                    let c = h.clone();
                    assert(c@ =~= h@);
                    Some(c)
                },
                None => None,
            },
            decimals: m.decimals,
        }
    }
}

const DATA_IMAGE_SVG_ICON: &'static str = "data:image/svg+xml,%3csvg width='96' height='96' viewBox='0 0 96 96' fill='none' xmlns='http://www.w3.org/2000/svg'%3e%3crect width='96' height='96' rx='48' fill='white'/%3e%3cpath d='M29.2241 28.7456C28.396 27.9423 27.0094 28.5289 27.0091 29.6825L27 66.6773C26.9997 67.8501 28.4257 68.4286 29.2426 67.5872L48.6529 47.5943L29.2241 28.7456Z' fill='%23231B51'/%3e%3cpath d='M66.7759 28.7456C67.604 27.9423 68.9906 28.5289 68.9909 29.6825L69 66.6773C69.0003 67.8501 67.5743 68.4286 66.7574 67.5872L47.3471 47.5943L66.7759 28.7456Z' fill='%23231B51'/%3e%3c/svg%3e";

} // verus!
