use mpdao_token::contract::{CallContext, Contract, UnregisterOutcome};
use mpdao_token::error::TokenError;
use mpdao_token::storage::{settle_storage, StorageBalance, StoragePolicy};
use mpdao_token::amount::parse_amount;
use mpdao_token::transfer::{outcome_from_unused, used_amount, HookOutcome, PendingTransfer};

const INITIAL_SUPPLY: u128 = 1_000_000_000_000_000;
const BYTE_COST: u128 = 10_000_000_000_000_000_000;
const ACCOUNT_BYTES: u64 = 125;

fn accounts(i: usize) -> String {
    ["alice", "bob", "charlie", "danny", "eugene", "fargo"][i].to_string()
}

fn policy() -> StoragePolicy {
    StoragePolicy::new(ACCOUNT_BYTES, BYTE_COST).unwrap()
}

fn ctx(who: String, attached_deposit: u128) -> CallContext {
    CallContext { predecessor_account_id: who, attached_deposit }
}

fn min_deposit(c: &Contract) -> u128 {
    c.storage_balance_bounds().min
}

fn register(c: &mut Contract, who: String) {
    let deposit = min_deposit(c);
    c.storage_deposit(&ctx(who, deposit), None).unwrap();
}

#[test]
fn test_new() {
    let contract = Contract::new_default_meta(accounts(1), INITIAL_SUPPLY, policy());
    assert_eq!(contract.ft_total_supply(), INITIAL_SUPPLY);
    assert_eq!(contract.ft_balance_of(&accounts(1)), INITIAL_SUPPLY);
}

#[test]
fn test_transfer() {
    let mut contract = Contract::new_default_meta(accounts(2), INITIAL_SUPPLY, policy());
    register(&mut contract, accounts(1));
    let transfer_amount = INITIAL_SUPPLY / 3;
    contract.ft_transfer(&ctx(accounts(2), 1), &accounts(1), transfer_amount).unwrap();
    assert_eq!(contract.ft_balance_of(&accounts(2)), INITIAL_SUPPLY - transfer_amount);
    assert_eq!(contract.ft_balance_of(&accounts(1)), transfer_amount);
}

#[test]
fn test_mint() {
    let mut contract = Contract::new_default_meta(accounts(2), INITIAL_SUPPLY, policy());
    contract.add_minter(&ctx(accounts(2), 1), accounts(3)).unwrap();
    register(&mut contract, accounts(3));
    let mint_amount = INITIAL_SUPPLY / 3;
    contract.ft_mint(&ctx(accounts(3), 1), mint_amount).unwrap();
    assert_eq!(contract.ft_balance_of(&accounts(3)), mint_amount);
}

#[test]
fn test_failed_mint() {
    let mut contract = Contract::new_default_meta(accounts(2), INITIAL_SUPPLY, policy());
    let mint_amount = INITIAL_SUPPLY / 3;
    assert_eq!(contract.ft_mint(&ctx(accounts(5), 1), mint_amount), Err(TokenError::NotMinter));
    assert_eq!(contract.ft_total_supply(), INITIAL_SUPPLY);
}

#[test]
fn test_burn() {
    let mut contract = Contract::new_default_meta(accounts(2), INITIAL_SUPPLY, policy());
    let burn_amount = INITIAL_SUPPLY / 3;
    contract.ft_burn(&ctx(accounts(2), 1), burn_amount).unwrap();
    assert_eq!(contract.ft_balance_of(&accounts(2)), INITIAL_SUPPLY - burn_amount);
    assert_eq!(contract.ft_total_supply(), INITIAL_SUPPLY - burn_amount);
}

#[test]
fn supply_is_sum_of_balances_after_several_calls() {
    let mut c = Contract::new_default_meta(accounts(0), 1000, policy());
    register(&mut c, accounts(1));
    register(&mut c, accounts(2));
    c.ft_transfer(&ctx(accounts(0), 1), &accounts(1), 300).unwrap();
    c.ft_transfer(&ctx(accounts(1), 1), &accounts(2), 100).unwrap();
    c.add_minter(&ctx(accounts(0), 1), accounts(2)).unwrap();
    c.ft_mint(&ctx(accounts(2), 1), 50).unwrap();
    c.ft_burn(&ctx(accounts(0), 1), 20).unwrap();
    let sum: u128 = (0..3).map(|i| c.ft_balance_of(&accounts(i))).sum();
    assert_eq!(c.ft_total_supply(), sum);
    assert_eq!(c.ft_total_supply(), 1030);
}

#[test]
fn unregistered_account_has_zero_balance() {
    let c = Contract::new_default_meta(accounts(0), 1000, policy());
    assert_eq!(c.ft_balance_of(&accounts(4)), 0);
    assert_eq!(c.storage_balance_of(&accounts(4)), None);
}

#[test]
fn registering_twice_fails_and_keeps_state() {
    let mut c = Contract::new_default_meta(accounts(0), 1000, policy());
    register(&mut c, accounts(1));
    let deposit = min_deposit(&c);
    let again = c.storage_deposit(&ctx(accounts(1), deposit), None);
    assert_eq!(again, Err(TokenError::AlreadyRegistered));
    assert_eq!(c.ft_balance_of(&accounts(1)), 0);
    assert_eq!(c.ft_total_supply(), 1000);
    let owner_again = c.storage_deposit(&ctx(accounts(3), deposit), Some(accounts(0)));
    assert_eq!(owner_again, Err(TokenError::AlreadyRegistered));
    assert_eq!(c.ft_balance_of(&accounts(0)), 1000);
}

#[test]
fn transfer_conserves_the_pair() {
    let mut c = Contract::new_default_meta(accounts(0), 1000, policy());
    register(&mut c, accounts(1));
    c.ft_transfer(&ctx(accounts(0), 1), &accounts(1), 250).unwrap();
    assert_eq!(c.ft_balance_of(&accounts(0)), 750);
    assert_eq!(c.ft_balance_of(&accounts(0)) + c.ft_balance_of(&accounts(1)), 1000);
    assert_eq!(c.ft_total_supply(), 1000);
}

#[test]
fn transfer_refusals() {
    let mut c = Contract::new_default_meta(accounts(0), 1000, policy());
    register(&mut c, accounts(1));
    let owner = ctx(accounts(0), 1);
    assert_eq!(c.ft_transfer(&owner, &accounts(0), 10), Err(TokenError::InvalidTransfer));
    assert_eq!(c.ft_transfer(&owner, &accounts(1), 0), Err(TokenError::InvalidTransfer));
    assert_eq!(c.ft_transfer(&owner, &accounts(1), 1001), Err(TokenError::InsufficientBalance));
    assert_eq!(c.ft_transfer(&owner, &accounts(4), 10), Err(TokenError::UnregisteredReceiver));
    assert_eq!(
        c.ft_transfer(&ctx(accounts(4), 1), &accounts(1), 10),
        Err(TokenError::InsufficientBalance)
    );
    assert_eq!(
        c.ft_transfer(&ctx(accounts(0), 0), &accounts(1), 10),
        Err(TokenError::MissingExactPayment)
    );
    assert_eq!(c.ft_balance_of(&accounts(0)), 1000);
    assert_eq!(c.ft_balance_of(&accounts(1)), 0);
}

#[test]
fn mint_then_burn_restores_state() {
    let mut c = Contract::new_default_meta(accounts(0), 1000, policy());
    c.add_minter(&ctx(accounts(0), 1), accounts(0)).unwrap();
    c.ft_mint(&ctx(accounts(0), 1), 400).unwrap();
    assert_eq!(c.ft_total_supply(), 1400);
    c.ft_burn(&ctx(accounts(0), 1), 400).unwrap();
    assert_eq!(c.ft_total_supply(), 1000);
    assert_eq!(c.ft_balance_of(&accounts(0)), 1000);
}

#[test]
fn mint_overflow_and_unregistered_minter() {
    let mut c = Contract::new_default_meta(accounts(0), u128::MAX - 5, policy());
    c.add_minter(&ctx(accounts(0), 1), accounts(0)).unwrap();
    c.add_minter(&ctx(accounts(0), 1), accounts(1)).unwrap();
    assert_eq!(c.ft_mint(&ctx(accounts(0), 1), 6), Err(TokenError::Overflow));
    assert_eq!(c.ft_mint(&ctx(accounts(1), 1), 1), Err(TokenError::NotRegistered));
    c.ft_mint(&ctx(accounts(0), 1), 5).unwrap();
    assert_eq!(c.ft_total_supply(), u128::MAX);
}

#[test]
fn burn_more_than_held_fails() {
    let mut c = Contract::new_default_meta(accounts(0), 10, policy());
    assert_eq!(c.ft_burn(&ctx(accounts(0), 1), 11), Err(TokenError::InsufficientBalance));
    assert_eq!(c.ft_burn(&ctx(accounts(0), 2), 1), Err(TokenError::MissingExactPayment));
    assert_eq!(c.ft_burn(&ctx(accounts(3), 1), 1), Err(TokenError::InsufficientBalance));
    assert_eq!(c.ft_total_supply(), 10);
}

#[test]
fn storage_deposit_exact_less_and_more() {
    let mut c = Contract::new_default_meta(accounts(0), 1000, policy());
    let min = min_deposit(&c);
    assert_eq!(min, 1_250_000_000_000_000_000_000);
    assert_eq!(c.storage_balance_bounds().max, Some(min));
    let exact = c.storage_deposit(&ctx(accounts(1), min), None).unwrap();
    assert_eq!(exact.refund, 0);
    assert_eq!(exact.balance, StorageBalance { total: min, available: 0 });
    let less = c.storage_deposit(&ctx(accounts(2), min - 1), None);
    assert_eq!(less, Err(TokenError::InsufficientStorageDeposit));
    assert_eq!(c.storage_balance_of(&accounts(2)), None);
    let more = c.storage_deposit(&ctx(accounts(2), min + 700), None).unwrap();
    assert_eq!(more.refund, 700);
    assert_eq!(c.storage_balance_of(&accounts(2)), Some(StorageBalance { total: min, available: 0 }));
}

#[test]
fn storage_deposit_for_another_account() {
    let mut c = Contract::new_default_meta(accounts(0), 1000, policy());
    let min = min_deposit(&c);
    c.storage_deposit(&ctx(accounts(0), min), Some(accounts(4))).unwrap();
    assert!(c.storage_balance_of(&accounts(4)).is_some());
    assert!(c.storage_balance_of(&accounts(0)).is_some());
}

#[test]
fn storage_withdraw_rules() {
    let mut c = Contract::new_default_meta(accounts(0), 1000, policy());
    let min = min_deposit(&c);
    register(&mut c, accounts(1));
    assert_eq!(
        c.storage_withdraw(&ctx(accounts(1), 1), None),
        Ok(StorageBalance { total: min, available: 0 })
    );
    assert_eq!(c.storage_withdraw(&ctx(accounts(1), 1), Some(5)), Err(TokenError::InvalidAmount));
    assert_eq!(c.storage_withdraw(&ctx(accounts(3), 1), None), Err(TokenError::NotRegistered));
    assert_eq!(c.storage_withdraw(&ctx(accounts(1), 0), None), Err(TokenError::MissingExactPayment));
}

#[test]
fn settle_storage_values() {
    assert_eq!(settle_storage(100, 110, 1000, 50), Ok(500));
    assert_eq!(settle_storage(100, 110, 499, 50), Err(TokenError::InsufficientStorageDeposit));
    assert_eq!(settle_storage(110, 100, 7, 50), Ok(507));
    assert_eq!(settle_storage(100, 100, 7, 50), Ok(7));
    assert_eq!(settle_storage(1, 0, u128::MAX, 1), Err(TokenError::Overflow));
    assert_eq!(settle_storage(0, u64::MAX, u128::MAX, u128::MAX), Err(TokenError::InsufficientStorageDeposit));
}

#[test]
fn storage_policy_rejects_unrepresentable_price() {
    assert!(StoragePolicy::new(2, u128::MAX / 2 + 1).is_none());
    let p = StoragePolicy::new(3, 7).unwrap();
    assert_eq!(p.registration_cost_exec(), 21);
    assert_eq!(p.account_storage_usage(), 3);
    assert_eq!(p.byte_cost(), 7);
}

#[test]
fn transfer_call_partly_used() {
    let mut c = Contract::new_default_meta(accounts(0), 100, policy());
    register(&mut c, accounts(1));
    let pending = c.ft_transfer_call(&ctx(accounts(0), 1), accounts(1), 100).unwrap();
    assert_eq!(c.ft_balance_of(&accounts(0)), 0);
    assert_eq!(c.ft_balance_of(&accounts(1)), 100);
    let r = c.ft_resolve_transfer(pending, HookOutcome::Used(60));
    assert_eq!(r.used_amount, 60);
    assert_eq!(r.refunded, 40);
    assert_eq!(r.burned, 0);
    assert_eq!(c.ft_balance_of(&accounts(0)), 40);
    assert_eq!(c.ft_balance_of(&accounts(1)), 60);
    assert_eq!(c.ft_total_supply(), 100);
}

#[test]
fn transfer_call_hook_failed() {
    let mut c = Contract::new_default_meta(accounts(0), 100, policy());
    register(&mut c, accounts(1));
    let pending = c.ft_transfer_call(&ctx(accounts(0), 1), accounts(1), 70).unwrap();
    let r = c.ft_resolve_transfer(pending, HookOutcome::Failed);
    assert_eq!(r.used_amount, 0);
    assert_eq!(r.refunded, 70);
    assert_eq!(c.ft_balance_of(&accounts(0)), 100);
    assert_eq!(c.ft_balance_of(&accounts(1)), 0);
}

#[test]
fn transfer_call_receiver_gone() {
    let mut c = Contract::new_default_meta(accounts(0), 100, policy());
    register(&mut c, accounts(1));
    let pending = c.ft_transfer_call(&ctx(accounts(0), 1), accounts(1), 30).unwrap();
    let closed = c.storage_unregister(&ctx(accounts(1), 1), Some(true)).unwrap();
    assert_eq!(closed, UnregisterOutcome::Closed { burned: 30, refund: min_deposit(&c) + 1 });
    let r = c.ft_resolve_transfer(pending, HookOutcome::Failed);
    assert_eq!(r.used_amount, 0);
    assert_eq!(r.refunded, 0);
    assert_eq!(r.burned, 0);
    assert_eq!(c.ft_balance_of(&accounts(0)), 70);
    assert_eq!(c.ft_total_supply(), 70);
}

#[test]
fn transfer_call_sender_gone_burns_refund() {
    let mut c = Contract::new_default_meta(accounts(0), 100, policy());
    register(&mut c, accounts(1));
    register(&mut c, accounts(2));
    c.ft_transfer(&ctx(accounts(0), 1), &accounts(2), 50).unwrap();
    let pending = c.ft_transfer_call(&ctx(accounts(2), 1), accounts(1), 50).unwrap();
    c.storage_unregister(&ctx(accounts(2), 1), None).unwrap();
    let r = c.ft_resolve_transfer(pending, HookOutcome::Used(20));
    assert_eq!(r.used_amount, 20);
    assert_eq!(r.refunded, 0);
    assert_eq!(r.burned, 30);
    assert_eq!(c.ft_balance_of(&accounts(1)), 20);
    assert_eq!(c.ft_total_supply(), 70);
}

#[test]
fn resolve_with_receiver_short_of_unused() {
    let mut c = Contract::new_default_meta(accounts(0), 100, policy());
    register(&mut c, accounts(1));
    register(&mut c, accounts(2));
    let pending = c.ft_transfer_call(&ctx(accounts(0), 1), accounts(1), 50).unwrap();
    c.ft_transfer(&ctx(accounts(1), 1), &accounts(2), 40).unwrap();
    let r = c.ft_resolve_transfer(pending, HookOutcome::Used(0));
    assert_eq!(r.used_amount, 0);
    assert_eq!(r.refunded, 10);
    assert_eq!(c.ft_balance_of(&accounts(0)), 60);
    assert_eq!(c.ft_balance_of(&accounts(1)), 0);
}

#[test]
fn resolve_built_by_hand() {
    let mut c = Contract::new_default_meta(accounts(0), 100, policy());
    let pending = PendingTransfer { sender_id: accounts(0), receiver_id: accounts(0), amount: 10 };
    let r = c.ft_resolve_transfer(pending, HookOutcome::Used(3));
    assert_eq!(r.used_amount, 3);
    assert_eq!(r.refunded, 7);
    assert_eq!(c.ft_balance_of(&accounts(0)), 100);
}

#[test]
fn used_amount_is_clamped() {
    assert_eq!(used_amount(100, HookOutcome::Used(60)), 60);
    assert_eq!(used_amount(100, HookOutcome::Used(600)), 100);
    assert_eq!(used_amount(100, HookOutcome::Failed), 0);
}

#[test]
fn access_control_refusals() {
    let mut c = Contract::new_default_meta(accounts(0), 100, policy());
    assert_eq!(c.add_minter(&ctx(accounts(1), 1), accounts(2)), Err(TokenError::NotOwner));
    assert_eq!(c.add_minter(&ctx(accounts(0), 0), accounts(2)), Err(TokenError::MissingExactPayment));
    assert_eq!(c.ft_mint(&ctx(accounts(2), 1), 5), Err(TokenError::NotMinter));
    assert_eq!(c.remove_minter(&ctx(accounts(0), 1), &accounts(2)), Err(TokenError::NotAMinter));
    c.add_minter(&ctx(accounts(0), 1), accounts(2)).unwrap();
    assert_eq!(c.add_minter(&ctx(accounts(0), 1), accounts(2)), Err(TokenError::DuplicateMinter));
    assert_eq!(c.remove_minter(&ctx(accounts(1), 1), &accounts(2)), Err(TokenError::NotOwner));
    assert_eq!(c.assert_minter(&accounts(2)), Ok(()));
    assert_eq!(c.assert_minter(&accounts(1)), Err(TokenError::NotMinter));
}

#[test]
fn minters_listing_and_removal() {
    let mut c = Contract::new_default_meta(accounts(0), 100, policy());
    let owner = ctx(accounts(0), 1);
    c.add_minter(&owner, accounts(1)).unwrap();
    c.add_minter(&owner, accounts(2)).unwrap();
    c.add_minter(&owner, accounts(3)).unwrap();
    assert_eq!(c.get_minters(), vec![accounts(1), accounts(2), accounts(3)]);
    c.remove_minter(&owner, &accounts(1)).unwrap();
    assert_eq!(c.get_minters(), vec![accounts(3), accounts(2)]);
    assert_eq!(c.assert_minter(&accounts(1)), Err(TokenError::NotMinter));
}

#[test]
fn owner_handover() {
    let mut c = Contract::new_default_meta(accounts(0), 100, policy());
    assert_eq!(c.set_owner_id(&ctx(accounts(1), 1), accounts(1)), Err(TokenError::NotOwner));
    assert_eq!(c.set_owner_id(&ctx(accounts(0), 0), accounts(1)), Err(TokenError::MissingExactPayment));
    c.set_owner_id(&ctx(accounts(0), 1), accounts(1)).unwrap();
    assert_eq!(c.get_owner_id(), accounts(1));
    assert_eq!(c.add_minter(&ctx(accounts(0), 1), accounts(2)), Err(TokenError::NotOwner));
    c.add_minter(&ctx(accounts(1), 1), accounts(2)).unwrap();
}

#[test]
fn forced_unregister_burns_balance() {
    let mut c = Contract::new_default_meta(accounts(0), 100, policy());
    register(&mut c, accounts(1));
    c.ft_transfer(&ctx(accounts(0), 1), &accounts(1), 30).unwrap();
    assert_eq!(c.storage_unregister(&ctx(accounts(1), 1), None), Err(TokenError::NonZeroBalance));
    assert_eq!(c.storage_unregister(&ctx(accounts(1), 1), Some(false)), Err(TokenError::NonZeroBalance));
    let closed = c.storage_unregister(&ctx(accounts(1), 1), Some(true)).unwrap();
    assert_eq!(closed, UnregisterOutcome::Closed { burned: 30, refund: min_deposit(&c) + 1 });
    assert_eq!(c.ft_total_supply(), 70);
    assert_eq!(c.storage_balance_of(&accounts(1)), None);
    assert_eq!(c.ft_balance_of(&accounts(1)), 0);
}

#[test]
fn unregister_without_account_or_payment() {
    let mut c = Contract::new_default_meta(accounts(0), 100, policy());
    assert_eq!(c.storage_unregister(&ctx(accounts(4), 1), None), Ok(UnregisterOutcome::NotRegistered));
    assert_eq!(c.storage_unregister(&ctx(accounts(0), 2), Some(true)), Err(TokenError::MissingExactPayment));
    register(&mut c, accounts(1));
    let closed = c.storage_unregister(&ctx(accounts(1), 1), None).unwrap();
    assert_eq!(closed, UnregisterOutcome::Closed { burned: 0, refund: min_deposit(&c) + 1 });
    assert_eq!(c.ft_total_supply(), 100);
}

#[test]
fn default_metadata() {
    let c = Contract::new_default_meta(accounts(0), 100, policy());
    let m = c.ft_metadata();
    assert_eq!(m.spec, "ft-1.0.0");
    assert_eq!(m.symbol, "mpDAO");
    assert_eq!(m.name, "metapool.app DAO Governance Token");
    assert_eq!(m.decimals, 6);
    assert!(m.icon.unwrap().starts_with("data:image/svg+xml"));
    assert_eq!(m.reference, None);
    assert_eq!(m.reference_hash, None);
}

#[test]
fn outcome_from_unused_report() {
    assert_eq!(outcome_from_unused(100, 40), HookOutcome::Used(60));
    assert_eq!(outcome_from_unused(100, 0), HookOutcome::Used(100));
    assert_eq!(outcome_from_unused(100, 250), HookOutcome::Used(0));
}

#[test]
fn parse_amount_values() {
    assert_eq!(parse_amount("100"), Ok(100));
    assert_eq!(parse_amount("0"), Ok(0));
    assert_eq!(parse_amount("007"), Ok(7));
    assert_eq!(parse_amount("340282366920938463463374607431768211455"), Ok(u128::MAX));
    assert_eq!(parse_amount("340282366920938463463374607431768211456"), Err(TokenError::InvalidAmount));
    assert_eq!(parse_amount(""), Err(TokenError::InvalidAmount));
    assert_eq!(parse_amount("-1"), Err(TokenError::InvalidAmount));
    assert_eq!(parse_amount("12a"), Err(TokenError::InvalidAmount));
    assert_eq!(parse_amount(" 1"), Err(TokenError::InvalidAmount));
}
