use swap::error::SwapError;
use swap::ledger::Ledger;
use swap::state::Authority;
use swap::state::TokenAccount;
use swap::transfer::transfer_tokens;

fn funded_ledger() -> Ledger {
    let mut l = Ledger::new();
    assert_eq!(l.create_account(1, 100, 7, 500), Ok(()));
    assert_eq!(l.create_account(2, 200, 8, 60), Ok(()));
    assert_eq!(l.create_account(3, 200, 7, 0), Ok(()));
    assert_eq!(l.create_account(4, 100, 8, 0), Ok(()));
    l
}

#[test]
fn create_account_rejects_taken_address() {
    let mut l = funded_ledger();
    assert_eq!(l.create_account(1, 300, 9, 1), Err(SwapError::AccountAlreadyExists));
    assert_eq!(l.balance_of(1), Some(500));
}

#[test]
fn make_offer_rejects_empty_custody() {
    let mut l = funded_ledger();
    assert_eq!(l.make_offer(100, 1, 1, 7, 8, 0, 50, 0), Err(SwapError::InvalidAmount));
    assert_eq!(l.get_offer(100, 1), None);
}

#[test]
fn make_offer_rejects_duplicate_id() {
    let mut l = funded_ledger();
    assert_eq!(l.make_offer(100, 1, 1, 7, 8, 100, 50, 0), Ok(()));
    assert_eq!(l.make_offer(100, 1, 1, 7, 8, 10, 5, 0), Err(SwapError::OfferAlreadyExists));
    assert_eq!(l.balance_of(1), Some(400));
    assert_eq!(l.vault_balance(100, 1), Some(100));
}

#[test]
fn make_offer_rejects_unknown_account() {
    let mut l = funded_ledger();
    assert_eq!(l.make_offer(100, 1, 99, 7, 8, 100, 50, 0), Err(SwapError::AccountNotFound));
}

#[test]
fn make_offer_rejects_wrong_asset_kind() {
    // Account 2 holds asset 8, not the declared asset 7.
    let mut l = funded_ledger();
    assert_eq!(l.make_offer(200, 1, 2, 7, 8, 10, 5, 0), Err(SwapError::MintMismatch));
}

#[test]
fn make_offer_rejects_missing_signature() {
    // Account 1 is registered to identity 100, not to the claimed maker 300.
    let mut l = funded_ledger();
    assert_eq!(l.make_offer(300, 1, 1, 7, 8, 100, 50, 0), Err(SwapError::NotAuthorized));
    assert_eq!(l.balance_of(1), Some(500));
}

#[test]
fn make_offer_rejects_insufficient_funds() {
    let mut l = funded_ledger();
    assert_eq!(l.make_offer(100, 1, 1, 7, 8, 501, 50, 0), Err(SwapError::InsufficientFunds));
    assert_eq!(l.balance_of(1), Some(500));
}

#[test]
fn take_offer_rejects_missing_offer() {
    let mut l = funded_ledger();
    assert_eq!(l.take_offer(100, 1, 200, 3, 2, 4), Err(SwapError::OfferNotFound));
}

#[test]
fn take_offer_rejects_aliased_payment_accounts() {
    let mut l = funded_ledger();
    assert_eq!(l.make_offer(100, 1, 1, 7, 8, 100, 50, 0), Ok(()));
    assert_eq!(l.take_offer(100, 1, 200, 3, 2, 2), Err(SwapError::DuplicateTokenAccount));
    assert_eq!(l.vault_balance(100, 1), Some(100));
}

#[test]
fn take_offer_rejects_unknown_accounts() {
    let mut l = funded_ledger();
    assert_eq!(l.make_offer(100, 1, 1, 7, 8, 100, 50, 0), Ok(()));
    assert_eq!(l.take_offer(100, 1, 200, 99, 2, 4), Err(SwapError::AccountNotFound));
    assert_eq!(l.take_offer(100, 1, 200, 3, 99, 4), Err(SwapError::AccountNotFound));
    assert_eq!(l.take_offer(100, 1, 200, 3, 2, 99), Err(SwapError::AccountNotFound));
}

#[test]
fn take_offer_rejects_foreign_maker_account() {
    // Account 2 belongs to the taker, not to the maker the offer names.
    let mut l = funded_ledger();
    assert_eq!(l.create_account(5, 200, 8, 10), Ok(()));
    assert_eq!(l.make_offer(100, 1, 1, 7, 8, 100, 50, 0), Ok(()));
    assert_eq!(l.take_offer(100, 1, 200, 3, 2, 5), Err(SwapError::NotAuthorized));
}

#[test]
fn take_offer_rejects_wrong_release_asset_kind() {
    // Account 2 holds asset 8; it cannot receive the released asset 7.
    let mut l = funded_ledger();
    assert_eq!(l.create_account(5, 200, 8, 10), Ok(()));
    assert_eq!(l.make_offer(100, 1, 1, 7, 8, 100, 50, 0), Ok(()));
    assert_eq!(l.take_offer(100, 1, 200, 5, 2, 4), Err(SwapError::MintMismatch));
}

#[test]
fn take_offer_rejects_unpayable_credit() {
    // The maker's receiving account is so full that the payment would
    // overflow its balance.
    let mut l = Ledger::new();
    assert_eq!(l.create_account(1, 100, 7, 500), Ok(()));
    assert_eq!(l.create_account(2, 200, 8, 60), Ok(()));
    assert_eq!(l.create_account(3, 200, 7, 0), Ok(()));
    assert_eq!(l.create_account(4, 100, 8, u64::MAX), Ok(()));
    assert_eq!(l.make_offer(100, 1, 1, 7, 8, 100, 50, 0), Ok(()));
    assert_eq!(l.take_offer(100, 1, 200, 3, 2, 4), Err(SwapError::AmountOverflow));
    assert_eq!(l.balance_of(2), Some(60));
    assert_eq!(l.vault_balance(100, 1), Some(100));
}

#[test]
fn transfer_tokens_moves_exact_amount() {
    let mut from = TokenAccount { authority: Authority::Signer(1), mint: 7, amount: 30 };
    let mut to = TokenAccount { authority: Authority::Signer(2), mint: 7, amount: 5 };
    assert_eq!(transfer_tokens(&mut from, &mut to, 12, 7, Authority::Signer(1)), Ok(()));
    assert_eq!(from.amount, 18);
    assert_eq!(to.amount, 17);
}

#[test]
fn transfer_tokens_checks_asset_kind_first() {
    let mut from = TokenAccount { authority: Authority::Signer(1), mint: 7, amount: 30 };
    let mut to = TokenAccount { authority: Authority::Signer(2), mint: 9, amount: 5 };
    assert_eq!(
        transfer_tokens(&mut from, &mut to, 12, 7, Authority::Signer(3)),
        Err(SwapError::MintMismatch)
    );
    assert_eq!(from.amount, 30);
    assert_eq!(to.amount, 5);
}

#[test]
fn transfer_tokens_checks_authority() {
    let mut from = TokenAccount { authority: Authority::Signer(1), mint: 7, amount: 30 };
    let mut to = TokenAccount { authority: Authority::Signer(2), mint: 7, amount: 5 };
    assert_eq!(
        transfer_tokens(&mut from, &mut to, 12, 7, Authority::Signer(2)),
        Err(SwapError::NotAuthorized)
    );
    assert_eq!(
        transfer_tokens(&mut from, &mut to, 12, 7, Authority::VaultAuthority { maker: 1, id: 1 }),
        Err(SwapError::NotAuthorized)
    );
    assert_eq!(from.amount, 30);
}

#[test]
fn transfer_tokens_checks_balance_and_overflow() {
    let mut from = TokenAccount { authority: Authority::Signer(1), mint: 7, amount: 30 };
    let mut to = TokenAccount { authority: Authority::Signer(2), mint: 7, amount: u64::MAX - 3 };
    assert_eq!(
        transfer_tokens(&mut from, &mut to, 31, 7, Authority::Signer(1)),
        Err(SwapError::InsufficientFunds)
    );
    assert_eq!(
        transfer_tokens(&mut from, &mut to, 4, 7, Authority::Signer(1)),
        Err(SwapError::AmountOverflow)
    );
    assert_eq!(transfer_tokens(&mut from, &mut to, 3, 7, Authority::Signer(1)), Ok(()));
    assert_eq!(to.amount, u64::MAX);
    assert_eq!(from.amount, 27);
}
