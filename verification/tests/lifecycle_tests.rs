use swap::error::SwapError;
use swap::ledger::Ledger;
use swap::state::Offer;

// Addresses, identities and mints used across the tests.
const MAKER: u64 = 100;
const TAKER: u64 = 200;
const MINT_A: u64 = 7;
const MINT_B: u64 = 8;
const MAKER_A: u64 = 1; // maker's account holding asset A
const MAKER_B: u64 = 4; // maker's account holding asset B
const TAKER_A: u64 = 3; // taker's account holding asset A
const TAKER_B: u64 = 2; // taker's account holding asset B

/// A ledger with the four accounts of the standard scenario: the maker holds
/// 500 A and no B, the taker holds `taker_b_funds` B and no A.
fn scenario_ledger(taker_b_funds: u64) -> Ledger {
    let mut l = Ledger::new();
    assert_eq!(l.create_account(MAKER_A, MAKER, MINT_A, 500), Ok(()));
    assert_eq!(l.create_account(TAKER_B, TAKER, MINT_B, taker_b_funds), Ok(()));
    assert_eq!(l.create_account(TAKER_A, TAKER, MINT_A, 0), Ok(()));
    assert_eq!(l.create_account(MAKER_B, MAKER, MINT_B, 0), Ok(()));
    l
}

fn total(l: &Ledger, mint: u64) -> u128 {
    let mut t: u128 = 0;
    for addr in [MAKER_A, MAKER_B, TAKER_A, TAKER_B] {
        if let Some(b) = l.balance_of(addr) {
            if mint == account_mint(addr) {
                t += b as u128;
            }
        }
    }
    if let Some(v) = l.vault_balance(MAKER, 1) {
        if mint == MINT_A {
            t += v as u128;
        }
    }
    t
}

fn account_mint(addr: u64) -> u64 {
    match addr {
        MAKER_A | TAKER_A => MINT_A,
        _ => MINT_B,
    }
}

#[test]
fn make_offer_locks_funds_and_records_offer() {
    // Maker offers 100 units of A wanting 50 units of B, id 1.
    let mut l = scenario_ledger(60);
    assert_eq!(l.make_offer(MAKER, 1, MAKER_A, MINT_A, MINT_B, 100, 50, 3), Ok(()));
    assert_eq!(l.balance_of(MAKER_A), Some(400));
    assert_eq!(l.vault_balance(MAKER, 1), Some(100));
    assert_eq!(
        l.get_offer(MAKER, 1),
        Some(Offer {
            id: 1,
            maker: MAKER,
            token_mint_a: MINT_A,
            token_mint_b: MINT_B,
            token_a_offered_amount: 100,
            token_b_wanted_amount: 50,
            bump: 3,
        })
    );
}

#[test]
fn take_offer_settles_both_legs_and_destroys_offer() {
    // The taker holds 60 B, enough to pay 50: ends with +100 A and -50 B,
    // the maker ends with +50 B, and offer and vault cease to exist.
    let mut l = scenario_ledger(60);
    assert_eq!(l.make_offer(MAKER, 1, MAKER_A, MINT_A, MINT_B, 100, 50, 3), Ok(()));
    assert_eq!(l.take_offer(MAKER, 1, TAKER, TAKER_A, TAKER_B, MAKER_B), Ok(()));
    assert_eq!(l.balance_of(TAKER_A), Some(100));
    assert_eq!(l.balance_of(TAKER_B), Some(10));
    assert_eq!(l.balance_of(MAKER_B), Some(50));
    assert_eq!(l.balance_of(MAKER_A), Some(400));
    assert_eq!(l.get_offer(MAKER, 1), None);
    assert_eq!(l.vault_balance(MAKER, 1), None);
}

#[test]
fn conservation_across_the_whole_lifecycle() {
    // The totals of both asset kinds are unchanged by every transition.
    let mut l = scenario_ledger(60);
    let a0 = total(&l, MINT_A);
    let b0 = total(&l, MINT_B);
    assert_eq!(l.make_offer(MAKER, 1, MAKER_A, MINT_A, MINT_B, 100, 50, 3), Ok(()));
    assert_eq!(total(&l, MINT_A), a0);
    assert_eq!(total(&l, MINT_B), b0);
    assert_eq!(l.take_offer(MAKER, 1, TAKER, TAKER_A, TAKER_B, MAKER_B), Ok(()));
    assert_eq!(total(&l, MINT_A), a0);
    assert_eq!(total(&l, MINT_B), b0);
    assert_eq!(a0, 500);
    assert_eq!(b0, 60);
}

#[test]
fn insufficient_taker_leaves_everything_in_place() {
    // A taker with only 30 B cannot pay 50: the operation fails, the offer
    // still exists with the vault still holding 100 A, and no balance moves.
    let mut l = scenario_ledger(30);
    assert_eq!(l.make_offer(MAKER, 1, MAKER_A, MINT_A, MINT_B, 100, 50, 3), Ok(()));
    assert_eq!(
        l.take_offer(MAKER, 1, TAKER, TAKER_A, TAKER_B, MAKER_B),
        Err(SwapError::InsufficientFunds)
    );
    assert!(l.get_offer(MAKER, 1).is_some());
    assert_eq!(l.vault_balance(MAKER, 1), Some(100));
    assert_eq!(l.balance_of(TAKER_B), Some(30));
    assert_eq!(l.balance_of(TAKER_A), Some(0));
    assert_eq!(l.balance_of(MAKER_B), Some(0));
    assert_eq!(l.balance_of(MAKER_A), Some(400));
}

#[test]
fn no_double_fulfillment() {
    // After a successful take_offer, a second attempt against the destroyed
    // offer fails with a state error and changes no balance.
    let mut l = scenario_ledger(120);
    assert_eq!(l.make_offer(MAKER, 1, MAKER_A, MINT_A, MINT_B, 100, 50, 3), Ok(()));
    assert_eq!(l.take_offer(MAKER, 1, TAKER, TAKER_A, TAKER_B, MAKER_B), Ok(()));
    assert_eq!(
        l.take_offer(MAKER, 1, TAKER, TAKER_A, TAKER_B, MAKER_B),
        Err(SwapError::OfferNotFound)
    );
    assert_eq!(l.balance_of(TAKER_A), Some(100));
    assert_eq!(l.balance_of(TAKER_B), Some(70));
    assert_eq!(l.balance_of(MAKER_B), Some(50));
}

#[test]
fn failed_make_offer_repeats_like_a_first_attempt() {
    // A failed creation leaves no record, so the same id can be resubmitted
    // and succeeds exactly as a first attempt would.
    let mut l = scenario_ledger(60);
    assert_eq!(
        l.make_offer(MAKER, 1, MAKER_A, MINT_A, MINT_B, 600, 50, 3),
        Err(SwapError::InsufficientFunds)
    );
    assert_eq!(l.get_offer(MAKER, 1), None);
    assert_eq!(l.balance_of(MAKER_A), Some(500));
    assert_eq!(l.make_offer(MAKER, 1, MAKER_A, MINT_A, MINT_B, 100, 50, 3), Ok(()));
    assert_eq!(l.vault_balance(MAKER, 1), Some(100));
}

#[test]
fn offer_ids_are_scoped_per_maker() {
    // Two makers may use the same id without colliding.
    let mut l = scenario_ledger(60);
    let other: u64 = 300;
    assert_eq!(l.create_account(9, other, MINT_A, 40), Ok(()));
    assert_eq!(l.make_offer(MAKER, 1, MAKER_A, MINT_A, MINT_B, 100, 50, 3), Ok(()));
    assert_eq!(l.make_offer(other, 1, 9, MINT_A, MINT_B, 40, 5, 4), Ok(()));
    assert_eq!(l.vault_balance(MAKER, 1), Some(100));
    assert_eq!(l.vault_balance(other, 1), Some(40));
}

#[test]
fn same_asset_offer_with_aliased_taker_accounts() {
    // The two asset kinds may coincide; the taker may then pay from the very
    // account that receives the release. Net effect: -wanted + offered.
    let mut l = Ledger::new();
    assert_eq!(l.create_account(1, MAKER, MINT_A, 500), Ok(()));
    assert_eq!(l.create_account(2, TAKER, MINT_A, 80), Ok(()));
    assert_eq!(l.create_account(4, MAKER, MINT_A, 0), Ok(()));
    assert_eq!(l.make_offer(MAKER, 1, 1, MINT_A, MINT_A, 100, 50, 0), Ok(()));
    assert_eq!(l.take_offer(MAKER, 1, TAKER, 2, 2, 4), Ok(()));
    assert_eq!(l.balance_of(2), Some(130));
    assert_eq!(l.balance_of(4), Some(50));
    assert_eq!(l.balance_of(1), Some(400));
}

#[test]
fn maker_may_take_their_own_offer() {
    // Taking one's own offer pays oneself and reclaims the locked funds.
    let mut l = scenario_ledger(60);
    assert_eq!(l.create_account(5, MAKER, MINT_B, 70), Ok(()));
    assert_eq!(l.make_offer(MAKER, 1, MAKER_A, MINT_A, MINT_B, 100, 50, 3), Ok(()));
    assert_eq!(l.create_account(6, MAKER, MINT_A, 0), Ok(()));
    assert_eq!(l.take_offer(MAKER, 1, MAKER, 6, 5, MAKER_B), Ok(()));
    assert_eq!(l.balance_of(6), Some(100));
    assert_eq!(l.balance_of(5), Some(20));
    assert_eq!(l.balance_of(MAKER_B), Some(50));
}

#[test]
fn id_is_reusable_after_fulfillment() {
    // Fulfillment destroys the record, so the maker may reuse the id.
    let mut l = scenario_ledger(120);
    assert_eq!(l.make_offer(MAKER, 1, MAKER_A, MINT_A, MINT_B, 100, 50, 3), Ok(()));
    assert_eq!(l.take_offer(MAKER, 1, TAKER, TAKER_A, TAKER_B, MAKER_B), Ok(()));
    assert_eq!(l.make_offer(MAKER, 1, MAKER_A, MINT_A, MINT_B, 200, 60, 5), Ok(()));
    assert_eq!(l.vault_balance(MAKER, 1), Some(200));
    assert_eq!(l.balance_of(MAKER_A), Some(200));
}

#[test]
fn offer_wanting_nothing_can_be_taken_freely() {
    // The wanted amount may be zero: the taker then pays nothing and still
    // receives the locked funds.
    let mut l = scenario_ledger(0);
    assert_eq!(l.make_offer(MAKER, 1, MAKER_A, MINT_A, MINT_B, 100, 0, 3), Ok(()));
    assert_eq!(l.take_offer(MAKER, 1, TAKER, TAKER_A, TAKER_B, MAKER_B), Ok(()));
    assert_eq!(l.balance_of(TAKER_A), Some(100));
    assert_eq!(l.balance_of(TAKER_B), Some(0));
    assert_eq!(l.balance_of(MAKER_B), Some(0));
}
