use setlien::contract::SetLien;
use setlien::errors::Error;
use setlien::storage_types::LeaseState;
use setlien::token::Token;

const ADMIN: u64 = 1;
const LEASER: u64 = 2;
const RENTER: u64 = 3;
const OTHER: u64 = 4;
const TOKEN: u64 = 10;
const PAYMENT: u64 = 11;
const CONTRACT: u64 = 20;

const PRICE: i128 = 10;
const MAX_DURATION: u64 = 30 * 24 * 60 * 60;
const DURATION: u64 = 1 * 24 * 60 * 60;

/// A listed asset with funded parties, ready for `rent`.
fn listed() -> (SetLien, Token, Token) {
    let mut asset = Token::new(TOKEN, LEASER);
    asset.mint(LEASER, 1).unwrap();
    let mut payment = Token::new(PAYMENT, ADMIN);
    payment.mint(RENTER, 10).unwrap();
    let mut set_lien = SetLien::new(CONTRACT);
    set_lien.initialize(ADMIN, PAYMENT).unwrap();
    set_lien.lease(LEASER, TOKEN, PRICE, MAX_DURATION).unwrap();
    (set_lien, asset, payment)
}

/// A rented asset: `rent` has already run at time zero.
fn rented() -> (SetLien, Token, Token) {
    let (mut set_lien, mut asset, mut payment) = listed();
    set_lien
        .rent(&mut asset, &mut payment, RENTER, TOKEN, DURATION, 0)
        .unwrap();
    (set_lien, asset, payment)
}

#[test]
fn second_lease_rejected_while_listed() {
    let (mut set_lien, _asset, _payment) = listed();
    let r = set_lien.lease(OTHER, TOKEN, 99, 7);
    assert_eq!(Err(Error::LeaseAlreadyExists), r);
    // the existing record is untouched
    let lease = set_lien.get_lease(TOKEN).unwrap();
    assert_eq!(LeaseState::Listed, lease.state);
    assert_eq!(LEASER, lease.leasing.leaser);
    assert_eq!(PRICE, lease.leasing.price);
    assert_eq!(MAX_DURATION, lease.leasing.max_duration);
}

#[test]
fn second_lease_rejected_while_rented() {
    let (mut set_lien, _asset, _payment) = rented();
    let r = set_lien.lease(OTHER, TOKEN, 99, 7);
    assert_eq!(Err(Error::LeaseAlreadyExists), r);
    let lease = set_lien.get_lease(TOKEN).unwrap();
    assert_eq!(LeaseState::Rented, lease.state);
    assert_eq!(RENTER, lease.renting.unwrap().renter);
}

#[test]
fn rent_rejects_zero_and_excessive_duration() {
    let (mut set_lien, mut asset, mut payment) = listed();
    let r = set_lien.rent(&mut asset, &mut payment, RENTER, TOKEN, 0, 0);
    assert_eq!(Err(Error::InvalidDuration), r);
    let r = set_lien.rent(&mut asset, &mut payment, RENTER, TOKEN, MAX_DURATION + 1, 0);
    assert_eq!(Err(Error::InvalidDuration), r);
    // nothing moved, nothing rewritten
    assert_eq!(LeaseState::Listed, set_lien.get_lease(TOKEN).unwrap().state);
    assert_eq!(1, asset.balance(LEASER));
    assert_eq!(10, payment.balance(RENTER));
    assert_eq!(0, payment.balance(LEASER));
}

#[test]
fn rent_at_max_duration_accepted() {
    let (mut set_lien, mut asset, mut payment) = listed();
    set_lien
        .rent(&mut asset, &mut payment, RENTER, TOKEN, MAX_DURATION, 0)
        .unwrap();
    assert_eq!(LeaseState::Rented, set_lien.get_lease(TOKEN).unwrap().state);
}

#[test]
fn rent_requires_listed_record() {
    let (mut set_lien, mut asset, mut payment) = rented();
    let r = set_lien.rent(&mut asset, &mut payment, OTHER, TOKEN, DURATION, 0);
    assert_eq!(Err(Error::LeaseNotFound), r);
}

#[test]
fn rent_missing_asset_not_found() {
    let mut set_lien = SetLien::new(CONTRACT);
    set_lien.initialize(ADMIN, PAYMENT).unwrap();
    let mut asset = Token::new(TOKEN, LEASER);
    let mut payment = Token::new(PAYMENT, ADMIN);
    let r = set_lien.rent(&mut asset, &mut payment, RENTER, TOKEN, DURATION, 0);
    assert_eq!(Err(Error::LeaseNotFound), r);
}

#[test]
fn rent_without_payment_funds_fails_untouched() {
    let mut asset = Token::new(TOKEN, LEASER);
    asset.mint(LEASER, 1).unwrap();
    let mut payment = Token::new(PAYMENT, ADMIN);
    payment.mint(RENTER, PRICE - 1).unwrap();
    let mut set_lien = SetLien::new(CONTRACT);
    set_lien.initialize(ADMIN, PAYMENT).unwrap();
    set_lien.lease(LEASER, TOKEN, PRICE, MAX_DURATION).unwrap();
    let r = set_lien.rent(&mut asset, &mut payment, RENTER, TOKEN, DURATION, 0);
    assert_eq!(Err(Error::InsufficientBalance), r);
    assert_eq!(LeaseState::Listed, set_lien.get_lease(TOKEN).unwrap().state);
    assert_eq!(1, asset.balance(LEASER));
    assert_eq!(PRICE - 1, payment.balance(RENTER));
    assert_eq!(0, payment.allowance(RENTER, CONTRACT));
}

#[test]
fn rent_without_asset_unit_fails_untouched() {
    let mut asset = Token::new(TOKEN, LEASER);
    let mut payment = Token::new(PAYMENT, ADMIN);
    payment.mint(RENTER, 10).unwrap();
    let mut set_lien = SetLien::new(CONTRACT);
    set_lien.initialize(ADMIN, PAYMENT).unwrap();
    set_lien.lease(LEASER, TOKEN, PRICE, MAX_DURATION).unwrap();
    let r = set_lien.rent(&mut asset, &mut payment, RENTER, TOKEN, DURATION, 0);
    assert_eq!(Err(Error::InsufficientBalance), r);
    assert_eq!(LeaseState::Listed, set_lien.get_lease(TOKEN).unwrap().state);
    assert_eq!(10, payment.balance(RENTER));
}

#[test]
fn rent_leaves_residual_allowance() {
    // the pull approves twice the price, then consumes it once
    let (_set_lien, _asset, payment) = rented();
    assert_eq!(PRICE, payment.allowance(RENTER, CONTRACT));
}

#[test]
fn rent_before_initialize_fails() {
    let mut set_lien = SetLien::new(CONTRACT);
    let mut asset = Token::new(TOKEN, LEASER);
    asset.mint(LEASER, 1).unwrap();
    let mut payment = Token::new(PAYMENT, ADMIN);
    let r = set_lien.rent(&mut asset, &mut payment, RENTER, TOKEN, DURATION, 0);
    assert_eq!(Err(Error::NotInitialized), r);
}

#[test]
fn end_lease_wrong_caller_unauthorized() {
    let (mut set_lien, _asset, _payment) = listed();
    let r = set_lien.end_lease(OTHER, TOKEN);
    assert_eq!(Err(Error::Unauthorized), r);
    assert!(set_lien.has_lease(TOKEN));
}

#[test]
fn end_lease_on_rented_invalid_state() {
    let (mut set_lien, _asset, _payment) = rented();
    let r = set_lien.end_lease(LEASER, TOKEN);
    assert_eq!(Err(Error::InvalidState), r);
    assert!(set_lien.has_lease(TOKEN));
}

#[test]
fn end_lease_missing_not_found() {
    let mut set_lien = SetLien::new(CONTRACT);
    set_lien.initialize(ADMIN, PAYMENT).unwrap();
    let r = set_lien.end_lease(LEASER, TOKEN);
    assert_eq!(Err(Error::LeaseNotFound), r);
}

#[test]
fn end_rent_wrong_caller_unauthorized() {
    let (mut set_lien, mut asset, _payment) = rented();
    let r = set_lien.end_rent(&mut asset, OTHER, TOKEN);
    assert_eq!(Err(Error::Unauthorized), r);
    assert!(set_lien.has_lease(TOKEN));
    assert_eq!(1, asset.balance(RENTER));
}

#[test]
fn end_rent_on_listing_invalid_state() {
    let (mut set_lien, mut asset, _payment) = listed();
    let r = set_lien.end_rent(&mut asset, RENTER, TOKEN);
    assert_eq!(Err(Error::InvalidState), r);
}

#[test]
fn end_rent_keeps_payment_flat() {
    // the price is a flat fee: an early return refunds nothing
    let (mut set_lien, mut asset, payment) = rented();
    set_lien.end_rent(&mut asset, RENTER, TOKEN).unwrap();
    assert_eq!(0, payment.balance(RENTER));
    assert_eq!(PRICE, payment.balance(LEASER));
    assert_eq!(1, asset.balance(LEASER));
    assert_eq!(0, asset.balance(RENTER));
    assert!(!set_lien.has_lease(TOKEN));
}

#[test]
fn claim_before_expiry_not_expired() {
    let (mut set_lien, mut asset, _payment) = rented();
    let r = set_lien.claim_token(&mut asset, LEASER, TOKEN, false, DURATION - 1);
    assert_eq!(Err(Error::NotExpired), r);
    assert!(set_lien.has_lease(TOKEN));
    assert_eq!(1, asset.balance(RENTER));
}

#[test]
fn claim_at_expiry_succeeds() {
    let (mut set_lien, mut asset, payment) = rented();
    set_lien
        .claim_token(&mut asset, LEASER, TOKEN, false, DURATION)
        .unwrap();
    assert!(!set_lien.has_lease(TOKEN));
    assert_eq!(1, asset.balance(LEASER));
    assert_eq!(0, asset.balance(RENTER));
    // payment balances untouched
    assert_eq!(0, payment.balance(RENTER));
    assert_eq!(PRICE, payment.balance(LEASER));
}

#[test]
fn claim_wrong_caller_unauthorized() {
    let (mut set_lien, mut asset, _payment) = rented();
    let r = set_lien.claim_token(&mut asset, RENTER, TOKEN, false, DURATION);
    assert_eq!(Err(Error::Unauthorized), r);
}

#[test]
fn claim_on_listing_invalid_state() {
    let (mut set_lien, mut asset, _payment) = listed();
    let r = set_lien.claim_token(&mut asset, LEASER, TOKEN, false, DURATION);
    assert_eq!(Err(Error::InvalidState), r);
}

#[test]
fn claim_override_needs_escrow_as_admin() {
    let (mut set_lien, mut asset, _payment) = rented();
    // the escrow was never made the token's admin
    let r = set_lien.claim_token(&mut asset, LEASER, TOKEN, true, DURATION);
    assert_eq!(Err(Error::NotAuthorized), r);
    assert!(set_lien.has_lease(TOKEN));
}

#[test]
fn claim_override_forces_return() {
    let (mut set_lien, mut asset, _payment) = rented();
    asset.make_admin(LEASER, CONTRACT).unwrap();
    set_lien
        .claim_token(&mut asset, LEASER, TOKEN, true, DURATION)
        .unwrap();
    assert!(!set_lien.has_lease(TOKEN));
    assert_eq!(1, asset.balance(LEASER));
    assert_eq!(0, asset.balance(RENTER));
    // the override path re-authorizes the renter before forcing the return
    assert!(asset.is_authorized(RENTER));
}

#[test]
fn initialize_twice_rejected() {
    let mut set_lien = SetLien::new(CONTRACT);
    set_lien.initialize(ADMIN, PAYMENT).unwrap();
    let r = set_lien.initialize(OTHER, TOKEN);
    assert_eq!(Err(Error::AlreadyInitialized), r);
    assert_eq!(Ok(PAYMENT), set_lien.get_payment_token());
}

#[test]
fn payment_token_before_initialize() {
    let set_lien = SetLien::new(CONTRACT);
    assert_eq!(Err(Error::NotInitialized), set_lien.get_payment_token());
}

#[test]
fn relisting_after_termination() {
    // the machine is re-enterable: once the record is gone a new lease for
    // the same asset goes through
    let (mut set_lien, _asset, _payment) = listed();
    set_lien.end_lease(LEASER, TOKEN).unwrap();
    assert!(!set_lien.has_lease(TOKEN));
    set_lien.lease(OTHER, TOKEN, 5, 60).unwrap();
    let lease = set_lien.get_lease(TOKEN).unwrap();
    assert_eq!(OTHER, lease.leasing.leaser);
    assert_eq!(5, lease.leasing.price);
    assert_eq!(60, lease.leasing.max_duration);
}

#[test]
fn fresh_escrow_is_empty() {
    let set_lien = SetLien::new(CONTRACT);
    assert!(!set_lien.has_lease(TOKEN));
    assert_eq!(None, set_lien.get_lease(TOKEN));
    assert!(set_lien.get_all_listed().is_empty());
}

#[test]
fn free_listing_rents_without_payment_movement() {
    let mut asset = Token::new(TOKEN, LEASER);
    asset.mint(LEASER, 1).unwrap();
    let mut payment = Token::new(PAYMENT, ADMIN);
    let mut set_lien = SetLien::new(CONTRACT);
    set_lien.initialize(ADMIN, PAYMENT).unwrap();
    // a price of zero and the smallest legal duration bound
    set_lien.lease(LEASER, TOKEN, 0, 1).unwrap();
    set_lien.rent(&mut asset, &mut payment, RENTER, TOKEN, 1, 0).unwrap();
    assert_eq!(1, asset.balance(RENTER));
    assert_eq!(0, payment.balance(RENTER));
    assert_eq!(0, payment.balance(LEASER));
    assert_eq!(0, payment.allowance(RENTER, CONTRACT));
}

#[test]
fn get_all_listed_excludes_rented() {
    let mut set_lien = SetLien::new(CONTRACT);
    set_lien.initialize(ADMIN, PAYMENT).unwrap();
    set_lien.lease(LEASER, TOKEN, PRICE, MAX_DURATION).unwrap();
    let second_asset: u64 = 12;
    set_lien.lease(OTHER, second_asset, 3, 600).unwrap();

    let all = set_lien.get_all_listed();
    assert_eq!(2, all.len());
    assert!(all.iter().any(|e| e.0 == TOKEN));
    assert!(all.iter().any(|e| e.0 == second_asset));

    let mut asset = Token::new(TOKEN, LEASER);
    asset.mint(LEASER, 1).unwrap();
    let mut payment = Token::new(PAYMENT, ADMIN);
    payment.mint(RENTER, 10).unwrap();
    set_lien
        .rent(&mut asset, &mut payment, RENTER, TOKEN, DURATION, 0)
        .unwrap();

    let still_listed = set_lien.get_all_listed();
    assert_eq!(1, still_listed.len());
    assert_eq!(second_asset, still_listed[0].0);
    assert_eq!(LeaseState::Listed, still_listed[0].1.state);
}
