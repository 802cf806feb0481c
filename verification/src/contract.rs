//! The lease/rent/claim state machine and its ledger. Per asset identifier
//! the machine walks `∅ → Listed → Rented → ∅` (with `Listed → ∅` on
//! cancellation); `∅` — no record — is both the initial and the terminal
//! state, and the machine is re-enterable once a record is gone.
//!
//! Every operation takes the acting principal as an explicit argument; the
//! host's signature check that the invocation really comes from that
//! principal sits outside this crate. Time enters as an explicit ledger
//! timestamp.

use vstd::prelude::*;

use crate::errors::Error;
use crate::kv::KvMap;
use crate::storage_types::{Lease, LeaseState, Leasing, Renting};
use crate::token::{sat_add_i128, sat_double_i128, Token};

verus! {

/// Process-wide record set once at initialization.
#[derive(Clone, Copy, Debug, PartialEq, Eq, Structural)]
pub struct Config {
    pub admin: u64,
    /// Identifier of the fungible token rent is paid in.
    pub payment_token: u64,
}

/// The record a successful `lease` call writes.
pub open spec fn listed_lease(leaser: u64, price: i128, max_duration: u64) -> Lease {
    Lease {
        state: LeaseState::Listed,
        leasing: Leasing { leaser, price, max_duration },
        renting: None,
    }
}

/// The record a successful `rent` call writes over a listing.
pub open spec fn rented_lease(leasing: Leasing, renter: u64, duration: u64, now: u64) -> Lease {
    Lease {
        state: LeaseState::Rented,
        leasing,
        renting: Some(Renting { renter, rent_duration: duration, start_time: now }),
    }
}

/// The custodial escrow: its own ledger address, the one-time configuration,
/// and the lease ledger keyed by asset identifier.
pub struct SetLien {
    address: u64,
    config: Option<Config>,
    ledger: KvMap<Lease>,
}

impl SetLien {
    /// Ledger address of the escrow itself; pull transfers are approved to
    /// this principal.
    pub closed spec fn spec_address(&self) -> u64 {
        self.address
    }

    /// The configuration, present once `initialize` has run.
    pub closed spec fn spec_config(&self) -> Option<Config> {
        self.config
    }

    /// The lease ledger: at most one record per asset identifier.
    pub closed spec fn leases(&self) -> Map<u64, Lease> {
        self.ledger@
    }

    /// The backing store holds each asset identifier at most once.
    pub closed spec fn ledger_ok(&self) -> bool {
        self.ledger.wf()
    }

    /// Ledger soundness: the backing store is sound and every record obeys
    /// the record-level invariants (terms in range, renting half present
    /// exactly in the `Rented` state).
    pub open spec fn wf(&self) -> bool {
        &&& self.ledger_ok()
        &&& forall|a: u64|
            self.leases().contains_key(a) ==> (#[trigger] self.leases()[a]).wf()
    }

    /// A record for `asset` exists and is still a listing.
    pub open spec fn listed_at(&self, asset: u64) -> bool {
        &&& self.leases().contains_key(asset)
        &&& self.leases()[asset].state == LeaseState::Listed
    }

    /// A record for `asset` exists and is rented out.
    pub open spec fn rented_at(&self, asset: u64) -> bool {
        &&& self.leases().contains_key(asset)
        &&& self.leases()[asset].state == LeaseState::Rented
    }

    /// The ledger-side preconditions of `rent`: configured, listed, and a
    /// requested duration within the listing's bound.
    pub open spec fn rentable(&self, asset: u64, duration: u64) -> bool {
        &&& self.spec_config() is Some
        &&& self.listed_at(asset)
        &&& 0 < duration <= self.leases()[asset].leasing.max_duration
    }

    /// Everything `rent` needs to go through: the ledger-side preconditions
    /// and both token movements feasible.
    pub open spec fn rent_allowed(
        &self,
        asset_token: Token,
        payment: Token,
        renter: u64,
        asset: u64,
        duration: u64,
    ) -> bool {
        &&& self.rentable(asset, duration)
        &&& asset_token.can_transfer(self.leases()[asset].leasing.leaser, renter, 1)
        &&& payment.can_transfer(renter, self.leases()[asset].leasing.leaser, self.leases()[asset].leasing.price)
    }

    /// A fresh escrow: unconfigured, with an empty lease ledger.
    pub fn new(address: u64) -> (s: SetLien)
        ensures
            s.wf(),
            s.spec_address() == address,
            s.spec_config() is None,
            s.leases() == Map::<u64, Lease>::empty(),
            forall|a: u64| !(#[trigger] s.leases().contains_key(a)),
    {
        SetLien { address, config: None, ledger: KvMap::new() }
    }

    /// Stores the administrator and the payment-token identifier, once.
    /// A second call fails with `AlreadyInitialized` and changes nothing.
    pub fn initialize(&mut self, admin: u64, payment_token: u64) -> (r: Result<(), Error>)
        requires
            old(self).wf(),
        ensures
            final(self).wf(),
            r is Ok <==> old(self).spec_config() is None,
            r is Ok ==> final(self).spec_config() == Some(Config { admin, payment_token }),
            r is Err ==> *final(self) == *old(self) && r == Err::<(), Error>(
                Error::AlreadyInitialized,
            ),
            final(self).leases() == old(self).leases(),
            final(self).spec_address() == old(self).spec_address(),
    {
        if self.config.is_some() {
            return Err(Error::AlreadyInitialized);
        }
        self.config = Some(Config { admin, payment_token });
        proof {
            assert forall|a: u64| self.leases().contains_key(a) implies (
            #[trigger] self.leases()[a]).wf() by {
                assert(old(self).leases()[a].wf());
            }
        }
        Ok(())
    }

    /// The configured payment-token identifier; `NotInitialized` before
    /// `initialize` has run.
    pub fn get_payment_token(&self) -> (r: Result<u64, Error>)
        ensures
            r is Ok <==> self.spec_config() is Some,
            r is Ok ==> r->Ok_0 == self.spec_config()->Some_0.payment_token,
            r is Err ==> r == Err::<u64, Error>(Error::NotInitialized),
    {
        match &self.config {
            Some(c) => Ok(c.payment_token),
            None => Err(Error::NotInitialized),
        }
    }

    /// Lists one unit of `asset` for rental under the given terms. Purely a
    /// declaration: no asset or payment moves, custody stays with the
    /// leaser. Fails with `LeaseAlreadyExists` when a record — listed or
    /// rented — is already present for `asset`, leaving it untouched.
    pub fn lease(&mut self, leaser: u64, asset: u64, price: i128, max_duration: u64) -> (r: Result<
        (),
        Error,
    >)
        requires
            old(self).wf(),
            price >= 0,
            max_duration > 0,
        ensures
            final(self).wf(),
            r is Ok <==> !old(self).leases().contains_key(asset),
            r is Ok ==> final(self).leases() == old(self).leases().insert(
                asset,
                listed_lease(leaser, price, max_duration),
            ),
            r is Err ==> *final(self) == *old(self) && r == Err::<(), Error>(
                Error::LeaseAlreadyExists,
            ),
            final(self).spec_config() == old(self).spec_config(),
            final(self).spec_address() == old(self).spec_address(),
    {
        if self.ledger.contains_key(asset) {
            return Err(Error::LeaseAlreadyExists);
        }
        self.ledger.insert(
            asset,
            Lease {
                state: LeaseState::Listed,
                leasing: Leasing { leaser, price, max_duration },
                renting: None,
            },
        );
        proof {
            assert forall|a: u64| self.leases().contains_key(a) implies (
            #[trigger] self.leases()[a]).wf() by {
                if a != asset {
                    assert(old(self).leases().contains_key(a));
                    assert(old(self).leases()[a].wf());
                }
            }
        }
        Ok(())
    }

    /// Takes the listed rental of `asset`: moves the one asset unit from the
    /// leaser to the renter, pulls the listed price of the payment token from
    /// the renter to the leaser (approving twice the price to this escrow
    /// first, so residual headroom remains), and turns the record into a
    /// rental starting at `now`. All-or-nothing: any failure leaves the
    /// ledger and both tokens exactly as they were.
    pub fn rent(
        &mut self,
        asset_token: &mut Token,
        payment: &mut Token,
        renter: u64,
        asset: u64,
        duration: u64,
        now: u64,
    ) -> (r: Result<(), Error>)
        requires
            old(self).wf(),
            old(asset_token).wf(),
            old(payment).wf(),
            old(asset_token).spec_id() == asset,
            old(self).spec_config() matches Some(c) ==> old(payment).spec_id() == c.payment_token,
            old(asset_token).spec_id() != old(payment).spec_id(),
        ensures
            final(self).wf(),
            final(asset_token).wf(),
            final(payment).wf(),
            final(self).spec_config() == old(self).spec_config(),
            final(self).spec_address() == old(self).spec_address(),
            final(asset_token).same_meta(*old(asset_token)),
            final(payment).same_meta(*old(payment)),
            r is Ok <==> old(self).rent_allowed(
                *old(asset_token),
                *old(payment),
                renter,
                asset,
                duration,
            ),
            r is Ok ==> ({
                let l = old(self).leases()[asset];
                &&& final(self).leases() == old(self).leases().insert(
                    asset,
                    rented_lease(l.leasing, renter, duration, now),
                )
                &&& final(asset_token).moved(*old(asset_token), l.leasing.leaser, renter, 1)
                &&& final(asset_token).same_allowances(*old(asset_token))
                &&& final(asset_token).same_authorized(*old(asset_token))
                &&& final(payment).moved(*old(payment), renter, l.leasing.leaser, l.leasing.price)
                &&& final(payment).same_authorized(*old(payment))
                &&& final(payment).spec_allowance(renter, old(self).spec_address()) == sat_add_i128(
                    old(payment).spec_allowance(renter, old(self).spec_address()) as int,
                    sat_double_i128(l.leasing.price as int),
                ) - l.leasing.price
                &&& forall|f: u64, s: u64|
                    !(f == renter && s == old(self).spec_address())
                        ==> final(payment).spec_allowance(f, s) == old(payment).spec_allowance(f, s)
            }),
            r is Err ==> *final(self) == *old(self) && *final(asset_token) == *old(asset_token)
                && *final(payment) == *old(payment),
            old(self).spec_config() is None ==> r == Err::<(), Error>(Error::NotInitialized),
            old(self).spec_config() is Some && !old(self).listed_at(asset) ==> r == Err::<
                (),
                Error,
            >(Error::LeaseNotFound),
            old(self).spec_config() is Some && old(self).listed_at(asset) && !(0 < duration
                <= old(self).leases()[asset].leasing.max_duration) ==> r == Err::<(), Error>(
                Error::InvalidDuration,
            ),
            old(self).rentable(asset, duration) && !old(asset_token).can_transfer(
                old(self).leases()[asset].leasing.leaser,
                renter,
                1,
            ) ==> r == Err::<(), Error>(
                if old(asset_token).spec_balance(old(self).leases()[asset].leasing.leaser) < 1 {
                    Error::InsufficientBalance
                } else {
                    Error::BalanceOverflow
                },
            ),
            old(self).rentable(asset, duration) && old(asset_token).can_transfer(
                old(self).leases()[asset].leasing.leaser,
                renter,
                1,
            ) && !old(payment).can_transfer(
                renter,
                old(self).leases()[asset].leasing.leaser,
                old(self).leases()[asset].leasing.price,
            ) ==> r == Err::<(), Error>(
                if old(payment).spec_balance(renter) < old(self).leases()[asset].leasing.price {
                    Error::InsufficientBalance
                } else {
                    Error::BalanceOverflow
                },
            ),
    {
        if self.config.is_none() {
            return Err(Error::NotInitialized);
        }
        let l = match self.ledger.get(asset) {
            None => {
                return Err(Error::LeaseNotFound);
            },
            Some(l) => *l,
        };
        if !matches!(l.state, LeaseState::Listed) {
            return Err(Error::LeaseNotFound);
        }
        if duration == 0 || duration > l.leasing.max_duration {
            return Err(Error::InvalidDuration);
        }
        proof {
            assert(old(self).leases()[asset].wf());
        }
        let leaser = l.leasing.leaser;
        let price = l.leasing.price;
        if asset_token.balance(leaser) < 1 {
            return Err(Error::InsufficientBalance);
        }
        if leaser != renter && asset_token.balance(renter) > i128::MAX - 1 {
            return Err(Error::BalanceOverflow);
        }
        if payment.balance(renter) < price {
            return Err(Error::InsufficientBalance);
        }
        if renter != leaser && payment.balance(leaser) > i128::MAX - price {
            return Err(Error::BalanceOverflow);
        }
        let moved_asset = asset_token.transfer(leaser, renter, 1);
        let paid = payment.transfer_from(self.address, renter, leaser, price);
        proof {
            assert(moved_asset is Ok);
            assert(paid is Ok);
        }
        self.ledger.insert(
            asset,
            Lease {
                state: LeaseState::Rented,
                leasing: l.leasing,
                renting: Some(Renting { renter, rent_duration: duration, start_time: now }),
            },
        );
        proof {
            assert forall|a: u64| self.leases().contains_key(a) implies (
            #[trigger] self.leases()[a]).wf() by {
                if a != asset {
                    assert(old(self).leases().contains_key(a));
                    assert(old(self).leases()[a].wf());
                }
            }
        }
        Ok(())
    }

    /// Withdraws a listing that was never rented. Nothing ever moved for it,
    /// so nothing is reversed; the record is simply deleted. Only the stored
    /// leaser may do so, and only while the record is still a listing.
    pub fn end_lease(&mut self, leaser: u64, asset: u64) -> (r: Result<(), Error>)
        requires
            old(self).wf(),
        ensures
            final(self).wf(),
            r is Ok <==> old(self).listed_at(asset) && leaser == old(self).leases()[asset].leasing.leaser,
            r is Ok ==> final(self).leases() == old(self).leases().remove(asset) && !final(self).leases().contains_key(asset),
            r is Err ==> *final(self) == *old(self),
            !old(self).leases().contains_key(asset) ==> r == Err::<(), Error>(Error::LeaseNotFound),
            old(self).rented_at(asset) ==> r == Err::<(), Error>(Error::InvalidState),
            old(self).listed_at(asset) && leaser != old(self).leases()[asset].leasing.leaser ==> r
                == Err::<(), Error>(Error::Unauthorized),
            final(self).spec_config() == old(self).spec_config(),
            final(self).spec_address() == old(self).spec_address(),
    {
        let l = match self.ledger.get(asset) {
            None => {
                return Err(Error::LeaseNotFound);
            },
            Some(l) => *l,
        };
        if matches!(l.state, LeaseState::Rented) {
            return Err(Error::InvalidState);
        }
        if leaser != l.leasing.leaser {
            return Err(Error::Unauthorized);
        }
        self.ledger.remove(asset);
        proof {
            assert forall|a: u64| self.leases().contains_key(a) implies (
            #[trigger] self.leases()[a]).wf() by {
                assert(old(self).leases().contains_key(a));
                assert(old(self).leases()[a].wf());
            }
        }
        Ok(())
    }

    /// Ends a rental cooperatively: the current renter hands the asset unit
    /// back to the leaser and the record is deleted. The price already paid
    /// is a flat fee and is not refunded, however early the return; the
    /// payment token is not touched at all. Any failure leaves the ledger
    /// and the asset token exactly as they were.
    pub fn end_rent(&mut self, asset_token: &mut Token, renter: u64, asset: u64) -> (r: Result<
        (),
        Error,
    >)
        requires
            old(self).wf(),
            old(asset_token).wf(),
            old(asset_token).spec_id() == asset,
        ensures
            final(self).wf(),
            final(asset_token).wf(),
            final(asset_token).same_meta(*old(asset_token)),
            final(asset_token).same_allowances(*old(asset_token)),
            final(asset_token).same_authorized(*old(asset_token)),
            r is Ok <==> old(self).rented_at(asset) && renter == old(self).leases()[asset].renting->Some_0.renter && old(asset_token).can_transfer(
                renter,
                old(self).leases()[asset].leasing.leaser,
                1,
            ),
            r is Ok ==> final(self).leases() == old(self).leases().remove(asset) && !final(self).leases().contains_key(asset) && final(asset_token).moved(
                *old(asset_token),
                renter,
                old(self).leases()[asset].leasing.leaser,
                1,
            ),
            r is Err ==> *final(self) == *old(self) && *final(asset_token) == *old(asset_token),
            !old(self).leases().contains_key(asset) ==> r == Err::<(), Error>(Error::LeaseNotFound),
            old(self).listed_at(asset) ==> r == Err::<(), Error>(Error::InvalidState),
            old(self).rented_at(asset) && renter != old(self).leases()[asset].renting->Some_0.renter ==> r == Err::<(), Error>(Error::Unauthorized),
            old(self).rented_at(asset) && renter == old(self).leases()[asset].renting->Some_0.renter && !old(asset_token).can_transfer(
                renter,
                old(self).leases()[asset].leasing.leaser,
                1,
            ) ==> r == Err::<(), Error>(
                if old(asset_token).spec_balance(renter) < 1 {
                    Error::InsufficientBalance
                } else {
                    Error::BalanceOverflow
                },
            ),
            final(self).spec_config() == old(self).spec_config(),
            final(self).spec_address() == old(self).spec_address(),
    {
        let l = match self.ledger.get(asset) {
            None => {
                return Err(Error::LeaseNotFound);
            },
            Some(l) => *l,
        };
        let renting = match l.renting {
            None => {
                return Err(Error::InvalidState);
            },
            Some(renting) => renting,
        };
        proof {
            assert(old(self).leases()[asset].wf());
        }
        if renter != renting.renter {
            return Err(Error::Unauthorized);
        }
        let moved = asset_token.transfer(renter, l.leasing.leaser, 1);
        if let Err(e) = moved {
            return Err(e);
        }
        self.ledger.remove(asset);
        proof {
            assert forall|a: u64| self.leases().contains_key(a) implies (
            #[trigger] self.leases()[a]).wf() by {
                assert(old(self).leases().contains_key(a));
                assert(old(self).leases()[a].wf());
            }
        }
        Ok(())
    }

    /// Recovers the asset for the leaser once the agreed rental period has
    /// elapsed and the renter has not returned it. With `use_admin_override`
    /// the movement goes through the token's administrative primitives — the
    /// escrow must be the token's admin, and it re-authorizes the renter
    /// before forcing the return — covering a renter who will not cooperate;
    /// without it a standard transfer is used. Either way the record is
    /// deleted and no payment is refunded. Any failure leaves the ledger and
    /// the asset token exactly as they were.
    pub fn claim_token(
        &mut self,
        asset_token: &mut Token,
        caller: u64,
        asset: u64,
        use_admin_override: bool,
        now: u64,
    ) -> (r: Result<(), Error>)
        requires
            old(self).wf(),
            old(asset_token).wf(),
            old(asset_token).spec_id() == asset,
        ensures
            final(self).wf(),
            final(asset_token).wf(),
            final(asset_token).same_meta(*old(asset_token)),
            final(asset_token).same_allowances(*old(asset_token)),
            r is Ok <==> ({
                let l = old(self).leases()[asset];
                &&& old(self).rented_at(asset)
                &&& caller == l.leasing.leaser
                &&& now >= l.expiry()
                &&& (use_admin_override ==> old(asset_token).spec_admin() == old(self).spec_address())
                &&& old(asset_token).can_transfer(l.renting->Some_0.renter, l.leasing.leaser, 1)
            }),
            r is Ok ==> ({
                let l = old(self).leases()[asset];
                &&& final(self).leases() == old(self).leases().remove(asset)
                &&& !final(self).leases().contains_key(asset)
                &&& final(asset_token).moved(
                    *old(asset_token),
                    l.renting->Some_0.renter,
                    l.leasing.leaser,
                    1,
                )
                &&& (use_admin_override ==> final(asset_token).spec_is_authorized(
                    l.renting->Some_0.renter,
                ) && forall|h: u64|
                    h != l.renting->Some_0.renter ==> final(asset_token).spec_is_authorized(h)
                        == old(asset_token).spec_is_authorized(h))
                &&& (!use_admin_override ==> final(asset_token).same_authorized(
                    *old(asset_token),
                ))
            }),
            r is Err ==> *final(self) == *old(self) && *final(asset_token) == *old(asset_token),
            !old(self).leases().contains_key(asset) ==> r == Err::<(), Error>(Error::LeaseNotFound),
            old(self).listed_at(asset) ==> r == Err::<(), Error>(Error::InvalidState),
            old(self).rented_at(asset) && caller != old(self).leases()[asset].leasing.leaser ==> r
                == Err::<(), Error>(Error::Unauthorized),
            old(self).rented_at(asset) && caller == old(self).leases()[asset].leasing.leaser && now
                < old(self).leases()[asset].expiry() ==> r == Err::<(), Error>(Error::NotExpired),
            old(self).rented_at(asset) && caller == old(self).leases()[asset].leasing.leaser && now
                >= old(self).leases()[asset].expiry() && use_admin_override && old(asset_token).spec_admin() != old(self).spec_address() ==> r == Err::<(), Error>(
                Error::NotAuthorized,
            ),
            old(self).rented_at(asset) && caller == old(self).leases()[asset].leasing.leaser && now
                >= old(self).leases()[asset].expiry() && (use_admin_override ==> old(asset_token).spec_admin() == old(self).spec_address()) && !old(asset_token).can_transfer(
                old(self).leases()[asset].renting->Some_0.renter,
                old(self).leases()[asset].leasing.leaser,
                1,
            ) ==> r == Err::<(), Error>(
                if old(asset_token).spec_balance(old(self).leases()[asset].renting->Some_0.renter)
                    < 1 {
                    Error::InsufficientBalance
                } else {
                    Error::BalanceOverflow
                },
            ),
            final(self).spec_config() == old(self).spec_config(),
            final(self).spec_address() == old(self).spec_address(),
    {
        let l = match self.ledger.get(asset) {
            None => {
                return Err(Error::LeaseNotFound);
            },
            Some(l) => *l,
        };
        let renting = match l.renting {
            None => {
                return Err(Error::InvalidState);
            },
            Some(renting) => renting,
        };
        proof {
            assert(old(self).leases()[asset].wf());
        }
        if caller != l.leasing.leaser {
            return Err(Error::Unauthorized);
        }
        if (now as u128) < (renting.start_time as u128) + (renting.rent_duration as u128) {
            return Err(Error::NotExpired);
        }
        if use_admin_override && asset_token.admin() != self.address {
            return Err(Error::NotAuthorized);
        }
        let renter = renting.renter;
        if asset_token.balance(renter) < 1 {
            return Err(Error::InsufficientBalance);
        }
        if renter != l.leasing.leaser && asset_token.balance(l.leasing.leaser) > i128::MAX - 1 {
            return Err(Error::BalanceOverflow);
        }
        if use_admin_override {
            let authorized = asset_token.set_authorized(self.address, renter);
            proof {
                assert(authorized is Ok);
            }
        }
        let moved = asset_token.transfer(renter, l.leasing.leaser, 1);
        proof {
            assert(moved is Ok);
        }
        self.ledger.remove(asset);
        proof {
            assert forall|a: u64| self.leases().contains_key(a) implies (
            #[trigger] self.leases()[a]).wf() by {
                assert(old(self).leases().contains_key(a));
                assert(old(self).leases()[a].wf());
            }
        }
        Ok(())
    }

    /// The current record for `asset`, if one exists; never fails.
    pub fn get_lease(&self, asset: u64) -> (r: Option<Lease>)
        requires
            self.wf(),
        ensures
            r == if self.leases().contains_key(asset) {
                Some(self.leases()[asset])
            } else {
                None::<Lease>
            },
    {
        match self.ledger.get(asset) {
            Some(l) => Some(*l),
            None => None,
        }
    }

    /// Whether any record — listed or rented — exists for `asset`.
    pub fn has_lease(&self, asset: u64) -> (r: bool)
        requires
            self.wf(),
        ensures
            r == self.leases().contains_key(asset),
    {
        self.ledger.contains_key(asset)
    }

    /// Every record currently in the `Listed` state, each under its asset
    /// identifier, each identifier once. The order carries no meaning.
    #[verifier::loop_isolation(false)]
    pub fn get_all_listed(&self) -> (r: Vec<(u64, Lease)>)
        requires
            self.wf(),
        ensures
            forall|i: int|
                0 <= i < r@.len() ==> self.leases().contains_key((#[trigger] r@[i]).0)
                    && self.leases()[r@[i].0] == r@[i].1 && r@[i].1.state == LeaseState::Listed,
            forall|a: u64|
                self.leases().contains_key(a) && (#[trigger] self.leases()[a]).state
                    == LeaseState::Listed ==> exists|i: int|
                    0 <= i < r@.len() && (#[trigger] r@[i]).0 == a,
            forall|i: int, j: int|
                0 <= i < j < r@.len() ==> (#[trigger] r@[i]).0 != (#[trigger] r@[j]).0,
    {
        let items = self.ledger.items();
        let n = items.len();
        let mut out: Vec<(u64, Lease)> = Vec::new();
        let mut i: usize = 0;
        while i < n
            invariant
                i <= n,
                forall|j: int|
                    0 <= j < out@.len() ==> self.leases().contains_key((#[trigger] out@[j]).0)
                        && self.leases()[out@[j].0] == out@[j].1 && out@[j].1.state
                        == LeaseState::Listed,
                forall|j: int|
                    0 <= j < out@.len() ==> exists|k: int|
                        0 <= k < i && (#[trigger] out@[j]).0 == items@[k].0,
                forall|k: int|
                    0 <= k < i && (#[trigger] items@[k]).1.state == LeaseState::Listed ==> exists|
                        j: int,
                    | 0 <= j < out@.len() && (#[trigger] out@[j]).0 == items@[k].0,
                forall|j1: int, j2: int|
                    0 <= j1 < j2 < out@.len() ==> (#[trigger] out@[j1]).0 != (#[trigger] out@[j2]).0,
            decreases n - i,
        {
            let e = items[i];
            let ghost out0 = out@;
            if matches!(e.1.state, LeaseState::Listed) {
                proof {
                    assert forall|j1: int|
                        0 <= j1 < out0.len() implies (#[trigger] out0[j1]).0 != items@[i as int].0 by {
                        let k = choose|k: int| 0 <= k < i && out0[j1].0 == items@[k].0;
                        assert(items@[k].0 != items@[i as int].0);
                    }
                }
                out.push(e);
            }
            proof {
                assert forall|k: int|
                    0 <= k < i + 1 && (#[trigger] items@[k]).1.state == LeaseState::Listed
                    implies exists|j: int|
                    0 <= j < out@.len() && (#[trigger] out@[j]).0 == items@[k].0 by {
                    if k < i {
                        let j = choose|j: int| 0 <= j < out0.len() && (#[trigger] out0[j]).0
                            == items@[k].0;
                        assert(out@[j].0 == items@[k].0);
                    } else {
                        assert(out@[out@.len() - 1].0 == items@[i as int].0);
                    }
                }
            }
            i = i + 1;
        }
        proof {
            assert forall|a: u64|
                self.leases().contains_key(a) && (#[trigger] self.leases()[a]).state
                    == LeaseState::Listed implies exists|j: int|
                0 <= j < out@.len() && (#[trigger] out@[j]).0 == a by {
                let k = choose|k: int| 0 <= k < items@.len() && (#[trigger] items@[k]).0 == a;
                assert(items@[k].1 == self.leases()[a]);
                assert(items@[k].1.state == LeaseState::Listed);
            }
        }
        out
    }
}

/// A listing just written is exactly what `get_lease` then reports: state
/// `Listed`, the supplied terms, and no renting half. The premise is what a
/// successful `lease(leaser, asset, price, max_duration)` ensures of the
/// ledger; the conclusion is the record `get_lease(asset)` returns.
pub proof fn lemma_lease_then_get(
    pre: SetLien,
    post: SetLien,
    leaser: u64,
    asset: u64,
    price: i128,
    max_duration: u64,
)
    requires
        post.leases() == pre.leases().insert(asset, listed_lease(leaser, price, max_duration)),
    ensures
        post.leases().contains_key(asset),
        post.leases()[asset] == listed_lease(leaser, price, max_duration),
        post.leases()[asset].state == LeaseState::Listed,
        post.leases()[asset].leasing == (Leasing { leaser, price, max_duration }),
        post.leases()[asset].renting is None,
{
}

/// A terminating call leaves no record behind: the asset is back in the
/// no-listing state — `has_lease` reports false — and, by the contract of
/// `lease`, a fresh listing for the same asset is possible again. The
/// premise is what a successful `end_lease`, `end_rent` or `claim_token` on
/// `asset` ensures of the ledger.
pub proof fn lemma_terminated_clears(pre: SetLien, post: SetLien, asset: u64)
    requires
        post.leases() == pre.leases().remove(asset),
    ensures
        !post.leases().contains_key(asset),
{
}

} // verus!
