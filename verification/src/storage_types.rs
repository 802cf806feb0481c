use vstd::prelude::*;

verus! {

/// Phase of a lease record: listed and waiting for a renter, or rented out.
#[derive(Clone, Copy, Debug, PartialEq, Eq, Structural)]
pub enum LeaseState {
    Listed,
    Rented,
}

/// Terms set by the leaser at listing time.
#[derive(Clone, Copy, Debug, PartialEq, Eq)]
pub struct Leasing {
    /// Owner of the asset being listed.
    pub leaser: u64,
    /// Amount of the payment token, paid once, in full, at rental start.
    pub price: i128,
    /// Upper bound, in seconds, on any rental duration a renter may request.
    pub max_duration: u64,
}

/// Terms fixed at rental start, present only while a rental is active.
#[derive(Clone, Copy, Debug, PartialEq, Eq)]
pub struct Renting {
    /// Account currently holding the asset.
    pub renter: u64,
    /// Agreed rental duration in seconds; at most the listing's bound.
    pub rent_duration: u64,
    /// Ledger timestamp at the moment the rental started.
    pub start_time: u64,
}

/// The unit of ledger state, keyed by the leased asset's identifier.
#[derive(Clone, Copy, Debug, PartialEq, Eq)]
pub struct Lease {
    pub state: LeaseState,
    pub leasing: Leasing,
    /// Populated exactly while `state` is `Rented`.
    pub renting: Option<Renting>,
}

impl Lease {
    /// Structural soundness of a single record: terms are in range and the
    /// renting half is present exactly in the `Rented` state.
    pub open spec fn wf(self) -> bool {
        &&& self.leasing.price >= 0
        &&& self.leasing.max_duration > 0
        &&& (self.state == LeaseState::Rented <==> self.renting is Some)
        &&& (self.renting matches Some(r) ==> 0 < r.rent_duration
            <= self.leasing.max_duration)
    }

    /// Expiry instant of an active rental, after which the leaser may claim
    /// the asset back. Meaningful only in the `Rented` state.
    pub open spec fn expiry(self) -> int {
        self.renting->Some_0.start_time + self.renting->Some_0.rent_duration
    }
}

} // verus!
