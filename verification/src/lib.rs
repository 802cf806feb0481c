//! A custodial lease/rent escrow: an asset holder lists one indivisible unit
//! of a token for time-bounded rental at a fixed price, a renter takes the
//! rental by paying that price in a separate fungible payment token, and the
//! rental resolves back to the leaser either cooperatively or after expiry.
//!
//! Account and asset identifiers are opaque on the host ledger; here they are
//! plain `u64` values. The ledger timestamp enters every time-gated operation
//! as an explicit argument. The fungible-token standard is consumed through
//! the narrow interface modelled by [`token::Token`].

pub mod contract;
pub mod errors;
pub mod kv;
pub mod storage_types;
pub mod token;
