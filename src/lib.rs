//! A marketplace for unique tokens, verified: a ledger of who owns each token
//! and who may move it, a registry of sales, the split of a sale's proceeds by
//! royalty, and the settlement of a purchase once the ledger has answered.
use vstd::prelude::*;

pub mod approval;
pub mod enumeration;
pub mod error;
pub mod events;
pub mod internal;
pub mod market;
pub mod nft;
pub mod payout;
pub mod royalty;
pub mod strmap;

verus! {

} // verus!
