use vstd::prelude::*;

verus! {

/// Why an operation of the ledger or of the market was refused.
#[derive(Debug, Clone, Copy, PartialEq, Eq, Structural)]
pub enum Error {
    /// The caller is neither the owner nor, where that suffices, an approved account.
    Unauthorized,
    /// No token has the given id.
    TokenNotFound,
    /// No sale is listed under the given collection and token.
    SaleNotFound,
    /// The call had to carry exactly one unit of deposit and did not.
    RequiresOneUnit,
    /// The call had to carry at least one unit of deposit and carried none.
    RequiresDeposit,
    /// The attached deposit does not cover the storage that the call uses.
    InsufficientStorageDeposit,
    /// An offer was made with no deposit at all.
    ZeroOffer,
    /// A seller tried to buy their own listing.
    SelfPurchase,
    /// The deposit of an offer is below the listed price.
    InsufficientOffer,
    /// The approval id that the transfer names is not the caller's current one.
    ApprovalMismatch,
    /// The receiver of a transfer already owns the token.
    SameOwnerTransfer,
    /// The royalty has more beneficiaries than the payout may list.
    TooManyRecipients,
    /// A token with the given id already exists.
    TokenExists,
    /// The token has handed out every approval id there is.
    ApprovalIdsExhausted,
}

} // verus!
