use vstd::prelude::*;

verus! {

/// Why a ledger operation was refused. Every operation either completes in
/// full or returns one of these with the ledger left exactly as it was.
#[derive(Clone, Copy, Debug, PartialEq, Eq, Structural)]
pub enum SwapError {
    /// An offer was submitted with nothing placed in custody.
    InvalidAmount,
    /// An offer record for this maker and id already exists.
    OfferAlreadyExists,
    /// No offer record exists for this maker and id.
    OfferNotFound,
    /// A token account is already registered at this address.
    AccountAlreadyExists,
    /// No token account is registered at this address.
    AccountNotFound,
    /// Two roles of one transition were given the same token account.
    DuplicateTokenAccount,
    /// A token account does not hold the asset kind the transition declared.
    MintMismatch,
    /// The presented authority is not entitled to move the source's funds.
    NotAuthorized,
    /// The source account holds less than the amount to be moved.
    InsufficientFunds,
    /// Crediting the destination would overflow its balance.
    AmountOverflow,
}

} // verus!
