use vstd::prelude::*;

use crate::error::SwapError;
use crate::state::Authority;
use crate::state::TokenAccount;

verus! {

/// The asset transfer primitive: moves exactly `amount` units of the asset
/// kind `mint` from `from` to `to`.
///
/// Both accounts must declare `mint` as their held asset kind, the presented
/// `authority` must be the one registered on the source, the source must hold
/// at least `amount`, and the credit must not overflow the destination.
/// If any check fails, the transfer returns the corresponding error and
/// neither account changes; no partial transfer is possible.
pub fn transfer_tokens(
    from: &mut TokenAccount,
    to: &mut TokenAccount,
    amount: u64,
    mint: u64,
    authority: Authority,
) -> (r: Result<(), SwapError>)
    ensures
        r is Ok <==> (old(from).mint == mint && old(to).mint == mint
            && authority == old(from).authority
            && old(from).amount >= amount
            && old(to).amount + amount <= u64::MAX),
        r is Ok ==> final(from).amount == old(from).amount - amount
            && final(to).amount == old(to).amount + amount,
        final(from).mint == old(from).mint && final(from).authority == old(from).authority,
        final(to).mint == old(to).mint && final(to).authority == old(to).authority,
        r is Err ==> *final(from) == *old(from) && *final(to) == *old(to),
        (old(from).mint != mint || old(to).mint != mint) ==> r == Err::<(), SwapError>(SwapError::MintMismatch),
        (old(from).mint == mint && old(to).mint == mint && authority != old(from).authority)
            ==> r == Err::<(), SwapError>(SwapError::NotAuthorized),
        (old(from).mint == mint && old(to).mint == mint && authority == old(from).authority
            && old(from).amount < amount) ==> r == Err::<(), SwapError>(SwapError::InsufficientFunds),
        (old(from).mint == mint && old(to).mint == mint && authority == old(from).authority
            && old(from).amount >= amount && old(to).amount + amount > u64::MAX)
            ==> r == Err::<(), SwapError>(SwapError::AmountOverflow),
{
    if from.mint != mint || to.mint != mint {
        return Err(SwapError::MintMismatch);
    }
    if authority != from.authority {
        return Err(SwapError::NotAuthorized);
    }
    if from.amount < amount {
        return Err(SwapError::InsufficientFunds);
    }
    if to.amount > u64::MAX - amount {
        return Err(SwapError::AmountOverflow);
    }
    from.amount = from.amount - amount;
    to.amount = to.amount + amount;
    Ok(())
}

} // verus!
