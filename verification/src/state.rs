use vstd::prelude::*;

verus! {

/// The capability entitled to move funds out of a token account: either the
/// signature of a key-holding identity, or the custody authority derived for
/// one offer's vault. The derived authority is a value reconstructible from
/// the offer's public key material alone — a capability computed by a pure
/// derivation, never a stored secret — so only the lifecycle transitions,
/// which know the maker and id they act for, can present it.
#[derive(Clone, Copy, Debug, PartialEq, Eq, Structural)]
pub enum Authority {
    /// A signature by the holder of the named key.
    Signer(u64),
    /// The program-derived custody authority of the vault for (maker, id).
    VaultAuthority { maker: u64, id: u64 },
}

/// One token account: the asset kind (mint) it holds, its balance, and the
/// authority entitled to debit it. The mint identifier stands for the asset
/// type together with its declared precision, so equal mints hold equal kinds.
#[derive(Clone, Copy, Debug, PartialEq, Eq, Structural)]
pub struct TokenAccount {
    pub authority: Authority,
    pub mint: u64,
    pub amount: u64,
}

/// The persistent record of one outstanding swap intent, stored at an address
/// derived from the maker's identity and the maker-chosen id — so ids are
/// scoped per maker and two makers cannot collide.
#[derive(Clone, Copy, Debug, PartialEq, Eq, Structural)]
pub struct Offer {
    pub id: u64,
    pub maker: u64,
    pub token_mint_a: u64,
    pub token_mint_b: u64,
    pub token_a_offered_amount: u64,
    pub token_b_wanted_amount: u64,
    /// The derivation salt of the vault's custody authority, persisted so the
    /// authority can re-prove itself on later operations.
    pub bump: u8,
}

/// A token account registered on the ledger under its address.
#[derive(Clone, Copy, Debug, PartialEq, Eq, Structural)]
pub struct AccountEntry {
    pub addr: u64,
    pub account: TokenAccount,
}

/// The custody account holding one maker's locked tokens, keyed like the
/// offer record it belongs to. Its registered authority is always the
/// program-derived `Authority::VaultAuthority` for the same key, never a
/// person's signature.
#[derive(Clone, Copy, Debug, PartialEq, Eq, Structural)]
pub struct VaultEntry {
    pub maker: u64,
    pub id: u64,
    pub account: TokenAccount,
}

} // verus!
