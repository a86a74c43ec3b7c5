use vstd::prelude::*;

use crate::error::SwapError;
use crate::ledger::Ledger;
use crate::ledger::lemma_account_index_is;
use crate::ledger::lemma_account_update;
use crate::ledger::lemma_accounts_total_update;
use crate::ledger::lemma_offer_index_is;
use crate::ledger::lemma_offer_push;
use crate::ledger::lemma_offer_remove;
use crate::ledger::lemma_vault_index_is;
use crate::ledger::lemma_vault_push;
use crate::ledger::lemma_vault_remove;
use crate::ledger::lemma_vaults_total_push;
use crate::ledger::lemma_vaults_total_remove;
use crate::ledger::seq_has_offer;
use crate::ledger::seq_has_vault;
use crate::state::AccountEntry;
use crate::state::Authority;
use crate::state::Offer;
use crate::state::TokenAccount;
use crate::state::VaultEntry;
use crate::transfer::transfer_tokens;

verus! {

/// When an offer creation goes through: something is placed in custody, the
/// key (maker, id) is free, and the maker's token account exists, is held
/// under the maker's signature, holds the offered asset kind, and holds at
/// least the offered amount.
pub open spec fn make_offer_enabled(
    l: Ledger,
    maker: u64,
    id: u64,
    maker_token_account: u64,
    token_mint_a: u64,
    token_a_offered_amount: u64,
) -> bool {
    &&& token_a_offered_amount > 0
    &&& !l.has_offer(maker, id)
    &&& l.has_account(maker_token_account)
    &&& l.account_at(maker_token_account).mint == token_mint_a
    &&& l.account_at(maker_token_account).authority == Authority::Signer(maker)
    &&& l.account_at(maker_token_account).amount >= token_a_offered_amount
}

/// The balance the release destination holds once the payment leg is done:
/// the taker's offered-asset account may be the very account that paid, or
/// the maker's account that was paid, when the two asset kinds coincide.
pub open spec fn release_destination_balance(
    l: Ledger,
    taker_token_account_a: u64,
    taker_token_account_b: u64,
    maker_token_account_b: u64,
    wanted: u64,
) -> int {
    if taker_token_account_a == taker_token_account_b {
        l.account_at(taker_token_account_a).amount - wanted
    } else if taker_token_account_a == maker_token_account_b {
        l.account_at(taker_token_account_a).amount + wanted
    } else {
        l.account_at(taker_token_account_a).amount as int
    }
}

/// When a fulfillment goes through: the offer record exists, the payment's
/// source and destination are distinct, the three token accounts exist and
/// carry the registered authorities and asset kinds the transition declares,
/// the taker can pay, and neither credit overflows.
pub open spec fn take_offer_enabled(
    l: Ledger,
    maker: u64,
    id: u64,
    taker: u64,
    taker_token_account_a: u64,
    taker_token_account_b: u64,
    maker_token_account_b: u64,
) -> bool {
    let o = l.offer_at(maker, id);
    &&& l.has_offer(maker, id)
    &&& taker_token_account_b != maker_token_account_b
    &&& l.has_account(taker_token_account_b)
    &&& l.has_account(maker_token_account_b)
    &&& l.has_account(taker_token_account_a)
    &&& l.account_at(maker_token_account_b).authority == Authority::Signer(maker)
    &&& l.account_at(taker_token_account_a).authority == Authority::Signer(taker)
    &&& l.account_at(taker_token_account_a).mint == o.token_mint_a
    &&& l.account_at(taker_token_account_b).mint == o.token_mint_b
    &&& l.account_at(maker_token_account_b).mint == o.token_mint_b
    &&& l.account_at(taker_token_account_b).authority == Authority::Signer(taker)
    &&& l.account_at(taker_token_account_b).amount >= o.token_b_wanted_amount
    &&& l.account_at(maker_token_account_b).amount + o.token_b_wanted_amount <= u64::MAX
    &&& release_destination_balance(
        l,
        taker_token_account_a,
        taker_token_account_b,
        maker_token_account_b,
        o.token_b_wanted_amount,
    ) + o.token_a_offered_amount <= u64::MAX
}

impl Ledger {
    /// Creates an offer: opens the vault for (maker, id), moves the offered
    /// amount from the maker's token account into it under the maker's
    /// signature, and records the offer. Any failed check aborts the whole
    /// transition with the ledger unchanged. Conserves the supply of every
    /// asset kind.
    pub fn make_offer(
        &mut self,
        maker: u64,
        id: u64,
        maker_token_account: u64,
        token_mint_a: u64,
        token_mint_b: u64,
        token_a_offered_amount: u64,
        token_b_wanted_amount: u64,
        bump: u8,
    ) -> (r: Result<(), SwapError>)
        requires
            old(self).inv(),
        ensures
            final(self).inv(),
            r is Ok <==> make_offer_enabled(
                *old(self),
                maker,
                id,
                maker_token_account,
                token_mint_a,
                token_a_offered_amount,
            ),
            r is Err ==> *final(self) == *old(self),
            token_a_offered_amount == 0 ==> r == Err::<(), SwapError>(SwapError::InvalidAmount),
            token_a_offered_amount > 0 && old(self).has_offer(maker, id) ==> r == Err::<
                (),
                SwapError,
            >(SwapError::OfferAlreadyExists),
            token_a_offered_amount > 0 && !old(self).has_offer(maker, id) && !old(self).has_account(maker_token_account) ==> r == Err::<(), SwapError>(
                SwapError::AccountNotFound,
            ),
            token_a_offered_amount > 0 && !old(self).has_offer(maker, id) && old(self).has_account(
                maker_token_account,
            ) ==> {
                let src = old(self).account_at(maker_token_account);
                &&& src.mint != token_mint_a ==> r == Err::<(), SwapError>(SwapError::MintMismatch)
                &&& src.mint == token_mint_a && src.authority != Authority::Signer(maker) ==> r
                    == Err::<(), SwapError>(SwapError::NotAuthorized)
                &&& src.mint == token_mint_a && src.authority == Authority::Signer(maker)
                    && src.amount < token_a_offered_amount ==> r == Err::<(), SwapError>(
                    SwapError::InsufficientFunds,
                )
            },
            r is Ok ==> {
                let src = old(self).account_at(maker_token_account);
                &&& final(self).has_offer(maker, id)
                &&& final(self).offer_at(maker, id) == (Offer {
                    id,
                    maker,
                    token_mint_a,
                    token_mint_b,
                    token_a_offered_amount,
                    token_b_wanted_amount,
                    bump,
                })
                &&& final(self).has_vault(maker, id)
                &&& final(self).vault_at(maker, id) == (TokenAccount {
                    authority: Authority::VaultAuthority { maker, id },
                    mint: token_mint_a,
                    amount: token_a_offered_amount,
                })
                &&& forall|m: u64, d: u64|
                    !(m == maker && d == id) ==> #[trigger] final(self).has_offer(m, d) == old(self).has_offer(m, d)
                &&& forall|m: u64, d: u64|
                    !(m == maker && d == id) ==> #[trigger] final(self).has_vault(m, d) == old(self).has_vault(m, d)
                &&& forall|m: u64, d: u64|
                    old(self).has_offer(m, d) ==> #[trigger] final(self).offer_at(m, d) == old(self).offer_at(m, d)
                &&& forall|m: u64, d: u64|
                    old(self).has_vault(m, d) ==> #[trigger] final(self).vault_at(m, d) == old(self).vault_at(m, d)
                &&& forall|x: u64| final(self).has_account(x) == old(self).has_account(x)
                &&& final(self).account_at(maker_token_account) == (TokenAccount {
                    authority: src.authority,
                    mint: src.mint,
                    amount: (src.amount - token_a_offered_amount) as u64,
                })
                &&& forall|x: u64|
                    old(self).has_account(x) && x != maker_token_account ==> #[trigger] final(self).account_at(x) == old(self).account_at(x)
                &&& forall|m: u64| final(self).supply(m) == old(self).supply(m)
            },
    {
        if token_a_offered_amount == 0 {
            return Err(SwapError::InvalidAmount);
        }
        match self.find_offer(maker, id) {
            Some(_) => {
                return Err(SwapError::OfferAlreadyExists);
            },
            None => {},
        }
        let i = match self.find_account(maker_token_account) {
            None => {
                return Err(SwapError::AccountNotFound);
            },
            Some(i) => i,
        };
        proof {
            lemma_account_index_is(self.accounts@, i as int);
        }
        let mut src = self.accounts[i].account;
        let mut vault_acc = TokenAccount {
            authority: Authority::VaultAuthority { maker, id },
            mint: token_mint_a,
            amount: 0,
        };
        match transfer_tokens(
            &mut src,
            &mut vault_acc,
            token_a_offered_amount,
            token_mint_a,
            Authority::Signer(maker),
        ) {
            Err(e) => {
                return Err(e);
            },
            Ok(()) => {},
        }
        let ghost l0 = *self;
        let new_entry = AccountEntry { addr: maker_token_account, account: src };
        let new_vault = VaultEntry { maker, id, account: vault_acc };
        let new_offer = Offer {
            id,
            maker,
            token_mint_a,
            token_mint_b,
            token_a_offered_amount,
            token_b_wanted_amount,
            bump,
        };
        self.accounts[i] = new_entry;
        self.vaults.push(new_vault);
        self.offers.push(new_offer);
        proof {
            lemma_account_update(l0.accounts@, i as int, new_entry);
            assert(!seq_has_vault(l0.vaults@, maker, id));
            lemma_vault_push(l0.vaults@, new_vault);
            lemma_offer_push(l0.offers@, new_offer);
            assert forall|m: u64| final(self).supply(m) == old(self).supply(m) by {
                lemma_accounts_total_update(l0.accounts@, i as int, new_entry, m);
                lemma_vaults_total_push(l0.vaults@, new_vault, m);
            }
            assert forall|m: u64, d: u64| #[trigger]
                seq_has_offer(self.offers@, m, d) implies seq_has_vault(self.vaults@, m, d) by {
                if !(m == maker && d == id) {
                    assert(seq_has_offer(l0.offers@, m, d));
                }
            }
            assert forall|m: u64, d: u64| #[trigger]
                seq_has_vault(self.vaults@, m, d) implies seq_has_offer(self.offers@, m, d) by {
                if !(m == maker && d == id) {
                    assert(seq_has_vault(l0.vaults@, m, d));
                }
            }
            assert forall|m: u64, d: u64| #[trigger] seq_has_offer(self.offers@, m, d) implies {
                let o = self.offer_at(m, d);
                let v = self.vault_at(m, d);
                &&& v.amount == o.token_a_offered_amount
                &&& v.mint == o.token_mint_a
                &&& v.authority == (Authority::VaultAuthority { maker: m, id: d })
                &&& o.token_a_offered_amount > 0
            } by {
                if !(m == maker && d == id) {
                    assert(seq_has_offer(l0.offers@, m, d));
                    assert(seq_has_vault(l0.vaults@, m, d));
                }
            }
        }
        Ok(())
    }


    /// Fulfills the offer for (maker, id): the taker pays the wanted amount
    /// of asset B to the maker first, then the vault's full balance of asset
    /// A is released to the taker under the program-derived custody
    /// authority, and the vault and the offer record are destroyed together.
    /// Any failed check aborts the whole transition with the ledger
    /// unchanged. Conserves the supply of every asset kind.
    #[verifier::rlimit(50)]
    pub fn take_offer(
        &mut self,
        maker: u64,
        id: u64,
        taker: u64,
        taker_token_account_a: u64,
        taker_token_account_b: u64,
        maker_token_account_b: u64,
    ) -> (r: Result<(), SwapError>)
        requires
            old(self).inv(),
        ensures
            final(self).inv(),
            r is Ok <==> take_offer_enabled(
                *old(self),
                maker,
                id,
                taker,
                taker_token_account_a,
                taker_token_account_b,
                maker_token_account_b,
            ),
            r is Err ==> *final(self) == *old(self),
            !old(self).has_offer(maker, id) ==> r == Err::<(), SwapError>(SwapError::OfferNotFound),
            old(self).has_offer(maker, id) && taker_token_account_b == maker_token_account_b ==> r
                == Err::<(), SwapError>(SwapError::DuplicateTokenAccount),
            old(self).has_offer(maker, id) && taker_token_account_b != maker_token_account_b && !old(self).has_account(taker_token_account_b) ==> r == Err::<(), SwapError>(
                SwapError::AccountNotFound,
            ),
            old(self).has_offer(maker, id) && taker_token_account_b != maker_token_account_b && old(self).has_account(taker_token_account_b) && !old(self).has_account(maker_token_account_b)
                ==> r == Err::<(), SwapError>(SwapError::AccountNotFound),
            old(self).has_offer(maker, id) && taker_token_account_b != maker_token_account_b && old(self).has_account(taker_token_account_b) && old(self).has_account(maker_token_account_b)
                && !old(self).has_account(taker_token_account_a) ==> r == Err::<(), SwapError>(
                SwapError::AccountNotFound,
            ),
            old(self).has_offer(maker, id) && taker_token_account_b != maker_token_account_b && old(self).has_account(taker_token_account_b) && old(self).has_account(maker_token_account_b)
                && old(self).has_account(taker_token_account_a) ==> {
                let o = old(self).offer_at(maker, id);
                let ata = old(self).account_at(taker_token_account_a);
                let atb = old(self).account_at(taker_token_account_b);
                let amb = old(self).account_at(maker_token_account_b);
                &&& amb.authority != Authority::Signer(maker) ==> r == Err::<(), SwapError>(
                    SwapError::NotAuthorized,
                )
                &&& amb.authority == Authority::Signer(maker) && ata.authority
                    != Authority::Signer(taker) ==> r == Err::<(), SwapError>(
                    SwapError::NotAuthorized,
                )
                &&& amb.authority == Authority::Signer(maker) && ata.authority
                    == Authority::Signer(taker) && ata.mint != o.token_mint_a ==> r == Err::<
                    (),
                    SwapError,
                >(SwapError::MintMismatch)
                &&& amb.authority == Authority::Signer(maker) && ata.authority
                    == Authority::Signer(taker) && ata.mint == o.token_mint_a && (atb.mint
                    != o.token_mint_b || amb.mint != o.token_mint_b) ==> r == Err::<
                    (),
                    SwapError,
                >(SwapError::MintMismatch)
                &&& amb.authority == Authority::Signer(maker) && ata.authority
                    == Authority::Signer(taker) && ata.mint == o.token_mint_a && atb.mint
                    == o.token_mint_b && amb.mint == o.token_mint_b && atb.authority
                    != Authority::Signer(taker) ==> r == Err::<(), SwapError>(
                    SwapError::NotAuthorized,
                )
                &&& amb.authority == Authority::Signer(maker) && ata.authority
                    == Authority::Signer(taker) && ata.mint == o.token_mint_a && atb.mint
                    == o.token_mint_b && amb.mint == o.token_mint_b && atb.authority
                    == Authority::Signer(taker) && atb.amount < o.token_b_wanted_amount ==> r
                    == Err::<(), SwapError>(SwapError::InsufficientFunds)
                &&& amb.authority == Authority::Signer(maker) && ata.authority
                    == Authority::Signer(taker) && ata.mint == o.token_mint_a && atb.mint
                    == o.token_mint_b && amb.mint == o.token_mint_b && atb.authority
                    == Authority::Signer(taker) && atb.amount >= o.token_b_wanted_amount
                    && amb.amount + o.token_b_wanted_amount > u64::MAX ==> r == Err::<
                    (),
                    SwapError,
                >(SwapError::AmountOverflow)
                &&& amb.authority == Authority::Signer(maker) && ata.authority
                    == Authority::Signer(taker) && ata.mint == o.token_mint_a && atb.mint
                    == o.token_mint_b && amb.mint == o.token_mint_b && atb.authority
                    == Authority::Signer(taker) && atb.amount >= o.token_b_wanted_amount
                    && amb.amount + o.token_b_wanted_amount <= u64::MAX
                    && release_destination_balance(
                    *old(self),
                    taker_token_account_a,
                    taker_token_account_b,
                    maker_token_account_b,
                    o.token_b_wanted_amount,
                ) + o.token_a_offered_amount > u64::MAX ==> r == Err::<(), SwapError>(
                    SwapError::AmountOverflow,
                )
            },
            r is Ok ==> {
                let o = old(self).offer_at(maker, id);
                &&& !final(self).has_offer(maker, id)
                &&& !final(self).has_vault(maker, id)
                &&& forall|m: u64, d: u64|
                    !(m == maker && d == id) ==> #[trigger] final(self).has_offer(m, d) == old(self).has_offer(m, d)
                &&& forall|m: u64, d: u64|
                    !(m == maker && d == id) ==> #[trigger] final(self).has_vault(m, d) == old(self).has_vault(m, d)
                &&& forall|m: u64, d: u64|
                    old(self).has_offer(m, d) && !(m == maker && d == id) ==> #[trigger] final(self).offer_at(m, d) == old(self).offer_at(m, d)
                &&& forall|m: u64, d: u64|
                    old(self).has_vault(m, d) && !(m == maker && d == id) ==> #[trigger] final(self).vault_at(m, d) == old(self).vault_at(m, d)
                &&& forall|x: u64| final(self).has_account(x) == old(self).has_account(x)
                &&& forall|x: u64|
                    old(self).has_account(x) ==> {
                        let a0 = old(self).account_at(x);
                        let a1 = #[trigger] final(self).account_at(x);
                        &&& a1.mint == a0.mint
                        &&& a1.authority == a0.authority
                        &&& a1.amount as int == a0.amount - (
                        if x == taker_token_account_b {
                            o.token_b_wanted_amount as int
                        } else {
                            0
                        }) + (
                        if x == maker_token_account_b {
                            o.token_b_wanted_amount as int
                        } else {
                            0
                        }) + (
                        if x == taker_token_account_a {
                            o.token_a_offered_amount as int
                        } else {
                            0
                        })
                    }
                &&& forall|m: u64| final(self).supply(m) == old(self).supply(m)
            },
    {
        let oi = match self.find_offer(maker, id) {
            None => {
                return Err(SwapError::OfferNotFound);
            },
            Some(i) => i,
        };
        proof {
            lemma_offer_index_is(self.offers@, oi as int);
        }
        let offer = self.offers[oi];
        if taker_token_account_b == maker_token_account_b {
            return Err(SwapError::DuplicateTokenAccount);
        }
        let bi = match self.find_account(taker_token_account_b) {
            None => {
                return Err(SwapError::AccountNotFound);
            },
            Some(i) => i,
        };
        let mi = match self.find_account(maker_token_account_b) {
            None => {
                return Err(SwapError::AccountNotFound);
            },
            Some(i) => i,
        };
        let ai = match self.find_account(taker_token_account_a) {
            None => {
                return Err(SwapError::AccountNotFound);
            },
            Some(i) => i,
        };
        proof {
            lemma_account_index_is(self.accounts@, bi as int);
            lemma_account_index_is(self.accounts@, mi as int);
            lemma_account_index_is(self.accounts@, ai as int);
        }
        if self.accounts[mi].account.authority != Authority::Signer(maker) {
            return Err(SwapError::NotAuthorized);
        }
        if self.accounts[ai].account.authority != Authority::Signer(taker) {
            return Err(SwapError::NotAuthorized);
        }
        if self.accounts[ai].account.mint != offer.token_mint_a {
            return Err(SwapError::MintMismatch);
        }
        // Payment leg first: a taker who cannot pay aborts before any maker
        // asset moves.
        let mut pay_src = self.accounts[bi].account;
        let mut pay_dst = self.accounts[mi].account;
        match transfer_tokens(
            &mut pay_src,
            &mut pay_dst,
            offer.token_b_wanted_amount,
            offer.token_mint_b,
            Authority::Signer(taker),
        ) {
            Err(e) => {
                return Err(e);
            },
            Ok(()) => {},
        }
        // Release leg: the vault's full balance moves to the taker under the
        // program-derived custody authority.
        let vi = match self.find_vault(maker, id) {
            None => {
                proof {
                    assert(seq_has_offer(self.offers@, maker, id));
                    assert(false);
                }
                return Err(SwapError::OfferNotFound);
            },
            Some(i) => i,
        };
        proof {
            lemma_vault_index_is(self.vaults@, vi as int);
        }
        let mut vault_acc = self.vaults[vi].account;
        let vault_amount = vault_acc.amount;
        let mut rel_dst = if taker_token_account_a == taker_token_account_b {
            pay_src
        } else if taker_token_account_a == maker_token_account_b {
            pay_dst
        } else {
            self.accounts[ai].account
        };
        match transfer_tokens(
            &mut vault_acc,
            &mut rel_dst,
            vault_amount,
            offer.token_mint_a,
            Authority::VaultAuthority { maker, id },
        ) {
            Err(e) => {
                return Err(e);
            },
            Ok(()) => {},
        }
        // Commit: the payment, the release, and the destruction of vault and
        // offer record land together.
        let ghost l0 = *self;
        let entry_b = AccountEntry { addr: taker_token_account_b, account: pay_src };
        let entry_m = AccountEntry { addr: maker_token_account_b, account: pay_dst };
        let entry_a = AccountEntry { addr: taker_token_account_a, account: rel_dst };
        self.accounts[bi] = entry_b;
        let ghost l1 = *self;
        self.accounts[mi] = entry_m;
        let ghost l2 = *self;
        self.accounts[ai] = entry_a;
        let ghost l3 = *self;
        let _ = self.vaults.remove(vi);
        let _ = self.offers.remove(oi);
        proof {
            lemma_account_update(l0.accounts@, bi as int, entry_b);
            lemma_account_update(l1.accounts@, mi as int, entry_m);
            lemma_account_update(l2.accounts@, ai as int, entry_a);
            lemma_vault_remove(l0.vaults@, vi as int);
            lemma_offer_remove(l0.offers@, oi as int);
            assert forall|m: u64| final(self).supply(m) == old(self).supply(m) by {
                lemma_accounts_total_update(l0.accounts@, bi as int, entry_b, m);
                lemma_accounts_total_update(l1.accounts@, mi as int, entry_m, m);
                lemma_accounts_total_update(l2.accounts@, ai as int, entry_a, m);
                lemma_vaults_total_remove(l0.vaults@, vi as int, m);
            }
            assert forall|m: u64, d: u64| #[trigger]
                seq_has_offer(self.offers@, m, d) implies seq_has_vault(self.vaults@, m, d) by {
                assert(seq_has_offer(l0.offers@, m, d));
                assert(seq_has_vault(l0.vaults@, m, d));
            }
            assert forall|m: u64, d: u64| #[trigger]
                seq_has_vault(self.vaults@, m, d) implies seq_has_offer(self.offers@, m, d) by {
                assert(seq_has_vault(l0.vaults@, m, d));
                assert(seq_has_offer(l0.offers@, m, d));
            }
            assert forall|m: u64, d: u64| #[trigger] seq_has_offer(self.offers@, m, d) implies {
                let o = self.offer_at(m, d);
                let v = self.vault_at(m, d);
                &&& v.amount == o.token_a_offered_amount
                &&& v.mint == o.token_mint_a
                &&& v.authority == (Authority::VaultAuthority { maker: m, id: d })
                &&& o.token_a_offered_amount > 0
            } by {
                assert(seq_has_offer(l0.offers@, m, d));
                assert(seq_has_vault(l0.vaults@, m, d));
            }
        }
        Ok(())
    }
}


/// Vault/offer coupling: in any ledger satisfying the invariant — and every
/// ledger the operations produce from one satisfies it — the vault for
/// (maker, id) exists exactly when the offer record exists, and then it
/// necessarily holds a nonzero balance: the whole offered amount.
pub proof fn lemma_vault_offer_coupling(l: Ledger, maker: u64, id: u64)
    requires
        l.inv(),
    ensures
        l.has_vault(maker, id) <==> l.has_offer(maker, id),
        l.has_offer(maker, id) ==> l.vault_at(maker, id).amount == l.offer_at(
            maker,
            id,
        ).token_a_offered_amount,
        l.has_offer(maker, id) ==> l.vault_at(maker, id).amount > 0,
{
}

/// No double fulfillment: once the offer record for (maker, id) is gone — as
/// it is after a successful take_offer — no fulfillment of that key is
/// enabled, whatever taker and accounts a second attempt supplies.
pub proof fn lemma_no_double_fulfillment(
    l: Ledger,
    maker: u64,
    id: u64,
    taker: u64,
    taker_token_account_a: u64,
    taker_token_account_b: u64,
    maker_token_account_b: u64,
)
    requires
        !l.has_offer(maker, id),
    ensures
        !take_offer_enabled(
            l,
            maker,
            id,
            taker,
            taker_token_account_a,
            taker_token_account_b,
            maker_token_account_b,
        ),
{
}

/// Idempotent failure: a failed make_offer leaves the ledger unchanged, so a
/// resubmission with the same arguments against that unchanged ledger is
/// decided exactly as the first attempt was — in particular, the failure
/// consumed neither the id nor any funds.
pub proof fn lemma_failed_make_offer_repeats(
    l_before: Ledger,
    l_after: Ledger,
    maker: u64,
    id: u64,
    maker_token_account: u64,
    token_mint_a: u64,
    token_a_offered_amount: u64,
)
    requires
        l_after == l_before,
    ensures
        make_offer_enabled(
            l_after,
            maker,
            id,
            maker_token_account,
            token_mint_a,
            token_a_offered_amount,
        ) == make_offer_enabled(
            l_before,
            maker,
            id,
            maker_token_account,
            token_mint_a,
            token_a_offered_amount,
        ),
        l_after.has_offer(maker, id) == l_before.has_offer(maker, id),
{
}

} // verus!
