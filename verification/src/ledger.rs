use vstd::prelude::*;

use crate::error::SwapError;
use crate::state::AccountEntry;
use crate::state::Authority;
use crate::state::Offer;
use crate::state::TokenAccount;
use crate::state::VaultEntry;

verus! {

// ---------------------------------------------------------------------------
// Keyed views of the three stores.
//
// Token accounts are keyed by address, offer records and vaults by the pair
// (maker, id) — the inputs of their deterministic address derivation. Each
// store keeps its keys unique, so "the entry at a key" is well defined.
// ---------------------------------------------------------------------------

pub open spec fn seq_has_account(s: Seq<AccountEntry>, addr: u64) -> bool {
    exists|k: int| 0 <= k < s.len() && (#[trigger] s[k]).addr == addr
}

/// The index of the entry at `addr`; meaningful when the address is present
/// and addresses are unique.
pub open spec fn seq_account_index(s: Seq<AccountEntry>, addr: u64) -> int {
    choose|k: int| 0 <= k < s.len() && (#[trigger] s[k]).addr == addr
}

pub open spec fn seq_account_at(s: Seq<AccountEntry>, addr: u64) -> TokenAccount {
    s[seq_account_index(s, addr)].account
}

pub open spec fn unique_addrs(s: Seq<AccountEntry>) -> bool {
    forall|p: int, q: int|
        0 <= p < q < s.len() ==> (#[trigger] s[p]).addr != (#[trigger] s[q]).addr
}

pub open spec fn offer_key_is(o: Offer, maker: u64, id: u64) -> bool {
    o.maker == maker && o.id == id
}

pub open spec fn seq_has_offer(s: Seq<Offer>, maker: u64, id: u64) -> bool {
    exists|k: int| 0 <= k < s.len() && offer_key_is(#[trigger] s[k], maker, id)
}

pub open spec fn seq_offer_index(s: Seq<Offer>, maker: u64, id: u64) -> int {
    choose|k: int| 0 <= k < s.len() && offer_key_is(#[trigger] s[k], maker, id)
}

pub open spec fn seq_offer_at(s: Seq<Offer>, maker: u64, id: u64) -> Offer {
    s[seq_offer_index(s, maker, id)]
}

pub open spec fn unique_offer_keys(s: Seq<Offer>) -> bool {
    forall|p: int, q: int|
        0 <= p < q < s.len()
            ==> !((#[trigger] s[p]).maker == (#[trigger] s[q]).maker && s[p].id == s[q].id)
}

pub open spec fn vault_key_is(v: VaultEntry, maker: u64, id: u64) -> bool {
    v.maker == maker && v.id == id
}

pub open spec fn seq_has_vault(s: Seq<VaultEntry>, maker: u64, id: u64) -> bool {
    exists|k: int| 0 <= k < s.len() && vault_key_is(#[trigger] s[k], maker, id)
}

pub open spec fn seq_vault_index(s: Seq<VaultEntry>, maker: u64, id: u64) -> int {
    choose|k: int| 0 <= k < s.len() && vault_key_is(#[trigger] s[k], maker, id)
}

pub open spec fn seq_vault_at(s: Seq<VaultEntry>, maker: u64, id: u64) -> TokenAccount {
    s[seq_vault_index(s, maker, id)].account
}

pub open spec fn unique_vault_keys(s: Seq<VaultEntry>) -> bool {
    forall|p: int, q: int|
        0 <= p < q < s.len()
            ==> !((#[trigger] s[p]).maker == (#[trigger] s[q]).maker && s[p].id == s[q].id)
}

// ---------------------------------------------------------------------------
// Totals per asset kind, for conservation statements.
// ---------------------------------------------------------------------------

pub open spec fn account_amount_of_mint(e: AccountEntry, mint: u64) -> int {
    if e.account.mint == mint {
        e.account.amount as int
    } else {
        0
    }
}

/// Units of `mint` held across all token accounts of `s`.
pub open spec fn accounts_total(s: Seq<AccountEntry>, mint: u64) -> int
    decreases s.len(),
{
    if s.len() == 0 {
        0
    } else {
        accounts_total(s.drop_last(), mint) + account_amount_of_mint(s.last(), mint)
    }
}

pub open spec fn vault_amount_of_mint(v: VaultEntry, mint: u64) -> int {
    if v.account.mint == mint {
        v.account.amount as int
    } else {
        0
    }
}

/// Units of `mint` held in custody across all vaults of `s`.
pub open spec fn vaults_total(s: Seq<VaultEntry>, mint: u64) -> int
    decreases s.len(),
{
    if s.len() == 0 {
        0
    } else {
        vaults_total(s.drop_last(), mint) + vault_amount_of_mint(s.last(), mint)
    }
}

// ---------------------------------------------------------------------------
// How the totals move under the three store edits the operations make.
// ---------------------------------------------------------------------------

pub proof fn lemma_accounts_total_update(s: Seq<AccountEntry>, i: int, e: AccountEntry, mint: u64)
    requires
        0 <= i < s.len(),
    ensures
        accounts_total(s.update(i, e), mint)
            == accounts_total(s, mint) - account_amount_of_mint(s[i], mint)
                + account_amount_of_mint(e, mint),
    decreases s.len(),
{
    let s2 = s.update(i, e);
    if i == s.len() - 1 {
        assert(s2.drop_last() =~= s.drop_last());
    } else {
        assert(s2.drop_last() =~= s.drop_last().update(i, e));
        lemma_accounts_total_update(s.drop_last(), i, e, mint);
    }
}

pub proof fn lemma_accounts_total_push(s: Seq<AccountEntry>, e: AccountEntry, mint: u64)
    ensures
        accounts_total(s.push(e), mint) == accounts_total(s, mint) + account_amount_of_mint(e, mint),
{
    assert(s.push(e).drop_last() =~= s);
}

pub proof fn lemma_vaults_total_push(s: Seq<VaultEntry>, v: VaultEntry, mint: u64)
    ensures
        vaults_total(s.push(v), mint) == vaults_total(s, mint) + vault_amount_of_mint(v, mint),
{
    assert(s.push(v).drop_last() =~= s);
}

pub proof fn lemma_vaults_total_remove(s: Seq<VaultEntry>, i: int, mint: u64)
    requires
        0 <= i < s.len(),
    ensures
        vaults_total(s.remove(i), mint) == vaults_total(s, mint) - vault_amount_of_mint(s[i], mint),
    decreases s.len(),
{
    if i == s.len() - 1 {
        assert(s.remove(i) =~= s.drop_last());
    } else {
        let s2 = s.remove(i);
        assert(s2.drop_last() =~= s.drop_last().remove(i));
        assert(s2.last() == s.last());
        lemma_vaults_total_remove(s.drop_last(), i, mint);
    }
}

// ---------------------------------------------------------------------------
// How the keyed views move under those edits.
// ---------------------------------------------------------------------------

/// A found index is the index of the keyed view.
pub proof fn lemma_account_index_is(s: Seq<AccountEntry>, i: int)
    requires
        unique_addrs(s),
        0 <= i < s.len(),
    ensures
        seq_has_account(s, s[i].addr),
        seq_account_index(s, s[i].addr) == i,
        seq_account_at(s, s[i].addr) == s[i].account,
{
    assert(seq_has_account(s, s[i].addr));
    let k = seq_account_index(s, s[i].addr);
    if k != i {
        if k < i {
            assert(s[k].addr != s[i].addr);
        } else {
            assert(s[i].addr != s[k].addr);
        }
    }
}

pub proof fn lemma_offer_index_is(s: Seq<Offer>, i: int)
    requires
        unique_offer_keys(s),
        0 <= i < s.len(),
    ensures
        seq_has_offer(s, s[i].maker, s[i].id),
        seq_offer_index(s, s[i].maker, s[i].id) == i,
        seq_offer_at(s, s[i].maker, s[i].id) == s[i],
{
    assert(offer_key_is(s[i], s[i].maker, s[i].id));
    assert(seq_has_offer(s, s[i].maker, s[i].id));
    let k = seq_offer_index(s, s[i].maker, s[i].id);
    if k != i {
        if k < i {
            assert(!(s[k].maker == s[i].maker && s[k].id == s[i].id));
        } else {
            assert(!(s[i].maker == s[k].maker && s[i].id == s[k].id));
        }
    }
}

pub proof fn lemma_vault_index_is(s: Seq<VaultEntry>, i: int)
    requires
        unique_vault_keys(s),
        0 <= i < s.len(),
    ensures
        seq_has_vault(s, s[i].maker, s[i].id),
        seq_vault_index(s, s[i].maker, s[i].id) == i,
        seq_vault_at(s, s[i].maker, s[i].id) == s[i].account,
{
    assert(vault_key_is(s[i], s[i].maker, s[i].id));
    assert(seq_has_vault(s, s[i].maker, s[i].id));
    let k = seq_vault_index(s, s[i].maker, s[i].id);
    if k != i {
        if k < i {
            assert(!(s[k].maker == s[i].maker && s[k].id == s[i].id));
        } else {
            assert(!(s[i].maker == s[k].maker && s[i].id == s[k].id));
        }
    }
}

/// Replacing the entry at `i` with one at the same address changes the view
/// only at that address.
pub proof fn lemma_account_update(s: Seq<AccountEntry>, i: int, e: AccountEntry)
    requires
        unique_addrs(s),
        0 <= i < s.len(),
        e.addr == s[i].addr,
    ensures
        unique_addrs(s.update(i, e)),
        forall|x: u64| seq_has_account(s.update(i, e), x) == seq_has_account(s, x),
        forall|x: u64|
            seq_has_account(s, x) && x != e.addr
                ==> seq_account_at(s.update(i, e), x) == seq_account_at(s, x),
        seq_account_at(s.update(i, e), e.addr) == e.account,
{
    let s2 = s.update(i, e);
    assert forall|x: u64| seq_has_account(s2, x) == seq_has_account(s, x) by {
        if seq_has_account(s2, x) {
            let k = seq_account_index(s2, x);
            assert(s[k].addr == s2[k].addr);
        }
        if seq_has_account(s, x) {
            let k = seq_account_index(s, x);
            assert(s2[k].addr == s[k].addr);
        }
    }
    assert forall|x: u64|
        seq_has_account(s, x) && x != e.addr
            implies seq_account_at(s2, x) == seq_account_at(s, x) by {
        let k = seq_account_index(s, x);
        assert(0 <= k < s.len() && s[k].addr == x);
        assert(k != i);
        assert(s2[k].addr == x);
        lemma_account_index_is(s2, k);
        lemma_account_index_is(s, k);
    }
    lemma_account_index_is(s2, i);
}

/// Registering a fresh address appends to the view and changes nothing else.
pub proof fn lemma_account_push(s: Seq<AccountEntry>, e: AccountEntry)
    requires
        unique_addrs(s),
        !seq_has_account(s, e.addr),
    ensures
        unique_addrs(s.push(e)),
        seq_has_account(s.push(e), e.addr),
        seq_account_at(s.push(e), e.addr) == e.account,
        forall|x: u64| x != e.addr ==> seq_has_account(s.push(e), x) == seq_has_account(s, x),
        forall|x: u64|
            seq_has_account(s, x) ==> seq_account_at(s.push(e), x) == seq_account_at(s, x),
{
    let s2 = s.push(e);
    assert(s2[s.len() as int] == e);
    assert forall|p: int, q: int| 0 <= p < q < s2.len() implies s2[p].addr != s2[q].addr by {
        if q < s.len() {
            assert(s[p].addr != s[q].addr);
        } else {
            assert(s2[q] == e);
            assert(s2[p] == s[p]);
            if s[p].addr == e.addr {
                assert(seq_has_account(s, e.addr));
            }
        }
    }
    lemma_account_index_is(s2, s.len() as int);
    assert forall|x: u64| x != e.addr implies seq_has_account(s2, x) == seq_has_account(s, x) by {
        if seq_has_account(s2, x) {
            let k = seq_account_index(s2, x);
            assert(k < s.len());
            assert(s[k].addr == x);
        }
        if seq_has_account(s, x) {
            let k = seq_account_index(s, x);
            assert(s2[k].addr == x);
        }
    }
    assert forall|x: u64|
        seq_has_account(s, x) implies seq_account_at(s2, x) == seq_account_at(s, x) by {
        let k = seq_account_index(s, x);
        assert(0 <= k < s.len() && s[k].addr == x);
        assert(s2[k].addr == x);
        lemma_account_index_is(s2, k);
        lemma_account_index_is(s, k);
    }
}

/// Recording a fresh key appends to the offer view and changes nothing else.
pub proof fn lemma_offer_push(s: Seq<Offer>, o: Offer)
    requires
        unique_offer_keys(s),
        !seq_has_offer(s, o.maker, o.id),
    ensures
        unique_offer_keys(s.push(o)),
        seq_has_offer(s.push(o), o.maker, o.id),
        seq_offer_at(s.push(o), o.maker, o.id) == o,
        forall|m: u64, d: u64|
            !(m == o.maker && d == o.id)
                ==> seq_has_offer(s.push(o), m, d) == seq_has_offer(s, m, d),
        forall|m: u64, d: u64|
            seq_has_offer(s, m, d) ==> seq_offer_at(s.push(o), m, d) == seq_offer_at(s, m, d),
{
    let s2 = s.push(o);
    assert(s2[s.len() as int] == o);
    assert forall|p: int, q: int|
        0 <= p < q < s2.len() implies !(s2[p].maker == s2[q].maker && s2[p].id == s2[q].id) by {
        if q < s.len() {
            assert(!(s[p].maker == s[q].maker && s[p].id == s[q].id));
        } else {
            assert(s2[q] == o);
            assert(s2[p] == s[p]);
            if s[p].maker == o.maker && s[p].id == o.id {
                assert(offer_key_is(s[p], o.maker, o.id));
                assert(seq_has_offer(s, o.maker, o.id));
            }
        }
    }
    lemma_offer_index_is(s2, s.len() as int);
    assert forall|m: u64, d: u64|
        !(m == o.maker && d == o.id)
            implies seq_has_offer(s2, m, d) == seq_has_offer(s, m, d) by {
        if seq_has_offer(s2, m, d) {
            let k = seq_offer_index(s2, m, d);
            assert(k < s.len());
            assert(offer_key_is(s[k], m, d));
        }
        if seq_has_offer(s, m, d) {
            let k = seq_offer_index(s, m, d);
            assert(offer_key_is(s2[k], m, d));
        }
    }
    assert forall|m: u64, d: u64|
        seq_has_offer(s, m, d) implies seq_offer_at(s2, m, d) == seq_offer_at(s, m, d) by {
        let k = seq_offer_index(s, m, d);
        assert(0 <= k < s.len() && offer_key_is(s[k], m, d));
        assert(offer_key_is(s2[k], m, d));
        lemma_offer_index_is(s2, k);
        lemma_offer_index_is(s, k);
    }
}

/// Opening a fresh vault appends to the vault view and changes nothing else.
pub proof fn lemma_vault_push(s: Seq<VaultEntry>, v: VaultEntry)
    requires
        unique_vault_keys(s),
        !seq_has_vault(s, v.maker, v.id),
    ensures
        unique_vault_keys(s.push(v)),
        seq_has_vault(s.push(v), v.maker, v.id),
        seq_vault_at(s.push(v), v.maker, v.id) == v.account,
        forall|m: u64, d: u64|
            !(m == v.maker && d == v.id)
                ==> seq_has_vault(s.push(v), m, d) == seq_has_vault(s, m, d),
        forall|m: u64, d: u64|
            seq_has_vault(s, m, d) ==> seq_vault_at(s.push(v), m, d) == seq_vault_at(s, m, d),
{
    let s2 = s.push(v);
    assert(s2[s.len() as int] == v);
    assert forall|p: int, q: int|
        0 <= p < q < s2.len() implies !(s2[p].maker == s2[q].maker && s2[p].id == s2[q].id) by {
        if q < s.len() {
            assert(!(s[p].maker == s[q].maker && s[p].id == s[q].id));
        } else {
            assert(s2[q] == v);
            assert(s2[p] == s[p]);
            if s[p].maker == v.maker && s[p].id == v.id {
                assert(vault_key_is(s[p], v.maker, v.id));
                assert(seq_has_vault(s, v.maker, v.id));
            }
        }
    }
    lemma_vault_index_is(s2, s.len() as int);
    assert forall|m: u64, d: u64|
        !(m == v.maker && d == v.id)
            implies seq_has_vault(s2, m, d) == seq_has_vault(s, m, d) by {
        if seq_has_vault(s2, m, d) {
            let k = seq_vault_index(s2, m, d);
            assert(k < s.len());
            assert(vault_key_is(s[k], m, d));
        }
        if seq_has_vault(s, m, d) {
            let k = seq_vault_index(s, m, d);
            assert(vault_key_is(s2[k], m, d));
        }
    }
    assert forall|m: u64, d: u64|
        seq_has_vault(s, m, d) implies seq_vault_at(s2, m, d) == seq_vault_at(s, m, d) by {
        let k = seq_vault_index(s, m, d);
        assert(0 <= k < s.len() && vault_key_is(s[k], m, d));
        assert(vault_key_is(s2[k], m, d));
        lemma_vault_index_is(s2, k);
        lemma_vault_index_is(s, k);
    }
}

/// Destroying the record at `i` removes exactly its key from the offer view.
pub proof fn lemma_offer_remove(s: Seq<Offer>, i: int)
    requires
        unique_offer_keys(s),
        0 <= i < s.len(),
    ensures
        unique_offer_keys(s.remove(i)),
        !seq_has_offer(s.remove(i), s[i].maker, s[i].id),
        forall|m: u64, d: u64|
            !(m == s[i].maker && d == s[i].id)
                ==> seq_has_offer(s.remove(i), m, d) == seq_has_offer(s, m, d),
        forall|m: u64, d: u64|
            seq_has_offer(s, m, d) && !(m == s[i].maker && d == s[i].id)
                ==> seq_offer_at(s.remove(i), m, d) == seq_offer_at(s, m, d),
{
    let s2 = s.remove(i);
    assert forall|p: int, q: int|
        0 <= p < q < s2.len() implies !(s2[p].maker == s2[q].maker && s2[p].id == s2[q].id) by {
        let p0: int = if p < i { p } else { p + 1 };
        let q0: int = if q < i { q } else { q + 1 };
        assert(s2[p] == s[p0]);
        assert(s2[q] == s[q0]);
        assert(!(s[p0].maker == s[q0].maker && s[p0].id == s[q0].id));
    }
    if seq_has_offer(s2, s[i].maker, s[i].id) {
        let k = seq_offer_index(s2, s[i].maker, s[i].id);
        let k0: int = if k < i { k } else { k + 1 };
        assert(s2[k] == s[k0]);
        assert(k0 != i);
        if k0 < i {
            assert(!(s[k0].maker == s[i].maker && s[k0].id == s[i].id));
        } else {
            assert(!(s[i].maker == s[k0].maker && s[i].id == s[k0].id));
        }
    }
    assert forall|m: u64, d: u64|
        !(m == s[i].maker && d == s[i].id)
            implies seq_has_offer(s2, m, d) == seq_has_offer(s, m, d) by {
        if seq_has_offer(s2, m, d) {
            let k = seq_offer_index(s2, m, d);
            let k0: int = if k < i { k } else { k + 1 };
            assert(s2[k] == s[k0]);
            assert(offer_key_is(s[k0], m, d));
        }
        if seq_has_offer(s, m, d) {
            let k = seq_offer_index(s, m, d);
            assert(k != i);
            let k2: int = if k < i { k } else { k - 1 };
            assert(s2[k2] == s[k]);
            assert(offer_key_is(s2[k2], m, d));
        }
    }
    assert forall|m: u64, d: u64|
        seq_has_offer(s, m, d) && !(m == s[i].maker && d == s[i].id)
            implies seq_offer_at(s2, m, d) == seq_offer_at(s, m, d) by {
        let k = seq_offer_index(s, m, d);
        assert(0 <= k < s.len() && offer_key_is(s[k], m, d));
        lemma_offer_index_is(s, k);
        assert(k != i);
        let k2: int = if k < i { k } else { k - 1 };
        assert(s2[k2] == s[k]);
        lemma_offer_index_is(s2, k2);
    }
}

/// Destroying the vault at `i` removes exactly its key from the vault view.
pub proof fn lemma_vault_remove(s: Seq<VaultEntry>, i: int)
    requires
        unique_vault_keys(s),
        0 <= i < s.len(),
    ensures
        unique_vault_keys(s.remove(i)),
        !seq_has_vault(s.remove(i), s[i].maker, s[i].id),
        forall|m: u64, d: u64|
            !(m == s[i].maker && d == s[i].id)
                ==> seq_has_vault(s.remove(i), m, d) == seq_has_vault(s, m, d),
        forall|m: u64, d: u64|
            seq_has_vault(s, m, d) && !(m == s[i].maker && d == s[i].id)
                ==> seq_vault_at(s.remove(i), m, d) == seq_vault_at(s, m, d),
{
    let s2 = s.remove(i);
    assert forall|p: int, q: int|
        0 <= p < q < s2.len() implies !(s2[p].maker == s2[q].maker && s2[p].id == s2[q].id) by {
        let p0: int = if p < i { p } else { p + 1 };
        let q0: int = if q < i { q } else { q + 1 };
        assert(s2[p] == s[p0]);
        assert(s2[q] == s[q0]);
        assert(!(s[p0].maker == s[q0].maker && s[p0].id == s[q0].id));
    }
    if seq_has_vault(s2, s[i].maker, s[i].id) {
        let k = seq_vault_index(s2, s[i].maker, s[i].id);
        let k0: int = if k < i { k } else { k + 1 };
        assert(s2[k] == s[k0]);
        assert(k0 != i);
        if k0 < i {
            assert(!(s[k0].maker == s[i].maker && s[k0].id == s[i].id));
        } else {
            assert(!(s[i].maker == s[k0].maker && s[i].id == s[k0].id));
        }
    }
    assert forall|m: u64, d: u64|
        !(m == s[i].maker && d == s[i].id)
            implies seq_has_vault(s2, m, d) == seq_has_vault(s, m, d) by {
        if seq_has_vault(s2, m, d) {
            let k = seq_vault_index(s2, m, d);
            let k0: int = if k < i { k } else { k + 1 };
            assert(s2[k] == s[k0]);
            assert(vault_key_is(s[k0], m, d));
        }
        if seq_has_vault(s, m, d) {
            let k = seq_vault_index(s, m, d);
            assert(k != i);
            let k2: int = if k < i { k } else { k - 1 };
            assert(s2[k2] == s[k]);
            assert(vault_key_is(s2[k2], m, d));
        }
    }
    assert forall|m: u64, d: u64|
        seq_has_vault(s, m, d) && !(m == s[i].maker && d == s[i].id)
            implies seq_vault_at(s2, m, d) == seq_vault_at(s, m, d) by {
        let k = seq_vault_index(s, m, d);
        assert(0 <= k < s.len() && vault_key_is(s[k], m, d));
        lemma_vault_index_is(s, k);
        assert(k != i);
        let k2: int = if k < i { k } else { k - 1 };
        assert(s2[k2] == s[k]);
        lemma_vault_index_is(s2, k2);
    }
}

// ---------------------------------------------------------------------------
// The ledger.
// ---------------------------------------------------------------------------

/// The system of record the swap operates on: the registered token accounts,
/// the outstanding offer records, and the custody vaults. Every operation
/// preserves `inv`, and either completes in full or leaves the ledger
/// exactly as it was.
pub struct Ledger {
    pub accounts: Vec<AccountEntry>,
    pub offers: Vec<Offer>,
    pub vaults: Vec<VaultEntry>,
}

impl Ledger {
    pub open spec fn has_account(self, addr: u64) -> bool {
        seq_has_account(self.accounts@, addr)
    }

    /// The token account registered at `addr`; meaningful when present.
    pub open spec fn account_at(self, addr: u64) -> TokenAccount {
        seq_account_at(self.accounts@, addr)
    }

    pub open spec fn has_offer(self, maker: u64, id: u64) -> bool {
        seq_has_offer(self.offers@, maker, id)
    }

    /// The offer record for (maker, id); meaningful when present.
    pub open spec fn offer_at(self, maker: u64, id: u64) -> Offer {
        seq_offer_at(self.offers@, maker, id)
    }

    pub open spec fn has_vault(self, maker: u64, id: u64) -> bool {
        seq_has_vault(self.vaults@, maker, id)
    }

    /// The custody account of the vault for (maker, id); meaningful when present.
    pub open spec fn vault_at(self, maker: u64, id: u64) -> TokenAccount {
        seq_vault_at(self.vaults@, maker, id)
    }

    /// Total units of `mint` on the ledger, in accounts and in custody.
    pub open spec fn supply(self, mint: u64) -> int {
        accounts_total(self.accounts@, mint) + vaults_total(self.vaults@, mint)
    }

    /// Well-formedness: keys are unique in each store, and every offer record
    /// is coupled with exactly one vault that holds exactly the offered
    /// amount — necessarily nonzero — of the offered asset, under the
    /// program-derived authority for the same key.
    pub open spec fn inv(self) -> bool {
        &&& unique_addrs(self.accounts@)
        &&& unique_offer_keys(self.offers@)
        &&& unique_vault_keys(self.vaults@)
        &&& forall|m: u64, d: u64|
            #[trigger] seq_has_offer(self.offers@, m, d) ==> seq_has_vault(self.vaults@, m, d)
        &&& forall|m: u64, d: u64|
            #[trigger] seq_has_vault(self.vaults@, m, d) ==> seq_has_offer(self.offers@, m, d)
        &&& forall|m: u64, d: u64| #[trigger] seq_has_offer(self.offers@, m, d) ==> {
            let o = seq_offer_at(self.offers@, m, d);
            let v = seq_vault_at(self.vaults@, m, d);
            &&& v.amount == o.token_a_offered_amount
            &&& v.mint == o.token_mint_a
            &&& v.authority == (Authority::VaultAuthority { maker: m, id: d })
            &&& o.token_a_offered_amount > 0
        }
    }

    /// A fresh ledger: no accounts, no offers, no vaults.
    pub fn new() -> (l: Ledger)
        ensures
            l.inv(),
            l.accounts@.len() == 0,
            l.offers@.len() == 0,
            l.vaults@.len() == 0,
            forall|x: u64| !l.has_account(x),
            forall|m: u64, d: u64| !l.has_offer(m, d) && !l.has_vault(m, d),
            forall|m: u64| l.supply(m) == 0,
    {
        Ledger { accounts: Vec::new(), offers: Vec::new(), vaults: Vec::new() }
    }

    /// Registers a token account for `owner` at the fresh address `addr`,
    /// holding `amount` units of `mint`. Fails, changing nothing, exactly
    /// when the address is already taken.
    pub fn create_account(&mut self, addr: u64, owner: u64, mint: u64, amount: u64) -> (r: Result<
        (),
        SwapError,
    >)
        requires
            old(self).inv(),
        ensures
            final(self).inv(),
            r is Ok <==> !old(self).has_account(addr),
            r is Err ==> *final(self) == *old(self) && r == Err::<(), SwapError>(
                SwapError::AccountAlreadyExists,
            ),
            r is Ok ==> {
                &&& final(self).has_account(addr)
                &&& final(self).account_at(addr) == (TokenAccount {
                    authority: Authority::Signer(owner),
                    mint,
                    amount,
                })
                &&& forall|x: u64|
                    x != addr ==> final(self).has_account(x) == old(self).has_account(x)
                &&& forall|x: u64|
                    old(self).has_account(x) ==> final(self).account_at(x) == old(
                        self,
                    ).account_at(x)
                &&& final(self).offers@ == old(self).offers@
                &&& final(self).vaults@ == old(self).vaults@
                &&& forall|m: u64|
                    final(self).supply(m) == old(self).supply(m) + (if m == mint {
                        amount as int
                    } else {
                        0
                    })
            },
    {
        match self.find_account(addr) {
            Some(_) => Err(SwapError::AccountAlreadyExists),
            None => {
                let e = AccountEntry {
                    addr,
                    account: TokenAccount { authority: Authority::Signer(owner), mint, amount },
                };
                let ghost s0 = self.accounts@;
                self.accounts.push(e);
                proof {
                    lemma_account_push(s0, e);
                    assert forall|m: u64|
                        final(self).supply(m) == old(self).supply(m) + (if m == mint {
                            amount as int
                        } else {
                            0
                        }) by {
                        lemma_accounts_total_push(s0, e, m);
                    }
                }
                Ok(())
            },
        }
    }

    /// Looks up the position of the token account at `addr`.
    pub(crate) fn find_account(&self, addr: u64) -> (r: Option<usize>)
        ensures
            match r {
                Some(i) => i < self.accounts@.len() && self.accounts@[i as int].addr == addr,
                None => !self.has_account(addr),
            },
    {
        let n = self.accounts.len();
        let mut i: usize = 0;
        while i < n
            invariant
                i <= n,
                n == self.accounts@.len(),
                forall|k: int| 0 <= k < i ==> (#[trigger] self.accounts@[k]).addr != addr,
            decreases n - i,
        {
            if self.accounts[i].addr == addr {
                return Some(i);
            }
            i = i + 1;
        }
        None
    }

    /// Looks up the position of the offer record for (maker, id).
    pub(crate) fn find_offer(&self, maker: u64, id: u64) -> (r: Option<usize>)
        ensures
            match r {
                Some(i) => i < self.offers@.len() && offer_key_is(
                    self.offers@[i as int],
                    maker,
                    id,
                ),
                None => !self.has_offer(maker, id),
            },
    {
        let n = self.offers.len();
        let mut i: usize = 0;
        while i < n
            invariant
                i <= n,
                n == self.offers@.len(),
                forall|k: int| 0 <= k < i ==> !offer_key_is(#[trigger] self.offers@[k], maker, id),
            decreases n - i,
        {
            if self.offers[i].maker == maker && self.offers[i].id == id {
                return Some(i);
            }
            i = i + 1;
        }
        None
    }

    /// Looks up the position of the vault for (maker, id).
    pub(crate) fn find_vault(&self, maker: u64, id: u64) -> (r: Option<usize>)
        ensures
            match r {
                Some(i) => i < self.vaults@.len() && vault_key_is(
                    self.vaults@[i as int],
                    maker,
                    id,
                ),
                None => !self.has_vault(maker, id),
            },
    {
        let n = self.vaults.len();
        let mut i: usize = 0;
        while i < n
            invariant
                i <= n,
                n == self.vaults@.len(),
                forall|k: int| 0 <= k < i ==> !vault_key_is(#[trigger] self.vaults@[k], maker, id),
            decreases n - i,
        {
            if self.vaults[i].maker == maker && self.vaults[i].id == id {
                return Some(i);
            }
            i = i + 1;
        }
        None
    }

    /// The balance of the token account at `addr`, if one is registered.
    pub fn balance_of(&self, addr: u64) -> (r: Option<u64>)
        requires
            self.inv(),
        ensures
            r is Some <==> self.has_account(addr),
            r is Some ==> r == Some(self.account_at(addr).amount),
    {
        match self.find_account(addr) {
            Some(i) => {
                proof {
                    lemma_account_index_is(self.accounts@, i as int);
                }
                Some(self.accounts[i].account.amount)
            },
            None => None,
        }
    }

    /// Reads the offer record for (maker, id), if one exists.
    pub fn get_offer(&self, maker: u64, id: u64) -> (r: Option<Offer>)
        requires
            self.inv(),
        ensures
            r is Some <==> self.has_offer(maker, id),
            r is Some ==> r == Some(self.offer_at(maker, id)),
    {
        match self.find_offer(maker, id) {
            Some(i) => {
                proof {
                    lemma_offer_index_is(self.offers@, i as int);
                }
                Some(self.offers[i])
            },
            None => None,
        }
    }

    /// The balance held in custody by the vault for (maker, id), if it exists.
    pub fn vault_balance(&self, maker: u64, id: u64) -> (r: Option<u64>)
        requires
            self.inv(),
        ensures
            r is Some <==> self.has_vault(maker, id),
            r is Some ==> r == Some(self.vault_at(maker, id).amount),
    {
        match self.find_vault(maker, id) {
            Some(i) => {
                proof {
                    lemma_vault_index_is(self.vaults@, i as int);
                }
                Some(self.vaults[i].account.amount)
            },
            None => None,
        }
    }
}

} // verus!
