//! Laws of the settlement engine, stated over the transition functions that
//! the executable operations are proved to realize.
//!
//! Balance-merge laws (order independence of merging) live in
//! [`crate::balance`]; the laws here concern the store and the lifecycle.

use vstd::prelude::*;

use crate::balance::{credit_is_empty, AssetEntry, CreditView};
use crate::contract::{
    spec_approve, spec_create, spec_new_escrow, spec_refund, spec_top_up, str_list_contains,
};
use crate::error::ContractError;
use crate::msg::{CosmosMsgView, CreateMsgView};
use crate::state::{
    find_key, has_key, insert_entry, insert_pos, key_of, lemma_find_key, lemma_find_key_ids,
    lemma_insert_entry_at, lemma_insert_entry_lookup, lemma_insert_entry_sorted,
    lemma_insert_pos, lemma_sorted_key_unique, spec_locked, store_sorted, EntryView,
    Status,
};

verus! {

/// After a successful create, the inserted record is stored under its id,
/// is exactly the created escrow, and every other record stays.
proof fn lemma_create_inserts(
    s: Seq<EntryView>,
    m: CreateMsgView,
    c: CreditView,
    sender: Seq<char>,
    s2: Seq<EntryView>,
)
    requires
        store_sorted(s),
        spec_create(s, m, c, sender) == Ok::<Seq<EntryView>, ContractError>(s2),
    ensures
        store_sorted(s2),
        has_key(s2, key_of(m.id)),
        s2[find_key(s2, key_of(m.id))] == (EntryView {
            id: m.id,
            escrow: spec_new_escrow(m, c, sender),
        }),
{
    let e = EntryView { id: m.id, escrow: spec_new_escrow(m, c, sender) };
    let k = key_of(m.id);
    let p = insert_pos(s, k);
    lemma_insert_pos(s, k);
    lemma_insert_entry_at(s, e, p);
    lemma_insert_entry_sorted(s, e, p);
    lemma_insert_entry_lookup(s, e, p, k);
    assert(s2 == insert_entry(s, e));
    assert(s2[p] == e);
    lemma_find_key(s2, k);
    lemma_sorted_key_unique(s2, p, find_key(s2, k));
}

/// Create uniqueness: once `create` has succeeded for an id, any further
/// `create` with the same id fails with `AlreadyInUse`, whatever its funding
/// credit, metadata or sender.
pub proof fn lemma_create_unique(
    s: Seq<EntryView>,
    m1: CreateMsgView,
    c1: CreditView,
    sender1: Seq<char>,
    s2: Seq<EntryView>,
    m2: CreateMsgView,
    c2: CreditView,
    sender2: Seq<char>,
)
    requires
        store_sorted(s),
        spec_create(s, m1, c1, sender1) == Ok::<Seq<EntryView>, ContractError>(s2),
        m2.id == m1.id,
        !credit_is_empty(c2),
    ensures
        spec_create(s2, m2, c2, sender2) == Err::<Seq<EntryView>, ContractError>(
            ContractError::AlreadyInUse,
        ),
{
    lemma_create_inserts(s, m1, c1, sender1, s2);
}

/// Whitelist auto-admission: an escrow created with a tokenized funding
/// credit and no explicit whitelist admits exactly that token — a top-up
/// with the same token succeeds, one with any other token fails with
/// `NotInWhitelist`.
pub proof fn lemma_whitelist_auto_admission(
    s: Seq<EntryView>,
    m: CreateMsgView,
    t: AssetEntry,
    sender: Seq<char>,
    s2: Seq<EntryView>,
    t2: AssetEntry,
    u: AssetEntry,
)
    requires
        store_sorted(s),
        m.whitelist == Option::<Seq<Seq<char>>>::None,
        spec_create(s, m, CreditView::Cw20(t), sender) == Ok::<Seq<EntryView>, ContractError>(s2),
        t2.id == t.id,
        t2.amount > 0,
        u.id != t.id,
        u.amount > 0,
    ensures
        spec_new_escrow(m, CreditView::Cw20(t), sender).whitelist == seq![t.id],
        (spec_top_up(s2, m.id, CreditView::Cw20(t2)) is Ok),
        spec_top_up(s2, m.id, CreditView::Cw20(u)) == Err::<Seq<EntryView>, ContractError>(
            ContractError::NotInWhitelist,
        ),
{
    let esc = spec_new_escrow(m, CreditView::Cw20(t), sender);
    assert(!str_list_contains(Seq::<Seq<char>>::empty(), t.id));
    assert(esc.whitelist =~= seq![t.id]);
    lemma_create_inserts(s, m, CreditView::Cw20(t), sender, s2);
    let i = find_key(s2, key_of(m.id));
    assert(s2[i].escrow == esc);
    assert(!spec_locked(esc.status));
    assert(esc.in_whitelist(t2.id)) by {
        assert(esc.whitelist[0] == t.id);
    }
    assert(!esc.in_whitelist(u.id)) by {
        if esc.in_whitelist(u.id) {
            let j = choose|j: int| 0 <= j < esc.whitelist.len() && esc.whitelist[j] == u.id;
            assert(j == 0);
        }
    }
    assert(!credit_is_empty(CreditView::Cw20(t2)));
    assert(!credit_is_empty(CreditView::Cw20(u)));
}

/// A settled store differs from the pre-settlement store only in the status
/// of the settled record.
proof fn lemma_settle_shape(s: Seq<EntryView>, i: int, e2: EntryView, k: Seq<u8>)
    requires
        store_sorted(s),
        0 <= i < s.len(),
        e2.id == s[i].id,
        key_of(s[i].id) == k,
    ensures
        has_key(s.update(i, e2), k),
        find_key(s.update(i, e2), k) == i,
{
    let s2 = s.update(i, e2);
    assert(forall|j: int| 0 <= j < s2.len() ==> (#[trigger] s2[j]).id == s[j].id);
    lemma_find_key_ids(s2, s, k);
    lemma_find_key(s, k);
    lemma_sorted_key_unique(s, find_key(s, k), i);
}

/// Locking after approve: once `approve` has succeeded, any further top-up
/// fails `Locked`, and so does any further approve or refund by a validator.
pub proof fn lemma_approve_locks(
    s: Seq<EntryView>,
    id: Seq<char>,
    caller: Seq<char>,
    s2: Seq<EntryView>,
    msgs: Seq<CosmosMsgView>,
    c: CreditView,
    caller2: Seq<char>,
)
    requires
        store_sorted(s),
        spec_approve(s, id, caller) == Ok::<(Seq<EntryView>, Seq<CosmosMsgView>), ContractError>(
            (s2, msgs),
        ),
        !credit_is_empty(c),
        s[find_key(s, key_of(id))].escrow.is_validator(caller2),
    ensures
        spec_top_up(s2, id, c) == Err::<Seq<EntryView>, ContractError>(ContractError::Locked),
        spec_approve(s2, id, caller2) == Err::<
            (Seq<EntryView>, Seq<CosmosMsgView>),
            ContractError,
        >(ContractError::Locked),
        spec_refund(s2, id, caller2) == Err::<
            (Seq<EntryView>, Seq<CosmosMsgView>),
            ContractError,
        >(ContractError::Locked),
{
    let k = key_of(id);
    lemma_find_key(s, k);
    let i = find_key(s, k);
    let e = s[i].escrow;
    let e2 = completed_view(e);
    lemma_settle_shape(s, i, EntryView { id: s[i].id, escrow: e2 }, k);
    assert(s2[find_key(s2, k)].escrow == e2);
    assert(spec_locked(e2.status));
    assert(e2.validators == e.validators);
}

/// Locking after refund: once `refund` has succeeded, any further top-up
/// fails `Locked`, and so does any further approve or refund by a validator.
pub proof fn lemma_refund_locks(
    s: Seq<EntryView>,
    id: Seq<char>,
    caller: Seq<char>,
    s2: Seq<EntryView>,
    msgs: Seq<CosmosMsgView>,
    c: CreditView,
    caller2: Seq<char>,
)
    requires
        store_sorted(s),
        spec_refund(s, id, caller) == Ok::<(Seq<EntryView>, Seq<CosmosMsgView>), ContractError>(
            (s2, msgs),
        ),
        !credit_is_empty(c),
        s[find_key(s, key_of(id))].escrow.is_validator(caller2),
    ensures
        spec_top_up(s2, id, c) == Err::<Seq<EntryView>, ContractError>(ContractError::Locked),
        spec_approve(s2, id, caller2) == Err::<
            (Seq<EntryView>, Seq<CosmosMsgView>),
            ContractError,
        >(ContractError::Locked),
        spec_refund(s2, id, caller2) == Err::<
            (Seq<EntryView>, Seq<CosmosMsgView>),
            ContractError,
        >(ContractError::Locked),
{
    let k = key_of(id);
    lemma_find_key(s, k);
    let i = find_key(s, k);
    let e = s[i].escrow;
    let e2 = canceled_view(e);
    lemma_settle_shape(s, i, EntryView { id: s[i].id, escrow: e2 }, k);
    assert(s2[find_key(s2, k)].escrow == e2);
    assert(spec_locked(e2.status));
    assert(e2.validators == e.validators);
}

/// Authorization: `approve` and `refund` by an address outside the validator
/// set fail with `Unauthorized`. (Every failing operation leaves the store
/// unchanged, by the contracts of the executable functions.)
pub proof fn lemma_unauthorized_rejected(s: Seq<EntryView>, id: Seq<char>, caller: Seq<char>)
    requires
        has_key(s, key_of(id)),
        !s[find_key(s, key_of(id))].escrow.is_validator(caller),
    ensures
        spec_approve(s, id, caller) == Err::<
            (Seq<EntryView>, Seq<CosmosMsgView>),
            ContractError,
        >(ContractError::Unauthorized),
        spec_refund(s, id, caller) == Err::<
            (Seq<EntryView>, Seq<CosmosMsgView>),
            ContractError,
        >(ContractError::Unauthorized),
{
    lemma_find_key(s, key_of(id));
}

/// The escrow view with status set to `Completed`.
spec fn completed_view(e: crate::state::EscrowView) -> crate::state::EscrowView {
    crate::state::EscrowView { status: Status::Completed, ..e }
}

/// The escrow view with status set to `Canceled`.
spec fn canceled_view(e: crate::state::EscrowView) -> crate::state::EscrowView {
    crate::state::EscrowView { status: Status::Canceled, ..e }
}

} // verus!
