//! The settlement engine: create, top-up, approve, refund, and the read-only
//! query projection.
//!
//! Every operation loads the relevant record, validates authorization and
//! state, mutates balance or status, persists the record, and — on
//! settlement — emits transfer instructions. Failures leave the store
//! untouched and emit nothing. Each operation is specified by a transition
//! function on the store model; the executable functions realize exactly
//! those transitions.
//!
//! Settlement policy: an approved escrow's whole balance goes to the
//! proposer; a refunded escrow returns native funds to the source and burns
//! tokenized funds. Settled records are retained, and stay queryable.

use vstd::prelude::*;

use crate::balance::{
    AssetEntry, Balance, BalanceView, CreditView, GenericBalance, credit_is_empty, credits_of,
    clone_cw20, clone_native, empty_balance, lemma_apply_credits_wf, merge_fits, spec_add_tokens,
};
use crate::error::ContractError;
use crate::msg::{
    CosmosMsg, CosmosMsgView, CreateMsg, CreateMsgView, DetailsResponse, DetailsView,
    ListDetailedResponse, ListResponse,
};
use crate::state::{
    all_escrow_ids, contains_string, key_of, lemma_exists_string, lemma_find_key,
    lemma_sorted_key_unique, lemma_update_same_id_wf, spec_locked, store_sorted, store_wf,
    has_key, find_key, insert_entry, EntryView, Escrow, EscrowStore, EscrowView, Status,
};

verus! {

/// Whether a list of names contains the given one.
pub open spec fn str_list_contains(s: Seq<Seq<char>>, x: Seq<char>) -> bool {
    exists|i: int| 0 <= i < s.len() && s[i] == x
}

/// The whitelist an escrow is created with: the explicit one (or none), with
/// the funding asset auto-admitted iff it is tokenized.
pub open spec fn effective_whitelist(wl: Option<Seq<Seq<char>>>, c: CreditView) -> Seq<Seq<char>> {
    let base = match wl {
        Some(w) => w,
        None => Seq::empty(),
    };
    match c {
        CreditView::Cw20(token) => if str_list_contains(base, token.id) {
            base
        } else {
            base.push(token.id)
        },
        CreditView::Native(_) => base,
    }
}

/// The escrow record `create` builds.
pub open spec fn spec_new_escrow(m: CreateMsgView, c: CreditView, sender: Seq<char>) -> EscrowView {
    EscrowView {
        id: m.id,
        url: m.url,
        description: m.description,
        validators: m.validators,
        proposer: m.proposer,
        source: sender,
        balance: spec_add_tokens(empty_balance(), c),
        whitelist: effective_whitelist(m.whitelist, c),
        status: Status::Opened,
    }
}

/// Transition of `create`: reject an empty credit, then an id already in
/// use; otherwise insert the new record in key order.
pub open spec fn spec_create(
    s: Seq<EntryView>,
    m: CreateMsgView,
    c: CreditView,
    sender: Seq<char>,
) -> Result<Seq<EntryView>, ContractError> {
    if credit_is_empty(c) {
        Err(ContractError::EmptyBalance)
    } else if has_key(s, key_of(m.id)) {
        Err(ContractError::AlreadyInUse)
    } else {
        Ok(insert_entry(s, EntryView { id: m.id, escrow: spec_new_escrow(m, c, sender) }))
    }
}

/// Transition of `top_up`: reject an empty credit, an unknown id, a settled
/// escrow, and a tokenized credit outside the whitelist; otherwise merge the
/// credit into the balance.
pub open spec fn spec_top_up(s: Seq<EntryView>, id: Seq<char>, c: CreditView) -> Result<
    Seq<EntryView>,
    ContractError,
> {
    if credit_is_empty(c) {
        Err(ContractError::EmptyBalance)
    } else if !has_key(s, key_of(id)) {
        Err(ContractError::NotFound)
    } else {
        let i = find_key(s, key_of(id));
        let e = s[i].escrow;
        if spec_locked(e.status) {
            Err(ContractError::Locked)
        } else if (match c {
            CreditView::Cw20(token) => !e.in_whitelist(token.id),
            CreditView::Native(_) => false,
        }) {
            Err(ContractError::NotInWhitelist)
        } else {
            Ok(
                s.update(
                    i,
                    EntryView {
                        id: s[i].id,
                        escrow: EscrowView { balance: spec_add_tokens(e.balance, c), ..e },
                    },
                ),
            )
        }
    }
}

/// The transfer instructions that move a whole balance to one address:
/// one batched native transfer (if any native funds), then one transfer per
/// tokenized asset, in the balance's insertion order.
pub open spec fn spec_send_tokens(to: Seq<char>, b: BalanceView) -> Seq<CosmosMsgView> {
    let native = if b.native.len() == 0 {
        Seq::<CosmosMsgView>::empty()
    } else {
        seq![CosmosMsgView::BankSend { to: to, amount: b.native }]
    };
    native + b.cw20.map_values(
        |t: AssetEntry| CosmosMsgView::Cw20Transfer {
            contract: t.id,
            recipient: to,
            amount: t.amount,
        },
    )
}

/// The instructions a refund emits: native funds return to the address,
/// tokenized funds are destroyed.
pub open spec fn spec_refund_or_burn_tokens(to: Seq<char>, b: BalanceView) -> Seq<CosmosMsgView> {
    let native = if b.native.len() == 0 {
        Seq::<CosmosMsgView>::empty()
    } else {
        seq![CosmosMsgView::BankSend { to: to, amount: b.native }]
    };
    native + b.cw20.map_values(
        |t: AssetEntry| CosmosMsgView::Cw20Burn { contract: t.id, amount: t.amount },
    )
}

/// Transition of `approve`: reject an unknown id, a caller outside the
/// validator set, and a settled escrow; otherwise complete the escrow and
/// emit the instructions that move its balance to the proposer.
pub open spec fn spec_approve(s: Seq<EntryView>, id: Seq<char>, caller: Seq<char>) -> Result<
    (Seq<EntryView>, Seq<CosmosMsgView>),
    ContractError,
> {
    if !has_key(s, key_of(id)) {
        Err(ContractError::NotFound)
    } else {
        let i = find_key(s, key_of(id));
        let e = s[i].escrow;
        if !e.is_validator(caller) {
            Err(ContractError::Unauthorized)
        } else if spec_locked(e.status) {
            Err(ContractError::Locked)
        } else {
            Ok(
                (
                    s.update(
                        i,
                        EntryView {
                            id: s[i].id,
                            escrow: EscrowView { status: Status::Completed, ..e },
                        },
                    ),
                    spec_send_tokens(e.proposer, e.balance),
                ),
            )
        }
    }
}

/// Transition of `refund`: same gates as `approve`; cancels the escrow and
/// emits the instructions that return native funds to the source and burn
/// tokenized funds.
pub open spec fn spec_refund(s: Seq<EntryView>, id: Seq<char>, caller: Seq<char>) -> Result<
    (Seq<EntryView>, Seq<CosmosMsgView>),
    ContractError,
> {
    if !has_key(s, key_of(id)) {
        Err(ContractError::NotFound)
    } else {
        let i = find_key(s, key_of(id));
        let e = s[i].escrow;
        if !e.is_validator(caller) {
            Err(ContractError::Unauthorized)
        } else if spec_locked(e.status) {
            Err(ContractError::Locked)
        } else {
            Ok(
                (
                    s.update(
                        i,
                        EntryView {
                            id: s[i].id,
                            escrow: EscrowView { status: Status::Canceled, ..e },
                        },
                    ),
                    spec_refund_or_burn_tokens(e.source, e.balance),
                ),
            )
        }
    }
}

// ---------------------------------------------------------------------------
// State-changing operations
// ---------------------------------------------------------------------------

/// If the id is stored, the top-up credit must fit into its balance without
/// exceeding the machine range for amounts.
pub open spec fn top_up_fits(s: Seq<EntryView>, id: Seq<char>, c: CreditView) -> bool {
    has_key(s, key_of(id)) ==> merge_fits(s[find_key(s, key_of(id))].escrow.balance, c)
}

/// Create an escrow: reject an empty credit, then an id already in use;
/// otherwise store a fresh `Opened` record whose balance holds exactly the
/// credit and whose whitelist auto-admits a tokenized funding asset.
pub fn execute_create(
    store: &mut EscrowStore,
    msg: CreateMsg,
    balance: Balance,
    sender: &String,
) -> (r: Result<(), ContractError>)
    requires
        store_wf(old(store)@),
        merge_fits(empty_balance(), balance@),
    ensures
        store_wf(final(store)@),
        match spec_create(old(store)@, msg@, balance@, sender@) {
            Ok(s2) => r is Ok && final(store)@ == s2,
            Err(e) => r == Err::<(), ContractError>(e) && final(store)@ == old(store)@,
        },
{
    let ghost m = msg@;
    let ghost c = balance@;
    if balance.is_empty() {
        return Err(ContractError::EmptyBalance);
    }
    let CreateMsg { id, url, description, validators, proposer, source: _, cw20_whitelist } = msg;
    let mut wl: Vec<String> = match cw20_whitelist {
        Some(v) => v,
        None => Vec::new(),
    };
    let ghost base = match m.whitelist {
        Some(w) => w,
        None => Seq::<Seq<char>>::empty(),
    };
    proof {
        assert(wl@.map_values(|s: String| s@) =~= base);
    }
    if let Balance::Cw20(token) = &balance {
        let present = contains_string(&wl, &token.address);
        proof {
            lemma_exists_string(wl@, base, token.address@);
            assert(present == str_list_contains(base, token.address@));
        }
        if !present {
            let addr = token.address.clone();
            wl.push(addr);
            proof {
                assert(wl@.map_values(|s: String| s@) =~= base.push(token.address@));
            }
        }
    }
    proof {
        assert(wl@.map_values(|s: String| s@) =~= effective_whitelist(m.whitelist, c));
    }
    let mut gb = GenericBalance::default();
    gb.add_tokens(balance);
    proof {
        assert(empty_balance().wf());
        lemma_apply_credits_wf(empty_balance(), credits_of(c));
    }
    let escrow = Escrow {
        id: id.clone(),
        url,
        description,
        validators,
        proposer,
        source: sender.clone(),
        balance: gb,
        cw20_whitelist: wl,
        status: Status::Opened,
    };
    proof {
        assert(escrow@ =~= spec_new_escrow(m, c, sender@));
        assert(escrow@.wf());
    }
    match store.create_if_absent(id, escrow) {
        Ok(()) => {
            proof {
                assert(EntryView { id: id@, escrow: escrow@ } =~= EntryView {
                    id: m.id,
                    escrow: spec_new_escrow(m, c, sender@),
                });
            }
            Ok(())
        },
        Err(e) => Err(e),
    }
}

/// Top up an escrow: reject an empty credit, an unknown id, a settled
/// escrow, and a tokenized credit outside the whitelist; otherwise merge the
/// credit into the stored balance.
pub fn execute_top_up(store: &mut EscrowStore, id: String, balance: Balance) -> (r: Result<
    (),
    ContractError,
>)
    requires
        store_wf(old(store)@),
        top_up_fits(old(store)@, id@, balance@),
    ensures
        store_wf(final(store)@),
        match spec_top_up(old(store)@, id@, balance@) {
            Ok(s2) => r is Ok && final(store)@ == s2,
            Err(e) => r == Err::<(), ContractError>(e) && final(store)@ == old(store)@,
        },
{
    let ghost s0 = old(store)@;
    let ghost c = balance@;
    if balance.is_empty() {
        return Err(ContractError::EmptyBalance);
    }
    let (p, found) = store.locate(&id);
    if !found {
        return Err(ContractError::NotFound);
    }
    proof {
        lemma_find_key(s0, key_of(id@));
        lemma_sorted_key_unique(s0, p as int, find_key(s0, key_of(id@)));
        assert(p as int == find_key(s0, key_of(id@)));
        assert(s0[p as int] == store.entries@[p as int]@);
    }
    let ghost e = s0[p as int].escrow;
    if store.entries[p].escrow.locked() {
        return Err(ContractError::Locked);
    }
    if let Balance::Cw20(token) = &balance {
        let admitted = contains_string(&store.entries[p].escrow.cw20_whitelist, &token.address);
        proof {
            lemma_exists_string(
                store.entries@[p as int].escrow.cw20_whitelist@,
                e.whitelist,
                token.address@,
            );
            assert(admitted == e.in_whitelist(token.address@));
        }
        if !admitted {
            return Err(ContractError::NotInWhitelist);
        }
    }
    proof {
        assert(merge_fits(e.balance, c));
        assert(store.entries@[p as int].escrow.balance@ == e.balance);
    }
    store.entries[p].escrow.balance.add_tokens(balance);
    proof {
        let e2 = EscrowView { balance: spec_add_tokens(e.balance, c), ..e };
        let entry2 = EntryView { id: s0[p as int].id, escrow: e2 };
        assert(store.entries@ == old(store).entries@.update(
            p as int,
            store.entries@[p as int],
        ));
        assert(store@ =~~= s0.update(p as int, entry2));
        lemma_apply_credits_wf(e.balance, credits_of(c));
        lemma_update_same_id_wf(s0, p as int, entry2);
    }
    Ok(())
}

/// Approve an escrow: only a listed validator may, only while it is still
/// `Opened`. Completes the escrow and emits the instructions that move its
/// whole balance to the proposer.
pub fn execute_approve(store: &mut EscrowStore, sender: &String, id: &String) -> (r: Result<
    Vec<CosmosMsg>,
    ContractError,
>)
    requires
        store_wf(old(store)@),
    ensures
        store_wf(final(store)@),
        match spec_approve(old(store)@, id@, sender@) {
            Ok(pair) => match r {
                Ok(msgs) => final(store)@ == pair.0 && msgs@.map_values(|m: CosmosMsg| m@)
                    == pair.1,
                Err(_) => false,
            },
            Err(e) => r == Err::<Vec<CosmosMsg>, ContractError>(e) && final(store)@ == old(
                store,
            )@,
        },
{
    let ghost s0 = old(store)@;
    let (p, found) = store.locate(id);
    if !found {
        return Err(ContractError::NotFound);
    }
    proof {
        lemma_find_key(s0, key_of(id@));
        lemma_sorted_key_unique(s0, p as int, find_key(s0, key_of(id@)));
        assert(s0[p as int] == store.entries@[p as int]@);
    }
    let ghost e = s0[p as int].escrow;
    let authorized = contains_string(&store.entries[p].escrow.validators, sender);
    proof {
        lemma_exists_string(store.entries@[p as int].escrow.validators@, e.validators, sender@);
        assert(authorized == e.is_validator(sender@));
    }
    if !authorized {
        return Err(ContractError::Unauthorized);
    }
    if store.entries[p].escrow.locked() {
        return Err(ContractError::Locked);
    }
    store.entries[p].escrow.status = Status::Completed;
    let msgs = send_tokens(&store.entries[p].escrow.proposer, &store.entries[p].escrow.balance);
    proof {
        let e2 = EscrowView { status: Status::Completed, ..e };
        let entry2 = EntryView { id: s0[p as int].id, escrow: e2 };
        assert(store@ =~~= s0.update(p as int, entry2));
        lemma_update_same_id_wf(s0, p as int, entry2);
        assert(store.entries@[p as int].escrow.proposer@ == e.proposer);
        assert(store.entries@[p as int].escrow.balance@ == e.balance);
    }
    Ok(msgs)
}

/// Refund an escrow: only a listed validator may, only while it is still
/// `Opened`. Cancels the escrow and emits the instructions that return its
/// native funds to the source and burn its tokenized funds.
pub fn execute_refund(store: &mut EscrowStore, sender: &String, id: &String) -> (r: Result<
    Vec<CosmosMsg>,
    ContractError,
>)
    requires
        store_wf(old(store)@),
    ensures
        store_wf(final(store)@),
        match spec_refund(old(store)@, id@, sender@) {
            Ok(pair) => match r {
                Ok(msgs) => final(store)@ == pair.0 && msgs@.map_values(|m: CosmosMsg| m@)
                    == pair.1,
                Err(_) => false,
            },
            Err(e) => r == Err::<Vec<CosmosMsg>, ContractError>(e) && final(store)@ == old(
                store,
            )@,
        },
{
    let ghost s0 = old(store)@;
    let (p, found) = store.locate(id);
    if !found {
        return Err(ContractError::NotFound);
    }
    proof {
        lemma_find_key(s0, key_of(id@));
        lemma_sorted_key_unique(s0, p as int, find_key(s0, key_of(id@)));
        assert(s0[p as int] == store.entries@[p as int]@);
    }
    let ghost e = s0[p as int].escrow;
    let authorized = contains_string(&store.entries[p].escrow.validators, sender);
    proof {
        lemma_exists_string(store.entries@[p as int].escrow.validators@, e.validators, sender@);
        assert(authorized == e.is_validator(sender@));
    }
    if !authorized {
        return Err(ContractError::Unauthorized);
    }
    if store.entries[p].escrow.locked() {
        return Err(ContractError::Locked);
    }
    store.entries[p].escrow.status = Status::Canceled;
    let msgs = refund_or_burn_tokens(
        &store.entries[p].escrow.source,
        &store.entries[p].escrow.balance,
    );
    proof {
        let e2 = EscrowView { status: Status::Canceled, ..e };
        let entry2 = EntryView { id: s0[p as int].id, escrow: e2 };
        assert(store@ =~~= s0.update(p as int, entry2));
        lemma_update_same_id_wf(s0, p as int, entry2);
        assert(store.entries@[p as int].escrow.source@ == e.source);
        assert(store.entries@[p as int].escrow.balance@ == e.balance);
    }
    Ok(msgs)
}

// ---------------------------------------------------------------------------
// Emitting transfer instructions
// ---------------------------------------------------------------------------

/// Build the instructions that move the whole balance to one address.
pub fn send_tokens(to: &String, balance: &GenericBalance) -> (msgs: Vec<CosmosMsg>)
    ensures
        msgs@.map_values(|m: CosmosMsg| m@) == spec_send_tokens(to@, balance@),
{
    let ghost target = spec_send_tokens(to@, balance@);
    let mut msgs: Vec<CosmosMsg> = Vec::new();
    let ghost base: int = if balance@.native.len() == 0 {
        0
    } else {
        1
    };
    if !balance.native.is_empty() {
        msgs.push(
            CosmosMsg::BankSend { to_address: to.clone(), amount: clone_native(&balance.native) },
        );
        proof {
            assert(msgs@[0]@ == target[0]);
        }
    }
    let mut i: usize = 0;
    while i < balance.cw20.len()
        invariant
            0 <= i <= balance@.cw20.len(),
            balance.cw20@.len() == balance@.cw20.len(),
            target == spec_send_tokens(to@, balance@),
            base == if balance@.native.len() == 0 { 0int } else { 1int },
            target.len() == base + balance@.cw20.len(),
            msgs@.len() == base + i,
            forall|j: int| 0 <= j < base + i ==> (#[trigger] msgs@[j])@ == target[j],
        decreases balance@.cw20.len() - i,
    {
        let m = CosmosMsg::Cw20Transfer {
            contract_addr: balance.cw20[i].address.clone(),
            recipient: to.clone(),
            amount: balance.cw20[i].amount,
        };
        proof {
            assert(balance@.cw20[i as int] == balance.cw20@[i as int]@);
            assert(target[base + i] == CosmosMsgView::Cw20Transfer {
                contract: balance@.cw20[i as int].id,
                recipient: to@,
                amount: balance@.cw20[i as int].amount,
            });
        }
        msgs.push(m);
        i = i + 1;
    }
    proof {
        assert(msgs@.map_values(|m: CosmosMsg| m@) =~= target);
    }
    msgs
}

/// Build the instructions of a refund: native funds return to the address,
/// tokenized funds are destroyed.
pub fn refund_or_burn_tokens(to: &String, balance: &GenericBalance) -> (msgs: Vec<CosmosMsg>)
    ensures
        msgs@.map_values(|m: CosmosMsg| m@) == spec_refund_or_burn_tokens(to@, balance@),
{
    let ghost target = spec_refund_or_burn_tokens(to@, balance@);
    let mut msgs: Vec<CosmosMsg> = Vec::new();
    let ghost base: int = if balance@.native.len() == 0 {
        0
    } else {
        1
    };
    if !balance.native.is_empty() {
        msgs.push(
            CosmosMsg::BankSend { to_address: to.clone(), amount: clone_native(&balance.native) },
        );
        proof {
            assert(msgs@[0]@ == target[0]);
        }
    }
    let mut i: usize = 0;
    while i < balance.cw20.len()
        invariant
            0 <= i <= balance@.cw20.len(),
            balance.cw20@.len() == balance@.cw20.len(),
            target == spec_refund_or_burn_tokens(to@, balance@),
            base == if balance@.native.len() == 0 { 0int } else { 1int },
            target.len() == base + balance@.cw20.len(),
            msgs@.len() == base + i,
            forall|j: int| 0 <= j < base + i ==> (#[trigger] msgs@[j])@ == target[j],
        decreases balance@.cw20.len() - i,
    {
        let m = CosmosMsg::Cw20Burn {
            contract_addr: balance.cw20[i].address.clone(),
            amount: balance.cw20[i].amount,
        };
        proof {
            assert(balance@.cw20[i as int] == balance.cw20@[i as int]@);
            assert(target[base + i] == CosmosMsgView::Cw20Burn {
                contract: balance@.cw20[i as int].id,
                amount: balance@.cw20[i as int].amount,
            });
        }
        msgs.push(m);
        i = i + 1;
    }
    proof {
        assert(msgs@.map_values(|m: CosmosMsg| m@) =~= target);
    }
    msgs
}

// ---------------------------------------------------------------------------
// Query projection
// ---------------------------------------------------------------------------

/// What the detail view of an escrow shows.
pub open spec fn spec_details(e: EscrowView) -> DetailsView {
    DetailsView {
        id: e.id,
        url: e.url,
        description: e.description,
        validators: e.validators,
        proposer: e.proposer,
        source: e.source,
        native_balance: e.balance.native,
        cw20_balance: e.balance.cw20,
        cw20_whitelist: e.whitelist,
        status: e.status,
    }
}

impl DetailsResponse {
    /// Project one escrow record into its detail view.
    pub fn from_escrow(escrow: &Escrow) -> (r: DetailsResponse)
        ensures
            r@ == spec_details(escrow@),
    {
        let r = DetailsResponse {
            id: escrow.id.clone(),
            url: escrow.url.clone(),
            description: escrow.description.clone(),
            validators: escrow.human_validators(),
            proposer: escrow.proposer.clone(),
            source: escrow.source.clone(),
            native_balance: clone_native(&escrow.balance.native),
            cw20_balance: clone_cw20(&escrow.balance.cw20),
            cw20_whitelist: escrow.human_whitelist(),
            status: escrow.status,
        };
        proof {
            assert(r@ =~= spec_details(escrow@));
        }
        r
    }
}

/// Details of the escrow stored under the id, or `NotFound`.
pub fn query_details(store: &EscrowStore, id: &String) -> (r: Result<
    DetailsResponse,
    ContractError,
>)
    requires
        store_sorted(store@),
    ensures
        match r {
            Ok(d) => has_key(store@, key_of(id@)) && d@ == spec_details(
                store@[find_key(store@, key_of(id@))].escrow,
            ),
            Err(e) => e == ContractError::NotFound && !has_key(store@, key_of(id@)),
        },
{
    match store.load(id) {
        Ok(escrow) => Ok(DetailsResponse::from_escrow(escrow)),
        Err(e) => Err(e),
    }
}

/// All escrow ids, in ascending byte order.
pub fn query_list(store: &EscrowStore) -> (r: ListResponse)
    ensures
        r.escrows@.len() == store@.len(),
        forall|i: int| 0 <= i < store@.len() ==> (#[trigger] r.escrows@[i])@ == store@[i].id,
{
    ListResponse { escrows: all_escrow_ids(store) }
}

/// Details of every escrow, in ascending byte order of the ids.
pub fn query_list_detailed(store: &EscrowStore) -> (r: ListDetailedResponse)
    ensures
        r.escrows@.len() == store@.len(),
        forall|i: int|
            0 <= i < store@.len() ==> (#[trigger] r.escrows@[i])@ == spec_details(
                store@[i].escrow,
            ),
{
    let mut escrows: Vec<DetailsResponse> = Vec::new();
    let mut i: usize = 0;
    while i < store.entries.len()
        invariant
            0 <= i <= store@.len(),
            store@.len() == store.entries@.len(),
            escrows@.len() == i,
            forall|j: int|
                0 <= j < i ==> (#[trigger] escrows@[j])@ == spec_details(store@[j].escrow),
        decreases store@.len() - i,
    {
        let d = DetailsResponse::from_escrow(&store.entries[i].escrow);
        proof {
            assert(store@[i as int] == store.entries@[i as int]@);
        }
        escrows.push(d);
        i = i + 1;
    }
    ListDetailedResponse { escrows }
}

} // verus!
