//! Multi-asset balances.
//!
//! A balance keeps one entry per asset identity — a native denomination or a
//! tokenized asset identified by the address of its issuing contract — in
//! insertion order. Merging a credit adds to the existing entry of the same
//! identity or appends a fresh entry at the end; zero amounts are ignored.
//!
//! The mathematical model sums amounts per [`AssetId`], which makes the
//! merge operation provably independent of merge order.

use vstd::prelude::*;

verus! {

/// A native coin: an amount of some denomination.
#[derive(Debug, PartialEq)]
pub struct Coin {
    pub denom: String,
    pub amount: u128,
}

/// An amount of a tokenized asset, identified by its issuing contract address.
#[derive(Debug, PartialEq)]
pub struct Cw20Coin {
    pub address: String,
    pub amount: u128,
}

/// A single credit handed to the contract: either a batch of native coins or
/// one tokenized coin.
#[derive(Debug, PartialEq)]
pub enum Balance {
    Native(Vec<Coin>),
    Cw20(Cw20Coin),
}

/// The funds held by an escrow, split by asset kind, in insertion order.
#[derive(Debug, PartialEq)]
pub struct GenericBalance {
    pub native: Vec<Coin>,
    pub cw20: Vec<Cw20Coin>,
}

/// Model of one balance entry: an asset name with a mathematical amount.
#[verifier::ext_equal]
pub struct AssetEntry {
    pub id: Seq<char>,
    pub amount: nat,
}

/// Model of a [`Balance`] credit.
pub enum CreditView {
    Native(Seq<AssetEntry>),
    Cw20(AssetEntry),
}

/// Model of a [`GenericBalance`].
#[verifier::ext_equal]
pub struct BalanceView {
    pub native: Seq<AssetEntry>,
    pub cw20: Seq<AssetEntry>,
}

/// An asset identity: a native denomination or a tokenized asset.
pub enum AssetId {
    Native(Seq<char>),
    Cw20(Seq<char>),
}

impl View for Coin {
    type V = AssetEntry;

    open spec fn view(&self) -> AssetEntry {
        AssetEntry { id: self.denom@, amount: self.amount as nat }
    }
}

impl View for Cw20Coin {
    type V = AssetEntry;

    open spec fn view(&self) -> AssetEntry {
        AssetEntry { id: self.address@, amount: self.amount as nat }
    }
}

impl View for Balance {
    type V = CreditView;

    open spec fn view(&self) -> CreditView {
        match self {
            Balance::Native(coins) => CreditView::Native(coins@.map_values(|c: Coin| c@)),
            Balance::Cw20(token) => CreditView::Cw20(token@),
        }
    }
}

impl View for GenericBalance {
    type V = BalanceView;

    open spec fn view(&self) -> BalanceView {
        BalanceView {
            native: self.native@.map_values(|c: Coin| c@),
            cw20: self.cw20@.map_values(|c: Cw20Coin| c@),
        }
    }
}

/// The balance with no funds at all.
pub open spec fn empty_balance() -> BalanceView {
    BalanceView { native: Seq::empty(), cw20: Seq::empty() }
}

/// Each asset name appears in at most one entry.
pub open spec fn distinct_ids(s: Seq<AssetEntry>) -> bool {
    forall|i: int, j: int| 0 <= i < j < s.len() ==> s[i].id != s[j].id
}

/// Some entry carries the given asset name.
pub open spec fn contains_id(s: Seq<AssetEntry>, id: Seq<char>) -> bool {
    exists|i: int| 0 <= i < s.len() && s[i].id == id
}

impl BalanceView {
    /// Well-formed: one entry per identity on either side.
    pub open spec fn wf(self) -> bool {
        distinct_ids(self.native) && distinct_ids(self.cw20)
    }
}

/// Total amount the entries carry under the given asset name.
pub open spec fn sum_entries(s: Seq<AssetEntry>, id: Seq<char>) -> nat
    decreases s.len(),
{
    if s.len() == 0 {
        0
    } else {
        (if s[0].id == id {
            s[0].amount
        } else {
            0
        }) + sum_entries(s.drop_first(), id)
    }
}

/// Amount a balance holds under the given asset identity.
pub open spec fn amount_of(b: BalanceView, q: AssetId) -> nat {
    match q {
        AssetId::Native(d) => sum_entries(b.native, d),
        AssetId::Cw20(a) => sum_entries(b.cw20, a),
    }
}

/// Merge one amount into an entry list: add to the first entry of the same
/// name, or append a fresh entry; a zero amount changes nothing.
pub open spec fn add_entry(s: Seq<AssetEntry>, id: Seq<char>, a: nat) -> Seq<AssetEntry>
    decreases s.len(),
{
    if a == 0 {
        s
    } else if s.len() == 0 {
        seq![AssetEntry { id: id, amount: a }]
    } else if s[0].id == id {
        seq![AssetEntry { id: id, amount: (s[0].amount + a) as nat }] + s.drop_first()
    } else {
        seq![s[0]] + add_entry(s.drop_first(), id, a)
    }
}

/// Merge a single asset credit into a balance.
pub open spec fn merge_credit(b: BalanceView, q: AssetId, a: nat) -> BalanceView {
    match q {
        AssetId::Native(d) => BalanceView { native: add_entry(b.native, d, a), cw20: b.cw20 },
        AssetId::Cw20(ad) => BalanceView { native: b.native, cw20: add_entry(b.cw20, ad, a) },
    }
}

/// The individual asset credits a [`Balance`] carries, in order.
pub open spec fn credits_of(c: CreditView) -> Seq<(AssetId, nat)> {
    match c {
        CreditView::Native(coins) => coins.map_values(|e: AssetEntry| (AssetId::Native(e.id), e.amount)),
        CreditView::Cw20(token) => seq![(AssetId::Cw20(token.id), token.amount)],
    }
}

/// Merge a sequence of asset credits, left to right.
pub open spec fn apply_credits(b: BalanceView, cs: Seq<(AssetId, nat)>) -> BalanceView
    decreases cs.len(),
{
    if cs.len() == 0 {
        b
    } else {
        apply_credits(merge_credit(b, cs[0].0, cs[0].1), cs.drop_first())
    }
}

/// What merging a whole [`Balance`] credit yields.
pub open spec fn spec_add_tokens(b: BalanceView, c: CreditView) -> BalanceView {
    apply_credits(b, credits_of(c))
}

/// Total amount a sequence of credits carries under one asset identity.
pub open spec fn credits_total(cs: Seq<(AssetId, nat)>, q: AssetId) -> nat
    decreases cs.len(),
{
    if cs.len() == 0 {
        0
    } else {
        (if cs[0].0 == q {
            cs[0].1
        } else {
            0
        }) + credits_total(cs.drop_first(), q)
    }
}

/// Amount a [`Balance`] credit carries under one asset identity.
pub open spec fn credit_amount(c: CreditView, q: AssetId) -> nat {
    credits_total(credits_of(c), q)
}

/// A credit is empty when every amount in it is zero.
pub open spec fn credit_is_empty(c: CreditView) -> bool {
    match c {
        CreditView::Native(coins) => forall|i: int|
            0 <= i < coins.len() ==> (#[trigger] coins[i]).amount == 0,
        CreditView::Cw20(token) => token.amount == 0,
    }
}

/// All merged amounts stay within the machine range for amounts.
pub open spec fn merge_fits(b: BalanceView, c: CreditView) -> bool {
    forall|q: AssetId| #[trigger] amount_of(b, q) + credit_amount(c, q) <= u128::MAX
}

// ---------------------------------------------------------------------------
// Lemmas about merging
// ---------------------------------------------------------------------------

/// Merging one amount adds it to the total of its own asset name and leaves
/// every other total unchanged.
pub proof fn lemma_add_entry_sum(s: Seq<AssetEntry>, id: Seq<char>, a: nat, q: Seq<char>)
    ensures
        sum_entries(add_entry(s, id, a), q) == sum_entries(s, q) + (if q == id {
            a
        } else {
            0
        }),
    decreases s.len(),
{
    let r = add_entry(s, id, a);
    if a == 0 {
    } else if s.len() == 0 {
        assert(r.drop_first() =~= Seq::<AssetEntry>::empty());
        assert(r[0].id == id && r[0].amount == a);
        assert(sum_entries(Seq::<AssetEntry>::empty(), q) == 0);
        assert(sum_entries(r, q) == (if r[0].id == q {
            r[0].amount
        } else {
            0
        }) + sum_entries(r.drop_first(), q));
    } else if s[0].id == id {
        assert(r.drop_first() =~= s.drop_first());
        assert(r[0].id == id && r[0].amount == s[0].amount + a);
        assert(sum_entries(r, q) == (if r[0].id == q {
            r[0].amount
        } else {
            0
        }) + sum_entries(r.drop_first(), q));
    } else {
        lemma_add_entry_sum(s.drop_first(), id, a, q);
        assert(r.drop_first() =~= add_entry(s.drop_first(), id, a));
        assert(r[0] == s[0]);
        assert(sum_entries(r, q) == (if r[0].id == q {
            r[0].amount
        } else {
            0
        }) + sum_entries(r.drop_first(), q));
    }
}

/// The names present after a merge are the old names plus, for a non-zero
/// amount, the merged name.
pub proof fn lemma_add_entry_ids(s: Seq<AssetEntry>, id: Seq<char>, a: nat, q: Seq<char>)
    ensures
        contains_id(add_entry(s, id, a), q) <==> contains_id(s, q) || (a > 0 && q == id),
    decreases s.len(),
{
    let r = add_entry(s, id, a);
    if a == 0 {
    } else if s.len() == 0 {
        assert(r[0].id == id);
        if contains_id(s, q) {
            let i = choose|i: int| 0 <= i < s.len() && s[i].id == q;
        }
    } else if s[0].id == id {
        assert(r.len() == s.len());
        assert(forall|i: int| 0 <= i < s.len() ==> r[i].id == s[i].id);
        if contains_id(s, q) {
            let i = choose|i: int| 0 <= i < s.len() && s[i].id == q;
            assert(r[i].id == q);
        }
        if contains_id(r, q) {
            let i = choose|i: int| 0 <= i < r.len() && r[i].id == q;
            assert(s[i].id == q);
        }
    } else {
        lemma_add_entry_ids(s.drop_first(), id, a, q);
        assert(r.drop_first() =~= add_entry(s.drop_first(), id, a));
        assert(r[0] == s[0]);
        if contains_id(s, q) {
            let i = choose|i: int| 0 <= i < s.len() && s[i].id == q;
            if i > 0 {
                assert(s.drop_first()[i - 1].id == q);
            }
        }
        if contains_id(r, q) {
            let i = choose|i: int| 0 <= i < r.len() && r[i].id == q;
            if i > 0 {
                assert(r.drop_first()[i - 1].id == q);
            }
        }
        if contains_id(s.drop_first(), q) {
            let i = choose|i: int| 0 <= i < s.drop_first().len() && s.drop_first()[i].id == q;
            assert(s[i + 1].id == q);
        }
        if contains_id(add_entry(s.drop_first(), id, a), q) {
            let i = choose|i: int|
                0 <= i < add_entry(s.drop_first(), id, a).len() && add_entry(
                    s.drop_first(),
                    id,
                    a,
                )[i].id == q;
            assert(r[i + 1].id == q);
        }
    }
}

/// Merging preserves the one-entry-per-name invariant.
pub proof fn lemma_add_entry_distinct(s: Seq<AssetEntry>, id: Seq<char>, a: nat)
    requires
        distinct_ids(s),
    ensures
        distinct_ids(add_entry(s, id, a)),
    decreases s.len(),
{
    let r = add_entry(s, id, a);
    if a == 0 {
    } else if s.len() == 0 {
    } else if s[0].id == id {
        assert(forall|i: int| 0 <= i < s.len() ==> r[i].id == s[i].id);
    } else {
        assert(distinct_ids(s.drop_first())) by {
            assert(forall|i: int, j: int|
                0 <= i < j < s.drop_first().len() ==> s.drop_first()[i] == s[i + 1]
                    && s.drop_first()[j] == s[j + 1]);
        }
        lemma_add_entry_distinct(s.drop_first(), id, a);
        assert(r.drop_first() =~= add_entry(s.drop_first(), id, a));
        assert forall|i: int, j: int| 0 <= i < j < r.len() implies r[i].id != r[j].id by {
            if i == 0 {
                assert(r[0] == s[0]);
                assert(r[j] == add_entry(s.drop_first(), id, a)[j - 1]);
                lemma_add_entry_ids(s.drop_first(), id, a, s[0].id);
                assert(!contains_id(s.drop_first(), s[0].id)) by {
                    if contains_id(s.drop_first(), s[0].id) {
                        let k = choose|k: int|
                            0 <= k < s.drop_first().len() && s.drop_first()[k].id == s[0].id;
                        assert(s[k + 1].id == s[0].id);
                    }
                }
                if r[j].id == s[0].id {
                    assert(contains_id(add_entry(s.drop_first(), id, a), s[0].id));
                    lemma_add_entry_ids(s.drop_first(), id, a, s[0].id);
                }
            } else {
                assert(r[i] == add_entry(s.drop_first(), id, a)[i - 1]);
                assert(r[j] == add_entry(s.drop_first(), id, a)[j - 1]);
            }
        }
    }
}

/// A single entry carries at most the total of its name.
pub proof fn lemma_entry_le_sum(s: Seq<AssetEntry>, i: int)
    requires
        0 <= i < s.len(),
    ensures
        s[i].amount <= sum_entries(s, s[i].id),
    decreases s.len(),
{
    if i == 0 {
        lemma_sum_entries_nonneg(s.drop_first(), s[0].id);
    } else {
        lemma_entry_le_sum(s.drop_first(), i - 1);
        assert(s.drop_first()[i - 1] == s[i]);
    }
}

proof fn lemma_sum_entries_nonneg(s: Seq<AssetEntry>, id: Seq<char>)
    ensures
        sum_entries(s, id) >= 0,
{
}

/// Merging one credit changes only the total of its own identity, by exactly
/// the merged amount.
pub proof fn lemma_merge_credit_amount(b: BalanceView, q0: AssetId, a: nat, q: AssetId)
    ensures
        amount_of(merge_credit(b, q0, a), q) == amount_of(b, q) + (if q == q0 {
            a
        } else {
            0
        }),
{
    match (q0, q) {
        (AssetId::Native(d0), AssetId::Native(d)) => lemma_add_entry_sum(b.native, d0, a, d),
        (AssetId::Cw20(t0), AssetId::Cw20(t)) => lemma_add_entry_sum(b.cw20, t0, a, t),
        _ => {},
    }
}

/// Merging preserves well-formedness.
pub proof fn lemma_merge_credit_wf(b: BalanceView, q0: AssetId, a: nat)
    requires
        b.wf(),
    ensures
        merge_credit(b, q0, a).wf(),
{
    match q0 {
        AssetId::Native(d) => lemma_add_entry_distinct(b.native, d, a),
        AssetId::Cw20(t) => lemma_add_entry_distinct(b.cw20, t, a),
    }
}

/// Merging a sequence of credits adds, per identity, exactly their total.
pub proof fn lemma_apply_credits_amount(b: BalanceView, cs: Seq<(AssetId, nat)>, q: AssetId)
    ensures
        amount_of(apply_credits(b, cs), q) == amount_of(b, q) + credits_total(cs, q),
    decreases cs.len(),
{
    if cs.len() > 0 {
        lemma_merge_credit_amount(b, cs[0].0, cs[0].1, q);
        lemma_apply_credits_amount(merge_credit(b, cs[0].0, cs[0].1), cs.drop_first(), q);
    }
}

/// Merging a sequence of credits preserves well-formedness.
pub proof fn lemma_apply_credits_wf(b: BalanceView, cs: Seq<(AssetId, nat)>)
    requires
        b.wf(),
    ensures
        apply_credits(b, cs).wf(),
    decreases cs.len(),
{
    if cs.len() > 0 {
        lemma_merge_credit_wf(b, cs[0].0, cs[0].1);
        lemma_apply_credits_wf(merge_credit(b, cs[0].0, cs[0].1), cs.drop_first());
    }
}

/// Extending a merge by one credit merges it at the end.
pub proof fn lemma_apply_credits_snoc(b: BalanceView, cs: Seq<(AssetId, nat)>, k: int)
    requires
        0 <= k < cs.len(),
    ensures
        apply_credits(b, cs.take(k + 1)) == merge_credit(
            apply_credits(b, cs.take(k)),
            cs[k].0,
            cs[k].1,
        ),
    decreases k,
{
    if k == 0 {
        assert(cs.take(1).drop_first() =~= Seq::<(AssetId, nat)>::empty());
        assert(cs.take(0) =~= Seq::<(AssetId, nat)>::empty());
        assert(cs.take(1)[0] == cs[0]);
        assert(cs.take(1).len() == 1);
        let b1 = merge_credit(b, cs[0].0, cs[0].1);
        assert(apply_credits(b1, Seq::<(AssetId, nat)>::empty()) == b1);
        assert(apply_credits(b, cs.take(0)) == b);
        assert(apply_credits(b, cs.take(1)) == apply_credits(b1, cs.take(1).drop_first()));
    } else {
        let b1 = merge_credit(b, cs[0].0, cs[0].1);
        assert(cs.take(k + 1).drop_first() =~= cs.drop_first().take(k));
        assert(cs.take(k).drop_first() =~= cs.drop_first().take(k - 1));
        lemma_apply_credits_snoc(b1, cs.drop_first(), k - 1);
        assert(cs.drop_first()[k - 1] == cs[k]);
        assert(cs.take(k + 1)[0] == cs[0]);
        assert(cs.take(k)[0] == cs[0]);
        assert(cs.take(k + 1).len() > 0);
        assert(cs.take(k).len() > 0);
        assert(apply_credits(b, cs.take(k + 1)) == apply_credits(b1, cs.drop_first().take(k)));
        assert(apply_credits(b, cs.take(k)) == apply_credits(b1, cs.drop_first().take(k - 1)));
    }
}

/// A prefix of a credit sequence carries at most the whole total.
pub proof fn lemma_credits_total_take(cs: Seq<(AssetId, nat)>, k: int, q: AssetId)
    requires
        0 <= k <= cs.len(),
    ensures
        credits_total(cs.take(k), q) <= credits_total(cs, q),
        k < cs.len() ==> credits_total(cs.take(k), q) + (if cs[k].0 == q {
            cs[k].1
        } else {
            0
        }) <= credits_total(cs, q),
    decreases cs.len(),
{
    if k == 0 {
        assert(cs.take(0) =~= Seq::<(AssetId, nat)>::empty());
        if cs.len() > 0 {
            lemma_credits_total_take(cs.drop_first(), 0, q);
        }
    } else {
        assert(cs.take(k)[0] == cs[0]);
        assert(cs.take(k).drop_first() =~= cs.drop_first().take(k - 1));
        lemma_credits_total_take(cs.drop_first(), k - 1, q);
        if k < cs.len() {
            assert(cs.drop_first()[k - 1] == cs[k]);
        }
    }
}

// ---------------------------------------------------------------------------
// Merge order does not matter
// ---------------------------------------------------------------------------

proof fn lemma_credits_total_remove(cs: Seq<(AssetId, nat)>, j: int, q: AssetId)
    requires
        0 <= j < cs.len(),
    ensures
        credits_total(cs, q) == credits_total(cs.remove(j), q) + (if cs[j].0 == q {
            cs[j].1
        } else {
            0
        }),
    decreases cs.len(),
{
    if j == 0 {
        assert(cs.remove(0) =~= cs.drop_first());
    } else {
        lemma_credits_total_remove(cs.drop_first(), j - 1, q);
        assert(cs.remove(j).drop_first() =~= cs.drop_first().remove(j - 1));
        assert(cs.remove(j)[0] == cs[0]);
        assert(cs.drop_first()[j - 1] == cs[j]);
    }
}

/// Two credit sequences with the same credits carry the same totals.
pub proof fn lemma_credits_total_permutation(
    cs1: Seq<(AssetId, nat)>,
    cs2: Seq<(AssetId, nat)>,
    q: AssetId,
)
    requires
        cs1.to_multiset() == cs2.to_multiset(),
    ensures
        credits_total(cs1, q) == credits_total(cs2, q),
    decreases cs1.len(),
{
    broadcast use vstd::seq_lib::group_to_multiset_ensures;

    if cs1.len() == 0 {
        assert(cs1.to_multiset().len() == 0);
        assert(cs2.len() == 0);
    } else {
        let x = cs1[0];
        assert(cs1.contains(x));
        assert(cs1.to_multiset().count(x) > 0);
        assert(cs2.to_multiset().count(x) > 0);
        assert(cs2.contains(x));
        let j = choose|j: int| 0 <= j < cs2.len() && cs2[j] == x;
        assert(cs1.remove(0).to_multiset() =~= cs1.to_multiset().remove(x));
        assert(cs2.remove(j).to_multiset() =~= cs2.to_multiset().remove(x));
        assert(cs1.remove(0) =~= cs1.drop_first());
        lemma_credits_total_permutation(cs1.drop_first(), cs2.remove(j), q);
        lemma_credits_total_remove(cs2, j, q);
    }
}

/// Merging the same multiset of asset credits, in any order, yields the same
/// amount for every asset identity: balance merging is commutative and
/// associative.
pub proof fn lemma_merge_order_irrelevant(
    b: BalanceView,
    cs1: Seq<(AssetId, nat)>,
    cs2: Seq<(AssetId, nat)>,
)
    requires
        cs1.to_multiset() == cs2.to_multiset(),
    ensures
        forall|q: AssetId|
            amount_of(#[trigger] apply_credits(b, cs1), q) == amount_of(apply_credits(b, cs2), q),
{
    assert forall|q: AssetId|
        amount_of(#[trigger] apply_credits(b, cs1), q) == amount_of(
            apply_credits(b, cs2),
            q,
        ) by {
        lemma_apply_credits_amount(b, cs1, q);
        lemma_apply_credits_amount(b, cs2, q);
        lemma_credits_total_permutation(cs1, cs2, q);
    }
}

// ---------------------------------------------------------------------------
// Executable operations
// ---------------------------------------------------------------------------

/// Merging into the first entry of the merged name is an in-place update.
proof fn lemma_add_entry_found(s: Seq<AssetEntry>, id: Seq<char>, a: nat, i: int)
    requires
        a > 0,
        0 <= i < s.len(),
        s[i].id == id,
        forall|j: int| 0 <= j < i ==> s[j].id != id,
    ensures
        add_entry(s, id, a) =~= s.update(i, AssetEntry { id: id, amount: (s[i].amount + a) as nat }),
    decreases i,
{
    if i == 0 {
        assert(add_entry(s, id, a) == seq![
            AssetEntry { id: id, amount: (s[0].amount + a) as nat },
        ] + s.drop_first());
    } else {
        assert(s.drop_first()[i - 1].id == id);
        assert(forall|j: int| 0 <= j < i - 1 ==> s.drop_first()[j] == s[j + 1]);
        lemma_add_entry_found(s.drop_first(), id, a, i - 1);
        assert(add_entry(s, id, a) == seq![s[0]] + add_entry(s.drop_first(), id, a));
    }
}

/// Merging an absent name appends a fresh entry.
proof fn lemma_add_entry_absent(s: Seq<AssetEntry>, id: Seq<char>, a: nat)
    requires
        a > 0,
        !contains_id(s, id),
    ensures
        add_entry(s, id, a) =~= s.push(AssetEntry { id: id, amount: a }),
    decreases s.len(),
{
    if s.len() == 0 {
    } else {
        assert(s[0].id != id);
        assert(!contains_id(s.drop_first(), id)) by {
            if contains_id(s.drop_first(), id) {
                let k = choose|k: int|
                    0 <= k < s.drop_first().len() && s.drop_first()[k].id == id;
                assert(s[k + 1].id == id);
            }
        }
        lemma_add_entry_absent(s.drop_first(), id, a);
        assert(add_entry(s, id, a) == seq![s[0]] + add_entry(s.drop_first(), id, a));
    }
}

/// Index of the first native entry of the given denomination, if any.
fn find_native(v: &Vec<Coin>, denom: &String) -> (r: Option<usize>)
    ensures
        match r {
            Some(i) => i < v@.len() && v@[i as int].denom@ == denom@ && forall|j: int|
                0 <= j < i ==> v@[j].denom@ != denom@,
            None => forall|j: int| 0 <= j < v@.len() ==> v@[j].denom@ != denom@,
        },
{
    let mut i: usize = 0;
    while i < v.len()
        invariant
            0 <= i <= v@.len(),
            forall|j: int| 0 <= j < i ==> v@[j].denom@ != denom@,
        decreases v@.len() - i,
    {
        if v[i].denom == *denom {
            return Some(i);
        }
        i = i + 1;
    }
    None
}

/// Index of the first tokenized entry of the given contract address, if any.
fn find_cw20(v: &Vec<Cw20Coin>, address: &String) -> (r: Option<usize>)
    ensures
        match r {
            Some(i) => i < v@.len() && v@[i as int].address@ == address@ && forall|j: int|
                0 <= j < i ==> v@[j].address@ != address@,
            None => forall|j: int| 0 <= j < v@.len() ==> v@[j].address@ != address@,
        },
{
    let mut i: usize = 0;
    while i < v.len()
        invariant
            0 <= i <= v@.len(),
            forall|j: int| 0 <= j < i ==> v@[j].address@ != address@,
        decreases v@.len() - i,
    {
        if v[i].address == *address {
            return Some(i);
        }
        i = i + 1;
    }
    None
}

impl Balance {
    /// A credit is empty when every amount it carries is zero.
    pub fn is_empty(&self) -> (r: bool)
        ensures
            r == credit_is_empty(self@),
    {
        match self {
            Balance::Native(coins) => {
                let mut i: usize = 0;
                while i < coins.len()
                    invariant
                        0 <= i <= coins@.len(),
                        self@ == CreditView::Native(coins@.map_values(|c: Coin| c@)),
                        forall|j: int| 0 <= j < i ==> coins@[j].amount == 0,
                    decreases coins@.len() - i,
                {
                    if coins[i].amount != 0 {
                        proof {
                            let entries = coins@.map_values(|c: Coin| c@);
                            assert(self@ == CreditView::Native(entries));
                            assert((i as int) < entries.len());
                            assert(entries[i as int].amount != 0);
                            match self@ {
                                CreditView::Native(es) => {
                                    assert(es == entries);
                                    assert(es[i as int].amount != 0);
                                    if credit_is_empty(self@) {
                                        assert(es[i as int].amount == 0);
                                    }
                                },
                                CreditView::Cw20(_) => {
                                    assert(false);
                                },
                            }
                            assert(!credit_is_empty(self@));
                        }
                        return false;
                    }
                    i = i + 1;
                }
                assert(credit_is_empty(self@)) by {
                    assert(forall|j: int|
                        0 <= j < coins@.len() ==> coins@.map_values(|c: Coin| c@)[j].amount
                            == coins@[j].amount);
                }
                true
            },
            Balance::Cw20(token) => token.amount == 0,
        }
    }
}

impl Default for GenericBalance {
    /// A fresh balance holds nothing.
    fn default() -> (r: Self)
        ensures
            r@ == empty_balance(),
    {
        let r = GenericBalance { native: Vec::new(), cw20: Vec::new() };
        proof {
            assert(r@.native =~= empty_balance().native);
            assert(r@.cw20 =~= empty_balance().cw20);
            assert(r@ =~= empty_balance());
        }
        r
    }
}

impl GenericBalance {
    /// Merge a credit into this balance: amounts add up per asset identity,
    /// new identities append at the end, zero amounts change nothing.
    pub fn add_tokens(&mut self, add: Balance)
        requires
            merge_fits(old(self)@, add@),
        ensures
            final(self)@ == spec_add_tokens(old(self)@, add@),
    {
        let ghost cs = credits_of(add@);
        match add {
            Balance::Native(coins) => {
                proof {
                    assert(cs =~= coins@.map_values(|c: Coin| c@).map_values(
                        |e: AssetEntry| (AssetId::Native(e.id), e.amount),
                    ));
                }
                let mut k: usize = 0;
                while k < coins.len()
                    invariant
                        0 <= k <= coins@.len(),
                        cs.len() == coins@.len(),
                        forall|j: int|
                            0 <= j < coins@.len() ==> cs[j] == (
                            AssetId::Native(coins@[j].denom@),
                            coins@[j].amount as nat,
                            ),
                        self@ == apply_credits(old(self)@, cs.take(k as int)),
                        merge_fits(old(self)@, add@),
                        cs == credits_of(add@),
                        self@.cw20 == old(self)@.cw20,
                    decreases coins@.len() - k,
                {
                    let ghost prev = self@;
                    let ghost q = AssetId::Native(coins@[k as int].denom@);
                    let amount = coins[k].amount;
                    proof {
                        lemma_apply_credits_snoc(old(self)@, cs, k as int);
                    }
                    if amount > 0 {
                        proof {
                            lemma_apply_credits_amount(old(self)@, cs.take(k as int), q);
                            lemma_credits_total_take(cs, k as int, q);
                            assert(amount_of(prev, q) + amount <= u128::MAX);
                        }
                        match find_native(&self.native, &coins[k].denom) {
                            Some(i) => {
                                proof {
                                    assert(prev.native[i as int] == self.native@[i as int]@);
                                    lemma_entry_le_sum(prev.native, i as int);
                                    assert(prev.native[i as int].amount <= amount_of(prev, q));
                                    lemma_add_entry_found(
                                        prev.native,
                                        coins@[k as int].denom@,
                                        amount as nat,
                                        i as int,
                                    );
                                }
                                let cur = self.native[i].amount;
                                self.native[i].amount = cur + amount;
                                proof {
                                    assert(self@.native =~= add_entry(
                                        prev.native,
                                        coins@[k as int].denom@,
                                        amount as nat,
                                    ));
                                    assert(self@ =~= merge_credit(prev, q, amount as nat));
                                }
                            },
                            None => {
                                proof {
                                    assert(!contains_id(prev.native, coins@[k as int].denom@)) by {
                                        if contains_id(prev.native, coins@[k as int].denom@) {
                                            let j = choose|j: int|
                                                0 <= j < prev.native.len() && prev.native[j].id
                                                    == coins@[k as int].denom@;
                                            assert(self.native@[j].denom@
                                                == coins@[k as int].denom@);
                                        }
                                    }
                                    lemma_add_entry_absent(
                                        prev.native,
                                        coins@[k as int].denom@,
                                        amount as nat,
                                    );
                                }
                                let c = Coin { denom: coins[k].denom.clone(), amount };
                                self.native.push(c);
                                proof {
                                    assert(self@.native =~= add_entry(
                                        prev.native,
                                        coins@[k as int].denom@,
                                        amount as nat,
                                    ));
                                    assert(self@ =~= merge_credit(prev, q, amount as nat));
                                }
                            },
                        }
                    } else {
                        proof {
                            assert(merge_credit(prev, q, 0) =~= prev);
                        }
                    }
                    k = k + 1;
                }
                proof {
                    assert(cs.take(coins@.len() as int) =~= cs);
                }
            },
            Balance::Cw20(token) => {
                let ghost q = AssetId::Cw20(token.address@);
                proof {
                    assert(cs =~= seq![(q, token.amount as nat)]);
                    assert(cs[0] == (q, token.amount as nat));
                    assert(apply_credits(old(self)@, cs) == apply_credits(
                        merge_credit(old(self)@, q, token.amount as nat),
                        cs.drop_first(),
                    ));
                    assert(cs.drop_first() =~= Seq::<(AssetId, nat)>::empty());
                }
                if token.amount > 0 {
                    proof {
                        assert(credits_total(cs, q) == token.amount + credits_total(
                            cs.drop_first(),
                            q,
                        ));
                        assert(amount_of(old(self)@, q) + token.amount <= u128::MAX);
                    }
                    match find_cw20(&self.cw20, &token.address) {
                        Some(i) => {
                            proof {
                                assert(old(self)@.cw20[i as int] == self.cw20@[i as int]@);
                                lemma_entry_le_sum(old(self)@.cw20, i as int);
                                lemma_add_entry_found(
                                    old(self)@.cw20,
                                    token.address@,
                                    token.amount as nat,
                                    i as int,
                                );
                            }
                            let cur = self.cw20[i].amount;
                            self.cw20[i].amount = cur + token.amount;
                            proof {
                                assert(self@.cw20 =~= add_entry(
                                    old(self)@.cw20,
                                    token.address@,
                                    token.amount as nat,
                                ));
                                assert(self@ =~= merge_credit(old(self)@, q, token.amount as nat));
                            }
                        },
                        None => {
                            proof {
                                assert(!contains_id(old(self)@.cw20, token.address@)) by {
                                    if contains_id(old(self)@.cw20, token.address@) {
                                        let j = choose|j: int|
                                            0 <= j < old(self)@.cw20.len()
                                                && old(self)@.cw20[j].id == token.address@;
                                        assert(self.cw20@[j].address@ == token.address@);
                                    }
                                }
                                lemma_add_entry_absent(
                                    old(self)@.cw20,
                                    token.address@,
                                    token.amount as nat,
                                );
                            }
                            let amt = token.amount;
                            self.cw20.push(Cw20Coin { address: token.address, amount: amt });
                            proof {
                                assert(self@.cw20 =~= add_entry(
                                    old(self)@.cw20,
                                    token.address@,
                                    token.amount as nat,
                                ));
                                assert(self@ =~= merge_credit(old(self)@, q, token.amount as nat));
                            }
                        },
                    }
                } else {
                    proof {
                        assert(merge_credit(old(self)@, q, 0) =~= old(self)@);
                    }
                }
            },
        }
    }
}

/// Copy a list of native coins entry by entry.
pub fn clone_native(v: &Vec<Coin>) -> (r: Vec<Coin>)
    ensures
        r@.map_values(|c: Coin| c@) == v@.map_values(|c: Coin| c@),
        r@.len() == v@.len(),
{
    let mut r: Vec<Coin> = Vec::new();
    let mut i: usize = 0;
    while i < v.len()
        invariant
            0 <= i <= v@.len(),
            r@.len() == i,
            forall|j: int| 0 <= j < i ==> r@[j]@ == v@[j]@,
        decreases v@.len() - i,
    {
        r.push(Coin { denom: v[i].denom.clone(), amount: v[i].amount });
        i = i + 1;
    }
    proof {
        assert(r@.map_values(|c: Coin| c@) =~= v@.map_values(|c: Coin| c@));
    }
    r
}

/// Copy a list of tokenized coins entry by entry.
pub fn clone_cw20(v: &Vec<Cw20Coin>) -> (r: Vec<Cw20Coin>)
    ensures
        r@.map_values(|c: Cw20Coin| c@) == v@.map_values(|c: Cw20Coin| c@),
        r@.len() == v@.len(),
{
    let mut r: Vec<Cw20Coin> = Vec::new();
    let mut i: usize = 0;
    while i < v.len()
        invariant
            0 <= i <= v@.len(),
            r@.len() == i,
            forall|j: int| 0 <= j < i ==> r@[j]@ == v@[j]@,
        decreases v@.len() - i,
    {
        r.push(Cw20Coin { address: v[i].address.clone(), amount: v[i].amount });
        i = i + 1;
    }
    proof {
        assert(r@.map_values(|c: Cw20Coin| c@) =~= v@.map_values(|c: Cw20Coin| c@));
    }
    r
}

/// Merging two single credits in either order yields the same amounts.
pub proof fn lemma_merge_credit_commutes(
    b: BalanceView,
    q1: AssetId,
    a1: nat,
    q2: AssetId,
    a2: nat,
    q: AssetId,
)
    ensures
        amount_of(merge_credit(merge_credit(b, q1, a1), q2, a2), q) == amount_of(
            merge_credit(merge_credit(b, q2, a2), q1, a1),
            q,
        ),
{
    lemma_merge_credit_amount(b, q1, a1, q);
    lemma_merge_credit_amount(merge_credit(b, q1, a1), q2, a2, q);
    lemma_merge_credit_amount(b, q2, a2, q);
    lemma_merge_credit_amount(merge_credit(b, q2, a2), q1, a1, q);
}

} // verus!
