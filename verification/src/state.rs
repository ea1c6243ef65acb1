//! Escrow records and their keyed store.
//!
//! The store owns every [`Escrow`]; records are kept in strictly ascending
//! lexicographic byte order of their id, so enumeration is deterministic and
//! independent of insertion order.

use vstd::prelude::*;
use vstd::string::StringSliceAdditionalSpecFns;
use vstd::utf8::encode_utf8;

use crate::balance::{BalanceView, GenericBalance};
use crate::error::ContractError;
use crate::order::{
    lemma_lex_irreflexive, lemma_lex_total, lemma_lex_transitive, lex_lt, str_cmp,
};

verus! {

/// Lifecycle of an escrow. `Opened` is the initial state; `Completed` and
/// `Canceled` are terminal: a record that reached one of them is locked.
#[derive(Clone, Copy, Debug, PartialEq, Eq, Structural)]
pub enum Status {
    Opened,
    Completed,
    Canceled,
}

/// A settled escrow accepts no further mutation.
pub open spec fn spec_locked(s: Status) -> bool {
    s != Status::Opened
}

/// An escrow record: funds held for a proposer, gated by validators.
#[derive(Debug, PartialEq)]
pub struct Escrow {
    /// Human-readable name, 3-20 bytes of utf-8 text; the store key, so it
    /// cannot change once created.
    pub id: String,
    /// URL with more context, free-form.
    pub url: String,
    /// Free-form description.
    pub description: String,
    /// Addresses that may decide to approve or refund the escrow.
    pub validators: Vec<String>,
    /// If approved, funds go to the proposer.
    pub proposer: String,
    /// If refunded, native funds go back to the source.
    pub source: String,
    /// The funds held, in native and tokenized assets.
    pub balance: GenericBalance,
    /// Tokenized assets accepted as top-up funding.
    pub cw20_whitelist: Vec<String>,
    /// Lifecycle state.
    pub status: Status,
}

/// Model of an [`Escrow`].
#[verifier::ext_equal]
pub struct EscrowView {
    pub id: Seq<char>,
    pub url: Seq<char>,
    pub description: Seq<char>,
    pub validators: Seq<Seq<char>>,
    pub proposer: Seq<char>,
    pub source: Seq<char>,
    pub balance: BalanceView,
    pub whitelist: Seq<Seq<char>>,
    pub status: Status,
}

impl View for Escrow {
    type V = EscrowView;

    open spec fn view(&self) -> EscrowView {
        EscrowView {
            id: self.id@,
            url: self.url@,
            description: self.description@,
            validators: self.validators@.map_values(|s: String| s@),
            proposer: self.proposer@,
            source: self.source@,
            balance: self.balance@,
            whitelist: self.cw20_whitelist@.map_values(|s: String| s@),
            status: self.status,
        }
    }
}

impl EscrowView {
    /// The balance keeps one entry per asset identity.
    pub open spec fn wf(self) -> bool {
        self.balance.wf()
    }

    /// The caller may decide this escrow's settlement.
    pub open spec fn is_validator(self, caller: Seq<char>) -> bool {
        exists|i: int| 0 <= i < self.validators.len() && self.validators[i] == caller
    }

    /// The tokenized asset is admitted as top-up funding.
    pub open spec fn in_whitelist(self, address: Seq<char>) -> bool {
        exists|i: int| 0 <= i < self.whitelist.len() && self.whitelist[i] == address
    }
}

/// Whether some string of the list reads the same as the given one.
pub fn contains_string(v: &Vec<String>, s: &String) -> (r: bool)
    ensures
        r == exists|i: int| 0 <= i < v@.len() && (#[trigger] v@[i])@ == s@,
{
    let mut i: usize = 0;
    while i < v.len()
        invariant
            0 <= i <= v@.len(),
            forall|j: int| 0 <= j < i ==> (#[trigger] v@[j])@ != s@,
        decreases v@.len() - i,
    {
        if v[i] == *s {
            return true;
        }
        i = i + 1;
    }
    false
}

/// Copy a list of strings entry by entry.
pub fn clone_strings(v: &Vec<String>) -> (r: Vec<String>)
    ensures
        r@.map_values(|s: String| s@) == v@.map_values(|s: String| s@),
        r@.len() == v@.len(),
{
    let mut r: Vec<String> = Vec::new();
    let mut i: usize = 0;
    while i < v.len()
        invariant
            0 <= i <= v@.len(),
            r@.len() == i,
            forall|j: int| 0 <= j < i ==> r@[j]@ == v@[j]@,
        decreases v@.len() - i,
    {
        r.push(v[i].clone());
        i = i + 1;
    }
    proof {
        assert(r@.map_values(|s: String| s@) =~= v@.map_values(|s: String| s@));
    }
    r
}

impl Escrow {
    /// A settled escrow accepts no further top-up, approve or refund.
    pub fn locked(&self) -> (r: bool)
        ensures
            r == spec_locked(self.status),
    {
        !matches!(self.status, Status::Opened)
    }

    /// The whitelist as plain strings.
    pub fn human_whitelist(&self) -> (r: Vec<String>)
        ensures
            r@.map_values(|s: String| s@) == self@.whitelist,
    {
        clone_strings(&self.cw20_whitelist)
    }

    /// The validator set as plain strings.
    pub fn human_validators(&self) -> (r: Vec<String>)
        ensures
            r@.map_values(|s: String| s@) == self@.validators,
    {
        clone_strings(&self.validators)
    }
}

// ---------------------------------------------------------------------------
// The record store
// ---------------------------------------------------------------------------

/// One stored record: the key it was saved under, and the escrow.
#[derive(Debug, PartialEq)]
pub struct EscrowEntry {
    pub id: String,
    pub escrow: Escrow,
}

/// Model of a stored record.
#[verifier::ext_equal]
pub struct EntryView {
    pub id: Seq<char>,
    pub escrow: EscrowView,
}

impl View for EscrowEntry {
    type V = EntryView;

    open spec fn view(&self) -> EntryView {
        EntryView { id: self.id@, escrow: self.escrow@ }
    }
}

/// The byte key a record with this id is ordered by.
pub open spec fn key_of(id: Seq<char>) -> Seq<u8> {
    encode_utf8(id)
}

/// Records are kept in strictly ascending byte order of their keys.
pub open spec fn store_sorted(s: Seq<EntryView>) -> bool {
    forall|i: int, j: int|
        0 <= i < j < s.len() ==> lex_lt(key_of(s[i].id), key_of(s[j].id))
}

/// Sorted, and every record's balance is well-formed.
pub open spec fn store_wf(s: Seq<EntryView>) -> bool {
    store_sorted(s) && forall|i: int| 0 <= i < s.len() ==> (#[trigger] s[i]).escrow.wf()
}

/// Some record is stored under the given key.
pub open spec fn has_key(s: Seq<EntryView>, k: Seq<u8>) -> bool {
    exists|i: int| 0 <= i < s.len() && key_of(s[i].id) == k
}

/// Index of the first record stored under the given key, or -1.
pub open spec fn find_key(s: Seq<EntryView>, k: Seq<u8>) -> int
    decreases s.len(),
{
    if s.len() == 0 {
        -1
    } else if key_of(s[0].id) == k {
        0
    } else if find_key(s.drop_first(), k) == -1 {
        -1
    } else {
        find_key(s.drop_first(), k) + 1
    }
}

/// `find_key` finds the first record of the key, and only fails when no
/// record carries it.
pub proof fn lemma_find_key(s: Seq<EntryView>, k: Seq<u8>)
    ensures
        has_key(s, k) <==> find_key(s, k) >= 0,
        has_key(s, k) ==> 0 <= find_key(s, k) < s.len() && key_of(s[find_key(s, k)].id) == k,
        forall|j: int| 0 <= j < find_key(s, k) ==> key_of(s[j].id) != k,
        !has_key(s, k) ==> find_key(s, k) == -1,
    decreases s.len(),
{
    if s.len() == 0 {
    } else if key_of(s[0].id) == k {
    } else {
        lemma_find_key(s.drop_first(), k);
        assert(forall|j: int| 0 <= j < s.drop_first().len() ==> s.drop_first()[j] == s[j + 1]);
        if has_key(s, k) {
            let i = choose|i: int| 0 <= i < s.len() && key_of(s[i].id) == k;
            assert(i > 0);
            assert(s.drop_first()[i - 1] == s[i]);
            assert(has_key(s.drop_first(), k));
        }
        if has_key(s.drop_first(), k) {
            let i = choose|i: int|
                0 <= i < s.drop_first().len() && key_of(s.drop_first()[i].id) == k;
            assert(s[i + 1] == s.drop_first()[i]);
            assert(has_key(s, k));
        }
        assert forall|j: int| 0 <= j < find_key(s, k) implies key_of(s[j].id) != k by {
            if j > 0 {
                assert(s.drop_first()[j - 1] == s[j]);
                assert(j - 1 < find_key(s.drop_first(), k));
            }
        }
    }
}

/// In a sorted store each key appears at most once.
pub proof fn lemma_sorted_key_unique(s: Seq<EntryView>, i: int, j: int)
    requires
        store_sorted(s),
        0 <= i < s.len(),
        0 <= j < s.len(),
        key_of(s[i].id) == key_of(s[j].id),
    ensures
        i == j,
{
    if i < j {
        lemma_lex_irreflexive(key_of(s[i].id));
    } else if j < i {
        lemma_lex_irreflexive(key_of(s[i].id));
    }
}

/// Place a record before the first strictly greater key.
pub open spec fn insert_entry(s: Seq<EntryView>, e: EntryView) -> Seq<EntryView>
    decreases s.len(),
{
    if s.len() == 0 {
        seq![e]
    } else if lex_lt(key_of(e.id), key_of(s[0].id)) {
        seq![e] + s
    } else {
        seq![s[0]] + insert_entry(s.drop_first(), e)
    }
}

/// Inserting at the scan position realizes `insert_entry`.
pub proof fn lemma_insert_entry_at(s: Seq<EntryView>, e: EntryView, p: int)
    requires
        0 <= p <= s.len(),
        forall|j: int| 0 <= j < p ==> lex_lt(key_of(s[j].id), key_of(e.id)),
        p < s.len() ==> lex_lt(key_of(e.id), key_of(s[p].id)),
    ensures
        insert_entry(s, e) =~= s.subrange(0, p) + seq![e] + s.subrange(p, s.len() as int),
    decreases p,
{
    if s.len() == 0 {
        assert(s.subrange(0, 0) =~= Seq::<EntryView>::empty());
    } else if p == 0 {
        assert(s.subrange(0, 0) =~= Seq::<EntryView>::empty());
        assert(s.subrange(0, s.len() as int) =~= s);
    } else {
        assert(lex_lt(key_of(s[0].id), key_of(e.id)));
        lemma_lex_asym_helper(key_of(e.id), key_of(s[0].id));
        assert(forall|j: int| 0 <= j < p - 1 ==> s.drop_first()[j] == s[j + 1]);
        if p - 1 < s.drop_first().len() {
            assert(s.drop_first()[p - 1] == s[p]);
        }
        lemma_insert_entry_at(s.drop_first(), e, p - 1);
    }
}

proof fn lemma_lex_asym_helper(a: Seq<u8>, b: Seq<u8>)
    requires
        lex_lt(b, a),
    ensures
        !lex_lt(a, b),
{
    crate::order::lemma_lex_asymmetric(b, a);
}

/// Inserting a fresh key keeps the store sorted, and stores exactly the new
/// record under the new key while every other record stays.
pub proof fn lemma_insert_entry_sorted(s: Seq<EntryView>, e: EntryView, p: int)
    requires
        store_sorted(s),
        0 <= p <= s.len(),
        forall|j: int| 0 <= j < p ==> lex_lt(key_of(s[j].id), key_of(e.id)),
        p < s.len() ==> lex_lt(key_of(e.id), key_of(s[p].id)),
    ensures
        store_sorted(insert_entry(s, e)),
    decreases s.len(),
{
    lemma_insert_entry_at(s, e, p);
    let r = s.subrange(0, p) + seq![e] + s.subrange(p, s.len() as int);
    assert forall|i: int, j: int| 0 <= i < j < r.len() implies lex_lt(
        key_of(r[i].id),
        key_of(r[j].id),
    ) by {
        if i < p && j < p {
            assert(r[i] == s[i] && r[j] == s[j]);
        } else if i < p && j == p {
            assert(r[i] == s[i] && r[j] == e);
        } else if i < p && j > p {
            assert(r[i] == s[i] && r[j] == s[j - 1]);
            if j - 1 > i {
            } else {
                assert(j - 1 == i);
                assert(p < s.len());
                assert(lex_lt(key_of(s[i].id), key_of(e.id)));
                assert(lex_lt(key_of(e.id), key_of(s[p].id)));
                lemma_lex_transitive(key_of(s[i].id), key_of(e.id), key_of(s[p].id));
                assert(j - 1 >= p);
                if j - 1 > p {
                    assert(lex_lt(key_of(s[p].id), key_of(s[j - 1].id)));
                    lemma_lex_transitive(key_of(s[i].id), key_of(s[p].id), key_of(s[j - 1].id));
                }
            }
        } else if i == p {
            assert(r[i] == e && r[j] == s[j - 1]);
            assert(p < s.len());
            assert(j - 1 >= p);
            if j - 1 > p {
                assert(lex_lt(key_of(s[p].id), key_of(s[j - 1].id)));
                lemma_lex_transitive(key_of(e.id), key_of(s[p].id), key_of(s[j - 1].id));
            }
        } else {
            assert(r[i] == s[i - 1] && r[j] == s[j - 1]);
        }
    }
}

/// What `insert_entry` stores under each key.
pub proof fn lemma_insert_entry_lookup(s: Seq<EntryView>, e: EntryView, p: int, k: Seq<u8>)
    requires
        0 <= p <= s.len(),
        forall|j: int| 0 <= j < p ==> lex_lt(key_of(s[j].id), key_of(e.id)),
        p < s.len() ==> lex_lt(key_of(e.id), key_of(s[p].id)),
    ensures
        has_key(insert_entry(s, e), key_of(e.id)),
        k != key_of(e.id) ==> (has_key(insert_entry(s, e), k) <==> has_key(s, k)),
{
    lemma_insert_entry_at(s, e, p);
    let r = insert_entry(s, e);
    assert(r[p] == e);
    assert(has_key(r, key_of(e.id)));
    if k != key_of(e.id) {
        if has_key(r, k) {
            let i = choose|i: int| 0 <= i < r.len() && key_of(r[i].id) == k;
            assert(i != p);
            if i < p {
                assert(r[i] == s[i]);
            } else {
                assert(r[i] == s[i - 1]);
            }
            assert(has_key(s, k));
        }
        if has_key(s, k) {
            let i = choose|i: int| 0 <= i < s.len() && key_of(s[i].id) == k;
            if i < p {
                assert(r[i] == s[i]);
                assert(has_key(r, k));
            } else {
                assert(r[i + 1] == s[i]);
                assert(has_key(r, k));
            }
        }
    }
}

/// An in-memory keyed store of escrow records, one record per id, kept in
/// ascending byte order of the ids.
#[derive(Debug, PartialEq)]
pub struct EscrowStore {
    pub entries: Vec<EscrowEntry>,
}

impl View for EscrowStore {
    type V = Seq<EntryView>;

    open spec fn view(&self) -> Seq<EntryView> {
        self.entries@.map_values(|e: EscrowEntry| e@)
    }
}

impl EscrowStore {
    /// A store with no records.
    pub fn new() -> (r: Self)
        ensures
            r@ == Seq::<EntryView>::empty(),
            store_wf(r@),
    {
        let r = EscrowStore { entries: Vec::new() };
        proof {
            assert(r@ =~= Seq::<EntryView>::empty());
        }
        r
    }

    /// Scan for the given id. Returns the match position and `true`, or the
    /// insertion position and `false`.
    pub(crate) fn locate(&self, id: &String) -> (r: (usize, bool))
        requires
            store_sorted(self@),
        ensures
            r.0 <= self@.len(),
            r.1 ==> r.0 < self@.len() && key_of(self@[r.0 as int].id) == key_of(id@),
            !r.1 ==> !has_key(self@, key_of(id@)),
            !r.1 ==> forall|j: int| 0 <= j < r.0 ==> lex_lt(key_of(self@[j].id), key_of(id@)),
            !r.1 ==> r.0 == self@.len() || lex_lt(key_of(id@), key_of(self@[r.0 as int].id)),
    {
        let n = self.entries.len();
        let mut j: usize = 0;
        while j < n
            invariant
                store_sorted(self@),
                n == self@.len(),
                0 <= j <= n,
                forall|i: int| 0 <= i < j ==> lex_lt(key_of(self@[i].id), key_of(id@)),
            decreases n - j,
        {
            let c = str_cmp(id.as_str(), self.entries[j].id.as_str());
            proof {
                assert(self@[j as int] == self.entries@[j as int]@);
            }
            if c == 0 {
                proof {
                    assert(key_of(self@[j as int].id) == key_of(id@));
                }
                return (j, true);
            } else if c < 0 {
                proof {
                    assert(lex_lt(key_of(id@), key_of(self@[j as int].id)));
                    assert forall|i: int| 0 <= i < self@.len() implies key_of(self@[i].id)
                        != key_of(id@) by {
                        if i < j {
                            lemma_lex_irreflexive(key_of(id@));
                            if key_of(self@[i].id) == key_of(id@) {
                                assert(lex_lt(key_of(id@), key_of(id@)));
                            }
                        } else if i == j {
                            lemma_lex_irreflexive(key_of(id@));
                            if key_of(self@[i].id) == key_of(id@) {
                                assert(lex_lt(key_of(id@), key_of(id@)));
                            }
                        } else {
                            assert(lex_lt(key_of(self@[j as int].id), key_of(self@[i].id)));
                            lemma_lex_transitive(
                                key_of(id@),
                                key_of(self@[j as int].id),
                                key_of(self@[i].id),
                            );
                            lemma_lex_irreflexive(key_of(id@));
                            if key_of(self@[i].id) == key_of(id@) {
                                assert(lex_lt(key_of(id@), key_of(id@)));
                            }
                        }
                    }
                }
                return (j, false);
            } else {
                proof {
                    assert(lex_lt(key_of(self@[j as int].id), key_of(id@)));
                }
                j = j + 1;
            }
        }
        proof {
            assert forall|i: int| 0 <= i < self@.len() implies key_of(self@[i].id) != key_of(
                id@,
            ) by {
                lemma_lex_irreflexive(key_of(id@));
                if key_of(self@[i].id) == key_of(id@) {
                    assert(lex_lt(key_of(id@), key_of(id@)));
                }
            }
        }
        (n, false)
    }

    /// Store the record under the id: overwrite the existing record of that
    /// id, or insert a fresh one in order.
    pub fn save(&mut self, id: String, escrow: Escrow)
        requires
            store_wf(old(self)@),
            escrow@.wf(),
        ensures
            store_wf(final(self)@),
            final(self)@ == spec_save(old(self)@, id@, escrow@),
    {
        let ghost e = EntryView { id: id@, escrow: escrow@ };
        let (p, found) = self.locate(&id);
        if found {
            proof {
                lemma_find_key(old(self)@, key_of(id@));
                lemma_sorted_key_unique(
                    old(self)@,
                    p as int,
                    find_key(old(self)@, key_of(id@)),
                );
            }
            let mut entry = self.entries.remove(p);
            entry.id = id;
            entry.escrow = escrow;
            self.entries.insert(p, entry);
            proof {
                assert(self@ =~= old(self)@.update(p as int, e));
                assert(self@ == spec_save(old(self)@, id@, escrow@));
                assert forall|i: int, j: int| 0 <= i < j < self@.len() implies lex_lt(
                    key_of(self@[i].id),
                    key_of(self@[j].id),
                ) by {
                    assert(key_of(self@[p as int].id) == key_of(old(self)@[p as int].id));
                    if i != p && j != p {
                        assert(self@[i] == old(self)@[i] && self@[j] == old(self)@[j]);
                    }
                }
                assert forall|i: int| 0 <= i < self@.len() implies (
                #[trigger] self@[i]).escrow.wf() by {
                    if i != p {
                        assert(self@[i] == old(self)@[i]);
                    }
                }
            }
        } else {
            proof {
                lemma_find_key(old(self)@, key_of(id@));
                lemma_insert_entry_at(old(self)@, e, p as int);
                lemma_insert_entry_sorted(old(self)@, e, p as int);
            }
            self.entries.insert(p, EscrowEntry { id, escrow });
            proof {
                assert(self@ =~= insert_entry(old(self)@, e));
                assert(self@ == spec_save(old(self)@, id@, escrow@));
                let r = old(self)@.subrange(0, p as int) + seq![e] + old(self)@.subrange(
                    p as int,
                    old(self)@.len() as int,
                );
                assert forall|i: int| 0 <= i < self@.len() implies (
                #[trigger] self@[i]).escrow.wf() by {
                    assert(self@[i] == r[i]);
                    if i < p as int {
                        assert(r[i] == old(self)@[i]);
                    } else if i == p as int {
                        assert(r[i] == e);
                    } else {
                        assert(r[i] == old(self)@[i - 1]);
                    }
                }
            }
        }
    }

    /// The record stored under the id, or `NotFound`.
    pub fn load(&self, id: &String) -> (r: Result<&Escrow, ContractError>)
        requires
            store_sorted(self@),
        ensures
            match r {
                Ok(escrow) => has_key(self@, key_of(id@)) && escrow@ == self@[find_key(
                    self@,
                    key_of(id@),
                )].escrow,
                Err(e) => e == ContractError::NotFound && !has_key(self@, key_of(id@)),
            },
    {
        let (p, found) = self.locate(id);
        if found {
            proof {
                lemma_find_key(self@, key_of(id@));
                lemma_sorted_key_unique(self@, p as int, find_key(self@, key_of(id@)));
            }
            Ok(&self.entries[p].escrow)
        } else {
            Err(ContractError::NotFound)
        }
    }

    /// Insert the record if its id is fresh; `AlreadyInUse` otherwise.
    pub fn create_if_absent(&mut self, id: String, escrow: Escrow) -> (r: Result<
        (),
        ContractError,
    >)
        requires
            store_wf(old(self)@),
            escrow@.wf(),
        ensures
            store_wf(final(self)@),
            match r {
                Ok(()) => !has_key(old(self)@, key_of(id@)) && final(self)@ == insert_entry(
                    old(self)@,
                    EntryView { id: id@, escrow: escrow@ },
                ),
                Err(e) => e == ContractError::AlreadyInUse && has_key(old(self)@, key_of(id@))
                    && final(self)@ == old(self)@,
            },
    {
        let ghost e = EntryView { id: id@, escrow: escrow@ };
        let (p, found) = self.locate(&id);
        if found {
            return Err(ContractError::AlreadyInUse);
        }
        proof {
            lemma_insert_entry_at(old(self)@, e, p as int);
            lemma_insert_entry_sorted(old(self)@, e, p as int);
        }
        self.entries.insert(p, EscrowEntry { id, escrow });
        proof {
            assert(self@ =~= insert_entry(old(self)@, e));
            let r = old(self)@.subrange(0, p as int) + seq![e] + old(self)@.subrange(
                p as int,
                old(self)@.len() as int,
            );
            assert forall|i: int| 0 <= i < self@.len() implies (
            #[trigger] self@[i]).escrow.wf() by {
                assert(self@[i] == r[i]);
                if i < p as int {
                    assert(r[i] == old(self)@[i]);
                } else if i == p as int {
                    assert(r[i] == e);
                } else {
                    assert(r[i] == old(self)@[i - 1]);
                }
            }
        }
        Ok(())
    }
}

/// The position a fresh key is inserted at: before the first greater key.
pub open spec fn insert_pos(s: Seq<EntryView>, k: Seq<u8>) -> int
    decreases s.len(),
{
    if s.len() == 0 {
        0
    } else if lex_lt(k, key_of(s[0].id)) {
        0
    } else {
        1 + insert_pos(s.drop_first(), k)
    }
}

/// In a sorted store without the key, `insert_pos` is a valid scan position.
pub proof fn lemma_insert_pos(s: Seq<EntryView>, k: Seq<u8>)
    requires
        store_sorted(s),
        !has_key(s, k),
    ensures
        0 <= insert_pos(s, k) <= s.len(),
        forall|j: int| 0 <= j < insert_pos(s, k) ==> lex_lt(key_of(s[j].id), k),
        insert_pos(s, k) < s.len() ==> lex_lt(k, key_of(s[insert_pos(s, k)].id)),
    decreases s.len(),
{
    if s.len() == 0 {
    } else if lex_lt(k, key_of(s[0].id)) {
    } else {
        assert(key_of(s[0].id) != k);
        lemma_lex_total(k, key_of(s[0].id));
        assert(lex_lt(key_of(s[0].id), k));
        assert(store_sorted(s.drop_first())) by {
            assert(forall|i: int|
                0 <= i < s.drop_first().len() ==> s.drop_first()[i] == s[i + 1]);
        }
        assert(!has_key(s.drop_first(), k)) by {
            if has_key(s.drop_first(), k) {
                let i = choose|i: int|
                    0 <= i < s.drop_first().len() && key_of(s.drop_first()[i].id) == k;
                assert(s[i + 1] == s.drop_first()[i]);
            }
        }
        lemma_insert_pos(s.drop_first(), k);
        let p = insert_pos(s, k);
        assert forall|j: int| 0 <= j < p implies lex_lt(key_of(s[j].id), k) by {
            if j > 0 {
                assert(s.drop_first()[j - 1] == s[j]);
            }
        }
        if p < s.len() {
            assert(s.drop_first()[p - 1] == s[p]);
        }
    }
}

/// `find_key` depends only on the sequence of ids.
pub proof fn lemma_find_key_ids(s1: Seq<EntryView>, s2: Seq<EntryView>, k: Seq<u8>)
    requires
        s1.len() == s2.len(),
        forall|j: int| 0 <= j < s1.len() ==> (#[trigger] s1[j]).id == s2[j].id,
    ensures
        find_key(s1, k) == find_key(s2, k),
        has_key(s1, k) == has_key(s2, k),
    decreases s1.len(),
{
    if s1.len() > 0 {
        assert(forall|j: int|
            0 <= j < s1.drop_first().len() ==> (#[trigger] s1.drop_first()[j]) == s1[j + 1]);
        assert(forall|j: int|
            0 <= j < s2.drop_first().len() ==> (#[trigger] s2.drop_first()[j]) == s2[j + 1]);
        lemma_find_key_ids(s1.drop_first(), s2.drop_first(), k);
    }
    lemma_find_key(s1, k);
    lemma_find_key(s2, k);
    if has_key(s1, k) {
        let i = choose|i: int| 0 <= i < s1.len() && key_of(s1[i].id) == k;
        assert(key_of(s2[i].id) == k);
    }
    if has_key(s2, k) {
        let i = choose|i: int| 0 <= i < s2.len() && key_of(s2[i].id) == k;
        assert(key_of(s1[i].id) == k);
    }
}

/// Replacing a record by one with the same id and a well-formed balance
/// keeps the store well-formed.
pub proof fn lemma_update_same_id_wf(s: Seq<EntryView>, p: int, e2: EntryView)
    requires
        store_wf(s),
        0 <= p < s.len(),
        e2.id == s[p].id,
        e2.escrow.wf(),
    ensures
        store_wf(s.update(p, e2)),
{
    let r = s.update(p, e2);
    assert forall|i: int, j: int| 0 <= i < j < r.len() implies lex_lt(
        key_of(r[i].id),
        key_of(r[j].id),
    ) by {
        assert(r[i].id == s[i].id);
        assert(r[j].id == s[j].id);
    }
    assert forall|i: int| 0 <= i < r.len() implies (#[trigger] r[i]).escrow.wf() by {
        if i != p {
            assert(r[i] == s[i]);
        }
    }
}

/// An exists over a list of strings carries over to its sequence of views.
pub proof fn lemma_exists_string(v: Seq<String>, m: Seq<Seq<char>>, x: Seq<char>)
    requires
        m == v.map_values(|s: String| s@),
    ensures
        (exists|i: int| 0 <= i < v.len() && (#[trigger] v[i])@ == x) <==> (exists|i: int|
            0 <= i < m.len() && m[i] == x),
{
    if exists|i: int| 0 <= i < v.len() && (#[trigger] v[i])@ == x {
        let i = choose|i: int| 0 <= i < v.len() && (#[trigger] v[i])@ == x;
        assert(m[i] == x);
    }
    if exists|i: int| 0 <= i < m.len() && m[i] == x {
        let i = choose|i: int| 0 <= i < m.len() && m[i] == x;
        assert(v[i]@ == x);
    }
}

/// What `save` stores: replace the record of the id, or insert a fresh one.
pub open spec fn spec_save(s: Seq<EntryView>, id: Seq<char>, escrow: EscrowView) -> Seq<
    EntryView,
> {
    let e = EntryView { id: id, escrow: escrow };
    if has_key(s, key_of(id)) {
        s.update(find_key(s, key_of(id)), e)
    } else {
        insert_entry(s, e)
    }
}

/// The ids of all stored records, in ascending byte order of their keys.
pub fn all_escrow_ids(store: &EscrowStore) -> (r: Vec<String>)
    ensures
        r@.len() == store@.len(),
        forall|i: int| 0 <= i < r@.len() ==> r@[i]@ == store@[i].id,
{
    let mut r: Vec<String> = Vec::new();
    let mut i: usize = 0;
    while i < store.entries.len()
        invariant
            0 <= i <= store@.len(),
            store@.len() == store.entries@.len(),
            r@.len() == i,
            forall|j: int| 0 <= j < i ==> r@[j]@ == store@[j].id,
        decreases store@.len() - i,
    {
        r.push(store.entries[i].id.clone());
        proof {
            assert(store@[i as int] == store.entries@[i as int]@);
        }
        i = i + 1;
    }
    r
}

} // verus!
