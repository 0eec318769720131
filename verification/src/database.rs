//! The record store: the records of a ledger under their identifiers, and the
//! registry of the categories that the records name.
//!
//! An identifier names at most one record, and a category has one entry in
//! the registry, whatever the case of the letters in which either is written.
//! A record that names a category is stored under the spelling that the
//! registry has for it.

use vstd::prelude::*;
use vstd::string::*;
use crate::date::{date_of_text, Date};
use crate::decimal::{magnitude, magnitude_of};
use crate::errors::ImportError;
use crate::records::{
    all_wf,
    balance_at,
    balance_of,
    copy_records,
    find_record,
    ids_of,
    position_of,
    views_of,
    Record,
    RecordView,
};
use crate::text::{
    distinct_names,
    find_name,
    first_same,
    lemma_first_same,
    names_of,
    same_ignoring_case,
};
use crate::transaction::{clone_text, text_view, Transaction, TransactionType, TransactionView};

verus! {

/// The store: the records of a ledger and the registry of its categories.
#[derive(Debug)]
pub struct Ledger {
    records: Vec<Record>,
    categories: Vec<String>,
}

/// What a store holds: its records in the order in which they were stored,
/// and the names of its categories in the order in which they were first seen.
pub struct LedgerView {
    pub records: Seq<RecordView>,
    pub categories: Seq<Seq<char>>,
}

/// The registry once it knows the category: unchanged where it has an entry
/// for the name, or where there is no category; else with the name at its end.
pub open spec fn registered(categories: Seq<Seq<char>>, category: Option<Seq<char>>) -> Seq<
    Seq<char>,
> {
    match category {
        Some(name) => if first_same(categories, name) is Some {
            categories
        } else {
            categories.push(name)
        },
        None => categories,
    }
}

/// The spelling under which the registry has the category.
pub open spec fn resolved(categories: Seq<Seq<char>>, category: Option<Seq<char>>) -> Option<
    Seq<char>,
> {
    match category {
        Some(name) => match first_same(categories, name) {
            Some(k) => Some(categories[k]),
            None => Some(name),
        },
        None => None,
    }
}

/// The transaction as the store keeps it: with its category in the spelling
/// of the registry.
pub open spec fn kept(categories: Seq<Seq<char>>, t: TransactionView) -> TransactionView {
    TransactionView {
        date: t.date,
        check_number: t.check_number,
        category: resolved(categories, t.category),
        vendor: t.vendor,
        memo: t.memo,
        amount: t.amount,
        transaction_type: t.transaction_type,
        is_reconciled: t.is_reconciled,
    }
}

impl LedgerView {
    /// The store holds no two records under one identifier and no category
    /// twice, every category that a record names is in the registry, and
    /// every amount is one that can be added up.
    pub open spec fn wf(self) -> bool {
        &&& all_wf(self.records)
        &&& distinct_names(ids_of(self.records))
        &&& distinct_names(self.categories)
        &&& forall|i: int|
            0 <= i < self.records.len() ==> ((#[trigger] self.records[i]).transaction.category
                matches Some(name) ==> self.categories.contains(name))
    }

    /// The store without records or categories.
    pub open spec fn empty() -> LedgerView {
        LedgerView { records: Seq::empty(), categories: Seq::empty() }
    }

    /// The record that answers to `id`.
    pub open spec fn get(self, id: Seq<char>) -> Option<RecordView> {
        match position_of(self.records, id) {
            Some(k) => Some(self.records[k]),
            None => None,
        }
    }

    /// The store with one more category, if it is a new one.
    pub open spec fn add_category(self, name: Seq<char>) -> LedgerView {
        LedgerView { records: self.records, categories: registered(self.categories, Some(name)) }
    }

    /// The store with a new record. It is refused where a record answers to
    /// its identifier already, or its amount is too large to add up.
    pub open spec fn add(self, r: RecordView) -> Result<LedgerView, ImportError> {
        if position_of(self.records, r.id) is Some || !r.transaction.wf() {
            Err(ImportError::StorageError)
        } else {
            let categories = registered(self.categories, r.transaction.category);
            Ok(
                LedgerView {
                    records: self.records.push(
                        RecordView { id: r.id, transaction: kept(categories, r.transaction) },
                    ),
                    categories,
                },
            )
        }
    }

    /// The store with the transaction of `r` in place of that of the record
    /// that answers to the identifier of `r`. The record keeps its place and
    /// its identifier.
    pub open spec fn update(self, r: RecordView) -> Result<LedgerView, ImportError> {
        match position_of(self.records, r.id) {
            None => Err(ImportError::NotFound),
            Some(k) => if !r.transaction.wf() {
                Err(ImportError::StorageError)
            } else {
                let categories = registered(self.categories, r.transaction.category);
                Ok(
                    LedgerView {
                        records: self.records.update(
                            k,
                            RecordView {
                                id: self.records[k].id,
                                transaction: kept(categories, r.transaction),
                            },
                        ),
                        categories,
                    },
                )
            },
        }
    }

    /// The store without the record that answers to `id`; the store itself
    /// where none does.
    pub open spec fn remove(self, id: Seq<char>) -> LedgerView {
        match position_of(self.records, id) {
            Some(k) => LedgerView { records: self.records.remove(k), categories: self.categories },
            None => self,
        }
    }

    /// The store with `r` written to it: in place of the record that answers
    /// to its identifier, or as a new record where none does.
    pub open spec fn upsert(self, r: RecordView) -> Result<LedgerView, ImportError> {
        if position_of(self.records, r.id) is Some {
            self.update(r)
        } else {
            self.add(r)
        }
    }

    /// The store after an attempt to write `r` to it: unchanged where the
    /// record is refused.
    pub open spec fn after_upsert(self, r: RecordView) -> LedgerView {
        match self.upsert(r) {
            Ok(store) => store,
            Err(_) => self,
        }
    }

    /// The store after the records of a batch were written to it one by one.
    pub open spec fn after_upserts(self, batch: Seq<RecordView>) -> LedgerView
        decreases batch.len(),
    {
        if batch.len() == 0 {
            self
        } else {
            self.after_upserts(batch.drop_last()).after_upsert(batch.last())
        }
    }

    /// Why the store refused records of a batch that was written to it, one
    /// reason for each record that it refused, in the order of the batch.
    pub open spec fn refusals(self, batch: Seq<RecordView>) -> Seq<ImportError>
        decreases batch.len(),
    {
        if batch.len() == 0 {
            Seq::empty()
        } else {
            let earlier = self.refusals(batch.drop_last());
            match self.after_upserts(batch.drop_last()).upsert(batch.last()) {
                Ok(_) => earlier,
                Err(e) => earlier.push(e),
            }
        }
    }

    /// The number under which the store knows the category: its entries are
    /// numbered from one.
    pub open spec fn category_id(self, name: Seq<char>) -> Option<int> {
        match first_same(self.categories, name) {
            Some(k) => Some(k + 1),
            None => None,
        }
    }
}

/// A registry that has learnt a category has an entry for it, and every
/// entry it had is where it was.
pub proof fn lemma_registered(categories: Seq<Seq<char>>, name: Seq<char>)
    ensures
        first_same(registered(categories, Some(name)), name) is Some,
        first_same(registered(categories, Some(name)), name).unwrap() < registered(
            categories,
            Some(name),
        ).len(),
        first_same(registered(categories, Some(name)), name).unwrap() >= 0,
        distinct_names(categories) ==> distinct_names(registered(categories, Some(name))),
        forall|other: Seq<char>|
            first_same(categories, other) is Some ==> #[trigger] first_same(
                registered(categories, Some(name)),
                other,
            ) == first_same(categories, other),
        forall|k: int|
            0 <= k < categories.len() ==> #[trigger] registered(categories, Some(name))[k]
                == categories[k],
        categories.len() <= registered(categories, Some(name)).len(),
        first_same(categories, name) is None ==> first_same(
            registered(categories, Some(name)),
            name,
        ) == Some(categories.len() as int),
{
    let after = registered(categories, Some(name));
    lemma_first_same(categories, name);
    lemma_first_same(after, name);
    if first_same(categories, name) is None {
        assert(after.last() == name);
        assert(after[after.len() - 1] == name);
        assert(after.drop_last() =~= categories);
        if distinct_names(categories) {
            assert forall|i: int, j: int| 0 <= i < j < after.len() implies !same_ignoring_case(
                #[trigger] after[i],
                #[trigger] after[j],
            ) by {
                if j < categories.len() {
                    assert(after[i] == categories[i] && after[j] == categories[j]);
                } else {
                    assert(after[i] == categories[i]);
                }
            }
        }
    }
}

/// Adding a record to a store in good order leaves it in good order.
pub proof fn lemma_add_keeps_wf(store: LedgerView, r: RecordView)
    requires
        store.wf(),
    ensures
        store.add(r) matches Ok(after) ==> after.wf(),
{
    if store.add(r) is Ok {
        let after = store.add(r).unwrap();
        let categories = after.categories;
        lemma_first_same(ids_of(store.records), r.id);
        lemma_kept_category(store.categories, r.transaction.category);
        let ids = ids_of(after.records);
        assert forall|i: int, j: int| 0 <= i < j < ids.len() implies !same_ignoring_case(
            #[trigger] ids[i],
            #[trigger] ids[j],
        ) by {
            assert(ids[i] == ids_of(store.records)[i]);
            if j < store.records.len() {
                assert(ids[j] == ids_of(store.records)[j]);
            } else {
                assert(ids[j] == r.id);
            }
        }
        assert forall|i: int| 0 <= i < after.records.len() implies ((
        #[trigger] after.records[i]).transaction.category matches Some(name)
            ==> categories.contains(name)) by {
            if i < store.records.len() {
                assert(after.records[i] == store.records[i]);
                lemma_registered_keeps(store.categories, r.transaction.category);
            }
        }
        assert forall|i: int| 0 <= i < after.records.len() implies (
        #[trigger] after.records[i]).transaction.wf() by {
            if i < store.records.len() {
                assert(after.records[i] == store.records[i]);
            }
        }
    }
}

/// The spelling under which a transaction is kept is one of the registry that
/// has learnt its category.
pub proof fn lemma_kept_category(categories: Seq<Seq<char>>, category: Option<Seq<char>>)
    ensures
        resolved(registered(categories, category), category) matches Some(name) ==> registered(
            categories,
            category,
        ).contains(name),
        distinct_names(categories) ==> distinct_names(registered(categories, category)),
{
    match category {
        Some(name) => {
            lemma_registered(categories, name);
            let after = registered(categories, category);
            let k = first_same(after, name).unwrap();
            assert(after[k] == resolved(after, category).unwrap());
        },
        None => {},
    }
}

/// A registry that learns a category keeps every name it held.
pub proof fn lemma_registered_keeps(categories: Seq<Seq<char>>, category: Option<Seq<char>>)
    ensures
        forall|name: Seq<char>|
            categories.contains(name) ==> #[trigger] registered(categories, category).contains(
                name,
            ),
{
    let after = registered(categories, category);
    assert forall|name: Seq<char>| categories.contains(name) implies #[trigger] after.contains(
        name,
    ) by {
        let k = choose|k: int| 0 <= k < categories.len() && categories[k] == name;
        assert(after[k] == name);
    }
}

/// Updating a record of a store in good order leaves it in good order.
pub proof fn lemma_update_keeps_wf(store: LedgerView, r: RecordView)
    requires
        store.wf(),
    ensures
        store.update(r) matches Ok(after) ==> after.wf(),
{
    if store.update(r) is Ok {
        let after = store.update(r).unwrap();
        let categories = after.categories;
        let k = position_of(store.records, r.id).unwrap();
        lemma_first_same(ids_of(store.records), r.id);
        lemma_kept_category(store.categories, r.transaction.category);
        lemma_registered_keeps(store.categories, r.transaction.category);
        assert(ids_of(after.records) =~= ids_of(store.records));
        assert forall|i: int| 0 <= i < after.records.len() implies ((
        #[trigger] after.records[i]).transaction.category matches Some(name)
            ==> categories.contains(name)) by {
            if i != k {
                assert(after.records[i] == store.records[i]);
            }
        }
        assert forall|i: int| 0 <= i < after.records.len() implies (
        #[trigger] after.records[i]).transaction.wf() by {
            if i != k {
                assert(after.records[i] == store.records[i]);
            }
        }
    }
}

/// Removing a record from a store in good order leaves it in good order.
pub proof fn lemma_remove_keeps_wf(store: LedgerView, id: Seq<char>)
    requires
        store.wf(),
    ensures
        store.remove(id).wf(),
{
    match position_of(store.records, id) {
        Some(k) => {
            lemma_first_same(ids_of(store.records), id);
            let after = store.remove(id);
            let ids = ids_of(after.records);
            assert forall|i: int, j: int| 0 <= i < j < ids.len() implies !same_ignoring_case(
                #[trigger] ids[i],
                #[trigger] ids[j],
            ) by {
                let a = if i < k {
                    i
                } else {
                    i + 1
                };
                let b = if j < k {
                    j
                } else {
                    j + 1
                };
                assert(ids[i] == ids_of(store.records)[a]);
                assert(ids[j] == ids_of(store.records)[b]);
            }
            assert forall|i: int| 0 <= i < after.records.len() implies ((
            #[trigger] after.records[i]).transaction.category matches Some(name)
                ==> after.categories.contains(name)) by {
                let a = if i < k {
                    i
                } else {
                    i + 1
                };
                assert(after.records[i] == store.records[a]);
            }
            assert forall|i: int| 0 <= i < after.records.len() implies (
            #[trigger] after.records[i]).transaction.wf() by {
                let a = if i < k {
                    i
                } else {
                    i + 1
                };
                assert(after.records[i] == store.records[a]);
            }
        },
        None => {},
    }
}

/// A category is found under any spelling: the store that has taken a
/// record of a category knows that category by every name that differs from
/// it in the case of its letters only, under one and the same number, and the
/// record as it is stored is of the category by every such name.
pub proof fn lemma_category_found_in_any_case(store: LedgerView, r: RecordView, name: Seq<char>)
    requires
        store.add(r) is Ok,
        r.transaction.category matches Some(given) && same_ignoring_case(given, name),
    ensures
        store.add(r).unwrap().category_id(name) is Some,
        store.add(r).unwrap().category_id(name) == store.add(r).unwrap().category_id(
            r.transaction.category.unwrap(),
        ),
        store.add(r).unwrap().records.last().transaction.in_category(name),
        store.add(r).unwrap().get(r.id) == Some(store.add(r).unwrap().records.last()),
{
    let given = r.transaction.category.unwrap();
    let after = store.add(r).unwrap();
    lemma_registered(store.categories, given);
    lemma_first_same(after.categories, given);
    crate::text::lemma_first_same_ignores_case(after.categories, given, name);
    lemma_first_same(ids_of(store.records), r.id);
    lemma_first_same(ids_of(after.records), r.id);
    let n = store.records.len() as int;
    assert(ids_of(after.records)[n] == r.id);
    assert forall|j: int| 0 <= j < n implies !same_ignoring_case(
        #[trigger] ids_of(after.records)[j],
        r.id,
    ) by {
        assert(ids_of(after.records)[j] == ids_of(store.records)[j]);
    }
}

/// A record that was removed is no longer found, and every other record is
/// found as before.
pub proof fn lemma_remove_removes(store: LedgerView, id: Seq<char>, other: Seq<char>)
    requires
        store.wf(),
    ensures
        store.remove(id).get(id) is None,
        !same_ignoring_case(other, id) ==> store.remove(id).get(other) == store.get(other),
{
    let ids = ids_of(store.records);
    let after = store.remove(id);
    let left = ids_of(after.records);
    lemma_first_same(ids, id);
    lemma_first_same(left, id);
    lemma_first_same(ids, other);
    lemma_first_same(left, other);
    match position_of(store.records, id) {
        Some(k) => {
            assert forall|j: int| 0 <= j < left.len() implies #[trigger] left[j] == ids[if j < k {
                j
            } else {
                j + 1
            }] by {}
            assert forall|j: int| 0 <= j < left.len() implies !same_ignoring_case(
                #[trigger] left[j],
                id,
            ) by {
                let up = if j < k {
                    j
                } else {
                    j + 1
                };
                assert(left[j] == ids[up]);
                if same_ignoring_case(ids[up], id) {
                    assert(same_ignoring_case(ids[up], ids[k]));
                }
            }
            if !same_ignoring_case(other, id) {
                match position_of(store.records, other) {
                    Some(m) => {
                        assert(m != k);
                        let down = if m < k {
                            m
                        } else {
                            m - 1
                        };
                        assert(left[down] == ids[m]);
                        match position_of(after.records, other) {
                            Some(n) => {
                                let up = if n < k {
                                    n
                                } else {
                                    n + 1
                                };
                                assert(left[n] == ids[up]);
                                if n < down {
                                    assert(up < m);
                                }
                                if down < n {
                                }
                                assert(n == down);
                            },
                            None => {},
                        }
                    },
                    None => {
                        match position_of(after.records, other) {
                            Some(n) => {
                                let up = if n < k {
                                    n
                                } else {
                                    n + 1
                                };
                                assert(left[n] == ids[up]);
                            },
                            None => {},
                        }
                    },
                }
            }
        },
        None => {},
    }
}

/// A record that was added is found under its identifier, with its
/// transaction as the store keeps it.
pub proof fn lemma_add_then_get(store: LedgerView, r: RecordView)
    requires
        store.add(r) is Ok,
    ensures
        store.add(r).unwrap().get(r.id) == Some(
            RecordView {
                id: r.id,
                transaction: kept(store.add(r).unwrap().categories, r.transaction),
            },
        ),
{
    let after = store.add(r).unwrap();
    lemma_first_same(ids_of(store.records), r.id);
    lemma_first_same(ids_of(after.records), r.id);
    let n = store.records.len() as int;
    assert(ids_of(after.records)[n] == r.id);
    assert forall|j: int| 0 <= j < n implies !same_ignoring_case(
        #[trigger] ids_of(after.records)[j],
        r.id,
    ) by {
        assert(ids_of(after.records)[j] == ids_of(store.records)[j]);
    }
}

/// A record that was updated is found under its identifier with the new
/// transaction as the store keeps it.
pub proof fn lemma_update_then_get(store: LedgerView, r: RecordView)
    requires
        store.update(r) is Ok,
    ensures
        store.update(r).unwrap().get(r.id) matches Some(found) && found.transaction == kept(
            store.update(r).unwrap().categories,
            r.transaction,
        ) && Some(found.id) == match store.get(r.id) {
            Some(before) => Some(before.id),
            None => None,
        },
{
    let after = store.update(r).unwrap();
    lemma_first_same(ids_of(store.records), r.id);
    assert(ids_of(after.records) =~= ids_of(store.records));
}

/// Removing a record that the store does not hold leaves the store as it is.
pub proof fn lemma_remove_absent(store: LedgerView, id: Seq<char>)
    requires
        store.get(id) is None,
    ensures
        store.remove(id) == store,
{
}

/// Writing a record to a store in good order leaves it in good order,
/// whether the record is taken or refused.
pub proof fn lemma_upsert_keeps_wf(store: LedgerView, r: RecordView)
    requires
        store.wf(),
    ensures
        store.after_upsert(r).wf(),
{
    lemma_add_keeps_wf(store, r);
    lemma_update_keeps_wf(store, r);
}

/// Writing a batch to a store in good order leaves it in good order.
pub proof fn lemma_upserts_keep_wf(store: LedgerView, batch: Seq<RecordView>)
    requires
        store.wf(),
    ensures
        store.after_upserts(batch).wf(),
    decreases batch.len(),
{
    if batch.len() > 0 {
        lemma_upserts_keep_wf(store, batch.drop_last());
        lemma_upsert_keeps_wf(store.after_upserts(batch.drop_last()), batch.last());
    }
}

/// Writing a record a second time changes nothing: the store after the
/// second write is the store after the first.
pub proof fn lemma_upsert_idempotent(store: LedgerView, r: RecordView)
    ensures
        store.after_upsert(r).after_upsert(r) == store.after_upsert(r),
{
    let once = store.after_upsert(r);
    if store.upsert(r) is Ok {
        lemma_first_same(ids_of(store.records), r.id);
        lemma_first_same(ids_of(once.records), r.id);
        let categories = registered(store.categories, r.transaction.category);
        lemma_kept_category(store.categories, r.transaction.category);
        match r.transaction.category {
            Some(name) => {
                lemma_registered(store.categories, name);
            },
            None => {},
        }
        assert(registered(categories, r.transaction.category) == categories);
        match position_of(store.records, r.id) {
            Some(k) => {
                assert(ids_of(once.records) =~= ids_of(store.records));
                let twice = once.update(r).unwrap();
                assert(twice.records =~= once.records);
            },
            None => {
                let n = store.records.len() as int;
                assert(ids_of(once.records)[n] == r.id);
                assert forall|j: int| 0 <= j < n implies !same_ignoring_case(
                    #[trigger] ids_of(once.records)[j],
                    r.id,
                ) by {
                    assert(ids_of(once.records)[j] == ids_of(store.records)[j]);
                }
                assert(position_of(once.records, r.id) == Some(n));
                let twice = once.update(r).unwrap();
                assert(twice.records =~= once.records);
            },
        }
    } else {
        // a record that is refused once is refused again: the store is the same
    }
}

impl View for Ledger {
    type V = LedgerView;

    closed spec fn view(&self) -> LedgerView {
        LedgerView { records: views_of(self.records@), categories: names_of(self.categories@) }
    }
}

/// Makes sure the registry has an entry for the name, and says where it is.
fn register(categories: &mut Vec<String>, name: &str) -> (k: usize)
    ensures
        names_of(final(categories)@) == registered(names_of(old(categories)@), Some(name@)),
        first_same(names_of(final(categories)@), name@) == Some(k as int),
        k < final(categories).len(),
{
    proof {
        lemma_registered(names_of(categories@), name@);
    }
    match find_name(categories, name) {
        Some(k) => k,
        None => {
            let ghost before = names_of(categories@);
            categories.push(String::from_str(name));
            assert(names_of(categories@) =~= before.push(name@));
            categories.len() - 1
        },
    }
}

/// The transaction as the store keeps it, and the registry that knows its
/// category.
fn keep(categories: &mut Vec<String>, t: &Transaction) -> (r: Transaction)
    ensures
        names_of(final(categories)@) == registered(names_of(old(categories)@), t@.category),
        r@ == kept(names_of(final(categories)@), t@),
{
    let category = match &t.category {
        Some(name) => {
            let k = register(categories, name.as_str());
            assert(names_of(categories@)[k as int] == categories@[k as int]@);
            Some(categories[k].clone())
        },
        None => None,
    };
    Transaction {
        date: t.date,
        check_number: t.check_number,
        category,
        vendor: t.vendor.clone(),
        memo: t.memo.clone(),
        amount: t.amount,
        transaction_type: t.transaction_type,
        is_reconciled: t.is_reconciled,
    }
}

impl Clone for Ledger {
    fn clone(&self) -> (r: Self)
        ensures
            r@ == self@,
    {
        Ledger { records: copy_records(&self.records), categories: load_categories_from_db(self) }
    }
}

impl Ledger {
    /// A store without records or categories.
    pub fn new() -> (store: Ledger)
        ensures
            store@ == LedgerView::empty(),
            store@.wf(),
    {
        let store = Ledger { records: Vec::new(), categories: Vec::new() };
        assert(store@.records =~= Seq::empty());
        assert(store@.categories =~= Seq::empty());
        assert(ids_of(store@.records) =~= Seq::empty());
        store
    }

    /// The records in the order in which they were stored.
    pub fn records(&self) -> (records: &Vec<Record>)
        ensures
            views_of(records@) == self@.records,
    {
        &self.records
    }

    /// The names of the categories in the order in which they were first seen.
    pub fn categories(&self) -> (categories: &Vec<String>)
        ensures
            names_of(categories@) == self@.categories,
    {
        &self.categories
    }
}

/// The names of the categories of the store.
pub fn load_categories_from_db(store: &Ledger) -> (names: Vec<String>)
    ensures
        names_of(names@) == store@.categories,
{
    let mut names: Vec<String> = Vec::new();
    let mut i: usize = 0;
    assert(names_of(names@) =~= names_of(store.categories@).take(0));
    while i < store.categories.len()
        invariant
            i <= store.categories.len(),
            names.len() == i,
            names_of(names@) == names_of(store.categories@).take(i as int),
        decreases store.categories.len() - i,
    {
        names.push(store.categories[i].clone());
        assert(names_of(names@) =~= names_of(store.categories@).take(i + 1));
        i += 1;
    }
    assert(names_of(store.categories@).take(store.categories.len() as int) =~= names_of(
        store.categories@,
    ));
    names
}

/// Whether the store has a category of that name, whatever the case of its
/// letters.
pub fn category_exists_in_db(store: &Ledger, c: &str) -> (r: bool)
    ensures
        r == (store@.category_id(c@) is Some),
{
    find_name(&store.categories, c).is_some()
}

/// The number under which the store knows the category.
pub fn category_id(store: &Ledger, c: &str) -> (r: Option<usize>)
    ensures
        match r {
            Some(id) => store@.category_id(c@) == Some(id as int),
            None => store@.category_id(c@) is None,
        },
{
    match find_name(&store.categories, c) {
        Some(k) => Some(k + 1),
        None => None,
    }
}

/// Enters the category in the registry, unless it is there.
pub fn add_category_to_db(store: &mut Ledger, c: &str)
    ensures
        final(store)@ == old(store)@.add_category(c@),
        old(store)@.wf() ==> final(store)@.wf(),
{
    proof {
        lemma_registered(store@.categories, c@);
        lemma_registered_keeps(store@.categories, Some(c@));
    }
    let _ = register(&mut store.categories, c);
}

/// Stores a new record. Its category is entered in the registry first if it
/// is a new one.
pub fn add_record_to_db(store: &mut Ledger, r: &Record) -> (res: Result<(), ImportError>)
    ensures
        match old(store)@.add(r@) {
            Ok(after) => res is Ok && final(store)@ == after,
            Err(e) => res == Err::<(), ImportError>(e) && final(store)@ == old(store)@,
        },
        old(store)@.wf() ==> final(store)@.wf(),
{
    proof {
        if store@.wf() {
            lemma_add_keeps_wf(store@, r@);
        }
    }
    if find_record(&store.records, r.id.as_str()).is_some() || !r.transaction.is_valid() {
        return Err(ImportError::StorageError);
    }
    let transaction = keep(&mut store.categories, &r.transaction);
    let ghost before = views_of(store.records@);
    let record = Record { id: r.id.clone(), transaction };
    let ghost added = record@;
    store.records.push(record);
    assert(views_of(store.records@) =~= before.push(added));
    Ok(())
}

/// The record that answers to the identifier, whatever the case of its
/// letters.
pub fn retrieve_record_with_id_from_db(store: &Ledger, i: &str) -> (r: Option<Record>)
    ensures
        match r {
            Some(record) => store@.get(i@) == Some(record@),
            None => store@.get(i@) is None,
        },
{
    match find_record(&store.records, i) {
        Some(k) => Some(store.records[k].clone()),
        None => None,
    }
}

/// Replaces the transaction of the record that answers to the identifier of
/// `r` by that of `r`.
pub fn update_record_in_db(store: &mut Ledger, r: &Record) -> (res: Result<(), ImportError>)
    ensures
        match old(store)@.update(r@) {
            Ok(after) => res is Ok && final(store)@ == after,
            Err(e) => res == Err::<(), ImportError>(e) && final(store)@ == old(store)@,
        },
        old(store)@.wf() ==> final(store)@.wf(),
{
    proof {
        if store@.wf() {
            lemma_update_keeps_wf(store@, r@);
        }
    }
    match find_record(&store.records, r.id.as_str()) {
        None => Err(ImportError::NotFound),
        Some(k) => {
            if !r.transaction.is_valid() {
                return Err(ImportError::StorageError);
            }
            let transaction = keep(&mut store.categories, &r.transaction);
            let ghost before = views_of(store.records@);
            let record = Record { id: store.records[k].id.clone(), transaction };
            let ghost written = record@;
            store.records.set(k, record);
            assert(views_of(store.records@) =~= before.update(k as int, written));
            Ok(())
        },
    }
}

/// Deletes the record that answers to the identifier. Where none does, the
/// store stays as it is: that is no error.
pub fn delete_record_from_db(store: &mut Ledger, i: &str)
    ensures
        final(store)@ == old(store)@.remove(i@),
        old(store)@.get(i@) is None ==> final(store)@ == old(store)@,
        old(store)@.wf() ==> final(store)@.wf(),
{
    proof {
        if store@.wf() {
            lemma_remove_keeps_wf(store@, i@);
        }
    }
    match find_record(&store.records, i) {
        Some(k) => {
            let ghost before = views_of(store.records@);
            let _ = store.records.remove(k);
            assert(views_of(store.records@) =~= before.remove(k as int));
        },
        None => {},
    }
}

/// Writes a record to the store: over the record that answers to its
/// identifier, or as a new record where none does. The store never comes to
/// hold two records under one identifier.
pub fn update_or_add_record(store: &mut Ledger, r: &Record) -> (res: Result<(), ImportError>)
    ensures
        match old(store)@.upsert(r@) {
            Ok(after) => res is Ok && final(store)@ == after,
            Err(e) => res == Err::<(), ImportError>(e) && final(store)@ == old(store)@,
        },
        final(store)@ == old(store)@.after_upsert(r@),
        old(store)@.wf() ==> final(store)@.wf(),
{
    if find_record(&store.records, r.id.as_str()).is_some() {
        update_record_in_db(store, r)
    } else {
        add_record_to_db(store, r)
    }
}

/// Writes the records of a batch to the store one by one, in their order. A
/// record that the store refuses is left out, and the others are written.
/// Hands back why records were refused, one reason for each.
pub fn add_records_to_db(store: &mut Ledger, r: &Vec<Record>) -> (refused: Vec<ImportError>)
    ensures
        final(store)@ == old(store)@.after_upserts(views_of(r@)),
        refused@ == old(store)@.refusals(views_of(r@)),
        old(store)@.wf() ==> final(store)@.wf(),
{
    let mut refused: Vec<ImportError> = Vec::new();
    let mut i: usize = 0;
    assert(views_of(r@).take(0) =~= Seq::<RecordView>::empty());
    while i < r.len()
        invariant
            i <= r.len(),
            store@ == old(store)@.after_upserts(views_of(r@).take(i as int)),
            refused@ == old(store)@.refusals(views_of(r@).take(i as int)),
            old(store)@.wf() ==> store@.wf(),
        decreases r.len() - i,
    {
        proof {
            let upto = views_of(r@).take(i + 1);
            assert(upto.drop_last() =~= views_of(r@).take(i as int));
            assert(upto.last() == r@[i as int]@);
        }
        match update_or_add_record(store, &r[i]) {
            Ok(()) => {},
            Err(e) => {
                refused.push(e);
            },
        }
        i += 1;
    }
    assert(views_of(r@).take(r.len() as int) =~= views_of(r@));
    refused
}

/// The balance as of the record `r` and including it; `None` where the store
/// holds no record under its identifier.
pub fn retrieve_balance_for_record(store: &Ledger, r: &Record) -> (balance: Option<i128>)
    requires
        store@.wf(),
    ensures
        match balance {
            Some(b) => balance_at(store@.records, r@.id) == Some(b as int),
            None => balance_at(store@.records, r@.id) is None,
        },
{
    balance_of(&store.records, r.id.as_str())
}

/// A row of the ledger table as the database hands it out and takes it in.
/// The amount is in cents and carries the direction as its sign: negative
/// for a withdrawal.
#[derive(Debug, PartialEq, Eq)]
pub struct StoredRow {
    pub id: String,
    pub date: String,
    pub check_number: Option<u32>,
    pub reconciled: Option<String>,
    pub vendor: Option<String>,
    pub memo: Option<String>,
    pub category: Option<String>,
    pub category_id: Option<usize>,
    pub amount: Option<i64>,
}

/// The text, or the empty text where there is none.
pub open spec fn text_or_empty(text: Option<String>) -> Seq<char> {
    match text {
        Some(t) => t@,
        None => Seq::empty(),
    }
}

/// The record that a row of the ledger table holds. A positive amount is a
/// deposit, any other a withdrawal; the row is reconciled where its flag is
/// `Y`; an amount, a vendor or a memo that is missing counts as zero or as
/// empty. A row whose date cannot be read holds no record.
pub open spec fn row_record(row: StoredRow) -> Result<RecordView, ImportError> {
    match Date::reading(date_of_text(row.date@)) {
        Err(e) => Err(e),
        Ok(date) => {
            let amount: int = match row.amount {
                Some(a) => a as int,
                None => 0,
            };
            Ok(
                RecordView {
                    id: row.id@,
                    transaction: TransactionView {
                        date,
                        check_number: row.check_number,
                        category: text_view(row.category),
                        vendor: text_or_empty(row.vendor),
                        memo: text_or_empty(row.memo),
                        amount: magnitude(amount) as u64,
                        transaction_type: if amount > 0 {
                            TransactionType::Deposit
                        } else {
                            TransactionType::Withdrawal
                        },
                        is_reconciled: text_view(row.reconciled) == Some("Y"@),
                    },
                },
            )
        },
    }
}

/// The records that the rows of the ledger table hold, in the order of the
/// rows; a row that holds none is passed over.
pub open spec fn rows_records(rows: Seq<StoredRow>) -> Seq<RecordView>
    decreases rows.len(),
{
    if rows.len() == 0 {
        Seq::empty()
    } else {
        match row_record(rows.last()) {
            Ok(r) => rows_records(rows.drop_last()).push(r),
            Err(_) => rows_records(rows.drop_last()),
        }
    }
}

fn text_or_default(text: &Option<String>) -> (r: String)
    ensures
        r@ == text_or_empty(*text),
{
    match text {
        Some(t) => t.clone(),
        None => String::new(),
    }
}

fn is_yes(flag: &Option<String>) -> (r: bool)
    ensures
        r == (text_view(*flag) == Some("Y"@)),
{
    match flag {
        Some(t) => {
            let yes = String::from_str("Y");
            *t == yes
        },
        None => false,
    }
}

/// Reads the record that a row of the ledger table holds.
pub fn record_from_row(row: &StoredRow) -> (r: Result<Record, ImportError>)
    ensures
        match r {
            Ok(record) => row_record(*row) == Ok::<RecordView, ImportError>(record@),
            Err(e) => row_record(*row) == Err::<RecordView, ImportError>(e),
        },
{
    match Date::parse(row.date.as_str()) {
        Err(e) => Err(e),
        Ok(date) => {
            let amount: i64 = match row.amount {
                Some(a) => a,
                None => 0,
            };
            Ok(
                Record {
                    id: row.id.clone(),
                    transaction: Transaction {
                        date,
                        check_number: row.check_number,
                        category: clone_text(&row.category),
                        vendor: text_or_default(&row.vendor),
                        memo: text_or_default(&row.memo),
                        amount: magnitude_of(amount),
                        transaction_type: if amount > 0 {
                            TransactionType::Deposit
                        } else {
                            TransactionType::Withdrawal
                        },
                        is_reconciled: is_yes(&row.reconciled),
                    },
                },
            )
        },
    }
}

/// Reads the records that the rows of the ledger table hold, in the order of
/// the rows. A row whose date cannot be read is passed over.
pub fn load_records_from_db(rows: &Vec<StoredRow>) -> (records: Vec<Record>)
    ensures
        views_of(records@) == rows_records(rows@),
{
    let mut records: Vec<Record> = Vec::new();
    let mut i: usize = 0;
    assert(rows@.take(0) =~= Seq::<StoredRow>::empty());
    assert(views_of(records@) =~= Seq::<RecordView>::empty());
    while i < rows.len()
        invariant
            i <= rows.len(),
            views_of(records@) == rows_records(rows@.take(i as int)),
        decreases rows.len() - i,
    {
        proof {
            let upto = rows@.take(i + 1);
            assert(upto.drop_last() =~= rows@.take(i as int));
            assert(upto.last() == rows@[i as int]);
        }
        match record_from_row(&rows[i]) {
            Ok(record) => {
                let ghost before = views_of(records@);
                let ghost added = record@;
                records.push(record);
                assert(views_of(records@) =~= before.push(added));
            },
            Err(_) => {},
        }
        i += 1;
    }
    assert(rows@.take(rows.len() as int) =~= rows@);
    records
}


/// The row under which the store writes a record to the ledger table: the
/// date as text, the flag `Y` or `N`, the amount with its sign, and the
/// category by its name and by its number in the registry.
pub fn stored_row(store: &Ledger, r: &Record) -> (row: StoredRow)
    requires
        r@.transaction.wf(),
    ensures
        row.id@ == r@.id,
        row.date@ == r@.transaction.date.text(),
        row.check_number == r@.transaction.check_number,
        text_view(row.reconciled) == Some(
            if r@.transaction.is_reconciled {
                "Y"@
            } else {
                "N"@
            },
        ),
        text_view(row.vendor) == Some(r@.transaction.vendor),
        text_view(row.memo) == Some(r@.transaction.memo),
        text_view(row.category) == r@.transaction.category,
        match r@.transaction.category {
            Some(name) => match row.category_id {
                Some(id) => store@.category_id(name) == Some(id as int),
                None => store@.category_id(name) is None,
            },
            None => row.category_id is None,
        },
        row.amount == Some(r@.transaction.signed_amount() as i64),
{
    let number = match &r.transaction.category {
        Some(name) => category_id(store, name.as_str()),
        None => None,
    };
    StoredRow {
        id: r.id.clone(),
        date: r.transaction.date.to_text(),
        check_number: r.transaction.check_number,
        reconciled: Some(
            if r.transaction.is_reconciled {
                String::from_str("Y")
            } else {
                String::from_str("N")
            },
        ),
        vendor: Some(r.transaction.vendor.clone()),
        memo: Some(r.transaction.memo.clone()),
        category: clone_text(&r.transaction.category),
        category_id: number,
        amount: Some(r.transaction.signed_amount()),
    }
}

impl LedgerView {
    /// The store with the categories of a list entered one by one.
    pub open spec fn with_categories(self, names: Seq<Seq<char>>) -> LedgerView
        decreases names.len(),
    {
        if names.len() == 0 {
            self
        } else {
            self.with_categories(names.drop_last()).add_category(names.last())
        }
    }
}

impl Ledger {
    /// The store that holds what was read from the database: the categories
    /// entered in their order, then the records written in theirs.
    pub fn open(names: &Vec<String>, records: &Vec<Record>) -> (store: Ledger)
        ensures
            store@ == LedgerView::empty().with_categories(names_of(names@)).after_upserts(
                views_of(records@),
            ),
            store@.wf(),
    {
        let mut store = Ledger::new();
        let mut i: usize = 0;
        assert(names_of(names@).take(0) =~= Seq::<Seq<char>>::empty());
        while i < names.len()
            invariant
                i <= names.len(),
                store@ == LedgerView::empty().with_categories(names_of(names@).take(i as int)),
                store@.wf(),
            decreases names.len() - i,
        {
            proof {
                let upto = names_of(names@).take(i + 1);
                assert(upto.drop_last() =~= names_of(names@).take(i as int));
                assert(upto.last() == names@[i as int]@);
            }
            add_category_to_db(&mut store, names[i].as_str());
            i += 1;
        }
        assert(names_of(names@).take(names.len() as int) =~= names_of(names@));
        let _ = add_records_to_db(&mut store, records);
        store
    }
}

} // verus!
