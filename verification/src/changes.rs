//! What has to be written to the register on disk to bring it from one
//! state of the store to another: the categories that are new, the records
//! that are gone, and the records that are new or hold something else.
//!
//! A record that holds what it held is not written again.

use vstd::prelude::*;
use vstd::string::*;
use crate::batch::extends;
use crate::database::{Ledger, LedgerView};
use crate::records::{find_record, ids_of, position_of, views_of, Record, RecordView};
use crate::text::{
    distinct_names,
    first_same,
    lemma_first_same,
    lemma_first_same_ignores_case,
    names_of,
    same_ignoring_case,
};
use crate::transaction::TransactionView;

verus! {

/// One write to the register.
#[derive(Debug, PartialEq, Eq)]
pub enum Change {
    /// Enter the category in the table of categories.
    CategoryAdded(String),
    /// Delete the record of that identifier.
    RecordRemoved(String),
    /// Insert the record.
    RecordAdded(Record),
    /// Write the transaction of the record over that of the record with its
    /// identifier.
    RecordUpdated(Record),
}

/// A write, with each text as a sequence of characters.
pub enum ChangeView {
    CategoryAdded(Seq<char>),
    RecordRemoved(Seq<char>),
    RecordAdded(RecordView),
    RecordUpdated(RecordView),
}

impl View for Change {
    type V = ChangeView;

    open spec fn view(&self) -> ChangeView {
        match self {
            Change::CategoryAdded(name) => ChangeView::CategoryAdded(name@),
            Change::RecordRemoved(id) => ChangeView::RecordRemoved(id@),
            Change::RecordAdded(record) => ChangeView::RecordAdded(record@),
            Change::RecordUpdated(record) => ChangeView::RecordUpdated(record@),
        }
    }
}

/// The views of a run of writes, in the same order.
pub open spec fn change_views(changes: Seq<Change>) -> Seq<ChangeView> {
    changes.map_values(|c: Change| c@)
}

/// The categories to enter: those that the registry has beyond the ones it
/// had, in their order.
pub open spec fn category_changes(before: Seq<Seq<char>>, after: Seq<Seq<char>>) -> Seq<
    ChangeView,
> {
    if after.len() <= before.len() {
        Seq::empty()
    } else {
        Seq::new(
            (after.len() - before.len()) as nat,
            |i: int| ChangeView::CategoryAdded(after[before.len() + i]),
        )
    }
}

/// The records to delete: those of the first `count` records that the store
/// had to whose identifier no record answers any more.
pub open spec fn removals(before: Seq<RecordView>, after: Seq<RecordView>, count: int) -> Seq<
    ChangeView,
>
    decreases count,
{
    if count <= 0 {
        Seq::empty()
    } else {
        let id = before[count - 1].id;
        if position_of(after, id) is None {
            removals(before, after, count - 1).push(ChangeView::RecordRemoved(id))
        } else {
            removals(before, after, count - 1)
        }
    }
}

/// The records to write, of the first `count` records that the store has:
/// those to whose identifier no record answered are inserted, and those that
/// hold another transaction than the record of their identifier held are
/// written over it.
pub open spec fn writes(before: Seq<RecordView>, after: Seq<RecordView>, count: int) -> Seq<
    ChangeView,
>
    decreases count,
{
    if count <= 0 {
        Seq::empty()
    } else {
        let r = after[count - 1];
        let earlier = writes(before, after, count - 1);
        match position_of(before, r.id) {
            None => earlier.push(ChangeView::RecordAdded(r)),
            Some(k) => if before[k].transaction == r.transaction {
                earlier
            } else {
                earlier.push(ChangeView::RecordUpdated(r))
            },
        }
    }
}

/// What has to be written to bring the register from the one state to the
/// other: first the new categories, then the deletions, then the records to
/// insert or to write over.
pub open spec fn changes_between(before: LedgerView, after: LedgerView) -> Seq<ChangeView> {
    category_changes(before.categories, after.categories) + removals(
        before.records,
        after.records,
        before.records.len() as int,
    ) + writes(before.records, after.records, after.records.len() as int)
}

/// Works out what has to be written to bring the register from the state
/// `before` to the state `after`.
pub fn changes(before: &Ledger, after: &Ledger) -> (out: Vec<Change>)
    ensures
        change_views(out@) == changes_between(before@, after@),
{
    let old_names = before.categories();
    let new_names = after.categories();
    let old_records = before.records();
    let new_records = after.records();
    let mut out: Vec<Change> = Vec::new();

    assert(change_views(out@) =~= Seq::<ChangeView>::empty());
    if old_names.len() < new_names.len() {
        let mut i: usize = old_names.len();
        while i < new_names.len()
            invariant
                old_names.len() <= i <= new_names.len(),
                out.len() == i - old_names.len(),
                forall|k: int|
                    0 <= k < out.len() ==> (#[trigger] change_views(out@)[k])
                        == ChangeView::CategoryAdded(names_of(new_names@)[old_names.len() + k]),
            decreases new_names.len() - i,
        {
            let ghost so_far = change_views(out@);
            out.push(Change::CategoryAdded(new_names[i].clone()));
            proof {
                assert(change_views(out@) =~= so_far.push(
                    ChangeView::CategoryAdded(names_of(new_names@)[i as int]),
                ));
                assert forall|k: int| 0 <= k < out.len() implies (#[trigger] change_views(
                    out@,
                )[k]) == ChangeView::CategoryAdded(names_of(new_names@)[old_names.len() + k]) by {
                    if k < so_far.len() {
                        assert(change_views(out@)[k] == so_far[k]);
                    }
                }
            }
            i += 1;
        }
    }
    let ghost first = change_views(out@);
    assert(first =~= category_changes(names_of(old_names@), names_of(new_names@)));

    let mut j: usize = 0;
    let ghost had = views_of(old_records@);
    let ghost has = views_of(new_records@);
    while j < old_records.len()
        invariant
            j <= old_records.len(),
            had == views_of(old_records@),
            has == views_of(new_records@),
            change_views(out@) == first + removals(had, has, j as int),
        decreases old_records.len() - j,
    {
        let ghost so_far = change_views(out@);
        assert(had[j as int].id == old_records@[j as int].id@);
        if find_record(new_records, old_records[j].id.as_str()).is_none() {
            out.push(Change::RecordRemoved(old_records[j].id.clone()));
            assert(change_views(out@) =~= so_far.push(ChangeView::RecordRemoved(had[j as int].id)));
            assert(change_views(out@) =~= first + removals(had, has, j + 1));
        }
        j += 1;
    }
    let ghost second = change_views(out@);

    let mut k: usize = 0;
    assert(change_views(out@) =~= second + writes(had, has, 0));
    while k < new_records.len()
        invariant
            k <= new_records.len(),
            had == views_of(old_records@),
            has == views_of(new_records@),
            change_views(out@) == second + writes(had, has, k as int),
        decreases new_records.len() - k,
    {
        let ghost so_far = change_views(out@);
        let record = &new_records[k];
        assert(has[k as int] == record@);
        match find_record(old_records, record.id.as_str()) {
            None => {
                out.push(Change::RecordAdded(record.clone()));
                assert(change_views(out@) =~= so_far.push(ChangeView::RecordAdded(has[k as int])));
                assert(change_views(out@) =~= second + writes(had, has, k + 1));
            },
            Some(p) => {
                assert(had[p as int].transaction == old_records@[p as int]@.transaction);
                if !old_records[p].transaction.same_as(&record.transaction) {
                    out.push(Change::RecordUpdated(record.clone()));
                    assert(change_views(out@) =~= so_far.push(
                        ChangeView::RecordUpdated(has[k as int]),
                    ));
                    assert(change_views(out@) =~= second + writes(had, has, k + 1));
                }
            },
        }
        k += 1;
    }
    out
}

/// The register after one write.
pub open spec fn applied(db: LedgerView, change: ChangeView) -> LedgerView {
    match change {
        ChangeView::CategoryAdded(name) => LedgerView {
            records: db.records,
            categories: db.categories.push(name),
        },
        ChangeView::RecordRemoved(id) => db.remove(id),
        ChangeView::RecordAdded(r) => LedgerView {
            records: db.records.push(r),
            categories: db.categories,
        },
        ChangeView::RecordUpdated(r) => match position_of(db.records, r.id) {
            Some(k) => LedgerView {
                records: db.records.update(
                    k,
                    RecordView { id: db.records[k].id, transaction: r.transaction },
                ),
                categories: db.categories,
            },
            None => db,
        },
    }
}

/// The register after a run of writes, made in their order.
pub open spec fn replayed(db: LedgerView, changes: Seq<ChangeView>) -> LedgerView
    decreases changes.len(),
{
    if changes.len() == 0 {
        db
    } else {
        applied(replayed(db, changes.drop_last()), changes.last())
    }
}

/// What the register holds under an identifier.
pub open spec fn held(records: Seq<RecordView>, id: Seq<char>) -> Option<TransactionView> {
    match position_of(records, id) {
        Some(k) => Some(records[k].transaction),
        None => None,
    }
}

/// Writes made one run after the other are the writes of the two runs put
/// together.
pub proof fn lemma_replayed_add(db: LedgerView, first: Seq<ChangeView>, second: Seq<ChangeView>)
    ensures
        replayed(db, first + second) == replayed(replayed(db, first), second),
    decreases second.len(),
{
    if second.len() == 0 {
        assert(first + second =~= first);
    } else {
        lemma_replayed_add(db, first, second.drop_last());
        assert((first + second).drop_last() =~= first + second.drop_last());
        assert((first + second).last() == second.last());
    }
}

/// What is held under an identifier does not depend on the case of its
/// letters.
pub proof fn lemma_held_ignores_case(records: Seq<RecordView>, a: Seq<char>, b: Seq<char>)
    requires
        same_ignoring_case(a, b),
    ensures
        held(records, a) == held(records, b),
{
    lemma_first_same_ignores_case(ids_of(records), a, b);
}

/// A record under an identifier that the register does not know is held
/// after it is put at the end, and nothing else changes.
pub proof fn lemma_held_after_push(records: Seq<RecordView>, r: RecordView, id: Seq<char>)
    requires
        distinct_names(ids_of(records)),
        held(records, r.id) is None,
    ensures
        distinct_names(ids_of(records.push(r))),
        held(records.push(r), id) == if same_ignoring_case(id, r.id) {
            Some(r.transaction)
        } else {
            held(records, id)
        },
{
    let ids = ids_of(records);
    let after = ids_of(records.push(r));
    let n = records.len() as int;
    lemma_first_same(ids, r.id);
    lemma_first_same(ids, id);
    lemma_first_same(after, id);
    assert(after[n] == r.id);
    assert forall|k: int| 0 <= k < n implies #[trigger] after[k] == ids[k] by {}
    assert forall|a: int, b: int| 0 <= a < b < after.len() implies !same_ignoring_case(
        #[trigger] after[a],
        #[trigger] after[b],
    ) by {
        assert(after[a] == ids[a]);
        if b < n {
            assert(after[b] == ids[b]);
        }
    }
    if same_ignoring_case(id, r.id) {
        lemma_first_same_ignores_case(ids, id, r.id);
        match first_same(after, id) {
            Some(m) => {
                if m < n {
                    assert(after[m] == ids[m]);
                }
            },
            None => {
                assert(same_ignoring_case(after[n], id));
            },
        }
    } else {
        match first_same(ids, id) {
            Some(k) => {
                assert(after[k] == ids[k]);
                match first_same(after, id) {
                    Some(m) => {
                        if m < k {
                            assert(after[m] == ids[m]);
                        }
                    },
                    None => {},
                }
            },
            None => {
                match first_same(after, id) {
                    Some(m) => {
                        if m < n {
                            assert(after[m] == ids[m]);
                        }
                    },
                    None => {},
                }
            },
        }
    }
}

/// A record that is written over holds the new transaction, and nothing else
/// changes.
pub proof fn lemma_held_after_update(db: LedgerView, r: RecordView, id: Seq<char>)
    requires
        distinct_names(ids_of(db.records)),
        held(db.records, r.id) is Some,
    ensures
        ids_of(applied(db, ChangeView::RecordUpdated(r)).records) == ids_of(db.records),
        applied(db, ChangeView::RecordUpdated(r)).categories == db.categories,
        held(applied(db, ChangeView::RecordUpdated(r)).records, id) == if same_ignoring_case(
            id,
            r.id,
        ) {
            Some(r.transaction)
        } else {
            held(db.records, id)
        },
{
    let ids = ids_of(db.records);
    let after = applied(db, ChangeView::RecordUpdated(r));
    lemma_first_same(ids, r.id);
    lemma_first_same(ids, id);
    let k = position_of(db.records, r.id).unwrap();
    assert(ids_of(after.records) =~= ids);
    if same_ignoring_case(id, r.id) {
        lemma_first_same_ignores_case(ids, id, r.id);
    } else {
        match first_same(ids, id) {
            Some(m) => {
                if m == k {
                    assert(same_ignoring_case(ids[k], id) && same_ignoring_case(ids[k], r.id));
                }
            },
            None => {},
        }
    }
}

/// A record that is deleted is held no more, and nothing else changes.
pub proof fn lemma_held_after_remove(db: LedgerView, gone: Seq<char>, id: Seq<char>)
    requires
        distinct_names(ids_of(db.records)),
    ensures
        distinct_names(ids_of(db.remove(gone).records)),
        db.remove(gone).categories == db.categories,
        held(db.remove(gone).records, id) == if same_ignoring_case(id, gone) {
            None
        } else {
            held(db.records, id)
        },
{
    let ids = ids_of(db.records);
    let after = db.remove(gone);
    let left = ids_of(after.records);
    lemma_first_same(ids, gone);
    lemma_first_same(ids, id);
    lemma_first_same(left, id);
    match position_of(db.records, gone) {
        Some(k) => {
            assert forall|j: int| 0 <= j < left.len() implies #[trigger] left[j] == ids[if j < k {
                j
            } else {
                j + 1
            }] && after.records[j] == db.records[if j < k {
                j
            } else {
                j + 1
            }] by {}
            assert forall|a: int, b: int| 0 <= a < b < left.len() implies !same_ignoring_case(
                #[trigger] left[a],
                #[trigger] left[b],
            ) by {
                let x = if a < k {
                    a
                } else {
                    a + 1
                };
                let y = if b < k {
                    b
                } else {
                    b + 1
                };
                assert(left[a] == ids[x] && left[b] == ids[y]);
            }
            if same_ignoring_case(id, gone) {
                match first_same(left, id) {
                    Some(m) => {
                        let up = if m < k {
                            m
                        } else {
                            m + 1
                        };
                        assert(left[m] == ids[up]);
                        assert(same_ignoring_case(ids[up], ids[k]));
                    },
                    None => {},
                }
            } else {
                match first_same(ids, id) {
                    Some(m) => {
                        assert(m != k);
                        let down = if m < k {
                            m
                        } else {
                            m - 1
                        };
                        assert(left[down] == ids[m]);
                        match first_same(left, id) {
                            Some(n) => {
                                let up = if n < k {
                                    n
                                } else {
                                    n + 1
                                };
                                assert(left[n] == ids[up]);
                                if n < down {
                                    assert(up < m);
                                }
                                assert(n == down);
                            },
                            None => {},
                        }
                    },
                    None => {
                        match first_same(left, id) {
                            Some(n) => {
                                let up = if n < k {
                                    n
                                } else {
                                    n + 1
                                };
                                assert(left[n] == ids[up]);
                            },
                            None => {},
                        }
                    },
                }
            }
        },
        None => {
            if same_ignoring_case(id, gone) {
                lemma_first_same_ignores_case(ids, id, gone);
            }
        },
    }
}

/// After the new categories are entered, the registry is the new registry,
/// and the records are as they were.
pub proof fn lemma_categories_replayed(db: LedgerView, after: Seq<Seq<char>>)
    requires
        extends(after, db.categories),
    ensures
        replayed(db, category_changes(db.categories, after)).categories == after,
        replayed(db, category_changes(db.categories, after)).records == db.records,
    decreases after.len(),
{
    let changes = category_changes(db.categories, after);
    if after.len() > db.categories.len() {
        let shorter = after.drop_last();
        assert(extends(shorter, db.categories)) by {
            assert forall|k: int| 0 <= k < db.categories.len() implies #[trigger] shorter[k]
                == db.categories[k] by {
                assert(after[k] == db.categories[k]);
            }
        }
        lemma_categories_replayed(db, shorter);
        assert(changes.drop_last() =~= category_changes(db.categories, shorter));
        assert(changes.last() == ChangeView::CategoryAdded(after.last()));
        assert(shorter.push(after.last()) =~= after);
    } else {
        assert(after =~= db.categories);
    }
}

/// After the deletions that concern the first `count` records, the register
/// holds what it held, but for the records among them that are gone.
pub proof fn lemma_removals_replayed(
    db: LedgerView,
    after: Seq<RecordView>,
    count: int,
    id: Seq<char>,
)
    requires
        distinct_names(ids_of(db.records)),
        0 <= count <= db.records.len(),
    ensures
        distinct_names(ids_of(replayed(db, removals(db.records, after, count)).records)),
        replayed(db, removals(db.records, after, count)).categories == db.categories,
        held(replayed(db, removals(db.records, after, count)).records, id) == if position_of(
            db.records.take(count),
            id,
        ) is Some && position_of(after, id) is None {
            None
        } else {
            held(db.records, id)
        },
    decreases count,
{
    if count > 0 {
        let gone = db.records[count - 1].id;
        let earlier = replayed(db, removals(db.records, after, count - 1));
        lemma_removals_replayed(db, after, count - 1, id);
        lemma_removals_replayed(db, after, count - 1, gone);
        let ids = ids_of(db.records);
        let upto = ids_of(db.records.take(count));
        let before = ids_of(db.records.take(count - 1));
        lemma_first_same(upto, id);
        lemma_first_same(before, id);
        lemma_first_same(ids, id);
        assert(upto[count - 1] == gone);
        assert forall|k: int| 0 <= k < count - 1 implies #[trigger] upto[k] == before[k]
            && upto[k] == ids[k] by {}
        assert(ids[count - 1] == gone);
        // the record is among the first `count` where it is the last of them
        // or among those before it
        assert(position_of(db.records.take(count), id) is Some <==> (same_ignoring_case(id, gone)
            || position_of(db.records.take(count - 1), id) is Some)) by {
            match first_same(before, id) {
                Some(m) => {
                    assert(upto[m] == before[m]);
                },
                None => {
                    match first_same(upto, id) {
                        Some(m) => {
                            if m < count - 1 {
                                assert(upto[m] == before[m]);
                            }
                        },
                        None => {
                            assert(!same_ignoring_case(upto[count - 1], id));
                        },
                    }
                },
            }
        }
        if position_of(after, gone) is None {
            assert(removals(db.records, after, count).drop_last() =~= removals(
                db.records,
                after,
                count - 1,
            ));
            lemma_held_after_remove(earlier, gone, id);
            if same_ignoring_case(id, gone) {
                lemma_first_same_ignores_case(ids_of(after), id, gone);
            }
        } else {
            if same_ignoring_case(id, gone) {
                lemma_first_same_ignores_case(ids_of(after), id, gone);
                lemma_first_same_ignores_case(ids, id, gone);
                lemma_first_same_ignores_case(before, id, gone);
                // no record before it answers to the same name
                match first_same(before, gone) {
                    Some(m) => {
                        assert(before[m] == ids[m]);
                        assert(same_ignoring_case(ids[m], ids[count - 1]));
                    },
                    None => {},
                }
            }
        }
    } else {
        assert(ids_of(db.records.take(0)) =~= Seq::<Seq<char>>::empty());
    }
}

/// After the writes that concern the first `count` records of the new
/// state, the register holds under the identifier of each of them what it
/// holds, and otherwise what it held.
pub proof fn lemma_writes_replayed(
    db: LedgerView,
    before: Seq<RecordView>,
    after: Seq<RecordView>,
    count: int,
    id: Seq<char>,
)
    requires
        distinct_names(ids_of(db.records)),
        distinct_names(ids_of(after)),
        0 <= count <= after.len(),
        forall|name: Seq<char>|
            position_of(after, name) is Some ==> #[trigger] held(db.records, name) == held(
                before,
                name,
            ),
    ensures
        distinct_names(ids_of(replayed(db, writes(before, after, count)).records)),
        replayed(db, writes(before, after, count)).categories == db.categories,
        held(replayed(db, writes(before, after, count)).records, id) == match position_of(
            after.take(count),
            id,
        ) {
            Some(m) => Some(after[m].transaction),
            None => held(db.records, id),
        },
    decreases count,
{
    if count > 0 {
        let r = after[count - 1];
        let earlier = replayed(db, writes(before, after, count - 1));
        lemma_writes_replayed(db, before, after, count - 1, id);
        lemma_writes_replayed(db, before, after, count - 1, r.id);
        let ids = ids_of(after);
        let upto = ids_of(after.take(count));
        let prior = ids_of(after.take(count - 1));
        lemma_first_same(upto, id);
        lemma_first_same(prior, id);
        lemma_first_same(prior, r.id);
        lemma_first_same(ids, r.id);
        assert(upto[count - 1] == r.id);
        assert(ids[count - 1] == r.id);
        assert forall|k: int| 0 <= k < count - 1 implies #[trigger] upto[k] == prior[k]
            && prior[k] == ids[k] && after.take(count)[k] == after[k] by {}
        // none of the records before it answers to its name
        assert(first_same(prior, r.id) is None) by {
            match first_same(prior, r.id) {
                Some(m) => {
                    assert(prior[m] == ids[m]);
                    assert(same_ignoring_case(ids[m], ids[count - 1]));
                },
                None => {},
            }
        }
        assert(position_of(after, r.id) is Some);
        assert(held(earlier.records, r.id) == held(before, r.id));
        // where the name is that of the record, the record is the one found
        if same_ignoring_case(id, r.id) {
            lemma_first_same_ignores_case(prior, id, r.id);
            assert(first_same(upto, id) == Some(count - 1)) by {
                match first_same(upto, id) {
                    Some(m) => {
                        if m < count - 1 {
                            assert(upto[m] == prior[m]);
                        }
                    },
                    None => {
                        assert(same_ignoring_case(upto[count - 1], id));
                    },
                }
            }
        } else {
            assert(first_same(upto, id) == first_same(prior, id)) by {
                match first_same(prior, id) {
                    Some(m) => {
                        assert(upto[m] == prior[m]);
                        match first_same(upto, id) {
                            Some(n) => {
                                if n < m {
                                    assert(upto[n] == prior[n]);
                                }
                            },
                            None => {},
                        }
                    },
                    None => {
                        match first_same(upto, id) {
                            Some(n) => {
                                if n < count - 1 {
                                    assert(upto[n] == prior[n]);
                                }
                            },
                            None => {},
                        }
                    },
                }
            }
        }
        match position_of(before, r.id) {
            None => {
                assert(writes(before, after, count).drop_last() =~= writes(
                    before,
                    after,
                    count - 1,
                ));
                lemma_held_after_push(earlier.records, r, id);
            },
            Some(k) => {
                if before[k].transaction == r.transaction {
                    if same_ignoring_case(id, r.id) {
                        lemma_held_ignores_case(earlier.records, id, r.id);
                    }
                } else {
                    assert(writes(before, after, count).drop_last() =~= writes(
                        before,
                        after,
                        count - 1,
                    ));
                    lemma_held_after_update(earlier, r, id);
                }
            },
        }
    } else {
        assert(ids_of(after.take(0)) =~= Seq::<Seq<char>>::empty());
    }
}

/// The writes bring the register from the one state to the other: after
/// them it has the categories of the new state, and it holds under every
/// identifier what the new state holds under it.
pub proof fn lemma_changes_replayed(before: LedgerView, after: LedgerView, id: Seq<char>)
    requires
        distinct_names(ids_of(before.records)),
        distinct_names(ids_of(after.records)),
        extends(after.categories, before.categories),
    ensures
        replayed(before, changes_between(before, after)).categories == after.categories,
        held(replayed(before, changes_between(before, after)).records, id) == held(
            after.records,
            id,
        ),
{
    let first = category_changes(before.categories, after.categories);
    let second = removals(before.records, after.records, before.records.len() as int);
    let third = writes(before.records, after.records, after.records.len() as int);
    let one = replayed(before, first);
    let two = replayed(one, second);
    let three = replayed(two, third);
    lemma_replayed_add(before, first, second);
    lemma_replayed_add(before, first + second, third);
    lemma_categories_replayed(before, after.categories);
    assert(one.records == before.records);
    lemma_removals_replayed(one, after.records, before.records.len() as int, id);
    assert(before.records.take(before.records.len() as int) =~= before.records);
    assert forall|name: Seq<char>| position_of(after.records, name) is Some implies #[trigger] held(
        two.records,
        name,
    ) == held(before.records, name) by {
        lemma_removals_replayed(one, after.records, before.records.len() as int, name);
    }
    lemma_writes_replayed(two, before.records, after.records, after.records.len() as int, id);
    assert(after.records.take(after.records.len() as int) =~= after.records);
}

/// A store that has not changed needs no write.
pub proof fn lemma_no_changes(store: LedgerView)
    requires
        distinct_names(ids_of(store.records)),
    ensures
        changes_between(store, store) == Seq::<ChangeView>::empty(),
{
    lemma_no_removals(store.records, store.records.len() as int);
    lemma_no_writes(store.records, store.records.len() as int);
}

/// No record of a store is gone from it.
pub proof fn lemma_no_removals(records: Seq<RecordView>, count: int)
    requires
        0 <= count <= records.len(),
    ensures
        removals(records, records, count) == Seq::<ChangeView>::empty(),
    decreases count,
{
    if count > 0 {
        lemma_no_removals(records, count - 1);
        lemma_first_same(ids_of(records), records[count - 1].id);
        assert(ids_of(records)[count - 1] == records[count - 1].id);
    }
}

/// No record of a store holds another transaction than it holds.
pub proof fn lemma_no_writes(records: Seq<RecordView>, count: int)
    requires
        distinct_names(ids_of(records)),
        0 <= count <= records.len(),
    ensures
        writes(records, records, count) == Seq::<ChangeView>::empty(),
    decreases count,
{
    if count > 0 {
        lemma_no_writes(records, count - 1);
        let ids = ids_of(records);
        lemma_first_same(ids, records[count - 1].id);
        assert(ids[count - 1] == records[count - 1].id);
        let k = position_of(records, records[count - 1].id).unwrap();
        if k < count - 1 {
            assert(same_ignoring_case(ids[k], ids[count - 1]));
        }
    }
}

} // verus!
