//! What a batch of records leaves in the store, and why writing the batch a
//! second time changes nothing.
//!
//! After a batch is written, every record of the store that the batch names
//! holds what the last record of that name in the batch says; the others
//! hold what they held. Writing the batch again writes the same again.

use vstd::prelude::*;
use crate::database::{kept, lemma_registered, lemma_upsert_keeps_wf, registered, LedgerView};
use crate::records::{ids_of, position_of, RecordView};
use crate::text::{first_same, lemma_first_same, same_ignoring_case};
use crate::transaction::TransactionView;

verus! {

/// The place in the batch of the last record that can be stored and that
/// answers to the identifier.
pub open spec fn last_writer(batch: Seq<RecordView>, id: Seq<char>) -> Option<int>
    decreases batch.len(),
{
    if batch.len() == 0 {
        None
    } else if batch.last().transaction.wf() && same_ignoring_case(batch.last().id, id) {
        Some(batch.len() - 1)
    } else {
        last_writer(batch.drop_last(), id)
    }
}

/// The longer run begins with the shorter.
pub open spec fn extends<T>(longer: Seq<T>, shorter: Seq<T>) -> bool {
    shorter.len() <= longer.len() && forall|k: int|
        0 <= k < shorter.len() ==> #[trigger] longer[k] == shorter[k]
}

/// The store has a place for the record and knows its category.
pub open spec fn has_room_for(store: LedgerView, r: RecordView) -> bool {
    &&& position_of(store.records, r.id) is Some
    &&& r.transaction.category matches Some(name) ==> first_same(store.categories, name) is Some
}

/// What a batch leaves: the store has grown at its end only, it has a place
/// for every record of the batch that can be stored, and each of its records
/// holds what the last record of its name in the batch says, or what it held
/// where the batch does not name it.
pub open spec fn written(before: LedgerView, batch: Seq<RecordView>, after: LedgerView) -> bool {
    &&& after.wf()
    &&& extends(after.categories, before.categories)
    &&& extends(ids_of(after.records), ids_of(before.records))
    &&& forall|i: int|
        0 <= i < batch.len() && (#[trigger] batch[i]).transaction.wf() ==> has_room_for(
            after,
            batch[i],
        )
    &&& forall|p: int|
        0 <= p < after.records.len() ==> match last_writer(
            batch,
            (#[trigger] after.records[p]).id,
        ) {
            Some(i) => after.records[p].transaction == kept(
                after.categories,
                batch[i].transaction,
            ),
            None => p < before.records.len() && after.records[p].transaction
                == before.records[p].transaction,
        }
}

/// The last writer is a record of the batch that can be stored and answers
/// to the identifier.
pub proof fn lemma_last_writer(batch: Seq<RecordView>, id: Seq<char>)
    ensures
        last_writer(batch, id) matches Some(i) ==> 0 <= i < batch.len()
            && batch[i].transaction.wf() && same_ignoring_case(batch[i].id, id),
    decreases batch.len(),
{
    if batch.len() > 0 {
        lemma_last_writer(batch.drop_last(), id);
        match last_writer(batch.drop_last(), id) {
            Some(i) => {
                assert(batch.drop_last()[i] == batch[i]);
            },
            None => {},
        }
    }
}

/// A name is found in a longer registry where it is found in the registry
/// that the longer one begins with.
pub proof fn lemma_first_same_extends(
    longer: Seq<Seq<char>>,
    shorter: Seq<Seq<char>>,
    name: Seq<char>,
)
    requires
        extends(longer, shorter),
        first_same(shorter, name) is Some,
    ensures
        first_same(longer, name) == first_same(shorter, name),
{
    lemma_first_same(longer, name);
    lemma_first_same(shorter, name);
    let k = first_same(shorter, name).unwrap();
    assert(longer[k] == shorter[k]);
    match first_same(longer, name) {
        Some(m) => {
            if m < k {
                assert(longer[m] == shorter[m]);
            }
        },
        None => {},
    }
}

/// A transaction whose category the registry knows is kept the same by
/// every registry that begins with that one.
pub proof fn lemma_kept_extends(
    longer: Seq<Seq<char>>,
    shorter: Seq<Seq<char>>,
    t: TransactionView,
)
    requires
        extends(longer, shorter),
        t.category matches Some(name) ==> first_same(shorter, name) is Some,
    ensures
        kept(longer, t) == kept(shorter, t),
{
    match t.category {
        Some(name) => {
            lemma_first_same_extends(longer, shorter, name);
            lemma_first_same(shorter, name);
        },
        None => {},
    }
}

/// A registry that learns a category begins with what it was.
pub proof fn lemma_registered_extends(categories: Seq<Seq<char>>, category: Option<Seq<char>>)
    ensures
        extends(registered(categories, category), categories),
        category matches Some(name) ==> first_same(registered(categories, category), name)
            is Some,
{
    match category {
        Some(name) => {
            lemma_registered(categories, name);
        },
        None => {},
    }
}

/// Writing a batch to a store in good order leaves what `written` says.
pub proof fn lemma_written(store: LedgerView, batch: Seq<RecordView>)
    requires
        store.wf(),
    ensures
        written(store, batch, store.after_upserts(batch)),
    decreases batch.len(),
{
    if batch.len() == 0 {
        assert forall|p: int| 0 <= p < store.records.len() implies last_writer(
            batch,
            (#[trigger] store.records[p]).id,
        ) is None by {}
    } else {
        let front = batch.drop_last();
        let last = batch.last();
        let mid = store.after_upserts(front);
        let after = store.after_upserts(batch);
        lemma_written(store, front);
        lemma_upsert_keeps_wf(mid, last);
        if !(mid.upsert(last) is Ok) {
            // the store refuses the record: it cannot be stored
            assert(after == mid);
            lemma_first_same(ids_of(mid.records), last.id);
            assert(!last.transaction.wf());
            assert forall|i: int|
                0 <= i < batch.len() && (#[trigger] batch[i]).transaction.wf() implies has_room_for(
                after,
                batch[i],
            ) by {
                assert(batch[i] == front[i]);
            }
            assert forall|p: int| 0 <= p < after.records.len() implies match last_writer(
                batch,
                (#[trigger] after.records[p]).id,
            ) {
                Some(i) => after.records[p].transaction == kept(
                    after.categories,
                    batch[i].transaction,
                ),
                None => p < store.records.len() && after.records[p].transaction
                    == store.records[p].transaction,
            } by {
                let id = after.records[p].id;
                assert(last_writer(batch, id) == last_writer(front, id));
                match last_writer(front, id) {
                    Some(i) => {
                        lemma_last_writer(front, id);
                        assert(front[i] == batch[i]);
                    },
                    None => {},
                }
            }
        } else {
            assert(last.transaction.wf());
            lemma_registered_extends(mid.categories, last.transaction.category);
            lemma_first_same(ids_of(mid.records), last.id);
            lemma_first_same(ids_of(after.records), last.id);
            let n = mid.records.len() as int;
            // the place at which the record is written
            let q = match position_of(mid.records, last.id) {
                Some(k) => k,
                None => n,
            };
            assert(after.records[q].id == if q < n {
                mid.records[q].id
            } else {
                last.id
            });
            assert(after.records[q].transaction == kept(after.categories, last.transaction));
            assert forall|k: int| 0 <= k < n implies #[trigger] ids_of(after.records)[k] == ids_of(
                mid.records,
            )[k] by {
                assert(ids_of(mid.records)[k] == mid.records[k].id);
            }
            assert(same_ignoring_case(after.records[q].id, last.id)) by {
                if q < n {
                    assert(ids_of(mid.records)[q] == mid.records[q].id);
                }
            }
            assert forall|k: int| 0 <= k < store.categories.len() implies
                #[trigger] after.categories[k] == store.categories[k] by {
                assert(mid.categories[k] == store.categories[k]);
            }
            assert forall|k: int| 0 <= k < ids_of(store.records).len() implies #[trigger] ids_of(
                after.records,
            )[k] == ids_of(store.records)[k] by {
                assert(ids_of(mid.records)[k] == ids_of(store.records)[k]);
            }
            assert forall|i: int|
                0 <= i < batch.len() && (#[trigger] batch[i]).transaction.wf() implies has_room_for(
                after,
                batch[i],
            ) by {
                if i < front.len() {
                    assert(batch[i] == front[i]);
                    assert(has_room_for(mid, front[i]));
                    lemma_first_same_extends(ids_of(after.records), ids_of(mid.records), front[i].id);
                    match front[i].transaction.category {
                        Some(name) => {
                            lemma_first_same_extends(after.categories, mid.categories, name);
                        },
                        None => {},
                    }
                } else {
                    assert(ids_of(after.records)[q] == after.records[q].id);
                }
            }
            assert forall|p: int| 0 <= p < after.records.len() implies match last_writer(
                batch,
                (#[trigger] after.records[p]).id,
            ) {
                Some(i) => after.records[p].transaction == kept(
                    after.categories,
                    batch[i].transaction,
                ),
                None => p < store.records.len() && after.records[p].transaction
                    == store.records[p].transaction,
            } by {
                let id = after.records[p].id;
                if p == q {
                } else {
                    // another record: no two records of a store in good order
                    // answer to one name
                    assert(ids_of(after.records)[p] == id);
                    assert(ids_of(after.records)[q] == after.records[q].id);
                    assert(!same_ignoring_case(id, after.records[q].id));
                    assert(!same_ignoring_case(last.id, id));
                    assert(last_writer(batch, id) == last_writer(front, id));
                    assert(p < n);
                    assert(after.records[p] == mid.records[p]);
                    match last_writer(front, id) {
                        Some(i) => {
                            lemma_last_writer(front, id);
                            assert(front[i] == batch[i]);
                            assert(has_room_for(mid, front[i]));
                            lemma_kept_extends(
                                after.categories,
                                mid.categories,
                                front[i].transaction,
                            );
                        },
                        None => {},
                    }
                }
            }
        }
    }
}

/// Writing a batch to a store that has a place for every record of it
/// leaves the store with the records and the categories it had, each in its
/// place.
pub proof fn lemma_rewrite_keeps_shape(store: LedgerView, batch: Seq<RecordView>)
    requires
        forall|i: int|
            0 <= i < batch.len() && (#[trigger] batch[i]).transaction.wf() ==> has_room_for(
                store,
                batch[i],
            ),
    ensures
        store.after_upserts(batch).categories == store.categories,
        ids_of(store.after_upserts(batch).records) == ids_of(store.records),
    decreases batch.len(),
{
    if batch.len() > 0 {
        let front = batch.drop_last();
        let last = batch.last();
        assert forall|i: int|
            0 <= i < front.len() && (#[trigger] front[i]).transaction.wf() implies has_room_for(
            store,
            front[i],
        ) by {
            assert(front[i] == batch[i]);
        }
        lemma_rewrite_keeps_shape(store, front);
        let mid = store.after_upserts(front);
        let after = store.after_upserts(batch);
        if mid.upsert(last) is Ok {
            lemma_first_same(ids_of(mid.records), last.id);
            if last.transaction.wf() {
                assert(has_room_for(store, last));
                assert(position_of(mid.records, last.id) == position_of(store.records, last.id));
                assert(ids_of(after.records) =~= ids_of(mid.records));
            }
        }
    }
}

/// Writing a batch a second time changes nothing: the store after the second
/// time is the store after the first.
pub proof fn lemma_upserts_idempotent(store: LedgerView, batch: Seq<RecordView>)
    requires
        store.wf(),
    ensures
        store.after_upserts(batch).after_upserts(batch) == store.after_upserts(batch),
{
    let once = store.after_upserts(batch);
    let twice = once.after_upserts(batch);
    lemma_written(store, batch);
    lemma_rewrite_keeps_shape(once, batch);
    lemma_written(once, batch);
    assert(twice.records.len() == once.records.len()) by {
        assert(ids_of(twice.records).len() == ids_of(once.records).len());
    }
    assert forall|p: int| 0 <= p < once.records.len() implies twice.records[p]
        == once.records[p] by {
        assert(ids_of(twice.records)[p] == twice.records[p].id);
        assert(ids_of(once.records)[p] == once.records[p].id);
        let id = once.records[p].id;
        assert(twice.records[p].id == id);
    }
    assert(twice.records =~= once.records);
}

} // verus!
