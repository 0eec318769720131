//! Records, the order in which a ledger is read, and the running balance.
//!
//! A ledger is read by date, the earliest day first; records of one day keep
//! the order in which they were stored. The balance of a record is the sum of
//! the signed amounts from the first record of that order down to it.

use vstd::prelude::*;
use vstd::string::*;
use crate::date::Date;
use crate::decimal::MAX_CENTS;
use crate::order::{
    lemma_insert_is_insert,
    lemma_insert_place,
    lemma_sorted_in_order,
    lemma_sorted_is_permutation,
    lemma_sorted_is_stable,
    lemma_sorted_keeps,
    lemma_sorted_len,
    orders,
    sorted_by,
};
use crate::text::{
    distinct_names,
    eq_ignoring_case,
    first_same,
    lemma_first_same,
    same_ignoring_case,
};
use crate::transaction::{Transaction, TransactionType, TransactionView};

verus! {

/// A transaction under the identifier by which its store knows it.
#[derive(Debug, PartialEq, Eq)]
pub struct Record {
    pub id: String,
    pub transaction: Transaction,
}

/// What a record holds, with each text as a sequence of characters.
pub struct RecordView {
    pub id: Seq<char>,
    pub transaction: TransactionView,
}

impl View for Record {
    type V = RecordView;

    open spec fn view(&self) -> RecordView {
        RecordView { id: self.id@, transaction: self.transaction@ }
    }
}

impl Clone for Record {
    fn clone(&self) -> (r: Self)
        ensures
            r@ == self@,
    {
        Record { id: self.id.clone(), transaction: self.transaction.clone() }
    }
}

/// Calls `bcheck::Record::new` and hands back the identifier that it drew
/// for the new record: a random identifier in the hyphenated notation, which
/// is thirty-six characters long. Of the identifier itself nothing is
/// claimed but that length.
#[verifier::external_body]
pub(crate) fn generate_id() -> (id: String)
    ensures
        id@.len() == 36,
{
    bcheck::Record::new().id
}

impl Record {
    /// A record under the identifier `id`; under `fresh` where `id` is empty.
    pub fn with_id(id: &str, fresh: String, transaction: Transaction) -> (r: Record)
        ensures
            r@.id == if id@.len() == 0 {
                fresh@
            } else {
                id@
            },
            r@.transaction == transaction@,
    {
        if id.is_empty() {
            Record { id: fresh, transaction }
        } else {
            Record { id: String::from_str(id), transaction }
        }
    }

    /// A record under the identifier `id`. Where `id` is empty, an identifier
    /// of thirty-six characters is drawn for it.
    pub fn from(id: &str, transaction: Transaction) -> (r: Record)
        ensures
            id@.len() > 0 ==> r@.id == id@,
            id@.len() == 0 ==> r@.id.len() == 36,
            r@.transaction == transaction@,
    {
        Record::with_id(id, generate_id(), transaction)
    }
}

/// The views of a run of records, in the same order.
pub open spec fn views_of(records: Seq<Record>) -> Seq<RecordView> {
    records.map_values(|r: Record| r@)
}

/// Every amount is one that the ledger can add up.
pub open spec fn all_wf(records: Seq<RecordView>) -> bool {
    forall|i: int| 0 <= i < records.len() ==> (#[trigger] records[i]).transaction.wf()
}

/// The order by date: a record is before another if it is of an earlier day.
pub open spec fn by_date() -> spec_fn(RecordView, RecordView) -> bool {
    |a: RecordView, b: RecordView| a.transaction.date.before(b.transaction.date)
}

/// The records by date, the earliest first; records of one day stay in the
/// order in which they stand in `records`.
pub open spec fn sorted_by_date(records: Seq<RecordView>) -> Seq<RecordView> {
    sorted_by(records, by_date())
}

/// No record stands before one of an earlier day.
pub open spec fn in_date_order(records: Seq<RecordView>) -> bool {
    forall|i: int, j: int|
        0 <= i <= j < records.len() ==> (#[trigger] records[i]).transaction.date.not_after(
            (#[trigger] records[j]).transaction.date,
        )
}

/// The sum of the signed amounts of a run of records.
pub open spec fn total(records: Seq<RecordView>) -> int
    decreases records.len(),
{
    if records.len() == 0 {
        0
    } else {
        total(records.drop_last()) + records.last().transaction.signed_amount()
    }
}

/// The identifiers of a run of records, in the same order.
pub open spec fn ids_of(records: Seq<RecordView>) -> Seq<Seq<char>> {
    records.map_values(|r: RecordView| r.id)
}

/// The place of the first record that answers to `id`, whatever the case of
/// its letters.
pub open spec fn position_of(records: Seq<RecordView>, id: Seq<char>) -> Option<int> {
    first_same(ids_of(records), id)
}

/// The balance as of a record and including it: the sum of the signed amounts
/// of the ledger read by date, from its first record down to the one that
/// answers to `id`. `None` where no record does.
pub open spec fn balance_at(records: Seq<RecordView>, id: Seq<char>) -> Option<int> {
    let sorted = sorted_by_date(records);
    match position_of(sorted, id) {
        Some(k) => Some(total(sorted.take(k + 1))),
        None => None,
    }
}

/// The order by date orders.
pub proof fn lemma_by_date_orders()
    ensures
        orders(by_date()),
{
}

/// Reading by date neither adds nor drops a record.
pub proof fn lemma_sorted_by_date_len(records: Seq<RecordView>)
    ensures
        sorted_by_date(records).len() == records.len(),
{
    lemma_sorted_len(records, by_date());
}

/// The ledger read by date is in date order.
pub proof fn lemma_sorted_in_date_order(records: Seq<RecordView>)
    ensures
        in_date_order(sorted_by_date(records)),
{
    lemma_by_date_orders();
    lemma_sorted_in_order(records, by_date());
    let sorted = sorted_by_date(records);
    assert forall|i: int, j: int| 0 <= i <= j < sorted.len() implies (
    #[trigger] sorted[i]).transaction.date.not_after((#[trigger] sorted[j]).transaction.date) by {
        assert(!by_date()(sorted[j], sorted[i]));
    }
}

/// Records of one day are read in the order in which the ledger holds them:
/// picking out the records of any one day gives the same run before and
/// after the ledger is put in date order.
pub proof fn lemma_sorted_by_date_is_stable(records: Seq<RecordView>, day: Date)
    ensures
        sorted_by_date(records).filter(|r: RecordView| r.transaction.date == day)
            == records.filter(|r: RecordView| r.transaction.date == day),
{
    lemma_sorted_is_stable(records, by_date(), |r: RecordView| r.transaction.date == day);
}

/// The sum of a run is bounded by the number of its records.
pub proof fn lemma_total_bounds(records: Seq<RecordView>)
    requires
        all_wf(records),
    ensures
        -(records.len() * MAX_CENTS) <= total(records) <= records.len() * MAX_CENTS,
    decreases records.len(),
{
    if records.len() > 0 {
        let front = records.drop_last();
        assert forall|i: int| 0 <= i < front.len() implies (#[trigger] front[i]).transaction.wf() by {
            assert(front[i] == records[i]);
        }
        lemma_total_bounds(front);
        assert(records[records.len() - 1].transaction.wf());
    }
}

/// In a ledger of deposits the balance never falls from one record to the
/// next: read by date, the balance at a record is at most the balance at any
/// record behind it.
pub proof fn lemma_balance_of_deposits_grows(records: Seq<RecordView>, i: int, j: int)
    requires
        forall|k: int|
            0 <= k < records.len() ==> (#[trigger] records[k]).transaction.transaction_type
                == TransactionType::Deposit,
        0 <= i <= j < records.len(),
    ensures
        sorted_by_date(records).len() == records.len(),
        total(sorted_by_date(records).take(i + 1)) <= total(sorted_by_date(records).take(j + 1)),
{
    let deposit = |r: RecordView| r.transaction.transaction_type == TransactionType::Deposit;
    lemma_sorted_keeps(records, by_date(), deposit);
    lemma_sorted_len(records, by_date());
    lemma_prefix_total_grows(sorted_by_date(records), i + 1, j + 1);
}

/// Of a run of deposits, a longer run of leading records sums to no less.
pub proof fn lemma_prefix_total_grows(records: Seq<RecordView>, a: int, b: int)
    requires
        forall|k: int|
            0 <= k < records.len() ==> (#[trigger] records[k]).transaction.transaction_type
                == TransactionType::Deposit,
        0 <= a <= b <= records.len(),
    ensures
        total(records.take(a)) <= total(records.take(b)),
    decreases b - a,
{
    if a < b {
        lemma_prefix_total_grows(records, a, b - 1);
        assert(records.take(b).drop_last() =~= records.take(b - 1));
        assert(records.take(b).last() == records[b - 1]);
    }
}

/// The place of the first record that answers to `id`.
pub fn find_record(records: &Vec<Record>, id: &str) -> (r: Option<usize>)
    ensures
        match r {
            Some(k) => position_of(views_of(records@), id@) == Some(k as int) && k < records.len(),
            None => position_of(views_of(records@), id@) is None,
        },
{
    let ghost ids = ids_of(views_of(records@));
    let mut i: usize = 0;
    while i < records.len()
        invariant
            i <= records.len(),
            ids == ids_of(views_of(records@)),
            forall|j: int| 0 <= j < i ==> !same_ignoring_case(#[trigger] ids[j], id@),
        decreases records.len() - i,
    {
        assert(ids[i as int] == records@[i as int].id@);
        if eq_ignoring_case(records[i].id.as_str(), id) {
            proof {
                lemma_first_same(ids, id@);
            }
            return Some(i);
        }
        i += 1;
    }
    proof {
        lemma_first_same(ids, id@);
    }
    None
}

/// The records in date order.
pub fn sort_records(records: &Vec<Record>) -> (sorted: Vec<Record>)
    ensures
        views_of(sorted@) == sorted_by_date(views_of(records@)),
        sorted.len() == records.len(),
{
    let mut sorted: Vec<Record> = Vec::new();
    let mut i: usize = 0;
    assert(views_of(records@).take(0) =~= Seq::<RecordView>::empty());
    assert(views_of(sorted@) =~= Seq::<RecordView>::empty());
    while i < records.len()
        invariant
            i <= records.len(),
            sorted.len() == i,
            views_of(sorted@) == sorted_by_date(views_of(records@).take(i as int)),
        decreases records.len() - i,
    {
        let record = records[i].clone();
        let mut j: usize = sorted.len();
        while j > 0 && record.transaction.date.is_before(&sorted[j - 1].transaction.date)
            invariant
                j <= sorted.len(),
                forall|k: int|
                    j <= k < sorted.len() ==> record@.transaction.date.before(
                        (#[trigger] views_of(sorted@)[k]).transaction.date,
                    ),
            decreases j,
        {
            j -= 1;
        }
        proof {
            let before = views_of(sorted@);
            if j > 0 {
                assert(before[j - 1].transaction.date == sorted@[j - 1].transaction.date);
            }
            lemma_insert_place(before, record@, by_date(), j as int);
            let upto = views_of(records@).take(i + 1);
            assert(upto.drop_last() =~= views_of(records@).take(i as int));
            assert(upto.last() == record@);
        }
        let ghost before = views_of(sorted@);
        let ghost added = record@;
        sorted.insert(j, record);
        assert(views_of(sorted@) =~= before.insert(j as int, added));
        i += 1;
    }
    assert(views_of(records@).take(records.len() as int) =~= views_of(records@));
    sorted
}

/// The sum of the signed amounts of the first `count` records.
pub fn sum_of_first(records: &Vec<Record>, count: usize) -> (sum: i128)
    requires
        count <= records.len(),
        all_wf(views_of(records@)),
    ensures
        sum == total(views_of(records@).take(count as int)),
        -(count * MAX_CENTS) <= sum <= count * MAX_CENTS,
{
    let mut sum: i128 = 0;
    let mut i: usize = 0;
    assert(views_of(records@).take(0) =~= Seq::<RecordView>::empty());
    while i < count
        invariant
            i <= count <= records.len(),
            all_wf(views_of(records@)),
            sum == total(views_of(records@).take(i as int)),
            -(i * MAX_CENTS) <= sum <= i * MAX_CENTS,
        decreases count - i,
    {
        proof {
            let upto = views_of(records@).take(i + 1);
            assert(upto.drop_last() =~= views_of(records@).take(i as int));
            assert(upto.last() == records@[i as int]@);
            assert(views_of(records@)[i as int].transaction.wf());
        }
        sum = sum + records[i].transaction.signed_amount() as i128;
        i += 1;
    }
    sum
}

/// The records of a ledger, in the order in which they are stored.
pub struct Records {
    records: Vec<Record>,
}

impl View for Records {
    type V = Seq<RecordView>;

    closed spec fn view(&self) -> Seq<RecordView> {
        views_of(self.records@)
    }
}

impl Records {
    /// The records of a ledger, taken in the order given.
    pub fn from(r: Vec<Record>) -> (records: Records)
        ensures
            records@ == views_of(r@),
    {
        Records { records: r }
    }

    /// The number of records.
    pub fn len(&self) -> (n: usize)
        ensures
            n == self@.len(),
    {
        self.records.len()
    }

    /// The records by date, the earliest first; records of one day in the
    /// order in which they are stored.
    pub fn sorted_records(&self) -> (sorted: Vec<Record>)
        ensures
            views_of(sorted@) == sorted_by_date(self@),
            sorted.len() == self@.len(),
            in_date_order(views_of(sorted@)),
            views_of(sorted@).to_multiset() == self@.to_multiset(),
    {
        proof {
            lemma_sorted_in_date_order(self@);
            lemma_sorted_is_permutation(self@, by_date());
        }
        sort_records(&self.records)
    }

    /// The balance as of the record `r` and including it; `None` where the
    /// ledger holds no record under the identifier of `r`.
    pub fn balance_for_record(&self, r: &Record) -> (balance: Option<i128>)
        requires
            all_wf(self@),
        ensures
            match balance {
                Some(b) => balance_at(self@, r@.id) == Some(b as int),
                None => balance_at(self@, r@.id) is None,
            },
    {
        balance_of(&self.records, r.id.as_str())
    }
}

/// The balance as of the record that answers to `id`, and including it.
pub fn balance_of(records: &Vec<Record>, id: &str) -> (balance: Option<i128>)
    requires
        all_wf(views_of(records@)),
    ensures
        match balance {
            Some(b) => balance_at(views_of(records@), id@) == Some(b as int) && -(records.len()
                * MAX_CENTS) <= b <= records.len() * MAX_CENTS,
            None => balance_at(views_of(records@), id@) is None,
        },
{
    let sorted = sort_records(records);
    proof {
        lemma_sorted_keeps(views_of(records@), by_date(), |r: RecordView| r.transaction.wf());
    }
    match find_record(&sorted, id) {
        Some(k) => Some(sum_of_first(&sorted, k + 1)),
        None => None,
    }
}

/// Where no two records of the ledger answer to one identifier, no two
/// records of the ledger read by date do.
pub proof fn lemma_sorted_keeps_distinct(records: Seq<RecordView>)
    requires
        distinct_names(ids_of(records)),
    ensures
        distinct_names(ids_of(sorted_by_date(records))),
    decreases records.len(),
{
    if records.len() > 0 {
        let front = records.drop_last();
        let last = records.last();
        let apart = |r: RecordView| !same_ignoring_case(r.id, last.id);
        assert forall|i: int, j: int| 0 <= i < j < front.len() implies !same_ignoring_case(
            #[trigger] ids_of(front)[i],
            #[trigger] ids_of(front)[j],
        ) by {
            assert(ids_of(front)[i] == ids_of(records)[i]);
            assert(ids_of(front)[j] == ids_of(records)[j]);
        }
        assert forall|i: int| 0 <= i < front.len() implies apart(#[trigger] front[i]) by {
            assert(ids_of(records)[i] == front[i].id);
            assert(ids_of(records)[records.len() - 1] == last.id);
        }
        lemma_sorted_keeps_distinct(front);
        lemma_sorted_keeps(front, by_date(), apart);
        let sorted = sorted_by_date(front);
        let j = lemma_insert_is_insert(sorted, last, by_date());
        let after = ids_of(sorted.insert(j, last));
        assert forall|a: int, b: int| 0 <= a < b < after.len() implies !same_ignoring_case(
            #[trigger] after[a],
            #[trigger] after[b],
        ) by {
            let x = if a < j {
                a
            } else {
                a - 1
            };
            let y = if b < j {
                b
            } else {
                b - 1
            };
            if a == j {
                assert(apart(sorted[y]));
            } else if b == j {
                assert(apart(sorted[x]));
            } else {
                assert(after[a] == ids_of(sorted)[x]);
                assert(after[b] == ids_of(sorted)[y]);
            }
        }
    }
}

/// Where no two records answer to one identifier, the balance at the record
/// in place `k` of the ledger read by date is the sum of the signed amounts
/// of the records up to that place.
pub proof fn lemma_balance_at_place(records: Seq<RecordView>, k: int)
    requires
        distinct_names(ids_of(records)),
        0 <= k < records.len(),
    ensures
        sorted_by_date(records).len() == records.len(),
        position_of(sorted_by_date(records), sorted_by_date(records)[k].id) == Some(k),
        balance_at(records, sorted_by_date(records)[k].id) == Some(
            total(sorted_by_date(records).take(k + 1)),
        ),
{
    let sorted = sorted_by_date(records);
    lemma_sorted_len(records, by_date());
    lemma_sorted_keeps_distinct(records);
    lemma_first_same(ids_of(sorted), sorted[k].id);
    assert(ids_of(sorted)[k] == sorted[k].id);
    let m = position_of(sorted, sorted[k].id).unwrap();
    if m < k {
        assert(same_ignoring_case(ids_of(sorted)[m], ids_of(sorted)[k]));
    }
}

/// In a ledger of deposits the balance at a record is at most the balance at
/// any record that is read behind it.
pub proof fn lemma_balance_at_of_deposits_grows(records: Seq<RecordView>, i: int, j: int)
    requires
        distinct_names(ids_of(records)),
        forall|k: int|
            0 <= k < records.len() ==> (#[trigger] records[k]).transaction.transaction_type
                == TransactionType::Deposit,
        0 <= i <= j < records.len(),
    ensures
        balance_at(records, sorted_by_date(records)[i].id) is Some,
        balance_at(records, sorted_by_date(records)[j].id) is Some,
        balance_at(records, sorted_by_date(records)[i].id).unwrap() <= balance_at(
            records,
            sorted_by_date(records)[j].id,
        ).unwrap(),
{
    lemma_balance_at_place(records, i);
    lemma_balance_at_place(records, j);
    lemma_balance_of_deposits_grows(records, i, j);
}

/// Whether every amount is one that the ledger can add up.
pub fn all_valid(records: &Vec<Record>) -> (r: bool)
    ensures
        r == all_wf(views_of(records@)),
{
    let mut i: usize = 0;
    while i < records.len()
        invariant
            i <= records.len(),
            forall|k: int| 0 <= k < i ==> (#[trigger] views_of(records@)[k]).transaction.wf(),
        decreases records.len() - i,
    {
        if !records[i].transaction.is_valid() {
            assert(!views_of(records@)[i as int].transaction.wf());
            return false;
        }
        i += 1;
    }
    true
}

/// Whether no two records answer to one identifier.
pub fn have_distinct_ids(records: &Vec<Record>) -> (r: bool)
    ensures
        r == distinct_names(ids_of(views_of(records@))),
{
    let ghost ids = ids_of(views_of(records@));
    let mut j: usize = 0;
    while j < records.len()
        invariant
            j <= records.len(),
            ids == ids_of(views_of(records@)),
            forall|a: int, b: int|
                0 <= a < b < j ==> !same_ignoring_case(#[trigger] ids[a], #[trigger] ids[b]),
        decreases records.len() - j,
    {
        let mut i: usize = 0;
        while i < j
            invariant
                i <= j < records.len(),
                ids == ids_of(views_of(records@)),
                forall|a: int| 0 <= a < i ==> !same_ignoring_case(#[trigger] ids[a], ids[j as int]),
            decreases j - i,
        {
            assert(ids[i as int] == records@[i as int].id@);
            assert(ids[j as int] == records@[j as int].id@);
            if eq_ignoring_case(records[i].id.as_str(), records[j].id.as_str()) {
                return false;
            }
            i += 1;
        }
        j += 1;
    }
    true
}

impl Records {
    /// Whether the balance can be worked out: every amount is one that the
    /// ledger can add up.
    pub fn is_valid(&self) -> (r: bool)
        ensures
            r == all_wf(self@),
    {
        all_valid(&self.records)
    }
}

/// A copy of the records, in their order.
pub fn copy_records(records: &Vec<Record>) -> (copy: Vec<Record>)
    ensures
        views_of(copy@) == views_of(records@),
{
    let mut copy: Vec<Record> = Vec::new();
    let mut i: usize = 0;
    while i < records.len()
        invariant
            i <= records.len(),
            copy.len() == i,
            forall|k: int| 0 <= k < i ==> (#[trigger] copy@[k])@ == records@[k]@,
        decreases records.len() - i,
    {
        copy.push(records[i].clone());
        i += 1;
    }
    assert(views_of(copy@) =~= views_of(records@));
    copy
}

} // verus!
