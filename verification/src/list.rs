//! Listing the ledger: the records that pass the filters, read by date, each
//! with the balance at it.

use vstd::prelude::*;
use vstd::string::*;
use crate::database::Ledger;
use crate::decimal::{signed_cents_string, signed_cents_text, MAX_CENTS};
use crate::export::{record_line, tsv_line};
use crate::order::{lemma_filter_push, lemma_sorted_keeps};
use crate::records::{
    all_wf,
    balance_at,
    by_date,
    ids_of,
    lemma_balance_at_place,
    sort_records,
    sorted_by_date,
    total,
    views_of,
    Record,
    RecordView,
};
use crate::text::{contains, distinct_names, lowercase_of, occurs_in, to_lowercase};
use crate::transaction::{text_view, TransactionType, TransactionView};

verus! {

/// The command that lists the ledger.
#[derive(Debug, PartialEq, Eq)]
pub struct List {
    pub file_path: String,
    pub category: Option<String>,
    pub vendor: Option<String>,
    pub memo: Option<String>,
    pub reconciled: bool,
    pub not_reconciled: bool,
    pub transaction_type: Option<TransactionType>,
}

/// The text holds the word, whatever the case of the letters of either.
pub open spec fn mentions(text: Seq<char>, word: Seq<char>) -> bool {
    occurs_in(lowercase_of(text), lowercase_of(word))
}

/// A transaction passes the filters: it is of the category, its vendor and
/// its memo hold the words asked for, it is reconciled or not as asked, and
/// it is of the type asked for. A filter that is not set lets everything
/// pass; where both flags are set, the one for reconciled records counts.
pub open spec fn is_listed(
    t: TransactionView,
    category: Option<Seq<char>>,
    vendor: Option<Seq<char>>,
    memo: Option<Seq<char>>,
    reconciled: bool,
    unreconciled: bool,
    transaction_type: Option<TransactionType>,
) -> bool {
    &&& category matches Some(name) ==> t.in_category(name)
    &&& vendor matches Some(word) ==> mentions(t.vendor, word)
    &&& memo matches Some(word) ==> mentions(t.memo, word)
    &&& reconciled ==> t.is_reconciled
    &&& !reconciled && unreconciled ==> !t.is_reconciled
    &&& transaction_type matches Some(kind) ==> t.transaction_type == kind
}

/// The records that pass the filters.
pub open spec fn listed(
    category: Option<Seq<char>>,
    vendor: Option<Seq<char>>,
    memo: Option<Seq<char>>,
    reconciled: bool,
    unreconciled: bool,
    transaction_type: Option<TransactionType>,
) -> spec_fn(RecordView) -> bool {
    |r: RecordView|
        is_listed(r.transaction, category, vendor, memo, reconciled, unreconciled, transaction_type)
}

/// Whether the text holds the word, whatever the case of the letters.
pub fn has_word(text: &str, word: &str) -> (r: bool)
    ensures
        r == mentions(text@, word@),
{
    let low_text = to_lowercase(text);
    let low_word = to_lowercase(word);
    contains(low_text.as_str(), low_word.as_str())
}

/// Whether a record passes the filters.
pub fn passes(
    record: &Record,
    category: &Option<String>,
    vendor: &Option<String>,
    memo: &Option<String>,
    reconciled: bool,
    unreconciled: bool,
    transaction_type: Option<TransactionType>,
) -> (r: bool)
    ensures
        r == listed(
            text_view(*category),
            text_view(*vendor),
            text_view(*memo),
            reconciled,
            unreconciled,
            transaction_type,
        )(record@),
{
    let t = &record.transaction;
    let in_category = match category {
        Some(name) => t.is_in_category(name.as_str()),
        None => true,
    };
    let by_vendor = match vendor {
        Some(word) => has_word(t.vendor.as_str(), word.as_str()),
        None => true,
    };
    let by_memo = match memo {
        Some(word) => has_word(t.memo.as_str(), word.as_str()),
        None => true,
    };
    let by_flag = if reconciled {
        t.is_reconciled
    } else if unreconciled {
        !t.is_reconciled
    } else {
        true
    };
    let by_type = match transaction_type {
        Some(kind) => t.transaction_type == kind,
        None => true,
    };
    in_category && by_vendor && by_memo && by_flag && by_type
}

/// The records that pass the filters, in the order in which they are given.
pub fn retrieve_records(
    r: &Vec<Record>,
    category: &Option<String>,
    vendor: &Option<String>,
    memo: &Option<String>,
    reconciled: bool,
    unreconciled: bool,
    transaction_type: Option<TransactionType>,
) -> (filtered: Vec<Record>)
    ensures
        views_of(filtered@) == views_of(r@).filter(
            listed(
                text_view(*category),
                text_view(*vendor),
                text_view(*memo),
                reconciled,
                unreconciled,
                transaction_type,
            ),
        ),
{
    let ghost shown = listed(
        text_view(*category),
        text_view(*vendor),
        text_view(*memo),
        reconciled,
        unreconciled,
        transaction_type,
    );
    let mut filtered: Vec<Record> = Vec::new();
    let mut i: usize = 0;
    proof {
        assert(views_of(r@).take(0) =~= Seq::<RecordView>::empty());
        assert(views_of(filtered@) =~= Seq::<RecordView>::empty());
        reveal(Seq::filter);
    }
    while i < r.len()
        invariant
            i <= r.len(),
            shown == listed(
                text_view(*category),
                text_view(*vendor),
                text_view(*memo),
                reconciled,
                unreconciled,
                transaction_type,
            ),
            views_of(filtered@) == views_of(r@).take(i as int).filter(shown),
        decreases r.len() - i,
    {
        proof {
            assert(views_of(r@).take(i + 1) =~= views_of(r@).take(i as int).push(r@[i as int]@));
            lemma_filter_push(views_of(r@).take(i as int), r@[i as int]@, shown);
        }
        if passes(&r[i], category, vendor, memo, reconciled, unreconciled, transaction_type) {
            let ghost before = views_of(filtered@);
            let record = r[i].clone();
            let ghost added = record@;
            filtered.push(record);
            assert(views_of(filtered@) =~= before.push(added));
        }
        i += 1;
    }
    assert(views_of(r@).take(r.len() as int) =~= views_of(r@));
    filtered
}

/// The balance at a record of the ledger; zero for a record that the ledger
/// does not hold.
pub open spec fn balance_or_zero(all: Seq<RecordView>, id: Seq<char>) -> int {
    match balance_at(all, id) {
        Some(b) => b,
        None => 0,
    }
}

/// The line of a record in a listing: its nine columns and the balance at
/// it, with tabs between them.
pub open spec fn list_line(r: RecordView, balance: int) -> Seq<char> {
    tsv_line(r).push('\t') + signed_cents_text(balance)
}

/// The listing of the first `count` records of the ledger read by date: a
/// line for each of them that is to be shown, every line ended by a line
/// feed.
pub open spec fn listing(all: Seq<RecordView>, count: int, shown: spec_fn(RecordView) -> bool) -> Seq<
    char,
>
    decreases count,
{
    if count <= 0 {
        Seq::empty()
    } else {
        let r = sorted_by_date(all)[count - 1];
        let before = listing(all, count - 1, shown);
        if shown(r) {
            before + list_line(r, balance_or_zero(all, r.id)) + "\n"@
        } else {
            before
        }
    }
}

/// The listing of the ledger: the records that pass the filters, read by
/// date, each with the balance at it.
pub fn display(
    store: &Ledger,
    category: &Option<String>,
    vendor: &Option<String>,
    memo: &Option<String>,
    reconciled: bool,
    unreconciled: bool,
    transaction_type: Option<TransactionType>,
) -> (text: String)
    requires
        store@.wf(),
    ensures
        text@ == listing(
            store@.records,
            store@.records.len() as int,
            listed(
                text_view(*category),
                text_view(*vendor),
                text_view(*memo),
                reconciled,
                unreconciled,
                transaction_type,
            ),
        ),
{
    let ghost shown = listed(
        text_view(*category),
        text_view(*vendor),
        text_view(*memo),
        reconciled,
        unreconciled,
        transaction_type,
    );
    let ghost all = store@.records;
    let sorted = sort_records(store.records());
    let mut text = String::new();
    let mut balance: i128 = 0;
    let mut k: usize = 0;
    proof {
        lemma_sorted_keeps(all, by_date(), |r: RecordView| r.transaction.wf());
        assert(views_of(sorted@).take(0) =~= Seq::<RecordView>::empty());
    }
    while k < sorted.len()
        invariant
            k <= sorted.len(),
            sorted.len() == all.len(),
            views_of(sorted@) == sorted_by_date(all),
            all_wf(views_of(sorted@)),
            distinct_names(ids_of(all)),
            shown == listed(
                text_view(*category),
                text_view(*vendor),
                text_view(*memo),
                reconciled,
                unreconciled,
                transaction_type,
            ),
            balance == total(views_of(sorted@).take(k as int)),
            -(k * MAX_CENTS) <= balance <= k * MAX_CENTS,
            text@ == listing(all, k as int, shown),
        decreases sorted.len() - k,
    {
        proof {
            let upto = views_of(sorted@).take(k + 1);
            assert(upto.drop_last() =~= views_of(sorted@).take(k as int));
            assert(upto.last() == sorted@[k as int]@);
            assert(views_of(sorted@)[k as int].transaction.wf());
            lemma_balance_at_place(all, k as int);
            reveal_strlit("\t");
        }
        balance = balance + sorted[k].transaction.signed_amount() as i128;
        if passes(&sorted[k], category, vendor, memo, reconciled, unreconciled, transaction_type) {
            let ghost before = text@;
            let line = record_line(&sorted[k]);
            let amount = signed_cents_string(balance);
            text.append(line.as_str());
            text.append("\t");
            text.append(amount.as_str());
            text.append("\n");
            assert(text@ =~= before + list_line(sorted@[k as int]@, balance as int) + "\n"@);
        }
        k += 1;
    }
    text
}

impl List {
    /// What the command prints. The two flags for reconciled and for
    /// unreconciled records exclude each other: with both set, the command
    /// says so and lists nothing.
    pub open spec fn output(self, all: Seq<RecordView>) -> Seq<char> {
        if self.reconciled && self.not_reconciled {
            "Please use only one flag!\r\nNo transactions can be both reconciled and unreconciled.\r\n"@
        } else {
            listing(
                all,
                all.len() as int,
                listed(
                    text_view(self.category),
                    text_view(self.vendor),
                    text_view(self.memo),
                    self.reconciled,
                    self.not_reconciled,
                    self.transaction_type,
                ),
            )
        }
    }

    /// Runs the command: the text of the listing.
    pub fn run(&self, store: &Ledger) -> (text: String)
        requires
            store@.wf(),
        ensures
            text@ == self.output(store@.records),
    {
        if self.reconciled && self.not_reconciled {
            String::from_str(
                "Please use only one flag!\r\nNo transactions can be both reconciled and unreconciled.\r\n",
            )
        } else {
            display(
                store,
                &self.category,
                &self.vendor,
                &self.memo,
                self.reconciled,
                self.not_reconciled,
                self.transaction_type,
            )
        }
    }
}

} // verus!
