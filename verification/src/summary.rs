//! The summary of a period: the balance at its start and at its end, what
//! came in and what went out, and the sum of each category.

use vstd::prelude::*;
use vstd::string::*;
use crate::database::{load_categories_from_db, Ledger};
use crate::date::Date;
use crate::decimal::{signed_cents_string, signed_cents_text, MAX_CENTS};
use crate::list::balance_or_zero;
use crate::order::{lemma_filter_keeps, lemma_filter_push, lemma_sorted_keeps, sorted_by};
use crate::period::Period;
use crate::records::{
    all_wf,
    balance_of,
    by_date,
    sort_records,
    sorted_by_date,
    total,
    views_of,
    Record,
    RecordView,
};
use crate::text::{
    by_text,
    eq_ignoring_case,
    first_same,
    lemma_first_same,
    names_of,
    same_ignoring_case,
    sort_texts,
};
use crate::transaction::TransactionType;

verus! {

/// The command that draws up a summary.
#[derive(Debug, PartialEq, Eq)]
pub struct Summary {
    pub file_path: String,
    pub period: Period,
}

/// The sums that a summary shows.
#[derive(Clone, Copy, Debug, PartialEq, Eq, Structural)]
pub enum Tally {
    /// The deposits.
    Income,
    /// The withdrawals.
    Expenses,
    /// The reconciled records.
    Reconciled,
    /// The records that are not reconciled.
    Unreconciled,
    /// The records of one category.
    Category,
}

/// The record counts for the sum; `name` is the category of the sum of a
/// category.
pub open spec fn counts(tally: Tally, name: Seq<char>, r: RecordView) -> bool {
    match tally {
        Tally::Income => r.transaction.transaction_type == TransactionType::Deposit,
        Tally::Expenses => r.transaction.transaction_type == TransactionType::Withdrawal,
        Tally::Reconciled => r.transaction.is_reconciled,
        Tally::Unreconciled => !r.transaction.is_reconciled,
        Tally::Category => r.transaction.in_category(name),
    }
}

/// The records that count for a sum.
pub open spec fn counted(tally: Tally, name: Seq<char>) -> spec_fn(RecordView) -> bool {
    |r: RecordView| counts(tally, name, r)
}

/// The sum of the signed amounts of the records that count for the sum.
pub open spec fn tally_of(records: Seq<RecordView>, tally: Tally, name: Seq<char>) -> int {
    total(records.filter(counted(tally, name)))
}

/// The records of the period as seen from `today`.
pub open spec fn in_period(period: Period, today: Date) -> spec_fn(RecordView) -> bool {
    |r: RecordView| period.covers(today, r.transaction.date)
}

/// The first line of the summary.
pub open spec fn heading(period: Period) -> Seq<char> {
    match period {
        Period::Week => "WTD Report\r\n\r\n"@,
        Period::Month => "MTD Report \r\n\r\n"@,
        Period::Quarter => "QTD Report \r\n\r\n"@,
        Period::HalfYear => "6 Month Report\r\n\r\n"@,
        Period::Year => "YTD Report\r\n\r\n"@,
        Period::All => "Summary\r\n\r\n"@,
    }
}

/// The names of the categories under which the records are summed up.
pub open spec fn category_names(records: Seq<RecordView>) -> Seq<Seq<char>> {
    records.map_values(|r: RecordView| r.transaction.category_name())
}

/// The record at which the period opens: the first of the category
/// `Opening Balance`, or the first record where none is of that category.
pub open spec fn opening_record(records: Seq<RecordView>) -> Option<RecordView> {
    match first_same(category_names(records), "Opening Balance"@) {
        Some(k) => Some(records[k]),
        None => if records.len() > 0 {
            Some(records[0])
        } else {
            None
        },
    }
}

/// The record at which the period closes: the last one.
pub open spec fn closing_record(records: Seq<RecordView>) -> Option<RecordView> {
    if records.len() > 0 {
        Some(records.last())
    } else {
        None
    }
}

/// The balance of the whole ledger at a record; zero where there is none.
pub open spec fn balance_at_record(all: Seq<RecordView>, r: Option<RecordView>) -> int {
    match r {
        Some(record) => balance_or_zero(all, record.id),
        None => 0,
    }
}

/// A category that has a line of its own in the summary: every one but
/// `Opening Balance`, which is where the period starts from and no flow of
/// the period.
pub open spec fn is_flow() -> spec_fn(Seq<char>) -> bool {
    |name: Seq<char>| !same_ignoring_case(name, "Opening Balance"@)
}

/// The categories of the summary, in the order of the dictionary.
pub open spec fn report_categories(categories: Seq<Seq<char>>) -> Seq<Seq<char>> {
    sorted_by(categories.filter(is_flow()), by_text())
}

/// The lines of the categories: for each its name and the sum of its
/// records.
pub open spec fn category_lines(names: Seq<Seq<char>>, records: Seq<RecordView>) -> Seq<char>
    decreases names.len(),
{
    if names.len() == 0 {
        Seq::empty()
    } else {
        category_lines(names.drop_last(), records) + names.last() + "\t"@ + signed_cents_text(
            tally_of(records, Tally::Category, names.last()),
        ) + "\r\n"@
    }
}

/// The summary of the records of a period. `all` is the whole ledger, from
/// which the balances are taken; `records` are the records of the period,
/// read by date.
pub open spec fn report(
    all: Seq<RecordView>,
    records: Seq<RecordView>,
    categories: Seq<Seq<char>>,
    period: Period,
) -> Seq<char> {
    heading(period) + "Opening Balance\t"@ + signed_cents_text(
        balance_at_record(all, opening_record(records)),
    ) + "\r\n\r\n"@ + category_lines(report_categories(categories), records) + "\r\nBalance\t"@
        + signed_cents_text(balance_at_record(all, closing_record(records))) + "\r\n\r\n"@
        + "Total Income\t"@ + signed_cents_text(tally_of(records, Tally::Income, Seq::empty()))
        + "\r\n"@ + "Total Expenditures\t"@ + signed_cents_text(
        -tally_of(records, Tally::Expenses, Seq::empty()),
    ) + "\r\n\r\n"@ + "Reconciled\t"@ + signed_cents_text(
        tally_of(records, Tally::Reconciled, Seq::empty()),
    ) + "\r\n"@ + "Unreconciled\t"@ + signed_cents_text(
        tally_of(records, Tally::Unreconciled, Seq::empty()),
    )
}

/// Whether a record counts for a sum.
pub fn is_counted(record: &Record, tally: Tally, name: &str) -> (r: bool)
    ensures
        r == counts(tally, name@, record@),
{
    match tally {
        Tally::Income => record.transaction.transaction_type == TransactionType::Deposit,
        Tally::Expenses => record.transaction.transaction_type == TransactionType::Withdrawal,
        Tally::Reconciled => record.transaction.is_reconciled,
        Tally::Unreconciled => !record.transaction.is_reconciled,
        Tally::Category => record.transaction.is_in_category(name),
    }
}

/// The sum of the signed amounts of the records that count for a sum.
pub fn sum_of(records: &Vec<Record>, tally: Tally, name: &str) -> (sum: i128)
    requires
        all_wf(views_of(records@)),
    ensures
        sum == tally_of(views_of(records@), tally, name@),
        -(records.len() * MAX_CENTS) <= sum <= records.len() * MAX_CENTS,
{
    let ghost p = counted(tally, name@);
    let mut sum: i128 = 0;
    let mut i: usize = 0;
    proof {
        assert(views_of(records@).take(0) =~= Seq::<RecordView>::empty());
        reveal(Seq::filter);
    }
    while i < records.len()
        invariant
            i <= records.len(),
            all_wf(views_of(records@)),
            p == counted(tally, name@),
            sum == total(views_of(records@).take(i as int).filter(p)),
            -(i * MAX_CENTS) <= sum <= i * MAX_CENTS,
        decreases records.len() - i,
    {
        proof {
            let before = views_of(records@).take(i as int);
            assert(views_of(records@).take(i + 1) =~= before.push(records@[i as int]@));
            lemma_filter_push(before, records@[i as int]@, p);
            assert(before.filter(p).push(records@[i as int]@).drop_last() =~= before.filter(p));
            assert(views_of(records@)[i as int].transaction.wf());
        }
        if is_counted(&records[i], tally, name) {
            sum = sum + records[i].transaction.signed_amount() as i128;
        }
        i += 1;
    }
    assert(views_of(records@).take(records.len() as int) =~= views_of(records@));
    sum
}

/// The records of the period as seen from `today`, in the order in which
/// they are given.
pub fn records_in_period(records: &Vec<Record>, period: Period, today: Date) -> (window: Vec<
    Record,
>)
    ensures
        views_of(window@) == views_of(records@).filter(in_period(period, today)),
{
    let ghost p = in_period(period, today);
    let mut window: Vec<Record> = Vec::new();
    let mut i: usize = 0;
    proof {
        assert(views_of(records@).take(0) =~= Seq::<RecordView>::empty());
        assert(views_of(window@) =~= Seq::<RecordView>::empty());
        reveal(Seq::filter);
    }
    while i < records.len()
        invariant
            i <= records.len(),
            p == in_period(period, today),
            views_of(window@) == views_of(records@).take(i as int).filter(p),
        decreases records.len() - i,
    {
        proof {
            let before = views_of(records@).take(i as int);
            assert(views_of(records@).take(i + 1) =~= before.push(records@[i as int]@));
            lemma_filter_push(before, records@[i as int]@, p);
        }
        if period.includes(today, records[i].transaction.date) {
            let ghost before = views_of(window@);
            let record = records[i].clone();
            let ghost added = record@;
            window.push(record);
            assert(views_of(window@) =~= before.push(added));
        }
        i += 1;
    }
    assert(views_of(records@).take(records.len() as int) =~= views_of(records@));
    window
}

/// The place of the record at which the period opens.
fn opening_place(records: &Vec<Record>) -> (r: Option<usize>)
    ensures
        match r {
            Some(k) => k < records.len() && opening_record(views_of(records@)) == Some(
                records@[k as int]@,
            ),
            None => opening_record(views_of(records@)) is None,
        },
{
    let ghost names = category_names(views_of(records@));
    let mut i: usize = 0;
    while i < records.len()
        invariant
            i <= records.len(),
            names == category_names(views_of(records@)),
            forall|j: int|
                0 <= j < i ==> !same_ignoring_case(#[trigger] names[j], "Opening Balance"@),
        decreases records.len() - i,
    {
        assert(names[i as int] == records@[i as int]@.transaction.category_name());
        if records[i].transaction.is_in_category("Opening Balance") {
            proof {
                lemma_first_same(names, "Opening Balance"@);
            }
            return Some(i);
        }
        i += 1;
    }
    proof {
        lemma_first_same(names, "Opening Balance"@);
    }
    if records.len() > 0 {
        Some(0)
    } else {
        None
    }
}

/// The names of the categories that have a line of their own.
fn flows(categories: &Vec<String>) -> (names: Vec<String>)
    ensures
        names_of(names@) == names_of(categories@).filter(is_flow()),
{
    let mut names: Vec<String> = Vec::new();
    let mut i: usize = 0;
    proof {
        assert(names_of(categories@).take(0) =~= Seq::<Seq<char>>::empty());
        assert(names_of(names@) =~= Seq::<Seq<char>>::empty());
        reveal(Seq::filter);
    }
    while i < categories.len()
        invariant
            i <= categories.len(),
            names_of(names@) == names_of(categories@).take(i as int).filter(is_flow()),
        decreases categories.len() - i,
    {
        proof {
            let before = names_of(categories@).take(i as int);
            assert(names_of(categories@).take(i + 1) =~= before.push(categories@[i as int]@));
            lemma_filter_push(before, categories@[i as int]@, is_flow());
        }
        if !eq_ignoring_case(categories[i].as_str(), "Opening Balance") {
            let ghost before = names_of(names@);
            names.push(categories[i].clone());
            assert(names_of(names@) =~= before.push(categories@[i as int]@));
        }
        i += 1;
    }
    assert(names_of(categories@).take(categories.len() as int) =~= names_of(categories@));
    names
}

fn balance_at_opt(store: &Ledger, records: &Vec<Record>, place: Option<usize>) -> (b: i128)
    requires
        store@.wf(),
        place matches Some(k) ==> k < records.len(),
    ensures
        b == balance_at_record(
            store@.records,
            match place {
                Some(k) => Some(records@[k as int]@),
                None => None,
            },
        ),
        b > i128::MIN,
{
    match place {
        Some(k) => {
            match balance_of(store.records(), records[k].id.as_str()) {
                Some(b) => b,
                None => 0,
            }
        },
        None => 0,
    }
}

impl Summary {
    /// The summary of the records of a period. The opening and the closing
    /// balance are those of the whole ledger at the first and at the last
    /// record of the period.
    pub fn create_string(
        records: &Vec<Record>,
        categories: &Vec<String>,
        period: &Period,
        store: &Ledger,
    ) -> (text: String)
        requires
            store@.wf(),
            all_wf(views_of(records@)),
        ensures
            text@ == report(store@.records, views_of(records@), names_of(categories@), *period),
    {
        let ghost all = store@.records;
        let ghost window = views_of(records@);
        let mut text = match period {
            Period::Week => String::from_str("WTD Report\r\n\r\n"),
            Period::Month => String::from_str("MTD Report \r\n\r\n"),
            Period::Quarter => String::from_str("QTD Report \r\n\r\n"),
            Period::HalfYear => String::from_str("6 Month Report\r\n\r\n"),
            Period::Year => String::from_str("YTD Report\r\n\r\n"),
            Period::All => String::from_str("Summary\r\n\r\n"),
        };
        let opening = balance_at_opt(store, records, opening_place(records));
        let last = if records.len() > 0 {
            Some(records.len() - 1)
        } else {
            None
        };
        let closing = balance_at_opt(store, records, last);
        text.append("Opening Balance\t");
        text.append(signed_cents_string(opening).as_str());
        text.append("\r\n\r\n");
        let ghost head = text@;

        let names = sort_texts(&flows(categories));
        let mut i: usize = 0;
        assert(names_of(names@).take(0) =~= Seq::<Seq<char>>::empty());
        assert(text@ =~= head + category_lines(names_of(names@).take(0), window));
        while i < names.len()
            invariant
                i <= names.len(),
                all_wf(views_of(records@)),
                window == views_of(records@),
                text@ == head + category_lines(names_of(names@).take(i as int), window),
            decreases names.len() - i,
        {
            let ghost before = text@;
            proof {
                let upto = names_of(names@).take(i + 1);
                assert(upto.drop_last() =~= names_of(names@).take(i as int));
                assert(upto.last() == names@[i as int]@);
            }
            let sum = sum_of(records, Tally::Category, names[i].as_str());
            text.append(names[i].as_str());
            text.append("\t");
            text.append(signed_cents_string(sum).as_str());
            text.append("\r\n");
            assert(text@ =~= head + category_lines(names_of(names@).take(i + 1), window));
            i += 1;
        }
        assert(names_of(names@).take(names.len() as int) =~= names_of(names@));
        let ghost body = text@;

        let income = sum_of(records, Tally::Income, "");
        let expenses = sum_of(records, Tally::Expenses, "");
        let reconciled = sum_of(records, Tally::Reconciled, "");
        let unreconciled = sum_of(records, Tally::Unreconciled, "");
        proof {
            reveal_strlit("");
            assert(""@ =~= Seq::<char>::empty());
        }
        text.append("\r\nBalance\t");
        text.append(signed_cents_string(closing).as_str());
        text.append("\r\n\r\n");
        text.append("Total Income\t");
        text.append(signed_cents_string(income).as_str());
        text.append("\r\n");
        text.append("Total Expenditures\t");
        text.append(signed_cents_string(-expenses).as_str());
        text.append("\r\n\r\n");
        text.append("Reconciled\t");
        text.append(signed_cents_string(reconciled).as_str());
        text.append("\r\n");
        text.append("Unreconciled\t");
        text.append(signed_cents_string(unreconciled).as_str());
        assert(text@ =~= report(all, window, names_of(categories@), *period));
        text
    }

    /// What the command prints: the summary of the records of its period as
    /// seen from `today`, with the categories that the store knows.
    pub fn run(&self, store: &Ledger, today: Date) -> (text: String)
        requires
            store@.wf(),
        ensures
            text@ == report(
                store@.records,
                sorted_by_date(store@.records).filter(in_period(self.period, today)),
                store@.categories,
                self.period,
            ),
    {
        let sorted = sort_records(store.records());
        let window = records_in_period(&sorted, self.period, today);
        let categories = load_categories_from_db(store);
        proof {
            let p = in_period(self.period, today);
            lemma_sorted_keeps(store@.records, by_date(), |r: RecordView| r.transaction.wf());
            lemma_filter_keeps(views_of(sorted@), p, |r: RecordView| r.transaction.wf());
        }
        Summary::create_string(&window, &categories, &self.period, store)
    }
}

} // verus!
