//! Writing the ledger out and reading it in again loses nothing.
//!
//! A ledger that is handed out in its own format and read into an empty
//! store is the ledger again, where every record has an identifier.
//!
//! Tab-separated text gives back every record that it can carry. It cannot
//! carry a tab or a line feed inside a text, a check number of zero, a
//! category without a name, or a deposit of nothing, which it reads back as a
//! withdrawal of nothing.

use vstd::prelude::*;
use vstd::string::*;
use crate::batch::lemma_registered_extends;
use crate::changes::{held, lemma_held_ignores_case};
use crate::database::{kept, registered, LedgerView};
use crate::date::{date_of_text, Date};
use crate::decimal::{
    all_digits,
    cents_of,
    cents_text,
    decimal_text,
    digit_char,
    digit_value,
    digits_value,
    number_of,
};
use crate::errors::ImportError;
use crate::export::{check_text, credit_text, debit_text, flag_text, tsv_fields, tsv_line, tsv_text};
use crate::import::{
    all_made_from,
    check_number_of,
    field,
    fields_draft,
    made_from,
    says_yes,
    text_amount,
    tsv_draft,
    tsv_drafts,
    tsv_rejects,
};
use crate::order::{lemma_sorted_is_permutation, lemma_sorted_keeps, lemma_sorted_len};
use crate::records::{
    by_date,
    ids_of,
    lemma_sorted_keeps_distinct,
    position_of,
    sorted_by_date,
    Record,
    RecordView,
};
use crate::text::{
    chars_of,
    distinct_names,
    first_same,
    join_with,
    lemma_first_same,
    lemma_split_on_len,
    same_ignoring_case,
    split_on,
};
use crate::transaction::TransactionType;

verus! {

/// The text does not hold the character.
pub open spec fn lacks(text: Seq<char>, c: char) -> bool {
    forall|j: int| 0 <= j < text.len() ==> text[j] != c
}

/// The text fits a column: it holds neither a tab nor a line feed.
pub open spec fn fits_column(text: Seq<char>) -> bool {
    lacks(text, '\t') && lacks(text, '\n')
}

/// The date is written as a text that fits a column and is read back as
/// the same date.
pub open spec fn date_reads_back(date: Date) -> bool {
    fits_column(date.text()) && date_of_text(date.text()) == Some(date)
}

/// The record is one that tab-separated text can carry.
pub open spec fn tsv_carries(r: RecordView) -> bool {
    &&& r.transaction.wf()
    &&& fits_column(r.id)
    &&& fits_column(r.transaction.vendor)
    &&& fits_column(r.transaction.memo)
    &&& r.transaction.category matches Some(name) ==> name.len() > 0 && fits_column(name)
    &&& r.transaction.check_number != Some(0u32)
    &&& r.transaction.transaction_type == TransactionType::Deposit ==> r.transaction.amount > 0
}

/// A text that is put behind another and holds no separator lengthens the
/// last piece of it.
pub proof fn lemma_split_append(s: Seq<char>, t: Seq<char>, sep: char)
    requires
        lacks(t, sep),
    ensures
        split_on(s + t, sep) == split_on(s, sep).drop_last().push(split_on(s, sep).last() + t),
    decreases t.len(),
{
    let pieces = split_on(s, sep);
    lemma_split_on_len(s, sep);
    if t.len() == 0 {
        assert(s + t =~= s);
        assert(pieces.last() + t =~= pieces.last());
        assert(pieces.drop_last().push(pieces.last()) =~= pieces);
    } else {
        let front = t.drop_last();
        assert forall|j: int| 0 <= j < front.len() implies front[j] != sep by {
            assert(front[j] == t[j]);
        }
        assert(t[t.len() - 1] != sep);
        lemma_split_append(s, front, sep);
        assert((s + t).drop_last() =~= s + front);
        assert((s + t).last() == t[t.len() - 1]);
        let rest = split_on(s + front, sep);
        assert(rest.drop_last() =~= pieces.drop_last());
        assert((pieces.last() + front).push(t.last()) =~= pieces.last() + t);
    }
}

/// Texts without the separator that are joined by it are cut apart again at
/// it.
pub proof fn lemma_split_join(parts: Seq<Seq<char>>, sep: char)
    requires
        parts.len() >= 1,
        forall|i: int| 0 <= i < parts.len() ==> lacks(#[trigger] parts[i], sep),
    ensures
        split_on(join_with(parts, sep), sep) == parts,
    decreases parts.len(),
{
    let empty = Seq::<char>::empty();
    if parts.len() == 1 {
        lemma_split_append(empty, parts[0], sep);
        assert(empty + parts[0] =~= parts[0]);
        assert(split_on(empty, sep) =~= seq![empty]);
        assert(seq![empty].drop_last().push(empty + parts[0]) =~= parts);
    } else {
        let front = parts.drop_last();
        assert forall|i: int| 0 <= i < front.len() implies lacks(#[trigger] front[i], sep) by {
            assert(front[i] == parts[i]);
        }
        lemma_split_join(front, sep);
        let joined = join_with(front, sep);
        let cut = joined.push(sep);
        assert(cut.drop_last() =~= joined);
        assert(split_on(cut, sep) == front.push(empty));
        assert(parts[parts.len() - 1] == parts.last());
        lemma_split_append(cut, parts.last(), sep);
        assert(front.push(empty).drop_last().push(empty + parts.last()) =~= parts);
    }
}

/// The digit that a digit's character writes is that digit.
pub proof fn lemma_digit_reads_back(d: nat)
    requires
        d < 10,
    ensures
        digit_value(digit_char(d)) == Some(d),
        digit_char(d) != '\t',
        digit_char(d) != '\n',
        digit_char(d) != '.',
{
}

/// A number in decimal notation is read as that number.
pub proof fn lemma_number_reads_back(n: nat)
    ensures
        all_digits(decimal_text(n)),
        decimal_text(n).len() > 0,
        digits_value(decimal_text(n)) == n,
        number_of(decimal_text(n)) == Some(n),
        fits_column(decimal_text(n)),
    decreases n,
{
    let text = decimal_text(n);
    if n < 10 {
        lemma_digit_reads_back(n);
        assert(text.drop_last() =~= Seq::<char>::empty());
        assert(text.last() == digit_char(n));
        assert(digits_value(text.drop_last()) == 0);
    } else {
        lemma_number_reads_back(n / 10);
        lemma_digit_reads_back(n % 10);
        let front = decimal_text(n / 10);
        assert(text.drop_last() =~= front);
        assert(text.last() == digit_char(n % 10));
        assert forall|i: int| 0 <= i < text.len() implies (#[trigger] digit_value(text[i]))
            is Some by {
            if i < front.len() {
                assert(text[i] == front[i]);
            }
        }
        assert forall|j: int| 0 <= j < text.len() implies text[j] != '\t' && text[j] != '\n' by {
            if j < front.len() {
                assert(text[j] == front[j]);
            }
        }
    }
}

/// An amount written with two decimals is read as that amount.
pub proof fn lemma_cents_read_back(cents: nat)
    ensures
        cents_of(cents_text(cents)) == Some(cents),
        fits_column(cents_text(cents)),
{
    let units = decimal_text(cents / 100);
    let text = cents_text(cents);
    let n = text.len() as int;
    lemma_number_reads_back(cents / 100);
    lemma_digit_reads_back(cents % 100 / 10);
    lemma_digit_reads_back(cents % 10);
    assert(n == units.len() + 3);
    assert(text[n - 3] == '.');
    assert(text[n - 2] == digit_char(cents % 100 / 10));
    assert(text[n - 1] == digit_char(cents % 10));
    assert(text.take(n - 3) =~= units);
    assert(digit_value(text[n - 3]) is None);
    assert(!all_digits(text));
    assert forall|j: int| 0 <= j < text.len() implies text[j] != '\t' && text[j] != '\n' by {
        if j < units.len() {
            assert(text[j] == units[j]);
        }
    }
}

/// A record that tab-separated text can carry, with a date that is read
/// back as it is written, comes back from its line as it went in.
pub proof fn lemma_tsv_line_reads_back(r: RecordView)
    requires
        tsv_carries(r),
        date_reads_back(r.transaction.date),
    ensures
        tsv_draft(tsv_line(r)) == Ok::<RecordView, ImportError>(r),
{
    let t = r.transaction;
    let fields = tsv_fields(r);
    reveal_strlit("Y");
    reveal_strlit("N");
    reveal_strlit("y");
    lemma_cents_read_back(t.amount as nat);
    match t.check_number {
        Some(n) => {
            lemma_number_reads_back(n as nat);
        },
        None => {},
    }
    assert forall|i: int| 0 <= i < fields.len() implies lacks(#[trigger] fields[i], '\t') by {
        if i == 3 {
            assert(fields[3] == flag_text(t.is_reconciled));
            assert("Y"@.len() == 1 && "N"@.len() == 1);
            assert("N"@[0] == 'N' && "Y"@[0] == 'Y');
        }
    }
    lemma_split_join(fields, '\t');
    let texts = split_on(tsv_line(r), '\t');
    assert(texts == fields);
    assert(field(texts, 0) == r.id);
    assert(field(texts, 1) == t.date.text());
    assert(field(texts, 2) == check_text(t.check_number));
    assert(field(texts, 3) == flag_text(t.is_reconciled));
    assert(field(texts, 5) == t.vendor);
    assert(field(texts, 6) == t.memo);
    assert(field(texts, 7) == credit_text(t));
    assert(field(texts, 8) == debit_text(t));
    assert(cents_text(t.amount as nat).len() > 0);
    let credit: int = match t.transaction_type {
        TransactionType::Deposit => t.amount as int,
        TransactionType::Withdrawal => 0,
    };
    let debit: int = match t.transaction_type {
        TransactionType::Deposit => 0,
        TransactionType::Withdrawal => t.amount as int,
    };
    assert(text_amount(field(texts, 7)) == Ok::<int, ImportError>(credit));
    assert(text_amount(field(texts, 8)) == Ok::<int, ImportError>(debit));
    assert(check_number_of(field(texts, 2)) == Ok::<Option<u32>, ImportError>(t.check_number));
    assert(says_yes(flag_text(t.is_reconciled)) == t.is_reconciled) by {
        assert("Y"@.len() == 1 && "N"@.len() == 1 && "y"@.len() == 1);
        assert("N"@[0] == 'N' && "Y"@[0] == 'Y' && "y"@[0] == 'y');
    }
    let draft = fields_draft(texts, credit, debit);
    assert(draft is Ok);
    assert(draft.unwrap().transaction =~= t);
}

/// Texts that lack a character still lack it when they are joined by
/// another.
pub proof fn lemma_join_lacks(parts: Seq<Seq<char>>, sep: char, c: char)
    requires
        sep != c,
        forall|i: int| 0 <= i < parts.len() ==> lacks(#[trigger] parts[i], c),
    ensures
        lacks(join_with(parts, sep), c),
    decreases parts.len(),
{
    if parts.len() == 0 {
    } else if parts.len() == 1 {
        assert(lacks(parts[0], c));
    } else {
        let front = parts.drop_last();
        assert forall|i: int| 0 <= i < front.len() implies lacks(#[trigger] front[i], c) by {
            assert(front[i] == parts[i]);
        }
        lemma_join_lacks(front, sep, c);
        let joined = join_with(front, sep);
        let whole = join_with(parts, sep);
        assert(lacks(parts[parts.len() - 1], c));
        assert forall|j: int| 0 <= j < whole.len() implies whole[j] != c by {
            if j < joined.len() {
                assert(whole[j] == joined[j]);
            } else if j == joined.len() {
                assert(whole[j] == sep);
            } else {
                assert(whole[j] == parts.last()[j - joined.len() - 1]);
            }
        }
    }
}

/// The line of a record that tab-separated text can carry holds no line
/// feed and is not empty.
pub proof fn lemma_tsv_line_is_one_line(r: RecordView)
    requires
        tsv_carries(r),
        date_reads_back(r.transaction.date),
    ensures
        lacks(tsv_line(r), '\n'),
        tsv_line(r).len() > 0,
{
    let t = r.transaction;
    let fields = tsv_fields(r);
    reveal_strlit("Y");
    reveal_strlit("N");
    lemma_cents_read_back(t.amount as nat);
    match t.check_number {
        Some(n) => {
            lemma_number_reads_back(n as nat);
        },
        None => {},
    }
    assert forall|i: int| 0 <= i < fields.len() implies lacks(#[trigger] fields[i], '\n') by {
        if i == 3 {
            assert(fields[3] == flag_text(t.is_reconciled));
            assert("Y"@.len() == 1 && "N"@.len() == 1);
            assert("N"@[0] == 'N' && "Y"@[0] == 'Y');
        }
    }
    lemma_join_lacks(fields, '\t', '\n');
    assert(fields.len() == 9);
    assert(join_with(fields, '\t') == join_with(fields.drop_last(), '\t').push('\t')
        + fields.last());
}

/// The lines of a file of tab-separated text: the line of each record,
/// ended by a carriage return.
pub open spec fn tsv_lines(records: Seq<RecordView>) -> Seq<Seq<char>> {
    Seq::new(records.len(), |i: int| tsv_line(records[i]).push('\r'))
}

/// The text of a file is cut at its line feeds into the lines of its
/// records, and an empty piece behind the last.
pub proof fn lemma_tsv_text_lines(records: Seq<RecordView>)
    requires
        forall|i: int|
            0 <= i < records.len() ==> tsv_carries(#[trigger] records[i]) && date_reads_back(
                records[i].transaction.date,
            ),
    ensures
        split_on(tsv_text(records), '\n') == tsv_lines(records).push(Seq::empty()),
    decreases records.len(),
{
    let empty = Seq::<char>::empty();
    if records.len() == 0 {
        assert(tsv_lines(records).push(empty) =~= seq![empty]);
    } else {
        let front = records.drop_last();
        let last = records.last();
        assert forall|i: int| 0 <= i < front.len() implies tsv_carries(#[trigger] front[i])
            && date_reads_back(front[i].transaction.date) by {
            assert(front[i] == records[i]);
        }
        lemma_tsv_text_lines(front);
        assert(records[records.len() - 1] == last);
        lemma_tsv_line_is_one_line(last);
        reveal_strlit("\r\n");
        assert("\r\n"@.len() == 2);
        assert("\r\n"@[0] == '\r' && "\r\n"@[1] == '\n');
        let before = tsv_text(front);
        let line = tsv_line(last).push('\r');
        assert(lacks(line, '\n'));
        let text = tsv_text(records);
        assert(text =~= (before + line).push('\n'));
        assert(text.drop_last() =~= before + line);
        lemma_split_append(before, line, '\n');
        let lines = tsv_lines(front);
        assert(lines.push(empty).drop_last() =~= lines);
        assert(empty + line =~= line);
        assert(lines.push(line).push(empty) =~= tsv_lines(records).push(empty));
    }
}

/// A file of tab-separated text gives back the records that were written to
/// it, in their order, and refuses no line.
pub proof fn lemma_tsv_text_reads_back(records: Seq<RecordView>)
    requires
        forall|i: int|
            0 <= i < records.len() ==> tsv_carries(#[trigger] records[i]) && date_reads_back(
                records[i].transaction.date,
            ),
    ensures
        tsv_drafts(split_on(tsv_text(records), '\n')) == records,
        tsv_rejects(split_on(tsv_text(records), '\n')) == Seq::<ImportError>::empty(),
{
    lemma_tsv_text_lines(records);
    lemma_tsv_lines_read_back(records);
    let lines = tsv_lines(records).push(Seq::empty());
    assert(lines.drop_last() =~= tsv_lines(records));
}

/// The lines of the records give back the records.
pub proof fn lemma_tsv_lines_read_back(records: Seq<RecordView>)
    requires
        forall|i: int|
            0 <= i < records.len() ==> tsv_carries(#[trigger] records[i]) && date_reads_back(
                records[i].transaction.date,
            ),
    ensures
        tsv_drafts(tsv_lines(records)) == records,
        tsv_rejects(tsv_lines(records)) == Seq::<ImportError>::empty(),
    decreases records.len(),
{
    if records.len() == 0 {
        assert(tsv_lines(records) =~= Seq::<Seq<char>>::empty());
        assert(records =~= Seq::<RecordView>::empty());
    } else {
        let front = records.drop_last();
        let last = records.last();
        assert forall|i: int| 0 <= i < front.len() implies tsv_carries(#[trigger] front[i])
            && date_reads_back(front[i].transaction.date) by {
            assert(front[i] == records[i]);
        }
        lemma_tsv_lines_read_back(front);
        assert(records[records.len() - 1] == last);
        lemma_tsv_line_is_one_line(last);
        lemma_tsv_line_reads_back(last);
        let lines = tsv_lines(records);
        assert(lines.drop_last() =~= tsv_lines(front));
        assert(lines.last() == tsv_line(last).push('\r'));
        assert(tsv_line(last).push('\r').drop_last() =~= tsv_line(last));
        assert(front.push(last) =~= records);
    }
}

/// Writing to a store records that it holds changes nothing.
pub proof fn lemma_rewrite_own_records(store: LedgerView, batch: Seq<RecordView>)
    requires
        store.wf(),
        forall|i: int| 0 <= i < batch.len() ==> store.records.contains(#[trigger] batch[i]),
    ensures
        store.after_upserts(batch) == store,
    decreases batch.len(),
{
    if batch.len() > 0 {
        let front = batch.drop_last();
        let last = batch.last();
        assert forall|i: int| 0 <= i < front.len() implies store.records.contains(
            #[trigger] front[i],
        ) by {
            assert(front[i] == batch[i]);
        }
        lemma_rewrite_own_records(store, front);
        assert(store.records.contains(batch[batch.len() - 1]));
        let p = choose|p: int| 0 <= p < store.records.len() && store.records[p] == last;
        let ids = ids_of(store.records);
        lemma_first_same(ids, last.id);
        assert(ids[p] == last.id);
        let found = position_of(store.records, last.id).unwrap();
        if found < p {
            assert(same_ignoring_case(ids[found], ids[p]));
        }
        assert(found == p);
        assert(last.transaction.wf());
        match last.transaction.category {
            Some(name) => {
                let k = choose|k: int|
                    0 <= k < store.categories.len() && store.categories[k] == name;
                lemma_first_same(store.categories, name);
                let m = first_same(store.categories, name).unwrap();
                if m < k {
                    assert(same_ignoring_case(store.categories[m], store.categories[k]));
                }
                assert(m == k);
            },
            None => {},
        }
        let after = store.update(last).unwrap();
        assert(after.records =~= store.records);
    }
}

/// A ledger that is written out as tab-separated text and read in again is
/// the ledger that was written: the text gives back the records of the
/// ledger read by date, and writing them to the store leaves the store as
/// it is.
pub proof fn lemma_tsv_round_trip(store: LedgerView)
    requires
        store.wf(),
        forall|i: int|
            0 <= i < store.records.len() ==> tsv_carries(#[trigger] store.records[i])
                && date_reads_back(store.records[i].transaction.date),
    ensures
        tsv_drafts(split_on(tsv_text(sorted_by_date(store.records)), '\n')) == sorted_by_date(
            store.records,
        ),
        store.after_upserts(tsv_drafts(split_on(tsv_text(sorted_by_date(store.records)), '\n')))
            == store,
{
    let sorted = sorted_by_date(store.records);
    lemma_sorted_keeps(
        store.records,
        by_date(),
        |r: RecordView| tsv_carries(r) && date_reads_back(r.transaction.date),
    );
    lemma_sorted_keeps(store.records, by_date(), |r: RecordView| store.records.contains(r));
    lemma_tsv_text_reads_back(sorted);
    lemma_rewrite_own_records(store, sorted);
}

/// Every record has an identifier.
pub open spec fn all_named(records: Seq<RecordView>) -> bool {
    forall|i: int| 0 <= i < records.len() ==> (#[trigger] records[i]).id.len() > 0
}

/// Where no two records answer to one identifier, what is held under the
/// identifier of a record is the transaction of that record.
pub proof fn lemma_held_of_member(records: Seq<RecordView>, r: RecordView)
    requires
        distinct_names(ids_of(records)),
        records.contains(r),
    ensures
        held(records, r.id) == Some(r.transaction),
{
    let ids = ids_of(records);
    let p = choose|p: int| 0 <= p < records.len() && records[p] == r;
    lemma_first_same(ids, r.id);
    assert(ids[p] == r.id);
    let found = position_of(records, r.id).unwrap();
    if found < p {
        assert(same_ignoring_case(ids[found], ids[p]));
    }
}

/// Reading a ledger by date does not change what it holds under an
/// identifier.
pub proof fn lemma_held_sorted(records: Seq<RecordView>, id: Seq<char>)
    requires
        distinct_names(ids_of(records)),
    ensures
        held(sorted_by_date(records), id) == held(records, id),
{
    broadcast use vstd::seq_lib::group_to_multiset_ensures;

    let sorted = sorted_by_date(records);
    lemma_sorted_keeps_distinct(records);
    lemma_sorted_is_permutation(records, by_date());
    lemma_first_same(ids_of(sorted), id);
    lemma_first_same(ids_of(records), id);
    match position_of(sorted, id) {
        Some(k) => {
            let r = sorted[k];
            assert(ids_of(sorted)[k] == r.id);
            assert(sorted.contains(r));
            assert(sorted.to_multiset().count(r) > 0);
            assert(records.contains(r));
            lemma_held_of_member(records, r);
            lemma_held_ignores_case(records, id, r.id);
        },
        None => {
            match position_of(records, id) {
                Some(m) => {
                    let r = records[m];
                    assert(ids_of(records)[m] == r.id);
                    assert(records.contains(r));
                    assert(records.to_multiset().count(r) > 0);
                    assert(sorted.contains(r));
                    lemma_held_of_member(sorted, r);
                    lemma_held_ignores_case(sorted, id, r.id);
                },
                None => {},
            }
        },
    }
}

/// The records of a store in good order, written by date to an empty store,
/// are taken one and all and stand there as they stood: under their
/// identifiers, with their transactions, their categories in the spelling
/// they had.
pub proof fn lemma_written_to_empty(store: LedgerView, count: int)
    requires
        store.wf(),
        0 <= count <= store.records.len(),
    ensures
        sorted_by_date(store.records).len() == store.records.len(),
        LedgerView::empty().after_upserts(sorted_by_date(store.records).take(count)).records
            == sorted_by_date(store.records).take(count),
        forall|k: int|
            0 <= k < LedgerView::empty().after_upserts(
                sorted_by_date(store.records).take(count),
            ).categories.len() ==> store.categories.contains(
                #[trigger] LedgerView::empty().after_upserts(
                    sorted_by_date(store.records).take(count),
                ).categories[k],
            ),
        LedgerView::empty().refusals(sorted_by_date(store.records).take(count)) == Seq::<
            ImportError,
        >::empty(),
    decreases count,
{
    let sorted = sorted_by_date(store.records);
    lemma_sorted_len(store.records, by_date());
    if count == 0 {
        assert(sorted.take(0) =~= Seq::<RecordView>::empty());
    } else {
        lemma_written_to_empty(store, count - 1);
        let batch = sorted.take(count);
        let front = sorted.take(count - 1);
        let r = sorted[count - 1];
        assert(batch.drop_last() =~= front);
        assert(batch.last() == r);
        let mid = LedgerView::empty().after_upserts(front);
        // the record is one of the store: it can be stored, and the store
        // knows its category
        lemma_sorted_keeps(
            store.records,
            by_date(),
            |x: RecordView|
                x.transaction.wf() && (x.transaction.category matches Some(name)
                    ==> store.categories.contains(name)),
        );
        assert(r.transaction.wf());
        // no record before it answers to its name
        lemma_sorted_keeps_distinct(store.records);
        let ids = ids_of(sorted);
        lemma_first_same(ids_of(front), r.id);
        assert(ids[count - 1] == r.id);
        assert(position_of(front, r.id) is None) by {
            match position_of(front, r.id) {
                Some(m) => {
                    assert(ids_of(front)[m] == ids[m]);
                    assert(same_ignoring_case(ids[m], ids[count - 1]));
                },
                None => {},
            }
        }
        let categories = registered(mid.categories, r.transaction.category);
        lemma_registered_extends(mid.categories, r.transaction.category);
        assert forall|k: int| 0 <= k < categories.len() implies store.categories.contains(
            #[trigger] categories[k],
        ) by {
            if k < mid.categories.len() {
                assert(categories[k] == mid.categories[k]);
            }
        }
        match r.transaction.category {
            Some(name) => {
                lemma_first_same(categories, name);
                let spelt = categories[first_same(categories, name).unwrap()];
                assert(store.categories.contains(spelt));
                assert(store.categories.contains(name));
                let a = choose|a: int| 0 <= a < store.categories.len() && store.categories[a] == spelt;
                let b = choose|b: int| 0 <= b < store.categories.len() && store.categories[b] == name;
                if a != b {
                    assert(same_ignoring_case(store.categories[a], store.categories[b]));
                    assert(same_ignoring_case(store.categories[b], store.categories[a]));
                }
                assert(spelt == name);
            },
            None => {},
        }
        assert(kept(categories, r.transaction) =~= r.transaction);
        let after = mid.add(r).unwrap();
        assert(after.records =~= batch);
    }
}

/// A ledger that is handed out in its own format and read into an empty
/// store is the ledger again. `read` is what reading makes of the records
/// handed out, which are the ledger by date. Where every record has an
/// identifier, the new store takes every one of them, holds them as the
/// ledger read by date, and has under every identifier what the ledger has
/// under it.
pub proof fn lemma_native_round_trip(store: LedgerView, read: Seq<RecordView>, id: Seq<char>)
    requires
        store.wf(),
        all_named(store.records),
        all_made_from(sorted_by_date(store.records), read),
    ensures
        read == sorted_by_date(store.records),
        LedgerView::empty().refusals(read) == Seq::<ImportError>::empty(),
        LedgerView::empty().after_upserts(read).records == sorted_by_date(store.records),
        LedgerView::empty().after_upserts(read).records.len() == store.records.len(),
        held(LedgerView::empty().after_upserts(read).records, id) == held(store.records, id),
{
    let sorted = sorted_by_date(store.records);
    lemma_sorted_keeps(store.records, by_date(), |x: RecordView| x.id.len() > 0);
    assert(read =~= sorted) by {
        assert forall|i: int| 0 <= i < sorted.len() implies read[i] == sorted[i] by {
            assert(made_from(sorted[i], read[i]));
            assert(sorted[i].id.len() > 0);
        }
    }
    lemma_written_to_empty(store, store.records.len() as int);
    assert(sorted.take(store.records.len() as int) =~= sorted);
    lemma_held_sorted(store.records, id);
}

fn fits_in_column(text: &str) -> (r: bool)
    ensures
        r == fits_column(text@),
{
    let chars = chars_of(text);
    let mut i: usize = 0;
    while i < chars.len()
        invariant
            i <= chars.len(),
            chars@ == text@,
            forall|j: int| 0 <= j < i ==> text@[j] != '\t' && text@[j] != '\n',
        decreases chars.len() - i,
    {
        if chars[i] == '\t' || chars[i] == '\n' {
            return false;
        }
        i += 1;
    }
    true
}

impl Date {
    /// Whether the date is written as a text that is read back as the same
    /// date.
    pub fn reads_back(&self) -> (r: bool)
        ensures
            r == date_reads_back(*self),
    {
        let text = self.to_text();
        if !fits_in_column(text.as_str()) {
            return false;
        }
        match crate::date::read_date(text.as_str()) {
            Some(date) => date == *self,
            None => false,
        }
    }
}

/// Whether the record is one that tab-separated text can carry.
pub fn is_carried_by_tsv(record: &Record) -> (r: bool)
    ensures
        r == tsv_carries(record@),
{
    let t = &record.transaction;
    let category_fits = match &t.category {
        Some(name) => !name.as_str().is_empty() && fits_in_column(name.as_str()),
        None => true,
    };
    let check_fits = match t.check_number {
        Some(n) => n != 0,
        None => true,
    };
    let amount_fits = match t.transaction_type {
        TransactionType::Deposit => t.amount > 0,
        TransactionType::Withdrawal => true,
    };
    t.is_valid() && fits_in_column(record.id.as_str()) && fits_in_column(t.vendor.as_str())
        && fits_in_column(t.memo.as_str()) && category_fits && check_fits && amount_fits
}

/// Whether the record comes back from its line of tab-separated text as it
/// went in. It does where the text can carry it and its date is read back
/// as it is written.
pub fn survives_tsv(record: &Record) -> (r: bool)
    ensures
        r == (tsv_carries(record@) && date_reads_back(record@.transaction.date)),
        r ==> tsv_draft(tsv_line(record@)) == Ok::<RecordView, ImportError>(record@),
{
    let r = is_carried_by_tsv(record) && record.transaction.date.reads_back();
    proof {
        if r {
            lemma_tsv_line_reads_back(record@);
        }
    }
    r
}

} // verus!
