use rcheckbook::database::{
    add_category_to_db, add_record_to_db, add_records_to_db, category_exists_in_db, category_id,
    delete_record_from_db, load_categories_from_db, retrieve_balance_for_record,
    retrieve_record_with_id_from_db, update_or_add_record, update_record_in_db, Ledger,
};
use rcheckbook::date::Date;
use rcheckbook::errors::ImportError;
use rcheckbook::records::{Record, Records};
use rcheckbook::transaction::{Transaction, TransactionType};

fn day(year: i32, month: u32, day: u32) -> Date {
    Date { year, month, day }
}

fn entry(
    id: &str,
    date: Date,
    kind: TransactionType,
    amount: u64,
    category: Option<&str>,
    vendor: &str,
) -> Record {
    Record {
        id: id.to_string(),
        transaction: Transaction {
            date,
            check_number: None,
            category: category.map(|c| c.to_string()),
            vendor: vendor.to_string(),
            memo: String::new(),
            amount,
            transaction_type: kind,
            is_reconciled: false,
        },
    }
}

fn example_store() -> Ledger {
    let mut store = Ledger::new();
    let records = vec![
        entry("A1", day(2024, 1, 1), TransactionType::Deposit, 10000, Some("Opening Balance"), "Bank"),
        entry("A2", day(2024, 1, 5), TransactionType::Withdrawal, 3000, Some("Utilities"), "Power Co"),
        entry("A3", day(2024, 1, 10), TransactionType::Deposit, 2000, Some("Salary"), "Employer"),
    ];
    for r in &records {
        assert_eq!(add_record_to_db(&mut store, r), Ok(()));
    }
    store
}

#[test]
fn balance_at_third_record_is_ninety() {
    let store = example_store();
    let third = retrieve_record_with_id_from_db(&store, "A3").unwrap();
    assert_eq!(retrieve_balance_for_record(&store, &third), Some(9000));
    let first = retrieve_record_with_id_from_db(&store, "A1").unwrap();
    assert_eq!(retrieve_balance_for_record(&store, &first), Some(10000));
    let second = retrieve_record_with_id_from_db(&store, "A2").unwrap();
    assert_eq!(retrieve_balance_for_record(&store, &second), Some(7000));
}

#[test]
fn balance_of_unknown_record_is_none() {
    let store = example_store();
    let stranger = entry("ZZ", day(2024, 1, 1), TransactionType::Deposit, 1, None, "x");
    assert_eq!(retrieve_balance_for_record(&store, &stranger), None);
}

#[test]
fn balance_follows_dates_not_storage_order() {
    let mut store = Ledger::new();
    let late = entry("L", day(2024, 3, 1), TransactionType::Withdrawal, 500, None, "Shop");
    let early = entry("E", day(2024, 1, 1), TransactionType::Deposit, 2000, None, "Bank");
    assert_eq!(add_record_to_db(&mut store, &late), Ok(()));
    assert_eq!(add_record_to_db(&mut store, &early), Ok(()));
    assert_eq!(retrieve_balance_for_record(&store, &early), Some(2000));
    assert_eq!(retrieve_balance_for_record(&store, &late), Some(1500));
}

#[test]
fn records_of_one_day_keep_storage_order() {
    let records = Records::from(vec![
        entry("B", day(2024, 2, 2), TransactionType::Deposit, 1, None, "b"),
        entry("C", day(2024, 1, 1), TransactionType::Deposit, 2, None, "c"),
        entry("A", day(2024, 2, 2), TransactionType::Deposit, 3, None, "a"),
        entry("D", day(2024, 1, 1), TransactionType::Deposit, 4, None, "d"),
    ]);
    let sorted = records.sorted_records();
    let ids: Vec<&str> = sorted.iter().map(|r| r.id.as_str()).collect();
    assert_eq!(ids, vec!["C", "D", "B", "A"]);
    assert_eq!(records.len(), 4);
    assert_eq!(records.balance_for_record(&sorted[2]), Some(7));
}

#[test]
fn balance_never_falls_in_a_ledger_of_deposits() {
    let records = Records::from(vec![
        entry("1", day(2024, 5, 1), TransactionType::Deposit, 100, None, "a"),
        entry("2", day(2023, 5, 1), TransactionType::Deposit, 0, None, "b"),
        entry("3", day(2024, 1, 1), TransactionType::Deposit, 250, None, "c"),
    ]);
    let sorted = records.sorted_records();
    let mut last: i128 = 0;
    for r in &sorted {
        let b = records.balance_for_record(r).unwrap();
        assert!(b >= last);
        last = b;
    }
    assert_eq!(last, 350);
}

#[test]
fn category_lookup_ignores_case() {
    let mut store = Ledger::new();
    let r = entry("U1", day(2024, 1, 5), TransactionType::Withdrawal, 3000, Some("Utilities"), "Power Co");
    assert_eq!(add_record_to_db(&mut store, &r), Ok(()));
    assert!(category_exists_in_db(&store, "utilities"));
    assert!(category_exists_in_db(&store, "UTILITIES"));
    assert!(!category_exists_in_db(&store, "Rent"));
    assert_eq!(category_id(&store, "utilities"), Some(1));
    assert_eq!(category_id(&store, "Rent"), None);
    let stored = retrieve_record_with_id_from_db(&store, "U1").unwrap();
    assert!(stored.transaction.is_in_category("utilities"));
}

#[test]
fn category_is_registered_once_and_kept_in_first_spelling() {
    let mut store = Ledger::new();
    add_category_to_db(&mut store, "Groceries");
    add_category_to_db(&mut store, "groceries");
    assert_eq!(load_categories_from_db(&store), vec!["Groceries".to_string()]);
    let r = entry("G1", day(2024, 1, 5), TransactionType::Withdrawal, 10, Some("GROCERIES"), "Shop");
    assert_eq!(add_record_to_db(&mut store, &r), Ok(()));
    assert_eq!(load_categories_from_db(&store), vec!["Groceries".to_string()]);
    let stored = retrieve_record_with_id_from_db(&store, "G1").unwrap();
    assert_eq!(stored.transaction.category, Some("Groceries".to_string()));
}

#[test]
fn add_refuses_an_identifier_that_is_taken() {
    let mut store = example_store();
    let again = entry("a1", day(2024, 2, 1), TransactionType::Deposit, 5, None, "x");
    assert_eq!(add_record_to_db(&mut store, &again), Err(ImportError::StorageError));
    assert_eq!(store.records().len(), 3);
}

#[test]
fn add_refuses_an_amount_too_large() {
    let mut store = Ledger::new();
    let huge = entry("H", day(2024, 2, 1), TransactionType::Deposit, u64::MAX, None, "x");
    assert!(!huge.transaction.is_valid());
    assert_eq!(add_record_to_db(&mut store, &huge), Err(ImportError::StorageError));
    assert_eq!(store.records().len(), 0);
}

#[test]
fn get_ignores_case_of_identifier() {
    let store = example_store();
    let found = retrieve_record_with_id_from_db(&store, "a2").unwrap();
    assert_eq!(found.id, "A2");
    assert_eq!(found.transaction.amount, 3000);
    assert!(retrieve_record_with_id_from_db(&store, "A9").is_none());
}

#[test]
fn update_replaces_the_transaction_and_keeps_the_identifier() {
    let mut store = example_store();
    let changed = entry("a2", day(2024, 1, 6), TransactionType::Withdrawal, 3500, Some("utilities"), "Power Co");
    assert_eq!(update_record_in_db(&mut store, &changed), Ok(()));
    let stored = retrieve_record_with_id_from_db(&store, "A2").unwrap();
    assert_eq!(stored.id, "A2");
    assert_eq!(stored.transaction.amount, 3500);
    assert_eq!(stored.transaction.date, day(2024, 1, 6));
    assert_eq!(stored.transaction.category, Some("Utilities".to_string()));
    assert_eq!(store.records().len(), 3);
}

#[test]
fn update_of_unknown_record_is_not_found() {
    let mut store = example_store();
    let stranger = entry("ZZ", day(2024, 1, 6), TransactionType::Withdrawal, 1, None, "x");
    assert_eq!(update_record_in_db(&mut store, &stranger), Err(ImportError::NotFound));
    assert_eq!(store.records().len(), 3);
}

#[test]
fn removing_a_nonexistent_id_leaves_the_store_unchanged() {
    let mut store = example_store();
    let before: Vec<Record> = store.records().clone();
    delete_record_from_db(&mut store, "no-such-id");
    assert_eq!(store.records(), &before);
    assert_eq!(load_categories_from_db(&store).len(), 3);
}

#[test]
fn removing_a_record_drops_it_alone() {
    let mut store = example_store();
    delete_record_from_db(&mut store, "a2");
    let ids: Vec<&str> = store.records().iter().map(|r| r.id.as_str()).collect();
    assert_eq!(ids, vec!["A1", "A3"]);
}

#[test]
fn upsert_twice_is_upsert_once() {
    let batch = vec![
        entry("X1", day(2024, 1, 1), TransactionType::Deposit, 100, Some("Salary"), "Employer"),
        entry("X2", day(2024, 1, 2), TransactionType::Withdrawal, 40, Some("Food"), "Shop"),
        entry("x1", day(2024, 1, 3), TransactionType::Deposit, 150, Some("salary"), "Employer"),
    ];
    let mut once = Ledger::new();
    assert!(add_records_to_db(&mut once, &batch).is_empty());
    let mut twice = Ledger::new();
    assert!(add_records_to_db(&mut twice, &batch).is_empty());
    assert!(add_records_to_db(&mut twice, &batch).is_empty());
    assert_eq!(once.records(), twice.records());
    assert_eq!(once.categories(), twice.categories());
    assert_eq!(once.records().len(), 2);
    assert_eq!(once.records()[0].transaction.amount, 150);
}

#[test]
fn batch_reports_each_record_that_the_store_refuses() {
    let mut store = Ledger::new();
    let batch = vec![
        entry("X1", day(2024, 1, 1), TransactionType::Deposit, u64::MAX, None, "a"),
        entry("X2", day(2024, 1, 2), TransactionType::Withdrawal, 40, None, "b"),
        entry("x2", day(2024, 1, 2), TransactionType::Withdrawal, u64::MAX, None, "b"),
    ];
    assert_eq!(
        add_records_to_db(&mut store, &batch),
        vec![ImportError::StorageError, ImportError::StorageError]
    );
    assert_eq!(store.records().len(), 1);
    assert_eq!(store.records()[0].transaction.amount, 40);
}

#[test]
fn upsert_adds_then_updates() {
    let mut store = Ledger::new();
    let first = entry("K", day(2024, 1, 1), TransactionType::Deposit, 100, None, "a");
    let second = entry("k", day(2024, 1, 1), TransactionType::Deposit, 900, None, "a");
    assert_eq!(update_or_add_record(&mut store, &first), Ok(()));
    assert_eq!(update_or_add_record(&mut store, &second), Ok(()));
    assert_eq!(store.records().len(), 1);
    assert_eq!(store.records()[0].id, "K");
    assert_eq!(store.records()[0].transaction.amount, 900);
}

#[test]
fn record_with_empty_id_gets_one() {
    let t = entry("", day(2024, 1, 1), TransactionType::Deposit, 100, None, "a").transaction;
    let r = Record::from("", t.clone());
    assert_eq!(r.id.chars().count(), 36);
    assert_eq!(r.transaction, t);
    let named = Record::from("ABC", t.clone());
    assert_eq!(named.id, "ABC");
    let given = Record::with_id("", "fresh".to_string(), t.clone());
    assert_eq!(given.id, "fresh");
}

#[test]
fn signed_amount_carries_the_direction() {
    let d = entry("", day(2024, 1, 1), TransactionType::Deposit, 100, None, "a").transaction;
    let w = entry("", day(2024, 1, 1), TransactionType::Withdrawal, 100, None, "a").transaction;
    assert_eq!(d.signed_amount(), 100);
    assert_eq!(w.signed_amount(), -100);
    assert!(d.same_as(&d.clone()));
    assert!(!d.same_as(&w));
}

#[test]
fn error_messages() {
    assert_eq!(ImportError::InvalidDateFormat.to_string(), "Date must be in the YYYY-MM-DD format.");
    assert_eq!(
        ImportError::AmbiguousTransactionType.to_string(),
        "Cannot determine transaction type. Please make sure there is a value in only either the credit or withdrawal column"
    );
    assert!(!ImportError::NotFound.to_string().is_empty());
    assert!(!ImportError::MalformedFile.to_string().is_empty());
    assert!(!ImportError::StorageError.to_string().is_empty());
}
