use rcheckbook::changes::{changes, Change};
use rcheckbook::database::{
    add_category_to_db, add_record_to_db, delete_record_from_db, update_record_in_db, Ledger,
};
use rcheckbook::date::Date;
use rcheckbook::records::Record;
use rcheckbook::transaction::{Transaction, TransactionType};

fn item(id: &str, amount: u64, category: Option<&str>) -> Record {
    Record {
        id: id.to_string(),
        transaction: Transaction {
            date: Date { year: 2024, month: 1, day: 1 },
            check_number: None,
            category: category.map(|c| c.to_string()),
            vendor: "v".to_string(),
            memo: String::new(),
            amount,
            transaction_type: TransactionType::Deposit,
            is_reconciled: false,
        },
    }
}

fn start() -> Ledger {
    let mut store = Ledger::new();
    for r in [item("A", 1, Some("Food")), item("B", 2, None), item("C", 3, Some("Rent"))] {
        assert!(add_record_to_db(&mut store, &r).is_ok());
    }
    store
}

#[test]
fn nothing_is_written_where_nothing_changed() {
    let store = start();
    assert!(changes(&store, &store.clone()).is_empty());
    assert!(changes(&Ledger::new(), &Ledger::new()).is_empty());
}

#[test]
fn a_record_written_with_what_it_holds_is_not_written_again() {
    let before = start();
    let mut after = before.clone();
    assert!(update_record_in_db(&mut after, &item("b", 2, None)).is_ok());
    assert!(changes(&before, &after).is_empty());
}

#[test]
fn changes_list_categories_then_removals_then_writes() {
    let before = start();
    let mut after = before.clone();
    delete_record_from_db(&mut after, "a");
    assert!(update_record_in_db(&mut after, &item("C", 30, Some("Fun"))).is_ok());
    assert!(add_record_to_db(&mut after, &item("D", 4, Some("food"))).is_ok());
    add_category_to_db(&mut after, "Travel");
    assert_eq!(
        changes(&before, &after),
        vec![
            Change::CategoryAdded("Fun".to_string()),
            Change::CategoryAdded("Travel".to_string()),
            Change::RecordRemoved("A".to_string()),
            Change::RecordUpdated(item("C", 30, Some("Fun"))),
            Change::RecordAdded(item("D", 4, Some("Food"))),
        ]
    );
}

#[test]
fn everything_is_written_to_an_empty_register() {
    let after = start();
    let all = changes(&Ledger::new(), &after);
    assert_eq!(all.len(), 5);
    assert_eq!(all[0], Change::CategoryAdded("Food".to_string()));
    assert_eq!(all[1], Change::CategoryAdded("Rent".to_string()));
    assert_eq!(all[2], Change::RecordAdded(item("A", 1, Some("Food"))));
    let none = changes(&after, &Ledger::new());
    assert_eq!(
        none,
        vec![
            Change::RecordRemoved("A".to_string()),
            Change::RecordRemoved("B".to_string()),
            Change::RecordRemoved("C".to_string()),
        ]
    );
}
