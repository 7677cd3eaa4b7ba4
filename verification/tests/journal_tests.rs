use tampio::account::Transaction;
use tampio::date::Date;
use tampio::error::{ErrorKind, LedgerError};
use tampio::journal::{
    assign_document, complete_multi_docs, number_entries, numeral_value, sort_by_date,
};

fn entry(day: u8, description: &str, doc: &str) -> Transaction {
    Transaction {
        date: Date { year: 2024, month: 1, day },
        description: description.into(),
        entries: vec![],
        n: 0,
        doc: doc.into(),
    }
}

fn docs(journal: &[Transaction]) -> Vec<&str> {
    journal.iter().map(|t| t.doc.as_str()).collect()
}

#[test]
fn documents_are_counted() {
    let mut counts = vec![];
    assert_eq!(assign_document(&mut counts, None), Ok("".to_string()));
    assert_eq!(assign_document(&mut counts, Some("5".into())), Ok("5".to_string()));
    assert_eq!(assign_document(&mut counts, Some("k".into())), Ok("k".to_string()));
    assert_eq!(assign_document(&mut counts, Some("5".into())), Ok("5:2".to_string()));
    assert_eq!(assign_document(&mut counts, Some("5".into())), Ok("5:3".to_string()));
    assert_eq!(counts, vec![("5".to_string(), 3), ("k".to_string(), 1)]);
}

#[test]
fn a_document_count_has_a_limit() {
    let mut counts = vec![("a".to_string(), i32::MAX)];
    assert_eq!(assign_document(&mut counts, Some("a".into())), Err(LedgerError::JournalTooLong));
    assert_eq!(counts, vec![("a".to_string(), i32::MAX)]);
    assert_eq!(LedgerError::JournalTooLong.kind(), ErrorKind::Execution);
}

#[test]
fn shared_documents_get_their_first_suffix() {
    let mut journal = vec![entry(1, "a", "5"), entry(2, "b", "k"), entry(3, "c", "5:2")];
    complete_multi_docs(&mut journal, &vec![("5".to_string(), 2), ("k".to_string(), 1)]);
    assert_eq!(docs(&journal), vec!["5:1", "k", "5:2"]);
    // A document that no entry carries changes nothing.
    complete_multi_docs(&mut journal, &vec![("x".to_string(), 2)]);
    assert_eq!(docs(&journal), vec!["5:1", "k", "5:2"]);
}

#[test]
fn sorting_is_stable() {
    let mut journal = vec![
        entry(3, "a", ""),
        entry(1, "b", ""),
        entry(3, "c", ""),
        entry(2, "d", ""),
        entry(1, "e", ""),
    ];
    sort_by_date(&mut journal);
    let order: Vec<&str> = journal.iter().map(|t| t.description.as_str()).collect();
    assert_eq!(order, vec!["b", "e", "d", "a", "c"]);
    let mut none: Vec<Transaction> = vec![];
    sort_by_date(&mut none);
    assert!(none.is_empty());
}

#[test]
fn entries_are_numbered_and_named() {
    let mut journal = vec![entry(1, "a", ""), entry(2, "b", "x"), entry(3, "c", ""), entry(4, "d", "")];
    assert_eq!(number_entries(&mut journal), Ok(()));
    assert_eq!(docs(&journal), vec!["0", "x", "1", "2"]);
    let numbers: Vec<i32> = journal.iter().map(|t| t.n).collect();
    assert_eq!(numbers, vec![0, 1, 2, 3]);
}

#[test]
fn synthesized_names_differ_from_all_others() {
    let mut journal = vec![
        entry(1, "a", ""),
        entry(2, "b", "0"),
        entry(3, "c", ""),
        entry(4, "d", "2"),
        entry(5, "e", "01"),
        entry(6, "f", "3"),
        entry(7, "g", ""),
        entry(8, "h", "0"),
    ];
    assert_eq!(number_entries(&mut journal), Ok(()));
    assert_eq!(docs(&journal), vec!["1", "0", "4", "2", "01", "3", "5", "0"]);
    let mut single = vec![entry(1, "a", "0"), entry(2, "b", "")];
    assert_eq!(number_entries(&mut single), Ok(()));
    assert_eq!(docs(&single), vec!["0", "1"]);
}

#[test]
fn numerals_are_recognised() {
    assert_eq!(numeral_value("0", 10), Some(0));
    assert_eq!(numeral_value("7", 10), Some(7));
    assert_eq!(numeral_value("10", 10), Some(10));
    assert_eq!(numeral_value("11", 10), None);
    assert_eq!(numeral_value("07", 10), None);
    assert_eq!(numeral_value("", 10), None);
    assert_eq!(numeral_value("5:1", 10), None);
    assert_eq!(numeral_value("99999999999999999999999", 2147483647), None);
    assert_eq!(numeral_value("2147483647", 2147483647), Some(2147483647));
}
