use todo::TodoRecord;
use todo::query::{contains_sub, search_records};

fn record(id: i64, title: &str, done: bool) -> TodoRecord {
    TodoRecord { id, title: title.to_string(), done }
}

#[test]
fn contains_sub_basic() {
    assert!(contains_sub("Buy Milk", "Milk"));
    assert!(contains_sub("Buy Milk", ""));
    assert!(contains_sub("Buy Milk", "Buy Milk"));
    assert!(!contains_sub("Buy Milk", "milk"));
    assert!(!contains_sub("", "x"));
}

#[test]
fn search_numeric_token_is_an_id_lookup() {
    // A title with the exact numeric text exists; the id lookup still wins.
    let rows = vec![record(1, "milk", false), record(2, "1", false)];
    let found = search_records(&rows, "1");
    assert_eq!(found, vec![record(1, "milk", false)]);
}

#[test]
fn search_absent_id_returns_nothing() {
    let rows = vec![record(1, "milk", false)];
    assert_eq!(search_records(&rows, "999"), vec![]);
}

#[test]
fn search_substring_is_case_sensitive() {
    let rows = vec![record(1, "Buy Milk", false), record(2, "eggs", false)];
    assert_eq!(search_records(&rows, "milk"), vec![]);
    assert_eq!(search_records(&rows, "Milk"), vec![record(1, "Buy Milk", false)]);
}

#[test]
fn search_substring_keeps_store_order() {
    let rows = vec![
        record(1, "green eggs", false),
        record(2, "ham", true),
        record(3, "eggs benedict", false),
    ];
    let found = search_records(&rows, "eggs");
    assert_eq!(found, vec![record(1, "green eggs", false), record(3, "eggs benedict", false)]);
}
