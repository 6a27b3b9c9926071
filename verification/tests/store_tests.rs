use todo::{StoreError, TodoRecord, TodoStore};

fn record(id: i64, title: &str, done: bool) -> TodoRecord {
    TodoRecord { id, title: title.to_string(), done }
}

#[test]
fn insert_assigns_sequential_ids() {
    let mut store = TodoStore::new();
    assert_eq!(store.insert("buy milk".to_string()), Ok(1));
    assert_eq!(store.insert("walk dog".to_string()), Ok(2));
    let rows = store.select_all();
    assert_eq!(rows, vec![record(1, "buy milk", false), record(2, "walk dog", false)]);
}

#[test]
fn duplicate_title_rejected_and_store_unchanged() {
    let mut store = TodoStore::new();
    assert_eq!(store.insert("buy milk".to_string()), Ok(1));
    assert_eq!(store.insert("buy milk".to_string()), Err(StoreError::DuplicateTitle));
    let rows = store.select_all();
    assert_eq!(rows, vec![record(1, "buy milk", false)]);
}

#[test]
fn remove_by_id_removes_exactly_that_record() {
    let mut store = TodoStore::new();
    store.insert("a".to_string()).unwrap();
    store.insert("b".to_string()).unwrap();
    store.insert("c".to_string()).unwrap();
    store.remove_by_id(2);
    assert_eq!(store.select_all(), vec![record(1, "a", false), record(3, "c", false)]);
}

#[test]
fn remove_absent_id_is_noop() {
    let mut store = TodoStore::new();
    store.insert("a".to_string()).unwrap();
    store.remove_by_id(999);
    assert_eq!(store.select_all(), vec![record(1, "a", false)]);
}

#[test]
fn remove_by_title_and_absent_title_noop() {
    let mut store = TodoStore::new();
    store.insert("a".to_string()).unwrap();
    store.insert("b".to_string()).unwrap();
    store.remove_by_title(&"a".to_string());
    assert_eq!(store.select_all(), vec![record(2, "b", false)]);
    store.remove_by_title(&"zzz".to_string());
    assert_eq!(store.select_all(), vec![record(2, "b", false)]);
}

#[test]
fn toggle_flips_and_twice_restores() {
    let mut store = TodoStore::new();
    store.insert("milk".to_string()).unwrap();
    store.toggle_by_id(1);
    assert_eq!(store.select_all(), vec![record(1, "milk", true)]);
    store.toggle_by_id(1);
    assert_eq!(store.select_all(), vec![record(1, "milk", false)]);
}

#[test]
fn toggle_by_title_flips_only_that_record() {
    let mut store = TodoStore::new();
    store.insert("milk".to_string()).unwrap();
    store.insert("eggs".to_string()).unwrap();
    store.toggle_by_title(&"eggs".to_string());
    assert_eq!(store.select_all(), vec![record(1, "milk", false), record(2, "eggs", true)]);
}

#[test]
fn toggle_absent_is_noop() {
    let mut store = TodoStore::new();
    store.insert("milk".to_string()).unwrap();
    store.toggle_by_id(42);
    store.toggle_by_title(&"bread".to_string());
    assert_eq!(store.select_all(), vec![record(1, "milk", false)]);
}

#[test]
fn ids_are_not_reused_after_deletion() {
    let mut store = TodoStore::new();
    store.insert("a".to_string()).unwrap();
    store.insert("b".to_string()).unwrap();
    store.remove_by_id(2);
    assert_eq!(store.insert("c".to_string()), Ok(3));
    assert_eq!(store.select_all(), vec![record(1, "a", false), record(3, "c", false)]);
}

#[test]
fn ids_stable_across_unrelated_operations() {
    let mut store = TodoStore::new();
    store.insert("a".to_string()).unwrap();
    store.insert("b".to_string()).unwrap();
    store.insert("c".to_string()).unwrap();
    store.toggle_by_id(2);
    store.remove_by_id(1);
    store.insert("d".to_string()).unwrap();
    let rows = store.select_all();
    assert_eq!(rows[0], record(2, "b", true));
    assert_eq!(rows[1], record(3, "c", false));
    assert_eq!(rows[2], record(4, "d", false));
}

#[test]
fn len_counts_records() {
    let mut store = TodoStore::new();
    assert_eq!(store.len(), 0);
    store.insert("a".to_string()).unwrap();
    store.insert("b".to_string()).unwrap();
    assert_eq!(store.len(), 2);
    store.remove_by_id(1);
    assert_eq!(store.len(), 1);
}

#[test]
fn from_rows_accepts_store_shaped_rows() {
    let rows = vec![record(1, "a", false), record(5, "b", true)];
    let store = TodoStore::from_rows(rows).unwrap();
    assert_eq!(store.select_all(), vec![record(1, "a", false), record(5, "b", true)]);
}

#[test]
fn from_rows_continues_ids_after_last() {
    let rows = vec![record(1, "a", false), record(5, "b", true)];
    let mut store = TodoStore::from_rows(rows).unwrap();
    assert_eq!(store.insert("c".to_string()), Ok(6));
}

#[test]
fn from_rows_rejects_unsorted_ids() {
    let rows = vec![record(5, "a", false), record(1, "b", false)];
    assert!(TodoStore::from_rows(rows).is_none());
}

#[test]
fn from_rows_rejects_duplicate_titles() {
    let rows = vec![record(1, "a", false), record(2, "a", false)];
    assert!(TodoStore::from_rows(rows).is_none());
}

#[test]
fn from_rows_rejects_nonpositive_id() {
    let rows = vec![record(0, "a", false)];
    assert!(TodoStore::from_rows(rows).is_none());
}
