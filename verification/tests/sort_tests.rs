use todo::TodoRecord;
use todo::sort::{sort_by_done, sort_by_id_desc, sort_by_title};

fn record(id: i64, title: &str, done: bool) -> TodoRecord {
    TodoRecord { id, title: title.to_string(), done }
}

#[test]
fn id_sort_is_strictly_descending() {
    let rows = vec![record(2, "b", false), record(5, "e", true), record(1, "a", false)];
    let sorted = sort_by_id_desc(rows);
    assert_eq!(sorted, vec![record(5, "e", true), record(2, "b", false), record(1, "a", false)]);
}

#[test]
fn title_sort_is_case_insensitive() {
    // Case-sensitively 'B' sorts before 'a'; lowercasing reverses that.
    let rows = vec![record(1, "B", false), record(2, "a", false)];
    let sorted = sort_by_title(rows);
    assert_eq!(sorted, vec![record(2, "a", false), record(1, "B", false)]);
}

#[test]
fn title_sort_orders_mixed_case_titles() {
    let rows = vec![
        record(1, "banana", false),
        record(2, "Apple", false),
        record(3, "cherry", false),
    ];
    let sorted = sort_by_title(rows);
    assert_eq!(
        sorted,
        vec![record(2, "Apple", false), record(1, "banana", false), record(3, "cherry", false)]
    );
}

#[test]
fn done_sort_puts_open_items_first_keeping_order() {
    let rows = vec![
        record(1, "a", true),
        record(2, "b", false),
        record(3, "c", true),
        record(4, "d", false),
    ];
    let sorted = sort_by_done(rows);
    assert_eq!(
        sorted,
        vec![record(2, "b", false), record(4, "d", false), record(1, "a", true), record(3, "c", true)]
    );
}

#[test]
fn done_sort_of_empty_is_empty() {
    assert_eq!(sort_by_done(vec![]), vec![]);
}
