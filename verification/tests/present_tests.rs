use todo::TodoRecord;
use todo::present::{format_done, i64_to_string, render_table, u64_to_string};

fn record(id: i64, title: &str, done: bool) -> TodoRecord {
    TodoRecord { id, title: title.to_string(), done }
}

#[test]
fn format_done_prints_yes_or_no() {
    assert_eq!(format_done(&false), "no");
    assert_eq!(format_done(&true), "yes");
}

#[test]
fn u64_to_string_formats_decimals() {
    assert_eq!(u64_to_string(0), "0");
    assert_eq!(u64_to_string(7), "7");
    assert_eq!(u64_to_string(10), "10");
    assert_eq!(u64_to_string(18446744073709551615), "18446744073709551615");
}

#[test]
fn i64_to_string_formats_signs() {
    assert_eq!(i64_to_string(0), "0");
    assert_eq!(i64_to_string(42), "42");
    assert_eq!(i64_to_string(-7), "-7");
    assert_eq!(i64_to_string(i64::MAX), "9223372036854775807");
    assert_eq!(i64_to_string(i64::MIN), "-9223372036854775808");
}

#[test]
fn empty_table_is_header_only() {
    let rows: Vec<TodoRecord> = vec![];
    assert_eq!(render_table(&rows), "id title done");
}

#[test]
fn table_aligns_columns_and_prints_no_for_open_items() {
    let rows = vec![record(1, "buy milk", false), record(2, "walk dog", false)];
    let expected = "id title    done\n1  buy milk no  \n2  walk dog no  ";
    assert_eq!(render_table(&rows), expected);
}

#[test]
fn table_widens_id_column_to_the_widest_id() {
    let rows = vec![record(100, "a", true)];
    let expected = "id  title done\n100 a     yes ";
    assert_eq!(render_table(&rows), expected);
}

#[test]
fn table_keeps_row_order_as_given() {
    let rows = vec![record(2, "b", false), record(1, "a", true)];
    let expected = "id title done\n2  b     no  \n1  a     yes ";
    assert_eq!(render_table(&rows), expected);
}
