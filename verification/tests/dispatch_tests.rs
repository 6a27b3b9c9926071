use todo::{
    AddTodoArgument, DoneTodoArgument, RemoveTodoArgument, StoreError, TodoCli,
    TodoCliSubCommands, TodoColumns, TodoRecord, TodoStore,
};
use todo::dispatch::dispatch;
use todo::present::render_table;

fn record(id: i64, title: &str, done: bool) -> TodoRecord {
    TodoRecord { id, title: title.to_string(), done }
}

fn bare_list() -> TodoCli {
    TodoCli { subcommand: None, sort: None, search: None }
}

fn add(titles: &[&str]) -> TodoCli {
    TodoCli {
        subcommand: Some(TodoCliSubCommands::Add(AddTodoArgument {
            todos: titles.iter().map(|t| t.to_string()).collect(),
        })),
        sort: None,
        search: None,
    }
}

fn remove(tokens: &[&str]) -> TodoCli {
    TodoCli {
        subcommand: Some(TodoCliSubCommands::Remove(RemoveTodoArgument {
            todos: tokens.iter().map(|t| t.to_string()).collect(),
        })),
        sort: None,
        search: None,
    }
}

fn done(tokens: &[&str]) -> TodoCli {
    TodoCli {
        subcommand: Some(TodoCliSubCommands::Done(DoneTodoArgument {
            todos: tokens.iter().map(|t| t.to_string()).collect(),
        })),
        sort: None,
        search: None,
    }
}

#[test]
fn add_two_titles_then_list() {
    let mut store = TodoStore::new();
    assert_eq!(dispatch(add(&["buy milk", "walk dog"]), &mut store), Ok(None));
    let rows = match dispatch(bare_list(), &mut store) {
        Ok(Some(rows)) => rows,
        other => panic!("expected rows, got {:?}", other),
    };
    assert_eq!(rows, vec![record(1, "buy milk", false), record(2, "walk dog", false)]);
    let table = render_table(&rows);
    assert_eq!(table, "id title    done\n1  buy milk no  \n2  walk dog no  ");
}

#[test]
fn second_add_of_same_title_fails_and_keeps_one_record() {
    let mut store = TodoStore::new();
    assert_eq!(dispatch(add(&["buy milk"]), &mut store), Ok(None));
    assert_eq!(dispatch(add(&["buy milk"]), &mut store), Err(StoreError::DuplicateTitle));
    let rows = store.select_all();
    assert_eq!(rows, vec![record(1, "buy milk", false)]);
}

#[test]
fn failing_add_keeps_earlier_titles_of_same_batch() {
    let mut store = TodoStore::new();
    assert_eq!(dispatch(add(&["a", "b"]), &mut store), Ok(None));
    assert_eq!(dispatch(add(&["c", "a", "d"]), &mut store), Err(StoreError::DuplicateTitle));
    assert_eq!(
        store.select_all(),
        vec![record(1, "a", false), record(2, "b", false), record(3, "c", false)]
    );
}

#[test]
fn done_toggles_and_toggles_back() {
    let mut store = TodoStore::new();
    dispatch(add(&["milk", "eggs"]), &mut store).unwrap();
    dispatch(done(&["1"]), &mut store).unwrap();
    assert_eq!(store.select_all(), vec![record(1, "milk", true), record(2, "eggs", false)]);
    dispatch(done(&["1"]), &mut store).unwrap();
    assert_eq!(store.select_all(), vec![record(1, "milk", false), record(2, "eggs", false)]);
}

#[test]
fn remove_on_empty_store_succeeds_and_leaves_it_empty() {
    let mut store = TodoStore::new();
    assert_eq!(dispatch(remove(&["999"]), &mut store), Ok(None));
    assert_eq!(store.select_all(), vec![]);
}

#[test]
fn remove_mixes_ids_and_titles_left_to_right() {
    let mut store = TodoStore::new();
    dispatch(add(&["milk", "eggs", "ham"]), &mut store).unwrap();
    assert_eq!(dispatch(remove(&["2", "ham"]), &mut store), Ok(None));
    assert_eq!(store.select_all(), vec![record(1, "milk", false)]);
}

#[test]
fn numeric_title_is_still_resolved_as_id() {
    let mut store = TodoStore::new();
    dispatch(add(&["1"]), &mut store).unwrap();
    // The record's title is "1" but its id is 1 as well; removing "2" must
    // be an id lookup (a no-op here), never a title lookup.
    dispatch(add(&["2"]), &mut store).unwrap();
    // Records: {1, "1"}, {2, "2"}. Removing token "2" removes id 2.
    assert_eq!(dispatch(remove(&["2"]), &mut store), Ok(None));
    assert_eq!(store.select_all(), vec![record(1, "1", false)]);
}

#[test]
fn search_token_takes_precedence_over_sort_and_subcommand() {
    let mut store = TodoStore::new();
    dispatch(add(&["milk", "eggs"]), &mut store).unwrap();
    let cli = TodoCli {
        subcommand: Some(TodoCliSubCommands::Add(AddTodoArgument {
            todos: vec!["ham".to_string()],
        })),
        sort: Some(TodoColumns::Id),
        search: Some("eggs".to_string()),
    };
    let rows = match dispatch(cli, &mut store) {
        Ok(Some(rows)) => rows,
        other => panic!("expected rows, got {:?}", other),
    };
    assert_eq!(rows, vec![record(2, "eggs", false)]);
    // The store is untouched: no "ham" was added.
    assert_eq!(store.select_all(), vec![record(1, "milk", false), record(2, "eggs", false)]);
}

#[test]
fn sort_option_takes_precedence_over_subcommand() {
    let mut store = TodoStore::new();
    dispatch(add(&["milk", "eggs"]), &mut store).unwrap();
    let cli = TodoCli {
        subcommand: Some(TodoCliSubCommands::Remove(RemoveTodoArgument {
            todos: vec!["1".to_string()],
        })),
        sort: Some(TodoColumns::Id),
        search: None,
    };
    let rows = match dispatch(cli, &mut store) {
        Ok(Some(rows)) => rows,
        other => panic!("expected rows, got {:?}", other),
    };
    assert_eq!(rows, vec![record(2, "eggs", false), record(1, "milk", false)]);
    assert_eq!(store.select_all().len(), 2);
}

#[test]
fn sort_by_done_via_dispatch_is_a_stable_partition() {
    let mut store = TodoStore::new();
    dispatch(add(&["a", "b", "c"]), &mut store).unwrap();
    dispatch(done(&["a", "c"]), &mut store).unwrap();
    let cli = TodoCli { subcommand: None, sort: Some(TodoColumns::Done), search: None };
    let rows = match dispatch(cli, &mut store) {
        Ok(Some(rows)) => rows,
        other => panic!("expected rows, got {:?}", other),
    };
    assert_eq!(rows, vec![record(2, "b", false), record(1, "a", true), record(3, "c", true)]);
}

#[test]
fn search_by_title_substring_via_dispatch() {
    let mut store = TodoStore::new();
    dispatch(add(&["Buy Milk", "eggs"]), &mut store).unwrap();
    let cli = TodoCli { subcommand: None, sort: None, search: Some("Milk".to_string()) };
    let rows = match dispatch(cli, &mut store) {
        Ok(Some(rows)) => rows,
        other => panic!("expected rows, got {:?}", other),
    };
    assert_eq!(rows, vec![record(1, "Buy Milk", false)]);
}
