//! The typed command model: one value per parsed invocation. The argument
//! grammar itself is an external collaborator; the library consumes its
//! typed output. Precedence when several options are present: search token,
//! then sort option, then subcommand, then bare list.

use vstd::prelude::*;

verus! {

/// Titles to insert, one record each, in the order supplied.
pub struct AddTodoArgument {
    pub todos: Vec<String>,
}

/// Tokens naming records to remove, each resolved id-or-title.
pub struct RemoveTodoArgument {
    pub todos: Vec<String>,
}

/// Tokens naming records whose done flag to flip.
pub struct DoneTodoArgument {
    pub todos: Vec<String>,
}

/// The column to sort by.
pub struct SortTodoArgument {
    pub sort: TodoColumns,
}

/// A single positional query token.
pub struct ViewTodoArgument {
    pub todo: String,
}

/// Option-style commands: reorder the listing or look one query up.
pub enum TodoCliCommands {
    Sort(SortTodoArgument),
    View(ViewTodoArgument),
}

/// The mutating subcommands.
pub enum TodoCliSubCommands {
    Add(AddTodoArgument),
    Remove(RemoveTodoArgument),
    Done(DoneTodoArgument),
}

/// The columns a listing can be sorted by.
#[derive(Clone, Copy)]
pub enum TodoColumns {
    Id,
    Title,
    Done,
}

/// One parsed invocation: an optional subcommand and the two query options.
pub struct TodoCli {
    pub subcommand: Option<TodoCliSubCommands>,
    pub sort: Option<TodoColumns>,
    pub search: Option<String>,
}

} // verus!
