//! A verified core for a command-line todo tracker.
//!
//! The library holds the decision logic of the tracker: how a user token is
//! resolved to an id or a title, what each command does to the record store,
//! how queries select and order records, and how records are rendered.
//! Process glue (argument parsing, the durable SQLite table, terminal
//! output) lives outside the library and hands it plain values.

pub mod command;
pub mod dispatch;
pub mod present;
pub mod query;
pub mod sort;
pub mod resolve;
pub mod store;

pub use command::AddTodoArgument;
pub use command::DoneTodoArgument;
pub use command::RemoveTodoArgument;
pub use command::SortTodoArgument;
pub use command::TodoCli;
pub use command::TodoCliCommands;
pub use command::TodoCliSubCommands;
pub use command::TodoColumns;
pub use command::ViewTodoArgument;
pub use resolve::TokenRef;
pub use store::StoreError;
pub use store::TodoRecord;
pub use store::TodoStore;
