//! Verified core of a personal task-tracking command line tool.
//!
//! Tasks live in a single four-column table: an auto-assigned id, a creation
//! timestamp, the task text and a three-level priority. This crate holds the
//! verified logic of that tool: the priority and timestamp models, the
//! parsing and rendering of dates, the semantics of the four commands (add,
//! delete, list, prune) over a model of the table, and the listing order.
//! The surrounding binary does the actual terminal and database I/O.

pub mod clock;
pub mod parse;
pub mod priority;
pub mod query;
pub mod render;
pub mod resolve;
pub mod table;
pub mod timestamp;
pub mod todo;

pub use priority::Priority;
pub use query::Query;
pub use table::TodoTable;
pub use timestamp::Timestamp;
pub use todo::{DataError, Todo, TodoEntry};
