//! A read-only table over a directory of notes: every note file found under
//! the directory becomes one row, with its path and its contents as columns.
//!
//! The library holds the rules of that table: how the creation arguments
//! name the directory, which of the walked entries are notes, how a note
//! becomes a row, what the declared schema looks like, and how a cursor
//! steps through the rows. Walking the directory, reading the files and
//! talking to the database engine are left to the caller.

pub mod text;
pub mod arguments;
pub mod cursor;
pub mod errors;
pub mod notes;
pub mod properties;
pub mod property_map;
pub mod table;

pub use crate::cursor::{Headers, ObsidianCursor};
pub use crate::errors::VtabError;
pub use crate::notes::{ObsidianNote, Records};
pub use crate::property_map::Properties;
pub use crate::table::ObsidianNotesTable;
