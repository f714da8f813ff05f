//! The table: it is made from the creation arguments, declares its schema,
//! tells the planner that every query is a full scan, and opens cursors.

use crate::arguments::{arguments_outcome, fragment_views, parse_arguments, Argument};
use crate::cursor::{opened, ObsidianCursor};
use crate::errors::{ErrorView, VtabError};
use crate::notes::{
    entry_views, lemma_scan_len, read_notes_in_dir, scan_outcome, NoteView, ScannedEntry,
};
use crate::properties::{schema_text, sql_schema_from_properties, with_base_columns};
use crate::property_map::Properties;
use vstd::prelude::*;

verus! {

/// The table over the notes of one directory.
pub struct ObsidianNotesTable {
    /// The directory of the notes.
    path: String,
}

impl View for ObsidianNotesTable {
    type V = Seq<char>;

    /// The path of the directory.
    closed spec fn view(&self) -> Seq<char> {
        self.path@
    }
}

/// What the table tells the planner about a query.
#[derive(Debug, PartialEq, Eq)]
pub struct ScanPlan {
    /// The estimated cost of the query.
    pub estimated_cost: u32,
    /// The estimated number of rows.
    pub estimated_rows: i64,
    /// The number by which the cursor would know the plan.
    pub index_number: i32,
}

/// The schema of every table: the two base columns.
pub open spec fn base_schema() -> Seq<char> {
    schema_text(with_base_columns(Map::empty()))
}

impl ObsidianNotesTable {
    /// Makes the table for a database that has none yet: the same as
    /// connecting to it.
    pub fn create(arguments: Vec<Result<Argument, String>>) -> (result: Result<
        (String, Self),
        VtabError,
    >)
        ensures
            exists|found: Seq<bool>|
                found.len() == arguments.len() && match result {
                    Ok((schema, table)) => schema@ == base_schema() && #[trigger] arguments_outcome(
                        fragment_views(arguments@),
                        found,
                    ) == Ok::<Seq<char>, ErrorView>(table@),
                    Err(error) => arguments_outcome(fragment_views(arguments@), found) == Err::<
                        Seq<char>,
                        ErrorView,
                    >(error@),
                },
    {
        Self::connect(arguments)
    }

    /// Makes the table from its creation arguments: the schema to declare,
    /// and the table over the directory that the arguments name. It fails
    /// as the arguments do.
    pub fn connect(arguments: Vec<Result<Argument, String>>) -> (result: Result<
        (String, Self),
        VtabError,
    >)
        ensures
            exists|found: Seq<bool>|
                found.len() == arguments.len() && match result {
                    Ok((schema, table)) => schema@ == base_schema() && #[trigger] arguments_outcome(
                        fragment_views(arguments@),
                        found,
                    ) == Ok::<Seq<char>, ErrorView>(table@),
                    Err(error) => arguments_outcome(fragment_views(arguments@), found) == Err::<
                        Seq<char>,
                        ErrorView,
                    >(error@),
                },
    {
        match parse_arguments(arguments) {
            Ok(parsed) => {
                let property_types = Properties::new();
                let schema = sql_schema_from_properties(property_types);
                let vtab = ObsidianNotesTable { path: parsed.dirname };
                Ok((schema, vtab))
            },
            Err(error) => Err(error),
        }
    }

    /// Lets go of the table, which holds nothing to release.
    pub fn destroy(&self) -> (result: Result<(), VtabError>)
        ensures
            result is Ok,
    {
        Ok(())
    }

    /// The plan for any query: a full scan from top to bottom, at a fixed
    /// high cost, whatever the query asks for.
    pub fn best_index(&self) -> (plan: ScanPlan)
        ensures
            plan == (ScanPlan { estimated_cost: 10000, estimated_rows: 10000, index_number: 1 }),
    {
        ScanPlan { estimated_cost: 10000, estimated_rows: 10000, index_number: 1 }
    }

    /// The directory of the notes.
    pub fn path(&self) -> (path: &str)
        ensures
            path@ == self@,
    {
        self.path.as_str()
    }

    /// Opens a cursor over the notes among `entries`, which a walk of the
    /// table's directory met. The cursor stands on the first note, or has
    /// left the rows where there is none. Where a note could not be read
    /// there is no cursor.
    pub fn open(&mut self, entries: Vec<ScannedEntry>) -> (result: Result<
        ObsidianCursor,
        VtabError,
    >)
        requires
            entries.len() <= i64::MAX,
        ensures
            final(self)@ == old(self)@,
            match result {
                Ok(cursor) => scan_outcome(entry_views(entries@)) == Ok::<Seq<NoteView>, ErrorView>(
                    cursor@.records,
                ) && cursor@ == opened(cursor@.records),
                Err(error) => scan_outcome(entry_views(entries@)) == Err::<
                    Seq<NoteView>,
                    ErrorView,
                >(error@),
            },
    {
        proof {
            lemma_scan_len(entry_views(entries@));
        }
        match read_notes_in_dir(entries) {
            Ok(records) => Ok(ObsidianCursor::new(records)),
            Err(error) => Err(error),
        }
    }
}

} // verus!
