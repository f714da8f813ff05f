//! The cursor: it steps through the notes of one scan, one row for each,
//! and reads the columns of the row it stands on.

use crate::errors::{ErrorView, VtabError};
use crate::notes::{flatten_note, lemma_base_columns_win, note_views, row_of, NoteView, Records};
use vstd::prelude::*;

verus! {

/// The names of the columns, by their position.
pub type Headers = Vec<String>;

/// A cursor over the notes of one scan. It moves forward only, one row at a
/// time, until it has left the last row.
pub struct ObsidianCursor {
    /// The names of the columns.
    headers: Headers,
    /// The notes, one for each row.
    records: Records,
    /// The number of the row the cursor stands on, counted from one.
    rowid: i64,
    /// Whether the cursor has left the last row.
    eof: bool,
}

/// The state of a cursor over plain values.
pub struct CursorView {
    pub headers: Seq<Seq<char>>,
    pub records: Seq<NoteView>,
    /// The number of the current row, counted from one; zero before the
    /// first step.
    pub position: int,
    pub exhausted: bool,
}

/// The columns of every cursor: the path, then the contents.
pub open spec fn base_headers() -> Seq<Seq<char>> {
    seq!["file_path"@, "file_contents"@]
}

/// The state before the first step.
pub open spec fn before_first(records: Seq<NoteView>) -> CursorView {
    CursorView { headers: base_headers(), records, position: 0, exhausted: false }
}

/// One step: from the last row the cursor leaves the rows and stays where it
/// is; from any other place it moves to the next row.
pub open spec fn advance(cursor: CursorView) -> CursorView {
    if cursor.position == cursor.records.len() {
        CursorView { exhausted: true, ..cursor }
    } else {
        CursorView { position: cursor.position + 1, ..cursor }
    }
}

/// The state of a cursor that was just made: one step from before the first
/// row.
pub open spec fn opened(records: Seq<NoteView>) -> CursorView {
    advance(before_first(records))
}

/// The state after `times` steps.
pub open spec fn advanced(cursor: CursorView, times: nat) -> CursorView
    decreases times,
{
    if times == 0 {
        cursor
    } else {
        advance(advanced(cursor, (times - 1) as nat))
    }
}

/// Whether the cursor stands on a row.
pub open spec fn on_row(cursor: CursorView) -> bool {
    1 <= cursor.position <= cursor.records.len()
}

/// What reading the column at `index` gives: a failure where there is no
/// such column; else nothing where the cursor stands on no row or the row
/// has nothing under the column's name; else the text under that name.
pub open spec fn column_value(cursor: CursorView, index: int) -> Result<
    Option<Seq<char>>,
    ErrorView,
> {
    if index < 0 || index >= cursor.headers.len() {
        Err(ErrorView::ColumnIndexOutOfRange(index))
    } else if !on_row(cursor) {
        Ok(None)
    } else {
        let row = row_of(cursor.records[cursor.position - 1]);
        if row.contains_key(cursor.headers[index]) {
            Ok(Some(row[cursor.headers[index]]))
        } else {
            Ok(None)
        }
    }
}

/// The views of the names of the columns.
pub open spec fn header_views(headers: Seq<String>) -> Seq<Seq<char>> {
    headers.map_values(|name: String| name@)
}

impl View for ObsidianCursor {
    type V = CursorView;

    closed spec fn view(&self) -> CursorView {
        CursorView {
            headers: header_views(self.headers@),
            records: note_views(self.records@),
            position: self.rowid as int,
            exhausted: self.eof,
        }
    }
}

impl ObsidianCursor {
    #[verifier::type_invariant]
    spec fn well_formed(self) -> bool {
        0 <= self.rowid <= self.records.len() <= i64::MAX
    }

    /// A cursor over `records`. It takes its first step at once: it stands
    /// on the first row, or has left the rows where there is none.
    pub fn new(records: Records) -> (cursor: Self)
        requires
            records.len() <= i64::MAX,
        ensures
            cursor@ == opened(note_views(records@)),
    {
        let mut headers: Headers = Vec::new();
        headers.push("file_path".to_owned());
        headers.push("file_contents".to_owned());
        assert(header_views(headers@) =~= base_headers());
        let mut cursor = ObsidianCursor { headers, records, rowid: 0, eof: false };
        cursor.next();
        cursor
    }

    /// Takes no notice of what the query asks for: the cursor yields every
    /// row, whatever the plan.
    pub fn filter(&mut self, _idx_num: i32, _idx_str: Option<&str>)
        ensures
            final(self)@ == old(self)@,
    {
    }

    /// Takes one step.
    pub fn next(&mut self)
        ensures
            final(self)@ == advance(old(self)@),
    {
        proof {
            use_type_invariant(&*self);
        }
        if self.rowid as usize == self.records.len() {
            self.eof = true;
        } else {
            self.rowid += 1;
        }
    }

    /// Whether the cursor has left the last row.
    pub fn eof(&self) -> (exhausted: bool)
        ensures
            exhausted == self@.exhausted,
    {
        self.eof
    }

    /// The text of the current row in the column at `col_idx`, counted from
    /// zero, or nothing where the row has none there.
    pub fn column(&self, col_idx: i32) -> (result: Result<Option<String>, VtabError>)
        ensures
            match result {
                Ok(Some(text)) => column_value(self@, col_idx as int) == Ok::<
                    Option<Seq<char>>,
                    ErrorView,
                >(Some(text@)),
                Ok(None) => column_value(self@, col_idx as int) == Ok::<
                    Option<Seq<char>>,
                    ErrorView,
                >(None),
                Err(error) => column_value(self@, col_idx as int) == Err::<
                    Option<Seq<char>>,
                    ErrorView,
                >(error@),
            },
    {
        proof {
            use_type_invariant(self);
        }
        if col_idx < 0 || col_idx as usize >= self.headers.len() {
            return Err(VtabError::ColumnIndexOutOfRange(col_idx));
        }
        if self.rowid < 1 {
            return Ok(None);
        }
        let row_idx: usize = (self.rowid - 1) as usize;
        let record = &self.records[row_idx];
        let col_name = &self.headers[col_idx as usize];
        let flattened = flatten_note(record);
        match flattened.get(col_name.as_str()) {
            Some(value) => Ok(Some(value.clone())),
            None => Ok(None),
        }
    }

    /// The number of the current row, counted from one.
    pub fn rowid(&self) -> (id: i64)
        ensures
            id == self@.position,
    {
        self.rowid
    }
}

/// Stepping on from a fresh cursor over `n` rows: after fewer than `n` steps
/// the cursor stands on the row after as many rows as it took steps; after
/// `n` steps or more it has left the rows and stays behind the last. Over no
/// rows it has left them from the start.
pub proof fn lemma_exhaustion(records: Seq<NoteView>, times: nat)
    ensures
        advanced(opened(records), times).exhausted == (times >= records.len()),
        advanced(opened(records), times).position == (if times < records.len() {
            times as int + 1
        } else {
            records.len() as int
        }),
        advanced(opened(records), times).records == records,
        advanced(opened(records), times).headers == base_headers(),
    decreases times,
{
    if times > 0 {
        lemma_exhaustion(records, (times - 1) as nat);
    }
}

/// A cursor that has left the rows has left them for good; standing behind
/// the last row, as it does on leaving, it stays as it is.
pub proof fn lemma_exhausted_stays(cursor: CursorView)
    requires
        cursor.exhausted,
    ensures
        advance(cursor).exhausted,
        cursor.position == cursor.records.len() ==> advance(cursor) == cursor,
{
}

/// On a row the two base columns always have their text: the first column
/// reads as the path of the row's note, the second as its contents.
pub proof fn lemma_base_columns_read(cursor: CursorView)
    requires
        cursor.headers == base_headers(),
        on_row(cursor),
    ensures
        column_value(cursor, 0) == Ok::<Option<Seq<char>>, ErrorView>(
            Some(cursor.records[cursor.position - 1].file_path),
        ),
        column_value(cursor, 1) == Ok::<Option<Seq<char>>, ErrorView>(
            Some(cursor.records[cursor.position - 1].file_contents),
        ),
{
    lemma_base_columns_win(cursor.records[cursor.position - 1]);
}

/// A column index that is negative or not below the number of columns is
/// refused, wherever the cursor stands.
pub proof fn lemma_column_bounds(cursor: CursorView, index: int)
    requires
        index < 0 || index >= cursor.headers.len(),
    ensures
        column_value(cursor, index) == Err::<Option<Seq<char>>, ErrorView>(
            ErrorView::ColumnIndexOutOfRange(index),
        ),
{
}

/// A fresh cursor yields every note, in the order of the notes: after `j`
/// steps, `j` below the number of notes, it stands on the row of the note
/// at `j` and reads that note's path and contents.
pub proof fn lemma_rows_in_order(records: Seq<NoteView>, j: nat)
    requires
        j < records.len(),
    ensures
        on_row(advanced(opened(records), j)),
        !advanced(opened(records), j).exhausted,
        advanced(opened(records), j).position == j + 1,
        column_value(advanced(opened(records), j), 0) == Ok::<Option<Seq<char>>, ErrorView>(
            Some(records[j as int].file_path),
        ),
        column_value(advanced(opened(records), j), 1) == Ok::<Option<Seq<char>>, ErrorView>(
            Some(records[j as int].file_contents),
        ),
{
    lemma_exhaustion(records, j);
    lemma_base_columns_read(advanced(opened(records), j));
}

} // verus!
