use obsidian_sqlite_vtab::{ObsidianCursor, ObsidianNote, Properties, VtabError};

fn note(path: &str, contents: &str) -> ObsidianNote {
    ObsidianNote {
        file_path: path.to_string(),
        file_contents: contents.to_string(),
        properties: None,
    }
}

fn notes(count: usize) -> Vec<ObsidianNote> {
    (1..=count)
        .map(|n| note(&format!("vault/{n}.md"), &format!("note {n}")))
        .collect()
}

#[test]
fn a_cursor_over_nothing_is_at_the_end_at_once() {
    let cursor = ObsidianCursor::new(Vec::new());

    assert!(cursor.eof());
    assert_eq!(cursor.rowid(), 0);
}

#[test]
fn a_fresh_cursor_stands_on_the_first_row() {
    let cursor = ObsidianCursor::new(notes(3));

    assert!(!cursor.eof());
    assert_eq!(cursor.rowid(), 1);
    assert_eq!(cursor.column(0), Ok(Some("vault/1.md".to_string())));
    assert_eq!(cursor.column(1), Ok(Some("note 1".to_string())));
}

#[test]
fn as_many_steps_as_rows_reach_the_end() {
    for count in 0..6usize {
        let mut cursor = ObsidianCursor::new(notes(count));
        for step in 0..count {
            assert!(!cursor.eof(), "{count} rows, {step} steps");
            assert_eq!(cursor.rowid(), step as i64 + 1);
            cursor.next();
        }
        assert!(cursor.eof(), "{count} rows, {count} steps");
        assert_eq!(cursor.rowid(), count as i64);
    }
}

#[test]
fn one_step_fewer_than_rows_does_not_reach_the_end() {
    let mut cursor = ObsidianCursor::new(notes(4));
    cursor.next();
    cursor.next();
    cursor.next();

    assert!(!cursor.eof());
    assert_eq!(cursor.rowid(), 4);
    assert_eq!(cursor.column(0), Ok(Some("vault/4.md".to_string())));
}

#[test]
fn a_cursor_at_the_end_stays_there() {
    let mut cursor = ObsidianCursor::new(notes(2));
    cursor.next();
    cursor.next();
    assert!(cursor.eof());
    assert_eq!(cursor.rowid(), 2);

    cursor.next();
    cursor.next();
    assert!(cursor.eof());
    assert_eq!(cursor.rowid(), 2);

    let mut empty = ObsidianCursor::new(Vec::new());
    empty.next();
    assert!(empty.eof());
    assert_eq!(empty.rowid(), 0);
}

#[test]
fn the_rows_come_in_the_order_of_the_notes() {
    let mut cursor = ObsidianCursor::new(vec![
        note("vault/z.md", "last letter"),
        note("vault/a.md", "first letter"),
    ]);

    assert_eq!(cursor.rowid(), 1);
    assert_eq!(cursor.column(0), Ok(Some("vault/z.md".to_string())));
    assert_eq!(cursor.column(1), Ok(Some("last letter".to_string())));

    cursor.next();
    assert_eq!(cursor.rowid(), 2);
    assert_eq!(cursor.column(0), Ok(Some("vault/a.md".to_string())));
    assert_eq!(cursor.column(1), Ok(Some("first letter".to_string())));
}

#[test]
fn a_column_that_is_not_there_is_out_of_range() {
    let cursor = ObsidianCursor::new(notes(1));

    assert_eq!(cursor.column(2), Err(VtabError::ColumnIndexOutOfRange(2)));
    assert_eq!(cursor.column(3), Err(VtabError::ColumnIndexOutOfRange(3)));
    assert_eq!(
        cursor.column(i32::MAX),
        Err(VtabError::ColumnIndexOutOfRange(i32::MAX))
    );
    assert_eq!(cursor.column(-1), Err(VtabError::ColumnIndexOutOfRange(-1)));
    assert_eq!(
        cursor.column(i32::MIN),
        Err(VtabError::ColumnIndexOutOfRange(i32::MIN))
    );
}

#[test]
fn a_column_out_of_range_fails_at_the_end_too() {
    let cursor = ObsidianCursor::new(Vec::new());

    assert_eq!(cursor.column(2), Err(VtabError::ColumnIndexOutOfRange(2)));
    assert_eq!(cursor.column(-1), Err(VtabError::ColumnIndexOutOfRange(-1)));
}

#[test]
fn a_cursor_on_no_row_reads_nothing() {
    let cursor = ObsidianCursor::new(Vec::new());

    assert_eq!(cursor.column(0), Ok(None));
    assert_eq!(cursor.column(1), Ok(None));
}

#[test]
fn a_cursor_at_the_end_still_reads_the_last_row() {
    let mut cursor = ObsidianCursor::new(notes(2));
    cursor.next();
    cursor.next();

    assert!(cursor.eof());
    assert_eq!(cursor.column(0), Ok(Some("vault/2.md".to_string())));
    assert_eq!(cursor.column(1), Ok(Some("note 2".to_string())));
}

#[test]
fn the_base_columns_read_the_note_itself() {
    let mut properties = Properties::new();
    properties.insert("file_path".to_string(), "somewhere/else.md".to_string());
    properties.insert("file_contents".to_string(), "made up".to_string());
    let cursor = ObsidianCursor::new(vec![ObsidianNote {
        file_path: "vault/a.md".to_string(),
        file_contents: "alpha".to_string(),
        properties: Some(properties),
    }]);

    assert_eq!(cursor.column(0), Ok(Some("vault/a.md".to_string())));
    assert_eq!(cursor.column(1), Ok(Some("alpha".to_string())));
}

#[test]
fn filter_changes_nothing() {
    let mut cursor = ObsidianCursor::new(notes(2));
    cursor.next();
    cursor.filter(1, None);

    assert!(!cursor.eof());
    assert_eq!(cursor.rowid(), 2);
    assert_eq!(cursor.column(0), Ok(Some("vault/2.md".to_string())));

    cursor.filter(7, Some("file_path = 'vault/1.md'"));
    assert_eq!(cursor.rowid(), 2);
    assert_eq!(cursor.column(0), Ok(Some("vault/2.md".to_string())));
}
