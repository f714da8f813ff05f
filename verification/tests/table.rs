use obsidian_sqlite_vtab::arguments::{Argument, ConfigOption, ConfigOptionValue};
use obsidian_sqlite_vtab::notes::ScannedEntry;
use obsidian_sqlite_vtab::table::ScanPlan;
use obsidian_sqlite_vtab::{ObsidianNotesTable, VtabError};

const BASE_SCHEMA: &str = "CREATE TABLE x(\n    \"file_contents\" TEXT,\n    \"file_path\" TEXT\n);";

fn dirname(path: &str) -> Result<Argument, String> {
    Ok(Argument::Config(ConfigOption {
        key: "dirname".to_string(),
        value: ConfigOptionValue::Quoted(path.to_string()),
    }))
}

fn file(path: &str, extension: &str, contents: Result<&str, &str>) -> ScannedEntry {
    ScannedEntry {
        path: path.to_string(),
        extension: Some(extension.to_string()),
        is_file: true,
        contents: contents.map(str::to_string).map_err(str::to_string),
    }
}

#[test]
fn connect_declares_the_base_schema() {
    let (schema, table) = match ObsidianNotesTable::connect(vec![dirname("/")]) {
        Ok(made) => made,
        Err(error) => panic!("the table should be made: {error:?}"),
    };

    assert_eq!(schema, BASE_SCHEMA);
    assert_eq!(table.path(), "/");
}

#[test]
fn create_is_connect() {
    let (schema, table) = match ObsidianNotesTable::create(vec![Ok(Argument::Column), dirname(".")])
    {
        Ok(made) => made,
        Err(error) => panic!("the table should be made: {error:?}"),
    };

    assert_eq!(schema, BASE_SCHEMA);
    assert_eq!(table.path(), ".");

    match ObsidianNotesTable::create(Vec::new()) {
        Ok(_) => panic!("no table without a directory"),
        Err(error) => assert_eq!(error, VtabError::MissingArgument),
    }
}

#[test]
fn connect_fails_as_the_arguments_do() {
    match ObsidianNotesTable::connect(Vec::new()) {
        Ok(_) => panic!("no table without a directory"),
        Err(error) => assert_eq!(error, VtabError::MissingArgument),
    }

    match ObsidianNotesTable::connect(vec![dirname("/definitely/does/not/exist")]) {
        Ok(_) => panic!("no table over a directory that is not there"),
        Err(error) => assert_eq!(
            error,
            VtabError::PathNotFound("/definitely/does/not/exist".to_string())
        ),
    }

    match ObsidianNotesTable::connect(vec![Err("Empty value for key 'dirname'".to_string())]) {
        Ok(_) => panic!("no table from an argument that did not parse"),
        Err(error) => assert_eq!(
            error,
            VtabError::MalformedArgument("Empty value for key 'dirname'".to_string())
        ),
    }
}

#[test]
fn the_plan_is_always_a_full_scan() {
    let (_, table) = match ObsidianNotesTable::connect(vec![dirname("/")]) {
        Ok(made) => made,
        Err(error) => panic!("the table should be made: {error:?}"),
    };

    assert_eq!(
        table.best_index(),
        ScanPlan {
            estimated_cost: 10000,
            estimated_rows: 10000,
            index_number: 1,
        }
    );
}

#[test]
fn destroy_has_nothing_to_do() {
    let (_, table) = match ObsidianNotesTable::connect(vec![dirname("/")]) {
        Ok(made) => made,
        Err(error) => panic!("the table should be made: {error:?}"),
    };

    assert_eq!(table.destroy(), Ok(()));
}

#[test]
fn open_gives_a_cursor_over_the_notes() {
    let (_, mut table) = match ObsidianNotesTable::connect(vec![dirname("/")]) {
        Ok(made) => made,
        Err(error) => panic!("the table should be made: {error:?}"),
    };

    let entries = vec![
        file("/a.md", "md", Ok("alpha")),
        file("/b.txt", "txt", Ok("not a note")),
        file("/c.md", "md", Ok("gamma")),
    ];
    let mut cursor = match table.open(entries) {
        Ok(cursor) => cursor,
        Err(error) => panic!("the cursor should open: {error:?}"),
    };

    assert!(!cursor.eof());
    assert_eq!(cursor.rowid(), 1);
    assert_eq!(cursor.column(0), Ok(Some("/a.md".to_string())));
    assert_eq!(cursor.column(1), Ok(Some("alpha".to_string())));
    cursor.next();
    assert!(!cursor.eof());
    assert_eq!(cursor.rowid(), 2);
    assert_eq!(cursor.column(0), Ok(Some("/c.md".to_string())));
    assert_eq!(cursor.column(1), Ok(Some("gamma".to_string())));
    cursor.next();
    assert!(cursor.eof());
    assert_eq!(table.path(), "/");
}

#[test]
fn open_over_no_notes_gives_a_cursor_at_the_end() {
    let (_, mut table) = match ObsidianNotesTable::connect(vec![dirname("/")]) {
        Ok(made) => made,
        Err(error) => panic!("the table should be made: {error:?}"),
    };

    let cursor = match table.open(vec![file("/b.txt", "txt", Ok("not a note"))]) {
        Ok(cursor) => cursor,
        Err(error) => panic!("the cursor should open: {error:?}"),
    };

    assert!(cursor.eof());
    assert_eq!(cursor.rowid(), 0);
}

#[test]
fn open_fails_as_the_scan_does() {
    let (_, mut table) = match ObsidianNotesTable::connect(vec![dirname("/")]) {
        Ok(made) => made,
        Err(error) => panic!("the table should be made: {error:?}"),
    };

    let entries = vec![
        file("/a.md", "md", Ok("alpha")),
        file("/b.md", "md", Err("permission denied")),
    ];
    match table.open(entries) {
        Ok(_) => panic!("no cursor over a note that cannot be read"),
        Err(error) => assert_eq!(
            error,
            VtabError::IoFailure {
                path: "/b.md".to_string(),
                reason: "permission denied".to_string(),
            }
        ),
    }
}

#[test]
fn each_cursor_has_its_own_scan() {
    let (_, mut table) = match ObsidianNotesTable::connect(vec![dirname("/")]) {
        Ok(made) => made,
        Err(error) => panic!("the table should be made: {error:?}"),
    };

    let mut first = match table.open(vec![file("/a.md", "md", Ok("alpha"))]) {
        Ok(cursor) => cursor,
        Err(error) => panic!("the cursor should open: {error:?}"),
    };
    let second = match table.open(vec![
        file("/a.md", "md", Ok("alpha, changed")),
        file("/b.md", "md", Ok("beta")),
    ]) {
        Ok(cursor) => cursor,
        Err(error) => panic!("the cursor should open: {error:?}"),
    };

    first.next();
    assert!(first.eof());
    assert!(!second.eof());
    assert_eq!(first.column(1), Ok(Some("alpha".to_string())));
    assert_eq!(second.column(1), Ok(Some("alpha, changed".to_string())));
}
