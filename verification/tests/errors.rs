use obsidian_sqlite_vtab::VtabError;

#[test]
fn a_missing_dirname_says_how_to_give_one() {
    assert_eq!(
        VtabError::MissingArgument.message(),
        "no dirname given. Specify a path to a directory containing an obsidian vault to read from. E.g. 'dirname=\"my_vault\"'"
    );
}

#[test]
fn an_unquoted_dirname_says_to_quote_it() {
    assert_eq!(
        VtabError::InvalidConfigValue.message(),
        "'dirname' value must be a string. Wrap in single or double quotes."
    );
}

#[test]
fn a_malformed_argument_says_what_the_parser_said() {
    assert_eq!(
        VtabError::MalformedArgument("Empty value for key 'dirname'".to_string()).message(),
        "Empty value for key 'dirname'"
    );
}

#[test]
fn a_path_not_found_names_the_path() {
    assert_eq!(
        VtabError::PathNotFound("/definitely/does/not/exist".to_string()).message(),
        "dir '/definitely/does/not/exist' does not exist"
    );
}

#[test]
fn a_failed_read_says_why() {
    let error = VtabError::IoFailure {
        path: "vault/a.md".to_string(),
        reason: "permission denied".to_string(),
    };

    assert_eq!(error.message(), "permission denied");
}

#[test]
fn a_column_out_of_range_names_the_index() {
    assert_eq!(
        VtabError::ColumnIndexOutOfRange(2).message(),
        "column index out of bounds: 2"
    );
    assert_eq!(
        VtabError::ColumnIndexOutOfRange(-1).message(),
        "column index out of bounds: -1"
    );
    assert_eq!(
        VtabError::ColumnIndexOutOfRange(120).message(),
        "column index out of bounds: 120"
    );
}
