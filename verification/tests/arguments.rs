use obsidian_sqlite_vtab::arguments::{
    checked_path, parse_arguments, parse_path, Argument, ConfigOption, ConfigOptionValue,
    ObsidianArguments,
};
use obsidian_sqlite_vtab::VtabError;

fn config(key: &str, value: ConfigOptionValue) -> Result<Argument, String> {
    Ok(Argument::Config(ConfigOption {
        key: key.to_string(),
        value,
    }))
}

fn quoted(text: &str) -> ConfigOptionValue {
    ConfigOptionValue::Quoted(text.to_string())
}

#[test]
fn arguments_without_dirname_are_missing_it() {
    assert_eq!(parse_arguments(Vec::new()), Err(VtabError::MissingArgument));

    let arguments = vec![
        Ok(Argument::Column),
        config("mode", ConfigOptionValue::Bareword("fast".to_string())),
        config("directory", quoted("/")),
        config(" dirname", quoted("/")),
        Ok(Argument::Column),
    ];
    assert_eq!(parse_arguments(arguments), Err(VtabError::MissingArgument));
}

#[test]
fn dirname_of_a_path_that_does_not_exist_is_not_found() {
    let arguments = vec![config("dirname", quoted("/definitely/does/not/exist"))];

    assert_eq!(
        parse_arguments(arguments),
        Err(VtabError::PathNotFound(
            "/definitely/does/not/exist".to_string()
        ))
    );
}

#[test]
fn dirname_of_an_existing_path_is_taken() {
    let arguments = vec![config("dirname", quoted("/"))];

    assert_eq!(
        parse_arguments(arguments),
        Ok(ObsidianArguments {
            dirname: "/".to_string()
        })
    );
}

#[test]
fn dirname_stands_among_other_arguments() {
    let arguments = vec![
        Ok(Argument::Column),
        config("mode", quoted("production")),
        config("dirname", quoted(".")),
        config("state", ConfigOptionValue::Bareword("null".to_string())),
        Ok(Argument::Column),
    ];

    assert_eq!(
        parse_arguments(arguments),
        Ok(ObsidianArguments {
            dirname: ".".to_string()
        })
    );
}

#[test]
fn the_last_dirname_counts() {
    let arguments = vec![config("dirname", quoted("/")), config("dirname", quoted("."))];

    assert_eq!(
        parse_arguments(arguments),
        Ok(ObsidianArguments {
            dirname: ".".to_string()
        })
    );
}

#[test]
fn dirname_must_be_quoted() {
    let bare = vec![config("dirname", ConfigOptionValue::Bareword("/".to_string()))];
    assert_eq!(parse_arguments(bare), Err(VtabError::InvalidConfigValue));

    let parameter = vec![config(
        "dirname",
        ConfigOptionValue::SqliteParameter(":vault".to_string()),
    )];
    assert_eq!(parse_arguments(parameter), Err(VtabError::InvalidConfigValue));
}

#[test]
fn an_argument_that_did_not_parse_fails_with_its_complaint() {
    let arguments = vec![
        Ok(Argument::Column),
        Err("Empty value for key 'dirname'".to_string()),
    ];

    assert_eq!(
        parse_arguments(arguments),
        Err(VtabError::MalformedArgument(
            "Empty value for key 'dirname'".to_string()
        ))
    );
}

#[test]
fn the_first_failure_counts() {
    let arguments = vec![
        config("dirname", quoted("/definitely/does/not/exist")),
        Err("argument is neither a configuration option or column declaration.".to_string()),
        config("dirname", ConfigOptionValue::Bareword("/".to_string())),
    ];
    assert_eq!(
        parse_arguments(arguments),
        Err(VtabError::PathNotFound(
            "/definitely/does/not/exist".to_string()
        ))
    );

    let arguments = vec![
        Err("argument is neither a configuration option or column declaration.".to_string()),
        config("dirname", quoted("/definitely/does/not/exist")),
    ];
    assert_eq!(
        parse_arguments(arguments),
        Err(VtabError::MalformedArgument(
            "argument is neither a configuration option or column declaration.".to_string()
        ))
    );

    let arguments = vec![
        config("dirname", quoted("/")),
        config("dirname", ConfigOptionValue::Bareword("/".to_string())),
    ];
    assert_eq!(parse_arguments(arguments), Err(VtabError::InvalidConfigValue));
}

#[test]
fn a_failure_after_a_good_dirname_still_fails() {
    let arguments = vec![
        config("dirname", quoted("/")),
        Err("Empty value for key 'mode'".to_string()),
    ];

    assert_eq!(
        parse_arguments(arguments),
        Err(VtabError::MalformedArgument(
            "Empty value for key 'mode'".to_string()
        ))
    );
}

#[test]
fn parse_path_looks_the_path_up() {
    assert_eq!(parse_path(quoted("/")), Ok("/".to_string()));
    assert_eq!(
        parse_path(quoted("/definitely/does/not/exist")),
        Err(VtabError::PathNotFound(
            "/definitely/does/not/exist".to_string()
        ))
    );
    assert_eq!(
        parse_path(quoted("")),
        Err(VtabError::PathNotFound("".to_string()))
    );
}

#[test]
fn parse_path_refuses_what_is_not_quoted() {
    assert_eq!(
        parse_path(ConfigOptionValue::Bareword("/".to_string())),
        Err(VtabError::InvalidConfigValue)
    );
    assert_eq!(
        parse_path(ConfigOptionValue::SqliteParameter("@vault".to_string())),
        Err(VtabError::InvalidConfigValue)
    );
}

#[test]
fn checked_path_goes_by_what_was_found() {
    assert_eq!(
        checked_path("vault".to_string(), true),
        Ok("vault".to_string())
    );
    assert_eq!(
        checked_path("vault".to_string(), false),
        Err(VtabError::PathNotFound("vault".to_string()))
    );
}
