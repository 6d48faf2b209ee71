use lib::commands::CommandType;
use lib::config::{get_config_help_msg, Config};
use lib::error::{ArgsError, InvalidParam, ValidCommand};

fn args(values: &[&str]) -> Vec<String> {
    values.iter().map(|value| value.to_string()).collect()
}

#[test]
fn new_builds_config_from_command_only_args() {
    let config = Config::new(&args(&["stats"])).unwrap();

    assert!(config.file_name.is_none());
    assert!(matches!(config.command.cmd, CommandType::Stats));
    assert!(!config.command.case_sensitive);
}

#[test]
fn new_accepts_file_name_before_command() {
    let config = Config::new(&args(&["input.txt", "longest-line"])).unwrap();

    assert_eq!(config.file_name, Some("input.txt".to_string()));
    assert!(matches!(config.command.cmd, CommandType::Longest));
}

#[test]
fn new_passes_options_and_flags_to_command_parser() {
    let config = Config::new(&args(&["find", "Rust", "--ignore-case"])).unwrap();

    assert!(config.file_name.is_none());
    assert!(!config.command.case_sensitive);
    assert!(matches!(config.command.cmd, CommandType::Find(pattern) if pattern == "Rust"));
}

#[test]
fn new_rejects_file_name_after_command() {
    let error = Config::new(&args(&["stats", "input.txt"])).unwrap_err();

    assert!(matches!(error, ArgsError::Invalid));
}

#[test]
fn new_returns_command_parser_errors() {
    let error = Config::new(&args(&["find"])).unwrap_err();

    assert!(matches!(error, ArgsError::MissingOption(command) if command.0 == "find"));
}

#[test]
fn new_rejects_empty_args() {
    let error = Config::new(&args(&[])).unwrap_err();

    assert!(matches!(error, ArgsError::NoArgs));
}

#[test]
fn new_rejects_file_name_without_command() {
    let error = Config::new(&args(&["input.txt"])).unwrap_err();

    assert!(matches!(error, ArgsError::MissingCmd));
}

#[test]
fn new_reads_options_after_file_and_command() {
    let config = Config::new(&args(&["notes.txt", "replace", "--ignore-case", "old", "new"])).unwrap();

    assert_eq!(config.file_name, Some("notes.txt".to_string()));
    assert!(matches!(config.command.cmd, CommandType::Replace(a, b) if a == "old" && b == "new"));
}

#[test]
fn new_rejects_second_file_name() {
    let error = Config::new(&args(&["a.txt", "stats", "b.txt"])).unwrap_err();

    assert!(matches!(error, ArgsError::Invalid));
}

#[test]
fn new_reports_invalid_count_after_file() {
    let error = Config::new(&args(&["a.txt", "top-words", "ten"])).unwrap_err();

    assert!(matches!(error, ArgsError::InvalidOption(c, p)
            if c.0 == "top-words" && p.0 == "invalid digit found in string"));
}

#[test]
fn get_config_help_msg_returns_all_help_for_general_argument_errors() {
    for err in [ArgsError::Invalid, ArgsError::NoArgs, ArgsError::MissingCmd] {
        let msg = get_config_help_msg(err);

        assert!(msg.starts_with("Arguments pattern: <file> <command> [options]\n"));
        assert!(msg.contains("Available commands:\n"));
        assert!(msg.contains("'stats': Print general statistics about the file.\n"));
        assert!(
            msg.contains(
                "'replace <pattern> <replacement>': Replace occurrences of a pattern with a replacement.\n"
            )
        );
    }
}

#[test]
fn get_config_help_msg_returns_command_help_for_missing_option() {
    let msg = get_config_help_msg(ArgsError::MissingOption(ValidCommand("find".to_string())));

    assert_eq!(
        msg,
        "Arguments pattern: <file> <command> [options]\n\
         'find <pattern>': Find lines containing a specific pattern."
    );
}

#[test]
fn get_config_help_msg_returns_command_help_for_invalid_option() {
    let msg = get_config_help_msg(ArgsError::InvalidOption(
        ValidCommand("top-words".to_string()),
        InvalidParam("invalid digit".to_string()),
    ));

    assert_eq!(
        msg,
        "Arguments pattern: <file> <command> [options]\n\
         'top-words <count>': Print the top N most frequent words in the file."
    );
}

#[test]
fn args_error_messages_match_display_texts() {
    assert_eq!(ArgsError::NoArgs.message(), "one argument required");
    assert_eq!(ArgsError::Invalid.message(), "invalid argument");
    assert_eq!(ArgsError::MissingCmd.message(), "command required");
    assert_eq!(
        ArgsError::MissingOption(ValidCommand("find".to_string())).message(),
        "Option required for command: find"
    );
    assert_eq!(
        ArgsError::InvalidOption(
            ValidCommand("top-words".to_string()),
            InvalidParam("bad".to_string())
        )
        .message(),
        "invalid Option for command: top-words param: bad"
    );
}
