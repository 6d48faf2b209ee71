use lib::commands::{get_help, get_help_all, write_help, write_help_all, Command, CommandType};
use lib::error::ArgsError;

fn command(cmd: &str, options: &[&str], flags: &[&str]) -> Result<Command, ArgsError> {
    Command::new(cmd, &options.to_vec(), &flags.to_vec())
}

#[test]
fn new_builds_stats_command() {
    let command = command("stats", &[], &[]).unwrap();

    assert!(matches!(command.cmd, CommandType::Stats));
    assert!(!command.case_sensitive);
}

#[test]
fn new_builds_longest_line_command() {
    let command = command("longest-line", &[], &[]).unwrap();

    assert!(matches!(command.cmd, CommandType::Longest));
    assert!(!command.case_sensitive);
}

#[test]
fn new_builds_unique_lines_command() {
    let command = command("unique-lines", &[], &[]).unwrap();

    assert!(matches!(command.cmd, CommandType::Unique));
    assert!(!command.case_sensitive);
}

#[test]
fn new_builds_find_command_with_case_sensitive_default() {
    let command = command("find", &["rust"], &[]).unwrap();

    assert!(matches!(command.cmd, CommandType::Find(pattern) if pattern == "rust"));
    assert!(command.case_sensitive);
}

#[test]
fn new_builds_find_command_with_ignore_case_flag() {
    let command = command("find", &["rust"], &["--ignore-case"]).unwrap();

    assert!(matches!(command.cmd, CommandType::Find(pattern) if pattern == "rust"));
    assert!(!command.case_sensitive);
}

#[test]
fn new_builds_top_words_command() {
    let command = command("top-words", &["5"], &[]).unwrap();

    assert!(matches!(command.cmd, CommandType::Top(count) if count == 5));
    assert!(!command.case_sensitive);
}

#[test]
fn new_builds_filter_lines_command_with_ignore_case_flag() {
    let command = command("filter-lines", &["error"], &["--ignore-case"]).unwrap();

    assert!(matches!(command.cmd, CommandType::Filter(pattern) if pattern == "error"));
    assert!(!command.case_sensitive);
}

#[test]
fn new_builds_replace_command() {
    let command = command("replace", &["old", "new"], &[]).unwrap();

    assert!(
        matches!(command.cmd, CommandType::Replace(pattern, replacement) if pattern == "old" && replacement == "new")
    );
    assert!(!command.case_sensitive);
}

#[test]
fn new_rejects_unknown_command() {
    let error = command("missing", &[], &[]).unwrap_err();

    assert!(matches!(error, ArgsError::Invalid));
}

#[test]
fn new_rejects_commands_missing_required_options() {
    for cmd in ["find", "top-words", "filter-lines", "replace"] {
        let error = command(cmd, &[], &[]).unwrap_err();

        assert!(matches!(error, ArgsError::MissingOption(command) if command.0 == cmd));
    }
}

#[test]
fn new_rejects_replace_with_only_one_option() {
    let error = command("replace", &["old"], &[]).unwrap_err();

    assert!(matches!(error, ArgsError::MissingOption(command) if command.0 == "replace"));
}

#[test]
fn new_rejects_invalid_top_words_count() {
    let error = command("top-words", &["five"], &[]).unwrap_err();

    assert!(matches!(error, ArgsError::InvalidOption(command, param)
            if command.0 == "top-words" && param.0.contains("invalid digit")));
}

#[test]
fn new_reports_top_words_count_errors_like_std() {
    for (text, expected) in [("", "".parse::<usize>()), ("99999999999999999999999", "99999999999999999999999".parse::<usize>()), ("+", "+".parse::<usize>()), ("-3", "-3".parse::<usize>())] {
        let error = command("top-words", &[text], &[]).unwrap_err();
        let std_text = expected.unwrap_err().to_string();
        assert!(matches!(error, ArgsError::InvalidOption(command, param)
                if command.0 == "top-words" && param.0 == std_text));
    }
}

#[test]
fn new_reads_top_words_count_with_plus_sign() {
    let command = command("top-words", &["+12"], &[]).unwrap();
    assert!(matches!(command.cmd, CommandType::Top(12)));
}

#[test]
fn new_ignores_extra_options_and_unknown_flags() {
    let command = command("filter-lines", &["a", "b"], &["--verbose"]).unwrap();
    assert!(matches!(command.cmd, CommandType::Filter(pattern) if pattern == "a"));
    assert!(command.case_sensitive);
}

#[test]
fn describe_matches_display_texts() {
    assert_eq!(command("top-words", &["7"], &[]).unwrap().describe(), "top-7 (case insensitive)");
    assert_eq!(command("find", &["x"], &[]).unwrap().describe(), "find x (case sensitive)");
    assert_eq!(command("replace", &["a", "b"], &[]).unwrap().cmd.describe(), "replace a b");
    assert_eq!(command("stats", &[], &[]).unwrap().cmd.describe(), "stats");
}

#[test]
fn default_command_is_case_insensitive_stats() {
    let command = Command::default();
    assert!(matches!(command.cmd, CommandType::Stats));
    assert!(!command.case_sensitive);
}

#[test]
fn write_help_appends_line_break() {
    let mut out = String::from("> ");
    write_help("find", &mut out);
    assert_eq!(out, "> 'find <pattern>': Find lines containing a specific pattern.\n");
}

#[test]
fn get_help_reports_unsupported_commands() {
    assert_eq!(get_help("nope"), "Unsupported command: nope");
}

#[test]
fn help_all_lists_every_command_in_order() {
    let mut out = String::new();
    write_help_all(&mut out);
    assert_eq!(out, get_help_all());
    let lines: Vec<&str> = out.lines().collect();
    assert_eq!(lines.len(), 8);
    assert_eq!(lines[0], "Available commands:");
    assert_eq!(lines[1], "'stats': Print general statistics about the file.");
    assert_eq!(lines[7], "'replace <pattern> <replacement>': Replace occurrences of a pattern with a replacement.");
    assert!(out.ends_with('\n'));
}
