use lib::commands::{Command, CommandType};
use lib::error::ProcessError;
use lib::processor::{process_contents, process_lines, Results, Stats};
use lib::text::file_lines;

fn text(lines: &[&str]) -> Vec<String> {
    lines.iter().map(|line| line.to_string()).collect()
}

#[test]
fn new_counts_lines_words_characters_and_unique_words() {
    let input = text(&["Rust is fast", "Rust is memory-safe"]);

    let stats = Stats::new(&input);

    assert_eq!(stats.line_count, 2);
    assert_eq!(stats.word_count, 6);
    assert_eq!(stats.char_count, 27);
    assert_eq!(stats.unique_words, 4);
}

#[test]
fn new_counts_blank_and_whitespace_only_lines_without_words() {
    let input = text(&["", "   ", "\t"]);

    let stats = Stats::new(&input);

    assert_eq!(stats.line_count, 3);
    assert_eq!(stats.word_count, 0);
    assert_eq!(stats.char_count, 0);
    assert_eq!(stats.unique_words, 0);
}

#[test]
fn print_results_formats_stats_summary() {
    let stats = Stats {
        line_count: 2,
        word_count: 4,
        char_count: 19,
        unique_words: 4,
    };

    assert_eq!(
        stats.print_results(),
        "Lines: 2\nWords: 4\nCharacters: 19\nUnique words: 4"
    );
}

#[test]
fn new_treats_unicode_white_space_as_separator() {
    let input = text(&["a\u{3000}b\u{a0}c  a", "ünï cödé"]);

    let stats = Stats::new(&input);

    assert_eq!(stats.word_count, 6);
    assert_eq!(stats.char_count, 3 + 1 + 3 + 4);
    assert_eq!(stats.unique_words, 5);
}

#[test]
fn stats_counts_agree_with_std_splitting() {
    let input = text(&["the quick brown fox", " jumps over\tthe lazy dog ", "", "the end"]);
    let words: Vec<&str> = input.iter().flat_map(|l| l.split_whitespace()).collect();
    let mut distinct = words.clone();
    distinct.sort();
    distinct.dedup();

    let stats = Stats::new(&input);

    assert_eq!(stats.word_count, words.len());
    assert_eq!(stats.char_count, words.iter().map(|w| w.chars().count()).sum::<usize>());
    assert_eq!(stats.unique_words, distinct.len());
    assert!(stats.unique_words <= stats.word_count && stats.word_count <= stats.char_count);
}

#[test]
fn process_lines_prefixes_file_name() {
    let command = Command { cmd: CommandType::Stats, case_sensitive: false };
    let out = process_lines(Some("input.txt"), &text(&["one two", "two"]), &command).unwrap();

    assert_eq!(out, "File: input.txt\nLines: 2\nWords: 3\nCharacters: 9\nUnique words: 2");
}

#[test]
fn process_lines_without_file_name_gives_only_stats() {
    let command = Command::default();
    let out = process_lines(None, &text(&["x"]), &command).unwrap();

    assert_eq!(out, "Lines: 1\nWords: 1\nCharacters: 1\nUnique words: 1");
}

#[test]
fn process_lines_refuses_empty_input() {
    let command = Command::default();
    let err = process_lines(None, &Vec::new(), &command).unwrap_err();

    assert!(matches!(err, ProcessError::NoText));
}

#[test]
fn file_lines_split_and_trim_like_std() {
    for contents in ["  a b \r\nc\n\n  d  ", "", "\n", "x\n", "one\r\ntwo\r\n", " \u{2003}lead\ttrail\u{a0}\n"] {
        let expected: Vec<String> = contents.lines().map(|s| s.trim().to_owned()).collect();
        assert_eq!(file_lines(contents), expected);
    }
}

#[test]
fn process_contents_reports_the_trimmed_lines_of_a_file() {
    let command = Command { cmd: CommandType::Stats, case_sensitive: false };
    let out = process_contents(Some("notes.txt"), "  one two \r\ntwo\n", &command).unwrap();

    assert_eq!(out, "File: notes.txt\nLines: 2\nWords: 3\nCharacters: 9\nUnique words: 2");
}

#[test]
fn process_contents_refuses_an_empty_file() {
    let command = Command::default();
    let err = process_contents(Some("empty.txt"), "", &command).unwrap_err();

    assert!(matches!(err, ProcessError::NoText));
}

#[test]
fn process_contents_counts_blank_lines() {
    let command = Command::default();
    let out = process_contents(None, "\n\n", &command).unwrap();

    assert_eq!(out, "Lines: 2\nWords: 0\nCharacters: 0\nUnique words: 0");
}
