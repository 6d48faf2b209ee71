use lib::text::{
    ends_with, is_whitespace, parse_i32, parse_u32, parse_usize, split_words, starts_with,
    str_eq, trim_str, usize_to_string, IntErrorKind, ParseIntError,
};

#[test]
fn whitespace_agrees_with_std() {
    for u in 0u32..0x3100 {
        if let Some(c) = char::from_u32(u) {
            assert_eq!(is_whitespace(c), c.is_whitespace(), "{:?}", c);
        }
    }
}

#[test]
fn split_words_agrees_with_split_whitespace() {
    for s in ["", "   ", "a", " a  bb\tccc\n", "x\u{85}y", "tail "] {
        let ours: Vec<String> = split_words(s).iter().map(|w| w.iter().collect()).collect();
        let std: Vec<String> = s.split_whitespace().map(|w| w.to_string()).collect();
        assert_eq!(ours, std);
    }
}

#[test]
fn usize_to_string_agrees_with_std() {
    for n in [0usize, 7, 10, 99, 100, 12345, usize::MAX] {
        assert_eq!(usize_to_string(n), n.to_string());
    }
}

#[test]
fn parsing_agrees_with_std() {
    let samples = [
        "", "+", "-", "0", "42", "+42", "-42", "007", "4x2", "x", "2147483647", "2147483648",
        "-2147483648", "-2147483649", "4294967295", "4294967296", "18446744073709551615",
        "18446744073709551616", "99999999999999999999x", "-", "１",
    ];
    for s in samples {
        assert_eq!(parse_usize(s).ok(), s.parse::<usize>().ok(), "{}", s);
        assert_eq!(parse_i32(s).ok(), s.parse::<i32>().ok(), "{}", s);
        assert_eq!(parse_u32(s).ok(), s.parse::<u32>().ok(), "{}", s);
        if let (Err(ours), Err(theirs)) = (parse_i32(s), s.parse::<i32>()) {
            assert_eq!(ours.message(), theirs.to_string(), "{}", s);
            assert_eq!(format!("{:?}", ours), format!("{:?}", theirs), "{}", s);
            assert_eq!(format!("{:?}", ours.kind()), format!("{:?}", theirs.kind()), "{}", s);
        }
        if let (Err(ours), Err(theirs)) = (parse_usize(s), s.parse::<usize>()) {
            assert_eq!(ours.message(), theirs.to_string(), "{}", s);
        }
    }
    assert_eq!(parse_i32("-2147483649"), Err(ParseIntError { kind: IntErrorKind::NegOverflow }));
    assert_eq!(parse_u32("4294967296"), Err(ParseIntError { kind: IntErrorKind::PosOverflow }));
}

#[test]
fn affixes_and_equality() {
    assert!(ends_with("input.txt", ".txt"));
    assert!(!ends_with("txt", ".txt"));
    assert!(starts_with("--ignore-case", "--"));
    assert!(!starts_with("-x", "--"));
    assert!(str_eq("héllo", "héllo"));
    assert!(!str_eq("hello", "hell"));
}

#[test]
fn trim_agrees_with_std() {
    for s in ["", "  ", " a ", "\u{3000}x y\u{2029}", "abc"] {
        assert_eq!(trim_str(s), s.trim());
    }
}

#[test]
fn decimal_text_reads_back() {
    for n in [0usize, 9, 10, 4096, usize::MAX] {
        assert_eq!(parse_usize(&usize_to_string(n)), Ok(n));
    }
    for n in [i32::MIN, -1, 0, 1, i32::MAX] {
        assert_eq!(parse_i32(&n.to_string()), Ok(n));
    }
}

#[test]
fn trimming_twice_changes_nothing() {
    for s in ["  a b  ", "\u{3000}\u{3000}", "x", " \tmixed\u{85}"] {
        let once = trim_str(s);
        assert_eq!(trim_str(&once), once);
    }
}
