use lib::lessons::borrowing::{double_in_place, into_lengths, Cache};
use lib::lessons::enums::{
    describe_number, describe_response, email_for_user, find_email, find_user, first_even,
    initials, parse_positive, Age, Response, TrafficLight,
};
use lib::lessons::error_handling::{
    parse_age, parse_all, parse_and_double, parse_and_double_verbose, parse_row_fields, parse_sum,
    process, read_and_parse,
    split_fields, ParseAgeError, RowError,
};
use lib::lessons::generics::{
    comparison_symbol, first, largest, largest_owned, make_greeting, EventQueue, Pair, Stack,
};
use lib::lessons::lifetimes::{self, first_word_announced, longer, Wrapper};
use lib::lessons::ownership::{
    append_exclamation, count_uppercase, first_word, longest, word_count,
};
use lib::text::{IntErrorKind, ParseIntError};
use std::cell::RefCell;

#[test]
fn ownership_helpers() {
    assert_eq!(word_count("the quick brown fox"), 4);
    assert_eq!(word_count("   "), 0);
    assert_eq!(first_word("the quick brown fox"), "the");
    assert_eq!(first_word("  \tlead trail"), "");
    assert_eq!(first_word("a\tb c"), "a\tb");
    assert_eq!(first_word(""), "");
    assert_eq!(first_word("alone"), "alone");
    let mut s = String::from("hello");
    append_exclamation(&mut s);
    assert_eq!(s, "hello!");
    assert_eq!(count_uppercase("Hello World ÄÖ"), 4);
    assert_eq!(longest("the", "longest"), "longest");
    assert_eq!(longest("abcd", "wxyz"), "wxyz");
    assert_eq!(longest("é", "ab"), "ab");
}

#[test]
fn borrowing_helpers() {
    let lengths = into_lengths(vec![String::from("apple"), String::from("banana"), String::from("é")]);
    assert_eq!(lengths, vec![5, 6, 2]);
    let mut numbers = vec![1, 2, 3, 4, -5];
    double_in_place(&mut numbers);
    assert_eq!(numbers, vec![2, 4, 6, 8, -10]);
}

#[test]
fn cache_computes_once_per_key() {
    let mut cache = Cache::new();
    assert_eq!(cache.size(), 0);
    assert_eq!(cache.get_or_compute("hello"), "[computed: hello]");
    assert_eq!(cache.get_or_compute("hello"), "[computed: hello]");
    assert_eq!(cache.size(), 1);
    assert_eq!(cache.get_or_compute("world"), "[computed: world]");
    assert_eq!(cache.size(), 2);
}

#[test]
fn lifetime_helpers() {
    assert_eq!(lifetimes::first_word("hello world"), "hello");
    assert_eq!(lifetimes::first_word("hello"), "hello");
    assert_eq!(lifetimes::first_word(" x"), "");
    assert_eq!(longer("short", "longer one"), "longer one");
    assert_eq!(longer("same", "size"), "same");
    assert_eq!(lifetimes::longest("same", "size"), "size");
    assert_eq!(first_word_announced("Rust is great", "new version released"), "Rust");
    let w = Wrapper { value: "hello" };
    assert_eq!(w.get(), "hello");
}

#[test]
fn generic_functions() {
    assert_eq!(first(&[1, 2, 3]), Some(&1));
    assert_eq!(first::<i32>(&[]), None);
    assert_eq!(largest(&[3, 1, 4, 1, 5, 9, 2, 6]), Some(&9));
    assert_eq!(largest(&["banana", "apple", "cherry"]), Some(&"cherry"));
    assert_eq!(largest::<i32>(&[]), None);
    assert_eq!(largest_owned(&[3, 1, 4, 1, 5, 9]), Some(9));
    assert_eq!(comparison_symbol(&3, &2), ">");
    assert_eq!(comparison_symbol(&"apple", &"banana"), "<");
    assert_eq!(comparison_symbol(&42, &42), "==");
    assert_eq!(make_greeting("world"), "hello world");
}

#[test]
fn largest_returns_the_last_of_equal_maxima() {
    let list = [(1, 'a'), (1, 'b')];
    let pairs: Vec<Pair<i32>> = vec![Pair::new(1, 1)];
    assert_eq!(pairs[0].largest(), None);
    let keyed = [2, 7, 7];
    let r = largest(&keyed).unwrap();
    assert!(std::ptr::eq(r, &keyed[2]));
    assert_eq!(list.len(), 2);
}

#[test]
fn pair_largest() {
    assert_eq!(Pair::new(1, 2).largest(), Some(&2));
    assert_eq!(Pair::new("world", "hello").largest(), Some(&"world"));
    assert_eq!(Pair::new(5, 5).largest(), None);
    assert_eq!(*Pair::new(5, 5).largest_or_first(), 5);
    assert_eq!(*Pair::new(1, 2).largest_or_first(), 2);
}

#[test]
fn stack_is_last_in_first_out() {
    let mut stack: Stack<i32> = Stack::new();
    assert!(stack.is_empty());
    stack.push(1);
    stack.push(2);
    stack.push(3);
    assert_eq!(stack.peek(), Some(&3));
    assert_eq!(stack.pop(), Some(3));
    assert_eq!(stack.peek(), Some(&2));
    assert_eq!(stack.size(), 2);
    assert!(!stack.is_empty());
    assert_eq!(stack.pop(), Some(2));
    assert_eq!(stack.pop(), Some(1));
    assert_eq!(stack.pop(), None);
}

#[test]
fn event_queue_is_first_in_first_out() {
    let seen = RefCell::new(Vec::new());
    let mut queue: EventQueue<i32> = EventQueue::new();
    queue.push(10);
    queue.push(20);
    queue.push(30);
    assert_eq!(queue.peek(), Some(&10));
    assert!(queue.process_next(|e| seen.borrow_mut().push(e)));
    assert_eq!(queue.total_processed(), 1);
    assert_eq!(queue.len(), 2);
    queue.drain(|e| seen.borrow_mut().push(e));
    assert_eq!(queue.total_processed(), 3);
    assert_eq!(queue.len(), 0);
    assert!(!queue.process_next(|e| seen.borrow_mut().push(e)));
    assert_eq!(*seen.borrow(), vec![10, 20, 30]);
}

#[test]
fn question_mark_helpers() {
    assert_eq!(parse_and_double("5"), Ok(10));
    assert_eq!(parse_and_double("abc"), Err(ParseIntError { kind: IntErrorKind::InvalidDigit }));
    assert_eq!(parse_and_double_verbose("-7"), Ok(-14));
    assert_eq!(parse_sum("3", "4"), Ok(7));
    assert_eq!(parse_sum("3", "abc"), Err(ParseIntError { kind: IntErrorKind::InvalidDigit }));
    assert_eq!(parse_sum("", "abc"), Err(ParseIntError { kind: IntErrorKind::Empty }));
    assert_eq!(process("5"), Ok("result: 15".to_string()));
    assert_eq!(process("-5"), Ok("result: -15".to_string()));
    assert_eq!(process("bad"), Err(ParseIntError { kind: IntErrorKind::InvalidDigit }));
}

#[test]
fn ages() {
    assert!(matches!(parse_age("25"), Ok(25)));
    assert!(matches!(parse_age("0"), Ok(0)));
    assert!(matches!(parse_age("150"), Ok(150)));
    assert!(matches!(parse_age("-5"), Err(ParseAgeError::TooYoung)));
    assert!(matches!(parse_age("200"), Err(ParseAgeError::TooOld)));
    assert!(matches!(parse_age("abc"), Err(ParseAgeError::NotANumber(ParseIntError { kind: IntErrorKind::InvalidDigit }))));
    assert_eq!(parse_age("abc").unwrap_err().message(), "invalid number: invalid digit found in string");
    assert_eq!(ParseAgeError::TooYoung.message(), "age cannot be negative");
    assert_eq!(ParseAgeError::TooOld.message(), "age cannot be greater than 150");
}

#[test]
fn csv_rows() {
    let row = parse_row_fields("Alice,30,95.5").unwrap();
    assert_eq!((row.name.as_str(), row.age, row.score.as_str()), ("Alice", 30, "95.5"));
    assert!(matches!(parse_row_fields("Charlie,abc,70.0"), Err(RowError::InvalidAge(ParseAgeError::NotANumber(_)))));
    assert!(matches!(parse_row_fields("Eve"), Err(RowError::MissingField(f)) if f == "age"));
    assert!(matches!(parse_row_fields(",1,2"), Err(RowError::MissingField(f)) if f == "name"));
    assert!(matches!(parse_row_fields("Bob,25"), Err(RowError::MissingField(f)) if f == "score"));
    assert!(matches!(parse_row_fields("Frank,200,80.0"), Err(RowError::InvalidAge(ParseAgeError::TooOld))));
    assert!(matches!(parse_row_fields("Grace,-1,90.0"), Err(RowError::InvalidAge(ParseAgeError::TooYoung))));
    assert_eq!(split_fields("a,,b,"), vec!["a", "", "b", ""]);
    assert_eq!(split_fields(""), vec![""]);
}

#[test]
fn traffic_light_cycles() {
    let mut light = TrafficLight::Red;
    let mut total = 0;
    for _ in 0..3 {
        total += light.duration_secs();
        light = light.next();
    }
    assert_eq!(light, TrafficLight::Red);
    assert_eq!(total, 110);
    assert!(TrafficLight::Green.can_go());
    assert!(!TrafficLight::Yellow.can_go());
    assert_eq!(TrafficLight::Green.next(), TrafficLight::Yellow);
}

#[test]
fn match_guards_and_nested_patterns() {
    let texts: Vec<String> = [1i32, -3, 0, 7, -1, 42, -100].iter().map(|n| describe_number(*n)).collect();
    assert_eq!(texts, vec!["small positive: 1", "negative: -3", "zero", "small positive: 7", "negative: -1", "large positive: 42", "negative: -100"]);
    assert_eq!(describe_number(i32::MIN), format!("negative: {}", i32::MIN));
    assert_eq!(describe_response(&Response::Success(Some("data".to_string()))), "success: data");
    assert_eq!(describe_response(&Response::Success(None)), "success: empty");
    assert_eq!(describe_response(&Response::Failure { code: 404, message: "not found".to_string() }), "not found");
    assert_eq!(describe_response(&Response::Failure { code: 500, message: "server error".to_string() }), "error 500: server error");
}

#[test]
fn option_combinators() {
    assert_eq!(find_user(1).as_deref(), Some("Alice"));
    assert_eq!(find_user(99), None);
    assert_eq!(find_email("Bob"), None);
    assert_eq!(email_for_user(1), "alice@example.com");
    assert_eq!(email_for_user(2), "no email found");
    assert_eq!(email_for_user(99), "no email found");
    assert_eq!(first_even(&[1, 3, 4, 6]), Some(4));
    assert_eq!(first_even(&[1, 3, 5]), None);
    assert_eq!(first_even(&[-2]), Some(-2));
    assert_eq!(parse_positive("42"), Some(42));
    assert_eq!(parse_positive("0"), None);
    assert_eq!(parse_positive("abc"), None);
    assert_eq!(initials("Alice Smith"), Some("A.S.".to_string()));
    assert_eq!(initials("Madonna"), None);
    assert_eq!(initials("mary jane watson"), Some("M.W.".to_string()));
    assert_eq!(initials("émile ßrown"), Some("É.SS.".to_string()));
}

#[test]
fn validated_age() {
    assert_eq!(Age::new(25).unwrap().value(), 25);
    assert_eq!(Age::new(0).unwrap().value(), 0);
    assert_eq!(Age::new(200).unwrap_err(), "invalide age");
}

#[test]
fn age_text_reads_back() {
    for a in [0u8, 1, 99, 150] {
        assert!(matches!(parse_age(&a.to_string()), Ok(v) if v == a));
    }
}

#[test]
fn pushing_does_not_overtake_waiting_events() {
    let mut queue: EventQueue<&str> = EventQueue::new();
    queue.push("first");
    queue.push("second");
    assert_eq!(queue.peek(), Some(&"first"));
    assert_eq!(queue.get(1), &"second");
    let seen = RefCell::new(Vec::new());
    queue.process_next(|e| seen.borrow_mut().push(e));
    queue.push("third");
    queue.drain(|e| seen.borrow_mut().push(e));
    assert_eq!(*seen.borrow(), vec!["first", "second", "third"]);
}

#[test]
fn collecting_parsed_numbers() {
    assert_eq!(parse_all(&["1", "2", "3"]), Ok(vec![1, 2, 3]));
    assert_eq!(parse_all(&["1", "2", "three", "4"]), Err(ParseIntError { kind: IntErrorKind::InvalidDigit }));
    assert_eq!(parse_all(&["1", "", "x"]), Err(ParseIntError { kind: IntErrorKind::Empty }));
    assert_eq!(parse_all(&["-7", "99999999999"]), Err(ParseIntError { kind: IntErrorKind::PosOverflow }));
    assert_eq!(parse_all(&[]), Ok(vec![]));
}

#[test]
fn multiplying_parsed_numbers() {
    assert_eq!(read_and_parse("6", "7"), Ok(42));
    assert_eq!(read_and_parse("-6", "7"), Ok(-42));
    assert_eq!(read_and_parse("abc", "7"), Err(ParseIntError { kind: IntErrorKind::InvalidDigit }));
    assert_eq!(read_and_parse("6", "xyz"), Err(ParseIntError { kind: IntErrorKind::InvalidDigit }));
    assert_eq!(read_and_parse("", "xyz"), Err(ParseIntError { kind: IntErrorKind::Empty }));
}

#[test]
fn comparison_symbol_of_incomparable_values() {
    assert_eq!(comparison_symbol(&1, &2), "<");
    assert_eq!(comparison_symbol(&f64::NAN, &1.0), "==");
}

#[test]
fn parse_errors_read_like_std() {
    assert_eq!(
        format!("{:?}", parse_and_double("abc")),
        format!("{:?}", "abc".parse::<i32>().map(|n| n * 2))
    );
    assert_eq!(
        format!("{:?}", parse_age("abc")),
        format!("Err(NotANumber({:?}))", "abc".parse::<i32>().unwrap_err())
    );
}
