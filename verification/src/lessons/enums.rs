//! Enums and pattern matching: a traffic light, match guards, nested
//! patterns, `Option` combinators and a validated newtype.
use vstd::prelude::*;

use crate::text;

verus! {

/// The state of a traffic light.
#[derive(Debug, Clone, Copy, PartialEq, Eq)]
pub enum TrafficLight {
    Red,
    Yellow,
    Green,
}

/// The state after `l`: green, yellow, red, green, ...
pub open spec fn next_light(l: TrafficLight) -> TrafficLight {
    match l {
        TrafficLight::Green => TrafficLight::Yellow,
        TrafficLight::Yellow => TrafficLight::Red,
        TrafficLight::Red => TrafficLight::Green,
    }
}

/// How long a light stays in state `l`, in seconds.
pub open spec fn light_secs(l: TrafficLight) -> int {
    match l {
        TrafficLight::Green => 45,
        TrafficLight::Yellow => 5,
        TrafficLight::Red => 60,
    }
}

impl TrafficLight {
    /// The state that follows this one: green, yellow, red, green, ...
    pub fn next(&self) -> (r: TrafficLight)
        ensures
            r == next_light(*self),
    {
        match self {
            TrafficLight::Green => TrafficLight::Yellow,
            TrafficLight::Yellow => TrafficLight::Red,
            TrafficLight::Red => TrafficLight::Green,
        }
    }

    /// How long the light stays in this state, in seconds.
    pub fn duration_secs(&self) -> (r: u32)
        ensures
            r == light_secs(*self),
    {
        match self {
            TrafficLight::Green => 45,
            TrafficLight::Yellow => 5,
            TrafficLight::Red => 60,
        }
    }

    /// Whether traffic may go.
    pub fn can_go(&self) -> (r: bool)
        ensures
            r == (*self == TrafficLight::Green),
    {
        match self {
            TrafficLight::Green => true,
            _ => false,
        }
    }
}

/// Three steps bring every light back to where it started (and no step
/// leaves it where it is), and a full cycle lasts 110 seconds.
pub proof fn lemma_traffic_light_cycle(light: TrafficLight)
    ensures
        next_light(next_light(next_light(light))) == light,
        next_light(light) != light,
        light_secs(light) + light_secs(next_light(light)) + light_secs(
            next_light(next_light(light)),
        ) == 110,
{
}

/// How long each light lasts, on its own: red 60 seconds, yellow 5 and
/// green 45; so red lasts longest, and only green lets traffic go.
pub proof fn lemma_light_durations(light: TrafficLight)
    ensures
        light == TrafficLight::Red ==> light_secs(light) == 60,
        light == TrafficLight::Yellow ==> light_secs(light) == 5,
        light == TrafficLight::Green ==> light_secs(light) == 45,
        light != TrafficLight::Red ==> light_secs(light) < light_secs(TrafficLight::Red),
{
}

/// The text for a number: its sign class, and the number when it is not zero.
pub open spec fn number_text(n: int) -> Seq<char> {
    if n < 0 {
        "negative: "@ + text::signed_decimal(n)
    } else if n == 0 {
        "zero"@
    } else if n <= 9 {
        "small positive: "@ + text::signed_decimal(n)
    } else {
        "large positive: "@ + text::signed_decimal(n)
    }
}

/// Describes a number with match guards: negative, zero, small positive
/// (1 to 9) or large positive.
pub fn describe_number(n: i32) -> (r: String)
    ensures
        r@ == number_text(n as int),
{
    if n < 0 {
        let mut r = String::from_str("negative: ");
        let d = text::i32_to_string(n);
        r.append(d.as_str());
        r
    } else if n == 0 {
        String::from_str("zero")
    } else if n <= 9 {
        let mut r = String::from_str("small positive: ");
        let d = text::i32_to_string(n);
        r.append(d.as_str());
        r
    } else {
        let mut r = String::from_str("large positive: ");
        let d = text::i32_to_string(n);
        r.append(d.as_str());
        r
    }
}

/// A response: a success with an optional body, or an error with a code.
#[derive(Debug)]
pub enum Response {
    Success(Option<String>),
    Failure { code: u16, message: String },
}

/// The text for a response.
pub open spec fn response_text(r: Response) -> Seq<char> {
    match r {
        Response::Success(Some(body)) => "success: "@ + body@,
        Response::Success(None) => "success: empty"@,
        Response::Failure { code, message } => if code == 404 {
            "not found"@
        } else {
            "error "@ + text::decimal(code as nat) + ": "@ + message@
        },
    }
}

/// Describes a response with nested patterns.
pub fn describe_response(r: &Response) -> (out: String)
    ensures
        out@ == response_text(*r),
{
    match r {
        Response::Success(Some(body)) => {
            let mut out = String::from_str("success: ");
            out.append(body.as_str());
            out
        },
        Response::Success(None) => String::from_str("success: empty"),
        Response::Failure { code: 404, .. } => String::from_str("not found"),
        Response::Failure { code, message } => {
            let mut out = String::from_str("error ");
            let d = text::usize_to_string(*code as usize);
            out.append(d.as_str());
            out.append(": ");
            out.append(message.as_str());
            out
        },
    }
}

/// The user with a given id.
pub open spec fn user_spec(id: u32) -> Option<Seq<char>> {
    if id == 1 {
        Some("Alice"@)
    } else if id == 2 {
        Some("Bob"@)
    } else {
        None
    }
}

/// Looks up a user's name by id.
pub fn find_user(id: u32) -> (r: Option<String>)
    ensures
        match r {
            Some(s) => user_spec(id) == Some(s@),
            None => user_spec(id) is None,
        },
{
    match id {
        1 => Some(String::from_str("Alice")),
        2 => Some(String::from_str("Bob")),
        _ => None,
    }
}

/// The user table holds exactly two users: id 1 is Alice and id 2 is Bob;
/// every other id has none.
pub proof fn lemma_user_table(id: u32)
    ensures
        user_spec(1) == Some("Alice"@),
        user_spec(2) == Some("Bob"@),
        (user_spec(id) is Some) <==> (id == 1 || id == 2),
{
}

/// The email address of a user name.
pub open spec fn email_spec(name: Seq<char>) -> Option<Seq<char>> {
    if name == "Alice"@ {
        Some("alice@example.com"@)
    } else {
        None
    }
}

/// Looks up a user's email address by name.
pub fn find_email(name: &str) -> (r: Option<String>)
    ensures
        match r {
            Some(s) => email_spec(name@) == Some(s@),
            None => email_spec(name@) is None,
        },
{
    if text::str_eq(name, "Alice") {
        Some(String::from_str("alice@example.com"))
    } else {
        None
    }
}

/// Only Alice has an email address, `alice@example.com`; so the user with id
/// 1 has that address and every other id (Bob's among them) has none.
pub proof fn lemma_email_table(name: Seq<char>, id: u32)
    ensures
        email_spec("Alice"@) == Some("alice@example.com"@),
        (email_spec(name) is Some) <==> name == "Alice"@,
        (match user_spec(id) {
            Some(n) => email_spec(n),
            None => None,
        }) == (if id == 1 {
            Some("alice@example.com"@)
        } else {
            None
        }),
{
    reveal_strlit("Alice");
    reveal_strlit("Bob");
    assert("Bob"@ != "Alice"@) by {
        assert("Bob"@[0] != "Alice"@[0]);
    }
}

/// The email address of the user with a given id, or `no email found`.
pub fn email_for_user(id: u32) -> (r: String)
    ensures
        r@ == match user_spec(id) {
            Some(name) => match email_spec(name) {
                Some(e) => e,
                None => "no email found"@,
            },
            None => "no email found"@,
        },
{
    match find_user(id) {
        Some(name) => match find_email(name.as_str()) {
            Some(e) => e,
            None => String::from_str("no email found"),
        },
        None => String::from_str("no email found"),
    }
}

/// The first even number, if any.
pub fn first_even(numbers: &[i32]) -> (r: Option<i32>)
    ensures
        match r {
            Some(v) => exists|i: int|
                0 <= i < numbers@.len() && numbers@[i] == v && v % 2 == 0 && forall|j: int|
                    0 <= j < i ==> #[trigger] numbers@[j] % 2 != 0,
            None => forall|j: int| 0 <= j < numbers@.len() ==> #[trigger] numbers@[j] % 2 != 0,
        },
{
    let mut i: usize = 0;
    while i < numbers.len()
        invariant
            i <= numbers@.len(),
            forall|j: int| 0 <= j < i ==> #[trigger] numbers@[j] % 2 != 0,
        decreases numbers.len() - i,
    {
        if numbers[i] % 2 == 0 {
            return Some(numbers[i]);
        }
        i = i + 1;
    }
    None
}

/// Reads a positive `u32`; `None` for zero or for text that is no `u32`.
pub fn parse_positive(s: &str) -> (r: Option<u32>)
    ensures
        match text::parse_int(s@, 0, u32::MAX as int) {
            Ok(n) => if n > 0 {
                r == Some(n as u32)
            } else {
                r is None
            },
            Err(_) => r is None,
        },
{
    match text::parse_u32(s) {
        Ok(n) => if n > 0 {
            Some(n)
        } else {
            None
        },
        Err(_) => None,
    }
}

/// What std's `char::to_uppercase` yields for `c`.
pub uninterp spec fn uppercase_of(c: char) -> Seq<char>;

/// std's `char::to_uppercase` (Unicode's uppercase mapping, one or more
/// characters), collected into a string. Its result is named `uppercase_of`;
/// the mapping itself (Unicode's tables) is left unstated.
#[verifier::external_body]
fn char_to_uppercase(c: char) -> (r: String)
    ensures
        r@ == uppercase_of(c),
{
    c.to_uppercase().collect()
}

/// The initials of the first and the last word of a name, such as `A.S.`.
pub open spec fn initials_spec(name: Seq<char>) -> Option<Seq<char>> {
    let ws = text::words(name);
    if ws.len() < 2 {
        None
    } else {
        Some(uppercase_of(ws[0][0]) + "."@ + uppercase_of(ws.last()[0]) + "."@)
    }
}

/// The initials of a full name (first and last word), or `None` when the
/// name has fewer than two words.
pub fn initials(full_name: &str) -> (r: Option<String>)
    ensures
        match r {
            Some(s) => initials_spec(full_name@) == Some(s@),
            None => initials_spec(full_name@) is None,
        },
{
    let ws = text::split_words(full_name);
    if ws.len() < 2 {
        return None;
    }
    proof {
        crate::processor::lemma_words_props(full_name@);
        assert(text::views(ws@)[0] == ws@[0]@);
        assert(text::views(ws@)[ws@.len() - 1] == ws@[ws@.len() - 1]@);
    }
    let first = &ws[0];
    let last = &ws[ws.len() - 1];
    let mut r = char_to_uppercase(first[0]);
    r.append(".");
    let tail = char_to_uppercase(last[0]);
    r.append(tail.as_str());
    r.append(".");
    Some(r)
}

/// An age, which is at most 150.
#[derive(Debug, Clone, Copy)]
pub struct Age(u8);

impl Age {
    /// The number of years.
    pub closed spec fn years(&self) -> u8 {
        self.0
    }

    /// An age of `value` years, or an error above 150.
    pub fn new(value: u8) -> (r: Result<Age, String>)
        ensures
            value <= 150 <==> r is Ok,
            r matches Ok(a) ==> a.years() == value,
            r matches Err(e) ==> e@ == "invalide age"@,
    {
        if value <= 150 {
            Ok(Age(value))
        } else {
            Err(String::from_str("invalide age"))
        }
    }

    /// The number of years.
    pub fn value(&self) -> (r: u8)
        ensures
            r == self.years(),
            r <= 150,
    {
        proof {
            use_type_invariant(self);
        }
        self.0
    }

    #[verifier::type_invariant]
    spec fn at_most_150(&self) -> bool {
        self.0 <= 150
    }
}

} // verus!
