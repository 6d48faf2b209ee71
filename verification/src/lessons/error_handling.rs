//! Errors as values: parsing numbers and ages, and reading CSV rows.
use vstd::prelude::*;

use crate::text::{self, ParseIntError};

verus! {

/// The value that `s` holds as an `i32`, or why it holds none.
pub open spec fn i32_of(s: Seq<char>) -> Result<int, ParseIntError> {
    match text::parse_int(s, i32::MIN as int, i32::MAX as int) {
        Ok(n) => Ok(n),
        Err(kind) => Err(ParseIntError { kind }),
    }
}

/// Reads `s` as an `i32` and doubles it (written with an explicit `match`).
pub fn parse_and_double_verbose(s: &str) -> (r: Result<i32, ParseIntError>)
    requires
        i32_of(s@) matches Ok(n) ==> i32::MIN <= 2 * n <= i32::MAX,
    ensures
        match i32_of(s@) {
            Ok(n) => r == Ok::<i32, ParseIntError>((2 * n) as i32),
            Err(e) => r == Err::<i32, ParseIntError>(e),
        },
{
    let n = match text::parse_i32(s) {
        Ok(n) => n,
        Err(e) => return Err(e),
    };
    Ok(n * 2)
}

/// Reads `s` as an `i32` and doubles it (written with `?`).
pub fn parse_and_double(s: &str) -> (r: Result<i32, ParseIntError>)
    requires
        i32_of(s@) matches Ok(n) ==> i32::MIN <= 2 * n <= i32::MAX,
    ensures
        match i32_of(s@) {
            Ok(n) => r == Ok::<i32, ParseIntError>((2 * n) as i32),
            Err(e) => r == Err::<i32, ParseIntError>(e),
        },
{
    let n = text::parse_i32(s)?;
    Ok(n * 2)
}

/// Reads two `i32`s and adds them; the first failure is reported.
pub fn parse_sum(a: &str, b: &str) -> (r: Result<i32, ParseIntError>)
    requires
        i32_of(a@) matches Ok(x) ==> (i32_of(b@) matches Ok(y) ==> i32::MIN <= x + y
            <= i32::MAX),
    ensures
        match (i32_of(a@), i32_of(b@)) {
            (Err(e), _) => r == Err::<i32, ParseIntError>(e),
            (Ok(_), Err(e)) => r == Err::<i32, ParseIntError>(e),
            (Ok(x), Ok(y)) => r == Ok::<i32, ParseIntError>((x + y) as i32),
        },
{
    let x = text::parse_i32(a)?;
    let y = text::parse_i32(b)?;
    Ok(x + y)
}

/// Reads two `i32`s and multiplies them; the first failure is reported.
pub fn read_and_parse(s: &str, factor: &str) -> (r: Result<i32, ParseIntError>)
    requires
        i32_of(s@) matches Ok(x) ==> (i32_of(factor@) matches Ok(y) ==> i32::MIN <= x * y
            <= i32::MAX),
    ensures
        match (i32_of(s@), i32_of(factor@)) {
            (Err(e), _) => r == Err::<i32, ParseIntError>(e),
            (Ok(_), Err(e)) => r == Err::<i32, ParseIntError>(e),
            (Ok(x), Ok(y)) => r == Ok::<i32, ParseIntError>((x * y) as i32),
        },
{
    let n = text::parse_i32(s)?;
    let f = text::parse_i32(factor)?;
    Ok(n * f)
}

/// Reads every string of `strings` as an `i32`, in order. All of them must
/// read: the error of the first one that does not is reported.
pub fn parse_all(strings: &[&str]) -> (r: Result<Vec<i32>, ParseIntError>)
    ensures
        (r is Ok) <==> forall|i: int|
            0 <= i < strings@.len() ==> (#[trigger] i32_of(strings@[i]@)) is Ok,
        r matches Ok(v) ==> v@.len() == strings@.len() && forall|i: int|
            0 <= i < v@.len() ==> i32_of(strings@[i]@) == Ok::<int, ParseIntError>(
                #[trigger] v@[i] as int,
            ),
        r matches Err(e) ==> exists|k: int|
            0 <= k < strings@.len() && i32_of(strings@[k]@) == Err::<int, ParseIntError>(e)
                && forall|j: int| 0 <= j < k ==> (#[trigger] i32_of(strings@[j]@)) is Ok,
{
    let mut out: Vec<i32> = Vec::new();
    let mut i: usize = 0;
    while i < strings.len()
        invariant
            i <= strings@.len(),
            out@.len() == i,
            forall|j: int|
                0 <= j < i ==> i32_of(strings@[j]@) == Ok::<int, ParseIntError>(
                    #[trigger] out@[j] as int,
                ),
        decreases strings.len() - i,
    {
        match text::parse_i32(strings[i]) {
            Ok(v) => {
                out.push(v);
            },
            Err(e) => {
                assert forall|j: int| 0 <= j < i implies (#[trigger] i32_of(
                    strings@[j]@,
                )) is Ok by {
                    assert(i32_of(strings@[j]@) == Ok::<int, ParseIntError>(out@[j] as int));
                }
                assert(i32_of(strings@[i as int]@) == Err::<int, ParseIntError>(e));
                return Err(e);
            },
        }
        i = i + 1;
    }
    assert forall|j: int| 0 <= j < strings@.len() implies (#[trigger] i32_of(
        strings@[j]@,
    )) is Ok by {
        assert(i32_of(strings@[j]@) == Ok::<int, ParseIntError>(out@[j] as int));
    }
    Ok(out)
}

/// Reads an `i32`, triples it and reports `result: <value>`.
pub fn process(input: &str) -> (r: Result<String, ParseIntError>)
    requires
        i32_of(input@) matches Ok(n) ==> i32::MIN <= 3 * n <= i32::MAX,
    ensures
        match i32_of(input@) {
            Ok(n) => r matches Ok(out) && out@ == "result: "@ + text::signed_decimal(3 * n),
            Err(e) => r matches Err(f) && f == e,
        },
{
    let n = text::parse_i32(input)?;
    let mut out = String::from_str("result: ");
    let digits = text::i32_to_string(n * 3);
    out.append(digits.as_str());
    Ok(out)
}

/// Why an age could not be read.
#[derive(Debug)]
pub enum ParseAgeError {
    /// The text is not an `i32`.
    NotANumber(ParseIntError),
    /// The age is negative.
    TooYoung,
    /// The age is above 150.
    TooOld,
}

/// The human-readable text of an age error.
pub open spec fn age_error_text(e: ParseAgeError) -> Seq<char> {
    match e {
        ParseAgeError::NotANumber(k) => "invalid number: "@ + text::int_error_text(k.kind),
        ParseAgeError::TooYoung => "age cannot be negative"@,
        ParseAgeError::TooOld => "age cannot be greater than 150"@,
    }
}

impl ParseAgeError {
    /// The human-readable description of this error.
    pub fn message(&self) -> (r: String)
        ensures
            r@ == age_error_text(*self),
    {
        match self {
            ParseAgeError::NotANumber(k) => {
                let mut r = String::from_str("invalid number: ");
                let m = k.message();
                r.append(m.as_str());
                r
            },
            ParseAgeError::TooYoung => String::from_str("age cannot be negative"),
            ParseAgeError::TooOld => String::from_str("age cannot be greater than 150"),
        }
    }
}

/// The age that `s` holds, or why it holds none: not an `i32`, negative, or
/// above 150.
pub open spec fn age_spec(s: Seq<char>) -> Result<u8, ParseAgeError> {
    match i32_of(s) {
        Err(k) => Err(ParseAgeError::NotANumber(k)),
        Ok(n) => if n < 0 {
            Err(ParseAgeError::TooYoung)
        } else if n > 150 {
            Err(ParseAgeError::TooOld)
        } else {
            Ok(n as u8)
        },
    }
}

/// An age is read exactly when the text holds an integer from 0 to 150, and
/// it is that integer; a larger integer is too old, a negative one too young,
/// and text that is no `i32` is not a number.
pub proof fn lemma_age_range(s: Seq<char>)
    ensures
        age_spec(s) matches Ok(a) ==> a <= 150 && i32_of(s) == Ok::<int, ParseIntError>(a as int),
        i32_of(s) matches Ok(n) ==> (0 <= n <= 150 ==> age_spec(s) == Ok::<u8, ParseAgeError>(
            n as u8,
        )),
        i32_of(s) matches Ok(n) && n > 150 ==> age_spec(s) matches Err(ParseAgeError::TooOld),
        i32_of(s) matches Ok(n) && n < 0 ==> age_spec(s) matches Err(ParseAgeError::TooYoung),
        i32_of(s) matches Err(e) ==> age_spec(s) matches Err(ParseAgeError::NotANumber(f)) && f
            == e,
{
}

/// The decimal text of an age from 0 to 150 reads back as that age.
pub proof fn lemma_age_round_trip(age: u8)
    requires
        age <= 150,
    ensures
        age_spec(text::decimal(age as nat)) == Ok::<u8, ParseAgeError>(age),
{
    text::lemma_parse_decimal_round_trip(age as nat, i32::MIN as int, i32::MAX as int);
}

/// Reads an age: an `i32` from 0 to 150.
pub fn parse_age(s: &str) -> (r: Result<u8, ParseAgeError>)
    ensures
        r == age_spec(s@),
        r matches Ok(a) ==> a <= 150,
{
    let n = match text::parse_i32(s) {
        Ok(n) => n,
        Err(k) => return Err(ParseAgeError::NotANumber(k)),
    };
    if n < 0 {
        Err(ParseAgeError::TooYoung)
    } else if n > 150 {
        Err(ParseAgeError::TooOld)
    } else {
        Ok(n as u8)
    }
}

/// Scanning `s` from the left: the fields completed so far and the field
/// being read.
pub open spec fn fields_scan(s: Seq<char>) -> (Seq<Seq<char>>, Seq<char>)
    decreases s.len(),
{
    if s.len() == 0 {
        (seq![], seq![])
    } else {
        let (done, cur) = fields_scan(s.drop_last());
        if s.last() == ',' {
            (done.push(cur), seq![])
        } else {
            (done, cur.push(s.last()))
        }
    }
}

/// The comma-separated fields of `s` (what `split(',')` yields: one more
/// than there are commas).
pub open spec fn fields(s: Seq<char>) -> Seq<Seq<char>> {
    let (done, cur) = fields_scan(s);
    done.push(cur)
}

/// Splits `s` at its commas.
pub fn split_fields(s: &str) -> (out: Vec<String>)
    ensures
        out@.map_values(|f: String| f@) == fields(s@),
{
    let cs = text::chars_of(s);
    let mut out: Vec<String> = Vec::new();
    let mut cur: Vec<char> = Vec::new();
    let mut i: usize = 0;
    while i < cs.len()
        invariant
            i <= cs.len(),
            fields_scan(cs@.take(i as int)) == (out@.map_values(|f: String| f@), cur@),
        decreases cs.len() - i,
    {
        let c = cs[i];
        assert(cs@.take(i + 1).drop_last() =~= cs@.take(i as int));
        assert(cs@.take(i + 1).last() == c);
        if c == ',' {
            let f = text::string_from_chars(&cur);
            out.push(f);
            assert(out@.map_values(|f: String| f@) =~= out@.drop_last().map_values(
                |f: String| f@,
            ).push(cur@));
            cur = Vec::new();
            assert(cur@ =~= Seq::<char>::empty());
        } else {
            cur.push(c);
        }
        i = i + 1;
    }
    assert(cs@.take(cs.len() as int) =~= cs@);
    let f = text::string_from_chars(&cur);
    out.push(f);
    assert(out@.map_values(|f: String| f@) =~= out@.drop_last().map_values(|f: String| f@).push(
        cur@,
    ));
    out
}

/// Why the name and age of a CSV row could not be read.
#[derive(Debug)]
pub enum RowError {
    /// The named field is absent or empty.
    MissingField(String),
    /// The age field does not hold a valid age.
    InvalidAge(ParseAgeError),
}

/// The name, the age and the (unparsed) score of a row `name,age,score`.
#[derive(Debug)]
pub struct RowFields {
    pub name: String,
    pub age: u8,
    pub score: String,
}

/// The field at `i`, or nothing when the row has fewer fields.
pub open spec fn field_at(fs: Seq<Seq<char>>, i: int) -> Seq<char> {
    if i < fs.len() {
        fs[i]
    } else {
        seq![]
    }
}

/// Reads the name, age and score text of a row `name,age,score`: fields
/// are checked in that order, a field is missing when it is absent or empty,
/// and further fields are ignored.
pub fn parse_row_fields(row: &str) -> (r: Result<RowFields, RowError>)
    ensures
        ({
            let fs = fields(row@);
            match r {
                Ok(p) => field_at(fs, 0).len() > 0 && p.name@ == field_at(fs, 0)
                    && field_at(fs, 1).len() > 0 && age_spec(field_at(fs, 1)) == Ok::<
                    u8,
                    ParseAgeError,
                >(p.age) && field_at(fs, 2).len() > 0 && p.score@ == field_at(fs, 2),
                Err(RowError::MissingField(f)) => if field_at(fs, 0).len() == 0 {
                    f@ == "name"@
                } else if field_at(fs, 1).len() == 0 {
                    f@ == "age"@
                } else {
                    age_spec(field_at(fs, 1)) is Ok && field_at(fs, 2).len() == 0 && f@ == "score"@
                },
                Err(RowError::InvalidAge(e)) => field_at(fs, 0).len() > 0 && field_at(fs, 1).len()
                    > 0 && age_spec(field_at(fs, 1)) == Err::<u8, ParseAgeError>(e),
            }
        }),
        r matches Ok(p) ==> p.age <= 150,
{
    let fs = split_fields(row);
    let ghost fv = fs@.map_values(|f: String| f@);
    assert(fv.len() == fs@.len());
    let empty = String::new();
    let name: &String = if fs.len() > 0 { &fs[0] } else { &empty };
    assert(name@ == field_at(fv, 0));
    if name.as_str().is_empty() {
        return Err(RowError::MissingField(String::from_str("name")));
    }
    let age_text: &String = if fs.len() > 1 { &fs[1] } else { &empty };
    assert(age_text@ == field_at(fv, 1));
    if age_text.as_str().is_empty() {
        return Err(RowError::MissingField(String::from_str("age")));
    }
    let age = match parse_age(age_text.as_str()) {
        Ok(a) => a,
        Err(e) => return Err(RowError::InvalidAge(e)),
    };
    let score: &String = if fs.len() > 2 { &fs[2] } else { &empty };
    assert(score@ == field_at(fv, 2));
    if score.as_str().is_empty() {
        return Err(RowError::MissingField(String::from_str("score")));
    }
    Ok(RowFields { name: name.clone(), age, score: score.clone() })
}

} // verus!
