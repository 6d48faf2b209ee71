//! Character-level text helpers: whitespace, word splitting, comparisons,
//! decimal formatting and decimal parsing.
use vstd::prelude::*;

verus! {

/// The natural number that a `usize` holds.
pub open spec fn nat_of(n: usize) -> nat {
    n as nat
}

// ---------------------------------------------------------------------------
// Characters
// ---------------------------------------------------------------------------

/// The Unicode `White_Space` property, the set that `char::is_whitespace` tests.
pub open spec fn is_white(c: char) -> bool {
    let u = c as u32;
    ||| 0x9 <= u <= 0xd
    ||| u == 0x20
    ||| u == 0x85
    ||| u == 0xa0
    ||| u == 0x1680
    ||| 0x2000 <= u <= 0x200a
    ||| u == 0x2028
    ||| u == 0x2029
    ||| u == 0x202f
    ||| u == 0x205f
    ||| u == 0x3000
}

/// Whether `c` is a Unicode white-space character.
pub fn is_whitespace(c: char) -> (r: bool)
    ensures
        r == is_white(c),
{
    let u = c as u32;
    (0x9 <= u && u <= 0xd) || u == 0x20 || u == 0x85 || u == 0xa0 || u == 0x1680 || (0x2000 <= u
        && u <= 0x200a) || u == 0x2028 || u == 0x2029 || u == 0x202f || u == 0x205f || u == 0x3000
}

/// Collects the characters of a string slice in order.
pub fn chars_of(s: &str) -> (out: Vec<char>)
    ensures
        out@ == s@,
{
    let mut out: Vec<char> = Vec::new();
    for c in it: s.chars()
        invariant
            out@ == it.seq().take(it.index() as int),
    {
        out.push(c);
    }
    out
}

/// Appends one character to a `String` (std's `String::push`): the new
/// contents are the old contents followed by `c`.
#[verifier::external_body]
pub(crate) fn push_char(s: &mut String, c: char)
    ensures
        final(s)@ == old(s)@.push(c),
{
    s.push(c);
}

/// Builds a `String` holding exactly the given characters.
pub fn string_from_chars(cs: &Vec<char>) -> (out: String)
    ensures
        out@ == cs@,
{
    let mut out = String::new();
    let mut i: usize = 0;
    while i < cs.len()
        invariant
            i <= cs.len(),
            out@ == cs@.take(i as int),
        decreases cs.len() - i,
    {
        push_char(&mut out, cs[i]);
        i = i + 1;
        assert(out@ =~= cs@.take(i as int));
    }
    assert(cs@.take(cs.len() as int) =~= cs@);
    out
}

/// Whether two character vectors hold the same characters.
pub fn chars_eq(a: &Vec<char>, b: &Vec<char>) -> (r: bool)
    ensures
        r == (a@ == b@),
{
    if a.len() != b.len() {
        return false;
    }
    let mut i: usize = 0;
    while i < a.len()
        invariant
            a.len() == b.len(),
            i <= a.len(),
            forall|j: int| 0 <= j < i ==> a@[j] == b@[j],
        decreases a.len() - i,
    {
        if a[i] != b[i] {
            return false;
        }
        i = i + 1;
    }
    assert(a@ =~= b@);
    true
}

/// Whether two string slices hold the same characters.
pub fn str_eq(a: &str, b: &str) -> (r: bool)
    ensures
        r == (a@ == b@),
{
    let ac = chars_of(a);
    let bc = chars_of(b);
    chars_eq(&ac, &bc)
}

/// `prefix` is a prefix of `s`.
pub open spec fn has_prefix(s: Seq<char>, prefix: Seq<char>) -> bool {
    prefix.len() <= s.len() && s.subrange(0, prefix.len() as int) == prefix
}

/// `suffix` is a suffix of `s`.
pub open spec fn has_suffix(s: Seq<char>, suffix: Seq<char>) -> bool {
    suffix.len() <= s.len() && s.subrange(s.len() - suffix.len(), s.len() as int) == suffix
}

/// Whether `s` starts with `prefix`.
pub fn starts_with(s: &str, prefix: &str) -> (r: bool)
    ensures
        r == has_prefix(s@, prefix@),
{
    let sc = chars_of(s);
    let pc = chars_of(prefix);
    if pc.len() > sc.len() {
        return false;
    }
    let mut i: usize = 0;
    while i < pc.len()
        invariant
            sc@ == s@,
            pc@ == prefix@,
            pc.len() <= sc.len(),
            i <= pc.len(),
            forall|j: int| 0 <= j < i ==> sc@[j] == pc@[j],
        decreases pc.len() - i,
    {
        if sc[i] != pc[i] {
            assert(sc@.subrange(0, pc@.len() as int)[i as int] != pc@[i as int]);
            assert(!has_prefix(sc@, pc@));
            return false;
        }
        i = i + 1;
    }
    assert(sc@.subrange(0, pc@.len() as int) =~= pc@);
    true
}

/// Whether `s` ends with `suffix`.
pub fn ends_with(s: &str, suffix: &str) -> (r: bool)
    ensures
        r == has_suffix(s@, suffix@),
{
    let sc = chars_of(s);
    let xc = chars_of(suffix);
    if xc.len() > sc.len() {
        return false;
    }
    let off = sc.len() - xc.len();
    let mut i: usize = 0;
    while i < xc.len()
        invariant
            sc@ == s@,
            xc@ == suffix@,
            xc.len() <= sc.len(),
            off == sc.len() - xc.len(),
            i <= xc.len(),
            forall|j: int| 0 <= j < i ==> sc@[off + j] == xc@[j],
        decreases xc.len() - i,
    {
        if sc[off + i] != xc[i] {
            assert(sc@.subrange(off as int, sc@.len() as int)[i as int] != xc@[i as int]);
            assert(!has_suffix(sc@, xc@));
            return false;
        }
        i = i + 1;
    }
    assert(sc@.subrange(off as int, sc@.len() as int) =~= xc@);
    true
}


// ---------------------------------------------------------------------------
// Decimal formatting
// ---------------------------------------------------------------------------

/// The character of the decimal digit `d` (for `d < 10`).
pub open spec fn digit_char(d: nat) -> char {
    ((48 + d) as u8) as char
}

/// The decimal representation of `n`, without sign or leading zeros
/// (what `n.to_string()` gives for an unsigned integer).
pub open spec fn decimal(n: nat) -> Seq<char>
    decreases n,
{
    if n < 10 {
        seq![digit_char(n)]
    } else {
        decimal(n / 10).push(digit_char(n % 10))
    }
}

/// The decimal representation of `n`.
pub fn usize_to_string(n: usize) -> (r: String)
    ensures
        r@ == decimal(n as nat),
    decreases n,
{
    let d: u8 = (n % 10) as u8;
    let c: char = (48u8 + d) as char;
    if n < 10 {
        let mut r = String::new();
        push_char(&mut r, c);
        assert(r@ =~= seq![c]);
        r
    } else {
        let mut r = usize_to_string(n / 10);
        push_char(&mut r, c);
        r
    }
}


/// The decimal representation of a signed integer: a `-` before the digits
/// of a negative one.
pub open spec fn signed_decimal(n: int) -> Seq<char> {
    if n < 0 {
        seq!['-'] + decimal((-n) as nat)
    } else {
        decimal(n as nat)
    }
}

/// The decimal representation of `n`.
pub fn i32_to_string(n: i32) -> (r: String)
    ensures
        r@ == signed_decimal(n as int),
{
    let m: i64 = n as i64;
    if m < 0 {
        let mut r = String::new();
        push_char(&mut r, '-');
        let digits = usize_to_string((-m) as usize);
        r.append(digits.as_str());
        assert(r@ =~= seq!['-'] + decimal((-n) as nat));
        r
    } else {
        usize_to_string(m as usize)
    }
}

// ---------------------------------------------------------------------------
// Decimal parsing
// ---------------------------------------------------------------------------

/// Why a decimal integer could not be read; the same cases as std's
/// `IntErrorKind` for `from_str` in radix 10.
#[derive(Debug, Clone, Copy, PartialEq, Eq)]
pub enum IntErrorKind {
    /// The text is empty.
    Empty,
    /// The text holds a character that is not a digit where one is needed.
    InvalidDigit,
    /// The number is larger than the largest value of the target type.
    PosOverflow,
    /// The number is smaller than the smallest value of the target type.
    NegOverflow,
}

/// The text of each kind, as std's `ParseIntError` displays it.
pub open spec fn int_error_text(kind: IntErrorKind) -> Seq<char> {
    match kind {
        IntErrorKind::Empty => "cannot parse integer from empty string"@,
        IntErrorKind::InvalidDigit => "invalid digit found in string"@,
        IntErrorKind::PosOverflow => "number too large to fit in target type"@,
        IntErrorKind::NegOverflow => "number too small to fit in target type"@,
    }
}

impl IntErrorKind {
    /// The human-readable description of this error.
    pub fn message(&self) -> (r: String)
        ensures
            r@ == int_error_text(*self),
    {
        match self {
            IntErrorKind::Empty => String::from_str("cannot parse integer from empty string"),
            IntErrorKind::InvalidDigit => String::from_str("invalid digit found in string"),
            IntErrorKind::PosOverflow => String::from_str("number too large to fit in target type"),
            IntErrorKind::NegOverflow => String::from_str("number too small to fit in target type"),
        }
    }
}

/// Why a text could not be read as an integer, as std's `ParseIntError`
/// reports it: the kind of failure, displayed by its text.
#[derive(Debug, Clone, Copy, PartialEq, Eq)]
pub struct ParseIntError {
    pub kind: IntErrorKind,
}

impl ParseIntError {
    /// The kind of failure.
    pub fn kind(&self) -> (r: &IntErrorKind)
        ensures
            *r == self.kind,
    {
        &self.kind
    }

    /// The human-readable description of this error.
    pub fn message(&self) -> (r: String)
        ensures
            r@ == int_error_text(self.kind),
    {
        self.kind.message()
    }
}

/// `c` is one of the ASCII digits `0`..`9`.
pub open spec fn is_digit(c: char) -> bool {
    48 <= (c as u32) <= 57
}

/// The value of the digit character `c`.
pub open spec fn digit_value(c: char) -> int {
    (c as u32) - 48
}

/// The value of a string of digits read in base 10.
pub open spec fn digits_value(s: Seq<char>) -> int
    decreases s.len(),
{
    if s.len() == 0 {
        0
    } else {
        digits_value(s.drop_last()) * 10 + digit_value(s.last())
    }
}

/// The length of the run of digits that `s` starts with.
pub open spec fn digit_run(s: Seq<char>) -> nat
    decreases s.len(),
{
    if s.len() == 0 || !is_digit(s[0]) {
        0
    } else {
        1 + digit_run(s.drop_first())
    }
}

/// Reading `s` as a decimal integer of a type whose values are `min..=max`,
/// as std's `from_str` does: an optional `+` (or `-` where `min < 0`), then
/// digits. A value out of range is reported when the digits before the first
/// non-digit already leave the range; otherwise a non-digit is an invalid digit.
pub open spec fn parse_int(s: Seq<char>, min: int, max: int) -> Result<int, IntErrorKind> {
    if s.len() == 0 {
        Err(IntErrorKind::Empty)
    } else if s.len() == 1 && (s[0] == '+' || s[0] == '-') {
        Err(IntErrorKind::InvalidDigit)
    } else {
        let neg = s[0] == '-' && min < 0;
        let body = if s[0] == '+' || neg {
            s.drop_first()
        } else {
            s
        };
        let k = digit_run(body);
        let v = digits_value(body.take(k as int));
        if !neg && v > max {
            Err(IntErrorKind::PosOverflow)
        } else if neg && -v < min {
            Err(IntErrorKind::NegOverflow)
        } else if k < body.len() {
            Err(IntErrorKind::InvalidDigit)
        } else if neg {
            Ok(-v)
        } else {
            Ok(v)
        }
    }
}

proof fn lemma_digit_run_stops(s: Seq<char>, i: int)
    requires
        0 <= i <= s.len(),
        forall|j: int| 0 <= j < i ==> is_digit(s[j]),
        i == s.len() || !is_digit(s[i]),
    ensures
        digit_run(s) == i,
    decreases i,
{
    if i > 0 {
        let t = s.drop_first();
        assert forall|j: int| 0 <= j < i - 1 implies is_digit(t[j]) by {
            assert(t[j] == s[j + 1]);
        }
        if i < s.len() {
            assert(t[i - 1] == s[i]);
        }
        lemma_digit_run_stops(t, i - 1);
    }
}

proof fn lemma_digit_run_props(s: Seq<char>)
    ensures
        digit_run(s) <= s.len(),
        forall|j: int| 0 <= j < digit_run(s) ==> is_digit(s[j]),
        digit_run(s) == s.len() || !is_digit(s[digit_run(s) as int]),
    decreases s.len(),
{
    if s.len() > 0 && is_digit(s[0]) {
        let t = s.drop_first();
        lemma_digit_run_props(t);
        assert forall|j: int| 0 <= j < digit_run(s) implies is_digit(s[j]) by {
            if j > 0 {
                assert(s[j] == t[j - 1]);
            }
        }
        if digit_run(s) < s.len() {
            assert(s[digit_run(s) as int] == t[digit_run(t) as int]);
        }
    }
}

proof fn lemma_digits_value_nonneg(s: Seq<char>)
    requires
        forall|j: int| 0 <= j < s.len() ==> is_digit(s[j]),
    ensures
        digits_value(s) >= 0,
    decreases s.len(),
{
    if s.len() > 0 {
        lemma_digits_value_nonneg(s.drop_last());
    }
}

proof fn lemma_digits_value_monotone(s: Seq<char>, a: int, b: int)
    requires
        0 <= a <= b <= s.len(),
        forall|j: int| 0 <= j < b ==> is_digit(s[j]),
    ensures
        digits_value(s.take(a)) <= digits_value(s.take(b)),
    decreases b - a,
{
    if a < b {
        lemma_digits_value_monotone(s, a, b - 1);
        let t = s.take(b);
        assert(t.drop_last() =~= s.take(b - 1));
        lemma_digits_value_nonneg(s.take(b - 1));
    }
}

/// Reads `s` as a decimal integer in `min..=max` (see `parse_int`).
pub fn parse_integer(s: &str, min: i128, max: i128) -> (r: Result<i128, IntErrorKind>)
    requires
        -0x1_0000_0000_0000_0000 <= min <= 0 <= max <= 0x1_0000_0000_0000_0000,
    ensures
        match r {
            Ok(v) => parse_int(s@, min as int, max as int) == Ok::<int, IntErrorKind>(v as int),
            Err(e) => parse_int(s@, min as int, max as int) == Err::<int, IntErrorKind>(e),
        },
        r matches Ok(v) ==> min <= v <= max,
{
    let cs = chars_of(s);
    let n = cs.len();
    if n == 0 {
        return Err(IntErrorKind::Empty);
    }
    if n == 1 && (cs[0] == '+' || cs[0] == '-') {
        return Err(IntErrorKind::InvalidDigit);
    }
    let neg = cs[0] == '-' && min < 0;
    let start: usize = if cs[0] == '+' || neg { 1 } else { 0 };
    let bound: i128 = if neg { -min } else { max };
    let ghost body = if cs@[0] == '+' || neg { cs@.drop_first() } else { cs@ };
    assert(body =~= cs@.subrange(start as int, n as int));
    let mut acc: i128 = 0;
    let mut i: usize = start;
    while i < n
        invariant
            cs@ == s@,
            n == cs.len(),
            n >= 1,
            !(n == 1 && (cs@[0] == '+' || cs@[0] == '-')),
            neg == (cs@[0] == '-' && min < 0),
            bound == (if neg { -min } else { max as int }),
            body == (if cs@[0] == '+' || neg { cs@.drop_first() } else { cs@ }),
            -0x1_0000_0000_0000_0000 <= min <= 0 <= max <= 0x1_0000_0000_0000_0000,
            start <= i <= n,
            body == cs@.subrange(start as int, n as int),
            0 <= bound <= 0x1_0000_0000_0000_0000,
            forall|j: int| 0 <= j < i - start ==> is_digit(body[j]),
            acc == digits_value(body.take(i - start)),
            0 <= acc <= bound,
        decreases n - i,
    {
        let c = cs[i];
        let u = c as u32;
        assert(body[i - start] == c);
        if u < 48 || u > 57 {
            proof {
                lemma_digit_run_stops(body, i - start);
            }
            return Err(IntErrorKind::InvalidDigit);
        }
        let next = acc * 10 + (u - 48) as i128;
        assert(body.take(i - start + 1).drop_last() =~= body.take(i - start));
        if next > bound {
            proof {
                let m: int = i - start + 1;
                lemma_digit_run_props(body);
                let k = digit_run(body) as int;
                if k < m {
                    assert(is_digit(body[k]));
                }
                lemma_digits_value_monotone(body, m, k);
            }
            if neg {
                return Err(IntErrorKind::NegOverflow);
            } else {
                return Err(IntErrorKind::PosOverflow);
            }
        }
        acc = next;
        i = i + 1;
    }
    proof {
        lemma_digit_run_stops(body, body.len() as int);
        assert(body.take(body.len() as int) =~= body);
    }
    if neg {
        Ok(-acc)
    } else {
        Ok(acc)
    }
}


proof fn lemma_decimal_digits(n: nat)
    ensures
        decimal(n).len() >= 1,
        forall|j: int| 0 <= j < decimal(n).len() ==> is_digit(#[trigger] decimal(n)[j]),
        digits_value(decimal(n)) == n,
    decreases n,
{
    let d = (n % 10) as nat;
    assert(d < 10);
    let c = digit_char(d);
    assert(c as u32 == 48 + d) by {
        assert(((48 + d) as u8) as char as u32 == 48 + d);
    }
    if n >= 10 {
        lemma_decimal_digits(n / 10);
        let t = decimal(n / 10);
        assert(t.push(c).drop_last() =~= t);
        assert forall|j: int| 0 <= j < t.push(c).len() implies is_digit(#[trigger] t.push(c)[j]) by {
            if j < t.len() {
                assert(t.push(c)[j] == t[j]);
            }
        }
        assert(decimal(n) == t.push(c));
        assert(digit_value(c) == d);
        assert(digits_value(t.push(c)) == digits_value(t) * 10 + digit_value(c));
        assert((n / 10) * 10 + n % 10 == n) by (nonlinear_arith);
    } else {
        assert(digit_value(c) == d);
        assert(seq![c].drop_last() =~= Seq::<char>::empty());
        assert(decimal(n) == seq![c]);
        assert(digits_value(seq![c]) == digits_value(Seq::<char>::empty()) * 10 + digit_value(c));
        assert(n % 10 == n);
    }
}

/// Reading back the decimal representation of a number in range gives the
/// number: `parse_int(decimal(n)) == Ok(n)`.
pub proof fn lemma_parse_decimal_round_trip(n: nat, min: int, max: int)
    requires
        min <= 0,
        n <= max,
    ensures
        parse_int(decimal(n), min, max) == Ok::<int, IntErrorKind>(n as int),
{
    lemma_decimal_digits(n);
    let s = decimal(n);
    assert(is_digit(s[0]));
    lemma_digit_run_stops(s, s.len() as int);
    assert(s.take(s.len() as int) =~= s);
}

/// Reading back the signed decimal representation of a number in range
/// gives the number.
pub proof fn lemma_parse_signed_decimal_round_trip(n: int, min: int, max: int)
    requires
        min < 0,
        min <= n <= max,
    ensures
        parse_int(signed_decimal(n), min, max) == Ok::<int, IntErrorKind>(n),
{
    if n >= 0 {
        lemma_parse_decimal_round_trip(n as nat, min, max);
    } else {
        let m = (-n) as nat;
        lemma_decimal_digits(m);
        let s = signed_decimal(n);
        let d = decimal(m);
        assert(s.drop_first() =~= d);
        lemma_digit_run_stops(d, d.len() as int);
        assert(d.take(d.len() as int) =~= d);
    }
}

/// Reads `s` as a decimal `usize`, as `s.parse::<usize>()` does.
pub fn parse_usize(s: &str) -> (r: Result<usize, ParseIntError>)
    ensures
        match r {
            Ok(v) => parse_int(s@, 0, usize::MAX as int) == Ok::<int, IntErrorKind>(v as int),
            Err(e) => parse_int(s@, 0, usize::MAX as int) == Err::<int, IntErrorKind>(e.kind),
        },
{
    match parse_integer(s, 0, usize::MAX as i128) {
        Ok(v) => Ok(v as usize),
        Err(kind) => Err(ParseIntError { kind }),
    }
}

/// Reads `s` as a decimal `i32`, as `s.parse::<i32>()` does.
pub fn parse_i32(s: &str) -> (r: Result<i32, ParseIntError>)
    ensures
        match r {
            Ok(v) => parse_int(s@, i32::MIN as int, i32::MAX as int) == Ok::<int, IntErrorKind>(
                v as int,
            ),
            Err(e) => parse_int(s@, i32::MIN as int, i32::MAX as int) == Err::<int, IntErrorKind>(
                e.kind,
            ),
        },
{
    match parse_integer(s, i32::MIN as i128, i32::MAX as i128) {
        Ok(v) => Ok(v as i32),
        Err(kind) => Err(ParseIntError { kind }),
    }
}

/// Reads `s` as a decimal `u32`, as `s.parse::<u32>()` does.
pub fn parse_u32(s: &str) -> (r: Result<u32, ParseIntError>)
    ensures
        match r {
            Ok(v) => parse_int(s@, 0, u32::MAX as int) == Ok::<int, IntErrorKind>(v as int),
            Err(e) => parse_int(s@, 0, u32::MAX as int) == Err::<int, IntErrorKind>(e.kind),
        },
{
    match parse_integer(s, 0, u32::MAX as i128) {
        Ok(v) => Ok(v as u32),
        Err(kind) => Err(ParseIntError { kind }),
    }
}

// ---------------------------------------------------------------------------
// Words
// ---------------------------------------------------------------------------

/// Scanning `s` from the left: the words completed so far and the word
/// being read (empty between words).
pub open spec fn words_scan(s: Seq<char>) -> (Seq<Seq<char>>, Seq<char>)
    decreases s.len(),
{
    if s.len() == 0 {
        (seq![], seq![])
    } else {
        let (done, cur) = words_scan(s.drop_last());
        let c = s.last();
        if is_white(c) {
            if cur.len() > 0 {
                (done.push(cur), seq![])
            } else {
                (done, seq![])
            }
        } else {
            (done, cur.push(c))
        }
    }
}

/// The words of `s`: its maximal runs of non-white-space characters, in
/// order (what `split_whitespace` yields).
pub open spec fn words(s: Seq<char>) -> Seq<Seq<char>> {
    let (done, cur) = words_scan(s);
    if cur.len() > 0 {
        done.push(cur)
    } else {
        done
    }
}

/// The views of a vector of character vectors.
pub open spec fn views(v: Seq<Vec<char>>) -> Seq<Seq<char>> {
    v.map_values(|w: Vec<char>| w@)
}

/// Splits `s` into its white-space separated words.
pub fn split_words(s: &str) -> (out: Vec<Vec<char>>)
    ensures
        views(out@) == words(s@),
        concat_words(views(out@)) == non_white(s@),
        out@.len() == run_starts(s@),
{
    proof {
        lemma_words_are_the_runs(s@);
    }
    let cs = chars_of(s);
    let mut done: Vec<Vec<char>> = Vec::new();
    let mut cur: Vec<char> = Vec::new();
    let mut i: usize = 0;
    while i < cs.len()
        invariant
            i <= cs.len(),
            words_scan(cs@.take(i as int)) == (views(done@), cur@),
        decreases cs.len() - i,
    {
        let c = cs[i];
        assert(cs@.take(i + 1).drop_last() =~= cs@.take(i as int));
        assert(cs@.take(i + 1).last() == c);
        if is_whitespace(c) {
            if cur.len() > 0 {
                let w = cur;
                let ghost wv = w@;
                done.push(w);
                cur = Vec::new();
                assert(views(done@) =~= views(done@.drop_last()).push(wv));
            } else {
                cur = Vec::new();
                assert(cur@ =~= Seq::<char>::empty());
            }
        } else {
            cur.push(c);
        }
        i = i + 1;
    }
    assert(cs@.take(cs.len() as int) =~= cs@);
    if cur.len() > 0 {
        let ghost wv = cur@;
        done.push(cur);
        assert(views(done@) =~= views(done@.drop_last()).push(wv));
    }
    done
}


/// The characters of `s` that are not white space, in order.
pub open spec fn non_white(s: Seq<char>) -> Seq<char>
    decreases s.len(),
{
    if s.len() == 0 {
        seq![]
    } else if is_white(s.last()) {
        non_white(s.drop_last())
    } else {
        non_white(s.drop_last()).push(s.last())
    }
}

/// The words of `ws` written one after the other, with nothing between them.
pub open spec fn concat_words(ws: Seq<Seq<char>>) -> Seq<char>
    decreases ws.len(),
{
    if ws.len() == 0 {
        seq![]
    } else {
        concat_words(ws.drop_last()) + ws.last()
    }
}

/// The number of positions of `s` where a run of non-white-space characters
/// begins: a non-white character at the start or right after white space.
pub open spec fn run_starts(s: Seq<char>) -> nat
    decreases s.len(),
{
    if s.len() == 0 {
        0
    } else {
        run_starts(s.drop_last()) + if !is_white(s.last()) && (s.len() == 1 || is_white(
            s[s.len() - 2],
        )) {
            1nat
        } else {
            0nat
        }
    }
}

proof fn lemma_words_scan_runs(s: Seq<char>)
    ensures
        ({
            let (done, cur) = words_scan(s);
            &&& concat_words(done) + cur == non_white(s)
            &&& done.len() + (if cur.len() > 0 {
                1nat
            } else {
                0nat
            }) == run_starts(s)
            &&& cur.len() > 0 <==> (s.len() > 0 && !is_white(s.last()))
        }),
    decreases s.len(),
{
    if s.len() > 0 {
        let p = s.drop_last();
        lemma_words_scan_runs(p);
        let (d, c) = words_scan(p);
        let x = s.last();
        if is_white(x) {
            if c.len() > 0 {
                assert(d.push(c).drop_last() =~= d);
                assert(concat_words(d.push(c)) + seq![] =~= concat_words(d) + c);
            } else {
                assert(concat_words(d) + seq![] =~= concat_words(d) + c);
            }
        } else {
            assert(concat_words(d) + c.push(x) =~= (concat_words(d) + c).push(x));
            if p.len() > 0 {
                assert(s[s.len() - 2] == p.last());
            }
        }
    }
}

/// The words of a text are exactly its maximal runs of non-white-space
/// characters: written one after the other they give every character of the
/// text that is not white space, in order and none else, and there is one
/// word for each place where such a run begins.
pub proof fn lemma_words_are_the_runs(s: Seq<char>)
    ensures
        concat_words(words(s)) == non_white(s),
        words(s).len() == run_starts(s),
{
    lemma_words_scan_runs(s);
    let (done, cur) = words_scan(s);
    if cur.len() > 0 {
        assert(done.push(cur).drop_last() =~= done);
    } else {
        assert(concat_words(done) + cur =~= concat_words(done));
    }
}

/// A text holding no white space is a single word, the text itself (or no
/// word, when the text is empty).
pub proof fn lemma_text_without_white_space_is_one_word(s: Seq<char>)
    requires
        forall|i: int| 0 <= i < s.len() ==> !is_white(#[trigger] s[i]),
    ensures
        s.len() > 0 ==> words(s) == seq![s],
        s.len() == 0 ==> words(s).len() == 0,
    decreases s.len(),
{
    if s.len() > 0 {
        let p = s.drop_last();
        lemma_text_without_white_space_is_one_word(p);
        assert(!is_white(s.last()));
        lemma_words_scan_runs(p);
        // The scan of `p` completed no word and reads all of `p`.
        let (d, c) = words_scan(p);
        lemma_words_are_the_runs(p);
        if p.len() > 0 {
            assert(words(p) == seq![p]);
            assert(d.len() == 0) by {
                assert(c.len() > 0);
            }
            assert(c == p);
        } else {
            assert(d.len() == 0 && c.len() == 0);
        }
        assert(c.push(s.last()) =~= s);
    }
}

// ---------------------------------------------------------------------------
// Lines and trimming
// ---------------------------------------------------------------------------

/// `s` without its leading white space.
pub open spec fn trim_start(s: Seq<char>) -> Seq<char>
    decreases s.len(),
{
    if s.len() > 0 && is_white(s[0]) {
        trim_start(s.drop_first())
    } else {
        s
    }
}

/// `s` without its trailing white space.
pub open spec fn trim_end(s: Seq<char>) -> Seq<char>
    decreases s.len(),
{
    if s.len() > 0 && is_white(s.last()) {
        trim_end(s.drop_last())
    } else {
        s
    }
}

/// `s` without leading and trailing white space (what `str::trim` gives).
pub open spec fn trim(s: Seq<char>) -> Seq<char> {
    trim_end(trim_start(s))
}

proof fn lemma_trim_start(s: Seq<char>, a: int)
    requires
        0 <= a <= s.len(),
        forall|j: int| 0 <= j < a ==> is_white(s[j]),
        a == s.len() || !is_white(s[a]),
    ensures
        trim_start(s) == s.subrange(a, s.len() as int),
    decreases a,
{
    if a == 0 {
        assert(s.subrange(0, s.len() as int) =~= s);
    } else {
        let t = s.drop_first();
        assert forall|j: int| 0 <= j < a - 1 implies is_white(t[j]) by {
            assert(t[j] == s[j + 1]);
        }
        if a < s.len() {
            assert(t[a - 1] == s[a]);
        }
        lemma_trim_start(t, a - 1);
        assert(t.subrange(a - 1, t.len() as int) =~= s.subrange(a, s.len() as int));
    }
}

proof fn lemma_trim_end(s: Seq<char>, b: int)
    requires
        0 <= b <= s.len(),
        forall|j: int| b <= j < s.len() ==> is_white(s[j]),
        b == 0 || !is_white(s[b - 1]),
    ensures
        trim_end(s) == s.subrange(0, b),
    decreases s.len() - b,
{
    if b == s.len() {
        assert(s.subrange(0, b) =~= s);
    } else {
        let t = s.drop_last();
        lemma_trim_end(t, b);
        assert(t.subrange(0, b) =~= s.subrange(0, b));
    }
}

proof fn lemma_trim_end_prefix(s: Seq<char>)
    ensures
        trim_end(s).len() <= s.len(),
        trim_end(s) == s.subrange(0, trim_end(s).len() as int),
        trim_end(s).len() == 0 || !is_white(trim_end(s).last()),
    decreases s.len(),
{
    if s.len() > 0 && is_white(s.last()) {
        lemma_trim_end_prefix(s.drop_last());
        let t = trim_end(s.drop_last());
        assert(s.drop_last().subrange(0, t.len() as int) =~= s.subrange(0, t.len() as int));
    } else {
        assert(s.subrange(0, s.len() as int) =~= s);
    }
}

proof fn lemma_trim_start_suffix(s: Seq<char>)
    ensures
        trim_start(s).len() == 0 || !is_white(trim_start(s)[0]),
        trim_start(trim_start(s)) == trim_start(s),
    decreases s.len(),
{
    if s.len() > 0 && is_white(s[0]) {
        lemma_trim_start_suffix(s.drop_first());
    }
}

proof fn lemma_trim_start_len(s: Seq<char>)
    ensures
        trim_start(s).len() <= s.len(),
    decreases s.len(),
{
    if s.len() > 0 && is_white(s[0]) {
        lemma_trim_start_len(s.drop_first());
    }
}

/// Trimming never lengthens a text.
pub(crate) proof fn lemma_trim_len(s: Seq<char>)
    ensures
        trim(s).len() <= s.len(),
{
    lemma_trim_start_len(s);
    lemma_trim_end_prefix(trim_start(s));
}

/// Trimming leaves neither leading nor trailing white space, so trimming
/// twice gives what trimming once gives.
pub proof fn lemma_trim_idempotent(s: Seq<char>)
    ensures
        trim(s).len() == 0 || (!is_white(trim(s)[0]) && !is_white(trim(s).last())),
        trim(trim(s)) == trim(s),
{
    let a = trim_start(s);
    lemma_trim_start_suffix(s);
    lemma_trim_end_prefix(a);
    let t = trim_end(a);
    if t.len() > 0 {
        assert(t[0] == a[0]);
    }
    // `t` starts with a non-white character (or is empty): trimming its
    // start changes nothing, and its end is already trimmed.
    assert(trim_start(t) == t);
    lemma_trim_end_prefix(t);
    assert(trim_end(t) == t) by {
        if t.len() > 0 {
            assert(!is_white(t.last()));
        }
    }
}

/// The characters of `cs` without leading and trailing white space.
pub fn trim_chars(cs: &Vec<char>) -> (r: Vec<char>)
    ensures
        r@ == trim(cs@),
{
    let n = cs.len();
    let mut a: usize = 0;
    while a < n && is_whitespace(cs[a])
        invariant
            n == cs.len(),
            a <= n,
            forall|j: int| 0 <= j < a ==> is_white(cs@[j]),
        decreases n - a,
    {
        a = a + 1;
    }
    proof {
        lemma_trim_start(cs@, a as int);
    }
    let ghost t = cs@.subrange(a as int, n as int);
    let mut b: usize = n;
    while b > a && is_whitespace(cs[b - 1])
        invariant
            n == cs.len(),
            a <= b <= n,
            t == cs@.subrange(a as int, n as int),
            forall|j: int| b <= j < n ==> is_white(cs@[j]),
        decreases b - a,
    {
        b = b - 1;
    }
    proof {
        assert forall|j: int| b - a <= j < t.len() implies is_white(t[j]) by {
            assert(t[j] == cs@[a + j]);
        }
        if b > a {
            assert(t[b - a - 1] == cs@[b - 1]);
        }
        lemma_trim_end(t, b - a);
        assert(t.subrange(0, b - a) =~= cs@.subrange(a as int, b as int));
    }
    let mut r: Vec<char> = Vec::new();
    let mut i: usize = a;
    while i < b
        invariant
            a <= i <= b <= n,
            n == cs.len(),
            r@ == cs@.subrange(a as int, i as int),
        decreases b - i,
    {
        r.push(cs[i]);
        i = i + 1;
        assert(r@ =~= cs@.subrange(a as int, i as int));
    }
    r
}

/// The text of `s` without leading and trailing white space.
pub fn trim_str(s: &str) -> (r: String)
    ensures
        r@ == trim(s@),
{
    let cs = chars_of(s);
    let t = trim_chars(&cs);
    string_from_chars(&t)
}

/// Scanning `s` from the left: the lines completed so far and the line
/// being read.
pub open spec fn lines_scan(s: Seq<char>) -> (Seq<Seq<char>>, Seq<char>)
    decreases s.len(),
{
    if s.len() == 0 {
        (seq![], seq![])
    } else {
        let (done, cur) = lines_scan(s.drop_last());
        if s.last() == '\n' {
            (done.push(cur), seq![])
        } else {
            (done, cur.push(s.last()))
        }
    }
}

/// The lines of `s`: its pieces between line feeds, where a final line
/// feed does not start another line.
pub open spec fn lines(s: Seq<char>) -> Seq<Seq<char>> {
    let (done, cur) = lines_scan(s);
    if cur.len() > 0 {
        done.push(cur)
    } else {
        done
    }
}

/// The lines of a file's contents, each without leading and trailing white
/// space (a carriage return before a line feed is white space too).
pub open spec fn trimmed_lines(s: Seq<char>) -> Seq<Seq<char>> {
    lines(s).map_values(|l: Seq<char>| trim(l))
}

/// Every line that `file_lines` gives is already trimmed.
pub proof fn lemma_file_lines_are_trimmed(s: Seq<char>)
    ensures
        forall|i: int|
            0 <= i < trimmed_lines(s).len() ==> trim(#[trigger] trimmed_lines(s)[i])
                == trimmed_lines(s)[i],
{
    assert forall|i: int| 0 <= i < trimmed_lines(s).len() implies trim(
        #[trigger] trimmed_lines(s)[i],
    ) == trimmed_lines(s)[i] by {
        lemma_trim_idempotent(lines(s)[i]);
    }
}

/// Splits the contents of a file into lines and trims each of them.
pub fn file_lines(contents: &str) -> (out: Vec<String>)
    ensures
        out@.map_values(|l: String| l@) == trimmed_lines(contents@),
        contents@.len() <= usize::MAX,
{
    let cs = chars_of(contents);
    let mut out: Vec<String> = Vec::new();
    let mut cur: Vec<char> = Vec::new();
    let mut i: usize = 0;
    while i < cs.len()
        invariant
            i <= cs.len(),
            lines_scan(cs@.take(i as int)).1 == cur@,
            out@.map_values(|l: String| l@) == lines_scan(cs@.take(i as int)).0.map_values(
                |l: Seq<char>| trim(l),
            ),
        decreases cs.len() - i,
    {
        let c = cs[i];
        assert(cs@.take(i + 1).drop_last() =~= cs@.take(i as int));
        assert(cs@.take(i + 1).last() == c);
        if c == '\n' {
            let t = trim_chars(&cur);
            let line = string_from_chars(&t);
            let ghost before = lines_scan(cs@.take(i as int)).0;
            out.push(line);
            assert(before.push(cur@).map_values(|l: Seq<char>| trim(l)) =~= before.map_values(
                |l: Seq<char>| trim(l),
            ).push(trim(cur@)));
            assert(out@.map_values(|l: String| l@) =~= out@.drop_last().map_values(
                |l: String| l@,
            ).push(trim(cur@)));
            cur = Vec::new();
            assert(cur@ =~= Seq::<char>::empty());
        } else {
            cur.push(c);
        }
        i = i + 1;
    }
    assert(cs@.take(cs.len() as int) =~= cs@);
    if cur.len() > 0 {
        let t = trim_chars(&cur);
        let line = string_from_chars(&t);
        let ghost before = lines_scan(cs@).0;
        out.push(line);
        assert(before.push(cur@).map_values(|l: Seq<char>| trim(l)) =~= before.map_values(
            |l: Seq<char>| trim(l),
        ).push(trim(cur@)));
        assert(out@.map_values(|l: String| l@) =~= out@.drop_last().map_values(|l: String| l@).push(
            trim(cur@),
        ));
    }
    out
}

} // verus!
