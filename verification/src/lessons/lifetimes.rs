//! Lifetimes: functions and structs whose results borrow from their inputs.
use vstd::prelude::*;

verus! {

/// The characters of `s` before its first space (all of `s` when it has none).
pub open spec fn before_space(s: Seq<char>) -> Seq<char>
    decreases s.len(),
{
    if s.len() == 0 || s[0] == ' ' {
        seq![]
    } else {
        seq![s[0]] + before_space(s.drop_first())
    }
}

pub(crate) proof fn lemma_before_space(s: Seq<char>, i: int)
    requires
        0 <= i <= s.len(),
        forall|j: int| 0 <= j < i ==> s[j] != ' ',
        i == s.len() || s[i] == ' ',
    ensures
        before_space(s) == s.take(i),
    decreases i,
{
    if i > 0 {
        let t = s.drop_first();
        assert forall|j: int| 0 <= j < i - 1 implies t[j] != ' ' by {
            assert(t[j] == s[j + 1]);
        }
        if i < s.len() {
            assert(t[i - 1] == s[i]);
        }
        lemma_before_space(t, i - 1);
        assert(seq![s[0]] + t.take(i - 1) =~= s.take(i));
    } else {
        assert(s.take(0) =~= Seq::<char>::empty());
    }
}

/// The part of `s` before its first space, as a slice of `s`.
pub fn first_word(s: &str) -> (r: &str)
    ensures
        r@ == before_space(s@),
{
    let cs = crate::text::chars_of(s);
    let mut i: usize = 0;
    while i < cs.len() && cs[i] != ' '
        invariant
            i <= cs.len(),
            forall|j: int| 0 <= j < i ==> cs@[j] != ' ',
        decreases cs.len() - i,
    {
        i = i + 1;
    }
    proof {
        lemma_before_space(cs@, i as int);
    }
    s.substring_char(0, i)
}

/// Returns whichever string is at least as long in bytes, the first on a tie.
pub fn longer<'a>(s1: &'a str, s2: &'a str) -> (r: &'a str)
    ensures
        r == (if s1.len() >= s2.len() {
            s1
        } else {
            s2
        }),
{
    if s1.len() >= s2.len() {
        s1
    } else {
        s2
    }
}

/// Returns whichever string is longer in bytes, the second on a tie.
pub fn longest<'a>(s1: &'a str, s2: &'a str) -> (r: &'a str)
    ensures
        r == (if s1.len() > s2.len() {
            s1
        } else {
            s2
        }),
{
    if s1.len() > s2.len() {
        s1
    } else {
        s2
    }
}

/// The part of `sentence` before its first space; the announcement plays no
/// part in the result, so the result borrows from `sentence` alone.
pub fn first_word_announced<'a, 'b>(sentence: &'a str, _announcement: &'b str) -> (r: &'a str)
    ensures
        r@ == before_space(sentence@),
{
    first_word(sentence)
}

/// A struct that borrows a string slice.
pub struct Wrapper<'a> {
    pub value: &'a str,
}

impl<'a> Wrapper<'a> {
    /// The wrapped slice.
    pub fn get<'b>(&'b self) -> (r: &'b str)
        ensures
            r == self.value,
    {
        self.value
    }
}

} // verus!
