//! Ownership and borrowing of strings: counting, slicing and appending.
use vstd::prelude::*;

use crate::lessons::lifetimes;
use crate::text;

verus! {

/// Counts the white-space separated words of `s`.
pub fn word_count(s: &str) -> (r: usize)
    ensures
        r == text::words(s@).len(),
        r == text::run_starts(s@),
{
    let ws = text::split_words(s);
    ws.len()
}

/// The part of `s` before its first space (all of `s` when it has none), as
/// a slice of `s`.
pub fn first_word(s: &str) -> (r: &str)
    ensures
        r@ == lifetimes::before_space(s@),
{
    let cs = text::chars_of(s);
    let mut i: usize = 0;
    while i < cs.len() && cs[i] != ' '
        invariant
            i <= cs.len(),
            forall|j: int| 0 <= j < i ==> cs@[j] != ' ',
        decreases cs.len() - i,
    {
        i = i + 1;
    }
    proof {
        lifetimes::lemma_before_space(cs@, i as int);
    }
    s.substring_char(0, i)
}

/// Appends an exclamation mark to `s`.
pub fn append_exclamation(s: &mut String)
    ensures
        final(s)@ == old(s)@.push('!'),
{
    text::push_char(s, '!');
}

/// Whether `c` has the Unicode `Uppercase` property (what std's
/// `char::is_uppercase` reports).
pub uninterp spec fn uppercase_property(c: char) -> bool;

/// std's `char::is_uppercase`, which tests the Unicode `Uppercase` property.
/// Its result is named `uppercase_property`; which characters have the
/// property (Unicode's tables) is left unstated.
#[verifier::external_body]
fn is_uppercase(c: char) -> (r: bool)
    ensures
        r == uppercase_property(c),
{
    c.is_uppercase()
}

/// The number of characters of `s` with the Uppercase property.
pub open spec fn uppercase_count(s: Seq<char>) -> nat
    decreases s.len(),
{
    if s.len() == 0 {
        0
    } else {
        uppercase_count(s.drop_last()) + if uppercase_property(s.last()) {
            1nat
        } else {
            0nat
        }
    }
}

/// Counts the uppercase characters of `s`.
pub fn count_uppercase(s: &str) -> (r: usize)
    ensures
        r == uppercase_count(s@),
{
    let cs = text::chars_of(s);
    let mut count: usize = 0;
    let mut i: usize = 0;
    while i < cs.len()
        invariant
            i <= cs.len(),
            count == uppercase_count(cs@.take(i as int)),
            count <= i,
        decreases cs.len() - i,
    {
        assert(cs@.take(i + 1).drop_last() =~= cs@.take(i as int));
        if is_uppercase(cs[i]) {
            count = count + 1;
        }
        i = i + 1;
    }
    assert(cs@.take(cs.len() as int) =~= cs@);
    count
}

/// Returns whichever of the two strings is longer in bytes (the second on a tie).
pub fn longest<'a>(s1: &'a str, s2: &'a str) -> (r: &'a str)
    ensures
        r == (if s1.len() > s2.len() {
            s1
        } else {
            s2
        }),
{
    if s1.len() > s2.len() {
        s1
    } else {
        s2
    }
}

} // verus!
