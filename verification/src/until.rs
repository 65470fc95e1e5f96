//! Lookahead predicates that end a repeated group.
//!
//! Each predicate looks at the unconsumed tail of the input, before the next
//! element of the group is read, and answers whether the group ends here.

use vstd::prelude::*;

verus! {

/// The Unicode `Alphabetic` property of a character, as `char::is_alphabetic`
/// reports it.
pub uninterp spec fn is_alphabetic(c: char) -> bool;

/// `c` is one of the ten ASCII decimal digits.
pub open spec fn is_ascii_digit(c: char) -> bool {
    '0' <= c <= '9'
}

/// `c` is an ASCII letter or an ASCII decimal digit.
pub open spec fn is_ascii_alphanumeric(c: char) -> bool {
    ||| '0' <= c <= '9'
    ||| 'a' <= c <= 'z'
    ||| 'A' <= c <= 'Z'
}

/// Calls `char::is_alphabetic`; its answer is the Unicode `Alphabetic`
/// property of `c`, which is a function of `c` alone.
#[verifier::external_body]
fn char_is_alphabetic(c: char) -> (r: bool)
    ensures
        r == is_alphabetic(c),
{
    c.is_alphabetic()
}

/// `prefix` stands at the beginning of `text`.
pub open spec fn begins_with(text: Seq<char>, prefix: Seq<char>) -> bool {
    prefix.len() <= text.len() && text.subrange(0, prefix.len() as int) == prefix
}

/// A lookahead predicate as a value, so that a schema can hold it.
#[derive(Clone, Debug, PartialEq, Eq)]
pub enum StopPredicate {
    /// See [`ascii_digit`].
    AsciiDigit,
    /// See [`ascii_alphanumeric`].
    AsciiAlphanumeric,
    /// See [`ascii_alpha`].
    AsciiAlpha,
    /// Stops when the lookahead begins with this literal.
    StartsWith(String),
    /// See [`empty`].
    Empty,
}

impl StopPredicate {
    /// What the predicate answers on `lookahead`.
    pub open spec fn holds(self, lookahead: Seq<char>) -> bool {
        match self {
            StopPredicate::AsciiDigit => lookahead.len() == 0 || is_ascii_digit(lookahead[0]),
            StopPredicate::AsciiAlphanumeric => lookahead.len() == 0 || is_ascii_alphanumeric(
                lookahead[0],
            ),
            StopPredicate::AsciiAlpha => lookahead.len() == 0 || is_alphabetic(lookahead[0]),
            StopPredicate::StartsWith(delimiter) => begins_with(lookahead, delimiter@),
            StopPredicate::Empty => lookahead.len() == 0,
        }
    }

    /// Whether a repeated group ends before `lookahead`: the predicate
    /// holds, or nothing is left to read.
    pub open spec fn ends_group(self, lookahead: Seq<char>) -> bool {
        lookahead.len() == 0 || self.holds(lookahead)
    }

    /// Evaluates the predicate on `lookahead`.
    pub fn test(&self, lookahead: &str) -> (stop: bool)
        ensures
            stop == self.holds(lookahead@),
    {
        match self {
            StopPredicate::AsciiDigit => ascii_digit(lookahead),
            StopPredicate::AsciiAlphanumeric => ascii_alphanumeric(lookahead),
            StopPredicate::AsciiAlpha => ascii_alpha(lookahead),
            StopPredicate::StartsWith(delimiter) => has_prefix(lookahead, delimiter.as_str()),
            StopPredicate::Empty => empty(lookahead),
        }
    }

    /// Evaluates the predicate on `lookahead`, which is `len` characters
    /// long.
    pub(crate) fn test_of_len(&self, lookahead: &str, len: usize) -> (stop: bool)
        requires
            len == lookahead@.len(),
        ensures
            stop == self.holds(lookahead@),
    {
        match self {
            StopPredicate::StartsWith(delimiter) => has_prefix_of_len(
                lookahead,
                len,
                delimiter.as_str(),
            ),
            StopPredicate::Empty => len == 0,
            _ => self.test(lookahead),
        }
    }
}

/// Whether `slice` begins with `prefix`.
pub fn has_prefix(slice: &str, prefix: &str) -> (r: bool)
    ensures
        r == begins_with(slice@, prefix@),
{
    has_prefix_of_len(slice, slice.unicode_len(), prefix)
}

/// Whether `slice`, which is `len` characters long, begins with `prefix`.
pub(crate) fn has_prefix_of_len(slice: &str, len: usize, prefix: &str) -> (r: bool)
    requires
        len == slice@.len(),
    ensures
        r == begins_with(slice@, prefix@),
{
    let n: usize = prefix.unicode_len();
    if n > len {
        return false;
    }
    let mut i: usize = 0;
    while i < n
        invariant
            i <= n == prefix@.len() <= slice@.len(),
            slice@.subrange(0, i as int) == prefix@.subrange(0, i as int),
        decreases n - i,
    {
        if slice.get_char(i) != prefix.get_char(i) {
            assert(slice@.subrange(0, n as int)[i as int] != prefix@[i as int]);
            return false;
        }
        i += 1;
        assert(slice@.subrange(0, i as int) =~= slice@.subrange(0, i - 1).push(slice@[i - 1]));
        assert(prefix@.subrange(0, i as int) =~= prefix@.subrange(0, i - 1).push(prefix@[i - 1]));
    }
    assert(prefix@.subrange(0, n as int) =~= prefix@);
    true
}

/// Stops when the lookahead is empty or begins with an ASCII decimal digit.
pub fn ascii_digit(slice: &str) -> (stop: bool)
    ensures
        stop == (slice@.len() == 0 || is_ascii_digit(slice@[0])),
{
    if slice.is_empty() {
        true
    } else {
        let c = slice.get_char(0);
        '0' <= c && c <= '9'
    }
}

/// Stops when the lookahead is empty or begins with an ASCII letter or
/// digit.
pub fn ascii_alphanumeric(slice: &str) -> (stop: bool)
    ensures
        stop == (slice@.len() == 0 || is_ascii_alphanumeric(slice@[0])),
{
    if slice.is_empty() {
        true
    } else {
        let c = slice.get_char(0);
        ('0' <= c && c <= '9') || ('a' <= c && c <= 'z') || ('A' <= c && c <= 'Z')
    }
}

/// Stops when the lookahead is empty or begins with an alphabetic character.
pub fn ascii_alpha(slice: &str) -> (stop: bool)
    ensures
        stop == (slice@.len() == 0 || is_alphabetic(slice@[0])),
{
    if slice.is_empty() {
        true
    } else {
        char_is_alphabetic(slice.get_char(0))
    }
}

/// The predicate that stops when the lookahead begins with `delimiter`.
pub fn starts_with(delimiter: &str) -> (stop: StopPredicate)
    ensures
        stop matches StopPredicate::StartsWith(d) && d@ == delimiter@,
{
    StopPredicate::StartsWith(String::from_str(delimiter))
}

/// Stops when nothing is left to read.
pub fn empty(slice: &str) -> (stop: bool)
    ensures
        stop == (slice@.len() == 0),
{
    slice.is_empty()
}

} // verus!
