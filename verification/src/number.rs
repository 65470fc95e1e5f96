//! Decimal integers as text: what a text stands for, the canonical text of a
//! number, and the executable conversions in both directions.

use vstd::prelude::*;
use crate::text::{padded, push_char};
use crate::until::is_ascii_digit;

verus! {

/// Why a text is not a decimal integer of the wanted type.
#[derive(Clone, Copy, Debug, PartialEq, Eq, Structural)]
pub enum IntErrorKind {
    /// The text is empty.
    Empty,
    /// A character is not a decimal digit, or a sign stands alone.
    InvalidDigit,
    /// The number is above the largest value of the type.
    PosOverflow,
    /// The number is below the smallest value of the type.
    NegOverflow,
}

/// The number that a decimal digit stands for.
pub open spec fn digit_value(c: char) -> nat {
    (c as int - '0' as int) as nat
}

/// The decimal digit that stands for `d`, for `d` below ten.
pub open spec fn digit_char(d: nat) -> char {
    (d + 48) as char
}

/// Every character of `s` is an ASCII decimal digit.
pub open spec fn all_digits(s: Seq<char>) -> bool {
    forall|i: int| 0 <= i < s.len() ==> is_ascii_digit(#[trigger] s[i])
}

/// The number that a run of decimal digits stands for; leading zeros count
/// for nothing, and the empty run stands for zero.
pub open spec fn decimal(s: Seq<char>) -> nat
    decreases s.len(),
{
    if s.len() == 0 {
        0
    } else {
        decimal(s.drop_last()) * 10 + digit_value(s.last())
    }
}

/// The canonical decimal text of `n`: no sign, no leading zero but for zero
/// itself.
pub open spec fn digits_of(n: nat) -> Seq<char>
    decreases n,
{
    if n < 10 {
        seq![digit_char(n)]
    } else {
        digits_of(n / 10).push(digit_char(n % 10))
    }
}

/// The canonical decimal text of an integer: a minus sign before the digits
/// of a negative one.
pub open spec fn integer_text(v: int) -> Seq<char> {
    if v < 0 {
        seq!['-'] + digits_of((-v) as nat)
    } else {
        digits_of(v as nat)
    }
}

/// What `s` stands for as an unsigned decimal integer no larger than `max`:
/// an optional plus sign, then one or more digits.
pub open spec fn parse_unsigned(s: Seq<char>, max: int) -> Result<int, IntErrorKind> {
    let digits = if s.len() > 0 && s[0] == '+' {
        s.drop_first()
    } else {
        s
    };
    if s.len() == 0 {
        Err(IntErrorKind::Empty)
    } else if digits.len() == 0 || !all_digits(digits) {
        Err(IntErrorKind::InvalidDigit)
    } else if decimal(digits) > max {
        Err(IntErrorKind::PosOverflow)
    } else {
        Ok(decimal(digits) as int)
    }
}

/// A number that was read, held against the range from `min` to `max`.
pub open spec fn in_range(v: int, min: int, max: int) -> Result<int, IntErrorKind> {
    if v < min {
        Err(IntErrorKind::NegOverflow)
    } else if v > max {
        Err(IntErrorKind::PosOverflow)
    } else {
        Ok(v)
    }
}

/// What `s` stands for as a signed decimal integer between `min` and `max`:
/// an optional sign, then one or more digits.
pub open spec fn parse_signed(s: Seq<char>, min: int, max: int) -> Result<int, IntErrorKind> {
    let negative = s.len() > 0 && s[0] == '-';
    let digits = if s.len() > 0 && (s[0] == '-' || s[0] == '+') {
        s.drop_first()
    } else {
        s
    };
    if s.len() == 0 {
        Err(IntErrorKind::Empty)
    } else if digits.len() == 0 || !all_digits(digits) {
        Err(IntErrorKind::InvalidDigit)
    } else if negative {
        in_range(-(decimal(digits) as int), min, max)
    } else {
        in_range(decimal(digits) as int, min, max)
    }
}

/// Appending a digit to a run multiplies its value by ten and adds the digit.
proof fn lemma_decimal_push(s: Seq<char>, c: char)
    ensures
        decimal(s.push(c)) == decimal(s) * 10 + digit_value(c),
{
    assert(s.push(c).drop_last() =~= s);
}

/// The digits of a number are digits, at least one of them, and stand for
/// that number.
pub proof fn digits_read_back(n: nat)
    ensures
        digits_of(n).len() >= 1,
        all_digits(digits_of(n)),
        decimal(digits_of(n)) == n,
        n > 0 ==> digits_of(n)[0] != '0',
        digits_of(n)[0] != '+',
        digits_of(n)[0] != '-',
    decreases n,
{
    if n < 10 {
        let s = seq![digit_char(n)];
        assert(s.drop_last() =~= Seq::<char>::empty());
        assert(decimal(s.drop_last()) == 0);
        assert(digit_value(digit_char(n)) == n);
    } else {
        digits_read_back(n / 10);
        let head = digits_of(n / 10);
        let c = digit_char(n % 10);
        lemma_decimal_push(head, c);
        assert(digit_value(c) == n % 10);
        assert(digits_of(n)[0] == head[0]);
        assert forall|i: int| 0 <= i < digits_of(n).len() implies is_ascii_digit(
            #[trigger] digits_of(n)[i],
        ) by {
            if i < head.len() {
                assert(digits_of(n)[i] == head[i]);
            }
        }
    }
}

/// A digit stands for the number whose digit it is.
proof fn lemma_digit_char(c: char)
    requires
        is_ascii_digit(c),
    ensures
        digit_value(c) < 10,
        digit_char(digit_value(c)) == c,
{
}

/// The canonical text of the number that a run of digits stands for is no
/// longer than the run, and padded with zeros to the length of the run it
/// is the run itself.
pub proof fn zero_padded_digits_come_back(s: Seq<char>)
    requires
        s.len() >= 1,
        all_digits(s),
    ensures
        digits_of(decimal(s)).len() <= s.len(),
        padded(digits_of(decimal(s)), s.len(), '0') == s,
    decreases s.len(),
{
    let head = s.drop_last();
    let c = s.last();
    lemma_digit_char(c);
    assert(s =~= head.push(c));
    if head.len() == 0 {
        assert(decimal(head) == 0);
        assert(digits_of(decimal(s)) =~= seq![c]);
        assert(padded(digits_of(decimal(s)), s.len(), '0') =~= s);
    } else {
        assert(all_digits(head)) by {
            assert forall|i: int| 0 <= i < head.len() implies is_ascii_digit(#[trigger] head[i]) by {
                assert(head[i] == s[i]);
            }
        }
        zero_padded_digits_come_back(head);
        let inner = digits_of(decimal(head));
        if decimal(head) == 0 {
            assert(decimal(s) == digit_value(c));
            assert(digits_of(decimal(s)) =~= seq![c]);
            assert(inner =~= seq!['0']);
            assert(padded(digits_of(decimal(s)), s.len(), '0') =~= padded(inner, head.len(), '0').push(c));
        } else {
            let n = decimal(s);
            assert(n == decimal(head) * 10 + digit_value(c));
            assert(n >= 10);
            assert(n / 10 == decimal(head));
            assert(n % 10 == digit_value(c));
            assert(digits_of(n) == inner.push(c));
            assert(padded(digits_of(n), s.len(), '0') =~= padded(inner, head.len(), '0').push(c));
        }
    }
}

/// Reads `text` as an unsigned decimal integer no larger than `max`.
pub fn read_unsigned(text: &str, max: u64) -> (r: Result<u64, IntErrorKind>)
    ensures
        match r {
            Ok(v) => parse_unsigned(text@, max as int) == Ok::<int, IntErrorKind>(v as int),
            Err(kind) => parse_unsigned(text@, max as int) == Err::<int, IntErrorKind>(kind),
        },
{
    let len: usize = text.unicode_len();
    if len == 0 {
        return Err(IntErrorKind::Empty);
    }
    let start: usize = if text.get_char(0) == '+' {
        1
    } else {
        0
    };
    assert(text@.drop_first() =~= text@.subrange(1, len as int));
    assert(text@ =~= text@.subrange(0, len as int));
    read_digits(text, start, len, max)
}

/// Reads the characters of `text` from `start` on as a run of one or more
/// decimal digits that stands for a number no larger than `max`.
fn read_digits(text: &str, start: usize, len: usize, max: u64) -> (r: Result<u64, IntErrorKind>)
    requires
        start <= len == text@.len(),
    ensures
        ({
            let digits = text@.subrange(start as int, len as int);
            match r {
                Ok(v) => digits.len() > 0 && all_digits(digits) && decimal(digits) == v && v
                    <= max,
                Err(kind) => if digits.len() == 0 || !all_digits(digits) {
                    kind == IntErrorKind::InvalidDigit
                } else {
                    kind == IntErrorKind::PosOverflow && decimal(digits) > max
                },
            }
        }),
{
    if start == len {
        return Err(IntErrorKind::InvalidDigit);
    }
    let mut value: u64 = 0;
    let mut overflow = false;
    let mut i: usize = start;
    while i < len
        invariant
            start <= i <= len == text@.len(),
            all_digits(text@.subrange(start as int, i as int)),
            !overflow ==> value == decimal(text@.subrange(start as int, i as int)) && value <= max,
            overflow ==> decimal(text@.subrange(start as int, i as int)) > max,
        decreases len - i,
    {
        let c = text.get_char(i);
        let ghost before = text@.subrange(start as int, i as int);
        let ghost after = text@.subrange(start as int, i + 1);
        assert(after =~= before.push(c));
        if !('0' <= c && c <= '9') {
            assert(!is_ascii_digit(text@.subrange(start as int, len as int)[i - start]));
            return Err(IntErrorKind::InvalidDigit);
        }
        proof {
            lemma_decimal_push(before, c);
        }
        let d: u64 = (c as u32 - '0' as u32) as u64;
        if !overflow {
            if d > max || value > (max - d) / 10 {
                overflow = true;
            } else {
                value = value * 10 + d;
            }
        }
        i += 1;
    }
    assert(text@.subrange(start as int, i as int) =~= text@.subrange(start as int, len as int));
    if overflow {
        Err(IntErrorKind::PosOverflow)
    } else {
        Ok(value)
    }
}

/// Reads `text` as a signed decimal integer between `min` and `max`.
pub fn read_signed(text: &str, min: i64, max: i64) -> (r: Result<i64, IntErrorKind>)
    ensures
        match r {
            Ok(v) => parse_signed(text@, min as int, max as int) == Ok::<int, IntErrorKind>(
                v as int,
            ),
            Err(kind) => parse_signed(text@, min as int, max as int) == Err::<int, IntErrorKind>(
                kind,
            ),
        },
{
    let len: usize = text.unicode_len();
    if len == 0 {
        return Err(IntErrorKind::Empty);
    }
    let first = text.get_char(0);
    let start: usize = if first == '-' || first == '+' {
        1
    } else {
        0
    };
    assert(text@.drop_first() =~= text@.subrange(1, len as int));
    assert(text@ =~= text@.subrange(0, len as int));
    if first == '-' {
        // No magnitude above this one is the magnitude of a value of `i64`.
        match read_digits(text, start, len, 9223372036854775808u64) {
            Ok(magnitude) => {
                if magnitude == 9223372036854775808u64 {
                    check_range(i64::MIN, min, max)
                } else {
                    check_range(-(magnitude as i64), min, max)
                }
            },
            Err(IntErrorKind::PosOverflow) => Err(IntErrorKind::NegOverflow),
            Err(kind) => Err(kind),
        }
    } else {
        match read_digits(text, start, len, i64::MAX as u64) {
            Ok(magnitude) => check_range(magnitude as i64, min, max),
            Err(kind) => Err(kind),
        }
    }
}

/// Holds a number that was read against the range from `min` to `max`.
fn check_range(v: i64, min: i64, max: i64) -> (r: Result<i64, IntErrorKind>)
    ensures
        match r {
            Ok(w) => in_range(v as int, min as int, max as int) == Ok::<int, IntErrorKind>(
                w as int,
            ),
            Err(kind) => in_range(v as int, min as int, max as int) == Err::<int, IntErrorKind>(
                kind,
            ),
        },
{
    if v < min {
        Err(IntErrorKind::NegOverflow)
    } else if v > max {
        Err(IntErrorKind::PosOverflow)
    } else {
        Ok(v)
    }
}

/// Appends the canonical decimal text of `n` to `out`.
pub fn write_unsigned(out: &mut String, n: u64)
    ensures
        final(out)@ == old(out)@ + digits_of(n as nat),
    decreases n,
{
    if n >= 10 {
        write_unsigned(out, n / 10);
    }
    let c: char = ((n % 10) as u8 + 48u8) as char;
    push_char(out, c);
    assert(out@ =~= old(out)@ + digits_of(n as nat));
}

/// Appends the canonical decimal text of `v` to `out`.
pub fn write_signed(out: &mut String, v: i64)
    ensures
        final(out)@ == old(out)@ + integer_text(v as int),
{
    if v < 0 {
        push_char(out, '-');
        let magnitude: u64 = if v == i64::MIN {
            9223372036854775808u64
        } else {
            (-v) as u64
        };
        write_unsigned(out, magnitude);
        assert(out@ =~= old(out)@ + integer_text(v as int));
    } else {
        write_unsigned(out, v as u64);
    }
}

} // verus!
