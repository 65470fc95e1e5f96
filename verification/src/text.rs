//! Small building blocks on text: appending a character, a run of one
//! character, and left padding.

use vstd::prelude::*;

verus! {

/// The text made of `n` copies of `c`.
pub open spec fn repeat_char(c: char, n: nat) -> Seq<char> {
    Seq::new(n, |i: int| c)
}

/// `text`, preceded by as many copies of `pad` as it takes to reach `width`
/// characters. A text that is already that long, or longer, is left as it is.
pub open spec fn padded(text: Seq<char>, width: nat, pad: char) -> Seq<char> {
    if text.len() >= width {
        text
    } else {
        repeat_char(pad, (width - text.len()) as nat) + text
    }
}

/// Calls `String::push`, which appends one character to the end of the
/// string and leaves the rest of it untouched.
#[verifier::external_body]
pub(crate) fn push_char(s: &mut String, c: char)
    ensures
        final(s)@ == old(s)@.push(c),
{
    s.push(c);
}

/// Appends `n` copies of `c` to `out`.
pub fn push_repeated(out: &mut String, c: char, n: usize)
    ensures
        final(out)@ == old(out)@ + repeat_char(c, n as nat),
{
    let mut i: usize = 0;
    while i < n
        invariant
            i <= n,
            out@ == old(out)@ + repeat_char(c, i as nat),
        decreases n - i,
    {
        push_char(out, c);
        i += 1;
        assert(out@ =~= old(out)@ + repeat_char(c, i as nat));
    }
}

/// Left-pads `text` with `pad` to `width` characters.
pub fn pad_left(text: &str, width: usize, pad: char) -> (out: String)
    ensures
        out@ == padded(text@, width as nat, pad),
{
    let len: usize = text.unicode_len();
    let mut out = String::new();
    if len < width {
        push_repeated(&mut out, pad, width - len);
    }
    out.append(text);
    assert(out@ =~= padded(text@, width as nat, pad));
    out
}

} // verus!
