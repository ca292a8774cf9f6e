//! Verified rendering of numbers and shapes into diagnostic text.
//!
//! Error messages quote dimensions and shapes; these helpers build those
//! strings with contracts that say exactly which characters are appended.

use vstd::prelude::*;
use crate::error::owned;

verus! {

/// The one-character text of a decimal digit.
pub open spec fn digit_text(d: nat) -> Seq<char> {
    if d == 0 { "0"@ }
    else if d == 1 { "1"@ }
    else if d == 2 { "2"@ }
    else if d == 3 { "3"@ }
    else if d == 4 { "4"@ }
    else if d == 5 { "5"@ }
    else if d == 6 { "6"@ }
    else if d == 7 { "7"@ }
    else if d == 8 { "8"@ }
    else { "9"@ }
}

/// Decimal text of a natural number, most significant digit first, with no
/// leading zeros.
pub open spec fn dec_text(n: nat) -> Seq<char>
    decreases n,
{
    if n < 10 {
        digit_text(n)
    } else {
        dec_text(n / 10) + digit_text(n % 10)
    }
}

/// Decimal text of an integer, with a leading `-` when it is negative.
pub open spec fn int_text(i: int) -> Seq<char> {
    if i < 0 { "-"@ + dec_text((-i) as nat) } else { dec_text(i as nat) }
}

/// The elements of a shape written in decimal and separated by `", "`.
pub open spec fn dims_text(s: Seq<usize>) -> Seq<char>
    decreases s.len(),
{
    if s.len() == 0 {
        Seq::empty()
    } else if s.len() == 1 {
        dec_text(s[0] as nat)
    } else {
        dims_text(s.drop_last()) + ", "@ + dec_text(s.last() as nat)
    }
}

/// A shape written as a bracketed list, e.g. `[2, 3]`.
pub open spec fn shape_text(s: Seq<usize>) -> Seq<char> {
    "["@ + dims_text(s) + "]"@
}

fn digit_str(d: u64) -> (r: &'static str)
    requires
        d < 10,
    ensures
        r@ == digit_text(d as nat),
{
    if d == 0 { "0" }
    else if d == 1 { "1" }
    else if d == 2 { "2" }
    else if d == 3 { "3" }
    else if d == 4 { "4" }
    else if d == 5 { "5" }
    else if d == 6 { "6" }
    else if d == 7 { "7" }
    else if d == 8 { "8" }
    else { "9" }
}

/// Append the decimal text of `n`.
pub fn push_dec(s: &mut String, n: u64)
    ensures
        final(s)@ == old(s)@ + dec_text(n as nat),
    decreases n,
{
    if n >= 10 {
        push_dec(s, n / 10);
    }
    s.append(digit_str(n % 10));
    proof {
        if n >= 10 {
            assert(old(s)@ + dec_text((n / 10) as nat) + digit_text((n % 10) as nat)
                =~= old(s)@ + dec_text(n as nat));
        }
    }
}

/// Append the decimal text of a signed number.
pub fn push_int(s: &mut String, i: isize)
    ensures
        final(s)@ == old(s)@ + int_text(i as int),
{
    if i < 0 {
        s.append("-");
        let m: isize = i + 1;
        let mag: u64 = ((0 - m) as u64) + 1;
        push_dec(s, mag);
        proof {
            assert(old(s)@ + "-"@ + dec_text(mag as nat) =~= old(s)@ + int_text(i as int));
        }
    } else {
        push_dec(s, i as u64);
    }
}

/// Append the bracketed list text of a shape.
pub fn push_shape(s: &mut String, shape: &[usize])
    ensures
        final(s)@ == old(s)@ + shape_text(shape@),
{
    let ghost start = s@;
    s.append("[");
    let mut i: usize = 0;
    while i < shape.len()
        invariant
            i <= shape@.len(),
            s@ == start + "["@ + dims_text(shape@.subrange(0, i as int)),
        decreases shape@.len() - i,
    {
        if i > 0 {
            s.append(", ");
        }
        push_dec(s, shape[i] as u64);
        proof {
            let pre = shape@.subrange(0, i as int);
            let post = shape@.subrange(0, i + 1);
            assert(post.drop_last() =~= pre);
            if i == 0 {
                assert(start + "["@ + dims_text(pre) + dec_text(shape@[0] as nat)
                    =~= start + "["@ + dims_text(post));
            } else {
                assert(start + "["@ + dims_text(pre) + ", "@ + dec_text(shape@[i as int] as nat)
                    =~= start + "["@ + dims_text(post));
            }
        }
        i = i + 1;
    }
    s.append("]");
    proof {
        assert(shape@.subrange(0, shape@.len() as int) =~= shape@);
        assert(start + "["@ + dims_text(shape@) + "]"@ =~= start + shape_text(shape@));
    }
}

/// `s` cut to at most `max_len` characters, the last kept position taken
/// by an ellipsis when anything was cut.
pub open spec fn truncated(s: Seq<char>, max_len: nat) -> Seq<char> {
    if s.len() <= max_len {
        s
    } else if max_len == 0 {
        Seq::empty()
    } else {
        s.subrange(0, max_len - 1) + "\u{2026}"@
    }
}

/// Cut `s` to at most `max_len` characters (not bytes), ending in an
/// ellipsis when anything was cut.
pub fn truncate(s: &str, max_len: usize) -> (r: String)
    ensures
        r@ == truncated(s@, max_len as nat),
{
    let n = s.unicode_len();
    if n <= max_len {
        owned(s)
    } else if max_len == 0 {
        String::new()
    } else {
        let mut r = owned(s.substring_char(0, max_len - 1));
        r.append("\u{2026}");
        r
    }
}

} // verus!
