//! Turning stack values into output text.

use vstd::prelude::*;
use crate::semantics::{decimal, digit_char, is_scalar, printable};

verus! {

/// Relies on `char::from_u32`: `Some` of the character whose code is `v` when
/// `v` is a Unicode scalar value, `None` otherwise.
#[verifier::external_body]
pub(crate) fn char_from_u32(v: u32) -> (r: Option<char>)
    ensures
        r == (if is_scalar(v) { Some(v as char) } else { None::<char> }),
{
    char::from_u32(v)
}

/// Relies on `String::push`: appends `c` to `s`.
#[verifier::external_body]
pub(crate) fn push_char(s: &mut String, c: char)
    ensures
        final(s)@ == old(s)@.push(c),
{
    s.push(c)
}

/// The decimal digits of `v`, most significant first.
pub fn decimal_chars(v: u32) -> (r: Vec<char>)
    ensures
        r@ == decimal(v as nat),
    decreases v,
{
    let d = (v % 10) as u8;
    let c = (48u8 + d) as char;
    assert(c == digit_char((v % 10) as nat));
    if v < 10 {
        vec![c]
    } else {
        let mut r = decimal_chars(v / 10);
        r.push(c);
        r
    }
}

/// The values of `s` from last to first, as characters, leaving out those that
/// are no Unicode scalar value.
pub fn printable_chars(s: &Vec<u32>) -> (r: Vec<char>)
    ensures
        r@ == printable(s@.reverse()),
{
    let mut r: Vec<char> = Vec::new();
    let mut i: usize = s.len();
    while i > 0
        invariant
            i <= s.len(),
            r@ == printable(s@.subrange(i as int, s.len() as int).reverse()),
        decreases i,
    {
        i = i - 1;
        let ghost rest = s@.subrange(i + 1, s.len() as int).reverse();
        let ghost next = s@.subrange(i as int, s.len() as int).reverse();
        assert(next.drop_last() =~= rest);
        assert(next.last() == s@[i as int]);
        match char_from_u32(s[i]) {
            Some(c) => r.push(c),
            None => {},
        }
    }
    assert(s@.subrange(0, s.len() as int) =~= s@);
    r
}

} // verus!
