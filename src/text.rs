//! Building presentation text: strings, decimal and hexadecimal numbers.
use vstd::prelude::*;

verus! {

/// The decimal digits of `v`, without leading zeros.
pub open spec fn decimal_text(v: nat) -> Seq<char>
    decreases v,
{
    if v < 10 {
        seq![(48 + v) as char]
    } else {
        decimal_text(v / 10).push((48 + v % 10) as char)
    }
}

/// A hexadecimal digit, in lower case.
pub open spec fn hex_digit(d: nat) -> char {
    if d < 10 {
        (48 + d) as char
    } else {
        (87 + d) as char
    }
}

/// The lower-case hexadecimal digits of `v`, without leading zeros.
pub open spec fn hex_text(v: nat) -> Seq<char>
    decreases v,
{
    if v < 16 {
        seq![hex_digit(v)]
    } else {
        hex_text(v / 16).push(hex_digit(v % 16))
    }
}

/// Relies on `String::push_str`: appends the characters of `t`.
#[verifier::external_body]
pub(crate) fn push_str(s: &mut String, t: &str)
    ensures
        final(s)@ == old(s)@ + t@,
{
    s.push_str(t)
}

/// Relies on `String::push`: appends one character.
#[verifier::external_body]
pub(crate) fn push_char(s: &mut String, c: char)
    ensures
        final(s)@ == old(s)@.push(c),
{
    s.push(c)
}

/// Appends `v` in decimal.
pub fn push_decimal(s: &mut String, v: u16)
    ensures
        final(s)@ == old(s)@ + decimal_text(v as nat),
    decreases v,
{
    if v >= 10 {
        push_decimal(s, v / 10);
    }
    let c = (48 + (v % 10) as u8) as char;
    push_char(s, c);
    assert(s@ =~= old(s)@ + decimal_text(v as nat));
}

/// Appends `v` in lower-case hexadecimal.
pub fn push_hex(s: &mut String, v: u16)
    ensures
        final(s)@ == old(s)@ + hex_text(v as nat),
    decreases v,
{
    if v >= 16 {
        push_hex(s, v / 16);
    }
    let d = (v % 16) as u8;
    let c = if d < 10 { (48 + d) as char } else { (87 + d) as char };
    push_char(s, c);
    assert(s@ =~= old(s)@ + hex_text(v as nat));
}

} // verus!
