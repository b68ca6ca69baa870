//! Small helpers on strings that the rest of the crate shares.

use vstd::prelude::*;
use vstd::string::StringExecFns;
use vstd::utf8::*;

verus! {

/// `String::from_utf8`: succeeds exactly on well-formed UTF-8, and the string
/// it then returns is the decoding of the given bytes.
#[verifier::external_body]
pub(crate) fn string_from_utf8(bytes: Vec<u8>) -> (r: Option<String>)
    ensures
        r is Some <==> valid_utf8(bytes@),
        r matches Some(s) ==> s@ == decode_utf8(bytes@),
{
    String::from_utf8(bytes).ok()
}

/// `String::push`: appends one character at the end.
#[verifier::external_body]
pub(crate) fn push_char(s: &mut String, c: char)
    ensures
        final(s)@ == old(s)@.push(c),
{
    s.push(c)
}

/// Appends a string slice at the end.
pub(crate) fn push_text(s: &mut String, t: &str)
    ensures
        final(s)@ == old(s)@ + t@,
{
    s.append(t);
}

/// Whether `s` reads exactly as `other`.
pub fn same_text(s: &String, other: &str) -> (r: bool)
    ensures
        r == (s@ == other@),
{
    let owned = other.to_owned();
    *s == owned
}

/// The character of a decimal digit.
pub open spec fn digit_char(d: int) -> char {
    ((48 + d) as u8) as char
}

/// A number in decimal, without leading zeros.
pub open spec fn decimal(n: nat) -> Seq<char>
    decreases n,
{
    if n < 10 {
        seq![digit_char(n as int)]
    } else {
        decimal(n / 10).push(digit_char((n % 10) as int))
    }
}

/// The last `width` decimal digits of a number, with leading zeros.
pub open spec fn fixed_decimal(n: nat, width: nat) -> Seq<char>
    decreases width,
{
    if width == 0 {
        Seq::empty()
    } else {
        fixed_decimal(n / 10, (width - 1) as nat).push(digit_char((n % 10) as int))
    }
}

/// Femtoseconds in one second.
pub const FEMTOS_PER_SECOND: u64 = 1_000_000_000_000_000;

/// A time in femtoseconds, written in seconds with fifteen fractional digits.
pub open spec fn time_text(femtos: u64) -> Seq<char> {
    decimal((femtos / FEMTOS_PER_SECOND) as nat).push('.') + fixed_decimal(
        (femtos % FEMTOS_PER_SECOND) as nat,
        15,
    )
}

fn push_digit(s: &mut String, d: u64)
    requires
        d < 10,
    ensures
        final(s)@ == old(s)@.push(digit_char(d as int)),
{
    let byte: u8 = 48u8 + (d as u8);
    push_char(s, byte as char);
}

pub(crate) fn push_decimal(s: &mut String, n: u64)
    ensures
        final(s)@ == old(s)@ + decimal(n as nat),
    decreases n,
{
    if n >= 10 {
        push_decimal(s, n / 10);
    }
    push_digit(s, n % 10);
    assert(final(s)@ =~= old(s)@ + decimal(n as nat));
}

fn push_fixed_decimal(s: &mut String, n: u64, width: u8)
    ensures
        final(s)@ == old(s)@ + fixed_decimal(n as nat, width as nat),
    decreases width,
{
    if width > 0 {
        push_fixed_decimal(s, n / 10, width - 1);
        push_digit(s, n % 10);
    }
    assert(final(s)@ =~= old(s)@ + fixed_decimal(n as nat, width as nat));
}

/// Writes a time in femtoseconds as seconds with fifteen fractional digits.
pub fn format_time(femtos: u64) -> (r: String)
    ensures
        r@ == time_text(femtos),
{
    let mut s = String::new();
    push_decimal(&mut s, femtos / FEMTOS_PER_SECOND);
    push_char(&mut s, '.');
    push_fixed_decimal(&mut s, femtos % FEMTOS_PER_SECOND, 15);
    assert(s@ =~= time_text(femtos));
    s
}

} // verus!
