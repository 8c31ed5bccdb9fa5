//! Small pieces of text handling shared by the modules: building strings
//! character by character, reading the characters of a string, and the
//! base-16 notation of numbers.
use vstd::prelude::*;

verus! {

/// `String::push`: appends one character.
#[verifier::external_body]
pub(crate) fn string_push(s: &mut String, c: char)
    ensures
        final(s)@ == old(s)@.push(c),
{
    s.push(c)
}

/// `String::push_str`: appends a string.
#[verifier::external_body]
pub(crate) fn string_push_str(s: &mut String, t: &str)
    ensures
        final(s)@ == old(s)@ + t@,
{
    s.push_str(t)
}

/// The characters of `s`, in order.
pub fn chars_of(s: &str) -> (v: Vec<char>)
    ensures
        v@ == s@,
{
    let mut v: Vec<char> = Vec::new();
    for c in it: s.chars()
        invariant
            v@ == it.seq().subrange(0, it.index() as int),
    {
        v.push(c);
    }
    v
}

/// The number of bytes that the UTF-8 encoding of `c` takes.
pub open spec fn utf8_len(c: char) -> nat {
    if (c as u32) < 0x80 {
        1
    } else if (c as u32) < 0x800 {
        2
    } else if (c as u32) < 0x10000 {
        3
    } else {
        4
    }
}

/// The value of a hexadecimal digit of either case.
pub open spec fn hex_digit_value(c: char) -> Option<nat> {
    if '0' <= c && c <= '9' {
        Some((c as u32 - '0' as u32) as nat)
    } else if 'a' <= c && c <= 'f' {
        Some((c as u32 - 'a' as u32 + 10) as nat)
    } else if 'A' <= c && c <= 'F' {
        Some((c as u32 - 'A' as u32 + 10) as nat)
    } else {
        None
    }
}

/// Characters outside ASCII are not hex digits.
pub proof fn lemma_non_ascii_not_hex(c: char)
    requires
        utf8_len(c) >= 2,
    ensures
        hex_digit_value(c) is None,
{
}

pub open spec fn all_hex_digits(cs: Seq<char>) -> bool {
    forall|i: int| 0 <= i < cs.len() ==> #[trigger] hex_digit_value(cs[i]) is Some
}

/// The number that a sequence of hexadecimal digits denotes.
pub open spec fn hex_value(cs: Seq<char>) -> nat
    decreases cs.len(),
{
    if cs.len() == 0 {
        0
    } else {
        hex_value(cs.drop_last()) * 16 + hex_digit_value(cs.last()).unwrap_or(0)
    }
}

/// What `from_str_radix(_, 16)` of an unsigned integer type whose largest value
/// is `max` gives for the characters `cs`: an optional `+` sign, then one or more
/// hex digits of either case, whose value must not exceed `max`.
pub open spec fn parse_radix_16(cs: Seq<char>, max: nat) -> Option<nat> {
    let digits = if cs.len() > 0 && cs[0] == '+' {
        cs.drop_first()
    } else {
        cs
    };
    if digits.len() > 0 && all_hex_digits(digits) && hex_value(digits) <= max {
        Some(hex_value(digits))
    } else {
        None
    }
}

/// `u8::from_str_radix(s, 16)`, keeping only the value. The standard library
/// documents the accepted text as an optional `+` followed by digits of the
/// radix in either case; a value above 255 is an overflow error.
#[verifier::external_body]
pub(crate) fn u8_from_hex_str(s: &str) -> (r: Option<u8>)
    ensures
        r matches Some(v) ==> parse_radix_16(s@, 255) == Some(v as nat),
        r is None ==> parse_radix_16(s@, 255) is None,
{
    u8::from_str_radix(s, 16).ok()
}

/// `u32::from_str_radix(s, 16)`, keeping only the value. The standard library
/// documents the accepted text as an optional `+` followed by digits of the
/// radix in either case; a value above `u32::MAX` is an overflow error.
#[verifier::external_body]
pub(crate) fn u32_from_hex_str(s: &str) -> (r: Option<u32>)
    ensures
        r matches Some(v) ==> parse_radix_16(s@, 0xffff_ffff) == Some(v as nat),
        r is None ==> parse_radix_16(s@, 0xffff_ffff) is None,
{
    u32::from_str_radix(s, 16).ok()
}

/// The texts of a sequence of strings.
pub open spec fn texts(s: Seq<String>) -> Seq<Seq<char>> {
    s.map_values(|t: String| t@)
}


/// `<str as PartialEq>::eq`: two strings are equal when they hold the same characters.
#[verifier::external_body]
pub(crate) fn str_eq(a: &str, b: &str) -> (r: bool)
    ensures
        r == (a@ == b@),
{
    a == b
}

/// The decimal digit for `d`, which is below ten.
pub open spec fn decimal_digit(d: nat) -> char {
    seq!['0', '1', '2', '3', '4', '5', '6', '7', '8', '9'][(d % 10) as int]
}

/// The decimal notation of `n`, without leading zeros ("0" for zero).
pub open spec fn decimal(n: nat) -> Seq<char>
    decreases n,
{
    if n < 10 {
        seq![decimal_digit(n)]
    } else {
        decimal(n / 10).push(decimal_digit(n % 10))
    }
}

/// Appends the decimal notation of `n`.
pub fn push_decimal(s: &mut String, n: u64)
    ensures
        final(s)@ == old(s)@ + decimal(n as nat),
    decreases n,
{
    if n >= 10 {
        push_decimal(s, n / 10);
    }
    let d = (n % 10) as u8;
    let c = if d == 0 { '0' } else if d == 1 { '1' } else if d == 2 { '2' } else if d == 3 { '3' }
        else if d == 4 { '4' } else if d == 5 { '5' } else if d == 6 { '6' } else if d == 7 { '7' }
        else if d == 8 { '8' } else { '9' };
    string_push(s, c);
}

} // verus!
