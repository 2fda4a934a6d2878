//! Character classification and small string-building helpers.
//!
//! Text is modeled at the character level: a `&str` or `String` is viewed as
//! its `Seq<char>`, and every offset or range in this crate counts characters.

use vstd::prelude::*;

verus! {

/// A character with the Unicode `White_Space` property.
pub open spec fn is_ws_char(c: char) -> bool {
    let u = c as u32;
    (9 <= u && u <= 13)  // tab, line feed, vertical tab, form feed, carriage return
        || u == 32  // space
        || u == 0x85  // next line
        || u == 0xA0  // no-break space
        || u == 0x1680  // ogham space mark
        || (0x2000 <= u && u <= 0x200A)  // en quad .. hair space
        || u == 0x2028  // line separator
        || u == 0x2029  // paragraph separator
        || u == 0x202F  // narrow no-break space
        || u == 0x205F  // medium mathematical space
        || u == 0x3000  // ideographic space
}

/// Whether `c` is Unicode whitespace.
pub fn is_whitespace_char(c: char) -> (r: bool)
    ensures
        r == is_ws_char(c),
{
    let u = c as u32;
    (9 <= u && u <= 13) || u == 32 || u == 0x85 || u == 0xA0 || u == 0x1680
        || (0x2000 <= u && u <= 0x200A) || u == 0x2028 || u == 0x2029 || u == 0x202F
        || u == 0x205F || u == 0x3000
}

/// An ASCII decimal digit.
pub open spec fn is_digit_char(c: char) -> bool {
    48 <= c as u32 && c as u32 <= 57
}

/// The numeric value of an ASCII decimal digit.
pub open spec fn digit_val(c: char) -> u32 {
    (c as u32 - 48) as u32
}

/// Whether `c` is an ASCII decimal digit.
pub fn is_ascii_digit_char(c: char) -> (r: bool)
    ensures
        r == is_digit_char(c),
{
    let u = c as u32;
    48 <= u && u <= 57
}

/// The character for a decimal digit value.
pub open spec fn char_of_digit(d: int) -> char {
    (48 + d) as char
}

/// The decimal digit character for `d`.
pub fn digit_to_char(d: u32) -> (c: char)
    requires
        d < 10,
    ensures
        c == char_of_digit(d as int),
        is_digit_char(c),
        digit_val(c) == d,
{
    let b: u8 = (48 + d) as u8;
    let c = b as char;
    assert(c as u32 == 48 + d);
    c
}

/// The uppercase hexadecimal digit character for a value below 16.
pub open spec fn char_of_hex(d: int) -> char {
    if d < 10 {
        (48 + d) as char
    } else {
        (55 + d) as char
    }
}

/// The uppercase hexadecimal digit character for `d`.
pub fn hex_to_char(d: u8) -> (c: char)
    requires
        d < 16,
    ensures
        c == char_of_hex(d as int),
{
    let b: u8 = if d < 10 {
        48 + d
    } else {
        55 + d
    };
    let c = b as char;
    assert(c as u32 == b);
    c
}

/// The `k`-th uppercase ASCII letter, for `k` below 26.
pub open spec fn upper_letter(k: int) -> char {
    (65 + k) as char
}

/// The `k`-th lowercase ASCII letter, for `k` below 26.
pub open spec fn lower_letter(k: int) -> char {
    (97 + k) as char
}

/// The `k`-th uppercase ASCII letter.
pub fn upper_letter_char(k: usize) -> (c: char)
    requires
        k < 26,
    ensures
        c == upper_letter(k as int),
{
    let b: u8 = (65 + k) as u8;
    let c = b as char;
    assert(c as u32 == b);
    c
}

/// The `k`-th lowercase ASCII letter.
pub fn lower_letter_char(k: usize) -> (c: char)
    requires
        k < 26,
    ensures
        c == lower_letter(k as int),
{
    let b: u8 = (97 + k) as u8;
    let c = b as char;
    assert(c as u32 == b);
    c
}

/// ASCII uppercase letters folded to lowercase; everything else unchanged.
pub open spec fn ascii_lower(c: char) -> char {
    if 65 <= c as u32 && c as u32 <= 90 {
        (c as u32 + 32) as char
    } else {
        c
    }
}

/// Folds an ASCII uppercase letter to lowercase, leaving other characters as
/// they are.
pub fn ascii_lower_char(c: char) -> (r: char)
    ensures
        r == ascii_lower(c),
{
    let u = c as u32;
    if 65 <= u && u <= 90 {
        let b: u8 = (u + 32) as u8;
        let r = b as char;
        assert(r as u32 == u + 32);
        r
    } else {
        c
    }
}

/// Relies on `String::push`: appends exactly the given character.
#[verifier::external_body]
pub fn push_char(s: &mut String, c: char)
    ensures
        final(s)@ == old(s)@.push(c),
{
    s.push(c);
}

/// The decimal digit characters of `n`, most significant first.
pub open spec fn dec_digits(n: nat) -> Seq<char>
    decreases n,
{
    if n < 10 {
        seq![char_of_digit(n as int)]
    } else {
        dec_digits(n / 10).push(char_of_digit((n % 10) as int))
    }
}

/// Appends the decimal digits of `n` to `out`.
pub fn push_decimal(out: &mut String, n: u64)
    ensures
        final(out)@ == old(out)@ + dec_digits(n as nat),
    decreases n,
{
    if n < 10 {
        push_char(out, digit_to_char(n as u32));
        assert(out@ =~= old(out)@ + dec_digits(n as nat));
    } else {
        push_decimal(out, n / 10);
        push_char(out, digit_to_char((n % 10) as u32));
        assert(out@ =~= old(out)@ + dec_digits(n as nat));
    }
}

} // verus!
