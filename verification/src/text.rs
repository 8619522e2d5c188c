//! Conversions between Rust strings and their UTF-8 and UTF-16 encodings.

use vstd::prelude::*;
use vstd::utf8::{decode_utf8, valid_utf8};

verus! {

/// The characters that a sequence of UTF-16 code units decodes to, if it is valid UTF-16.
pub uninterp spec fn utf16_decode(units: Seq<u16>) -> Option<Seq<char>>;

/// The UTF-16 code units of a sequence of characters.
pub uninterp spec fn utf16_encode(chars: Seq<char>) -> Seq<u16>;

/// Calls `String::from_utf8`: the bytes form a string exactly when they are valid UTF-8, and
/// the string holds the characters they encode.
#[verifier::external_body]
pub(crate) fn string_from_utf8(bytes: Vec<u8>) -> (r: Option<String>)
    ensures
        r is Some <==> valid_utf8(bytes@),
        r matches Some(s) ==> s@ == decode_utf8(bytes@),
{
    String::from_utf8(bytes).ok()
}

/// Calls `String::from_utf16`: the code units form a string exactly when they are valid
/// UTF-16; the result is named by `utf16_decode`.
#[verifier::external_body]
pub(crate) fn string_from_utf16(units: &[u16]) -> (r: Option<String>)
    ensures
        r is Some <==> utf16_decode(units@) is Some,
        r matches Some(s) ==> s@ == utf16_decode(units@)->0,
{
    String::from_utf16(units).ok()
}

/// Calls `str::encode_utf16` and collects the code units. Every character takes one or two
/// code units, and the units decode back to the string.
#[verifier::external_body]
pub(crate) fn encode_utf16_units(s: &str) -> (r: Vec<u16>)
    ensures
        r@ == utf16_encode(s@),
        utf16_decode(r@) == Some(s@),
        s@.len() <= r@.len() <= 2 * s@.len(),
{
    s.encode_utf16().collect::<Vec<u16>>()
}

/// The pieces of `s` between the occurrences of `sep`, in order: there is one piece more
/// than there are separators, empty pieces included.
pub open spec fn split_on(s: Seq<char>, sep: char) -> Seq<Seq<char>>
    decreases s.len(),
{
    if s.len() == 0 {
        seq![Seq::<char>::empty()]
    } else {
        let rest = split_on(s.drop_first(), sep);
        if s[0] == sep {
            seq![Seq::<char>::empty()] + rest
        } else {
            rest.update(0, seq![s[0]] + rest[0])
        }
    }
}

/// A split never comes out empty.
pub proof fn lemma_split_on_len(s: Seq<char>, sep: char)
    ensures
        split_on(s, sep).len() >= 1,
    decreases s.len(),
{
    if s.len() > 0 {
        lemma_split_on_len(s.drop_first(), sep);
    }
}

/// `str::split` at a character: the pieces between the separators, in order.
#[verifier::external_body]
pub(crate) fn split_str(s: &str, sep: char) -> (r: Vec<String>)
    ensures
        r@.map_values(|p: String| p@) == split_on(s@, sep),
{
    s.split(sep).map(|p| p.to_string()).collect()
}

/// The decimal digits of `n`, most significant first.
pub open spec fn decimal_chars(n: nat) -> Seq<char>
    decreases n,
{
    if n < 10 {
        seq![(48 + n) as char]
    } else {
        decimal_chars(n / 10).push((48 + n % 10) as char)
    }
}

/// The decimal text of `v`: a minus sign for negative values, then the digits.
pub open spec fn signed_decimal_chars(v: int) -> Seq<char> {
    if v < 0 {
        seq!['-'] + decimal_chars((-v) as nat)
    } else {
        decimal_chars(v as nat)
    }
}

/// The lowercase hexadecimal digit of `d` (below 16).
pub open spec fn hex_digit(d: int) -> char {
    if d < 10 {
        (48 + d) as char
    } else {
        (87 + d) as char
    }
}

/// `i64::to_string`: the decimal text of `v`.
#[verifier::external_body]
pub(crate) fn int_to_string(v: i64) -> (r: String)
    ensures
        r@ == signed_decimal_chars(v as int),
{
    v.to_string()
}

/// `u64::to_string`: the decimal text of `v`.
#[verifier::external_body]
pub(crate) fn uint_to_string(v: u64) -> (r: String)
    ensures
        r@ == decimal_chars(v as nat),
{
    v.to_string()
}

/// `format!("{:02x}", v)`: the two lowercase hexadecimal digits of a byte.
#[verifier::external_body]
pub(crate) fn hex_byte_string(v: u8) -> (r: String)
    ensures
        r@ == seq![hex_digit((v / 16) as int), hex_digit((v % 16) as int)],
{
    format!("{:02x}", v)
}

/// The two strings one after the other.
pub(crate) fn concat_str(a: &str, b: &str) -> (r: String)
    ensures
        r@ == a@ + b@,
{
    let mut s = String::from_str(a);
    s.append(b);
    s
}

} // verus!
