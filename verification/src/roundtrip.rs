//! What decoding gives back of what encoding wrote, for compressed integers and strings.

use crate::bytes::{lemma_u16_le_roundtrip, lemma_u32_le_roundtrip, u16_le, u32_at, u32_le};
use crate::cipher::{lemma_crypt_involution, spec_crypt};
use crate::decode::decoder::{spec_take, spec_u32};
use crate::decode::{
    mask16, mask8, spec_i32, spec_i8, spec_mask_bytes, spec_string, spec_string_length,
    spec_unmask_units, spec_u8, Stream,
};
use crate::encode::size::spec_str_size_hint;
use crate::encode::{spec_mask_units, spec_str_bytes, spec_str_header};
use crate::text::{utf16_decode, utf16_encode};
use crate::types::{needs_long_form, spec_int32, spec_int32_bytes};
use vstd::prelude::*;
use vstd::utf8::{decode_utf8, encode_utf8, is_ascii_chars, valid_utf8};

verus! {

/// The stream `s` with its data replaced by `data`.
pub open spec fn with_data(s: Stream, data: Seq<u8>) -> Stream {
    Stream {
        data,
        key: s.key,
        content_start: s.content_start,
        version_checksum: s.version_checksum,
    }
}

/// Bytes placed between a prefix and a suffix are read back unchanged.
pub proof fn lemma_take_within(s: Stream, pre: Seq<u8>, b: Seq<u8>, suf: Seq<u8>, k: int, n: int)
    requires
        0 <= k,
        0 <= n,
        k + n <= b.len(),
    ensures
        spec_take(with_data(s, pre + b + suf), pre.len() + k, n) == Ok::<(Seq<u8>, int), crate::decode::ErrorCode>(
            (b.subrange(k, k + n), pre.len() + k + n),
        ),
{
    let d = pre + b + suf;
    assert(d.subrange(pre.len() + k, pre.len() + k + n) =~= b.subrange(k, k + n));
}

/// A single byte placed between a prefix and a suffix is read back unchanged.
pub proof fn lemma_u8_within(s: Stream, pre: Seq<u8>, b: Seq<u8>, suf: Seq<u8>, k: int)
    requires
        0 <= k < b.len(),
    ensures
        spec_u8(with_data(s, pre + b + suf), pre.len() + k) == Ok::<(u8, int), crate::decode::ErrorCode>(
            (b[k], pre.len() + k + 1),
        ),
{
    let d = pre + b + suf;
    assert(d[pre.len() + k] == b[k]);
}

/// Four bytes placed between a prefix and a suffix are read back as the integer they encode.
pub proof fn lemma_u32_within(s: Stream, pre: Seq<u8>, b: Seq<u8>, suf: Seq<u8>, k: int)
    requires
        0 <= k,
        k + 4 <= b.len(),
    ensures
        spec_u32(with_data(s, pre + b + suf), pre.len() + k) == Ok::<(u32, int), crate::decode::ErrorCode>(
            (u32_at(b, k), pre.len() + k + 4),
        ),
{
    let d = pre + b + suf;
    assert(d[pre.len() + k] == b[k]);
    assert(d[pre.len() + k + 1] == b[k + 1]);
    assert(d[pre.len() + k + 2] == b[k + 2]);
    assert(d[pre.len() + k + 3] == b[k + 3]);
}

/// A compressed integer decodes to the value it was encoded from, wherever it is placed, and
/// its size hint is the number of bytes written.
pub proof fn lemma_int32_roundtrip(s: Stream, pre: Seq<u8>, suf: Seq<u8>, v: i32)
    ensures
        ({
            let b = spec_int32_bytes(v);
            &&& spec_int32(with_data(s, pre + b + suf), pre.len() as int) == Ok::<
                (i32, int),
                crate::decode::ErrorCode,
            >((v, (pre.len() + b.len()) as int))
            &&& b.len() == (if needs_long_form(v as int) {
                5int
            } else {
                1int
            })
        }),
{
    let b = spec_int32_bytes(v);
    let t = with_data(s, pre + b + suf);
    lemma_u8_within(s, pre, b, suf, 0);
    if needs_long_form(v as int) {
        assert(0x80u8 as i8 == i8::MIN) by (bit_vector);
        lemma_u32_le_roundtrip(v as u32);
        assert(b.subrange(1, 5) =~= u32_le(v as u32));
        lemma_u32_within(s, pre, b, suf, 1);
        assert(u32_at(b, 1) == u32_at(u32_le(v as u32), 0));
        assert((v as u32) as i32 == v) by (bit_vector);
    } else {
        assert(((v as i8) as u8) as i8 == v as i8) by (bit_vector);
        assert(-128 < v <= 127 ==> (v as i8) as i32 == v) by (bit_vector);
        assert(-128 < v <= 127 ==> (v as i8) != i8::MIN) by (bit_vector);
    }
}

/// Masking twice gives the bytes back.
pub proof fn lemma_mask_bytes_involution(b: Seq<u8>)
    ensures
        spec_mask_bytes(spec_mask_bytes(b)) == b,
{
    assert forall|i: int| 0 <= i < b.len() implies #[trigger] spec_mask_bytes(spec_mask_bytes(b))[i]
        == b[i] by {
        let x = b[i];
        let m = mask8(i);
        assert((x ^ m) ^ m == x) by (bit_vector);
    }
    assert(spec_mask_bytes(spec_mask_bytes(b)) =~= b);
}

/// Reading masked code units back gives the code units.
pub proof fn lemma_mask_units_roundtrip(u: Seq<u16>)
    ensures
        spec_unmask_units(spec_mask_units(u)) == u,
{
    let m = spec_mask_units(u);
    assert forall|i: int| 0 <= i < u.len() implies #[trigger] spec_unmask_units(m)[i] == u[i] by {
        let w = u[i] ^ mask16(i);
        lemma_u16_le_roundtrip(w);
        assert(m[2 * i] == u16_le(w)[0]);
        assert(m[2 * i + 1] == u16_le(w)[1]);
        let x = u[i];
        let k = mask16(i);
        assert((x ^ k) ^ k == x) by (bit_vector);
    }
    assert(spec_unmask_units(m) =~= u);
}

/// The chars of a string whose encoding is empty.
proof fn lemma_empty_encoding(c: Seq<char>)
    requires
        encode_utf8(c).len() == 0,
    ensures
        c.len() == 0,
{
    vstd::utf8::encode_utf8_decode_utf8(c);
    assert(encode_utf8(c) =~= Seq::<u8>::empty());
    assert(decode_utf8(Seq::<u8>::empty()) =~= Seq::<char>::empty());
}

/// A string decodes to the characters it was encoded from, wherever it is placed and with
/// whatever key stream (the same one for both).
///
/// Its length must fit the 32-bit length field. For strings that are not ASCII, the UTF-16
/// conversion must give back the string and take at least one unit per character; the
/// standard library's conversion does both.
pub proof fn lemma_string_roundtrip(s: Stream, pre: Seq<u8>, suf: Seq<u8>, c: Seq<char>)
    requires
        is_ascii_chars(c) ==> encode_utf8(c).len() <= i32::MAX,
        !is_ascii_chars(c) ==> {
            &&& utf16_decode(utf16_encode(c)) == Some(c)
            &&& c.len() <= utf16_encode(c).len() <= i32::MAX
        },
    ensures
        ({
            let b = spec_str_bytes(s.key, c);
            spec_string(with_data(s, pre + b + suf), pre.len() as int) == Ok::<
                (Seq<char>, int),
                crate::decode::ErrorCode,
            >((c, (pre.len() + b.len()) as int))
        }),
{
    let bytes = encode_utf8(c);
    let b = spec_str_bytes(s.key, c);
    let t = with_data(s, pre + b + suf);
    let p = pre.len() as int;
    vstd::utf8::encode_utf8_valid_utf8(c);
    vstd::utf8::encode_utf8_decode_utf8(c);
    lemma_u8_within(s, pre, b, suf, 0);
    if bytes.len() == 0 {
        lemma_empty_encoding(c);
        assert(c =~= Seq::<char>::empty());
    } else if is_ascii_chars(c) {
        let len = bytes.len() as i32;
        assert(len as int == bytes.len());
        let h = spec_str_header(c);
        let body = spec_crypt(s.key, spec_mask_bytes(bytes));
        assert(b == h + body);
        if len > 127 {
            assert(0x80u8 as i8 == i8::MIN) by (bit_vector);
            lemma_u32_le_roundtrip(len as u32);
            assert(b.subrange(1, 5) =~= u32_le(len as u32));
            lemma_u32_within(s, pre, b, suf, 1);
            assert(u32_at(b, 1) == u32_at(u32_le(len as u32), 0));
            assert(0 < len ==> (len as u32) as i32 == len) by (bit_vector);
            assert(spec_string_length(t, i8::MIN, p + 1) == Ok::<(i32, int), crate::decode::ErrorCode>(
                (len, p + 5),
            ));
            lemma_take_within(s, pre, b, suf, 5, len as int);
            assert(b.subrange(5, 5 + len) =~= body);
        } else {
            let m: i8 = (-(len as int)) as i8;
            assert(m == -(len as int));
            assert(((m as u8) as i8) == m) by (bit_vector);
            lemma_take_within(s, pre, b, suf, 1, len as int);
            assert(b.subrange(1, 1 + len) =~= body);
        }
        lemma_crypt_involution(s.key, spec_mask_bytes(bytes));
        lemma_mask_bytes_involution(bytes);
    } else {
        let units = utf16_encode(c);
        let n = units.len() as i32;
        assert(n as int == units.len());
        let h = spec_str_header(c);
        let body = spec_crypt(s.key, spec_mask_units(units));
        assert(b == h + body);
        if n >= 127 {
            assert(0x7fu8 as i8 == i8::MAX) by (bit_vector);
            lemma_u32_le_roundtrip(n as u32);
            assert(b.subrange(1, 5) =~= u32_le(n as u32));
            lemma_u32_within(s, pre, b, suf, 1);
            assert(u32_at(b, 1) == u32_at(u32_le(n as u32), 0));
            assert(0 < n ==> (n as u32) as i32 == n) by (bit_vector);
            assert(spec_string_length(t, i8::MAX, p + 1) == Ok::<(i32, int), crate::decode::ErrorCode>(
                (n, p + 5),
            ));
            lemma_take_within(s, pre, b, suf, 5, 2 * n);
            assert(b.subrange(5, 5 + 2 * n) =~= body);
        } else {
            let m: i8 = n as i8;
            assert(m == n);
            assert(((m as u8) as i8) == m) by (bit_vector);
            lemma_take_within(s, pre, b, suf, 1, 2 * n);
            assert(b.subrange(1, 1 + 2 * n) =~= body);
        }
        lemma_crypt_involution(s.key, spec_mask_units(units));
        lemma_mask_units_roundtrip(units);
    }
}

} // verus!

verus! {

/// `b` lies in the data of `s` at `pos`.
pub open spec fn holds_at(s: Stream, pos: int, b: Seq<u8>) -> bool {
    0 <= pos && pos + b.len() <= s.data.len() && s.data.subrange(pos, pos + b.len()) == b
}

/// The data of `s` is its bytes before `pos`, then `b`, then the rest.
pub proof fn lemma_split_at(s: Stream, pos: int, b: Seq<u8>)
    requires
        holds_at(s, pos, b),
    ensures
        s == with_data(
            s,
            s.data.subrange(0, pos) + b + s.data.subrange(pos + b.len(), s.data.len() as int),
        ),
        s.data.subrange(0, pos).len() == pos,
{
    assert(s.data =~= s.data.subrange(0, pos) + b + s.data.subrange(
        pos + b.len(),
        s.data.len() as int,
    ));
}

/// A part of bytes that lie in the data lies in the data too.
pub proof fn lemma_holds_at_part(s: Stream, pos: int, b: Seq<u8>, k: int, n: int)
    requires
        holds_at(s, pos, b),
        0 <= k,
        0 <= n,
        k + n <= b.len(),
    ensures
        holds_at(s, pos + k, b.subrange(k, k + n)),
{
    assert(s.data.subrange(pos + k, pos + k + n) =~= b.subrange(k, k + n));
}

/// A compressed integer lying in the data decodes to its value.
pub proof fn lemma_int32_at(s: Stream, pos: int, v: i32)
    requires
        holds_at(s, pos, spec_int32_bytes(v)),
    ensures
        spec_int32(s, pos) == Ok::<(i32, int), crate::decode::ErrorCode>(
            (v, pos + spec_int32_bytes(v).len()),
        ),
{
    let b = spec_int32_bytes(v);
    lemma_split_at(s, pos, b);
    lemma_int32_roundtrip(s, s.data.subrange(0, pos), s.data.subrange(pos + b.len(), s.data.len() as int), v);
}

/// An encoded string lying in the data decodes to its characters (see
/// `lemma_string_roundtrip`).
pub proof fn lemma_string_at(s: Stream, pos: int, c: Seq<char>)
    requires
        holds_at(s, pos, spec_str_bytes(s.key, c)),
        is_ascii_chars(c) ==> encode_utf8(c).len() <= i32::MAX,
        !is_ascii_chars(c) ==> {
            &&& utf16_decode(utf16_encode(c)) == Some(c)
            &&& c.len() <= utf16_encode(c).len() <= i32::MAX
        },
    ensures
        spec_string(s, pos) == Ok::<(Seq<char>, int), crate::decode::ErrorCode>(
            (c, pos + spec_str_bytes(s.key, c).len()),
        ),
{
    let b = spec_str_bytes(s.key, c);
    lemma_split_at(s, pos, b);
    lemma_string_roundtrip(s, s.data.subrange(0, pos), s.data.subrange(pos + b.len(), s.data.len() as int), c);
}


/// The size hint of a string is the number of bytes its encoding takes, with any key, when
/// its length fits the 32-bit length field.
pub proof fn lemma_str_size_hint_is_encoded_len(key: Seq<u8>, c: Seq<char>)
    requires
        encode_utf8(c).len() <= i32::MAX,
        utf16_encode(c).len() <= i32::MAX,
    ensures
        spec_str_size_hint(c) == spec_str_bytes(key, c).len(),
{
    let n = encode_utf8(c).len();
    if n != 0 {
        if is_ascii_chars(c) {
            assert(spec_crypt(key, spec_mask_bytes(encode_utf8(c))).len() == n);
        } else {
            let u = utf16_encode(c).len();
            assert(spec_crypt(key, spec_mask_units(utf16_encode(c))).len() == 2 * u);
        }
    }
}

} // verus!
