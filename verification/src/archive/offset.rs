//! WZ offsets: positions in the archive that are stored obfuscated.
//!
//! A stored offset is XOR-ed with a key made from the position at which it is stored, the
//! start of the archive content and the version checksum. Without the version an archive's
//! offsets cannot be read, which is why the version must be known (or found by trying every
//! candidate) before an archive can be parsed.

use crate::archive::error::{Error, ErrorCode};
use crate::decode::decoder::spec_offset;
use crate::decode::{SliceDecoder, Stream};
use crate::encode::encoder::spec_offset_bytes;
use crate::encode::{EncodeContext, Encode, Encoder, SizeHint};
use vstd::prelude::*;

verus! {

/// Constant mixed into every offset key.
pub const OFFSET_MAGIC: u32 = 0x581C3F6D;

/// A position within the WZ archive.
#[derive(Debug, Clone, Copy, PartialOrd, PartialEq, Ord, Eq, Hash, Structural)]
pub struct Offset(pub u32);

impl View for Offset {
    type V = u32;

    open spec fn view(&self) -> u32 {
        self.0
    }
}

/// `x` rotated left by `k` bits, `k` below 32.
pub open spec fn rotl(x: u32, k: u32) -> u32
    recommends
        k < 32,
{
    if k == 0 {
        x
    } else {
        (x << k) | (x >> ((32 - k) as u32))
    }
}

/// The key that obfuscates an offset stored at `position`.
pub open spec fn offset_key(position: u32, content_start: u32, version_checksum: u32) -> u32 {
    let k = position.wrapping_sub(content_start) ^ u32::MAX;
    let k = k.wrapping_mul(version_checksum);
    let k = k.wrapping_sub(OFFSET_MAGIC);
    rotl(k, k & 0x1F)
}

/// The offset whose stored form at `position` is `value`.
pub open spec fn spec_decode_offset(
    value: u32,
    position: u32,
    content_start: u32,
    version_checksum: u32,
) -> u32 {
    (value ^ offset_key(position, content_start, version_checksum)).wrapping_add(
        content_start.wrapping_mul(2),
    )
}

/// The stored form at `position` of the offset `offset`.
pub open spec fn spec_encode_offset(
    offset: u32,
    position: u32,
    content_start: u32,
    version_checksum: u32,
) -> u32 {
    offset.wrapping_sub(content_start.wrapping_mul(2)) ^ offset_key(
        position,
        content_start,
        version_checksum,
    )
}

fn rotate_left(x: u32, k: u32) -> (r: u32)
    requires
        k < 32,
    ensures
        r == rotl(x, k),
{
    if k == 0 {
        x
    } else {
        (x << k) | (x >> (32 - k))
    }
}

fn make_key(position: u32, content_start: u32, version_checksum: u32) -> (r: u32)
    ensures
        r == offset_key(position, content_start, version_checksum),
{
    let k = position.wrapping_sub(content_start);
    let k = k ^ u32::MAX;
    let k = k.wrapping_mul(version_checksum);
    let k = k.wrapping_sub(OFFSET_MAGIC);
    assert(k & 0x1F < 32) by (bit_vector);
    rotate_left(k, k & 0x1F)
}

impl Offset {
    /// Returns the position as an integer.
    pub fn value(self) -> (r: u32)
        ensures
            r == self@,
    {
        self.0
    }

    /// Decodes the stored form `value` read at `position`.
    pub fn decode_with(value: u32, position: u32, content_start: u32, version_checksum: u32) -> (r:
        Self)
        ensures
            r@ == spec_decode_offset(value, position, content_start, version_checksum),
    {
        let key = make_key(position, content_start, version_checksum);
        let offset = value ^ key;
        Offset(offset.wrapping_add(content_start.wrapping_mul(2)))
    }

    /// Encodes the offset into the form stored at `position`.
    pub fn encode_with(self, position: u32, content_start: u32, version_checksum: u32) -> (r: u32)
        ensures
            r == spec_encode_offset(self@, position, content_start, version_checksum),
    {
        let key = make_key(position, content_start, version_checksum);
        let offset = self.0.wrapping_sub(content_start.wrapping_mul(2));
        offset ^ key
    }
}

impl From<i8> for Offset {
    fn from(v: i8) -> (r: Self) {
        Offset(v as u32)
    }
}

impl vstd::std_specs::convert::FromSpecImpl<i8> for Offset {
    open spec fn obeys_from_spec() -> bool {
        true
    }

    open spec fn from_spec(v: i8) -> Self {
        Offset(v as u32)
    }
}

impl From<i16> for Offset {
    fn from(v: i16) -> (r: Self) {
        Offset(v as u32)
    }
}

impl vstd::std_specs::convert::FromSpecImpl<i16> for Offset {
    open spec fn obeys_from_spec() -> bool {
        true
    }

    open spec fn from_spec(v: i16) -> Self {
        Offset(v as u32)
    }
}

impl From<i32> for Offset {
    fn from(v: i32) -> (r: Self) {
        Offset(v as u32)
    }
}

impl vstd::std_specs::convert::FromSpecImpl<i32> for Offset {
    open spec fn obeys_from_spec() -> bool {
        true
    }

    open spec fn from_spec(v: i32) -> Self {
        Offset(v as u32)
    }
}

impl From<i64> for Offset {
    fn from(v: i64) -> (r: Self) {
        Offset(v as u32)
    }
}

impl vstd::std_specs::convert::FromSpecImpl<i64> for Offset {
    open spec fn obeys_from_spec() -> bool {
        true
    }

    open spec fn from_spec(v: i64) -> Self {
        Offset(v as u32)
    }
}

impl From<u8> for Offset {
    fn from(v: u8) -> (r: Self) {
        Offset(v as u32)
    }
}

impl vstd::std_specs::convert::FromSpecImpl<u8> for Offset {
    open spec fn obeys_from_spec() -> bool {
        true
    }

    open spec fn from_spec(v: u8) -> Self {
        Offset(v as u32)
    }
}

impl From<u16> for Offset {
    fn from(v: u16) -> (r: Self) {
        Offset(v as u32)
    }
}

impl vstd::std_specs::convert::FromSpecImpl<u16> for Offset {
    open spec fn obeys_from_spec() -> bool {
        true
    }

    open spec fn from_spec(v: u16) -> Self {
        Offset(v as u32)
    }
}

impl From<u32> for Offset {
    fn from(v: u32) -> (r: Self) {
        Offset(v as u32)
    }
}

impl vstd::std_specs::convert::FromSpecImpl<u32> for Offset {
    open spec fn obeys_from_spec() -> bool {
        true
    }

    open spec fn from_spec(v: u32) -> Self {
        Offset(v as u32)
    }
}

impl From<u64> for Offset {
    fn from(v: u64) -> (r: Self) {
        Offset(v as u32)
    }
}

impl vstd::std_specs::convert::FromSpecImpl<u64> for Offset {
    open spec fn obeys_from_spec() -> bool {
        true
    }

    open spec fn from_spec(v: u64) -> Self {
        Offset(v as u32)
    }
}

impl From<usize> for Offset {
    fn from(v: usize) -> (r: Self) {
        Offset(v as u32)
    }
}

impl vstd::std_specs::convert::FromSpecImpl<usize> for Offset {
    open spec fn obeys_from_spec() -> bool {
        true
    }

    open spec fn from_spec(v: usize) -> Self {
        Offset(v as u32)
    }
}

/// The offset at `pos`, with decode errors reported as archive decode errors.
pub open spec fn spec_archive_offset(s: Stream, pos: int) -> Result<(u32, int), ErrorCode> {
    match spec_offset(s, pos) {
        Ok((v, p)) => Ok((v, p)),
        Err(_) => Err(ErrorCode::Decode),
    }
}

impl Offset {
    /// Decodes an offset keyed by the position it is read at
    pub fn decode(decoder: &mut SliceDecoder) -> (r: Result<Self, Error>)
        ensures
            final(decoder).stream() == old(decoder).stream(),
            match spec_archive_offset(old(decoder).stream(), old(decoder).pos()) {
                Ok((v, p)) => r matches Ok(o) && o@ == v && final(decoder).pos() == p,
                Err(c) => r matches Err(e) && e.spec_code() == c,
            },
    {
        match decoder.decode_offset() {
            Ok(o) => Ok(o),
            Err(e) => Err(Error::from_decode(e)),
        }
    }
}

impl SizeHint for Offset {
    open spec fn spec_size_hint(&self) -> int {
        4
    }

    fn size_hint(&self) -> (r: u64) {
        4
    }
}

impl Encode for Offset {
    type Error = Error;

    open spec fn spec_encodable(&self) -> bool {
        true
    }

    open spec fn spec_encode(&self, ctx: EncodeContext, position: int) -> Option<Seq<u8>> {
        spec_offset_bytes(ctx, position, self@)
    }

    fn encode<E: Encoder>(&self, encoder: &mut E) -> (r: Result<(), Self::Error>)
        ensures
            r matches Err(e) ==> e.spec_code() == ErrorCode::Encode,
    {
        match encoder.encode_offset(*self) {
            Ok(()) => Ok(()),
            Err(e) => Err(Error::from_encode(e)),
        }
    }
}

/// Decoding the stored form of an offset, read at the position it was stored at, gives the
/// offset back.
pub proof fn lemma_offset_roundtrip(
    offset: u32,
    position: u32,
    content_start: u32,
    version_checksum: u32,
)
    ensures
        spec_decode_offset(
            spec_encode_offset(offset, position, content_start, version_checksum),
            position,
            content_start,
            version_checksum,
        ) == offset,
{
    let key = offset_key(position, content_start, version_checksum);
    let base = content_start.wrapping_mul(2);
    let stored = offset.wrapping_sub(base) ^ key;
    assert(stored ^ key == offset.wrapping_sub(base)) by (bit_vector)
        requires
            stored == offset.wrapping_sub(base) ^ key,
    ;
}

/// Encoding the offset that a stored form decodes to gives the stored form back.
pub proof fn lemma_offset_stored_roundtrip(
    value: u32,
    position: u32,
    content_start: u32,
    version_checksum: u32,
)
    ensures
        spec_encode_offset(
            spec_decode_offset(value, position, content_start, version_checksum),
            position,
            content_start,
            version_checksum,
        ) == value,
{
    let key = offset_key(position, content_start, version_checksum);
    let base = content_start.wrapping_mul(2);
    let decoded = (value ^ key).wrapping_add(base);
    assert(decoded.wrapping_sub(base) == value ^ key);
    assert((value ^ key) ^ key == value) by (bit_vector);
}


/// How an offset is read back from its stored form `value` at `position`: the distance from
/// the content start is complemented (all 32 bits flipped), multiplied by the version checksum,
/// and decreased by 0x581C3F6D, all modulo 2^32; that number `m`, rotated left by its own low
/// five bits, is XOR-ed with the stored form, and twice the content start is added, modulo 2^32.
pub proof fn lemma_decode_offset_formula(
    value: u32,
    position: u32,
    content_start: u32,
    version_checksum: u32,
)
    ensures
        ({
            let d = (position as int - content_start as int) % 0x1_0000_0000;
            let m = (((0xFFFF_FFFF - d) * version_checksum as int - 0x581C_3F6D) % 0x1_0000_0000) as u32;
            let r = m % 32;
            let key: u32 = if r == 0 {
                m
            } else {
                (m << r) | (m >> ((32 - r) as u32))
            };
            spec_decode_offset(value, position, content_start, version_checksum) as int == ((
            value ^ key) as int + 2 * content_start as int) % 0x1_0000_0000
        }),
{
    let big: int = 0x1_0000_0000;
    let d = (position as int - content_start as int) % big;
    let d32 = position.wrapping_sub(content_start);
    assert(d32 as int == d);
    let k1 = d32 ^ u32::MAX;
    assert(k1 == 0xFFFF_FFFFu32 - d32) by (bit_vector)
        requires
            k1 == d32 ^ 0xFFFF_FFFFu32,
    ;
    let k2 = k1.wrapping_mul(version_checksum);
    let k3 = k2.wrapping_sub(OFFSET_MAGIC);
    let prod = k1 as int * version_checksum as int;
    assert(k2 as int == prod % big);
    vstd::arithmetic::div_mod::lemma_sub_mod_noop(prod, 0x581C_3F6D, big);
    vstd::arithmetic::div_mod::lemma_mod_twice(prod, big);
    assert(0x581C_3F6Dint % big == 0x581C_3F6D);
    assert(k3 as int == (prod - 0x581C_3F6D) % big) by {
        vstd::arithmetic::div_mod::lemma_sub_mod_noop(prod, 0x581C_3F6D, big);
    }
    let m = ((prod - 0x581C_3F6D) % big) as u32;
    assert(m == k3);
    assert(k3 & 0x1F == k3 % 32) by (bit_vector);
    let key = offset_key(position, content_start, version_checksum);
    let base = content_start.wrapping_mul(2);
    assert(base as int == (2 * content_start as int) % big);
    let x = value ^ key;
    vstd::arithmetic::div_mod::lemma_add_mod_noop(x as int, 2 * content_start as int, big);
    vstd::arithmetic::div_mod::lemma_mod_twice(x as int, big);
    vstd::arithmetic::div_mod::lemma_small_mod(x as nat, big as nat);
}

} // verus!
