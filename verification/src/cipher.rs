//! Key streams and version checksums.
//!
//! WZ strings (and some canvas data) are XOR-ed with a key stream before they are written.
//! The archive header also stores a one-byte-wide hash of the game version; the full version
//! checksum is needed to decode offsets.

use vstd::prelude::*;

verus! {

/// A key stream: the i-th byte of a block that is encrypted or decrypted is XOR-ed with the
/// i-th byte of the stream. Past the end of the stored stream the bytes are left as they are,
/// so an empty stream is the identity (unencrypted archives).
#[derive(Debug)]
pub struct KeyStream {
    key: Vec<u8>,
}

impl Clone for KeyStream {
    fn clone(&self) -> (r: Self)
        ensures
            r@ == self@,
    {
        let key = self.key.clone();
        assert(key@ =~= self.key@);
        KeyStream { key }
    }
}

/// The key byte applied at index `i`.
pub open spec fn key_byte(key: Seq<u8>, i: int) -> u8 {
    if 0 <= i < key.len() {
        key[i]
    } else {
        0
    }
}

/// `data` XOR-ed with the key stream.
pub open spec fn spec_crypt(key: Seq<u8>, data: Seq<u8>) -> Seq<u8> {
    Seq::new(data.len(), |i: int| data[i] ^ key_byte(key, i))
}

/// Applying the key stream twice gives the data back.
pub proof fn lemma_crypt_involution(key: Seq<u8>, data: Seq<u8>)
    ensures
        spec_crypt(key, spec_crypt(key, data)) == data,
{
    assert forall|i: int| 0 <= i < data.len() implies #[trigger] spec_crypt(
        key,
        spec_crypt(key, data),
    )[i] == data[i] by {
        let a = data[i];
        let k = key_byte(key, i);
        assert((a ^ k) ^ k == a) by (bit_vector);
    }
    assert(spec_crypt(key, spec_crypt(key, data)) =~= data);
}

impl View for KeyStream {
    type V = Seq<u8>;

    closed spec fn view(&self) -> Seq<u8> {
        self.key@
    }
}

impl KeyStream {
    /// A key stream made of the given bytes.
    pub fn new(key: Vec<u8>) -> (r: Self)
        ensures
            r@ == key@,
    {
        KeyStream { key }
    }

    /// The empty key stream, for unencrypted archives.
    pub fn dummy() -> (r: Self)
        ensures
            r@ == Seq::<u8>::empty(),
    {
        KeyStream { key: Vec::new() }
    }

    /// XORs `data` with the key stream; encryption and decryption are the same operation.
    pub fn crypt(&self, data: &mut Vec<u8>)
        ensures
            final(data)@ == spec_crypt(self@, old(data)@),
    {
        let n = data.len();
        let mut i: usize = 0;
        while i < n
            invariant
                n == data.len(),
                n == old(data)@.len(),
                i <= n,
                forall|j: int| 0 <= j < i ==> data@[j] == old(data)@[j] ^ key_byte(self@, j),
                forall|j: int| i <= j < n ==> data@[j] == old(data)@[j],
            decreases n - i,
        {
            let k: u8 = if i < self.key.len() {
                self.key[i]
            } else {
                0
            };
            let b = data[i] ^ k;
            data.set(i, b);
            i = i + 1;
        }
        assert(data@ =~= spec_crypt(self@, old(data)@));
    }
}

/// The ASCII decimal digits of `v`, most significant first.
pub open spec fn decimal_digits(v: nat) -> Seq<u8>
    decreases v,
{
    if v < 10 {
        seq![(48 + v) as u8]
    } else {
        decimal_digits(v / 10).push((48 + v % 10) as u8)
    }
}

/// The hash of a version string: each character `c` turns `h` into `32 * h + c + 1`.
pub open spec fn string_hash(chars: Seq<u8>) -> u32
    decreases chars.len(),
{
    if chars.len() == 0 {
        0
    } else {
        string_hash(chars.drop_last()).wrapping_mul(32).wrapping_add(
            (chars.last() as u32 + 1) as u32,
        )
    }
}

/// The version checksum of a game version: the hash of its decimal string.
pub open spec fn spec_version_checksum(version: u16) -> u32 {
    string_hash(decimal_digits(version as nat))
}

/// The version hash stored in the archive header: `0xFF` XOR-ed with the four bytes of the
/// checksum.
pub open spec fn spec_version_hash(checksum: u32) -> u16 {
    (0xFF ^ (checksum >> 24u32) ^ ((checksum >> 16u32) & 0xFF) ^ ((checksum >> 8u32) & 0xFF) ^ (
    checksum & 0xFF)) as u16
}

fn decimal_digits_of(v: u16) -> (r: Vec<u8>)
    ensures
        r@ == decimal_digits(v as nat),
    decreases v,
{
    if v < 10 {
        let mut r = Vec::new();
        r.push(48 + v as u8);
        r
    } else {
        let mut r = decimal_digits_of(v / 10);
        r.push(48 + (v % 10) as u8);
        r
    }
}

/// Computes the version hash and version checksum of `version`, the pair that the key
/// stream library computes from the version's decimal string.
pub fn checksum(version: u16) -> (r: (u16, u32))
    ensures
        r.1 == spec_version_checksum(version),
        r.0 == spec_version_hash(r.1),
{
    let digits = decimal_digits_of(version);
    let mut h: u32 = 0;
    let mut i: usize = 0;
    while i < digits.len()
        invariant
            i <= digits@.len(),
            h == string_hash(digits@.subrange(0, i as int)),
        decreases digits@.len() - i,
    {
        assert(digits@.subrange(0, (i + 1) as int).drop_last() =~= digits@.subrange(0, i as int));
        h = h.wrapping_mul(32).wrapping_add(digits[i] as u32 + 1);
        i = i + 1;
    }
    assert(digits@.subrange(0, digits@.len() as int) =~= digits@);
    let hash = (0xFF ^ (h >> 24u32) ^ ((h >> 16u32) & 0xFF) ^ ((h >> 8u32) & 0xFF) ^ (h & 0xFF))
        as u16;
    (hash, h)
}

/// The version checksums of the versions in `1..n` whose version hash is `version_hash`,
/// in increasing order of version.
pub open spec fn spec_possible_versions(version_hash: u16, n: nat) -> Seq<u32>
    decreases n,
{
    if n <= 1 {
        Seq::empty()
    } else {
        let v = (n - 1) as nat;
        let prev = spec_possible_versions(version_hash, v);
        let cs = spec_version_checksum(v as u16);
        if spec_version_hash(cs) == version_hash {
            prev.push(cs)
        } else {
            prev
        }
    }
}


/// The version checksum of a one-digit version `v` is the digit's character code plus one,
/// `49 + v`; that of a longer version is 32 times the checksum of the version without its
/// last digit, plus that digit's character code plus one, modulo 2^32.
pub proof fn lemma_version_checksum_digits(version: u16)
    ensures
        version < 10 ==> spec_version_checksum(version) as int == 49 + version as int,
        version >= 10 ==> spec_version_checksum(version) as int == (32 * spec_version_checksum(
            version / 10,
        ) as int + 48 + (version % 10) as int + 1) % 0x1_0000_0000,
{
    let big: int = 0x1_0000_0000;
    if version >= 10 {
        let prefix = decimal_digits((version / 10) as nat);
        let digits = decimal_digits(version as nat);
        assert(digits == prefix.push((48 + version % 10) as u8));
        assert(digits.drop_last() =~= prefix);
        let h = string_hash(prefix);
        assert(spec_version_checksum(version / 10) == h);
        let m = h.wrapping_mul(32);
        assert(m as int == (h as int * 32) % big);
        let c = (digits.last() as u32 + 1) as u32;
        assert(c as int == 48 + (version % 10) as int + 1);
        vstd::arithmetic::div_mod::lemma_add_mod_noop(h as int * 32, c as int, big);
        vstd::arithmetic::div_mod::lemma_small_mod(c as nat, big as nat);
        vstd::arithmetic::div_mod::lemma_mod_bound(h as int * 32, big);
        let sum = m as int + c as int;
        if sum >= big {
            vstd::arithmetic::div_mod::lemma_mod_sub_multiples_vanish(sum, big);
            vstd::arithmetic::div_mod::lemma_small_mod((sum - big) as nat, big as nat);
        } else {
            vstd::arithmetic::div_mod::lemma_small_mod(sum as nat, big as nat);
        }
    } else {
        let digits = decimal_digits(version as nat);
        assert(digits.drop_last() =~= Seq::<u8>::empty());
        assert(string_hash(Seq::<u8>::empty()) == 0);
        assert(0u32.wrapping_mul(32) == 0);
    }
}

/// The version hash is 0xFF XOR-ed with each of the four bytes of the checksum.
pub proof fn lemma_version_hash_bytes(checksum: u32)
    ensures
        spec_version_hash(checksum) == (0xFF ^ (checksum / 0x100_0000) ^ (checksum / 0x1_0000 % 0x100)
            ^ (checksum / 0x100 % 0x100) ^ (checksum % 0x100)) as u16,
{
    assert((0xFF ^ (checksum >> 24u32) ^ ((checksum >> 16u32) & 0xFF) ^ ((checksum >> 8u32) & 0xFF)
        ^ (checksum & 0xFF)) == (0xFF ^ (checksum / 0x100_0000) ^ (checksum / 0x1_0000 % 0x100) ^ (
    checksum / 0x100 % 0x100) ^ (checksum % 0x100))) by (bit_vector);
}

} // verus!
