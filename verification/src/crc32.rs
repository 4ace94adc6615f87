//! The checksums that the `crc` crate computes.

use crc::Hasher32;
use vstd::prelude::*;

verus! {

/// Division by the IEEE polynomial: one bit of the dividend is taken in, the lowest
/// first.
pub open spec fn crc_bit(c: u32) -> u32 {
    if c & 1 == 1 {
        (c >> 1) ^ 0xedb8_8320
    } else {
        c >> 1
    }
}

/// Division by the IEEE polynomial: the remainder after a byte.
pub open spec fn crc_byte(c: u32, byte: u8) -> u32 {
    crc_bit(crc_bit(crc_bit(crc_bit(crc_bit(crc_bit(crc_bit(crc_bit(c ^ byte as u32))))))))
}

/// Division by the IEEE polynomial: the remainder after `bytes`, all ones at the start.
pub open spec fn crc_remainder(bytes: Seq<u8>) -> u32
    decreases bytes.len(),
{
    if bytes.len() == 0 {
        !0u32
    } else {
        crc_byte(crc_remainder(bytes.drop_last()), bytes.last())
    }
}

/// The CRC-32 checksum of `bytes` with the IEEE polynomial: the inverted remainder.
pub open spec fn crc32_ieee(bytes: Seq<u8>) -> u32 {
    !crc_remainder(bytes)
}

/// `crc::crc32::checksum_ieee`: the CRC-32 checksum of the bytes.
#[verifier::external_body]
pub(crate) fn checksum_ieee(bytes: &[u8]) -> (sum: u32)
    ensures
        sum == crc32_ieee(bytes@),
{
    crc::crc32::checksum_ieee(bytes)
}

/// A running checksum of the `crc` crate.
#[verifier::external_type_specification]
#[verifier::external_body]
pub struct ExDigest(crc::crc32::Digest);

/// The bytes that a digest has been fed so far.
pub uninterp spec fn digested(digest: crc::crc32::Digest) -> Seq<u8>;

/// The digest was made with the IEEE polynomial and the initial value 0.
pub uninterp spec fn plain_ieee(digest: crc::crc32::Digest) -> bool;

/// `crc::crc32::Digest::new` with the IEEE polynomial: the initial value is 0, and nothing
/// has been fed to it.
#[verifier::external_body]
pub(crate) fn ieee_digest() -> (digest: crc::crc32::Digest)
    ensures
        plain_ieee(digest),
        digested(digest) == Seq::<u8>::empty(),
{
    crc::crc32::Digest::new(crc::crc32::IEEE)
}

/// `crc::Hasher32::write` on a digest: the bytes follow those fed before. How the digest
/// was made does not change.
#[verifier::external_body]
pub(crate) fn feed(digest: &mut crc::crc32::Digest, bytes: &[u8])
    ensures
        plain_ieee(*final(digest)) == plain_ieee(*old(digest)),
        digested(*final(digest)) == digested(*old(digest)) + bytes@,
{
    digest.write(bytes)
}

/// `crc::Hasher32::sum32` on a digest with the IEEE polynomial and the initial value 0:
/// the CRC-32 checksum of all the bytes that it was fed.
#[verifier::external_body]
pub(crate) fn sum32(digest: &crc::crc32::Digest) -> (sum: u32)
    requires
        plain_ieee(*digest),
    ensures
        sum == crc32_ieee(digested(*digest)),
{
    digest.sum32()
}

/// The checksum of no bytes is 0.
pub proof fn law_checksum_of_nothing()
    ensures
        crc32_ieee(Seq::empty()) == 0,
{
    assert(!!0u32 == 0u32) by (bit_vector);
}

/// A bit can be taken back: the highest bit of the remainder tells what it was.
proof fn lemma_crc_bit_injective(a: u32, b: u32)
    requires
        crc_bit(a) == crc_bit(b),
    ensures
        a == b,
{
    assert(a == b) by (bit_vector)
        requires
            crc_bit(a) == crc_bit(b),
    ;
}

/// A byte can be taken back.
proof fn lemma_crc_byte_injective(a: u32, x: u8, b: u32, y: u8)
    requires
        crc_byte(a, x) == crc_byte(b, y),
    ensures
        a ^ x as u32 == b ^ y as u32,
{
    let (a0, b0) = (a ^ x as u32, b ^ y as u32);
    let (a1, b1) = (crc_bit(a0), crc_bit(b0));
    let (a2, b2) = (crc_bit(a1), crc_bit(b1));
    let (a3, b3) = (crc_bit(a2), crc_bit(b2));
    let (a4, b4) = (crc_bit(a3), crc_bit(b3));
    let (a5, b5) = (crc_bit(a4), crc_bit(b4));
    let (a6, b6) = (crc_bit(a5), crc_bit(b5));
    let (a7, b7) = (crc_bit(a6), crc_bit(b6));
    lemma_crc_bit_injective(a7, b7);
    lemma_crc_bit_injective(a6, b6);
    lemma_crc_bit_injective(a5, b5);
    lemma_crc_bit_injective(a4, b4);
    lemma_crc_bit_injective(a3, b3);
    lemma_crc_bit_injective(a2, b2);
    lemma_crc_bit_injective(a1, b1);
    lemma_crc_bit_injective(a0, b0);
}

/// Bytes that differ in one place leave different remainders.
proof fn lemma_remainders_differ(s: Seq<u8>, t: Seq<u8>, i: int)
    requires
        s.len() == t.len(),
        0 <= i < s.len(),
        s[i] != t[i],
        forall|j: int| 0 <= j < s.len() && j != i ==> s[j] == t[j],
    ensures
        crc_remainder(s) != crc_remainder(t),
    decreases s.len(),
{
    let (s0, t0) = (s.drop_last(), t.drop_last());
    let (x, y) = (s.last(), t.last());
    let (a, b) = (crc_remainder(s0), crc_remainder(t0));
    if i == s.len() - 1 {
        assert(s0 =~= t0);
    } else {
        lemma_remainders_differ(s0, t0, i);
    }
    if crc_byte(a, x) == crc_byte(b, y) {
        lemma_crc_byte_injective(a, x, b, y);
        assert(a == b <==> x == y) by (bit_vector)
            requires
                a ^ x as u32 == b ^ y as u32,
        ;
    }
}

/// Bytes that differ in one place have different checksums.
pub proof fn law_one_byte_changes_the_checksum(s: Seq<u8>, t: Seq<u8>, i: int)
    requires
        s.len() == t.len(),
        0 <= i < s.len(),
        s[i] != t[i],
        forall|j: int| 0 <= j < s.len() && j != i ==> s[j] == t[j],
    ensures
        crc32_ieee(s) != crc32_ieee(t),
{
    lemma_remainders_differ(s, t, i);
    let (a, b) = (crc_remainder(s), crc_remainder(t));
    assert(a != b ==> !a != !b) by (bit_vector);
}

} // verus!
