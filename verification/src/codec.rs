//! Little-endian integers in byte sequences, and their encoding by bincode.

use vstd::prelude::*;

use crate::error::Error;

verus! {

/// The `n` low bytes of `v`, the least significant byte first.
pub open spec fn le_bytes(v: nat, n: nat) -> Seq<u8>
    decreases n,
{
    if n == 0 {
        Seq::empty()
    } else {
        seq![(v % 256) as u8] + le_bytes(v / 256, (n - 1) as nat)
    }
}

/// The number whose bytes are `s`, the least significant byte first.
pub open spec fn le_value(s: Seq<u8>) -> nat
    decreases s.len(),
{
    if s.len() == 0 {
        0
    } else {
        s[0] as nat + 256 * le_value(s.drop_first())
    }
}

/// 256 to the power of `n`: the first number that does not fit in `n` bytes.
pub open spec fn byte_limit(n: nat) -> nat
    decreases n,
{
    if n == 0 {
        1
    } else {
        256 * byte_limit((n - 1) as nat)
    }
}

pub proof fn lemma_le_bytes_len(v: nat, n: nat)
    ensures
        le_bytes(v, n).len() == n,
    decreases n,
{
    if n > 0 {
        lemma_le_bytes_len(v / 256, (n - 1) as nat);
    }
}

/// Reading the bytes of a number that fits in them gives the number back.
pub proof fn lemma_le_value_of_bytes(v: nat, n: nat)
    requires
        v < byte_limit(n),
    ensures
        le_value(le_bytes(v, n)) == v,
    decreases n,
{
    if n > 0 {
        lemma_le_value_of_bytes(v / 256, (n - 1) as nat);
        assert(le_bytes(v, n).drop_first() =~= le_bytes(v / 256, (n - 1) as nat));
    }
}

/// The bytes of the number read from a byte sequence are that byte sequence.
pub proof fn lemma_le_bytes_of_value(s: Seq<u8>)
    ensures
        le_bytes(le_value(s), s.len()) == s,
        le_value(s) < byte_limit(s.len()),
    decreases s.len(),
{
    if s.len() > 0 {
        let rest = s.drop_first();
        lemma_le_bytes_of_value(rest);
        let v = le_value(s);
        assert(v % 256 == s[0] as nat && v / 256 == le_value(rest));
        assert(seq![s[0]] + rest =~= s);
    }
}

pub proof fn lemma_byte_limits()
    ensures
        byte_limit(2) == 0x1_0000,
        byte_limit(4) == 0x1_0000_0000,
        byte_limit(8) == 0x1_0000_0000_0000_0000,
{
    reveal_with_fuel(byte_limit, 9);
}

/// The error that bincode reports.
#[verifier::external_type_specification]
#[verifier::external_body]
pub struct ExErrorKind(bincode::ErrorKind);

/// `bincode::serialize` on a `u16`: its two bytes, little-endian, nothing else.
#[verifier::external_body]
fn serialize_u16(value: u16) -> (bytes: Vec<u8>)
    ensures
        bytes@ == le_bytes(value as nat, 2),
{
    bincode::serialize(&value).unwrap()
}

/// `bincode::serialize` on a `u32`: its four bytes, little-endian, nothing else.
#[verifier::external_body]
fn serialize_u32(value: u32) -> (bytes: Vec<u8>)
    ensures
        bytes@ == le_bytes(value as nat, 4),
{
    bincode::serialize(&value).unwrap()
}

/// `bincode::serialize` on a `u64`: its eight bytes, little-endian, nothing else.
#[verifier::external_body]
fn serialize_u64(value: u64) -> (bytes: Vec<u8>)
    ensures
        bytes@ == le_bytes(value as nat, 8),
{
    bincode::serialize(&value).unwrap()
}

/// `bincode::deserialize_from` for a `u16`: the value of the first two bytes,
/// little-endian. It fails exactly if there are fewer; what follows is not read.
#[verifier::external_body]
fn deserialize_u16(bytes: &[u8]) -> (res: Result<u16, bincode::Error>)
    ensures
        res is Ok <==> bytes@.len() >= 2,
        res matches Ok(v) ==> v == le_value(bytes@.take(2)),
{
    bincode::deserialize_from(bytes)
}

/// `bincode::deserialize_from` for a `u32`: the value of the first four bytes,
/// little-endian. It fails exactly if there are fewer; what follows is not read.
#[verifier::external_body]
fn deserialize_u32(bytes: &[u8]) -> (res: Result<u32, bincode::Error>)
    ensures
        res is Ok <==> bytes@.len() >= 4,
        res matches Ok(v) ==> v == le_value(bytes@.take(4)),
{
    bincode::deserialize_from(bytes)
}

/// `bincode::deserialize_from` for a `u64`: the value of the first eight bytes,
/// little-endian. It fails exactly if there are fewer; what follows is not read.
#[verifier::external_body]
fn deserialize_u64(bytes: &[u8]) -> (res: Result<u64, bincode::Error>)
    ensures
        res is Ok <==> bytes@.len() >= 8,
        res matches Ok(v) ==> v == le_value(bytes@.take(8)),
{
    bincode::deserialize_from(bytes)
}

/// The `n` bytes of `s` from position `at` on.
pub open spec fn field(s: Seq<u8>, at: int, n: int) -> Seq<u8> {
    s.subrange(at, at + n)
}

/// The four bytes of `s` from position `at` on, as an array.
pub open spec fn array4(s: Seq<u8>, at: int) -> [u8; 4] {
    [s[at], s[at + 1], s[at + 2], s[at + 3]]
}

/// The eight bytes of `s` from position `at` on, as an array.
pub open spec fn array8(s: Seq<u8>, at: int) -> [u8; 8] {
    [s[at], s[at + 1], s[at + 2], s[at + 3], s[at + 4], s[at + 5], s[at + 6], s[at + 7]]
}

/// Appends `value`, little-endian.
pub fn put_u16(out: &mut Vec<u8>, value: u16)
    ensures
        final(out)@ == old(out)@ + le_bytes(value as nat, 2),
{
    let mut bytes = serialize_u16(value);
    out.append(&mut bytes);
}

/// Appends `value`, little-endian.
pub fn put_u32(out: &mut Vec<u8>, value: u32)
    ensures
        final(out)@ == old(out)@ + le_bytes(value as nat, 4),
{
    let mut bytes = serialize_u32(value);
    out.append(&mut bytes);
}

/// Appends `value`, little-endian.
pub fn put_u64(out: &mut Vec<u8>, value: u64)
    ensures
        final(out)@ == old(out)@ + le_bytes(value as nat, 8),
{
    let mut bytes = serialize_u64(value);
    out.append(&mut bytes);
}

/// Appends `bytes` as they are.
pub fn put_bytes(out: &mut Vec<u8>, bytes: &[u8])
    ensures
        final(out)@ == old(out)@ + bytes@,
{
    out.extend_from_slice(bytes);
    assert(out@ =~= old(out)@ + bytes@);
}

/// Reads the two bytes from position `at` on.
pub fn get_u16(bytes: &[u8], at: usize) -> (res: Result<u16, Error>)
    requires
        at <= bytes@.len(),
    ensures
        match res {
            Ok(v) => at + 2 <= bytes@.len() && v == le_value(field(bytes@, at as int, 2)),
            Err(e) => at + 2 > bytes@.len() && e == Error::Truncated,
        },
{
    let rest = vstd::slice::slice_subrange(bytes, at, bytes.len());
    match deserialize_u16(rest) {
        Ok(v) => {
            assert(rest@.take(2) =~= field(bytes@, at as int, 2));
            Ok(v)
        },
        Err(_) => Err(Error::Truncated),
    }
}

/// Reads the four bytes from position `at` on.
pub fn get_u32(bytes: &[u8], at: usize) -> (res: Result<u32, Error>)
    requires
        at <= bytes@.len(),
    ensures
        match res {
            Ok(v) => at + 4 <= bytes@.len() && v == le_value(field(bytes@, at as int, 4)),
            Err(e) => at + 4 > bytes@.len() && e == Error::Truncated,
        },
{
    let rest = vstd::slice::slice_subrange(bytes, at, bytes.len());
    match deserialize_u32(rest) {
        Ok(v) => {
            assert(rest@.take(4) =~= field(bytes@, at as int, 4));
            Ok(v)
        },
        Err(_) => Err(Error::Truncated),
    }
}

/// Reads the eight bytes from position `at` on.
pub fn get_u64(bytes: &[u8], at: usize) -> (res: Result<u64, Error>)
    requires
        at <= bytes@.len(),
    ensures
        match res {
            Ok(v) => at + 8 <= bytes@.len() && v == le_value(field(bytes@, at as int, 8)),
            Err(e) => at + 8 > bytes@.len() && e == Error::Truncated,
        },
{
    let rest = vstd::slice::slice_subrange(bytes, at, bytes.len());
    match deserialize_u64(rest) {
        Ok(v) => {
            assert(rest@.take(8) =~= field(bytes@, at as int, 8));
            Ok(v)
        },
        Err(_) => Err(Error::Truncated),
    }
}

/// Copies the four bytes from position `at` on.
pub fn get_array4(bytes: &[u8], at: usize) -> (res: Result<[u8; 4], Error>)
    requires
        at <= bytes@.len(),
    ensures
        match res {
            Ok(a) => at + 4 <= bytes@.len() && a == array4(bytes@, at as int),
            Err(e) => at + 4 > bytes@.len() && e == Error::Truncated,
        },
{
    if bytes.len() - at < 4 {
        return Err(Error::Truncated);
    }
    let a = [bytes[at], bytes[at + 1], bytes[at + 2], bytes[at + 3]];
    assert(a =~= array4(bytes@, at as int));
    Ok(a)
}

/// Copies the eight bytes from position `at` on.
pub fn get_array8(bytes: &[u8], at: usize) -> (res: Result<[u8; 8], Error>)
    requires
        at <= bytes@.len(),
    ensures
        match res {
            Ok(a) => at + 8 <= bytes@.len() && a == array8(bytes@, at as int),
            Err(e) => at + 8 > bytes@.len() && e == Error::Truncated,
        },
{
    if bytes.len() - at < 8 {
        return Err(Error::Truncated);
    }
    let a = [
        bytes[at],
        bytes[at + 1],
        bytes[at + 2],
        bytes[at + 3],
        bytes[at + 4],
        bytes[at + 5],
        bytes[at + 6],
        bytes[at + 7],
    ];
    assert(a =~= array8(bytes@, at as int));
    Ok(a)
}

/// The bytes of a number on disk count its units, its 256s, its 65536s and so on.
pub proof fn law_number_on_disk(v: nat)
    ensures
        le_bytes(v, 2).len() == 2,
        le_bytes(v, 4).len() == 4,
        le_bytes(v, 8).len() == 8,
        v <= u16::MAX ==> ({
            let b = le_bytes(v, 2);
            b[0] + 0x100 * b[1] == v
        }),
        v <= u32::MAX ==> ({
            let b = le_bytes(v, 4);
            b[0] + 0x100 * b[1] + 0x1_0000 * b[2] + 0x100_0000 * b[3] == v
        }),
        v <= u64::MAX ==> ({
            let b = le_bytes(v, 8);
            b[0] + 0x100 * b[1] + 0x1_0000 * b[2] + 0x100_0000 * b[3] + 0x1_0000_0000 * b[4]
                + 0x100_0000_0000 * b[5] + 0x1_0000_0000_0000 * b[6] + 0x100_0000_0000_0000 * b[7]
                == v
        }),
{
    lemma_byte_limits();
    lemma_le_bytes_len(v, 2);
    lemma_le_bytes_len(v, 4);
    lemma_le_bytes_len(v, 8);
    law_number_read(le_bytes(v, 2));
    law_number_read(le_bytes(v, 4));
    law_number_read(le_bytes(v, 8));
    if v <= u16::MAX {
        lemma_le_value_of_bytes(v, 2);
    }
    if v <= u32::MAX {
        lemma_le_value_of_bytes(v, 4);
    }
    if v <= u64::MAX {
        lemma_le_value_of_bytes(v, 8);
    }
}

/// The number that is read from two, four or eight bytes is the first byte, and 256 times
/// the second, and 65536 times the third and so on.
pub proof fn law_number_read(s: Seq<u8>)
    ensures
        s.len() == 2 ==> le_value(s) == s[0] + 0x100 * s[1],
        s.len() == 4 ==> le_value(s) == s[0] + 0x100 * s[1] + 0x1_0000 * s[2] + 0x100_0000 * s[3],
        s.len() == 8 ==> le_value(s) == s[0] + 0x100 * s[1] + 0x1_0000 * s[2] + 0x100_0000 * s[3]
            + 0x1_0000_0000 * s[4] + 0x100_0000_0000 * s[5] + 0x1_0000_0000_0000 * s[6]
            + 0x100_0000_0000_0000 * s[7],
{
    reveal_with_fuel(le_value, 9);
}

/// Fields and arrays are the bytes that stand there.
pub proof fn law_bytes_in_place(s: Seq<u8>, at: int, n: int)
    requires
        0 <= at,
        0 <= n,
        at + n <= s.len(),
    ensures
        field(s, at, n) == s.subrange(at, at + n),
        n == 4 ==> array4(s, at)@ == s.subrange(at, at + 4),
        n == 8 ==> array8(s, at)@ == s.subrange(at, at + 8),
{
    if n == 4 {
        assert(array4(s, at)@ =~= s.subrange(at, at + 4));
    }
    if n == 8 {
        assert(array8(s, at)@ =~= s.subrange(at, at + 8));
    }
}

} // verus!
