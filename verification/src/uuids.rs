//! What the `uuid` crate computes, over the sixteen bytes of a UUID.

use vstd::prelude::*;

use crate::codec::{le_bytes, le_value};

verus! {

/// The number whose bytes are `s`, the most significant byte first.
pub open spec fn be_value(s: Seq<u8>) -> nat {
    le_value(s.reverse())
}

/// The `n` low bytes of `v`, the most significant byte first.
pub open spec fn be_bytes(v: nat, n: nat) -> Seq<u8> {
    le_bytes(v, n).reverse()
}

/// The lower-case hexadecimal digit of a number below 16.
pub open spec fn hex_digit(d: int) -> char {
    if d < 10 {
        (d + 0x30) as char
    } else {
        (d - 10 + 0x61) as char
    }
}

/// Two lower-case hexadecimal digits for each byte.
pub open spec fn hex(s: Seq<u8>) -> Seq<char> {
    Seq::new(
        2 * s.len(),
        |i: int|
            if i % 2 == 0 {
                hex_digit(s[i / 2] as int / 16)
            } else {
                hex_digit(s[i / 2] as int % 16)
            },
    )
}

/// 32 digits in groups of eight, four, four, four and twelve, with hyphens between them.
pub open spec fn with_hyphens(d: Seq<char>) -> Seq<char> {
    d.subrange(0, 8) + seq!['-'] + d.subrange(8, 12) + seq!['-'] + d.subrange(12, 16) + seq!['-']
        + d.subrange(16, 20) + seq!['-'] + d.subrange(20, 32)
}

/// The sixteen bytes in lower-case hexadecimal, with hyphens.
pub open spec fn hyphenated(b: Seq<u8>) -> Seq<char> {
    with_hyphens(hex(b))
}

/// A hexadecimal digit, lower-case or upper-case.
pub open spec fn is_hex_digit(c: char) -> bool {
    '0' <= c <= '9' || 'a' <= c <= 'f' || 'A' <= c <= 'F'
}

/// The lower-case form of an ASCII letter, any other character as it is.
pub open spec fn lower_char(c: char) -> char {
    if 'A' <= c <= 'Z' {
        (c as int + 0x20) as char
    } else {
        c
    }
}

/// A text with its ASCII letters in lower case.
pub open spec fn lower_case(s: Seq<char>) -> Seq<char> {
    s.map_values(|c: char| lower_char(c))
}

/// 32 hexadecimal digits.
pub open spec fn simple_form(s: Seq<char>) -> bool {
    s.len() == 32 && forall|i: int| 0 <= i < s.len() ==> is_hex_digit(#[trigger] s[i])
}

/// The places of the hyphens.
pub open spec fn is_hyphen_place(i: int) -> bool {
    i == 8 || i == 13 || i == 18 || i == 23
}

/// 32 hexadecimal digits in groups, with hyphens between them.
pub open spec fn hyphenated_form(s: Seq<char>) -> bool {
    s.len() == 36 && forall|i: int|
        0 <= i < s.len() ==> if is_hyphen_place(i) {
            #[trigger] s[i] == '-'
        } else {
            is_hex_digit(s[i])
        }
}

/// The digits between the hyphens.
pub open spec fn without_hyphens(s: Seq<char>) -> Seq<char> {
    s.subrange(0, 8) + s.subrange(9, 13) + s.subrange(14, 18) + s.subrange(19, 23) + s.subrange(
        24,
        36,
    )
}

/// The prefix of a UUID that is written as a URN.
pub open spec fn urn_prefix() -> Seq<char> {
    seq!['u', 'r', 'n', ':', 'u', 'u', 'i', 'd', ':']
}

/// The 32 digits of a UUID in one of its forms: digits alone, digits with hyphens, or a URN.
pub open spec fn uuid_digits(s: Seq<char>) -> Option<Seq<char>> {
    if simple_form(s) {
        Some(s)
    } else if hyphenated_form(s) {
        Some(without_hyphens(s))
    } else if s.len() == 45 && s.take(9) == urn_prefix() && hyphenated_form(s.skip(9)) {
        Some(without_hyphens(s.skip(9)))
    } else {
        None
    }
}

/// The error that the `uuid` crate reports for a string that is not a UUID.
#[verifier::external_type_specification]
#[verifier::external_body]
pub struct ExParseError(uuid::parser::ParseError);

/// The bytes of the UUID that `uuid::Uuid::from_str` reads from a string, or the
/// error that it reports.
pub uninterp spec fn parsed_uuid(s: Seq<char>) -> Result<Seq<u8>, uuid::parser::ParseError>;

/// `uuid::Uuid::from_str`, with the UUID taken by its bytes: a UUID in one of its forms,
/// with digits in either case, is read as the bytes that the digits stand for; nothing else
/// is a UUID. Which error is reported is left to the `uuid` crate: the result is
/// [`parsed_uuid`].
#[verifier::external_body]
pub(crate) fn uuid_from_str(s: &str) -> (res: Result<[u8; 16], uuid::parser::ParseError>)
    ensures
        match res {
            Ok(bytes) => {
                &&& parsed_uuid(s@) matches Ok(b) && b == bytes@
                &&& uuid_digits(s@) matches Some(digits) && hex(bytes@) == lower_case(digits)
            },
            Err(e) => {
                &&& parsed_uuid(s@) matches Err(err) && err == e
                &&& uuid_digits(s@) is None
            },
        },
{
    s.parse::<uuid::Uuid>().map(|u| *u.as_bytes())
}

/// `uuid::Uuid::new_v4`, taken by its bytes: random but for the version number,
/// which is 4, and the variant, which is that of RFC 4122.
#[verifier::external_body]
pub(crate) fn uuid_new_v4() -> (bytes: [u8; 16])
    ensures
        bytes@[6] / 16 == 4,
        bytes@[8] / 64 == 2,
{
    *uuid::Uuid::new_v4().as_bytes()
}

/// `uuid::Uuid::as_fields`: a big-endian number of four bytes, two of two bytes,
/// and the eight bytes that are left.
#[verifier::external_body]
pub(crate) fn uuid_as_fields(bytes: [u8; 16]) -> (fields: (u32, u16, u16, [u8; 8]))
    ensures
        fields.0 == be_value(bytes@.subrange(0, 4)),
        fields.1 == be_value(bytes@.subrange(4, 6)),
        fields.2 == be_value(bytes@.subrange(6, 8)),
        fields.3@ == bytes@.subrange(8, 16),
{
    let uuid = uuid::Uuid::from_bytes(bytes);
    let (d1, d2, d3, d4) = uuid.as_fields();
    (d1, d2, d3, *d4)
}

/// `uuid::Uuid::from_fields`, taken by its bytes: the three numbers big-endian, then
/// the eight bytes. With eight bytes it does not fail.
#[verifier::external_body]
pub(crate) fn uuid_from_fields(d1: u32, d2: u16, d3: u16, d4: &[u8; 8]) -> (bytes: [u8; 16])
    ensures
        bytes@ == be_bytes(d1 as nat, 4) + be_bytes(d2 as nat, 2) + be_bytes(d3 as nat, 2) + d4@,
{
    *uuid::Uuid::from_fields(d1, d2, d3, d4).unwrap().as_bytes()
}

/// `uuid::Uuid::to_string`: the hyphenated lower-case form.
#[verifier::external_body]
pub(crate) fn uuid_to_string(bytes: [u8; 16]) -> (text: String)
    ensures
        text@ == hyphenated(bytes@),
{
    uuid::Uuid::from_bytes(bytes).to_string()
}

/// The digits of bytes are hexadecimal, in lower case, and tell the bytes.
pub proof fn lemma_hex(b: Seq<u8>)
    ensures
        hex(b).len() == 2 * b.len(),
        forall|i: int| 0 <= i < hex(b).len() ==> is_hex_digit(#[trigger] hex(b)[i]),
        lower_case(hex(b)) == hex(b),
{
    assert forall|i: int| 0 <= i < hex(b).len() implies is_hex_digit(#[trigger] hex(b)[i])
        && lower_char(hex(b)[i]) == hex(b)[i] by {
        let byte = b[i / 2] as int;
        assert(0 <= byte / 16 < 16 && 0 <= byte % 16 < 16);
    }
    assert(lower_case(hex(b)) =~= hex(b));
}

/// Bytes with the same digits are the same.
pub proof fn lemma_hex_injective(b: Seq<u8>, c: Seq<u8>)
    requires
        hex(b) == hex(c),
    ensures
        b == c,
{
    assert(hex(b).len() == 2 * b.len() && hex(c).len() == 2 * c.len());
    assert forall|i: int| 0 <= i < b.len() implies b[i] == c[i] by {
        let (j, k) = (2 * i, 2 * i + 1);
        assert(j / 2 == i && j % 2 == 0 && k / 2 == i && k % 2 == 1);
        assert(hex(b)[j] == hex_digit(b[i] as int / 16));
        assert(hex(c)[j] == hex_digit(c[i] as int / 16));
        assert(hex(b)[k] == hex_digit(b[i] as int % 16));
        assert(hex(c)[k] == hex_digit(c[i] as int % 16));
    }
    assert(b =~= c);
}

/// Hyphens that are put between digits are found, and the digits are left without them.
pub proof fn lemma_hyphens_put(d: Seq<char>)
    requires
        simple_form(d),
    ensures
        hyphenated_form(with_hyphens(d)),
        without_hyphens(with_hyphens(d)) == d,
{
    assert(without_hyphens(with_hyphens(d)) =~= d);
}

/// Digits with hyphens in lower case are the digits in lower case, with hyphens.
pub proof fn lemma_hyphens_in_lower_case(s: Seq<char>)
    requires
        hyphenated_form(s),
    ensures
        with_hyphens(lower_case(without_hyphens(s))) == lower_case(s),
{
    assert(s[8] == '-' && s[13] == '-' && s[18] == '-' && s[23] == '-');
    assert(with_hyphens(lower_case(without_hyphens(s))) =~= lower_case(s));
}

/// The text of sixteen bytes has two digits for each byte, the higher one first, and
/// hyphens behind the fourth, the sixth, the eighth and the tenth byte.
pub proof fn law_hyphenated(b: Seq<u8>, i: int)
    requires
        b.len() == 16,
        0 <= i < 16,
    ensures
        ({
            let s = hyphenated(b);
            let at = 2 * i + (if i < 4 {
                0int
            } else if i < 6 {
                1
            } else if i < 8 {
                2
            } else if i < 10 {
                3
            } else {
                4
            });
            let (high, low) = (b[i] as int / 16, b[i] as int % 16);
            &&& s.len() == 36
            &&& s[8] == '-' && s[13] == '-' && s[18] == '-' && s[23] == '-'
            &&& s[at] as int == high + (if high < 10 {
                0x30int
            } else {
                0x57
            })
            &&& s[at + 1] as int == low + (if low < 10 {
                0x30int
            } else {
                0x57
            })
        }),
{
    let (j, k) = (2 * i, 2 * i + 1);
    assert(j / 2 == i && j % 2 == 0 && k / 2 == i && k % 2 == 1);
    assert(hex(b)[j] == hex_digit(b[i] as int / 16));
    assert(hex(b)[k] == hex_digit(b[i] as int % 16));
}

/// A letter from A to Z is put in lower case, and nothing else changes.
pub proof fn law_lower_case(s: Seq<char>, i: int)
    requires
        0 <= i < s.len(),
    ensures
        lower_case(s).len() == s.len(),
        'A' <= s[i] <= 'Z' ==> lower_case(s)[i] as int - 'a' as int == s[i] as int - 'A' as int,
        s[i] < 'A' || 'Z' < s[i] ==> lower_case(s)[i] == s[i],
{
}

/// 32 hexadecimal digits are those of a UUID as they are, with hyphens behind the eighth, the
/// twelfth, the sixteenth and the twentieth, and so with `urn:uuid:` in front of them.
pub proof fn law_uuid_forms(d: Seq<char>)
    requires
        d.len() == 32,
        forall|i: int|
            0 <= i < 32 ==> '0' <= #[trigger] d[i] <= '9' || 'a' <= d[i] <= 'f' || 'A' <= d[i] <= 'F',
    ensures
        ({
            let h = d.take(8) + "-"@ + d.subrange(8, 12) + "-"@ + d.subrange(12, 16) + "-"@
                + d.subrange(16, 20) + "-"@ + d.skip(20);
            &&& uuid_digits(d) == Some(d)
            &&& uuid_digits(h) == Some(d)
            &&& uuid_digits("urn:uuid:"@ + h) == Some(d)
            &&& hyphenated_form(h)
        }),
{
    reveal_strlit("-");
    reveal_strlit("urn:uuid:");
    let h = d.take(8) + "-"@ + d.subrange(8, 12) + "-"@ + d.subrange(12, 16) + "-"@ + d.subrange(
        16,
        20,
    ) + "-"@ + d.skip(20);
    assert(h =~= with_hyphens(d));
    lemma_hyphens_put(d);
    let urn = "urn:uuid:"@ + h;
    assert(urn.skip(9) =~= h);
    assert(urn.take(9) =~= urn_prefix());
}

} // verus!
