//! GUIDs in the layout that GPT gives them.

use vstd::prelude::*;

use crate::codec::{
    array8, field, get_array8, get_u16, get_u32, law_number_read, le_bytes, le_value,
    lemma_byte_limits, lemma_le_bytes_len, lemma_le_bytes_of_value, lemma_le_value_of_bytes,
    put_bytes, put_u16, put_u32,
};
use crate::error::Error;
use crate::uuids::{
    be_bytes, be_value, hex, hyphenated, hyphenated_form, lemma_hex, lemma_hex_injective,
    lemma_hyphens_in_lower_case, lemma_hyphens_put, lower_case, parsed_uuid, uuid_as_fields,
    uuid_digits, uuid_from_fields, uuid_from_str, uuid_new_v4, uuid_to_string,
};

verus! {

/// based on RFC4122
#[derive(Debug, PartialEq, Default, Clone, Copy)]
pub struct GptGuid {
    pub time_low: u32,
    pub time_mid: u16,
    pub time_high: u16,
    pub node: [u8; 8],
}

impl GptGuid {
    /// The GUID whose sixteen bytes as a UUID are `b`: the numbers are big-endian.
    pub open spec fn of_uuid(b: Seq<u8>) -> GptGuid {
        GptGuid {
            time_low: be_value(b.subrange(0, 4)) as u32,
            time_mid: be_value(b.subrange(4, 6)) as u16,
            time_high: be_value(b.subrange(6, 8)) as u16,
            node: array8(b, 8),
        }
    }

    /// The sixteen bytes of the GUID as a UUID: the numbers are big-endian.
    pub open spec fn uuid(self) -> Seq<u8> {
        be_bytes(self.time_low as nat, 4) + be_bytes(self.time_mid as nat, 2) + be_bytes(
            self.time_high as nat,
            2,
        ) + self.node@
    }

    /// The hyphenated lower-case form of the GUID.
    pub open spec fn text(self) -> Seq<char> {
        hyphenated(self.uuid())
    }

    /// The sixteen bytes of the GUID on disk: the numbers are little-endian.
    pub open spec fn bytes(self) -> Seq<u8> {
        le_bytes(self.time_low as nat, 4) + le_bytes(self.time_mid as nat, 2) + le_bytes(
            self.time_high as nat,
            2,
        ) + self.node@
    }

    /// The GUID that is on disk at position `at` of `s`.
    pub open spec fn of_bytes(s: Seq<u8>, at: int) -> GptGuid {
        GptGuid {
            time_low: le_value(field(s, at, 4)) as u32,
            time_mid: le_value(field(s, at + 4, 2)) as u16,
            time_high: le_value(field(s, at + 6, 2)) as u16,
            node: array8(s, at + 8),
        }
    }

    /// The GUID of a UUID given by its sixteen bytes.
    pub fn from_uuid(uuid: [u8; 16]) -> (guid: GptGuid)
        ensures
            guid == GptGuid::of_uuid(uuid@),
    {
        let (time_low, time_mid, time_high, node) = uuid_as_fields(uuid);
        assert(node =~= array8(uuid@, 8)) by {
            assert forall|i: int| 0 <= i < 8 implies node[i] == array8(uuid@, 8)[i] by {
                assert(node@[i] == uuid@.subrange(8, 16)[i]);
            }
        }
        GptGuid { time_low, time_mid, time_high, node }
    }

    /// A random GUID: one of version 4, with the variant of RFC 4122.
    pub fn new_random() -> (guid: GptGuid)
        ensures
            guid.time_high / 0x1000 == 4,
            guid.node[0] / 64 == 2,
    {
        let uuid = uuid_new_v4();
        proof {
            let high = uuid@.subrange(6, 8).reverse();
            assert(high.drop_first().drop_first() =~= Seq::<u8>::empty());
            assert(le_value(high) == high[0] + 256 * le_value(high.drop_first()));
            assert(le_value(high.drop_first()) == high[1] + 256 * le_value(
                high.drop_first().drop_first(),
            ));
            assert(be_value(uuid@.subrange(6, 8)) == uuid@[7] + 256 * uuid@[6]);
        }
        GptGuid::from_uuid(uuid)
    }

    /// The hyphenated lower-case form, such as `eab49a2f-efea-45e6-9a1b-61fece3426dd`.
    pub fn to_string(&self) -> (text: String)
        ensures
            text@ == self.text(),
    {
        let uuid = uuid_from_fields(self.time_low, self.time_mid, self.time_high, &self.node);
        uuid_to_string(uuid)
    }

    /// Appends the sixteen bytes of the GUID on disk.
    pub fn put(&self, out: &mut Vec<u8>)
        ensures
            final(out)@ == old(out)@ + self.bytes(),
    {
        put_u32(out, self.time_low);
        put_u16(out, self.time_mid);
        put_u16(out, self.time_high);
        put_bytes(out, &self.node);
        assert(out@ =~= old(out)@ + self.bytes());
    }

    /// Reads the sixteen bytes from position `at` on.
    pub fn get(bytes: &[u8], at: usize) -> (res: Result<GptGuid, Error>)
        requires
            at <= bytes@.len(),
        ensures
            match res {
                Ok(guid) => at + 16 <= bytes@.len() && guid == GptGuid::of_bytes(bytes@, at as int),
                Err(e) => at + 16 > bytes@.len() && e == Error::Truncated,
            },
    {
        assert(bytes.len() == bytes@.len());
        let time_low = get_u32(bytes, at)?;
        let time_mid = get_u16(bytes, at + 4)?;
        let time_high = get_u16(bytes, at + 6)?;
        let node = get_array8(bytes, at + 8)?;
        Ok(GptGuid { time_low, time_mid, time_high, node })
    }
}

impl std::str::FromStr for GptGuid {
    type Err = uuid::parser::ParseError;

    /// Reads a GUID in any of the forms of a UUID. The text that `to_string` gives is read
    /// as the GUID that it was given for, and what is read from digits with hyphens is
    /// given back by `to_string` in lower case.
    fn from_str(uuid: &str) -> (res: Result<Self, Self::Err>)
        ensures
            match res {
                Ok(guid) => {
                    &&& parsed_uuid(uuid@) matches Ok(b) && guid == GptGuid::of_uuid(b) && b
                        == guid.uuid()
                    &&& uuid_digits(uuid@) matches Some(digits) && hex(guid.uuid()) == lower_case(
                        digits,
                    )
                },
                Err(e) => {
                    &&& parsed_uuid(uuid@) matches Err(err) && err == e
                    &&& uuid_digits(uuid@) is None
                },
            },
            forall|guid: GptGuid|
                uuid@ == #[trigger] guid.text() ==> (res matches Ok(g) && g == guid),
            hyphenated_form(uuid@) ==> (res matches Ok(g) && g.text() == lower_case(uuid@)),
    {
        proof {
            assert forall|other: GptGuid| uuid@ == #[trigger] other.text() implies uuid_digits(uuid@)
                == Some(hex(other.uuid())) by {
                law_guid_text(other);
            }
        }
        let bytes = uuid_from_str(uuid)?;
        let guid = GptGuid::from_uuid(bytes);
        proof {
            law_uuid_kept(bytes@);
            if hyphenated_form(uuid@) {
                lemma_hyphens_in_lower_case(uuid@);
            }
            assert forall|other: GptGuid| uuid@ == #[trigger] other.text() implies guid == other by {
                lemma_hex(other.uuid());
                law_guid_kept(guid);
                law_guid_kept(other);
                lemma_hex_injective(guid.uuid(), other.uuid());
            }
        }
        Ok(guid)
    }
}

/// The text of a GUID is that of the UUID with the same fields: 36 characters, digits with
/// hyphens, in lower case.
pub proof fn law_guid_text(guid: GptGuid)
    ensures
        guid.text().len() == 36,
        guid.text() == hyphenated(
            be_bytes(guid.time_low as nat, 4) + be_bytes(guid.time_mid as nat, 2) + be_bytes(
                guid.time_high as nat,
                2,
            ) + guid.node@,
        ),
        hyphenated_form(guid.text()),
        lower_case(guid.text()) == guid.text(),
        uuid_digits(guid.text()) == Some(hex(guid.uuid())),
{
    law_guid_kept(guid);
    lemma_hex(guid.uuid());
    lemma_hyphens_put(hex(guid.uuid()));
    lemma_hyphens_in_lower_case(guid.text());
}

/// The bytes of a UUID survive in its GUID.
pub proof fn law_uuid_kept(b: Seq<u8>)
    requires
        b.len() == 16,
    ensures
        GptGuid::of_uuid(b).uuid() == b,
{
    lemma_byte_limits();
    lemma_le_bytes_of_value(b.subrange(0, 4).reverse());
    lemma_le_bytes_of_value(b.subrange(4, 6).reverse());
    lemma_le_bytes_of_value(b.subrange(6, 8).reverse());
    assert(GptGuid::of_uuid(b).uuid() =~= b);
}

/// The bytes of a GUID as a UUID are sixteen, and give the GUID back.
pub proof fn law_guid_kept(guid: GptGuid)
    ensures
        guid.uuid().len() == 16,
        GptGuid::of_uuid(guid.uuid()) == guid,
{
    lemma_byte_limits();
    lemma_le_bytes_len(guid.time_low as nat, 4);
    lemma_le_bytes_len(guid.time_mid as nat, 2);
    lemma_le_bytes_len(guid.time_high as nat, 2);
    lemma_le_value_of_bytes(guid.time_low as nat, 4);
    lemma_le_value_of_bytes(guid.time_mid as nat, 2);
    lemma_le_value_of_bytes(guid.time_high as nat, 2);
    let b = guid.uuid();
    assert(b.subrange(0, 4).reverse() =~= le_bytes(guid.time_low as nat, 4));
    assert(b.subrange(4, 6).reverse() =~= le_bytes(guid.time_mid as nat, 2));
    assert(b.subrange(6, 8).reverse() =~= le_bytes(guid.time_high as nat, 2));
    assert(array8(b, 8) =~= guid.node);
}

/// A GUID that was written to disk is read back, whatever stands before and after it.
pub proof fn lemma_guid_read_back(guid: GptGuid, before: Seq<u8>, after: Seq<u8>)
    ensures
        guid.bytes().len() == 16,
        GptGuid::of_bytes(before + guid.bytes() + after, before.len() as int) == guid,
{
    lemma_byte_limits();
    lemma_le_bytes_len(guid.time_low as nat, 4);
    lemma_le_bytes_len(guid.time_mid as nat, 2);
    lemma_le_bytes_len(guid.time_high as nat, 2);
    lemma_le_value_of_bytes(guid.time_low as nat, 4);
    lemma_le_value_of_bytes(guid.time_mid as nat, 2);
    lemma_le_value_of_bytes(guid.time_high as nat, 2);
    let s = before + guid.bytes() + after;
    let at = before.len() as int;
    assert(field(s, at, 4) =~= le_bytes(guid.time_low as nat, 4));
    assert(field(s, at + 4, 2) =~= le_bytes(guid.time_mid as nat, 2));
    assert(field(s, at + 6, 2) =~= le_bytes(guid.time_high as nat, 2));
    assert(array8(s, at + 8) =~= guid.node);
}

/// The GUID that is read from disk is written as the bytes it was read from.
pub proof fn lemma_guid_written_back(s: Seq<u8>, at: int)
    requires
        0 <= at,
        at + 16 <= s.len(),
    ensures
        GptGuid::of_bytes(s, at).bytes() == field(s, at, 16),
{
    lemma_byte_limits();
    lemma_le_bytes_of_value(field(s, at, 4));
    lemma_le_bytes_of_value(field(s, at + 4, 2));
    lemma_le_bytes_of_value(field(s, at + 6, 2));
    assert(GptGuid::of_bytes(s, at).bytes() =~= field(s, at, 16));
}

/// A GUID takes sixteen bytes on disk: four, two and two for its numbers, little-endian, and
/// then its node.
pub proof fn law_guid_on_disk(guid: GptGuid)
    ensures
        ({
            let b = guid.bytes();
            &&& b.len() == 16
            &&& b.subrange(0, 4) == le_bytes(guid.time_low as nat, 4)
            &&& b.subrange(4, 6) == le_bytes(guid.time_mid as nat, 2)
            &&& b.subrange(6, 8) == le_bytes(guid.time_high as nat, 2)
            &&& b.subrange(8, 16) == guid.node@
        }),
{
    lemma_le_bytes_len(guid.time_low as nat, 4);
    lemma_le_bytes_len(guid.time_mid as nat, 2);
    lemma_le_bytes_len(guid.time_high as nat, 2);
    let b = guid.bytes();
    assert(b.subrange(0, 4) =~= le_bytes(guid.time_low as nat, 4));
    assert(b.subrange(4, 6) =~= le_bytes(guid.time_mid as nat, 2));
    assert(b.subrange(6, 8) =~= le_bytes(guid.time_high as nat, 2));
    assert(b.subrange(8, 16) =~= guid.node@);
}

/// Each part of a GUID is read from its own place on disk.
pub proof fn law_guid_read(s: Seq<u8>, at: int)
    requires
        0 <= at,
        at + 16 <= s.len(),
    ensures
        ({
            let guid = GptGuid::of_bytes(s, at);
            &&& guid.time_low == le_value(s.subrange(at, at + 4))
            &&& guid.time_mid == le_value(s.subrange(at + 4, at + 6))
            &&& guid.time_high == le_value(s.subrange(at + 6, at + 8))
            &&& guid.node@ == s.subrange(at + 8, at + 16)
        }),
{
    lemma_byte_limits();
    lemma_le_bytes_of_value(s.subrange(at, at + 4));
    lemma_le_bytes_of_value(s.subrange(at + 4, at + 6));
    lemma_le_bytes_of_value(s.subrange(at + 6, at + 8));
    assert(GptGuid::of_bytes(s, at).node@ =~= s.subrange(at + 8, at + 16));
}

/// The sixteen bytes of `guid` as a UUID are `b`: the numbers most significant byte first.
pub open spec fn same_uuid(guid: GptGuid, b: Seq<u8>) -> bool {
    &&& b.len() == 16
    &&& guid.time_low == 0x100_0000 * b[0] + 0x1_0000 * b[1] + 0x100 * b[2] + b[3]
    &&& guid.time_mid == 0x100 * b[4] + b[5]
    &&& guid.time_high == 0x100 * b[6] + b[7]
    &&& forall|i: int| 0 <= i < 8 ==> #[trigger] guid.node[i] == b[8 + i]
}

/// A GUID and the UUID that it is made from, or that it is written as, have the same bytes.
pub proof fn law_guid_is_its_uuid(guid: GptGuid, b: Seq<u8>)
    ensures
        same_uuid(guid, guid.uuid()),
        guid.text() == hyphenated(guid.uuid()),
        b.len() == 16 ==> same_uuid(GptGuid::of_uuid(b), b),
{
    law_guid_kept(guid);
    lemma_of_uuid(guid.uuid());
    if b.len() == 16 {
        lemma_of_uuid(b);
    }
}

proof fn lemma_of_uuid(b: Seq<u8>)
    requires
        b.len() == 16,
    ensures
        same_uuid(GptGuid::of_uuid(b), b),
{
    lemma_byte_limits();
    let (low, mid, high) = (
        b.subrange(0, 4).reverse(),
        b.subrange(4, 6).reverse(),
        b.subrange(6, 8).reverse(),
    );
    law_number_read(low);
    law_number_read(mid);
    law_number_read(high);
    lemma_le_bytes_of_value(low);
    lemma_le_bytes_of_value(mid);
    lemma_le_bytes_of_value(high);
}

} // verus!
