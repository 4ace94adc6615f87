use std::str::FromStr;

use mayastor::entry::{GptEntry, GptName, NameReader};
use mayastor::error::Error;
use mayastor::guid::GptGuid;
use mayastor::header::GPTHeader;
use mayastor::label::NexusLabel;
use mayastor::utf16::utf16_units;

const DISK_GUID: &str = "eab49a2f-efea-45e6-9a1b-61fece3426dd";
const MAYA_TYPE: &str = "27663382-e5e6-11e9-81b4-ca5ca5ca5ca5";

const HEADER: [u8; 92] = [
    69, 70, 73, 32, 80, 65, 82, 84, 0, 0, 1, 0, 92, 0, 0, 0, 251, 66, 186, 180, 0, 0, 0, 0, 1, 0, 0, 0,
    0, 0, 0, 0, 255, 255, 31, 0, 0, 0, 0, 0, 0, 8, 0, 0, 0, 0, 0, 0, 222, 255, 31, 0, 0, 0, 0, 0, 47,
    154, 180, 234, 234, 239, 230, 69, 154, 27, 97, 254, 206, 52, 38, 221, 2, 0, 0, 0, 0, 0, 0, 0, 128,
    0, 0, 0, 128, 0, 0, 0, 0, 0, 0, 0,
];

fn guid(s: &str) -> GptGuid {
    GptGuid::from_str(s).unwrap()
}

fn entry(ent_guid: &str, ent_start: u64, ent_end: u64, name: &str) -> GptEntry {
    GptEntry {
        ent_type: guid(MAYA_TYPE),
        ent_guid: guid(ent_guid),
        ent_start,
        ent_end,
        ent_attr: 0,
        ent_name: GptName { name: name.to_string() },
    }
}

fn partitions() -> Vec<GptEntry> {
    vec![
        entry("00000001-0002-0003-0405-060708090a0b", 2048, 10239, "MayaMeta"),
        entry("ffffffff-eeee-dddd-cccc-bbbbbbbbbbbb", 10240, 2097118, "MayaData"),
    ]
}

fn table(entries: &[GptEntry]) -> Vec<u8> {
    let mut bytes = Vec::new();
    for e in entries {
        bytes.extend(e.to_bytes());
    }
    bytes
}

fn header() -> GPTHeader {
    GPTHeader::new(512, 2097152, guid(DISK_GUID))
}

#[test]
fn guid_from_text() {
    let g = guid(DISK_GUID);
    assert_eq!(g.time_low, 0xeab49a2f);
    assert_eq!(g.time_mid, 0xefea);
    assert_eq!(g.time_high, 0x45e6);
    assert_eq!(g.node, [0x9a, 0x1b, 0x61, 0xfe, 0xce, 0x34, 0x26, 0xdd]);
    assert_eq!(guid("EAB49A2FEFEA45E69A1B61FECE3426DD"), g);
    assert_eq!(guid("urn:uuid:EAB49A2F-efea-45e6-9a1b-61fece3426dd"), g);
}

#[test]
fn guid_errors_are_those_of_uuid() {
    assert!(matches!(
        GptGuid::from_str(""),
        Err(uuid::parser::ParseError::InvalidLength { found: 0, .. })
    ));
    assert!(matches!(
        GptGuid::from_str("F9168C5E-CEB2-4faa-BGBF-329BF39FA1E4"),
        Err(uuid::parser::ParseError::InvalidCharacter { found: 'G', index: 20, .. })
    ));
}

#[test]
fn guid_text_round_trip() {
    for s in [DISK_GUID, MAYA_TYPE, "00000000-0000-0000-0000-000000000000"] {
        assert_eq!(guid(s).to_string(), s);
    }
    let g = GptGuid { time_low: 1, time_mid: 2, time_high: 0xabc, node: [0, 1, 2, 3, 4, 5, 6, 0xff] };
    assert_eq!(g.to_string(), "00000001-0002-0abc-0001-0203040506ff");
    assert_eq!(guid(&g.to_string()), g);
}

#[test]
fn guid_text_in_upper_case() {
    let upper = "EAB49A2F-EFEA-45E6-9A1B-61FECE3426DD";
    assert_eq!(guid(upper).to_string(), upper.to_lowercase());
    assert_eq!(guid("eAb49a2F-EFea-45E6-9a1B-61fEcE3426dD").to_string(), DISK_GUID);
    assert_eq!(guid(upper).to_string().len(), 36);
}

#[test]
fn texts_that_are_no_guids() {
    for s in [
        "eab49a2f-efea-45e6-9a1b-61fece3426d",
        "eab49a2f-efea-45e6-9a1b61-fece3426dd",
        "eab49a2fefea45e69a1b61fece3426dg",
        "URN:UUID:eab49a2f-efea-45e6-9a1b-61fece3426dd",
        "urn:uuid:eab49a2fefea45e69a1b61fece3426dd",
        "{eab49a2f-efea-45e6-9a1b-61fece3426dd}",
        "\u{e9}ab49a2f-efea-45e6-9a1b-61fece3426d",
    ] {
        assert!(GptGuid::from_str(s).is_err(), "{}", s);
    }
}

#[test]
fn guid_from_uuid_bytes() {
    let id = uuid::Uuid::from_str(DISK_GUID).unwrap();
    assert_eq!(GptGuid::from_uuid(*id.as_bytes()), guid(DISK_GUID));
}

#[test]
fn random_guids_are_of_version_4() {
    let a = GptGuid::new_random();
    let b = GptGuid::new_random();
    assert_eq!(a.time_high >> 12, 4);
    assert_eq!(a.node[0] >> 6, 2);
    assert_ne!(a, b);
}

#[test]
fn guid_on_disk() {
    let mut bytes = vec![9];
    guid(DISK_GUID).put(&mut bytes);
    assert_eq!(
        bytes,
        vec![9, 47, 154, 180, 234, 234, 239, 230, 69, 154, 27, 97, 254, 206, 52, 38, 221]
    );
    assert_eq!(GptGuid::get(&bytes, 1), Ok(guid(DISK_GUID)));
    assert_eq!(GptGuid::get(&bytes, 2), Err(Error::Truncated));
}

#[test]
fn header_of_a_disk_of_1_gib() {
    let h = header();
    assert_eq!(&h.signature, b"EFI PART");
    assert_eq!(h.revision, [0, 0, 1, 0]);
    assert_eq!(h.header_size, 92);
    assert_eq!((h.lba_self, h.lba_alt), (1, 2097151));
    assert_eq!((h.lba_start, h.lba_end), (2048, 2097118));
    assert_eq!((h.lba_table, h.num_entries, h.entry_size), (2, 128, 128));
    assert_eq!((h.self_checksum, h.table_crc, h.reserved), (0, 0, [0; 4]));
}

#[test]
fn header_of_a_disk_with_large_blocks() {
    let h = GPTHeader::new(4096, 262144, guid(DISK_GUID));
    assert_eq!((h.lba_start, h.lba_end, h.lba_alt), (256, 262138, 262143));
    assert!((h.lba_table * 4096) + u64::from(h.num_entries * h.entry_size) <= h.lba_start * 4096);
    let h = GPTHeader::new(2097152, 2, guid(DISK_GUID));
    assert_eq!((h.lba_start, h.lba_end, h.lba_alt), (0, 0, 1));
}

#[test]
fn header_checksum() {
    let mut h = header();
    assert_eq!(h.checksum(), 0xb4ba42fb);
    assert_eq!(h.self_checksum, 0xb4ba42fb);
    assert_eq!(h.checksum(), 0xb4ba42fb);
    assert_eq!(h.to_bytes(), HEADER.to_vec());
}

#[test]
fn header_is_read_back() {
    let mut h = header();
    h.checksum();
    assert_eq!(GPTHeader::from_slice(&HEADER), Ok(h));
    let mut block = HEADER.to_vec();
    block.resize(512, 0xee);
    assert_eq!(GPTHeader::from_slice(&block), Ok(h));
}

#[test]
fn damaged_headers_are_refused() {
    for i in 0..92 {
        for change in 1..=255 {
            let mut bytes = HEADER;
            bytes[i] ^= change;
            assert_eq!(GPTHeader::from_slice(&bytes), Err(Error::Invalid), "byte {}", i);
        }
    }
}

#[test]
fn wrong_magic_is_refused_with_the_right_checksum() {
    for field in 0..3 {
        let mut h = header();
        match field {
            0 => h.header_size = 93,
            1 => h.signature[7] = b'X',
            _ => h.revision[2] = 2,
        }
        h.checksum();
        assert_eq!(GPTHeader::from_slice(&h.to_bytes()), Err(Error::Invalid));
    }
}

#[test]
fn backup_header() {
    let mut h = header();
    h.table_crc = 0x16f63ce1;
    assert_eq!(h.checksum(), 0x413a8b38);
    let mut b = h.to_backup();
    assert_eq!((b.lba_self, b.lba_alt, b.lba_table), (2097151, 1, 2097119));
    assert_eq!(b.self_checksum, 0x413a8b38);
    assert_eq!(b.lba_table + 0x4000 / 512, b.lba_self);
    assert_eq!(b.checksum(), 0xd9c0fae4);
    let read = GPTHeader::from_slice(&b.to_bytes()).unwrap();
    let expected = GPTHeader { lba_table: 2097119, self_checksum: 0xd9c0fae4, ..h };
    assert_eq!(read, expected);
    let twice = h.to_backup().to_backup();
    assert_eq!(twice, GPTHeader { lba_table: 2097119, ..h });
}

#[test]
fn entry_on_disk() {
    let bytes = partitions()[0].to_bytes();
    let mut expected = vec![
        130, 51, 102, 39, 230, 229, 233, 17, 129, 180, 202, 92, 165, 202, 92, 165, 1, 0, 0, 0, 2, 0, 3,
        0, 4, 5, 6, 7, 8, 9, 10, 11, 0, 8, 0, 0, 0, 0, 0, 0, 255, 39, 0, 0, 0, 0, 0, 0, 0, 0, 0, 0, 0,
        0, 0, 0, 77, 0, 97, 0, 121, 0, 97, 0, 77, 0, 101, 0, 116, 0, 97, 0,
    ];
    expected.resize(128, 0);
    assert_eq!(bytes, expected);
}

#[test]
fn table_checksum() {
    assert_eq!(GptEntry::checksum(&partitions()), 0x16f63ce1);
    assert_eq!(GptEntry::checksum(&[]), 0);
}

#[test]
fn table_is_read_back() {
    let mut bytes = table(&partitions());
    bytes.extend([7; 40]);
    assert_eq!(GptEntry::from_slice(&bytes, 2), Ok(partitions()));
    assert_eq!(GptEntry::from_slice(&bytes, 1), Ok(partitions()[..1].to_vec()));
    assert_eq!(GptEntry::from_slice(&bytes, 0), Ok(vec![]));
    assert_eq!(GptEntry::from_slice(&bytes, 3), Err(Error::Truncated));
    assert_eq!(GptEntry::from_slice(&bytes[..255], 2), Err(Error::Truncated));
}

#[test]
fn names_beyond_the_basic_plane_are_read_back() {
    let e = entry(DISK_GUID, 0, 1, "a\u{1D11E}\u{20ac}\u{ffff}\u{10ffff}");
    assert_eq!(GptEntry::from_slice(&e.to_bytes(), 1), Ok(vec![e]));
}

#[test]
fn names_up_to_35_units_are_read_back() {
    let e = entry(DISK_GUID, 0, 1, &"x".repeat(35));
    assert_eq!(GptEntry::from_slice(&e.to_bytes(), 1), Ok(vec![e]));
}

#[test]
fn longer_names_are_refused() {
    for n in [36, 37, 100] {
        let e = entry(DISK_GUID, 0, 1, &"x".repeat(n));
        assert_eq!(e.to_bytes().len(), 128);
        assert_eq!(GptEntry::from_slice(&e.to_bytes(), 1), Err(Error::UnterminatedName));
    }
}

#[test]
fn text_after_a_zero_is_not_read() {
    let mut bytes = Vec::new();
    GptName { name: "ab\0\0cd".to_string() }.put(&mut bytes);
    assert_eq!(GptName::get(&bytes, 0).unwrap().as_str(), "ab");
    assert_eq!(GptName::get(&bytes[..71], 0), Err(Error::Truncated));
    assert_eq!(GptName::get(&[0; 71], 0), Err(Error::Truncated));
    assert_eq!(GptName::get(&[0; 72], 0), Ok(GptName::default()));
}

#[test]
fn entries_stand_128_bytes_apart() {
    let mut entries = partitions();
    entries[0].ent_name.name = "ab\0cd".to_string();
    let bytes = table(&entries);
    entries[0].ent_name.name = "ab".to_string();
    assert_eq!(GptEntry::from_slice(&bytes, 2), Ok(entries));
}

#[test]
fn first_entry_that_cannot_be_read_decides() {
    let mut entries = partitions();
    entries[1].ent_name.name = "x".repeat(36);
    let mut bytes = table(&entries);
    bytes.extend([0; 100]);
    assert_eq!(GptEntry::from_slice(&bytes, 1), Ok(partitions()[..1].to_vec()));
    assert_eq!(GptEntry::from_slice(&bytes, 3), Err(Error::UnterminatedName));
    assert_eq!(GptEntry::from_slice(&bytes[..200], 3), Err(Error::Truncated));
}

#[test]
fn unpaired_surrogates_are_replaced() {
    let mut reader = NameReader::new();
    for unit in [0xd834, 0xdd1e, 0x6d, 0x75, 0x73, 0xdd1e, 0x69, 0x63, 0xd834, 0, 1] {
        reader.feed(unit);
    }
    assert_eq!(reader.finish().unwrap().as_str(), "\u{1D11E}mus\u{FFFD}ic\u{FFFD}");
}

#[test]
fn name_without_a_zero() {
    let mut reader = NameReader::new();
    reader.feed(0x41);
    assert_eq!(reader.finish(), Err(Error::UnterminatedName));
}

#[test]
fn units_of_a_text() {
    let s = "z\u{7f}\u{80}\u{d7ff}\u{e000}\u{ffff}\u{10000}\u{10ffff}";
    assert_eq!(utf16_units(s), s.encode_utf16().collect::<Vec<u16>>());
    let mut units: Vec<u16> = s.encode_utf16().collect();
    units.resize(36, 0);
    assert_eq!(GptName { name: s.to_string() }.units(), units);
}

#[test]
fn data_segment_of_a_label() {
    let label = NexusLabel { primary: header(), partitions: partitions() };
    assert_eq!(label.offset(), 10240);
    assert_eq!(label.num_blocks(), 2086879);
}

#[test]
fn data_segment_of_one_block() {
    let mut partitions = partitions();
    partitions[1].ent_start = 7;
    partitions[1].ent_end = 7;
    let label = NexusLabel { primary: header(), partitions };
    assert_eq!(label.num_blocks(), 1);
}

#[test]
fn data_segment_up_to_the_last_block_number() {
    let mut partitions = partitions();
    partitions[1].ent_start = 1;
    partitions[1].ent_end = u64::MAX;
    let label = NexusLabel { primary: header(), partitions };
    assert_eq!(label.num_blocks(), u64::MAX);
}

#[test]
fn label_in_words() {
    let mut primary = header();
    primary.table_crc = GptEntry::checksum(&partitions());
    primary.checksum();
    let label = NexusLabel { primary, partitions: partitions() };
    let expected = "GUID: eab49a2f-efea-45e6-9a1b-61fece3426dd\n\
        \tHeader crc32 1094355768\n\
        \tPartition table crc32 385236193\n\
        \tPartition number 0\n\
        \tGUID: 00000001-0002-0003-0405-060708090a0b\n\
        \tType GUID: 27663382-e5e6-11e9-81b4-ca5ca5ca5ca5\n\
        \tLogical block start: 2048, end: 10239\n\
        \tPartition number 1\n\
        \tGUID: ffffffff-eeee-dddd-cccc-bbbbbbbbbbbb\n\
        \tType GUID: 27663382-e5e6-11e9-81b4-ca5ca5ca5ca5\n\
        \tLogical block start: 10240, end: 2097118\n";
    assert_eq!(label.to_string(), expected);
}
