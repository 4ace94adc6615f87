//! The GPT header.

use vstd::prelude::*;

use crate::codec::{
    array4, array8, byte_limit, field, get_array4, get_array8, get_u32, get_u64,
    law_bytes_in_place, le_bytes, le_value, lemma_byte_limits, lemma_le_bytes_len,
    lemma_le_bytes_of_value, lemma_le_value_of_bytes, put_bytes, put_u32, put_u64,
};
use crate::crc32::{checksum_ieee, crc32_ieee, law_one_byte_changes_the_checksum};
use crate::error::Error;
use crate::guid::{lemma_guid_read_back, lemma_guid_written_back, GptGuid};

verus! {

/// The size of the GPT header on disk.
pub const HEADER_SIZE: u32 = 92;

/// The size of a partition table: 16 KiB.
pub const TABLE_SIZE: u32 = 0x4000;

/// The number of entries that a partition table holds.
pub const TABLE_ENTRIES: u32 = 128;

/// Where the usable blocks of a disk start: at 1 MiB.
pub const FIRST_USABLE: u32 = 0x10_0000;

#[derive(Debug, PartialEq, Default, Copy, Clone)]
pub struct GPTHeader {
    /// GPT signature (must be "EFI PART").
    pub signature: [u8; 8],
    /// 00 00 01 00 up til version 2.17
    pub revision: [u8; 4],
    /// GPT header size (92 bytes)
    pub header_size: u32,
    /// CRC32  of the header.
    pub self_checksum: u32,
    pub reserved: [u8; 4],
    /// primary lba where the header is located
    pub lba_self: u64,
    /// alternative lba where the header is located (backup)
    pub lba_alt: u64,
    /// first usable lba
    pub lba_start: u64,
    /// last usable lba
    pub lba_end: u64,
    /// 16 bytes representing the GUID of the GPT.
    pub guid: GptGuid,
    /// lba of where to find the partition table
    pub lba_table: u64,
    /// number of partitions, most tools set this to 128
    pub num_entries: u32,
    /// Size of element
    pub entry_size: u32,
    /// CRC32 checksum of the partition array.
    pub table_crc: u32,
}

/// "EFI PART"
pub open spec fn efi_part() -> [u8; 8] {
    [0x45, 0x46, 0x49, 0x20, 0x50, 0x41, 0x52, 0x54]
}

/// Revision 1.0 of the header.
pub open spec fn revision_1() -> [u8; 4] {
    [0x00, 0x00, 0x01, 0x00]
}

impl GPTHeader {
    /// The header on disk: the fields in order, the numbers little-endian.
    pub open spec fn bytes(self) -> Seq<u8> {
        self.signature@ + self.revision@ + le_bytes(self.header_size as nat, 4) + le_bytes(
            self.self_checksum as nat,
            4,
        ) + self.reserved@ + le_bytes(self.lba_self as nat, 8) + le_bytes(self.lba_alt as nat, 8)
            + le_bytes(self.lba_start as nat, 8) + le_bytes(self.lba_end as nat, 8)
            + self.guid.bytes() + le_bytes(self.lba_table as nat, 8) + le_bytes(
            self.num_entries as nat,
            4,
        ) + le_bytes(self.entry_size as nat, 4) + le_bytes(self.table_crc as nat, 4)
    }

    /// The header whose bytes on disk are the first 92 of `s`.
    pub open spec fn of_bytes(s: Seq<u8>) -> GPTHeader {
        GPTHeader {
            signature: array8(s, 0),
            revision: array4(s, 8),
            header_size: le_value(field(s, 12, 4)) as u32,
            self_checksum: le_value(field(s, 16, 4)) as u32,
            reserved: array4(s, 20),
            lba_self: le_value(field(s, 24, 8)) as u64,
            lba_alt: le_value(field(s, 32, 8)) as u64,
            lba_start: le_value(field(s, 40, 8)) as u64,
            lba_end: le_value(field(s, 48, 8)) as u64,
            guid: GptGuid::of_bytes(s, 56),
            lba_table: le_value(field(s, 72, 8)) as u64,
            num_entries: le_value(field(s, 80, 4)) as u32,
            entry_size: le_value(field(s, 84, 4)) as u32,
            table_crc: le_value(field(s, 88, 4)) as u32,
        }
    }

    /// The header with another checksum in it.
    pub open spec fn with_checksum(self, sum: u32) -> GPTHeader {
        GPTHeader { self_checksum: sum, ..self }
    }

    /// The checksum of the header, with the checksum field itself taken as 0.
    pub open spec fn crc(self) -> u32 {
        crc32_ieee(self.with_checksum(0).bytes())
    }

    /// The header with its own and the alternative lba exchanged.
    pub open spec fn swapped(self) -> GPTHeader {
        GPTHeader { lba_self: self.lba_alt, lba_alt: self.lba_self, ..self }
    }

    /// The header is one of ours: its size, signature and revision are the right ones,
    /// and it carries its own checksum.
    pub open spec fn valid(self) -> bool {
        &&& self.header_size == HEADER_SIZE
        &&& self.signature == efi_part()
        &&& self.revision == revision_1()
        &&& self.self_checksum == self.crc()
    }

    /// The header with the lower of its own and the alternative lba as its own.
    pub open spec fn lower_first(self) -> GPTHeader {
        if self.lba_self > self.lba_alt {
            self.swapped()
        } else {
            self
        }
    }

    /// The header with its own checksum in it.
    pub open spec fn sealed(self) -> GPTHeader {
        self.with_checksum(self.crc())
    }

    /// What is read from bytes that start with a header: the header, if it is valid.
    pub open spec fn read(s: Seq<u8>) -> Result<GPTHeader, Error> {
        let gpt = GPTHeader::of_bytes(s);
        if gpt.valid() {
            Ok(gpt.lower_first())
        } else {
            Err(Error::Invalid)
        }
    }

    /// The header of a disk of `num_blocks` blocks: usable from 1 MiB on, up to the
    /// backup table, which takes 16 KiB in front of the backup header in the last block.
    /// A table holds up to 128 entries of 128 bytes.
    pub open spec fn of_disk(blk_size: u32, num_blocks: u64, guid: GptGuid) -> GPTHeader {
        GPTHeader {
            signature: efi_part(),
            revision: revision_1(),
            header_size: HEADER_SIZE,
            self_checksum: 0,
            reserved: [0, 0, 0, 0],
            lba_self: 1,
            lba_alt: (num_blocks - 1) as u64,
            lba_start: (FIRST_USABLE / blk_size) as u64,
            lba_end: (num_blocks - 2 - TABLE_SIZE / blk_size) as u64,
            guid,
            lba_table: 2,
            num_entries: TABLE_ENTRIES,
            entry_size: 128,
            table_crc: 0,
        }
    }

    /// The backup of the header: it stands where the header says, and its table
    /// follows the last usable block.
    pub open spec fn backup(self) -> GPTHeader {
        GPTHeader { lba_table: (self.lba_end + 1) as u64, ..self.swapped() }
    }

    /// The bytes of the header on disk.
    pub fn to_bytes(&self) -> (out: Vec<u8>)
        ensures
            out@ == self.bytes(),
    {
        let mut out: Vec<u8> = Vec::new();
        put_bytes(&mut out, &self.signature);
        put_bytes(&mut out, &self.revision);
        put_u32(&mut out, self.header_size);
        put_u32(&mut out, self.self_checksum);
        put_bytes(&mut out, &self.reserved);
        put_u64(&mut out, self.lba_self);
        put_u64(&mut out, self.lba_alt);
        put_u64(&mut out, self.lba_start);
        put_u64(&mut out, self.lba_end);
        self.guid.put(&mut out);
        put_u64(&mut out, self.lba_table);
        put_u32(&mut out, self.num_entries);
        put_u32(&mut out, self.entry_size);
        put_u32(&mut out, self.table_crc);
        assert(out@ =~= self.bytes());
        out
    }

    /// Reads the fields of a header, whatever they hold.
    fn get(slice: &[u8]) -> (res: Result<GPTHeader, Error>)
        ensures
            match res {
                Ok(gpt) => slice@.len() >= HEADER_SIZE && gpt == GPTHeader::of_bytes(slice@),
                Err(e) => slice@.len() < HEADER_SIZE && e == Error::Truncated,
            },
    {
        Ok(
            GPTHeader {
                signature: get_array8(slice, 0)?,
                revision: get_array4(slice, 8)?,
                header_size: get_u32(slice, 12)?,
                self_checksum: get_u32(slice, 16)?,
                reserved: get_array4(slice, 20)?,
                lba_self: get_u64(slice, 24)?,
                lba_alt: get_u64(slice, 32)?,
                lba_start: get_u64(slice, 40)?,
                lba_end: get_u64(slice, 48)?,
                guid: GptGuid::get(slice, 56)?,
                lba_table: get_u64(slice, 72)?,
                num_entries: get_u32(slice, 80)?,
                entry_size: get_u32(slice, 84)?,
                table_crc: get_u32(slice, 88)?,
            },
        )
    }

    /// checksum the header with the checksum field itself set 0
    pub fn checksum(&mut self) -> (sum: u32)
        ensures
            sum == old(self).crc(),
            *final(self) == old(self).sealed(),
    {
        self.self_checksum = 0;
        self.self_checksum = checksum_ieee(&self.to_bytes());
        self.self_checksum
    }

    /// converts a slice into a gpt header and verifies the validity of the data
    pub fn from_slice(slice: &[u8]) -> (res: Result<GPTHeader, Error>)
        requires
            slice@.len() >= HEADER_SIZE,
        ensures
            res == GPTHeader::read(slice@),
    {
        let mut gpt = GPTHeader::get(slice)?;
        let ghost found = gpt;

        if gpt.header_size != HEADER_SIZE || !gpt.has_magic() {
            return Err(Error::Invalid);
        }
        let crc = gpt.self_checksum;
        if gpt.checksum() != crc {
            return Err(Error::Invalid);
        }
        assert(gpt == found);

        if gpt.lba_self > gpt.lba_alt {
            let lba_self = gpt.lba_self;
            gpt.lba_self = gpt.lba_alt;
            gpt.lba_alt = lba_self;
        }
        Ok(gpt)
    }

    /// Whether the header carries the right signature and revision.
    fn has_magic(&self) -> (res: bool)
        ensures
            res == (self.signature == efi_part() && self.revision == revision_1()),
    {
        let signature: [u8; 8] = [0x45, 0x46, 0x49, 0x20, 0x50, 0x41, 0x52, 0x54];
        let revision: [u8; 4] = [0x00, 0x00, 0x01, 0x00];
        assert(signature =~= efi_part() && revision =~= revision_1());
        for i in 0..8usize
            invariant
                signature == efi_part(),
                forall|j: int| 0 <= j < i ==> self.signature[j] == signature[j],
        {
            if self.signature[i] != signature[i] {
                return false;
            }
        }
        for i in 0..4usize
            invariant
                revision == revision_1(),
                forall|j: int| 0 <= j < i ==> self.revision[j] == revision[j],
        {
            if self.revision[i] != revision[i] {
                return false;
            }
        }
        assert(self.signature =~= signature && self.revision =~= revision);
        true
    }

    /// The header of a disk of `num_blocks` blocks of `blk_size` bytes. The backup
    /// table and the two headers have to fit on the disk.
    pub fn new(blk_size: u32, num_blocks: u64, guid: GptGuid) -> (gpt: GPTHeader)
        requires
            blk_size > 0,
            num_blocks >= 2 + TABLE_SIZE / blk_size,
        ensures
            gpt == GPTHeader::of_disk(blk_size, num_blocks, guid),
    {
        let table: u32 = TABLE_SIZE / blk_size;
        let start: u32 = FIRST_USABLE / blk_size;
        let gpt = GPTHeader {
            signature: [0x45, 0x46, 0x49, 0x20, 0x50, 0x41, 0x52, 0x54],
            revision: [0x00, 0x00, 0x01, 0x00],
            header_size: HEADER_SIZE,
            self_checksum: 0,
            reserved: [0, 0, 0, 0],
            lba_self: 1,
            lba_alt: num_blocks - 1,
            lba_start: start as u64,
            lba_end: ((num_blocks - 1) - table as u64) - 1,
            guid,
            lba_table: 2,
            num_entries: TABLE_ENTRIES,
            entry_size: 128,
            table_crc: 0,
        };
        gpt
    }

    /// The backup of this header. Its checksum is still that of this header.
    pub fn to_backup(&self) -> (secondary: GPTHeader)
        requires
            self.lba_end < u64::MAX,
        ensures
            secondary == self.backup(),
    {
        let mut secondary = *self;
        secondary.lba_self = self.lba_alt;
        secondary.lba_alt = self.lba_self;
        secondary.lba_table = self.lba_end + 1;
        secondary
    }
}

impl GPTHeader {
    /// The first half of the header on disk, up to the positions on the disk.
    spec fn head_bytes(self) -> Seq<u8> {
        self.signature@ + self.revision@ + le_bytes(self.header_size as nat, 4) + le_bytes(
            self.self_checksum as nat,
            4,
        ) + self.reserved@
    }

    /// The positions on the disk.
    spec fn lba_bytes(self) -> Seq<u8> {
        le_bytes(self.lba_self as nat, 8) + le_bytes(self.lba_alt as nat, 8) + le_bytes(
            self.lba_start as nat,
            8,
        ) + le_bytes(self.lba_end as nat, 8)
    }

    /// What the header says of the table.
    spec fn table_bytes(self) -> Seq<u8> {
        le_bytes(self.lba_table as nat, 8) + le_bytes(self.num_entries as nat, 4) + le_bytes(
            self.entry_size as nat,
            4,
        ) + le_bytes(self.table_crc as nat, 4)
    }
}

/// The parts of a header take 24, 32, 16 and 20 bytes.
proof fn lemma_header_parts(gpt: GPTHeader)
    ensures
        gpt.head_bytes().len() == 24,
        gpt.lba_bytes().len() == 32,
        gpt.guid.bytes().len() == 16,
        gpt.table_bytes().len() == 20,
        gpt.bytes() == gpt.head_bytes() + gpt.lba_bytes() + gpt.guid.bytes() + gpt.table_bytes(),
{
    lemma_le_bytes_len(gpt.header_size as nat, 4);
    lemma_le_bytes_len(gpt.self_checksum as nat, 4);
    lemma_le_bytes_len(gpt.lba_self as nat, 8);
    lemma_le_bytes_len(gpt.lba_alt as nat, 8);
    lemma_le_bytes_len(gpt.lba_start as nat, 8);
    lemma_le_bytes_len(gpt.lba_end as nat, 8);
    lemma_guid_read_back(gpt.guid, Seq::empty(), Seq::empty());
    lemma_le_bytes_len(gpt.lba_table as nat, 8);
    lemma_le_bytes_len(gpt.num_entries as nat, 4);
    lemma_le_bytes_len(gpt.entry_size as nat, 4);
    lemma_le_bytes_len(gpt.table_crc as nat, 4);
    assert(gpt.bytes() =~= gpt.head_bytes() + gpt.lba_bytes() + gpt.guid.bytes()
        + gpt.table_bytes());
}

/// A number of `n` bytes that stands at position `at` is read from there.
proof fn lemma_number_at(s: Seq<u8>, at: int, v: nat, n: nat)
    requires
        0 <= at,
        at + n <= s.len(),
        v < byte_limit(n),
        field(s, at, n as int) == le_bytes(v, n),
    ensures
        le_value(field(s, at, n as int)) == v,
{
    lemma_le_value_of_bytes(v, n);
}

/// The first part of a header is read back.
#[verifier::spinoff_prover]
proof fn lemma_head_read_back(gpt: GPTHeader, s: Seq<u8>)
    requires
        s.len() >= HEADER_SIZE,
        s.take(24) == gpt.head_bytes(),
    ensures
        ({
            let read = GPTHeader::of_bytes(s);
            &&& read.signature == gpt.signature
            &&& read.revision == gpt.revision
            &&& read.header_size == gpt.header_size
            &&& read.self_checksum == gpt.self_checksum
            &&& read.reserved == gpt.reserved
        }),
{
    lemma_byte_limits();
    lemma_header_parts(gpt);
    lemma_le_bytes_len(gpt.header_size as nat, 4);
    lemma_le_bytes_len(gpt.self_checksum as nat, 4);
    let h = gpt.head_bytes();
    assert forall|i: int| 0 <= i < 24 implies s[i] == h[i] by {
        assert(s.take(24)[i] == s[i]);
    }
    assert(array8(s, 0) =~= gpt.signature);
    assert(array4(s, 8) =~= gpt.revision);
    assert(array4(s, 20) =~= gpt.reserved);
    assert(field(s, 12, 4) =~= le_bytes(gpt.header_size as nat, 4));
    assert(field(s, 16, 4) =~= le_bytes(gpt.self_checksum as nat, 4));
    lemma_number_at(s, 12, gpt.header_size as nat, 4);
    lemma_number_at(s, 16, gpt.self_checksum as nat, 4);
}

/// The positions on the disk are read back.
#[verifier::spinoff_prover]
proof fn lemma_lbas_read_back(gpt: GPTHeader, s: Seq<u8>)
    requires
        s.len() >= HEADER_SIZE,
        s.subrange(24, 56) == gpt.lba_bytes(),
    ensures
        ({
            let read = GPTHeader::of_bytes(s);
            &&& read.lba_self == gpt.lba_self
            &&& read.lba_alt == gpt.lba_alt
            &&& read.lba_start == gpt.lba_start
            &&& read.lba_end == gpt.lba_end
        }),
{
    lemma_byte_limits();
    lemma_le_bytes_len(gpt.lba_self as nat, 8);
    lemma_le_bytes_len(gpt.lba_alt as nat, 8);
    lemma_le_bytes_len(gpt.lba_start as nat, 8);
    lemma_le_bytes_len(gpt.lba_end as nat, 8);
    let l = gpt.lba_bytes();
    assert forall|i: int| 24 <= i < 56 implies s[i] == l[i - 24] by {
        assert(s.subrange(24, 56)[i - 24] == s[i]);
    }
    assert(field(s, 24, 8) =~= le_bytes(gpt.lba_self as nat, 8));
    assert(field(s, 32, 8) =~= le_bytes(gpt.lba_alt as nat, 8));
    assert(field(s, 40, 8) =~= le_bytes(gpt.lba_start as nat, 8));
    assert(field(s, 48, 8) =~= le_bytes(gpt.lba_end as nat, 8));
    lemma_number_at(s, 24, gpt.lba_self as nat, 8);
    lemma_number_at(s, 32, gpt.lba_alt as nat, 8);
    lemma_number_at(s, 40, gpt.lba_start as nat, 8);
    lemma_number_at(s, 48, gpt.lba_end as nat, 8);
}

/// What a header says of the table is read back.
#[verifier::spinoff_prover]
proof fn lemma_table_read_back(gpt: GPTHeader, s: Seq<u8>)
    requires
        s.len() >= HEADER_SIZE,
        s.subrange(72, 92) == gpt.table_bytes(),
    ensures
        ({
            let read = GPTHeader::of_bytes(s);
            &&& read.lba_table == gpt.lba_table
            &&& read.num_entries == gpt.num_entries
            &&& read.entry_size == gpt.entry_size
            &&& read.table_crc == gpt.table_crc
        }),
{
    lemma_byte_limits();
    lemma_le_bytes_len(gpt.lba_table as nat, 8);
    lemma_le_bytes_len(gpt.num_entries as nat, 4);
    lemma_le_bytes_len(gpt.entry_size as nat, 4);
    lemma_le_bytes_len(gpt.table_crc as nat, 4);
    let t = gpt.table_bytes();
    assert forall|i: int| 72 <= i < 92 implies s[i] == t[i - 72] by {
        assert(s.subrange(72, 92)[i - 72] == s[i]);
    }
    assert(field(s, 72, 8) =~= le_bytes(gpt.lba_table as nat, 8));
    assert(field(s, 80, 4) =~= le_bytes(gpt.num_entries as nat, 4));
    assert(field(s, 84, 4) =~= le_bytes(gpt.entry_size as nat, 4));
    assert(field(s, 88, 4) =~= le_bytes(gpt.table_crc as nat, 4));
    lemma_number_at(s, 72, gpt.lba_table as nat, 8);
    lemma_number_at(s, 80, gpt.num_entries as nat, 4);
    lemma_number_at(s, 84, gpt.entry_size as nat, 4);
    lemma_number_at(s, 88, gpt.table_crc as nat, 4);
}

/// A header that was written to disk is read back field by field, whatever follows it.
#[verifier::spinoff_prover]
pub proof fn lemma_header_read_back(gpt: GPTHeader, after: Seq<u8>)
    ensures
        gpt.bytes().len() == HEADER_SIZE,
        GPTHeader::of_bytes(gpt.bytes() + after) == gpt,
{
    lemma_header_parts(gpt);
    let s = gpt.bytes() + after;
    assert(s.take(24) =~= gpt.head_bytes());
    lemma_head_read_back(gpt, s);
    assert(s.subrange(24, 56) =~= gpt.lba_bytes());
    lemma_lbas_read_back(gpt, s);
    lemma_guid_read_back(gpt.guid, s.take(56), s.skip(72));
    assert(s.take(56) + gpt.guid.bytes() + s.skip(72) =~= s);
    assert(s.subrange(72, 92) =~= gpt.table_bytes());
    lemma_table_read_back(gpt, s);
}

/// The fields that are read from disk are written as the bytes they were read from.
pub proof fn law_header_written_back(s: Seq<u8>)
    requires
        s.len() >= HEADER_SIZE,
    ensures
        GPTHeader::of_bytes(s).bytes() == s.take(HEADER_SIZE as int),
{
    lemma_byte_limits();
    lemma_le_bytes_of_value(field(s, 12, 4));
    lemma_le_bytes_of_value(field(s, 16, 4));
    lemma_le_bytes_of_value(field(s, 24, 8));
    lemma_le_bytes_of_value(field(s, 32, 8));
    lemma_le_bytes_of_value(field(s, 40, 8));
    lemma_le_bytes_of_value(field(s, 48, 8));
    lemma_guid_written_back(s, 56);
    lemma_le_bytes_of_value(field(s, 72, 8));
    lemma_le_bytes_of_value(field(s, 80, 4));
    lemma_le_bytes_of_value(field(s, 84, 4));
    lemma_le_bytes_of_value(field(s, 88, 4));
    assert(GPTHeader::of_bytes(s).bytes() =~= s.take(HEADER_SIZE as int));
}

/// The checksum of a header does not depend on the checksum that it carries, so
/// sealing it once more changes nothing.
pub proof fn law_checksum_ignores_itself(gpt: GPTHeader, sum: u32)
    ensures
        gpt.with_checksum(sum).crc() == gpt.crc(),
        gpt.sealed().sealed() == gpt.sealed(),
{
}

/// A header with the right size, signature and revision that was given its checksum and
/// written to disk is accepted, with whatever follows it in its block. It comes back
/// with the lower lba as its own.
pub proof fn law_sealed_header_is_read_back(gpt: GPTHeader, after: Seq<u8>)
    requires
        gpt.header_size == HEADER_SIZE,
        gpt.signature == efi_part(),
        gpt.revision == revision_1(),
    ensures
        GPTHeader::read(gpt.sealed().bytes() + after) == Ok::<GPTHeader, Error>(
            gpt.sealed().lower_first(),
        ),
{
    lemma_header_read_back(gpt.sealed(), after);
}

/// Another checksum changes the four bytes from position 16 on, and no others.
proof fn lemma_with_checksum_bytes(gpt: GPTHeader, sum: u32)
    ensures
        gpt.with_checksum(sum).bytes() == gpt.bytes().take(16) + le_bytes(sum as nat, 4)
            + gpt.bytes().subrange(20, 92),
{
    lemma_le_bytes_len(gpt.header_size as nat, 4);
    lemma_le_bytes_len(gpt.self_checksum as nat, 4);
    lemma_le_bytes_len(sum as nat, 4);
    let head = gpt.signature@ + gpt.revision@ + le_bytes(gpt.header_size as nat, 4);
    let tail = gpt.reserved@ + le_bytes(gpt.lba_self as nat, 8) + le_bytes(gpt.lba_alt as nat, 8)
        + le_bytes(gpt.lba_start as nat, 8) + le_bytes(gpt.lba_end as nat, 8) + gpt.guid.bytes()
        + le_bytes(gpt.lba_table as nat, 8) + le_bytes(gpt.num_entries as nat, 4) + le_bytes(
        gpt.entry_size as nat,
        4,
    ) + le_bytes(gpt.table_crc as nat, 4);
    let sum_bytes = le_bytes(gpt.self_checksum as nat, 4);
    assert(gpt.bytes() =~= head + sum_bytes + tail);
    assert(gpt.with_checksum(sum).bytes() =~= head + le_bytes(sum as nat, 4) + tail);
    lemma_header_read_back(gpt, Seq::empty());
    assert((head + sum_bytes + tail).take(16) =~= head);
    assert((head + sum_bytes + tail).subrange(20, 92) =~= tail);
}

/// The signature and the revision of a header are its first twelve bytes.
proof fn lemma_magic_bytes(s: Seq<u8>)
    requires
        s.len() >= HEADER_SIZE,
    ensures
        s.subrange(0, 12) == efi_part()@ + revision_1()@ <==> {
            &&& GPTHeader::of_bytes(s).signature == efi_part()
            &&& GPTHeader::of_bytes(s).revision == revision_1()
        },
{
    let gpt = GPTHeader::of_bytes(s);
    let m = efi_part()@ + revision_1()@;
    if s.subrange(0, 12) == m {
        assert forall|i: int| 0 <= i < 12 implies s[i] == m[i] by {
            assert(s.subrange(0, 12)[i] == m[i]);
        }
        assert(gpt.signature =~= efi_part());
        assert(gpt.revision =~= revision_1());
    }
    if gpt.signature == efi_part() && gpt.revision == revision_1() {
        assert forall|i: int| 0 <= i < 12 implies s[i] == m[i] by {
            if i < 8 {
                assert(gpt.signature[i] == s[i]);
            } else {
                assert(gpt.revision[i - 8] == s[i]);
            }
        }
        assert(s.subrange(0, 12) =~= m);
    }
}

/// A header is accepted only from bytes that hold the signature, the revision and the
/// size of a header, and the checksum of the 92 bytes with the four bytes of the
/// checksum taken as 0.
pub proof fn law_accepted_bytes(s: Seq<u8>)
    requires
        s.len() >= HEADER_SIZE,
    ensures
        GPTHeader::read(s) is Ok <==> {
            &&& s.subrange(0, 12) == efi_part()@ + revision_1()@
            &&& field(s, 12, 4) == le_bytes(HEADER_SIZE as nat, 4)
            &&& field(s, 16, 4) == le_bytes(
                crc32_ieee(s.take(16) + le_bytes(0, 4) + s.subrange(20, 92)) as nat,
                4,
            )
        },
{
    let gpt = GPTHeader::of_bytes(s);
    law_header_written_back(s);
    lemma_byte_limits();
    lemma_le_bytes_of_value(field(s, 12, 4));
    lemma_le_bytes_of_value(field(s, 16, 4));
    lemma_le_value_of_bytes(HEADER_SIZE as nat, 4);
    lemma_le_value_of_bytes(gpt.crc() as nat, 4);
    lemma_with_checksum_bytes(gpt, 0);
    assert(s.take(92).take(16) =~= s.take(16));
    assert(s.take(92).subrange(20, 92) =~= s.subrange(20, 92));
    lemma_magic_bytes(s);
}

/// A header with one changed byte is refused, wherever in its 92 bytes that is.
pub proof fn law_damaged_header_is_refused(s: Seq<u8>, t: Seq<u8>, i: int)
    requires
        s.len() >= HEADER_SIZE,
        GPTHeader::read(s) is Ok,
        t.len() == s.len(),
        0 <= i < HEADER_SIZE,
        s[i] != t[i],
        forall|j: int| 0 <= j < s.len() && j != i ==> s[j] == t[j],
    ensures
        GPTHeader::read(t) == Err::<GPTHeader, Error>(Error::Invalid),
{
    law_accepted_bytes(s);
    law_accepted_bytes(t);
    if i < 12 {
        assert(s.subrange(0, 12)[i] != t.subrange(0, 12)[i]);
    } else if i < 16 {
        assert(field(s, 12, 4)[i - 12] != field(t, 12, 4)[i - 12]);
    } else {
        lemma_le_bytes_len(0, 4);
        let summed_s = s.take(16) + le_bytes(0, 4) + s.subrange(20, 92);
        let summed_t = t.take(16) + le_bytes(0, 4) + t.subrange(20, 92);
        if i < 20 {
            assert(summed_s =~= summed_t);
            assert(field(s, 16, 4)[i - 16] != field(t, 16, 4)[i - 16]);
        } else {
            law_one_byte_changes_the_checksum(summed_s, summed_t, i);
            assert(field(s, 16, 4) =~= field(t, 16, 4));
            lemma_byte_limits();
            lemma_le_value_of_bytes(crc32_ieee(summed_s) as nat, 4);
            lemma_le_value_of_bytes(crc32_ieee(summed_t) as nat, 4);
        }
    }
}

/// Whatever is accepted carries a valid checksum for the order it was written in, and
/// names the lower of its two positions first.
pub proof fn law_accepted_header(s: Seq<u8>)
    ensures
        GPTHeader::read(s) matches Ok(gpt) ==> {
            &&& gpt.lba_self <= gpt.lba_alt
            &&& gpt.signature == efi_part()
            &&& gpt.revision == revision_1()
            &&& gpt.header_size == HEADER_SIZE
            &&& gpt.valid() || gpt.swapped().valid()
        },
{
    let gpt = GPTHeader::of_bytes(s);
    if gpt.valid() && gpt.lba_self > gpt.lba_alt {
        assert(gpt.lower_first().swapped() == gpt);
    }
}

/// A backup with its own checksum, and with the lower lba as its own.
proof fn lemma_sealed_backup(gpt: GPTHeader)
    requires
        gpt.lba_self <= gpt.lba_alt,
    ensures
        gpt.backup().sealed().lower_first() == (GPTHeader {
            lba_table: (gpt.lba_end + 1) as u64,
            self_checksum: gpt.backup().crc(),
            ..gpt
        }),
{
    let sum = gpt.backup().crc();
    assert(gpt.backup().sealed() == gpt.backup().with_checksum(sum));
}

/// The backup of a header, written with its own checksum, is read as the header itself
/// but for the place of the table and the checksum. The checksum of the header does not
/// matter.
pub proof fn law_backup_names_the_same_disk(gpt: GPTHeader, after: Seq<u8>)
    requires
        gpt.header_size == HEADER_SIZE,
        gpt.signature == efi_part(),
        gpt.revision == revision_1(),
        gpt.lba_self <= gpt.lba_alt,
        gpt.lba_end < u64::MAX,
    ensures
        GPTHeader::read(gpt.backup().sealed().bytes() + after) == Ok::<GPTHeader, Error>(
            GPTHeader {
                lba_table: (gpt.lba_end + 1) as u64,
                self_checksum: gpt.backup().crc(),
                ..gpt
            },
        ),
{
    lemma_sealed_backup(gpt);
    law_sealed_header_is_read_back(gpt.backup(), after);
}

/// The backup of a backup stands where the header does; only its table stays at the end.
pub proof fn law_backup_twice(gpt: GPTHeader)
    ensures
        gpt.backup().backup() == (GPTHeader { lba_table: (gpt.lba_end + 1) as u64, ..gpt }),
{
}

/// On a new disk the header is in the second block, and the main table, of 128 entries of
/// 128 bytes, begins in the block behind it. The usable blocks begin with the last one that
/// starts within the first MiB, or at its end. The backup table fills the blocks between
/// the last usable one and the backup header, and the backup header is in the last block.
pub proof fn law_new_disk_layout(blk_size: u32, num_blocks: u64, guid: GptGuid)
    requires
        blk_size > 0,
        num_blocks >= 2 + TABLE_SIZE / blk_size,
    ensures
        ({
            let gpt = GPTHeader::of_disk(blk_size, num_blocks, guid);
            &&& gpt.lba_self == 1
            &&& gpt.lba_table == gpt.lba_self + 1
            &&& gpt.num_entries * gpt.entry_size == TABLE_SIZE
            &&& gpt.lba_start * blk_size <= FIRST_USABLE < (gpt.lba_start + 1) * blk_size
            &&& gpt.lba_end + 1 == gpt.backup().lba_table
            &&& gpt.backup().lba_table + TABLE_SIZE / blk_size == gpt.backup().lba_self
            &&& gpt.backup().lba_self == gpt.lba_alt
            &&& gpt.lba_alt == num_blocks - 1
        }),
{
    let start = FIRST_USABLE / blk_size;
    assert(start * blk_size <= FIRST_USABLE < (start + 1) * blk_size) by (nonlinear_arith)
        requires
            start == FIRST_USABLE / blk_size,
            blk_size > 0,
    ;
}

/// On a new disk the main table ends in front of the first usable block if, and only if,
/// three blocks or more fit in the first MiB.
pub proof fn law_main_table_is_not_usable(blk_size: u32, num_blocks: u64, guid: GptGuid)
    requires
        blk_size > 0,
        num_blocks >= 2 + TABLE_SIZE / blk_size,
    ensures
        ({
            let gpt = GPTHeader::of_disk(blk_size, num_blocks, guid);
            gpt.lba_table * blk_size + gpt.num_entries * gpt.entry_size <= gpt.lba_start * blk_size
                <==> 3 * blk_size <= FIRST_USABLE
        }),
{
    let start = FIRST_USABLE / blk_size;
    assert(2 * blk_size + 0x4000 <= start * blk_size <==> 3 * blk_size <= 0x10_0000)
        by (nonlinear_arith)
        requires
            start == 0x10_0000u32 / blk_size,
            blk_size > 0,
    ;
}

/// The place of each field of a header in its 92 bytes on disk.
#[verifier::spinoff_prover]
pub proof fn law_header_on_disk(gpt: GPTHeader)
    ensures
        ({
            let b = gpt.bytes();
            &&& b.len() == 92
            &&& b.subrange(0, 8) == gpt.signature@
            &&& b.subrange(8, 12) == gpt.revision@
            &&& b.subrange(12, 16) == le_bytes(gpt.header_size as nat, 4)
            &&& b.subrange(16, 20) == le_bytes(gpt.self_checksum as nat, 4)
            &&& b.subrange(20, 24) == gpt.reserved@
            &&& b.subrange(24, 32) == le_bytes(gpt.lba_self as nat, 8)
            &&& b.subrange(32, 40) == le_bytes(gpt.lba_alt as nat, 8)
            &&& b.subrange(40, 48) == le_bytes(gpt.lba_start as nat, 8)
            &&& b.subrange(48, 56) == le_bytes(gpt.lba_end as nat, 8)
            &&& b.subrange(56, 72) == gpt.guid.bytes()
            &&& b.subrange(72, 80) == le_bytes(gpt.lba_table as nat, 8)
            &&& b.subrange(80, 84) == le_bytes(gpt.num_entries as nat, 4)
            &&& b.subrange(84, 88) == le_bytes(gpt.entry_size as nat, 4)
            &&& b.subrange(88, 92) == le_bytes(gpt.table_crc as nat, 4)
        }),
{
    let b = gpt.bytes();
    lemma_header_read_back(gpt, Seq::empty());
    assert(b + Seq::<u8>::empty() =~= b);
    law_fields_in_place(b);
    lemma_byte_limits();
    lemma_le_bytes_of_value(b.subrange(12, 16));
    lemma_le_bytes_of_value(b.subrange(16, 20));
    lemma_le_bytes_of_value(b.subrange(24, 32));
    lemma_le_bytes_of_value(b.subrange(32, 40));
    lemma_le_bytes_of_value(b.subrange(40, 48));
    lemma_le_bytes_of_value(b.subrange(48, 56));
    lemma_le_bytes_of_value(b.subrange(72, 80));
    lemma_le_bytes_of_value(b.subrange(80, 84));
    lemma_le_bytes_of_value(b.subrange(84, 88));
    lemma_le_bytes_of_value(b.subrange(88, 92));
    lemma_guid_written_back(b, 56);
}

/// Each field of a header is read from its own place.
#[verifier::spinoff_prover]
pub proof fn law_fields_in_place(s: Seq<u8>)
    requires
        s.len() >= 92,
    ensures
        ({
            let gpt = GPTHeader::of_bytes(s);
            &&& gpt.signature@ == s.subrange(0, 8)
            &&& gpt.revision@ == s.subrange(8, 12)
            &&& gpt.header_size == le_value(s.subrange(12, 16))
            &&& gpt.self_checksum == le_value(s.subrange(16, 20))
            &&& gpt.reserved@ == s.subrange(20, 24)
            &&& gpt.lba_self == le_value(s.subrange(24, 32))
            &&& gpt.lba_alt == le_value(s.subrange(32, 40))
            &&& gpt.lba_start == le_value(s.subrange(40, 48))
            &&& gpt.lba_end == le_value(s.subrange(48, 56))
            &&& gpt.guid == GptGuid::of_bytes(s, 56)
            &&& gpt.lba_table == le_value(s.subrange(72, 80))
            &&& gpt.num_entries == le_value(s.subrange(80, 84))
            &&& gpt.entry_size == le_value(s.subrange(84, 88))
            &&& gpt.table_crc == le_value(s.subrange(88, 92))
        }),
{
    lemma_byte_limits();
    lemma_le_bytes_of_value(s.subrange(12, 16));
    lemma_le_bytes_of_value(s.subrange(16, 20));
    lemma_le_bytes_of_value(s.subrange(24, 32));
    lemma_le_bytes_of_value(s.subrange(32, 40));
    lemma_le_bytes_of_value(s.subrange(40, 48));
    lemma_le_bytes_of_value(s.subrange(48, 56));
    lemma_le_bytes_of_value(s.subrange(72, 80));
    lemma_le_bytes_of_value(s.subrange(80, 84));
    lemma_le_bytes_of_value(s.subrange(84, 88));
    lemma_le_bytes_of_value(s.subrange(88, 92));
    law_bytes_in_place(s, 0, 8);
    law_bytes_in_place(s, 8, 4);
    law_bytes_in_place(s, 20, 4);
}

/// Every field of a header that is accepted is the one in the bytes, but for its own lba,
/// which is the lower of the two in the bytes, and the alternative lba, which is the higher.
#[verifier::spinoff_prover]
pub proof fn law_accepted_fields(s: Seq<u8>)
    requires
        s.len() >= 92,
    ensures
        GPTHeader::read(s) matches Ok(gpt) ==> ({
            let first = le_value(s.subrange(24, 32));
            let second = le_value(s.subrange(32, 40));
            &&& gpt.signature@ == s.subrange(0, 8)
            &&& gpt.revision@ == s.subrange(8, 12)
            &&& gpt.header_size == le_value(s.subrange(12, 16))
            &&& gpt.self_checksum == le_value(s.subrange(16, 20))
            &&& gpt.reserved@ == s.subrange(20, 24)
            &&& first <= second ==> gpt.lba_self == first && gpt.lba_alt == second
            &&& first > second ==> gpt.lba_self == second && gpt.lba_alt == first
            &&& gpt.lba_start == le_value(s.subrange(40, 48))
            &&& gpt.lba_end == le_value(s.subrange(48, 56))
            &&& gpt.guid == GptGuid::of_bytes(s, 56)
            &&& gpt.lba_table == le_value(s.subrange(72, 80))
            &&& gpt.num_entries == le_value(s.subrange(80, 84))
            &&& gpt.entry_size == le_value(s.subrange(84, 88))
            &&& gpt.table_crc == le_value(s.subrange(88, 92))
        }),
        GPTHeader::read(s) matches Err(e) ==> e == Error::Invalid,
{
    law_fields_in_place(s);
}

/// A header is accepted if and only if it begins with "EFI PART" and 00 00 01 00, gives its
/// size as 92, and holds the checksum of its 92 bytes with zeros in place of the checksum.
pub proof fn law_accepted_magic(s: Seq<u8>)
    requires
        s.len() >= 92,
    ensures
        GPTHeader::read(s) is Ok <==> {
            &&& s.take(12) == seq![
                0x45u8, 0x46, 0x49, 0x20, 0x50, 0x41, 0x52, 0x54, 0x00, 0x00, 0x01, 0x00,
            ]
            &&& le_value(s.subrange(12, 16)) == 92
            &&& le_value(s.subrange(16, 20)) == crc32_ieee(
                s.take(16) + seq![0u8, 0, 0, 0] + s.subrange(20, 92),
            )
        },
{
    let magic = seq![
        0x45u8, 0x46, 0x49, 0x20, 0x50, 0x41, 0x52, 0x54, 0x00, 0x00, 0x01, 0x00,
    ];
    law_accepted_bytes(s);
    lemma_zeros();
    assert(efi_part()@ + revision_1()@ =~= magic);
    assert(s.take(12) =~= s.subrange(0, 12));
    lemma_byte_limits();
    lemma_le_bytes_of_value(s.subrange(12, 16));
    lemma_le_bytes_of_value(s.subrange(16, 20));
    lemma_le_value_of_bytes(92, 4);
    lemma_le_value_of_bytes(
        crc32_ieee(s.take(16) + seq![0u8, 0, 0, 0] + s.subrange(20, 92)) as nat,
        4,
    );
}

proof fn lemma_zeros()
    ensures
        le_bytes(0, 4) == seq![0u8, 0, 0, 0],
{
    reveal_with_fuel(le_bytes, 5);
    assert(le_bytes(0, 4) =~= seq![0u8, 0, 0, 0]);
}

/// Sealing a header changes its checksum, to that of its bytes with zeros in place of the
/// checksum, and nothing else.
pub proof fn law_sealing(gpt: GPTHeader)
    ensures
        gpt.crc() == crc32_ieee(
            gpt.bytes().take(16) + seq![0u8, 0, 0, 0] + gpt.bytes().subrange(20, 92),
        ),
        gpt.sealed().self_checksum == gpt.crc(),
        gpt.sealed() == (GPTHeader { self_checksum: gpt.crc(), ..gpt }),
{
    lemma_with_checksum_bytes(gpt, 0);
    lemma_zeros();
}

/// A header with the right size, signature and revision that was given its checksum and
/// written to disk is read back as it is if its own lba is not above the alternative one. If
/// it is, the two are exchanged, and nothing else changes.
pub proof fn law_written_header_is_read(gpt: GPTHeader, after: Seq<u8>)
    requires
        gpt.header_size == 92,
        gpt.signature@ == seq![0x45u8, 0x46, 0x49, 0x20, 0x50, 0x41, 0x52, 0x54],
        gpt.revision@ == seq![0x00u8, 0x00, 0x01, 0x00],
    ensures
        gpt.lba_self <= gpt.lba_alt ==> GPTHeader::read(gpt.sealed().bytes() + after) == Ok::<
            GPTHeader,
            Error,
        >(GPTHeader { self_checksum: gpt.crc(), ..gpt }),
        gpt.lba_self > gpt.lba_alt ==> GPTHeader::read(gpt.sealed().bytes() + after) == Ok::<
            GPTHeader,
            Error,
        >(
            GPTHeader {
                self_checksum: gpt.crc(),
                lba_self: gpt.lba_alt,
                lba_alt: gpt.lba_self,
                ..gpt
            },
        ),
{
    lemma_magic_arrays(gpt);
    law_sealed_header_is_read_back(gpt, after);
    lemma_sealed_lower_first(gpt);
}

proof fn lemma_magic_arrays(gpt: GPTHeader)
    requires
        gpt.signature@ == seq![0x45u8, 0x46, 0x49, 0x20, 0x50, 0x41, 0x52, 0x54],
        gpt.revision@ == seq![0x00u8, 0x00, 0x01, 0x00],
    ensures
        gpt.signature == efi_part(),
        gpt.revision == revision_1(),
{
    assert(gpt.signature@ =~= efi_part()@);
    assert(gpt.revision@ =~= revision_1()@);
    assert(gpt.signature =~= efi_part());
    assert(gpt.revision =~= revision_1());
}

proof fn lemma_sealed_lower_first(gpt: GPTHeader)
    ensures
        gpt.lba_self <= gpt.lba_alt ==> gpt.sealed().lower_first() == (GPTHeader {
            self_checksum: gpt.crc(),
            ..gpt
        }),
        gpt.lba_self > gpt.lba_alt ==> gpt.sealed().lower_first() == (GPTHeader {
            self_checksum: gpt.crc(),
            lba_self: gpt.lba_alt,
            lba_alt: gpt.lba_self,
            ..gpt
        }),
{
}

/// The backup of a header has the two lbas exchanged and its table behind the last usable
/// block. Nothing else changes, not even the checksum.
pub proof fn law_backup_fields(gpt: GPTHeader)
    requires
        gpt.lba_end < u64::MAX,
    ensures
        gpt.backup().lba_self == gpt.lba_alt,
        gpt.backup().lba_alt == gpt.lba_self,
        gpt.backup().lba_table == gpt.lba_end + 1,
        gpt.backup() == (GPTHeader {
            lba_self: gpt.backup().lba_self,
            lba_alt: gpt.backup().lba_alt,
            lba_table: gpt.backup().lba_table,
            ..gpt
        }),
{
}

/// The header of a new disk carries "EFI PART", revision 00 00 01 00, the size 92 and the
/// GUID of the disk, and no checksums yet. It stands in block 1, its table from block 2 on,
/// with 128 entries of 128 bytes, and its backup in the last block. The usable blocks begin
/// at 1 MiB, and end in front of the 16 KiB of the backup table.
pub proof fn law_new_disk_fields(blk_size: u32, num_blocks: u64, guid: GptGuid)
    requires
        blk_size > 0,
        num_blocks >= 2 + 0x4000u32 / blk_size,
    ensures
        ({
            let gpt = GPTHeader::of_disk(blk_size, num_blocks, guid);
            &&& gpt.signature@ == seq![0x45u8, 0x46, 0x49, 0x20, 0x50, 0x41, 0x52, 0x54]
            &&& gpt.revision@ == seq![0x00u8, 0x00, 0x01, 0x00]
            &&& gpt.header_size == 92
            &&& gpt.self_checksum == 0
            &&& gpt.reserved@ == seq![0u8, 0, 0, 0]
            &&& gpt.lba_self == 1
            &&& gpt.lba_alt + 1 == num_blocks
            &&& gpt.lba_start == 0x10_0000u32 / blk_size
            &&& gpt.lba_end + 0x4000u32 / blk_size + 2 == num_blocks
            &&& gpt.guid == guid
            &&& gpt.lba_table == 2
            &&& gpt.num_entries == 128
            &&& gpt.entry_size == 128
            &&& gpt.table_crc == 0
        }),
{
    let gpt = GPTHeader::of_disk(blk_size, num_blocks, guid);
    assert(gpt.signature@ =~= seq![0x45u8, 0x46, 0x49, 0x20, 0x50, 0x41, 0x52, 0x54]);
    assert(gpt.revision@ =~= seq![0x00u8, 0x00, 0x01, 0x00]);
    assert(gpt.reserved@ =~= seq![0u8, 0, 0, 0]);
}

/// The header of a new disk, with its checksum and with that of any table, is accepted when
/// it is read, and is the header that was written.
pub proof fn law_new_disk_is_read_back(
    blk_size: u32,
    num_blocks: u64,
    guid: GptGuid,
    table_crc: u32,
    after: Seq<u8>,
)
    requires
        blk_size > 0,
        num_blocks >= 2 + 0x4000u32 / blk_size,
    ensures
        ({
            let new = GPTHeader::of_disk(blk_size, num_blocks, guid);
            let written = (GPTHeader { table_crc, ..new }).sealed();
            &&& written.guid == guid
            &&& written.table_crc == table_crc
            &&& GPTHeader::read(written.bytes() + after) == Ok::<GPTHeader, Error>(written)
        }),
{
    let new = GPTHeader::of_disk(blk_size, num_blocks, guid);
    let gpt = GPTHeader { table_crc, ..new };
    law_new_disk_fields(blk_size, num_blocks, guid);
    law_written_header_is_read(gpt, after);
    law_sealing(gpt);
}

} // verus!
