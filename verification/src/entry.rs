//! Partition entries and their names.

use vstd::prelude::*;

use crate::codec::{
    field, get_u16, get_u64, law_number_read, le_bytes, le_value, lemma_byte_limits,
    lemma_le_bytes_len, lemma_le_bytes_of_value, lemma_le_value_of_bytes, put_u16, put_u64,
};
use crate::crc32::{crc32_ieee, digested, feed, ieee_digest, plain_ieee, sum32};
use crate::error::Error;
use crate::guid::{lemma_guid_read_back, GptGuid};
use crate::utf16::{
    decode_utf16_lossy, encode_utf16, law_utf16_round_trip, lemma_until_zero, lemma_zero_units,
    until_zero, utf16_units,
};

verus! {

/// The number of UTF-16 code units that a partition name takes on disk.
pub const NAME_UNITS: usize = 36;

/// The number of bytes that a partition entry takes on disk.
pub const ENTRY_SIZE: usize = 128;

/// The name of a partition.
#[derive(Debug, PartialEq, Default, Clone)]
pub struct GptName {
    pub name: String,
}

impl View for GptName {
    type V = Seq<char>;

    open spec fn view(&self) -> Seq<char> {
        self.name@
    }
}

/// The code units of a name on disk: cut off after the last unit that fits, and filled
/// up with zeros.
pub open spec fn name_units(name: Seq<char>) -> Seq<u16> {
    let units = encode_utf16(name);
    Seq::new(
        NAME_UNITS as nat,
        |i: int|
            if i < units.len() {
                units[i]
            } else {
                0
            },
    )
}

/// Code units on disk: little-endian, one after the other.
pub open spec fn unit_bytes(units: Seq<u16>) -> Seq<u8>
    decreases units.len(),
{
    if units.len() == 0 {
        Seq::empty()
    } else {
        unit_bytes(units.drop_last()) + le_bytes(units.last() as nat, 2)
    }
}

/// The `n` code units that are on disk from position `at` on.
pub open spec fn units_at(s: Seq<u8>, at: int, n: nat) -> Seq<u16> {
    Seq::new(n, |i: int| le_value(field(s, at + 2 * i, 2)) as u16)
}

/// The number of units in front of the first zero.
pub open spec fn text_len(units: Seq<u16>) -> nat
    decreases units.len(),
{
    if units.len() == 0 || units[0] == 0 {
        0
    } else {
        1 + text_len(units.drop_first())
    }
}

/// What is read as a name from the 72 bytes from position `at` on: what stands in front of
/// the first zero.
pub open spec fn read_name(s: Seq<u8>, at: int) -> Result<Seq<char>, Error> {
    let units = units_at(s, at, NAME_UNITS as nat);
    if at + 2 * NAME_UNITS > s.len() {
        Err(Error::Truncated)
    } else if text_len(units) == NAME_UNITS {
        Err(Error::UnterminatedName)
    } else {
        Ok(decode_utf16_lossy(units.take(text_len(units) as int)))
    }
}

proof fn lemma_text_len(units: Seq<u16>, t: int)
    requires
        0 <= t <= units.len(),
        forall|i: int| 0 <= i < t ==> units[i] != 0,
        t < units.len() ==> units[t] == 0,
    ensures
        text_len(units) == t,
    decreases units.len(),
{
    if t > 0 {
        assert forall|i: int| 0 <= i < t - 1 implies units.drop_first()[i] != 0 by {
            assert(units[i + 1] != 0);
        }
        lemma_text_len(units.drop_first(), t - 1);
    }
}

impl GptName {
    pub fn as_str(&self) -> (s: &str)
        ensures
            s@ == self@,
            s@ == self.name@,
    {
        self.name.as_str()
    }

    /// The code units of the name on disk.
    pub fn units(&self) -> (out: Vec<u16>)
        ensures
            out@ == name_units(self@),
    {
        let units = utf16_units(self.name.as_str());
        let mut out: Vec<u16> = Vec::new();
        let mut i: usize = 0;
        while i < NAME_UNITS
            invariant
                i <= NAME_UNITS,
                units@ == encode_utf16(self@),
                out@ =~= name_units(self@).take(i as int),
            decreases NAME_UNITS - i,
        {
            out.push(
                if i < units.len() {
                    units[i]
                } else {
                    0
                },
            );
            i += 1;
        }
        assert(name_units(self@).take(NAME_UNITS as int) =~= name_units(self@));
        out
    }

    /// Appends the 72 bytes of the name on disk.
    pub fn put(&self, out: &mut Vec<u8>)
        ensures
            final(out)@ == old(out)@ + unit_bytes(name_units(self@)),
    {
        let units = self.units();
        let mut i: usize = 0;
        while i < units.len()
            invariant
                i <= units@.len(),
                out@ =~= old(out)@ + unit_bytes(units@.take(i as int)),
            decreases units@.len() - i,
        {
            put_u16(out, units[i]);
            assert(units@.take(i + 1).drop_last() =~= units@.take(i as int));
            i += 1;
        }
        assert(units@.take(i as int) =~= units@);
    }

    /// Reads a name from the 72 bytes from position `at` on.
    pub fn get(bytes: &[u8], at: usize) -> (res: Result<GptName, Error>)
        requires
            at <= bytes@.len(),
        ensures
            match res {
                Ok(name) => {
                    &&& at + 2 * NAME_UNITS <= bytes@.len()
                    &&& read_name(bytes@, at as int) matches Ok(n) && n == name@
                },
                Err(e) => read_name(bytes@, at as int) matches Err(err) && err == e,
            },
    {
        let mut reader = NameReader::new();
        let ghost units = units_at(bytes@, at as int, NAME_UNITS as nat);
        let mut pos: usize = at;
        let mut i: usize = 0;
        assert(bytes.len() == bytes@.len());
        while i < NAME_UNITS
            invariant
                bytes.len() == bytes@.len(),
                i <= NAME_UNITS,
                pos == at + 2 * i,
                pos <= bytes@.len(),
                units == units_at(bytes@, at as int, NAME_UNITS as nat),
                reader@.text.len() <= i,
                reader@.text =~= units.take(reader@.text.len() as int),
                forall|j: int| 0 <= j < reader@.text.len() ==> units[j] != 0,
                reader@.end <==> reader@.text.len() < i,
                reader@.end ==> units[reader@.text.len() as int] == 0,
            decreases NAME_UNITS - i,
        {
            let unit = get_u16(bytes, pos)?;
            assert(unit == units[i as int]);
            reader.feed(unit);
            pos += 2;
            i += 1;
        }
        proof {
            lemma_text_len(units, reader@.text.len() as int);
        }
        reader.finish()
    }
}

/// Puts a name together from its code units, one after the other.
#[derive(Debug, PartialEq)]
pub struct NameReader {
    text: Vec<u16>,
    end: bool,
}

/// What a name has been put together from so far: the units in front of the first zero,
/// and whether there was a zero.
#[verifier::ext_equal]
pub struct NameReaderView {
    pub text: Seq<u16>,
    pub end: bool,
}

impl View for NameReader {
    type V = NameReaderView;

    closed spec fn view(&self) -> NameReaderView {
        NameReaderView { text: self.text@, end: self.end }
    }
}

impl NameReader {
    pub fn new() -> (reader: NameReader)
        ensures
            reader@ == (NameReaderView { text: Seq::empty(), end: false }),
    {
        NameReader { text: Vec::new(), end: false }
    }

    /// Takes the next unit. After the first zero units do not belong to the name any more.
    pub fn feed(&mut self, unit: u16)
        ensures
            final(self)@.end == (old(self)@.end || unit == 0),
            final(self)@.text == if unit == 0 || old(self)@.end {
                old(self)@.text
            } else {
                old(self)@.text.push(unit)
            },
    {
        if unit == 0 {
            self.end = true;
        } else if !self.end {
            self.text.push(unit);
        }
    }

    /// The name, if there was a zero to end it.
    pub fn finish(self) -> (res: Result<GptName, Error>)
        ensures
            match res {
                Ok(name) => {
                    &&& self@.end
                    &&& name@ == decode_utf16_lossy(self@.text)
                    &&& name.name@ == decode_utf16_lossy(self@.text)
                },
                Err(e) => !self@.end && e == Error::UnterminatedName,
            },
    {
        if self.end {
            Ok(GptName { name: String::from_utf16_lossy(&self.text) })
        } else {
            Err(Error::UnterminatedName)
        }
    }
}

/// A partition.
#[derive(Debug, Default, PartialEq, Clone)]
pub struct GptEntry {
    /// GUID type, some of them are assigned/reserved for example to Linux
    pub ent_type: GptGuid,
    /// entry GUID, can be anything typically random
    pub ent_guid: GptGuid,
    /// start lba for this entry
    pub ent_start: u64,
    /// end lba for this entry
    pub ent_end: u64,
    /// entry attributes, according to do the docs bit 0 MUST be zero
    pub ent_attr: u64,
    /// utf16 name of the partition entry, do not confuse this fs labels!
    pub ent_name: GptName,
}

/// A partition with its name as a sequence of characters.
#[verifier::ext_equal]
pub struct EntryView {
    pub ent_type: GptGuid,
    pub ent_guid: GptGuid,
    pub ent_start: u64,
    pub ent_end: u64,
    pub ent_attr: u64,
    pub ent_name: Seq<char>,
}

impl View for GptEntry {
    type V = EntryView;

    open spec fn view(&self) -> EntryView {
        EntryView {
            ent_type: self.ent_type,
            ent_guid: self.ent_guid,
            ent_start: self.ent_start,
            ent_end: self.ent_end,
            ent_attr: self.ent_attr,
            ent_name: self.ent_name@,
        }
    }
}

impl EntryView {
    /// The entry on disk: the fields in order, the numbers little-endian.
    pub open spec fn bytes(self) -> Seq<u8> {
        self.ent_type.bytes() + self.ent_guid.bytes() + le_bytes(self.ent_start as nat, 8)
            + le_bytes(self.ent_end as nat, 8) + le_bytes(self.ent_attr as nat, 8) + unit_bytes(
            name_units(self.ent_name),
        )
    }

    /// The name can be told on disk: what stands in front of its first U+0000 leaves room
    /// for a zero behind it.
    pub open spec fn name_fits(self) -> bool {
        encode_utf16(until_zero(self.ent_name)).len() < NAME_UNITS
    }

    /// The entry with its name up to the first U+0000.
    pub open spec fn shown(self) -> EntryView {
        EntryView { ent_name: until_zero(self.ent_name), ..self }
    }
}

/// What is read as an entry from the 128 bytes from position `at` on.
pub open spec fn read_entry(s: Seq<u8>, at: int) -> Result<EntryView, Error> {
    if at + ENTRY_SIZE > s.len() {
        Err(Error::Truncated)
    } else {
        match read_name(s, at + 56) {
            Ok(name) => Ok(
                EntryView {
                    ent_type: GptGuid::of_bytes(s, at),
                    ent_guid: GptGuid::of_bytes(s, at + 16),
                    ent_start: le_value(field(s, at + 32, 8)) as u64,
                    ent_end: le_value(field(s, at + 40, 8)) as u64,
                    ent_attr: le_value(field(s, at + 48, 8)) as u64,
                    ent_name: name,
                },
            ),
            Err(e) => Err(e),
        }
    }
}

/// What is read as `n` entries, one after the other, from position `at` on. The first one
/// that cannot be read decides the error.
pub open spec fn read_entries(s: Seq<u8>, at: int, n: nat) -> Result<Seq<EntryView>, Error>
    decreases n,
{
    if n == 0 {
        Ok(Seq::empty())
    } else {
        match read_entry(s, at) {
            Ok(first) => prepend(seq![first], read_entries(s, at + ENTRY_SIZE, (n - 1) as nat)),
            Err(e) => Err(e),
        }
    }
}

/// `first`, and then the entries that were read.
pub open spec fn prepend(first: Seq<EntryView>, rest: Result<Seq<EntryView>, Error>) -> Result<
    Seq<EntryView>,
    Error,
> {
    match rest {
        Ok(rest) => Ok(first + rest),
        Err(e) => Err(e),
    }
}

/// Entries with their names as sequences of characters.
pub open spec fn entry_views(entries: Seq<GptEntry>) -> Seq<EntryView> {
    entries.map_values(|e: GptEntry| e@)
}

/// Entries on disk, one after the other.
pub open spec fn entries_bytes(entries: Seq<EntryView>) -> Seq<u8>
    decreases entries.len(),
{
    if entries.len() == 0 {
        Seq::empty()
    } else {
        entries_bytes(entries.drop_last()) + entries.last().bytes()
    }
}

impl GptEntry {
    /// The bytes of the entry on disk.
    pub fn to_bytes(&self) -> (out: Vec<u8>)
        ensures
            out@ == self@.bytes(),
    {
        let mut out: Vec<u8> = Vec::new();
        self.ent_type.put(&mut out);
        self.ent_guid.put(&mut out);
        put_u64(&mut out, self.ent_start);
        put_u64(&mut out, self.ent_end);
        put_u64(&mut out, self.ent_attr);
        self.ent_name.put(&mut out);
        assert(out@ =~= self@.bytes());
        out
    }

    /// Reads an entry from the 128 bytes from position `at` on.
    pub fn get(bytes: &[u8], at: usize) -> (res: Result<GptEntry, Error>)
        requires
            at <= bytes@.len(),
        ensures
            match res {
                Ok(entry) => {
                    &&& at + ENTRY_SIZE <= bytes@.len()
                    &&& read_entry(bytes@, at as int) matches Ok(e) && e == entry@
                },
                Err(e) => read_entry(bytes@, at as int) matches Err(err) && err == e,
            },
    {
        assert(bytes.len() == bytes@.len());
        let ent_type = GptGuid::get(bytes, at)?;
        let ent_guid = GptGuid::get(bytes, at + 16)?;
        let ent_start = get_u64(bytes, at + 32)?;
        let ent_end = get_u64(bytes, at + 40)?;
        let ent_attr = get_u64(bytes, at + 48)?;
        let ent_name = GptName::get(bytes, at + 56)?;
        Ok(GptEntry { ent_type, ent_guid, ent_start, ent_end, ent_attr, ent_name })
    }

    /// converts a slice into a partition array
    pub fn from_slice(slice: &[u8], parts: u32) -> (res: Result<Vec<GptEntry>, Error>)
        ensures
            match res {
                Ok(entries) => read_entries(slice@, 0, parts as nat) matches Ok(views) && views
                    == entry_views(entries@),
                Err(e) => read_entries(slice@, 0, parts as nat) matches Err(err) && err == e,
            },
    {
        let mut part_vec: Vec<GptEntry> = Vec::new();
        let mut pos: usize = 0;
        let mut i: u32 = 0;
        let ghost all = read_entries(slice@, 0, parts as nat);
        proof {
            let rest = read_entries(slice@, 0, parts as nat);
            assert(rest matches Ok(r) ==> entry_views(part_vec@) + r =~= r);
        }
        while i < parts
            invariant
                i <= parts,
                pos <= slice@.len(),
                pos == ENTRY_SIZE * i,
                all == read_entries(slice@, 0, parts as nat),
                all == prepend(
                    entry_views(part_vec@),
                    read_entries(slice@, pos as int, (parts - i) as nat),
                ),
            decreases parts - i,
        {
            let ghost done = entry_views(part_vec@);
            assert(slice.len() == slice@.len());
            let entry = GptEntry::get(slice, pos)?;
            part_vec.push(entry);
            proof {
                assert(entry_views(part_vec@) =~= done.push(entry@));
                let rest = read_entries(slice@, pos + ENTRY_SIZE, (parts - i - 1) as nat);
                assert(rest matches Ok(r) ==> done + (seq![entry@] + r) =~= done.push(entry@) + r);
            }
            pos += ENTRY_SIZE;
            i += 1;
        }
        assert(entry_views(part_vec@) + Seq::<EntryView>::empty() =~= entry_views(part_vec@));
        Ok(part_vec)
    }

    /// calculate the checksum over the partitions table
    pub fn checksum(parts: &[GptEntry]) -> (sum: u32)
        ensures
            sum == crc32_ieee(entries_bytes(entry_views(parts@))),
    {
        let mut digest = ieee_digest();
        let ghost views = entry_views(parts@);
        let mut i: usize = 0;
        while i < parts.len()
            invariant
                i <= parts@.len(),
                views == entry_views(parts@),
                plain_ieee(digest),
                digested(digest) =~= entries_bytes(views.take(i as int)),
            decreases parts@.len() - i,
        {
            feed(&mut digest, &parts[i].to_bytes());
            assert(views.take(i + 1).drop_last() =~= views.take(i as int));
            i += 1;
        }
        assert(views.take(i as int) =~= views);
        sum32(&digest)
    }
}

proof fn lemma_unit_bytes_len(units: Seq<u16>)
    ensures
        unit_bytes(units).len() == 2 * units.len(),
    decreases units.len(),
{
    if units.len() > 0 {
        lemma_unit_bytes_len(units.drop_last());
        lemma_le_bytes_len(units.last() as nat, 2);
    }
}

/// Code units that were written to disk are read back, whatever stands before and after
/// them.
proof fn lemma_units_read_back(units: Seq<u16>, before: Seq<u8>, after: Seq<u8>)
    ensures
        units_at(before + unit_bytes(units) + after, before.len() as int, units.len()) == units,
    decreases units.len(),
{
    let s = before + unit_bytes(units) + after;
    let at = before.len() as int;
    if units.len() > 0 {
        let last = le_bytes(units.last() as nat, 2);
        lemma_unit_bytes_len(units.drop_last());
        lemma_le_bytes_len(units.last() as nat, 2);
        lemma_byte_limits();
        lemma_le_value_of_bytes(units.last() as nat, 2);
        lemma_units_read_back(units.drop_last(), before, last + after);
        assert(before + unit_bytes(units.drop_last()) + (last + after) =~= s);
        let n = units.len() - 1;
        assert(field(s, at + 2 * n, 2) =~= last);
        assert forall|i: int| 0 <= i < units.len() implies units_at(s, at, units.len())[i]
            == units[i] by {
            if i < n {
                assert(units_at(s, at, n as nat)[i] == units.drop_last()[i]);
            }
        }
    }
    assert(units_at(s, at, units.len()) =~= units);
}

/// The code units of a name on disk: what stands in front of its first U+0000 as far as
/// there is room, and then a zero if there is room.
proof fn lemma_name_units(name: Seq<char>)
    ensures
        ({
            let units = name_units(name);
            let text = encode_utf16(until_zero(name));
            if text.len() < NAME_UNITS {
                text_len(units) == text.len() && units.take(text.len() as int) == text
            } else {
                text_len(units) == NAME_UNITS
            }
        }),
{
    let units = name_units(name);
    let all = encode_utf16(name);
    let text = encode_utf16(until_zero(name));
    let t = if text.len() < NAME_UNITS {
        text.len() as int
    } else {
        NAME_UNITS as int
    };
    lemma_until_zero(name);
    lemma_zero_units(until_zero(name));
    assert forall|i: int| 0 <= i < t implies units[i] == text[i] && units[i] != 0 by {
        assert(all.take(text.len() as int)[i] == all[i]);
        assert(text.contains(text[i]));
    }
    lemma_text_len(units, t);
    if text.len() < NAME_UNITS {
        assert(units.take(t) =~= text);
    }
}

/// A name is read back, up to its first U+0000, from the 72 bytes that it was written to,
/// whatever stands before and after them, if there was room for a zero.
pub proof fn law_name_read_back(name: Seq<char>, before: Seq<u8>, after: Seq<u8>)
    requires
        encode_utf16(until_zero(name)).len() < NAME_UNITS,
    ensures
        read_name(before + unit_bytes(name_units(name)) + after, before.len() as int) == Ok::<
            Seq<char>,
            Error,
        >(until_zero(name)),
        !name.contains('\0') ==> until_zero(name) == name,
{
    lemma_unit_bytes_len(name_units(name));
    lemma_units_read_back(name_units(name), before, after);
    lemma_name_units(name);
    law_utf16_round_trip(until_zero(name));
    lemma_until_zero(name);
}

/// A name with 36 or more code units in front of its first U+0000 is written without a
/// terminating zero, and is refused when it is read.
pub proof fn law_long_name_is_refused(name: Seq<char>, before: Seq<u8>, after: Seq<u8>)
    requires
        encode_utf16(until_zero(name)).len() >= NAME_UNITS,
    ensures
        read_name(before + unit_bytes(name_units(name)) + after, before.len() as int) == Err::<
            Seq<char>,
            Error,
        >(Error::UnterminatedName),
{
    lemma_unit_bytes_len(name_units(name));
    lemma_units_read_back(name_units(name), before, after);
    lemma_name_units(name);
}

/// An entry takes 128 bytes on disk.
pub proof fn law_entry_size(entry: EntryView)
    ensures
        entry.bytes().len() == ENTRY_SIZE,
{
    lemma_guid_read_back(entry.ent_type, Seq::empty(), Seq::empty());
    lemma_guid_read_back(entry.ent_guid, Seq::empty(), Seq::empty());
    lemma_le_bytes_len(entry.ent_start as nat, 8);
    lemma_le_bytes_len(entry.ent_end as nat, 8);
    lemma_le_bytes_len(entry.ent_attr as nat, 8);
    lemma_unit_bytes_len(name_units(entry.ent_name));
}

/// An entry whose name fits is read back, with its name up to the first U+0000, from the
/// 128 bytes that it was written to, whatever stands before and after them.
pub proof fn law_entry_read_back(entry: EntryView, before: Seq<u8>, after: Seq<u8>)
    requires
        entry.name_fits(),
    ensures
        read_entry(before + entry.bytes() + after, before.len() as int) == Ok::<EntryView, Error>(
            entry.shown(),
        ),
        !entry.ent_name.contains('\0') ==> entry.shown() == entry,
{
    law_entry_size(entry);
    lemma_byte_limits();
    lemma_le_bytes_len(entry.ent_start as nat, 8);
    lemma_le_bytes_len(entry.ent_end as nat, 8);
    lemma_le_bytes_len(entry.ent_attr as nat, 8);
    lemma_le_value_of_bytes(entry.ent_start as nat, 8);
    lemma_le_value_of_bytes(entry.ent_end as nat, 8);
    lemma_le_value_of_bytes(entry.ent_attr as nat, 8);
    let s = before + entry.bytes() + after;
    let at = before.len() as int;
    lemma_guid_read_back(entry.ent_type, before, s.skip(at + 16));
    assert(before + entry.ent_type.bytes() + s.skip(at + 16) =~= s);
    lemma_guid_read_back(entry.ent_guid, s.take(at + 16), s.skip(at + 32));
    assert(s.take(at + 16) + entry.ent_guid.bytes() + s.skip(at + 32) =~= s);
    assert(field(s, at + 32, 8) =~= le_bytes(entry.ent_start as nat, 8));
    assert(field(s, at + 40, 8) =~= le_bytes(entry.ent_end as nat, 8));
    assert(field(s, at + 48, 8) =~= le_bytes(entry.ent_attr as nat, 8));
    law_name_read_back(entry.ent_name, s.take(at + 56), after);
    assert(s.take(at + 56) + unit_bytes(name_units(entry.ent_name)) + after =~= s);
}

/// The first entries of a table take the first bytes of it.
proof fn lemma_entries_prefix(entries: Seq<EntryView>, i: int)
    requires
        0 <= i <= entries.len(),
    ensures
        entries_bytes(entries).len() == ENTRY_SIZE * entries.len(),
        entries_bytes(entries).take(ENTRY_SIZE * i) == entries_bytes(entries.take(i)),
    decreases entries.len(),
{
    if i == entries.len() {
        assert(entries.take(i) =~= entries);
    }
    if entries.len() > 0 {
        let init = entries.drop_last();
        law_entry_size(entries.last());
        if i < entries.len() {
            lemma_entries_prefix(init, i);
            assert(init.take(i) =~= entries.take(i));
        } else {
            lemma_entries_prefix(init, i - 1);
        }
    }
    assert(entries_bytes(entries).take(ENTRY_SIZE * i) =~= entries_bytes(entries.take(i)));
}

/// Entry number `i` of a table stands behind the `i` entries before it.
proof fn lemma_entry_place(entries: Seq<EntryView>, after: Seq<u8>, i: int)
    requires
        0 <= i < entries.len(),
    ensures
        ({
            let s = entries_bytes(entries) + after;
            let before = s.take(ENTRY_SIZE * i);
            let behind = s.skip(ENTRY_SIZE * (i + 1));
            &&& before.len() == ENTRY_SIZE * i
            &&& before + entries[i].bytes() + behind == s
        }),
{
    let s = entries_bytes(entries) + after;
    let t = entries_bytes(entries);
    lemma_entries_prefix(entries, i);
    lemma_entries_prefix(entries, i + 1);
    law_entry_size(entries[i]);
    let first = entries.take(i + 1);
    assert(first.drop_last() =~= entries.take(i));
    assert(first.last() == entries[i]);
    let b = entries[i].bytes();
    assert(t.take(ENTRY_SIZE * (i + 1)) == t.take(ENTRY_SIZE * i) + b);
    assert(s.take(ENTRY_SIZE * i) =~= t.take(ENTRY_SIZE * i));
    assert(s.take(ENTRY_SIZE * (i + 1)) =~= t.take(ENTRY_SIZE * (i + 1)));
    assert(s.take(ENTRY_SIZE * (i + 1)) + s.skip(ENTRY_SIZE * (i + 1)) =~= s);
}

/// Entry number `i` of a table is read back.
proof fn lemma_entry_read_in_place(entries: Seq<EntryView>, after: Seq<u8>, i: int)
    requires
        0 <= i < entries.len(),
        entries[i].name_fits(),
    ensures
        read_entry(entries_bytes(entries) + after, ENTRY_SIZE * i) == Ok::<EntryView, Error>(
            entries[i].shown(),
        ),
{
    let s = entries_bytes(entries) + after;
    lemma_entry_place(entries, after, i);
    law_entry_read_back(entries[i], s.take(ENTRY_SIZE * i), s.skip(ENTRY_SIZE * (i + 1)));
}

/// Reading entries is reading one, and then the others.
proof fn lemma_read_entries_step(s: Seq<u8>, at: int, n: nat)
    requires
        n > 0,
    ensures
        read_entry(s, at) matches Ok(first) ==> read_entries(s, at, n) == prepend(
            seq![first],
            read_entries(s, at + ENTRY_SIZE, (n - 1) as nat),
        ),
{
}

/// Entries with their names up to the first U+0000.
pub open spec fn shown_entries(entries: Seq<EntryView>) -> Seq<EntryView> {
    entries.map_values(|e: EntryView| e.shown())
}

/// The entries from number `i` on are read back.
proof fn lemma_entries_read_back_from(entries: Seq<EntryView>, after: Seq<u8>, i: int)
    requires
        0 <= i <= entries.len(),
        forall|j: int| 0 <= j < entries.len() ==> (#[trigger] entries[j]).name_fits(),
    ensures
        read_entries(
            entries_bytes(entries) + after,
            ENTRY_SIZE * i,
            (entries.len() - i) as nat,
        ) == Ok::<Seq<EntryView>, Error>(shown_entries(entries).skip(i)),
    decreases entries.len() - i,
{
    let s = entries_bytes(entries) + after;
    let shown = shown_entries(entries);
    if i == entries.len() {
        assert(shown.skip(i) =~= Seq::<EntryView>::empty());
    } else {
        lemma_entry_read_in_place(entries, after, i);
        lemma_entries_read_back_from(entries, after, i + 1);
        lemma_read_entries_step(s, ENTRY_SIZE * i, (entries.len() - i) as nat);
        assert(seq![shown[i]] + shown.skip(i + 1) =~= shown.skip(i));
    }
}

/// A table of entries whose names fit takes 128 bytes for each, and is read back from
/// them, with each name up to its first U+0000, whatever follows.
pub proof fn law_entries_read_back(entries: Seq<EntryView>, after: Seq<u8>)
    requires
        forall|j: int| 0 <= j < entries.len() ==> (#[trigger] entries[j]).name_fits(),
    ensures
        entries_bytes(entries).len() == ENTRY_SIZE * entries.len(),
        read_entries(entries_bytes(entries) + after, 0, entries.len()) == Ok::<
            Seq<EntryView>,
            Error,
        >(shown_entries(entries)),
        (forall|j: int|
            0 <= j < entries.len() ==> !(#[trigger] entries[j]).ent_name.contains('\0'))
            ==> shown_entries(entries) == entries,
{
    lemma_entries_prefix(entries, 0);
    lemma_entries_read_back_from(entries, after, 0);
    assert(shown_entries(entries).skip(0) =~= shown_entries(entries));
    if forall|j: int|
        0 <= j < entries.len() ==> !(#[trigger] entries[j]).ent_name.contains('\0') {
        assert forall|j: int| 0 <= j < entries.len() implies shown_entries(entries)[j]
            == entries[j] by {
            lemma_until_zero(entries[j].ent_name);
        }
        assert(shown_entries(entries) =~= entries);
    }
}

/// Entry number `i` of a table at position `at` cannot be read, for the reason `e`, and
/// those in front of it can.
pub open spec fn first_failure(s: Seq<u8>, at: int, i: int, e: Error) -> bool {
    &&& read_entry(s, at + ENTRY_SIZE * i) == Err::<EntryView, Error>(e)
    &&& forall|j: int| 0 <= j < i ==> (#[trigger] read_entry(s, at + ENTRY_SIZE * j)) is Ok
}

/// The entries of a table stand 128 bytes apart, whatever their names hold: a table can be
/// read if and only if each of its entries can, and each is read from its own place. The
/// first one that cannot be read decides the error.
pub proof fn law_entries_in_their_places(s: Seq<u8>, at: int, n: nat)
    ensures
        match read_entries(s, at, n) {
            Ok(entries) => {
                &&& entries.len() == n
                &&& forall|i: int|
                    0 <= i < n ==> read_entry(s, at + ENTRY_SIZE * i) == Ok::<EntryView, Error>(
                        #[trigger] entries[i],
                    )
            },
            Err(e) => exists|i: int| 0 <= i < n && #[trigger] first_failure(s, at, i, e),
        },
    decreases n,
{
    if n > 0 {
        let m = (n - 1) as nat;
        let behind = at + ENTRY_SIZE;
        law_entries_in_their_places(s, behind, m);
        assert(at + ENTRY_SIZE * 0 == at);
        match read_entry(s, at) {
            Ok(first) => match read_entries(s, behind, m) {
                Ok(rest) => {
                    let entries = seq![first] + rest;
                    assert forall|i: int| 0 <= i < n implies read_entry(s, at + ENTRY_SIZE * i)
                        == Ok::<EntryView, Error>(#[trigger] entries[i]) by {
                        if i > 0 {
                            assert(entries[i] == rest[i - 1]);
                            assert(behind + ENTRY_SIZE * (i - 1) == at + ENTRY_SIZE * i);
                        }
                    }
                },
                Err(e) => {
                    let i = choose|i: int| 0 <= i < m && #[trigger] first_failure(s, behind, i, e);
                    assert(behind + ENTRY_SIZE * i == at + ENTRY_SIZE * (i + 1));
                    assert forall|j: int| 0 <= j < i + 1 implies (#[trigger] read_entry(
                        s,
                        at + ENTRY_SIZE * j,
                    )) is Ok by {
                        if j > 0 {
                            assert(behind + ENTRY_SIZE * (j - 1) == at + ENTRY_SIZE * j);
                            assert(read_entry(s, behind + ENTRY_SIZE * (j - 1)) is Ok);
                        }
                    }
                    assert(first_failure(s, at, i + 1, e));
                },
            },
            Err(e) => {
                assert(first_failure(s, at, 0, e));
            },
        }
    }
}

/// The number of the code unit that stands at position `at`, little-endian.
pub open spec fn unit_at(s: Seq<u8>, at: int) -> int {
    s[at] + 0x100 * s[at + 1]
}

/// Code units take two bytes each, one after the other.
proof fn lemma_unit_bytes_at(units: Seq<u16>, i: int)
    requires
        0 <= i < units.len(),
    ensures
        unit_bytes(units).len() == 2 * units.len(),
        unit_at(unit_bytes(units), 2 * i) == units[i],
{
    let b = unit_bytes(units);
    lemma_unit_bytes_len(units);
    lemma_units_read_back(units, Seq::empty(), Seq::empty());
    assert(Seq::<u8>::empty() + b + Seq::<u8>::empty() =~= b);
    assert(units_at(b, 0, units.len())[i] == units[i]);
    lemma_unit_at(b, 2 * i);
}

proof fn lemma_unit_at(s: Seq<u8>, at: int)
    requires
        0 <= at,
        at + 2 <= s.len(),
    ensures
        le_value(field(s, at, 2)) == unit_at(s, at),
        le_value(field(s, at, 2)) <= u16::MAX,
{
    law_number_read(field(s, at, 2));
}

/// A name takes 36 code units of two bytes on disk. The first ones are those of the name,
/// as far as there is room, and the others are zero.
pub proof fn law_name_on_disk(name: GptName, i: int)
    requires
        0 <= i < 36,
    ensures
        ({
            let text = encode_utf16(name.name@);
            let units = name_units(name@);
            let b = unit_bytes(units);
            &&& name@ == name.name@
            &&& units.len() == 36
            &&& b.len() == 72
            &&& units[i] == (if i < text.len() {
                text[i]
            } else {
                0
            })
            &&& unit_at(b, 2 * i) == units[i]
        }),
{
    lemma_unit_bytes_at(name_units(name@), i);
}

/// The place of each part of an entry in its 128 bytes on disk.
#[verifier::spinoff_prover]
pub proof fn law_entry_on_disk(entry: GptEntry, i: int)
    requires
        0 <= i < 36,
    ensures
        ({
            let b = entry@.bytes();
            let text = encode_utf16(entry.ent_name.name@);
            &&& b.len() == 128
            &&& b.subrange(0, 16) == entry.ent_type.bytes()
            &&& b.subrange(16, 32) == entry.ent_guid.bytes()
            &&& b.subrange(32, 40) == le_bytes(entry.ent_start as nat, 8)
            &&& b.subrange(40, 48) == le_bytes(entry.ent_end as nat, 8)
            &&& b.subrange(48, 56) == le_bytes(entry.ent_attr as nat, 8)
            &&& unit_at(b, 56 + 2 * i) == (if i < text.len() {
                text[i]
            } else {
                0
            })
        }),
{
    let b = entry@.bytes();
    let name = unit_bytes(name_units(entry.ent_name@));
    law_entry_size(entry@);
    lemma_guid_read_back(entry.ent_type, Seq::empty(), Seq::empty());
    lemma_guid_read_back(entry.ent_guid, Seq::empty(), Seq::empty());
    lemma_le_bytes_len(entry.ent_start as nat, 8);
    lemma_le_bytes_len(entry.ent_end as nat, 8);
    lemma_le_bytes_len(entry.ent_attr as nat, 8);
    assert(b.subrange(0, 16) =~= entry.ent_type.bytes());
    assert(b.subrange(16, 32) =~= entry.ent_guid.bytes());
    assert(b.subrange(32, 40) =~= le_bytes(entry.ent_start as nat, 8));
    assert(b.subrange(40, 48) =~= le_bytes(entry.ent_end as nat, 8));
    assert(b.subrange(48, 56) =~= le_bytes(entry.ent_attr as nat, 8));
    law_name_on_disk(entry.ent_name, i);
    assert(b.skip(56) =~= name);
    assert(b[56 + 2 * i] == name[2 * i] && b[57 + 2 * i] == name[2 * i + 1]);
}

/// `k` code units that are not zero, and then a zero, stand from position `at` on.
pub open spec fn text_at(s: Seq<u8>, at: int, k: int) -> bool {
    &&& forall|i: int| 0 <= i < k ==> #[trigger] unit_at(s, at + 2 * i) != 0
    &&& unit_at(s, at + 2 * k) == 0
}

/// The `k` code units from position `at` on.
pub open spec fn units_from(s: Seq<u8>, at: int, k: int) -> Seq<u16> {
    Seq::new(k as nat, |i: int| unit_at(s, at + 2 * i) as u16)
}

proof fn lemma_units_at(s: Seq<u8>, at: int)
    requires
        0 <= at,
        at + 72 <= s.len(),
    ensures
        forall|i: int|
            0 <= i < 36 ==> #[trigger] units_at(s, at, NAME_UNITS as nat)[i] == unit_at(
                s,
                at + 2 * i,
            ),
{
    assert forall|i: int| 0 <= i < 36 implies #[trigger] units_at(s, at, NAME_UNITS as nat)[i]
        == unit_at(s, at + 2 * i) by {
        lemma_unit_at(s, at + 2 * i);
    }
}

/// The text in front of the first zero is as long as `text_len` says.
proof fn lemma_text_len_holds(units: Seq<u16>)
    ensures
        text_len(units) <= units.len(),
        forall|i: int| 0 <= i < text_len(units) ==> units[i] != 0,
        text_len(units) < units.len() ==> units[text_len(units) as int] == 0,
    decreases units.len(),
{
    if units.len() > 0 && units[0] != 0 {
        lemma_text_len_holds(units.drop_first());
        assert forall|i: int| 0 <= i < text_len(units) implies units[i] != 0 by {
            if i > 0 {
                assert(units.drop_first()[i - 1] == units[i]);
            }
        }
    }
}

/// A name is read if and only if there are 72 bytes and one of their 36 code units is zero.
/// It is the text of the units in front of the first zero. Bytes that are too few are told
/// from a name without an end.
pub proof fn law_name_read(s: Seq<u8>, at: int, k: int)
    requires
        0 <= at,
    ensures
        at + 72 > s.len() <==> read_name(s, at) == Err::<Seq<char>, Error>(Error::Truncated),
        at + 72 <= s.len() && (forall|i: int| 0 <= i < 36 ==> #[trigger] unit_at(s, at + 2 * i) != 0)
            <==> read_name(s, at) == Err::<Seq<char>, Error>(Error::UnterminatedName),
        at + 72 <= s.len() && 0 <= k < 36 && text_at(s, at, k) ==> read_name(s, at) == Ok::<
            Seq<char>,
            Error,
        >(decode_utf16_lossy(units_from(s, at, k))),
{
    let units = units_at(s, at, NAME_UNITS as nat);
    lemma_text_len_holds(units);
    if at + 72 <= s.len() {
        lemma_units_at(s, at);
        let t = text_len(units) as int;
        if t < 36 {
            assert(units[t] == unit_at(s, at + 2 * t));
            assert(unit_at(s, at + 2 * t) == 0);
        } else {
            assert forall|i: int| 0 <= i < 36 implies #[trigger] unit_at(s, at + 2 * i) != 0 by {
                assert(units[i] == unit_at(s, at + 2 * i));
            }
        }
        if 0 <= k < 36 && text_at(s, at, k) {
            assert(units[k] == unit_at(s, at + 2 * k));
            assert forall|i: int| 0 <= i < k implies units[i] != 0 by {
                assert(unit_at(s, at + 2 * i) != 0);
            }
            lemma_text_len(units, k);
            assert(units.take(k) =~= units_from(s, at, k)) by {
                assert forall|i: int| 0 <= i < k implies units.take(k)[i] == units_from(s, at, k)[i] by {
                    assert(units[i] == unit_at(s, at + 2 * i));
                }
            }
        }
    }
}

/// An entry is read if and only if there are 128 bytes and its name can be read from the
/// last 72 of them. Each part of it is read from its own place.
#[verifier::spinoff_prover]
pub proof fn law_entry_read(s: Seq<u8>, at: int, entry: GptEntry)
    requires
        0 <= at,
    ensures
        at + 128 > s.len() ==> read_entry(s, at) == Err::<EntryView, Error>(Error::Truncated),
        at + 128 <= s.len() ==> match read_name(s, at + 56) {
            Ok(_) => read_entry(s, at) is Ok,
            Err(e) => read_entry(s, at) == Err::<EntryView, Error>(e),
        },
        read_entry(s, at) == Ok::<EntryView, Error>(entry@) ==> {
            &&& entry.ent_type == GptGuid::of_bytes(s, at)
            &&& entry.ent_guid == GptGuid::of_bytes(s, at + 16)
            &&& entry.ent_start == le_value(s.subrange(at + 32, at + 40))
            &&& entry.ent_end == le_value(s.subrange(at + 40, at + 48))
            &&& entry.ent_attr == le_value(s.subrange(at + 48, at + 56))
            &&& read_name(s, at + 56) == Ok::<Seq<char>, Error>(entry.ent_name.name@)
        },
{
    if at + 128 <= s.len() {
        lemma_byte_limits();
        lemma_le_bytes_of_value(s.subrange(at + 32, at + 40));
        lemma_le_bytes_of_value(s.subrange(at + 40, at + 48));
        lemma_le_bytes_of_value(s.subrange(at + 48, at + 56));
    }
}

/// Entries that are read from a table are as many as were asked for, each from its own 128
/// bytes.
pub proof fn law_table_read(s: Seq<u8>, entries: Seq<GptEntry>, n: nat)
    requires
        read_entries(s, 0, n) == Ok::<Seq<EntryView>, Error>(entry_views(entries)),
    ensures
        entries.len() == n,
        forall|i: int|
            0 <= i < n ==> read_entry(s, 128 * i) == Ok::<EntryView, Error>(
                (#[trigger] entries[i])@,
            ),
{
    law_entries_in_their_places(s, 0, n);
    assert(entry_views(entries).len() == entries.len());
    assert forall|i: int| 0 <= i < n implies read_entry(s, 128 * i) == Ok::<EntryView, Error>(
        (#[trigger] entries[i])@,
    ) by {
        assert(entry_views(entries)[i] == entries[i]@);
    }
}

/// The table that a checksum is taken of holds the entries in their order, 128 bytes each.
pub proof fn law_table_on_disk(entries: Seq<GptEntry>, i: int)
    requires
        0 <= i < entries.len(),
    ensures
        entries_bytes(entry_views(entries)).len() == 128 * entries.len(),
        entries_bytes(entry_views(entries)).subrange(128 * i, 128 * (i + 1)) == entries[i]@.bytes(),
{
    let views = entry_views(entries);
    let t = entries_bytes(views);
    lemma_entries_prefix(views, i);
    lemma_entry_place(views, Seq::empty(), i);
    law_entry_size(views[i]);
    assert(t + Seq::<u8>::empty() =~= t);
    assert(views[i] == entries[i]@);
    let before = t.take(128 * i);
    let behind = t.skip(128 * (i + 1));
    assert((before + entries[i]@.bytes() + behind).subrange(128 * i, 128 * (i + 1))
        =~= entries[i]@.bytes());
}

} // verus!
