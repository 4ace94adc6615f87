//! The label of a nexus.

use vstd::prelude::*;

use crate::entry::{EntryView, GptEntry};
use crate::header::GPTHeader;
use crate::text::{decimal, push_number};

verus! {

/// The nexus label is standard GPT label (such that you can use it without us
/// in the data path) The only thing that is really specific to us is the
/// ent_type GUID if we see that attached to a partition, we assume the data in
/// that partition is ours. In the data we will have more magic markers to
/// confirm the assumption but this is step one.
#[derive(Debug, PartialEq, Clone)]
pub struct NexusLabel {
    /// the main GPT header
    pub primary: GPTHeader,
    /// Vector of GPT entries where the first element is considered to be ours
    pub partitions: Vec<GptEntry>,
}

/// What a label says of its header.
pub open spec fn header_text(gpt: GPTHeader) -> Seq<char> {
    "GUID: "@ + gpt.guid.text() + "\n"@ + "\tHeader crc32 "@ + decimal(gpt.self_checksum as nat)
        + "\n"@ + "\tPartition table crc32 "@ + decimal(gpt.table_crc as nat) + "\n"@
}

/// What a label says of partition number `i`.
pub open spec fn partition_text(i: nat, entry: EntryView) -> Seq<char> {
    "\tPartition number "@ + decimal(i) + "\n"@ + "\tGUID: "@ + entry.ent_guid.text() + "\n"@
        + "\tType GUID: "@ + entry.ent_type.text() + "\n"@ + "\tLogical block start: "@ + decimal(
        entry.ent_start as nat,
    ) + ", end: "@ + decimal(entry.ent_end as nat) + "\n"@
}

/// What a label says of its first `n` partitions.
pub open spec fn partitions_text(entries: Seq<GptEntry>, n: nat) -> Seq<char>
    decreases n,
{
    if n == 0 {
        Seq::empty()
    } else {
        partitions_text(entries, (n - 1) as nat) + partition_text((n - 1) as nat, entries[n - 1]@)
    }
}

impl NexusLabel {
    /// The first data segment is the second partition, which has to be there.
    pub open spec fn has_data(self) -> bool {
        self.partitions@.len() > 1
    }

    /// returns the offset to the first data segment
    pub fn offset(&self) -> (lba: u64)
        requires
            self.has_data(),
        ensures
            lba == self.partitions@[1].ent_start,
    {
        self.partitions[1].ent_start
    }

    /// returns the number of total blocks in this segment, the end lba among them
    pub fn num_blocks(&self) -> (blocks: u64)
        requires
            self.has_data(),
            self.partitions@[1].ent_start <= self.partitions@[1].ent_end,
            self.partitions@[1].ent_end - self.partitions@[1].ent_start < u64::MAX,
        ensures
            blocks == self.partitions@[1].ent_end - self.partitions@[1].ent_start + 1,
    {
        self.partitions[1].ent_end - self.partitions[1].ent_start + 1
    }

    /// The label in words, one line for the header, its checksums and each fact about
    /// a partition.
    pub fn to_string(&self) -> (text: String)
        ensures
            text@ == header_text(self.primary) + partitions_text(
                self.partitions@,
                self.partitions@.len(),
            ),
    {
        let mut text = String::new();
        text.append("GUID: ");
        text.append(self.primary.guid.to_string().as_str());
        text.append("\n");
        text.append("\tHeader crc32 ");
        push_number(&mut text, self.primary.self_checksum as u64);
        text.append("\n");
        text.append("\tPartition table crc32 ");
        push_number(&mut text, self.primary.table_crc as u64);
        text.append("\n");
        assert(text@ =~= header_text(self.primary));
        let n: usize = self.partitions.len();
        let mut i: usize = 0;
        while i < n
            invariant
                n == self.partitions@.len(),
                i <= n,
                text@ =~= header_text(self.primary) + partitions_text(self.partitions@, i as nat),
            decreases n - i,
        {
            push_partition(&mut text, i, &self.partitions[i]);
            i += 1;
        }
        text
    }
}

/// Appends what a label says of partition number `i`.
fn push_partition(text: &mut String, i: usize, entry: &GptEntry)
    ensures
        final(text)@ == old(text)@ + partition_text(i as nat, entry@),
{
    text.append("\tPartition number ");
    push_number(text, i as u64);
    text.append("\n");
    text.append("\tGUID: ");
    text.append(entry.ent_guid.to_string().as_str());
    text.append("\n");
    text.append("\tType GUID: ");
    text.append(entry.ent_type.to_string().as_str());
    text.append("\n");
    text.append("\tLogical block start: ");
    push_number(text, entry.ent_start);
    text.append(", end: ");
    push_number(text, entry.ent_end);
    text.append("\n");
    assert(text@ =~= old(text)@ + partition_text(i as nat, entry@));
}

/// A label is told in lines: the GUID of the disk and the checksums of the header and of the
/// table, and then four lines for each partition in its order, with its number, its GUID, its
/// type, and its first and last block.
pub proof fn law_label_in_lines(label: NexusLabel, entries: Seq<GptEntry>, i: nat)
    requires
        i < entries.len(),
    ensures
        header_text(label.primary) == "GUID: "@ + label.primary.guid.text() + "\n"@ + (
        "\tHeader crc32 "@ + decimal(label.primary.self_checksum as nat) + "\n"@) + (
        "\tPartition table crc32 "@ + decimal(label.primary.table_crc as nat) + "\n"@),
        partitions_text(entries, 0) == Seq::<char>::empty(),
        partitions_text(entries, i + 1) == partitions_text(entries, i) + ("\tPartition number "@
            + decimal(i) + "\n"@) + ("\tGUID: "@ + entries[i as int].ent_guid.text() + "\n"@) + (
        "\tType GUID: "@ + entries[i as int].ent_type.text() + "\n"@) + ("\tLogical block start: "@
            + decimal(entries[i as int].ent_start as nat) + ", end: "@ + decimal(
            entries[i as int].ent_end as nat,
        ) + "\n"@),
{
    assert(header_text(label.primary) =~= "GUID: "@ + label.primary.guid.text() + "\n"@ + (
    "\tHeader crc32 "@ + decimal(label.primary.self_checksum as nat) + "\n"@) + (
    "\tPartition table crc32 "@ + decimal(label.primary.table_crc as nat) + "\n"@));
    assert(partitions_text(entries, i + 1) =~= partitions_text(entries, i) + (
    "\tPartition number "@ + decimal(i) + "\n"@) + ("\tGUID: "@ + entries[i as int].ent_guid.text()
        + "\n"@) + ("\tType GUID: "@ + entries[i as int].ent_type.text() + "\n"@) + (
    "\tLogical block start: "@ + decimal(entries[i as int].ent_start as nat) + ", end: "@ + decimal(
        entries[i as int].ent_end as nat,
    ) + "\n"@));
}

/// A label has a data segment if and only if it has a second partition.
pub proof fn law_data_segment(label: NexusLabel)
    ensures
        label.has_data() <==> label.partitions@.len() >= 2,
{
}

} // verus!
