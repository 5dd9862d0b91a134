//! One directory index block: the `INDX` header and the entries after it.

use crate::ntfs::reader::{
    file_reference_entry,
    file_reference_sequence,
    le_u16,
    le_u32,
    le_u64,
    read_u16,
    read_u32,
    read_u64,
    read_u8,
    reference_entry,
    reference_sequence,
    u8_at,
};
use crate::ntfs::time::{filetime_instant, windows_filetime_to_datetime};
use crate::ntfs::types::{
    IndexEntry,
    IndexEntryView,
    ParseError,
    ParseErrorView,
    ParseResult,
    Step,
};
use crate::ntfs::utf16::{decode_name, decoded_name};
use vstd::prelude::*;
use vstd::slice::slice_subrange;

verus! {

/// The bytes `INDX`, read as a little-endian number.
pub const INDX_SIGNATURE: u32 = 0x5844_4e49;

/// The number of bytes of the block header and the index header after it.
pub const INDX_HEADER_SIZE: usize = 40;

/// The position from which the offset of the first entry counts.
pub const INDX_ENTRIES_BASE: usize = 24;

/// The number of bytes at the start of an entry that tell its length and
/// whether it is the last.
pub const INDEX_ENTRY_HEADER_SIZE: usize = 16;

/// The number of bytes of an entry before its file name.
pub const INDEX_ENTRY_FIXED_SIZE: usize = 82;

/// The attribute bit of a directory.
pub const ATTRIBUTE_DIRECTORY: u32 = 0x10;

/// The flag bit of the entry that ends a block.
pub const INDEX_ENTRY_END: u32 = 0x02;

/// The file name bytes of the entry at `pos`.
pub open spec fn index_name_bytes(data: Seq<u8>, pos: int) -> Seq<u8> {
    data.subrange(
        pos + INDEX_ENTRY_FIXED_SIZE,
        pos + INDEX_ENTRY_FIXED_SIZE + 2 * u8_at(data, pos + 80),
    )
}

/// The entry that stands at `pos`.
pub open spec fn index_entry(data: Seq<u8>, pos: int) -> IndexEntryView {
    IndexEntryView {
        entry_number: reference_entry(le_u64(data, pos)) as u32,
        sequence_number: reference_sequence(le_u64(data, pos)) as u16,
        parent_entry_number: reference_entry(le_u64(data, pos + 16)) as u32,
        parent_sequence_number: reference_sequence(le_u64(data, pos + 16)) as u16,
        file_name: decoded_name(index_name_bytes(data, pos)),
        full_path: Seq::empty(),
        file_size: le_u64(data, pos + 64) as u64,
        is_directory: (le_u32(data, pos + 72) as u32) & ATTRIBUTE_DIRECTORY != 0,
        created: filetime_instant(le_u64(data, pos + 24) as u64),
        modified: filetime_instant(le_u64(data, pos + 32) as u64),
        accessed: filetime_instant(le_u64(data, pos + 48) as u64),
        attributes: le_u32(data, pos + 72) as u32,
    }
}

/// What stands at `pos` in the block `data`: an entry; the end, where no
/// entry header fits, the entry's length is zero or it bears the end flag;
/// or a failure, where the entry runs past the end of `data`.
pub open spec fn index_step(data: Seq<u8>, pos: int) -> Step<IndexEntryView> {
    if pos + INDEX_ENTRY_HEADER_SIZE > data.len() {
        Step::End
    } else if le_u16(data, pos + 8) == 0 || (le_u32(data, pos + 12) as u32) & INDEX_ENTRY_END
        != 0 {
        Step::End
    } else if pos + INDEX_ENTRY_FIXED_SIZE > data.len() {
        Step::Failed(
            ParseErrorView { message: "Failed to read index entry"@, offset: Some(pos as u64) },
        )
    } else if pos + INDEX_ENTRY_FIXED_SIZE + 2 * u8_at(data, pos + 80) > data.len() {
        Step::Failed(
            ParseErrorView { message: "Failed to read filename"@, offset: Some(pos as u64) },
        )
    } else {
        Step::Record(index_entry(data, pos), pos + le_u16(data, pos + 8))
    }
}

/// The entries of `data` from `pos` on, in block order.
pub open spec fn index_entries_from(data: Seq<u8>, pos: int) -> Seq<IndexEntryView>
    decreases
        (if pos < data.len() {
            data.len() - pos
        } else {
            0
        }),
{
    if pos < 0 || pos >= data.len() {
        Seq::empty()
    } else {
        match index_step(data, pos) {
            Step::Record(entry, next) => seq![entry] + index_entries_from(data, next),
            _ => Seq::empty(),
        }
    }
}

/// The error for a block without the `INDX` signature.
pub open spec fn invalid_signature() -> ParseErrorView {
    ParseErrorView { message: "Invalid INDX signature"@, offset: Some(0) }
}

/// The error for a block too short to hold a signature.
pub open spec fn missing_signature() -> ParseErrorView {
    ParseErrorView { message: "Failed to read INDX signature"@, offset: Some(0) }
}

/// The error for a block too short to hold its headers.
pub open spec fn missing_header() -> ParseErrorView {
    ParseErrorView { message: "Failed to read INDX header"@, offset: Some(0) }
}

/// The entries of the index block `data`, or the error for a block without
/// signature or headers.
pub open spec fn index_block(data: Seq<u8>) -> Result<Seq<IndexEntryView>, ParseErrorView> {
    if data.len() < 4 {
        Err(missing_signature())
    } else if le_u32(data, 0) != INDX_SIGNATURE {
        Err(invalid_signature())
    } else if data.len() < INDX_HEADER_SIZE {
        Err(missing_header())
    } else {
        Ok(index_entries_from(data, INDX_ENTRIES_BASE + le_u32(data, 24)))
    }
}

/// The views of a run of entries.
pub open spec fn index_entry_views(s: Seq<IndexEntry>) -> Seq<IndexEntryView> {
    s.map_values(|e: IndexEntry| e@)
}

/// The decoder of a directory index block.
pub struct I30Parser {
    data: Vec<u8>,
    entries: Vec<IndexEntry>,
}

impl I30Parser {
    /// The bytes that the decoder was made for.
    pub closed spec fn data(&self) -> Seq<u8> {
        self.data@
    }

    /// The entries decoded so far.
    pub closed spec fn entries(&self) -> Seq<IndexEntryView> {
        index_entry_views(self.entries@)
    }

    /// A decoder for `data` that has decoded nothing yet.
    pub fn new(data: Vec<u8>) -> (r: I30Parser)
        ensures
            r.data() == data@,
            r.entries() == Seq::<IndexEntryView>::empty(),
    {
        let r = I30Parser { data, entries: Vec::new() };
        assert(r.entries() =~= Seq::<IndexEntryView>::empty());
        r
    }

    /// Decodes the block and appends its entries, in block order. Fails,
    /// and appends nothing, exactly when the block lacks its signature or is
    /// too short for its headers; an entry that cannot be decoded ends the
    /// block and is no error.
    pub fn parse(&mut self) -> (r: ParseResult<()>)
        ensures
            final(self).data() == old(self).data(),
            match r {
                Ok(_) => index_block(old(self).data()) is Ok && final(self).entries() == old(
                    self,
                ).entries() + index_block(old(self).data())->Ok_0,
                Err(e) => index_block(old(self).data()) == Err::<
                    Seq<IndexEntryView>,
                    ParseErrorView,
                >(e@) && final(self).entries() == old(self).entries(),
            },
    {
        let n: usize = self.data.len();
        if n < 4 {
            return Err(ParseError::new("Failed to read INDX signature", Some(0)));
        }
        let signature: u32 = read_u32(self.data.as_slice(), 0);
        if signature != INDX_SIGNATURE {
            return Err(ParseError::new("Invalid INDX signature", Some(0)));
        }
        if n < INDX_HEADER_SIZE {
            return Err(ParseError::new("Failed to read INDX header", Some(0)));
        }
        let entries_offset: u32 = read_u32(self.data.as_slice(), 24);
        let mut pos: usize = INDX_ENTRIES_BASE;
        let mut more: bool = true;
        if entries_offset as usize >= n - INDX_ENTRIES_BASE {
            more = false;
        } else {
            pos = pos + entries_offset as usize;
        }
        proof {
            assert(self.entries() + Seq::<IndexEntryView>::empty() =~= self.entries());
        }
        while more && pos < n
            invariant
                n == self.data@.len(),
                self.data@ == old(self).data@,
                pos <= n,
                index_block(self.data@) is Ok,
                old(self).entries() + index_block(self.data@)->Ok_0 == self.entries() + (if more {
                    index_entries_from(self.data@, pos as int)
                } else {
                    Seq::empty()
                }),
            decreases (if more { 1int } else { 0int }), n - pos,
        {
            match self.parse_entry(pos) {
                Ok(Some((entry, entry_length))) => {
                    proof {
                        let rest = index_entries_from(self.data@, pos + entry_length);
                        assert(index_entry_views(self.entries@.push(entry)) + rest
                            =~= index_entry_views(self.entries@) + (seq![entry@] + rest));
                    }
                    if entry_length as usize >= n - pos {
                        more = false;
                    } else {
                        pos = pos + entry_length as usize;
                    }
                    self.entries.push(entry);
                    proof {
                        assert(self.entries() + Seq::<IndexEntryView>::empty() =~= self.entries());
                    }
                },
                Ok(None) => {
                    more = false;
                },
                Err(_) => {
                    more = false;
                },
            }
        }
        Ok(())
    }

    /// Decodes what stands at `pos`: an entry with its length in bytes, the
    /// end of the block, or the error for an entry that cannot be decoded.
    pub fn parse_entry(&self, pos: usize) -> (r: ParseResult<Option<(IndexEntry, u16)>>)
        ensures
            match r {
                Ok(Some(found)) => index_step(self.data(), pos as int) == Step::Record(
                    found.0@,
                    pos + found.1,
                ),
                Ok(None) => index_step(self.data(), pos as int) == Step::<IndexEntryView>::End,
                Err(e) => index_step(self.data(), pos as int) == Step::<IndexEntryView>::Failed(
                    e@,
                ),
            },
    {
        let data: &[u8] = self.data.as_slice();
        let n: usize = data.len();
        if pos > n || n - pos < INDEX_ENTRY_HEADER_SIZE {
            return Ok(None);
        }
        let file_reference: u64 = read_u64(data, pos);
        let entry_length: u16 = read_u16(data, pos + 8);
        let flags: u32 = read_u32(data, pos + 12);
        if entry_length == 0 || (flags & INDEX_ENTRY_END) != 0 {
            return Ok(None);
        }
        if n - pos < INDEX_ENTRY_FIXED_SIZE {
            return Err(ParseError::new("Failed to read index entry", Some(pos as u64)));
        }
        let parent_file_reference: u64 = read_u64(data, pos + 16);
        let created: u64 = read_u64(data, pos + 24);
        let modified: u64 = read_u64(data, pos + 32);
        let accessed: u64 = read_u64(data, pos + 48);
        let file_size: u64 = read_u64(data, pos + 64);
        let attributes: u32 = read_u32(data, pos + 72);
        let name_length: u8 = read_u8(data, pos + 80);
        let name_bytes: usize = 2 * (name_length as usize);
        if n - pos - INDEX_ENTRY_FIXED_SIZE < name_bytes {
            return Err(ParseError::new("Failed to read filename", Some(pos as u64)));
        }
        let name_start: usize = pos + INDEX_ENTRY_FIXED_SIZE;
        let (file_name, _) = decode_name(slice_subrange(data, name_start, name_start + name_bytes));
        let entry = IndexEntry {
            entry_number: file_reference_entry(file_reference),
            sequence_number: file_reference_sequence(file_reference),
            parent_entry_number: file_reference_entry(parent_file_reference),
            parent_sequence_number: file_reference_sequence(parent_file_reference),
            file_name,
            full_path: String::new(),
            file_size,
            is_directory: (attributes & ATTRIBUTE_DIRECTORY) != 0,
            created: windows_filetime_to_datetime(created),
            modified: windows_filetime_to_datetime(modified),
            accessed: windows_filetime_to_datetime(accessed),
            attributes,
        };
        Ok(Some((entry, entry_length)))
    }

    /// The entries decoded so far, in block order.
    pub fn get_entries(&self) -> (r: &[IndexEntry])
        ensures
            index_entry_views(r@) == self.entries(),
    {
        self.entries.as_slice()
    }
}

/// A block with its signature and headers whose first entry bears the end
/// flag holds no entry, and decodes without error.
pub proof fn lemma_end_marker_yields_nothing(data: Seq<u8>)
    requires
        data.len() >= INDX_HEADER_SIZE,
        le_u32(data, 0) == INDX_SIGNATURE,
        INDX_ENTRIES_BASE + le_u32(data, 24) + INDEX_ENTRY_HEADER_SIZE <= data.len(),
        (le_u32(data, INDX_ENTRIES_BASE + le_u32(data, 24) + 12) as u32) & INDEX_ENTRY_END != 0,
    ensures
        index_block(data) == Ok::<Seq<IndexEntryView>, ParseErrorView>(Seq::empty()),
{
}

} // verus!
