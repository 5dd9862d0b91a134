//! The master file table: file records in slots of 1024 bytes, each a header
//! and a run of attributes, and the parent paths that the records give one
//! another.

use crate::ntfs::reader::{
    file_reference_entry,
    file_reference_sequence,
    le_u16,
    le_u32,
    le_u64,
    read_u16,
    read_u32,
    read_u64,
    read_u8,
    reference_entry,
    reference_sequence,
    u8_at,
};
use crate::ntfs::time::{filetime_instant, windows_filetime_to_datetime};
use crate::ntfs::types::{
    MftRecord,
    MftRecordView,
    ParseError,
    ParseErrorView,
    ParseResult,
};
use crate::ntfs::utf16::{decode_name, decoded_extension, decoded_name};
use std::collections::HashMap;
use vstd::prelude::*;
use vstd::slice::slice_subrange;
use vstd::string::StringExecFns;

verus! {

/// The number of bytes of one slot of the table.
pub const MFT_RECORD_SIZE: usize = 1024;

/// The bytes `FILE`, read as a little-endian number.
pub const MFT_SIGNATURE: u32 = 0x454c_4946;

/// The number of bytes of a record's fixed header.
pub const MFT_HEADER_SIZE: usize = 42;

/// The type that ends a record's attributes.
pub const ATTRIBUTE_END: u32 = 0xFFFF_FFFF;

/// The type of the attribute with the standard timestamps and flags.
pub const ATTRIBUTE_STANDARD_INFORMATION: u32 = 0x10;

/// The type of the attribute with the file's name and parent.
pub const ATTRIBUTE_FILE_NAME: u32 = 0x30;

/// The number of bytes of an attribute's header.
pub const ATTRIBUTE_HEADER_SIZE: usize = 16;

/// The number of bytes that are read of a standard information attribute
/// after its header.
pub const STANDARD_INFORMATION_SIZE: usize = 44;

/// The number of bytes of a file name attribute between its header and the
/// name.
pub const FILE_NAME_FIXED_SIZE: usize = 74;

/// The entry number of the root directory.
pub const ROOT_ENTRY: u32 = 5;

/// The number of ancestors after which a path is given up.
pub const MAX_PATH_DEPTH: usize = 100;

/// The entry number of the slot at byte position `offset`.
pub open spec fn slot_entry_number(offset: int) -> u32 {
    ((offset / MFT_RECORD_SIZE as int) % 0x1_0000_0000) as u32
}

/// The record that the header of `slot` gives, before any attribute is read.
pub open spec fn header_record(slot: Seq<u8>, offset: int) -> MftRecordView {
    MftRecordView {
        entry_number: slot_entry_number(offset),
        sequence_number: le_u16(slot, 16) as u16,
        parent_entry_number: 0,
        parent_sequence_number: None,
        in_use: (le_u16(slot, 22) as u16) & 0x01 != 0,
        parent_path: Seq::empty(),
        file_name: Seq::empty(),
        extension: Seq::empty(),
        is_directory: (le_u16(slot, 22) as u16) & 0x02 != 0,
        has_ads: false,
        is_ads: false,
        file_size: 0,
        created_0x10: None,
        created_0x30: None,
        last_modified_0x10: None,
        last_modified_0x30: None,
        last_record_change_0x10: None,
        last_record_change_0x30: None,
        last_access_0x10: None,
        last_access_0x30: None,
        update_sequence_number: 0,
        logfile_sequence_number: 0,
        security_id: 0,
        zone_id_contents: Seq::empty(),
        si_flags: 0,
        object_id_file_droid: Seq::empty(),
        reparse_target: Seq::empty(),
        reference_count: 0,
        name_type: 0,
        logged_util_stream: Seq::empty(),
    }
}

/// `record` with the fields of the standard information attribute whose
/// body starts at `body`.
pub open spec fn with_standard_info(slot: Seq<u8>, body: int, record: MftRecordView)
    -> MftRecordView {
    MftRecordView {
        created_0x10: filetime_instant(le_u64(slot, body + 8) as u64),
        last_modified_0x10: filetime_instant(le_u64(slot, body + 16) as u64),
        last_record_change_0x10: filetime_instant(le_u64(slot, body + 24) as u64),
        last_access_0x10: filetime_instant(le_u64(slot, body + 32) as u64),
        si_flags: le_u32(slot, body + 40) as u32,
        ..record
    }
}

/// The name bytes of the file name attribute whose body starts at `body`.
pub open spec fn file_name_bytes(slot: Seq<u8>, body: int) -> Seq<u8> {
    slot.subrange(
        body + FILE_NAME_FIXED_SIZE,
        body + FILE_NAME_FIXED_SIZE + 2 * u8_at(slot, body + 72),
    )
}

/// `record` with the fields of the file name attribute whose body starts at
/// `body`.
pub open spec fn with_file_name(slot: Seq<u8>, body: int, record: MftRecordView) -> MftRecordView {
    MftRecordView {
        parent_entry_number: reference_entry(le_u64(slot, body + 8)) as u32,
        parent_sequence_number: Some(reference_sequence(le_u64(slot, body + 8)) as u16),
        created_0x30: filetime_instant(le_u64(slot, body + 16) as u64),
        last_modified_0x30: filetime_instant(le_u64(slot, body + 24) as u64),
        last_record_change_0x30: filetime_instant(le_u64(slot, body + 32) as u64),
        last_access_0x30: filetime_instant(le_u64(slot, body + 40) as u64),
        file_size: le_u64(slot, body + 56) as u64,
        name_type: u8_at(slot, body + 73) as u8,
        file_name: decoded_name(file_name_bytes(slot, body)),
        extension: decoded_extension(file_name_bytes(slot, body)),
        ..record
    }
}

/// The error for an attribute header that runs past the end of the slot at
/// `offset`.
pub open spec fn short_attribute(offset: int) -> ParseErrorView {
    ParseErrorView { message: "Failed to read attribute header"@, offset: Some(offset as u64) }
}

/// The error for a standard information attribute that runs past the end of
/// the slot at `offset`.
pub open spec fn short_standard_info(offset: int) -> ParseErrorView {
    ParseErrorView {
        message: "Failed to read $STANDARD_INFORMATION attribute"@,
        offset: Some(offset as u64),
    }
}

/// The error for a file name attribute that runs past the end of the slot at
/// `offset`.
pub open spec fn short_file_name(offset: int) -> ParseErrorView {
    ParseErrorView {
        message: "Failed to read $FILE_NAME attribute"@,
        offset: Some(offset as u64),
    }
}

/// `record` after the attribute at `pos` is decoded: a standard information
/// or file name attribute sets its fields, any other type changes nothing.
pub open spec fn with_attribute(slot: Seq<u8>, pos: int, offset: int, record: MftRecordView)
    -> Result<MftRecordView, ParseErrorView> {
    let kind = le_u32(slot, pos);
    let body = pos + ATTRIBUTE_HEADER_SIZE;
    if kind == ATTRIBUTE_STANDARD_INFORMATION {
        if body + STANDARD_INFORMATION_SIZE > slot.len() {
            Err(short_standard_info(offset))
        } else {
            Ok(with_standard_info(slot, body, record))
        }
    } else if kind == ATTRIBUTE_FILE_NAME {
        if body + FILE_NAME_FIXED_SIZE > slot.len() || body + FILE_NAME_FIXED_SIZE + 2 * u8_at(
            slot,
            body + 72,
        ) > slot.len() {
            Err(short_file_name(offset))
        } else {
            Ok(with_file_name(slot, body, record))
        }
    } else {
        Ok(record)
    }
}

/// `record` after the attributes of `slot` from `pos` on are decoded. The
/// walk ends where no type field fits, at the end type, and after an
/// attribute whose length is zero; it fails where an attribute runs past the
/// end of the slot.
pub open spec fn with_attributes(slot: Seq<u8>, pos: int, offset: int, record: MftRecordView)
    -> Result<MftRecordView, ParseErrorView>
    decreases
        (if pos < slot.len() {
            slot.len() - pos
        } else {
            0
        }),
{
    if pos < 0 || pos + 4 > slot.len() {
        Ok(record)
    } else if le_u32(slot, pos) == ATTRIBUTE_END {
        Ok(record)
    } else if pos + ATTRIBUTE_HEADER_SIZE > slot.len() {
        Err(short_attribute(offset))
    } else {
        match with_attribute(slot, pos, offset, record) {
            Err(e) => Err(e),
            Ok(next) => if le_u32(slot, pos + 4) == 0 {
                Ok(next)
            } else {
                with_attributes(slot, pos + le_u32(slot, pos + 4), offset, next)
            },
        }
    }
}

/// The error for a slot too short to hold a signature.
pub open spec fn missing_signature(offset: int) -> ParseErrorView {
    ParseErrorView { message: "Failed to read MFT signature"@, offset: Some(offset as u64) }
}

/// The error for a slot too short to hold a record header.
pub open spec fn missing_header(offset: int) -> ParseErrorView {
    ParseErrorView { message: "Failed to read MFT record header"@, offset: Some(offset as u64) }
}

/// The record in `slot`, which stands at byte position `offset` of the
/// table: none where the slot does not start with `FILE`, an error where the
/// slot is too short or an attribute runs past its end.
#[verifier::opaque]
pub open spec fn slot_record(slot: Seq<u8>, offset: int) -> Result<
    Option<MftRecordView>,
    ParseErrorView,
> {
    if slot.len() < 4 {
        Err(missing_signature(offset))
    } else if le_u32(slot, 0) != MFT_SIGNATURE {
        Ok(None)
    } else if slot.len() < MFT_HEADER_SIZE {
        Err(missing_header(offset))
    } else {
        match with_attributes(slot, le_u16(slot, 20), offset, header_record(slot, offset)) {
            Ok(record) => Ok(Some(record)),
            Err(e) => Err(e),
        }
    }
}

fn parse_standard_info(
    slot: &[u8],
    body: usize,
    offset: usize,
    record: &mut MftRecord,
) -> (r: ParseResult<()>)
    requires
        body <= slot@.len(),
    ensures
        match r {
            Ok(_) => body + STANDARD_INFORMATION_SIZE <= slot@.len() && final(record)@
                == with_standard_info(slot@, body as int, old(record)@),
            Err(e) => body + STANDARD_INFORMATION_SIZE > slot@.len() && e@ == short_standard_info(
                offset as int,
            ),
        },
{
    if slot.len() - body < STANDARD_INFORMATION_SIZE {
        return Err(
            ParseError::new("Failed to read $STANDARD_INFORMATION attribute", Some(offset as u64)),
        );
    }
    let created: u64 = read_u64(slot, body + 8);
    let modified: u64 = read_u64(slot, body + 16);
    let record_changed: u64 = read_u64(slot, body + 24);
    let accessed: u64 = read_u64(slot, body + 32);
    record.created_0x10 = windows_filetime_to_datetime(created);
    record.last_modified_0x10 = windows_filetime_to_datetime(modified);
    record.last_record_change_0x10 = windows_filetime_to_datetime(record_changed);
    record.last_access_0x10 = windows_filetime_to_datetime(accessed);
    record.si_flags = read_u32(slot, body + 40);
    Ok(())
}

fn parse_file_name(
    slot: &[u8],
    body: usize,
    offset: usize,
    record: &mut MftRecord,
) -> (r: ParseResult<()>)
    requires
        body <= slot@.len(),
    ensures
        match r {
            Ok(_) => body + FILE_NAME_FIXED_SIZE + 2 * u8_at(slot@, body + 72) <= slot@.len()
                && final(record)@ == with_file_name(slot@, body as int, old(record)@),
            Err(e) => (body + FILE_NAME_FIXED_SIZE > slot@.len() || body + FILE_NAME_FIXED_SIZE + 2
                * u8_at(slot@, body + 72) > slot@.len()) && e@ == short_file_name(offset as int),
        },
{
    let n: usize = slot.len();
    if n - body < FILE_NAME_FIXED_SIZE {
        return Err(ParseError::new("Failed to read $FILE_NAME attribute", Some(offset as u64)));
    }
    let parent_reference: u64 = read_u64(slot, body + 8);
    let created: u64 = read_u64(slot, body + 16);
    let modified: u64 = read_u64(slot, body + 24);
    let record_changed: u64 = read_u64(slot, body + 32);
    let accessed: u64 = read_u64(slot, body + 40);
    let real_size: u64 = read_u64(slot, body + 56);
    let name_length: u8 = read_u8(slot, body + 72);
    let name_type: u8 = read_u8(slot, body + 73);
    let name_bytes: usize = 2 * (name_length as usize);
    if n - body - FILE_NAME_FIXED_SIZE < name_bytes {
        return Err(ParseError::new("Failed to read $FILE_NAME attribute", Some(offset as u64)));
    }
    let name_start: usize = body + FILE_NAME_FIXED_SIZE;
    let (name, extension) = decode_name(slice_subrange(slot, name_start, name_start + name_bytes));
    record.parent_entry_number = file_reference_entry(parent_reference);
    record.parent_sequence_number = Some(file_reference_sequence(parent_reference));
    record.created_0x30 = windows_filetime_to_datetime(created);
    record.last_modified_0x30 = windows_filetime_to_datetime(modified);
    record.last_record_change_0x30 = windows_filetime_to_datetime(record_changed);
    record.last_access_0x30 = windows_filetime_to_datetime(accessed);
    record.file_size = real_size;
    record.name_type = name_type;
    record.file_name = name;
    record.extension = extension;
    Ok(())
}

fn parse_attribute(
    slot: &[u8],
    pos: usize,
    offset: usize,
    record: &mut MftRecord,
) -> (r: ParseResult<()>)
    requires
        pos + ATTRIBUTE_HEADER_SIZE <= slot@.len(),
    ensures
        match r {
            Ok(_) => with_attribute(slot@, pos as int, offset as int, old(record)@) == Ok::<
                MftRecordView,
                ParseErrorView,
            >(final(record)@),
            Err(e) => with_attribute(slot@, pos as int, offset as int, old(record)@) == Err::<
                MftRecordView,
                ParseErrorView,
            >(e@),
        },
{
    let n: usize = slot.len();
    let kind: u32 = read_u32(slot, pos);
    let body: usize = pos + ATTRIBUTE_HEADER_SIZE;
    if kind == ATTRIBUTE_STANDARD_INFORMATION {
        parse_standard_info(slot, body, offset, record)
    } else if kind == ATTRIBUTE_FILE_NAME {
        parse_file_name(slot, body, offset, record)
    } else {
        Ok(())
    }
}

fn parse_attributes(
    slot: &[u8],
    start: usize,
    offset: usize,
    record: &mut MftRecord,
) -> (r: ParseResult<()>)
    ensures
        match r {
            Ok(_) => with_attributes(slot@, start as int, offset as int, old(record)@) == Ok::<
                MftRecordView,
                ParseErrorView,
            >(final(record)@),
            Err(e) => with_attributes(slot@, start as int, offset as int, old(record)@) == Err::<
                MftRecordView,
                ParseErrorView,
            >(e@),
        },
{
    let n: usize = slot.len();
    let mut pos: usize = start;
    loop
        invariant
            n == slot@.len(),
            with_attributes(slot@, start as int, offset as int, old(record)@) == with_attributes(
                slot@,
                pos as int,
                offset as int,
                record@,
            ),
        decreases
                (if pos < n {
                    n - pos
                } else {
                    0
                }),
    {
        if pos > n || n - pos < 4 {
            return Ok(());
        }
        let kind: u32 = read_u32(slot, pos);
        if kind == ATTRIBUTE_END {
            return Ok(());
        }
        if n - pos < ATTRIBUTE_HEADER_SIZE {
            return Err(ParseError::new("Failed to read attribute header", Some(offset as u64)));
        }
        let length: u32 = read_u32(slot, pos + 4);
        match parse_attribute(slot, pos, offset, record) {
            Ok(_) => {},
            Err(e) => {
                return Err(e);
            },
        }
        if length == 0 {
            return Ok(());
        }
        if length as usize >= n - pos {
            assert(with_attributes(slot@, pos + length, offset as int, record@) == Ok::<
                MftRecordView,
                ParseErrorView,
            >(record@));
            return Ok(());
        }
        pos = pos + length as usize;
    }
}

/// Decodes the record in `slot`, which stands at byte position `offset` of
/// the table. A slot that does not start with `FILE` holds none.
pub fn parse_record(slot: &[u8], offset: usize) -> (r: ParseResult<Option<MftRecord>>)
    ensures
        match r {
            Ok(Some(record)) => slot_record(slot@, offset as int) == Ok::<
                Option<MftRecordView>,
                ParseErrorView,
            >(Some(record@)),
            Ok(None) => slot_record(slot@, offset as int) == Ok::<
                Option<MftRecordView>,
                ParseErrorView,
            >(None),
            Err(e) => slot_record(slot@, offset as int) == Err::<
                Option<MftRecordView>,
                ParseErrorView,
            >(e@),
        },
{
    reveal(slot_record);
    let n: usize = slot.len();
    if n < 4 {
        return Err(ParseError::new("Failed to read MFT signature", Some(offset as u64)));
    }
    let signature: u32 = read_u32(slot, 0);
    if signature != MFT_SIGNATURE {
        return Ok(None);
    }
    if n < MFT_HEADER_SIZE {
        return Err(ParseError::new("Failed to read MFT record header", Some(offset as u64)));
    }
    let sequence_number: u16 = read_u16(slot, 16);
    let first_attribute_offset: u16 = read_u16(slot, 20);
    let flags: u16 = read_u16(slot, 22);
    let entry_number: u32 = (((offset / MFT_RECORD_SIZE) as u64) % 0x1_0000_0000) as u32;
    let mut record = MftRecord {
        entry_number,
        sequence_number,
        parent_entry_number: 0,
        parent_sequence_number: None,
        in_use: (flags & 0x01) != 0,
        parent_path: String::new(),
        file_name: String::new(),
        extension: String::new(),
        is_directory: (flags & 0x02) != 0,
        has_ads: false,
        is_ads: false,
        file_size: 0,
        created_0x10: None,
        created_0x30: None,
        last_modified_0x10: None,
        last_modified_0x30: None,
        last_record_change_0x10: None,
        last_record_change_0x30: None,
        last_access_0x10: None,
        last_access_0x30: None,
        update_sequence_number: 0,
        logfile_sequence_number: 0,
        security_id: 0,
        zone_id_contents: String::new(),
        si_flags: 0,
        object_id_file_droid: String::new(),
        reparse_target: String::new(),
        reference_count: 0,
        name_type: 0,
        logged_util_stream: String::new(),
    };
    match parse_attributes(slot, first_attribute_offset as usize, offset, &mut record) {
        Ok(_) => Ok(Some(record)),
        Err(e) => Err(e),
    }
}

/// The views of a run of records.
pub open spec fn record_views(s: Seq<MftRecord>) -> Seq<MftRecordView> {
    s.map_values(|r: MftRecord| r@)
}

/// The number of whole slots in `data`; bytes after the last whole slot are
/// ignored.
pub open spec fn slot_count(data: Seq<u8>) -> nat {
    data.len() / MFT_RECORD_SIZE as nat
}

/// The `k`-th slot of `data`.
pub open spec fn slot_at(data: Seq<u8>, k: int) -> Seq<u8> {
    data.subrange(k * MFT_RECORD_SIZE, k * MFT_RECORD_SIZE + MFT_RECORD_SIZE)
}

/// The records of the first `slots` slots of `data`, in slot order. A slot
/// without record, and one whose record cannot be decoded, gives none.
pub open spec fn slot_records(data: Seq<u8>, slots: nat) -> Seq<MftRecordView>
    decreases slots,
{
    if slots == 0 {
        Seq::empty()
    } else {
        let before = slot_records(data, (slots - 1) as nat);
        match slot_record(slot_at(data, slots - 1), (slots - 1) * MFT_RECORD_SIZE) {
            Ok(Some(record)) => before.push(record),
            _ => before,
        }
    }
}

/// Whether `record` is the entry that is asked for: it bears the entry
/// number and, where one is given, the sequence number.
pub open spec fn is_entry(record: MftRecordView, entry_number: u32, sequence_number: Option<u16>)
    -> bool {
    record.entry_number == entry_number && (sequence_number is None || sequence_number == Some(
        record.sequence_number,
    ))
}

/// The first of `records` that is the entry asked for.
pub open spec fn first_entry(
    records: Seq<MftRecordView>,
    entry_number: u32,
    sequence_number: Option<u16>,
) -> Option<MftRecordView>
    decreases records.len(),
{
    if records.len() == 0 {
        None
    } else if is_entry(records[0], entry_number, sequence_number) {
        Some(records[0])
    } else {
        first_entry(records.skip(1), entry_number, sequence_number)
    }
}

/// Finds the first record with the given entry number and, where one is
/// given, sequence number.
pub fn find_record(records: &[MftRecord], entry_number: u32, sequence_number: Option<u16>) -> (r:
    Option<&MftRecord>)
    ensures
        match r {
            Some(record) => first_entry(record_views(records@), entry_number, sequence_number)
                == Some(record@),
            None => first_entry(record_views(records@), entry_number, sequence_number) is None,
        },
{
    let n: usize = records.len();
    let mut i: usize = 0;
    proof {
        assert(record_views(records@).skip(0) =~= record_views(records@));
    }
    while i < n
        invariant
            i <= n == records@.len(),
            first_entry(record_views(records@), entry_number, sequence_number) == first_entry(
                record_views(records@).skip(i as int),
                entry_number,
                sequence_number,
            ),
        decreases n - i,
    {
        let matches_sequence: bool = match sequence_number {
            Some(sequence) => records[i].sequence_number == sequence,
            None => true,
        };
        if records[i].entry_number == entry_number && matches_sequence {
            return Some(&records[i]);
        }
        proof {
            assert(record_views(records@).skip(i as int).skip(1) =~= record_views(records@).skip(
                i + 1,
            ));
        }
        i = i + 1;
    }
    None
}

/// For each entry number, the position in `records` of the last record that
/// bears it.
pub open spec fn entry_index(records: Seq<MftRecordView>) -> Map<u32, usize>
    decreases records.len(),
{
    if records.len() == 0 {
        Map::empty()
    } else {
        entry_index(records.drop_last()).insert(
            records.last().entry_number,
            (records.len() - 1) as usize,
        )
    }
}

/// The map from entry numbers depends on the entry numbers alone.
pub proof fn lemma_entry_index_numbers(a: Seq<MftRecordView>, b: Seq<MftRecordView>)
    requires
        a.len() == b.len(),
        forall|i: int| 0 <= i < a.len() ==> a[i].entry_number == b[i].entry_number,
    ensures
        entry_index(a) == entry_index(b),
    decreases a.len(),
{
    if a.len() > 0 {
        lemma_entry_index_numbers(a.drop_last(), b.drop_last());
    }
}

/// The path of the entry `entry` and its ancestors, the outermost first,
/// with `/` between the names. The root has the empty path. Where the chain
/// of parents leaves the table or is longer than the bound, the path starts
/// with a sentinel in place of the ancestors that are missing.
pub open spec fn build_path(
    records: Seq<MftRecordView>,
    index: Map<u32, usize>,
    entry: u32,
    depth: nat,
) -> Seq<char>
    decreases MAX_PATH_DEPTH + 1 - depth,
{
    if depth > MAX_PATH_DEPTH {
        "...[path too deep]"@
    } else if entry == ROOT_ENTRY {
        Seq::empty()
    } else if !index.contains_key(entry) {
        "...[parent not found]"@
    } else if index[entry] >= records.len() {
        "...[invalid index]"@
    } else {
        let parent = records[index[entry] as int];
        let prefix = build_path(records, index, parent.parent_entry_number, depth + 1);
        if prefix.len() == 0 {
            parent.file_name
        } else {
            prefix + "/"@ + parent.file_name
        }
    }
}

/// The parent path of the `i`-th record: empty for a child of the root and
/// for a record that is its own parent, else the path of its parent.
pub open spec fn resolved_path(records: Seq<MftRecordView>, index: Map<u32, usize>, i: int) -> Seq<
    char,
> {
    let record = records[i];
    if record.parent_entry_number == ROOT_ENTRY || record.parent_entry_number
        == record.entry_number {
        Seq::empty()
    } else {
        build_path(records, index, record.parent_entry_number, 0)
    }
}

/// `records`, each with its parent path.
pub open spec fn resolved(records: Seq<MftRecordView>) -> Seq<MftRecordView> {
    Seq::new(
        records.len(),
        |i: int|
            MftRecordView {
                parent_path: resolved_path(records, entry_index(records), i),
                ..records[i]
            },
    )
}

/// The records of the table `data`, in slot order, each with its parent
/// path.
pub open spec fn mft_records(data: Seq<u8>) -> Seq<MftRecordView> {
    resolved(slot_records(data, slot_count(data)))
}

/// The decoder of a master file table.
pub struct MftParser {
    data: Vec<u8>,
    records: Vec<MftRecord>,
    entry_map: HashMap<u32, usize>,
}

impl MftParser {
    /// The bytes that the decoder was made for.
    pub closed spec fn data(&self) -> Seq<u8> {
        self.data@
    }

    /// The records decoded so far.
    pub closed spec fn records(&self) -> Seq<MftRecordView> {
        record_views(self.records@)
    }

    /// The decoder's map from entry numbers to records is that of its
    /// records.
    pub closed spec fn wf(&self) -> bool {
        self.entry_map@ == entry_index(record_views(self.records@))
    }

    /// A decoder for `data` that has decoded nothing yet.
    pub fn new(data: Vec<u8>) -> (r: MftParser)
        ensures
            r.wf(),
            r.data() == data@,
            r.records() == Seq::<MftRecordView>::empty(),
    {
        let r = MftParser { data, records: Vec::new(), entry_map: HashMap::new() };
        assert(r.records() =~= Seq::<MftRecordView>::empty());
        r
    }

    /// Decodes the table slot by slot, appends the records in slot order
    /// and gives every record of the decoder its parent path. A slot
    /// without record, or with one that cannot be decoded, is passed over;
    /// that is no error.
    pub fn parse(&mut self) -> (r: ParseResult<()>)
        requires
            old(self).wf(),
        ensures
            r is Ok,
            final(self).wf(),
            final(self).data() == old(self).data(),
            final(self).records() == resolved(
                old(self).records() + slot_records(
                    old(self).data(),
                    slot_count(old(self).data()),
                ),
            ),
    {
        broadcast use vstd::std_specs::hash::group_hash_axioms;

        let n: usize = self.data.len();
        let mut offset: usize = 0;
        proof {
            assert(self.records() + Seq::<MftRecordView>::empty() =~= self.records());
        }
        while n - offset >= MFT_RECORD_SIZE
            invariant
                n == self.data@.len(),
                self.data@ == old(self).data@,
                offset <= n,
                offset % MFT_RECORD_SIZE == 0,
                record_views(self.records@) == old(self).records() + slot_records(
                    self.data@,
                    (offset / MFT_RECORD_SIZE) as nat,
                ),
                self.entry_map@ == entry_index(record_views(self.records@)),
            decreases n - offset,
        {
            let ghost k: int = offset as int / MFT_RECORD_SIZE as int;
            let ghost before = record_views(self.records@);
            let slot: &[u8] = slice_subrange(
                self.data.as_slice(),
                offset,
                offset + MFT_RECORD_SIZE,
            );
            assert(slot@ == slot_at(self.data@, k));
            assert(offset == k * MFT_RECORD_SIZE);
            match parse_record(slot, offset) {
                Ok(Some(record)) => {
                    let record_index: usize = self.records.len();
                    self.entry_map.insert(record.entry_number, record_index);
                    self.records.push(record);
                    proof {
                        let after = record_views(self.records@);
                        assert(after =~= before.push(record@));
                        assert(after.drop_last() =~= before);
                        assert(after =~= old(self).records() + slot_records(
                            self.data@,
                            (k + 1) as nat,
                        ));
                    }
                },
                Ok(None) => {},
                Err(_) => {},
            }
            offset = offset + MFT_RECORD_SIZE;
            assert(offset as int / MFT_RECORD_SIZE as int == k + 1);
        }
        assert(offset / MFT_RECORD_SIZE == slot_count(self.data@));
        let ghost parsed = record_views(self.records@);
        self.resolve_parent_paths();
        proof {
            assert(record_views(self.records@) =~= resolved(parsed));
            lemma_entry_index_numbers(parsed, record_views(self.records@));
        }
        Ok(())
    }

    /// The records decoded so far, in slot order.
    pub fn get_records(&self) -> (r: &[MftRecord])
        ensures
            record_views(r@) == self.records(),
    {
        self.records.as_slice()
    }

    fn build_path(&self, entry_number: u32, depth: usize) -> (r: String)
        requires
            depth <= MAX_PATH_DEPTH + 1,
        ensures
            r@ == build_path(
                record_views(self.records@),
                self.entry_map@,
                entry_number,
                depth as nat,
            ),
        decreases MAX_PATH_DEPTH + 1 - depth,
    {
        broadcast use vstd::std_specs::hash::group_hash_axioms;

        if depth > MAX_PATH_DEPTH {
            return String::from_str("...[path too deep]");
        }
        if entry_number == ROOT_ENTRY {
            return String::new();
        }
        match self.entry_map.get(&entry_number) {
            Some(found) => {
                let record_index: usize = *found;
                if record_index < self.records.len() {
                    let record = &self.records[record_index];
                    let prefix = self.build_path(record.parent_entry_number, depth + 1);
                    if prefix.as_str().is_empty() {
                        record.file_name.clone()
                    } else {
                        let mut path = prefix;
                        path.append("/");
                        path.append(record.file_name.as_str());
                        path
                    }
                } else {
                    String::from_str("...[invalid index]")
                }
            },
            None => String::from_str("...[parent not found]"),
        }
    }

    fn resolve_parent_paths(&mut self)
        ensures
            final(self).data@ == old(self).data@,
            final(self).entry_map@ == old(self).entry_map@,
            record_views(final(self).records@) == Seq::new(
                old(self).records@.len(),
                |i: int|
                    MftRecordView {
                        parent_path: resolved_path(
                            record_views(old(self).records@),
                            old(self).entry_map@,
                            i,
                        ),
                        ..old(self).records@[i]@
                    },
            ),
    {
        let n: usize = self.records.len();
        let mut paths: Vec<String> = Vec::new();
        let mut i: usize = 0;
        while i < n
            invariant
                n == self.records@.len(),
                i <= n,
                paths@.len() == i,
                forall|j: int|
                    0 <= j < i ==> (#[trigger] paths@[j])@ == resolved_path(
                        record_views(self.records@),
                        self.entry_map@,
                        j,
                    ),
            decreases n - i,
        {
            let parent_entry: u32 = self.records[i].parent_entry_number;
            let path = if parent_entry == ROOT_ENTRY || parent_entry
                == self.records[i].entry_number {
                String::new()
            } else {
                self.build_path(parent_entry, 0)
            };
            paths.push(path);
            i = i + 1;
        }
        let mut k: usize = 0;
        while k < n
            invariant
                n == self.records@.len() == old(self).records@.len() == paths@.len(),
                k <= n,
                self.data@ == old(self).data@,
                self.entry_map@ == old(self).entry_map@,
                forall|j: int|
                    0 <= j < n ==> (#[trigger] paths@[j])@ == resolved_path(
                        record_views(old(self).records@),
                        old(self).entry_map@,
                        j,
                    ),
                forall|j: int|
                    0 <= j < k ==> (#[trigger] self.records@[j])@ == (MftRecordView {
                        parent_path: paths@[j]@,
                        ..old(self).records@[j]@
                    }),
                forall|j: int| k <= j < n ==> #[trigger] self.records@[j] == old(self).records@[j],
            decreases n - k,
        {
            let path = paths[k].clone();
            self.records[k].parent_path = path;
            k = k + 1;
        }
        assert(record_views(self.records@) =~= Seq::new(
            old(self).records@.len(),
            |i: int|
                MftRecordView {
                    parent_path: resolved_path(
                        record_views(old(self).records@),
                        old(self).entry_map@,
                        i,
                    ),
                    ..old(self).records@[i]@
                },
        ));
    }
}

/// The bytes `FILE`, with which a record begins.
pub open spec fn file_signature() -> Seq<u8> {
    seq![0x46, 0x49, 0x4c, 0x45]
}

/// Decoding attributes leaves a record's entry number as it is.
pub proof fn lemma_attributes_keep_number(
    slot: Seq<u8>,
    pos: int,
    offset: int,
    record: MftRecordView,
)
    ensures
        with_attributes(slot, pos, offset, record) matches Ok(after) ==> after.entry_number
            == record.entry_number,
    decreases
        (if pos < slot.len() {
            slot.len() - pos
        } else {
            0
        }),
{
    if 0 <= pos && pos + ATTRIBUTE_HEADER_SIZE <= slot.len() && le_u32(slot, pos) != ATTRIBUTE_END {
        if let Ok(next) = with_attribute(slot, pos, offset, record) {
            if le_u32(slot, pos + 4) != 0 {
                lemma_attributes_keep_number(slot, pos + le_u32(slot, pos + 4), offset, next);
            }
        }
    }
}

/// The record of a slot bears the slot's number, and its slot begins with
/// the signature.
pub proof fn lemma_slot_record_number(slot: Seq<u8>, offset: int)
    ensures
        slot_record(slot, offset) matches Ok(Some(record)) ==> record.entry_number
            == slot_entry_number(offset) && slot.len() >= 4 && le_u32(slot, 0) == MFT_SIGNATURE,
{
    reveal(slot_record);
    if slot.len() >= MFT_HEADER_SIZE {
        lemma_attributes_keep_number(slot, le_u16(slot, 20), offset, header_record(slot, offset));
    }
}

/// The four bytes that read as the signature are `FILE`.
pub proof fn lemma_signature_bytes(slot: Seq<u8>)
    requires
        slot.len() >= 4,
        le_u32(slot, 0) == MFT_SIGNATURE,
    ensures
        slot.subrange(0, 4) == file_signature(),
{
    let b0 = slot[0] as int;
    let b1 = slot[1] as int;
    let b2 = slot[2] as int;
    let b3 = slot[3] as int;
    assert(b0 + 0x100 * b1 + 0x1_0000 * (b2 + 0x100 * b3) == 0x454c_4946);
    assert(b3 == 0x45);
    assert(b2 == 0x4c);
    assert(b1 == 0x49);
    assert(b0 == 0x46);
    assert(slot.subrange(0, 4) =~= file_signature());
}

/// Whether the slot with the number `k` begins with the signature.
pub open spec fn slot_has_signature(data: Seq<u8>, k: int) -> bool {
    le_u32(slot_at(data, k), 0) == MFT_SIGNATURE
}

/// Whether the records bear rising numbers below `slots`, each the number
/// of a slot that begins with the signature.
pub open spec fn numbered_by_slots(records: Seq<MftRecordView>, data: Seq<u8>, slots: int) -> bool {
    &&& forall|i: int|
        0 <= i < records.len() ==> (#[trigger] records[i]).entry_number < slots
            && slot_has_signature(data, records[i].entry_number as int)
    &&& forall|i: int, j: int|
        0 <= i < j < records.len() ==> (#[trigger] records[i]).entry_number
            < (#[trigger] records[j]).entry_number
}

/// Records numbered by the slots below `k` stay so with the slots up to
/// `k`, and with a record of the slot `k` behind them.
pub proof fn lemma_numbered_push(
    before: Seq<MftRecordView>,
    record: MftRecordView,
    data: Seq<u8>,
    k: int,
)
    requires
        numbered_by_slots(before, data, k),
    ensures
        numbered_by_slots(before, data, k + 1),
        record.entry_number == k && slot_has_signature(data, k) ==> numbered_by_slots(
            before.push(record),
            data,
            k + 1,
        ),
{
    if record.entry_number == k && slot_has_signature(data, k) {
        let all = before.push(record);
        assert forall|i: int| 0 <= i < all.len() implies (#[trigger] all[i]).entry_number < k + 1
            && slot_has_signature(data, all[i].entry_number as int) by {
            if i < before.len() {
                assert(all[i] == before[i]);
            }
        }
        assert forall|i: int, j: int| 0 <= i < j < all.len() implies
            (#[trigger] all[i]).entry_number < (#[trigger] all[j]).entry_number
        by {
            assert(all[i] == before[i]);
            if j < before.len() {
                assert(all[j] == before[j]);
            }
        }
    }
}

/// Every record of the first `slots` slots bears the number of a slot that
/// begins with the signature, and the numbers rise along the records.
pub proof fn lemma_slot_records_numbers(data: Seq<u8>, slots: nat)
    requires
        slots <= slot_count(data),
        slots <= 0x1_0000_0000,
    ensures
        numbered_by_slots(slot_records(data, slots), data, slots as int),
    decreases slots,
{
    if slots > 0 {
        let k = slots - 1;
        lemma_slot_records_numbers(data, k as nat);
        let before = slot_records(data, k as nat);
        let slot = slot_at(data, k);
        let offset = k * MFT_RECORD_SIZE;
        lemma_slot_record_number(slot, offset);
        assert(slot_entry_number(offset) == k) by {
            assert(offset / MFT_RECORD_SIZE as int == k);
        }
        match slot_record(slot, offset) {
            Ok(Some(record)) => {
                lemma_numbered_push(before, record, data, k);
            },
            _ => {
                lemma_numbered_push(before, before[0], data, k);
            },
        }
    }
}

/// Every record of a table stands on the signature: for a table of no more
/// than 2^32 slots, the four bytes at 1024 times a record's entry number are
/// `FILE`. The records come in slot order.
pub proof fn lemma_records_stand_on_signature(data: Seq<u8>)
    requires
        slot_count(data) <= 0x1_0000_0000,
    ensures
        ({
            let records = mft_records(data);
            &&& forall|i: int|
                0 <= i < records.len() ==> MFT_RECORD_SIZE * (#[trigger] records[i]).entry_number
                    + 4 <= data.len() && data.subrange(
                    MFT_RECORD_SIZE * records[i].entry_number,
                    MFT_RECORD_SIZE * records[i].entry_number + 4,
                ) == file_signature()
            &&& forall|i: int, j: int|
                0 <= i < j < records.len() ==> (#[trigger] records[i]).entry_number
                    < (#[trigger] records[j]).entry_number
        }),
{
    let slots = slot_count(data);
    lemma_slot_records_numbers(data, slots);
    let parsed = slot_records(data, slots);
    let all = mft_records(data);
    assert(all.len() == parsed.len());
    assert(numbered_by_slots(parsed, data, slots as int));
    assert forall|i: int| 0 <= i < all.len() implies
        MFT_RECORD_SIZE * (#[trigger] all[i]).entry_number + 4 <= data.len() && data.subrange(
        MFT_RECORD_SIZE * all[i].entry_number,
        MFT_RECORD_SIZE * all[i].entry_number + 4,
    ) == file_signature() by {
        assert(all[i].entry_number == parsed[i].entry_number);
        let k = parsed[i].entry_number as int;
        assert(k < slots);
        let slot = slot_at(data, k);
        assert(slot.len() == MFT_RECORD_SIZE);
        lemma_signature_bytes(slot);
        assert(data.subrange(MFT_RECORD_SIZE * k, MFT_RECORD_SIZE * k + 4) =~= slot.subrange(0, 4));
    }
    assert forall|i: int, j: int| 0 <= i < j < all.len() implies
        (#[trigger] all[i]).entry_number < (#[trigger] all[j]).entry_number
    by {
        assert(all[i].entry_number == parsed[i].entry_number);
        assert(all[j].entry_number == parsed[j].entry_number);
    }
}

/// The sentinel with which the path of a chain of parents begins: none
/// where the chain ends at the root, else what tells why it was given up.
pub open spec fn path_head(
    records: Seq<MftRecordView>,
    index: Map<u32, usize>,
    entry: u32,
    depth: nat,
) -> Seq<char>
    decreases MAX_PATH_DEPTH + 1 - depth,
{
    if depth > MAX_PATH_DEPTH {
        "...[path too deep]"@
    } else if entry == ROOT_ENTRY {
        Seq::empty()
    } else if !index.contains_key(entry) {
        "...[parent not found]"@
    } else if index[entry] >= records.len() {
        "...[invalid index]"@
    } else {
        path_head(records, index, records[index[entry] as int].parent_entry_number, depth + 1)
    }
}

/// The names of the entry `entry` and of its ancestors, the outermost first,
/// as far as the chain of parents is followed.
pub open spec fn path_names(
    records: Seq<MftRecordView>,
    index: Map<u32, usize>,
    entry: u32,
    depth: nat,
) -> Seq<Seq<char>>
    decreases MAX_PATH_DEPTH + 1 - depth,
{
    if depth > MAX_PATH_DEPTH || entry == ROOT_ENTRY || !index.contains_key(entry) || index[entry]
        >= records.len() {
        Seq::empty()
    } else {
        let parent = records[index[entry] as int];
        path_names(records, index, parent.parent_entry_number, depth + 1).push(parent.file_name)
    }
}

/// `head` and then `names`, with `/` before each name that does not stand at
/// the start.
pub open spec fn joined_path(head: Seq<char>, names: Seq<Seq<char>>) -> Seq<char>
    decreases names.len(),
{
    if names.len() == 0 {
        head
    } else {
        let prefix = joined_path(head, names.drop_last());
        if prefix.len() == 0 {
            names.last()
        } else {
            prefix + "/"@ + names.last()
        }
    }
}

/// A path is a sentinel or nothing, followed by the names of no more
/// ancestors than the bound on the depth lets through, joined by `/`: of a
/// hundred and one at most behind a sentinel, of a hundred at most where
/// the chain reaches the root.
pub proof fn lemma_build_path_shape(
    records: Seq<MftRecordView>,
    index: Map<u32, usize>,
    entry: u32,
    depth: nat,
)
    ensures
        build_path(records, index, entry, depth) == joined_path(
            path_head(records, index, entry, depth),
            path_names(records, index, entry, depth),
        ),
        depth <= MAX_PATH_DEPTH + 1 ==> path_names(records, index, entry, depth).len()
            <= MAX_PATH_DEPTH + 1 - depth,
        depth <= MAX_PATH_DEPTH && path_head(records, index, entry, depth).len() == 0
            ==> path_names(records, index, entry, depth).len() <= MAX_PATH_DEPTH - depth,
        path_head(records, index, entry, depth) == Seq::<char>::empty() || path_head(
            records,
            index,
            entry,
            depth,
        ) == "...[path too deep]"@ || path_head(records, index, entry, depth)
            == "...[parent not found]"@ || path_head(records, index, entry, depth)
            == "...[invalid index]"@,
    decreases MAX_PATH_DEPTH + 1 - depth,
{
    reveal_strlit("...[path too deep]");
    if depth > MAX_PATH_DEPTH || entry == ROOT_ENTRY || !index.contains_key(entry) || index[entry]
        >= records.len() {
    } else {
        let parent = records[index[entry] as int];
        lemma_build_path_shape(records, index, parent.parent_entry_number, depth + 1);
        let names = path_names(records, index, entry, depth);
        assert(names.drop_last() =~= path_names(
            records,
            index,
            parent.parent_entry_number,
            depth + 1,
        ));
    }
}

/// The parent path of every record is empty where the record hangs from the
/// root or is its own parent, so that no record is followed into itself;
/// else it is the path of its parent, of the shape that
/// `lemma_build_path_shape` states.
pub proof fn lemma_parent_paths(records: Seq<MftRecordView>, i: int)
    requires
        0 <= i < records.len(),
    ensures
        resolved(records).len() == records.len(),
        records[i].parent_entry_number == ROOT_ENTRY || records[i].parent_entry_number
            == records[i].entry_number ==> resolved(records)[i].parent_path == Seq::<char>::empty(),
        records[i].parent_entry_number != ROOT_ENTRY && records[i].parent_entry_number
            != records[i].entry_number ==> resolved(records)[i].parent_path == joined_path(
            path_head(records, entry_index(records), records[i].parent_entry_number, 0),
            path_names(records, entry_index(records), records[i].parent_entry_number, 0),
        ) && path_names(records, entry_index(records), records[i].parent_entry_number, 0).len()
            <= MAX_PATH_DEPTH + 1 && (path_head(
            records,
            entry_index(records),
            records[i].parent_entry_number,
            0,
        ).len() == 0 ==> path_names(
            records,
            entry_index(records),
            records[i].parent_entry_number,
            0,
        ).len() <= MAX_PATH_DEPTH),
{
    lemma_build_path_shape(records, entry_index(records), records[i].parent_entry_number, 0);
}

} // verus!
