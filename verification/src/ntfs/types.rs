//! The records that the decoders yield, each with its mathematical view.

use crate::ntfs::text::{hex_encode, hex_of_bytes, hex_text, push_hex};
use crate::ntfs::time::Timestamp;
use vstd::prelude::*;
use vstd::slice::slice_subrange;
use vstd::string::StringExecFns;

verus! {

/// The kind of artifact that a buffer holds.
#[derive(Debug, Clone, Copy, PartialEq, Eq, Structural)]
pub enum FileType {
    Mft,
    LogFile,
    UsnJournal,
    Boot,
    Sds,
    I30,
    Unknown,
}

impl FileType {
    /// The name under which the kind is shown.
    pub open spec fn name(self) -> Seq<char> {
        match self {
            FileType::Mft => "MFT"@,
            FileType::LogFile => "LogFile"@,
            FileType::UsnJournal => "USN Journal"@,
            FileType::Boot => "Boot"@,
            FileType::Sds => "SDS"@,
            FileType::I30 => "I30"@,
            FileType::Unknown => "Unknown"@,
        }
    }

    /// The number that stands for the kind.
    pub open spec fn number(self) -> u8 {
        match self {
            FileType::Mft => 0,
            FileType::LogFile => 1,
            FileType::UsnJournal => 2,
            FileType::Boot => 3,
            FileType::Sds => 4,
            FileType::I30 => 5,
            FileType::Unknown => 99,
        }
    }

    /// The number that stands for the kind.
    pub fn code(&self) -> (r: u8)
        ensures
            r == self.number(),
    {
        match self {
            FileType::Mft => 0,
            FileType::LogFile => 1,
            FileType::UsnJournal => 2,
            FileType::Boot => 3,
            FileType::Sds => 4,
            FileType::I30 => 5,
            FileType::Unknown => 99,
        }
    }

    /// The kind's display name.
    pub fn to_string(&self) -> (r: String)
        ensures
            r@ == self.name(),
    {
        match self {
            FileType::Mft => String::from_str("MFT"),
            FileType::LogFile => String::from_str("LogFile"),
            FileType::UsnJournal => String::from_str("USN Journal"),
            FileType::Boot => String::from_str("Boot"),
            FileType::Sds => String::from_str("SDS"),
            FileType::I30 => String::from_str("I30"),
            FileType::Unknown => String::from_str("Unknown"),
        }
    }
}

/// One file record of the master file table.
#[derive(Debug, Clone)]
pub struct MftRecord {
    pub entry_number: u32,
    pub sequence_number: u16,
    pub parent_entry_number: u32,
    pub parent_sequence_number: Option<u16>,
    pub in_use: bool,
    pub parent_path: String,
    pub file_name: String,
    pub extension: String,
    pub is_directory: bool,
    pub has_ads: bool,
    pub is_ads: bool,
    pub file_size: u64,
    pub created_0x10: Option<Timestamp>,
    pub created_0x30: Option<Timestamp>,
    pub last_modified_0x10: Option<Timestamp>,
    pub last_modified_0x30: Option<Timestamp>,
    pub last_record_change_0x10: Option<Timestamp>,
    pub last_record_change_0x30: Option<Timestamp>,
    pub last_access_0x10: Option<Timestamp>,
    pub last_access_0x30: Option<Timestamp>,
    pub update_sequence_number: i64,
    pub logfile_sequence_number: i64,
    pub security_id: i32,
    pub zone_id_contents: String,
    pub si_flags: u32,
    pub object_id_file_droid: String,
    pub reparse_target: String,
    pub reference_count: i32,
    pub name_type: u8,
    pub logged_util_stream: String,
}

/// What an `MftRecord` holds, with its text as sequences of characters.
pub struct MftRecordView {
    pub entry_number: u32,
    pub sequence_number: u16,
    pub parent_entry_number: u32,
    pub parent_sequence_number: Option<u16>,
    pub in_use: bool,
    pub parent_path: Seq<char>,
    pub file_name: Seq<char>,
    pub extension: Seq<char>,
    pub is_directory: bool,
    pub has_ads: bool,
    pub is_ads: bool,
    pub file_size: u64,
    pub created_0x10: Option<Timestamp>,
    pub created_0x30: Option<Timestamp>,
    pub last_modified_0x10: Option<Timestamp>,
    pub last_modified_0x30: Option<Timestamp>,
    pub last_record_change_0x10: Option<Timestamp>,
    pub last_record_change_0x30: Option<Timestamp>,
    pub last_access_0x10: Option<Timestamp>,
    pub last_access_0x30: Option<Timestamp>,
    pub update_sequence_number: i64,
    pub logfile_sequence_number: i64,
    pub security_id: i32,
    pub zone_id_contents: Seq<char>,
    pub si_flags: u32,
    pub object_id_file_droid: Seq<char>,
    pub reparse_target: Seq<char>,
    pub reference_count: i32,
    pub name_type: u8,
    pub logged_util_stream: Seq<char>,
}

impl View for MftRecord {
    type V = MftRecordView;

    open spec fn view(&self) -> MftRecordView {
        MftRecordView {
            entry_number: self.entry_number,
            sequence_number: self.sequence_number,
            parent_entry_number: self.parent_entry_number,
            parent_sequence_number: self.parent_sequence_number,
            in_use: self.in_use,
            parent_path: self.parent_path@,
            file_name: self.file_name@,
            extension: self.extension@,
            is_directory: self.is_directory,
            has_ads: self.has_ads,
            is_ads: self.is_ads,
            file_size: self.file_size,
            created_0x10: self.created_0x10,
            created_0x30: self.created_0x30,
            last_modified_0x10: self.last_modified_0x10,
            last_modified_0x30: self.last_modified_0x30,
            last_record_change_0x10: self.last_record_change_0x10,
            last_record_change_0x30: self.last_record_change_0x30,
            last_access_0x10: self.last_access_0x10,
            last_access_0x30: self.last_access_0x30,
            update_sequence_number: self.update_sequence_number,
            logfile_sequence_number: self.logfile_sequence_number,
            security_id: self.security_id,
            zone_id_contents: self.zone_id_contents@,
            si_flags: self.si_flags,
            object_id_file_droid: self.object_id_file_droid@,
            reparse_target: self.reparse_target@,
            reference_count: self.reference_count,
            name_type: self.name_type,
            logged_util_stream: self.logged_util_stream@,
        }
    }
}

/// One record of the change journal.
#[derive(Debug, Clone)]
pub struct UsnJournalEntry {
    /// The byte position in the buffer at which the record starts.
    pub offset: u64,
    pub timestamp: Option<Timestamp>,
    pub entry_number: u32,
    pub sequence_number: u16,
    pub parent_entry_number: u32,
    pub parent_sequence_number: u16,
    pub file_name: String,
    pub full_path: String,
    pub extension: String,
    pub reason: String,
    pub file_attributes: u32,
    pub usn: u64,
}

/// What a `UsnJournalEntry` holds, with its text as sequences of characters.
pub struct UsnJournalEntryView {
    pub offset: u64,
    pub timestamp: Option<Timestamp>,
    pub entry_number: u32,
    pub sequence_number: u16,
    pub parent_entry_number: u32,
    pub parent_sequence_number: u16,
    pub file_name: Seq<char>,
    pub full_path: Seq<char>,
    pub extension: Seq<char>,
    pub reason: Seq<char>,
    pub file_attributes: u32,
    pub usn: u64,
}

impl View for UsnJournalEntry {
    type V = UsnJournalEntryView;

    open spec fn view(&self) -> UsnJournalEntryView {
        UsnJournalEntryView {
            offset: self.offset,
            timestamp: self.timestamp,
            entry_number: self.entry_number,
            sequence_number: self.sequence_number,
            parent_entry_number: self.parent_entry_number,
            parent_sequence_number: self.parent_sequence_number,
            file_name: self.file_name@,
            full_path: self.full_path@,
            extension: self.extension@,
            reason: self.reason@,
            file_attributes: self.file_attributes,
            usn: self.usn,
        }
    }
}

/// The fields of an NTFS boot sector.
#[derive(Debug, Clone)]
pub struct BootSector {
    pub bytes_per_sector: u16,
    pub sectors_per_cluster: u8,
    pub total_sectors: u64,
    pub mft_start_cluster: u64,
    pub mft_mirror_start_cluster: u64,
    pub clusters_per_mft_record: i8,
    pub clusters_per_index_buffer: i8,
    pub volume_serial_number: u64,
    pub oem_id: String,
    pub volume_label: String,
}

/// What a `BootSector` holds, with its text as sequences of characters.
pub struct BootSectorView {
    pub bytes_per_sector: u16,
    pub sectors_per_cluster: u8,
    pub total_sectors: u64,
    pub mft_start_cluster: u64,
    pub mft_mirror_start_cluster: u64,
    pub clusters_per_mft_record: i8,
    pub clusters_per_index_buffer: i8,
    pub volume_serial_number: u64,
    pub oem_id: Seq<char>,
    pub volume_label: Seq<char>,
}

impl View for BootSector {
    type V = BootSectorView;

    open spec fn view(&self) -> BootSectorView {
        BootSectorView {
            bytes_per_sector: self.bytes_per_sector,
            sectors_per_cluster: self.sectors_per_cluster,
            total_sectors: self.total_sectors,
            mft_start_cluster: self.mft_start_cluster,
            mft_mirror_start_cluster: self.mft_mirror_start_cluster,
            clusters_per_mft_record: self.clusters_per_mft_record,
            clusters_per_index_buffer: self.clusters_per_index_buffer,
            volume_serial_number: self.volume_serial_number,
            oem_id: self.oem_id@,
            volume_label: self.volume_label@,
        }
    }
}

/// One entry of the security descriptor stream.
#[derive(Debug, Clone)]
pub struct SecurityDescriptor {
    pub id: u32,
    pub hash: u32,
    /// The byte position in the buffer at which the entry starts.
    pub offset: u64,
    pub length: u32,
    pub descriptor: Vec<u8>,
}

/// What a `SecurityDescriptor` holds, with its payload as a sequence of bytes.
pub struct SecurityDescriptorView {
    pub id: u32,
    pub hash: u32,
    pub offset: u64,
    pub length: u32,
    pub descriptor: Seq<u8>,
}

impl View for SecurityDescriptor {
    type V = SecurityDescriptorView;

    open spec fn view(&self) -> SecurityDescriptorView {
        SecurityDescriptorView {
            id: self.id,
            hash: self.hash,
            offset: self.offset,
            length: self.length,
            descriptor: self.descriptor@,
        }
    }
}

/// The number of bytes of a descriptor that a preview shows.
pub const DESCRIPTOR_PREVIEW_SIZE: usize = 16;

impl SecurityDescriptorView {
    /// The payload in hexadecimal.
    pub open spec fn hex(self) -> Seq<char> {
        hex_of_bytes(self.descriptor)
    }

    /// The payload in hexadecimal, cut after sixteen bytes with `...` where
    /// it is longer.
    pub open spec fn preview(self) -> Seq<char> {
        if self.descriptor.len() > DESCRIPTOR_PREVIEW_SIZE {
            hex_of_bytes(self.descriptor.subrange(0, DESCRIPTOR_PREVIEW_SIZE as int)) + "..."@
        } else {
            hex_of_bytes(self.descriptor)
        }
    }
}

impl SecurityDescriptor {
    /// The payload in lower-case hexadecimal.
    pub fn descriptor_hex(&self) -> (r: String)
        ensures
            r@ == self@.hex(),
    {
        hex_encode(self.descriptor.as_slice())
    }

    /// The payload in lower-case hexadecimal, cut after sixteen bytes with
    /// `...` where it is longer.
    pub fn descriptor_preview(&self) -> (r: String)
        ensures
            r@ == self@.preview(),
    {
        if self.descriptor.len() > DESCRIPTOR_PREVIEW_SIZE {
            let mut out = hex_encode(
                slice_subrange(self.descriptor.as_slice(), 0, DESCRIPTOR_PREVIEW_SIZE),
            );
            out.append("...");
            out
        } else {
            hex_encode(self.descriptor.as_slice())
        }
    }
}

/// One entry of a directory index block.
#[derive(Debug, Clone)]
pub struct IndexEntry {
    pub entry_number: u32,
    pub sequence_number: u16,
    pub parent_entry_number: u32,
    pub parent_sequence_number: u16,
    pub file_name: String,
    pub full_path: String,
    pub file_size: u64,
    pub is_directory: bool,
    pub created: Option<Timestamp>,
    pub modified: Option<Timestamp>,
    pub accessed: Option<Timestamp>,
    pub attributes: u32,
}

/// What an `IndexEntry` holds, with its text as sequences of characters.
pub struct IndexEntryView {
    pub entry_number: u32,
    pub sequence_number: u16,
    pub parent_entry_number: u32,
    pub parent_sequence_number: u16,
    pub file_name: Seq<char>,
    pub full_path: Seq<char>,
    pub file_size: u64,
    pub is_directory: bool,
    pub created: Option<Timestamp>,
    pub modified: Option<Timestamp>,
    pub accessed: Option<Timestamp>,
    pub attributes: u32,
}

impl View for IndexEntry {
    type V = IndexEntryView;

    open spec fn view(&self) -> IndexEntryView {
        IndexEntryView {
            entry_number: self.entry_number,
            sequence_number: self.sequence_number,
            parent_entry_number: self.parent_entry_number,
            parent_sequence_number: self.parent_sequence_number,
            file_name: self.file_name@,
            full_path: self.full_path@,
            file_size: self.file_size,
            is_directory: self.is_directory,
            created: self.created,
            modified: self.modified,
            accessed: self.accessed,
            attributes: self.attributes,
        }
    }
}

/// Why a buffer, or a record of it, could not be decoded.
#[derive(Debug)]
pub struct ParseError {
    pub message: String,
    /// The byte position at which decoding failed, where it is known.
    pub offset: Option<u64>,
}

/// The result of decoding: what was decoded, or why it could not be.
pub type ParseResult<T> = Result<T, ParseError>;

/// What a `ParseError` holds, with its message as a sequence of characters.
pub struct ParseErrorView {
    pub message: Seq<char>,
    pub offset: Option<u64>,
}

impl View for ParseError {
    type V = ParseErrorView;

    open spec fn view(&self) -> ParseErrorView {
        ParseErrorView { message: self.message@, offset: self.offset }
    }
}

/// What a decoder of a stream of records finds at one position.
pub enum Step<T> {
    /// A record, and the position at which the next one starts.
    Record(T, int),
    /// The end of the stream.
    End,
    /// A record that cannot be decoded; the stream ends with the records
    /// before it.
    Failed(ParseErrorView),
}

impl ParseErrorView {
    /// The line that reports the error: the position in hexadecimal where it
    /// is known, then the message.
    pub open spec fn text(self) -> Seq<char> {
        match self.offset {
            Some(offset) => "Parse error at offset 0x"@ + hex_text(offset as int) + ": "@
                + self.message,
            None => "Parse error: "@ + self.message,
        }
    }
}

impl ParseError {
    /// An error with `message` at `offset`.
    pub fn new(message: &str, offset: Option<u64>) -> (r: ParseError)
        ensures
            r@ == (ParseErrorView { message: message@, offset }),
    {
        ParseError { message: String::from_str(message), offset }
    }

    /// The line that reports the error.
    pub fn to_string(&self) -> (r: String)
        ensures
            r@ == self@.text(),
    {
        match self.offset {
            Some(offset) => {
                let mut out = String::from_str("Parse error at offset 0x");
                push_hex(&mut out, offset);
                out.append(": ");
                out.append(self.message.as_str());
                out
            },
            None => {
                let mut out = String::from_str("Parse error: ");
                out.append(self.message.as_str());
                out
            },
        }
    }
}

} // verus!
