use mfte_rs::ntfs::time::Timestamp;
use mfte_rs::ntfs::types::UsnJournalEntry;
use mfte_rs::ntfs::usn_journal::{format_usn_reason, UsnJournalParser};

const FILETIME_2019: u64 = 132_000_000_000_000_000;

fn name_bytes(text: &str) -> Vec<u8> {
    let mut bytes = Vec::new();
    for unit in text.encode_utf16() {
        bytes.extend_from_slice(&unit.to_le_bytes());
    }
    bytes
}

fn usn_record_raw(
    record_length: u32,
    file_reference: u64,
    parent_reference: u64,
    usn: u64,
    filetime: u64,
    reason: u32,
    attributes: u32,
    name_length: u16,
    name_offset: u16,
    tail: &[u8],
) -> Vec<u8> {
    let mut bytes = Vec::new();
    bytes.extend_from_slice(&record_length.to_le_bytes());
    bytes.extend_from_slice(&2u16.to_le_bytes());
    bytes.extend_from_slice(&0u16.to_le_bytes());
    bytes.extend_from_slice(&file_reference.to_le_bytes());
    bytes.extend_from_slice(&parent_reference.to_le_bytes());
    bytes.extend_from_slice(&usn.to_le_bytes());
    bytes.extend_from_slice(&filetime.to_le_bytes());
    bytes.extend_from_slice(&reason.to_le_bytes());
    bytes.extend_from_slice(&0x0bad_f00du32.to_le_bytes());
    bytes.extend_from_slice(&0x0000_0105u32.to_le_bytes());
    bytes.extend_from_slice(&attributes.to_le_bytes());
    bytes.extend_from_slice(&name_length.to_le_bytes());
    bytes.extend_from_slice(&name_offset.to_le_bytes());
    bytes.extend_from_slice(tail);
    bytes
}

fn usn_record(entry: u32, parent: u32, usn: u64, reason: u32, name: &str) -> Vec<u8> {
    let name = name_bytes(name);
    let length = (60 + name.len() + 7) / 8 * 8;
    let mut bytes = usn_record_raw(
        length as u32,
        (2u64 << 48) | entry as u64,
        (1u64 << 48) | parent as u64,
        usn,
        FILETIME_2019,
        reason,
        0x20,
        name.len() as u16,
        60,
        &name,
    );
    bytes.resize(length, 0);
    bytes
}

fn parsed(data: Vec<u8>) -> Vec<UsnJournalEntry> {
    let mut parser = UsnJournalParser::new(data);
    assert!(parser.parse().is_ok());
    parser.get_entries().to_vec()
}

#[test]
fn reason_create_and_extend() {
    assert_eq!(format_usn_reason(0x0000_0102), "DATA_EXTEND | FILE_CREATE");
    let entries = parsed(usn_record(1, 5, 0, 0x0000_0102, "a.txt"));
    assert_eq!(entries[0].reason, "DATA_EXTEND | FILE_CREATE");
}

#[test]
fn reason_single_flags() {
    let table: [(u32, &str); 21] = [
        (0x0000_0001, "DATA_OVERWRITE"),
        (0x0000_0002, "DATA_EXTEND"),
        (0x0000_0004, "DATA_TRUNCATION"),
        (0x0000_0010, "NAMED_DATA_OVERWRITE"),
        (0x0000_0020, "NAMED_DATA_EXTEND"),
        (0x0000_0040, "NAMED_DATA_TRUNCATION"),
        (0x0000_0100, "FILE_CREATE"),
        (0x0000_0200, "FILE_DELETE"),
        (0x0000_0400, "EA_CHANGE"),
        (0x0000_0800, "SECURITY_CHANGE"),
        (0x0000_1000, "RENAME_OLD_NAME"),
        (0x0000_2000, "RENAME_NEW_NAME"),
        (0x0000_4000, "INDEXABLE_CHANGE"),
        (0x0000_8000, "BASIC_INFO_CHANGE"),
        (0x0001_0000, "HARD_LINK_CHANGE"),
        (0x0002_0000, "COMPRESSION_CHANGE"),
        (0x0004_0000, "ENCRYPTION_CHANGE"),
        (0x0008_0000, "OBJECT_ID_CHANGE"),
        (0x0010_0000, "REPARSE_POINT_CHANGE"),
        (0x0020_0000, "STREAM_CHANGE"),
        (0x8000_0000, "CLOSE"),
    ];
    for (mask, name) in table {
        assert_eq!(format_usn_reason(mask), name);
    }
}

#[test]
fn reason_all_flags_in_table_order() {
    assert_eq!(
        format_usn_reason(0xffff_ffff),
        "DATA_OVERWRITE | DATA_EXTEND | DATA_TRUNCATION | NAMED_DATA_OVERWRITE | \
         NAMED_DATA_EXTEND | NAMED_DATA_TRUNCATION | FILE_CREATE | FILE_DELETE | EA_CHANGE | \
         SECURITY_CHANGE | RENAME_OLD_NAME | RENAME_NEW_NAME | INDEXABLE_CHANGE | \
         BASIC_INFO_CHANGE | HARD_LINK_CHANGE | COMPRESSION_CHANGE | ENCRYPTION_CHANGE | \
         OBJECT_ID_CHANGE | REPARSE_POINT_CHANGE | STREAM_CHANGE | CLOSE"
    );
    assert_eq!(format_usn_reason(0x803f_ff77), format_usn_reason(0xffff_ffff));
}

#[test]
fn reason_contains_every_set_flag_once() {
    assert_eq!(format_usn_reason(0x8000_0001), "DATA_OVERWRITE | CLOSE");
    assert_eq!(format_usn_reason(0x8000_2200), "FILE_DELETE | RENAME_NEW_NAME | CLOSE");
    assert_eq!(format_usn_reason(0x0000_0009), "DATA_OVERWRITE");
    assert_eq!(format_usn_reason(0x4000_0100), "FILE_CREATE");
}

#[test]
fn reason_without_known_flag_is_unknown() {
    assert_eq!(format_usn_reason(0), "UNKNOWN(0x00000000)");
    assert_eq!(format_usn_reason(0x0000_0008), "UNKNOWN(0x00000008)");
    assert_eq!(format_usn_reason(0x4000_0000), "UNKNOWN(0x40000000)");
    assert_eq!(format_usn_reason(0x7fc0_0088), "UNKNOWN(0x7fc00088)");
    assert_eq!(format_usn_reason(0x0040_0080), "UNKNOWN(0x00400080)");
}

#[test]
fn usn_parses_records_in_order() {
    let mut data = usn_record(100, 5, 4096, 0x100, "first.txt");
    let second_start = data.len() as u64;
    data.extend_from_slice(&usn_record(200, 100, 4200, 0x8000_0200, "second"));
    let entries = parsed(data);
    assert_eq!(entries.len(), 2);
    assert_eq!(entries[0].offset, 0);
    assert_eq!(entries[0].entry_number, 100);
    assert_eq!(entries[0].sequence_number, 2);
    assert_eq!(entries[0].parent_entry_number, 5);
    assert_eq!(entries[0].parent_sequence_number, 1);
    assert_eq!(entries[0].usn, 4096);
    assert_eq!(entries[0].timestamp, Some(Timestamp { seconds: 1_555_526_400, nanos: 0 }));
    assert_eq!(entries[0].file_name, "first.txt");
    assert_eq!(entries[0].extension, "txt");
    assert_eq!(entries[0].full_path, "");
    assert_eq!(entries[0].reason, "FILE_CREATE");
    assert_eq!(entries[0].file_attributes, 0x20);
    assert_eq!(entries[1].offset, second_start);
    assert_eq!(entries[1].entry_number, 200);
    assert_eq!(entries[1].parent_entry_number, 100);
    assert_eq!(entries[1].usn, 4200);
    assert_eq!(entries[1].file_name, "second");
    assert_eq!(entries[1].extension, "");
    assert_eq!(entries[1].reason, "FILE_DELETE | CLOSE");
}

#[test]
fn usn_offsets_strictly_increase_within_buffer() {
    let mut data = Vec::new();
    for i in 0..20u32 {
        data.extend_from_slice(&usn_record(i, 5, i as u64, 1, &"x".repeat(i as usize + 1)));
    }
    let length = data.len() as u64;
    let entries = parsed(data);
    assert_eq!(entries.len(), 20);
    for pair in entries.windows(2) {
        assert!(pair[0].offset < pair[1].offset);
    }
    for entry in &entries {
        assert!(entry.offset + 60 <= length);
    }
}

#[test]
fn usn_zero_length_ends_the_journal() {
    let mut data = usn_record(1, 5, 0, 1, "a");
    let first = data.len();
    data.extend_from_slice(&[0u8; 128]);
    data.extend_from_slice(&usn_record(2, 5, 0, 1, "b"));
    let parser = {
        let mut parser = UsnJournalParser::new(data);
        parser.parse().unwrap();
        parser
    };
    assert_eq!(parser.get_entries().len(), 1);
    assert!(matches!(parser.parse_entry(first), Ok(None)));
    assert!(matches!(parser.parse_entry(first + 8), Ok(None)));
    let after = parser.parse_entry(first + 128).unwrap().unwrap();
    assert_eq!(after.0.file_name, "b");
    assert_eq!(after.0.offset, (first + 128) as u64);
}

#[test]
fn usn_empty_and_short_input_yield_nothing() {
    assert!(parsed(Vec::new()).is_empty());
    let mut data = usn_record(1, 5, 0, 1, "a");
    data.truncate(59);
    assert!(parsed(data).is_empty());
}

#[test]
fn usn_length_within_header_is_a_record_error() {
    for length in [1u32, 8, 59, 60] {
        let mut data = usn_record(1, 5, 0, 1, "name");
        data[..4].copy_from_slice(&length.to_le_bytes());
        let mut parser = UsnJournalParser::new(data);
        assert!(parser.parse().is_ok());
        assert!(parser.get_entries().is_empty());
        let err = parser.parse_entry(0).unwrap_err();
        assert_eq!(err.message, "Invalid USN record length");
        assert_eq!(err.offset, Some(0));
    }
    let mut data = usn_record(1, 5, 0, 1, "name");
    data[..4].copy_from_slice(&61u32.to_le_bytes());
    assert_eq!(parsed(data).len(), 1);
}

#[test]
fn usn_record_error_keeps_earlier_entries() {
    let mut data = usn_record(1, 5, 0, 1, "kept");
    let second = data.len();
    let mut bad = usn_record(2, 5, 0, 1, "lost");
    bad[..4].copy_from_slice(&16u32.to_le_bytes());
    data.extend_from_slice(&bad);
    data.extend_from_slice(&usn_record(3, 5, 0, 1, "after"));
    let mut parser = UsnJournalParser::new(data);
    assert!(parser.parse().is_ok());
    assert_eq!(parser.get_entries().len(), 1);
    assert_eq!(parser.get_entries()[0].file_name, "kept");
    let err = parser.parse_entry(second).unwrap_err();
    assert_eq!(err.offset, Some(second as u64));
}

#[test]
fn usn_name_past_buffer_is_a_record_error() {
    let data = usn_record_raw(72, 1, 5, 0, FILETIME_2019, 1, 0, 16, 60, &[0x41, 0, 0x42, 0]);
    let mut parser = UsnJournalParser::new(data);
    assert!(parser.parse().is_ok());
    assert!(parser.get_entries().is_empty());
    let err = parser.parse_entry(0).unwrap_err();
    assert_eq!(err.message, "Failed to read USN file name");
    assert_eq!(err.offset, Some(0));
    let far = usn_record_raw(72, 1, 5, 0, FILETIME_2019, 1, 0, 0, 0xffff, &[0u8; 12]);
    let parser = UsnJournalParser::new(far);
    assert_eq!(parser.parse_entry(0).unwrap_err().message, "Failed to read USN file name");
}

#[test]
fn usn_name_is_read_at_its_offset() {
    let mut tail = vec![0xeeu8; 4];
    tail.extend_from_slice(&name_bytes("ab.c"));
    let data = usn_record_raw(72, 1, 5, 0, 0, 1, 0x10, 8, 64, &tail);
    let entries = parsed(data);
    assert_eq!(entries.len(), 1);
    assert_eq!(entries[0].file_name, "ab.c");
    assert_eq!(entries[0].extension, "c");
    assert_eq!(entries[0].timestamp, None);
    assert_eq!(entries[0].file_attributes, 0x10);
}

#[test]
fn usn_odd_name_length_ignores_last_byte() {
    let data = usn_record_raw(72, 1, 5, 0, 0, 1, 0, 5, 60, &[0x41, 0, 0x42, 0, 0x43, 0, 0, 0]);
    let entries = parsed(data);
    assert_eq!(entries[0].file_name, "AB");
}

#[test]
fn usn_malformed_name_is_invalid_name() {
    let data = usn_record_raw(64, 1, 5, 0, 0, 1, 0, 4, 60, &[0x00, 0xdc, 0x41, 0x00]);
    let entries = parsed(data);
    assert_eq!(entries.len(), 1);
    assert_eq!(entries[0].file_name, "INVALID_NAME");
    assert_eq!(entries[0].extension, "");
}

#[test]
fn usn_record_reaching_past_buffer_is_the_last() {
    let mut data = usn_record(1, 5, 0, 1, "a");
    let mut long = usn_record(2, 5, 0, 1, "b");
    long[..4].copy_from_slice(&100_000u32.to_le_bytes());
    data.extend_from_slice(&long);
    let entries = parsed(data);
    assert_eq!(entries.len(), 2);
    assert_eq!(entries[1].file_name, "b");
}

#[test]
fn usn_parse_entry_reports_record_length() {
    let data = usn_record(1, 5, 77, 1, "abcdef");
    let length = data.len() as u32;
    let parser = UsnJournalParser::new(data);
    let (entry, record_length) = parser.parse_entry(0).unwrap().unwrap();
    assert_eq!(record_length, length);
    assert_eq!(entry.usn, 77);
    assert!(matches!(parser.parse_entry(1_000_000), Ok(None)));
}

#[test]
fn usn_entry_number_keeps_low_32_bits() {
    let data = usn_record_raw(
        64,
        0xabcd_0012_0000_0007,
        0x0001_0000_0000_0005,
        1,
        FILETIME_2019,
        1,
        0,
        2,
        60,
        &[0x41, 0, 0, 0],
    );
    let entries = parsed(data);
    assert_eq!(entries[0].entry_number, 7);
    assert_eq!(entries[0].sequence_number, 0xabcd);
    assert_eq!(entries[0].parent_entry_number, 5);
    assert_eq!(entries[0].parent_sequence_number, 1);
}
