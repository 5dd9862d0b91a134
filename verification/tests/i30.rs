use mfte_rs::ntfs::i30::I30Parser;
use mfte_rs::ntfs::time::Timestamp;
use mfte_rs::ntfs::types::IndexEntry;

const FILETIME_2019: u64 = 132_000_000_000_000_000;
const SECONDS_2019: i64 = 1_555_526_400;

fn name_bytes(text: &str) -> Vec<u8> {
    let mut bytes = Vec::new();
    for unit in text.encode_utf16() {
        bytes.extend_from_slice(&unit.to_le_bytes());
    }
    bytes
}

fn index_header(entries_offset: u32) -> Vec<u8> {
    let mut bytes = Vec::new();
    bytes.extend_from_slice(b"INDX");
    bytes.extend_from_slice(&0x28u16.to_le_bytes());
    bytes.extend_from_slice(&9u16.to_le_bytes());
    bytes.extend_from_slice(&0x1122_3344u64.to_le_bytes());
    bytes.extend_from_slice(&0u64.to_le_bytes());
    bytes.extend_from_slice(&entries_offset.to_le_bytes());
    bytes.extend_from_slice(&0x200u32.to_le_bytes());
    bytes.extend_from_slice(&0xfe8u32.to_le_bytes());
    bytes.extend_from_slice(&0u32.to_le_bytes());
    bytes.resize(24 + entries_offset as usize, 0);
    bytes
}

fn index_entry_raw(
    file_reference: u64,
    entry_length: u16,
    flags: u32,
    parent_reference: u64,
    filetimes: [u64; 4],
    size: u64,
    attributes: u32,
    name_units: u8,
    name: &[u8],
) -> Vec<u8> {
    let mut bytes = Vec::new();
    bytes.extend_from_slice(&file_reference.to_le_bytes());
    bytes.extend_from_slice(&entry_length.to_le_bytes());
    bytes.extend_from_slice(&((66 + name.len()) as u16).to_le_bytes());
    bytes.extend_from_slice(&flags.to_le_bytes());
    bytes.extend_from_slice(&parent_reference.to_le_bytes());
    for filetime in filetimes {
        bytes.extend_from_slice(&filetime.to_le_bytes());
    }
    bytes.extend_from_slice(&8192u64.to_le_bytes());
    bytes.extend_from_slice(&size.to_le_bytes());
    bytes.extend_from_slice(&attributes.to_le_bytes());
    bytes.extend_from_slice(&0u32.to_le_bytes());
    bytes.push(name_units);
    bytes.push(1);
    bytes.extend_from_slice(name);
    bytes
}

fn index_entry(entry: u32, name: &str, attributes: u32) -> Vec<u8> {
    let name = name_bytes(name);
    let length = (82 + name.len() + 7) / 8 * 8;
    let mut bytes = index_entry_raw(
        (4u64 << 48) | entry as u64,
        length as u16,
        0,
        (5u64 << 48) | 5,
        [FILETIME_2019, FILETIME_2019 + 10_000_000, FILETIME_2019 + 20_000_000, FILETIME_2019 + 30_000_000],
        4321,
        attributes,
        (name.len() / 2) as u8,
        &name,
    );
    bytes.resize(length, 0);
    bytes
}

fn end_marker() -> Vec<u8> {
    let mut bytes = Vec::new();
    bytes.extend_from_slice(&0u64.to_le_bytes());
    bytes.extend_from_slice(&16u16.to_le_bytes());
    bytes.extend_from_slice(&0u16.to_le_bytes());
    bytes.extend_from_slice(&2u32.to_le_bytes());
    bytes
}

fn parsed(data: Vec<u8>) -> Vec<IndexEntry> {
    let mut parser = I30Parser::new(data);
    assert!(parser.parse().is_ok());
    parser.get_entries().to_vec()
}

#[test]
fn end_marker_yields_no_entries() {
    let mut data = index_header(0x28);
    data.extend_from_slice(&end_marker());
    let mut parser = I30Parser::new(data);
    assert!(parser.parse().is_ok());
    assert!(parser.get_entries().is_empty());
}

#[test]
fn end_marker_with_other_flags_still_ends() {
    let mut data = index_header(16);
    let mut marker = end_marker();
    marker[12..16].copy_from_slice(&3u32.to_le_bytes());
    data.extend_from_slice(&marker);
    data.extend_from_slice(&index_entry(9, "after", 0));
    assert!(parsed(data).is_empty());
}

#[test]
fn index_entries_are_decoded_in_order() {
    let mut data = index_header(0x28);
    data.extend_from_slice(&index_entry(100, "alpha.txt", 0x20));
    data.extend_from_slice(&index_entry(101, "Beta", 0x10));
    data.extend_from_slice(&index_entry(102, "γ.日本", 0x30));
    data.extend_from_slice(&end_marker());
    data.extend_from_slice(&index_entry(103, "hidden", 0));
    let entries = parsed(data);
    assert_eq!(entries.len(), 3);
    let first = &entries[0];
    assert_eq!(first.entry_number, 100);
    assert_eq!(first.sequence_number, 4);
    assert_eq!(first.parent_entry_number, 5);
    assert_eq!(first.parent_sequence_number, 5);
    assert_eq!(first.file_name, "alpha.txt");
    assert_eq!(first.full_path, "");
    assert_eq!(first.file_size, 4321);
    assert!(!first.is_directory);
    assert_eq!(first.attributes, 0x20);
    assert_eq!(first.created, Some(Timestamp { seconds: SECONDS_2019, nanos: 0 }));
    assert_eq!(first.modified, Some(Timestamp { seconds: SECONDS_2019 + 1, nanos: 0 }));
    assert_eq!(first.accessed, Some(Timestamp { seconds: SECONDS_2019 + 3, nanos: 0 }));
    assert_eq!(entries[1].file_name, "Beta");
    assert!(entries[1].is_directory);
    assert_eq!(entries[2].file_name, "γ.日本");
    assert!(entries[2].is_directory);
    assert_eq!(entries[2].attributes, 0x30);
}

#[test]
fn index_without_signature_fails() {
    let mut data = index_header(0x28);
    data[..4].copy_from_slice(b"FILE");
    data.extend_from_slice(&index_entry(100, "alpha.txt", 0x20));
    let mut parser = I30Parser::new(data);
    let err = parser.parse().unwrap_err();
    assert_eq!(err.message, "Invalid INDX signature");
    assert_eq!(err.offset, Some(0));
    assert_eq!(err.to_string(), "Parse error at offset 0x0: Invalid INDX signature");
    assert!(parser.get_entries().is_empty());
}

#[test]
fn index_too_short_for_signature_fails() {
    for data in [Vec::new(), b"IND".to_vec()] {
        let mut parser = I30Parser::new(data);
        let err = parser.parse().unwrap_err();
        assert_eq!(err.message, "Failed to read INDX signature");
        assert_eq!(err.offset, Some(0));
    }
}

#[test]
fn index_too_short_for_headers_fails() {
    let mut data = index_header(0x28);
    data.truncate(39);
    let mut parser = I30Parser::new(data);
    let err = parser.parse().unwrap_err();
    assert_eq!(err.message, "Failed to read INDX header");
    assert_eq!(err.offset, Some(0));
    let mut exact = index_header(0x10);
    exact.truncate(40);
    assert!(parsed(exact).is_empty());
}

#[test]
fn index_entries_offset_past_buffer_yields_nothing() {
    let mut data = index_header(0x10);
    data[24..28].copy_from_slice(&0xffff_fff0u32.to_le_bytes());
    data.extend_from_slice(&index_entry(1, "a", 0));
    assert!(parsed(data).is_empty());
}

#[test]
fn index_zero_entry_length_ends() {
    let mut data = index_header(0x10);
    data.extend_from_slice(&index_entry(1, "kept", 0));
    let mut zero = index_entry(2, "zero", 0);
    zero[8..10].copy_from_slice(&0u16.to_le_bytes());
    data.extend_from_slice(&zero);
    data.extend_from_slice(&index_entry(3, "after", 0));
    let entries = parsed(data);
    assert_eq!(entries.len(), 1);
    assert_eq!(entries[0].file_name, "kept");
}

#[test]
fn index_short_entry_header_ends() {
    let mut data = index_header(0x10);
    data.extend_from_slice(&index_entry(1, "kept", 0));
    data.extend_from_slice(&[0xffu8; 15]);
    assert_eq!(parsed(data).len(), 1);
}

#[test]
fn index_truncated_entry_is_a_record_error() {
    let mut data = index_header(0x10);
    data.extend_from_slice(&index_entry(1, "kept", 0));
    let second = data.len();
    let mut cut = index_entry(2, "lost", 0);
    cut.truncate(81);
    data.extend_from_slice(&cut);
    let mut parser = I30Parser::new(data);
    assert!(parser.parse().is_ok());
    assert_eq!(parser.get_entries().len(), 1);
    let err = parser.parse_entry(second).unwrap_err();
    assert_eq!(err.message, "Failed to read index entry");
    assert_eq!(err.offset, Some(second as u64));
}

#[test]
fn index_truncated_name_is_a_record_error() {
    let mut data = index_header(0x10);
    let start = data.len();
    let mut cut = index_entry(2, "longname", 0);
    cut.truncate(82 + 15);
    data.extend_from_slice(&cut);
    let mut parser = I30Parser::new(data);
    assert!(parser.parse().is_ok());
    assert!(parser.get_entries().is_empty());
    let err = parser.parse_entry(start).unwrap_err();
    assert_eq!(err.message, "Failed to read filename");
    assert_eq!(err.offset, Some(start as u64));
}

#[test]
fn index_entry_advances_by_its_length() {
    let mut data = index_header(0x10);
    let mut padded = index_entry(1, "a", 0);
    padded[8..10].copy_from_slice(&200u16.to_le_bytes());
    padded.resize(200, 0xcc);
    data.extend_from_slice(&padded);
    data.extend_from_slice(&index_entry(2, "b", 0));
    let entries = parsed(data.clone());
    assert_eq!(entries.len(), 2);
    assert_eq!(entries[1].file_name, "b");
    let parser = I30Parser::new(data);
    let (entry, length) = parser.parse_entry(40).unwrap().unwrap();
    assert_eq!(entry.file_name, "a");
    assert_eq!(length, 200);
    assert!(matches!(parser.parse_entry(usize::MAX), Ok(None)));
}

#[test]
fn index_zero_filetimes_are_no_timestamps() {
    let mut data = index_header(0x10);
    let name = name_bytes("z");
    let entry = index_entry_raw(7, 88, 0, 5, [0, 1, FILETIME_2019, 0], 0, 0, 1, &name);
    data.extend_from_slice(&entry);
    data.resize(40 + 88, 0);
    let entries = parsed(data);
    assert_eq!(entries.len(), 1);
    assert_eq!(entries[0].created, None);
    assert_eq!(entries[0].modified, None);
    assert_eq!(entries[0].accessed, None);
}

#[test]
fn index_malformed_name_is_invalid_name() {
    let mut data = index_header(0x10);
    let entry = index_entry_raw(7, 88, 0, 5, [0; 4], 0, 0, 1, &[0x00, 0xd8]);
    data.extend_from_slice(&entry);
    data.resize(40 + 88, 0);
    let entries = parsed(data);
    assert_eq!(entries[0].file_name, "INVALID_NAME");
}

#[test]
fn index_parse_twice_appends() {
    let mut data = index_header(0x10);
    data.extend_from_slice(&index_entry(1, "a", 0));
    let mut parser = I30Parser::new(data);
    parser.parse().unwrap();
    parser.parse().unwrap();
    assert_eq!(parser.get_entries().len(), 2);
}
