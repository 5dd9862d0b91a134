use mfte_rs::ntfs::detect::detect_file_type;
use mfte_rs::ntfs::reader::{
    file_reference_entry,
    file_reference_sequence,
    read_i8,
    read_u16,
    read_u32,
    read_u64,
    read_u8,
};
use mfte_rs::ntfs::time::{windows_filetime_to_datetime, Timestamp};
use mfte_rs::ntfs::types::{FileType, ParseError};
use mfte_rs::ntfs::utf16::{chars_from_utf16le, decode_name, string_from_utf16le};

const EPOCH_FILETIME: u64 = 116_444_736_000_000_000;

fn utf16le(text: &str) -> Vec<u8> {
    let mut bytes = Vec::new();
    for unit in text.encode_utf16() {
        bytes.push((unit & 0xff) as u8);
        bytes.push((unit >> 8) as u8);
    }
    bytes
}

#[test]
fn reads_are_little_endian() {
    let data = [0x01u8, 0x02, 0x03, 0x04, 0x05, 0x06, 0x07, 0x08, 0x80, 0x7f];
    assert_eq!(read_u8(&data, 1), 0x02);
    assert_eq!(read_u16(&data, 0), 0x0201);
    assert_eq!(read_u16(&data, 3), 0x0504);
    assert_eq!(read_u32(&data, 0), 0x0403_0201);
    assert_eq!(read_u32(&data, 2), 0x0605_0403);
    assert_eq!(read_u64(&data, 0), 0x0807_0605_0403_0201);
    assert_eq!(read_u64(&data, 2), 0x7f80_0807_0605_0403);
}

#[test]
fn signed_byte_is_twos_complement() {
    let data = [0x00u8, 0x7f, 0x80, 0xf6, 0xff];
    assert_eq!(read_i8(&data, 0), 0);
    assert_eq!(read_i8(&data, 1), 127);
    assert_eq!(read_i8(&data, 2), -128);
    assert_eq!(read_i8(&data, 3), -10);
    assert_eq!(read_i8(&data, 4), -1);
}

#[test]
fn file_reference_splits_entry_and_sequence() {
    let reference: u64 = 0x0005_0000_0000_0010;
    assert_eq!(file_reference_entry(reference), 0x10);
    assert_eq!(file_reference_sequence(reference), 5);
    assert_eq!(file_reference_entry(0), 0);
    assert_eq!(file_reference_sequence(0), 0);
    assert_eq!(file_reference_entry(u64::MAX), u32::MAX);
    assert_eq!(file_reference_sequence(u64::MAX), u16::MAX);
}

#[test]
fn file_reference_entry_keeps_low_32_bits() {
    let reference: u64 = 0x0001_1234_0000_0005;
    assert_eq!(file_reference_entry(reference), 5);
    assert_eq!(file_reference_sequence(reference), 1);
}

#[test]
fn filetime_zero_is_no_timestamp() {
    assert_eq!(windows_filetime_to_datetime(0), None);
}

#[test]
fn filetime_before_1970_is_no_timestamp() {
    assert_eq!(windows_filetime_to_datetime(1), None);
    assert_eq!(windows_filetime_to_datetime(EPOCH_FILETIME - 1), None);
    assert_eq!(windows_filetime_to_datetime(EPOCH_FILETIME - 10_000_000), None);
}

#[test]
fn filetime_at_1970_is_the_epoch() {
    assert_eq!(
        windows_filetime_to_datetime(EPOCH_FILETIME),
        Some(Timestamp { seconds: 0, nanos: 0 })
    );
    assert_eq!(
        windows_filetime_to_datetime(EPOCH_FILETIME + 1),
        Some(Timestamp { seconds: 0, nanos: 100 })
    );
}

#[test]
fn filetime_converts_seconds_and_nanos() {
    assert_eq!(
        windows_filetime_to_datetime(132_000_000_000_000_000),
        Some(Timestamp { seconds: 1_555_526_400, nanos: 0 })
    );
    assert_eq!(
        windows_filetime_to_datetime(132_000_000_001_234_567),
        Some(Timestamp { seconds: 1_555_526_400, nanos: 123_456_700 })
    );
}

#[test]
fn filetime_maximum_converts() {
    assert_eq!(
        windows_filetime_to_datetime(u64::MAX),
        Some(Timestamp { seconds: 1_833_029_933_770, nanos: 955_161_500 })
    );
}

#[test]
fn filetime_matches_chrono() {
    let t = windows_filetime_to_datetime(132_000_000_001_234_567).unwrap();
    let utc = chrono::DateTime::<chrono::Utc>::from_timestamp(t.seconds, t.nanos).unwrap();
    assert_eq!(utc.to_rfc3339(), "2019-04-17T18:40:00.123456700+00:00");
}

#[test]
fn filetime_round_trips() {
    let samples = [
        EPOCH_FILETIME,
        EPOCH_FILETIME + 1,
        132_000_000_000_000_000,
        132_000_000_001_234_567,
        u64::MAX,
    ];
    for filetime in samples {
        let t = windows_filetime_to_datetime(filetime).unwrap();
        let back = (t.seconds as u128 + 11_644_473_600) * 10_000_000 + (t.nanos as u128) / 100;
        assert_eq!(back, filetime as u128);
    }
}

#[test]
fn utf16_decodes_text() {
    assert_eq!(string_from_utf16le(&utf16le("Foo.txt")), Some("Foo.txt".to_string()));
    assert_eq!(string_from_utf16le(&utf16le("")), Some(String::new()));
    assert_eq!(string_from_utf16le(&utf16le("päivä.日本語")), Some("päivä.日本語".to_string()));
}

#[test]
fn utf16_decodes_surrogate_pairs() {
    let bytes = [0x3d, 0xd8, 0x00, 0xde, 0x41, 0x00];
    assert_eq!(string_from_utf16le(&bytes), Some("\u{1F600}A".to_string()));
    assert_eq!(chars_from_utf16le(&bytes), Some(vec!['\u{1F600}', 'A']));
    let last = [0xff, 0xdb, 0xff, 0xdf];
    assert_eq!(string_from_utf16le(&last), Some("\u{10FFFF}".to_string()));
    let first = [0x00, 0xd8, 0x00, 0xdc];
    assert_eq!(string_from_utf16le(&first), Some("\u{10000}".to_string()));
}

#[test]
fn utf16_round_trips_text() {
    for text in ["", "a", "Foo.txt", "\u{FFFF}\u{10000}\u{D7FF}\u{E000}", "😀 mixed 文字"] {
        assert_eq!(string_from_utf16le(&utf16le(text)), Some(text.to_string()));
        assert_eq!(decode_name(&utf16le(text)).0, text);
    }
}

#[test]
fn utf16_ignores_trailing_odd_byte() {
    assert_eq!(string_from_utf16le(&[0x41, 0x00, 0x42]), Some("A".to_string()));
    assert_eq!(string_from_utf16le(&[0x41]), Some(String::new()));
}

#[test]
fn utf16_rejects_lone_surrogates() {
    assert_eq!(string_from_utf16le(&[0x00, 0xd8]), None);
    assert_eq!(string_from_utf16le(&[0x00, 0xdc]), None);
    assert_eq!(string_from_utf16le(&[0x00, 0xd8, 0x41, 0x00]), None);
    assert_eq!(string_from_utf16le(&[0x00, 0xdc, 0x00, 0xd8]), None);
    assert_eq!(string_from_utf16le(&[0x41, 0x00, 0x00, 0xd8, 0x00, 0xd8, 0x00, 0xdc]), None);
    assert_eq!(chars_from_utf16le(&[0x00, 0xd8]), None);
}

#[test]
fn utf16_agrees_with_std() {
    let cases: [&[u16]; 6] = [
        &[0x0041, 0x0042],
        &[0xd83d, 0xde00],
        &[0xd800],
        &[0xdc00, 0x0041],
        &[0xd800, 0xd800, 0xdc00],
        &[0xdbff, 0xdfff, 0xffff],
    ];
    for units in cases {
        let mut bytes = Vec::new();
        for unit in units {
            bytes.push((unit & 0xff) as u8);
            bytes.push((unit >> 8) as u8);
        }
        assert_eq!(string_from_utf16le(&bytes), String::from_utf16(units).ok());
    }
}

#[test]
fn malformed_name_is_invalid_name() {
    let (name, extension) = decode_name(&[0x00, 0xd8]);
    assert_eq!(name, "INVALID_NAME");
    assert_eq!(extension, "");
}

#[test]
fn name_extension_follows_last_dot() {
    assert_eq!(decode_name(&utf16le("Foo.txt")), ("Foo.txt".to_string(), "txt".to_string()));
    assert_eq!(decode_name(&utf16le("a.tar.gz")), ("a.tar.gz".to_string(), "gz".to_string()));
    assert_eq!(decode_name(&utf16le("noext")), ("noext".to_string(), String::new()));
    assert_eq!(decode_name(&utf16le("trailing.")), ("trailing.".to_string(), String::new()));
    assert_eq!(decode_name(&utf16le(".hidden")), (".hidden".to_string(), "hidden".to_string()));
    assert_eq!(decode_name(&utf16le("")), (String::new(), String::new()));
    assert_eq!(decode_name(&utf16le("x.日本")), ("x.日本".to_string(), "日本".to_string()));
}

#[test]
fn detects_mft_by_signature() {
    assert_eq!(detect_file_type(b"FILE"), FileType::Mft);
    let mut data = vec![0u8; 1024];
    data[..4].copy_from_slice(b"FILE");
    assert_eq!(detect_file_type(&data), FileType::Mft);
}

#[test]
fn detects_index_by_signature() {
    assert_eq!(detect_file_type(b"INDX"), FileType::I30);
}

#[test]
fn detects_boot_sector_by_oem_id() {
    let mut data = vec![0u8; 512];
    data[0] = 0xeb;
    data[1] = 0x52;
    data[2] = 0x90;
    data[3..11].copy_from_slice(b"NTFS    ");
    assert_eq!(detect_file_type(&data), FileType::Boot);
    data.truncate(511);
    assert_eq!(detect_file_type(&data), FileType::Unknown);
    let mut other = vec![0u8; 512];
    other[3..11].copy_from_slice(b"NTFS   \0");
    assert_eq!(detect_file_type(&other), FileType::Unknown);
}

#[test]
fn detects_usn_journal_by_first_length() {
    let mut data = vec![0u8; 60];
    data[0] = 96;
    assert_eq!(detect_file_type(&data), FileType::UsnJournal);
    data[0] = 61;
    assert_eq!(detect_file_type(&data), FileType::UsnJournal);
    data[0] = 60;
    assert_eq!(detect_file_type(&data), FileType::Unknown);
    data[0] = 0xff;
    data[1] = 0xff;
    assert_eq!(detect_file_type(&data), FileType::UsnJournal);
    data[0] = 0;
    data[1] = 0;
    data[2] = 1;
    assert_eq!(detect_file_type(&data), FileType::Unknown);
    let mut short = vec![0u8; 59];
    short[0] = 96;
    assert_eq!(detect_file_type(&short), FileType::Unknown);
}

#[test]
fn detects_nothing_in_short_or_plain_data() {
    assert_eq!(detect_file_type(&[]), FileType::Unknown);
    assert_eq!(detect_file_type(b"FIL"), FileType::Unknown);
    assert_eq!(detect_file_type(&[0u8; 4096]), FileType::Unknown);
}

#[test]
fn signature_wins_over_boot_sector() {
    let mut data = vec![0u8; 512];
    data[..4].copy_from_slice(b"FILE");
    data[3..11].copy_from_slice(b"NTFS    ");
    data[..3].copy_from_slice(b"FIL");
    assert_eq!(detect_file_type(&data), FileType::Boot);
    data[3] = b'E';
    assert_eq!(detect_file_type(&data), FileType::Mft);
}

#[test]
fn file_type_names() {
    assert_eq!(FileType::Mft.to_string(), "MFT");
    assert_eq!(FileType::LogFile.to_string(), "LogFile");
    assert_eq!(FileType::UsnJournal.to_string(), "USN Journal");
    assert_eq!(FileType::Boot.to_string(), "Boot");
    assert_eq!(FileType::Sds.to_string(), "SDS");
    assert_eq!(FileType::I30.to_string(), "I30");
    assert_eq!(FileType::Unknown.to_string(), "Unknown");
}

#[test]
fn parse_error_text_with_offset() {
    let e = ParseError::new("bad record", Some(0x1f4));
    assert_eq!(e.message, "bad record");
    assert_eq!(e.offset, Some(500));
    assert_eq!(e.to_string(), "Parse error at offset 0x1f4: bad record");
    assert_eq!(ParseError::new("x", Some(0)).to_string(), "Parse error at offset 0x0: x");
    assert_eq!(
        ParseError::new("x", Some(u64::MAX)).to_string(),
        "Parse error at offset 0xffffffffffffffff: x"
    );
    assert_eq!(ParseError::new("x", Some(0xabcdef)).to_string(), "Parse error at offset 0xabcdef: x");
}

#[test]
fn parse_error_text_without_offset() {
    let e = ParseError::new("Boot sector data too small", None);
    assert_eq!(e.to_string(), "Parse error: Boot sector data too small");
}

#[test]
fn file_type_codes() {
    assert_eq!(FileType::Mft.code(), 0);
    assert_eq!(FileType::LogFile.code(), 1);
    assert_eq!(FileType::UsnJournal.code(), 2);
    assert_eq!(FileType::Boot.code(), 3);
    assert_eq!(FileType::Sds.code(), 4);
    assert_eq!(FileType::I30.code(), 5);
    assert_eq!(FileType::Unknown.code(), 99);
}
