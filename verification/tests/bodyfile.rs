use mfte_rs::ntfs::i30::I30Parser;
use mfte_rs::ntfs::mft::MftParser;
use mfte_rs::ntfs::time::Timestamp;
use mfte_rs::ntfs::types::{IndexEntry, MftRecord, UsnJournalEntry};
use mfte_rs::ntfs::text::{push_decimal, push_hex, push_hex_fixed, push_signed_decimal};
use mfte_rs::output::bodyfile::BodyfileOutput;

fn at(seconds: i64) -> Option<Timestamp> {
    Some(Timestamp { seconds, nanos: 500 })
}

fn record(entry: u32, name: &str, parent_path: &str) -> MftRecord {
    let mut parser = MftParser::new({
        let mut slot = vec![0u8; 1024];
        slot[..4].copy_from_slice(b"FILE");
        slot[20] = 0x38;
        slot[22] = 1;
        slot[0x38..0x3c].copy_from_slice(&[0xff; 4]);
        slot
    });
    parser.parse().unwrap();
    let mut record = parser.get_records()[0].clone();
    record.entry_number = entry;
    record.file_name = name.to_string();
    record.parent_path = parent_path.to_string();
    record
}

fn usn(entry: u32, name: &str, full_path: &str, attributes: u32, timestamp: Option<Timestamp>) -> UsnJournalEntry {
    UsnJournalEntry {
        offset: 0,
        timestamp,
        entry_number: entry,
        sequence_number: 1,
        parent_entry_number: 5,
        parent_sequence_number: 5,
        file_name: name.to_string(),
        full_path: full_path.to_string(),
        extension: String::new(),
        reason: "CLOSE".to_string(),
        file_attributes: attributes,
        usn: 0,
    }
}

fn index(entry: u32, name: &str, full_path: &str, is_directory: bool) -> IndexEntry {
    IndexEntry {
        entry_number: entry,
        sequence_number: 1,
        parent_entry_number: 5,
        parent_sequence_number: 5,
        file_name: name.to_string(),
        full_path: full_path.to_string(),
        file_size: 77,
        is_directory,
        created: at(10),
        modified: at(20),
        accessed: at(30),
        attributes: 0,
    }
}

#[test]
fn decimal_and_hex_text() {
    let mut out = String::from(">");
    push_decimal(&mut out, 0);
    out.push(' ');
    push_decimal(&mut out, 9);
    out.push(' ');
    push_decimal(&mut out, 10);
    out.push(' ');
    push_decimal(&mut out, 1_234_567_890);
    out.push(' ');
    push_decimal(&mut out, u64::MAX);
    assert_eq!(out, ">0 9 10 1234567890 18446744073709551615");
    let mut out = String::new();
    push_signed_decimal(&mut out, -1);
    out.push(' ');
    push_signed_decimal(&mut out, i64::MIN);
    out.push(' ');
    push_signed_decimal(&mut out, i64::MAX);
    out.push(' ');
    push_signed_decimal(&mut out, 0);
    assert_eq!(out, "-1 -9223372036854775808 9223372036854775807 0");
    let mut out = String::new();
    push_hex(&mut out, 0);
    out.push(' ');
    push_hex(&mut out, 0xbeef);
    out.push(' ');
    push_hex_fixed(&mut out, 0xbeef, 8);
    out.push(' ');
    push_hex_fixed(&mut out, 0x1_2345, 4);
    out.push(' ');
    push_hex_fixed(&mut out, 7, 0);
    assert_eq!(out, "0 beef 0000beef 2345 ");
}

#[test]
fn bodyfile_mft_line_in_root() {
    let mut r = record(42, "file.txt", "");
    r.file_size = 1000;
    r.last_access_0x10 = at(1);
    r.last_modified_0x10 = at(2);
    r.last_record_change_0x10 = at(3);
    r.created_0x10 = at(4);
    let mut out = String::new();
    BodyfileOutput::write_mft_record(&r, &mut out, "C", false);
    assert_eq!(out, "0|C:/file.txt|42|r/r-xr-xr-x|0|0|1000|1|2|3|4\r\n");
}

#[test]
fn bodyfile_mft_line_with_parent_path() {
    let mut r = record(7, "notes", "Users/alice");
    r.is_directory = true;
    r.created_0x10 = at(1_555_526_400);
    let mut out = String::from("head\n");
    BodyfileOutput::write_mft_record(&r, &mut out, "D", true);
    assert_eq!(out, "head\n0|D:/Users/alice/notes|7|d/r-xr-xr-x|0|0|0|0|0|0|1555526400\n");
}

#[test]
fn bodyfile_mft_skips_records_not_in_use() {
    let mut unused = record(2, "gone", "");
    unused.in_use = false;
    let records = vec![record(1, "a", ""), unused, record(3, "c", "p")];
    let mut out = String::new();
    BodyfileOutput::write_mft_records(&records, &mut out, "C", true);
    assert_eq!(
        out,
        "0|C:/a|1|r/r-xr-xr-x|0|0|0|0|0|0|0\n0|C:/p/c|3|r/r-xr-xr-x|0|0|0|0|0|0|0\n"
    );
    let mut empty = String::new();
    BodyfileOutput::write_mft_records(&[], &mut empty, "C", true);
    assert_eq!(empty, "");
}

#[test]
fn bodyfile_mft_negative_seconds() {
    let mut r = record(1, "old", "");
    r.last_access_0x10 = Some(Timestamp { seconds: -5, nanos: 0 });
    let mut out = String::new();
    BodyfileOutput::write_mft_record(&r, &mut out, "C", true);
    assert_eq!(out, "0|C:/old|1|r/r-xr-xr-x|0|0|0|-5|0|0|0\n");
}

#[test]
fn bodyfile_usn_lines() {
    let entries = vec![
        usn(9, "a.txt", "", 0x20, at(100)),
        usn(10, "dir", "/Users/dir", 0x10, at(200)),
        usn(11, "none", "", 0x30, None),
    ];
    let mut out = String::new();
    BodyfileOutput::write_usn_journal_entries(&entries, &mut out, "C", false);
    assert_eq!(
        out,
        "0|C:/a.txt|9|r/r-xr-xr-x|0|0|0|100|100|100|100\r\n\
         0|C:/Users/dir|10|d/r-xr-xr-x|0|0|0|200|200|200|200\r\n\
         0|C:/none|11|d/r-xr-xr-x|0|0|0|0|0|0|0\r\n"
    );
    let mut one = String::new();
    BodyfileOutput::write_usn_journal_entry(&entries[0], &mut one, "E", true);
    assert_eq!(one, "0|E:/a.txt|9|r/r-xr-xr-x|0|0|0|100|100|100|100\n");
}

#[test]
fn bodyfile_index_lines() {
    let entries = vec![index(5, "x", "", false), index(6, "y", "/p/y", true)];
    let mut out = String::new();
    BodyfileOutput::write_index_entries(&entries, &mut out, "C", true);
    assert_eq!(
        out,
        "0|C:/x|5|r/r-xr-xr-x|0|0|77|30|20|20|10\n0|C:/p/y|6|d/r-xr-xr-x|0|0|77|30|20|20|10\n"
    );
    let mut one = String::new();
    BodyfileOutput::write_index_entry(&entries[1], &mut one, "Z", false);
    assert_eq!(one, "0|Z:/p/y|6|d/r-xr-xr-x|0|0|77|30|20|20|10\r\n");
}

#[test]
fn bodyfile_of_parsed_index_block() {
    let mut data = Vec::new();
    data.extend_from_slice(b"INDX");
    data.resize(24, 0);
    data.extend_from_slice(&16u32.to_le_bytes());
    data.resize(40, 0);
    let mut entry = vec![0u8; 88];
    entry[0] = 33;
    entry[8] = 88;
    entry[24..32].copy_from_slice(&116_444_736_010_000_000u64.to_le_bytes());
    entry[32..40].copy_from_slice(&116_444_736_020_000_000u64.to_le_bytes());
    entry[48..56].copy_from_slice(&116_444_736_030_000_000u64.to_le_bytes());
    entry[64] = 9;
    entry[80] = 2;
    entry[82] = b'o';
    entry[84] = b'k';
    data.extend_from_slice(&entry);
    let mut parser = I30Parser::new(data);
    parser.parse().unwrap();
    let mut out = String::new();
    BodyfileOutput::write_index_entries(parser.get_entries(), &mut out, "C", true);
    assert_eq!(out, "0|C:/ok|33|r/r-xr-xr-x|0|0|9|3|2|2|1\n");
}
