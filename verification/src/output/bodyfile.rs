//! Bodyfile lines: one line per record, of the form
//! `MD5|name|inode|mode_as_string|UID|GID|size|atime|mtime|ctime|crtime`.

use crate::ntfs::i30::{index_entry_views, ATTRIBUTE_DIRECTORY};
use crate::ntfs::mft::record_views;
use crate::ntfs::text::{decimal_text, push_decimal, push_signed_decimal};
use crate::ntfs::time::Timestamp;
use crate::ntfs::types::{
    IndexEntry,
    IndexEntryView,
    MftRecord,
    MftRecordView,
    UsnJournalEntry,
    UsnJournalEntryView,
};
use crate::ntfs::usn_journal::usn_entry_views;
use vstd::prelude::*;
use vstd::string::StringExecFns;

verus! {

/// The end of a line: LF, or CR and LF.
pub open spec fn newline(use_lf: bool) -> Seq<char> {
    if use_lf {
        "\n"@
    } else {
        "\r\n"@
    }
}

/// The seconds since 1970 of a timestamp; zero where there is none.
pub open spec fn unix_seconds(t: Option<Timestamp>) -> int {
    match t {
        Some(t) => t.seconds as int,
        None => 0,
    }
}

/// The mode column: `d` for a directory, else `r`, with fixed permissions.
pub open spec fn mode_text(is_directory: bool) -> Seq<char> {
    if is_directory {
        "d/r-xr-xr-x"@
    } else {
        "r/r-xr-xr-x"@
    }
}

/// The columns from the inode on, for a record with the given numbers.
pub open spec fn columns_text(
    inode: int,
    is_directory: bool,
    size: int,
    atime: int,
    mtime: int,
    ctime: int,
    crtime: int,
) -> Seq<char> {
    "|"@ + decimal_text(inode) + "|"@ + mode_text(is_directory) + "|0|0|"@ + decimal_text(size)
        + "|"@ + decimal_text(atime) + "|"@ + decimal_text(mtime) + "|"@ + decimal_text(ctime)
        + "|"@ + decimal_text(crtime)
}

/// The line of a record of the file table. Its name column is the drive,
/// `:/`, the parent path where there is one, and the file name.
pub open spec fn mft_line(record: MftRecordView, drive: Seq<char>, use_lf: bool) -> Seq<char> {
    "0|"@ + drive + ":/"@ + (if record.parent_path.len() == 0 {
        record.file_name
    } else {
        record.parent_path + "/"@ + record.file_name
    }) + columns_text(
        record.entry_number as int,
        record.is_directory,
        record.file_size as int,
        unix_seconds(record.last_access_0x10),
        unix_seconds(record.last_modified_0x10),
        unix_seconds(record.last_record_change_0x10),
        unix_seconds(record.created_0x10),
    ) + newline(use_lf)
}

/// The lines of the records that are in use, in order.
pub open spec fn mft_lines(records: Seq<MftRecordView>, drive: Seq<char>, use_lf: bool) -> Seq<
    char,
>
    decreases records.len(),
{
    if records.len() == 0 {
        Seq::empty()
    } else {
        mft_lines(records.drop_last(), drive, use_lf) + (if records.last().in_use {
            mft_line(records.last(), drive, use_lf)
        } else {
            Seq::empty()
        })
    }
}

/// The name column of an entry with its own full path: the drive, `:` and
/// the path, or the drive, `:/` and the file name where it has no path.
pub open spec fn name_column(drive: Seq<char>, full_path: Seq<char>, file_name: Seq<char>) -> Seq<
    char,
> {
    if full_path.len() == 0 {
        drive + ":/"@ + file_name
    } else {
        drive + ":"@ + full_path
    }
}

/// The line of a record of the change journal. All four times are the
/// record's timestamp, and the size is zero.
pub open spec fn usn_line(entry: UsnJournalEntryView, drive: Seq<char>, use_lf: bool) -> Seq<
    char,
> {
    "0|"@ + name_column(drive, entry.full_path, entry.file_name) + columns_text(
        entry.entry_number as int,
        entry.file_attributes & ATTRIBUTE_DIRECTORY != 0,
        0,
        unix_seconds(entry.timestamp),
        unix_seconds(entry.timestamp),
        unix_seconds(entry.timestamp),
        unix_seconds(entry.timestamp),
    ) + newline(use_lf)
}

/// The lines of the records of a change journal, in order.
pub open spec fn usn_lines(entries: Seq<UsnJournalEntryView>, drive: Seq<char>, use_lf: bool)
    -> Seq<char>
    decreases entries.len(),
{
    if entries.len() == 0 {
        Seq::empty()
    } else {
        usn_lines(entries.drop_last(), drive, use_lf) + usn_line(entries.last(), drive, use_lf)
    }
}

/// The line of an index entry. The time of the last change of the record is
/// that of the last modification.
pub open spec fn index_line(entry: IndexEntryView, drive: Seq<char>, use_lf: bool) -> Seq<char> {
    "0|"@ + name_column(drive, entry.full_path, entry.file_name) + columns_text(
        entry.entry_number as int,
        entry.is_directory,
        entry.file_size as int,
        unix_seconds(entry.accessed),
        unix_seconds(entry.modified),
        unix_seconds(entry.modified),
        unix_seconds(entry.created),
    ) + newline(use_lf)
}

/// The lines of the entries of an index block, in order.
pub open spec fn index_lines(entries: Seq<IndexEntryView>, drive: Seq<char>, use_lf: bool) -> Seq<
    char,
>
    decreases entries.len(),
{
    if entries.len() == 0 {
        Seq::empty()
    } else {
        index_lines(entries.drop_last(), drive, use_lf) + index_line(entries.last(), drive, use_lf)
    }
}

fn seconds_of(t: Option<Timestamp>) -> (r: i64)
    ensures
        r as int == unix_seconds(t),
{
    match t {
        Some(t) => t.seconds,
        None => 0,
    }
}

fn push_columns(
    out: &mut String,
    inode: u32,
    is_directory: bool,
    size: u64,
    atime: i64,
    mtime: i64,
    ctime: i64,
    crtime: i64,
)
    ensures
        final(out)@ == old(out)@ + columns_text(
            inode as int,
            is_directory,
            size as int,
            atime as int,
            mtime as int,
            ctime as int,
            crtime as int,
        ),
{
    out.append("|");
    push_decimal(out, inode as u64);
    out.append("|");
    if is_directory {
        out.append("d/r-xr-xr-x");
    } else {
        out.append("r/r-xr-xr-x");
    }
    out.append("|0|0|");
    push_decimal(out, size);
    out.append("|");
    push_signed_decimal(out, atime);
    out.append("|");
    push_signed_decimal(out, mtime);
    out.append("|");
    push_signed_decimal(out, ctime);
    out.append("|");
    push_signed_decimal(out, crtime);
    assert(out@ =~= old(out)@ + columns_text(
        inode as int,
        is_directory,
        size as int,
        atime as int,
        mtime as int,
        ctime as int,
        crtime as int,
    ));
}

fn push_newline(out: &mut String, use_lf: bool)
    ensures
        final(out)@ == old(out)@ + newline(use_lf),
{
    if use_lf {
        out.append("\n");
    } else {
        out.append("\r\n");
    }
}

fn push_name_column(out: &mut String, drive_letter: &str, full_path: &str, file_name: &str)
    ensures
        final(out)@ == old(out)@ + name_column(drive_letter@, full_path@, file_name@),
{
    out.append(drive_letter);
    if full_path.is_empty() {
        out.append(":/");
        out.append(file_name);
    } else {
        out.append(":");
        out.append(full_path);
    }
    assert(out@ =~= old(out)@ + name_column(drive_letter@, full_path@, file_name@));
}

/// The writer of bodyfile lines.
pub struct BodyfileOutput;

impl BodyfileOutput {
    /// Appends the line of one record of the file table.
    pub fn write_mft_record(record: &MftRecord, out: &mut String, drive_letter: &str, use_lf: bool)
        ensures
            final(out)@ == old(out)@ + mft_line(record@, drive_letter@, use_lf),
    {
        out.append("0|");
        out.append(drive_letter);
        out.append(":/");
        if !record.parent_path.as_str().is_empty() {
            out.append(record.parent_path.as_str());
            out.append("/");
        }
        out.append(record.file_name.as_str());
        push_columns(
            out,
            record.entry_number,
            record.is_directory,
            record.file_size,
            seconds_of(record.last_access_0x10),
            seconds_of(record.last_modified_0x10),
            seconds_of(record.last_record_change_0x10),
            seconds_of(record.created_0x10),
        );
        push_newline(out, use_lf);
        assert(out@ =~= old(out)@ + mft_line(record@, drive_letter@, use_lf));
    }

    /// Appends a line for each record that is in use, in order.
    pub fn write_mft_records(
        records: &[MftRecord],
        out: &mut String,
        drive_letter: &str,
        use_lf: bool,
    )
        ensures
            final(out)@ == old(out)@ + mft_lines(record_views(records@), drive_letter@, use_lf),
    {
        let n: usize = records.len();
        let mut i: usize = 0;
        proof {
            assert(record_views(records@).subrange(0, 0) =~= Seq::<MftRecordView>::empty());
            assert(out@ + Seq::<char>::empty() =~= out@);
        }
        while i < n
            invariant
                i <= n == records@.len(),
                out@ == old(out)@ + mft_lines(
                    record_views(records@).subrange(0, i as int),
                    drive_letter@,
                    use_lf,
                ),
            decreases n - i,
        {
            let ghost before = out@;
            proof {
                let next = record_views(records@).subrange(0, i + 1);
                assert(next.drop_last() =~= record_views(records@).subrange(0, i as int));
                assert(next.last() == records@[i as int]@);
            }
            if records[i].in_use {
                Self::write_mft_record(&records[i], out, drive_letter, use_lf);
            }
            proof {
                let done = mft_lines(
                    record_views(records@).subrange(0, i as int),
                    drive_letter@,
                    use_lf,
                );
                if records@[i as int].in_use {
                    assert(out@ =~= old(out)@ + (done + mft_line(
                        records@[i as int]@,
                        drive_letter@,
                        use_lf,
                    )));
                } else {
                    assert(out@ =~= old(out)@ + (done + Seq::<char>::empty()));
                }
            }
            i = i + 1;
        }
        proof {
            assert(record_views(records@).subrange(0, n as int) =~= record_views(records@));
        }
    }

    /// Appends the line of one record of the change journal.
    pub fn write_usn_journal_entry(
        entry: &UsnJournalEntry,
        out: &mut String,
        drive_letter: &str,
        use_lf: bool,
    )
        ensures
            final(out)@ == old(out)@ + usn_line(entry@, drive_letter@, use_lf),
    {
        out.append("0|");
        push_name_column(out, drive_letter, entry.full_path.as_str(), entry.file_name.as_str());
        let timestamp: i64 = seconds_of(entry.timestamp);
        push_columns(
            out,
            entry.entry_number,
            (entry.file_attributes & ATTRIBUTE_DIRECTORY) != 0,
            0,
            timestamp,
            timestamp,
            timestamp,
            timestamp,
        );
        push_newline(out, use_lf);
        assert(out@ =~= old(out)@ + usn_line(entry@, drive_letter@, use_lf));
    }

    /// Appends a line for each record of a change journal, in order.
    pub fn write_usn_journal_entries(
        entries: &[UsnJournalEntry],
        out: &mut String,
        drive_letter: &str,
        use_lf: bool,
    )
        ensures
            final(out)@ == old(out)@ + usn_lines(usn_entry_views(entries@), drive_letter@, use_lf),
    {
        let n: usize = entries.len();
        let mut i: usize = 0;
        proof {
            assert(usn_entry_views(entries@).subrange(0, 0) =~= Seq::<
                UsnJournalEntryView,
            >::empty());
            assert(out@ + Seq::<char>::empty() =~= out@);
        }
        while i < n
            invariant
                i <= n == entries@.len(),
                out@ == old(out)@ + usn_lines(
                    usn_entry_views(entries@).subrange(0, i as int),
                    drive_letter@,
                    use_lf,
                ),
            decreases n - i,
        {
            proof {
                let next = usn_entry_views(entries@).subrange(0, i + 1);
                assert(next.drop_last() =~= usn_entry_views(entries@).subrange(0, i as int));
                assert(next.last() == entries@[i as int]@);
            }
            Self::write_usn_journal_entry(&entries[i], out, drive_letter, use_lf);
            proof {
                let done = usn_lines(
                    usn_entry_views(entries@).subrange(0, i as int),
                    drive_letter@,
                    use_lf,
                );
                assert(out@ =~= old(out)@ + (done + usn_line(
                    entries@[i as int]@,
                    drive_letter@,
                    use_lf,
                )));
            }
            i = i + 1;
        }
        proof {
            assert(usn_entry_views(entries@).subrange(0, n as int) =~= usn_entry_views(entries@));
        }
    }

    /// Appends the line of one index entry.
    pub fn write_index_entry(entry: &IndexEntry, out: &mut String, drive_letter: &str, use_lf: bool)
        ensures
            final(out)@ == old(out)@ + index_line(entry@, drive_letter@, use_lf),
    {
        out.append("0|");
        push_name_column(out, drive_letter, entry.full_path.as_str(), entry.file_name.as_str());
        push_columns(
            out,
            entry.entry_number,
            entry.is_directory,
            entry.file_size,
            seconds_of(entry.accessed),
            seconds_of(entry.modified),
            seconds_of(entry.modified),
            seconds_of(entry.created),
        );
        push_newline(out, use_lf);
        assert(out@ =~= old(out)@ + index_line(entry@, drive_letter@, use_lf));
    }

    /// Appends a line for each entry of an index block, in order.
    pub fn write_index_entries(
        entries: &[IndexEntry],
        out: &mut String,
        drive_letter: &str,
        use_lf: bool,
    )
        ensures
            final(out)@ == old(out)@ + index_lines(
                index_entry_views(entries@),
                drive_letter@,
                use_lf,
            ),
    {
        let n: usize = entries.len();
        let mut i: usize = 0;
        proof {
            assert(index_entry_views(entries@).subrange(0, 0) =~= Seq::<IndexEntryView>::empty());
            assert(out@ + Seq::<char>::empty() =~= out@);
        }
        while i < n
            invariant
                i <= n == entries@.len(),
                out@ == old(out)@ + index_lines(
                    index_entry_views(entries@).subrange(0, i as int),
                    drive_letter@,
                    use_lf,
                ),
            decreases n - i,
        {
            proof {
                let next = index_entry_views(entries@).subrange(0, i + 1);
                assert(next.drop_last() =~= index_entry_views(entries@).subrange(0, i as int));
                assert(next.last() == entries@[i as int]@);
            }
            Self::write_index_entry(&entries[i], out, drive_letter, use_lf);
            proof {
                let done = index_lines(
                    index_entry_views(entries@).subrange(0, i as int),
                    drive_letter@,
                    use_lf,
                );
                assert(out@ =~= old(out)@ + (done + index_line(
                    entries@[i as int]@,
                    drive_letter@,
                    use_lf,
                )));
            }
            i = i + 1;
        }
        proof {
            assert(index_entry_views(entries@).subrange(0, n as int) =~= index_entry_views(
                entries@,
            ));
        }
    }
}

} // verus!
