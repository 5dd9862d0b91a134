//! The change journal: length-prefixed records, each a header of sixty bytes
//! and a UTF-16LE file name.

use crate::ntfs::reader::{
    file_reference_entry,
    file_reference_sequence,
    le_u16,
    le_u32,
    le_u64,
    read_u16,
    read_u32,
    read_u64,
    reference_entry,
    reference_sequence,
};
use crate::ntfs::text::{hex_fixed, push_hex_fixed};
use crate::ntfs::time::{filetime_instant, windows_filetime_to_datetime};
use crate::ntfs::types::{
    ParseError,
    ParseErrorView,
    ParseResult,
    Step,
    UsnJournalEntry,
    UsnJournalEntryView,
};
use crate::ntfs::utf16::{decode_name, decoded_extension, decoded_name};
use vstd::prelude::*;
use vstd::slice::slice_subrange;
use vstd::string::StringExecFns;

verus! {

/// The number of bytes of a record's header.
pub const USN_HEADER_SIZE: usize = 60;

/// The number of reason flags that have a name.
pub const USN_REASON_COUNT: usize = 21;

/// The bit of the `i`-th reason flag, in table order.
pub open spec fn reason_mask(i: int) -> u32 {
    if i == 0 {
        0x0000_0001
    } else if i == 1 {
        0x0000_0002
    } else if i == 2 {
        0x0000_0004
    } else if i == 3 {
        0x0000_0010
    } else if i == 4 {
        0x0000_0020
    } else if i == 5 {
        0x0000_0040
    } else if i == 6 {
        0x0000_0100
    } else if i == 7 {
        0x0000_0200
    } else if i == 8 {
        0x0000_0400
    } else if i == 9 {
        0x0000_0800
    } else if i == 10 {
        0x0000_1000
    } else if i == 11 {
        0x0000_2000
    } else if i == 12 {
        0x0000_4000
    } else if i == 13 {
        0x0000_8000
    } else if i == 14 {
        0x0001_0000
    } else if i == 15 {
        0x0002_0000
    } else if i == 16 {
        0x0004_0000
    } else if i == 17 {
        0x0008_0000
    } else if i == 18 {
        0x0010_0000
    } else if i == 19 {
        0x0020_0000
    } else {
        0x8000_0000
    }
}

/// The name of the `i`-th reason flag, in table order.
pub open spec fn reason_name(i: int) -> Seq<char> {
    if i == 0 {
        "DATA_OVERWRITE"@
    } else if i == 1 {
        "DATA_EXTEND"@
    } else if i == 2 {
        "DATA_TRUNCATION"@
    } else if i == 3 {
        "NAMED_DATA_OVERWRITE"@
    } else if i == 4 {
        "NAMED_DATA_EXTEND"@
    } else if i == 5 {
        "NAMED_DATA_TRUNCATION"@
    } else if i == 6 {
        "FILE_CREATE"@
    } else if i == 7 {
        "FILE_DELETE"@
    } else if i == 8 {
        "EA_CHANGE"@
    } else if i == 9 {
        "SECURITY_CHANGE"@
    } else if i == 10 {
        "RENAME_OLD_NAME"@
    } else if i == 11 {
        "RENAME_NEW_NAME"@
    } else if i == 12 {
        "INDEXABLE_CHANGE"@
    } else if i == 13 {
        "BASIC_INFO_CHANGE"@
    } else if i == 14 {
        "HARD_LINK_CHANGE"@
    } else if i == 15 {
        "COMPRESSION_CHANGE"@
    } else if i == 16 {
        "ENCRYPTION_CHANGE"@
    } else if i == 17 {
        "OBJECT_ID_CHANGE"@
    } else if i == 18 {
        "REPARSE_POINT_CHANGE"@
    } else if i == 19 {
        "STREAM_CHANGE"@
    } else {
        "CLOSE"@
    }
}

/// The names of the flags that are set in `reason`, among the first `count`
/// of the table, in table order.
pub open spec fn reason_tokens(reason: u32, count: nat) -> Seq<Seq<char>>
    decreases count,
{
    if count == 0 {
        Seq::empty()
    } else {
        let before = reason_tokens(reason, (count - 1) as nat);
        if reason & reason_mask(count - 1) != 0 {
            before.push(reason_name(count - 1))
        } else {
            before
        }
    }
}

/// `tokens` in order, with `separator` between each two.
pub open spec fn joined(tokens: Seq<Seq<char>>, separator: Seq<char>) -> Seq<char>
    decreases tokens.len(),
{
    if tokens.len() == 0 {
        Seq::empty()
    } else if tokens.len() == 1 {
        tokens[0]
    } else {
        joined(tokens.drop_last(), separator) + separator + tokens.last()
    }
}

/// The text for a reason bit field: the names of its known flags in table
/// order, joined by ` | `; where it has none, `UNKNOWN(0x` with the value in
/// eight hexadecimal digits and `)`.
pub open spec fn reason_text(reason: u32) -> Seq<char> {
    let tokens = reason_tokens(reason, USN_REASON_COUNT as nat);
    if tokens.len() == 0 {
        "UNKNOWN(0x"@ + hex_fixed(reason as int, 8) + ")"@
    } else {
        joined(tokens, " | "@)
    }
}

fn reason_flag(i: usize) -> (r: (u32, &'static str))
    requires
        i < USN_REASON_COUNT,
    ensures
        r.0 == reason_mask(i as int),
        r.1@ == reason_name(i as int),
{
    if i == 0 {
        (0x0000_0001, "DATA_OVERWRITE")
    } else if i == 1 {
        (0x0000_0002, "DATA_EXTEND")
    } else if i == 2 {
        (0x0000_0004, "DATA_TRUNCATION")
    } else if i == 3 {
        (0x0000_0010, "NAMED_DATA_OVERWRITE")
    } else if i == 4 {
        (0x0000_0020, "NAMED_DATA_EXTEND")
    } else if i == 5 {
        (0x0000_0040, "NAMED_DATA_TRUNCATION")
    } else if i == 6 {
        (0x0000_0100, "FILE_CREATE")
    } else if i == 7 {
        (0x0000_0200, "FILE_DELETE")
    } else if i == 8 {
        (0x0000_0400, "EA_CHANGE")
    } else if i == 9 {
        (0x0000_0800, "SECURITY_CHANGE")
    } else if i == 10 {
        (0x0000_1000, "RENAME_OLD_NAME")
    } else if i == 11 {
        (0x0000_2000, "RENAME_NEW_NAME")
    } else if i == 12 {
        (0x0000_4000, "INDEXABLE_CHANGE")
    } else if i == 13 {
        (0x0000_8000, "BASIC_INFO_CHANGE")
    } else if i == 14 {
        (0x0001_0000, "HARD_LINK_CHANGE")
    } else if i == 15 {
        (0x0002_0000, "COMPRESSION_CHANGE")
    } else if i == 16 {
        (0x0004_0000, "ENCRYPTION_CHANGE")
    } else if i == 17 {
        (0x0008_0000, "OBJECT_ID_CHANGE")
    } else if i == 18 {
        (0x0010_0000, "REPARSE_POINT_CHANGE")
    } else if i == 19 {
        (0x0020_0000, "STREAM_CHANGE")
    } else {
        (0x8000_0000, "CLOSE")
    }
}

/// Writes out a reason bit field.
pub fn format_usn_reason(reason: u32) -> (r: String)
    ensures
        r@ == reason_text(reason),
{
    let mut out = String::new();
    let mut any: bool = false;
    let mut i: usize = 0;
    while i < USN_REASON_COUNT
        invariant
            i <= USN_REASON_COUNT,
            any == (reason_tokens(reason, i as nat).len() > 0),
            out@ == joined(reason_tokens(reason, i as nat), " | "@),
        decreases USN_REASON_COUNT - i,
    {
        let (mask, name) = reason_flag(i);
        if reason & mask != 0 {
            proof {
                let before = reason_tokens(reason, i as nat);
                let after = reason_tokens(reason, (i + 1) as nat);
                assert(after == before.push(reason_name(i as int)));
                assert(after.drop_last() =~= before);
                assert(after.last() == reason_name(i as int));
            }
            if any {
                out.append(" | ");
            } else {
                assert(out@ + name@ =~= name@);
            }
            out.append(name);
            any = true;
        }
        i = i + 1;
    }
    if !any {
        let mut unknown = String::from_str("UNKNOWN(0x");
        push_hex_fixed(&mut unknown, reason as u64, 8);
        unknown.append(")");
        unknown
    } else {
        out
    }
}

/// The entry that the record at `pos` holds.
pub open spec fn usn_entry(data: Seq<u8>, pos: int) -> UsnJournalEntryView {
    let name_start = pos + le_u16(data, pos + 58);
    let name_bytes = data.subrange(name_start, name_start + le_u16(data, pos + 56));
    UsnJournalEntryView {
        offset: pos as u64,
        timestamp: filetime_instant(le_u64(data, pos + 32) as u64),
        entry_number: reference_entry(le_u64(data, pos + 8)) as u32,
        sequence_number: reference_sequence(le_u64(data, pos + 8)) as u16,
        parent_entry_number: reference_entry(le_u64(data, pos + 16)) as u32,
        parent_sequence_number: reference_sequence(le_u64(data, pos + 16)) as u16,
        file_name: decoded_name(name_bytes),
        full_path: Seq::empty(),
        extension: decoded_extension(name_bytes),
        reason: reason_text(le_u32(data, pos + 40) as u32),
        file_attributes: le_u32(data, pos + 52) as u32,
        usn: le_u64(data, pos + 24) as u64,
    }
}

/// What stands at `pos` in the journal `data`: a record; the end, where no
/// header fits or the length field is zero; or a failure, where the length
/// field does not reach past the header or the name runs past the end of
/// `data`.
pub open spec fn usn_step(data: Seq<u8>, pos: int) -> Step<UsnJournalEntryView> {
    if pos + USN_HEADER_SIZE > data.len() {
        Step::End
    } else if le_u32(data, pos) == 0 {
        Step::End
    } else if le_u32(data, pos) <= USN_HEADER_SIZE {
        Step::Failed(
            ParseErrorView { message: "Invalid USN record length"@, offset: Some(pos as u64) },
        )
    } else if pos + le_u16(data, pos + 58) + le_u16(data, pos + 56) > data.len() {
        Step::Failed(
            ParseErrorView { message: "Failed to read USN file name"@, offset: Some(pos as u64) },
        )
    } else {
        Step::Record(usn_entry(data, pos), pos + le_u32(data, pos))
    }
}

/// The entries of `data` from `pos` on, in stream order.
pub open spec fn usn_entries_from(data: Seq<u8>, pos: int) -> Seq<UsnJournalEntryView>
    decreases
        (if pos < data.len() {
            data.len() - pos
        } else {
            0
        }),
{
    if pos < 0 || pos >= data.len() {
        Seq::empty()
    } else {
        match usn_step(data, pos) {
            Step::Record(entry, next) => seq![entry] + usn_entries_from(data, next),
            _ => Seq::empty(),
        }
    }
}

/// The entries of the journal `data`.
pub open spec fn usn_entries(data: Seq<u8>) -> Seq<UsnJournalEntryView> {
    usn_entries_from(data, 0)
}

/// The views of a run of entries.
pub open spec fn usn_entry_views(s: Seq<UsnJournalEntry>) -> Seq<UsnJournalEntryView> {
    s.map_values(|e: UsnJournalEntry| e@)
}

/// The decoder of a change journal.
pub struct UsnJournalParser {
    data: Vec<u8>,
    entries: Vec<UsnJournalEntry>,
}

impl UsnJournalParser {
    /// The bytes that the decoder was made for.
    pub closed spec fn data(&self) -> Seq<u8> {
        self.data@
    }

    /// The entries decoded so far.
    pub closed spec fn entries(&self) -> Seq<UsnJournalEntryView> {
        usn_entry_views(self.entries@)
    }

    /// A decoder for `data` that has decoded nothing yet.
    pub fn new(data: Vec<u8>) -> (r: UsnJournalParser)
        ensures
            r.data() == data@,
            r.entries() == Seq::<UsnJournalEntryView>::empty(),
    {
        let r = UsnJournalParser { data, entries: Vec::new() };
        assert(r.entries() =~= Seq::<UsnJournalEntryView>::empty());
        r
    }

    /// Decodes the journal and appends its entries, in stream order. The
    /// journal ends at the first position that holds no record; that is no
    /// error.
    pub fn parse(&mut self) -> (r: ParseResult<()>)
        ensures
            r is Ok,
            final(self).data() == old(self).data(),
            final(self).entries() == old(self).entries() + usn_entries(old(self).data()),
    {
        let n: usize = self.data.len();
        let mut pos: usize = 0;
        let mut more: bool = true;
        proof {
            assert(self.entries() + Seq::<UsnJournalEntryView>::empty() =~= self.entries());
        }
        while more && pos < n
            invariant
                n == self.data@.len(),
                self.data@ == old(self).data@,
                pos <= n,
                old(self).entries() + usn_entries(self.data@) == self.entries() + (if more {
                    usn_entries_from(self.data@, pos as int)
                } else {
                    Seq::empty()
                }),
            decreases (if more { 1int } else { 0int }), n - pos,
        {
            match self.parse_entry(pos) {
                Ok(Some((entry, record_length))) => {
                    proof {
                        let rest = usn_entries_from(self.data@, pos + record_length);
                        assert(usn_entry_views(self.entries@.push(entry)) + rest
                            =~= usn_entry_views(self.entries@) + (seq![entry@] + rest));
                    }
                    if record_length as usize >= n - pos {
                        more = false;
                    } else {
                        pos = pos + record_length as usize;
                    }
                    self.entries.push(entry);
                    proof {
                        assert(self.entries() + Seq::<UsnJournalEntryView>::empty()
                            =~= self.entries());
                    }
                },
                Ok(None) => {
                    more = false;
                },
                Err(_) => {
                    more = false;
                },
            }
        }
        Ok(())
    }

    /// Decodes what stands at `pos`: an entry with the length of its record,
    /// the end of the journal, or the error for a record that cannot be
    /// decoded.
    pub fn parse_entry(&self, pos: usize) -> (r: ParseResult<
        Option<(UsnJournalEntry, u32)>,
    >)
        ensures
            match r {
                Ok(Some(found)) => usn_step(self.data(), pos as int) == Step::Record(
                    found.0@,
                    pos + found.1,
                ),
                Ok(None) => usn_step(self.data(), pos as int) == Step::<UsnJournalEntryView>::End,
                Err(e) => usn_step(self.data(), pos as int) == Step::<UsnJournalEntryView>::Failed(
                    e@,
                ),
            },
    {
        let data: &[u8] = self.data.as_slice();
        let n: usize = data.len();
        if pos > n || n - pos < USN_HEADER_SIZE {
            return Ok(None);
        }
        let record_length: u32 = read_u32(data, pos);
        if record_length == 0 {
            return Ok(None);
        }
        if record_length <= USN_HEADER_SIZE as u32 {
            return Err(ParseError::new("Invalid USN record length", Some(pos as u64)));
        }
        let file_reference: u64 = read_u64(data, pos + 8);
        let parent_file_reference: u64 = read_u64(data, pos + 16);
        let usn: u64 = read_u64(data, pos + 24);
        let timestamp: u64 = read_u64(data, pos + 32);
        let reason: u32 = read_u32(data, pos + 40);
        let file_attributes: u32 = read_u32(data, pos + 52);
        let file_name_length: u16 = read_u16(data, pos + 56);
        let file_name_offset: u16 = read_u16(data, pos + 58);
        if file_name_offset as usize > n - pos || file_name_length as usize > n - pos
            - file_name_offset as usize {
            return Err(ParseError::new("Failed to read USN file name", Some(pos as u64)));
        }
        let name_start: usize = pos + file_name_offset as usize;
        let (file_name, extension) = decode_name(
            slice_subrange(data, name_start, name_start + file_name_length as usize),
        );
        let entry = UsnJournalEntry {
            offset: pos as u64,
            timestamp: windows_filetime_to_datetime(timestamp),
            entry_number: file_reference_entry(file_reference),
            sequence_number: file_reference_sequence(file_reference),
            parent_entry_number: file_reference_entry(parent_file_reference),
            parent_sequence_number: file_reference_sequence(parent_file_reference),
            file_name,
            full_path: String::new(),
            extension,
            reason: format_usn_reason(reason),
            file_attributes,
            usn,
        };
        Ok(Some((entry, record_length)))
    }

    /// The entries decoded so far, in stream order.
    pub fn get_entries(&self) -> (r: &[UsnJournalEntry])
        ensures
            usn_entry_views(r@) == self.entries(),
    {
        self.entries.as_slice()
    }
}

/// The text of a reason leaves no known flag out: the name of every flag
/// that is set among the first `count` of the table is among the tokens,
/// and there are no tokens exactly when none of those flags is set.
pub proof fn lemma_reason_tokens_exhaustive(reason: u32, count: nat)
    requires
        count <= USN_REASON_COUNT,
    ensures
        forall|i: int|
            0 <= i < count && reason & reason_mask(i) != 0 ==> reason_tokens(
                reason,
                count,
            ).contains(#[trigger] reason_name(i)),
        reason_tokens(reason, count).len() == 0 <==> (forall|i: int|
            0 <= i < count ==> reason & #[trigger] reason_mask(i) == 0),
    decreases count,
{
    if count > 0 {
        let before = reason_tokens(reason, (count - 1) as nat);
        let all = reason_tokens(reason, count);
        lemma_reason_tokens_exhaustive(reason, (count - 1) as nat);
        if reason & reason_mask(count - 1) != 0 {
            assert(all == before.push(reason_name(count - 1)));
            assert(all[all.len() - 1] == reason_name(count - 1));
            assert forall|i: int|
                0 <= i < count && reason & reason_mask(i) != 0 implies all.contains(
                #[trigger] reason_name(i),
            ) by {
                if i < count - 1 {
                    let k = choose|k: int| 0 <= k < before.len() && before[k] == reason_name(i);
                    assert(all[k] == reason_name(i));
                }
            }
        }
    }
}

/// The entries of a journal start at strictly increasing positions, none
/// before the position the walk starts from, and each with room for its
/// header before the end of the buffer.
pub proof fn lemma_usn_offsets_increase(data: Seq<u8>, pos: int)
    requires
        0 <= pos,
        data.len() <= u64::MAX,
    ensures
        forall|i: int|
            0 <= i < usn_entries_from(data, pos).len() ==> pos <= (#[trigger] usn_entries_from(
                data,
                pos,
            )[i]).offset && usn_entries_from(data, pos)[i].offset + USN_HEADER_SIZE <= data.len(),
        forall|i: int, j: int|
            0 <= i < j < usn_entries_from(data, pos).len() ==> (#[trigger] usn_entries_from(
                data,
                pos,
            )[i]).offset < (#[trigger] usn_entries_from(data, pos)[j]).offset,
    decreases
        (if pos < data.len() {
            data.len() - pos
        } else {
            0
        }),
{
    if pos < data.len() {
        if let Step::Record(entry, next) = usn_step(data, pos) {
            lemma_usn_offsets_increase(data, next);
            let rest = usn_entries_from(data, next);
            let all = usn_entries_from(data, pos);
            assert(all == seq![entry] + rest);
            assert(entry.offset == pos);
            assert forall|i: int| 0 <= i < all.len() implies pos <= (#[trigger] all[i]).offset
                && all[i].offset + USN_HEADER_SIZE <= data.len() by {
                if i > 0 {
                    assert(all[i] == rest[i - 1]);
                }
            }
            assert forall|i: int, j: int| 0 <= i < j < all.len() implies (#[trigger] all[i]).offset
                < (#[trigger] all[j]).offset by {
                assert(all[j] == rest[j - 1]);
                if i > 0 {
                    assert(all[i] == rest[i - 1]);
                }
            }
        }
    }
}

/// A record length of zero ends the journal where it stands: no entry
/// starts there or after it.
pub proof fn lemma_usn_zero_length_ends(data: Seq<u8>, pos: int)
    requires
        0 <= pos,
        pos + USN_HEADER_SIZE <= data.len(),
        le_u32(data, pos) == 0,
    ensures
        usn_step(data, pos) == Step::<UsnJournalEntryView>::End,
        usn_entries_from(data, pos) == Seq::<UsnJournalEntryView>::empty(),
{
}

} // verus!
