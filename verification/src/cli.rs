//! The options of a run, the rules they must meet, and the numbers and
//! names that are read from them or made for them.

use std::path::Path;
use vstd::prelude::*;
use vstd::string::{StrSliceExecFns, StringExecFns};

verus! {

/// How results are shown on the console.
#[derive(Debug, Clone, Copy, PartialEq, Eq, Structural)]
pub enum OutputFormat {
    /// Tabular output.
    Table,
    /// JSON output to the console.
    Json,
    /// CSV output to the console.
    Csv,
    /// Minimal output.
    Minimal,
}

/// The options of a run.
#[derive(Debug, Clone)]
pub struct Cli {
    /// The file to process.
    pub file: String,
    /// The file table that resolves the paths of a change journal.
    pub mft_file: Option<String>,
    /// The directory for JSON results.
    pub json_dir: Option<String>,
    /// The file name for JSON results, in place of the default name.
    pub json_filename: Option<String>,
    /// The directory for CSV results.
    pub csv_dir: Option<String>,
    /// The file name for CSV results, in place of the default name.
    pub csv_filename: Option<String>,
    /// The directory for bodyfile results.
    pub body_dir: Option<String>,
    /// The file name for bodyfile results, in place of the default name.
    pub body_filename: Option<String>,
    /// The drive letter that bodyfile paths start with.
    pub body_drive_letter: Option<String>,
    /// Whether bodyfile lines end in LF rather than CRLF.
    pub body_lf: bool,
    /// The directory for an exported file record.
    pub dump_dir: Option<String>,
    /// The offset of the file record to export.
    pub dump_offset: Option<String>,
    /// The entry, or entry and sequence number, to show in full.
    pub dump_entry: Option<String>,
    /// Whether resident files are exported.
    pub dump_resident: bool,
    /// Whether the directory named by `dump_entry` is listed.
    pub file_list: bool,
    /// The security id to show in full.
    pub dump_security: Option<String>,
    /// The format in which timestamps are shown.
    pub datetime_format: Option<String>,
    /// Whether DOS file names are included.
    pub include_short_names: bool,
    /// Whether a condensed file listing is made.
    pub file_listing: bool,
    /// Whether all timestamps of the file name attribute are included.
    pub all_timestamps: bool,
    /// Whether volume shadow copies are processed.
    pub volume_shadow_copies: bool,
    /// Whether equal files are processed once.
    pub deduplicate: bool,
    /// Whether debug information is shown.
    pub debug: bool,
    /// Whether trace information is shown.
    pub trace: bool,
    /// How results are shown on the console.
    pub output_format: OutputFormat,
    /// Whether a progress bar is shown.
    pub show_progress: bool,
}

/// The name of the output file for an input whose name, without directory
/// and extension, is `stem`: the stem, or `output` where there is none, then
/// `_`, the kind of artifact, `.` and the extension.
pub open spec fn default_filename_text(
    stem: Option<Seq<char>>,
    extension: Seq<char>,
    file_type: Seq<char>,
) -> Seq<char> {
    (match stem {
        Some(name) => name,
        None => "output"@,
    }) + "_"@ + file_type + "."@ + extension
}

/// The default name of an output file, from the stem of the input's name.
pub fn default_filename(stem: Option<&str>, extension: &str, file_type: &str) -> (r: String)
    ensures
        r@ == default_filename_text(
            match stem {
                Some(name) => Some(name@),
                None => None,
            },
            extension@,
            file_type@,
        ),
{
    let mut out = match stem {
        Some(name) => String::from_str(name),
        None => String::from_str("output"),
    };
    out.append("_");
    out.append(file_type);
    out.append(".");
    out.append(extension);
    out
}

/// `std::path::Path::file_stem`, as text: the last component of `path`
/// without its extension. What counts as a component depends on the
/// platform, so nothing is stated of the result.
#[verifier::external_body]
fn path_file_stem(path: &str) -> (r: Option<String>) {
    match Path::new(path).file_stem() {
        Some(stem) => match stem.to_str() {
            Some(text) => Some(text.to_string()),
            None => None,
        },
        None => None,
    }
}

impl Cli {
    /// The rule that the options break, as the message that reports it; none
    /// where they break no rule. `file_exists` and `mft_file_exists` tell
    /// whether the input file and, where one is named, the file table
    /// exist.
    pub open spec fn validation_error(&self, file_exists: bool, mft_file_exists: bool) -> Option<
        Seq<char>,
    > {
        if self.json_dir is None && self.csv_dir is None && self.body_dir is None
            && self.dump_entry is None && self.dump_security is None {
            Some(
                "At least one output option must be specified (--json, --csv, --body, --de, or --ds)"@,
            )
        } else if self.body_dir is Some && self.body_drive_letter is None {
            Some("--bdl is required when using --body"@)
        } else if self.dump_dir is Some && self.dump_offset is None {
            Some("--do is required when using --dd"@)
        } else if self.file_listing && self.csv_dir is None {
            Some("--fl requires --csv"@)
        } else if !file_exists {
            Some("Input file does not exist: "@ + self.file@)
        } else if self.mft_file is Some && !mft_file_exists {
            Some("MFT file does not exist: "@ + self.mft_file->0@)
        } else {
            None
        }
    }

    /// Checks the options against the rules, in order, and reports the
    /// first that is broken.
    pub fn validate(&self, file_exists: bool, mft_file_exists: bool) -> (r: Result<(), String>)
        ensures
            match r {
                Ok(_) => self.validation_error(file_exists, mft_file_exists) is None,
                Err(message) => self.validation_error(file_exists, mft_file_exists) == Some(
                    message@,
                ),
            },
    {
        if self.json_dir.is_none() && self.csv_dir.is_none() && self.body_dir.is_none()
            && self.dump_entry.is_none() && self.dump_security.is_none() {
            return Err(
                String::from_str(
                    "At least one output option must be specified (--json, --csv, --body, --de, or --ds)",
                ),
            );
        }
        if self.body_dir.is_some() && self.body_drive_letter.is_none() {
            return Err(String::from_str("--bdl is required when using --body"));
        }
        if self.dump_dir.is_some() && self.dump_offset.is_none() {
            return Err(String::from_str("--do is required when using --dd"));
        }
        if self.file_listing && self.csv_dir.is_none() {
            return Err(String::from_str("--fl requires --csv"));
        }
        if !file_exists {
            let mut message = String::from_str("Input file does not exist: ");
            message.append(self.file.as_str());
            return Err(message);
        }
        match &self.mft_file {
            Some(mft_file) => {
                if !mft_file_exists {
                    let mut message = String::from_str("MFT file does not exist: ");
                    message.append(mft_file.as_str());
                    return Err(message);
                }
            },
            None => {},
        }
        Ok(())
    }

    /// The default name of an output file with the given extension for the
    /// given kind of artifact, made from the stem of the input file's name.
    pub fn get_default_filename(&self, extension: &str, file_type: &str) -> (r: String)
        ensures
            exists|stem: Option<Seq<char>>|
                r@ == #[trigger] default_filename_text(stem, extension@, file_type@),
    {
        match path_file_stem(self.file.as_str()) {
            Some(stem) => {
                let r = default_filename(Some(stem.as_str()), extension, file_type);
                assert(r@ == default_filename_text(Some(stem@), extension@, file_type@));
                r
            },
            None => {
                let r = default_filename(None, extension, file_type);
                assert(r@ == default_filename_text(None, extension@, file_type@));
                r
            },
        }
    }
}

/// The value of the digit `c` in a notation with `radix` digits, where it is
/// one: `0` to `9`, then the letters in either case.
pub open spec fn digit_value(c: char, radix: int) -> Option<int> {
    let v = c as u32 as int;
    let d = if 0x30 <= v <= 0x39 {
        v - 0x30
    } else if 0x61 <= v <= 0x7a {
        v - 0x61 + 10
    } else if 0x41 <= v <= 0x5a {
        v - 0x41 + 10
    } else {
        radix
    };
    if d < radix {
        Some(d)
    } else {
        None
    }
}

/// The number that the digits `s` write in a notation with `radix` digits;
/// none where a character is no digit.
pub open spec fn digits_value(s: Seq<char>, radix: int) -> Option<int>
    decreases s.len(),
{
    if s.len() == 0 {
        Some(0)
    } else {
        match (digits_value(s.drop_last(), radix), digit_value(s.last(), radix)) {
            (Some(high), Some(low)) => Some(high * radix + low),
            _ => None,
        }
    }
}

/// The number that `s` writes: one digit or more after an optional `+`,
/// with a value that fits 64 bits.
pub open spec fn unsigned_value(s: Seq<char>, radix: int) -> Option<u64> {
    let digits = if s.len() > 0 && s[0] == '+' {
        s.skip(1)
    } else {
        s
    };
    if digits.len() == 0 {
        None
    } else {
        match digits_value(digits, radix) {
            Some(v) => if v <= u64::MAX {
                Some(v as u64)
            } else {
                None
            },
            None => None,
        }
    }
}

/// Whether `s` begins with `0x` or `0X`.
pub open spec fn has_hex_prefix(s: Seq<char>) -> bool {
    s.len() >= 2 && s[0] == '0' && (s[1] == 'x' || s[1] == 'X')
}

/// The number that `s` writes: hexadecimal after `0x` or `0X`, else decimal;
/// or the message for text that writes none.
pub open spec fn numeric_value(s: Seq<char>) -> Result<u64, Seq<char>> {
    if has_hex_prefix(s) {
        match unsigned_value(s.skip(2), 16) {
            Some(v) => Ok(v),
            None => Err("Invalid hex value: "@ + s),
        }
    } else {
        match unsigned_value(s, 10) {
            Some(v) => Ok(v),
            None => Err("Invalid decimal value: "@ + s),
        }
    }
}

/// The position of the first `-` of `s`, or its length where it has none.
pub open spec fn first_dash(s: Seq<char>) -> int
    decreases s.len(),
{
    if s.len() == 0 {
        0
    } else if s[0] == '-' {
        0
    } else {
        1 + first_dash(s.skip(1))
    }
}

/// The entry that `s` names: an entry number, or an entry number, `-` and a
/// sequence number, each decimal or hexadecimal. Of a number too large for
/// its field the low bits are kept.
pub open spec fn entry_spec_value(s: Seq<char>) -> Result<(u32, Option<u16>), Seq<char>> {
    let dash = first_dash(s);
    if dash < s.len() {
        match numeric_value(s.subrange(0, dash)) {
            Err(e) => Err(e),
            Ok(entry) => match numeric_value(s.subrange(dash + 1, s.len() as int)) {
                Err(e) => Err(e),
                Ok(sequence) => Ok(
                    ((entry % 0x1_0000_0000) as u32, Some((sequence % 0x1_0000) as u16)),
                ),
            },
        }
    } else {
        match numeric_value(s) {
            Err(e) => Err(e),
            Ok(entry) => Ok(((entry % 0x1_0000_0000) as u32, None)),
        }
    }
}

fn digit_of(c: char, radix: u32) -> (r: Option<u32>)
    requires
        radix <= 36,
    ensures
        match r {
            Some(d) => digit_value(c, radix as int) == Some(d as int) && d < radix,
            None => digit_value(c, radix as int) is None,
        },
{
    let v: u32 = c as u32;
    let d: u32 = if 0x30 <= v && v <= 0x39 {
        v - 0x30
    } else if 0x61 <= v && v <= 0x7a {
        v - 0x61 + 10
    } else if 0x41 <= v && v <= 0x5a {
        v - 0x41 + 10
    } else {
        radix
    };
    if d < radix {
        Some(d)
    } else {
        None
    }
}

/// A run of digits writes no less than any of its beginnings.
pub proof fn lemma_digits_grow(s: Seq<char>, k: int, radix: int)
    requires
        0 <= k <= s.len(),
        radix >= 1,
        digits_value(s, radix) is Some,
    ensures
        digits_value(s.subrange(0, k), radix) is Some,
        0 <= digits_value(s.subrange(0, k), radix)->0 <= digits_value(s, radix)->0,
    decreases s.len() - k,
{
    if k == s.len() {
        assert(s.subrange(0, k) =~= s);
        lemma_digits_nonnegative(s, radix);
    } else {
        assert(s.drop_last().subrange(0, k) =~= s.subrange(0, k));
        lemma_digits_grow(s.drop_last(), k, radix);
        let high = digits_value(s.drop_last(), radix)->0;
        lemma_digits_nonnegative(s.drop_last(), radix);
        assert(high * radix >= high) by (nonlinear_arith)
            requires
                high >= 0,
                radix >= 1,
        ;
    }
}

/// A run of digits writes no negative number.
pub proof fn lemma_digits_nonnegative(s: Seq<char>, radix: int)
    requires
        radix >= 1,
    ensures
        digits_value(s, radix) matches Some(v) ==> v >= 0,
    decreases s.len(),
{
    if s.len() > 0 {
        lemma_digits_nonnegative(s.drop_last(), radix);
        if let Some(high) = digits_value(s.drop_last(), radix) {
            assert(high * radix >= 0) by (nonlinear_arith)
                requires
                    high >= 0,
                    radix >= 1,
            ;
        }
    }
}

fn parse_unsigned(text: &str, from: usize, radix: u32) -> (r: Option<u64>)
    requires
        from <= text@.len(),
        2 <= radix <= 36,
    ensures
        r == unsigned_value(text@.skip(from as int), radix as int),
{
    let n: usize = text.unicode_len();
    let mut i: usize = from;
    if i < n && text.get_char(i) == '+' {
        i = i + 1;
    }
    if i == n {
        return None;
    }
    let start: usize = i;
    let ghost digits = text@.subrange(start as int, n as int);
    proof {
        let s = text@.skip(from as int);
        if start > from {
            assert(s.skip(1) =~= digits);
        } else {
            assert(s =~= digits);
        }
        assert(digits.subrange(0, 0) =~= Seq::<char>::empty());
    }
    let mut value: u64 = 0;
    while i < n
        invariant
            start <= i <= n == text@.len(),
            2 <= radix <= 36,
            digits == text@.subrange(start as int, n as int),
            unsigned_value(text@.skip(from as int), radix as int) == (match digits_value(
                digits,
                radix as int,
            ) {
                Some(v) => if v <= u64::MAX {
                    Some(v as u64)
                } else {
                    None
                },
                None => None,
            }),
            digits_value(digits.subrange(0, i - start), radix as int) == Some(value as int),
        decreases n - i,
    {
        let ghost prefix = digits.subrange(0, i - start + 1);
        proof {
            assert(prefix.drop_last() =~= digits.subrange(0, i - start));
            assert(prefix.last() == text@[i as int]);
        }
        let digit: u32 = match digit_of(text.get_char(i), radix) {
            Some(d) => d,
            None => {
                proof {
                    assert(digits_value(prefix, radix as int) is None);
                    if digits_value(digits, radix as int) is Some {
                        lemma_digits_grow(digits, i - start + 1, radix as int);
                    }
                }
                return None;
            },
        };
        let next: Option<u64> = match value.checked_mul(radix as u64) {
            Some(scaled) => scaled.checked_add(digit as u64),
            None => None,
        };
        match next {
            Some(v) => {
                value = v;
            },
            None => {
                proof {
                    assert(digits_value(prefix, radix as int) == Some(value * radix + digit));
                    if digits_value(digits, radix as int) is Some {
                        lemma_digits_grow(digits, i - start + 1, radix as int);
                    }
                }
                return None;
            },
        }
        i = i + 1;
    }
    proof {
        assert(digits.subrange(0, n - start) =~= digits);
    }
    Some(value)
}

fn message_with(prefix: &str, value: &str) -> (r: String)
    ensures
        r@ == prefix@ + value@,
{
    let mut message = String::from_str(prefix);
    message.append(value);
    message
}

/// Reads a number: hexadecimal after `0x` or `0X`, else decimal.
pub fn parse_numeric_value(value: &str) -> (r: Result<u64, String>)
    ensures
        match r {
            Ok(v) => numeric_value(value@) == Ok::<u64, Seq<char>>(v),
            Err(message) => numeric_value(value@) == Err::<u64, Seq<char>>(message@),
        },
{
    let n: usize = value.unicode_len();
    if n >= 2 && value.get_char(0) == '0' && (value.get_char(1) == 'x' || value.get_char(1)
        == 'X') {
        match parse_unsigned(value, 2, 16) {
            Some(v) => Ok(v),
            None => Err(message_with("Invalid hex value: ", value)),
        }
    } else {
        proof {
            assert(value@.skip(0) =~= value@);
        }
        match parse_unsigned(value, 0, 10) {
            Some(v) => Ok(v),
            None => Err(message_with("Invalid decimal value: ", value)),
        }
    }
}

/// Reads the name of an entry: `Entry` or `Entry-Seq`, each number decimal
/// or hexadecimal.
pub fn parse_entry_spec(spec: &str) -> (r: Result<(u32, Option<u16>), String>)
    ensures
        match r {
            Ok(v) => entry_spec_value(spec@) == Ok::<(u32, Option<u16>), Seq<char>>(v),
            Err(message) => entry_spec_value(spec@) == Err::<(u32, Option<u16>), Seq<char>>(
                message@,
            ),
        },
{
    let n: usize = spec.unicode_len();
    let mut dash: usize = 0;
    proof {
        assert(spec@.skip(0) =~= spec@);
    }
    while dash < n && spec.get_char(dash) != '-'
        invariant
            dash <= n == spec@.len(),
            first_dash(spec@) == dash + first_dash(spec@.skip(dash as int)),
        decreases n - dash,
    {
        proof {
            assert(spec@.skip(dash as int).skip(1) =~= spec@.skip(dash + 1));
        }
        dash = dash + 1;
    }
    if dash < n {
        let entry: u64 = match parse_numeric_value(spec.substring_char(0, dash)) {
            Ok(v) => v,
            Err(e) => {
                return Err(e);
            },
        };
        let sequence: u64 = match parse_numeric_value(spec.substring_char(dash + 1, n)) {
            Ok(v) => v,
            Err(e) => {
                return Err(e);
            },
        };
        Ok(((entry % 0x1_0000_0000) as u32, Some((sequence % 0x1_0000) as u16)))
    } else {
        match parse_numeric_value(spec) {
            Ok(entry) => Ok(((entry % 0x1_0000_0000) as u32, None)),
            Err(e) => Err(e),
        }
    }
}

} // verus!
