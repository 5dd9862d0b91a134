//! The rules of the console tables: how many rows are shown, and how text
//! that is too wide for its column is cut.

use crate::ntfs::text::{shorten, shortened_text};
use vstd::prelude::*;
use vstd::string::StringSliceAdditionalSpecFns;

verus! {

/// The widest file name, in bytes, that the file table shows whole.
pub const MFT_NAME_LIMIT: usize = 48;

/// The bytes that are kept of a file name too wide for the file table.
pub const MFT_NAME_KEPT: usize = 45;

/// The widest file name, in bytes, that the journal and index tables show
/// whole.
pub const ENTRY_NAME_LIMIT: usize = 38;

/// The bytes that are kept of a file name too wide for those tables.
pub const ENTRY_NAME_KEPT: usize = 35;

/// The widest reason, in bytes, that the journal table shows whole.
pub const REASON_LIMIT: usize = 28;

/// The bytes that are kept of a reason too wide for the journal table.
pub const REASON_KEPT: usize = 25;

/// The number of rows that are shown of `total` under an optional limit.
pub open spec fn shown_rows(total: int, limit: Option<usize>) -> int {
    match limit {
        Some(n) => if n < total {
            n as int
        } else {
            total
        },
        None => total,
    }
}

/// The layout rules of the console tables.
pub struct TableOutput;

impl TableOutput {
    /// The number of rows to show of `total`, and the number left out.
    pub fn rows_shown(total: usize, limit: Option<usize>) -> (r: (usize, usize))
        ensures
            r.0 == shown_rows(total as int, limit),
            r.1 == total - r.0,
    {
        match limit {
            Some(n) => if n < total {
                (n, total - n)
            } else {
                (total, 0)
            },
            None => (total, 0),
        }
    }

    /// A file name as the file table shows it.
    pub fn mft_name(file_name: &str) -> (r: String)
        requires
            file_name.spec_bytes().len() > MFT_NAME_LIMIT ==> file_name.is_char_boundary(
                MFT_NAME_KEPT,
            ),
        ensures
            r@ == shortened_text(file_name@, MFT_NAME_LIMIT as int, MFT_NAME_KEPT as int),
    {
        shorten(file_name, MFT_NAME_LIMIT, MFT_NAME_KEPT)
    }

    /// A file name as the journal and index tables show it.
    pub fn entry_name(file_name: &str) -> (r: String)
        requires
            file_name.spec_bytes().len() > ENTRY_NAME_LIMIT ==> file_name.is_char_boundary(
                ENTRY_NAME_KEPT,
            ),
        ensures
            r@ == shortened_text(file_name@, ENTRY_NAME_LIMIT as int, ENTRY_NAME_KEPT as int),
    {
        shorten(file_name, ENTRY_NAME_LIMIT, ENTRY_NAME_KEPT)
    }

    /// A reason as the journal table shows it.
    pub fn reason_column(reason: &str) -> (r: String)
        requires
            reason.spec_bytes().len() > REASON_LIMIT ==> reason.is_char_boundary(REASON_KEPT),
        ensures
            r@ == shortened_text(reason@, REASON_LIMIT as int, REASON_KEPT as int),
    {
        shorten(reason, REASON_LIMIT, REASON_KEPT)
    }
}

} // verus!
