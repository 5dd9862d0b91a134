//! Decoders for on-disk NTFS artifacts: the master file table, the change
//! journal, the boot sector, the security descriptor stream and directory
//! index blocks. Every decoder works on a complete in-memory byte buffer and
//! states, as a contract over the bytes, exactly which records it yields.

use vstd::prelude::*;
use vstd::string::StringExecFns;

pub mod cli;
pub mod ntfs;
pub mod output;

verus! {

/// The file name to write to: the one provided, else the one that
/// `default_fn` makes. `default_fn` is called only where none is provided.
pub fn get_filename_with_default<F: FnOnce() -> String>(
    provided: Option<&str>,
    default_fn: F,
) -> (r: String)
    requires
        provided is None ==> default_fn.requires(()),
    ensures
        match provided {
            Some(name) => r@ == name@,
            None => default_fn.ensures((), r),
        },
{
    match provided {
        Some(name) => String::from_str(name),
        None => default_fn(),
    }
}

} // verus!
