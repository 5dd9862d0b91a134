//! Telling the kind of an artifact from the bytes it starts with.

use crate::ntfs::boot::BOOT_SECTOR_SIZE;
use crate::ntfs::i30::INDX_SIGNATURE;
use crate::ntfs::mft::MFT_SIGNATURE;
use crate::ntfs::reader::{le_u32, read_u32};
use crate::ntfs::types::FileType;
use crate::ntfs::usn_journal::USN_HEADER_SIZE;
use vstd::prelude::*;

verus! {

/// The largest record length, exclusive, that is taken for the start of a
/// change journal.
pub const USN_MAX_FIRST_LENGTH: u32 = 0x1_0000;

/// The bytes `NTFS` and four spaces, the identifier of an NTFS boot sector.
pub open spec fn ntfs_oem_id() -> Seq<u8> {
    seq![0x4e, 0x54, 0x46, 0x53, 0x20, 0x20, 0x20, 0x20]
}

/// The kind of artifact that `data` starts like: a file table by its
/// signature `FILE`, an index block by `INDX`, a boot sector by its
/// identifier in 512 bytes or more, a change journal by a first record
/// length between the header size and the bound.
pub open spec fn detected_type(data: Seq<u8>) -> FileType {
    if data.len() < 4 {
        FileType::Unknown
    } else if le_u32(data, 0) == MFT_SIGNATURE {
        FileType::Mft
    } else if le_u32(data, 0) == INDX_SIGNATURE {
        FileType::I30
    } else if data.len() >= BOOT_SECTOR_SIZE && data.subrange(3, 11) == ntfs_oem_id() {
        FileType::Boot
    } else if data.len() >= USN_HEADER_SIZE && USN_HEADER_SIZE < le_u32(data, 0)
        < USN_MAX_FIRST_LENGTH {
        FileType::UsnJournal
    } else {
        FileType::Unknown
    }
}

fn has_ntfs_oem_id(data: &[u8]) -> (r: bool)
    requires
        data@.len() >= 11,
    ensures
        r == (data@.subrange(3, 11) == ntfs_oem_id()),
{
    let r = data[3] == 0x4e && data[4] == 0x54 && data[5] == 0x46 && data[6] == 0x53 && data[7]
        == 0x20 && data[8] == 0x20 && data[9] == 0x20 && data[10] == 0x20;
    proof {
        let id = data@.subrange(3, 11);
        if r {
            assert(id =~= ntfs_oem_id());
        } else {
            assert(id[0] == data@[3] && id[1] == data@[4] && id[2] == data@[5] && id[3] == data@[6]
                && id[4] == data@[7] && id[5] == data@[8] && id[6] == data@[9] && id[7]
                == data@[10]);
        }
    }
    r
}

/// Tells the kind of artifact from the bytes that `data` starts with. A
/// security descriptor stream has no mark of its own and is never detected.
pub fn detect_file_type(data: &[u8]) -> (r: FileType)
    ensures
        r == detected_type(data@),
{
    if data.len() < 4 {
        return FileType::Unknown;
    }
    let signature: u32 = read_u32(data, 0);
    if signature == MFT_SIGNATURE {
        FileType::Mft
    } else if signature == INDX_SIGNATURE {
        FileType::I30
    } else if data.len() >= BOOT_SECTOR_SIZE && has_ntfs_oem_id(data) {
        FileType::Boot
    } else if data.len() >= USN_HEADER_SIZE && signature > USN_HEADER_SIZE as u32 && signature
        < USN_MAX_FIRST_LENGTH {
        FileType::UsnJournal
    } else {
        FileType::Unknown
    }
}

} // verus!
