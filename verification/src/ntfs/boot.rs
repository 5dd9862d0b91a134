//! The NTFS boot sector.

use crate::ntfs::reader::{i8_at, le_u16, le_u64, read_i8, read_u16, read_u64, read_u8, u8_at};
use crate::ntfs::text::{from_utf8_lossy, trim_end_nul, utf8_lossy_text, without_trailing_nul};
use crate::ntfs::types::{
    BootSector,
    BootSectorView,
    ParseError,
    ParseErrorView,
    ParseResult,
};
use vstd::prelude::*;
use vstd::slice::slice_subrange;

verus! {

/// The number of bytes of a boot sector.
pub const BOOT_SECTOR_SIZE: usize = 512;

/// The fields of the boot sector that `data` starts with.
pub open spec fn boot_sector(data: Seq<u8>) -> BootSectorView
    recommends
        data.len() >= BOOT_SECTOR_SIZE,
{
    BootSectorView {
        bytes_per_sector: le_u16(data, 11) as u16,
        sectors_per_cluster: u8_at(data, 13) as u8,
        total_sectors: le_u64(data, 40) as u64,
        mft_start_cluster: le_u64(data, 48) as u64,
        mft_mirror_start_cluster: le_u64(data, 56) as u64,
        clusters_per_mft_record: i8_at(data, 64) as i8,
        clusters_per_index_buffer: i8_at(data, 68) as i8,
        volume_serial_number: le_u64(data, 72) as u64,
        oem_id: without_trailing_nul(utf8_lossy_text(data.subrange(3, 11))),
        volume_label: Seq::empty(),
    }
}

/// The error for a buffer that is too short to hold a boot sector.
pub open spec fn boot_too_small() -> ParseErrorView {
    ParseErrorView { message: "Boot sector data too small"@, offset: None }
}

/// The decoder of the boot sector.
pub struct BootParser;

impl BootParser {
    /// Decodes the boot sector in the first 512 bytes of `data`. Fails
    /// exactly when `data` is shorter.
    pub fn parse(data: &[u8]) -> (r: ParseResult<BootSector>)
        ensures
            match r {
                Ok(boot) => data@.len() >= BOOT_SECTOR_SIZE && boot@ == boot_sector(data@),
                Err(e) => data@.len() < BOOT_SECTOR_SIZE && e@ == boot_too_small(),
            },
    {
        if data.len() < BOOT_SECTOR_SIZE {
            return Err(ParseError::new("Boot sector data too small", None));
        }
        let bytes_per_sector = read_u16(data, 11);
        let sectors_per_cluster = read_u8(data, 13);
        let total_sectors = read_u64(data, 40);
        let mft_start_cluster = read_u64(data, 48);
        let mft_mirror_start_cluster = read_u64(data, 56);
        let clusters_per_mft_record = read_i8(data, 64);
        let clusters_per_index_buffer = read_i8(data, 68);
        let volume_serial_number = read_u64(data, 72);
        let oem_text = from_utf8_lossy(slice_subrange(data, 3, 11));
        let oem_id = trim_end_nul(oem_text.as_str());
        Ok(
            BootSector {
                bytes_per_sector,
                sectors_per_cluster,
                total_sectors,
                mft_start_cluster,
                mft_mirror_start_cluster,
                clusters_per_mft_record,
                clusters_per_index_buffer,
                volume_serial_number,
                oem_id,
                volume_label: String::new(),
            },
        )
    }
}

} // verus!
