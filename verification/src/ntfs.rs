//! The artifact decoders and the primitives they share.

pub mod boot;
pub mod detect;
pub mod i30;
pub mod mft;
pub mod reader;
pub mod sds;
pub mod text;
pub mod time;
pub mod usn_journal;
pub mod types;
pub mod utf16;
