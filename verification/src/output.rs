//! The texts in which decoded records are handed on.

pub mod bodyfile;
pub mod table;
