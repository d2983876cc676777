//! Decoding of Windows registry hive files (REGF) into a tree of keys and
//! values, with every step stated and proved.

pub mod bins;
pub mod cli;
pub mod cursor;
pub mod error;
pub mod export;
pub mod export_key;
pub mod file;
pub mod header;
pub mod hive;
pub mod index;
pub mod key;
pub mod owned_key;
pub mod root;
pub mod tree;
