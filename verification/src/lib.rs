//! Read path of a Git object database: identifier algebra, packfile
//! index traversal, packfile object decoding with delta resolution,
//! loose object reading, and the object parsers.
//!
//! All on-disk structures are handled as in-memory byte sequences; the
//! surrounding application is responsible for reading or mapping files
//! and hands the bytes in.

pub mod be_bytes;
pub mod blob_parse;
pub mod commit_parse;
pub mod delta;
pub mod error;
pub mod hex;
pub mod index_file;
pub mod loose;
pub mod object_database;
pub mod object_id;
pub mod oidmap_trunc;
pub mod oidmap_u128;
pub mod pack_file;
pub mod parsed;
pub mod strings_util;
pub mod tree_parse;
pub mod varint;
pub mod zlib;
