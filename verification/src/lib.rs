//! A read-only ZIP archive parser and extractor over in-memory byte sources.
//!
//! The archive is held as a byte sequence. The record codecs, the backward
//! scan for the end-of-central-directory record, the walk over the central
//! directory, name lookup and extraction all state their results over that
//! byte sequence.
//!
//! Archives that use encryption, patched data, trailing data descriptors,
//! strong encryption, masking or a compression method other than Store and
//! Deflate are rejected with `ZipError::UnsupportedFeature`.

pub mod crc32;
pub mod error;
pub mod fileinfo;
pub mod format;
pub mod maybe_utf8;
pub mod reader;
pub mod stream;

pub use crate::error::{IoError, ZipError, ZipResult};
pub use crate::fileinfo::{CompressionMethod, FileInfo};
pub use crate::maybe_utf8::MaybeUTF8;
pub use crate::reader::ZipReader;
pub use crate::stream::ByteReader;
