//! The description of one entry of an archive.

use vstd::prelude::*;
use vstd::pervasive::unreached;
use crate::format::{CentralDirectoryHeader, datetime_tuple, flag_encrypted, flag_utf8_name};
use crate::maybe_utf8::MaybeUTF8;
use crate::stream::{le_u16_at, le_u32_at};

verus! {

#[derive(PartialEq, Eq, Structural, Debug, Clone, Copy)]
pub enum CompressionMethod {
    Store,
    Deflate,
    Unknown,
}

impl CompressionMethod {
    /// Code 0 is Store, code 8 is Deflate, every other code is Unknown.
    pub open spec fn spec_from_u16(x: u16) -> CompressionMethod {
        if x == 0 {
            CompressionMethod::Store
        } else if x == 8 {
            CompressionMethod::Deflate
        } else {
            CompressionMethod::Unknown
        }
    }

    pub fn from_u16(x: u16) -> (m: CompressionMethod)
        ensures
            m == Self::spec_from_u16(x),
    {
        if x == 0 {
            CompressionMethod::Store
        } else if x == 8 {
            CompressionMethod::Deflate
        } else {
            CompressionMethod::Unknown
        }
    }
}

/// What a reader tells of one entry. It holds no part of the archive and
/// can be kept for later extraction.
#[derive(Debug)]
pub struct FileInfo {
    pub name: MaybeUTF8,
    pub compression_method: CompressionMethod,
    // (year, month, day, hour, minute, second)
    pub last_modified_datetime: (usize, usize, usize, usize, usize, usize),
    pub crc32: u32,
    pub compressed_size: u32,
    pub uncompressed_size: u32,
    pub is_encrypted: bool,
    pub local_file_header_offset: u32,
}

impl FileInfo {
    /// Whether the description is the one of the central directory header `h`.
    pub open spec fn is_from(&self, h: &CentralDirectoryHeader) -> bool {
        &&& self.name@ == h.file_name@
        &&& self.name.is_text() == h.file_name.is_text()
        &&& self.compression_method == CompressionMethod::spec_from_u16(h.compression_method)
        &&& self.last_modified_datetime == h.last_modified_datetime.spec_to_tuple()
        &&& self.crc32 == h.crc32
        &&& self.compressed_size == h.compressed_size
        &&& self.uncompressed_size == h.uncompressed_size
        &&& self.is_encrypted == flag_encrypted(h.general_purpose_bit_flag)
        &&& self.local_file_header_offset == h.relative_offset_of_local_header
    }

    /// Whether the description is the one of the central directory header
    /// that stands at `pos` in `data`.
    pub open spec fn describes_entry(&self, data: Seq<u8>, pos: int) -> bool {
        &&& self.name@ == data.subrange(pos + 46, pos + 46 + le_u16_at(data, pos + 28))
        &&& self.name.is_text() == flag_utf8_name(le_u16_at(data, pos + 8))
        &&& self.compression_method == CompressionMethod::spec_from_u16(le_u16_at(data, pos + 10))
        &&& self.last_modified_datetime == datetime_tuple(le_u16_at(data, pos + 12), le_u16_at(data, pos + 14))
        &&& self.crc32 == le_u32_at(data, pos + 16)
        &&& self.compressed_size == le_u32_at(data, pos + 20)
        &&& self.uncompressed_size == le_u32_at(data, pos + 24)
        &&& self.is_encrypted == flag_encrypted(le_u16_at(data, pos + 8))
        &&& self.local_file_header_offset == le_u32_at(data, pos + 42)
    }

    /// Whether two descriptions say the same of an entry.
    pub open spec fn same_info(&self, other: &FileInfo) -> bool {
        &&& self.name@ == other.name@
        &&& self.name.is_text() == other.name.is_text()
        &&& self.compression_method == other.compression_method
        &&& self.last_modified_datetime == other.last_modified_datetime
        &&& self.crc32 == other.crc32
        &&& self.compressed_size == other.compressed_size
        &&& self.uncompressed_size == other.uncompressed_size
        &&& self.is_encrypted == other.is_encrypted
        &&& self.local_file_header_offset == other.local_file_header_offset
    }

    /// Fills a FileInfo with the file properties, for users of the reader
    /// to see. The header's method must be Store or Deflate.
    pub fn from_cdh(h: &CentralDirectoryHeader) -> (f: FileInfo)
        requires
            h.compression_method == 0 || h.compression_method == 8,
        ensures
            f.is_from(h),
            f.compression_method != CompressionMethod::Unknown,
    {
        let method: CompressionMethod = if h.compression_method == 0 {
            CompressionMethod::Store
        } else if h.compression_method == 8 {
            CompressionMethod::Deflate
        } else {
            unreached()
        };
        FileInfo {
            name: h.file_name.clone(),
            compression_method: method,
            last_modified_datetime: h.last_modified_datetime.to_tuple(),
            crc32: h.crc32,
            compressed_size: h.compressed_size,
            uncompressed_size: h.uncompressed_size,
            local_file_header_offset: h.relative_offset_of_local_header,
            is_encrypted: h.is_encrypted(),
        }
    }

    /// A description read from a header is the description of the bytes
    /// that the header was read from.
    pub proof fn lemma_from_decoded(&self, h: &CentralDirectoryHeader, data: Seq<u8>, pos: int)
        requires
            h.decoded_from(data, pos),
            self.is_from(h),
        ensures
            self.describes_entry(data, pos),
    {
    }
}

impl Clone for FileInfo {
    fn clone(&self) -> (r: FileInfo)
        ensures
            r.same_info(self),
    {
        FileInfo {
            name: self.name.clone(),
            compression_method: self.compression_method,
            last_modified_datetime: self.last_modified_datetime,
            crc32: self.crc32,
            compressed_size: self.compressed_size,
            uncompressed_size: self.uncompressed_size,
            is_encrypted: self.is_encrypted,
            local_file_header_offset: self.local_file_header_offset,
        }
    }
}

} // verus!
