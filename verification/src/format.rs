//! The record layouts of the archive format.
//!
//! Every record is a run of little-endian integers followed by its variable
//! fields. For each record `wire` is the byte sequence that stands for it,
//! `parse_error` says whether the bytes at a position can be read as one, and
//! `decoded_from` says which record they give.

use vstd::prelude::*;
use vstd::utf8::valid_utf8;
use crate::error::{IoError, ZipError, ZipResult};
use crate::maybe_utf8::MaybeUTF8;
use crate::stream::{ByteReader, le_u16_at, le_u32_at, le_u16_bytes, le_u32_bytes, put_le_u16, put_le_u32, put_bytes};

verus! {

pub const LFH_SIGNATURE: u32 = 0x04034b50;

pub const DD_SIGNATURE: u32 = 0x08074b50;

pub const CDH_SIGNATURE: u32 = 0x02014b50;

pub const CDDS_SIGNATURE: u32 = 0x05054b50;

pub const EOCDR_SIGNATURE: u32 = 0x06054b50;

/// The largest length that a 16-bit length prefix can announce.
pub const MAX_FIELD_LENGTH: usize = 65535;

// ==== GENERAL-PURPOSE BIT FLAG ====

pub open spec fn flag_encrypted(flags: u16) -> bool {
    flags & 1 != 0
}

pub open spec fn flag_data_descriptor(flags: u16) -> bool {
    flags & 8 != 0
}

pub open spec fn flag_compressed_patched_data(flags: u16) -> bool {
    flags & 32 != 0
}

pub open spec fn flag_strong_encryption(flags: u16) -> bool {
    flags & 64 != 0
}

pub open spec fn flag_utf8_name(flags: u16) -> bool {
    flags & 2048 != 0
}

pub open spec fn flag_masking(flags: u16) -> bool {
    flags & 8192 != 0
}

/// Whether the flags announce a feature that this reader rejects.
pub open spec fn flag_unsupported(flags: u16) -> bool {
    flag_encrypted(flags) || flag_compressed_patched_data(flags) || flag_data_descriptor(flags)
        || flag_strong_encryption(flags) || flag_masking(flags)
}

// ==== VARIABLE FIELDS ====

/// Why the `len` bytes at `pos` cannot be read as a field, if they cannot:
/// they reach beyond the data, or they are announced as text and are no
/// well-formed UTF-8.
pub open spec fn field_error(data: Seq<u8>, pos: int, len: int, text: bool) -> Option<ZipError> {
    if pos + len > data.len() {
        Some(ZipError::IoError(IoError::EndOfFile))
    } else if text && !valid_utf8(data.subrange(pos, pos + len)) {
        Some(ZipError::NonUTF8Field)
    } else {
        None
    }
}

/// Reads a field of `len` bytes, as text where `should_be_utf8` says so.
pub fn read_maybe_utf8(r: &mut ByteReader, should_be_utf8: bool, len: usize) -> (res: ZipResult<MaybeUTF8>)
    ensures
        final(r).data == old(r).data,
        match res {
            Ok(m) => field_error(old(r).data@, old(r).pos as int, len as int, should_be_utf8) is None
                && m@ == old(r).data@.subrange(old(r).pos as int, old(r).pos + len)
                && m.is_text() == should_be_utf8
                && final(r).pos == old(r).pos + len,
            Err(e) => field_error(old(r).data@, old(r).pos as int, len as int, should_be_utf8) == Some(e)
                && final(r).pos == old(r).pos,
        },
{
    let start: u64 = r.tell();
    let v: Vec<u8> = match r.read_exact(len) {
        Ok(v) => v,
        Err(e) => {
            return Err(ZipError::IoError(e));
        },
    };
    if should_be_utf8 {
        match MaybeUTF8::from_bytes(v).into_str() {
            Ok(s) => Ok(MaybeUTF8::from_str(s)),
            Err(_) => {
                r.seek(start);
                Err(ZipError::NonUTF8Field)
            },
        }
    } else {
        Ok(MaybeUTF8::from_bytes(v))
    }
}

/// Appends the bytes of `s`, which must be text where `should_be_utf8` says so.
pub fn write_maybe_utf8(w: &mut Vec<u8>, should_be_utf8: bool, s: &MaybeUTF8) -> (res: ZipResult<()>)
    ensures
        match res {
            Ok(_) => !(should_be_utf8 && !valid_utf8(s@)) && final(w)@ == old(w)@ + s@,
            Err(e) => should_be_utf8 && !valid_utf8(s@) && e == ZipError::NonUTF8Field && final(w)@ == old(w)@,
        },
{
    if should_be_utf8 {
        match s.as_str() {
            Some(t) => {
                put_bytes(w, t.as_bytes());
            },
            None => {
                return Err(ZipError::NonUTF8Field);
            },
        }
    } else {
        put_bytes(w, s.as_bytes());
    }
    Ok(())
}

/// The length as a 16-bit length prefix, where it fits.
pub fn ensure_u16_field_length(len: usize) -> (res: ZipResult<u16>)
    ensures
        match res {
            Ok(v) => len <= MAX_FIELD_LENGTH && v == len,
            Err(e) => len > MAX_FIELD_LENGTH && e == ZipError::TooLongField,
        },
{
    if len <= MAX_FIELD_LENGTH {
        Ok(len as u16)
    } else {
        Err(ZipError::TooLongField)
    }
}

fn get_u16(r: &mut ByteReader) -> (res: ZipResult<u16>)
    ensures
        final(r).data == old(r).data,
        match res {
            Ok(v) => old(r).can_read(2) && v == le_u16_at(old(r).data@, old(r).pos as int)
                && final(r).pos == old(r).pos + 2,
            Err(e) => !old(r).can_read(2) && e == ZipError::IoError(IoError::EndOfFile)
                && final(r).pos == old(r).pos,
        },
{
    match r.read_le_u16() {
        Ok(v) => Ok(v),
        Err(e) => Err(ZipError::IoError(e)),
    }
}

fn get_u32(r: &mut ByteReader) -> (res: ZipResult<u32>)
    ensures
        final(r).data == old(r).data,
        match res {
            Ok(v) => old(r).can_read(4) && v == le_u32_at(old(r).data@, old(r).pos as int)
                && final(r).pos == old(r).pos + 4,
            Err(e) => !old(r).can_read(4) && e == ZipError::IoError(IoError::EndOfFile)
                && final(r).pos == old(r).pos,
        },
{
    match r.read_le_u32() {
        Ok(v) => Ok(v),
        Err(e) => Err(ZipError::IoError(e)),
    }
}

fn get_bytes(r: &mut ByteReader, len: usize) -> (res: ZipResult<Vec<u8>>)
    ensures
        final(r).data == old(r).data,
        match res {
            Ok(v) => old(r).can_read(len as int)
                && v@ == old(r).data@.subrange(old(r).pos as int, old(r).pos + len)
                && final(r).pos == old(r).pos + len,
            Err(e) => !old(r).can_read(len as int) && e == ZipError::IoError(IoError::EndOfFile)
                && final(r).pos == old(r).pos,
        },
{
    match r.read_exact(len) {
        Ok(v) => Ok(v),
        Err(e) => Err(ZipError::IoError(e)),
    }
}

// ==== MS-DOS DATE AND TIME ====

/// An MS-DOS date and time format.
/// This is not very accurate (2-second granularity), nor guaranteed to be valid.
#[derive(Clone, Copy, Debug)]
pub struct MsdosDateTime {
    time: u16,
    date: u16,
}

/// Hour in the upper five bits, minute in the next six, half the second in
/// the lower five. Each field is cut to its width.
pub open spec fn pack_time(hour: usize, minute: usize, second: usize) -> u16 {
    ((hour % 32) * 2048 + (minute % 64) * 32 + (second % 64) / 2) as u16
}

/// Years since 1980 in the upper seven bits, month in the next four, day in
/// the lower five. Each field is cut to its width.
pub open spec fn pack_date(year: usize, month: usize, day: usize) -> u16 {
    (((year - 1980) % 128) * 512 + (month % 16) * 32 + day % 32) as u16
}

/// (year, month, day, hour, minute, second) of a packed time and date.
pub open spec fn datetime_tuple(time: u16, date: u16) -> (usize, usize, usize, usize, usize, usize) {
    (
        ((date / 512) % 128 + 1980) as usize,
        ((date / 32) % 16) as usize,
        (date % 32) as usize,
        ((time / 2048) % 32) as usize,
        ((time / 32) % 64) as usize,
        ((time % 32) * 2) as usize,
    )
}

/// The three fields of a packed time are found again by division.
proof fn lemma_unpack_time(h: int, m: int, s: int)
    requires
        0 <= h < 32,
        0 <= m < 64,
        0 <= s < 32,
    ensures
        0 <= h * 2048 + m * 32 + s < 65536,
        ((h * 2048 + m * 32 + s) / 2048) % 32 == h,
        ((h * 2048 + m * 32 + s) / 32) % 64 == m,
        (h * 2048 + m * 32 + s) % 32 == s,
{
    let t = h * 2048 + m * 32 + s;
    assert(t / 32 == h * 64 + m);
    assert(t / 2048 == h);
}

/// The three fields of a packed date are found again by division.
proof fn lemma_unpack_date(y: int, m: int, d: int)
    requires
        0 <= y < 128,
        0 <= m < 16,
        0 <= d < 32,
    ensures
        0 <= y * 512 + m * 32 + d < 65536,
        ((y * 512 + m * 32 + d) / 512) % 128 == y,
        ((y * 512 + m * 32 + d) / 32) % 16 == m,
        (y * 512 + m * 32 + d) % 32 == d,
{
    let t = y * 512 + m * 32 + d;
    assert(t / 32 == y * 16 + m);
    assert(t / 512 == y);
}

impl MsdosDateTime {
    /// The packed time of day.
    pub closed spec fn time_bits(&self) -> u16 {
        self.time
    }

    /// The packed date.
    pub closed spec fn date_bits(&self) -> u16 {
        self.date
    }

    pub open spec fn spec_year(&self) -> usize {
        datetime_tuple(self.time_bits(), self.date_bits()).0
    }

    pub open spec fn spec_month(&self) -> usize {
        datetime_tuple(self.time_bits(), self.date_bits()).1
    }

    pub open spec fn spec_day(&self) -> usize {
        datetime_tuple(self.time_bits(), self.date_bits()).2
    }

    pub open spec fn spec_hour(&self) -> usize {
        datetime_tuple(self.time_bits(), self.date_bits()).3
    }

    pub open spec fn spec_minute(&self) -> usize {
        datetime_tuple(self.time_bits(), self.date_bits()).4
    }

    pub open spec fn spec_second(&self) -> usize {
        datetime_tuple(self.time_bits(), self.date_bits()).5
    }

    /// (year, month, day, hour, minute, second)
    pub open spec fn spec_to_tuple(&self) -> (usize, usize, usize, usize, usize, usize) {
        datetime_tuple(self.time_bits(), self.date_bits())
    }

    /// Packs a date and time. Nothing is checked for validity.
    pub fn new(year: usize, month: usize, day: usize, hour: usize, minute: usize, second: usize) -> (r: MsdosDateTime)
        requires
            year >= 1980,
        ensures
            r.time_bits() == pack_time(hour, minute, second),
            r.date_bits() == pack_date(year, month, day),
    {
        let year: usize = year - 1980;
        MsdosDateTime {
            time: ((hour % 32) * 2048 + (minute % 64) * 32 + (second % 64) / 2) as u16,
            date: ((year % 128) * 512 + (month % 16) * 32 + day % 32) as u16,
        }
    }

    pub fn zero() -> (r: MsdosDateTime)
        ensures
            r.time_bits() == 0,
            r.date_bits() == 0,
    {
        MsdosDateTime { time: 0, date: 0 }
    }

    pub fn year(&self) -> (r: usize)
        ensures
            r == self.spec_year(),
    {
        ((self.date / 512) % 128) as usize + 1980
    }

    pub fn month(&self) -> (r: usize)
        ensures
            r == self.spec_month(),
    {
        ((self.date / 32) % 16) as usize
    }

    pub fn day(&self) -> (r: usize)
        ensures
            r == self.spec_day(),
    {
        (self.date % 32) as usize
    }

    pub fn hour(&self) -> (r: usize)
        ensures
            r == self.spec_hour(),
    {
        ((self.time / 2048) % 32) as usize
    }

    pub fn minute(&self) -> (r: usize)
        ensures
            r == self.spec_minute(),
    {
        ((self.time / 32) % 64) as usize
    }

    pub fn second(&self) -> (r: usize)
        ensures
            r == self.spec_second(),
    {
        ((self.time % 32) * 2) as usize
    }

    pub fn to_tuple(&self) -> (r: (usize, usize, usize, usize, usize, usize))
        ensures
            r == self.spec_to_tuple(),
    {
        (self.year(), self.month(), self.day(), self.hour(), self.minute(), self.second())
    }

    /// Reads the packed time, then the packed date.
    pub fn read(r: &mut ByteReader) -> (res: Result<MsdosDateTime, IoError>)
        ensures
            final(r).data == old(r).data,
            match res {
                Ok(d) => old(r).can_read(4)
                    && d.time_bits() == le_u16_at(old(r).data@, old(r).pos as int)
                    && d.date_bits() == le_u16_at(old(r).data@, old(r).pos + 2)
                    && final(r).pos == old(r).pos + 4,
                Err(e) => !old(r).can_read(4) && e == IoError::EndOfFile && final(r).pos == old(r).pos,
            },
    {
        let start: u64 = r.tell();
        let time: u16 = match r.read_le_u16() {
            Ok(v) => v,
            Err(e) => {
                return Err(e);
            },
        };
        let date: u16 = match r.read_le_u16() {
            Ok(v) => v,
            Err(e) => {
                r.seek(start);
                return Err(e);
            },
        };
        Ok(MsdosDateTime { time: time, date: date })
    }

    /// Appends the packed time, then the packed date. A buffer takes every
    /// byte, so the result is always `Ok`.
    pub fn write(&self, w: &mut Vec<u8>) -> (res: Result<(), IoError>)
        ensures
            res is Ok,
            final(w)@ == old(w)@ + le_u16_bytes(self.time_bits()) + le_u16_bytes(self.date_bits()),
    {
        put_le_u16(w, self.time);
        put_le_u16(w, self.date);
        Ok(())
    }

    /// A date and time whose fields fit their widths comes back from the
    /// packed form as it went in, but for the second, which loses its
    /// lowest bit.
    pub proof fn lemma_new_to_tuple(d: MsdosDateTime, year: usize, month: usize, day: usize, hour: usize, minute: usize, second: usize)
        requires
            1980 <= year < 1980 + 128,
            month < 16,
            day < 32,
            hour < 32,
            minute < 64,
            second < 64,
            d.time_bits() == pack_time(hour, minute, second),
            d.date_bits() == pack_date(year, month, day),
        ensures
            d.spec_to_tuple() == (year, month, day, hour, minute, (second - second % 2) as usize),
    {
        let half: int = second as int / 2;
        lemma_unpack_time(hour as int, minute as int, half);
        lemma_unpack_date(year - 1980, month as int, day as int);
        assert(d.time_bits() == hour * 2048 + minute * 32 + half);
        assert(d.date_bits() == (year - 1980) * 512 + month * 32 + day);
        assert(half * 2 == second - second % 2);
    }
}

// ==== LOCAL FILE HEADER ====

/// The header that stands immediately before an entry's data.
#[derive(Debug)]
pub struct LocalFileHeader {
    pub version_needed_to_extract: u16,
    pub general_purpose_bit_flag: u16,
    pub compression_method: u16,
    pub last_modified_datetime: MsdosDateTime,
    pub crc32: u32,
    pub compressed_size: u32,
    pub uncompressed_size: u32,
    pub file_name: MaybeUTF8,
    pub extra_field: Vec<u8>,
}

impl LocalFileHeader {
    // -- header property getters
    pub fn is_encrypted(&self) -> (b: bool)
        ensures
            b == flag_encrypted(self.general_purpose_bit_flag),
    {
        (self.general_purpose_bit_flag & 1) != 0
    }

    pub fn has_data_descriptor(&self) -> (b: bool)
        ensures
            b == flag_data_descriptor(self.general_purpose_bit_flag),
    {
        (self.general_purpose_bit_flag & 8) != 0
    }

    pub fn is_compressed_patched_data(&self) -> (b: bool)
        ensures
            b == flag_compressed_patched_data(self.general_purpose_bit_flag),
    {
        (self.general_purpose_bit_flag & 32) != 0
    }

    pub fn uses_strong_encryption(&self) -> (b: bool)
        ensures
            b == flag_strong_encryption(self.general_purpose_bit_flag),
    {
        (self.general_purpose_bit_flag & 64) != 0
    }

    pub fn has_utf8_name(&self) -> (b: bool)
        ensures
            b == flag_utf8_name(self.general_purpose_bit_flag),
    {
        (self.general_purpose_bit_flag & 2048) != 0
    }

    pub fn uses_masking(&self) -> (b: bool)
        ensures
            b == flag_masking(self.general_purpose_bit_flag),
    {
        (self.general_purpose_bit_flag & 8192) != 0
    }

    /// The number of bytes that the record takes in an archive.
    pub open spec fn spec_total_size(&self) -> nat {
        30 + self.file_name@.len() + self.extra_field@.len()
    }

    pub fn total_size(&self) -> (n: usize)
        requires
            self.spec_total_size() <= usize::MAX,
        ensures
            n == self.spec_total_size(),
    {
        let local_file_header_fixed_size: usize = 30;
        local_file_header_fixed_size + self.file_name.len() + self.extra_field.len()
    }

    // -- constructors
    /// The record with every number zero and every field empty.
    pub fn new() -> (h: LocalFileHeader)
        ensures
            h.version_needed_to_extract == 0,
            h.general_purpose_bit_flag == 0,
            h.compression_method == 0,
            h.last_modified_datetime.time_bits() == 0,
            h.last_modified_datetime.date_bits() == 0,
            h.crc32 == 0,
            h.compressed_size == 0,
            h.uncompressed_size == 0,
            h.file_name.is_text(),
            h.file_name@ == Seq::<u8>::empty(),
            h.extra_field@ == Seq::<u8>::empty(),
    {
        LocalFileHeader {
            version_needed_to_extract: 0,
            general_purpose_bit_flag: 0,
            compression_method: 0,
            last_modified_datetime: MsdosDateTime::zero(),
            crc32: 0,
            compressed_size: 0,
            uncompressed_size: 0,
            file_name: MaybeUTF8::new(),
            extra_field: Vec::new(),
        }
    }

    /// The bytes that stand for the record in an archive.
    pub open spec fn wire(&self) -> Seq<u8> {
        le_u32_bytes(LFH_SIGNATURE)
            + le_u16_bytes(self.version_needed_to_extract)
            + le_u16_bytes(self.general_purpose_bit_flag)
            + le_u16_bytes(self.compression_method)
            + le_u16_bytes(self.last_modified_datetime.time_bits())
            + le_u16_bytes(self.last_modified_datetime.date_bits())
            + le_u32_bytes(self.crc32)
            + le_u32_bytes(self.compressed_size)
            + le_u32_bytes(self.uncompressed_size)
            + le_u16_bytes(self.file_name@.len() as u16)
            + le_u16_bytes(self.extra_field@.len() as u16)
            + self.file_name@
            + self.extra_field@
    }

    /// Why the record cannot be written, if it cannot: a field is longer
    /// than its length prefix can say, or the name is announced as UTF-8
    /// and is none.
    pub open spec fn write_error(&self) -> Option<ZipError> {
        if self.file_name@.len() > MAX_FIELD_LENGTH || self.extra_field@.len() > MAX_FIELD_LENGTH {
            Some(ZipError::TooLongField)
        } else if flag_utf8_name(self.general_purpose_bit_flag) && !valid_utf8(self.file_name@) {
            Some(ZipError::NonUTF8Field)
        } else {
            None
        }
    }

    /// Why the bytes at `pos` cannot be read as a record, if they cannot.
    /// The causes are tried in the order in which the fields stand.
    pub open spec fn parse_error(data: Seq<u8>, pos: int) -> Option<ZipError> {
        let flags = le_u16_at(data, pos + 6);
        let name_len = le_u16_at(data, pos + 26) as int;
        let extra_len = le_u16_at(data, pos + 28) as int;
        if pos + 4 > data.len() {
            Some(ZipError::IoError(IoError::EndOfFile))
        } else if le_u32_at(data, pos) != LFH_SIGNATURE {
            Some(ZipError::InvalidSignature(le_u32_at(data, pos)))
        } else if pos + 30 > data.len() {
            Some(ZipError::IoError(IoError::EndOfFile))
        } else if field_error(data, pos + 30, name_len, flag_utf8_name(flags)) is Some {
            field_error(data, pos + 30, name_len, flag_utf8_name(flags))
        } else if pos + 30 + name_len + extra_len > data.len() {
            Some(ZipError::IoError(IoError::EndOfFile))
        } else if flag_unsupported(flags) {
            Some(ZipError::UnsupportedFeature)
        } else {
            None
        }
    }

    /// Whether the record is what the bytes at `pos` say.
    pub open spec fn decoded_from(&self, data: Seq<u8>, pos: int) -> bool {
        let name_len = le_u16_at(data, pos + 26) as int;
        let extra_len = le_u16_at(data, pos + 28) as int;
        &&& self.version_needed_to_extract == le_u16_at(data, pos + 4)
        &&& self.general_purpose_bit_flag == le_u16_at(data, pos + 6)
        &&& self.compression_method == le_u16_at(data, pos + 8)
        &&& self.last_modified_datetime.time_bits() == le_u16_at(data, pos + 10)
        &&& self.last_modified_datetime.date_bits() == le_u16_at(data, pos + 12)
        &&& self.crc32 == le_u32_at(data, pos + 14)
        &&& self.compressed_size == le_u32_at(data, pos + 18)
        &&& self.uncompressed_size == le_u32_at(data, pos + 22)
        &&& self.file_name@ == data.subrange(pos + 30, pos + 30 + name_len)
        &&& self.file_name.is_text() == flag_utf8_name(self.general_purpose_bit_flag)
        &&& self.extra_field@ == data.subrange(pos + 30 + name_len, pos + 30 + name_len + extra_len)
    }

    /// Whether two records hold the same numbers and the same field bytes.
    pub open spec fn same_record(&self, other: &LocalFileHeader) -> bool {
        &&& self.version_needed_to_extract == other.version_needed_to_extract
        &&& self.general_purpose_bit_flag == other.general_purpose_bit_flag
        &&& self.compression_method == other.compression_method
        &&& self.last_modified_datetime.time_bits() == other.last_modified_datetime.time_bits()
        &&& self.last_modified_datetime.date_bits() == other.last_modified_datetime.date_bits()
        &&& self.crc32 == other.crc32
        &&& self.compressed_size == other.compressed_size
        &&& self.uncompressed_size == other.uncompressed_size
        &&& self.file_name@ == other.file_name@
        &&& self.extra_field@ == other.extra_field@
    }

    fn read_fields(r: &mut ByteReader) -> (res: ZipResult<LocalFileHeader>)
        ensures
            final(r).data == old(r).data,
            match res {
                Ok(h) => Self::parse_error(old(r).data@, old(r).pos as int) is None
                    && h.decoded_from(old(r).data@, old(r).pos as int)
                    && final(r).pos == old(r).pos + h.spec_total_size(),
                Err(e) => Self::parse_error(old(r).data@, old(r).pos as int) == Some(e),
            },
    {
        let mut h = LocalFileHeader::new();

        let magic: u32 = get_u32(r)?;
        if magic != LFH_SIGNATURE {
            return Err(ZipError::InvalidSignature(magic));
        }
        h.version_needed_to_extract = get_u16(r)?;
        h.general_purpose_bit_flag = get_u16(r)?;
        h.compression_method = get_u16(r)?;
        h.last_modified_datetime = match MsdosDateTime::read(r) {
            Ok(d) => d,
            Err(e) => {
                return Err(ZipError::IoError(e));
            },
        };
        h.crc32 = get_u32(r)?;
        h.compressed_size = get_u32(r)?;
        h.uncompressed_size = get_u32(r)?;
        let file_name_length: usize = get_u16(r)? as usize;
        let extra_field_length: usize = get_u16(r)? as usize;
        h.file_name = read_maybe_utf8(r, h.has_utf8_name(), file_name_length)?;
        h.extra_field = get_bytes(r, extra_field_length)?;

        // some things are not supported
        if h.is_encrypted() || h.is_compressed_patched_data() || h.has_data_descriptor()
            || h.uses_strong_encryption() || h.uses_masking() {
            return Err(ZipError::UnsupportedFeature);
        }
        Ok(h)
    }

    /// Reads a LocalFileHeader from the current position of the reader `r`
    /// and moves past it. Where the bytes give no record the reader stays
    /// where it was.
    pub fn read(r: &mut ByteReader) -> (res: ZipResult<LocalFileHeader>)
        ensures
            final(r).data == old(r).data,
            match res {
                Ok(h) => Self::parse_error(old(r).data@, old(r).pos as int) is None
                    && h.decoded_from(old(r).data@, old(r).pos as int)
                    && final(r).pos == old(r).pos + h.spec_total_size(),
                Err(e) => Self::parse_error(old(r).data@, old(r).pos as int) == Some(e)
                    && final(r).pos == old(r).pos,
            },
    {
        let start: u64 = r.tell();
        let res = Self::read_fields(r);
        if res.is_err() {
            r.seek(start);
        }
        res
    }

    /// Appends the record to `w`, in one piece. Nothing is appended where
    /// the record cannot be written.
    pub fn write(&self, w: &mut Vec<u8>) -> (res: ZipResult<()>)
        ensures
            match res {
                Ok(_) => self.write_error() is None && final(w)@ == old(w)@ + self.wire(),
                Err(e) => self.write_error() == Some(e) && final(w)@ == old(w)@,
            },
    {
        let file_name_length: u16 = ensure_u16_field_length(self.file_name.len())?;
        let extra_field_length: u16 = ensure_u16_field_length(self.extra_field.len())?;
        if self.has_utf8_name() && self.file_name.as_str().is_none() {
            return Err(ZipError::NonUTF8Field);
        }
        let mut record: Vec<u8> = Vec::new();
        assert(record@ + le_u32_bytes(LFH_SIGNATURE) =~= le_u32_bytes(LFH_SIGNATURE));
        put_le_u32(&mut record, LFH_SIGNATURE);
        put_le_u16(&mut record, self.version_needed_to_extract);
        put_le_u16(&mut record, self.general_purpose_bit_flag);
        put_le_u16(&mut record, self.compression_method);
        let _ = self.last_modified_datetime.write(&mut record);
        put_le_u32(&mut record, self.crc32);
        put_le_u32(&mut record, self.compressed_size);
        put_le_u32(&mut record, self.uncompressed_size);
        put_le_u16(&mut record, file_name_length);
        put_le_u16(&mut record, extra_field_length);
        put_bytes(&mut record, self.file_name.as_bytes());
        put_bytes(&mut record, self.extra_field.as_slice());
        assert(record@ == self.wire());
        put_bytes(w, record.as_slice());
        Ok(())
    }

    /// Where the record stands in its own bytes.
    pub proof fn lemma_wire_layout(&self)
        requires
            self.file_name@.len() <= MAX_FIELD_LENGTH,
            self.extra_field@.len() <= MAX_FIELD_LENGTH,
        ensures
            self.wire().len() == self.spec_total_size(),
            Self::parse_error(self.wire(), 0) is None <==> self.write_error() is None && !flag_unsupported(
                self.general_purpose_bit_flag,
            ),
            forall|g: LocalFileHeader| #[trigger] g.decoded_from(self.wire(), 0) ==> g.same_record(self),
    {
        let n = self.file_name@.len() as int;
        let m = self.extra_field@.len() as int;
        let s0 = le_u32_bytes(LFH_SIGNATURE);
        let s1 = s0 + le_u16_bytes(self.version_needed_to_extract);
        let s2 = s1 + le_u16_bytes(self.general_purpose_bit_flag);
        let s3 = s2 + le_u16_bytes(self.compression_method);
        let s4 = s3 + le_u16_bytes(self.last_modified_datetime.time_bits());
        let s5 = s4 + le_u16_bytes(self.last_modified_datetime.date_bits());
        let s6 = s5 + le_u32_bytes(self.crc32);
        let s7 = s6 + le_u32_bytes(self.compressed_size);
        let s8 = s7 + le_u32_bytes(self.uncompressed_size);
        let s9 = s8 + le_u16_bytes(n as u16);
        let s10 = s9 + le_u16_bytes(m as u16);
        let s11 = s10 + self.file_name@;
        let w = s11 + self.extra_field@;
        lemma_append_u32(Seq::empty(), LFH_SIGNATURE);
        assert(Seq::<u8>::empty() + s0 =~= s0);
        lemma_append_u16(s0, self.version_needed_to_extract);
        lemma_append_u16(s1, self.general_purpose_bit_flag);
        lemma_append_u16(s2, self.compression_method);
        lemma_append_u16(s3, self.last_modified_datetime.time_bits());
        lemma_append_u16(s4, self.last_modified_datetime.date_bits());
        lemma_append_u32(s5, self.crc32);
        lemma_append_u32(s6, self.compressed_size);
        lemma_append_u32(s7, self.uncompressed_size);
        lemma_append_u16(s8, n as u16);
        lemma_append_u16(s9, m as u16);
        lemma_append_bytes(s10, self.file_name@);
        lemma_append_bytes(s11, self.extra_field@);
        assert(w == self.wire());
        assert(w.len() == 30 + n + m);
        assert(le_u16_at(w, 26) == n);
        assert(le_u16_at(w, 28) == m);
        assert(w.subrange(30, 30 + n) == self.file_name@);
        assert(w.subrange(30 + n, 30 + n + m) == self.extra_field@);
    }

    /// Writing a record and reading it back gives an equal record: one that
    /// can be written and asks for no rejected feature is read without
    /// error from its bytes, wherever they stand, and every record read
    /// from them holds the same numbers and the same field bytes.
    pub proof fn lemma_write_then_read(&self, before: Seq<u8>, after: Seq<u8>)
        requires
            self.write_error() is None,
            !flag_unsupported(self.general_purpose_bit_flag),
        ensures
            Self::parse_error(before + self.wire() + after, before.len() as int) is None,
            forall|g: LocalFileHeader| #[trigger]
                g.decoded_from(before + self.wire() + after, before.len() as int) ==> g.same_record(self),
    {
        self.lemma_wire_layout();
        let w = self.wire();
        let data = before + w + after;
        let pos = before.len() as int;
        lemma_embedded(before, w, after);
        let n = self.file_name@.len() as int;
        let m = self.extra_field@.len() as int;
        assert(data.subrange(pos + 30, pos + 30 + n) == w.subrange(30, 30 + n));
        assert(data.subrange(pos + 30 + n, pos + 30 + n + m) == w.subrange(30 + n, 30 + n + m));
        assert(Self::parse_error(w, 0) is None);
        assert forall|g: LocalFileHeader| #[trigger] g.decoded_from(data, pos) implies g.same_record(self) by {
            assert(g.decoded_from(w, 0));
        }
    }
}

// ==== DATA DESCRIPTOR ====

/// The record that may follow an entry's data. Archives that use it are
/// rejected; the layout is kept for reference.
#[derive(Debug)]
pub struct DataDescriptor {
    pub signature_present: bool,  // not standard but sometimes present
    pub crc32: u32,
    pub compressed_size: u32,
    pub uncompressed_size: u32,
}

// ==== CENTRAL DIRECTORY HEADER ====

/// The record of one entry in the central directory.
#[derive(Debug)]
pub struct CentralDirectoryHeader {
    pub version_made_by: u16,
    pub version_needed_to_extract: u16,
    pub general_purpose_bit_flag: u16,
    pub compression_method: u16,
    pub last_modified_datetime: MsdosDateTime,
    pub crc32: u32,
    pub compressed_size: u32,
    pub uncompressed_size: u32,
    pub disk_number_start: u16,
    pub internal_file_attributes: u16,
    pub external_file_attributes: u32,
    pub relative_offset_of_local_header: u32,
    pub file_name: MaybeUTF8,
    pub extra_field: Vec<u8>,
    pub file_comment: MaybeUTF8,
}

impl CentralDirectoryHeader {
    pub fn is_encrypted(&self) -> (b: bool)
        ensures
            b == flag_encrypted(self.general_purpose_bit_flag),
    {
        (self.general_purpose_bit_flag & 1) != 0
    }

    pub fn has_data_descriptor(&self) -> (b: bool)
        ensures
            b == flag_data_descriptor(self.general_purpose_bit_flag),
    {
        (self.general_purpose_bit_flag & 8) != 0
    }

    pub fn is_compressed_patched_data(&self) -> (b: bool)
        ensures
            b == flag_compressed_patched_data(self.general_purpose_bit_flag),
    {
        (self.general_purpose_bit_flag & 32) != 0
    }

    pub fn uses_strong_encryption(&self) -> (b: bool)
        ensures
            b == flag_strong_encryption(self.general_purpose_bit_flag),
    {
        (self.general_purpose_bit_flag & 64) != 0
    }

    pub fn has_utf8_name(&self) -> (b: bool)
        ensures
            b == flag_utf8_name(self.general_purpose_bit_flag),
    {
        (self.general_purpose_bit_flag & 2048) != 0
    }

    pub fn uses_masking(&self) -> (b: bool)
        ensures
            b == flag_masking(self.general_purpose_bit_flag),
    {
        (self.general_purpose_bit_flag & 8192) != 0
    }

    /// The number of bytes that the record takes in an archive.
    pub open spec fn spec_total_size(&self) -> nat {
        46 + self.file_name@.len() + self.extra_field@.len() + self.file_comment@.len()
    }

    pub fn total_size(&self) -> (n: usize)
        requires
            self.spec_total_size() <= usize::MAX,
        ensures
            n == self.spec_total_size(),
    {
        let central_directory_header_fixed_size: usize = 46;
        central_directory_header_fixed_size + self.file_name.len() + self.extra_field.len()
            + self.file_comment.len()
    }

    /// The record with every number zero and every field empty.
    pub fn new() -> (h: CentralDirectoryHeader)
        ensures
            h.version_made_by == 0,
            h.version_needed_to_extract == 0,
            h.general_purpose_bit_flag == 0,
            h.compression_method == 0,
            h.last_modified_datetime.time_bits() == 0,
            h.last_modified_datetime.date_bits() == 0,
            h.crc32 == 0,
            h.compressed_size == 0,
            h.uncompressed_size == 0,
            h.disk_number_start == 0,
            h.internal_file_attributes == 0,
            h.external_file_attributes == 0,
            h.relative_offset_of_local_header == 0,
            h.file_name.is_text(),
            h.file_name@ == Seq::<u8>::empty(),
            h.extra_field@ == Seq::<u8>::empty(),
            h.file_comment.is_text(),
            h.file_comment@ == Seq::<u8>::empty(),
    {
        CentralDirectoryHeader {
            version_made_by: 0,
            version_needed_to_extract: 0,
            general_purpose_bit_flag: 0,
            compression_method: 0,
            last_modified_datetime: MsdosDateTime::zero(),
            crc32: 0,
            compressed_size: 0,
            uncompressed_size: 0,
            disk_number_start: 0,
            internal_file_attributes: 0,
            external_file_attributes: 0,
            relative_offset_of_local_header: 0,
            file_name: MaybeUTF8::new(),
            extra_field: Vec::new(),
            file_comment: MaybeUTF8::new(),
        }
    }

    /// The bytes that stand for the record in an archive.
    pub open spec fn wire(&self) -> Seq<u8> {
        le_u32_bytes(CDH_SIGNATURE)
            + le_u16_bytes(self.version_made_by)
            + le_u16_bytes(self.version_needed_to_extract)
            + le_u16_bytes(self.general_purpose_bit_flag)
            + le_u16_bytes(self.compression_method)
            + le_u16_bytes(self.last_modified_datetime.time_bits())
            + le_u16_bytes(self.last_modified_datetime.date_bits())
            + le_u32_bytes(self.crc32)
            + le_u32_bytes(self.compressed_size)
            + le_u32_bytes(self.uncompressed_size)
            + le_u16_bytes(self.file_name@.len() as u16)
            + le_u16_bytes(self.extra_field@.len() as u16)
            + le_u16_bytes(self.file_comment@.len() as u16)
            + le_u16_bytes(self.disk_number_start)
            + le_u16_bytes(self.internal_file_attributes)
            + le_u32_bytes(self.external_file_attributes)
            + le_u32_bytes(self.relative_offset_of_local_header)
            + self.file_name@
            + self.extra_field@
            + self.file_comment@
    }

    /// Why the record cannot be written, if it cannot: a field is longer
    /// than its length prefix can say, or the name or the comment is
    /// announced as UTF-8 and is none.
    pub open spec fn write_error(&self) -> Option<ZipError> {
        if self.file_name@.len() > MAX_FIELD_LENGTH || self.extra_field@.len() > MAX_FIELD_LENGTH
            || self.file_comment@.len() > MAX_FIELD_LENGTH {
            Some(ZipError::TooLongField)
        } else if flag_utf8_name(self.general_purpose_bit_flag) && !(valid_utf8(self.file_name@) && valid_utf8(
            self.file_comment@,
        )) {
            Some(ZipError::NonUTF8Field)
        } else {
            None
        }
    }

    /// The number of bytes that the record at `pos` announces for itself.
    pub open spec fn size_at(data: Seq<u8>, pos: int) -> int {
        46 + le_u16_at(data, pos + 28) + le_u16_at(data, pos + 30) + le_u16_at(data, pos + 32)
    }

    /// Why the bytes at `pos` cannot be read as a record, if they cannot.
    /// The causes are tried in the order in which the fields stand.
    pub open spec fn parse_error(data: Seq<u8>, pos: int) -> Option<ZipError> {
        let text = flag_utf8_name(le_u16_at(data, pos + 8));
        let name_len = le_u16_at(data, pos + 28) as int;
        let extra_len = le_u16_at(data, pos + 30) as int;
        let comment_len = le_u16_at(data, pos + 32) as int;
        if pos + 4 > data.len() {
            Some(ZipError::IoError(IoError::EndOfFile))
        } else if le_u32_at(data, pos) != CDH_SIGNATURE {
            Some(ZipError::InvalidSignature(le_u32_at(data, pos)))
        } else if pos + 46 > data.len() {
            Some(ZipError::IoError(IoError::EndOfFile))
        } else if field_error(data, pos + 46, name_len, text) is Some {
            field_error(data, pos + 46, name_len, text)
        } else if pos + 46 + name_len + extra_len > data.len() {
            Some(ZipError::IoError(IoError::EndOfFile))
        } else {
            field_error(data, pos + 46 + name_len + extra_len, comment_len, text)
        }
    }

    /// Whether the record is what the bytes at `pos` say.
    pub open spec fn decoded_from(&self, data: Seq<u8>, pos: int) -> bool {
        let name_len = le_u16_at(data, pos + 28) as int;
        let extra_len = le_u16_at(data, pos + 30) as int;
        let comment_len = le_u16_at(data, pos + 32) as int;
        &&& self.version_made_by == le_u16_at(data, pos + 4)
        &&& self.version_needed_to_extract == le_u16_at(data, pos + 6)
        &&& self.general_purpose_bit_flag == le_u16_at(data, pos + 8)
        &&& self.compression_method == le_u16_at(data, pos + 10)
        &&& self.last_modified_datetime.time_bits() == le_u16_at(data, pos + 12)
        &&& self.last_modified_datetime.date_bits() == le_u16_at(data, pos + 14)
        &&& self.crc32 == le_u32_at(data, pos + 16)
        &&& self.compressed_size == le_u32_at(data, pos + 20)
        &&& self.uncompressed_size == le_u32_at(data, pos + 24)
        &&& self.disk_number_start == le_u16_at(data, pos + 34)
        &&& self.internal_file_attributes == le_u16_at(data, pos + 36)
        &&& self.external_file_attributes == le_u32_at(data, pos + 38)
        &&& self.relative_offset_of_local_header == le_u32_at(data, pos + 42)
        &&& self.file_name@ == data.subrange(pos + 46, pos + 46 + name_len)
        &&& self.file_name.is_text() == flag_utf8_name(self.general_purpose_bit_flag)
        &&& self.extra_field@ == data.subrange(pos + 46 + name_len, pos + 46 + name_len + extra_len)
        &&& self.file_comment@ == data.subrange(
            pos + 46 + name_len + extra_len,
            pos + 46 + name_len + extra_len + comment_len,
        )
        &&& self.file_comment.is_text() == flag_utf8_name(self.general_purpose_bit_flag)
    }

    /// Whether two records hold the same numbers and the same field bytes.
    pub open spec fn same_record(&self, other: &CentralDirectoryHeader) -> bool {
        &&& self.version_made_by == other.version_made_by
        &&& self.version_needed_to_extract == other.version_needed_to_extract
        &&& self.general_purpose_bit_flag == other.general_purpose_bit_flag
        &&& self.compression_method == other.compression_method
        &&& self.last_modified_datetime.time_bits() == other.last_modified_datetime.time_bits()
        &&& self.last_modified_datetime.date_bits() == other.last_modified_datetime.date_bits()
        &&& self.crc32 == other.crc32
        &&& self.compressed_size == other.compressed_size
        &&& self.uncompressed_size == other.uncompressed_size
        &&& self.disk_number_start == other.disk_number_start
        &&& self.internal_file_attributes == other.internal_file_attributes
        &&& self.external_file_attributes == other.external_file_attributes
        &&& self.relative_offset_of_local_header == other.relative_offset_of_local_header
        &&& self.file_name@ == other.file_name@
        &&& self.extra_field@ == other.extra_field@
        &&& self.file_comment@ == other.file_comment@
    }

    fn read_fields(r: &mut ByteReader) -> (res: ZipResult<CentralDirectoryHeader>)
        ensures
            final(r).data == old(r).data,
            match res {
                Ok(h) => Self::parse_error(old(r).data@, old(r).pos as int) is None
                    && h.decoded_from(old(r).data@, old(r).pos as int)
                    && final(r).pos == old(r).pos + h.spec_total_size(),
                Err(e) => Self::parse_error(old(r).data@, old(r).pos as int) == Some(e),
            },
    {
        let mut h = CentralDirectoryHeader::new();

        let magic: u32 = get_u32(r)?;
        if magic != CDH_SIGNATURE {
            return Err(ZipError::InvalidSignature(magic));
        }
        h.version_made_by = get_u16(r)?;
        h.version_needed_to_extract = get_u16(r)?;
        h.general_purpose_bit_flag = get_u16(r)?;
        h.compression_method = get_u16(r)?;
        h.last_modified_datetime = match MsdosDateTime::read(r) {
            Ok(d) => d,
            Err(e) => {
                return Err(ZipError::IoError(e));
            },
        };
        h.crc32 = get_u32(r)?;
        h.compressed_size = get_u32(r)?;
        h.uncompressed_size = get_u32(r)?;
        let file_name_length: usize = get_u16(r)? as usize;
        let extra_field_length: usize = get_u16(r)? as usize;
        let file_comment_length: usize = get_u16(r)? as usize;
        h.disk_number_start = get_u16(r)?;
        h.internal_file_attributes = get_u16(r)?;
        h.external_file_attributes = get_u32(r)?;
        h.relative_offset_of_local_header = get_u32(r)?;
        h.file_name = read_maybe_utf8(r, h.has_utf8_name(), file_name_length)?;
        h.extra_field = get_bytes(r, extra_field_length)?;
        h.file_comment = read_maybe_utf8(r, h.has_utf8_name(), file_comment_length)?;
        Ok(h)
    }

    /// Reads a CentralDirectoryHeader from the current position of the
    /// reader `r` and moves past it. Where the bytes give no record the
    /// reader stays where it was.
    pub fn read(r: &mut ByteReader) -> (res: ZipResult<CentralDirectoryHeader>)
        ensures
            final(r).data == old(r).data,
            match res {
                Ok(h) => Self::parse_error(old(r).data@, old(r).pos as int) is None
                    && h.decoded_from(old(r).data@, old(r).pos as int)
                    && h.spec_total_size() == Self::size_at(old(r).data@, old(r).pos as int)
                    && final(r).pos == old(r).pos + h.spec_total_size(),
                Err(e) => Self::parse_error(old(r).data@, old(r).pos as int) == Some(e)
                    && final(r).pos == old(r).pos,
            },
    {
        let start: u64 = r.tell();
        let res = Self::read_fields(r);
        if res.is_err() {
            r.seek(start);
        }
        res
    }

    /// Appends the record to `w`, in one piece. Nothing is appended where
    /// the record cannot be written.
    pub fn write(&self, w: &mut Vec<u8>) -> (res: ZipResult<()>)
        ensures
            match res {
                Ok(_) => self.write_error() is None && final(w)@ == old(w)@ + self.wire(),
                Err(e) => self.write_error() == Some(e) && final(w)@ == old(w)@,
            },
    {
        let file_name_length: u16 = ensure_u16_field_length(self.file_name.len())?;
        let extra_field_length: u16 = ensure_u16_field_length(self.extra_field.len())?;
        let file_comment_length: u16 = ensure_u16_field_length(self.file_comment.len())?;
        if self.has_utf8_name() && (self.file_name.as_str().is_none() || self.file_comment.as_str().is_none()) {
            return Err(ZipError::NonUTF8Field);
        }
        let mut record: Vec<u8> = Vec::new();
        assert(record@ + le_u32_bytes(CDH_SIGNATURE) =~= le_u32_bytes(CDH_SIGNATURE));
        put_le_u32(&mut record, CDH_SIGNATURE);
        put_le_u16(&mut record, self.version_made_by);
        put_le_u16(&mut record, self.version_needed_to_extract);
        put_le_u16(&mut record, self.general_purpose_bit_flag);
        put_le_u16(&mut record, self.compression_method);
        let _ = self.last_modified_datetime.write(&mut record);
        put_le_u32(&mut record, self.crc32);
        put_le_u32(&mut record, self.compressed_size);
        put_le_u32(&mut record, self.uncompressed_size);
        put_le_u16(&mut record, file_name_length);
        put_le_u16(&mut record, extra_field_length);
        put_le_u16(&mut record, file_comment_length);
        put_le_u16(&mut record, self.disk_number_start);
        put_le_u16(&mut record, self.internal_file_attributes);
        put_le_u32(&mut record, self.external_file_attributes);
        put_le_u32(&mut record, self.relative_offset_of_local_header);
        put_bytes(&mut record, self.file_name.as_bytes());
        put_bytes(&mut record, self.extra_field.as_slice());
        put_bytes(&mut record, self.file_comment.as_bytes());
        assert(record@ == self.wire());
        put_bytes(w, record.as_slice());
        Ok(())
    }

    /// Where the record stands in its own bytes.
    pub proof fn lemma_wire_layout(&self)
        requires
            self.file_name@.len() <= MAX_FIELD_LENGTH,
            self.extra_field@.len() <= MAX_FIELD_LENGTH,
            self.file_comment@.len() <= MAX_FIELD_LENGTH,
        ensures
            self.wire().len() == self.spec_total_size(),
            Self::size_at(self.wire(), 0) == self.spec_total_size(),
            Self::parse_error(self.wire(), 0) is None <==> self.write_error() is None,
            forall|g: CentralDirectoryHeader| #[trigger] g.decoded_from(self.wire(), 0) ==> g.same_record(self),
    {
        let n = self.file_name@.len() as int;
        let m = self.extra_field@.len() as int;
        let c = self.file_comment@.len() as int;
        let s0 = le_u32_bytes(CDH_SIGNATURE);
        let s1 = s0 + le_u16_bytes(self.version_made_by);
        let s2 = s1 + le_u16_bytes(self.version_needed_to_extract);
        let s3 = s2 + le_u16_bytes(self.general_purpose_bit_flag);
        let s4 = s3 + le_u16_bytes(self.compression_method);
        let s5 = s4 + le_u16_bytes(self.last_modified_datetime.time_bits());
        let s6 = s5 + le_u16_bytes(self.last_modified_datetime.date_bits());
        let s7 = s6 + le_u32_bytes(self.crc32);
        let s8 = s7 + le_u32_bytes(self.compressed_size);
        let s9 = s8 + le_u32_bytes(self.uncompressed_size);
        let s10 = s9 + le_u16_bytes(n as u16);
        let s11 = s10 + le_u16_bytes(m as u16);
        let s12 = s11 + le_u16_bytes(c as u16);
        let s13 = s12 + le_u16_bytes(self.disk_number_start);
        let s14 = s13 + le_u16_bytes(self.internal_file_attributes);
        let s15 = s14 + le_u32_bytes(self.external_file_attributes);
        let s16 = s15 + le_u32_bytes(self.relative_offset_of_local_header);
        let s17 = s16 + self.file_name@;
        let s18 = s17 + self.extra_field@;
        let w = s18 + self.file_comment@;
        lemma_append_u32(Seq::empty(), CDH_SIGNATURE);
        assert(Seq::<u8>::empty() + s0 =~= s0);
        lemma_append_u16(s0, self.version_made_by);
        lemma_append_u16(s1, self.version_needed_to_extract);
        lemma_append_u16(s2, self.general_purpose_bit_flag);
        lemma_append_u16(s3, self.compression_method);
        lemma_append_u16(s4, self.last_modified_datetime.time_bits());
        lemma_append_u16(s5, self.last_modified_datetime.date_bits());
        lemma_append_u32(s6, self.crc32);
        lemma_append_u32(s7, self.compressed_size);
        lemma_append_u32(s8, self.uncompressed_size);
        lemma_append_u16(s9, n as u16);
        lemma_append_u16(s10, m as u16);
        lemma_append_u16(s11, c as u16);
        lemma_append_u16(s12, self.disk_number_start);
        lemma_append_u16(s13, self.internal_file_attributes);
        lemma_append_u32(s14, self.external_file_attributes);
        lemma_append_u32(s15, self.relative_offset_of_local_header);
        lemma_append_bytes(s16, self.file_name@);
        lemma_append_bytes(s17, self.extra_field@);
        lemma_append_bytes(s18, self.file_comment@);
        assert(w == self.wire());
        assert(w.len() == 46 + n + m + c);
        assert(le_u16_at(w, 28) == n);
        assert(le_u16_at(w, 30) == m);
        assert(le_u16_at(w, 32) == c);
        assert(w.subrange(46, 46 + n) == self.file_name@);
        assert(w.subrange(46 + n, 46 + n + m) == self.extra_field@);
        assert(w.subrange(46 + n + m, 46 + n + m + c) == self.file_comment@);
    }

    /// Writing a record and reading it back gives an equal record: one that
    /// can be written is read without error from its bytes, wherever they
    /// stand, and every record read from them holds the same numbers and
    /// the same field bytes.
    pub proof fn lemma_write_then_read(&self, before: Seq<u8>, after: Seq<u8>)
        requires
            self.write_error() is None,
        ensures
            Self::parse_error(before + self.wire() + after, before.len() as int) is None,
            Self::size_at(before + self.wire() + after, before.len() as int) == self.spec_total_size(),
            forall|g: CentralDirectoryHeader| #[trigger]
                g.decoded_from(before + self.wire() + after, before.len() as int) ==> g.same_record(self),
    {
        self.lemma_wire_layout();
        Self::lemma_read_in_place(before, self.wire(), after);
    }

    /// Bytes that are read as a record when they stand alone are read as
    /// the same record wherever they stand.
    pub proof fn lemma_read_in_place(before: Seq<u8>, w: Seq<u8>, after: Seq<u8>)
        requires
            Self::parse_error(w, 0) is None,
        ensures
            Self::parse_error(before + w + after, before.len() as int) is None,
            Self::size_at(before + w + after, before.len() as int) == Self::size_at(w, 0),
            forall|g: CentralDirectoryHeader| #[trigger]
                g.decoded_from(before + w + after, before.len() as int) ==> g.decoded_from(w, 0),
    {
        let data = before + w + after;
        let pos = before.len() as int;
        lemma_embedded(before, w, after);
        let n = le_u16_at(w, 28) as int;
        let m = le_u16_at(w, 30) as int;
        let c = le_u16_at(w, 32) as int;
        assert(le_u32_at(data, pos) == le_u32_at(w, 0));
        assert(le_u16_at(data, pos + 8) == le_u16_at(w, 8));
        assert(le_u16_at(data, pos + 28) == n);
        assert(le_u16_at(data, pos + 30) == m);
        assert(le_u16_at(data, pos + 32) == c);
        assert(data.subrange(pos + 46, pos + 46 + n) == w.subrange(46, 46 + n));
        assert(data.subrange(pos + 46 + n, pos + 46 + n + m) == w.subrange(46 + n, 46 + n + m));
        assert(data.subrange(pos + 46 + n + m, pos + 46 + n + m + c) == w.subrange(46 + n + m, 46 + n + m + c));
    }
}

#[derive(Debug)]
pub struct CentralDirectoryDigitalSignature {
    pub data_size: u16,
    pub data: Vec<u8>,
}

// ==== END OF CENTRAL DIRECTORY RECORD ====

/// The record that closes an archive and says where its central directory
/// stands.
#[derive(Debug)]
pub struct EndOfCentralDirectoryRecord {
    pub disk_number: u16,
    pub disk_number_with_start_of_central_directory: u16,
    pub entry_count_this_disk: u16,
    pub total_entry_count: u16,
    pub central_directory_size: u32,
    pub central_directory_offset: u32,
    pub comment: Vec<u8>,  // no encoding provision
}

impl EndOfCentralDirectoryRecord {
    /// The record with every number zero and an empty comment.
    pub fn new() -> (h: EndOfCentralDirectoryRecord)
        ensures
            h.disk_number == 0,
            h.disk_number_with_start_of_central_directory == 0,
            h.entry_count_this_disk == 0,
            h.total_entry_count == 0,
            h.central_directory_size == 0,
            h.central_directory_offset == 0,
            h.comment@ == Seq::<u8>::empty(),
    {
        EndOfCentralDirectoryRecord {
            disk_number: 0,
            disk_number_with_start_of_central_directory: 0,
            entry_count_this_disk: 0,
            total_entry_count: 0,
            central_directory_size: 0,
            central_directory_offset: 0,
            comment: Vec::new(),
        }
    }

    /// The number of bytes that the record takes in an archive.
    pub open spec fn spec_total_size(&self) -> nat {
        22 + self.comment@.len()
    }

    /// The bytes that stand for the record in an archive.
    pub open spec fn wire(&self) -> Seq<u8> {
        le_u32_bytes(EOCDR_SIGNATURE)
            + le_u16_bytes(self.disk_number)
            + le_u16_bytes(self.disk_number_with_start_of_central_directory)
            + le_u16_bytes(self.entry_count_this_disk)
            + le_u16_bytes(self.total_entry_count)
            + le_u32_bytes(self.central_directory_size)
            + le_u32_bytes(self.central_directory_offset)
            + le_u16_bytes(self.comment@.len() as u16)
            + self.comment@
    }

    /// Why the record cannot be written, if it cannot: the comment is
    /// longer than its length prefix can say.
    pub open spec fn write_error(&self) -> Option<ZipError> {
        if self.comment@.len() > MAX_FIELD_LENGTH {
            Some(ZipError::TooLongField)
        } else {
            None
        }
    }

    /// Why the bytes at `pos` cannot be read as a record, if they cannot.
    pub open spec fn parse_error(data: Seq<u8>, pos: int) -> Option<ZipError> {
        if pos + 4 > data.len() {
            Some(ZipError::IoError(IoError::EndOfFile))
        } else if le_u32_at(data, pos) != EOCDR_SIGNATURE {
            Some(ZipError::InvalidSignature(le_u32_at(data, pos)))
        } else if pos + 22 > data.len() || pos + 22 + le_u16_at(data, pos + 20) > data.len() {
            Some(ZipError::IoError(IoError::EndOfFile))
        } else {
            None
        }
    }

    /// Whether the record is what the bytes at `pos` say.
    pub open spec fn decoded_from(&self, data: Seq<u8>, pos: int) -> bool {
        &&& self.disk_number == le_u16_at(data, pos + 4)
        &&& self.disk_number_with_start_of_central_directory == le_u16_at(data, pos + 6)
        &&& self.entry_count_this_disk == le_u16_at(data, pos + 8)
        &&& self.total_entry_count == le_u16_at(data, pos + 10)
        &&& self.central_directory_size == le_u32_at(data, pos + 12)
        &&& self.central_directory_offset == le_u32_at(data, pos + 16)
        &&& self.comment@ == data.subrange(pos + 22, pos + 22 + le_u16_at(data, pos + 20))
    }

    /// Whether two records hold the same numbers and the same comment.
    pub open spec fn same_record(&self, other: &EndOfCentralDirectoryRecord) -> bool {
        &&& self.disk_number == other.disk_number
        &&& self.disk_number_with_start_of_central_directory
            == other.disk_number_with_start_of_central_directory
        &&& self.entry_count_this_disk == other.entry_count_this_disk
        &&& self.total_entry_count == other.total_entry_count
        &&& self.central_directory_size == other.central_directory_size
        &&& self.central_directory_offset == other.central_directory_offset
        &&& self.comment@ == other.comment@
    }

    fn read_fields(r: &mut ByteReader) -> (res: ZipResult<EndOfCentralDirectoryRecord>)
        ensures
            final(r).data == old(r).data,
            match res {
                Ok(h) => Self::parse_error(old(r).data@, old(r).pos as int) is None
                    && h.decoded_from(old(r).data@, old(r).pos as int)
                    && final(r).pos == old(r).pos + h.spec_total_size(),
                Err(e) => Self::parse_error(old(r).data@, old(r).pos as int) == Some(e),
            },
    {
        let mut h = EndOfCentralDirectoryRecord::new();

        let magic: u32 = get_u32(r)?;
        if magic != EOCDR_SIGNATURE {
            return Err(ZipError::InvalidSignature(magic));
        }
        h.disk_number = get_u16(r)?;
        h.disk_number_with_start_of_central_directory = get_u16(r)?;
        h.entry_count_this_disk = get_u16(r)?;
        h.total_entry_count = get_u16(r)?;
        h.central_directory_size = get_u32(r)?;
        h.central_directory_offset = get_u32(r)?;
        let comment_length: usize = get_u16(r)? as usize;
        h.comment = get_bytes(r, comment_length)?;
        Ok(h)
    }

    /// Reads an EndOfCentralDirectoryRecord from the current position of
    /// the reader `r` and moves past it. Where the bytes give no record the
    /// reader stays where it was.
    pub fn read(r: &mut ByteReader) -> (res: ZipResult<EndOfCentralDirectoryRecord>)
        ensures
            final(r).data == old(r).data,
            match res {
                Ok(h) => Self::parse_error(old(r).data@, old(r).pos as int) is None
                    && h.decoded_from(old(r).data@, old(r).pos as int)
                    && final(r).pos == old(r).pos + h.spec_total_size(),
                Err(e) => Self::parse_error(old(r).data@, old(r).pos as int) == Some(e)
                    && final(r).pos == old(r).pos,
            },
    {
        let start: u64 = r.tell();
        let res = Self::read_fields(r);
        if res.is_err() {
            r.seek(start);
        }
        res
    }

    /// Appends the record to `w`, in one piece. Nothing is appended where
    /// the record cannot be written.
    pub fn write(&self, w: &mut Vec<u8>) -> (res: ZipResult<()>)
        ensures
            match res {
                Ok(_) => self.write_error() is None && final(w)@ == old(w)@ + self.wire(),
                Err(e) => self.write_error() == Some(e) && final(w)@ == old(w)@,
            },
    {
        let comment_length: u16 = ensure_u16_field_length(self.comment.len())?;
        let mut record: Vec<u8> = Vec::new();
        assert(record@ + le_u32_bytes(EOCDR_SIGNATURE) =~= le_u32_bytes(EOCDR_SIGNATURE));
        put_le_u32(&mut record, EOCDR_SIGNATURE);
        put_le_u16(&mut record, self.disk_number);
        put_le_u16(&mut record, self.disk_number_with_start_of_central_directory);
        put_le_u16(&mut record, self.entry_count_this_disk);
        put_le_u16(&mut record, self.total_entry_count);
        put_le_u32(&mut record, self.central_directory_size);
        put_le_u32(&mut record, self.central_directory_offset);
        put_le_u16(&mut record, comment_length);
        put_bytes(&mut record, self.comment.as_slice());
        assert(record@ == self.wire());
        put_bytes(w, record.as_slice());
        Ok(())
    }

    /// Where the record stands in its own bytes.
    pub proof fn lemma_wire_layout(&self)
        requires
            self.comment@.len() <= MAX_FIELD_LENGTH,
        ensures
            self.wire().len() == self.spec_total_size(),
            le_u32_at(self.wire(), 0) == EOCDR_SIGNATURE,
            Self::parse_error(self.wire(), 0) is None,
            forall|g: EndOfCentralDirectoryRecord| #[trigger] g.decoded_from(self.wire(), 0) ==> g.same_record(self),
    {
        let c = self.comment@.len() as int;
        let s0 = le_u32_bytes(EOCDR_SIGNATURE);
        let s1 = s0 + le_u16_bytes(self.disk_number);
        let s2 = s1 + le_u16_bytes(self.disk_number_with_start_of_central_directory);
        let s3 = s2 + le_u16_bytes(self.entry_count_this_disk);
        let s4 = s3 + le_u16_bytes(self.total_entry_count);
        let s5 = s4 + le_u32_bytes(self.central_directory_size);
        let s6 = s5 + le_u32_bytes(self.central_directory_offset);
        let s7 = s6 + le_u16_bytes(c as u16);
        let w = s7 + self.comment@;
        lemma_append_u32(Seq::empty(), EOCDR_SIGNATURE);
        assert(Seq::<u8>::empty() + s0 =~= s0);
        lemma_append_u16(s0, self.disk_number);
        lemma_append_u16(s1, self.disk_number_with_start_of_central_directory);
        lemma_append_u16(s2, self.entry_count_this_disk);
        lemma_append_u16(s3, self.total_entry_count);
        lemma_append_u32(s4, self.central_directory_size);
        lemma_append_u32(s5, self.central_directory_offset);
        lemma_append_u16(s6, c as u16);
        lemma_append_bytes(s7, self.comment@);
        assert(w == self.wire());
        assert(w.len() == 22 + c);
        assert(le_u16_at(w, 20) == c);
        assert(w.subrange(22, 22 + c) == self.comment@);
    }

    /// Writing a record and reading it back gives an equal record: one that
    /// can be written is read without error from its bytes, wherever they
    /// stand, and every record read from them holds the same numbers and
    /// the same comment.
    pub proof fn lemma_write_then_read(&self, before: Seq<u8>, after: Seq<u8>)
        requires
            self.write_error() is None,
        ensures
            Self::parse_error(before + self.wire() + after, before.len() as int) is None,
            forall|g: EndOfCentralDirectoryRecord| #[trigger]
                g.decoded_from(before + self.wire() + after, before.len() as int) ==> g.same_record(self),
    {
        self.lemma_wire_layout();
        let w = self.wire();
        let data = before + w + after;
        let pos = before.len() as int;
        lemma_embedded(before, w, after);
        let c = self.comment@.len() as int;
        assert(data.subrange(pos + 22, pos + 22 + c) == w.subrange(22, 22 + c));
        assert forall|g: EndOfCentralDirectoryRecord| #[trigger] g.decoded_from(data, pos) implies g.same_record(
            self,
        ) by {
            assert(g.decoded_from(w, 0));
        }
    }
}

/// What was stored before an appended 16-bit value is read as before, and
/// the value is read where it was appended.
proof fn lemma_append_u16(a: Seq<u8>, v: u16)
    ensures
        (a + le_u16_bytes(v)).len() == a.len() + 2,
        le_u16_at(a + le_u16_bytes(v), a.len() as int) == v,
        forall|k: int| 0 <= k && k + 2 <= a.len() ==> #[trigger] le_u16_at(a + le_u16_bytes(v), k) == le_u16_at(a, k),
        forall|k: int| 0 <= k && k + 4 <= a.len() ==> #[trigger] le_u32_at(a + le_u16_bytes(v), k) == le_u32_at(a, k),
{
}

/// What was stored before an appended 32-bit value is read as before, and
/// the value is read where it was appended.
proof fn lemma_append_u32(a: Seq<u8>, v: u32)
    ensures
        (a + le_u32_bytes(v)).len() == a.len() + 4,
        le_u32_at(a + le_u32_bytes(v), a.len() as int) == v,
        forall|k: int| 0 <= k && k + 2 <= a.len() ==> #[trigger] le_u16_at(a + le_u32_bytes(v), k) == le_u16_at(a, k),
        forall|k: int| 0 <= k && k + 4 <= a.len() ==> #[trigger] le_u32_at(a + le_u32_bytes(v), k) == le_u32_at(a, k),
{
}

/// What was stored before appended bytes is read as before, and the bytes
/// are found where they were appended.
proof fn lemma_append_bytes(a: Seq<u8>, b: Seq<u8>)
    ensures
        (a + b).len() == a.len() + b.len(),
        (a + b).subrange(a.len() as int, (a.len() + b.len()) as int) == b,
        forall|i: int, j: int| 0 <= i <= j <= a.len() ==> #[trigger] (a + b).subrange(i, j) == a.subrange(i, j),
        forall|k: int| 0 <= k && k + 2 <= a.len() ==> #[trigger] le_u16_at(a + b, k) == le_u16_at(a, k),
        forall|k: int| 0 <= k && k + 4 <= a.len() ==> #[trigger] le_u32_at(a + b, k) == le_u32_at(a, k),
{
    assert((a + b).subrange(a.len() as int, (a.len() + b.len()) as int) =~= b);
    assert forall|i: int, j: int| 0 <= i <= j <= a.len() implies #[trigger] (a + b).subrange(i, j) == a.subrange(
        i,
        j,
    ) by {
        assert((a + b).subrange(i, j) =~= a.subrange(i, j));
    }
}

/// Bytes that stand inside a longer sequence are read there as they are read
/// alone.
pub proof fn lemma_embedded(before: Seq<u8>, mid: Seq<u8>, after: Seq<u8>)
    ensures
        (before + mid + after).len() == before.len() + mid.len() + after.len(),
        forall|j: int|
            before.len() <= j && j + 2 <= before.len() + mid.len() ==> #[trigger] le_u16_at(before + mid + after, j)
                == le_u16_at(mid, j - before.len()),
        forall|j: int|
            before.len() <= j && j + 4 <= before.len() + mid.len() ==> #[trigger] le_u32_at(before + mid + after, j)
                == le_u32_at(mid, j - before.len()),
        forall|i: int, j: int|
            before.len() <= i <= j <= before.len() + mid.len() ==> #[trigger] (before + mid + after).subrange(i, j)
                == mid.subrange(i - before.len(), j - before.len()),
{
    assert forall|i: int, j: int| before.len() <= i <= j <= before.len() + mid.len() implies #[trigger] (before
        + mid + after).subrange(i, j) == mid.subrange(i - before.len(), j - before.len()) by {
        assert((before + mid + after).subrange(i, j) =~= mid.subrange(i - before.len(), j - before.len()));
    }
}

} // verus!
