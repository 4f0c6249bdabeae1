//! The archive reader: locating the end record, walking the central
//! directory, looking entries up and extracting them.

use vstd::prelude::*;
use vstd::pervasive::unreached;
use crate::crc32::{crc32, spec_crc32};
use crate::error::{IoError, ZipError};
use crate::fileinfo::{CompressionMethod, FileInfo};
use crate::format::{
    flag_utf8_name, CentralDirectoryHeader, EndOfCentralDirectoryRecord, LocalFileHeader, EOCDR_SIGNATURE,
};
use crate::maybe_utf8::MaybeUTF8;
use crate::stream::{ByteReader, le_u16_at, le_u32_at, put_bytes};

verus! {

// ==== INFLATE ====

/// `miniz_oxide::inflate::DecompressError`, which a failed inflation hands
/// back. It is carried through unopened.
#[verifier::external_type_specification]
#[verifier::external_body]
pub struct ExDecompressError(miniz_oxide::inflate::DecompressError);

/// What inflating a raw DEFLATE stream gives: the inflated bytes, or nothing
/// where the stream is malformed.
pub uninterp spec fn inflated(compressed: Seq<u8>) -> Option<Seq<u8>>;

/// `miniz_oxide::inflate::decompress_to_vec`: it inflates a raw DEFLATE
/// stream into a fresh buffer, or fails. The outcome depends on the given
/// bytes alone, and `inflated` is its name.
#[verifier::external_body]
fn inflate_bytes(data: &[u8]) -> (res: Result<Vec<u8>, miniz_oxide::inflate::DecompressError>)
    ensures
        match res {
            Ok(v) => inflated(data@) == Some(v@),
            Err(_) => inflated(data@) is None,
        },
{
    miniz_oxide::inflate::decompress_to_vec(data)
}

// ==== THE END RECORD ====

/// Whether the end record's signature stands at offset `o`.
pub open spec fn signature_at(data: Seq<u8>, o: int) -> bool {
    0 <= o && o + 4 <= data.len() && le_u32_at(data, o) == EOCDR_SIGNATURE
}

/// Whether the signature stands at `o` and nowhere after it.
pub open spec fn is_last_signature(data: Seq<u8>, o: int) -> bool {
    signature_at(data, o) && forall|p: int| o < p ==> !signature_at(data, p)
}

/// Whether the signature stands anywhere.
pub open spec fn has_signature(data: Seq<u8>) -> bool {
    exists|o: int| signature_at(data, o)
}

/// The offset of the signature that is closest to the end.
pub open spec fn end_record_offset(data: Seq<u8>) -> int {
    choose|o: int| is_last_signature(data, o)
}

/// Why the bytes cannot be opened as an archive, if they cannot: they hold
/// no signature, or no end record can be read at the last one.
pub open spec fn open_error(data: Seq<u8>) -> Option<ZipError> {
    if !has_signature(data) {
        Some(ZipError::NotAZipFile)
    } else {
        EndOfCentralDirectoryRecord::parse_error(data, end_record_offset(data))
    }
}

/// The last signature is where `end_record_offset` says.
pub proof fn lemma_last_signature(data: Seq<u8>, o: int)
    requires
        is_last_signature(data, o),
    ensures
        has_signature(data),
        end_record_offset(data) == o,
{
    let c = end_record_offset(data);
    assert(is_last_signature(data, c));
    if c < o {
        assert(!signature_at(data, o));
    }
    if o < c {
        assert(!signature_at(data, c));
    }
}

// ==== THE CENTRAL DIRECTORY ====

/// The most that one central directory header can take: 46 bytes and three
/// fields of 65535.
pub const MAX_ENTRY_SIZE: u64 = 196651;

/// Why no entry can be told from the bytes at `pos`, if none can: no header
/// can be read there, or its method is neither Store nor Deflate.
pub open spec fn entry_error(data: Seq<u8>, pos: int) -> Option<ZipError> {
    if CentralDirectoryHeader::parse_error(data, pos) is Some {
        CentralDirectoryHeader::parse_error(data, pos)
    } else if CompressionMethod::spec_from_u16(le_u16_at(data, pos + 10)) == CompressionMethod::Unknown {
        Some(ZipError::UnsupportedFeature)
    } else {
        None
    }
}

/// The name bytes of the header at `pos`.
pub open spec fn entry_name(data: Seq<u8>, pos: int) -> Seq<u8> {
    data.subrange(pos + 46, pos + 46 + le_u16_at(data, pos + 28))
}

/// Where the header of entry `i` stands, in a directory that starts at
/// `start`: each header follows the one before it.
pub open spec fn entry_offset(data: Seq<u8>, start: int, i: nat) -> int
    decreases i,
{
    if i == 0 {
        start
    } else {
        let before = entry_offset(data, start, (i - 1) as nat);
        before + CentralDirectoryHeader::size_at(data, before)
    }
}

/// The failure at the first of the first `count` entries that cannot be
/// told, if there is one.
pub open spec fn walk_error(data: Seq<u8>, start: int, count: nat) -> Option<ZipError>
    decreases count,
{
    if count == 0 {
        None
    } else if walk_error(data, start, (count - 1) as nat) is Some {
        walk_error(data, start, (count - 1) as nat)
    } else {
        entry_error(data, entry_offset(data, start, (count - 1) as nat))
    }
}

/// The index of the first entry from `i` on whose name is `name`, or the
/// failure that comes before one is found.
pub open spec fn lookup_from(data: Seq<u8>, start: int, i: nat, count: nat, name: Seq<u8>) -> Result<nat, ZipError>
    decreases count - i,
{
    if i >= count {
        Err(ZipError::FileNotFoundInArchive)
    } else if entry_error(data, entry_offset(data, start, i)) is Some {
        Err(entry_error(data, entry_offset(data, start, i))->Some_0)
    } else if entry_name(data, entry_offset(data, start, i)) == name {
        Ok(i)
    } else {
        lookup_from(data, start, i + 1, count, name)
    }
}

// ==== EXTRACTION ====

/// The raw data of the entry whose local file header stands at `off`: the
/// bytes that follow the header, as many as it says.
pub open spec fn payload(data: Seq<u8>, off: int) -> Result<Seq<u8>, ZipError> {
    let start = off + 30 + le_u16_at(data, off + 26) + le_u16_at(data, off + 28);
    let len = le_u32_at(data, off + 18) as int;
    if LocalFileHeader::parse_error(data, off) is Some {
        Err(LocalFileHeader::parse_error(data, off)->Some_0)
    } else if start + len > data.len() {
        Err(ZipError::IoError(IoError::EndOfFile))
    } else {
        Ok(data.subrange(start, start + len))
    }
}

/// The content that raw data stands for under a compression method: itself
/// under Store, what it inflates to under Deflate.
pub open spec fn unpacked(method: u16, raw: Seq<u8>) -> Result<Seq<u8>, ZipError> {
    match CompressionMethod::spec_from_u16(method) {
        CompressionMethod::Store => Ok(raw),
        CompressionMethod::Deflate => match inflated(raw) {
            Some(content) => Ok(content),
            None => Err(ZipError::DecompressionFailure),
        },
        CompressionMethod::Unknown => Err(ZipError::UnsupportedFeature),
    }
}

/// What is handed out of a content: all of it where its checksum is the
/// expected one or none is expected, cut to the wished length where one is
/// given and the content is longer.
pub open spec fn finished(content: Seq<u8>, expected_crc: Option<u32>, wish_len: Option<usize>) -> Result<
    Seq<u8>,
    ZipError,
> {
    if expected_crc is Some && spec_crc32(content) != expected_crc->Some_0 {
        Err(ZipError::CrcError)
    } else if wish_len is Some && wish_len->Some_0 < content.len() {
        Ok(content.take(wish_len->Some_0 as int))
    } else {
        Ok(content)
    }
}

/// What extracting the entry at `off` gives. With no wished length the
/// whole content is given and its checksum is held against the header's;
/// with one, the first bytes are given and nothing is checked.
pub open spec fn extraction(data: Seq<u8>, off: int, wish_len: Option<usize>) -> Result<Seq<u8>, ZipError> {
    let expected_crc = if wish_len is None {
        Some(le_u32_at(data, off + 14))
    } else {
        None
    };
    match payload(data, off) {
        Err(e) => Err(e),
        Ok(raw) => match unpacked(le_u16_at(data, off + 8), raw) {
            Err(e) => Err(e),
            Ok(content) => finished(content, expected_crc, wish_len),
        },
    }
}

/// Checks a content against the expected checksum, where one is given, and
/// cuts it to the wished length, where one is given.
pub fn finish(content: Vec<u8>, expected_crc: Option<u32>, wish_len: Option<usize>) -> (res: Result<Vec<u8>, ZipError>)
    ensures
        match res {
            Ok(v) => finished(content@, expected_crc, wish_len) == Ok::<Seq<u8>, ZipError>(v@),
            Err(e) => finished(content@, expected_crc, wish_len) == Err::<Seq<u8>, ZipError>(e),
        },
{
    let mut content = content;
    match expected_crc {
        Some(c) => {
            if crc32(content.as_slice()) != c {
                return Err(ZipError::CrcError);
            }
        },
        None => {},
    }
    match wish_len {
        Some(n) => {
            if n < content.len() {
                content.truncate(n);
            }
        },
        None => {},
    }
    Ok(content)
}

/// Turns raw data into content under a compression method, then checks and
/// cuts it as `finish` does.
pub fn decompress(data: Vec<u8>, method: u16, expected_crc: Option<u32>, wish_len: Option<usize>) -> (res: Result<
    Vec<u8>,
    ZipError,
>)
    ensures
        match res {
            Ok(v) => unpacked(method, data@) matches Ok(content) && finished(content, expected_crc, wish_len)
                == Ok::<Seq<u8>, ZipError>(v@),
            Err(e) => match unpacked(method, data@) {
                Ok(content) => finished(content, expected_crc, wish_len) == Err::<Seq<u8>, ZipError>(e),
                Err(u) => u == e,
            },
        },
{
    match CompressionMethod::from_u16(method) {
        CompressionMethod::Store => finish(data, expected_crc, wish_len),
        CompressionMethod::Deflate => match inflate_bytes(data.as_slice()) {
            Ok(content) => finish(content, expected_crc, wish_len),
            Err(_) => Err(ZipError::DecompressionFailure),
        },
        CompressionMethod::Unknown => Err(ZipError::UnsupportedFeature),
    }
}

// ==== THE READER ====

/// An archive held in memory, with its end record.
#[derive(Debug)]
pub struct ZipReader {
    reader: ByteReader,
    end_record: EndOfCentralDirectoryRecord,
}

/// A walk over the central directory that hands out failures as items.
/// After a failure the walk is over.
#[derive(Debug)]
pub struct RawFiles {
    current_entry: u16,
    current_offset: u64,
    failed: bool,
}

/// A walk over the central directory for archives whose entries can all be
/// told.
#[derive(Debug)]
pub struct Files {
    base: RawFiles,
}

/// A walk over the names of the central directory for archives whose
/// entries can all be told.
#[derive(Debug)]
pub struct FileNames {
    base: RawFiles,
}

impl RawFiles {
    /// The number of entries handed out so far.
    pub closed spec fn entry(&self) -> u16 {
        self.current_entry
    }

    /// Where the next header stands.
    pub closed spec fn offset(&self) -> u64 {
        self.current_offset
    }

    /// Whether the walk has met a failure.
    pub closed spec fn failed(&self) -> bool {
        self.failed
    }

    /// The offset is one that a walk from a 32-bit start can have reached.
    pub open spec fn wf(&self) -> bool {
        self.offset() <= 0xFFFF_FFFF + self.entry() * MAX_ENTRY_SIZE
    }

    /// Whether the walk is over.
    pub open spec fn done(&self, zip: &ZipReader) -> bool {
        self.failed() || self.entry() >= zip.end_record().total_entry_count
    }

    /// Whether the next step of the walk meets a failure.
    pub open spec fn next_fails(&self, zip: &ZipReader) -> bool {
        !self.done(zip) && entry_error(zip.archive(), self.offset() as int) is Some
    }

    /// Whether `after` is the walk one step further, with `res` handed out.
    pub open spec fn steps_to(&self, zip: &ZipReader, after: &RawFiles, res: Option<Result<FileInfo, ZipError>>) -> bool {
        let data = zip.archive();
        let pos = self.offset() as int;
        if self.done(zip) {
            res is None && *after == *self
        } else if entry_error(data, pos) is Some {
            &&& res matches Some(Err(e))
            &&& Some(e) == entry_error(data, pos)
            &&& after.failed()
            &&& after.entry() == self.entry()
            &&& after.offset() == self.offset()
        } else {
            &&& res matches Some(Ok(f))
            &&& f.describes_entry(data, pos)
            &&& !after.failed()
            &&& after.entry() == self.entry() + 1
            &&& after.offset() == pos + CentralDirectoryHeader::size_at(data, pos)
        }
    }

    /// Hands out the next entry of the directory of `zip`, or the failure
    /// that stands in its place, or nothing where the walk is over.
    pub fn next(&mut self, zip: &mut ZipReader) -> (res: Option<Result<FileInfo, ZipError>>)
        requires
            old(self).wf(),
        ensures
            final(zip).archive() == old(zip).archive(),
            final(zip).end_record() == old(zip).end_record(),
            final(self).wf(),
            old(self).steps_to(old(zip), final(self), res),
    {
        if !self.failed && self.current_entry < zip.end_record.total_entry_count {
            zip.reader.seek(self.current_offset);
            let h = match CentralDirectoryHeader::read(&mut zip.reader) {
                Ok(h) => h,
                Err(err) => {
                    self.failed = true;
                    return Some(Err(err));
                },
            };
            if CompressionMethod::from_u16(h.compression_method) == CompressionMethod::Unknown {
                self.failed = true;
                return Some(Err(ZipError::UnsupportedFeature));
            }
            let info = FileInfo::from_cdh(&h);
            proof {
                info.lemma_from_decoded(&h, zip.archive(), self.current_offset as int);
            }
            self.current_entry += 1;
            self.current_offset += h.total_size() as u64;
            Some(Ok(info))
        } else {
            None
        }
    }
}

impl Files {
    /// The walk underneath.
    pub closed spec fn base(&self) -> RawFiles {
        self.base
    }

    /// Hands out the next entry of the directory of `zip`. An entry that
    /// cannot be told is fatal here: callers rule it out beforehand.
    pub fn next(&mut self, zip: &mut ZipReader) -> (res: Option<FileInfo>)
        requires
            old(self).base().wf(),
            !old(self).base().next_fails(old(zip)),
        ensures
            final(zip).archive() == old(zip).archive(),
            final(zip).end_record() == old(zip).end_record(),
            final(self).base().wf(),
            match res {
                Some(f) => old(self).base().steps_to(old(zip), &final(self).base(), Some(Ok(f))),
                None => old(self).base().steps_to(old(zip), &final(self).base(), None),
            },
    {
        match self.base.next(zip) {
            Some(Ok(f)) => Some(f),
            Some(Err(_)) => unreached(),
            None => None,
        }
    }
}

impl FileNames {
    /// The walk underneath.
    pub closed spec fn base(&self) -> RawFiles {
        self.base
    }

    /// Hands out the name of the next entry of the directory of `zip`. An
    /// entry that cannot be told is fatal here: callers rule it out
    /// beforehand.
    pub fn next(&mut self, zip: &mut ZipReader) -> (res: Option<MaybeUTF8>)
        requires
            old(self).base().wf(),
            !old(self).base().next_fails(old(zip)),
        ensures
            final(zip).archive() == old(zip).archive(),
            final(zip).end_record() == old(zip).end_record(),
            final(self).base().wf(),
            match res {
                Some(name) => {
                    &&& !old(self).base().done(old(zip))
                    &&& name@ == entry_name(old(zip).archive(), old(self).base().offset() as int)
                    &&& name.is_text() == flag_utf8_name(
                        le_u16_at(old(zip).archive(), old(self).base().offset() + 8),
                    )
                    &&& !final(self).base().failed()
                    &&& final(self).base().entry() == old(self).base().entry() + 1
                    &&& final(self).base().offset() == old(self).base().offset() + CentralDirectoryHeader::size_at(
                        old(zip).archive(),
                        old(self).base().offset() as int,
                    )
                },
                None => old(self).base().done(old(zip)) && final(self).base() == old(self).base(),
            },
    {
        match self.base.next(zip) {
            Some(Ok(f)) => Some(f.name),
            Some(Err(_)) => unreached(),
            None => None,
        }
    }
}

impl ZipReader {
    /// The bytes of the archive.
    pub closed spec fn archive(&self) -> Seq<u8> {
        self.reader.data@
    }

    /// The end record that was found when the archive was opened.
    pub closed spec fn end_record(&self) -> EndOfCentralDirectoryRecord {
        self.end_record
    }

    /// The end record is the one that stands at the last signature.
    pub open spec fn wf(&self) -> bool {
        &&& open_error(self.archive()) is None
        &&& self.end_record().decoded_from(self.archive(), end_record_offset(self.archive()))
    }

    /// Where the central directory starts.
    pub open spec fn directory_start(&self) -> int {
        self.end_record().central_directory_offset as int
    }

    /// The number of entries that the end record announces.
    pub open spec fn entry_count(&self) -> nat {
        self.end_record().total_entry_count as nat
    }

    /// Opens the archive that `reader` holds. The end record is looked for
    /// backwards from the end: the signature that is closest to the end is
    /// taken, and the record is read there.
    pub fn new(reader: ByteReader) -> (res: Result<ZipReader, ZipError>)
        ensures
            match res {
                Ok(z) => open_error(reader.data@) is None && z.archive() == reader.data@ && z.wf(),
                Err(e) => open_error(reader.data@) == Some(e),
            },
    {
        // find the End of Central Directory record, looking backwards from the end of the file
        let mut r = reader;
        let file_size: u64 = r.len();
        let mut end_record_offset: Option<u64> = None;
        if file_size >= 4 {
            let mut offset: u64 = file_size - 4;
            loop
                invariant_except_break
                    end_record_offset is None,
                    forall|p: int| offset < p ==> !signature_at(r.data@, p),
                invariant
                    r.data == reader.data,
                    file_size == r.data@.len(),
                    offset + 4 <= file_size,
                ensures
                    r.data == reader.data,
                    match end_record_offset {
                        Some(o) => is_last_signature(r.data@, o as int),
                        None => forall|p: int| !signature_at(r.data@, p),
                    },
                decreases offset,
            {
                r.seek(offset);
                let sig: u32 = match r.read_le_u32() {
                    Ok(sig) => sig,
                    Err(e) => {
                        return Err(ZipError::IoError(e));
                    },
                };
                if sig == EOCDR_SIGNATURE {
                    end_record_offset = Some(offset);
                    break;
                }
                if offset == 0 {
                    break;
                }
                offset -= 1;
            }
        }
        match end_record_offset {
            Some(offset) => {
                proof {
                    lemma_last_signature(r.data@, offset as int);
                }
                r.seek(offset);
                let e = EndOfCentralDirectoryRecord::read(&mut r)?;
                Ok(ZipReader { reader: r, end_record: e })
            },
            None => Err(ZipError::NotAZipFile),
        }
    }

    /// A walk over the central directory, from its start.
    pub fn files_raw(&self) -> (r: RawFiles)
        ensures
            r.entry() == 0,
            r.offset() == self.directory_start(),
            !r.failed(),
            r.wf(),
    {
        let cdr_offset: u32 = self.end_record.central_directory_offset;
        RawFiles { current_entry: 0, current_offset: cdr_offset as u64, failed: false }
    }

    /// A walk over the central directory of an archive whose entries can
    /// all be told.
    pub fn files(&self) -> (r: Files)
        ensures
            r.base().entry() == 0,
            r.base().offset() == self.directory_start(),
            !r.base().failed(),
            r.base().wf(),
    {
        Files { base: self.files_raw() }
    }

    /// A walk over the names in the central directory of an archive whose
    /// entries can all be told.
    pub fn file_names(&self) -> (r: FileNames)
        ensures
            r.base().entry() == 0,
            r.base().offset() == self.directory_start(),
            !r.base().failed(),
            r.base().wf(),
    {
        FileNames { base: self.files_raw() }
    }

    /// All entries of the central directory, in its order: as many as the
    /// end record announces, or the first failure of the walk.
    pub fn entries(&mut self) -> (res: Result<Vec<FileInfo>, ZipError>)
        ensures
            final(self).archive() == old(self).archive(),
            final(self).end_record() == old(self).end_record(),
            match res {
                Ok(v) => {
                    &&& walk_error(old(self).archive(), old(self).directory_start(), old(self).entry_count()) is None
                    &&& v@.len() == old(self).entry_count()
                    &&& forall|i: int|
                        0 <= i < v@.len() ==> (#[trigger] v@[i]).describes_entry(
                            old(self).archive(),
                            entry_offset(old(self).archive(), old(self).directory_start(), i as nat),
                        )
                },
                Err(e) => walk_error(old(self).archive(), old(self).directory_start(), old(self).entry_count())
                    == Some(e),
            },
    {
        let ghost data = self.archive();
        let ghost start = self.directory_start();
        let ghost count = self.entry_count();
        let mut cursor = self.files_raw();
        let mut out: Vec<FileInfo> = Vec::new();
        loop
            invariant
                data == old(self).archive(),
                start == old(self).directory_start(),
                count == old(self).entry_count(),
                self.archive() == data,
                self.end_record() == old(self).end_record(),
                cursor.wf(),
                !cursor.failed(),
                cursor.entry() <= count,
                cursor.offset() == entry_offset(data, start, cursor.entry() as nat),
                walk_error(data, start, cursor.entry() as nat) is None,
                out@.len() == cursor.entry(),
                forall|i: int|
                    0 <= i < out@.len() ==> (#[trigger] out@[i]).describes_entry(
                        data,
                        entry_offset(data, start, i as nat),
                    ),
            decreases count - cursor.entry(),
        {
            let ghost k = cursor.entry() as nat;
            match cursor.next(self) {
                None => {
                    return Ok(out);
                },
                Some(Err(e)) => {
                    proof {
                        assert(walk_error(data, start, k + 1) == Some(e));
                        lemma_walk_error_stays(data, start, k + 1, count);
                    }
                    return Err(e);
                },
                Some(Ok(f)) => {
                    assert(walk_error(data, start, k + 1) is None);
                    out.push(f);
                },
            }
        }
    }

    /// The first entry of the central directory whose name has the same
    /// bytes as `name`, or the failure that the walk meets before it, or
    /// `FileNotFoundInArchive` where the walk ends without one.
    pub fn info(&mut self, name: &MaybeUTF8) -> (res: Result<FileInfo, ZipError>)
        ensures
            final(self).archive() == old(self).archive(),
            final(self).end_record() == old(self).end_record(),
            match res {
                Ok(f) => {
                    &&& lookup_from(
                        old(self).archive(),
                        old(self).directory_start(),
                        0,
                        old(self).entry_count(),
                        name@,
                    ) matches Ok(i)
                    &&& f.describes_entry(
                        old(self).archive(),
                        entry_offset(old(self).archive(), old(self).directory_start(), i),
                    )
                    &&& f.name@ == name@
                },
                Err(e) => lookup_from(
                    old(self).archive(),
                    old(self).directory_start(),
                    0,
                    old(self).entry_count(),
                    name@,
                ) == Err::<nat, ZipError>(e),
            },
    {
        let ghost data = self.archive();
        let ghost start = self.directory_start();
        let ghost count = self.entry_count();
        let mut cursor = self.files_raw();
        loop
            invariant
                data == old(self).archive(),
                start == old(self).directory_start(),
                count == old(self).entry_count(),
                self.archive() == data,
                self.end_record() == old(self).end_record(),
                cursor.wf(),
                !cursor.failed(),
                cursor.entry() <= count,
                cursor.offset() == entry_offset(data, start, cursor.entry() as nat),
                lookup_from(data, start, 0, count, name@) == lookup_from(
                    data,
                    start,
                    cursor.entry() as nat,
                    count,
                    name@,
                ),
            decreases count - cursor.entry(),
        {
            match cursor.next(self) {
                None => {
                    return Err(ZipError::FileNotFoundInArchive);
                },
                Some(Err(e)) => {
                    return Err(e);
                },
                Some(Ok(f)) => {
                    if f.name == *name {
                        return Ok(f);
                    }
                },
            }
        }
    }

    /// Extracts the whole content of an entry into `writer`, in one piece,
    /// after holding its checksum against the one in its header. Nothing is
    /// written where the extraction fails.
    pub fn extract_file(&mut self, f: &FileInfo, writer: &mut Vec<u8>) -> (res: Result<(), ZipError>)
        ensures
            extracts(
                old(self),
                final(self),
                f.local_file_header_offset,
                None,
                old(writer)@,
                final(writer)@,
                res,
            ),
    {
        match self.read(f, None) {
            Ok(bytes) => {
                put_bytes(writer, bytes.as_slice());
                Ok(())
            },
            Err(x) => Err(x),
        }
    }

    /// Extracts the first `len` bytes of the content of an entry into
    /// `writer`, or all of it where it is shorter. No checksum is held
    /// against the content. Nothing is written where the extraction fails.
    pub fn extract_first(&mut self, f: &FileInfo, len: usize, writer: &mut Vec<u8>) -> (res: Result<(), ZipError>)
        ensures
            extracts(
                old(self),
                final(self),
                f.local_file_header_offset,
                Some(len),
                old(writer)@,
                final(writer)@,
                res,
            ),
    {
        match self.read(f, Some(len)) {
            Ok(bytes) => {
                put_bytes(writer, bytes.as_slice());
                Ok(())
            },
            Err(x) => Err(x),
        }
    }

    /// The content of an entry, whole and checked with no wished length,
    /// cut and unchecked with one.
    pub fn read(&mut self, f: &FileInfo, wish_len: Option<usize>) -> (res: Result<Vec<u8>, ZipError>)
        ensures
            final(self).archive() == old(self).archive(),
            final(self).end_record() == old(self).end_record(),
            match res {
                Ok(v) => extraction(old(self).archive(), f.local_file_header_offset as int, wish_len) == Ok::<
                    Seq<u8>,
                    ZipError,
                >(v@),
                Err(e) => extraction(old(self).archive(), f.local_file_header_offset as int, wish_len) == Err::<
                    Seq<u8>,
                    ZipError,
                >(e),
            },
    {
        self.reader.seek(f.local_file_header_offset as u64);
        let header = LocalFileHeader::read(&mut self.reader)?;
        let file_pos: u64 = f.local_file_header_offset as u64 + header.total_size() as u64;
        let file_len: usize = header.compressed_size as usize;
        let expected_crc: Option<u32> = match wish_len {
            None => Some(header.crc32),
            Some(_) => None,
        };
        self.extract_block(file_pos, file_len, header.compression_method, expected_crc, wish_len)
    }

    /// The content that the `len` bytes at `pos` stand for under `method`,
    /// checked and cut as `finish` does.
    pub fn extract_block(
        &mut self,
        pos: u64,
        len: usize,
        method: u16,
        expected_crc: Option<u32>,
        wish_len: Option<usize>,
    ) -> (res: Result<Vec<u8>, ZipError>)
        ensures
            final(self).archive() == old(self).archive(),
            final(self).end_record() == old(self).end_record(),
            match res {
                Ok(v) => {
                    &&& pos + len <= old(self).archive().len()
                    &&& unpacked(method, old(self).archive().subrange(pos as int, pos + len)) matches Ok(content)
                    &&& finished(content, expected_crc, wish_len) == Ok::<Seq<u8>, ZipError>(v@)
                },
                Err(e) => if pos + len > old(self).archive().len() {
                    e == ZipError::IoError(IoError::EndOfFile)
                } else {
                    match unpacked(method, old(self).archive().subrange(pos as int, pos + len)) {
                        Ok(content) => finished(content, expected_crc, wish_len) == Err::<Seq<u8>, ZipError>(e),
                        Err(u) => u == e,
                    }
                },
            },
    {
        self.reader.seek(pos);
        let compressed: Vec<u8> = match self.reader.read_exact(len) {
            Ok(v) => v,
            Err(e) => {
                return Err(ZipError::IoError(e));
            },
        };
        decompress(compressed, method, expected_crc, wish_len)
    }
}

/// Whether `after`, `sink_after` and `res` are what an extraction of the
/// entry at `off` leaves of `before` and `sink_before`: the archive is as
/// it was, and the sink has grown by the extracted bytes, or not at all
/// where the extraction failed.
pub open spec fn extracts(
    before: &ZipReader,
    after: &ZipReader,
    off: u32,
    wish_len: Option<usize>,
    sink_before: Seq<u8>,
    sink_after: Seq<u8>,
    res: Result<(), ZipError>,
) -> bool {
    &&& after.archive() == before.archive()
    &&& after.end_record() == before.end_record()
    &&& match res {
        Ok(_) => extraction(before.archive(), off as int, wish_len) matches Ok(bytes) && sink_after == sink_before
            + bytes,
        Err(e) => extraction(before.archive(), off as int, wish_len) == Err::<Seq<u8>, ZipError>(e) && sink_after
            == sink_before,
    }
}

/// A failure among the first `k` entries is the failure of every longer walk.
pub proof fn lemma_walk_error_stays(data: Seq<u8>, start: int, k: nat, count: nat)
    requires
        k <= count,
        walk_error(data, start, k) is Some,
    ensures
        walk_error(data, start, count) == walk_error(data, start, k),
    decreases count,
{
    if k < count {
        lemma_walk_error_stays(data, start, k, (count - 1) as nat);
    }
}

/// In a walk without failure every one of the entries can be told.
pub proof fn lemma_walk_without_failure(data: Seq<u8>, start: int, count: nat, i: nat)
    requires
        walk_error(data, start, count) is None,
        i < count,
    ensures
        entry_error(data, entry_offset(data, start, i)) is None,
    decreases count,
{
    if i + 1 < count {
        lemma_walk_without_failure(data, start, (count - 1) as nat, i);
    }
}

/// Extracting the same entry twice from the same reader gives the same
/// outcome and the same bytes.
pub proof fn lemma_extract_twice(
    z0: &ZipReader,
    z1: &ZipReader,
    z2: &ZipReader,
    off: u32,
    wish_len: Option<usize>,
    s0: Seq<u8>,
    s1: Seq<u8>,
    t0: Seq<u8>,
    t1: Seq<u8>,
    r1: Result<(), ZipError>,
    r2: Result<(), ZipError>,
)
    requires
        extracts(z0, z1, off, wish_len, s0, s1, r1),
        extracts(z1, z2, off, wish_len, t0, t1, r2),
    ensures
        r1 is Ok <==> r2 is Ok,
        r1 matches Err(e) ==> r2 matches Err(g) && g == e,
        s1.skip(s0.len() as int) == t1.skip(t0.len() as int),
{
    assert(s1.skip(s0.len() as int) =~= t1.skip(t0.len() as int));
}

/// An end record that is written at the end of an archive, with whatever
/// comment, is the one that opening finds, unless the signature stands
/// again after its own: the archive opens, and the record read at the last
/// signature holds the same numbers and the same comment.
pub proof fn lemma_trailing_end_record(before: Seq<u8>, e: &EndOfCentralDirectoryRecord)
    requires
        e.write_error() is None,
        forall|p: int| before.len() < p ==> !signature_at(before + e.wire(), p),
    ensures
        open_error(before + e.wire()) is None,
        end_record_offset(before + e.wire()) == before.len(),
        forall|z: ZipReader| #[trigger] z.wf() && z.archive() == before + e.wire() ==> z.end_record().same_record(e),
{
    let data = before + e.wire();
    e.lemma_wire_layout();
    e.lemma_write_then_read(before, Seq::empty());
    assert(before + e.wire() + Seq::<u8>::empty() =~= data);
    crate::format::lemma_embedded(before, e.wire(), Seq::empty());
    assert(signature_at(data, before.len() as int));
    lemma_last_signature(data, before.len() as int);
}

} // verus!
