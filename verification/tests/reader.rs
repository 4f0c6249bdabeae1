use zip::crc32::crc32;
use zip::error::{IoError, ZipError};
use zip::fileinfo::{CompressionMethod, FileInfo};
use zip::format::{CentralDirectoryHeader, EndOfCentralDirectoryRecord, LocalFileHeader, MsdosDateTime};
use zip::maybe_utf8::MaybeUTF8;
use zip::reader::{decompress, finish, ZipReader};
use zip::stream::ByteReader;

/// "hello" as a raw DEFLATE stream.
const HELLO_DEFLATED: [u8; 7] = [0xcb, 0x48, 0xcd, 0xc9, 0xc9, 0x07, 0x00];

/// "hello hello hello hello hello hello" as a raw DEFLATE stream.
const HELLOS_DEFLATED: [u8; 11] = [0xcb, 0x48, 0xcd, 0xc9, 0xc9, 0x57, 0xc8, 0xc0, 0x47, 0x02, 0x00];

struct Member {
    name: Vec<u8>,
    method: u16,
    flags: u16,
    raw: Vec<u8>,
    crc32: u32,
    uncompressed_size: u32,
}

fn member(name: &str, method: u16, raw: &[u8], content: &[u8]) -> Member {
    Member {
        name: name.as_bytes().to_vec(),
        method,
        flags: 0,
        raw: raw.to_vec(),
        crc32: crc32(content),
        uncompressed_size: content.len() as u32,
    }
}

fn build_archive(members: &[Member], comment: &[u8]) -> Vec<u8> {
    let mut out: Vec<u8> = Vec::new();
    let mut directory: Vec<u8> = Vec::new();
    for m in members {
        let offset = out.len() as u32;
        let mut l = LocalFileHeader::new();
        l.version_needed_to_extract = 20;
        l.general_purpose_bit_flag = m.flags;
        l.compression_method = m.method;
        l.last_modified_datetime = MsdosDateTime::new(2015, 3, 14, 9, 26, 52);
        l.crc32 = m.crc32;
        l.compressed_size = m.raw.len() as u32;
        l.uncompressed_size = m.uncompressed_size;
        l.file_name = MaybeUTF8::from_bytes(m.name.clone());
        l.extra_field = vec![0xca, 0xfe];
        l.write(&mut out).unwrap();
        out.extend_from_slice(&m.raw);

        let mut c = CentralDirectoryHeader::new();
        c.version_made_by = 20;
        c.version_needed_to_extract = 20;
        c.general_purpose_bit_flag = m.flags;
        c.compression_method = m.method;
        c.last_modified_datetime = MsdosDateTime::new(2015, 3, 14, 9, 26, 52);
        c.crc32 = m.crc32;
        c.compressed_size = m.raw.len() as u32;
        c.uncompressed_size = m.uncompressed_size;
        c.relative_offset_of_local_header = offset;
        c.file_name = MaybeUTF8::from_bytes(m.name.clone());
        c.file_comment = MaybeUTF8::from_bytes(b"c".to_vec());
        c.write(&mut directory).unwrap();
    }
    let mut e = EndOfCentralDirectoryRecord::new();
    e.entry_count_this_disk = members.len() as u16;
    e.total_entry_count = members.len() as u16;
    e.central_directory_size = directory.len() as u32;
    e.central_directory_offset = out.len() as u32;
    e.comment = comment.to_vec();
    out.extend_from_slice(&directory);
    e.write(&mut out).unwrap();
    out
}

fn two_hellos() -> Vec<u8> {
    build_archive(
        &[member("a.txt", 0, b"hello", b"hello"), member("b.txt", 8, &HELLO_DEFLATED, b"hello")],
        b"",
    )
}

fn open(bytes: Vec<u8>) -> ZipReader {
    ZipReader::new(ByteReader::new(bytes)).unwrap()
}

fn name(s: &str) -> MaybeUTF8 {
    MaybeUTF8::from_str(String::from(s))
}

fn drain(zip: &mut ZipReader) -> Vec<Result<FileInfo, ZipError>> {
    let mut items = Vec::new();
    let mut walk = zip.files_raw();
    while let Some(item) = walk.next(zip) {
        items.push(item);
        assert!(items.len() < 100000);
    }
    assert!(walk.next(zip).is_none());
    items
}

#[test]
fn store_and_deflate_entries_extract_to_the_same_bytes() {
    let mut zip = open(two_hellos());
    let a = zip.info(&name("a.txt")).unwrap();
    let b = zip.info(&name("b.txt")).unwrap();
    assert_eq!(a.compression_method, CompressionMethod::Store);
    assert_eq!(b.compression_method, CompressionMethod::Deflate);
    assert_eq!(a.compressed_size, 5);
    assert_eq!(a.uncompressed_size, 5);
    assert_eq!(b.compressed_size, 7);
    assert_eq!(b.uncompressed_size, 5);
    assert_ne!(a.compressed_size, b.compressed_size);
    let mut out_a: Vec<u8> = Vec::new();
    assert_eq!(zip.extract_file(&a, &mut out_a), Ok(()));
    assert_eq!(out_a, b"hello".to_vec());
    let mut out_b: Vec<u8> = Vec::new();
    assert_eq!(zip.extract_file(&b, &mut out_b), Ok(()));
    assert_eq!(out_b, vec![b'h', b'e', b'l', b'l', b'o']);
}

#[test]
fn deflate_entry_is_inflated_not_copied() {
    let hellos = b"hello hello hello hello hello hello";
    let mut zip = open(build_archive(&[member("many.txt", 8, &HELLOS_DEFLATED, hellos)], b""));
    let f = zip.info(&name("many.txt")).unwrap();
    assert_eq!(f.compressed_size, 11);
    assert_eq!(f.uncompressed_size, 35);
    let mut out: Vec<u8> = Vec::new();
    assert_eq!(zip.extract_file(&f, &mut out), Ok(()));
    assert_eq!(out, hellos.to_vec());
    assert_ne!(out, HELLOS_DEFLATED.to_vec());
}

#[test]
fn extraction_appends_to_the_sink() {
    let mut zip = open(two_hellos());
    let b = zip.info(&name("b.txt")).unwrap();
    let mut out: Vec<u8> = b">> ".to_vec();
    assert_eq!(zip.extract_file(&b, &mut out), Ok(()));
    assert_eq!(out, b">> hello".to_vec());
}

#[test]
fn corrupted_crc_fails_full_extraction_only() {
    let mut bad = member("b.txt", 8, &HELLO_DEFLATED, b"hello");
    bad.crc32 = 0x12345678;
    let mut zip = open(build_archive(&[bad], b""));
    let f = zip.info(&name("b.txt")).unwrap();
    assert_eq!(f.crc32, 0x12345678);
    let mut out: Vec<u8> = vec![1];
    assert_eq!(zip.extract_file(&f, &mut out), Err(ZipError::CrcError));
    assert_eq!(out, vec![1]);
    assert_eq!(zip.extract_first(&f, 3, &mut out), Ok(()));
    assert_eq!(out, vec![1, b'h', b'e', b'l']);
}

#[test]
fn corrupted_crc_fails_stored_entry_too() {
    let mut bad = member("a.txt", 0, b"hello", b"hello");
    bad.crc32 = 0;
    let mut zip = open(build_archive(&[bad], b""));
    let f = zip.info(&name("a.txt")).unwrap();
    let mut out: Vec<u8> = Vec::new();
    assert_eq!(zip.extract_file(&f, &mut out), Err(ZipError::CrcError));
    assert!(out.is_empty());
    assert_eq!(zip.extract_first(&f, 5, &mut out), Ok(()));
    assert_eq!(out, b"hello".to_vec());
}

#[test]
fn extract_first_cuts_after_decompression() {
    let hellos = b"hello hello hello hello hello hello";
    let mut zip = open(build_archive(
        &[member("many.txt", 8, &HELLOS_DEFLATED, hellos), member("a.txt", 0, b"stored", b"stored")],
        b"",
    ));
    let many = zip.info(&name("many.txt")).unwrap();
    let mut out: Vec<u8> = Vec::new();
    assert_eq!(zip.extract_first(&many, 13, &mut out), Ok(()));
    assert_eq!(out, b"hello hello h".to_vec());
    let mut none: Vec<u8> = Vec::new();
    assert_eq!(zip.extract_first(&many, 0, &mut none), Ok(()));
    assert!(none.is_empty());
    let mut all: Vec<u8> = Vec::new();
    assert_eq!(zip.extract_first(&many, 35, &mut all), Ok(()));
    assert_eq!(all, hellos.to_vec());
    let mut more: Vec<u8> = Vec::new();
    assert_eq!(zip.extract_first(&many, 1000, &mut more), Ok(()));
    assert_eq!(more, hellos.to_vec());
    let a = zip.info(&name("a.txt")).unwrap();
    let mut st: Vec<u8> = Vec::new();
    assert_eq!(zip.extract_first(&a, 2, &mut st), Ok(()));
    assert_eq!(st, b"st".to_vec());
}

#[test]
fn lookup_miss_and_hit() {
    let mut zip = open(two_hellos());
    assert!(matches!(zip.info(&name("c.txt")), Err(ZipError::FileNotFoundInArchive)));
    assert!(matches!(zip.info(&name("A.txt")), Err(ZipError::FileNotFoundInArchive)));
    assert!(matches!(zip.info(&name("a.tx")), Err(ZipError::FileNotFoundInArchive)));
    let b = zip.info(&MaybeUTF8::from_bytes(b"b.txt".to_vec())).unwrap();
    assert_eq!(b.name.as_bytes(), b"b.txt");
    assert_eq!(b.local_file_header_offset, 30 + 5 + 2 + 5);
    assert_eq!(b.last_modified_datetime, (2015, 3, 14, 9, 26, 52));
    assert_eq!(b.crc32, 0x3610A686);
    assert!(!b.is_encrypted);
    let mut out: Vec<u8> = Vec::new();
    assert_eq!(zip.extract_file(&b, &mut out), Ok(()));
    assert_eq!(out, b"hello".to_vec());
}

#[test]
fn lookup_returns_the_first_of_equal_names() {
    let mut zip = open(build_archive(
        &[member("x", 0, b"one", b"one"), member("x", 0, b"two", b"two")],
        b"",
    ));
    let f = zip.info(&name("x")).unwrap();
    assert_eq!(f.local_file_header_offset, 0);
    let mut out: Vec<u8> = Vec::new();
    assert_eq!(zip.extract_file(&f, &mut out), Ok(()));
    assert_eq!(out, b"one".to_vec());
}

#[test]
fn end_record_is_found_behind_a_comment() {
    let comment: Vec<u8> = vec![0, 0xff, b'P', b'K', 5, 7, 0x50, 0x4b, 0x03, 0x04, 1, 2, 3];
    let mut with = open(build_archive(&[member("a.txt", 0, b"hello", b"hello")], &comment));
    let listed = with.entries().unwrap();
    assert_eq!(listed.len(), 1);
    assert_eq!(listed[0].name.as_bytes(), b"a.txt");
    let mut out: Vec<u8> = Vec::new();
    assert_eq!(with.extract_file(&listed[0], &mut out), Ok(()));
    assert_eq!(out, b"hello".to_vec());
}

#[test]
fn last_signature_wins() {
    // the comment of the outer record holds a whole end record of an empty archive
    let mut inner: Vec<u8> = Vec::new();
    EndOfCentralDirectoryRecord::new().write(&mut inner).unwrap();
    let mut zip = open(build_archive(&[member("a.txt", 0, b"hello", b"hello")], &inner));
    assert_eq!(zip.entries().unwrap().len(), 0);
    assert!(matches!(zip.info(&name("a.txt")), Err(ZipError::FileNotFoundInArchive)));
}

#[test]
fn no_signature_is_not_a_zip_file() {
    for bytes in [vec![], vec![0x50, 0x4b, 0x05], vec![0u8; 100], b"PK\x03\x04 not an archive PK\x01\x02".to_vec()] {
        assert!(matches!(ZipReader::new(ByteReader::new(bytes)), Err(ZipError::NotAZipFile)));
    }
}

#[test]
fn truncated_end_record_is_an_io_error() {
    let mut bytes = two_hellos();
    bytes.truncate(bytes.len() - 1);
    assert!(matches!(ZipReader::new(ByteReader::new(bytes)), Err(ZipError::IoError(IoError::EndOfFile))));
    let only_signature = vec![0x50, 0x4b, 0x05, 0x06];
    assert!(matches!(
        ZipReader::new(ByteReader::new(only_signature)),
        Err(ZipError::IoError(IoError::EndOfFile))
    ));
}

#[test]
fn empty_archive_has_no_entries() {
    let mut zip = open(build_archive(&[], b"nothing here"));
    assert!(drain(&mut zip).is_empty());
    assert_eq!(zip.entries().unwrap().len(), 0);
    assert!(zip.files().next(&mut zip).is_none());
    assert!(zip.file_names().next(&mut zip).is_none());
}

#[test]
fn iteration_yields_as_many_entries_as_the_end_record_says() {
    let members: Vec<Member> =
        (0..7).map(|i| member(&format!("file{}.bin", i), 0, &[i as u8; 3], &[i as u8; 3])).collect();
    let mut zip = open(build_archive(&members, b""));
    let items = drain(&mut zip);
    assert_eq!(items.len(), 7);
    for (i, item) in items.iter().enumerate() {
        let f = item.as_ref().unwrap();
        assert_eq!(f.name.as_bytes(), format!("file{}.bin", i).as_bytes());
        assert_eq!(f.uncompressed_size, 3);
    }
    let listed = zip.entries().unwrap();
    assert_eq!(listed.len(), 7);
    assert_eq!(listed[6].name.as_bytes(), b"file6.bin");
}

#[test]
fn strict_walks_yield_entries_and_names() {
    let mut zip = open(two_hellos());
    let mut files = zip.files();
    let a = files.next(&mut zip).unwrap();
    assert_eq!(a.name.as_bytes(), b"a.txt");
    let b = files.next(&mut zip).unwrap();
    assert_eq!(b.name.as_bytes(), b"b.txt");
    assert!(files.next(&mut zip).is_none());
    assert!(files.next(&mut zip).is_none());
    let mut names = zip.file_names();
    assert_eq!(names.next(&mut zip).unwrap().as_bytes(), b"a.txt");
    assert_eq!(names.next(&mut zip).unwrap().as_bytes(), b"b.txt");
    assert!(names.next(&mut zip).is_none());
}

#[test]
fn extraction_between_steps_does_not_disturb_the_walk() {
    let mut zip = open(two_hellos());
    let mut walk = zip.files_raw();
    let a = walk.next(&mut zip).unwrap().unwrap();
    let mut out: Vec<u8> = Vec::new();
    assert_eq!(zip.extract_file(&a, &mut out), Ok(()));
    let b = walk.next(&mut zip).unwrap().unwrap();
    assert_eq!(b.name.as_bytes(), b"b.txt");
    assert!(walk.next(&mut zip).is_none());
}

#[test]
fn extracting_twice_gives_the_same_bytes() {
    let mut zip = open(two_hellos());
    let b = zip.info(&name("b.txt")).unwrap();
    let mut first: Vec<u8> = Vec::new();
    let mut second: Vec<u8> = Vec::new();
    assert_eq!(zip.extract_file(&b, &mut first), Ok(()));
    assert_eq!(drain(&mut zip).len(), 2);
    assert_eq!(zip.extract_file(&b, &mut second), Ok(()));
    assert_eq!(first, second);
    assert_eq!(first, b"hello".to_vec());
}

#[test]
fn walk_stops_after_a_failure() {
    let mut bytes = build_archive(
        &[member("a", 0, b"1", b"1"), member("b", 0, b"2", b"2"), member("c", 0, b"3", b"3")],
        b"",
    );
    // spoil the signature of the second central directory header
    let directory = 3 * (30 + 1 + 2 + 1);
    let second = directory + 46 + 1 + 1;
    assert_eq!(&bytes[second..second + 4], &[0x50, 0x4b, 0x01, 0x02]);
    bytes[second + 3] = 0x09;
    let mut zip = open(bytes);
    let items = drain(&mut zip);
    assert_eq!(items.len(), 2);
    assert_eq!(items[0].as_ref().unwrap().name.as_bytes(), b"a");
    assert!(matches!(items[1], Err(ZipError::InvalidSignature(0x09014b50))));
    assert!(matches!(zip.entries(), Err(ZipError::InvalidSignature(0x09014b50))));
    assert!(zip.info(&name("a")).is_ok());
    assert!(matches!(zip.info(&name("c")), Err(ZipError::InvalidSignature(0x09014b50))));
}

#[test]
fn directory_beyond_the_data_is_an_io_error() {
    let mut e = EndOfCentralDirectoryRecord::new();
    e.total_entry_count = 1;
    e.central_directory_offset = 5000;
    let mut bytes: Vec<u8> = Vec::new();
    e.write(&mut bytes).unwrap();
    let mut zip = open(bytes);
    let items = drain(&mut zip);
    assert_eq!(items.len(), 1);
    assert!(matches!(items[0], Err(ZipError::IoError(IoError::EndOfFile))));
}

#[test]
fn unknown_method_is_unsupported() {
    let mut zip = open(build_archive(&[member("odd", 12, b"hello", b"hello")], b""));
    let items = drain(&mut zip);
    assert_eq!(items.len(), 1);
    assert!(matches!(items[0], Err(ZipError::UnsupportedFeature)));
    assert!(matches!(zip.info(&name("odd")), Err(ZipError::UnsupportedFeature)));
    // the local header at offset 0 names the method too
    let mut stray = FileInfo::from_cdh(&CentralDirectoryHeader::new());
    stray.local_file_header_offset = 0;
    let mut out: Vec<u8> = Vec::new();
    assert_eq!(zip.extract_file(&stray, &mut out), Err(ZipError::UnsupportedFeature));
    assert!(out.is_empty());
}

#[test]
fn encrypted_entry_is_rejected_at_extraction() {
    let mut m = member("secret", 0, b"hello", b"hello");
    m.flags = 1;
    let mut zip = open(build_archive(&[m], b""));
    let f = zip.info(&name("secret")).unwrap();
    assert!(f.is_encrypted);
    let mut out: Vec<u8> = Vec::new();
    assert_eq!(zip.extract_file(&f, &mut out), Err(ZipError::UnsupportedFeature));
    assert_eq!(zip.extract_first(&f, 2, &mut out), Err(ZipError::UnsupportedFeature));
    assert!(out.is_empty());
}

#[test]
fn malformed_deflate_stream_is_a_decompression_failure() {
    let mut zip = open(build_archive(&[member("bad", 8, &[0xff, 0xff, 0xff, 0xff], b"hello")], b""));
    let f = zip.info(&name("bad")).unwrap();
    let mut out: Vec<u8> = Vec::new();
    assert_eq!(zip.extract_file(&f, &mut out), Err(ZipError::DecompressionFailure));
    assert_eq!(zip.extract_first(&f, 1, &mut out), Err(ZipError::DecompressionFailure));
    assert!(out.is_empty());
}

#[test]
fn truncated_deflate_stream_is_a_decompression_failure() {
    let mut zip = open(build_archive(&[member("cut", 8, &HELLO_DEFLATED[..4], b"hello")], b""));
    let f = zip.info(&name("cut")).unwrap();
    let mut out: Vec<u8> = Vec::new();
    assert_eq!(zip.extract_file(&f, &mut out), Err(ZipError::DecompressionFailure));
}

#[test]
fn extraction_at_a_wrong_offset_fails() {
    let mut zip = open(two_hellos());
    let mut f = zip.info(&name("a.txt")).unwrap();
    f.local_file_header_offset = 1;
    let mut out: Vec<u8> = Vec::new();
    assert!(matches!(zip.extract_file(&f, &mut out), Err(ZipError::InvalidSignature(_))));
    f.local_file_header_offset = 0xffff_ffff;
    assert_eq!(zip.extract_file(&f, &mut out), Err(ZipError::IoError(IoError::EndOfFile)));
    assert!(out.is_empty());
}

#[test]
fn data_shorter_than_the_header_says_is_an_io_error() {
    let mut l = LocalFileHeader::new();
    l.compressed_size = 100;
    l.file_name = MaybeUTF8::from_bytes(b"short".to_vec());
    let mut bytes: Vec<u8> = Vec::new();
    l.write(&mut bytes).unwrap();
    bytes.extend_from_slice(b"only a few bytes");
    EndOfCentralDirectoryRecord::new().write(&mut bytes).unwrap();
    let mut zip = open(bytes);
    let f = FileInfo::from_cdh(&CentralDirectoryHeader::new());
    let mut out: Vec<u8> = Vec::new();
    assert_eq!(zip.extract_file(&f, &mut out), Err(ZipError::IoError(IoError::EndOfFile)));
}

#[test]
fn read_gives_the_content() {
    let mut zip = open(two_hellos());
    let b = zip.info(&name("b.txt")).unwrap();
    assert_eq!(zip.read(&b, None), Ok(b"hello".to_vec()));
    assert_eq!(zip.read(&b, Some(4)), Ok(b"hell".to_vec()));
    assert_eq!(zip.read(&b, Some(5)), Ok(b"hello".to_vec()));
    assert_eq!(zip.read(&b, Some(usize::MAX)), Ok(b"hello".to_vec()));
}

#[test]
fn extract_block_reads_the_given_region() {
    let mut zip = open(two_hellos());
    assert_eq!(zip.extract_block(30 + 5 + 2, 5, 0, Some(0x3610A686), None), Ok(b"hello".to_vec()));
    assert_eq!(zip.extract_block(30 + 5 + 2, 5, 0, Some(1), None), Err(ZipError::CrcError));
    assert_eq!(zip.extract_block(30 + 5 + 2, 4, 0, None, Some(2)), Ok(b"he".to_vec()));
    assert_eq!(zip.extract_block(30 + 5 + 2, 5, 3, None, None), Err(ZipError::UnsupportedFeature));
    assert_eq!(
        zip.extract_block(u64::MAX, 5, 0, None, None),
        Err(ZipError::IoError(IoError::EndOfFile))
    );
}

#[test]
fn finish_checks_then_cuts() {
    assert_eq!(finish(b"hello".to_vec(), Some(0x3610A686), None), Ok(b"hello".to_vec()));
    assert_eq!(finish(b"hello".to_vec(), Some(0x3610A687), None), Err(ZipError::CrcError));
    assert_eq!(finish(b"hello".to_vec(), Some(0x3610A687), Some(2)), Err(ZipError::CrcError));
    assert_eq!(finish(b"hello".to_vec(), Some(0x3610A686), Some(2)), Ok(b"he".to_vec()));
    assert_eq!(finish(b"hello".to_vec(), None, Some(2)), Ok(b"he".to_vec()));
    assert_eq!(finish(b"hello".to_vec(), None, Some(5)), Ok(b"hello".to_vec()));
    assert_eq!(finish(b"hello".to_vec(), None, Some(6)), Ok(b"hello".to_vec()));
    assert_eq!(finish(b"hello".to_vec(), None, Some(0)), Ok(vec![]));
    assert_eq!(finish(vec![], Some(0), None), Ok(vec![]));
}

#[test]
fn decompress_by_method() {
    assert_eq!(decompress(b"raw".to_vec(), 0, None, None), Ok(b"raw".to_vec()));
    assert_eq!(decompress(HELLO_DEFLATED.to_vec(), 8, None, None), Ok(b"hello".to_vec()));
    assert_eq!(decompress(HELLO_DEFLATED.to_vec(), 8, Some(0x3610A686), Some(1)), Ok(b"h".to_vec()));
    assert_eq!(decompress(HELLO_DEFLATED.to_vec(), 8, Some(5), None), Err(ZipError::CrcError));
    assert_eq!(decompress(HELLO_DEFLATED.to_vec(), 0, None, None), Ok(HELLO_DEFLATED.to_vec()));
    assert_eq!(decompress(vec![0xff], 8, None, None), Err(ZipError::DecompressionFailure));
    assert_eq!(decompress(vec![], 8, None, None), Err(ZipError::DecompressionFailure));
    assert_eq!(decompress(b"raw".to_vec(), 9, None, None), Err(ZipError::UnsupportedFeature));
}

#[test]
fn text_names_are_read_as_text() {
    let mut m = member("h\u{e9}.txt", 0, b"x", b"x");
    m.flags = 0x0800;
    let mut zip = open(build_archive(&[m, member("raw", 0, b"y", b"y")], b""));
    let listed = zip.entries().unwrap();
    assert!(matches!(listed[0].name, MaybeUTF8::UTF8(_)));
    assert!(matches!(listed[1].name, MaybeUTF8::Bytes(_)));
    let f = zip.info(&MaybeUTF8::from_bytes("h\u{e9}.txt".as_bytes().to_vec())).unwrap();
    assert_eq!(f.name.as_str(), Some("h\u{e9}.txt"));
}
