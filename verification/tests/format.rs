use zip::error::{IoError, ZipError};
use zip::format::{
    ensure_u16_field_length, read_maybe_utf8, write_maybe_utf8, CentralDirectoryHeader,
    EndOfCentralDirectoryRecord, LocalFileHeader, MsdosDateTime, CDH_SIGNATURE, EOCDR_SIGNATURE,
    LFH_SIGNATURE,
};
use zip::maybe_utf8::MaybeUTF8;
use zip::stream::ByteReader;

fn sample_local_header() -> LocalFileHeader {
    let mut h = LocalFileHeader::new();
    h.version_needed_to_extract = 20;
    h.general_purpose_bit_flag = 0x0800;
    h.compression_method = 8;
    h.last_modified_datetime = MsdosDateTime::new(2015, 3, 14, 9, 26, 52);
    h.crc32 = 0x3610A686;
    h.compressed_size = 7;
    h.uncompressed_size = 5;
    h.file_name = MaybeUTF8::from_str(String::from("dir/h\u{e9}llo.txt"));
    h.extra_field = vec![1, 2, 3, 4];
    h
}

fn sample_central_header() -> CentralDirectoryHeader {
    let mut h = CentralDirectoryHeader::new();
    h.version_made_by = 0x031e;
    h.version_needed_to_extract = 20;
    h.general_purpose_bit_flag = 0;
    h.compression_method = 0;
    h.last_modified_datetime = MsdosDateTime::new(1999, 12, 31, 23, 59, 58);
    h.crc32 = 0xdeadbeef;
    h.compressed_size = 0x01020304;
    h.uncompressed_size = 0x05060708;
    h.disk_number_start = 3;
    h.internal_file_attributes = 1;
    h.external_file_attributes = 0x81a40000;
    h.relative_offset_of_local_header = 0x0a0b0c0d;
    h.file_name = MaybeUTF8::from_bytes(vec![b'n', 0xff, b'm']);
    h.extra_field = vec![9, 8];
    h.file_comment = MaybeUTF8::from_bytes(b"note".to_vec());
    h
}

#[test]
fn signatures_are_the_format_constants() {
    assert_eq!(LFH_SIGNATURE, 0x04034b50);
    assert_eq!(CDH_SIGNATURE, 0x02014b50);
    assert_eq!(EOCDR_SIGNATURE, 0x06054b50);
}

#[test]
fn local_file_header_new_is_all_zero() {
    let h = LocalFileHeader::new();
    assert_eq!(h.version_needed_to_extract, 0);
    assert_eq!(h.general_purpose_bit_flag, 0);
    assert_eq!(h.compression_method, 0);
    assert_eq!(h.last_modified_datetime.to_tuple(), (1980, 0, 0, 0, 0, 0));
    assert_eq!((h.crc32, h.compressed_size, h.uncompressed_size), (0, 0, 0));
    assert_eq!(h.file_name.len(), 0);
    assert!(h.extra_field.is_empty());
    assert_eq!(h.total_size(), 30);
}

#[test]
fn local_file_header_layout_is_exact() {
    let mut h = LocalFileHeader::new();
    h.version_needed_to_extract = 0x0014;
    h.compression_method = 8;
    h.last_modified_datetime = MsdosDateTime::new(2015, 3, 14, 9, 26, 52);
    h.crc32 = 0x3610A686;
    h.compressed_size = 7;
    h.uncompressed_size = 5;
    h.file_name = MaybeUTF8::from_bytes(b"b.txt".to_vec());
    h.extra_field = vec![0xaa];
    let mut w: Vec<u8> = vec![0x77];
    assert_eq!(h.write(&mut w), Ok(()));
    let expected: Vec<u8> = vec![
        0x77, 0x50, 0x4b, 0x03, 0x04, 0x14, 0x00, 0x00, 0x00, 0x08, 0x00, 0x5a, 0x4b, 0x6e, 0x46,
        0x86, 0xa6, 0x10, 0x36, 0x07, 0x00, 0x00, 0x00, 0x05, 0x00, 0x00, 0x00, 0x05, 0x00, 0x01,
        0x00, b'b', b'.', b't', b'x', b't', 0xaa,
    ];
    assert_eq!(w, expected);
    assert_eq!(h.total_size(), 36);
}

#[test]
fn local_file_header_round_trip() {
    let h = sample_local_header();
    let mut w: Vec<u8> = vec![0xee, 0xee];
    assert_eq!(h.write(&mut w), Ok(()));
    w.extend_from_slice(b"trailing data");
    let mut r = ByteReader::new(w);
    r.seek(2);
    let g = LocalFileHeader::read(&mut r).unwrap();
    assert_eq!(g.version_needed_to_extract, 20);
    assert_eq!(g.general_purpose_bit_flag, 0x0800);
    assert_eq!(g.compression_method, 8);
    assert_eq!(g.last_modified_datetime.to_tuple(), (2015, 3, 14, 9, 26, 52));
    assert_eq!(g.crc32, 0x3610A686);
    assert_eq!(g.compressed_size, 7);
    assert_eq!(g.uncompressed_size, 5);
    assert!(matches!(g.file_name, MaybeUTF8::UTF8(_)));
    assert!(g.file_name == h.file_name);
    assert_eq!(g.extra_field, vec![1, 2, 3, 4]);
    assert_eq!(r.tell(), 2 + h.total_size() as u64);
    assert_eq!(g.total_size(), 30 + 14 + 4);
}

#[test]
fn local_file_header_text_name_from_valid_bytes_round_trips_as_text() {
    let mut h = sample_local_header();
    h.file_name = MaybeUTF8::from_bytes(b"plain.txt".to_vec());
    let mut w: Vec<u8> = Vec::new();
    assert_eq!(h.write(&mut w), Ok(()));
    let mut r = ByteReader::new(w);
    let g = LocalFileHeader::read(&mut r).unwrap();
    assert!(matches!(g.file_name, MaybeUTF8::UTF8(_)));
    assert!(g.file_name == h.file_name);
}

#[test]
fn local_file_header_flags() {
    let mut h = LocalFileHeader::new();
    assert!(!h.is_encrypted() && !h.has_data_descriptor() && !h.is_compressed_patched_data());
    assert!(!h.uses_strong_encryption() && !h.has_utf8_name() && !h.uses_masking());
    h.general_purpose_bit_flag = 0x1;
    assert!(h.is_encrypted());
    h.general_purpose_bit_flag = 0x8;
    assert!(h.has_data_descriptor() && !h.is_encrypted());
    h.general_purpose_bit_flag = 0x20;
    assert!(h.is_compressed_patched_data());
    h.general_purpose_bit_flag = 0x40;
    assert!(h.uses_strong_encryption());
    h.general_purpose_bit_flag = 0x800;
    assert!(h.has_utf8_name() && !h.uses_masking());
    h.general_purpose_bit_flag = 0x2000;
    assert!(h.uses_masking() && !h.has_utf8_name());
}

#[test]
fn central_directory_header_flags() {
    let mut h = CentralDirectoryHeader::new();
    h.general_purpose_bit_flag = 0x2869;
    assert!(h.is_encrypted() && h.has_data_descriptor() && h.is_compressed_patched_data());
    assert!(h.uses_strong_encryption() && h.has_utf8_name() && h.uses_masking());
    h.general_purpose_bit_flag = !0x2869;
    assert!(!h.is_encrypted() && !h.has_data_descriptor() && !h.is_compressed_patched_data());
    assert!(!h.uses_strong_encryption() && !h.has_utf8_name() && !h.uses_masking());
}

#[test]
fn local_file_header_rejects_unsupported_flags() {
    for flag in [0x1u16, 0x8, 0x20, 0x40, 0x2000] {
        let mut h = sample_local_header();
        h.general_purpose_bit_flag = flag;
        h.file_name = MaybeUTF8::from_bytes(b"x".to_vec());
        let mut w: Vec<u8> = Vec::new();
        assert_eq!(h.write(&mut w), Ok(()));
        let mut r = ByteReader::new(w);
        assert!(matches!(LocalFileHeader::read(&mut r), Err(ZipError::UnsupportedFeature)));
        assert_eq!(r.tell(), 0);
    }
}

#[test]
fn local_file_header_wrong_signature() {
    let mut w: Vec<u8> = Vec::new();
    assert_eq!(sample_central_header().write(&mut w), Ok(()));
    let mut r = ByteReader::new(w);
    assert!(matches!(LocalFileHeader::read(&mut r), Err(ZipError::InvalidSignature(0x02014b50))));
    assert_eq!(r.tell(), 0);
}

#[test]
fn local_file_header_truncated() {
    let mut w: Vec<u8> = Vec::new();
    assert_eq!(sample_local_header().write(&mut w), Ok(()));
    for keep in [0usize, 3, 4, 29, 30, 43, 47] {
        let mut r = ByteReader::new(w[..keep].to_vec());
        assert!(matches!(LocalFileHeader::read(&mut r), Err(ZipError::IoError(IoError::EndOfFile))));
        assert_eq!(r.tell(), 0);
    }
    let mut whole = ByteReader::new(w[..48].to_vec());
    assert!(LocalFileHeader::read(&mut whole).is_ok());
}

#[test]
fn local_file_header_name_flagged_as_text_must_be_text() {
    let mut h = sample_local_header();
    h.file_name = MaybeUTF8::from_bytes(vec![b'a', 0xff]);
    let mut w: Vec<u8> = vec![1, 2, 3];
    assert_eq!(h.write(&mut w), Err(ZipError::NonUTF8Field));
    assert_eq!(w, vec![1, 2, 3]);

    h.general_purpose_bit_flag = 0;
    let mut bytes: Vec<u8> = Vec::new();
    assert_eq!(h.write(&mut bytes), Ok(()));
    bytes[7] = 0x08;
    let mut r = ByteReader::new(bytes);
    assert!(matches!(LocalFileHeader::read(&mut r), Err(ZipError::NonUTF8Field)));
    assert_eq!(r.tell(), 0);
}

#[test]
fn local_file_header_too_long_field_writes_nothing() {
    let mut h = LocalFileHeader::new();
    h.extra_field = vec![0; 65536];
    let mut w: Vec<u8> = vec![5];
    assert_eq!(h.write(&mut w), Err(ZipError::TooLongField));
    assert_eq!(w, vec![5]);
    h.extra_field = vec![0; 65535];
    assert_eq!(h.write(&mut w), Ok(()));
    assert_eq!(w.len(), 1 + 30 + 65535);

    let mut n = LocalFileHeader::new();
    n.file_name = MaybeUTF8::from_bytes(vec![b'a'; 65536]);
    let mut v: Vec<u8> = Vec::new();
    assert_eq!(n.write(&mut v), Err(ZipError::TooLongField));
    assert!(v.is_empty());
}

#[test]
fn central_directory_header_round_trip() {
    let h = sample_central_header();
    let mut w: Vec<u8> = vec![0; 5];
    assert_eq!(h.write(&mut w), Ok(()));
    assert_eq!(w.len(), 5 + 46 + 3 + 2 + 4);
    assert_eq!(h.total_size(), 55);
    w.push(0x99);
    let mut r = ByteReader::new(w);
    r.seek(5);
    let g = CentralDirectoryHeader::read(&mut r).unwrap();
    assert_eq!(g.version_made_by, 0x031e);
    assert_eq!(g.version_needed_to_extract, 20);
    assert_eq!(g.general_purpose_bit_flag, 0);
    assert_eq!(g.compression_method, 0);
    assert_eq!(g.last_modified_datetime.to_tuple(), (1999, 12, 31, 23, 59, 58));
    assert_eq!(g.crc32, 0xdeadbeef);
    assert_eq!(g.compressed_size, 0x01020304);
    assert_eq!(g.uncompressed_size, 0x05060708);
    assert_eq!(g.disk_number_start, 3);
    assert_eq!(g.internal_file_attributes, 1);
    assert_eq!(g.external_file_attributes, 0x81a40000);
    assert_eq!(g.relative_offset_of_local_header, 0x0a0b0c0d);
    assert!(matches!(g.file_name, MaybeUTF8::Bytes(_)));
    assert_eq!(g.file_name.as_bytes(), &[b'n', 0xff, b'm']);
    assert_eq!(g.extra_field, vec![9, 8]);
    assert_eq!(g.file_comment.as_bytes(), b"note");
    assert_eq!(r.tell(), 60);
}

#[test]
fn central_directory_header_layout_is_exact() {
    let h = sample_central_header();
    let mut w: Vec<u8> = Vec::new();
    assert_eq!(h.write(&mut w), Ok(()));
    let expected: Vec<u8> = vec![
        0x50, 0x4b, 0x01, 0x02, 0x1e, 0x03, 0x14, 0x00, 0x00, 0x00, 0x00, 0x00, 0x7d, 0xbf, 0x9f,
        0x27, 0xef, 0xbe, 0xad, 0xde, 0x04, 0x03, 0x02, 0x01, 0x08, 0x07, 0x06, 0x05, 0x03, 0x00,
        0x02, 0x00, 0x04, 0x00, 0x03, 0x00, 0x01, 0x00, 0x00, 0x00, 0xa4, 0x81, 0x0d, 0x0c, 0x0b,
        0x0a, b'n', 0xff, b'm', 9, 8, b'n', b'o', b't', b'e',
    ];
    assert_eq!(w, expected);
}

#[test]
fn central_directory_header_errors() {
    let mut h = sample_central_header();
    h.general_purpose_bit_flag = 0x0800;
    let mut w: Vec<u8> = Vec::new();
    assert_eq!(h.write(&mut w), Err(ZipError::NonUTF8Field));
    assert!(w.is_empty());

    h.file_name = MaybeUTF8::from_bytes(b"ok".to_vec());
    h.file_comment = MaybeUTF8::from_bytes(vec![0x80]);
    assert_eq!(h.write(&mut w), Err(ZipError::NonUTF8Field));
    assert!(w.is_empty());

    h.file_comment = MaybeUTF8::from_bytes(vec![b'c'; 65536]);
    assert_eq!(h.write(&mut w), Err(ZipError::TooLongField));
    assert!(w.is_empty());

    let mut bytes: Vec<u8> = Vec::new();
    assert_eq!(sample_central_header().write(&mut bytes), Ok(()));
    let mut flagged = bytes.clone();
    flagged[9] = 0x08;
    let mut r = ByteReader::new(flagged);
    assert!(matches!(CentralDirectoryHeader::read(&mut r), Err(ZipError::NonUTF8Field)));
    assert_eq!(r.tell(), 0);
    let mut cut = ByteReader::new(bytes[..54].to_vec());
    assert!(matches!(CentralDirectoryHeader::read(&mut cut), Err(ZipError::IoError(IoError::EndOfFile))));
    let mut local: Vec<u8> = Vec::new();
    assert_eq!(sample_local_header().write(&mut local), Ok(()));
    let mut wrong = ByteReader::new(local);
    assert!(matches!(CentralDirectoryHeader::read(&mut wrong), Err(ZipError::InvalidSignature(0x04034b50))));
}

#[test]
fn end_of_central_directory_record_round_trip() {
    let mut e = EndOfCentralDirectoryRecord::new();
    e.disk_number = 1;
    e.disk_number_with_start_of_central_directory = 2;
    e.entry_count_this_disk = 3;
    e.total_entry_count = 4;
    e.central_directory_size = 0x11223344;
    e.central_directory_offset = 0x55667788;
    e.comment = b"a comment".to_vec();
    let mut w: Vec<u8> = Vec::new();
    assert_eq!(e.write(&mut w), Ok(()));
    let expected: Vec<u8> = vec![
        0x50, 0x4b, 0x05, 0x06, 1, 0, 2, 0, 3, 0, 4, 0, 0x44, 0x33, 0x22, 0x11, 0x88, 0x77, 0x66,
        0x55, 9, 0, b'a', b' ', b'c', b'o', b'm', b'm', b'e', b'n', b't',
    ];
    assert_eq!(w, expected);
    let mut r = ByteReader::new(w);
    let g = EndOfCentralDirectoryRecord::read(&mut r).unwrap();
    assert_eq!(g.disk_number, 1);
    assert_eq!(g.disk_number_with_start_of_central_directory, 2);
    assert_eq!(g.entry_count_this_disk, 3);
    assert_eq!(g.total_entry_count, 4);
    assert_eq!(g.central_directory_size, 0x11223344);
    assert_eq!(g.central_directory_offset, 0x55667788);
    assert_eq!(g.comment, b"a comment".to_vec());
    assert_eq!(r.tell(), 31);
}

#[test]
fn end_of_central_directory_record_errors() {
    let mut e = EndOfCentralDirectoryRecord::new();
    e.comment = vec![0; 65536];
    let mut w: Vec<u8> = vec![1];
    assert_eq!(e.write(&mut w), Err(ZipError::TooLongField));
    assert_eq!(w, vec![1]);

    e.comment = vec![7; 3];
    let mut bytes: Vec<u8> = Vec::new();
    assert_eq!(e.write(&mut bytes), Ok(()));
    let mut cut = ByteReader::new(bytes[..24].to_vec());
    assert!(matches!(EndOfCentralDirectoryRecord::read(&mut cut), Err(ZipError::IoError(IoError::EndOfFile))));
    assert_eq!(cut.tell(), 0);
    bytes[0] = 0x51;
    let mut wrong = ByteReader::new(bytes);
    assert!(matches!(EndOfCentralDirectoryRecord::read(&mut wrong), Err(ZipError::InvalidSignature(0x06054b51))));
}

#[test]
fn ensure_u16_field_length_bounds() {
    assert_eq!(ensure_u16_field_length(0), Ok(0));
    assert_eq!(ensure_u16_field_length(65535), Ok(65535));
    assert_eq!(ensure_u16_field_length(65536), Err(ZipError::TooLongField));
}

#[test]
fn read_maybe_utf8_follows_the_flag() {
    let mut r = ByteReader::new(vec![b'a', b'b', 0xff, b'c']);
    let text = read_maybe_utf8(&mut r, true, 2).unwrap();
    assert!(matches!(text, MaybeUTF8::UTF8(_)));
    assert_eq!(text.as_bytes(), b"ab");
    assert!(matches!(read_maybe_utf8(&mut r, true, 2), Err(ZipError::NonUTF8Field)));
    assert_eq!(r.tell(), 2);
    let raw = read_maybe_utf8(&mut r, false, 2).unwrap();
    assert!(matches!(raw, MaybeUTF8::Bytes(_)));
    assert_eq!(raw.as_bytes(), &[0xff, b'c']);
    assert!(matches!(read_maybe_utf8(&mut r, false, 1), Err(ZipError::IoError(IoError::EndOfFile))));
}

#[test]
fn write_maybe_utf8_follows_the_flag() {
    let mut w: Vec<u8> = vec![0];
    assert_eq!(write_maybe_utf8(&mut w, true, &MaybeUTF8::from_bytes(vec![0xff])), Err(ZipError::NonUTF8Field));
    assert_eq!(w, vec![0]);
    assert_eq!(write_maybe_utf8(&mut w, false, &MaybeUTF8::from_bytes(vec![0xff])), Ok(()));
    assert_eq!(write_maybe_utf8(&mut w, true, &MaybeUTF8::from_bytes(vec![b'a'])), Ok(()));
    assert_eq!(write_maybe_utf8(&mut w, true, &MaybeUTF8::from_str(String::from("b"))), Ok(()));
    assert_eq!(w, vec![0, 0xff, b'a', b'b']);
}
