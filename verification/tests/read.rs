use std::ops::Range;
use vapor_archive::read::archive::Archive;
use vapor_archive::read::comp_reader::{CompReader, Decoder};
use vapor_archive::read::file::File;
use vapor_archive::shared::archive_header::ArchiveHeader;
use vapor_archive::shared::compression::Compression;
use vapor_archive::shared::directory::Directory;
use vapor_archive::shared::error::Error;
use vapor_archive::shared::file_header::FileHeader;
use vapor_archive::shared::file_info::FileInfo;
use vapor_archive::shared::file_metadata::FileMetadata;
use vapor_archive::write::writer::Writer;

/// Puts an archive together from the bytes between header and directory and
/// the entries of the directory.
fn assemble(region: &[u8], entries: &[(&str, Range<u64>)]) -> Vec<u8> {
    let mut directory = Directory::new();
    for (name, range) in entries {
        directory.set_file(name, range.clone());
    }
    let mut record = Vec::new();
    directory.encode(&mut record);
    let begin = 35 + region.len() as u64;
    let mut bytes = b"VAR".to_vec();
    ArchiveHeader::pointing_at(begin..begin + record.len() as u64).encode(&mut bytes);
    bytes.extend_from_slice(region);
    bytes.extend_from_slice(&record);
    bytes
}

fn footer(data_range: Range<u64>, raw_size: u64, compression: Compression) -> Vec<u8> {
    let info = FileInfo::added(0)
        .with_raw_size(raw_size)
        .with_data_size(data_range.end.saturating_sub(data_range.start))
        .with_compression(compression);
    let mut bytes = Vec::new();
    FileHeader::added(0).with_data_range(data_range).with_file_info(info).encode(&mut bytes);
    bytes
}

fn two_members() -> Vec<u8> {
    let writer = Writer::new(Vec::new()).unwrap();
    let mut file = writer.write_file("first", Compression::Uncompressed).unwrap();
    file.write(b"first contents");
    let writer = file.finish_with(FileMetadata::added(5)).unwrap();
    let mut file = writer.write_file("second", Compression::ZStandard).unwrap();
    file.write(b"second contents, compressed");
    file.finish_with(FileMetadata::added(6)).unwrap().finish()
}

fn read_all(archive: &Archive, name: &str) -> Vec<u8> {
    let mut file = archive.get_file(name).unwrap();
    let mut contents = Vec::new();
    file.read_to_end(&mut contents);
    contents
}

#[test]
fn short_source_has_no_magic_bytes() {
    assert!(matches!(Archive::new(Vec::new()), Err(Error::CantReadMagicBytes)));
    assert!(matches!(Archive::new(b"VA".to_vec()), Err(Error::CantReadMagicBytes)));
}

#[test]
fn wrong_magic_bytes_are_reported() {
    let mut bytes = two_members();
    bytes[..3].copy_from_slice(b"ZIP");
    assert!(matches!(Archive::new(bytes), Err(Error::IncorrectMagicBytes([b'Z', b'I', b'P']))));
    assert!(matches!(
        Archive::new(b"var".to_vec()),
        Err(Error::IncorrectMagicBytes([b'v', b'a', b'r']))
    ));
}

#[test]
fn source_that_ends_in_the_header_is_corrupt() {
    let bytes = two_members();
    for cut in 3..35 {
        assert!(matches!(Archive::new(bytes[..cut].to_vec()), Err(Error::CorruptHeader)));
    }
}

#[test]
fn archive_cut_short_before_its_end_has_a_corrupt_directory() {
    let bytes = two_members();
    for cut in 35..bytes.len() {
        assert!(
            matches!(Archive::new(bytes[..cut].to_vec()), Err(Error::CorruptDirectory)),
            "cut at {}",
            cut
        );
    }
    assert!(Archive::new(bytes).is_ok());
}

#[test]
fn directory_offset_behind_the_end_is_a_corrupt_directory() {
    let mut bytes = two_members();
    let len = bytes.len() as u64;
    bytes[19..27].copy_from_slice(&(len + 1).to_le_bytes());
    assert!(matches!(Archive::new(bytes.clone()), Err(Error::CorruptDirectory)));
    bytes[19..27].copy_from_slice(&u64::MAX.to_le_bytes());
    assert!(matches!(Archive::new(bytes), Err(Error::CorruptDirectory)));
}

#[test]
fn bytes_behind_the_directory_are_not_looked_at() {
    let mut bytes = two_members();
    bytes.extend_from_slice(b"trailing bytes");
    let archive = Archive::new(bytes).unwrap();
    assert_eq!(archive.get_file_list().len(), 2);
    assert_eq!(read_all(&archive, "first"), b"first contents".to_vec());
}

#[test]
fn unknown_name_is_not_found() {
    let archive = Archive::new(two_members()).unwrap();
    assert!(matches!(archive.get_file("third"), Err(Error::FileNotFound(name)) if name == "third"));
    assert!(matches!(
        archive.get_file_info("First"),
        Err(Error::FileNotFound(name)) if name == "First"
    ));
}

#[test]
fn damaged_file_header_leaves_the_other_member_readable() {
    let bytes = two_members();
    let intact = Archive::new(bytes.clone()).unwrap();
    let first_len = b"first contents".len();
    // the read-only flag of the first member's metadata
    let flag = 35 + first_len + 16 + 8 + 8 + 1 + 1 + 8;
    let mut damaged = bytes.clone();
    assert_eq!(damaged[flag], 0);
    damaged[flag] = 2;
    let archive = Archive::new(damaged).unwrap();
    assert_eq!(archive.get_file_list().len(), 2);
    assert!(matches!(archive.get_file_info("first"), Err(Error::CorruptFileHeader)));
    assert!(matches!(archive.get_file("first"), Err(Error::CorruptFileHeader)));
    assert_eq!(read_all(&archive, "second"), b"second contents, compressed".to_vec());
    let info = archive.get_file_info("second").unwrap();
    let before = intact.get_file_info("second").unwrap();
    assert_eq!(info.raw_checksum, before.raw_checksum);
    assert_eq!(info.data_checksum, before.data_checksum);
    assert_eq!(info.metadata, before.metadata);
}

#[test]
fn changed_checksum_byte_still_reads_as_a_file_header() {
    let bytes = two_members();
    let first_len = b"first contents".len();
    let checksum = 35 + first_len + 16 + 8 + 8 + 1 + 1 + 8 + 13;
    let mut damaged = bytes.clone();
    damaged[checksum] ^= 0xFF;
    let archive = Archive::new(damaged).unwrap();
    let info = archive.get_file_info("first").unwrap();
    let before = Archive::new(bytes).unwrap().get_file_info("first").unwrap();
    assert_ne!(info.data_checksum, before.data_checksum);
    assert_eq!(info.raw_checksum, before.raw_checksum);
    assert_eq!(read_all(&archive, "first"), b"first contents".to_vec());
}

#[test]
fn file_header_range_outside_the_archive_cannot_be_read() {
    let bytes = assemble(b"", &[("behind", 40..4000), ("backwards", 38..36)]);
    let archive = Archive::new(bytes).unwrap();
    assert!(matches!(archive.get_file_info("behind"), Err(Error::CantReadFileHeader)));
    assert!(matches!(archive.get_file("behind"), Err(Error::CantReadFileHeader)));
    assert!(matches!(archive.get_file_info("backwards"), Err(Error::CantReadFileHeader)));
    assert!(matches!(archive.get_file_header(0..u64::MAX), Err(Error::CantReadFileHeader)));
}

#[test]
fn file_header_range_that_is_too_short_is_corrupt() {
    let mut region = b"hello".to_vec();
    let record = footer(35..40, 5, Compression::Uncompressed);
    region.extend_from_slice(&record);
    let end = 40 + record.len() as u64;
    let bytes = assemble(&region, &[("whole", 40..end), ("short", 40..end - 1), ("none", 40..40)]);
    let archive = Archive::new(bytes).unwrap();
    assert_eq!(read_all(&archive, "whole"), b"hello".to_vec());
    assert!(matches!(archive.get_file_info("short"), Err(Error::CorruptFileHeader)));
    assert!(matches!(archive.get_file_info("none"), Err(Error::CorruptFileHeader)));
}

#[test]
fn read_is_bounded_by_the_uncompressed_size() {
    // the data range covers more than the member: the next member's bytes
    let mut region = b"hello, and the next member".to_vec();
    let record = footer(35..61, 5, Compression::Uncompressed);
    region.extend_from_slice(&record);
    let end = 61 + record.len() as u64;
    let archive = Archive::new(assemble(&region, &[("bounded", 61..end)])).unwrap();
    assert_eq!(archive.get_file_info("bounded").unwrap().raw_size, 5);
    assert_eq!(read_all(&archive, "bounded"), b"hello".to_vec());
    let mut file = archive.get_file("bounded").unwrap();
    assert_eq!(file.raw_size(), 5);
    let mut buf = [b'.'; 8];
    assert_eq!(file.read(&mut buf), 5);
    assert_eq!(&buf, b"hello...");
    assert_eq!(file.read(&mut buf), 0);
    assert_eq!(&buf, b"hello...");
}

#[test]
fn compressed_read_is_bounded_by_the_uncompressed_size() {
    let frame = zstd::stream::encode_all(&b"0123456789"[..], 3).unwrap();
    let mut region = frame.clone();
    let data_end = 35 + frame.len() as u64;
    let record = footer(35..data_end, 4, Compression::ZStandard);
    region.extend_from_slice(&record);
    let end = data_end + record.len() as u64;
    let archive = Archive::new(assemble(&region, &[("bounded", data_end..end)])).unwrap();
    assert_eq!(read_all(&archive, "bounded"), b"0123".to_vec());
}

#[test]
fn member_that_is_shorter_than_its_size_cannot_be_read() {
    let mut region = b"hello".to_vec();
    let record = footer(35..40, 6, Compression::Uncompressed);
    region.extend_from_slice(&record);
    let end = 40 + record.len() as u64;
    let archive = Archive::new(assemble(&region, &[("short", 40..end)])).unwrap();
    assert_eq!(archive.get_file_info("short").unwrap().raw_size, 6);
    assert!(matches!(archive.get_file("short"), Err(Error::CantReadFile)));
}

#[test]
fn data_range_outside_the_archive_cannot_be_read() {
    for data_range in [35..9000u64, 39..36, u64::MAX - 1..u64::MAX] {
        let record = footer(data_range, 0, Compression::Uncompressed);
        let end = 35 + record.len() as u64;
        let archive = Archive::new(assemble(&record, &[("out", 35..end)])).unwrap();
        assert!(archive.get_file_info("out").is_ok());
        assert!(matches!(archive.get_file("out"), Err(Error::CantReadFile)));
    }
}

#[test]
fn member_of_an_unsupported_algorithm_cannot_be_read() {
    let mut region = b"hello".to_vec();
    let record = footer(35..40, 5, Compression::LZ4);
    region.extend_from_slice(&record);
    let end = 40 + record.len() as u64;
    let archive = Archive::new(assemble(&region, &[("lz4", 40..end)])).unwrap();
    let info = archive.get_file_info("lz4").unwrap();
    assert_eq!(info.compression, Compression::Unknown);
    assert!(info.is_compressed());
    assert!(matches!(archive.get_file("lz4"), Err(Error::CantReadFile)));
}

#[test]
fn stored_bytes_that_are_no_frame_cannot_be_read() {
    let mut region = b"not a zstandard frame".to_vec();
    let record = footer(35..56, 5, Compression::ZStandard);
    region.extend_from_slice(&record);
    let end = 56 + record.len() as u64;
    let archive = Archive::new(assemble(&region, &[("broken", 56..end)])).unwrap();
    assert!(matches!(archive.get_file("broken"), Err(Error::CantReadFile)));
}

#[test]
fn file_is_read_in_pieces() {
    let archive = Archive::new(two_members()).unwrap();
    for (name, contents) in
        [("first", &b"first contents"[..]), ("second", &b"second contents, compressed"[..])]
    {
        let mut file = archive.get_file(name).unwrap();
        let mut collected = Vec::new();
        let mut buf = [0u8; 4];
        loop {
            let n = file.read(&mut buf);
            if n == 0 {
                break;
            }
            collected.extend_from_slice(&buf[..n]);
        }
        assert_eq!(collected, contents);
        assert_eq!(file.read(&mut buf), 0);
        let mut rest = Vec::new();
        assert_eq!(file.read_to_end(&mut rest), 0);
        assert!(rest.is_empty());
    }
}

#[test]
fn read_into_an_empty_buffer_reads_nothing() {
    let archive = Archive::new(two_members()).unwrap();
    let mut file = archive.get_file("first").unwrap();
    assert_eq!(file.read(&mut []), 0);
    let mut contents = b"kept:".to_vec();
    assert_eq!(file.read_to_end(&mut contents), 14);
    assert_eq!(contents, b"kept:first contents".to_vec());
}

#[test]
fn file_new_opens_a_data_range() {
    let source = b"....hello....".to_vec();
    let mut file = File::new(&source, 5, 4..9, Compression::Uncompressed)
        .unwrap()
        .with_metadata(FileMetadata::added(9));
    let mut contents = Vec::new();
    assert_eq!(file.read_to_end(&mut contents), 5);
    assert_eq!(contents, b"hello".to_vec());
    assert!(matches!(
        File::new(&source, 5, 4..9, Compression::Deflate),
        Err(Error::CantReadFile)
    ));
    assert!(matches!(
        File::new(&source, 6, 4..9, Compression::Uncompressed),
        Err(Error::CantReadFile)
    ));
    assert!(matches!(
        File::new(&source, 0, 4..14, Compression::Uncompressed),
        Err(Error::CantReadFile)
    ));
    assert!(File::new(&source, 0, 13..13, Compression::Uncompressed).is_ok());
}

#[test]
fn file_over_a_reader_hands_out_the_first_bytes() {
    let frame = zstd::stream::encode_all(&b"0123456789"[..], 9).unwrap();
    for raw_size in 0..=10u64 {
        let raw = CompReader::new(b"0123456789", Compression::Uncompressed).unwrap();
        let mut file = File::over(raw, raw_size).unwrap();
        assert_eq!(file.raw_size(), raw_size as usize);
        let mut contents = Vec::new();
        assert_eq!(file.read_to_end(&mut contents), raw_size as usize);
        assert_eq!(contents, b"0123456789"[..raw_size as usize].to_vec());

        let packed = CompReader::new(&frame, Compression::ZStandard).unwrap();
        let mut file = File::over(packed, raw_size).unwrap();
        let mut contents = Vec::new();
        assert_eq!(file.read_to_end(&mut contents), raw_size as usize);
        assert_eq!(contents, b"0123456789"[..raw_size as usize].to_vec());
    }
    for raw_size in [11u64, 12, u64::MAX] {
        let raw = CompReader::new(b"0123456789", Compression::Uncompressed).unwrap();
        assert!(matches!(File::over(raw, raw_size), Err(Error::CantReadFile)));
        let packed = CompReader::new(&frame, Compression::ZStandard).unwrap();
        assert!(matches!(File::over(packed, raw_size), Err(Error::CantReadFile)));
    }
    let decoder = Decoder::over(Some(b"abc".to_vec())).unwrap();
    let mut file = File::over(CompReader::ZStandard(decoder), 2).unwrap();
    let mut contents = Vec::new();
    file.read_to_end(&mut contents);
    assert_eq!(contents, b"ab".to_vec());
}

#[test]
fn comp_reader_is_of_the_kind_of_the_algorithm() {
    let frame = zstd::stream::encode_all(&b"unpacked"[..], 9).unwrap();
    assert!(matches!(
        CompReader::new(&frame, Compression::Uncompressed),
        Ok(CompReader::Raw(bytes)) if bytes == &frame[..]
    ));
    assert!(matches!(
        CompReader::new(&frame, Compression::ZStandard),
        Ok(CompReader::ZStandard(_))
    ));
    assert!(matches!(CompReader::new(b"", Compression::Uncompressed), Ok(CompReader::Raw(b""))));
}

#[test]
fn comp_reader_unpacks_what_was_stored() {
    let mut raw = CompReader::new(b"stored", Compression::Uncompressed).unwrap();
    assert_eq!(raw.available(), 6);
    let mut buf = [0u8; 4];
    assert_eq!(raw.read(&mut buf), 4);
    assert_eq!(&buf, b"stor");
    assert_eq!(raw.read(&mut buf), 2);
    assert_eq!(&buf, b"edor");
    assert_eq!(raw.read(&mut buf), 0);

    let frame = zstd::stream::encode_all(&b"unpacked"[..], 9).unwrap();
    let mut packed = CompReader::new(&frame, Compression::ZStandard).unwrap();
    assert_eq!(packed.available(), 8);
    let mut buf = [0u8; 16];
    assert_eq!(packed.read(&mut buf), 8);
    assert_eq!(&buf[..8], b"unpacked");
    assert_eq!(packed.available(), 0);
    assert!(matches!(CompReader::new(b"junk", Compression::ZStandard), Err(Error::CantReadFile)));
}

#[test]
fn decoder_over_nothing_cannot_read_the_file() {
    assert!(matches!(Decoder::over(None), Err(Error::CantReadFile)));
    let mut decoder = Decoder::over(Some(b"abc".to_vec())).unwrap();
    let mut buf = [0u8; 2];
    assert_eq!(decoder.read(&mut buf), 2);
    assert_eq!(&buf, b"ab");
    assert_eq!(decoder.available(), 1);
}

#[test]
fn archive_hands_its_source_back() {
    let bytes = two_members();
    assert_eq!(Archive::new(bytes.clone()).unwrap().into_inner(), bytes);
}
