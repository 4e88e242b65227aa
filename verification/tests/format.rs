use std::collections::HashMap;
use std::ops::Range;
use vapor_archive::shared::archive_header::ArchiveHeader;
use vapor_archive::shared::codec::{get_bool, get_i64, get_opt_u32, get_text, get_u64, put_i64};
use vapor_archive::shared::compression::Compression;
use vapor_archive::shared::directory::Directory;
use vapor_archive::shared::encryption::Encryption;
use vapor_archive::shared::file_header::FileHeader;
use vapor_archive::shared::file_info::FileInfo;
use vapor_archive::shared::file_metadata::FileMetadata;
use vapor_archive::{get_version_bytes, get_version_tuple, VERSION};

fn sample_header() -> FileHeader {
    let metadata = FileMetadata::from_parts(true, Some(0o755), -7, None, Some(1_234_567), Some(0));
    let info = FileInfo::added(0)
        .with_metadata(metadata)
        .with_raw_size(1 << 40)
        .with_data_size(77)
        .with_compression(Compression::ZStandard)
        .with_filename("näme")
        .with_data_checksum([0xAB; 32])
        .with_raw_checksum([0x01; 32]);
    FileHeader::added(0).with_data_range(35..112).with_file_info(info)
}

#[test]
fn version_is_0_1_0() {
    assert_eq!(get_version_tuple(), (0, 1, 0));
    assert_eq!(VERSION, "0.1.0");
    assert_eq!(&get_version_bytes(), b"0.1.0           ");
}

#[test]
fn compression_codes() {
    assert_eq!(Compression::from(0), Compression::Uncompressed);
    assert_eq!(Compression::from(1), Compression::ZStandard);
    assert_eq!(Compression::from(2), Compression::Unknown);
    assert_eq!(Compression::from(255), Compression::Unknown);
    assert_eq!(u8::from(Compression::Uncompressed), 0);
    assert_eq!(u8::from(Compression::ZStandard), 1);
    let code: u8 = Compression::LZMA2.into();
    assert_eq!(code, 255);
    assert_eq!(u8::from(Compression::Unknown), 255);
    assert_eq!(Compression::default(), Compression::ZStandard);
    assert!(Compression::Uncompressed.supported());
    assert!(Compression::ZStandard.supported());
    assert!(!Compression::Deflate.supported());
    assert!(!Compression::Unknown.supported());
}

#[test]
fn encryption_codes() {
    assert_eq!(Encryption::from(0), Encryption::Unencrypted);
    assert_eq!(Encryption::from(1), Encryption::AES);
    assert_eq!(Encryption::from(2), Encryption::Blowfish);
    assert_eq!(Encryption::from(3), Encryption::Twofish);
    assert_eq!(Encryption::from(4), Encryption::Unknown);
    assert_eq!(u8::from(Encryption::Twofish), 3);
    assert_eq!(u8::from(Encryption::Unknown), 255);
    assert_eq!(Encryption::default(), Encryption::Unencrypted);
}

#[test]
fn archive_header_takes_32_bytes() {
    let mut bytes = Vec::new();
    ArchiveHeader::pointing_at(0x0102..0x0A0B0C0D).encode(&mut bytes);
    let mut expected = b"0.1.0           ".to_vec();
    expected.extend_from_slice(&[0x02, 0x01, 0, 0, 0, 0, 0, 0]);
    expected.extend_from_slice(&[0x0D, 0x0C, 0x0B, 0x0A, 0, 0, 0, 0]);
    assert_eq!(bytes, expected);
    let (header, end) = ArchiveHeader::decode(&bytes, 0).unwrap();
    assert_eq!(end, 32);
    assert_eq!(header.version, get_version_bytes());
    assert_eq!(header.directory_range, 0x0102..0x0A0B0C0D);
    assert!(ArchiveHeader::decode(&bytes, 1).is_none());
    assert!(ArchiveHeader::decode(&bytes[..31], 0).is_none());
    assert_eq!(ArchiveHeader::default().directory_range, 0..0);
    assert_eq!(ArchiveHeader::default().version, get_version_bytes());
}

#[test]
fn archive_header_is_laid_out_as_bincode_lays_its_fields_out() {
    let mut bytes = Vec::new();
    ArchiveHeader::pointing_at(35..4096).encode(&mut bytes);
    let fields: ([u8; 16], Range<u64>) = (get_version_bytes(), 35..4096);
    assert_eq!(bytes, bincode::serialize(&fields).unwrap());
}

#[test]
fn directory_is_laid_out_as_bincode_lays_a_map_out() {
    let mut directory = Directory::default();
    directory.set_file("sales_records.csv", 100..250);
    let mut bytes = Vec::new();
    directory.encode(&mut bytes);
    let mut map: HashMap<String, Range<u64>> = HashMap::new();
    map.insert(String::from("sales_records.csv"), 100..250);
    assert_eq!(bytes, bincode::serialize(&map).unwrap());

    directory.set_file("bsd.md", 300..301);
    let mut bytes = Vec::new();
    directory.encode(&mut bytes);
    let back: HashMap<String, Range<u64>> = bincode::deserialize(&bytes).unwrap();
    map.insert(String::from("bsd.md"), 300..301);
    assert_eq!(back, map);
}

#[test]
fn file_header_is_laid_out_as_bincode_lays_its_fields_out() {
    let mut bytes = Vec::new();
    sample_header().encode(&mut bytes);
    let fields = (
        35..112u64,
        1u64 << 40,
        77u64,
        1u8,
        0u8,
        String::from("näme"),
        true,
        Some(0o755u32),
        -7i64,
        None::<i64>,
        Some(1_234_567i64),
        Some(0i64),
        [0xABu8; 32],
        [0x01u8; 32],
    );
    assert_eq!(bytes, bincode::serialize(&fields).unwrap());
}

#[test]
fn file_header_reads_back() {
    let mut bytes = Vec::new();
    sample_header().encode(&mut bytes);
    bytes.extend_from_slice(b"bytes behind the record");
    let header = FileHeader::decode(&bytes).unwrap();
    assert_eq!(header.data_range, 35..112);
    assert_eq!(header.file_info.raw_size, 1 << 40);
    assert_eq!(header.file_info.data_size, 77);
    assert_eq!(header.file_info.compression, Compression::ZStandard);
    assert_eq!(header.file_info.encryption, Encryption::Unencrypted);
    assert_eq!(header.file_info.filename, "näme");
    assert_eq!(header.file_info.metadata, sample_header().file_info.metadata);
    assert_eq!(header.file_info.data_checksum, [0xAB; 32]);
    assert_eq!(header.file_info.raw_checksum, [0x01; 32]);
    assert!(header.is_compressed());
    assert!(!header.is_encrypted());
    assert_eq!(header.get_compression(), Compression::ZStandard);
    assert_eq!(FileInfo::from(&header).filename, "näme");
}

#[test]
fn file_header_cut_short_does_not_read() {
    let mut bytes = Vec::new();
    sample_header().encode(&mut bytes);
    for cut in 0..bytes.len() {
        assert!(FileHeader::decode(&bytes[..cut]).is_none(), "cut at {}", cut);
    }
    assert!(FileHeader::decode(&bytes).is_some());
}

#[test]
fn file_header_with_a_wrong_flag_or_tag_does_not_read() {
    let mut bytes = Vec::new();
    sample_header().encode(&mut bytes);
    let name_len = "näme".len();
    let flag = 16 + 8 + 8 + 1 + 1 + 8 + name_len;
    assert_eq!(bytes[flag], 1);
    let mut wrong = bytes.clone();
    wrong[flag] = 2;
    assert!(FileHeader::decode(&wrong).is_none());
    let mut wrong = bytes.clone();
    assert_eq!(wrong[flag + 1], 1);
    wrong[flag + 1] = 0xFF;
    assert!(FileHeader::decode(&wrong).is_none());
    // a name that is not UTF-8
    let mut wrong = bytes.clone();
    wrong[16 + 8 + 8 + 1 + 1 + 8 + 1] = 0xFF;
    assert!(FileHeader::decode(&wrong).is_none());
    // a name that runs past the end
    let mut wrong = bytes.clone();
    wrong[16 + 8 + 8 + 1 + 1 + 7] = 0x7F;
    assert!(FileHeader::decode(&wrong).is_none());
}

#[test]
fn unassigned_algorithm_reads_back_as_unknown() {
    let info = FileInfo::added(0).with_compression(Compression::BZIP2);
    let mut bytes = Vec::new();
    FileHeader::added(0).with_file_info(info).encode(&mut bytes);
    assert_eq!(bytes[32], 255);
    let header = FileHeader::decode(&bytes).unwrap();
    assert_eq!(header.get_compression(), Compression::Unknown);
    assert!(header.is_compressed());
}

#[test]
fn file_header_builders_set_one_field_each() {
    let header = FileHeader::added(0)
        .with_raw_size(9)
        .with_compression(Compression::Deflate)
        .with_data_range(3..12)
        .with_data_checksum([4; 32])
        .with_raw_checksum([5; 32]);
    assert_eq!(header.file_info.raw_size, 9);
    assert_eq!(header.file_info.data_size, 0);
    assert_eq!(header.file_info.compression, Compression::Deflate);
    assert_eq!(header.data_range, 3..12);
    assert_eq!(header.file_info.data_checksum, [4; 32]);
    assert_eq!(header.file_info.raw_checksum, [5; 32]);
    assert_eq!(header.file_info.filename, "");
    assert!(header.is_compressed());
    assert!(!FileHeader::added(0).is_compressed());
    assert!(!FileHeader::added(0).is_encrypted());
}

#[test]
fn added_file_info_is_blank_but_for_the_time_of_adding() {
    let info = FileInfo::added(77);
    assert_eq!(info.raw_size, 0);
    assert_eq!(info.data_size, 0);
    assert_eq!(info.compression, Compression::Uncompressed);
    assert_eq!(info.encryption, Encryption::Unencrypted);
    assert_eq!(info.filename, "");
    assert_eq!(info.data_checksum, [0; 32]);
    assert_eq!(info.raw_checksum, [0; 32]);
    assert_eq!(info.metadata, FileMetadata::added(77));
    let metadata = FileMetadata::added(-5);
    assert!(!metadata.readonly);
    assert_eq!(metadata.permissions_opt, None);
    assert_eq!(metadata.added_at, -5);
    assert_eq!(metadata.modified_at, None);
    assert_eq!(metadata.created_at, None);
    assert_eq!(metadata.accessed_at, None);
    let header = FileHeader::added(9);
    assert_eq!(header.data_range, 0..0);
    assert_eq!(header.file_info.metadata, FileMetadata::added(9));
    assert_eq!(header.file_info.raw_size, 0);
}

#[test]
fn file_info_as_text() {
    let info = FileInfo::added(0)
        .with_compression(Compression::ZStandard)
        .with_data_checksum([0xab; 32])
        .with_raw_checksum([0xcd; 32]);
    let expected = format!(
        "FileInfo {{\n    compression: ZStandard\n    encryption: None\n    \
         data_checksum: {}\n    raw_checksum: {}\n}}\n",
        "ab".repeat(32),
        "cd".repeat(32)
    );
    assert_eq!(info.to_string(), expected);
}

#[test]
fn file_info_as_text_writes_small_bytes_as_one_digit() {
    let mut data_checksum = [0u8; 32];
    data_checksum[0] = 0x0a;
    data_checksum[1] = 0xff;
    data_checksum[31] = 0x10;
    let info = FileInfo::added(0).with_data_checksum(data_checksum).with_raw_checksum([0xc3; 32]);
    let expected = format!(
        "FileInfo {{\n    compression: None\n    encryption: None\n    \
         data_checksum: aff{}10\n    raw_checksum: {}\n}}\n",
        "0".repeat(29),
        "c3".repeat(32)
    );
    assert_eq!(info.to_string(), expected);
}

#[test]
fn algorithms_by_name() {
    assert_eq!(Compression::Uncompressed.name(), "None");
    assert_eq!(Compression::ZStandard.name(), "ZStandard");
    assert_eq!(Compression::Deflate.name(), "Deflate");
    assert_eq!(Compression::LZMA.name(), "LZMA");
    assert_eq!(Compression::LZMA2.name(), "LZMA2");
    assert_eq!(Compression::BZIP2.name(), "BZIP2");
    assert_eq!(Compression::LZ4.name(), "LZ4");
    assert_eq!(Compression::Unknown.name(), "Unknown");
    assert_eq!(Encryption::Unencrypted.name(), "None");
    assert_eq!(Encryption::AES.name(), "AES");
    assert_eq!(Encryption::Blowfish.name(), "Blowfish");
    assert_eq!(Encryption::Twofish.name(), "Twofish");
    assert_eq!(Encryption::Unknown.name(), "Unknown");
    assert_eq!(Encryption::Twofish.name(), format!("{:?}", Encryption::Twofish));
    assert_eq!(Compression::LZ4.name(), format!("{:?}", Compression::LZ4));
}

#[test]
fn metadata_record_reads_back() {
    let metadata =
        FileMetadata::from_parts(false, None, i64::MAX, Some(i64::MIN), Some(-1), Some(1));
    let mut bytes = vec![0xEE];
    metadata.encode(&mut bytes);
    assert_eq!(bytes.len(), 1 + 1 + 1 + 8 + 9 + 9 + 9);
    assert_eq!(FileMetadata::decode(&bytes, 1), Some((metadata, bytes.len())));
    assert!(FileMetadata::decode(&bytes, 0).is_none());
    assert!(FileMetadata::decode(&bytes[..bytes.len() - 1], 1).is_none());
}

#[test]
fn integers_are_little_endian_twos_complement() {
    let mut bytes = Vec::new();
    put_i64(&mut bytes, -2);
    put_i64(&mut bytes, i64::MIN);
    put_i64(&mut bytes, 258);
    assert_eq!(&bytes[..8], &[0xFE, 0xFF, 0xFF, 0xFF, 0xFF, 0xFF, 0xFF, 0xFF]);
    assert_eq!(&bytes[8..16], &[0, 0, 0, 0, 0, 0, 0, 0x80]);
    assert_eq!(&bytes[16..], &[2, 1, 0, 0, 0, 0, 0, 0]);
    assert_eq!(get_i64(&bytes, 0), Some((-2, 8)));
    assert_eq!(get_i64(&bytes, 8), Some((i64::MIN, 16)));
    assert_eq!(get_u64(&bytes, 16), Some((258, 24)));
    assert_eq!(get_u64(&bytes, 17), None);
    assert_eq!(get_u64(&bytes, usize::MAX), None);
    assert_eq!(get_bool(&[0, 1, 2], 0), Some((false, 1)));
    assert_eq!(get_bool(&[0, 1, 2], 1), Some((true, 2)));
    assert_eq!(get_bool(&[0, 1, 2], 2), None);
    assert_eq!(get_bool(&[0, 1, 2], 3), None);
    assert_eq!(get_opt_u32(&[0], 0), Some((None, 1)));
    assert_eq!(get_opt_u32(&[1, 4, 3, 2, 1], 0), Some((Some(0x01020304), 5)));
    assert_eq!(get_opt_u32(&[1, 4, 3, 2], 0), None);
    assert_eq!(get_opt_u32(&[3, 4, 3, 2, 1], 0), None);
}

#[test]
fn text_is_length_prefixed_utf8() {
    let mut bytes = 2u64.to_le_bytes().to_vec();
    bytes.extend_from_slice("ä".as_bytes());
    assert_eq!(get_text(&bytes, 0), Some((String::from("ä"), 10)));
    bytes[9] = b'a';
    assert_eq!(get_text(&bytes, 0), None);
    let mut long = u64::MAX.to_le_bytes().to_vec();
    long.extend_from_slice(b"abc");
    assert_eq!(get_text(&long, 0), None);
    assert_eq!(get_text(&0u64.to_le_bytes(), 0), Some((String::new(), 8)));
}

#[test]
fn directory_keeps_one_range_for_each_name() {
    let mut directory = Directory::new();
    assert_eq!(directory.len(), 0);
    assert_eq!(directory.get_file("a"), None);
    directory.set_file("a", 1..2);
    directory.set_file("b", 3..4);
    directory.set_file("a", 5..6);
    assert_eq!(directory.len(), 2);
    assert_eq!(directory.get_file("a"), Some(5..6));
    assert_eq!(directory.get_file("b"), Some(3..4));
    assert_eq!(directory.get_file("c"), None);
    assert_eq!(directory.get_file_list(), vec![String::from("a"), String::from("b")]);
}

#[test]
fn directory_record_reads_back() {
    let mut directory = Directory::new();
    directory.set_file("one", 35..135);
    directory.set_file("", 0..0);
    directory.set_file("three", u64::MAX - 1..u64::MAX);
    let mut bytes = b"xy".to_vec();
    directory.encode(&mut bytes);
    let (back, end) = Directory::decode(&bytes, 2).unwrap();
    assert_eq!(end, bytes.len());
    assert_eq!(back.get_file_list(), directory.get_file_list());
    assert_eq!(back.get_file("one"), Some(35..135));
    assert_eq!(back.get_file(""), Some(0..0));
    assert_eq!(back.get_file("three"), Some(u64::MAX - 1..u64::MAX));
    for cut in 0..bytes.len() {
        assert!(Directory::decode(&bytes[..cut], 2).is_none(), "cut at {}", cut);
    }
}

#[test]
fn directory_record_with_a_name_twice_keeps_the_last_entry() {
    let mut bytes = 2u64.to_le_bytes().to_vec();
    for range in [10u64..20, 30..40] {
        bytes.extend_from_slice(&1u64.to_le_bytes());
        bytes.push(b'n');
        bytes.extend_from_slice(&range.start.to_le_bytes());
        bytes.extend_from_slice(&range.end.to_le_bytes());
    }
    let (directory, end) = Directory::decode(&bytes, 0).unwrap();
    assert_eq!(end, bytes.len());
    assert_eq!(directory.len(), 1);
    assert_eq!(directory.get_file("n"), Some(30..40));
}

#[test]
fn directory_record_that_counts_more_entries_than_it_holds_does_not_read() {
    let mut directory = Directory::new();
    directory.set_file("only", 1..2);
    let mut bytes = Vec::new();
    directory.encode(&mut bytes);
    bytes[0] = 2;
    assert!(Directory::decode(&bytes, 0).is_none());
    bytes[..8].copy_from_slice(&u64::MAX.to_le_bytes());
    assert!(Directory::decode(&bytes, 0).is_none());
    let mut invalid = Vec::new();
    directory.encode(&mut invalid);
    invalid[16] = 0xC0;
    assert!(Directory::decode(&invalid, 0).is_none());
}
