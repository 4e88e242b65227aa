use vapor_archive::blake2::{Blake2s, Digest};
use vapor_archive::shared::compression::Compression;
use vapor_archive::shared::error::Error;
use vapor_archive::shared::file_metadata::FileMetadata;
use vapor_archive::write::comp_writer::{CompWriter, Encoder};
use vapor_archive::write::hash_writer::HashWriter;
use vapor_archive::{VarArchive, VarWriter};

fn pack(members: &[(&str, Compression, &[u8])]) -> Vec<u8> {
    let mut writer = VarWriter::new(Vec::new()).unwrap();
    for (name, compression, contents) in members {
        let mut file = writer.write_file(name, *compression).unwrap();
        assert_eq!(file.write(contents), contents.len());
        writer = file.finish(1_600_000_000_000).unwrap();
    }
    writer.finish()
}

fn unpack(archive: &VarArchive, name: &str) -> Vec<u8> {
    let mut file = archive.get_file(name).unwrap();
    let mut contents = Vec::new();
    file.read_to_end(&mut contents);
    contents
}

fn digest_of(bytes: &[u8]) -> [u8; 32] {
    Blake2s::digest(bytes).into()
}

#[test]
fn hello_and_zeros() {
    let zeros = vec![0u8; 10_000];
    let bytes = pack(&[
        ("a.txt", Compression::Uncompressed, b"hello"),
        ("b.bin", Compression::ZStandard, &zeros),
    ]);
    let archive = VarArchive::new(bytes).unwrap();
    let mut list = archive.get_file_list();
    list.sort();
    assert_eq!(list, vec![String::from("a.txt"), String::from("b.bin")]);
    assert_eq!(unpack(&archive, "a.txt"), b"hello".to_vec());
    let info = archive.get_file_info("b.bin").unwrap();
    assert_eq!(info.raw_size, 10_000);
    assert!(info.data_size < 10_000);
    assert_eq!(unpack(&archive, "b.bin"), zeros);
}

#[test]
fn uncompressed_member_reads_back_with_its_checksums() {
    let contents: Vec<u8> = (0..=255u8).cycle().take(3000).collect();
    let bytes = pack(&[("data", Compression::Uncompressed, &contents)]);
    let archive = VarArchive::new(bytes.clone()).unwrap();
    assert_eq!(unpack(&archive, "data"), contents);
    let info = archive.get_file_info("data").unwrap();
    assert_eq!(info.filename, "data");
    assert_eq!(info.raw_size, 3000);
    assert_eq!(info.data_size, 3000);
    assert_eq!(info.compression, Compression::Uncompressed);
    assert!(!info.is_compressed());
    assert!(!info.is_encrypted());
    assert_eq!(info.raw_checksum, digest_of(&contents));
    assert_eq!(info.data_checksum, digest_of(&bytes[35..3035]));
    assert_eq!(&bytes[35..3035], &contents[..]);
}

#[test]
fn compressed_member_reads_back_with_its_checksums() {
    let contents: Vec<u8> = b"the quick brown fox jumps over the lazy dog. ".repeat(200);
    let bytes = pack(&[("fox.txt", Compression::ZStandard, &contents)]);
    let archive = VarArchive::new(bytes.clone()).unwrap();
    assert_eq!(unpack(&archive, "fox.txt"), contents);
    let info = archive.get_file_info("fox.txt").unwrap();
    assert_eq!(info.raw_size, contents.len() as u64);
    assert!(info.data_size < info.raw_size);
    assert_eq!(info.compression, Compression::ZStandard);
    assert!(info.is_compressed());
    let stored = &bytes[35..35 + info.data_size as usize];
    assert_eq!(info.raw_checksum, digest_of(&contents));
    assert_eq!(info.data_checksum, digest_of(stored));
    assert_ne!(info.raw_checksum, info.data_checksum);
    assert_eq!(&stored[..4], &[0x28, 0xB5, 0x2F, 0xFD]);
    assert_eq!(zstd::stream::decode_all(stored).unwrap(), contents);
}

#[test]
fn raw_checksum_is_the_blake2s_digest() {
    let bytes = pack(&[("greeting", Compression::Uncompressed, b"hello world")]);
    let archive = VarArchive::new(bytes).unwrap();
    let info = archive.get_file_info("greeting").unwrap();
    let expected: [u8; 32] = [
        0x9a, 0xec, 0x68, 0x06, 0x79, 0x45, 0x61, 0x10, 0x7e, 0x59, 0x4b, 0x1f, 0x6a, 0x8a, 0x6b,
        0x0c, 0x92, 0xa0, 0xcb, 0xa9, 0xac, 0xf5, 0xe5, 0xe9, 0x3c, 0xca, 0x06, 0xf7, 0x81, 0x81,
        0x3b, 0x0b,
    ];
    assert_eq!(info.raw_checksum, expected);
    assert_eq!(info.data_checksum, expected);
}

#[test]
fn empty_member_reads_back_in_both_modes() {
    let bytes = pack(&[
        ("plain", Compression::Uncompressed, b""),
        ("packed", Compression::ZStandard, b""),
    ]);
    let archive = VarArchive::new(bytes).unwrap();
    assert_eq!(unpack(&archive, "plain"), Vec::<u8>::new());
    assert_eq!(unpack(&archive, "packed"), Vec::<u8>::new());
    assert_eq!(archive.get_file_info("plain").unwrap().raw_size, 0);
    assert_eq!(archive.get_file_info("plain").unwrap().data_size, 0);
    assert_eq!(archive.get_file_info("packed").unwrap().raw_size, 0);
    assert_eq!(archive.get_file_info("plain").unwrap().raw_checksum, digest_of(b""));
}

#[test]
fn member_written_in_pieces_is_stored_whole() {
    for compression in [Compression::Uncompressed, Compression::ZStandard] {
        let writer = VarWriter::new(Vec::new()).unwrap();
        let mut file = writer.write_file("pieces", compression).unwrap();
        assert_eq!(file.write(b"one "), 4);
        file.flush();
        assert_eq!(file.write(b""), 0);
        assert_eq!(file.write(b"two three"), 9);
        let archive = VarArchive::new(file.finish(0).unwrap().finish()).unwrap();
        assert_eq!(unpack(&archive, "pieces"), b"one two three".to_vec());
        assert_eq!(archive.get_file_info("pieces").unwrap().raw_size, 13);
    }
}

#[test]
fn directory_lists_every_name_once() {
    let names = ["sales_records.csv", "bsd.md", "marbles.bmp", "", "ünïcödé/路径.txt"];
    let members: Vec<(&str, Compression, &[u8])> = names
        .iter()
        .map(|name| (*name, Compression::default(), name.as_bytes()))
        .collect();
    let archive = VarArchive::new(pack(&members)).unwrap();
    let mut list = archive.get_file_list();
    list.sort();
    let mut expected: Vec<String> = names.iter().map(|name| String::from(*name)).collect();
    expected.sort();
    assert_eq!(list, expected);
    for name in names {
        assert_eq!(unpack(&archive, name), name.as_bytes().to_vec());
        assert_eq!(archive.get_file_info(name).unwrap().filename, name);
    }
}

#[test]
fn second_write_under_a_name_wins() {
    let bytes = pack(&[
        ("kept", Compression::Uncompressed, b"kept as it is"),
        ("twice", Compression::Uncompressed, b"first"),
        ("twice", Compression::ZStandard, b"second, and longer"),
    ]);
    let archive = VarArchive::new(bytes.clone()).unwrap();
    let list = archive.get_file_list();
    assert_eq!(list, vec![String::from("kept"), String::from("twice")]);
    assert_eq!(unpack(&archive, "twice"), b"second, and longer".to_vec());
    assert_eq!(unpack(&archive, "kept"), b"kept as it is".to_vec());
    let info = archive.get_file_info("twice").unwrap();
    assert_eq!(info.raw_size, 18);
    assert_eq!(info.compression, Compression::ZStandard);
    // the first member's bytes are still in the archive, unlisted
    assert!(bytes.windows(5).any(|window| window == b"first"));
}

#[test]
fn empty_archive_is_43_bytes_and_opens() {
    let bytes = VarWriter::new(Vec::new()).unwrap().finish();
    let mut expected = Vec::new();
    expected.extend_from_slice(b"VAR");
    expected.extend_from_slice(b"0.1.0           ");
    expected.extend_from_slice(&35u64.to_le_bytes());
    expected.extend_from_slice(&43u64.to_le_bytes());
    expected.extend_from_slice(&0u64.to_le_bytes());
    assert_eq!(bytes, expected);
    let archive = VarArchive::new(bytes).unwrap();
    assert!(archive.get_file_list().is_empty());
    assert!(matches!(archive.get_file("a"), Err(Error::FileNotFound(name)) if name == "a"));
}

#[test]
fn archive_is_laid_out_as_header_members_directory() {
    let writer = VarWriter::new(Vec::new()).unwrap();
    let mut file = writer.write_file("a.txt", Compression::Uncompressed).unwrap();
    file.write(b"hello");
    let writer = file.finish_with(FileMetadata::added(1_000)).unwrap();
    let bytes = writer.finish();
    // magic, header, data, file header, directory
    let footer_len = 16 + 8 + 8 + 1 + 1 + 8 + (1 + 1 + 8 + 1 + 1 + 1) + 32 + 32;
    let directory_begin = 35 + 5 + footer_len;
    let directory_len = 8 + (8 + 5) + 16;
    assert_eq!(bytes.len(), directory_begin + directory_len);
    assert_eq!(&bytes[..3], b"VAR");
    assert_eq!(&bytes[3..19], b"0.1.0           ");
    assert_eq!(&bytes[19..27], &(directory_begin as u64).to_le_bytes());
    assert_eq!(&bytes[27..35], &(bytes.len() as u64).to_le_bytes());
    assert_eq!(&bytes[35..40], b"hello");
    // file header: data range, sizes, codes, empty name, metadata, checksums
    assert_eq!(&bytes[40..48], &35u64.to_le_bytes());
    assert_eq!(&bytes[48..56], &40u64.to_le_bytes());
    assert_eq!(&bytes[56..64], &5u64.to_le_bytes());
    assert_eq!(&bytes[64..72], &5u64.to_le_bytes());
    assert_eq!(&bytes[72..74], &[0, 0]);
    assert_eq!(&bytes[74..82], &0u64.to_le_bytes());
    assert_eq!(&bytes[82..84], &[0, 0]);
    assert_eq!(&bytes[84..92], &1_000i64.to_le_bytes());
    assert_eq!(&bytes[92..95], &[0, 0, 0]);
    assert_eq!(&bytes[95..127], &digest_of(b"hello"));
    assert_eq!(&bytes[127..159], &digest_of(b"hello"));
    // directory: one entry that points to the file header
    assert_eq!(directory_begin, 159);
    assert_eq!(&bytes[159..167], &1u64.to_le_bytes());
    assert_eq!(&bytes[167..175], &5u64.to_le_bytes());
    assert_eq!(&bytes[175..180], b"a.txt");
    assert_eq!(&bytes[180..188], &40u64.to_le_bytes());
    assert_eq!(&bytes[188..196], &159u64.to_le_bytes());
}

#[test]
fn metadata_given_at_finish_is_stored() {
    let metadata = FileMetadata::from_parts(
        true,
        Some(0o644),
        1_700_000_000_123,
        Some(-1),
        None,
        Some(i64::MIN),
    );
    let writer = VarWriter::new(Vec::new()).unwrap();
    let mut file = writer.write_file("m", Compression::ZStandard).unwrap();
    file.write(b"with metadata");
    let archive = VarArchive::new(file.finish_with(metadata).unwrap().finish()).unwrap();
    let info = archive.get_file_info("m").unwrap();
    assert_eq!(info.metadata, metadata);
    assert!(info.metadata.readonly);
    assert_eq!(info.metadata.permissions_opt, Some(0o644));
    assert_eq!(info.metadata.modified_at, Some(-1));
    assert_eq!(info.metadata.accessed_at, Some(i64::MIN));
}

#[test]
fn finish_records_the_time_of_adding() {
    for added_at in [1_700_000_000_123i64, 0, -1, i64::MIN, i64::MAX] {
        let writer = VarWriter::new(Vec::new()).unwrap();
        let file = writer.write_file("then", Compression::Uncompressed).unwrap();
        let archive = VarArchive::new(file.finish(added_at).unwrap().finish()).unwrap();
        let metadata = archive.get_file_info("then").unwrap().metadata;
        assert_eq!(metadata.added_at, added_at);
        assert_eq!(metadata, FileMetadata::added(added_at));
        assert!(!metadata.readonly);
        assert_eq!(metadata.permissions_opt, None);
        assert_eq!(metadata.modified_at, None);
        assert_eq!(metadata.created_at, None);
        assert_eq!(metadata.accessed_at, None);
    }
}

#[test]
fn writer_refuses_a_sink_that_holds_bytes() {
    assert!(matches!(VarWriter::new(vec![0u8]), Err(Error::CantWriteMagicBytes)));
    assert!(matches!(VarWriter::new(b"VAR".to_vec()), Err(Error::CantWriteMagicBytes)));
    assert!(VarWriter::new(Vec::with_capacity(64)).is_ok());
}

#[test]
fn hash_writer_taps_what_is_written_through_it() {
    let mut hash_writer = HashWriter::new(b"before".to_vec());
    assert_eq!(hash_writer.stream_position(), 6);
    assert_eq!(hash_writer.write(b"hello "), 6);
    hash_writer.flush();
    assert_eq!(hash_writer.write(b"world"), 5);
    assert_eq!(hash_writer.stream_position(), 17);
    assert_eq!(hash_writer.get_hash(), digest_of(b"hello world"));
    // the hash starts anew
    assert_eq!(hash_writer.get_hash(), digest_of(b""));
    hash_writer.write(b"!");
    assert_eq!(hash_writer.get_hash(), digest_of(b"!"));
    assert_eq!(hash_writer.into_inner(), b"beforehello world!".to_vec());
}

#[test]
fn comp_writer_passes_uncompressed_bytes_on() {
    let mut comp_writer = CompWriter::new(b"x".to_vec(), Compression::Uncompressed);
    assert_eq!(comp_writer.get_compression_type(), Compression::Uncompressed);
    assert_eq!(comp_writer.write(b"abc"), 3);
    comp_writer.flush();
    assert_eq!(comp_writer.stream_position(), 4);
    assert_eq!(comp_writer.get_data_hash().unwrap(), digest_of(b"abc"));
    assert_eq!(comp_writer.get_compression_type(), Compression::Uncompressed);
    assert_eq!(comp_writer.into_inner(), b"xabc".to_vec());
}

#[test]
fn comp_writer_holds_compressed_bytes_back_until_the_hash() {
    let contents = vec![7u8; 5000];
    let mut comp_writer = CompWriter::new(b"x".to_vec(), Compression::ZStandard);
    assert_eq!(comp_writer.get_compression_type(), Compression::ZStandard);
    assert_eq!(comp_writer.write(&contents), 5000);
    assert_eq!(comp_writer.stream_position(), 1);
    let hash = comp_writer.get_data_hash().unwrap();
    assert_eq!(comp_writer.get_compression_type(), Compression::Uncompressed);
    let end = comp_writer.stream_position() as usize;
    assert!(1 < end && end < 5000);
    let sink = comp_writer.into_inner();
    assert_eq!(sink[0], b'x');
    assert_eq!(hash, digest_of(&sink[1..]));
    assert_eq!(sink[1..], zstd::stream::encode_all(&contents[..], 9).unwrap()[..]);
    assert_eq!(zstd::stream::decode_all(&sink[1..]).unwrap(), contents);
}

#[test]
fn misconfigured_comp_writer_has_no_compression_type() {
    assert_eq!(CompWriter::Misconfigured.get_compression_type(), Compression::Unknown);
}

#[test]
fn encoder_writes_the_frame_it_is_given() {
    let mut encoder = Encoder::new(HashWriter::new(b"ab".to_vec()), 9);
    assert_eq!(encoder.write(b"pending"), 7);
    assert_eq!(encoder.stream_position(), 2);
    let mut hash_writer = encoder.emit(Some(b"frame".to_vec())).unwrap();
    assert_eq!(hash_writer.get_hash(), digest_of(b"frame"));
    assert_eq!(hash_writer.into_inner(), b"abframe".to_vec());
}

#[test]
fn encoder_without_a_frame_cannot_write_the_file() {
    let encoder = Encoder::new(HashWriter::new(Vec::new()), 9);
    assert!(matches!(encoder.emit(None), Err(Error::CantWriteFile)));
}
