use vapor_archive::{Compression, VarArchive, VarWriter};

/// Bytes that stand for a bitmap: a header and pixel rows that hardly repeat.
fn image_bytes() -> Vec<u8> {
    let mut bytes = b"BM".to_vec();
    let mut state: u32 = 0x2545_F491;
    for _ in 0..60_000 {
        state ^= state << 13;
        state ^= state >> 17;
        state ^= state << 5;
        bytes.push((state >> 24) as u8);
    }
    bytes
}

/// Bytes that stand for a licence text.
fn text_bytes() -> Vec<u8> {
    let paragraph = "Redistribution and use in source and binary forms, with or without \
                     modification, are permitted provided that the following conditions are met.\n";
    paragraph.repeat(40).into_bytes()
}

/// Bytes that stand for a table of sales records.
fn csv_bytes() -> Vec<u8> {
    let mut text = String::from("Region,Country,Item Type,Units Sold,Unit Price\n");
    for row in 0..2_000u32 {
        text.push_str(&format!("Europe,Norway,Cereal,{},{}.{:02}\n", row * 7 % 9_999, row % 700, row % 100));
    }
    text.into_bytes()
}

fn write_archive(members: &[(&str, Vec<u8>)], compression: Compression) -> Vec<u8> {
    let mut writer = VarWriter::new(Vec::new()).unwrap();
    for (name, contents) in members {
        let mut var_file = writer.write_file(name, compression).unwrap();
        for chunk in contents.chunks(8 * 1024) {
            assert_eq!(var_file.write(chunk), chunk.len());
        }
        writer = var_file.finish(1_600_000_000_000).unwrap();
    }
    writer.finish()
}

fn image(compression: Compression) -> Vec<u8> {
    write_archive(&[("marbles.bmp", image_bytes())], compression)
}

fn text(compression: Compression) -> Vec<u8> {
    write_archive(&[("bsd.md", text_bytes())], compression)
}

fn csv(compression: Compression) -> Vec<u8> {
    write_archive(&[("sales_records.csv", csv_bytes())], compression)
}

fn mixed(compression: Compression) -> Vec<u8> {
    write_archive(
        &[
            ("sales_records.csv", csv_bytes()),
            ("bsd.md", text_bytes()),
            ("marbles.bmp", image_bytes()),
        ],
        compression,
    )
}

fn contents_of(name: &str) -> Vec<u8> {
    match name {
        "marbles.bmp" => image_bytes(),
        "bsd.md" => text_bytes(),
        "sales_records.csv" => csv_bytes(),
        other => panic!("no such member: {}", other),
    }
}

fn check_written(bytes: Vec<u8>, names: &[&str]) {
    assert_eq!(&bytes[..3], b"VAR");
    let archive = VarArchive::new(bytes).unwrap();
    let mut list = archive.get_file_list();
    list.sort();
    let mut expected: Vec<String> = names.iter().map(|name| String::from(*name)).collect();
    expected.sort();
    assert_eq!(list, expected);
}

fn check_read(bytes: Vec<u8>, name: &str) {
    let archive = VarArchive::new(bytes).unwrap();
    println!("Files in this archive:");
    for file in archive.get_file_list() {
        println!("\t{}", file);
    }
    let mut archive_file = archive.get_file(name).unwrap();
    let mut file_content = vec![];
    archive_file.read_to_end(&mut file_content);
    assert_eq!(file_content, contents_of(name));
}

fn check_info(bytes: Vec<u8>, compression: Compression) {
    let archive = VarArchive::new(bytes).unwrap();
    println!("Files in this archive:");
    for file in archive.get_file_list() {
        println!("\t{}", file);
        let info = archive.get_file_info(&file).unwrap();
        println!("{}", info.to_string());
        assert_eq!(info.filename, file);
        assert_eq!(info.compression, compression);
        assert_eq!(info.raw_size, contents_of(&file).len() as u64);
        assert!(info.to_string().starts_with("FileInfo {\n"));
    }
}

fn check_read_all(bytes: Vec<u8>) {
    let archive = VarArchive::new(bytes).unwrap();
    println!("Files in this archive:");
    for file in archive.get_file_list() {
        println!("\t{}", file);
        println!("{}", archive.get_file_info(&file).unwrap().to_string());
        let mut var_file = archive.get_file(&file).unwrap();
        let mut out_file = vec![];
        var_file.read_to_end(&mut out_file);
        assert_eq!(out_file, contents_of(&file));
    }
}

#[test]
fn test_writer_image_compressed() {
    check_written(image(Compression::default()), &["marbles.bmp"]);
}

#[test]
fn test_writer_image_uncompressed() {
    check_written(image(Compression::Uncompressed), &["marbles.bmp"]);
}

#[test]
fn test_writer_text_compressed() {
    check_written(text(Compression::default()), &["bsd.md"]);
}

#[test]
fn test_writer_text_uncompressed() {
    check_written(text(Compression::Uncompressed), &["bsd.md"]);
}

#[test]
fn test_writer_csv_compressed() {
    let bytes = csv(Compression::default());
    assert!(bytes.len() < csv_bytes().len());
    check_written(bytes, &["sales_records.csv"]);
}

#[test]
fn test_writer_csv_uncompressed() {
    let bytes = csv(Compression::Uncompressed);
    assert!(bytes.len() > csv_bytes().len());
    check_written(bytes, &["sales_records.csv"]);
}

#[test]
fn test_writer_mixed_compressed() {
    check_written(mixed(Compression::default()), &["sales_records.csv", "bsd.md", "marbles.bmp"]);
}

#[test]
fn test_writer_mixed_uncompressed() {
    check_written(
        mixed(Compression::Uncompressed),
        &["sales_records.csv", "bsd.md", "marbles.bmp"],
    );
}

#[test]
fn test_reader_image_compressed() {
    check_read(image(Compression::default()), "marbles.bmp");
}

#[test]
fn test_reader_image_uncompressed() {
    check_read(image(Compression::Uncompressed), "marbles.bmp");
}

#[test]
fn test_reader_text_compressed() {
    check_read(text(Compression::default()), "bsd.md");
}

#[test]
fn test_reader_text_uncompressed() {
    check_read(text(Compression::Uncompressed), "bsd.md");
}

#[test]
fn test_reader_info_image_compressed() {
    check_info(image(Compression::default()), Compression::ZStandard);
}

#[test]
fn test_reader_info_image_uncompressed() {
    check_info(image(Compression::Uncompressed), Compression::Uncompressed);
}

#[test]
fn test_reader_info_text_compressed() {
    check_info(text(Compression::default()), Compression::ZStandard);
}

#[test]
fn test_reader_info_text_uncompressed() {
    check_info(text(Compression::Uncompressed), Compression::Uncompressed);
}

#[test]
fn test_reader_info_mixed_compressed() {
    check_info(mixed(Compression::default()), Compression::ZStandard);
}

#[test]
fn test_reader_info_mixed_uncompressed() {
    check_info(mixed(Compression::Uncompressed), Compression::Uncompressed);
}

#[test]
fn test_reader_mixed_compressed() {
    check_read_all(mixed(Compression::default()));
}

#[test]
fn test_reader_mixed_uncompressed() {
    check_read_all(mixed(Compression::Uncompressed));
}
