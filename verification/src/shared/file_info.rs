use vstd::prelude::*;
use vstd::string::StringExecFns;
use crate::shared::codec::{
    bytes_at, enc_text, enc_u64, get_digest, get_text, get_u64, get_u8, lemma_enc_lengths,
    lemma_split_at, lemma_text_round_trip, lemma_u64_round_trip, put_bytes, put_text, put_u64,
    put_u8, text_at, text_fits, u64_at, u8_at,
};
use crate::shared::compression::Compression;
use crate::shared::encryption::Encryption;
use crate::shared::file_metadata::{
    enc_metadata, lemma_metadata_round_trip, metadata_at, FileMetadata,
};

verus! {

/// FileInfo struct
///
/// Contains all relevant file information
#[derive(Debug)]
pub struct FileInfo {
    /// Byte size of the the uncompressed/decrypted data
    pub raw_size: u64,
    /// Byte size of the the compressed/encrypted data
    pub data_size: u64,
    /// The compression algorithm used
    pub compression: Compression,
    /// The encryption algorithm used
    pub encryption: Encryption,
    /// The filename
    pub filename: String,
    /// File metadata, such as permissions and timestamps
    pub metadata: FileMetadata,
    /// Checksum of the compressed/encrypted data
    pub data_checksum: [u8; 32],
    /// Checksum of the uncompressed/decrypted data
    pub raw_checksum: [u8; 32],
}

/// A [`FileInfo`] with its name and checksums as sequences.
pub struct FileInfoView {
    pub raw_size: u64,
    pub data_size: u64,
    pub compression: Compression,
    pub encryption: Encryption,
    pub filename: Seq<char>,
    pub metadata: FileMetadata,
    pub data_checksum: Seq<u8>,
    pub raw_checksum: Seq<u8>,
}

impl View for FileInfo {
    type V = FileInfoView;

    open spec fn view(&self) -> FileInfoView {
        FileInfoView {
            raw_size: self.raw_size,
            data_size: self.data_size,
            compression: self.compression,
            encryption: self.encryption,
            filename: self.filename@,
            metadata: self.metadata,
            data_checksum: self.data_checksum@,
            raw_checksum: self.raw_checksum@,
        }
    }
}

impl FileInfoView {
    /// Both checksums are 32 bytes long and the name can be held in memory:
    /// true of every view of a [`FileInfo`].
    pub open spec fn wf(self) -> bool {
        &&& self.data_checksum.len() == 32
        &&& self.raw_checksum.len() == 32
        &&& text_fits(self.filename)
    }

    /// What the record reads back as: an algorithm without a code of its own
    /// comes back as `Unknown`.
    pub open spec fn stored(self) -> FileInfoView {
        FileInfoView {
            compression: Compression::of_code(self.compression.code()),
            encryption: Encryption::of_code(self.encryption.code()),
            ..self
        }
    }

    /// The information that a freshly made [`FileInfo`] holds.
    pub open spec fn blank(added_at: i64) -> FileInfoView {
        FileInfoView {
            raw_size: 0,
            data_size: 0,
            compression: Compression::Uncompressed,
            encryption: Encryption::Unencrypted,
            filename: Seq::empty(),
            metadata: FileMetadata::blank(added_at),
            data_checksum: Seq::new(32, |i: int| 0u8),
            raw_checksum: Seq::new(32, |i: int| 0u8),
        }
    }
}

/// The hexadecimal digit of a number below 16, in lower case.
pub open spec fn hex_digit(n: u8) -> char {
    if n == 0 {
        '0'
    } else if n == 1 {
        '1'
    } else if n == 2 {
        '2'
    } else if n == 3 {
        '3'
    } else if n == 4 {
        '4'
    } else if n == 5 {
        '5'
    } else if n == 6 {
        '6'
    } else if n == 7 {
        '7'
    } else if n == 8 {
        '8'
    } else if n == 9 {
        '9'
    } else if n == 10 {
        'a'
    } else if n == 11 {
        'b'
    } else if n == 12 {
        'c'
    } else if n == 13 {
        'd'
    } else if n == 14 {
        'e'
    } else {
        'f'
    }
}

/// A byte in hexadecimal, without a leading zero: one digit below 16, two
/// digits from 16 on.
pub open spec fn hex_of(b: u8) -> Seq<char> {
    if b < 16 {
        seq![hex_digit(b)]
    } else {
        seq![hex_digit(b / 16), hex_digit(b % 16)]
    }
}

/// The bytes of a checksum in hexadecimal, one behind the other.
pub open spec fn hex_text(bytes: Seq<u8>) -> Seq<char>
    decreases bytes.len(),
{
    if bytes.len() == 0 {
        Seq::empty()
    } else {
        hex_text(bytes.drop_last()) + hex_of(bytes.last())
    }
}

/// A file info as text: the algorithms by name and the two checksums in
/// hexadecimal, one to a line, within braces.
pub open spec fn info_text(v: FileInfoView) -> Seq<char> {
    "FileInfo {\n"@ + "    compression: "@ + v.compression.spec_name() + "\n"@
        + "    encryption: "@ + v.encryption.spec_name() + "\n"@ + "    data_checksum: "@
        + hex_text(v.data_checksum) + "\n"@ + "    raw_checksum: "@ + hex_text(v.raw_checksum)
        + "\n"@ + "}\n"@
}

/// What follows the two algorithm codes in a file info record.
pub open spec fn enc_file_info_tail(v: FileInfoView) -> Seq<u8> {
    enc_text(v.filename) + (enc_metadata(v.metadata) + (v.data_checksum + v.raw_checksum))
}

/// The file info record: the uncompressed and the stored size, the codes of
/// the compression and the encryption algorithm, the name, the metadata, the
/// checksum of the stored bytes and the checksum of the uncompressed bytes.
pub open spec fn enc_file_info(v: FileInfoView) -> Seq<u8> {
    enc_u64(v.raw_size) + (enc_u64(v.data_size) + (seq![v.compression.code()] + (seq![
        v.encryption.code(),
    ] + enc_file_info_tail(v))))
}

/// Reads a file info record at `pos`.
#[verifier::opaque]
pub open spec fn file_info_at(s: Seq<u8>, pos: int) -> Option<(FileInfoView, int)> {
    match u64_at(s, pos) {
        Some((raw_size, p1)) => match u64_at(s, p1) {
            Some((data_size, p2)) => match u8_at(s, p2) {
                Some((compression, p3)) => match u8_at(s, p3) {
                    Some((encryption, p4)) => match text_at(s, p4) {
                        Some((filename, p5)) => match metadata_at(s, p5) {
                            Some((metadata, p6)) => match bytes_at(s, p6, 32) {
                                Some((data_checksum, p7)) => match bytes_at(s, p7, 32) {
                                    Some((raw_checksum, p8)) => Some(
                                        (
                                            FileInfoView {
                                                raw_size,
                                                data_size,
                                                compression: Compression::of_code(compression),
                                                encryption: Encryption::of_code(encryption),
                                                filename,
                                                metadata,
                                                data_checksum,
                                                raw_checksum,
                                            },
                                            p8,
                                        ),
                                    ),
                                    None => None,
                                },
                                None => None,
                            },
                            None => None,
                        },
                        None => None,
                    },
                    None => None,
                },
                None => None,
            },
            None => None,
        },
        None => None,
    }
}

/// A file info record reads back as the information it was written from,
/// but for algorithms that have no code of their own.
pub proof fn lemma_file_info_round_trip(s: Seq<u8>, pos: int, v: FileInfoView)
    requires
        0 <= pos,
        v.wf(),
        pos + enc_file_info(v).len() <= s.len(),
        s.subrange(pos, pos + enc_file_info(v).len()) == enc_file_info(v),
    ensures
        file_info_at(s, pos) == Some((v.stored(), pos + enc_file_info(v).len())),
{
    reveal(file_info_at);
    lemma_enc_lengths();
    let e1 = enc_u64(v.raw_size);
    let e2 = enc_u64(v.data_size);
    let e3 = seq![v.compression.code()];
    let e4 = seq![v.encryption.code()];
    let e5 = enc_text(v.filename);
    let e6 = enc_metadata(v.metadata);
    let e7 = v.data_checksum;
    let e8 = v.raw_checksum;
    let p1 = pos + 8;
    let p2 = p1 + 8;
    let p3 = p2 + 1;
    let p4 = p3 + 1;
    let p5 = p4 + e5.len();
    let p6 = p5 + e6.len();
    lemma_split_at(s, pos, e1, e2 + (e3 + (e4 + enc_file_info_tail(v))));
    lemma_split_at(s, p1, e2, e3 + (e4 + enc_file_info_tail(v)));
    lemma_split_at(s, p2, e3, e4 + enc_file_info_tail(v));
    lemma_split_at(s, p3, e4, enc_file_info_tail(v));
    lemma_split_at(s, p4, e5, e6 + (e7 + e8));
    lemma_split_at(s, p5, e6, e7 + e8);
    lemma_split_at(s, p6, e7, e8);
    lemma_u64_round_trip(s, pos, v.raw_size);
    lemma_u64_round_trip(s, p1, v.data_size);
    assert(s.subrange(p2, p2 + 1)[0] == e3[0]);
    assert(s.subrange(p3, p3 + 1)[0] == e4[0]);
    lemma_text_round_trip(s, p4, v.filename);
    lemma_metadata_round_trip(s, p5, v.metadata);
}

/// The hexadecimal digit of a number below 16 as a string.
fn hex_digit_str(n: u8) -> (digit: &'static str)
    requires
        n < 16,
    ensures
        digit@ == seq![hex_digit(n)],
{
    proof {
        reveal_strlit("0");
        reveal_strlit("1");
        reveal_strlit("2");
        reveal_strlit("3");
        reveal_strlit("4");
        reveal_strlit("5");
        reveal_strlit("6");
        reveal_strlit("7");
        reveal_strlit("8");
        reveal_strlit("9");
        reveal_strlit("a");
        reveal_strlit("b");
        reveal_strlit("c");
        reveal_strlit("d");
        reveal_strlit("e");
        reveal_strlit("f");
    }
    let digit = if n == 0 {
        "0"
    } else if n == 1 {
        "1"
    } else if n == 2 {
        "2"
    } else if n == 3 {
        "3"
    } else if n == 4 {
        "4"
    } else if n == 5 {
        "5"
    } else if n == 6 {
        "6"
    } else if n == 7 {
        "7"
    } else if n == 8 {
        "8"
    } else if n == 9 {
        "9"
    } else if n == 10 {
        "a"
    } else if n == 11 {
        "b"
    } else if n == 12 {
        "c"
    } else if n == 13 {
        "d"
    } else if n == 14 {
        "e"
    } else {
        "f"
    };
    digit
}

/// Appends the bytes in hexadecimal to `text`.
fn append_hex(text: &mut String, bytes: &[u8])
    ensures
        final(text)@ == old(text)@ + hex_text(bytes@),
{
    let mut i: usize = 0;
    while i < bytes.len()
        invariant
            i <= bytes@.len(),
            text@ == old(text)@ + hex_text(bytes@.take(i as int)),
        decreases bytes@.len() - i,
    {
        let b = bytes[i];
        if b >= 16 {
            text.append(hex_digit_str(b / 16));
        }
        text.append(hex_digit_str(b % 16));
        proof {
            let longer = bytes@.take(i + 1);
            assert(longer.drop_last() =~= bytes@.take(i as int));
        }
        i += 1;
    }
    assert(bytes@.take(i as int) =~= bytes@);
}

impl FileInfo {
    /// ...with a given filename
    pub fn with_filename(self, filename: &str) -> (info: Self)
        ensures
            info@ == (FileInfoView { filename: filename@, ..self@ }),
    {
        let mut info = self;
        info.filename = String::from_str(filename);
        info
    }

    /// Returns a boolean indicating whether or not this file is compressed
    pub fn is_compressed(&self) -> (b: bool)
        ensures
            b == (self.compression != Compression::Uncompressed),
    {
        match self.compression {
            Compression::Uncompressed => false,
            _ => true,
        }
    }

    /// Returns a boolean indicating whether or not this file is encrypted
    pub fn is_encrypted(&self) -> (b: bool)
        ensures
            b == (self.encryption != Encryption::Unencrypted),
    {
        match self.encryption {
            Encryption::Unencrypted => false,
            _ => true,
        }
    }

    /// With a given raw size
    pub fn with_raw_size(self, raw_size: u64) -> (info: Self)
        ensures
            info@ == (FileInfoView { raw_size, ..self@ }),
    {
        let mut info = self;
        info.raw_size = raw_size;
        info
    }

    /// With a given data size
    pub fn with_data_size(self, data_size: u64) -> (info: Self)
        ensures
            info@ == (FileInfoView { data_size, ..self@ }),
    {
        let mut info = self;
        info.data_size = data_size;
        info
    }

    /// With a given compression type
    pub fn with_compression(self, compression_type: Compression) -> (info: Self)
        ensures
            info@ == (FileInfoView { compression: compression_type, ..self@ }),
    {
        let mut info = self;
        info.compression = compression_type;
        info
    }

    /// With given metadata
    pub fn with_metadata(self, metadata: FileMetadata) -> (info: Self)
        ensures
            info@ == (FileInfoView { metadata, ..self@ }),
    {
        let mut info = self;
        info.metadata = metadata;
        info
    }

    /// With a given data checksum
    pub fn with_data_checksum(self, data_checksum: [u8; 32]) -> (info: Self)
        ensures
            info@ == (FileInfoView { data_checksum: data_checksum@, ..self@ }),
    {
        let mut info = self;
        info.data_checksum = data_checksum;
        info
    }

    /// With a given raw checksum
    pub fn with_raw_checksum(self, raw_checksum: [u8; 32]) -> (info: Self)
        ensures
            info@ == (FileInfoView { raw_checksum: raw_checksum@, ..self@ }),
    {
        let mut info = self;
        info.raw_checksum = raw_checksum;
        info
    }

    /// Information on an empty, uncompressed member that was added at
    /// `added_at`.
    pub fn added(added_at: i64) -> (info: Self)
        ensures
            info@ == FileInfoView::blank(added_at),
    {
        let info = FileInfo {
            data_checksum: [0; 32],
            raw_checksum: [0; 32],
            compression: Compression::Uncompressed,
            encryption: Encryption::Unencrypted,
            raw_size: 0,
            data_size: 0,
            filename: String::new(),
            metadata: FileMetadata::added(added_at),
        };
        assert(info.raw_checksum@ =~= Seq::new(32, |i: int| 0u8));
        info
    }

    /// The file info as text: the algorithms by name and the two checksums
    /// in hexadecimal.
    pub fn to_string(&self) -> (text: String)
        ensures
            text@ == info_text(self@),
    {
        let mut text = String::from_str("FileInfo {\n");
        text.append("    compression: ");
        text.append(self.compression.name());
        text.append("\n");
        text.append("    encryption: ");
        text.append(self.encryption.name());
        text.append("\n");
        text.append("    data_checksum: ");
        append_hex(&mut text, self.data_checksum.as_slice());
        text.append("\n");
        text.append("    raw_checksum: ");
        append_hex(&mut text, self.raw_checksum.as_slice());
        text.append("\n");
        text.append("}\n");
        text
    }

    /// Appends the file info record to `out`.
    pub fn encode(&self, out: &mut Vec<u8>)
        ensures
            final(out)@ == old(out)@ + enc_file_info(self@),
            self@.wf(),
    {
        put_u64(out, self.raw_size);
        put_u64(out, self.data_size);
        put_u8(out, self.compression.into());
        put_u8(out, self.encryption.into());
        put_text(out, self.filename.as_str());
        self.metadata.encode(out);
        put_bytes(out, self.data_checksum.as_slice());
        put_bytes(out, self.raw_checksum.as_slice());
    }

    /// Reads a file info record at `pos`, and tells where it ends.
    pub fn decode(bytes: &[u8], pos: usize) -> (r: Option<(FileInfo, usize)>)
        ensures
            match file_info_at(bytes@, pos as int) {
                Some((v, next)) => r matches Some((got, after)) && got@ == v && after == next,
                None => r is None,
            },
    {
        proof {
            reveal(file_info_at);
        }
        let (raw_size, p1) = match get_u64(bytes, pos) {
            Some(x) => x,
            None => return None,
        };
        let (data_size, p2) = match get_u64(bytes, p1) {
            Some(x) => x,
            None => return None,
        };
        let (compression, p3) = match get_u8(bytes, p2) {
            Some(x) => x,
            None => return None,
        };
        let (encryption, p4) = match get_u8(bytes, p3) {
            Some(x) => x,
            None => return None,
        };
        let (filename, p5) = match get_text(bytes, p4) {
            Some(x) => x,
            None => return None,
        };
        let (metadata, p6) = match FileMetadata::decode(bytes, p5) {
            Some(x) => x,
            None => return None,
        };
        let (data_checksum, p7) = match get_digest(bytes, p6) {
            Some(x) => x,
            None => return None,
        };
        let (raw_checksum, p8) = match get_digest(bytes, p7) {
            Some(x) => x,
            None => return None,
        };
        Some(
            (
                FileInfo {
                    raw_size,
                    data_size,
                    compression: Compression::from(compression),
                    encryption: Encryption::from(encryption),
                    filename,
                    metadata,
                    data_checksum,
                    raw_checksum,
                },
                p8,
            ),
        )
    }
}

impl Clone for FileInfo {
    fn clone(&self) -> (info: Self)
        ensures
            info == *self,
    {
        FileInfo {
            raw_size: self.raw_size,
            data_size: self.data_size,
            compression: self.compression,
            encryption: self.encryption,
            filename: self.filename.clone(),
            metadata: self.metadata,
            data_checksum: self.data_checksum,
            raw_checksum: self.raw_checksum,
        }
    }
}

} // verus!
