use vstd::prelude::*;
use vstd::std_specs::convert::FromSpecImpl;

verus! {

/// The compression algorithm applied to a member's stored bytes.
#[derive(PartialEq, Eq, Structural, Debug, Clone, Copy)]
pub enum Compression {
    /// No compression is used
    Uncompressed,
    /// zstd compression
    ZStandard,
    /// deflate compression
    Deflate,
    /// LZMA compression
    LZMA,
    /// LZMA2 Compression
    LZMA2,
    /// BZIP2 Compression
    BZIP2,
    /// LZ4 Compression
    LZ4,
    /// Unknown compression
    Unknown,
}

impl Compression {
    /// The algorithm that an on-disk code stands for: 0 and 1 are assigned,
    /// every other value is reserved and reads as `Unknown`.
    pub open spec fn of_code(code: u8) -> Compression {
        if code == 0 {
            Compression::Uncompressed
        } else if code == 1 {
            Compression::ZStandard
        } else {
            Compression::Unknown
        }
    }

    /// The on-disk code of an algorithm; algorithms without an assigned code
    /// are written as 255.
    pub open spec fn code(self) -> u8 {
        match self {
            Compression::Uncompressed => 0,
            Compression::ZStandard => 1,
            _ => 255,
        }
    }

    /// The name of the algorithm, as it is written in texts: no compression
    /// is written as `None`.
    pub open spec fn spec_name(self) -> Seq<char> {
        match self {
            Compression::Uncompressed => "None"@,
            Compression::ZStandard => "ZStandard"@,
            Compression::Deflate => "Deflate"@,
            Compression::LZMA => "LZMA"@,
            Compression::LZMA2 => "LZMA2"@,
            Compression::BZIP2 => "BZIP2"@,
            Compression::LZ4 => "LZ4"@,
            Compression::Unknown => "Unknown"@,
        }
    }

    /// The name of the algorithm, as it is written in texts: no compression
    /// is written as `None`.
    pub fn name(&self) -> (name: &'static str)
        ensures
            name@ == self.spec_name(),
    {
        match self {
            Compression::Uncompressed => "None",
            Compression::ZStandard => "ZStandard",
            Compression::Deflate => "Deflate",
            Compression::LZMA => "LZMA",
            Compression::LZMA2 => "LZMA2",
            Compression::BZIP2 => "BZIP2",
            Compression::LZ4 => "LZ4",
            Compression::Unknown => "Unknown",
        }
    }

    /// Whether this library can write and read members stored this way.
    pub open spec fn is_supported(self) -> bool {
        self == Compression::Uncompressed || self == Compression::ZStandard
    }

    /// Tells whether members can be written and read with this algorithm.
    pub fn supported(&self) -> (b: bool)
        ensures
            b == self.is_supported(),
    {
        match self {
            Compression::Uncompressed => true,
            Compression::ZStandard => true,
            _ => false,
        }
    }
}

impl From<u8> for Compression {
    fn from(item: u8) -> (c: Compression) {
        match item {
            0 => Compression::Uncompressed,
            1 => Compression::ZStandard,
            _ => Compression::Unknown,
        }
    }
}

impl FromSpecImpl<u8> for Compression {
    open spec fn obeys_from_spec() -> bool {
        true
    }

    open spec fn from_spec(item: u8) -> Compression {
        Compression::of_code(item)
    }
}

impl From<Compression> for u8 {
    fn from(item: Compression) -> (code: u8) {
        match item {
            Compression::Uncompressed => 0,
            Compression::ZStandard => 1,
            _ => 255,
        }
    }
}

impl FromSpecImpl<Compression> for u8 {
    open spec fn obeys_from_spec() -> bool {
        true
    }

    open spec fn from_spec(item: Compression) -> u8 {
        item.code()
    }
}

impl Default for Compression {
    fn default() -> (c: Compression)
        ensures
            c == Compression::ZStandard,
    {
        Compression::ZStandard
    }
}

/// A code read back names the algorithm it was written for whenever that
/// algorithm has an assigned code; every other algorithm reads back as
/// `Unknown`.
pub proof fn lemma_compression_code_round_trip(c: Compression)
    ensures
        Compression::of_code(c.code()) == (if c.is_supported() {
            c
        } else {
            Compression::Unknown
        }),
        Compression::of_code(c.code()).code() == c.code(),
{
}

} // verus!
