use vstd::prelude::*;
use vstd::std_specs::convert::FromSpecImpl;

verus! {

/// The encryption algorithm applied to a member's stored bytes. The format
/// reserves the field; this library writes and reads unencrypted members only.
#[derive(PartialEq, Eq, Structural, Debug, Clone, Copy)]
pub enum Encryption {
    /// No encryption
    Unencrypted,
    /// AES
    AES,
    /// Blowfish
    Blowfish,
    /// Twofish
    Twofish,
    /// Unknown/Unsupported
    Unknown,
}

impl Encryption {
    /// The algorithm that an on-disk code stands for: 0 to 3 are assigned,
    /// every other value reads as `Unknown`.
    pub open spec fn of_code(code: u8) -> Encryption {
        if code == 0 {
            Encryption::Unencrypted
        } else if code == 1 {
            Encryption::AES
        } else if code == 2 {
            Encryption::Blowfish
        } else if code == 3 {
            Encryption::Twofish
        } else {
            Encryption::Unknown
        }
    }

    /// The name of the algorithm, as it is written in texts: no encryption
    /// is written as `None`.
    pub open spec fn spec_name(self) -> Seq<char> {
        match self {
            Encryption::Unencrypted => "None"@,
            Encryption::AES => "AES"@,
            Encryption::Blowfish => "Blowfish"@,
            Encryption::Twofish => "Twofish"@,
            Encryption::Unknown => "Unknown"@,
        }
    }

    /// The name of the algorithm, as it is written in texts: no encryption
    /// is written as `None`.
    pub fn name(&self) -> (name: &'static str)
        ensures
            name@ == self.spec_name(),
    {
        match self {
            Encryption::Unencrypted => "None",
            Encryption::AES => "AES",
            Encryption::Blowfish => "Blowfish",
            Encryption::Twofish => "Twofish",
            Encryption::Unknown => "Unknown",
        }
    }

    /// The on-disk code of an algorithm; `Unknown` is written as 255.
    pub open spec fn code(self) -> u8 {
        match self {
            Encryption::Unencrypted => 0,
            Encryption::AES => 1,
            Encryption::Blowfish => 2,
            Encryption::Twofish => 3,
            Encryption::Unknown => 255,
        }
    }
}

impl From<u8> for Encryption {
    fn from(data: u8) -> (e: Encryption) {
        match data {
            0 => Encryption::Unencrypted,
            1 => Encryption::AES,
            2 => Encryption::Blowfish,
            3 => Encryption::Twofish,
            _ => Encryption::Unknown,
        }
    }
}

impl FromSpecImpl<u8> for Encryption {
    open spec fn obeys_from_spec() -> bool {
        true
    }

    open spec fn from_spec(data: u8) -> Encryption {
        Encryption::of_code(data)
    }
}

impl From<Encryption> for u8 {
    fn from(item: Encryption) -> (code: u8) {
        match item {
            Encryption::Unencrypted => 0,
            Encryption::AES => 1,
            Encryption::Blowfish => 2,
            Encryption::Twofish => 3,
            Encryption::Unknown => 255,
        }
    }
}

impl FromSpecImpl<Encryption> for u8 {
    open spec fn obeys_from_spec() -> bool {
        true
    }

    open spec fn from_spec(item: Encryption) -> u8 {
        item.code()
    }
}

impl Default for Encryption {
    fn default() -> (e: Encryption)
        ensures
            e == Encryption::Unencrypted,
    {
        Encryption::Unencrypted
    }
}

/// Every algorithm reads back from its own code.
pub proof fn lemma_encryption_code_round_trip(e: Encryption)
    ensures
        Encryption::of_code(e.code()) == e,
{
}

} // verus!
