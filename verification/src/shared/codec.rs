//! The byte-level building blocks of the archive's records: fixed-width
//! little-endian integers, one-byte flags and tags, and length-prefixed
//! UTF-8 text. Every decoder reads at a position of a byte sequence and
//! yields the value together with the position behind it.

use vstd::prelude::*;
use vstd::bytes::{
    spec_u32_from_le_bytes, spec_u32_to_le_bytes, spec_u64_from_le_bytes, spec_u64_to_le_bytes,
    u32_from_le_bytes, u32_to_le_bytes, u64_from_le_bytes, u64_to_le_bytes,
    lemma_auto_spec_u32_to_from_le_bytes, lemma_auto_spec_u64_to_from_le_bytes,
};
use vstd::utf8::{
    decode_utf8, encode_utf8, encode_utf8_decode_utf8, encode_utf8_valid_utf8, valid_utf8,
};
use vstd::string::StringExecFns;
use crate::shared::primitives::str_from_utf8;

verus! {

// --- encoders -------------------------------------------------------------

/// Eight bytes, least significant first.
pub open spec fn enc_u64(x: u64) -> Seq<u8> {
    spec_u64_to_le_bytes(x)
}

/// Four bytes, least significant first.
pub open spec fn enc_u32(x: u32) -> Seq<u8> {
    spec_u32_to_le_bytes(x)
}

/// The two's complement bit pattern of a signed 64-bit integer.
pub open spec fn i64_bits(x: i64) -> u64 {
    if x >= 0 {
        x as u64
    } else {
        (x + 0x1_0000_0000_0000_0000) as u64
    }
}

/// The signed integer that a two's complement bit pattern stands for.
pub open spec fn bits_i64(u: u64) -> i64 {
    if u < 0x8000_0000_0000_0000 {
        u as i64
    } else {
        (u - 0x1_0000_0000_0000_0000) as i64
    }
}

/// Eight bytes, two's complement, least significant first.
pub open spec fn enc_i64(x: i64) -> Seq<u8> {
    enc_u64(i64_bits(x))
}

/// One byte: 1 for true, 0 for false.
pub open spec fn enc_bool(b: bool) -> Seq<u8> {
    seq![if b { 1u8 } else { 0u8 }]
}

/// A tag byte 0 for an absent value; a tag byte 1 and the value otherwise.
pub open spec fn enc_opt_u32(v: Option<u32>) -> Seq<u8> {
    match v {
        None => seq![0u8],
        Some(x) => seq![1u8] + enc_u32(x),
    }
}

/// A tag byte 0 for an absent value; a tag byte 1 and the value otherwise.
pub open spec fn enc_opt_i64(v: Option<i64>) -> Seq<u8> {
    match v {
        None => seq![0u8],
        Some(x) => seq![1u8] + enc_i64(x),
    }
}

/// The length of the UTF-8 form as a 64-bit integer, then the UTF-8 bytes.
pub open spec fn enc_text(text: Seq<char>) -> Seq<u8> {
    enc_u64(encode_utf8(text).len() as u64) + encode_utf8(text)
}

/// Text whose UTF-8 form is short enough to be held in memory.
pub open spec fn text_fits(text: Seq<char>) -> bool {
    encode_utf8(text).len() <= usize::MAX
}

// --- decoders -------------------------------------------------------------

/// The `n` bytes at `pos`, if the sequence holds that many.
pub open spec fn bytes_at(s: Seq<u8>, pos: int, n: int) -> Option<(Seq<u8>, int)> {
    if 0 <= pos && 0 <= n && pos + n <= s.len() {
        Some((s.subrange(pos, pos + n), pos + n))
    } else {
        None
    }
}

/// The byte at `pos`.
pub open spec fn u8_at(s: Seq<u8>, pos: int) -> Option<(u8, int)> {
    if 0 <= pos < s.len() {
        Some((s[pos], pos + 1))
    } else {
        None
    }
}

/// The 32-bit integer whose four bytes stand at `pos`.
pub open spec fn u32_at(s: Seq<u8>, pos: int) -> Option<(u32, int)> {
    match bytes_at(s, pos, 4) {
        Some((b, next)) => Some((spec_u32_from_le_bytes(b), next)),
        None => None,
    }
}

/// The 64-bit integer whose eight bytes stand at `pos`.
pub open spec fn u64_at(s: Seq<u8>, pos: int) -> Option<(u64, int)> {
    match bytes_at(s, pos, 8) {
        Some((b, next)) => Some((spec_u64_from_le_bytes(b), next)),
        None => None,
    }
}

/// The signed 64-bit integer whose eight bytes stand at `pos`.
pub open spec fn i64_at(s: Seq<u8>, pos: int) -> Option<(i64, int)> {
    match u64_at(s, pos) {
        Some((u, next)) => Some((bits_i64(u), next)),
        None => None,
    }
}

/// A flag byte; any value but 0 and 1 is refused.
pub open spec fn bool_at(s: Seq<u8>, pos: int) -> Option<(bool, int)> {
    match u8_at(s, pos) {
        Some((b, next)) => if b == 0 {
            Some((false, next))
        } else if b == 1 {
            Some((true, next))
        } else {
            None
        },
        None => None,
    }
}

/// An optional value; any tag but 0 and 1 is refused.
pub open spec fn opt_u32_at(s: Seq<u8>, pos: int) -> Option<(Option<u32>, int)> {
    match u8_at(s, pos) {
        Some((tag, next)) => if tag == 0 {
            Some((None, next))
        } else if tag == 1 {
            match u32_at(s, next) {
                Some((v, after)) => Some((Some(v), after)),
                None => None,
            }
        } else {
            None
        },
        None => None,
    }
}

/// An optional value; any tag but 0 and 1 is refused.
pub open spec fn opt_i64_at(s: Seq<u8>, pos: int) -> Option<(Option<i64>, int)> {
    match u8_at(s, pos) {
        Some((tag, next)) => if tag == 0 {
            Some((None, next))
        } else if tag == 1 {
            match i64_at(s, next) {
                Some((v, after)) => Some((Some(v), after)),
                None => None,
            }
        } else {
            None
        },
        None => None,
    }
}

/// Length-prefixed text; a length that runs past the end of the sequence
/// and bytes that are not well-formed UTF-8 are refused.
pub open spec fn text_at(s: Seq<u8>, pos: int) -> Option<(Seq<char>, int)> {
    match u64_at(s, pos) {
        Some((len, next)) => match bytes_at(s, next, len as int) {
            Some((b, after)) => if valid_utf8(b) {
                Some((decode_utf8(b), after))
            } else {
                None
            },
            None => None,
        },
        None => None,
    }
}

// --- what holds of them ---------------------------------------------------

/// The two's complement bit pattern determines the integer.
pub proof fn lemma_i64_bits_round_trip(x: i64)
    ensures
        bits_i64(i64_bits(x)) == x,
{
}

/// A sequence that holds `a + b` at `pos` holds `a` at `pos` and `b` behind it.
pub proof fn lemma_split_at(s: Seq<u8>, pos: int, a: Seq<u8>, b: Seq<u8>)
    requires
        0 <= pos,
        pos + a.len() + b.len() <= s.len(),
        s.subrange(pos, pos + a.len() + b.len()) == a + b,
    ensures
        s.subrange(pos, pos + a.len()) == a,
        s.subrange(pos + a.len(), pos + a.len() + b.len()) == b,
{
    let whole = s.subrange(pos, pos + a.len() + b.len());
    assert forall|i: int| 0 <= i < b.len() implies s[pos + a.len() + i] == b[i] by {
        assert(whole[a.len() + i] == (a + b)[a.len() + i]);
    }
}

/// A 64-bit integer reads back from its eight bytes.
pub proof fn lemma_u64_round_trip(s: Seq<u8>, pos: int, x: u64)
    requires
        0 <= pos,
        pos + 8 <= s.len(),
        s.subrange(pos, pos + 8) == enc_u64(x),
    ensures
        enc_u64(x).len() == 8,
        u64_at(s, pos) == Some((x, pos + 8)),
{
    lemma_auto_spec_u64_to_from_le_bytes();
}

/// A 32-bit integer reads back from its four bytes.
pub proof fn lemma_u32_round_trip(s: Seq<u8>, pos: int, x: u32)
    requires
        0 <= pos,
        pos + 4 <= s.len(),
        s.subrange(pos, pos + 4) == enc_u32(x),
    ensures
        enc_u32(x).len() == 4,
        u32_at(s, pos) == Some((x, pos + 4)),
{
    lemma_auto_spec_u32_to_from_le_bytes();
    assert(spec_u32_to_le_bytes(x).len() == 4);
}

/// A signed 64-bit integer reads back from its eight bytes.
pub proof fn lemma_i64_round_trip(s: Seq<u8>, pos: int, x: i64)
    requires
        0 <= pos,
        pos + 8 <= s.len(),
        s.subrange(pos, pos + 8) == enc_i64(x),
    ensures
        enc_i64(x).len() == 8,
        i64_at(s, pos) == Some((x, pos + 8)),
{
    lemma_u64_round_trip(s, pos, i64_bits(x));
    lemma_i64_bits_round_trip(x);
}

/// A flag reads back from its byte.
pub proof fn lemma_bool_round_trip(s: Seq<u8>, pos: int, b: bool)
    requires
        0 <= pos,
        pos + 1 <= s.len(),
        s.subrange(pos, pos + 1) == enc_bool(b),
    ensures
        bool_at(s, pos) == Some((b, pos + 1)),
{
    assert(s.subrange(pos, pos + 1)[0] == enc_bool(b)[0]);
}

/// How many bytes each encoding takes.
pub proof fn lemma_enc_lengths()
    ensures
        forall|x: u64| #[trigger] enc_u64(x).len() == 8,
        forall|x: u32| #[trigger] enc_u32(x).len() == 4,
        forall|x: i64| #[trigger] enc_i64(x).len() == 8,
        forall|v: Option<u32>|
            #[trigger] enc_opt_u32(v).len() == (if v is Some {
                5nat
            } else {
                1nat
            }),
        forall|v: Option<i64>|
            #[trigger] enc_opt_i64(v).len() == (if v is Some {
                9nat
            } else {
                1nat
            }),
        forall|t: Seq<char>| #[trigger] enc_text(t).len() == 8 + encode_utf8(t).len(),
{
    lemma_auto_spec_u64_to_from_le_bytes();
    lemma_auto_spec_u32_to_from_le_bytes();
}

/// An optional 32-bit integer reads back from its tag and bytes.
pub proof fn lemma_opt_u32_round_trip(s: Seq<u8>, pos: int, v: Option<u32>)
    requires
        0 <= pos,
        pos + enc_opt_u32(v).len() <= s.len(),
        s.subrange(pos, pos + enc_opt_u32(v).len()) == enc_opt_u32(v),
    ensures
        opt_u32_at(s, pos) == Some((v, pos + enc_opt_u32(v).len())),
{
    lemma_enc_lengths();
    let e = enc_opt_u32(v);
    assert(s.subrange(pos, pos + e.len())[0] == e[0]);
    match v {
        None => {},
        Some(x) => {
            lemma_split_at(s, pos, seq![1u8], enc_u32(x));
            lemma_u32_round_trip(s, pos + 1, x);
        },
    }
}

/// An optional signed 64-bit integer reads back from its tag and bytes.
pub proof fn lemma_opt_i64_round_trip(s: Seq<u8>, pos: int, v: Option<i64>)
    requires
        0 <= pos,
        pos + enc_opt_i64(v).len() <= s.len(),
        s.subrange(pos, pos + enc_opt_i64(v).len()) == enc_opt_i64(v),
    ensures
        opt_i64_at(s, pos) == Some((v, pos + enc_opt_i64(v).len())),
{
    lemma_enc_lengths();
    let e = enc_opt_i64(v);
    assert(s.subrange(pos, pos + e.len())[0] == e[0]);
    match v {
        None => {},
        Some(x) => {
            lemma_split_at(s, pos, seq![1u8], enc_i64(x));
            lemma_i64_round_trip(s, pos + 1, x);
        },
    }
}

/// Text reads back from its length and its UTF-8 bytes.
pub proof fn lemma_text_round_trip(s: Seq<u8>, pos: int, text: Seq<char>)
    requires
        0 <= pos,
        text_fits(text),
        pos + enc_text(text).len() <= s.len(),
        s.subrange(pos, pos + enc_text(text).len()) == enc_text(text),
    ensures
        text_at(s, pos) == Some((text, pos + enc_text(text).len())),
{
    lemma_enc_lengths();
    let body = encode_utf8(text);
    lemma_split_at(s, pos, enc_u64(body.len() as u64), body);
    lemma_u64_round_trip(s, pos, body.len() as u64);
    encode_utf8_valid_utf8(text);
    encode_utf8_decode_utf8(text);
}

/// Cutting a sequence short leaves a decoder's result as it was where the
/// cut lies behind what it read, and makes it fail where the cut lies before.
pub proof fn lemma_u64_truncated(s: Seq<u8>, pos: int, cut: int)
    requires
        0 <= cut <= s.len(),
        u64_at(s, pos) is Some,
    ensures
        u64_at(s.take(cut), pos) == (if (u64_at(s, pos)->0).1 <= cut {
            u64_at(s, pos)
        } else {
            None
        }),
{
    if pos + 8 <= cut {
        assert(s.take(cut).subrange(pos, pos + 8) =~= s.subrange(pos, pos + 8));
    }
}

/// Cutting a sequence short behind a text leaves it readable; cutting it
/// short within the text makes reading it fail.
pub proof fn lemma_text_truncated(s: Seq<u8>, pos: int, cut: int)
    requires
        0 <= cut <= s.len(),
        text_at(s, pos) is Some,
    ensures
        text_at(s.take(cut), pos) == (if (text_at(s, pos)->0).1 <= cut {
            text_at(s, pos)
        } else {
            None
        }),
{
    lemma_u64_truncated(s, pos, cut);
    let (len, next) = u64_at(s, pos)->0;
    if next <= cut {
        if next + len <= cut {
            assert(s.take(cut).subrange(next, next + len) =~= s.subrange(
                next,
                next + len,
            ));
        }
    }
}

/// Two sequences of one length that agree from `from` on.
pub open spec fn agree_from(a: Seq<u8>, b: Seq<u8>, from: int) -> bool {
    &&& a.len() == b.len()
    &&& forall|i: int| from <= i < a.len() ==> a[i] == b[i]
}

/// A decoder reads nothing before its position: on sequences that agree
/// from the position on, it yields the same.
pub proof fn lemma_u64_agree(a: Seq<u8>, b: Seq<u8>, pos: int)
    requires
        0 <= pos,
        agree_from(a, b, pos),
    ensures
        u64_at(a, pos) == u64_at(b, pos),
{
    if pos + 8 <= a.len() {
        assert(a.subrange(pos, pos + 8) =~= b.subrange(pos, pos + 8));
    }
}

/// Reading text looks at nothing before its position.
pub proof fn lemma_text_agree(a: Seq<u8>, b: Seq<u8>, pos: int)
    requires
        0 <= pos,
        agree_from(a, b, pos),
    ensures
        text_at(a, pos) == text_at(b, pos),
{
    lemma_u64_agree(a, b, pos);
    if u64_at(a, pos) is Some {
        let (len, next) = u64_at(a, pos).unwrap();
        if next + len <= a.len() {
            assert(a.subrange(next, next + len) =~= b.subrange(next, next + len));
        }
    }
}

// --- executable forms -----------------------------------------------------

/// Appends the bytes as they are.
pub fn put_bytes(out: &mut Vec<u8>, bytes: &[u8])
    ensures
        final(out)@ == old(out)@ + bytes@,
{
    out.extend_from_slice(bytes);
}

/// Appends one byte.
pub fn put_u8(out: &mut Vec<u8>, x: u8)
    ensures
        final(out)@ == old(out)@ + seq![x],
{
    out.push(x);
}

/// Appends a 32-bit integer, least significant byte first.
pub fn put_u32(out: &mut Vec<u8>, x: u32)
    ensures
        final(out)@ == old(out)@ + enc_u32(x),
{
    let b = u32_to_le_bytes(x);
    out.extend_from_slice(b.as_slice());
}

/// Appends a 64-bit integer, least significant byte first.
pub fn put_u64(out: &mut Vec<u8>, x: u64)
    ensures
        final(out)@ == old(out)@ + enc_u64(x),
{
    let b = u64_to_le_bytes(x);
    out.extend_from_slice(b.as_slice());
}

/// Appends a signed 64-bit integer in two's complement, least significant
/// byte first.
pub fn put_i64(out: &mut Vec<u8>, x: i64)
    ensures
        final(out)@ == old(out)@ + enc_i64(x),
{
    let bits: u64 = if x >= 0 {
        x as u64
    } else {
        u64::MAX - ((-(x + 1)) as u64)
    };
    put_u64(out, bits);
}

/// Appends a flag as one byte.
pub fn put_bool(out: &mut Vec<u8>, b: bool)
    ensures
        final(out)@ == old(out)@ + enc_bool(b),
{
    put_u8(out, if b { 1 } else { 0 });
}

/// Appends an optional 32-bit integer: a tag byte, and the value if there
/// is one.
pub fn put_opt_u32(out: &mut Vec<u8>, v: Option<u32>)
    ensures
        final(out)@ == old(out)@ + enc_opt_u32(v),
{
    match v {
        None => put_u8(out, 0),
        Some(x) => {
            put_u8(out, 1);
            put_u32(out, x);
        },
    }
}

/// Appends an optional signed 64-bit integer: a tag byte, and the value if
/// there is one.
pub fn put_opt_i64(out: &mut Vec<u8>, v: Option<i64>)
    ensures
        final(out)@ == old(out)@ + enc_opt_i64(v),
{
    match v {
        None => put_u8(out, 0),
        Some(x) => {
            put_u8(out, 1);
            put_i64(out, x);
        },
    }
}

/// Appends text: the length of its UTF-8 form, then the UTF-8 bytes.
pub fn put_text(out: &mut Vec<u8>, text: &str)
    ensures
        final(out)@ == old(out)@ + enc_text(text@),
        text_fits(text@),
{
    let body = text.as_bytes();
    put_u64(out, body.len() as u64);
    out.extend_from_slice(body);
}

/// Reads `n` bytes at `pos`.
pub fn get_bytes(bytes: &[u8], pos: usize, n: usize) -> (r: Option<(&[u8], usize)>)
    ensures
        match bytes_at(bytes@, pos as int, n as int) {
            Some((v, next)) => r matches Some((got, after)) && got@ == v && after == next,
            None => r is None,
        },
{
    if pos <= bytes.len() && n <= bytes.len() - pos {
        Some((&bytes[pos..pos + n], pos + n))
    } else {
        None
    }
}

/// Reads a 32-byte checksum.
pub fn get_digest(bytes: &[u8], pos: usize) -> (r: Option<([u8; 32], usize)>)
    ensures
        match bytes_at(bytes@, pos as int, 32) {
            Some((v, next)) => r matches Some((got, after)) && got@ == v && after == next,
            None => r is None,
        },
{
    match get_bytes(bytes, pos, 32) {
        Some((b, next)) => {
            let mut sum = [0u8; 32];
            let mut i: usize = 0;
            while i < 32
                invariant
                    i <= 32,
                    b@.len() == 32,
                    forall|j: int| 0 <= j < i ==> sum@[j] == b@[j],
                decreases 32 - i,
            {
                sum[i] = b[i];
                i += 1;
            }
            Some((sum, next))
        },
        None => None,
    }
}

/// Reads one byte at `pos`.
pub fn get_u8(bytes: &[u8], pos: usize) -> (r: Option<(u8, usize)>)
    ensures
        match u8_at(bytes@, pos as int) {
            Some((v, next)) => r matches Some((got, after)) && got == v && after == next,
            None => r is None,
        },
{
    if pos < bytes.len() {
        Some((bytes[pos], pos + 1))
    } else {
        None
    }
}

/// Reads a 32-bit integer at `pos`.
pub fn get_u32(bytes: &[u8], pos: usize) -> (r: Option<(u32, usize)>)
    ensures
        match u32_at(bytes@, pos as int) {
            Some((v, next)) => r matches Some((got, after)) && got == v && after == next,
            None => r is None,
        },
{
    match get_bytes(bytes, pos, 4) {
        Some((b, next)) => Some((u32_from_le_bytes(b), next)),
        None => None,
    }
}

/// Reads a 64-bit integer at `pos`.
pub fn get_u64(bytes: &[u8], pos: usize) -> (r: Option<(u64, usize)>)
    ensures
        match u64_at(bytes@, pos as int) {
            Some((v, next)) => r matches Some((got, after)) && got == v && after == next,
            None => r is None,
        },
{
    match get_bytes(bytes, pos, 8) {
        Some((b, next)) => Some((u64_from_le_bytes(b), next)),
        None => None,
    }
}

/// Reads a signed 64-bit integer at `pos`.
pub fn get_i64(bytes: &[u8], pos: usize) -> (r: Option<(i64, usize)>)
    ensures
        match i64_at(bytes@, pos as int) {
            Some((v, next)) => r matches Some((got, after)) && got == v && after == next,
            None => r is None,
        },
{
    match get_u64(bytes, pos) {
        Some((u, next)) => {
            let v: i64 = if u < 0x8000_0000_0000_0000 {
                u as i64
            } else {
                -((u64::MAX - u) as i64) - 1
            };
            Some((v, next))
        },
        None => None,
    }
}

/// Reads a flag at `pos`; a byte other than 0 and 1 is refused.
pub fn get_bool(bytes: &[u8], pos: usize) -> (r: Option<(bool, usize)>)
    ensures
        match bool_at(bytes@, pos as int) {
            Some((v, next)) => r matches Some((got, after)) && got == v && after == next,
            None => r is None,
        },
{
    match get_u8(bytes, pos) {
        Some((b, next)) => if b == 0 {
            Some((false, next))
        } else if b == 1 {
            Some((true, next))
        } else {
            None
        },
        None => None,
    }
}

/// Reads an optional 32-bit integer at `pos`; a tag other than 0 and 1 is
/// refused.
pub fn get_opt_u32(bytes: &[u8], pos: usize) -> (r: Option<(Option<u32>, usize)>)
    ensures
        match opt_u32_at(bytes@, pos as int) {
            Some((v, next)) => r matches Some((got, after)) && got == v && after == next,
            None => r is None,
        },
{
    match get_u8(bytes, pos) {
        Some((tag, next)) => if tag == 0 {
            Some((None, next))
        } else if tag == 1 {
            match get_u32(bytes, next) {
                Some((v, after)) => Some((Some(v), after)),
                None => None,
            }
        } else {
            None
        },
        None => None,
    }
}

/// Reads an optional signed 64-bit integer at `pos`; a tag other than 0 and
/// 1 is refused.
pub fn get_opt_i64(bytes: &[u8], pos: usize) -> (r: Option<(Option<i64>, usize)>)
    ensures
        match opt_i64_at(bytes@, pos as int) {
            Some((v, next)) => r matches Some((got, after)) && got == v && after == next,
            None => r is None,
        },
{
    match get_u8(bytes, pos) {
        Some((tag, next)) => if tag == 0 {
            Some((None, next))
        } else if tag == 1 {
            match get_i64(bytes, next) {
                Some((v, after)) => Some((Some(v), after)),
                None => None,
            }
        } else {
            None
        },
        None => None,
    }
}

/// Reads length-prefixed text at `pos`; bytes that are not well-formed UTF-8
/// are refused.
pub fn get_text(bytes: &[u8], pos: usize) -> (r: Option<(String, usize)>)
    ensures
        match text_at(bytes@, pos as int) {
            Some((v, next)) => r matches Some((got, after)) && got@ == v && after == next,
            None => r is None,
        },
{
    match get_u64(bytes, pos) {
        Some((len, next)) => {
            if len > bytes.len() as u64 {
                return None;
            }
            match get_bytes(bytes, next, len as usize) {
                Some((body, after)) => match str_from_utf8(body) {
                    Some(text) => Some((String::from_str(text), after)),
                    None => None,
                },
                None => None,
            }
        },
        None => None,
    }
}

} // verus!
