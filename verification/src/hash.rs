//! Ledger identifiers: 32-byte hashes and their hexadecimal text form.

use hex::FromHex;
use hex::FromHexError;
use vstd::prelude::*;
use vstd::string::*;

verus! {

/// Number of bytes in a [`Hash`].
pub const HASH_SIZE: usize = 32;

/// A 32-byte identifier of a ledger entry or of a ledger block.
#[derive(Clone, Copy, Debug, PartialEq, Eq, Hash)]
pub struct Hash(pub [u8; 32]);

impl View for Hash {
    type V = Seq<u8>;

    open spec fn view(&self) -> Seq<u8> {
        self.0@
    }
}

impl DeepView for Hash {
    type V = Seq<u8>;

    open spec fn deep_view(&self) -> Seq<u8> {
        self@
    }
}

/// Why a text is not the hexadecimal form of a [`Hash`].
#[derive(Clone, Copy, Debug, PartialEq, Eq)]
pub enum HexError {
    /// The text has an odd number of bytes.
    OddLength,
    /// The byte at `index` is no hexadecimal digit; `c` is that byte as a character.
    InvalidHexCharacter { c: char, index: usize },
    /// The text is well-formed hexadecimal but does not stand for 32 bytes.
    InvalidStringLength,
}

/// `b` is one of `0-9`, `A-F`, `a-f`.
pub open spec fn is_hex_digit(b: u8) -> bool {
    ||| 0x30 <= b <= 0x39
    ||| 0x41 <= b <= 0x46
    ||| 0x61 <= b <= 0x66
}

/// The number, 0 to 15, that the hexadecimal digit `b` stands for.
pub open spec fn hex_value(b: u8) -> int {
    if 0x30 <= b <= 0x39 {
        b - 0x30
    } else if 0x41 <= b <= 0x46 {
        b - 0x41 + 10
    } else {
        b - 0x61 + 10
    }
}

/// Every byte of `text` before `end` is a hexadecimal digit.
pub open spec fn hex_digits_before(text: Seq<u8>, end: int) -> bool {
    forall|i: int| 0 <= i < end && i < text.len() ==> is_hex_digit(#[trigger] text[i])
}

/// `text` is an even number of hexadecimal digits.
pub open spec fn is_hex_text(text: Seq<u8>) -> bool {
    text.len() % 2 == 0 && hex_digits_before(text, text.len() as int)
}

/// The bytes that the hexadecimal text `text` stands for, two digits to a byte.
pub open spec fn decode_hex(text: Seq<u8>) -> Seq<u8> {
    Seq::new(
        text.len() / 2,
        |i: int| (16 * hex_value(text[2 * i]) + hex_value(text[2 * i + 1])) as u8,
    )
}

/// The lower-case hexadecimal digit for `v`, 0 to 15.
pub open spec fn hex_char(v: int) -> char {
    if v < 10 {
        (0x30 + v) as char
    } else {
        (0x57 + v) as char
    }
}

/// The lower-case hexadecimal text of `bytes`, two digits to a byte.
pub open spec fn encode_hex(bytes: Seq<u8>) -> Seq<char> {
    Seq::new(
        2 * bytes.len(),
        |i: int|
            if i % 2 == 0 {
                hex_char(bytes[i / 2] as int / 16)
            } else {
                hex_char(bytes[i / 2] as int % 16)
            },
    )
}

/// What parsing `text` as a hash yields: the first fault found, or the 32 decoded bytes.
pub open spec fn parse_outcome(text: Seq<u8>, r: Result<Hash, HexError>) -> bool {
    match r {
        Ok(h) => is_hex_text(text) && text.len() == 64 && h@ == decode_hex(text),
        Err(HexError::OddLength) => text.len() % 2 == 1,
        Err(HexError::InvalidHexCharacter { c, index }) => {
            &&& text.len() % 2 == 0
            &&& index < text.len()
            &&& hex_digits_before(text, index as int)
            &&& !is_hex_digit(text[index as int])
            &&& c == text[index as int] as char
        },
        Err(HexError::InvalidStringLength) => is_hex_text(text) && text.len() != 64,
    }
}

/// The bytes of the hash that the text `chars` stands for, if it is the hexadecimal form
/// of one.
pub open spec fn parsed_hash(chars: Seq<char>) -> Option<Seq<u8>> {
    let text = vstd::utf8::encode_utf8(chars);
    if is_hex_text(text) && text.len() == 64 {
        Some(decode_hex(text))
    } else {
        None
    }
}

/// The hexadecimal text of a hash, read back, is that hash.
pub proof fn lemma_hex_round_trip(bytes: Seq<u8>)
    requires
        bytes.len() == 32,
    ensures
        parsed_hash(encode_hex(bytes)) == Some(bytes),
{
    let chars = encode_hex(bytes);
    let text = vstd::utf8::encode_utf8(chars);
    assert forall|i: int| 0 <= i < chars.len() implies '\0' <= #[trigger] chars[i] <= '\u{7f}' by {
        let v = if i % 2 == 0 {
            bytes[i / 2] as int / 16
        } else {
            bytes[i / 2] as int % 16
        };
        assert(0 <= v < 16);
        assert(chars[i] == hex_char(v));
    }
    vstd::utf8::is_ascii_chars_encode_utf8(chars);
    assert forall|i: int| 0 <= i < text.len() implies is_hex_digit(#[trigger] text[i])
        && hex_value(text[i]) == (if i % 2 == 0 {
        bytes[i / 2] as int / 16
    } else {
        bytes[i / 2] as int % 16
    }) by {
        let v = if i % 2 == 0 {
            bytes[i / 2] as int / 16
        } else {
            bytes[i / 2] as int % 16
        };
        assert(0 <= v < 16);
        assert(chars[i] == hex_char(v));
        assert(text[i] == chars[i] as u8);
    }
    assert(decode_hex(text) =~= bytes) by {
        assert forall|k: int| 0 <= k < 32 implies decode_hex(text)[k] == bytes[k] by {
            assert(hex_value(text[2 * k]) == bytes[k] as int / 16);
            assert(hex_value(text[2 * k + 1]) == bytes[k] as int % 16);
        }
    }
}

/// Calls `hex::FromHex::from_hex` for `Vec<u8>`. The contract claims what that function's
/// source shows: a text of odd length is refused as such; else the first byte that is no
/// hexadecimal digit is reported with its position; else each pair of digits, upper or lower
/// case, gives one byte, the first digit being the high half.
#[verifier::external_body]
fn hex_decode(text: &[u8]) -> (r: Result<Vec<u8>, HexError>)
    ensures
        match r {
            Ok(bytes) => is_hex_text(text@) && bytes@ == decode_hex(text@),
            Err(HexError::OddLength) => text@.len() % 2 == 1,
            Err(HexError::InvalidHexCharacter { c, index }) => {
                &&& text@.len() % 2 == 0
                &&& index < text@.len()
                &&& hex_digits_before(text@, index as int)
                &&& !is_hex_digit(text@[index as int])
                &&& c == text@[index as int] as char
            },
            Err(HexError::InvalidStringLength) => false,
        },
{
    match Vec::<u8>::from_hex(text) {
        Ok(bytes) => Ok(bytes),
        Err(FromHexError::OddLength) => Err(HexError::OddLength),
        Err(FromHexError::InvalidHexCharacter { c, index }) => Err(
            HexError::InvalidHexCharacter { c, index },
        ),
        Err(FromHexError::InvalidStringLength) => Err(HexError::InvalidStringLength),
    }
}

/// Calls `hex::encode`. The contract claims what that function's source shows: each byte
/// gives two lower-case hexadecimal digits, the high half first.
#[verifier::external_body]
fn hex_encode(bytes: &[u8]) -> (text: String)
    ensures
        text@ == encode_hex(bytes@),
{
    hex::encode(bytes)
}

impl Hash {
    /// The hash made of `bytes`.
    pub fn new(bytes: [u8; 32]) -> (h: Hash)
        ensures
            h@ == bytes@,
            h.0 == bytes,
    {
        Hash(bytes)
    }

    /// The hash of 32 zero bytes.
    pub fn zero() -> (h: Hash)
        ensures
            h@ == Seq::new(32, |i: int| 0u8),
    {
        let h = Hash([0u8; 32]);
        assert(h@ =~= Seq::new(32, |i: int| 0u8));
        h
    }

    /// The hash made of `bytes`, if there are exactly 32 of them.
    pub fn from_slice(bytes: &[u8]) -> (r: Option<Hash>)
        ensures
            r is Some <==> bytes@.len() == 32,
            r matches Some(h) ==> h@ == bytes@,
    {
        if bytes.len() != HASH_SIZE {
            return None;
        }
        let mut out = [0u8; 32];
        let mut i: usize = 0;
        while i < 32
            invariant
                i <= 32,
                bytes@.len() == 32,
                forall|j: int| 0 <= j < i ==> out@[j] == bytes@[j],
            decreases 32 - i,
        {
            out[i] = bytes[i];
            i += 1;
        }
        assert(out@ =~= bytes@);
        Some(Hash(out))
    }

    /// Whether two hashes hold the same bytes.
    pub fn same(&self, other: &Hash) -> (b: bool)
        ensures
            b == (self@ == other@),
    {
        let mut i: usize = 0;
        while i < 32
            invariant
                i <= 32,
                forall|j: int| 0 <= j < i ==> self.0@[j] == other.0@[j],
            decreases 32 - i,
        {
            if self.0[i] != other.0[i] {
                return false;
            }
            i += 1;
        }
        assert(self@ =~= other@);
        true
    }

    /// Parses the 64 hexadecimal digits of a hash, in either case.
    pub fn from_hex(text: &str) -> (r: Result<Hash, HexError>)
        ensures
            parse_outcome(text.spec_bytes(), r),
            r is Ok <==> parsed_hash(text@) is Some,
            r matches Ok(h) ==> parsed_hash(text@) == Some(h@),
    {
        match hex_decode(text.as_bytes()) {
            Ok(bytes) => {
                match Hash::from_slice(bytes.as_slice()) {
                    Some(h) => Ok(h),
                    None => Err(HexError::InvalidStringLength),
                }
            },
            Err(e) => Err(e),
        }
    }

    /// The 64 lower-case hexadecimal digits of the hash.
    pub fn to_hex(&self) -> (text: String)
        ensures
            text@ == encode_hex(self@),
    {
        hex_encode(self.0.as_slice())
    }
}

} // verus!
