//! Byte payloads carried as unpadded standard base64 text.

use vstd::prelude::*;
use base64::Engine;

verus! {

/// Why a text is not unpadded standard base64.
#[derive(Debug, Clone, Copy, PartialEq, Eq)]
pub enum Base64Error {
    /// A character outside the alphabet (padding included), at an offset.
    InvalidByte(usize, u8),
    /// A length that leaves a 6-bit remainder.
    InvalidLength,
    /// A last symbol whose unused bits are not zero.
    InvalidLastSymbol(usize, u8),
    /// Padding where none is allowed.
    InvalidPadding,
}

/// The symbol of the standard base64 alphabet for a 6-bit value:
/// `A`-`Z`, `a`-`z`, `0`-`9`, `+`, `/`.
pub open spec fn base64_symbol(v: int) -> char {
    if v < 26 {
        (65 + v) as char
    } else if v < 52 {
        (71 + v) as char
    } else if v < 62 {
        (v - 4) as char
    } else if v == 62 {
        '+'
    } else {
        '/'
    }
}

/// The unpadded standard base64 text of some bytes: each group of three
/// bytes, read as a 24-bit number, gives four symbols of six bits each; a
/// last group of two bytes gives three symbols and one byte gives two, the
/// unused low bits being zero; no padding follows.
pub open spec fn base64_no_pad_encoding(bytes: Seq<u8>) -> Seq<char>
    decreases bytes.len(),
{
    if bytes.len() == 0 {
        Seq::empty()
    } else if bytes.len() == 1 {
        let n = bytes[0] as int;
        seq![base64_symbol(n / 4), base64_symbol((n % 4) * 16)]
    } else if bytes.len() == 2 {
        let n = bytes[0] * 256 + bytes[1];
        seq![base64_symbol(n / 1024), base64_symbol((n / 16) % 64), base64_symbol((n % 16) * 4)]
    } else {
        let n = bytes[0] * 65536 + bytes[1] * 256 + bytes[2];
        seq![
            base64_symbol(n / 262144),
            base64_symbol((n / 4096) % 64),
            base64_symbol((n / 64) % 64),
            base64_symbol(n % 64),
        ] + base64_no_pad_encoding(bytes.subrange(3, bytes.len() as int))
    }
}

/// What the `base64` crate decodes from a text under the unpadded standard
/// configuration.
pub uninterp spec fn base64_no_pad_decoding(text: Seq<char>) -> Result<Seq<u8>, Base64Error>;

/// Whether a character belongs to the standard base64 alphabet.
pub open spec fn in_base64_alphabet(c: char) -> bool {
    let u = c as int;
    ||| 65 <= u <= 90
    ||| 97 <= u <= 122
    ||| 48 <= u <= 57
    ||| c == '+'
    ||| c == '/'
}

proof fn lemma_symbol_in_alphabet(v: int)
    requires
        0 <= v < 64,
    ensures
        in_base64_alphabet(base64_symbol(v)),
{
}

/// What every unpadded encoding looks like: only symbols of the alphabet
/// (never `=`), and a length that leaves no single symbol after the groups
/// of four.
pub proof fn law_encoding_shape(bytes: Seq<u8>)
    ensures
        forall|i: int|
            0 <= i < base64_no_pad_encoding(bytes).len() ==> in_base64_alphabet(
                #[trigger] base64_no_pad_encoding(bytes)[i],
            ),
        base64_no_pad_encoding(bytes).len() % 4 != 1,
    decreases bytes.len(),
{
    let e = base64_no_pad_encoding(bytes);
    if bytes.len() == 0 {
    } else if bytes.len() == 1 {
        let n = bytes[0] as int;
        lemma_symbol_in_alphabet(n / 4);
        lemma_symbol_in_alphabet((n % 4) * 16);
        assert forall|i: int| 0 <= i < e.len() implies in_base64_alphabet(#[trigger] e[i]) by {
            assert(i == 0 || i == 1);
        }
    } else if bytes.len() == 2 {
        let n = bytes[0] * 256 + bytes[1];
        lemma_symbol_in_alphabet(n / 1024);
        lemma_symbol_in_alphabet((n / 16) % 64);
        lemma_symbol_in_alphabet((n % 16) * 4);
        assert forall|i: int| 0 <= i < e.len() implies in_base64_alphabet(#[trigger] e[i]) by {
            assert(i == 0 || i == 1 || i == 2);
        }
    } else {
        let n = bytes[0] * 65536 + bytes[1] * 256 + bytes[2];
        let rest = bytes.subrange(3, bytes.len() as int);
        let head = seq![
            base64_symbol(n / 262144),
            base64_symbol((n / 4096) % 64),
            base64_symbol((n / 64) % 64),
            base64_symbol(n % 64),
        ];
        law_encoding_shape(rest);
        lemma_symbol_in_alphabet(n / 262144);
        lemma_symbol_in_alphabet((n / 4096) % 64);
        lemma_symbol_in_alphabet((n / 64) % 64);
        lemma_symbol_in_alphabet(n % 64);
        let tail = base64_no_pad_encoding(rest);
        assert(e == head + tail);
        assert forall|i: int| 0 <= i < e.len() implies in_base64_alphabet(#[trigger] e[i]) by {
            if i < 4 {
                assert(e[i] == head[i]);
                assert(i == 0 || i == 1 || i == 2 || i == 3);
            } else {
                assert(e[i] == tail[i - 4]);
            }
        }
    }
}

/// `Engine::encode` of the `base64` crate with the engine `STANDARD_NO_PAD`
/// (the standard alphabet, no padding). Claims: the text is
/// `base64_no_pad_encoding` of the bytes, as the crate's documentation and
/// RFC 4648 describe the encoding. The crate panics only when the
/// encoded length overflows a `usize`, which the bound rules out.
#[verifier::external_body]
fn engine_encode(bytes: &[u8]) -> (text: String)
    requires
        bytes@.len() <= isize::MAX,
    ensures
        text@ == base64_no_pad_encoding(bytes@),
{
    base64::engine::general_purpose::STANDARD_NO_PAD.encode(bytes)
}

/// `Engine::decode` of the `base64` crate with the engine `STANDARD_NO_PAD`.
/// Claims: the result is `base64_no_pad_decoding` of the text, with the
/// crate's error carried over variant by variant; a text that the same
/// engine wrote for some bytes decodes to exactly those bytes; and only such
/// texts decode at all. This configuration refuses padding and nonzero
/// trailing bits, so the texts it accepts are exactly the ones it writes.
#[verifier::external_body]
fn engine_decode(text: &str) -> (res: Result<Vec<u8>, Base64Error>)
    ensures
        match res {
            Ok(v) => base64_no_pad_decoding(text@) == Ok::<Seq<u8>, Base64Error>(v@),
            Err(e) => base64_no_pad_decoding(text@) == Err::<Seq<u8>, Base64Error>(e),
        },
        res is Ok || forall|b: Seq<u8>| #[trigger] base64_no_pad_encoding(b) != text@,
        res matches Ok(v) ==> forall|b: Seq<u8>|
            #[trigger] base64_no_pad_encoding(b) == text@ ==> v@ == b,
        res matches Ok(v) ==> base64_no_pad_encoding(v@) == text@,
{
    match base64::engine::general_purpose::STANDARD_NO_PAD.decode(text) {
        Ok(v) => Ok(v),
        Err(base64::DecodeError::InvalidByte(i, b)) => Err(Base64Error::InvalidByte(i, b)),
        Err(base64::DecodeError::InvalidLength) => Err(Base64Error::InvalidLength),
        Err(base64::DecodeError::InvalidLastSymbol(i, b)) => Err(Base64Error::InvalidLastSymbol(i, b)),
        Err(base64::DecodeError::InvalidPadding) => Err(Base64Error::InvalidPadding),
    }
}

/// A byte payload that travels as unpadded standard base64 text.
#[derive(Debug)]
pub struct Base64Box(pub Vec<u8>);

impl Base64Box {
    /// The payload as unpadded standard base64 text.
    pub fn to_base64(&self) -> (text: String)
        requires
            self.0@.len() <= isize::MAX,
        ensures
            text@ == base64_no_pad_encoding(self.0@),
    {
        engine_encode(self.0.as_slice())
    }

    /// The payload that a base64 text carries. A text written by `to_base64`
    /// always decodes to the payload it was written from, and a text is
    /// accepted only when it is the encoding of what it decodes to.
    pub fn from_base64(text: &str) -> (res: Result<Base64Box, Base64Error>)
        ensures
            match res {
                Ok(b) => base64_no_pad_decoding(text@) == Ok::<Seq<u8>, Base64Error>(b.0@),
                Err(e) => base64_no_pad_decoding(text@) == Err::<Seq<u8>, Base64Error>(e),
            },
            forall|b: Seq<u8>|
                #[trigger] base64_no_pad_encoding(b) == text@ ==> (res matches Ok(v) && v.0@ == b),
            res matches Ok(b) ==> base64_no_pad_encoding(b.0@) == text@,
            res is Ok <==> exists|b: Seq<u8>| #[trigger] base64_no_pad_encoding(b) == text@,
    {
        match engine_decode(text) {
            Ok(v) => Ok(Base64Box(v)),
            Err(e) => Err(e),
        }
    }
}

} // verus!
