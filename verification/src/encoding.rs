//! From the bytes of the input file to UTF-8 text.

use crate::error::Error;
use vstd::prelude::*;
use vstd::string::StrSliceExecFns;
use vstd::utf8::encode_utf8;

verus! {

/// The character that a byte stands for in Windows-1252. The bytes below
/// 0x80 and from 0xA0 on, and the five bytes between them that the code
/// page leaves to control characters, stand for the character with their
/// own number.
pub open spec fn windows_1252_char(byte: u8) -> char {
    match byte {
        0x80u8 => '\u{20AC}',
        0x82u8 => '\u{201A}',
        0x83u8 => '\u{0192}',
        0x84u8 => '\u{201E}',
        0x85u8 => '\u{2026}',
        0x86u8 => '\u{2020}',
        0x87u8 => '\u{2021}',
        0x88u8 => '\u{02C6}',
        0x89u8 => '\u{2030}',
        0x8Au8 => '\u{0160}',
        0x8Bu8 => '\u{2039}',
        0x8Cu8 => '\u{0152}',
        0x8Eu8 => '\u{017D}',
        0x91u8 => '\u{2018}',
        0x92u8 => '\u{2019}',
        0x93u8 => '\u{201C}',
        0x94u8 => '\u{201D}',
        0x95u8 => '\u{2022}',
        0x96u8 => '\u{2013}',
        0x97u8 => '\u{2014}',
        0x98u8 => '\u{02DC}',
        0x99u8 => '\u{2122}',
        0x9Au8 => '\u{0161}',
        0x9Bu8 => '\u{203A}',
        0x9Cu8 => '\u{0153}',
        0x9Eu8 => '\u{017E}',
        0x9Fu8 => '\u{0178}',
        _ => byte as char,
    }
}

/// The text that the bytes stand for in Windows-1252: one character for
/// each byte.
pub open spec fn windows_1252_text(bytes: Seq<u8>) -> Seq<char> {
    bytes.map_values(|byte: u8| windows_1252_char(byte))
}

/// The longest input that can be decoded: a character may take three bytes
/// in UTF-8, and a text holds no more than `isize::MAX` bytes.
pub open spec fn decodable_len() -> int {
    isize::MAX / 3
}

/// Decodes Windows-1252 with `encoding_rs`: every byte becomes the
/// character that the code page gives it; no byte is invalid.
#[verifier::external_body]
fn decode_windows_1252(bytes: &[u8]) -> (text: String)
    requires
        bytes@.len() <= decodable_len(),
    ensures
        text@ == windows_1252_text(bytes@),
{
    encoding_rs::WINDOWS_1252.decode_without_bom_handling(bytes).0.into_owned()
}

/// The UTF-8 text of an input file. In legacy mode the bytes are taken as
/// Windows-1252; otherwise they are taken as they are, valid UTF-8 or not.
pub open spec fn decoded(raw: Seq<u8>, legacy: bool) -> Result<Seq<u8>, Error> {
    if !legacy {
        Ok(raw)
    } else if raw.len() <= decodable_len() {
        Ok(encode_utf8(windows_1252_text(raw)))
    } else {
        Err(Error::Decoding)
    }
}

/// Turns the bytes of an input file into UTF-8 text.
pub fn decode_input(raw: Vec<u8>, legacy: bool) -> (r: Result<Vec<u8>, Error>)
    ensures
        match decoded(raw@, legacy) {
            Ok(text) => r matches Ok(out) && out@ == text,
            Err(e) => r == Err::<Vec<u8>, Error>(e),
        },
{
    if !legacy {
        Ok(raw)
    } else if raw.len() <= isize::MAX as usize / 3 {
        let text = decode_windows_1252(raw.as_slice());
        Ok(text.as_str().as_bytes_vec())
    } else {
        Err(Error::Decoding)
    }
}

} // verus!
