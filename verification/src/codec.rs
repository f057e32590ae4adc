//! The image codec: extension checking, media types and transport encoding.

use vstd::prelude::*;
use crate::PipelineError;
use crate::text::chars_vec;
use crate::text::str_eq;

verus! {

/// The ASCII-lowercased counterpart of a character.
pub open spec fn lower_char(c: char) -> char {
    if 'A' <= c && c <= 'Z' {
        (c as u32 + 32) as char
    } else {
        c
    }
}

/// The ASCII-lowercased counterpart of a text.
pub open spec fn ascii_lower(s: Seq<char>) -> Seq<char> {
    s.map_values(|c: char| lower_char(c))
}

/// Relies on char::from_u32: the character with the given code point.
#[verifier::external_body]
fn char_from_u32(x: u32) -> (r: char)
    requires
        x < 0xD800 || (0xE000 <= x && x < 0x110000),
    ensures
        r == (x as char),
{
    char::from_u32(x).unwrap()
}

/// ASCII-lowercases a string.
pub fn ascii_lower_str(s: &str) -> (r: String)
    ensures
        r@ == ascii_lower(s@),
{
    let cs = chars_vec(s);
    let mut out = String::new();
    let mut i: usize = 0;
    while i < cs.len()
        invariant
            i <= cs.len(),
            cs@ == s@,
            out@ == ascii_lower(s@.take(i as int)),
        decreases cs.len() - i,
    {
        let c = cs[i];
        if 'A' <= c && c <= 'Z' {
            out.push(char_from_u32(c as u32 + 32));
        } else {
            out.push(c);
        }
        proof {
            assert(out@ =~= ascii_lower(s@.take(i as int + 1)));
        }
        i = i + 1;
    }
    proof {
        assert(s@.take(cs.len() as int) =~= s@);
    }
    out
}

/// The media type for a lowercased extension, per the supported table.
pub open spec fn media_type_of(ext: Seq<char>) -> Option<Seq<char>> {
    if ext == "jpg"@ || ext == "jpeg"@ {
        Some("image/jpeg"@)
    } else if ext == "png"@ {
        Some("image/png"@)
    } else if ext == "bmp"@ {
        Some("image/bmp"@)
    } else if ext == "gif"@ {
        Some("image/gif"@)
    } else if ext == "webp"@ {
        Some("image/webp"@)
    } else {
        None
    }
}

/// The media type for a file extension, case-insensitively.
pub fn media_type_for(ext: &str) -> (r: Option<String>)
    ensures
        match r {
            Some(m) => media_type_of(ascii_lower(ext@)) == Some(m@),
            None => media_type_of(ascii_lower(ext@)) is None,
        },
{
    let low = ascii_lower_str(ext);
    if str_eq(low.as_str(), "jpg") || str_eq(low.as_str(), "jpeg") {
        Some("image/jpeg".to_owned())
    } else if str_eq(low.as_str(), "png") {
        Some("image/png".to_owned())
    } else if str_eq(low.as_str(), "bmp") {
        Some("image/bmp".to_owned())
    } else if str_eq(low.as_str(), "gif") {
        Some("image/gif".to_owned())
    } else if str_eq(low.as_str(), "webp") {
        Some("image/webp".to_owned())
    } else {
        None
    }
}

/// What the transport encoding of a byte string is: base64 text, standard
/// alphabet, padded.  A function of the bytes alone.
pub uninterp spec fn base64_of(bytes: Seq<u8>) -> Seq<char>;

/// Relies on base64's STANDARD engine: encodes the bytes as base64 text with
/// padding, four output characters for every three input bytes; the result
/// depends on the bytes alone.  The length bound keeps the encoded length
/// representable, which the engine otherwise refuses.
#[verifier::external_body]
fn encode_base64(bytes: &Vec<u8>) -> (r: String)
    requires
        bytes@.len() <= 0x4000_0000_0000_0000,
    ensures
        r@ == base64_of(bytes@),
        r@.len() == 4 * ((bytes@.len() + 2) / 3),
{
    base64::Engine::encode(&base64::engine::general_purpose::STANDARD, bytes)
}

/// An image prepared for transport: the encoded payload and its media type.
#[derive(Debug)]
pub struct EncodedImage {
    pub payload: String,
    pub media_type: String,
}

/// Encodes one image for transport.  The caller supplies the file's bytes
/// and its extension; an extension outside the supported table is rejected
/// and nothing is encoded.
pub fn encode_image(bytes: &Vec<u8>, ext: &str) -> (r: Result<EncodedImage, PipelineError>)
    requires
        bytes@.len() <= 0x4000_0000_0000_0000,
    ensures
        match r {
            Ok(img) => media_type_of(ascii_lower(ext@)) == Some(img.media_type@)
                && img.payload@ == base64_of(bytes@),
            Err(e) => e is UnsupportedFormat && media_type_of(ascii_lower(ext@)) is None,
        },
{
    match media_type_for(ext) {
        Some(m) => Ok(EncodedImage { payload: encode_base64(bytes), media_type: m }),
        None => Err(PipelineError::UnsupportedFormat),
    }
}

} // verus!
