//! Base64 and image decoding, from the `base64` and `image` crates.
use base64::Engine as _;
use vstd::prelude::*;

verus! {

/// The Base64 symbol (standard alphabet) for a 6-bit value.
pub open spec fn base64_symbol(v: int) -> char {
    if v < 26 {
        (65 + v) as char
    } else if v < 52 {
        (97 + v - 26) as char
    } else if v < 62 {
        (48 + v - 52) as char
    } else if v == 62 {
        '+'
    } else {
        '/'
    }
}

/// Standard Base64 with `=` padding: every 3 bytes become 4 symbols, a
/// trailing group of 1 or 2 bytes is padded to 4 symbols.
pub open spec fn base64_encoding(b: Seq<u8>) -> Seq<char>
    decreases b.len(),
{
    if b.len() == 0 {
        Seq::empty()
    } else if b.len() == 1 {
        seq![base64_symbol(b[0] as int / 4), base64_symbol((b[0] as int % 4) * 16), '=', '=']
    } else if b.len() == 2 {
        seq![
            base64_symbol(b[0] as int / 4),
            base64_symbol((b[0] as int % 4) * 16 + b[1] as int / 16),
            base64_symbol((b[1] as int % 16) * 4),
            '=',
        ]
    } else {
        seq![
            base64_symbol(b[0] as int / 4),
            base64_symbol((b[0] as int % 4) * 16 + b[1] as int / 16),
            base64_symbol((b[1] as int % 16) * 4 + b[2] as int / 64),
            base64_symbol(b[2] as int % 64),
        ] + base64_encoding(b.skip(3))
    }
}

/// What the standard Base64 engine of the `base64` crate decodes a text
/// to: the bytes, or the text of the decoding error.
pub uninterp spec fn base64_decoded(s: Seq<char>) -> Result<Seq<u8>, Seq<char>>;

/// A decoding that gave back the bytes `b`.
pub open spec fn decoded_ok(b: Seq<u8>) -> Result<Seq<u8>, Seq<char>> {
    Ok(b)
}

/// A decoding result as values: the bytes, or the text of the error.
pub open spec fn bytes_view(r: Result<Vec<u8>, String>) -> Result<Seq<u8>, Seq<char>> {
    match r {
        Ok(v) => Ok(v@),
        Err(e) => Err(e@),
    }
}

/// An image-size result as values: the size, or the text of the error.
pub open spec fn size_view(r: Result<(u32, u32), String>) -> Result<(u32, u32), Seq<char>> {
    match r {
        Ok(d) => Ok(d),
        Err(e) => Err(e@),
    }
}

/// The decoded size, or `fallback` when the bytes did not decode.
pub fn size_or(size: Result<(u32, u32), String>, fallback: (u32, u32)) -> (r: (u32, u32))
    ensures
        r == (match size {
            Ok(d) => d,
            Err(_) => fallback,
        }),
{
    match size {
        Ok(d) => d,
        Err(_) => fallback,
    }
}

/// The length of the Base64 text for `n` bytes.
pub open spec fn base64_len(n: nat) -> nat {
    4 * ((n + 2) / 3)
}

/// `base64::engine::general_purpose::STANDARD.encode`: claimed to produce
/// the standard padded Base64 text of the bytes, which the same engine
/// decodes back to the bytes. It panics where the text length overflows
/// `usize`, which `requires` leaves out.
#[verifier::external_body]
pub(crate) fn encode_base64(bytes: &[u8]) -> (r: String)
    requires
        base64_len(bytes@.len()) <= usize::MAX,
    ensures
        r@ == base64_encoding(bytes@),
        base64_decoded(r@) == decoded_ok(bytes@),
{
    base64::engine::general_purpose::STANDARD.encode(bytes)
}

/// `base64::engine::general_purpose::STANDARD.decode`: claimed to return
/// what `base64_decoded` names, the error turned into its display text.
#[verifier::external_body]
pub(crate) fn decode_base64(s: &str) -> (r: Result<Vec<u8>, String>)
    ensures
        base64_decoded(s@) == bytes_view(r),
{
    match base64::engine::general_purpose::STANDARD.decode(s) {
        Ok(v) => Ok(v),
        Err(e) => Err(e.to_string()),
    }
}

/// What one decoding of image bytes gave: the pixel size, or the text of
/// the error, together with the bytes it was made from. Only `image_size`
/// makes one, so a value of this type is the answer the decoder gave for
/// its bytes; nothing says that another decoding would answer the same.
pub struct Decoded {
    outcome: Result<(u32, u32), String>,
    source: Ghost<Seq<u8>>,
}

impl Decoded {
    /// The bytes that were decoded.
    pub closed spec fn source(self) -> Seq<u8> {
        self.source@
    }

    /// What the decoding gave: the size, or the error text.
    pub closed spec fn outcome(self) -> Result<(u32, u32), Seq<char>> {
        size_view(self.outcome)
    }

    /// What the decoding gave.
    pub fn result(&self) -> (r: Result<(u32, u32), String>)
        ensures
            size_view(r) == self.outcome(),
    {
        match &self.outcome {
            Ok(d) => Ok(*d),
            Err(e) => Err(e.clone()),
        }
    }
}

/// `image::load_from_memory` followed by `width()` and `height()`, the
/// error turned into its display text, kept with the bytes decoded. Nothing
/// is claimed of the size or the error: the crate consults format-detection
/// and decoding hooks that any code of the process can register, so the
/// same bytes need not give the same answer everywhere. It panics only
/// where a hook's lock was poisoned by a panic while it was held, which
/// this library never does.
#[verifier::external_body]
pub(crate) fn image_size(bytes: &[u8]) -> (r: Decoded)
    ensures
        r.source() == bytes@,
{
    let outcome = match image::load_from_memory(bytes) {
        Ok(img) => Ok((img.width(), img.height())),
        Err(e) => Err(e.to_string()),
    };
    Decoded { outcome, source: Ghost(bytes@) }
}

/// The bytes start with the PNG signature (0x89 'P' 'N' 'G').
pub open spec fn png_signature(b: Seq<u8>) -> bool {
    b.len() >= 4 && b[0] == 0x89u8 && b[1] == 0x50u8 && b[2] == 0x4Eu8 && b[3] == 0x47u8
}

/// The bytes start with the JPEG signature (0xFF 0xD8 0xFF).
pub open spec fn jpeg_signature(b: Seq<u8>) -> bool {
    b.len() >= 3 && b[0] == 0xFFu8 && b[1] == 0xD8u8 && b[2] == 0xFFu8
}

/// The bytes start with the BMP signature ('B' 'M').
pub open spec fn bmp_signature(b: Seq<u8>) -> bool {
    b.len() >= 2 && b[0] == 0x42u8 && b[1] == 0x4Du8
}

/// Whether the bytes start with the PNG signature.
pub fn is_png(bytes: &[u8]) -> (r: bool)
    ensures
        r == png_signature(bytes@),
{
    bytes.len() >= 4 && bytes[0] == 0x89 && bytes[1] == 0x50 && bytes[2] == 0x4E && bytes[3] == 0x47
}

/// Whether the bytes start with the JPEG signature.
pub fn is_jpeg(bytes: &[u8]) -> (r: bool)
    ensures
        r == jpeg_signature(bytes@),
{
    bytes.len() >= 3 && bytes[0] == 0xFF && bytes[1] == 0xD8 && bytes[2] == 0xFF
}

/// Whether a dropped file is taken as an image: PNG, JPEG or BMP bytes, or
/// a MIME type starting with `image/`.
pub fn looks_like_image(bytes: &[u8], mime: &str) -> (r: bool)
    ensures
        r == (png_signature(bytes@) || jpeg_signature(bytes@) || bmp_signature(bytes@) || (
        mime@.len() >= 6 && mime@.take(6) == seq!['i', 'm', 'a', 'g', 'e', '/'])),
{
    if is_png(bytes) || is_jpeg(bytes) || (bytes.len() >= 2 && bytes[0] == 0x42 && bytes[1] == 0x4D) {
        return true;
    }
    let cs = crate::text::chars_of(mime);
    if cs.len() < 6 {
        return false;
    }
    let r = cs[0] == 'i' && cs[1] == 'm' && cs[2] == 'a' && cs[3] == 'g' && cs[4] == 'e' && cs[5]
        == '/';
    assert(r == (cs@.take(6) =~= seq!['i', 'm', 'a', 'g', 'e', '/']));
    r
}

} // verus!
