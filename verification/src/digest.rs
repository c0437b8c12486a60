//! Digests and encodings computed by outside crates: SHA-256 (`sha2`),
//! standard base64 (`base64`) and PNG (`image`).

use vstd::prelude::*;
use crate::text::{hex_lower, to_hex_lower};

verus! {

/// The SHA-256 digest of `data`.
pub uninterp spec fn sha256(data: Seq<u8>) -> Seq<u8>;

/// `sha2::Sha256::digest`: the digest of `data` (named `sha256`), which is
/// 32 bytes long.
#[verifier::external_body]
pub(crate) fn sha256_digest(data: &[u8]) -> (r: Vec<u8>)
    ensures
        r@ == sha256(data@),
        r@.len() == 32,
{
    <sha2::Sha256 as sha2::Digest>::digest(data).to_vec()
}

/// The SHA-256 digest of the bytes in lowercase hexadecimal.
pub fn sha256_hex(bytes: &[u8]) -> (r: String)
    ensures
        r@ == hex_lower(sha256(bytes@)),
{
    let digest = sha256_digest(bytes);
    to_hex_lower(digest.as_slice())
}

/// The standard base64 encoding (RFC 4648 alphabet, with padding) of `data`.
pub uninterp spec fn base64_standard(data: Seq<u8>) -> Seq<char>;

/// `base64::engine::general_purpose::STANDARD.encode`. The contract claims
/// only that the text is a function of the bytes (`base64_standard`).
#[verifier::external_body]
pub(crate) fn base64_encode(data: &[u8]) -> (r: String)
    ensures
        r@ == base64_standard(data@),
{
    base64::Engine::encode(&base64::engine::general_purpose::STANDARD, data)
}

/// The PNG file that the `image` crate writes for an RGBA image of the given
/// size with the given pixel bytes, or `None` where it refuses them.
pub uninterp spec fn png_encoding(width: u32, height: u32, rgba: Seq<u8>) -> Option<Seq<u8>>;

/// The view of optional bytes.
pub open spec fn opt_bytes_view(o: Option<Vec<u8>>) -> Option<Seq<u8>> {
    match o {
        Some(v) => Some(v@),
        None => None,
    }
}

/// `image::RgbaImage::from_raw` on the pixels, then
/// `DynamicImage::write_to` as PNG into a buffer. The result is a function
/// of the arguments (`png_encoding`); as `from_raw`'s source shows, it is
/// `None` where the pixels are fewer than 4 bytes per pixel. More bytes than
/// that are refused by `requires`: `from_raw` keeps them and the PNG encoder
/// then panics on a buffer of the wrong length. Whether the encoder succeeds
/// on a buffer of the right length is left unsaid.
#[verifier::external_body]
pub(crate) fn encode_png(width: u32, height: u32, rgba: Vec<u8>) -> (r: Option<Vec<u8>>)
    requires
        rgba@.len() <= 4 * width * height,
    ensures
        opt_bytes_view(r) == png_encoding(width, height, rgba@),
        rgba@.len() < 4 * width * height ==> r is None,
{
    let img = image::RgbaImage::from_raw(width, height, rgba)?;
    let mut buf = std::io::Cursor::new(Vec::new());
    image::DynamicImage::ImageRgba8(img).write_to(&mut buf, image::ImageFormat::Png).ok()?;
    Some(buf.into_inner())
}

} // verus!
