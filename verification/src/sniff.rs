//! Container-format sniffing: magic-byte detection through the codec
//! library, with a filename-extension fallback through the MIME table.

use vstd::prelude::*;

verus! {

/// What magic-byte sniffing returns for a buffer: the MIME essence and the
/// upper-case format name, a function of the bytes alone.
pub uninterp spec fn sniffed_of(b: Seq<u8>) -> Option<(Seq<char>, Seq<char>)>;

/// What the MIME table guesses from a path's extension: the essence string
/// of its first match, or nothing when the extension is absent or unknown.
/// A function of the path characters alone.
pub uninterp spec fn ext_mime_of(path: Seq<char>) -> Option<Seq<char>>;

/// Whether a buffer opens with the PNG signature.
pub open spec fn spec_has_png_magic(b: Seq<u8>) -> bool {
    b.len() >= 8 && b[0] == 0x89u8 && b[1] == 0x50u8 && b[2] == 0x4eu8 && b[3] == 0x47u8 && b[4]
        == 0x0du8 && b[5] == 0x0au8 && b[6] == 0x1au8 && b[7] == 0x0au8
}

/// Whether a buffer opens with the JPEG start-of-image marker.
pub open spec fn spec_has_jpeg_magic(b: Seq<u8>) -> bool {
    b.len() >= 3 && b[0] == 0xffu8 && b[1] == 0xd8u8 && b[2] == 0xffu8
}

/// Whether a buffer opens with the RIFF/WebP magic (bytes 4 to 8 are the
/// file size and play no part).
pub open spec fn spec_has_webp_magic(b: Seq<u8>) -> bool {
    b.len() >= 12 && b[0] == 0x52u8 && b[1] == 0x49u8 && b[2] == 0x46u8 && b[3] == 0x46u8 && b[8]
        == 0x57u8 && b[9] == 0x45u8 && b[10] == 0x42u8 && b[11] == 0x50u8
}

/// Relies on `image::guess_format` and `ImageFormat::to_mime_type` /
/// `Debug`: sniffs the container from its magic bytes; its magic table opens
/// with the PNG, JPEG and RIFF/WebP signatures, and those yield the MIME
/// strings `image/png`, `image/jpeg` and `image/webp` with the upper-cased
/// format names. Every MIME string and `Debug` name of the format
/// enumeration is non-empty.
#[verifier::external_body]
pub fn sniff_format(bytes: &[u8]) -> (r: Option<(String, String)>)
    ensures
        r.deep_view() == sniffed_of(bytes@),
        r matches Some(p) ==> {
            &&& p.0@.len() > 0 && p.1@.len() > 0
            &&& spec_has_png_magic(bytes@) ==> p.0@ == "image/png"@ && p.1@ == "PNG"@
            &&& spec_has_jpeg_magic(bytes@) ==> p.0@ == "image/jpeg"@ && p.1@ == "JPEG"@
            &&& spec_has_webp_magic(bytes@) ==> p.0@ == "image/webp"@ && p.1@ == "WEBP"@
        },
        r is None ==> !spec_has_png_magic(bytes@) && !spec_has_jpeg_magic(bytes@)
            && !spec_has_webp_magic(bytes@),
{
    match image::guess_format(bytes) {
        Ok(f) => Some((f.to_mime_type().to_string(), format!("{:?}", f).to_uppercase())),
        Err(_) => None,
    }
}

/// Relies on `mime_guess::from_path` with `first` and `essence_str`: the
/// first MIME guess for the path's extension, from a static table whose
/// essence strings are never empty; nothing when the extension is absent or
/// unknown.
#[verifier::external_body]
pub fn mime_from_path(path: &str) -> (r: Option<String>)
    ensures
        r.deep_view() == ext_mime_of(path@),
        r matches Some(m) ==> m@.len() > 0,
{
    mime_guess::from_path(path).first().map(|m| m.essence_str().to_string())
}

} // verus!
