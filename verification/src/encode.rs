//! The encoder: serializes a raster to the lossless PNG container and wraps
//! it as a MIME-prefixed, standard-alphabet base64 transport string.

use vstd::prelude::*;

use crate::raster::RasterImage;
use crate::strutil::str_eq;
use vstd::string::StringExecFns;

verus! {

/// What standard-alphabet base64 encoding returns for a byte sequence.
pub uninterp spec fn b64_of(b: Seq<u8>) -> Seq<char>;

/// What standard-alphabet base64 decoding (canonical padding required)
/// returns for a character sequence: the bytes, or nothing on invalid input.
pub uninterp spec fn b64_decode_of(s: Seq<char>) -> Option<Seq<u8>>;

/// What PNG-encoding an RGB raster of the given size yields: the
/// deterministic byte stream, or nothing when the encoder refuses the
/// raster. A function of the pixels alone (the encoder embeds no timestamps
/// and orders chunks fixedly).
pub uninterp spec fn png_result_of(width: u32, height: u32, data: Seq<u8>) -> Option<Seq<u8>>;

/// Relies on base64 `STANDARD.encode` (padded): the result is the canonical
/// encoding of the input, which `STANDARD.decode` inverts.
#[verifier::external_body]
pub(crate) fn b64_encode(b: &[u8]) -> (r: String)
    ensures
        r@ == b64_of(b@),
        r@.len() == 0 <==> b@.len() == 0,
        b64_decode_of(r@) == Some(b@),
{
    base64::Engine::encode(&base64::engine::general_purpose::STANDARD, b)
}

/// Relies on base64 `STANDARD.decode`: canonical padding is required and
/// trailing bits are rejected, so success means the input is exactly the
/// encoding of the returned bytes.
#[verifier::external_body]
fn b64_decode(s: &str) -> (r: Result<Vec<u8>, String>)
    ensures
        r matches Ok(v) ==> b64_decode_of(s@) == Some(v@) && s@ == b64_of(v@),
        r matches Err(_) ==> b64_decode_of(s@) is None,
{
    match base64::Engine::decode(&base64::engine::general_purpose::STANDARD, s) {
        Ok(v) => Ok(v),
        Err(e) => Err(format!("Failed to decode base64: {}", e)),
    }
}

/// Relies on `image::RgbImage::from_raw` and `DynamicImage::write_to` with
/// the PNG format: encodes the raster losslessly and deterministically, so
/// both outcomes are a function of the arguments, and decoding a produced
/// stream gives back exactly the input pixels (PNG is lossless and the
/// stream is an 8-bit RGB image).
#[verifier::external_body]
fn png_encode(width: u32, height: u32, data: &Vec<u8>) -> (r: Result<Vec<u8>, String>)
    requires
        data@.len() == 3 * ((width as int) * (height as int)),
    ensures
        r matches Ok(v) ==> png_result_of(width, height, data@) == Some(v@) && decoded_rgb_of(v@)
            == Some((width, height, data@)),
        r matches Err(_) ==> png_result_of(width, height, data@) is None,
{
    let buf = image::RgbImage::from_raw(width, height, data.clone())
        .ok_or_else(|| "Pixel buffer does not match its dimensions".to_string())?;
    let mut out = std::io::Cursor::new(Vec::new());
    image::DynamicImage::ImageRgb8(buf)
        .write_to(&mut out, image::ImageFormat::Png)
        .map_err(|e| format!("Failed to encode image: {}", e))?;
    Ok(out.into_inner())
}

/// What decoding an image buffer to 8-bit RGB yields: the dimensions and the
/// flat pixel bytes, or nothing for undecodable input. A function of the
/// bytes alone.
pub uninterp spec fn decoded_rgb_of(b: Seq<u8>) -> Option<(u32, u32, Seq<u8>)>;

/// Relies on `image::load_from_memory` and `DynamicImage::to_rgb8`: decodes
/// any supported container to an RGB raster whose buffer holds exactly three
/// bytes per pixel.
#[verifier::external_body]
pub fn decode_image_rgb(bytes: &[u8]) -> (r: Result<RasterImage, String>)
    ensures
        r matches Ok(img) ==> decoded_rgb_of(bytes@) == Some((img.width, img.height, img.data@))
            && img.wf(),
        r matches Err(_) ==> decoded_rgb_of(bytes@) is None,
{
    let img = image::load_from_memory(bytes).map_err(|e| format!("Failed to open image: {}", e))?;
    let rgb = img.to_rgb8();
    let (width, height) = (rgb.width(), rgb.height());
    Ok(RasterImage { width, height, data: rgb.into_raw() })
}

/// The fixed MIME prefix of a transport string.
pub open spec fn spec_transport_prefix() -> Seq<char> {
    "data:image/png;base64,"@
}

/// The transport string around a PNG byte stream: the MIME prefix followed
/// by the stream's base64 encoding.
pub open spec fn spec_transport_of(png: Seq<u8>) -> Seq<char> {
    spec_transport_prefix() + b64_of(png)
}

/// Serializes a raster to its transport string. Succeeds exactly when the
/// PNG encoder accepts the raster, and then returns the MIME-prefixed
/// base64 encoding of the PNG stream, whose payload decodes back to that
/// stream.
pub fn encode_image_to_base64(img: &RasterImage) -> (r: Result<String, String>)
    requires
        img.wf(),
    ensures
        (r is Ok) <==> (png_result_of(img.width, img.height, img.data@) is Some),
        r matches Ok(s) ==> png_result_of(img.width, img.height, img.data@) matches Some(p) && s@
            == spec_transport_of(p) && b64_decode_of(s@.skip(spec_transport_prefix().len() as int))
            == Some(p),
{
    let png = match png_encode(img.width, img.height, &img.data) {
        Ok(v) => v,
        Err(e) => {
            return Err(e);
        },
    };
    let b64 = b64_encode(png.as_slice());
    let mut s = "data:image/png;base64,".to_owned();
    s.append(b64.as_str());
    proof {
        assert(s@ == spec_transport_prefix() + b64_of(png@));
        assert(s@.skip(spec_transport_prefix().len() as int) =~= b64@);
    }
    Ok(s)
}

/// Recovers the PNG bytes from a transport string: checks the MIME prefix
/// and decodes the base64 payload. Succeeds on every string with the prefix
/// and a decodable payload; together with `encode_image_to_base64` this pins
/// the text-layer round trip.
pub fn decode_transport_payload(s: &str) -> (r: Result<Vec<u8>, String>)
    ensures
        r matches Ok(v) ==> s@ == spec_transport_of(v@) && b64_decode_of(
            s@.skip(spec_transport_prefix().len() as int),
        ) == Some(v@),
        (s@.len() >= spec_transport_prefix().len() && s@.subrange(
            0,
            spec_transport_prefix().len() as int,
        ) == spec_transport_prefix() && b64_decode_of(
            s@.skip(spec_transport_prefix().len() as int),
        ) is Some) ==> r is Ok,
{
    let n = s.unicode_len();
    let prefix = "data:image/png;base64,";
    let plen = prefix.unicode_len();
    proof {
        reveal_strlit("data:image/png;base64,");
    }
    if n < plen {
        return Err("Not a transport string".to_owned());
    }
    let head = s.substring_char(0, plen);
    if !str_eq(head, prefix) {
        proof {
            assert(head@ == s@.subrange(0, plen as int));
        }
        return Err("Not a transport string".to_owned());
    }
    let payload = s.substring_char(plen, n);
    proof {
        assert(s@.skip(plen as int) =~= payload@);
    }
    match b64_decode(payload) {
        Ok(v) => {
            proof {
                assert(s@ =~= spec_transport_prefix() + b64_of(v@));
            }
            Ok(v)
        },
        Err(e) => Err(e),
    }
}

/// The full encode/decode round trip of the codec layer: whenever the
/// raster encodes at all, serializing it to a transport string, stripping
/// the prefix, and decoding the PNG payload reproduces the original pixel
/// grid exactly — the lossless-codec law.
pub fn encode_decode_image(img: &RasterImage) -> (r: Result<RasterImage, String>)
    requires
        img.wf(),
    ensures
        r matches Ok(out) ==> out.width == img.width && out.height == img.height && out.data@
            == img.data@,
        (png_result_of(img.width, img.height, img.data@) is Some) ==> r is Ok,
{
    let s = match encode_image_to_base64(img) {
        Ok(s) => s,
        Err(e) => {
            return Err(e);
        },
    };
    proof {
        assert(s@.len() >= spec_transport_prefix().len() && s@.subrange(
            0,
            spec_transport_prefix().len() as int,
        ) =~= spec_transport_prefix());
    }
    let png = match decode_transport_payload(s.as_str()) {
        Ok(v) => v,
        Err(e) => {
            return Err(e);
        },
    };
    let png2 = match png_encode(img.width, img.height, &img.data) {
        Ok(v) => v,
        Err(e) => {
            return Err(e);
        },
    };
    proof {
        assert(png@ == png2@);
        assert(decoded_rgb_of(png@) == Some((img.width, img.height, img.data@)));
    }
    match decode_image_rgb(png.as_slice()) {
        Ok(out) => Ok(out),
        Err(e) => Err(e),
    }
}


} // verus!
