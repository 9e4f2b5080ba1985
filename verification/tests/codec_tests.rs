use base64::Engine;
use blickfang::encode::{decode_image_rgb, decode_transport_payload, encode_image_to_base64};
use blickfang::raster::RasterImage;

fn sample_image() -> RasterImage {
    RasterImage {
        width: 3,
        height: 2,
        data: vec![
            1, 2, 3, 10, 20, 30, 100, 110, 120, 200, 210, 220, 255, 0, 128, 7, 77, 177,
        ],
    }
}

#[test]
fn transport_string_has_the_documented_prefix() {
    let s = encode_image_to_base64(&sample_image()).expect("encode");
    assert!(s.starts_with("data:image/png;base64,"));
}

#[test]
fn transport_payload_strips_prefix_and_decodes() {
    let img = sample_image();
    let s = encode_image_to_base64(&img).expect("encode");
    let png = decode_transport_payload(&s).expect("payload decodes");
    // The payload is a PNG stream.
    assert_eq!(&png[0..8], &[0x89, b'P', b'N', b'G', 0x0D, 0x0A, 0x1A, 0x0A]);
}

#[test]
fn transport_payload_rejects_junk() {
    assert!(decode_transport_payload("not a transport string").is_err());
    assert!(decode_transport_payload("data:image/png;base64,!!!not base64!!!").is_err());
}

#[test]
fn round_trip_reproduces_the_pixel_grid() {
    let img = sample_image();
    let s = encode_image_to_base64(&img).expect("encode");
    let b64 = s.strip_prefix("data:image/png;base64,").expect("prefix");
    let png = base64::engine::general_purpose::STANDARD.decode(b64).expect("base64");
    let back = decode_image_rgb(&png).expect("png decodes");
    assert_eq!(back.width, img.width);
    assert_eq!(back.height, img.height);
    assert_eq!(back.data, img.data);
}

#[test]
fn round_trip_is_byte_for_byte_reproducible() {
    let img = sample_image();
    let s1 = encode_image_to_base64(&img).expect("encode");
    let s2 = encode_image_to_base64(&img).expect("encode");
    assert_eq!(s1, s2);
}

#[test]
fn encode_decode_image_reproduces_pixels() {
    let img = sample_image();
    let back = blickfang::encode::encode_decode_image(&img).expect("round trip succeeds");
    assert_eq!(back.width, img.width);
    assert_eq!(back.height, img.height);
    assert_eq!(back.data, img.data);
}
