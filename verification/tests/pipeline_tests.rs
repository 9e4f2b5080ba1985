use blickfang::cells::{standard_parameters, CharacterRamp};
use blickfang::encode::decode_image_rgb;
use blickfang::pipeline::convert_image_to_ascii_art;
use blickfang::render::{GlyphRaster, GlyphSet};

fn ramp_and_glyphs() -> (CharacterRamp, GlyphSet) {
    let ramp = CharacterRamp::new(
        "standard".to_owned(),
        "Standard".to_owned(),
        "@#+. ".chars().collect(),
    );
    let entries = "@#+. "
        .chars()
        .map(|c| {
            (
                c,
                GlyphRaster {
                    min_x: 1,
                    min_y: 2,
                    width: 6,
                    height: 10,
                    coverage: vec![if c == ' ' { 0 } else { 180 }; 60],
                },
            )
        })
        .collect();
    (ramp, GlyphSet { entries })
}

fn tiny_png(w: u32, h: u32) -> Vec<u8> {
    let img = image::RgbImage::from_fn(w, h, |x, y| image::Rgb([(x * 8) as u8, (y * 8) as u8, 128]));
    let mut out = std::io::Cursor::new(Vec::new());
    image::DynamicImage::ImageRgb8(img)
        .write_to(&mut out, image::ImageFormat::Png)
        .expect("png encode");
    out.into_inner()
}

#[test]
fn ascii_art_pipeline_produces_a_transport_png() {
    let bytes = tiny_png(40, 40);
    let (ramp, glyphs) = ramp_and_glyphs();
    let params = standard_parameters();
    let s = convert_image_to_ascii_art(&bytes, &ramp, &params, &glyphs).expect("conversion");
    assert!(s.starts_with("data:image/png;base64,"));
    let png = blickfang::encode::decode_transport_payload(&s).expect("payload");
    let canvas = decode_image_rgb(&png).expect("decodes");
    // 40x40 with 10x18 cells: 4 columns, 2 rows plus one row of headroom.
    assert_eq!(canvas.width, 40);
    assert_eq!(canvas.height, 2 * 18 + 18);
}

#[test]
fn ascii_art_pipeline_rejects_undecodable_bytes() {
    let (ramp, glyphs) = ramp_and_glyphs();
    let params = standard_parameters();
    assert!(convert_image_to_ascii_art(b"junk", &ramp, &params, &glyphs).is_err());
}

#[test]
fn ascii_art_pipeline_is_deterministic() {
    let bytes = tiny_png(25, 30);
    let (ramp, glyphs) = ramp_and_glyphs();
    let params = standard_parameters();
    let s1 = convert_image_to_ascii_art(&bytes, &ramp, &params, &glyphs).expect("one");
    let s2 = convert_image_to_ascii_art(&bytes, &ramp, &params, &glyphs).expect("two");
    assert_eq!(s1, s2);
}
