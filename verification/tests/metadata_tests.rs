use blickfang::config::default_shortcuts;
use blickfang::files::{filter_dot_files, get_supported_image_formats};
use blickfang::metadata::{compute_aspect_ratio, gcd, get_color_depth, process_image_metadata, ColorKind};
use blickfang::strutil::u32_to_string;
use base64::Engine;

#[test]
fn gcd_values() {
    assert_eq!(gcd(1920, 1080), 120);
    assert_eq!(gcd(7, 7), 7);
    assert_eq!(gcd(12, 0), 12);
    assert_eq!(gcd(0, 9), 9);
    assert_eq!(gcd(17, 5), 1);
}

#[test]
fn aspect_ratio_reduces_to_lowest_terms() {
    assert_eq!(compute_aspect_ratio(1920, 1080), "16:9");
    assert_eq!(compute_aspect_ratio(100, 100), "1:1");
    assert_eq!(compute_aspect_ratio(640, 480), "4:3");
    assert_eq!(compute_aspect_ratio(17, 5), "17:5");
}

#[test]
fn aspect_ratio_zero_dimension_is_empty() {
    assert_eq!(compute_aspect_ratio(0, 100), "");
    assert_eq!(compute_aspect_ratio(100, 0), "");
    assert_eq!(compute_aspect_ratio(0, 0), "");
}

#[test]
fn decimal_formatting() {
    assert_eq!(u32_to_string(0), "0");
    assert_eq!(u32_to_string(7), "7");
    assert_eq!(u32_to_string(120), "120");
    assert_eq!(u32_to_string(4294967295), "4294967295");
}

#[test]
fn color_depth_table() {
    assert_eq!(get_color_depth(ColorKind::L8), Some(8));
    assert_eq!(get_color_depth(ColorKind::Rgba8), Some(8));
    assert_eq!(get_color_depth(ColorKind::Rgb16), Some(16));
    assert_eq!(get_color_depth(ColorKind::Rgba32F), Some(32));
    assert_eq!(get_color_depth(ColorKind::Other), None);
}

fn tiny_png(w: u32, h: u32) -> Vec<u8> {
    let img = image::RgbImage::from_fn(w, h, |x, y| image::Rgb([x as u8, y as u8, 7]));
    let mut out = std::io::Cursor::new(Vec::new());
    image::DynamicImage::ImageRgb8(img)
        .write_to(&mut out, image::ImageFormat::Png)
        .expect("png encode");
    out.into_inner()
}

#[test]
fn metadata_record_for_a_png() {
    let bytes = tiny_png(4, 2);
    let m = process_image_metadata("shots/photo.png", &bytes).expect("metadata");
    assert_eq!(m.width, 4);
    assert_eq!(m.height, 2);
    assert_eq!(m.format, "PNG");
    assert_eq!(m.aspect_ratio, "2:1");
    assert_eq!(m.color_depth, Some(8));
    assert!(m.image_data.starts_with("data:image/png;base64,"));
    // A PNG without an EXIF block yields an empty EXIF text.
    assert_eq!(m.exif_data, "");
}

#[test]
fn metadata_undecodable_bytes_is_an_error() {
    assert!(process_image_metadata("nope.bin", b"this is not an image").is_err());
}

#[test]
fn metadata_data_url_payload_is_the_raw_bytes() {
    let bytes = tiny_png(2, 2);
    let m = process_image_metadata("a.png", &bytes).expect("metadata");
    let b64 = m.image_data.strip_prefix("data:image/png;base64,").expect("prefix");
    let back = base64::engine::general_purpose::STANDARD.decode(b64).expect("decode");
    assert_eq!(back, bytes);
}

#[test]
fn filter_dot_files_drops_hidden_names() {
    let paths = vec![
        "/pics/a.png".to_owned(),
        "/pics/.hidden.png".to_owned(),
        "/pics/b.jpg".to_owned(),
        ".local".to_owned(),
        "/pics/.thumbs/c.png".to_owned(),
    ];
    let kept = filter_dot_files(paths);
    assert_eq!(
        kept,
        vec!["/pics/a.png".to_owned(), "/pics/b.jpg".to_owned(), "/pics/.thumbs/c.png".to_owned()]
    );
}

#[test]
fn supported_formats_list() {
    let formats = get_supported_image_formats().expect("ok");
    assert_eq!(formats, vec!["png", "jpeg", "webp", "bmp"]);
}

#[test]
fn default_shortcuts_hold_documented_keys() {
    let s = default_shortcuts();
    assert_eq!(s.open_file.keys, vec!["o"]);
    assert_eq!(s.open_file.label, "o");
    assert_eq!(s.zoom_in.keys, vec!["+", "=", "ArrowUp"]);
    assert_eq!(s.zoom_out.keys, vec!["-", "_", "ArrowDown"]);
    assert_eq!(s.previous_image.keys, vec!["ArrowLeft"]);
    assert_eq!(s.next_image.keys, vec!["ArrowRight"]);
    assert_eq!(s.zoom_modifier_down.label, "Alt / Command");
}

#[test]
fn change_image_wraps_both_ways() {
    let files = vec!["a.png".to_owned(), "b.png".to_owned(), "c.png".to_owned()];
    assert_eq!(blickfang::files::change_image(&files, "a.png", "next"), Ok(1));
    assert_eq!(blickfang::files::change_image(&files, "c.png", "next"), Ok(0));
    assert_eq!(blickfang::files::change_image(&files, "a.png", "previous"), Ok(2));
    assert_eq!(blickfang::files::change_image(&files, "b.png", "prev"), Ok(0));
}

#[test]
fn change_image_error_cases() {
    let one = vec!["a.png".to_owned()];
    assert!(blickfang::files::change_image(&one, "a.png", "next").is_err());
    let files = vec!["a.png".to_owned(), "b.png".to_owned()];
    assert!(blickfang::files::change_image(&files, "zz.png", "next").is_err());
    assert!(blickfang::files::change_image(&files, "a.png", "sideways").is_err());
}
