use blickfang::provenance::{detect_c2pa, extract_c2pa_store, AiImageDetector, KeywordTable};

const UUID: [u8; 16] = [
    0xD8, 0xFE, 0x07, 0xFF, 0xF1, 0xD9, 0x4D, 0x9A, 0xA0, 0x5E, 0xA8, 0x0B, 0x5A, 0x9F, 0xD8, 0x5A,
];

#[test]
fn c2pa_marker_with_json_span() {
    let mut buf = b"leading bytes ".to_vec();
    buf.extend_from_slice(&UUID);
    buf.extend_from_slice(b"junk{\"a\":1}junk");
    let (found, json) = detect_c2pa(&buf);
    assert!(found);
    assert_eq!(json.as_deref(), Some("{\"a\":1}"));
}

#[test]
fn c2pa_marker_without_json_still_positive() {
    let mut buf = UUID.to_vec();
    buf.extend_from_slice(b"nothing to see here");
    let (found, json) = detect_c2pa(&buf);
    assert!(found);
    assert_eq!(json, None);
}

#[test]
fn c2pa_absent_marker_is_negative() {
    let buf = b"an ordinary file without any marker in it".to_vec();
    assert_eq!(detect_c2pa(&buf), (false, None));
}

#[test]
fn c2pa_store_spans_first_open_to_last_close() {
    let mut buf = UUID.to_vec();
    buf.extend_from_slice(b"xx{\"a\":{\"b\":2}}yy}zz");
    let (json, store) = extract_c2pa_store(&buf).expect("store");
    // The heuristic takes the first `{` to the last `}`, nested or not.
    assert_eq!(json, "{\"a\":{\"b\":2}}yy}");
    assert_eq!(store, b"xx{\"a\":{\"b\":2}}yy}zz");
}

#[test]
fn c2pa_store_too_short_is_none() {
    assert!(extract_c2pa_store(&UUID).is_none());
    assert!(extract_c2pa_store(b"tiny").is_none());
}

#[test]
fn c2pa_store_unordered_braces_is_none() {
    let mut buf = UUID.to_vec();
    buf.extend_from_slice(b"}}}} {{{{");
    assert!(extract_c2pa_store(&buf).is_none());
}

#[test]
fn keyword_table_is_lowercase_and_nonempty() {
    let table = KeywordTable::bundled();
    assert!(!table.keywords.is_empty());
    for k in &table.keywords {
        assert!(!k.is_empty());
        assert_eq!(k.to_lowercase(), *k);
    }
}

fn png_with_text(text: &[u8]) -> Vec<u8> {
    let mut buf = vec![0x89, b'P', b'N', b'G', 0x0D, 0x0A, 0x1A, 0x0A];
    buf.extend_from_slice(&(text.len() as u32).to_be_bytes());
    buf.extend_from_slice(b"tEXt");
    buf.extend_from_slice(text);
    buf.extend_from_slice(&[0, 0, 0, 0]);
    buf
}

#[test]
fn detector_flags_png_text_keyword() {
    let buf = png_with_text(b"parameters\0made with Midjourney v6");
    let det = AiImageDetector::new("art.png".to_owned(), buf);
    let result = det.detect().expect("detection succeeds");
    assert_eq!(result.format, "image/png");
    assert!(result.is_ai_generated);
}

#[test]
fn detector_clean_png_is_negative() {
    let buf = png_with_text(b"Author\0Jane Doe");
    let det = AiImageDetector::new("photo.png".to_owned(), buf);
    let result = det.detect().expect("detection succeeds");
    assert_eq!(result.format, "image/png");
    assert!(!result.is_ai_generated);
}

#[test]
fn detector_flags_webp_xmp_keyword() {
    let mut buf = Vec::new();
    buf.extend_from_slice(b"RIFF");
    buf.extend_from_slice(&[0, 0, 0, 0]);
    buf.extend_from_slice(b"WEBP");
    let xmp = b"<xmp>generated with stable diffusion</xmp>";
    buf.extend_from_slice(b"XMP ");
    buf.extend_from_slice(&(xmp.len() as u32).to_le_bytes());
    buf.extend_from_slice(xmp);
    let det = AiImageDetector::new("art.webp".to_owned(), buf);
    let result = det.detect().expect("detection succeeds");
    assert_eq!(result.format, "image/webp");
    assert!(result.is_ai_generated);
}

#[test]
fn detector_flags_c2pa_marker_in_any_format() {
    let mut buf = vec![0xFF, 0xD8, 0xFF, 0xE0];
    buf.extend_from_slice(&UUID);
    let det = AiImageDetector::new("shot.jpg".to_owned(), buf);
    let result = det.detect().expect("detection succeeds");
    assert_eq!(result.format, "image/jpeg");
    assert!(result.is_ai_generated);
}

#[test]
fn detector_unknown_bytes_fall_back_to_extension_mime() {
    let det = AiImageDetector::new("file.png".to_owned(), b"not an image".to_vec());
    let result = det.detect().expect("detection succeeds");
    assert_eq!(result.format, "image/png");
    assert!(!result.is_ai_generated);
}

#[test]
fn detector_case_insensitive_keyword_match() {
    let buf = png_with_text(b"Software\0NOVELAI image tool");
    let det = AiImageDetector::new("a.png".to_owned(), buf);
    assert!(det.detect().unwrap().is_ai_generated);
}

fn tiff_with_description(text: &[u8]) -> Vec<u8> {
    let mut b = Vec::new();
    b.extend_from_slice(b"II");
    b.extend_from_slice(&42u16.to_le_bytes());
    b.extend_from_slice(&8u32.to_le_bytes());
    b.extend_from_slice(&1u16.to_le_bytes());
    b.extend_from_slice(&0x010Eu16.to_le_bytes());
    b.extend_from_slice(&2u16.to_le_bytes());
    b.extend_from_slice(&(text.len() as u32).to_le_bytes());
    b.extend_from_slice(&26u32.to_le_bytes());
    b.extend_from_slice(&0u32.to_le_bytes());
    b.extend_from_slice(text);
    b
}

#[test]
fn detector_flags_exif_keyword() {
    let bytes = tiff_with_description(b"Made with Midjourney\0");
    let det = AiImageDetector::new("scan.tif".to_owned(), bytes);
    let result = det.detect().expect("detection succeeds");
    assert_eq!(result.format, "image/tiff");
    assert!(result.is_ai_generated);
}

#[test]
fn detector_clean_exif_is_negative() {
    let bytes = tiff_with_description(b"A plain photograph\0");
    let det = AiImageDetector::new("scan.tif".to_owned(), bytes);
    let result = det.detect().expect("detection succeeds");
    assert!(!result.is_ai_generated);
}

#[test]
fn detector_unknown_when_sniff_and_extension_fail() {
    let det = AiImageDetector::new("mystery.zzz".to_owned(), b"no magic here".to_vec());
    let result = det.detect().expect("detection succeeds");
    assert_eq!(result.format, "unknown");
    assert!(!result.is_ai_generated);
}
