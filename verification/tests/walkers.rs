use blickfang::chunks::{extract_png_text_chunks, extract_webp_xmp};

fn png_chunk(name: &[u8; 4], data: &[u8]) -> Vec<u8> {
    let mut v = Vec::new();
    v.extend_from_slice(&(data.len() as u32).to_be_bytes());
    v.extend_from_slice(name);
    v.extend_from_slice(data);
    v.extend_from_slice(&[0, 0, 0, 0]);
    v
}

fn png_signature() -> Vec<u8> {
    vec![0x89, b'P', b'N', b'G', 0x0D, 0x0A, 0x1A, 0x0A]
}

#[test]
fn png_walker_reads_text_chunks_in_order() {
    let mut buf = png_signature();
    buf.extend(png_chunk(b"IHDR", &[0; 13]));
    buf.extend(png_chunk(b"tEXt", b"Author\0Jane"));
    buf.extend(png_chunk(b"iTXt", b"Comment\0hello world"));
    buf.extend(png_chunk(b"IEND", b""));
    let pairs = extract_png_text_chunks(&buf);
    assert_eq!(pairs.len(), 2);
    assert_eq!(pairs[0].0, "Author");
    assert_eq!(pairs[0].1, "Jane");
    assert_eq!(pairs[1].0, "Comment");
    assert_eq!(pairs[1].1, "hello world");
}

#[test]
fn png_walker_keeps_duplicates() {
    let mut buf = png_signature();
    buf.extend(png_chunk(b"tEXt", b"k\0v1"));
    buf.extend(png_chunk(b"tEXt", b"k\0v2"));
    let pairs = extract_png_text_chunks(&buf);
    assert_eq!(pairs.len(), 2);
    assert_eq!(pairs[0].1, "v1");
    assert_eq!(pairs[1].1, "v2");
}

#[test]
fn png_walker_no_nul_falls_back_to_chunk_name() {
    let mut buf = png_signature();
    buf.extend(png_chunk(b"tEXt", b"justtext"));
    let pairs = extract_png_text_chunks(&buf);
    assert_eq!(pairs.len(), 1);
    assert_eq!(pairs[0].0, "tEXt");
    assert_eq!(pairs[0].1, "justtext");
}

#[test]
fn png_walker_truncated_mid_chunk_returns_prefix() {
    let mut buf = png_signature();
    buf.extend(png_chunk(b"tEXt", b"good\0one"));
    // A chunk whose declared length reads far past the end of the buffer.
    buf.extend_from_slice(&1000u32.to_be_bytes());
    buf.extend_from_slice(b"tEXt");
    buf.extend_from_slice(b"trunc");
    let pairs = extract_png_text_chunks(&buf);
    assert_eq!(pairs.len(), 1);
    assert_eq!(pairs[0].0, "good");
    assert_eq!(pairs[0].1, "one");
}

#[test]
fn png_walker_empty_and_tiny_buffers() {
    assert!(extract_png_text_chunks(&[]).is_empty());
    assert!(extract_png_text_chunks(&png_signature()).is_empty());
}

#[test]
fn png_walker_skips_invalid_utf8_text() {
    let mut buf = png_signature();
    buf.extend(png_chunk(b"tEXt", &[0xFF, 0xFE, 0x00, 0x41]));
    buf.extend(png_chunk(b"tEXt", b"ok\0yes"));
    let pairs = extract_png_text_chunks(&buf);
    assert_eq!(pairs.len(), 1);
    assert_eq!(pairs[0].0, "ok");
}

fn webp_header() -> Vec<u8> {
    let mut v = Vec::new();
    v.extend_from_slice(b"RIFF");
    v.extend_from_slice(&[0, 0, 0, 0]);
    v.extend_from_slice(b"WEBP");
    v
}

fn webp_chunk(tag: &[u8; 4], data: &[u8]) -> Vec<u8> {
    let mut v = Vec::new();
    v.extend_from_slice(tag);
    v.extend_from_slice(&(data.len() as u32).to_le_bytes());
    v.extend_from_slice(data);
    if data.len() % 2 == 1 {
        v.push(0);
    }
    v
}

#[test]
fn webp_walker_missing_magic_is_not_present() {
    assert_eq!(extract_webp_xmp(b"not a riff container at all"), None);
    assert_eq!(extract_webp_xmp(b"RIFF\0\0\0\0WAVE rest"), None);
    assert_eq!(extract_webp_xmp(&[]), None);
}

#[test]
fn webp_walker_finds_xmp_after_other_chunks() {
    let mut buf = webp_header();
    buf.extend(webp_chunk(b"VP8 ", &[1, 2, 3]));
    buf.extend(webp_chunk(b"XMP ", b"<x:xmpmeta>data</x:xmpmeta>"));
    assert_eq!(
        extract_webp_xmp(&buf).as_deref(),
        Some("<x:xmpmeta>data</x:xmpmeta>")
    );
}

#[test]
fn webp_walker_odd_length_padding_is_skipped() {
    let mut buf = webp_header();
    buf.extend(webp_chunk(b"VP8 ", &[9, 9, 9, 9, 9]));
    buf.extend(webp_chunk(b"XMP ", b"x"));
    assert_eq!(extract_webp_xmp(&buf).as_deref(), Some("x"));
}

#[test]
fn webp_walker_truncated_length_is_not_present() {
    let mut buf = webp_header();
    buf.extend_from_slice(b"XMP ");
    buf.extend_from_slice(&1000u32.to_le_bytes());
    buf.extend_from_slice(b"short");
    assert_eq!(extract_webp_xmp(&buf), None);
}

#[test]
fn webp_walker_no_xmp_is_not_present() {
    let mut buf = webp_header();
    buf.extend(webp_chunk(b"VP8 ", &[1, 2]));
    assert_eq!(extract_webp_xmp(&buf), None);
}
