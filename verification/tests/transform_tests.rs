use blickfang::raster::RasterImage;
use blickfang::transform::{apply, resolve, Transform};

fn test_image(w: u32, h: u32) -> RasterImage {
    let mut data = Vec::new();
    for y in 0..h {
        for x in 0..w {
            data.push((10 * x + y) as u8);
            data.push((10 * x + y + 1) as u8);
            data.push((10 * x + y + 2) as u8);
        }
    }
    RasterImage { width: w, height: h, data }
}

fn px(img: &RasterImage, x: u32, y: u32) -> (u8, u8, u8) {
    img.get_pixel(x, y)
}

#[test]
fn resolve_maps_all_codes() {
    assert_eq!(resolve(Some(1)), Transform::Identity);
    assert_eq!(resolve(Some(2)), Transform::FlipH);
    assert_eq!(resolve(Some(3)), Transform::Rotate180);
    assert_eq!(resolve(Some(4)), Transform::FlipV);
    assert_eq!(resolve(Some(5)), Transform::Rotate90FlipH);
    assert_eq!(resolve(Some(6)), Transform::Rotate90);
    assert_eq!(resolve(Some(7)), Transform::Rotate270FlipH);
    assert_eq!(resolve(Some(8)), Transform::Rotate270);
    assert_eq!(resolve(None), Transform::Identity);
    assert_eq!(resolve(Some(0)), Transform::Identity);
    assert_eq!(resolve(Some(9)), Transform::Identity);
}

#[test]
fn orientation_geometry_of_every_code() {
    let w = 3u32;
    let h = 2u32;
    let img = test_image(w, h);
    for code in 1u32..=8 {
        let t = resolve(Some(code));
        let out = apply(t, &img);
        let (ow, oh) = if code >= 5 { (h, w) } else { (w, h) };
        assert_eq!((out.width, out.height), (ow, oh), "code {}", code);
        for y in 0..oh {
            for x in 0..ow {
                let (sx, sy) = match code {
                    1 => (x, y),
                    2 => (w - 1 - x, y),
                    3 => (w - 1 - x, h - 1 - y),
                    4 => (x, h - 1 - y),
                    5 => (y, x),
                    6 => (y, h - 1 - x),
                    7 => (w - 1 - y, h - 1 - x),
                    _ => (w - 1 - y, x),
                };
                assert_eq!(px(&out, x, y), px(&img, sx, sy), "code {} at ({},{})", code, x, y);
            }
        }
    }
}

#[test]
fn rotate90_of_tall_image_is_clockwise() {
    // A 1x2 image: top pixel dark, bottom pixel bright. Rotating 90
    // clockwise puts the dark pixel on the right.
    let img = RasterImage { width: 1, height: 2, data: vec![10, 10, 10, 200, 200, 200] };
    let out = apply(Transform::Rotate90, &img);
    assert_eq!((out.width, out.height), (2, 1));
    assert_eq!(px(&out, 0, 0), (200, 200, 200));
    assert_eq!(px(&out, 1, 0), (10, 10, 10));
}

fn tiff_with_orientation(code: u16) -> Vec<u8> {
    let mut b = Vec::new();
    b.extend_from_slice(b"II");
    b.extend_from_slice(&42u16.to_le_bytes());
    b.extend_from_slice(&8u32.to_le_bytes());
    b.extend_from_slice(&1u16.to_le_bytes());
    b.extend_from_slice(&0x0112u16.to_le_bytes());
    b.extend_from_slice(&3u16.to_le_bytes());
    b.extend_from_slice(&1u32.to_le_bytes());
    b.extend_from_slice(&code.to_le_bytes());
    b.extend_from_slice(&0u16.to_le_bytes());
    b.extend_from_slice(&0u32.to_le_bytes());
    b
}

#[test]
fn exif_orientation_three_rotates_180() {
    let exif_bytes = tiff_with_orientation(3);
    let code = blickfang::exifdata::exif_orientation(&exif_bytes);
    assert_eq!(code, Some(3));
    let t = resolve(code);
    assert_eq!(t, Transform::Rotate180);
    let img = test_image(4, 6);
    let out = apply(t, &img);
    assert_eq!((out.width, out.height), (4, 6));
    assert_eq!(px(&out, 0, 0), px(&img, 3, 5));
}

#[test]
fn exif_orientation_absent_is_identity() {
    let code = blickfang::exifdata::exif_orientation(b"no exif in here");
    assert_eq!(code, None);
    assert_eq!(resolve(code), Transform::Identity);
}
