use blickfang::cells::{
    average_cell, brightness_to_char, default_tone, standard_parameters, CharacterRamp,
};
use blickfang::raster::{RasterImage, Rgb};
use blickfang::render::{blend_channel, render, GlyphRaster, GlyphSet};

fn solid_image(w: u32, h: u32, color: (u8, u8, u8)) -> RasterImage {
    let mut data = Vec::new();
    for _ in 0..(w * h) {
        data.push(color.0);
        data.push(color.1);
        data.push(color.2);
    }
    RasterImage { width: w, height: h, data }
}

fn ramp_of(chars: &str) -> CharacterRamp {
    CharacterRamp::new("test".to_owned(), "Test".to_owned(), chars.chars().collect())
}

#[test]
fn average_cell_solid_region_is_exact() {
    let img = solid_image(20, 20, (37, 120, 250));
    let avg = average_cell(&img, 0, 0, 10, 10);
    assert_eq!((avg.r, avg.g, avg.b), (37, 120, 250));
    let avg_edge = average_cell(&img, 1, 1, 10, 10);
    assert_eq!((avg_edge.r, avg_edge.g, avg_edge.b), (37, 120, 250));
}

#[test]
fn average_cell_outside_bounds_is_black_not_a_panic() {
    let img = solid_image(5, 5, (200, 200, 200));
    let avg = average_cell(&img, 7, 7, 10, 10);
    assert_eq!((avg.r, avg.g, avg.b), (0, 0, 0));
}

#[test]
fn average_cell_partial_coverage_averages_only_source_pixels() {
    // 3x1 image, cell width 10 covers all three pixels: exact mean.
    let img = RasterImage { width: 3, height: 1, data: vec![0, 0, 0, 30, 30, 30, 60, 60, 60] };
    let avg = average_cell(&img, 0, 0, 10, 10);
    assert_eq!((avg.r, avg.g, avg.b), (30, 30, 30));
}

#[test]
fn brightness_endpoints_select_first_and_last() {
    let ramp = ramp_of("@#W$ ");
    assert_eq!(brightness_to_char(0, &ramp), '@');
    assert_eq!(brightness_to_char(255, &ramp), ' ');
}

#[test]
fn brightness_is_monotonic_over_all_lumas() {
    let ramp = ramp_of("@:. ");
    let order: Vec<char> = "@:. ".chars().collect();
    let mut last_idx = 0usize;
    for luma in 0u16..=255 {
        let c = brightness_to_char(luma as u8, &ramp);
        let idx = order.iter().position(|&x| x == c).unwrap();
        assert!(idx >= last_idx, "luma {} went backwards", luma);
        last_idx = idx;
    }
    assert_eq!(last_idx, order.len() - 1);
}

#[test]
fn brightness_empty_ramp_falls_back_to_space() {
    let ramp = ramp_of("");
    for luma in [0u8, 1, 127, 254, 255] {
        assert_eq!(brightness_to_char(luma, &ramp), ' ');
    }
}

#[test]
fn default_tone_matches_gamma_curve() {
    let tone = default_tone();
    assert_eq!(tone.len(), 256);
    assert_eq!(tone[0], 0);
    assert_eq!(tone[255], 255);
    for j in 0..256usize {
        let expected = (255.0f64 * (j as f64 / 255.0).powf(0.6)).round() as u8;
        assert_eq!(tone[j], expected, "tone entry {}", j);
    }
    for j in 1..256usize {
        assert!(tone[j] >= tone[j - 1]);
    }
}

#[test]
fn blend_channel_formula() {
    assert_eq!(blend_channel(255, 0, 255), 255);
    assert_eq!(blend_channel(255, 0, 0), 0);
    assert_eq!(blend_channel(0, 255, 0), 255);
    assert_eq!(blend_channel(200, 100, 128) as u32, (200u32 * 128 + 100 * 127) / 255);
    assert_eq!(blend_channel(10, 10, 77), 10);
}

fn box_glyph(c: char, w: u32, h: u32, cov: u8) -> (char, GlyphRaster) {
    (
        c,
        GlyphRaster {
            min_x: 1,
            min_y: 2,
            width: w,
            height: h,
            coverage: vec![cov; (w * h) as usize],
        },
    )
}

#[test]
fn render_black_image_on_black_background_is_uniformly_black() {
    let img = solid_image(100, 100, (0, 0, 0));
    let ramp = ramp_of("@ ");
    let params = standard_parameters();
    let glyphs = GlyphSet { entries: vec![box_glyph('@', 6, 12, 255), box_glyph(' ', 6, 12, 0)] };
    let out = render(&img, &ramp, &params, &glyphs);
    assert_eq!(out.width, 100);
    assert_eq!(out.height, 5 * 18 + 18);
    assert!(out.data.iter().all(|&b| b == 0));
}

#[test]
fn render_empty_ramp_uses_space_fallback_without_panic() {
    let img = solid_image(30, 30, (255, 255, 255));
    let ramp = ramp_of("");
    let params = standard_parameters();
    // The set has no glyph stored for the space fallback: every cell paints
    // nothing and the canvas stays the background.
    let glyphs = GlyphSet { entries: vec![box_glyph('@', 4, 4, 255)] };
    let out = render(&img, &ramp, &params, &glyphs);
    assert!(out.data.iter().all(|&b| b == 0));
}

#[test]
fn render_paints_foreground_through_full_coverage() {
    // A white 10x18 image is one cell; a fully-covered 1x1 glyph stored for
    // the brightest ramp character paints one pixel in pure foreground.
    let img = solid_image(10, 18, (255, 255, 255));
    let ramp = ramp_of(" X");
    let mut params = standard_parameters();
    params.bg = Rgb { r: 0, g: 0, b: 50 };
    let glyphs = GlyphSet {
        entries: vec![(
            'X',
            GlyphRaster { min_x: 0, min_y: 0, width: 1, height: 1, coverage: vec![255] },
        )],
    };
    let out = render(&img, &ramp, &params, &glyphs);
    assert_eq!((out.width, out.height), (10, 36));
    // Painted pixel at the cell origin.
    assert_eq!(out.get_pixel(0, 0), (255, 255, 255));
    // An untouched pixel keeps the background.
    assert_eq!(out.get_pixel(5, 5), (0, 0, 50));
}

#[test]
fn render_clips_glyphs_that_overhang_the_canvas() {
    let img = solid_image(10, 18, (255, 255, 255));
    let ramp = ramp_of(" X");
    let params = standard_parameters();
    let glyphs = GlyphSet {
        entries: vec![(
            'X',
            GlyphRaster { min_x: -5, min_y: -5, width: 30, height: 60, coverage: vec![255; 1800] },
        )],
    };
    let out = render(&img, &ramp, &params, &glyphs);
    assert_eq!((out.width, out.height), (10, 36));
    assert_eq!(out.get_pixel(0, 0), (255, 255, 255));
    assert_eq!(out.get_pixel(9, 35), (255, 255, 255));
}

#[test]
fn standard_parameters_documented_defaults() {
    let p = standard_parameters();
    assert_eq!(p.cell_w, 10);
    assert_eq!(p.cell_h, 18);
    assert_eq!((p.bg.r, p.bg.g, p.bg.b), (0, 0, 0));
    assert_eq!(p.tone.len(), 256);
}
