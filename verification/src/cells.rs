//! The renderer's cell arithmetic: per-cell color averaging, fixed-point
//! perceptual luminance with a tone curve, and the brightness-to-character
//! ramp mapping.

use vstd::prelude::*;

use crate::raster::{RasterImage, Rgb};
use vstd::arithmetic::div_mod::{lemma_div_is_ordered, lemma_fundamental_div_mod_converse};

verus! {

/// A character ramp: an identifier, a human label, and a non-empty ordered
/// run of glyph characters, index 0 darkest, last index brightest. (An empty
/// run is tolerated everywhere by falling back to a space.)
pub struct CharacterRamp {
    pub id: String,
    pub label: String,
    pub chars: Vec<char>,
}

impl CharacterRamp {
    /// A ramp from its parts.
    pub fn new(id: String, label: String, chars: Vec<char>) -> (r: CharacterRamp)
        ensures
            r.id == id,
            r.label == label,
            r.chars == chars,
    {
        CharacterRamp { id, label, chars }
    }
}

/// Render parameters: the pixel cell size, the tone curve (256 entries, the
/// sampled gamma function applied to linear luminance), and the background
/// color.
pub struct RenderParameters {
    pub cell_w: u32,
    pub cell_h: u32,
    pub tone: Vec<u8>,
    pub bg: Rgb,
}

impl RenderParameters {
    /// Cells are non-empty and the tone curve covers every 8-bit luminance.
    pub open spec fn wf(self) -> bool {
        self.cell_w > 0 && self.cell_h > 0 && self.tone@.len() == 256
    }
}

/// x to the fifth power.
pub open spec fn pow5(x: int) -> int {
    x * x * x * x * x
}

/// Whether `t` is the nearest integer to `255 * (j/255)^(3/5)` — the default
/// gamma curve with exponent 0.6 — stated exactly over integers: that real
/// value is the fifth root of `65025 * j^3`, so `t` rounds it correctly when
/// `32 * 65025 * j^3` sits between `(2t-1)^5` and `(2t+1)^5`.
pub open spec fn spec_tone_entry(j: int, t: int) -> bool {
    &&& 32 * (65025 * (j * j * j)) < pow5(2 * t + 1)
    &&& (t == 0 || pow5(2 * t - 1) <= 32 * (65025 * (j * j * j)))
}

/// The rounded fifth root: the nearest integer to the fifth root of `v`.
fn round_root5(v: u64) -> (r: u8)
    requires
        v <= 1078203909375,
    ensures
        32 * v < pow5(2 * (r as int) + 1),
        r > 0 ==> pow5(2 * (r as int) - 1) <= 32 * v,
{
    let target: u128 = 32 * (v as u128);
    let mut r: u64 = 0;
    loop
        invariant
            r <= 255,
            target == 32 * v,
            v <= 1078203909375,
            r > 0 ==> pow5(2 * (r as int) - 1) <= 32 * v,
        decreases 255 - r,
    {
        if r == 255 {
            proof {
                assert(32 * v < pow5(511int));
            }
            return 255;
        }
        let c: u128 = 2 * (r as u128) + 1;
        proof {
            assert(c <= 511);
            assert(c * c * c * c * c <= 511 * 511 * 511 * 511 * 511 && c * c <= 511 * 511 && c * c
                * c <= 511 * 511 * 511 && c * c * c * c <= 511 * 511 * 511 * 511)
                by (nonlinear_arith)
                requires
                    0 < c <= 511,
            ;
        }
        let p5 = c * c * c * c * c;
        proof {
            assert(p5 == pow5(2 * (r as int) + 1)) by (nonlinear_arith)
                requires
                    p5 == (c as int) * c * c * c * c,
                    c == 2 * (r as int) + 1,
            ;
        }
        if p5 > target {
            return r as u8;
        }
        r = r + 1;
    }
}

/// Builds the default tone curve: entry `j` is the nearest integer to
/// `255 * (j/255)^0.6`, the documented default gamma of 0.6.
pub fn default_tone() -> (v: Vec<u8>)
    ensures
        v@.len() == 256,
        forall|j: int| 0 <= j < 256 ==> spec_tone_entry(j, #[trigger] v@[j] as int),
{
    let mut v: Vec<u8> = Vec::new();
    let mut i: u64 = 0;
    while i < 256
        invariant
            i <= 256,
            v@.len() == i,
            forall|j: int| 0 <= j < i ==> spec_tone_entry(j, #[trigger] v@[j] as int),
        decreases 256 - i,
    {
        proof {
            assert((i as int) * (i as int) <= 65025 && (i as int) * (i as int) * (i as int)
                <= 16581375) by (nonlinear_arith)
                requires
                    i <= 255,
            ;
        }
        let cube = i * i * i;
        let scaled = 65025 * cube;
        let t = round_root5(scaled);
        v.push(t);
        i = i + 1;
    }
    v
}

/// The standard render parameters: 10 by 18 pixel cells, the default gamma
/// curve, black background.
pub fn standard_parameters() -> (p: RenderParameters)
    ensures
        p.wf(),
        p.cell_w == 10,
        p.cell_h == 18,
        p.bg == (Rgb { r: 0, g: 0, b: 0 }),
        forall|j: int| 0 <= j < 256 ==> spec_tone_entry(j, #[trigger] p.tone@[j] as int),
{
    RenderParameters { cell_w: 10, cell_h: 18, tone: default_tone(), bg: Rgb { r: 0, g: 0, b: 0 } }
}

/// The byte offset of pixel (x, y) in a flat RGB buffer `w` pixels wide.
pub open spec fn flat_index(w: int, x: int, y: int) -> int {
    3 * (y * w + x)
}

/// The flat pixel offset of (x, y) stays inside a buffer of 3 bytes per
/// pixel.
pub proof fn lemma_flat_index_in_bounds(len: int, w: int, h: int, x: int, y: int)
    requires
        len == 3 * (w * h),
        0 <= x < w,
        0 <= y < h,
    ensures
        0 <= y * w + x < w * h,
        0 <= flat_index(w, x, y),
        flat_index(w, x, y) + 2 < len,
{
    assert(0 <= y * w + x < w * h) by (nonlinear_arith)
        requires
            0 <= x < w,
            0 <= y < h,
    ;
}

/// The sum of channel `c` over the pixel run `[x0, x1)` of row `y`.
pub open spec fn row_sum(data: Seq<u8>, w: int, y: int, x0: int, x1: int, c: int) -> int
    decreases x1 - x0,
{
    if x1 <= x0 {
        0
    } else {
        row_sum(data, w, y, x0, x1 - 1, c) + data[flat_index(w, x1 - 1, y) + c]
    }
}

/// The sum of channel `c` over the pixel rectangle `[x0, x1) x [y0, y1)`.
pub open spec fn rect_sum(data: Seq<u8>, w: int, y0: int, y1: int, x0: int, x1: int, c: int) -> int
    decreases y1 - y0,
{
    if y1 <= y0 {
        0
    } else {
        rect_sum(data, w, y0, y1 - 1, x0, x1, c) + row_sum(data, w, y1 - 1, x0, x1, c)
    }
}

/// A row sum of in-bounds bytes lies between 0 and 255 per pixel.
pub proof fn lemma_row_sum_bounds(data: Seq<u8>, w: int, h: int, y: int, x0: int, x1: int, c: int)
    requires
        data.len() == 3 * (w * h),
        0 <= x0,
        x1 <= w,
        0 <= y < h,
        0 <= c < 3,
    ensures
        0 <= row_sum(data, w, y, x0, x1, c),
        row_sum(data, w, y, x0, x1, c) <= 255 * (if x1 >= x0 {
            x1 - x0
        } else {
            0
        }),
    decreases x1 - x0,
{
    if x1 > x0 {
        lemma_row_sum_bounds(data, w, h, y, x0, x1 - 1, c);
        lemma_flat_index_in_bounds(data.len() as int, w, h, x1 - 1, y);
    }
}

/// A rectangle sum lies between 0 and 255 per pixel.
pub proof fn lemma_rect_sum_bounds(
    data: Seq<u8>,
    w: int,
    h: int,
    y0: int,
    y1: int,
    x0: int,
    x1: int,
    c: int,
)
    requires
        data.len() == 3 * (w * h),
        0 <= x0,
        x1 <= w,
        0 <= y0,
        y1 <= h,
        0 <= c < 3,
    ensures
        0 <= rect_sum(data, w, y0, y1, x0, x1, c),
        rect_sum(data, w, y0, y1, x0, x1, c) <= 255 * ((if x1 >= x0 {
            x1 - x0
        } else {
            0
        }) * (if y1 >= y0 {
            y1 - y0
        } else {
            0
        })),
    decreases y1 - y0,
{
    let nx = if x1 >= x0 {
        x1 - x0
    } else {
        0
    };
    if y1 > y0 {
        lemma_rect_sum_bounds(data, w, h, y0, y1 - 1, x0, x1, c);
        lemma_row_sum_bounds(data, w, h, y1 - 1, x0, x1, c);
        assert(255 * (nx * (y1 - y0)) == 255 * (nx * (y1 - 1 - y0)) + 255 * nx)
            by (nonlinear_arith);
    } else {
        assert(255 * (nx * 0) == 0) by (nonlinear_arith);
    }
}

/// Over a region of constant channel value the row sum is exact.
pub proof fn lemma_row_sum_const(
    data: Seq<u8>,
    w: int,
    h: int,
    y: int,
    x0: int,
    x1: int,
    c: int,
    v: int,
)
    requires
        data.len() == 3 * (w * h),
        0 <= x0,
        x1 <= w,
        0 <= y < h,
        0 <= c < 3,
        forall|x: int| x0 <= x < x1 ==> data[#[trigger] flat_index(w, x, y) + c] == v,
    ensures
        x1 >= x0 ==> row_sum(data, w, y, x0, x1, c) == v * (x1 - x0),
    decreases x1 - x0,
{
    if x1 > x0 {
        lemma_row_sum_const(data, w, h, y, x0, x1 - 1, c, v);
        assert(v * (x1 - x0) == v * (x1 - 1 - x0) + v) by (nonlinear_arith);
    } else {
        assert(v * 0 == 0) by (nonlinear_arith);
    }
}

/// The averaging law over a solid region: summing a constant channel value
/// over the rectangle gives exactly `value * count`, so the integer average
/// over such a region is exactly that value.
pub proof fn lemma_rect_sum_const(
    data: Seq<u8>,
    w: int,
    h: int,
    y0: int,
    y1: int,
    x0: int,
    x1: int,
    c: int,
    v: int,
)
    requires
        data.len() == 3 * (w * h),
        0 <= x0,
        x1 <= w,
        0 <= y0,
        y1 <= h,
        0 <= c < 3,
        forall|x: int, y: int|
            x0 <= x < x1 && y0 <= y < y1 ==> data[#[trigger] flat_index(w, x, y) + c] == v,
    ensures
        x1 >= x0 && y1 >= y0 ==> rect_sum(data, w, y0, y1, x0, x1, c) == v * ((x1 - x0) * (y1
            - y0)),
    decreases y1 - y0,
{
    if y1 > y0 && x1 >= x0 {
        lemma_rect_sum_const(data, w, h, y0, y1 - 1, x0, x1, c, v);
        lemma_row_sum_const(data, w, h, y1 - 1, x0, x1, c, v);
        assert(v * ((x1 - x0) * (y1 - y0)) == v * ((x1 - x0) * (y1 - 1 - y0)) + v * (x1 - x0))
            by (nonlinear_arith);
    } else {
        assert(v * ((x1 - x0) * 0) == 0) by (nonlinear_arith);
    }
}

/// The left pixel edge of cell column `cx`.
pub open spec fn cell_x0(cx: int, cw: int) -> int {
    cx * cw
}

/// The clipped pixel width of cell column `cx` for an image `w` wide.
pub open spec fn cell_nx(cx: int, cw: int, w: int) -> int {
    if cell_x0(cx, cw) >= w {
        0
    } else if cell_x0(cx, cw) + cw <= w {
        cw
    } else {
        w - cell_x0(cx, cw)
    }
}

/// The number of source pixels the clipped cell covers, for an image of
/// `w` by `h` pixels.
pub open spec fn cell_count(w: int, h: int, cx: int, cy: int, cw: int, ch: int) -> int {
    cell_nx(cx, cw, w) * cell_nx(cy, ch, h)
}

/// The exact integer average of channel `c` over the clipped cell, 0 when
/// the cell covers no source pixel.
pub open spec fn spec_cell_avg(
    data: Seq<u8>,
    w: int,
    h: int,
    cx: int,
    cy: int,
    cw: int,
    ch: int,
    c: int,
) -> int {
    let x0 = cell_x0(cx, cw);
    let y0 = cell_x0(cy, ch);
    let nx = cell_nx(cx, cw, w);
    let ny = cell_nx(cy, ch, h);
    if nx * ny == 0 {
        0
    } else {
        rect_sum(data, w, y0, y0 + ny, x0, x0 + nx, c) / (nx * ny)
    }
}

/// Averages the RGB channels of every source pixel inside one cell, clipped
/// to the image bounds. A cell that covers no source pixel averages to
/// black — never a division by zero.
pub fn average_cell(img: &RasterImage, cx: u32, cy: u32, cw: u32, ch: u32) -> (r: Rgb)
    requires
        img.wf(),
        cw > 0,
        ch > 0,
    ensures
        r.r == spec_cell_avg(
            img.data@,
            img.width as int,
            img.height as int,
            cx as int,
            cy as int,
            cw as int,
            ch as int,
            0,
        ),
        r.g == spec_cell_avg(
            img.data@,
            img.width as int,
            img.height as int,
            cx as int,
            cy as int,
            cw as int,
            ch as int,
            1,
        ),
        r.b == spec_cell_avg(
            img.data@,
            img.width as int,
            img.height as int,
            cx as int,
            cy as int,
            cw as int,
            ch as int,
            2,
        ),
{
    let w = img.width;
    let h = img.height;
    proof {
        assert((cx as int) * (cw as int) < 0x10000000000000000 && (cy as int) * (ch as int)
            < 0x10000000000000000) by (nonlinear_arith)
            requires
                cx <= 0xffffffffu32,
                cw <= 0xffffffffu32,
                cy <= 0xffffffffu32,
                ch <= 0xffffffffu32,
        ;
    }
    let x0: u64 = (cx as u64) * (cw as u64);
    let y0: u64 = (cy as u64) * (ch as u64);
    let ghost gx0 = cell_x0(cx as int, cw as int);
    let ghost gy0 = cell_x0(cy as int, ch as int);
    let ghost nx = cell_nx(cx as int, cw as int, w as int);
    let ghost ny = cell_nx(cy as int, ch as int, h as int);
    if x0 >= w as u64 || y0 >= h as u64 {
        proof {
            assert(nx * ny == 0) by (nonlinear_arith)
                requires
                    nx == 0 || ny == 0,
            ;
        }
        return Rgb { r: 0, g: 0, b: 0 };
    }
    let nxe: u64 = if (w as u64) - x0 < cw as u64 {
        (w as u64) - x0
    } else {
        cw as u64
    };
    let nye: u64 = if (h as u64) - y0 < ch as u64 {
        (h as u64) - y0
    } else {
        ch as u64
    };
    proof {
        assert(nxe == nx && nye == ny);
        assert(nx * ny > 0) by (nonlinear_arith)
            requires
                nx > 0,
                ny > 0,
        ;
    }
    let mut sr: u128 = 0;
    let mut sg: u128 = 0;
    let mut sb: u128 = 0;
    let mut dy: u64 = 0;
    while dy < nye
        invariant
            img.wf(),
            w == img.width,
            h == img.height,
            gx0 == x0,
            gy0 == y0,
            nx == cell_nx(cx as int, cw as int, w as int),
            ny == cell_nx(cy as int, ch as int, h as int),
            nxe == nx,
            nye == ny,
            x0 + nxe <= w,
            y0 + nye <= h,
            0 < nxe,
            0 < nye,
            dy <= nye,
            sr == rect_sum(img.data@, w as int, gy0, gy0 + dy, gx0, gx0 + nx, 0),
            sg == rect_sum(img.data@, w as int, gy0, gy0 + dy, gx0, gx0 + nx, 1),
            sb == rect_sum(img.data@, w as int, gy0, gy0 + dy, gx0, gx0 + nx, 2),
        decreases nye - dy,
    {
        let y = y0 + dy;
        let ghost row_r = sr as int;
        let ghost row_g = sg as int;
        let ghost row_b = sb as int;
        proof {
            lemma_rect_sum_bounds(img.data@, w as int, h as int, gy0, gy0 + dy, gx0, gx0 + nx, 0);
            lemma_rect_sum_bounds(img.data@, w as int, h as int, gy0, gy0 + dy, gx0, gx0 + nx, 1);
            lemma_rect_sum_bounds(img.data@, w as int, h as int, gy0, gy0 + dy, gx0, gx0 + nx, 2);
            assert(255 * ((nx as int) * (dy as int)) + 255 * (nx as int)
                <= 0x100000000000000000000) by (nonlinear_arith)
                requires
                    0 <= nx <= 0xffffffff,
                    0 <= dy <= 0xffffffff,
            ;
        }
        let mut dx: u64 = 0;
        while dx < nxe
            invariant
                img.wf(),
                w == img.width,
                h == img.height,
                y == y0 + dy,
                gx0 == x0,
                gy0 == y0,
                x0 + nxe <= w,
                y0 + nye <= h,
                dy < nye,
                0 < nxe,
                nx == nxe,
                dx <= nxe,
                row_r + 255 * (nx as int) <= 0x100000000000000000000,
                row_g + 255 * (nx as int) <= 0x100000000000000000000,
                row_b + 255 * (nx as int) <= 0x100000000000000000000,
                sr == row_r + row_sum(img.data@, w as int, y as int, gx0, gx0 + dx, 0),
                sg == row_g + row_sum(img.data@, w as int, y as int, gx0, gx0 + dx, 1),
                sb == row_b + row_sum(img.data@, w as int, y as int, gx0, gx0 + dx, 2),
            decreases nxe - dx,
        {
            let x = x0 + dx;
            let p = img.get_pixel(x as u32, y as u32);
            proof {
                lemma_row_sum_bounds(img.data@, w as int, h as int, y as int, gx0, gx0 + dx, 0);
                lemma_row_sum_bounds(img.data@, w as int, h as int, y as int, gx0, gx0 + dx, 1);
                lemma_row_sum_bounds(img.data@, w as int, h as int, y as int, gx0, gx0 + dx, 2);
                assert(255 * (dx as int) <= 255 * (nx as int)) by (nonlinear_arith)
                    requires
                        0 <= dx <= nx,
                ;
            }
            sr = sr + (p.0 as u128);
            sg = sg + (p.1 as u128);
            sb = sb + (p.2 as u128);
            dx = dx + 1;
        }
        proof {
            assert(rect_sum(img.data@, w as int, gy0, gy0 + dy + 1, gx0, gx0 + nx, 0) == rect_sum(
                img.data@,
                w as int,
                gy0,
                gy0 + dy,
                gx0,
                gx0 + nx,
                0,
            ) + row_sum(img.data@, w as int, gy0 + dy, gx0, gx0 + nx, 0));
        }
        dy = dy + 1;
    }
    proof {
        assert((nxe as int) * (nye as int) < u128::MAX) by (nonlinear_arith)
            requires
                nxe <= 0xffffffffu64,
                nye <= 0xffffffffu64,
        ;
    }
    let count: u128 = (nxe as u128) * (nye as u128);
    proof {
        assert(count == nx * ny);
        lemma_rect_sum_bounds(img.data@, w as int, h as int, gy0, gy0 + ny, gx0, gx0 + nx, 0);
        lemma_rect_sum_bounds(img.data@, w as int, h as int, gy0, gy0 + ny, gx0, gx0 + nx, 1);
        lemma_rect_sum_bounds(img.data@, w as int, h as int, gy0, gy0 + ny, gx0, gx0 + nx, 2);
        lemma_avg_le_255(sr as int, count as int);
        lemma_avg_le_255(sg as int, count as int);
        lemma_avg_le_255(sb as int, count as int);
    }
    Rgb { r: (sr / count) as u8, g: (sg / count) as u8, b: (sb / count) as u8 }
}

/// An integer average of byte values stays a byte value.
proof fn lemma_avg_le_255(s: int, count: int)
    requires
        count > 0,
        0 <= s <= 255 * count,
    ensures
        0 <= s / count <= 255,
{
    lemma_div_is_ordered(s, 255 * count, count);
    assert((255 * count) / count == 255) by (nonlinear_arith)
        requires
            count > 0,
    ;
    assert(s / count >= 0) by (nonlinear_arith)
        requires
            s >= 0,
            count > 0,
    ;
}

/// Fixed-point linear luminance of an RGB sample: the weighted channel sum
/// `(2126 R + 7152 G + 722 B) / 10000`, truncated, always 0 to 255.
pub open spec fn spec_luminance(r: int, g: int, b: int) -> int {
    (2126 * r + 7152 * g + 722 * b) / 10000
}

/// Computes the fixed-point linear luminance of a sample.
pub fn luminance(p: Rgb) -> (l: u8)
    ensures
        l == spec_luminance(p.r as int, p.g as int, p.b as int),
{
    let num: u32 = 2126 * (p.r as u32) + 7152 * (p.g as u32) + 722 * (p.b as u32);
    proof {
        lemma_div_is_ordered(num as int, 2550000, 10000);
        assert(num as int / 10000 >= 0) by (nonlinear_arith)
            requires
                num >= 0,
        ;
    }
    (num / 10000) as u8
}

/// Perceptual luminance: the tone curve applied to linear luminance.
pub fn perceptual_luminance(p: Rgb, params: &RenderParameters) -> (l: u8)
    requires
        params.wf(),
    ensures
        l == params.tone@[spec_luminance(p.r as int, p.g as int, p.b as int)],
{
    let lin = luminance(p);
    params.tone[lin as usize]
}

/// The ramp index of a luminance value: `round(luma/255 * (n-1))`, written
/// over integers as `(2*luma*(n-1) + 255) / 510`.
pub open spec fn spec_ramp_index(luma: int, n: int) -> int {
    (2 * luma * (n - 1) + 255) / 510
}

/// The ramp index stays inside the ramp.
pub proof fn lemma_ramp_index_in_range(luma: int, n: int)
    requires
        0 <= luma <= 255,
        n >= 1,
    ensures
        0 <= spec_ramp_index(luma, n) < n,
{
    assert(2 * luma * (n - 1) + 255 <= 510 * (n - 1) + 255) by (nonlinear_arith)
        requires
            0 <= luma <= 255,
            n >= 1,
    ;
    lemma_div_is_ordered(0, 2 * luma * (n - 1) + 255, 510);
    lemma_div_is_ordered(2 * luma * (n - 1) + 255, 510 * (n - 1) + 255, 510);
    lemma_fundamental_div_mod_converse(510 * (n - 1) + 255, 510, n - 1, 255);
    assert(2 * luma * (n - 1) + 255 >= 0) by (nonlinear_arith)
        requires
            0 <= luma,
            n >= 1,
    ;
}

/// The brightness law: the ramp index is monotone in luminance, luminance 0
/// selects index 0, and luminance 255 selects the last index.
pub proof fn lemma_ramp_index_monotonic(l1: int, l2: int, n: int)
    requires
        0 <= l1 <= l2 <= 255,
        n >= 1,
    ensures
        spec_ramp_index(l1, n) <= spec_ramp_index(l2, n),
        spec_ramp_index(0, n) == 0,
        spec_ramp_index(255, n) == n - 1,
{
    assert(2 * l1 * (n - 1) <= 2 * l2 * (n - 1)) by (nonlinear_arith)
        requires
            0 <= l1 <= l2,
            n >= 1,
    ;
    lemma_div_is_ordered(2 * l1 * (n - 1) + 255, 2 * l2 * (n - 1) + 255, 510);
    lemma_fundamental_div_mod_converse(255, 510, 0, 255);
    assert(2 * 0 * (n - 1) + 255 == 255) by (nonlinear_arith);
    assert(2 * 255 * (n - 1) + 255 == 510 * (n - 1) + 255) by (nonlinear_arith);
    lemma_fundamental_div_mod_converse(510 * (n - 1) + 255, 510, n - 1, 255);
}

/// Maps a luminance value to a ramp character: index `round(luma/255*(n-1))`
/// of the ramp, or the space fallback for an empty ramp — never a panic.
pub fn brightness_to_char(luma: u8, ramp: &CharacterRamp) -> (c: char)
    ensures
        ramp.chars@.len() == 0 ==> c == ' ',
        ramp.chars@.len() > 0 ==> c == ramp.chars@[spec_ramp_index(
            luma as int,
            ramp.chars@.len() as int,
        )],
{
    let n = ramp.chars.len();
    if n == 0 {
        return ' ';
    }
    proof {
        lemma_ramp_index_in_range(luma as int, n as int);
    }
    let num: u128 = 2 * (luma as u128) * ((n - 1) as u128) + 255;
    proof {
        assert(num == 2 * (luma as int) * (n as int - 1) + 255) by (nonlinear_arith)
            requires
                num == 2 * (luma as int) * ((n - 1) as int) + 255,
                n >= 1,
        ;
    }
    let idx = (num / 510) as usize;
    ramp.chars[idx]
}


/// The solid-region averaging law: over a cell whose covered source pixels
/// all hold channel value `v`, the average is exactly `v`; a cell that
/// covers no source pixel averages to 0 rather than dividing by zero.
pub proof fn lemma_average_cell_solid(
    data: Seq<u8>,
    w: int,
    h: int,
    cx: int,
    cy: int,
    cw: int,
    ch: int,
    c: int,
    v: int,
)
    requires
        data.len() == 3 * (w * h),
        cw > 0,
        ch > 0,
        0 <= c < 3,
        0 <= v <= 255,
        forall|x: int, y: int|
            cell_x0(cx, cw) <= x < cell_x0(cx, cw) + cell_nx(cx, cw, w) && cell_x0(cy, ch) <= y
                < cell_x0(cy, ch) + cell_nx(cy, ch, h) ==> data[#[trigger] flat_index(w, x, y) + c]
                == v,
        0 <= cx,
        0 <= cy,
    ensures
        cell_count(w, h, cx, cy, cw, ch) > 0 ==> spec_cell_avg(data, w, h, cx, cy, cw, ch, c) == v,
        cell_count(w, h, cx, cy, cw, ch) == 0 ==> spec_cell_avg(data, w, h, cx, cy, cw, ch, c)
            == 0,
{
    let x0 = cell_x0(cx, cw);
    let y0 = cell_x0(cy, ch);
    let nx = cell_nx(cx, cw, w);
    let ny = cell_nx(cy, ch, h);
    if nx * ny > 0 {
        assert(nx > 0 && ny > 0) by (nonlinear_arith)
            requires
                nx * ny > 0,
                nx >= 0,
                ny >= 0,
        ;
        assert(x0 >= 0 && y0 >= 0) by (nonlinear_arith)
            requires
                x0 == cx * cw,
                y0 == cy * ch,
                cx >= 0,
                cy >= 0,
                cw > 0,
                ch > 0,
        ;
        lemma_rect_sum_const(data, w, h, y0, y0 + ny, x0, x0 + nx, c, v);
        assert(rect_sum(data, w, y0, y0 + ny, x0, x0 + nx, c) == v * (nx * ny));
        lemma_fundamental_div_mod_converse(v * (nx * ny), nx * ny, v, 0);
        assert(v * (nx * ny) == (nx * ny) * v + 0) by (nonlinear_arith);
    }
}

} // verus!
