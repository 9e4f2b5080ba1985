//! The character-art renderer: lays a cell grid over the source image,
//! picks a ramp glyph per cell from its average color, and composites the
//! glyph coverage masks onto a background canvas with integer alpha
//! blending. Every pixel of the result is pinned by the painting model.

use vstd::prelude::*;

use crate::cells::{
    average_cell, brightness_to_char, perceptual_luminance, spec_cell_avg, spec_luminance,
    spec_ramp_index, CharacterRamp, RenderParameters,
};
use crate::raster::{RasterImage, Rgb};
use vstd::arithmetic::div_mod::{lemma_div_is_ordered, lemma_fundamental_div_mod};
use vstd::pervasive::VecAdditionalExecFns;

verus! {

/// One rasterized glyph: its coverage mask and the placement of that mask
/// relative to the cell origin (the font ascent is already folded in).
pub struct GlyphRaster {
    pub min_x: i32,
    pub min_y: i32,
    pub width: u32,
    pub height: u32,
    pub coverage: Vec<u8>,
}

impl GlyphRaster {
    /// One coverage byte per mask pixel.
    pub open spec fn wf(self) -> bool {
        self.coverage@.len() == (self.width as int) * (self.height as int)
    }
}

/// The rasterized glyphs a render run draws from, keyed by character.
pub struct GlyphSet {
    pub entries: Vec<(char, GlyphRaster)>,
}

/// The first glyph stored under a character, if any.
pub open spec fn spec_lookup(s: Seq<(char, GlyphRaster)>, c: char) -> Option<GlyphRaster>
    decreases s.len(),
{
    if s.len() == 0 {
        None
    } else if s[0].0 == c {
        Some(s[0].1)
    } else {
        spec_lookup(s.drop_first(), c)
    }
}

impl GlyphSet {
    /// Every stored glyph is well formed.
    pub open spec fn wf(self) -> bool {
        forall|i: int|
            0 <= i < self.entries@.len() ==> (#[trigger] self.entries@[i]).1.wf()
    }

    /// Finds the glyph stored under a character.
    pub fn lookup(&self, c: char) -> (r: Option<&GlyphRaster>)
        ensures
            r matches Some(g) ==> spec_lookup(self.entries@, c) == Some(*g),
            r is None ==> spec_lookup(self.entries@, c) is None,
    {
        let n = self.entries.len();
        let mut i: usize = 0;
        proof {
            assert(self.entries@.skip(0) =~= self.entries@);
        }
        while i < n
            invariant
                n == self.entries@.len(),
                i <= n,
                spec_lookup(self.entries@.skip(i as int), c) == spec_lookup(self.entries@, c),
            decreases n - i,
        {
            proof {
                assert(self.entries@.skip(i as int)[0] == self.entries@[i as int]);
                assert(self.entries@.skip(i as int).drop_first() =~= self.entries@.skip(i + 1));
            }
            if self.entries[i].0 == c {
                return Some(&self.entries[i].1);
            }
            i = i + 1;
        }
        proof {
            assert(self.entries@.skip(n as int) =~= Seq::<(char, GlyphRaster)>::empty());
        }
        None
    }
}

/// Linear alpha blending of one channel, over integers: the coverage byte is
/// the alpha, 255 meaning fully the foreground.
pub open spec fn spec_blend(fg: int, bg: int, a: int) -> int {
    (fg * a + bg * (255 - a)) / 255
}

/// Blends one channel.
pub fn blend_channel(fg: u8, bg: u8, a: u8) -> (r: u8)
    ensures
        r == spec_blend(fg as int, bg as int, a as int),
{
    proof {
        assert((fg as int) * (a as int) + (bg as int) * (255 - (a as int)) <= 65025 && (fg as int)
            * (a as int) >= 0 && (bg as int) * (255 - (a as int)) >= 0) by (nonlinear_arith)
            requires
                fg <= 255,
                bg <= 255,
                a <= 255,
        ;
    }
    let num: u32 = (fg as u32) * (a as u32) + (bg as u32) * (255 - (a as u32));
    proof {
        lemma_div_is_ordered(num as int, 65025int, 255);
        assert(num as int / 255 >= 0) by (nonlinear_arith)
            requires
                num >= 0,
        ;
    }
    (num / 255) as u8
}

/// The number of cells along one axis: the image extent over the cell
/// extent, truncated, but at least one.
pub open spec fn spec_grid_count(w: int, cw: int) -> int {
    if w / cw >= 1 {
        w / cw
    } else {
        1
    }
}

/// The canvas width in pixels.
pub open spec fn spec_canvas_w(w: int, cw: int) -> int {
    spec_grid_count(w, cw) * cw
}

/// The canvas height in pixels: one extra cell row of headroom.
pub open spec fn spec_canvas_h(h: int, ch: int) -> int {
    (spec_grid_count(h, ch) + 1) * ch
}

/// The background byte at canvas byte offset `i`.
pub open spec fn spec_bg_byte(bg: Rgb, i: int) -> u8 {
    if i % 3 == 0 {
        bg.r
    } else if i % 3 == 1 {
        bg.g
    } else {
        bg.b
    }
}

/// The canvas before any glyph is painted: every pixel the background.
pub open spec fn spec_bg_canvas(len: nat, bg: Rgb) -> Seq<u8> {
    Seq::new(len, |i: int| spec_bg_byte(bg, i))
}

/// The averaged foreground color of cell (cx, cy), over the flat pixel
/// buffer of a `w` by `h` image.
pub open spec fn spec_cell_fg(
    data: Seq<u8>,
    w: int,
    h: int,
    cx: int,
    cy: int,
    cw: int,
    ch: int,
) -> Rgb {
    Rgb {
        r: spec_cell_avg(data, w, h, cx, cy, cw, ch, 0) as u8,
        g: spec_cell_avg(data, w, h, cx, cy, cw, ch, 1) as u8,
        b: spec_cell_avg(data, w, h, cx, cy, cw, ch, 2) as u8,
    }
}

/// The ramp character selected for a foreground color: tone-curved
/// luminance mapped to a ramp index, space for an empty ramp.
pub open spec fn spec_cell_char(fg: Rgb, ramp: CharacterRamp, params: RenderParameters) -> char {
    let lum = spec_luminance(fg.r as int, fg.g as int, fg.b as int);
    let toned = params.tone@[lum];
    let n = ramp.chars@.len() as int;
    if n == 0 {
        ' '
    } else {
        ramp.chars@[spec_ramp_index(toned as int, n)]
    }
}

/// The canvas after the first `j` mask pixels of one glyph are painted at
/// cell origin (ox, oy): each in-bounds mask pixel overwrites its canvas
/// pixel with the foreground blended against the background under the mask's
/// coverage; the last writer wins.
pub open spec fn spec_paint_glyph(
    canvas: Seq<u8>,
    cwt: int,
    cht: int,
    ox: int,
    oy: int,
    g: GlyphRaster,
    fg: Rgb,
    bg: Rgb,
    j: int,
) -> Seq<u8>
    decreases j,
{
    if j <= 0 {
        canvas
    } else {
        let prev = spec_paint_glyph(canvas, cwt, cht, ox, oy, g, fg, bg, j - 1);
        let gx = (j - 1) % (g.width as int);
        let gy = (j - 1) / (g.width as int);
        let px = ox + g.min_x + gx;
        let py = oy + g.min_y + gy;
        if 0 <= px < cwt && 0 <= py < cht {
            let base = 3 * (py * cwt + px);
            let a = g.coverage@[j - 1] as int;
            prev.update(base, spec_blend(fg.r as int, bg.r as int, a) as u8).update(
                base + 1,
                spec_blend(fg.g as int, bg.g as int, a) as u8,
            ).update(base + 2, spec_blend(fg.b as int, bg.b as int, a) as u8)
        } else {
            prev
        }
    }
}

/// The canvas after one whole cell is painted: the cell's glyph mask, fully
/// applied, or the canvas unchanged when the glyph set has no entry for the
/// cell's character.
pub open spec fn spec_paint_cell(
    canvas: Seq<u8>,
    cwt: int,
    cht: int,
    data: Seq<u8>,
    w: int,
    h: int,
    ramp: CharacterRamp,
    params: RenderParameters,
    glyphs: GlyphSet,
    cx: int,
    cy: int,
) -> Seq<u8> {
    let fg = spec_cell_fg(data, w, h, cx, cy, params.cell_w as int, params.cell_h as int);
    let c = spec_cell_char(fg, ramp, params);
    match spec_lookup(glyphs.entries@, c) {
        Some(g) => spec_paint_glyph(
            canvas,
            cwt,
            cht,
            cx * params.cell_w as int,
            cy * params.cell_h as int,
            g,
            fg,
            params.bg,
            (g.width as int) * (g.height as int),
        ),
        None => canvas,
    }
}

/// The canvas after the first `k` cells are painted, in row-major cell
/// order.
pub open spec fn spec_paint_cells(
    canvas: Seq<u8>,
    cwt: int,
    cht: int,
    data: Seq<u8>,
    w: int,
    h: int,
    ramp: CharacterRamp,
    params: RenderParameters,
    glyphs: GlyphSet,
    cols: int,
    k: int,
) -> Seq<u8>
    decreases k,
{
    if k <= 0 {
        canvas
    } else {
        spec_paint_cell(
            spec_paint_cells(canvas, cwt, cht, data, w, h, ramp, params, glyphs, cols, k - 1),
            cwt,
            cht,
            data,
            w,
            h,
            ramp,
            params,
            glyphs,
            (k - 1) % cols,
            (k - 1) / cols,
        )
    }
}

/// The whole rendered canvas of a `w` by `h` source image held as a flat
/// pixel buffer: every cell painted over the background.
pub open spec fn spec_render(
    data: Seq<u8>,
    w: int,
    h: int,
    ramp: CharacterRamp,
    params: RenderParameters,
    glyphs: GlyphSet,
) -> Seq<u8> {
    let cols = spec_grid_count(w, params.cell_w as int);
    let rows = spec_grid_count(h, params.cell_h as int);
    let cwt = spec_canvas_w(w, params.cell_w as int);
    let cht = spec_canvas_h(h, params.cell_h as int);
    spec_paint_cells(
        spec_bg_canvas((3 * (cwt * cht)) as nat, params.bg),
        cwt,
        cht,
        data,
        w,
        h,
        ramp,
        params,
        glyphs,
        cols,
        cols * rows,
    )
}

/// Paints one glyph onto the canvas raster.
fn paint_glyph(
    canvas: &mut RasterImage,
    ox: u32,
    oy: u32,
    g: &GlyphRaster,
    fg: Rgb,
    bg: Rgb,
)
    requires
        old(canvas).wf(),
        g.wf(),
    ensures
        final (canvas).wf(),
        final (canvas).width == old(canvas).width,
        final (canvas).height == old(canvas).height,
        final (canvas).data@ == spec_paint_glyph(
            old(canvas).data@,
            old(canvas).width as int,
            old(canvas).height as int,
            ox as int,
            oy as int,
            *g,
            fg,
            bg,
            (g.width as int) * (g.height as int),
        ),
{
    let cwt = canvas.width;
    let cht = canvas.height;
    let total = g.coverage.len();
    proof {
        assert(total == (g.width as int) * (g.height as int));
    }
    if g.width == 0 {
        proof {
            assert(total == 0) by (nonlinear_arith)
                requires
                    total == (g.width as int) * (g.height as int),
                    g.width == 0,
            ;
        }
        return ;
    }
    let mut j: usize = 0;
    while j < total
        invariant
            canvas.wf(),
            canvas.width == old(canvas).width,
            canvas.height == old(canvas).height,
            cwt == canvas.width,
            cht == canvas.height,
            g.wf(),
            g.width > 0,
            total == (g.width as int) * (g.height as int),
            j <= total,
            canvas.data@ == spec_paint_glyph(
                old(canvas).data@,
                cwt as int,
                cht as int,
                ox as int,
                oy as int,
                *g,
                fg,
                bg,
                j as int,
            ),
        decreases total - j,
    {
        let gx: usize = j % (g.width as usize);
        let gy: usize = j / (g.width as usize);
        proof {
            lemma_fundamental_div_mod(j as int, g.width as int);
            assert(gy < g.height) by (nonlinear_arith)
                requires
                    gy == (j as int) / (g.width as int),
                    j < (g.width as int) * (g.height as int),
                    g.width > 0,
                    (g.width as int) * gy + gx == j,
                    0 <= gx < g.width,
            ;
        }
        let px: i64 = (ox as i64) + (g.min_x as i64) + (gx as i64);
        let py: i64 = (oy as i64) + (g.min_y as i64) + (gy as i64);
        let a = g.coverage[j];
        if px >= 0 && py >= 0 && (px as u64) < (cwt as u64) && (py as u64) < (cht as u64) {
            let dlen = canvas.data.len();
            proof {
                canvas.lemma_index_in_bounds(px as int, py as int);
                assert(3 * ((py as int) * (cwt as int) + (px as int)) + 2 < dlen as int);
            }
            let base: usize = 3 * ((py as usize) * (cwt as usize) + (px as usize));
            canvas.data.set(base, blend_channel(fg.r, bg.r, a));
            canvas.data.set(base + 1, blend_channel(fg.g, bg.g, a));
            canvas.data.set(base + 2, blend_channel(fg.b, bg.b, a));
            proof {
                assert(canvas.data@ =~= spec_paint_glyph(
                    old(canvas).data@,
                    cwt as int,
                    cht as int,
                    ox as int,
                    oy as int,
                    *g,
                    fg,
                    bg,
                    j + 1,
                ));
            }
        } else {
            proof {
                assert(canvas.data@ =~= spec_paint_glyph(
                    old(canvas).data@,
                    cwt as int,
                    cht as int,
                    ox as int,
                    oy as int,
                    *g,
                    fg,
                    bg,
                    j + 1,
                ));
            }
        }
        j = j + 1;
    }
}

/// Renders the image to a character-art raster: a canvas of
/// `cols*cell_w` by `rows*cell_h + cell_h` pixels (one extra row of
/// headroom), filled with the background and painted cell by cell in
/// row-major order. Deterministic, a pure function of its inputs.
pub fn render(
    img: &RasterImage,
    ramp: &CharacterRamp,
    params: &RenderParameters,
    glyphs: &GlyphSet,
) -> (out: RasterImage)
    requires
        img.wf(),
        params.wf(),
        glyphs.wf(),
        spec_canvas_h(img.height as int, params.cell_h as int) <= u32::MAX,
        3 * (spec_canvas_w(img.width as int, params.cell_w as int) * spec_canvas_h(
            img.height as int,
            params.cell_h as int,
        )) <= usize::MAX,
    ensures
        out.wf(),
        out.width == spec_canvas_w(img.width as int, params.cell_w as int),
        out.height == spec_canvas_h(img.height as int, params.cell_h as int),
        out.data@ == spec_render(
            img.data@,
            img.width as int,
            img.height as int,
            *ramp,
            *params,
            *glyphs,
        ),
{
    let cw = params.cell_w;
    let ch = params.cell_h;
    let cols: u32 = if img.width / cw >= 1 {
        img.width / cw
    } else {
        1
    };
    let rows: u32 = if img.height / ch >= 1 {
        img.height / ch
    } else {
        1
    };
    proof {
        assert(cols == spec_grid_count(img.width as int, cw as int));
        assert(rows == spec_grid_count(img.height as int, ch as int));
        let wi = img.width as int;
        let cwi = cw as int;
        let q = wi / cwi;
        lemma_fundamental_div_mod(wi, cwi);
        assert(q * cwi <= wi) by (nonlinear_arith)
            requires
                wi == cwi * q + wi % cwi,
                wi % cwi >= 0,
        ;
        if q >= 1 {
            assert((cols as int) * (cw as int) == q * cwi);
        } else {
            assert((cols as int) * (cw as int) == cwi) by (nonlinear_arith)
                requires
                    cols == 1,
                    cwi == cw as int,
            ;
        }
        assert((cols as int) * (cw as int) <= u32::MAX);
        assert((rows as int + 1) * (ch as int) == spec_canvas_h(img.height as int, ch as int));
        assert(rows as int + 1 <= (rows as int + 1) * (ch as int)) by (nonlinear_arith)
            requires
                ch >= 1,
                rows >= 0,
        ;
    }
    let cwt: u32 = cols * cw;
    let cht: u32 = (rows + 1) * ch;
    let mut canvas = RasterImage::new_filled(cwt, cht, params.bg);
    let ghost c0 = spec_bg_canvas((3 * ((cwt as int) * (cht as int))) as nat, params.bg);
    proof {
        lemma_filled_is_bg_canvas(canvas, params.bg);
        assert(canvas.data@ == c0);
    }
    proof {
        assert((cols as int) * (rows as int) < 0x10000000000000000) by (nonlinear_arith)
            requires
                cols <= 0xffffffffu32,
                rows <= 0xffffffffu32,
        ;
    }
    let total: u64 = (cols as u64) * (rows as u64);
    let mut k: u64 = 0;
    while k < total
        invariant
            img.wf(),
            params.wf(),
            glyphs.wf(),
            cw == params.cell_w,
            ch == params.cell_h,
            cw > 0,
            ch > 0,
            cols == spec_grid_count(img.width as int, cw as int),
            rows == spec_grid_count(img.height as int, ch as int),
            cwt == cols * cw,
            cht == (rows as int + 1) * (ch as int),
            total == (cols as int) * (rows as int),
            k <= total,
            canvas.wf(),
            canvas.width == cwt,
            canvas.height == cht,
            c0 == spec_bg_canvas((3 * ((cwt as int) * (cht as int))) as nat, params.bg),
            canvas.data@ == spec_paint_cells(
                c0,
                cwt as int,
                cht as int,
                img.data@,
                img.width as int,
                img.height as int,
                *ramp,
                *params,
                *glyphs,
                cols as int,
                k as int,
            ),
        decreases total - k,
    {
        let cx: u64 = k % (cols as u64);
        let cy: u64 = k / (cols as u64);
        proof {
            lemma_fundamental_div_mod(k as int, cols as int);
            assert(cy < rows) by (nonlinear_arith)
                requires
                    cy == (k as int) / (cols as int),
                    k < (cols as int) * (rows as int),
                    cols > 0,
                    (cols as int) * cy + cx == k,
                    0 <= cx < cols,
            ;
        }
        let fg = average_cell(img, cx as u32, cy as u32, cw, ch);
        let lum = perceptual_luminance(fg, params);
        let c = brightness_to_char(lum, ramp);
        let ghost sfg = spec_cell_fg(
            img.data@,
            img.width as int,
            img.height as int,
            cx as int,
            cy as int,
            cw as int,
            ch as int,
        );
        proof {
            assert(fg == sfg);
            assert(c == spec_cell_char(sfg, *ramp, *params));
        }
        proof {
            assert((cx as int) * (cw as int) < (cols as int) * (cw as int) && (cy as int) * (
            ch as int) < (rows as int) * (ch as int)) by (nonlinear_arith)
                requires
                    0 <= cx < cols,
                    0 <= cy < rows,
                    cw > 0,
                    ch > 0,
            ;
            assert((rows as int) * (ch as int) <= (rows as int + 1) * (ch as int))
                by (nonlinear_arith)
                requires
                    ch >= 0,
                    rows >= 0,
            ;
        }
        let ox: u32 = (cx as u32) * cw;
        let oy: u32 = (cy as u32) * ch;
        match glyphs.lookup(c) {
            Some(g) => {
                proof {
                    lemma_lookup_wf(*glyphs, c);
                }
                paint_glyph(&mut canvas, ox, oy, g, fg, params.bg);
            },
            None => {
            },
        }
        k = k + 1;
    }
    proof {
        assert(canvas.data@ == spec_render(
            img.data@,
            img.width as int,
            img.height as int,
            *ramp,
            *params,
            *glyphs,
        ));
    }
    canvas
}

/// A glyph found in a well-formed set is well formed.
proof fn lemma_lookup_wf(glyphs: GlyphSet, c: char)
    requires
        glyphs.wf(),
    ensures
        spec_lookup(glyphs.entries@, c) matches Some(g) ==> g.wf(),
{
    lemma_lookup_wf_seq(glyphs.entries@, c);
}

/// Helper: lookup only ever returns a stored glyph.
proof fn lemma_lookup_wf_seq(s: Seq<(char, GlyphRaster)>, c: char)
    requires
        forall|i: int| 0 <= i < s.len() ==> (#[trigger] s[i]).1.wf(),
    ensures
        spec_lookup(s, c) matches Some(g) ==> g.wf(),
    decreases s.len(),
{
    if s.len() > 0 && s[0].0 != c {
        assert forall|i: int| 0 <= i < s.drop_first().len() implies (#[trigger] s.drop_first()[i]).1.wf() by {
            assert(s.drop_first()[i] == s[i + 1]);
        }
        lemma_lookup_wf_seq(s.drop_first(), c);
    }
}

/// A freshly filled raster is exactly the background canvas sequence.
proof fn lemma_filled_is_bg_canvas(canvas: RasterImage, bg: Rgb)
    requires
        canvas.wf(),
        forall|x: int, y: int|
            0 <= x < canvas.width && 0 <= y < canvas.height ==> #[trigger] canvas.spec_pixel(x, y)
                == (bg.r, bg.g, bg.b),
    ensures
        canvas.data@ == spec_bg_canvas(canvas.data@.len(), bg),
{
    let w = canvas.width as int;
    let h = canvas.height as int;
    assert forall|i: int| 0 <= i < canvas.data@.len() implies canvas.data@[i] == spec_bg_byte(
        bg,
        i,
    ) by {
        let t = i / 3;
        let c = i % 3;
        lemma_fundamental_div_mod(i, 3);
        assert(0 <= t < w * h) by (nonlinear_arith)
            requires
                3 * t + c == i,
                0 <= c < 3,
                0 <= i < 3 * (w * h),
        ;
        let y = t / w;
        let x = t % w;
        if w > 0 {
            lemma_fundamental_div_mod(t, w);
            assert(0 <= y < h && 0 <= x < w) by (nonlinear_arith)
                requires
                    y == t / w,
                    x == t % w,
                    y * w + x == t,
                    0 <= x < w,
                    0 <= t < w * h,
                    w > 0,
            ;
            assert(canvas.spec_pixel(x, y) == (bg.r, bg.g, bg.b));
            assert(canvas.spec_index(x, y) == 3 * t);
            if c == 0 {
                assert(canvas.data@[i] == bg.r);
            } else if c == 1 {
                assert(canvas.data@[i] == bg.g);
            } else {
                assert(canvas.data@[i] == bg.b);
            }
        } else {
            assert(w * h == 0) by (nonlinear_arith)
                requires
                    w == 0,
                    h >= 0,
            ;
            assert(false);
        }
    }
    assert(canvas.data@ =~= spec_bg_canvas(canvas.data@.len(), bg));
}


/// All-zero is preserved by painting one glyph with black foreground and
/// black background: every write blends black over black.
proof fn lemma_paint_glyph_zero(
    canvas: Seq<u8>,
    cwt: int,
    cht: int,
    ox: int,
    oy: int,
    g: GlyphRaster,
    j: int,
)
    requires
        canvas.len() == 3 * (cwt * cht),
        forall|i: int| 0 <= i < canvas.len() ==> canvas[i] == 0,
    ensures
        ({
            let black = Rgb { r: 0, g: 0, b: 0 };
            let out = spec_paint_glyph(canvas, cwt, cht, ox, oy, g, black, black, j);
            out.len() == canvas.len() && forall|i: int| 0 <= i < out.len() ==> out[i] == 0
        }),
    decreases j,
{
    let black = Rgb { r: 0, g: 0, b: 0 };
    if j > 0 {
        lemma_paint_glyph_zero(canvas, cwt, cht, ox, oy, g, j - 1);
        let prev = spec_paint_glyph(canvas, cwt, cht, ox, oy, g, black, black, j - 1);
        let gx = (j - 1) % (g.width as int);
        let gy = (j - 1) / (g.width as int);
        let px = ox + g.min_x + gx;
        let py = oy + g.min_y + gy;
        if 0 <= px < cwt && 0 <= py < cht {
            let base = 3 * (py * cwt + px);
            let a = g.coverage@[j - 1] as int;
            assert(0 * a + 0 * (255 - a) == 0) by (nonlinear_arith);
            assert(spec_blend(0, 0, a) == 0);
            assert(py * cwt + px < cwt * cht) by (nonlinear_arith)
                requires
                    0 <= px < cwt,
                    0 <= py < cht,
            ;
            assert(0 <= base && base + 2 < canvas.len());
            assert(0 <= py * cwt + px) by (nonlinear_arith)
                requires
                    0 <= px,
                    0 <= py,
                    0 <= cwt,
            ;
        }
    }
}

/// The averaged color of any cell of an all-black image is black.
proof fn lemma_black_cell_fg(data: Seq<u8>, w: int, h: int, cx: int, cy: int, cw: int, ch: int)
    requires
        data.len() == 3 * (w * h),
        cw > 0,
        ch > 0,
        0 <= cx,
        0 <= cy,
        forall|i: int| 0 <= i < data.len() ==> data[i] == 0,
    ensures
        spec_cell_fg(data, w, h, cx, cy, cw, ch) == (Rgb { r: 0, g: 0, b: 0 }),
{
    let x0 = crate::cells::cell_x0(cx, cw);
    let y0 = crate::cells::cell_x0(cy, ch);
    let nx = crate::cells::cell_nx(cx, cw, w);
    let ny = crate::cells::cell_nx(cy, ch, h);
    assert forall|c: int| 0 <= c < 3 implies crate::cells::spec_cell_avg(
        data,
        w,
        h,
        cx,
        cy,
        cw,
        ch,
        c,
    ) == 0 by {
        assert forall|x: int, y: int|
            x0 <= x < x0 + nx && y0 <= y < y0 + ny implies data[#[trigger] crate::cells::flat_index(
            w,
            x,
            y,
        ) + c] == 0 by {
            if nx > 0 && ny > 0 {
                assert(0 <= x < w && 0 <= y < h) by (nonlinear_arith)
                    requires
                        x0 <= x < x0 + nx,
                        y0 <= y < y0 + ny,
                        x0 == cx * cw,
                        y0 == cy * ch,
                        0 <= cx,
                        0 <= cy,
                        cw > 0,
                        ch > 0,
                        nx == crate::cells::cell_nx(cx, cw, w),
                        ny == crate::cells::cell_nx(cy, ch, h),
                ;
                crate::cells::lemma_flat_index_in_bounds(data.len() as int, w, h, x, y);
            }
        }
        crate::cells::lemma_average_cell_solid(data, w, h, cx, cy, cw, ch, c, 0);
        if crate::cells::cell_count(w, h, cx, cy, cw, ch) > 0 {
        } else {
        }
    }
}

/// All-zero is preserved by painting the first `k` cells of an all-black
/// image over a black background.
proof fn lemma_paint_cells_zero(
    canvas: Seq<u8>,
    cwt: int,
    cht: int,
    data: Seq<u8>,
    w: int,
    h: int,
    ramp: CharacterRamp,
    params: RenderParameters,
    glyphs: GlyphSet,
    cols: int,
    k: int,
)
    requires
        data.len() == 3 * (w * h),
        params.wf(),
        params.bg == (Rgb { r: 0, g: 0, b: 0 }),
        cols > 0,
        canvas.len() == 3 * (cwt * cht),
        forall|i: int| 0 <= i < canvas.len() ==> canvas[i] == 0,
        forall|i: int| 0 <= i < data.len() ==> data[i] == 0,
    ensures
        ({
            let out = spec_paint_cells(canvas, cwt, cht, data, w, h, ramp, params, glyphs, cols, k);
            out.len() == canvas.len() && forall|i: int| 0 <= i < out.len() ==> out[i] == 0
        }),
    decreases k,
{
    if k > 0 {
        lemma_paint_cells_zero(canvas, cwt, cht, data, w, h, ramp, params, glyphs, cols, k - 1);
        let prev = spec_paint_cells(
            canvas,
            cwt,
            cht,
            data,
            w,
            h,
            ramp,
            params,
            glyphs,
            cols,
            k - 1,
        );
        let cx = (k - 1) % cols;
        let cy = (k - 1) / cols;
        vstd::arithmetic::div_mod::lemma_mod_bound(k - 1, cols);
        assert(cy >= 0) by (nonlinear_arith)
            requires
                cy == (k - 1) / cols,
                k - 1 >= 0,
                cols > 0,
        ;
        lemma_black_cell_fg(data, w, h, cx, cy, params.cell_w as int, params.cell_h as int);
        let fg = spec_cell_fg(data, w, h, cx, cy, params.cell_w as int, params.cell_h as int);
        let c = spec_cell_char(fg, ramp, params);
        match spec_lookup(glyphs.entries@, c) {
            Some(g) => {
                lemma_paint_glyph_zero(
                    prev,
                    cwt,
                    cht,
                    cx * params.cell_w as int,
                    cy * params.cell_h as int,
                    g,
                    (g.width as int) * (g.height as int),
                );
            },
            None => {},
        }
    }
}

/// The uniform-black render law: rendering an all-black image over a black
/// background yields an all-black canvas, whatever the ramp, tone curve and
/// glyph set — every painted pixel blends black against black.
pub proof fn lemma_render_black_uniform(
    data: Seq<u8>,
    w: int,
    h: int,
    ramp: CharacterRamp,
    params: RenderParameters,
    glyphs: GlyphSet,
)
    requires
        data.len() == 3 * (w * h),
        params.wf(),
        params.bg == (Rgb { r: 0, g: 0, b: 0 }),
        forall|i: int| 0 <= i < data.len() ==> data[i] == 0,
    ensures
        forall|i: int|
            0 <= i < spec_render(data, w, h, ramp, params, glyphs).len() ==> spec_render(
                data,
                w,
                h,
                ramp,
                params,
                glyphs,
            )[i] == 0,
{
    let cols = spec_grid_count(w, params.cell_w as int);
    let rows = spec_grid_count(h, params.cell_h as int);
    let cwt = spec_canvas_w(w, params.cell_w as int);
    let cht = spec_canvas_h(h, params.cell_h as int);
    let c0 = spec_bg_canvas((3 * (cwt * cht)) as nat, params.bg);
    assert(cwt * cht >= 0) by (nonlinear_arith)
        requires
            cwt >= 0,
            cht >= 0,
    ;
    assert(forall|i: int| 0 <= i < c0.len() ==> c0[i] == 0);
    lemma_paint_cells_zero(c0, cwt, cht, data, w, h, ramp, params, glyphs, cols, cols * rows);
}

} // verus!
