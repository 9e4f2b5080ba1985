//! The end-to-end character-art pipeline: decode, orient per EXIF, render,
//! and wrap as a transport string.

use vstd::prelude::*;

use crate::cells::{CharacterRamp, RenderParameters};
use crate::encode::{
    decode_image_rgb, decoded_rgb_of, encode_image_to_base64, png_result_of, spec_transport_of,
};
use crate::exifdata::{exif_orientation, orientation_of};
use crate::raster::RasterImage;
use crate::render::{render, spec_canvas_h, spec_canvas_w, spec_render, GlyphSet};
use crate::transform::{apply, resolve, spec_resolve, Transform};
use vstd::arithmetic::div_mod::lemma_fundamental_div_mod;

verus! {

/// The byte buffer of a raster after a transform: output pixel (x, y) holds
/// the source pixel that the transform names.
pub open spec fn spec_apply_data(t: Transform, w: int, h: int, data: Seq<u8>) -> Seq<u8> {
    let ow = if t.swaps_dims() {
        h
    } else {
        w
    };
    let oh = if t.swaps_dims() {
        w
    } else {
        h
    };
    Seq::new(
        (3 * (ow * oh)) as nat,
        |i: int|
            {
                let c = i % 3;
                let x = (i / 3) % ow;
                let y = (i / 3) / ow;
                let s = t.spec_source(w, h, x, y);
                data[3 * (s.1 * w + s.0) + c]
            },
    )
}

/// The pixel-wise contract of `apply`, restated over the flat byte buffer.
proof fn lemma_apply_data(out: RasterImage, img: RasterImage, t: Transform)
    requires
        img.wf(),
        out.wf(),
        !t.swaps_dims() ==> out.width == img.width && out.height == img.height,
        t.swaps_dims() ==> out.width == img.height && out.height == img.width,
        forall|x: int, y: int|
            0 <= x < out.width && 0 <= y < out.height ==> #[trigger] out.spec_pixel(x, y)
                == img.spec_pixel(
                t.spec_source(img.width as int, img.height as int, x, y).0,
                t.spec_source(img.width as int, img.height as int, x, y).1,
            ),
    ensures
        out.data@ == spec_apply_data(t, img.width as int, img.height as int, img.data@),
{
    let w = img.width as int;
    let h = img.height as int;
    let ow = out.width as int;
    let oh = out.height as int;
    let target = spec_apply_data(t, w, h, img.data@);
    assert(out.data@.len() == target.len()) by (nonlinear_arith)
        requires
            out.data@.len() == 3 * (ow * oh),
            target.len() == 3 * ((if t.swaps_dims() {
                h
            } else {
                w
            }) * (if t.swaps_dims() {
                w
            } else {
                h
            })),
            t.swaps_dims() ==> ow == h && oh == w,
            !t.swaps_dims() ==> ow == w && oh == h,
    ;
    assert forall|i: int| 0 <= i < out.data@.len() implies out.data@[i] == target[i] by {
        let c = i % 3;
        let tp = i / 3;
        lemma_fundamental_div_mod(i, 3);
        assert(0 <= tp < ow * oh) by (nonlinear_arith)
            requires
                3 * tp + c == i,
                0 <= c < 3,
                0 <= i < 3 * (ow * oh),
        ;
        if ow > 0 {
            let x = tp % ow;
            let y = tp / ow;
            lemma_fundamental_div_mod(tp, ow);
            assert(0 <= x < ow && 0 <= y < oh) by (nonlinear_arith)
                requires
                    y * ow + x == tp,
                    0 <= x < ow,
                    0 <= tp < ow * oh,
                    ow > 0,
                    y == tp / ow,
            ;
            assert(out.spec_pixel(x, y) == img.spec_pixel(
                t.spec_source(w, h, x, y).0,
                t.spec_source(w, h, x, y).1,
            ));
            assert(out.spec_index(x, y) == 3 * tp);
            if c == 0 {
            } else if c == 1 {
            } else {
            }
        } else {
            assert(ow * oh == 0) by (nonlinear_arith)
                requires
                    ow == 0,
                    oh >= 0,
            ;
            assert(false);
        }
    }
    assert(out.data@ =~= target);
}

/// The width of the reoriented image.
pub open spec fn spec_oriented_w(d: (u32, u32, Seq<u8>), t: Transform) -> int {
    if t.swaps_dims() {
        d.1 as int
    } else {
        d.0 as int
    }
}

/// The height of the reoriented image.
pub open spec fn spec_oriented_h(d: (u32, u32, Seq<u8>), t: Transform) -> int {
    if t.swaps_dims() {
        d.0 as int
    } else {
        d.1 as int
    }
}

/// Whether the canvas for a `w` by `h` oriented image is addressable on
/// this machine: its height fits a `u32` and its byte count fits a `usize`.
pub open spec fn spec_canvas_fits(w: int, h: int, cw: int, ch: int) -> bool {
    &&& spec_canvas_h(h, ch) <= u32::MAX
    &&& 3 * (spec_canvas_w(w, cw) * spec_canvas_h(h, ch)) <= usize::MAX
}

/// The rendered canvas of the decoded, reoriented image, as a PNG encoder
/// outcome. Meaningful once the bytes decode.
pub open spec fn spec_art_png(
    bytes: Seq<u8>,
    ramp: CharacterRamp,
    params: RenderParameters,
    glyphs: GlyphSet,
) -> Option<Seq<u8>> {
    let d = decoded_rgb_of(bytes)->Some_0;
    let t = spec_resolve(orientation_of(bytes));
    let ow = spec_oriented_w(d, t);
    let oh = spec_oriented_h(d, t);
    png_result_of(
        spec_canvas_w(ow, params.cell_w as int) as u32,
        spec_canvas_h(oh, params.cell_h as int) as u32,
        spec_render(
            spec_apply_data(t, d.0 as int, d.1 as int, d.2),
            ow,
            oh,
            ramp,
            params,
            glyphs,
        ),
    )
}

/// Exactly when the conversion succeeds: the bytes decode, the canvas for
/// the reoriented image is addressable, and the PNG encoder accepts the
/// rendered canvas.
pub open spec fn spec_convert_ok(
    bytes: Seq<u8>,
    ramp: CharacterRamp,
    params: RenderParameters,
    glyphs: GlyphSet,
) -> bool {
    &&& decoded_rgb_of(bytes) is Some
    &&& ({
        let d = decoded_rgb_of(bytes)->Some_0;
        let t = spec_resolve(orientation_of(bytes));
        spec_canvas_fits(
            spec_oriented_w(d, t),
            spec_oriented_h(d, t),
            params.cell_w as int,
            params.cell_h as int,
        )
    })
    &&& spec_art_png(bytes, ramp, params, glyphs) is Some
}

/// Converts an image file's bytes to a character-art rendering, returned as
/// a transport string: the bytes are decoded, reoriented per their EXIF
/// Orientation field, rendered with the given ramp, parameters and glyphs,
/// and PNG/base64-encoded. Succeeds exactly when the bytes decode, the
/// canvas is addressable, and the PNG encoder accepts the canvas; the
/// result is then the transport string of the rendered canvas.
pub fn convert_image_to_ascii_art(
    bytes: &[u8],
    ramp: &CharacterRamp,
    params: &RenderParameters,
    glyphs: &GlyphSet,
) -> (r: Result<String, String>)
    requires
        params.wf(),
        glyphs.wf(),
    ensures
        (r is Ok) <==> spec_convert_ok(bytes@, *ramp, *params, *glyphs),
        r matches Ok(s) ==> s@ == spec_transport_of(
            spec_art_png(bytes@, *ramp, *params, *glyphs)->Some_0,
        ),
{
    let img = match decode_image_rgb(bytes) {
        Ok(img) => img,
        Err(e) => {
            return Err(e);
        },
    };
    let t = resolve(exif_orientation(bytes));
    let oriented = apply(t, &img);
    let ghost d = decoded_rgb_of(bytes@)->Some_0;
    proof {
        lemma_apply_data(oriented, img, t);
        assert(oriented.width as int == spec_oriented_w(d, t));
        assert(oriented.height as int == spec_oriented_h(d, t));
        assert(oriented.data@ == spec_apply_data(t, d.0 as int, d.1 as int, d.2));
    }
    let ch = params.cell_h;
    let cw = params.cell_w;
    let rows: u32 = if oriented.height / ch >= 1 {
        oriented.height / ch
    } else {
        1
    };
    let cols: u32 = if oriented.width / cw >= 1 {
        oriented.width / cw
    } else {
        1
    };
    proof {
        assert(rows == crate::render::spec_grid_count(oriented.height as int, ch as int));
        assert(cols == crate::render::spec_grid_count(oriented.width as int, cw as int));
        let wi = oriented.width as int;
        let q = wi / (cw as int);
        lemma_fundamental_div_mod(wi, cw as int);
        assert(q * (cw as int) <= wi) by (nonlinear_arith)
            requires
                wi == (cw as int) * q + wi % (cw as int),
                wi % (cw as int) >= 0,
        ;
        if q >= 1 {
            assert((cols as int) * (cw as int) == q * (cw as int));
        } else {
            assert((cols as int) * (cw as int) == cw as int) by (nonlinear_arith)
                requires
                    cols == 1,
            ;
        }
        assert((cols as int) * (cw as int) <= u32::MAX);
    }
    let row_limit: u32 = u32::MAX / ch;
    proof {
        lemma_fundamental_div_mod(u32::MAX as int, ch as int);
        let bound = (ch as int) * (row_limit as int);
        assert(bound <= u32::MAX as int && (u32::MAX as int) < bound + (ch as int))
            by (nonlinear_arith)
            requires
                bound == (ch as int) * (row_limit as int),
                u32::MAX as int == (ch as int) * (row_limit as int) + (u32::MAX as int) % (
                ch as int),
                0 <= (u32::MAX as int) % (ch as int) < ch as int,
        ;
    }
    if (rows as u64) + 1 > row_limit as u64 {
        proof {
            assert((rows as int + 1) * (ch as int) > u32::MAX) by (nonlinear_arith)
                requires
                    rows as int + 1 > row_limit as int,
                    ch > 0,
                    (u32::MAX as int) < (ch as int) * (row_limit as int) + (ch as int),
            ;
            assert(!spec_canvas_fits(
                oriented.width as int,
                oriented.height as int,
                cw as int,
                ch as int,
            ));
        }
        return Err("Image too large to render".to_owned());
    }
    proof {
        assert((rows as int + 1) * (ch as int) <= u32::MAX) by (nonlinear_arith)
            requires
                rows as int + 1 <= row_limit as int,
                ch > 0,
                (ch as int) * (row_limit as int) <= u32::MAX as int,
        ;
    }
    let cwt: u32 = cols * cw;
    let cht: u32 = (rows + 1) * ch;
    proof {
        assert(3 * ((cwt as int) * (cht as int)) <= 3 * (0xffffffff * 0xffffffff))
            by (nonlinear_arith)
            requires
                cwt <= 0xffffffffu32,
                cht <= 0xffffffffu32,
        ;
        assert(cwt == spec_canvas_w(oriented.width as int, cw as int));
        assert(cht == spec_canvas_h(oriented.height as int, ch as int));
    }
    let canvas_bytes: u128 = 3 * ((cwt as u128) * (cht as u128));
    if canvas_bytes > usize::MAX as u128 {
        proof {
            assert(!spec_canvas_fits(
                oriented.width as int,
                oriented.height as int,
                cw as int,
                ch as int,
            ));
        }
        return Err("Image too large to render".to_owned());
    }
    let art = render(&oriented, ramp, params, glyphs);
    proof {
        assert(art.data@ == spec_render(
            spec_apply_data(t, d.0 as int, d.1 as int, d.2),
            spec_oriented_w(d, t),
            spec_oriented_h(d, t),
            *ramp,
            *params,
            *glyphs,
        ));
        assert(art.width == cwt && art.height == cht);
    }
    match encode_image_to_base64(&art) {
        Ok(s) => {
            proof {
                assert(png_result_of(art.width, art.height, art.data@) == spec_art_png(
                    bytes@,
                    *ramp,
                    *params,
                    *glyphs,
                ));
                assert(spec_convert_ok(bytes@, *ramp, *params, *glyphs));
            }
            Ok(s)
        },
        Err(e) => {
            proof {
                assert(spec_art_png(bytes@, *ramp, *params, *glyphs) is None);
            }
            Err(e)
        },
    }
}

} // verus!
