//! The orientation resolver: maps an EXIF orientation code to a geometric
//! transform, and applies that transform to a raster image.

use vstd::prelude::*;

use crate::raster::RasterImage;

verus! {

/// A geometric transform of a raster, per the eight EXIF orientation codes.
#[derive(Clone, Copy, Debug, PartialEq, Eq, Structural)]
pub enum Transform {
    Identity,
    FlipH,
    Rotate180,
    FlipV,
    /// Rotate 90 degrees clockwise, then flip horizontally (a transposition).
    Rotate90FlipH,
    /// Rotate 90 degrees clockwise.
    Rotate90,
    /// Rotate 270 degrees clockwise, then flip horizontally.
    Rotate270FlipH,
    /// Rotate 270 degrees clockwise.
    Rotate270,
}

/// The transform that an EXIF orientation code denotes; an absent or
/// unrecognized code denotes the identity.
pub open spec fn spec_resolve(code: Option<u32>) -> Transform {
    match code {
        Option::Some(2u32) => Transform::FlipH,
        Option::Some(3u32) => Transform::Rotate180,
        Option::Some(4u32) => Transform::FlipV,
        Option::Some(5u32) => Transform::Rotate90FlipH,
        Option::Some(6u32) => Transform::Rotate90,
        Option::Some(7u32) => Transform::Rotate270FlipH,
        Option::Some(8u32) => Transform::Rotate270,
        _ => Transform::Identity,
    }
}

impl Transform {
    /// Whether the transform swaps the width and height of the image.
    pub open spec fn swaps_dims(self) -> bool {
        match self {
            Transform::Rotate90 | Transform::Rotate270 | Transform::Rotate90FlipH
                | Transform::Rotate270FlipH => true,
            _ => false,
        }
    }

    /// The source pixel that lands at (x, y) of the output, for a source
    /// image of w-by-h pixels.
    pub open spec fn spec_source(self, w: int, h: int, x: int, y: int) -> (int, int) {
        match self {
            Transform::Identity => (x, y),
            Transform::FlipH => (w - 1 - x, y),
            Transform::Rotate180 => (w - 1 - x, h - 1 - y),
            Transform::FlipV => (x, h - 1 - y),
            Transform::Rotate90FlipH => (y, x),
            Transform::Rotate90 => (y, h - 1 - x),
            Transform::Rotate270FlipH => (w - 1 - y, h - 1 - x),
            Transform::Rotate270 => (w - 1 - y, x),
        }
    }
}

/// Resolves an EXIF orientation code (1 to 8) to its transform; `None` or an
/// out-of-range code resolves to the identity.
pub fn resolve(code: Option<u32>) -> (t: Transform)
    ensures
        t == spec_resolve(code),
{
    match code {
        Option::Some(2) => Transform::FlipH,
        Option::Some(3) => Transform::Rotate180,
        Option::Some(4) => Transform::FlipV,
        Option::Some(5) => Transform::Rotate90FlipH,
        Option::Some(6) => Transform::Rotate90,
        Option::Some(7) => Transform::Rotate270FlipH,
        Option::Some(8) => Transform::Rotate270,
        _ => Transform::Identity,
    }
}

/// Applies a transform to an image, producing the reoriented image: output
/// pixel (x, y) holds the source pixel that `spec_source` names.
pub fn apply(t: Transform, img: &RasterImage) -> (out: RasterImage)
    requires
        img.wf(),
    ensures
        out.wf(),
        !t.swaps_dims() ==> out.width == img.width && out.height == img.height,
        t.swaps_dims() ==> out.width == img.height && out.height == img.width,
        forall|x: int, y: int|
            0 <= x < out.width && 0 <= y < out.height ==> #[trigger] out.spec_pixel(x, y)
                == img.spec_pixel(
                t.spec_source(img.width as int, img.height as int, x, y).0,
                t.spec_source(img.width as int, img.height as int, x, y).1,
            ),
{
    let (ow, oh): (u32, u32) = match t {
        Transform::Rotate90 | Transform::Rotate270 | Transform::Rotate90FlipH
            | Transform::Rotate270FlipH => (img.height, img.width),
        _ => (img.width, img.height),
    };
    let src_len: usize = img.data.len();
    proof {
        assert((ow as int) * (oh as int) == (img.width as int) * (img.height as int))
            by (nonlinear_arith)
            requires
                (ow == img.width && oh == img.height) || (ow == img.height && oh == img.width),
        ;
        assert(3 * ((img.width as int) * (img.height as int)) == src_len as int);
    }
    let mut data: Vec<u8> = Vec::new();
    let mut y: u32 = 0;
    while y < oh
        invariant
            img.wf(),
            y <= oh,
            (ow as int) * (oh as int) == (img.width as int) * (img.height as int),
            3 * ((img.width as int) * (img.height as int)) <= usize::MAX,
            !t.swaps_dims() ==> ow == img.width && oh == img.height,
            t.swaps_dims() ==> ow == img.height && oh == img.width,
            data@.len() == 3 * ((y as int) * (ow as int)),
            forall|xx: int, yy: int|
                0 <= xx < ow && 0 <= yy < y ==> {
                    let s = t.spec_source(img.width as int, img.height as int, xx, yy);
                    #[trigger] data@[3 * (yy * (ow as int) + xx)] == img.spec_pixel(s.0, s.1).0
                        && data@[3 * (yy * (ow as int) + xx) + 1] == img.spec_pixel(s.0, s.1).1
                        && data@[3 * (yy * (ow as int) + xx) + 2] == img.spec_pixel(s.0, s.1).2
                },
        decreases oh - y,
    {
        let mut x: u32 = 0;
        while x < ow
            invariant
                img.wf(),
                y < oh,
                x <= ow,
                (ow as int) * (oh as int) == (img.width as int) * (img.height as int),
                3 * ((img.width as int) * (img.height as int)) <= usize::MAX,
                !t.swaps_dims() ==> ow == img.width && oh == img.height,
                t.swaps_dims() ==> ow == img.height && oh == img.width,
                data@.len() == 3 * ((y as int) * (ow as int) + (x as int)),
                forall|xx: int, yy: int|
                    0 <= xx < ow && (0 <= yy < y || (yy == y && xx < x)) ==> {
                        let s = t.spec_source(img.width as int, img.height as int, xx, yy);
                        #[trigger] data@[3 * (yy * (ow as int) + xx)] == img.spec_pixel(s.0, s.1).0
                            && data@[3 * (yy * (ow as int) + xx) + 1] == img.spec_pixel(s.0, s.1).1
                            && data@[3 * (yy * (ow as int) + xx) + 2] == img.spec_pixel(s.0, s.1).2
                    },
            decreases ow - x,
        {
            let (sx, sy): (u32, u32) = match t {
                Transform::Identity => (x, y),
                Transform::FlipH => (img.width - 1 - x, y),
                Transform::Rotate180 => (img.width - 1 - x, img.height - 1 - y),
                Transform::FlipV => (x, img.height - 1 - y),
                Transform::Rotate90FlipH => (y, x),
                Transform::Rotate90 => (y, img.height - 1 - x),
                Transform::Rotate270FlipH => (img.width - 1 - y, img.height - 1 - x),
                Transform::Rotate270 => (img.width - 1 - y, x),
            };
            let p = img.get_pixel(sx, sy);
            let ghost prev = data@;
            data.push(p.0);
            data.push(p.1);
            data.push(p.2);
            proof {
                let w = ow as int;
                let xi = x as int;
                let yi = y as int;
                assert(yi * w + xi < w * (oh as int)) by (nonlinear_arith)
                    requires
                        0 <= xi < w,
                        0 <= yi < oh as int,
                ;
                assert forall|xx: int, yy: int|
                    0 <= xx < ow && (0 <= yy < y || (yy == y && xx < x + 1)) implies {
                    let s = t.spec_source(img.width as int, img.height as int, xx, yy);
                    #[trigger] data@[3 * (yy * w + xx)] == img.spec_pixel(s.0, s.1).0 && data@[3
                        * (yy * w + xx) + 1] == img.spec_pixel(s.0, s.1).1 && data@[3 * (yy * w
                        + xx) + 2] == img.spec_pixel(s.0, s.1).2
                } by {
                    let s = t.spec_source(img.width as int, img.height as int, xx, yy);
                    if yy == yi && xx == xi {
                        assert(s == (sx as int, sy as int));
                        assert(data@[3 * (yy * w + xx)] == p.0);
                        assert(data@[3 * (yy * w + xx) + 1] == p.1);
                        assert(data@[3 * (yy * w + xx) + 2] == p.2);
                    } else {
                        assert(yy * w + xx < yi * w + xi) by (nonlinear_arith)
                            requires
                                0 <= xx < w,
                                0 <= yy,
                                0 <= xi,
                                (yy < yi || (yy == yi && xx < xi)),
                        ;
                        assert(0 <= yy * w + xx) by (nonlinear_arith)
                            requires
                                0 <= xx,
                                0 <= yy,
                                0 <= w,
                        ;
                        assert(data@[3 * (yy * w + xx)] == prev[3 * (yy * w + xx)]);
                        assert(data@[3 * (yy * w + xx) + 1] == prev[3 * (yy * w + xx) + 1]);
                        assert(data@[3 * (yy * w + xx) + 2] == prev[3 * (yy * w + xx) + 2]);
                    }
                }
            }
            x = x + 1;
        }
        y = y + 1;
        proof {
            assert((y as int) * (ow as int) == (y as int - 1) * (ow as int) + (ow as int))
                by (nonlinear_arith);
        }
    }
    let out = RasterImage { width: ow, height: oh, data };
    proof {
        assert(3 * ((oh as int) * (ow as int)) == 3 * ((ow as int) * (oh as int)))
            by (nonlinear_arith);
        assert forall|x: int, y: int| 0 <= x < out.width && 0 <= y < out.height implies #[trigger]
        out.spec_pixel(x, y) == img.spec_pixel(
            t.spec_source(img.width as int, img.height as int, x, y).0,
            t.spec_source(img.width as int, img.height as int, x, y).1,
        ) by {
            out.lemma_index_in_bounds(x, y);
        }
    }
    out
}

/// The combined orientation law: for every code 1 to 8, resolving and applying
/// yields the documented geometry. Codes 5 to 8 swap the axes; every output
/// pixel is the documented source pixel of the input.
pub proof fn lemma_resolve_apply_geometry(code: u32, w: int, h: int, x: int, y: int)
    requires
        1 <= code <= 8,
    ensures
        spec_resolve(Some(code)).swaps_dims() <==> (5 <= code <= 8),
        code == 1 ==> spec_resolve(Some(code)).spec_source(w, h, x, y) == (x, y),
        code == 2 ==> spec_resolve(Some(code)).spec_source(w, h, x, y) == (w - 1 - x, y),
        code == 3 ==> spec_resolve(Some(code)).spec_source(w, h, x, y) == (w - 1 - x, h - 1 - y),
        code == 4 ==> spec_resolve(Some(code)).spec_source(w, h, x, y) == (x, h - 1 - y),
        code == 5 ==> spec_resolve(Some(code)).spec_source(w, h, x, y) == (y, x),
        code == 6 ==> spec_resolve(Some(code)).spec_source(w, h, x, y) == (y, h - 1 - x),
        code == 7 ==> spec_resolve(Some(code)).spec_source(w, h, x, y) == (w - 1 - y, h - 1 - x),
        code == 8 ==> spec_resolve(Some(code)).spec_source(w, h, x, y) == (w - 1 - y, x),
{
}

} // verus!
