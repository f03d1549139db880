//! Compositing sampled artwork into a straight-alpha picture.
use vstd::prelude::*;

verus! {

/// A straight-alpha colour.
#[derive(Debug, Clone, Copy, PartialEq, Eq, Structural)]
pub struct Rgba {
    pub r: u8,
    pub g: u8,
    pub b: u8,
    pub a: u8,
}

/// Nothing painted.
pub open spec fn clear() -> Rgba {
    Rgba { r: 0, g: 0, b: 0, a: 0 }
}

/// The opacity of a pixel of opacity `da` under one of opacity `a`.
pub open spec fn covered_alpha(da: int, a: int) -> int {
    a + da * (255 - a) / 255
}

/// One channel of a pixel painted over another, kept to eight bits.
pub open spec fn covered_channel(dst: int, da: int, src: int, a: int) -> u8 {
    ((src * a + dst * da * (255 - a) / 255) / covered_alpha(da, a) % 256) as u8
}

/// The pixel that `src` painted over `dst` leaves.
pub open spec fn blended(dst: Rgba, src: Rgba) -> Rgba {
    if src.a == 0 {
        dst
    } else {
        Rgba {
            r: covered_channel(dst.r as int, dst.a as int, src.r as int, src.a as int),
            g: covered_channel(dst.g as int, dst.a as int, src.g as int, src.a as int),
            b: covered_channel(dst.b as int, dst.a as int, src.b as int, src.a as int),
            a: covered_alpha(dst.a as int, src.a as int) as u8,
        }
    }
}

proof fn covered_alpha_bounds(da: int, a: int)
    requires
        0 <= da <= 255,
        0 <= a <= 255,
    ensures
        a <= covered_alpha(da, a) <= 255,
        0 <= da * (255 - a) <= 65025,
{
    assert(0 <= da * (255 - a) <= 255 * (255 - a)) by (nonlinear_arith)
        requires
            0 <= da <= 255,
            0 <= 255 - a,
    ;
}

fn blend_channel(dst: u8, da: u8, src: u8, a: u8, out_a: u8) -> (r: u8)
    requires
        a > 0,
        out_a == covered_alpha(da as int, a as int),
    ensures
        r == covered_channel(dst as int, da as int, src as int, a as int),
{
    proof {
        covered_alpha_bounds(da as int, a as int);
        assert(0 <= src * a <= 65025) by (nonlinear_arith)
            requires
                0 <= src <= 255,
                0 <= a <= 255,
        ;
        assert(0 <= dst * da <= 65025) by (nonlinear_arith)
            requires
                0 <= dst <= 255,
                0 <= da <= 255,
        ;
        assert(0 <= dst * da * (255 - a) <= 65025 * 255) by (nonlinear_arith)
            requires
                0 <= dst * da <= 65025,
                0 <= 255 - a <= 255,
        ;
    }
    let s: u32 = src as u32 * a as u32;
    let under: u32 = (dst as u32 * da as u32) * (255 - a as u32) / 255;
    ((s + under) / (out_a as u32) % 256) as u8
}

/// Paints one colour over another.
pub fn blend(dst: Rgba, src: Rgba) -> (r: Rgba)
    ensures
        r == blended(dst, src),
{
    if src.a == 0 {
        return dst;
    }
    proof {
        covered_alpha_bounds(dst.a as int, src.a as int);
    }
    let out_a: u8 = (src.a as u32 + dst.a as u32 * (255 - src.a as u32) / 255) as u8;
    Rgba {
        r: blend_channel(dst.r, dst.a, src.r, src.a, out_a),
        g: blend_channel(dst.g, dst.a, src.g, src.a, out_a),
        b: blend_channel(dst.b, dst.a, src.b, src.a, out_a),
        a: out_a,
    }
}

/// Painting an opaque colour hides what was there; painting anything that
/// shows over nothing leaves that colour as it is; painting what does not show
/// changes nothing.
pub proof fn painting_extremes(dst: Rgba, src: Rgba)
    ensures
        src.a == 255 ==> blended(dst, src) == src,
        src.a > 0 && dst.a == 0 ==> blended(dst, src) == src,
        src.a == 0 ==> blended(dst, src) == dst,
        blended(dst, src).a >= src.a,
{
    let a = src.a as int;
    covered_alpha_bounds(dst.a as int, a);
    if src.a == 255 {
        assert(dst.a * (255 - a) == 0) by (nonlinear_arith)
            requires
                a == 255,
        ;
        opaque_channel(dst.r as int, dst.a as int, src.r as int);
        opaque_channel(dst.g as int, dst.a as int, src.g as int);
        opaque_channel(dst.b as int, dst.a as int, src.b as int);
    }
    if src.a > 0 && dst.a == 0 {
        assert(dst.a * (255 - a) == 0) by (nonlinear_arith)
            requires
                dst.a == 0,
        ;
        bare_channel(dst.r as int, src.r as int, a);
        bare_channel(dst.g as int, src.g as int, a);
        bare_channel(dst.b as int, src.b as int, a);
    }
}

proof fn opaque_channel(dst: int, da: int, src: int)
    requires
        0 <= src <= 255,
        0 <= da <= 255,
    ensures
        covered_channel(dst, da, src, 255) == src,
{
    assert(dst * da * (255 - 255) == 0) by (nonlinear_arith);
    assert(da * (255 - 255) == 0) by (nonlinear_arith);
    assert(src * 255 / 255 == src);
}

proof fn bare_channel(dst: int, src: int, a: int)
    requires
        0 <= src <= 255,
        0 < a <= 255,
    ensures
        covered_channel(dst, 0, src, a) == src,
{
    assert(dst * 0 * (255 - a) == 0) by (nonlinear_arith);
    assert(0 * (255 - a) == 0) by (nonlinear_arith);
    assert(src * a / a == src) by (nonlinear_arith)
        requires
            a > 0,
    ;
}

/// The pixel at column `x` and row `y` of a picture `w` pixels wide.
pub open spec fn pixel(rgba: Seq<u8>, w: int, x: int, y: int) -> Rgba {
    let d = (y * w + x) * 4;
    Rgba { r: rgba[d], g: rgba[d + 1], b: rgba[d + 2], a: rgba[d + 3] }
}

/// Reads the pixel at column `x` and row `y` of a picture.
pub fn read_pixel(rgba: &Vec<u8>, w: usize, h: usize, x: usize, y: usize) -> (r: Rgba)
    requires
        rgba@.len() == w * h * 4,
        x < w,
        y < h,
    ensures
        r == pixel(rgba@, w as int, x as int, y as int),
{
    proof {
        cell_in_picture(w as int, h as int, x as int, y as int);
        assert(0 <= y * w <= y * w + x);
        assert(rgba@.len() == rgba.len());
    }
    let d: usize = (y * w + x) * 4;
    Rgba { r: rgba[d], g: rgba[d + 1], b: rgba[d + 2], a: rgba[d + 3] }
}

/// Artwork sampled for a rectangle of the picture, row by row.
#[derive(Debug)]
pub struct Patch {
    pub x0: usize,
    pub y0: usize,
    pub x1: usize,
    pub y1: usize,
    pub colors: Vec<Rgba>,
}

impl Patch {
    /// The rectangle lies in a picture of this size, and every pixel of it has
    /// a colour.
    pub open spec fn fits(&self, w: int, h: int) -> bool {
        &&& self.x0 <= self.x1 <= w
        &&& self.y0 <= self.y1 <= h
        &&& self.colors@.len() == (self.x1 - self.x0) * (self.y1 - self.y0)
    }

    /// The rectangle holds this pixel.
    pub open spec fn holds(&self, x: int, y: int) -> bool {
        self.x0 <= x < self.x1 && self.y0 <= y < self.y1
    }

    /// The colour for a pixel of the rectangle.
    pub open spec fn color(&self, x: int, y: int) -> Rgba {
        self.colors@[(y - self.y0) * (self.x1 - self.x0) + (x - self.x0)]
    }

    /// A pixel after the patch is painted over it.
    pub open spec fn over(&self, under: Rgba, x: int, y: int) -> Rgba {
        if self.holds(x, y) {
            blended(under, self.color(x, y))
        } else {
            under
        }
    }
}

proof fn cell_in_picture(w: int, h: int, x: int, y: int)
    requires
        0 <= x < w,
        0 <= y < h,
    ensures
        0 <= y * w + x < w * h,
{
    assert(0 <= y * w + x < w * h) by (nonlinear_arith)
        requires
            0 <= x < w,
            0 <= y < h,
    ;
}

proof fn cells_differ(w: int, x: int, y: int, u: int, v: int)
    requires
        0 <= x < w,
        0 <= u < w,
        y * w + x == v * w + u,
    ensures
        x == u,
        y == v,
{
    vstd::arithmetic::div_mod::lemma_fundamental_div_mod_converse(y * w + x, w, y, x);
    vstd::arithmetic::div_mod::lemma_fundamental_div_mod_converse(v * w + u, w, v, u);
}

/// Paints one colour over the pixel at column `x` and row `y`.
fn paint_pixel(
    rgba: &mut Vec<u8>,
    x: usize,
    y: usize,
    color: Rgba,
    w: usize,
    h: usize,
)
    requires
        old(rgba)@.len() == w * h * 4,
        x < w,
        y < h,
    ensures
        final(rgba)@.len() == old(rgba)@.len(),
        pixel(final(rgba)@, w as int, x as int, y as int) == blended(
            pixel(old(rgba)@, w as int, x as int, y as int),
            color,
        ),
        forall|u: int, v: int|
            0 <= u < w && 0 <= v < h && (u != x || v != y) ==> #[trigger] pixel(
                final(rgba)@,
                w as int,
                u,
                v,
            ) == pixel(old(rgba)@, w as int, u, v),
{
    let ghost before = rgba@;
    proof {
        cell_in_picture(w as int, h as int, x as int, y as int);
        assert(0 <= y * w <= y * w + x);
        assert(rgba@.len() == rgba.len());
    }
    let d: usize = (y * w + x) * 4;
    let under = Rgba { r: rgba[d], g: rgba[d + 1], b: rgba[d + 2], a: rgba[d + 3] };
    let out = blend(under, color);
    rgba.set(d, out.r);
    rgba.set(d + 1, out.g);
    rgba.set(d + 2, out.b);
    rgba.set(d + 3, out.a);
    proof {
        assert forall|u: int, v: int|
            0 <= u < w && 0 <= v < h && (u != x || v != y) implies #[trigger] pixel(
            rgba@,
            w as int,
            u,
            v,
        ) == pixel(before, w as int, u, v) by {
            cell_in_picture(w as int, h as int, u, v);
            if v * w + u == y * w + x {
                cells_differ(w as int, x as int, y as int, u, v);
            }
        }
    }
}

/// Paints a patch over a picture.
pub fn paint(rgba: &mut Vec<u8>, patch: &Patch, w: usize, h: usize)
    requires
        old(rgba)@.len() == w * h * 4,
        patch.fits(w as int, h as int),
    ensures
        final(rgba)@.len() == old(rgba)@.len(),
        forall|x: int, y: int|
            0 <= x < w && 0 <= y < h ==> #[trigger] pixel(final(rgba)@, w as int, x, y)
                == patch.over(pixel(old(rgba)@, w as int, x, y), x, y),
{
    let ghost before = rgba@;
    let mut y: usize = patch.y0;
    while y < patch.y1
        invariant
            patch.y0 <= y <= patch.y1,
            patch.fits(w as int, h as int),
            before.len() == w * h * 4,
            rgba@.len() == before.len(),
            forall|u: int, v: int|
                0 <= u < w && 0 <= v < h ==> #[trigger] pixel(rgba@, w as int, u, v) == (if v < y {
                    patch.over(pixel(before, w as int, u, v), u, v)
                } else {
                    pixel(before, w as int, u, v)
                }),
        decreases patch.y1 - y,
    {
        let mut x: usize = patch.x0;
        while x < patch.x1
            invariant
                patch.x0 <= x <= patch.x1,
                patch.y0 <= y < patch.y1,
                patch.fits(w as int, h as int),
                before.len() == w * h * 4,
                rgba@.len() == before.len(),
                forall|u: int, v: int|
                    0 <= u < w && 0 <= v < h ==> #[trigger] pixel(rgba@, w as int, u, v) == (if v
                        < y || (v == y && u < x) {
                        patch.over(pixel(before, w as int, u, v), u, v)
                    } else {
                        pixel(before, w as int, u, v)
                    }),
            decreases patch.x1 - x,
        {
            let ghost wide = patch.x1 - patch.x0;
            let ghost tall = patch.y1 - patch.y0;
            proof {
                cell_in_picture(wide, tall, x - patch.x0, y - patch.y0);
                assert(patch.colors@.len() == patch.colors.len());
                assert(0 <= (y - patch.y0) * wide);
            }
            let at: usize = (y - patch.y0) * (patch.x1 - patch.x0) + (x - patch.x0);
            let color = patch.colors[at];
            paint_pixel(rgba, x, y, color, w, h);
            x += 1;
        }
        y += 1;
    }
}

/// A picture of this size with nothing painted.
pub fn blank(w: usize, h: usize) -> (r: Vec<u8>)
    requires
        w * h * 4 <= usize::MAX,
    ensures
        r@.len() == w * h * 4,
        forall|i: int| 0 <= i < r@.len() ==> #[trigger] r@[i] == 0,
        forall|x: int, y: int|
            0 <= x < w && 0 <= y < h ==> #[trigger] pixel(r@, w as int, x, y) == clear(),
{
    proof {
        assert(0 <= w * h);
    }
    let r: Vec<u8> = vec![0; w * h * 4];
    proof {
        assert forall|x: int, y: int| 0 <= x < w && 0 <= y < h implies #[trigger] pixel(
            r@,
            w as int,
            x,
            y,
        ) == clear() by {
            cell_in_picture(w as int, h as int, x, y);
        }
    }
    r
}

/// Painting mixes by opacity: what shows through is the old colour as far as the
/// new one leaves it, and each channel is the mean of both by their shares.
pub proof fn painting_mixes_by_opacity(dst: Rgba, src: Rgba)
    requires
        src.a > 0,
    ensures
        ({
            let out = src.a + dst.a * (255 - src.a) / 255;
            let mixed = blended(dst, src);
            &&& mixed.a == out
            &&& mixed.r == (src.r * src.a + dst.r * dst.a * (255 - src.a) / 255) / out % 256
            &&& mixed.g == (src.g * src.a + dst.g * dst.a * (255 - src.a) / 255) / out % 256
            &&& mixed.b == (src.b * src.a + dst.b * dst.a * (255 - src.a) / 255) / out % 256
        }),
{
    covered_alpha_bounds(dst.a as int, src.a as int);
}

/// Pixels stand row by row, four bytes each: red, green, blue and opacity.
pub proof fn pixels_stand_row_by_row(rgba: Seq<u8>, w: int, x: int, y: int)
    ensures
        pixel(rgba, w, x, y) == (Rgba {
            r: rgba[4 * (y * w + x)],
            g: rgba[4 * (y * w + x) + 1],
            b: rgba[4 * (y * w + x) + 2],
            a: rgba[4 * (y * w + x) + 3],
        }),
{
}

/// A patch paints the pixels of its rectangle, each with the colour that stands
/// for it row by row, and no others.
pub proof fn patches_paint_their_rectangle(p: Patch, under: Rgba, x: int, y: int)
    ensures
        p.x0 <= x < p.x1 && p.y0 <= y < p.y1 ==> p.over(under, x, y) == blended(
            under,
            p.colors@[(y - p.y0) * (p.x1 - p.x0) + (x - p.x0)],
        ),
        !(p.x0 <= x < p.x1 && p.y0 <= y < p.y1) ==> p.over(under, x, y) == under,
{
}

} // verus!
