//! Image effects: a pure transform from one image to a new image of the same
//! size. `EdgeDetection` is the Sobel edge filter.

use vstd::prelude::*;
use vstd::arithmetic::div_mod::lemma_fundamental_div_mod;
use vstd::arithmetic::div_mod::lemma_fundamental_div_mod_converse;

use crate::image::Image;
use crate::image::Pixel;
use crate::image::lemma_pixel_offset_bounds;
use crate::image::pixel_at;
use crate::image::pixel_offset;

verus! {

/// Any effect on an `Image` must implement this trait: a pure function from
/// an image to a new image of the same size.
pub trait Effect {
    fn apply(&self, img: &Image) -> (out: Image)
        requires
            img.wf(),
        ensures
            out.wf(),
            out.spec_width() == img.spec_width(),
            out.spec_height() == img.spec_height(),
    ;
}

/// The signed luma approximation of a pixel: the B, G, R channels averaged
/// by integer division by three, the 0-255 average reinterpreted as a signed
/// byte, so averages of 128 and above wrap negative.
pub open spec fn luma(p: Pixel) -> int {
    let s = (p.b + p.g + p.r) / 3;
    if s >= 128 {
        s - 256
    } else {
        s
    }
}

/// Whether (x, y) is an interior pixel: one with all eight neighbors inside
/// a width x height image.
pub open spec fn is_interior(w: int, h: int, x: int, y: int) -> bool {
    1 <= x && x + 1 < w && 1 <= y && y + 1 < h
}

/// The horizontal Sobel gradient at (x, y): the kernel weights 1, 2, 1 on
/// the east neighbors minus the same weights on the west neighbors.
pub open spec fn sobel_gx(data: Seq<u8>, w: int, x: int, y: int) -> int {
    luma(pixel_at(data, w, x + 1, y - 1)) + 2 * luma(pixel_at(data, w, x + 1, y)) + luma(
        pixel_at(data, w, x + 1, y + 1),
    ) - luma(pixel_at(data, w, x - 1, y - 1)) - 2 * luma(pixel_at(data, w, x - 1, y)) - luma(
        pixel_at(data, w, x - 1, y + 1),
    )
}

/// The vertical Sobel gradient at (x, y): the kernel weights 1, 2, 1 on the
/// south neighbors minus the same weights on the north neighbors.
pub open spec fn sobel_gy(data: Seq<u8>, w: int, x: int, y: int) -> int {
    luma(pixel_at(data, w, x - 1, y + 1)) + 2 * luma(pixel_at(data, w, x, y + 1)) + luma(
        pixel_at(data, w, x + 1, y + 1),
    ) - luma(pixel_at(data, w, x - 1, y - 1)) - 2 * luma(pixel_at(data, w, x, y - 1)) - luma(
        pixel_at(data, w, x + 1, y - 1),
    )
}

/// The integer square root: the largest r with r * r <= v.
pub open spec fn floor_sqrt(v: nat) -> nat
    decreases v,
{
    if v == 0 {
        0
    } else {
        let r = floor_sqrt((v - 1) as nat);
        if (r + 1) * (r + 1) <= v {
            r + 1
        } else {
            r
        }
    }
}

/// `floor_sqrt` lies between the two squares around its argument.
pub proof fn lemma_floor_sqrt_bracket(v: nat)
    ensures
        floor_sqrt(v) * floor_sqrt(v) <= v,
        v < (floor_sqrt(v) + 1) * (floor_sqrt(v) + 1),
    decreases v,
{
    if v == 0 {
        assert(floor_sqrt(0) == 0);
        assert(v < (floor_sqrt(v) + 1) * (floor_sqrt(v) + 1)) by (nonlinear_arith)
            requires
                v == 0,
                floor_sqrt(v) == 0,
        ;
    } else {
        lemma_floor_sqrt_bracket((v - 1) as nat);
        let r = floor_sqrt((v - 1) as nat);
        if (r + 1) * (r + 1) <= v {
            assert(floor_sqrt(v) == r + 1);
            assert(v < (r + 2) * (r + 2)) by (nonlinear_arith)
                requires
                    r >= 0,
                    v - 1 < (r + 1) * (r + 1),
            ;
        } else {
            assert(floor_sqrt(v) == r);
        }
    }
}

/// Any r bracketed by the two squares around v is `floor_sqrt(v)`.
pub proof fn lemma_floor_sqrt_unique(v: nat, r: nat)
    requires
        r * r <= v,
        v < (r + 1) * (r + 1),
    ensures
        r == floor_sqrt(v),
{
    let f = floor_sqrt(v);
    lemma_floor_sqrt_bracket(v);
    if r < f {
        assert((r + 1) * (r + 1) <= f * f) by (nonlinear_arith)
            requires
                r + 1 <= f,
                r >= 0,
        ;
    }
    if f < r {
        assert((f + 1) * (f + 1) <= r * r) by (nonlinear_arith)
            requires
                f + 1 <= r,
                f >= 0,
        ;
    }
}

/// The integer square root, by counting up to the last root whose square
/// still fits.
fn isqrt(v: u32) -> (r: u32)
    ensures
        r == floor_sqrt(v as nat),
{
    let mut r: u32 = 0;
    while (r as u64 + 1) * (r as u64 + 1) <= v as u64
        invariant
            r * r <= v,
            r <= 0x10000,
            (r + 1) * (r + 1) <= 0x10001 * 0x10001,
        decreases v - r,
    {
        proof {
            assert(r + 1 <= 0x10000 && r + 1 <= v && (r + 2) * (r + 2) <= 0x10001 * 0x10001)
                by (nonlinear_arith)
                requires
                    (r + 1) * (r + 1) <= v,
                    v <= u32::MAX,
                    r >= 0,
            ;
        }
        r = r + 1;
    }
    proof {
        lemma_floor_sqrt_unique(v as nat, r as nat);
    }
    r
}

/// The grey value the edge filter writes at an interior pixel: the magnitude
/// of the Sobel gradient pair, rounded down, narrowed to a byte by
/// truncation (magnitudes above 255 wrap, they do not saturate).
pub open spec fn edge_grey(data: Seq<u8>, w: int, x: int, y: int) -> u8 {
    let gx = sobel_gx(data, w, x, y);
    let gy = sobel_gy(data, w, x, y);
    (floor_sqrt((gx * gx + gy * gy) as nat) % 256) as u8
}

/// The pixel the edge filter writes at (x, y): a grey triple with the source
/// alpha at interior pixels, transparent black on the one-pixel border.
pub open spec fn edge_pixel(data: Seq<u8>, w: int, h: int, x: int, y: int) -> Pixel {
    if is_interior(w, h, x, y) {
        let g = edge_grey(data, w, x, y);
        Pixel { b: g, g: g, r: g, a: pixel_at(data, w, x, y).a }
    } else {
        Pixel { b: 0u8, g: 0u8, r: 0u8, a: 0u8 }
    }
}

/// One channel of a pixel, by channel index in storage order B, G, R, A.
pub open spec fn pixel_channel(p: Pixel, c: int) -> u8 {
    if c == 0 {
        p.b
    } else if c == 1 {
        p.g
    } else if c == 2 {
        p.r
    } else {
        p.a
    }
}

/// The whole byte buffer the edge filter produces from an input buffer.
pub open spec fn edge_data(data: Seq<u8>, w: int, h: int) -> Seq<u8> {
    Seq::new(
        (w * h * 4) as nat,
        |i: int| pixel_channel(edge_pixel(data, w, h, (i / 4) % w, (i / 4) / w), i % 4),
    )
}

/// Every byte index of a pixel buffer falls inside the four-byte block of
/// the pixel its quotient and remainder name.
pub proof fn lemma_byte_index(w: int, h: int, i: int)
    requires
        w > 0,
        h > 0,
        0 <= i < w * h * 4,
    ensures
        0 <= i / 4 < w * h,
        0 <= (i / 4) % w < w,
        0 <= (i / 4) / w < h,
        pixel_offset(w, (i / 4) % w, (i / 4) / w) <= i < pixel_offset(w, (i / 4) % w, (i / 4) / w)
            + 4,
{
    let p = i / 4;
    assert(4 * p <= i < 4 * p + 4);
    assert(0 <= p < w * h);
    let xi = p % w;
    let yi = p / w;
    lemma_fundamental_div_mod(p, w);
    assert(0 <= xi < w) by (nonlinear_arith)
        requires
            w > 0,
            xi == p % w,
            p >= 0,
    ;
    assert(0 <= yi < h) by (nonlinear_arith)
        requires
            p == w * yi + xi,
            0 <= xi < w,
            0 <= p < w * h,
            w > 0,
    ;
    assert((yi * w + xi) * 4 == 4 * p);
}

/// The quotient and remainder of a row-major pixel index give back its
/// coordinates.
pub proof fn lemma_coords_index(w: int, x: int, y: int)
    requires
        w > 0,
        0 <= x < w,
        0 <= y,
    ensures
        (y * w + x) % w == x,
        (y * w + x) / w == y,
{
    lemma_fundamental_div_mod_converse(y * w + x, w, y, x);
}

/// Determinism law: the edge filter is a pure function of the input buffer,
/// so any two outputs it produces for the same input hold the same bytes.
pub proof fn lemma_edge_deterministic(img: Image, out1: Image, out2: Image)
    requires
        out1.spec_data() == edge_data(
            img.spec_data(),
            img.spec_width() as int,
            img.spec_height() as int,
        ),
        out2.spec_data() == edge_data(
            img.spec_data(),
            img.spec_width() as int,
            img.spec_height() as int,
        ),
    ensures
        out1.spec_data() == out2.spec_data(),
{
}

/// Border law: the one-pixel border of the filter's output is transparent
/// black, whatever the input holds.
pub proof fn lemma_edge_border_zero(data: Seq<u8>, w: int, h: int, x: int, y: int)
    requires
        0 < w,
        0 < h,
        0 <= x < w,
        0 <= y < h,
        !is_interior(w, h, x, y),
    ensures
        pixel_at(edge_data(data, w, h), w, x, y) == (Pixel { b: 0u8, g: 0u8, r: 0u8, a: 0u8 }),
{
    lemma_pixel_offset_bounds(w, h, x, y);
    lemma_coords_index(w, x, y);
    let base = pixel_offset(w, x, y);
    assert((base + 0) / 4 == y * w + x && (base + 0) % 4 == 0);
    assert((base + 1) / 4 == y * w + x && (base + 1) % 4 == 1);
    assert((base + 2) / 4 == y * w + x && (base + 2) % 4 == 2);
    assert((base + 3) / 4 == y * w + x && (base + 3) % 4 == 3);
    assert(edge_data(data, w, h)[base] == 0u8);
    assert(edge_data(data, w, h)[base + 1] == 0u8);
    assert(edge_data(data, w, h)[base + 2] == 0u8);
    assert(edge_data(data, w, h)[base + 3] == 0u8);
}

/// `EdgeDetection` computes a Sobel edge image. The threshold is kept for
/// callers that post-process the magnitudes; the filter itself writes the
/// raw magnitude.
pub struct EdgeDetection {
    pub threshold: u8,
}

impl Default for EdgeDetection {
    fn default() -> (e: EdgeDetection)
        ensures
            e.threshold == 0,
    {
        EdgeDetection { threshold: 0 }
    }
}

impl EdgeDetection {
    /// The signed luma of one neighbor pixel.
    fn compute_from_neighbor(&self, p: Pixel) -> (r: i8)
        ensures
            r as int == luma(p),
    {
        let s: u16 = ((p.b as u16) + (p.g as u16) + (p.r as u16)) / 3;
        if s >= 128 {
            ((s as i16) - 256) as i8
        } else {
            s as i8
        }
    }

    /// The grey value at one interior pixel: the truncated magnitude of the
    /// Sobel gradients of the eight neighbors' luma values.
    fn compute_grey_scale(&self, img: &Image, x: u32, y: u32) -> (g: u8)
        requires
            img.wf(),
            is_interior(img.spec_width() as int, img.spec_height() as int, x as int, y as int),
        ensures
            g == edge_grey(img.spec_data(), img.spec_width() as int, x as int, y as int),
    {
        let n_e = self.compute_from_neighbor(img.get_pixel(x + 1, y).unwrap());
        let n_w = self.compute_from_neighbor(img.get_pixel(x - 1, y).unwrap());
        let n_s = self.compute_from_neighbor(img.get_pixel(x, y + 1).unwrap());
        let n_n = self.compute_from_neighbor(img.get_pixel(x, y - 1).unwrap());
        let n_se = self.compute_from_neighbor(img.get_pixel(x + 1, y + 1).unwrap());
        let n_sw = self.compute_from_neighbor(img.get_pixel(x - 1, y + 1).unwrap());
        let n_ne = self.compute_from_neighbor(img.get_pixel(x + 1, y - 1).unwrap());
        let n_nw = self.compute_from_neighbor(img.get_pixel(x - 1, y - 1).unwrap());

        let v_x: i32 = (n_ne as i32) + 2 * (n_e as i32) + (n_se as i32) - (n_nw as i32) - 2 * (
        n_w as i32) - (n_sw as i32);
        let v_y: i32 = (n_sw as i32) + 2 * (n_s as i32) + (n_se as i32) - (n_nw as i32) - 2 * (
        n_n as i32) - (n_ne as i32);

        proof {
            assert(v_x * v_x + v_y * v_y <= 0x400000 && v_x * v_x >= 0 && v_y * v_y >= 0)
                by (nonlinear_arith)
                requires
                    -1024 <= v_x <= 1024,
                    -1024 <= v_y <= 1024,
            ;
        }
        let sq: u32 = (v_x * v_x + v_y * v_y) as u32;
        let m = isqrt(sq);
        (m % 256) as u8
    }
}

impl Effect for EdgeDetection {
    fn apply(&self, img: &Image) -> (out: Image)
        ensures
            out.spec_data() == edge_data(
                img.spec_data(),
                img.spec_width() as int,
                img.spec_height() as int,
            ),
    {
        let ghost data0 = img.spec_data();
        let ghost w = img.spec_width() as int;
        let ghost h = img.spec_height() as int;
        let (width, height) = img.get_size();
        let mut out = Image::with_size(width, height);
        if width > 2 && height > 2 {
            let mut y: u32 = 1;
            while y < height - 1
                invariant
                    1 <= y <= height - 1,
                    width > 2,
                    height > 2,
                    img.wf(),
                    out.wf(),
                    data0 == img.spec_data(),
                    w == img.spec_width() as int,
                    h == img.spec_height() as int,
                    out.spec_width() == width == img.spec_width(),
                    out.spec_height() == height == img.spec_height(),
                    forall|i: int|
                        0 <= i < out.spec_data().len() ==> out.spec_data()[i] == partial_edge_byte(
                            data0,
                            w,
                            h,
                            1,
                            y as int,
                            i,
                        ),
                decreases height - y,
            {
                let mut x: u32 = 1;
                while x < width - 1
                    invariant
                        1 <= x <= width - 1,
                        1 <= y < height - 1,
                        width > 2,
                        height > 2,
                        img.wf(),
                        out.wf(),
                        data0 == img.spec_data(),
                        w == img.spec_width() as int,
                        h == img.spec_height() as int,
                        out.spec_width() == width == img.spec_width(),
                        out.spec_height() == height == img.spec_height(),
                        forall|i: int|
                            0 <= i < out.spec_data().len() ==> out.spec_data()[i]
                                == partial_edge_byte(data0, w, h, x as int, y as int, i),
                    decreases width - x,
                {
                    let grey = self.compute_grey_scale(img, x, y);
                    let alpha = img.get_pixel(x, y).unwrap().a;
                    let ok = out.set_pixel(x, y, Pixel::new(grey, grey, grey, alpha));
                    proof {
                        assert(ok);
                        lemma_step(data0, w, h, x as int, y as int, out.spec_data());
                    }
                    x = x + 1;
                }
                proof {
                    lemma_row_step(data0, w, h, y as int, out.spec_data());
                }
                y = y + 1;
            }
            proof {
                assert forall|i: int| 0 <= i < out.spec_data().len() implies out.spec_data()[i]
                    == edge_data(data0, w, h)[i] by {
                    lemma_byte_index(w, h, i);
                }
                assert(out.spec_data() =~= edge_data(data0, w, h));
            }
        } else {
            proof {
                assert forall|i: int| 0 <= i < out.spec_data().len() implies out.spec_data()[i]
                    == edge_data(data0, w, h)[i] by {
                    lemma_byte_index(w, h, i);
                }
                assert(out.spec_data() =~= edge_data(data0, w, h));
            }
        }
        out
    }
}

/// The byte the output buffer holds at index `i` once the filter has
/// computed every interior pixel that comes before (x, y) in row-major
/// order, and no other.
spec fn partial_edge_byte(data: Seq<u8>, w: int, h: int, x: int, y: int, i: int) -> u8 {
    let p = i / 4;
    let xi = p % w;
    let yi = p / w;
    if is_interior(w, h, xi, yi) && (yi < y || (yi == y && xi < x)) {
        edge_data(data, w, h)[i]
    } else {
        0u8
    }
}

/// After writing the pixel at (x, y), the output matches the partial filter
/// advanced by one column.
proof fn lemma_step(data: Seq<u8>, w: int, h: int, x: int, y: int, written: Seq<u8>)
    requires
        1 <= x < w - 1,
        1 <= y < h - 1,
        written.len() == w * h * 4,
        ({
            let base = pixel_offset(w, x, y);
            let e = edge_pixel(data, w, h, x, y);
            &&& forall|i: int|
                0 <= i < written.len() && !(base <= i < base + 4) ==> written[i]
                    == partial_edge_byte(data, w, h, x, y, i)
            &&& written[base] == e.b
            &&& written[base + 1] == e.g
            &&& written[base + 2] == e.r
            &&& written[base + 3] == e.a
        }),
    ensures
        forall|i: int|
            0 <= i < written.len() ==> written[i] == partial_edge_byte(data, w, h, x + 1, y, i),
{
    let base = pixel_offset(w, x, y);
    lemma_coords_index(w, x, y);
    assert forall|i: int| 0 <= i < written.len() implies written[i] == partial_edge_byte(
        data,
        w,
        h,
        x + 1,
        y,
        i,
    ) by {
        lemma_byte_index(w, h, i);
        let p = i / 4;
        let xi = p % w;
        let yi = p / w;
        if base <= i < base + 4 {
            assert(i / 4 == y * w + x);
            assert(xi == x && yi == y);
            assert(i % 4 == i - base);
            assert(edge_data(data, w, h)[i] == pixel_channel(edge_pixel(data, w, h, x, y), i % 4));
        } else {
            if xi == x && yi == y {
                assert(pixel_offset(w, xi, yi) == base);
                assert(false);
            }
        }
    }
}

/// A finished row advances the partial filter to the start of the next row.
proof fn lemma_row_step(data: Seq<u8>, w: int, h: int, y: int, written: Seq<u8>)
    requires
        w > 2,
        h > 2,
        1 <= y < h - 1,
        written.len() == w * h * 4,
        forall|i: int|
            0 <= i < written.len() ==> written[i] == partial_edge_byte(data, w, h, w - 1, y, i),
    ensures
        forall|i: int|
            0 <= i < written.len() ==> written[i] == partial_edge_byte(data, w, h, 1, y + 1, i),
{
    assert forall|i: int| 0 <= i < written.len() implies written[i] == partial_edge_byte(
        data,
        w,
        h,
        1,
        y + 1,
        i,
    ) by {
        lemma_byte_index(w, h, i);
    }
}

} // verus!
