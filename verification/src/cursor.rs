//! acme's mouse pointers as pixels: a Plan 9 cursor has a plane of white
//! pixels and a plane of black ones.

use vstd::prelude::*;

verus! {

/// The bit of pixel `x` in its byte of a plane.
pub open spec fn bit_of(x: int) -> u8 {
    if x % 8 == 0 {
        0x80
    } else if x % 8 == 1 {
        0x40
    } else if x % 8 == 2 {
        0x20
    } else if x % 8 == 3 {
        0x10
    } else if x % 8 == 4 {
        0x08
    } else if x % 8 == 5 {
        0x04
    } else if x % 8 == 6 {
        0x02
    } else {
        0x01
    }
}

/// Pixel `x`, `y` of a plane `w` wide is set.
pub open spec fn in_plane(plane: Seq<u8>, w: int, x: int, y: int) -> bool {
    plane[y * (w / 8) + x / 8] & bit_of(x) != 0
}

/// One byte of a pixel's red, green, blue and opacity: black where the
/// `set` plane is, else white where the `clr` plane is, else nothing.
pub open spec fn sample(w: int, clr: Seq<u8>, set: Seq<u8>, x: int, y: int, k: int) -> u8 {
    if in_plane(set, w, x, y) {
        if k == 3 {
            255
        } else {
            0
        }
    } else if in_plane(clr, w, x, y) {
        255
    } else {
        0
    }
}

fn bit(x: usize) -> (b: u8)
    ensures
        b == bit_of(x as int),
{
    let k: usize = x % 8;
    if k == 0 {
        0x80
    } else if k == 1 {
        0x40
    } else if k == 2 {
        0x20
    } else if k == 3 {
        0x10
    } else if k == 4 {
        0x08
    } else if k == 5 {
        0x04
    } else if k == 6 {
        0x02
    } else {
        0x01
    }
}

/// A plane of `n` bytes reaches every pixel.
pub open spec fn reaches(n: int, w: int, h: int) -> bool {
    w > 0 && h > 0 ==> (h - 1) * (w / 8) + (w - 1) / 8 < n
}

proof fn lemma_in_plane(n: int, w: int, h: int, x: int, y: int)
    requires
        0 <= x < w,
        0 <= y < h,
        reaches(n, w, h),
    ensures
        0 <= y * (w / 8) <= y * (w / 8) + x / 8 < n,
{
    assert(0 <= y * (w / 8) && y * (w / 8) <= (h - 1) * (w / 8)) by (nonlinear_arith)
        requires
            0 <= y <= h - 1,
            0 <= w / 8,
    ;
}

/// The pixels of a Plan 9 cursor, row by row, four bytes each.
pub fn pixels(w: usize, h: usize, clr: &[u8], set: &[u8]) -> (out: Vec<u8>)
    requires
        reaches(clr@.len() as int, w as int, h as int),
        reaches(set@.len() as int, w as int, h as int),
    ensures
        out@.len() == h * w * 4,
        forall|x: int, y: int, k: int|
            0 <= x < w && 0 <= y < h && 0 <= k < 4 ==> #[trigger] out@[(y * w + x) * 4 + k] == sample(
                w as int,
                clr@,
                set@,
                x,
                y,
                k,
            ),
{
    let mut out: Vec<u8> = Vec::new();
    let mut y: usize = 0;
    while y < h
        invariant
            y <= h,
            reaches(clr@.len() as int, w as int, h as int),
            reaches(set@.len() as int, w as int, h as int),
            out@.len() == y * w * 4,
            forall|a: int, b: int, k: int|
                0 <= a < w && 0 <= b < y && 0 <= k < 4 ==> #[trigger] out@[(b * w + a) * 4 + k] == sample(
                    w as int,
                    clr@,
                    set@,
                    a,
                    b,
                    k,
                ),
        decreases h - y,
    {
        let mut x: usize = 0;
        while x < w
            invariant
                y < h,
                x <= w,
                reaches(clr@.len() as int, w as int, h as int),
                reaches(set@.len() as int, w as int, h as int),
                out@.len() == (y * w + x) * 4,
                forall|a: int, b: int, k: int|
                    0 <= a < w && 0 <= b && (b < y || b == y && a < x) && 0 <= k < 4 ==> #[trigger] out@[(b * w + a)
                        * 4 + k] == sample(w as int, clr@, set@, a, b, k),
            decreases w - x,
        {
            proof {
                lemma_in_plane(clr@.len() as int, w as int, h as int, x as int, y as int);
                lemma_in_plane(set@.len() as int, w as int, h as int, x as int, y as int);
            }
            let n: usize = clr.len();
            let i: usize = y * (w / 8) + x / 8;
            let b: u8 = bit(x);
            let ghost before = out@;
            let (ink, opaque): (u8, u8) = if set[i] & b != 0 {
                (0, 255)
            } else if clr[i] & b != 0 {
                (255, 255)
            } else {
                (0, 0)
            };
            out.push(ink);
            out.push(ink);
            out.push(ink);
            out.push(opaque);
            proof {
                assert forall|a: int, c: int, k: int|
                    0 <= a < w && 0 <= c && (c < y || c == y && a < x + 1) && 0 <= k
                        < 4 implies #[trigger] out@[(c * w + a) * 4 + k] == sample(w as int, clr@, set@, a, c, k) by {
                    if c == y && a == x {
                        assert((c * w + a) * 4 + k == before.len() + k);
                    } else {
                        assert(c * w + a < y * w + x) by (nonlinear_arith)
                            requires
                                0 <= a < w,
                                0 <= c,
                                c < y || c == y && a < x,
                                0 <= x,
                        ;
                        assert(0 <= c * w) by (nonlinear_arith)
                            requires
                                0 <= c,
                                0 <= w,
                        ;
                        assert(out@[(c * w + a) * 4 + k] == before[(c * w + a) * 4 + k]);
                    }
                }
            }
            x = x + 1;
        }
        proof {
            assert((y + 1) * w == y * w + w) by (nonlinear_arith);
        }
        y = y + 1;
    }
    out
}

/// The big arrow, 16 by 16: its white pixels.
pub const BIGARROW_CLR: [u8; 32] = [
    0xFF, 0xFF, 0x80, 0x01, 0x80, 0x02, 0x80, 0x0C, 0x80, 0x10, 0x80, 0x10, 0x80, 0x08, 0x80, 0x04,
    0x80, 0x02, 0x80, 0x01, 0x80, 0x02, 0x8C, 0x04, 0x92, 0x08, 0x91, 0x10, 0xA0, 0xA0, 0xC0, 0x40,
];

/// The big arrow, 16 by 16: its black pixels.
pub const BIGARROW_SET: [u8; 32] = [
    0x00, 0x00, 0x7F, 0xFE, 0x7F, 0xFC, 0x7F, 0xF0, 0x7F, 0xE0, 0x7F, 0xE0, 0x7F, 0xF0, 0x7F, 0xF8,
    0x7F, 0xFC, 0x7F, 0xFE, 0x7F, 0xFC, 0x73, 0xF8, 0x61, 0xF0, 0x60, 0xE0, 0x40, 0x40, 0x00, 0x00,
];

/// The big arrow, 16 by 16: where its point is, from its corner.
pub const BIGARROW_POINT: i32 = 1;

/// The big arrow, 32 by 32: its white pixels.
pub const BIGARROW2_CLR: [u8; 128] = [
    0xFF, 0xFF, 0xFF, 0xFF, 0xFF, 0xFF, 0xFF, 0xFF, 0xC0, 0x00, 0x00, 0x03, 0xC0, 0x00, 0x00, 0x07,
    0xC0, 0x00, 0x00, 0x1E, 0xC0, 0x00, 0x00, 0x3C, 0xC0, 0x00, 0x00, 0xF0, 0xC0, 0x00, 0x03, 0xE0,
    0xC0, 0x00, 0x0F, 0x80, 0xC0, 0x00, 0x0E, 0x00, 0xC0, 0x00, 0x07, 0x00, 0xC0, 0x00, 0x03, 0x80,
    0xC0, 0x00, 0x01, 0xC0, 0xC0, 0x00, 0x00, 0xE0, 0xC0, 0x00, 0x00, 0x70, 0xC0, 0x00, 0x00, 0x38,
    0xC0, 0x00, 0x00, 0x1C, 0xC0, 0x00, 0x00, 0x0E, 0xC0, 0x00, 0x00, 0x07, 0xC0, 0x00, 0x00, 0x03,
    0xC0, 0xC0, 0x00, 0x07, 0xC0, 0xE0, 0x00, 0x0E, 0xC1, 0xF0, 0x00, 0x1C, 0xC1, 0xB8, 0x00, 0x38,
    0xC3, 0x9C, 0x00, 0x70, 0xC3, 0x0E, 0x00, 0xE0, 0xC7, 0x07, 0x01, 0xC0, 0xCE, 0x03, 0x83, 0x80,
    0xCC, 0x01, 0xC7, 0x00, 0xDC, 0x00, 0xEE, 0x00, 0xF8, 0x00, 0x7C, 0x00, 0xF0, 0x00, 0x38, 0x00,
];

/// The big arrow, 32 by 32: its black pixels.
pub const BIGARROW2_SET: [u8; 128] = [
    0x00, 0x00, 0x00, 0x00, 0x00, 0x00, 0x00, 0x00, 0x3F, 0xFF, 0xFF, 0xFC, 0x3F, 0xFF, 0xFF, 0xF8,
    0x3F, 0xFF, 0xFF, 0xE0, 0x3F, 0xFF, 0xFF, 0xC0, 0x3F, 0xFF, 0xFF, 0x00, 0x3F, 0xFF, 0xFC, 0x00,
    0x3F, 0xFF, 0xF0, 0x00, 0x3F, 0xFF, 0xF0, 0x00, 0x3F, 0xFF, 0xF8, 0x00, 0x3F, 0xFF, 0xFC, 0x00,
    0x3F, 0xFF, 0xFE, 0x00, 0x3F, 0xFF, 0xFF, 0x00, 0x3F, 0xFF, 0xFF, 0x80, 0x3F, 0xFF, 0xFF, 0xC0,
    0x3F, 0xFF, 0xFF, 0xE0, 0x3F, 0xFF, 0xFF, 0xF0, 0x3F, 0xFF, 0xFF, 0xF8, 0x3F, 0xFF, 0xFF, 0xFC,
    0x3F, 0x3F, 0xFF, 0xF8, 0x3F, 0x1F, 0xFF, 0xF0, 0x3E, 0x0F, 0xFF, 0xE0, 0x3E, 0x07, 0xFF, 0xC0,
    0x3C, 0x03, 0xFF, 0x80, 0x3C, 0x01, 0xFF, 0x00, 0x38, 0x00, 0xFE, 0x00, 0x30, 0x00, 0x7C, 0x00,
    0x30, 0x00, 0x38, 0x00, 0x20, 0x00, 0x10, 0x00, 0x00, 0x00, 0x00, 0x00, 0x00, 0x00, 0x00, 0x00,
];

/// The big arrow, 32 by 32: where its point is, from its corner.
pub const BIGARROW2_POINT: i32 = 2;

/// The box, 16 by 16: its white pixels.
pub const BOX_CLR: [u8; 32] = [
    0xFF, 0xFF, 0xFF, 0xFF, 0xFF, 0xFF, 0xFF, 0xFF, 0xFF, 0xFF, 0xF8, 0x1F, 0xF8, 0x1F, 0xF8, 0x1F,
    0xF8, 0x1F, 0xF8, 0x1F, 0xF8, 0x1F, 0xFF, 0xFF, 0xFF, 0xFF, 0xFF, 0xFF, 0xFF, 0xFF, 0xFF, 0xFF,
];

/// The box, 16 by 16: its black pixels.
pub const BOX_SET: [u8; 32] = [
    0x00, 0x00, 0x7F, 0xFE, 0x7F, 0xFE, 0x7F, 0xFE, 0x70, 0x0E, 0x70, 0x0E, 0x70, 0x0E, 0x70, 0x0E,
    0x70, 0x0E, 0x70, 0x0E, 0x70, 0x0E, 0x70, 0x0E, 0x7F, 0xFE, 0x7F, 0xFE, 0x7F, 0xFE, 0x00, 0x00,
];

/// The box, 16 by 16: where its point is, from its corner.
pub const BOX_POINT: i32 = 7;

/// The box, 32 by 32: its white pixels.
pub const BOX2_CLR: [u8; 128] = [
    0xFF, 0xFF, 0xFF, 0xFF, 0xFF, 0xFF, 0xFF, 0xFF, 0xFF, 0xFF, 0xFF, 0xFF, 0xFF, 0xFF, 0xFF, 0xFF,
    0xFF, 0xFF, 0xFF, 0xFF, 0xFF, 0xFF, 0xFF, 0xFF, 0xFF, 0xFF, 0xFF, 0xFF, 0xFF, 0xFF, 0xFF, 0xFF,
    0xFF, 0xFF, 0xFF, 0xFF, 0xFF, 0xFF, 0xFF, 0xFF, 0xFF, 0xC0, 0x03, 0xFF, 0xFF, 0xC0, 0x03, 0xFF,
    0xFF, 0xC0, 0x03, 0xFF, 0xFF, 0xC0, 0x03, 0xFF, 0xFF, 0xC0, 0x03, 0xFF, 0xFF, 0xC0, 0x03, 0xFF,
    0xFF, 0xC0, 0x03, 0xFF, 0xFF, 0xC0, 0x03, 0xFF, 0xFF, 0xC0, 0x03, 0xFF, 0xFF, 0xC0, 0x03, 0xFF,
    0xFF, 0xC0, 0x03, 0xFF, 0xFF, 0xC0, 0x03, 0xFF, 0xFF, 0xFF, 0xFF, 0xFF, 0xFF, 0xFF, 0xFF, 0xFF,
    0xFF, 0xFF, 0xFF, 0xFF, 0xFF, 0xFF, 0xFF, 0xFF, 0xFF, 0xFF, 0xFF, 0xFF, 0xFF, 0xFF, 0xFF, 0xFF,
    0xFF, 0xFF, 0xFF, 0xFF, 0xFF, 0xFF, 0xFF, 0xFF, 0xFF, 0xFF, 0xFF, 0xFF, 0xFF, 0xFF, 0xFF, 0xFF,
];

/// The box, 32 by 32: its black pixels.
pub const BOX2_SET: [u8; 128] = [
    0x00, 0x00, 0x00, 0x00, 0x00, 0x00, 0x00, 0x00, 0x3F, 0xFF, 0xFF, 0xFC, 0x3F, 0xFF, 0xFF, 0xFC,
    0x3F, 0xFF, 0xFF, 0xFC, 0x3F, 0xFF, 0xFF, 0xFC, 0x3F, 0xFF, 0xFF, 0xFC, 0x3F, 0xFF, 0xFF, 0xFC,
    0x3F, 0x00, 0x00, 0xFC, 0x3F, 0x00, 0x00, 0xFC, 0x3F, 0x00, 0x00, 0xFC, 0x3F, 0x00, 0x00, 0xFC,
    0x3F, 0x00, 0x00, 0xFC, 0x3F, 0x00, 0x00, 0xFC, 0x3F, 0x00, 0x00, 0xFC, 0x3F, 0x00, 0x00, 0xFC,
    0x3F, 0x00, 0x00, 0xFC, 0x3F, 0x00, 0x00, 0xFC, 0x3F, 0x00, 0x00, 0xFC, 0x3F, 0x00, 0x00, 0xFC,
    0x3F, 0x00, 0x00, 0xFC, 0x3F, 0x00, 0x00, 0xFC, 0x3F, 0x00, 0x00, 0xFC, 0x3F, 0x00, 0x00, 0xFC,
    0x3F, 0xFF, 0xFF, 0xFC, 0x3F, 0xFF, 0xFF, 0xFC, 0x3F, 0xFF, 0xFF, 0xFC, 0x3F, 0xFF, 0xFF, 0xFC,
    0x3F, 0xFF, 0xFF, 0xFC, 0x3F, 0xFF, 0xFF, 0xFC, 0x00, 0x00, 0x00, 0x00, 0x00, 0x00, 0x00, 0x00,
];

/// The box, 32 by 32: where its point is, from its corner.
pub const BOX2_POINT: i32 = 15;

/// The first pixel of eight is the highest bit of its byte.
pub proof fn law_the_highest_bit_is_the_first(x: int)
    requires
        0 <= x,
    ensures
        bit_of(x) == 0x80u8 >> ((x % 8) as u8),
{
    assert(0x80u8 >> 0u8 == 0x80u8 && 0x80u8 >> 1u8 == 0x40u8 && 0x80u8 >> 2u8 == 0x20u8 && 0x80u8 >> 3u8 == 0x10u8
        && 0x80u8 >> 4u8 == 0x08u8 && 0x80u8 >> 5u8 == 0x04u8 && 0x80u8 >> 6u8 == 0x02u8 && 0x80u8 >> 7u8 == 0x01u8)
        by (bit_vector);
}

/// A pixel of the one plane is black, one of the other alone is white, and one
/// of neither cannot be seen.
pub proof fn law_a_pixel_is_black_white_or_not_there(w: int, clr: Seq<u8>, set: Seq<u8>, x: int, y: int, k: int)
    requires
        0 <= x,
        0 <= k < 4,
    ensures
        ({
            let at = y * (w / 8) + x / 8;
            let bit = 0x80u8 >> ((x % 8) as u8);
            &&& set[at] & bit != 0 ==> sample(w, clr, set, x, y, k) == if k == 3 { 255u8 } else { 0 }
            &&& set[at] & bit == 0 && clr[at] & bit != 0 ==> sample(w, clr, set, x, y, k) == 255
            &&& set[at] & bit == 0 && clr[at] & bit == 0 ==> sample(w, clr, set, x, y, k) == 0
        }),
{
    law_the_highest_bit_is_the_first(x);
}

} // verus!
