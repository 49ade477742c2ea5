//! What holds of corrected colours: of the hue that one is given, of how far
//! it is moved, and of what is taken for reading.

use vstd::prelude::*;

use crate::contrast::{
    agreement, channel, chroma_of, colored, contrast_of, corrected, deuteranope_contrast, direction, edge, far_end,
    fitted, halfway, harmonised, inked, lab_of, law_what_reads_reads_to_both, light_of, luminance_of, meets, mirrored,
    most_chroma, moved, nearest, offers, own_chroma, own_hue, packed, pointing, reads, rounded, seen_of, shows, theme_hue, Hue,
    Lin, GREY, LAB_MOST, LINEAR, ONE, REACH, STEPS,
};
use crate::ends::{lemma_lab, lemma_packed, lemma_polar, lemma_rounded};
use crate::fixed::{is_sqrt, lemma_sqrt_from, within};
use crate::theme::Theme;

verus! {

/// A direction is that of its axes: each coordinate is to the axis as `ONE`
/// to the chroma, which is the length of the two together, rounded down.
pub proof fn law_a_direction_is_that_of_its_axes(x: int, y: int)
    requires
        within(x, LAB_MOST as int),
        within(y, LAB_MOST as int),
    ensures
        ({
            let n = chroma_of(x, y);
            let h = direction(x, y);
            &&& 0 <= n && n * n <= x * x + y * y < (n + 1) * (n + 1)
            &&& n > 0 ==> n * h.x <= x * 100_000_000 < n * h.x + n
            &&& n > 0 ==> n * h.y <= y * 100_000_000 < n * h.y + n
            &&& n == 0 ==> h.x == 100_000_000 && h.y == 0
        }),
{
    assert(x * x >= 0 && y * y >= 0) by (nonlinear_arith);
    lemma_sqrt_from(x * x + y * y, 0);
    lemma_polar(x, y);
    let n = chroma_of(x, y);
    if n > 0 {
        crate::contrast::lemma_side_within(x, n, y * y);
        crate::contrast::lemma_side_within(y, n, x * x);
        lemma_part(x, n);
        lemma_part(y, n);
    }
}

proof fn lemma_part(x: int, n: int)
    requires
        0 < n,
        within(x, n),
    ensures
        within(x * ONE / n, ONE as int),
        n * (x * ONE / n) <= x * ONE < n * (x * ONE / n) + n,
{
    let q = x * ONE / n;
    assert(n * q <= x * ONE && x * ONE < n * q + n) by (nonlinear_arith)
        requires
            0 < n,
            q == x * ONE / n,
    ;
    assert(-(ONE * n) <= x * ONE && x * ONE <= ONE * n) by (nonlinear_arith)
        requires
            -n <= x <= n,
            ONE == 100_000_000,
    ;
    crate::fixed::lemma_within_div(x * ONE, ONE as int, n);
}

/// A direction is as long as `ONE`, but for what is rounded.
proof fn lemma_length(x: int, y: int)
    requires
        within(x, LAB_MOST as int),
        within(y, LAB_MOST as int),
        chroma_of(x, y) >= 4_000_000,
    ensures
        ({
            let h = direction(x, y);
            &&& pointing(h)
            &&& 10_000_000_000_000_000 - 500_000_000 <= h.x * h.x + h.y * h.y <= 10_000_000_000_000_000 + 5_500_000_000
        }),
{
    law_a_direction_is_that_of_its_axes(x, y);
    lemma_polar(x, y);
    let n = chroma_of(x, y);
    let h = direction(x, y);
    let (hx, hy) = (h.x as int, h.y as int);
    let r = x * ONE - n * hx;
    let s = y * ONE - n * hy;
    lemma_length_of(x, y, n, hx, hy, r, s);
}

proof fn lemma_square(x: int, n: int, h: int, r: int)
    requires
        x * 100_000_000 == n * h + r,
    ensures
        10_000_000_000_000_000 * (x * x) == n * n * (h * h) + 2 * (n * (h * r)) + r * r,
{
    let y = x * 100_000_000;
    assert(y * y == 10_000_000_000_000_000 * (x * x)) by (nonlinear_arith)
        requires
            y == x * 100_000_000,
    ;
    assert((n * h + r) * (n * h + r) == n * n * (h * h) + 2 * (n * (h * r)) + r * r) by (nonlinear_arith);
}

#[verifier::spinoff_prover]
proof fn lemma_length_of(x: int, y: int, n: int, hx: int, hy: int, r: int, s: int)
    requires
        4_000_000 <= n,
        n * n <= x * x + y * y < (n + 1) * (n + 1),
        0 <= r < n,
        0 <= s < n,
        x * ONE == n * hx + r,
        y * ONE == n * hy + s,
        within(hx, ONE as int),
        within(hy, ONE as int),
    ensures
        10_000_000_000_000_000 - 500_000_000 <= hx * hx + hy * hy <= 10_000_000_000_000_000 + 5_500_000_000,
{
    let o: int = 100_000_000;
    let sq = x * x + y * y;
    let l = hx * hx + hy * hy;
    let cross = hx * r + hy * s;
    // the length squared, times `n` squared
    lemma_square(x, n, hx, r);
    lemma_square(y, n, hy, s);
    let nn = n * n;
    assert(nn > 0) by (nonlinear_arith)
        requires
            n > 0,
            nn == n * n,
    ;
    assert(nn * l == nn * (hx * hx) + nn * (hy * hy)) by (nonlinear_arith)
        requires
            l == hx * hx + hy * hy,
    ;
    assert(n * cross == n * (hx * r) + n * (hy * s)) by (nonlinear_arith)
        requires
            cross == hx * r + hy * s,
    ;
    assert(nn * l == o * o * sq - 2 * (n * cross) - r * r - s * s);
    assert(-2 * (o * n) <= cross && cross <= 2 * (o * n)) by (nonlinear_arith)
        requires
            -o <= hx <= o,
            -o <= hy <= o,
            0 <= r < n,
            0 <= s < n,
            o == 100_000_000,
            cross == hx * r + hy * s,
    ;
    assert(within(n * cross, 2 * (o * nn))) by (nonlinear_arith)
        requires
            -2 * (o * n) <= cross <= 2 * (o * n),
            n > 0,
            nn == n * n,
    ;
    assert(0 <= r * r <= nn && 0 <= s * s <= nn) by (nonlinear_arith)
        requires
            0 <= r < n,
            0 <= s < n,
            nn == n * n,
    ;
    // one part in four million
    assert(sq * 4_000_000_000 <= nn * 4_000_002_001) by (nonlinear_arith)
        requires
            4_000_000 <= n,
            sq < (n + 1) * (n + 1),
            nn == n * n,
    ;
    assert(o * o * sq >= o * o * nn);
    assert(nn * l >= o * o * nn - 4 * (o * nn) - 2 * nn);
    assert(nn * (o * o - 5 * o) == o * o * nn - 5 * (o * nn)) by (nonlinear_arith);
    assert(nn * l >= nn * (o * o - 5 * o));
    assert(l >= o * o - 5 * o) by (nonlinear_arith)
        requires
            nn * l >= nn * (o * o - 5 * o),
            nn > 0,
    ;
    assert(4_000_000_000 * (nn * l) <= o * o * (nn * 4_000_002_001) + 4_000_000_000 * (4 * (o * nn)));
    assert(nn * (o * o + 55 * o) == o * o * nn + 55 * (o * nn)) by (nonlinear_arith);
    assert(nn * l <= nn * (o * o + 55 * o));
    assert(l <= o * o + 55 * o) by (nonlinear_arith)
        requires
            nn * l <= nn * (o * o + 55 * o),
            nn > 0,
    ;
}

/// What the bisector of two directions has in common with one of them, against
/// what the two have in common.
#[verifier::spinoff_prover]
proof fn lemma_half(p: int, q: int, a: int, n: int, d: int, r: int)
    requires
        0 < n,
        n * n <= p + q,
        10_000_000_000_000_000 - 500_000_000 + a <= p <= 10_000_000_000_000_000 + 5_500_000_000 + a,
        10_000_000_000_000_000 - 500_000_000 + a <= q <= 10_000_000_000_000_000 + 5_500_000_000 + a,
        7_000_000_000_000_000 <= a <= 10_000_000_000_000_000 + 5_500_000_000,
        // `d` is what they have in common, `n` times
        n * d == 100_000_000 * p - r,
        within(r, 200_000_000 * n),
    ensures
        d >= a - 20_000_000_000,
{
    let o: int = 100_000_000;
    let b = a - 198 * o;
    if d < a - 200 * o {
        assert(o * p <= n * b) by {
            assert(n * d <= n * (a - 200 * o)) by (nonlinear_arith)
                requires
                    d < a - 200 * o,
                    n > 0,
            ;
            assert(n * (a - 200 * o) == n * b - 2 * (o * n)) by (nonlinear_arith)
                requires
                    b == a - 198 * o,
            ;
        }
        // squared
        assert(o * p * (o * p) <= n * b * (n * b)) by (nonlinear_arith)
            requires
                0 <= o * p <= n * b,
        ;
        assert(o * p * (o * p) == o * o * (p * p)) by (nonlinear_arith);
        assert(n * b * (n * b) == n * n * (b * b)) by (nonlinear_arith);
        let bb = b * b;
        assert(n * n * bb <= (2 * p + 60 * o) * bb) by (nonlinear_arith)
            requires
                n * n <= 2 * p + 60 * o,
                bb == b * b,
        ;
        let (x, y) = (2 * p + 60 * o, o * o - 140 * o);
        assert(0 < b && b <= y && 2 * b <= p - 330 * o);
        assert(x * bb <= x * (b * y)) by (nonlinear_arith)
            requires
                0 <= x,
                0 < b <= y,
                bb == b * b,
        ;
        assert(x * (b * y) == x * b * y) by (nonlinear_arith);
        assert(x * b <= p * p) by (nonlinear_arith)
            requires
                x == 2 * p + 60 * o,
                2 * b <= p - 330 * o,
                0 < b,
                0 < p,
                o > 0,
        ;
        assert(x * b * y <= p * p * y) by (nonlinear_arith)
            requires
                x * b <= p * p,
                0 <= y,
        ;
        assert(p * p * y < o * o * (p * p)) by (nonlinear_arith)
            requires
                y < o * o,
                0 < p,
        ;
        assert(false);
    }
}

proof fn lemma_product(h: Hue, t: Hue)
    requires
        h.x * h.x + h.y * h.y <= 10_000_000_000_000_000 + 5_500_000_000,
        t.x * t.x + t.y * t.y <= 10_000_000_000_000_000 + 5_500_000_000,
    ensures
        h.x * t.x + h.y * t.y <= 10_000_000_000_000_000 + 5_500_000_000,
{
    let (a, b, c, d) = (h.x as int, h.y as int, t.x as int, t.y as int);
    assert(2 * (a * c) <= a * a + c * c && 2 * (b * d) <= b * b + d * d) by (nonlinear_arith);
}

/// Half way between two directions that are near one another: it agrees with
/// each of them as well as they with one another or better, and as well with
/// the one as with the other, but for what is rounded.
#[verifier::spinoff_prover]
pub proof fn law_half_way_is_between(h: Hue, t: Hue)
    requires
        pointing(h),
        pointing(t),
        10_000_000_000_000_000 - 500_000_000 <= h.x * h.x + h.y * h.y <= 10_000_000_000_000_000 + 5_500_000_000,
        10_000_000_000_000_000 - 500_000_000 <= t.x * t.x + t.y * t.y <= 10_000_000_000_000_000 + 5_500_000_000,
        h.x * t.x + h.y * t.y >= 7_000_000_000_000_000,
    ensures
        ({
            let m = halfway(h, t);
            &&& m.x * h.x + m.y * h.y >= h.x * t.x + h.y * t.y - 20_000_000_000
            &&& m.x * t.x + m.y * t.y >= h.x * t.x + h.y * t.y - 20_000_000_000
            &&& within((m.x * h.x + m.y * h.y) - (m.x * t.x + m.y * t.y), 7_000_000_000)
        }),
{
    let (x, y) = (h.x + t.x, h.y + t.y);
    law_a_direction_is_that_of_its_axes(x, y);
    let n = chroma_of(x, y);
    let m = halfway(h, t);
    let a = h.x * t.x + h.y * t.y;
    let (p, q) = (h.x * h.x + h.y * h.y + a, t.x * t.x + t.y * t.y + a);
    lemma_product(h, t);
    assert(x * x + y * y == p + q) by (nonlinear_arith)
        requires
            x == h.x + t.x,
            y == h.y + t.y,
            a == h.x * t.x + h.y * t.y,
            p == h.x * h.x + h.y * h.y + a,
            q == t.x * t.x + t.y * t.y + a,
    ;
    assert(n >= 100_000_000) by (nonlinear_arith)
        requires
            p + q < (n + 1) * (n + 1),
            p + q >= 30_000_000_000_000_000,
            n >= 0,
    ;
    let (rx, ry) = (x * 100_000_000 - n * m.x, y * 100_000_000 - n * m.y);
    lemma_common(h, t, m, x, y, n, rx, ry, h.x as int, h.y as int, p);
    assert(x * h.x + y * h.y == p) by (nonlinear_arith)
        requires
            x == h.x + t.x,
            y == h.y + t.y,
            a == h.x * t.x + h.y * t.y,
            p == h.x * h.x + h.y * h.y + a,
    ;
    assert(x * t.x + y * t.y == q) by (nonlinear_arith)
        requires
            x == h.x + t.x,
            y == h.y + t.y,
            a == h.x * t.x + h.y * t.y,
            q == t.x * t.x + t.y * t.y + a,
    ;
    lemma_common(h, t, m, x, y, n, rx, ry, t.x as int, t.y as int, q);
    let (dh, dt) = (m.x * h.x + m.y * h.y, m.x * t.x + m.y * t.y);
    lemma_half(p, q, a, n, dh, 100_000_000 * p - n * dh);
    lemma_half(q, p, a, n, dt, 100_000_000 * q - n * dt);
    assert(n * (dh - dt) == n * dh - n * dt) by (nonlinear_arith);
    let w = n * (dh - dt);
    assert(within(w, 600_000_000_000_000_000 + 400_000_000 * n));
    assert(within(dh - dt, 7_000_000_000)) by (nonlinear_arith)
        requires
            w == n * (dh - dt),
            -(600_000_000_000_000_000 + 400_000_000 * n) <= w <= 600_000_000_000_000_000 + 400_000_000 * n,
            n >= 100_000_000,
    ;
}

proof fn lemma_common(
    h: Hue,
    t: Hue,
    m: Hue,
    x: int,
    y: int,
    n: int,
    rx: int,
    ry: int,
    ux: int,
    uy: int,
    p: int,
)
    requires
        rx == x * 100_000_000 - n * m.x,
        ry == y * 100_000_000 - n * m.y,
        0 <= rx < n,
        0 <= ry < n,
        within(ux, ONE as int),
        within(uy, ONE as int),
    ensures
        n * (m.x * ux + m.y * uy) == 100_000_000 * (x * ux + y * uy) - (rx * ux + ry * uy),
        within(rx * ux + ry * uy, 200_000_000 * n),
{
    let (mx, my) = (m.x as int, m.y as int);
    assert(n * (mx * ux + my * uy) == (n * mx) * ux + (n * my) * uy) by (nonlinear_arith);
    assert((n * mx) * ux == 100_000_000 * (x * ux) - rx * ux) by (nonlinear_arith)
        requires
            rx == x * 100_000_000 - n * mx,
    ;
    assert((n * my) * uy == 100_000_000 * (y * uy) - ry * uy) by (nonlinear_arith)
        requires
            ry == y * 100_000_000 - n * my,
    ;
    crate::fixed::lemma_within(rx, ux, n, 100_000_000);
    crate::fixed::lemma_within(ry, uy, n, 100_000_000);
}

/// One of the sixteen that has a hue: neither a black nor a white nor a grey.
pub open spec fn chromatic(ansi: [u32; 16], i: int) -> bool {
    0 < i < 15 && i != 7 && i != 8 && own_chroma(ansi[i]) >= 4_000_000
}

/// The direction of a colour's own axes.
pub open spec fn true_hue(rgb: u32) -> Hue {
    direction(lab_of(light_of(rgb)).a as int, lab_of(light_of(rgb)).b as int)
}

/// What two directions have in common.
pub open spec fn common(p: Hue, q: Hue) -> int {
    p.x * q.x + p.y * q.y
}

proof fn lemma_nearest(h: Hue, ansi: [u32; 16], n: int)
    requires
        0 <= n <= 16,
    ensures
        nearest(h, ansi, n) is None <==> forall|i: int| 0 <= i < n ==> !(#[trigger] chromatic(ansi, i)),
        nearest(h, ansi, n) is Some ==> ({
            let k = nearest(h, ansi, n)->0;
            0 <= k < n && chromatic(ansi, k) && forall|i: int|
                0 <= i < n && #[trigger] chromatic(ansi, i) ==> common(h, true_hue(ansi[i])) <= common(
                    h,
                    true_hue(ansi[k]),
                )
        }),
    decreases n,
{
    if n > 0 {
        lemma_nearest(h, ansi, n - 1);
        assert(chromatic(ansi, n - 1) == offers(ansi, n - 1));
        assert(theme_hue(ansi, n - 1) == true_hue(ansi[n - 1]));
        let before = nearest(h, ansi, n - 1);
        if before is Some {
            assert(theme_hue(ansi, before->0) == true_hue(ansi[before->0]));
        }
        if nearest(h, ansi, n) is Some {
            let k = nearest(h, ansi, n)->0;
            assert(chromatic(ansi, k));
            assert forall|i: int| 0 <= i < n && #[trigger] chromatic(ansi, i) implies common(h, true_hue(ansi[i]))
                <= common(h, true_hue(ansi[k])) by {
                if i < n - 1 {
                    assert(chromatic(ansi, i));
                }
            }
        }
    }
}

/// The hue that a colour is given stays by its own.  A grey keeps it, and so
/// does a colour that no hue of the theme's sixteen is within reach of; any
/// other is given one half way between its own and the nearest of the
/// sixteen, the two of which agree no less with it than with one another, but
/// for what is rounded, and never point the other way.
#[verifier::spinoff_prover]
pub proof fn law_a_hue_stays_by_its_own(fg: u32, ansi: [u32; 16])
    ensures
        own_chroma(fg) < 4_000_000 ==> own_hue(fg, ansi) == true_hue(fg),
        (forall|i: int| #[trigger]
            chromatic(ansi, i) ==> common(true_hue(fg), true_hue(ansi[i])) < 7_648_421_900_000_000) ==> own_hue(
            fg,
            ansi,
        ) == true_hue(fg),
        own_chroma(fg) >= 4_000_000 && (exists|i: int| #[trigger]
            chromatic(ansi, i) && common(true_hue(fg), true_hue(ansi[i])) >= 7_648_421_900_000_000) ==> exists|k: int|
            {
                &&& #[trigger] chromatic(ansi, k)
                &&& forall|i: int| #[trigger]
                    chromatic(ansi, i) ==> common(true_hue(fg), true_hue(ansi[i])) <= common(
                        true_hue(fg),
                        true_hue(ansi[k]),
                    )
                &&& common(own_hue(fg, ansi), true_hue(fg)) >= common(true_hue(fg), true_hue(ansi[k])) - 20_000_000_000
                &&& common(own_hue(fg, ansi), true_hue(ansi[k])) >= common(true_hue(fg), true_hue(ansi[k]))
                    - 20_000_000_000
                &&& within(
                    common(own_hue(fg, ansi), true_hue(fg)) - common(own_hue(fg, ansi), true_hue(ansi[k])),
                    7_000_000_000,
                )
            },
        own_chroma(fg) >= 4_000_000 ==> common(own_hue(fg, ansi), true_hue(fg)) > 0,
{
    let h = true_hue(fg);
    let lab = lab_of(light_of(fg));
    lemma_lab(light_of(fg));
    lemma_nearest(h, ansi, 16);
    if own_chroma(fg) >= 4_000_000 {
        lemma_length(lab.a as int, lab.b as int);
        assert(own_hue(fg, ansi) == harmonised(h, own_chroma(fg), ansi));
    }
    let near = nearest(h, ansi, 16);
    if near is Some {
        let k = near->0;
        assert(chromatic(ansi, k));
        let other = lab_of(light_of(ansi[k]));
        lemma_lab(light_of(ansi[k]));
        lemma_length(other.a as int, other.b as int);
        let t = true_hue(ansi[k]);
        assert(theme_hue(ansi, k) == t);
        assert(agreement(h, t) == common(h, t));
        if own_chroma(fg) >= 4_000_000 && common(h, t) >= 7_648_421_900_000_000 {
            law_half_way_is_between(h, t);
        }
    }
}

/// Two to the `k`.
pub open spec fn halvings(k: int) -> int
    decreases k,
{
    if k <= 0 {
        1
    } else {
        2 * halvings(k - 1)
    }
}

/// `m` is between the two.
pub open spec fn between(a: int, m: int, b: int) -> bool {
    a <= m <= b || b <= m <= a
}

/// How far the two are apart.
pub open spec fn distance(a: int, b: int) -> int {
    if a <= b {
        b - a
    } else {
        a - b
    }
}

/// A lightness at which the ink does not read is by the edge `e`: on the way
/// to it from `lo`, and less far from it than `far` in `parts`, and one.
pub open spec fn short_of(bg: u32, c: int, h: Hue, lo: int, e: int, far: int, parts: int, q: int) -> bool {
    &&& !reads(inked(q, c, h), bg)
    &&& between(lo, q, e)
    &&& within((e - q) * parts, far + parts - 1)
}

proof fn lemma_edge(bg: u32, c: int, h: Hue, lo: int, hi: int, k: int) -> (q: int)
    requires
        !reads(inked(lo, c, h), bg),
        reads(inked(hi, c, h), bg),
        0 <= k,
    ensures
        reads(inked(edge(bg, c, h, lo, hi, k), c, h), bg),
        between(lo, edge(bg, c, h, lo, hi, k), hi),
        short_of(
            bg,
            c,
            h,
            lo,
            edge(bg, c, h, lo, hi, k),
            distance(lo, hi),
            halvings(k),
            q,
        ),
    decreases k,
{
    if k == 0 {
        assert(halvings(0) == 1);
        assert((hi - lo) * 1 == hi - lo) by (nonlinear_arith);
        lo
    } else {
        let mid = (lo + hi) / 2;
        let half = halvings(k - 1);
        let e = edge(bg, c, h, lo, hi, k);
        let q = if reads(inked(mid, c, h), bg) {
            lemma_edge(bg, c, h, lo, mid, k - 1)
        } else {
            lemma_edge(bg, c, h, mid, hi, k - 1)
        };
        assert(halvings(k) == 2 * half);
        lemma_positive(k - 1);
        let d = e - q;
        assert(d * (2 * half) == 2 * (d * half)) by (nonlinear_arith);
        q
    }
}

proof fn lemma_positive(k: int)
    ensures
        halvings(k) >= 1,
    decreases k,
{
    if k > 0 {
        lemma_positive(k - 1);
    }
}

/// The edge of reading that is found reads, lies on the way from the ink's
/// lightness to the end, and is by one that does not: no further from it than
/// a millionth of the way.
pub proof fn law_the_edge_is_where_reading_begins(bg: u32, c: int, h: Hue, l: int, end: int)
    requires
        !reads(inked(l, c, h), bg),
        reads(inked(end, c, h), bg),
    ensures
        ({
            let e = edge(bg, c, h, l, end, 20);
            &&& reads(inked(e, c, h), bg)
            &&& between(l, e, end)
            &&& exists|q: int|
                short_of(bg, c, h, l, e, distance(l, end), 1_048_576, q)
        }),
{
    let q = lemma_edge(bg, c, h, l, end, 20);
    reveal_with_fuel(halvings, 21);
    assert(halvings(20) == 1_048_576);
    assert(short_of(bg, c, h, l, edge(bg, c, h, l, end, 20), distance(l, end), 1_048_576, q));
}

/// `n` is past `e` by half of what `e` is past `l`, rounded down, but not past
/// black or white.
pub open spec fn half_as_far_again(l: int, e: int, n: int) -> bool {
    &&& 0 <= n <= 100_000_000
    &&& 0 < n < 100_000_000 ==> 2 * (n - e) <= e - l <= 2 * (n - e) + 1
    &&& n == 0 ==> e - l <= 2 * (n - e) + 1
    &&& n == 100_000_000 ==> 2 * (n - e) <= e - l
}

proof fn lemma_moved(bg: u32, l: int, c: int, h: Hue)
    ensures
        ({
            let end = far_end(bg);
            let e = edge(bg, c, h, l, end, 20);
            let r = moved(bg, l, c, h);
            &&& reads(inked(l, c, h), bg) ==> r == inked(l, c, h)
            &&& !reads(inked(l, c, h), bg) && !reads(inked(end, c, h), bg) ==> r == inked(end, c, h)
            &&& !reads(inked(l, c, h), bg) && reads(inked(end, c, h), bg) ==> exists|n: int|
                {
                    &&& #[trigger] half_as_far_again(l, e, n)
                    &&& r == if reads(inked(n, c, h), bg) {
                        inked(n, c, h)
                    } else {
                        inked(e, c, h)
                    }
                    &&& reads(r, bg)
                    &&& 0 <= l <= 100_000_000 ==> between(e, n, end)
                }
        }),
{
    let end = far_end(bg);
    if !reads(inked(l, c, h), bg) && reads(inked(end, c, h), bg) {
        let e = edge(bg, c, h, l, end, 20);
        law_the_edge_is_where_reading_begins(bg, c, h, l, end);
        assert(half_as_far_again(l, e, mirrored(e, l)));
    }
}

/// An ink is corrected in nothing but its lightness: it keeps its chroma, and
/// the hue that it is given.  It is moved toward the end and never past it:
/// not at all, if it reads as it is with that hue; to the end, if it does not
/// read even there; else to the edge of reading, or half as far again where
/// it reads there.
pub proof fn law_only_the_lightness_is_moved(fg: u32, bg: u32, th: Theme)
    requires
        !reads(fg, bg),
    ensures
        ({
            let l = lab_of(light_of(fg)).l as int;
            let (c, h) = (own_chroma(fg), own_hue(fg, th.ansi));
            let end = far_end(bg);
            let e = edge(bg, c, h, l, end, 20);
            &&& end == 0 || end == 100_000_000
            &&& reads(inked(l, c, h), bg) ==> corrected(fg, bg, th) == inked(l, c, h)
            &&& !reads(inked(l, c, h), bg) && !reads(inked(end, c, h), bg) ==> corrected(fg, bg, th) == inked(end, c, h)
            &&& !reads(inked(l, c, h), bg) && reads(inked(end, c, h), bg) ==> exists|n: int|
                {
                    &&& #[trigger] half_as_far_again(l, e, n)
                    &&& corrected(fg, bg, th) == if reads(inked(n, c, h), bg) {
                        inked(n, c, h)
                    } else {
                        inked(e, c, h)
                    }
                    &&& reads(corrected(fg, bg, th), bg)
                    &&& 0 <= l <= 100_000_000 ==> between(e, n, end)
                }
        }),
{
    reveal(corrected);
    lemma_moved(bg, lab_of(light_of(fg)).l as int, own_chroma(fg), own_hue(fg, th.ansi));
}

proof fn lemma_most_chroma(l: int, h: Hue, lo: int, hi: int, k: int) -> (q: int)
    requires
        0 <= k,
        lo <= hi,
    ensures
        ({
            let m = most_chroma(l, h, lo, hi, k);
            &&& lo <= m <= q <= hi
            &&& m == lo || shows(colored(l, m, h))
            &&& q == hi || !shows(colored(l, q, h))
            &&& (q - m) * halvings(k) < hi - lo + halvings(k)
        }),
    decreases k,
{
    if k == 0 {
        assert(halvings(0) == 1);
        hi
    } else {
        let mid = (lo + hi) / 2;
        let half = halvings(k - 1);
        lemma_positive(k - 1);
        let q = if shows(colored(l, mid, h)) {
            lemma_most_chroma(l, h, mid, hi, k - 1)
        } else {
            lemma_most_chroma(l, h, lo, mid, k - 1)
        };
        let d = q - most_chroma(l, h, lo, hi, k);
        assert(halvings(k) == 2 * half);
        assert(d * (2 * half) == 2 * (d * half)) by (nonlinear_arith);
        q
    }
}

/// The light of a chroma, no channel past black or white.
pub open spec fn held(x: i64) -> int {
    if x < 0 {
        0
    } else if x > 100_000_000 {
        100_000_000
    } else {
        x as int
    }
}

/// A colour that sRGB has is shown as it is; of another as much chroma is
/// kept as sRGB has: a little more, and it does not have it.
pub proof fn law_as_much_chroma_is_kept_as_there_is(l: int, c: int, h: Hue)
    requires
        0 <= c,
    ensures
        shows(colored(l, c, h)) ==> fitted(l, c, h) == colored(l, c, h),
        !shows(colored(l, c, h)) ==> exists|m: int, q: int|
            {
                &&& 0 <= m <= q <= c
                &&& m == 0 || shows(#[trigger] colored(l, m, h))
                &&& !shows(#[trigger] colored(l, q, h))
                &&& (q - m) * 65_536 < c + 65_536
                &&& fitted(l, c, h).r == held(colored(l, m, h).r)
                &&& fitted(l, c, h).g == held(colored(l, m, h).g)
                &&& fitted(l, c, h).b == held(colored(l, m, h).b)
            },
{
    let q = lemma_most_chroma(l, h, 0, c, 16);
    let m = most_chroma(l, h, 0, c, 16);
    reveal_with_fuel(halvings, 17);
    assert(halvings(16) == 65_536);
    if !shows(colored(l, c, h)) {
        assert(!shows(colored(l, q, h)));
        assert(m == 0 || shows(colored(l, m, h)));
    }
}

/// Two luminances, in ten-thousandths of `ONE`ths, are four and a half to one
/// or further apart, with a twentieth of white's added to each.
pub open spec fn apart(x: int, y: int) -> bool {
    2 * (x + 50_000_000_000) >= 9 * (y + 50_000_000_000) || 2 * (y + 50_000_000_000) >= 9 * (x + 50_000_000_000)
}

/// Ink reads on paper just where the two are four and a half to one apart in
/// luminance, to a normal viewer and to a deuteranope.
#[verifier::rlimit(40)]
#[verifier::spinoff_prover]
pub proof fn law_reading_is_four_and_a_half_to_one(fg: u32, bg: u32)
    ensures
        reads(fg, bg) <==> apart(luminance_of(light_of(fg)), luminance_of(light_of(bg))) && apart(
            luminance_of(seen_of(light_of(fg))),
            luminance_of(seen_of(light_of(bg))),
        ),
{
    let (f, b) = (light_of(fg), light_of(bg));
    law_what_reads_reads_to_both(fg, bg);
    lemma_meets(f, b);
    lemma_meets(seen_of(f), seen_of(b));
    assert(deuteranope_contrast(f, b) == contrast_of(seen_of(f), seen_of(b)));
}

proof fn lemma_meets(f: Lin, b: Lin)
    ensures
        meets(contrast_of(f, b)) <==> apart(luminance_of(f), luminance_of(b)),
{
    assert(0 <= luminance_of(f) <= 1_000_000_000_000);
    assert(0 <= luminance_of(b) <= 1_000_000_000_000);
}

/// Luminance is the three channels' light, of which red counts for 2126 parts
/// in ten thousand, green for 7152 and blue for 722, none counting past black
/// or white.
pub proof fn law_luminance_weighs_the_channels(r: i64, g: i64, b: i64)
    ensures
        luminance_of(Lin { r, g, b }) == luminance_of(Lin { r, g: 0, b: 0 }) + luminance_of(Lin { r: 0, g, b: 0 })
            + luminance_of(Lin { r: 0, g: 0, b }),
        luminance_of(Lin { r, g: 0, b: 0 }) == 2126 * held(r),
        luminance_of(Lin { r: 0, g, b: 0 }) == 7152 * held(g),
        luminance_of(Lin { r: 0, g: 0, b }) == 722 * held(b),
{
}

/// A deuteranope sees red light and green as one hue, in which they differ in
/// strength, and blue nearly as it is; and greys as they are, but for what is
/// rounded.
pub proof fn law_what_a_deuteranope_sees(v: i64)
    requires
        0 <= v <= 100_000_000,
    ensures
        ({
            let (r, g, b) = (
                seen_of(Lin { r: v, g: 0, b: 0 }),
                seen_of(Lin { r: 0, g: v, b: 0 }),
                seen_of(Lin { r: 0, g: 0, b: v }),
            );
            let grey = seen_of(Lin { r: v, g: v, b: v });
            &&& r.r * 1_000_000 <= 367_322 * v < (r.r + 1) * 1_000_000
            &&& r.g * 1_000_000 <= 280_085 * v < (r.g + 1) * 1_000_000
            &&& r.b * 1_000_000 <= -11_820 * v < (r.b + 1) * 1_000_000
            &&& g.r * 1_000_000 <= 860_646 * v < (g.r + 1) * 1_000_000
            &&& g.g * 1_000_000 <= 672_501 * v < (g.g + 1) * 1_000_000
            &&& g.b * 1_000_000 <= 42_940 * v < (g.b + 1) * 1_000_000
            &&& b.r * 1_000_000 <= -227_968 * v < (b.r + 1) * 1_000_000
            &&& b.g * 1_000_000 <= 47_413 * v < (b.g + 1) * 1_000_000
            &&& b.b * 1_000_000 <= 968_881 * v < (b.b + 1) * 1_000_000
            &&& within(grey.r - v, 101) && within(grey.g - v, 101) && within(grey.b - v, 101)
        }),
{
}

#[verifier::rlimit(100)]
#[verifier::spinoff_prover]
proof fn lemma_table(k: int)
    requires
        0 <= k < 255,
    ensures
        LINEAR[k] < STEPS[k] <= LINEAR[k + 1],
{
}

#[verifier::rlimit(100)]
#[verifier::spinoff_prover]
proof fn lemma_steps_rise(k: int)
    requires
        0 <= k < 254,
    ensures
        STEPS[k] < STEPS[k + 1],
{
}

proof fn lemma_steps_order(j: int, k: int)
    requires
        0 <= j <= k < 255,
    ensures
        STEPS[j] <= STEPS[k],
    decreases k - j,
{
    if j < k {
        lemma_steps_order(j, k - 1);
        lemma_steps_rise(k - 1);
    }
}

proof fn lemma_back(v: int)
    requires
        0 <= v <= 255,
    ensures
        rounded(LINEAR[v] as int, 0) == v,
{
    let c = LINEAR[v] as int;
    lemma_rounded(c, 0);
    let k = rounded(c, 0);
    if k < v {
        lemma_steps_order(k, v - 1);
        lemma_table(v - 1);
    } else if k > v {
        lemma_table(v);
    }
}

/// The light of a colour is packed to the same colour, and brighter channels
/// have more light.
pub proof fn law_light_is_packed_as_it_was(rgb: u32)
    requires
        rgb <= 0xff_ffff,
    ensures
        packed(light_of(rgb)) == rgb,
        light_of(0) == (Lin { r: 0, g: 0, b: 0 }),
        forall|v: int| 0 <= v < 255 ==> LINEAR[v] < #[trigger] LINEAR[v + 1],
{
    lemma_back(channel(rgb, 65536));
    lemma_back(channel(rgb, 256));
    lemma_back(channel(rgb, 1));
    assert(rgb == channel(rgb, 65536) * 65536 + channel(rgb, 256) * 256 + channel(rgb, 1));
    assert forall|v: int| 0 <= v < 255 implies LINEAR[v] < #[trigger] LINEAR[v + 1] by {
        lemma_table(v);
    }
}

} // verus!
