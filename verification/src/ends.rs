//! The ends of lightness: how near to black and to white an ink of any hue
//! is brought, and that on grey paper one of the two reads.

use vstd::prelude::*;

use crate::contrast::{
    bounded, channel, chroma_of, clamped, colored, cone, cone_light, contrast_for_both, corrected, cubed, direction,
    far_end, fitted, inked, lab_light, lab_of, law_every_answer_reads_or_is_as_far_as_it_goes,
    law_what_reads_reads_to_both, lemma_side_within, light_of, lit, luminance_of, meets, most_chroma, nearest, no_less,
    own_chroma, own_hue, packed, pointing, ratio_of, reads, rounded, seen_of, shows, theme_hue, Hue, Lin, Ratio,
    CONE_MOST, LAB_MOST, LINEAR, ONE, STEPS,
};
use crate::fixed::{cbrt_of, lemma_cbrt_from, lemma_cube_grows, lemma_sqrt_from, lemma_within, lemma_within_div, within};
use crate::theme::Theme;

verus! {

/// No channel is more than a few steps from black.
pub open spec fn nearly_black(rgb: u32) -> bool {
    channel(rgb, 65536) <= 14 && channel(rgb, 256) <= 14 && channel(rgb, 1) <= 14
}

/// No channel is more than a step or two from white.
pub open spec fn nearly_white(rgb: u32) -> bool {
    channel(rgb, 65536) >= 253 && channel(rgb, 256) >= 253 && channel(rgb, 1) >= 253
}

/// A colour whose channels are one.
pub open spec fn grey(rgb: u32) -> bool {
    channel(rgb, 65536) == channel(rgb, 256) == channel(rgb, 1)
}

// The ink's own chroma and hue.

proof fn lemma_cone(c: Lin, wr: int, wg: int, wb: int)
    requires
        lit(c),
        0 <= wr <= 10_000_000_000,
        0 <= wg <= 10_000_000_000,
        0 <= wb <= 10_000_000_000,
    ensures
        0 <= cone(c, wr, wg, wb) <= 0x1_0000_0000,
{
    lemma_within(wr, c.r as int, 10_000_000_000, u32::MAX as int);
    lemma_within(wg, c.g as int, 10_000_000_000, u32::MAX as int);
    lemma_within(wb, c.b as int, 10_000_000_000, u32::MAX as int);
    assert(wr * c.r >= 0 && wg * c.g >= 0 && wb * c.b >= 0) by (nonlinear_arith)
        requires
            wr >= 0,
            wg >= 0,
            wb >= 0,
            c.r >= 0,
            c.g >= 0,
            c.b >= 0,
    ;
    let n = (wr * c.r + wg * c.g + wb * c.b) * 1_000_000;
    lemma_cbrt_from(n, 0);
    let r = cbrt_of(n);
    if r > 0x1_0000_0000 {
        lemma_cube_grows(0x1_0000_0000, r);
        assert(0x1_0000_0000int * 0x1_0000_0000int * 0x1_0000_0000int > n);
    }
}

pub(crate) proof fn lemma_lab(c: Lin)
    requires
        lit(c),
    ensures
        within(lab_of(c).l as int, LAB_MOST as int),
        within(lab_of(c).a as int, LAB_MOST as int),
        within(lab_of(c).b as int, LAB_MOST as int),
{
    reveal(lab_of);
    lemma_cone(c, 4122214708, 5363325363, 514459929);
    lemma_cone(c, 2119034982, 6806995451, 1073969566);
    lemma_cone(c, 883024619, 2817188376, 6299787005);
}

pub(crate) proof fn lemma_polar(x: int, y: int)
    requires
        within(x, LAB_MOST as int),
        within(y, LAB_MOST as int),
    ensures
        0 <= chroma_of(x, y) <= 2 * LAB_MOST,
        pointing(direction(x, y)),
{
    lemma_within(x, x, LAB_MOST as int, LAB_MOST as int);
    lemma_within(y, y, LAB_MOST as int, LAB_MOST as int);
    assert(x * x >= 0 && y * y >= 0) by (nonlinear_arith);
    lemma_sqrt_from(x * x + y * y, 0);
    let n = chroma_of(x, y);
    assert(n <= 2 * LAB_MOST) by (nonlinear_arith)
        requires
            n * n <= x * x + y * y,
            x * x <= LAB_MOST * LAB_MOST,
            y * y <= LAB_MOST * LAB_MOST,
            0 <= n,
            LAB_MOST > 0,
    ;
    if n > 0 {
        lemma_side_within(x, n, y * y);
        lemma_side_within(y, n, x * x);
        lemma_within(x, ONE as int, n, ONE as int);
        lemma_within(y, ONE as int, n, ONE as int);
        assert(n * ONE == ONE * n) by (nonlinear_arith);
        lemma_within_div(x * ONE, ONE as int, n);
        lemma_within_div(y * ONE, ONE as int, n);
    }
}

pub(crate) proof fn lemma_own(fg: u32, th: Theme)
    ensures
        0 <= own_chroma(fg) <= 2 * LAB_MOST,
        pointing(own_hue(fg, th.ansi)),
{
    let lab = lab_of(light_of(fg));
    lemma_lab(light_of(fg));
    lemma_polar(lab.a as int, lab.b as int);
    let h = direction(lab.a as int, lab.b as int);
    let near = nearest(h, th.ansi, 16);
    if near is Some {
        let i = near->0;
        let other = lab_of(light_of(th.ansi[i]));
        lemma_lab(light_of(th.ansi[i]));
        lemma_polar(other.a as int, other.b as int);
        let t = theme_hue(th.ansi, i);
        lemma_polar(h.x + t.x, h.y + t.y);
    }
}

// Eight bits.

pub(crate) proof fn lemma_rounded(c: int, i: int)
    requires
        0 <= i <= 255,
    ensures
        i <= rounded(c, i) <= 255,
        rounded(c, i) < 255 ==> STEPS[rounded(c, i)] > c,
        forall|j: int| i <= j < rounded(c, i) ==> #[trigger] STEPS[j] <= c,
    decreases 255 - i,
{
    if i < 255 && STEPS[i] <= c {
        lemma_rounded(c, i + 1);
    }
}

/// Little light is rounded up by little.
#[verifier::rlimit(60)]
#[verifier::spinoff_prover]
proof fn lemma_little(c: int)
    requires
        c <= 430_000,
    ensures
        0 <= rounded(c, 0) <= 14,
        c <= 15_000 ==> rounded(c, 0) == 0,
        0 <= LINEAR[rounded(c, 0)] <= clamped(c, ONE as int) + 21_000,
{
    lemma_rounded(c, 0);
    let k = rounded(c, 0);
    if k > 14 {
        assert(STEPS[14] <= c);
    }
    if k > 0 {
        assert(STEPS[k - 1] <= c);
        lemma_low_step(k - 1);
    }
}

proof fn lemma_low_step(j: int)
    requires
        0 <= j < 14,
    ensures
        15_177 <= STEPS[j],
        LINEAR[j + 1] <= STEPS[j] + 21_000,
        LINEAR[0] == 0,
{
}

/// All but all the light there is is rounded to all but white.
#[verifier::rlimit(60)]
#[verifier::spinoff_prover]
proof fn lemma_much(c: int)
    requires
        c >= 98_000_000,
    ensures
        253 <= rounded(c, 0) <= 255,
        c >= 99_600_000 ==> rounded(c, 0) == 255,
        98_225_055 <= LINEAR[rounded(c, 0)] <= ONE,
        c >= 99_600_000 ==> LINEAR[rounded(c, 0)] == ONE,
{
    lemma_rounded(c, 0);
    let k = rounded(c, 0);
    if k < 253 {
        lemma_steps(k);
    }
    assert(STEPS[253] <= 99_600_000 && STEPS[254] <= 99_600_000);
    assert(LINEAR[253] == 98_225_055 && LINEAR[254] == 99_110_210 && LINEAR[255] == ONE);
}

proof fn lemma_steps(j: int)
    requires
        0 <= j < 253,
    ensures
        STEPS[j] <= 98_000_000,
{
}

#[verifier::rlimit(60)]
#[verifier::spinoff_prover]
pub(crate) proof fn lemma_channels(l: Lin)
    ensures
        channel(packed(l) as u32, 65536) == rounded(l.r as int, 0),
        channel(packed(l) as u32, 256) == rounded(l.g as int, 0),
        channel(packed(l) as u32, 1) == rounded(l.b as int, 0),
        packed(l) as u32 == packed(l),
{
    lemma_byte(l.r as int);
    lemma_byte(l.g as int);
    lemma_byte(l.b as int);
    lemma_packed(rounded(l.r as int, 0), rounded(l.g as int, 0), rounded(l.b as int, 0));
}

proof fn lemma_byte(c: int)
    ensures
        0 <= rounded(c, 0) <= 255,
{
    lemma_rounded(c, 0);
}

#[verifier::rlimit(60)]
#[verifier::spinoff_prover]
pub(crate) proof fn lemma_packed(r: int, g: int, b: int)
    requires
        0 <= r <= 255,
        0 <= g <= 255,
        0 <= b <= 255,
    ensures
        ({
            let rgb = (r * 65536 + g * 256 + b) as u32;
            rgb == r * 65536 + g * 256 + b && channel(rgb, 65536) == r && channel(rgb, 256) == g && channel(rgb, 1) == b
        }),
{
}

// From Oklab back to light.

spec fn red(p: int, q: int, s: int) -> int {
    40767416621 * p - 33077115913 * q + 2309699292 * s
}

spec fn green(p: int, q: int, s: int) -> int {
    26097574011 * q - 12684380046 * p - 3413193965 * s
}

spec fn blue(p: int, q: int, s: int) -> int {
    17076147010 * s - 41960863 * p - 7034186147 * q
}

/// A cone's answer to a colour of Oklab.
spec fn answer(l: int, a: int, b: int, wa: int, wb: int) -> int {
    (l * 10_000_000_000 + wa * a + wb * b) / 10_000_000_000
}

proof fn lemma_cone_light(l: int, a: int, b: int, wa: int, wb: int)
    requires
        within(l, LAB_MOST as int),
        within(a, 2 * LAB_MOST),
        within(b, 2 * LAB_MOST),
        within(wa, 13_000_000_000),
        within(wb, 13_000_000_000),
    ensures
        cone_light(l, a, b, wa, wb) == cubed(answer(l, a, b, wa, wb)),
        within(cone_light(l, a, b, wa, wb), CONE_MOST as int),
{
    lemma_within(wa, a, 13_000_000_000, 2 * LAB_MOST);
    lemma_within(wb, b, 13_000_000_000, 2 * LAB_MOST);
    let n = l * 10_000_000_000 + wa * a + wb * b;
    lemma_within_div(n, 7 * LAB_MOST, 10_000_000_000);
    let x = n / 10_000_000_000;
    lemma_within(x, x, 7 * LAB_MOST, 7 * LAB_MOST);
    lemma_within(x * x, x, 7 * LAB_MOST * (7 * LAB_MOST), 7 * LAB_MOST);
    lemma_within_div(x * x * x, CONE_MOST as int, ONE * ONE);
}

/// The light of a colour of Oklab, by the answers of the three cones: what
/// each channel is, and that the answers keep to the lightness.
#[verifier::rlimit(60)]
#[verifier::spinoff_prover]
proof fn lemma_light(l: int, a: int, b: int)
    requires
        within(l, LAB_MOST as int),
        within(a, 2 * LAB_MOST),
        within(b, 2 * LAB_MOST),
    ensures
        ({
            let x = answer(l, a, b, 3963377774, 2158037573);
            let y = answer(l, a, b, -1055613458, -638541728);
            let z = answer(l, a, b, -894841775, -12914855480);
            let (p, q, s) = (cubed(x), cubed(y), cubed(z));
            let k = lab_light(l, a, b);
            &&& k.r == red(p, q, s) / 10_000_000_000
            &&& k.g == green(p, q, s) / 10_000_000_000
            &&& k.b == blue(p, q, s) / 10_000_000_000
            &&& within(2104542553 * x + 7936177850 * y - 40720468 * z - 9999999935 * l, 5_000_000_000_000)
        }),
{
    reveal(lab_light);
    lemma_cone_light(l, a, b, 3963377774, 2158037573);
    lemma_cone_light(l, a, b, -1055613458, -638541728);
    lemma_cone_light(l, a, b, -894841775, -12914855480);
    let x = answer(l, a, b, 3963377774, 2158037573);
    let y = answer(l, a, b, -1055613458, -638541728);
    let z = answer(l, a, b, -894841775, -12914855480);
    let (p, q, s) = (cubed(x), cubed(y), cubed(z));
    lemma_within_div(red(p, q, s), 8 * CONE_MOST, 10_000_000_000);
    lemma_within_div(green(p, q, s), 8 * CONE_MOST, 10_000_000_000);
    lemma_within_div(blue(p, q, s), 8 * CONE_MOST, 10_000_000_000);
}

proof fn lemma_cubed(x: int)
    ensures
        cubed(x) * 10_000_000_000_000_000 <= x * x * x < (cubed(x) + 1) * 10_000_000_000_000_000,
{
    assert(ONE * ONE == 10_000_000_000_000_000);
    let n = x * x * x;
    assert(n / 10_000_000_000_000_000 * 10_000_000_000_000_000 <= n);
}

proof fn lemma_cube_over(x: int, least: int, than: int)
    requires
        cubed(x) >= least,
        than * than * than < least * 10_000_000_000_000_000,
    ensures
        x > than,
{
    lemma_cubed(x);
    if x <= than {
        lemma_cube_grows(x, than);
    }
}

proof fn lemma_cube_under(x: int, most: int, than: int)
    requires
        cubed(x) <= most,
        than * than * than >= (most + 1) * 10_000_000_000_000_000,
    ensures
        x < than,
{
    lemma_cubed(x);
    if x >= than {
        lemma_cube_grows(than, x);
    }
}

/// At no lightness, where no channel is short of black by more than is let
/// pass, the cones hardly answer.
#[verifier::rlimit(60)]
#[verifier::spinoff_prover]
proof fn lemma_dark_cones(x: int, y: int, z: int)
    requires
        within(2104542553 * x + 7936177850 * y - 40720468 * z, 5_000_000_000_000),
        red(cubed(x), cubed(y), cubed(z)) >= -500_000_000_000_000,
        green(cubed(x), cubed(y), cubed(z)) >= -500_000_000_000_000,
        blue(cubed(x), cubed(y), cubed(z)) >= -500_000_000_000_000,
    ensures
        cubed(y) <= 1100,
        cubed(z) <= 260_000,
{
    let (p, q, s) = (cubed(x), cubed(y), cubed(z));
    assert(p >= -50_000);
    assert((-7_937_100int) * (-7_937_100int) * (-7_937_100int) < -50_000int * 10_000_000_000_000_000);
    lemma_cube_over(x, -50_000, -7_937_100);
    if s > 260_000 {
        assert(13_750_000int * 13_750_000int * 13_750_000int < 260_001int * 10_000_000_000_000_000);
        lemma_cube_over(z, 260_001, 13_750_000);
        assert(10_000 * y <= 1583 * z);
        lemma_cube_grows(10_000 * y, 1583 * z);
        assert((10_000 * y) * (10_000 * y) * (10_000 * y) == 1_000_000_000_000 * (y * y * y)) by (nonlinear_arith);
        assert((1583 * z) * (1583 * z) * (1583 * z) == 3_966_822_287 * (z * z * z)) by (nonlinear_arith);
        lemma_cubed(y);
        lemma_cubed(z);
        assert(false);
    }
    assert(13_751_000int * 13_751_000int * 13_751_000int >= 260_001int * 10_000_000_000_000_000);
    lemma_cube_under(z, 260_000, 13_751_000);
    assert(y <= 2_176_000);
    lemma_cube_grows(y, 2_176_000);
    lemma_cubed(y);
    assert(2_176_000int * 2_176_000int * 2_176_000int < 1101int * 10_000_000_000_000_000);
}

/// At all lightness, where no channel is past white by more than is let
/// pass, the cones answer all but fully.
#[verifier::rlimit(60)]
#[verifier::spinoff_prover]
proof fn lemma_light_cones(x: int, y: int, z: int)
    requires
        within(2104542553 * x + 7936177850 * y - 40720468 * z - 999_999_993_500_000_000, 5_000_000_000_000),
        -500_000_000_000_000 <= red(cubed(x), cubed(y), cubed(z)) <= 1_000_500_010_000_000_000,
        -500_000_000_000_000 <= green(cubed(x), cubed(y), cubed(z)) <= 1_000_500_010_000_000_000,
        -500_000_000_000_000 <= blue(cubed(x), cubed(y), cubed(z)) <= 1_000_500_010_000_000_000,
    ensures
        99_700_000 <= cubed(x) <= 100_050_001,
        99_960_000 <= cubed(y) <= 100_050_001,
        98_900_000 <= cubed(z) <= 100_050_001,
{
    let (p, q, s) = (cubed(x), cubed(y), cubed(z));
    lemma_light_bounds(p, q, s, q, 0);
    assert(100_016_700int * 100_016_700int * 100_016_700int >= 100_050_002int * 10_000_000_000_000_000);
    lemma_cube_under(x, 100_050_001, 100_016_700);
    lemma_cube_under(y, 100_050_001, 100_016_700);
    assert((-7_937_100int) * (-7_937_100int) * (-7_937_100int) < -50_000int * 10_000_000_000_000_000);
    lemma_cube_over(z, -50_000, -7_937_100);
    assert(97_840_000int * 97_840_000int * 97_840_000int >= 93_650_000int * 10_000_000_000_000_000);
    assert(99_440_000int * 99_440_000int * 99_440_000int >= 98_320_000int * 10_000_000_000_000_000);
    lemma_light_step(x, y, z, -7_937_100, 97_840_000, 99_440_000, 93_650_000, 98_320_000);
    lemma_light_bounds(p, q, s, 98_320_000, 86_800_000);
    assert(95_380_000int * 95_380_000int * 95_380_000int < 86_800_000int * 10_000_000_000_000_000);
    lemma_cube_over(z, 86_800_000, 95_380_000);
    assert(99_840_000int * 99_840_000int * 99_840_000int >= 99_520_000int * 10_000_000_000_000_000);
    assert(99_970_000int * 99_970_000int * 99_970_000int >= 99_910_000int * 10_000_000_000_000_000);
    lemma_light_step(x, y, z, 95_380_000, 99_840_000, 99_970_000, 99_520_000, 99_910_000);
    lemma_light_bounds(p, q, s, 99_910_000, 98_970_000);
    assert(99_650_000int * 99_650_000int * 99_650_000int < 98_970_000int * 10_000_000_000_000_000);
    lemma_cube_over(z, 98_970_000, 99_650_000);
    assert(99_920_000int * 99_920_000int * 99_920_000int >= 99_760_000int * 10_000_000_000_000_000);
    assert(99_990_000int * 99_990_000int * 99_990_000int >= 99_970_000int * 10_000_000_000_000_000);
    lemma_light_step(x, y, z, 99_650_000, 99_920_000, 99_990_000, 99_760_000, 99_970_000);
}

/// What bounds on the channels say of the cones; of the third, by what the
/// second is known to answer.
proof fn lemma_light_bounds(p: int, q: int, s: int, q0: int, s0: int)
    requires
        -500_000_000_000_000 <= red(p, q, s) <= 1_000_500_010_000_000_000,
        -500_000_000_000_000 <= green(p, q, s) <= 1_000_500_010_000_000_000,
        -500_000_000_000_000 <= blue(p, q, s) <= 1_000_500_010_000_000_000,
        q >= q0,
        s0 == 0 || 3413193965 * s0 <= 26097574011 * q0 - 12684380046 * 100_050_001 - 1_000_500_010_000_000_000,
    ensures
        -50_000 <= p <= 100_050_001,
        -50_000 <= q <= 100_050_001,
        -50_000 <= s <= 100_050_001,
        s0 != 0 ==> s >= s0,
{
}

/// What two of the cones answer, at all lightness, by what the third does.
proof fn lemma_light_step(x: int, y: int, z: int, least: int, x0: int, y0: int, p0: int, q0: int)
    requires
        within(2104542553 * x + 7936177850 * y - 40720468 * z - 999_999_993_500_000_000, 5_000_000_000_000),
        x <= 100_016_700,
        y <= 100_016_700,
        z >= least,
        2104542553 * x0 + 7936177850 * 100_016_700 < 999_999_993_500_000_000 + 40720468 * least - 5_000_000_000_000,
        2104542553 * 100_016_700 + 7936177850 * y0 < 999_999_993_500_000_000 + 40720468 * least - 5_000_000_000_000,
        x0 * x0 * x0 >= p0 * 10_000_000_000_000_000,
        y0 * y0 * y0 >= q0 * 10_000_000_000_000_000,
    ensures
        cubed(x) >= p0,
        cubed(y) >= q0,
{
    assert(x > x0 && y > y0);
    lemma_cube_grows(x0, x);
    lemma_cube_grows(y0, y);
    lemma_cubed(x);
    lemma_cubed(y);
}

proof fn lemma_axes(c: int, h: Hue)
    requires
        0 <= c <= 2 * LAB_MOST,
        pointing(h),
    ensures
        within(c * h.x / (ONE as int), 2 * LAB_MOST),
        within(c * h.y / (ONE as int), 2 * LAB_MOST),
        c == 0 ==> c * h.x / (ONE as int) == 0 && c * h.y / (ONE as int) == 0,
{
    lemma_within(c, h.x as int, 2 * LAB_MOST, ONE as int);
    lemma_within(c, h.y as int, 2 * LAB_MOST, ONE as int);
    lemma_within_div(c * h.x, 2 * LAB_MOST, ONE as int);
    lemma_within_div(c * h.y, 2 * LAB_MOST, ONE as int);
    if c == 0 {
        assert(c * h.x == 0 && c * h.y == 0) by (nonlinear_arith)
            requires
                c == 0,
        ;
    }
}

/// Of no chroma, the ends of lightness are black and white.
proof fn lemma_no_chroma(h: Hue)
    requires
        pointing(h),
    ensures
        colored(0, 0, h) == (Lin { r: 0, g: 0, b: 0 }),
        colored(ONE as int, 0, h) == (Lin { r: ONE, g: ONE, b: ONE }),
{
    lemma_axes(0, h);
    lemma_light(0, 0, 0);
    lemma_light(ONE as int, 0, 0);
    lemma_cubed(0);
    lemma_cubed(ONE as int);
    assert(ONE * ONE * ONE == 1_000_000_000_000_000_000_000_000);
    assert(cubed(0) == 0);
    assert(cubed(ONE as int) == ONE);
}

proof fn lemma_most_chroma(l: int, h: Hue, lo: int, hi: int, k: int)
    requires
        0 <= lo <= hi,
    ensures
        lo <= most_chroma(l, h, lo, hi, k) <= hi,
        most_chroma(l, h, lo, hi, k) == lo || shows(colored(l, most_chroma(l, h, lo, hi, k), h)),
    decreases k,
{
    if k > 0 {
        let mid = (lo + hi) / 2;
        if shows(colored(l, mid, h)) {
            lemma_most_chroma(l, h, mid, hi, k - 1);
        } else {
            lemma_most_chroma(l, h, lo, mid, k - 1);
        }
    }
}

/// At an end of lightness, what is drawn is a colour that sRGB has, or all
/// but, as it is or bounded.
proof fn lemma_fitted(l: int, c: int, h: Hue) -> (at: int)
    requires
        l == 0 || l == ONE,
        0 <= c,
        pointing(h),
    ensures
        0 <= at <= c,
        shows(colored(l, at, h)),
        fitted(l, c, h) == colored(l, at, h) || fitted(l, c, h) == bounded(colored(l, at, h)),
        c == 0 ==> fitted(l, c, h) == colored(l, 0, h),
{
    lemma_no_chroma(h);
    if shows(colored(l, c, h)) {
        c
    } else {
        lemma_most_chroma(l, h, 0, c, 16);
        most_chroma(l, h, 0, c, 16)
    }
}

/// Luminance that is hardly any.
spec fn faint(y: int) -> bool {
    0 <= y <= 800_000_000
}

/// Luminance that is all but white's.
spec fn bright(y: int) -> bool {
    990_000_000_000 <= y <= ONE * 10_000
}

/// The luminance of a packed colour to the two viewers.
#[verifier::opaque]
spec fn weights(rgb: u32) -> (int, int) {
    (luminance_of(light_of(rgb)), luminance_of(seen_of(light_of(rgb))))
}

/// What a colour comes to in eight bits, by how much light each channel has
/// at the most.
proof fn lemma_faint(p: int, q: int, s: int, r: int, g: int, b: int)
    requires
        q <= 1100,
        s <= 260_000,
        red(p, q, s) >= -500_000_000_000_000,
        green(p, q, s) >= -500_000_000_000_000,
        blue(p, q, s) >= -500_000_000_000_000,
        0 <= r <= clamped(red(p, q, s) / 10_000_000_000, ONE as int) + 21_000,
        0 <= g <= clamped(green(p, q, s) / 10_000_000_000, ONE as int) + 21_000,
        0 <= b <= clamped(blue(p, q, s) / 10_000_000_000, ONE as int) + 21_000,
    ensures
        faint(2126 * r + 7152 * g + 722 * b),
        0 <= r <= 450_000,
        0 <= g <= 450_000,
        0 <= b <= 450_000,
        2785 * r + 6671 * g + 1040 * b <= 800_000_000,
{
}

/// Hardly any light is hardly any to either viewer.
#[verifier::rlimit(60)]
#[verifier::spinoff_prover]
proof fn lemma_faint_to_both(k: Lin)
    requires
        0 <= k.r <= 450_000,
        0 <= k.g <= 450_000,
        0 <= k.b <= 450_000,
        faint(2126 * k.r + 7152 * k.g + 722 * k.b),
        2785 * k.r + 6671 * k.g + 1040 * k.b <= 800_000_000,
    ensures
        faint(luminance_of(k)),
        faint(luminance_of(seen_of(k))),
{
    let d = seen_of(k);
    assert(d.r == (367322 * k.r + 860646 * k.g - 227968 * k.b) / 1_000_000);
    assert(d.g == (280085 * k.r + 672501 * k.g + 47413 * k.b) / 1_000_000);
    assert(d.b == (42940 * k.g + 968881 * k.b - 11820 * k.r) / 1_000_000);
}

/// All but white's light is that to either viewer.
#[verifier::rlimit(60)]
#[verifier::spinoff_prover]
proof fn lemma_bright_to_both(k: Lin)
    requires
        98_225_055 <= k.r <= ONE,
        k.g == ONE,
        98_225_055 <= k.b <= ONE,
    ensures
        bright(luminance_of(k)),
        bright(luminance_of(seen_of(k))),
{
    let d = seen_of(k);
    assert(d.r == (367322 * k.r + 860646 * k.g - 227968 * k.b) / 1_000_000);
    assert(d.g == (280085 * k.r + 672501 * k.g + 47413 * k.b) / 1_000_000);
    assert(d.b == (42940 * k.g + 968881 * k.b - 11820 * k.r) / 1_000_000);
}

/// The dark end of an ink.
#[verifier::rlimit(60)]
#[verifier::spinoff_prover]
proof fn lemma_dark_end(c: int, h: Hue)
    requires
        0 <= c <= 2 * LAB_MOST,
        pointing(h),
    ensures
        nearly_black(inked(0, c, h)),
        c == 0 ==> inked(0, c, h) == 0,
        faint(weights(inked(0, c, h)).0),
        faint(weights(inked(0, c, h)).1),
{
    reveal(inked);
    reveal(weights);
    let at = lemma_fitted(0, c, h);
    lemma_axes(at, h);
    let (a, b) = (at * h.x / (ONE as int), at * h.y / (ONE as int));
    lemma_light(0, a, b);
    let x = answer(0, a, b, 3963377774, 2158037573);
    let y = answer(0, a, b, -1055613458, -638541728);
    let z = answer(0, a, b, -894841775, -12914855480);
    let f = fitted(0, c, h);
    lemma_dark_cones(x, y, z);
    lemma_dark_light(cubed(x), cubed(y), cubed(z));
    lemma_little(f.r as int);
    lemma_little(f.g as int);
    lemma_little(f.b as int);
    lemma_channels(f);
    let ink = light_of(inked(0, c, h));
    lemma_faint(cubed(x), cubed(y), cubed(z), ink.r as int, ink.g as int, ink.b as int);
    lemma_faint_to_both(ink);
    if c == 0 {
        lemma_no_chroma(h);
    }
}

proof fn lemma_dark_light(p: int, q: int, s: int)
    requires
        q <= 1100,
        s <= 260_000,
        red(p, q, s) >= -500_000_000_000_000,
        green(p, q, s) >= -500_000_000_000_000,
        blue(p, q, s) >= -500_000_000_000_000,
    ensures
        red(p, q, s) / 10_000_000_000 <= 430_000,
        green(p, q, s) / 10_000_000_000 <= 430_000,
        blue(p, q, s) / 10_000_000_000 <= 430_000,
{
}

/// The light end of an ink.
#[verifier::rlimit(60)]
#[verifier::spinoff_prover]
proof fn lemma_light_end(c: int, h: Hue)
    requires
        0 <= c <= 2 * LAB_MOST,
        pointing(h),
    ensures
        nearly_white(inked(ONE as int, c, h)),
        c == 0 ==> inked(ONE as int, c, h) == 0xFFFFFF,
        bright(weights(inked(ONE as int, c, h)).0),
        bright(weights(inked(ONE as int, c, h)).1),
{
    reveal(inked);
    reveal(weights);
    let l = ONE as int;
    let at = lemma_fitted(l, c, h);
    lemma_axes(at, h);
    let (a, b) = (at * h.x / (ONE as int), at * h.y / (ONE as int));
    lemma_light(l, a, b);
    let x = answer(l, a, b, 3963377774, 2158037573);
    let y = answer(l, a, b, -1055613458, -638541728);
    let z = answer(l, a, b, -894841775, -12914855480);
    let f = fitted(l, c, h);
    lemma_light_cones(x, y, z);
    lemma_light_light(cubed(x), cubed(y), cubed(z));
    lemma_much(f.r as int);
    lemma_much(f.g as int);
    lemma_much(f.b as int);
    lemma_channels(f);
    lemma_bright_to_both(light_of(inked(l, c, h)));
    if c == 0 {
        lemma_no_chroma(h);
    }
}

proof fn lemma_light_light(p: int, q: int, s: int)
    requires
        99_700_000 <= p <= 100_050_001,
        99_960_000 <= q <= 100_050_001,
        98_900_000 <= s <= 100_050_001,
    ensures
        red(p, q, s) / 10_000_000_000 >= 98_000_000,
        green(p, q, s) / 10_000_000_000 >= 99_600_000,
        blue(p, q, s) / 10_000_000_000 >= 98_000_000,
{
}

/// As far as a hue goes is all but black, or all but white; and black or
/// white where there is no chroma to keep.
pub proof fn law_the_ends_are_all_but_black_and_white(c: int, h: Hue)
    requires
        0 <= c <= 2 * LAB_MOST,
        pointing(h),
    ensures
        nearly_black(inked(0, c, h)),
        nearly_white(inked(ONE as int, c, h)),
        c == 0 ==> inked(0, c, h) == 0 && inked(ONE as int, c, h) == 0xFFFFFF,
{
    lemma_dark_end(c, h);
    lemma_light_end(c, h);
}

/// An answer that does not read is all but black or all but white; and is
/// black or white where the ink has no chroma to keep.
pub proof fn law_an_answer_that_does_not_read_is_all_but_black_or_white(fg: u32, bg: u32, th: Theme)
    ensures
        reads(corrected(fg, bg, th), bg) || nearly_black(corrected(fg, bg, th)) || nearly_white(
            corrected(fg, bg, th),
        ),
        own_chroma(fg) == 0 ==> reads(corrected(fg, bg, th), bg) || corrected(fg, bg, th) == 0 || corrected(
            fg,
            bg,
            th,
        ) == 0xFFFFFF,
{
    law_every_answer_reads_or_is_as_far_as_it_goes(fg, bg, th);
    lemma_own(fg, th);
    lemma_dark_end(own_chroma(fg), own_hue(fg, th.ansi));
    lemma_light_end(own_chroma(fg), own_hue(fg, th.ansi));
}

// Reading, by luminance.

/// The lesser of the two viewers' contrasts, of colours of these
/// luminances to each.
spec fn worse(x: (int, int), y: (int, int)) -> Ratio {
    if no_less(ratio_of(x.1, y.1), ratio_of(x.0, y.0)) {
        ratio_of(x.0, y.0)
    } else {
        ratio_of(x.1, y.1)
    }
}

/// What white is to the two viewers.
spec fn white() -> (int, int) {
    (1_000_000_000_000, 999_999_284_800)
}

#[verifier::rlimit(60)]
#[verifier::spinoff_prover]
proof fn lemma_weights(rgb: u32)
    ensures
        0 <= weights(rgb).0 <= 1_000_000_000_000,
        0 <= weights(rgb).1 <= 1_000_000_000_000,
        grey(rgb) ==> within(weights(rgb).0 - weights(rgb).1, 800_000),
{
    reveal(weights);
    let k = light_of(rgb);
    if grey(rgb) {
        assert(k.r == k.g && k.g == k.b);
        lemma_grey(k);
    }
}

/// A grey is all but the same to the two viewers.
#[verifier::rlimit(60)]
#[verifier::spinoff_prover]
proof fn lemma_grey(k: Lin)
    requires
        k.r == k.g && k.g == k.b,
        0 <= k.r <= u32::MAX,
    ensures
        within(luminance_of(k) - luminance_of(seen_of(k)), 800_000),
{
    let d = seen_of(k);
    assert(d.r == (367322 * k.r + 860646 * k.g - 227968 * k.b) / 1_000_000);
    assert(d.g == (280085 * k.r + 672501 * k.g + 47413 * k.b) / 1_000_000);
    assert(d.b == (42940 * k.g + 968881 * k.b - 11820 * k.r) / 1_000_000);
}

proof fn lemma_reads(fg: u32, bg: u32)
    requires
        meets(ratio_of(weights(fg).0, weights(bg).0)),
        meets(ratio_of(weights(fg).1, weights(bg).1)),
    ensures
        reads(fg, bg),
{
    reveal(weights);
    law_what_reads_reads_to_both(fg, bg);
}

/// The contrast of paper with the end that is chosen for it, black or white,
/// as the worse of the two viewers sees it.
pub open spec fn best(bg: u32) -> Ratio {
    contrast_for_both(
        if far_end(bg) == 0 {
            Lin { r: 0, g: 0, b: 0 }
        } else {
            Lin { r: ONE, g: ONE, b: ONE }
        },
        light_of(bg),
    )
}

#[verifier::rlimit(60)]
#[verifier::spinoff_prover]
proof fn lemma_chosen(bg: u32)
    ensures
        far_end(bg) == if no_less(worse((0, 0), weights(bg)), worse(white(), weights(bg))) {
            0int
        } else {
            ONE as int
        },
        best(bg) == if far_end(bg) == 0 {
            worse((0, 0), weights(bg))
        } else {
            worse(white(), weights(bg))
        },
{
    reveal(weights);
    let black = Lin { r: 0, g: 0, b: 0 };
    let white = Lin { r: ONE, g: ONE, b: ONE };
    assert(seen_of(black) == black);
    assert(seen_of(white) == (Lin { r: ONE, g: 99_999_900, b: 100_000_100 }));
    assert(luminance_of(black) == 0);
    assert(luminance_of(white) == 1_000_000_000_000);
    assert(luminance_of(seen_of(white)) == 999_999_284_800);
}

// Grey paper.

/// Paper that black is chosen for is light enough for ink of hardly any
/// light, and paper that white is chosen for dark enough for ink of all but
/// all of it.
proof fn lemma_break_even(y: (int, int))
    requires
        0 <= y.0 <= 1_000_000_000_000,
        0 <= y.1 <= 1_000_000_000_000,
        within(y.0 - y.1, 800_000),
    ensures
        no_less(worse((0, 0), y), worse(white(), y)) ==> y.0 >= 179_000_000_000,
        !no_less(worse((0, 0), y), worse(white(), y)) ==> y.0 <= 179_200_000_000,
{
    let p = worse((0, 0), y);
    let q = worse(white(), y);
    assert(p.lo == 50_000_000_000);
    assert(within(p.hi - y.0 - 50_000_000_000, 800_000));
    assert(1_049_999_000_000 <= q.hi <= 1_050_000_000_000);
    assert(within(q.lo - y.0 - 50_000_000_000, 1_600_000));
    if no_less(p, q) && y.0 < 179_000_000_000 {
        assert(p.hi * q.lo <= 229_001_000_000 * 229_002_000_000) by (nonlinear_arith)
            requires
                0 <= p.hi <= 229_001_000_000,
                0 <= q.lo <= 229_002_000_000,
        ;
    }
    if !no_less(p, q) && y.0 > 179_200_000_000 {
        assert(p.hi * q.lo >= 229_198_000_000 * 229_197_000_000) by (nonlinear_arith)
            requires
                p.hi >= 229_198_000_000,
                q.lo >= 229_197_000_000,
        ;
    }
}

/// On grey paper every ink comes out reading, to both viewers.
pub proof fn law_every_ink_reads_on_grey_paper(fg: u32, bg: u32, th: Theme)
    requires
        grey(bg),
    ensures
        reads(corrected(fg, bg, th), bg),
{
    law_every_answer_reads_or_is_as_far_as_it_goes(fg, bg, th);
    lemma_own(fg, th);
    let (c, h) = (own_chroma(fg), own_hue(fg, th.ansi));
    lemma_dark_end(c, h);
    lemma_light_end(c, h);
    lemma_weights(bg);
    lemma_chosen(bg);
    lemma_break_even(weights(bg));
    lemma_reads(inked(far_end(bg), c, h), bg);
}

// Any paper.

/// A contrast with a little to spare: 4.6 to 1.
pub open spec fn ample(p: Ratio) -> bool {
    10 * p.hi >= 46 * p.lo
}

proof fn lemma_ample_to_both(x: (int, int), y: (int, int))
    requires
        0 <= x.0 <= 1_000_000_000_000,
        0 <= x.1 <= 1_000_000_000_000,
        0 <= y.0 <= 1_000_000_000_000,
        0 <= y.1 <= 1_000_000_000_000,
        ample(worse(x, y)),
    ensures
        ample(ratio_of(x.0, y.0)),
        ample(ratio_of(x.1, y.1)),
{
    let p = ratio_of(x.0, y.0);
    let q = ratio_of(x.1, y.1);
    assert(p.lo > 0 && q.lo > 0);
    if no_less(q, p) {
        assert(10 * q.hi >= 46 * q.lo) by (nonlinear_arith)
            requires
                q.hi * p.lo >= p.hi * q.lo,
                10 * p.hi >= 46 * p.lo,
                p.lo > 0,
                q.lo > 0,
        ;
    } else {
        assert(10 * p.hi >= 46 * p.lo) by (nonlinear_arith)
            requires
                q.hi * p.lo < p.hi * q.lo,
                10 * q.hi >= 46 * q.lo,
                p.lo > 0,
                q.lo > 0,
        ;
    }
}

/// On paper that black or white reads on with a little to spare, every ink
/// comes out reading, to both viewers.
pub proof fn law_every_ink_reads_where_black_or_white_does_amply(fg: u32, bg: u32, th: Theme)
    requires
        ample(best(bg)),
    ensures
        reads(corrected(fg, bg, th), bg),
{
    law_every_answer_reads_or_is_as_far_as_it_goes(fg, bg, th);
    lemma_own(fg, th);
    let (c, h) = (own_chroma(fg), own_hue(fg, th.ansi));
    lemma_dark_end(c, h);
    lemma_light_end(c, h);
    lemma_weights(bg);
    lemma_chosen(bg);
    if far_end(bg) == 0 {
        lemma_ample_to_both((0, 0), weights(bg));
    } else {
        lemma_ample_to_both(white(), weights(bg));
    }
    lemma_reads(inked(far_end(bg), c, h), bg);
}

} // verus!
