//! Automatic contrast correction for terminals. Programs choose their
//! colours for a dark terminal and name them outright (a 256-colour
//! index, a truecolor triple), so on light paper a `ls` comes out in
//! pale yellow and a `lazygit` in greys nobody can read; and the few
//! that choose for light paper do the reverse on dark. The client
//! checks every cell's ink against the paper it sits on as it paints,
//! and where the two do not read, moves the ink -- and only the ink --
//! in lightness, toward the ink of the paper it is on, until they do.
//! The ink's hue and chroma stay (a yellow stays a yellow, deeper),
//! the hue turned partway toward the nearest of the theme's own
//! sixteen so the corrected colours belong with the theme's. "Reads"
//! is WCAG AA (4.5:1) in the eye of a normal viewer and of a
//! deuteranope both, since a red reads lighter to the latter and one
//! that passes for the first may not for the second. An ink is not
//! set on the edge of reading but mirrored about it: one that lay a
//! little beyond the edge lands a little inside, one far beyond lands
//! deep, so the shades a program tells its things apart by stay apart
//! -- and to a deuteranope, who has lightness where others have hue,
//! stay two colours -- and a dark terminal's bright red is a light
//! one's deep red, which is what bright means on paper. The moves are
//! in Oklab, where a step in lightness looks the same size on any
//! hue, and every answer is cached, so a cell costs a lookup.
//!
//! Light, lightness and chroma are whole numbers of [`ONE`]ths, and a hue
//! is a direction: a vector of length [`ONE`].

use std::collections::HashMap;
use vstd::prelude::*;

use crate::fixed::{cbrt_of, floor_div, icbrt, isqrt, lemma_within, lemma_within_div, sqrt_of, within};
use crate::theme::{dark, dark_colors, light, light_colors, Theme};

verus! {

/// All the light there is, or white's lightness.
pub const ONE: i64 = 100_000_000;

/// The light each of the 256 values of an sRGB channel stands for, in
/// `ONE`ths: linear up to 0.04045, and from there on the 2.4th power.
pub const LINEAR: [u32; 256] = [
    0, 30353, 60705, 91058, 121411, 151763, 182116, 212469, 242822, 273174,
    303527, 334654, 367651, 402472, 439144, 477695, 518152, 560539, 604883, 651209,
    699541, 749903, 802319, 856813, 913406, 972122, 1032982, 1096009, 1161225, 1228649,
    1298303, 1370208, 1444384, 1520851, 1599629, 1680738, 1764195, 1850022, 1938236, 2028856,
    2121901, 2217388, 2315337, 2415763, 2518686, 2624122, 2732089, 2842604, 2955683, 3071344,
    3189603, 3310477, 3433981, 3560131, 3688945, 3820437, 3954624, 4091520, 4231141, 4373503,
    4518620, 4666509, 4817182, 4970657, 5126946, 5286065, 5448028, 5612849, 5780543, 5951124,
    6124605, 6301002, 6480327, 6662594, 6847817, 7036010, 7227185, 7421357, 7618538, 7818742,
    8021982, 8228271, 8437621, 8650046, 8865559, 9084171, 9305896, 9530747, 9758735, 9989873,
    10224173, 10461648, 10702310, 10946171, 11193243, 11443537, 11697067, 11953843, 12213877, 12477182,
    12743768, 13013648, 13286832, 13563333, 13843162, 14126329, 14412847, 14702727, 14995979, 15292615,
    15592646, 15896084, 16202938, 16513219, 16826940, 17144110, 17464740, 17788842, 18116424, 18447499,
    18782077, 19120168, 19461783, 19806932, 20155625, 20507874, 20863687, 21223076, 21586050, 21952620,
    22322796, 22696587, 23074005, 23455058, 23839757, 24228112, 24620133, 25015828, 25415209, 25818285,
    26225066, 26635560, 27049779, 27467731, 27889426, 28314874, 28744084, 29177065, 29613827, 30054379,
    30498731, 30946892, 31398871, 31854678, 32314321, 32777810, 33245154, 33716362, 34191442, 34670406,
    35153260, 35640014, 36130678, 36625260, 37123768, 37626212, 38132601, 38642943, 39157248, 39675523,
    40197778, 40724021, 41254261, 41788507, 42326767, 42869050, 43415364, 43965717, 44520119, 45078578,
    45641102, 46207700, 46778380, 47353150, 47932018, 48514994, 49102085, 49693300, 50288646, 50888132,
    51491767, 52099557, 52711513, 53327640, 53947949, 54572446, 55201140, 55834039, 56471151, 57112483,
    57758044, 58407842, 59061884, 59720179, 60382734, 61049557, 61720656, 62396039, 63075714, 63759687,
    64447968, 65140564, 65837482, 66538730, 67244316, 67954247, 68668531, 69387176, 70110189, 70837578,
    71569350, 72305513, 73046074, 73791041, 74540421, 75294222, 76052450, 76815115, 77582222, 78353779,
    79129794, 79910274, 80695226, 81484657, 82278575, 83076988, 83879901, 84687323, 85499261, 86315721,
    87136712, 87962240, 88792312, 89626935, 90466117, 91309865, 92158186, 93011086, 93868573, 94730654,
    95597335, 96468625, 97344529, 98225055, 99110210, 100000000,
];

/// The least light that is rounded to each of the values from 1 to 255,
/// in `ONE`ths.
pub const STEPS: [u32; 255] = [
    15177, 45530, 75882, 106235, 136588, 166940, 197293, 227646, 257998, 288351,
    318831, 350926, 384832, 420575, 458184, 497684, 539103, 582466, 627797, 675123,
    724467, 775854, 829305, 884846, 942498, 1002283, 1064224, 1128343, 1194660, 1263196,
    1333974, 1407012, 1482331, 1559951, 1639891, 1722172, 1806812, 1893830, 1983245, 2075075,
    2169339, 2266054, 2365240, 2466912, 2571089, 2677789, 2787028, 2898823, 3013191, 3130149,
    3249713, 3371899, 3496725, 3624205, 3754356, 3887193, 4022732, 4160989, 4301979, 4445717,
    4592218, 4741497, 4893569, 5048449, 5206151, 5366690, 5530081, 5696337, 5865472, 6037502,
    6212439, 6390298, 6571092, 6754836, 6941542, 7131224, 7323896, 7519571, 7718262, 7919982,
    8124745, 8332563, 8543449, 8757416, 8974477, 9194644, 9417931, 9644348, 9873910, 10106628,
    10342514, 10581581, 10823841, 11069305, 11317987, 11569897, 11825049, 12083452, 12345120, 12610064,
    12878296, 13149827, 13424668, 13702831, 13984328, 14269169, 14557366, 14848931, 15143874, 15442206,
    15743939, 16049083, 16357650, 16669650, 16985094, 17303993, 17626357, 17952198, 18281525, 18614350,
    18950683, 19290535, 19633916, 19980835, 20331305, 20685335, 21042934, 21404115, 21768885, 22137257,
    22509239, 22884843, 23264077, 23646952, 24033478, 24423664, 24817521, 25215058, 25616285, 26021212,
    26429849, 26842204, 27258288, 27678111, 28101681, 28529009, 28960103, 29394973, 29833629, 30276080,
    30722336, 31172404, 31626296, 32084020, 32545585, 33011000, 33480274, 33953418, 34430439, 34911346,
    35396150, 35884858, 36377479, 36874023, 37374498, 37878914, 38387278, 38899600, 39415889, 39936153,
    40460401, 40988642, 41520883, 42057135, 42597405, 43141703, 43690035, 44242412, 44798842, 45359332,
    45923892, 46492530, 47065253, 47642072, 48222993, 48808025, 49397177, 49990456, 50587871, 51189431,
    51795142, 52405014, 53019055, 53637272, 54259674, 54886269, 55517064, 56152068, 56791289, 57434735,
    58082413, 58734332, 59390500, 60050924, 60715612, 61384572, 62057812, 62735340, 63417163, 64103289,
    64793727, 65488482, 66187565, 66890981, 67598738, 68310845, 69027309, 69748137, 70473337, 71202916,
    71936883, 72675244, 73418007, 74165179, 74916769, 75672783, 76433228, 77198113, 77967444, 78741229,
    79519476, 80302191, 81089382, 81881056, 82677220, 83477882, 84283049, 85092728, 85906926, 86725650,
    87548909, 88376708, 89209055, 90045957, 90887421, 91733454, 92584063, 93439256, 94299039, 95163419,
    96032404, 96906000, 97784214, 98667054, 99554525,
];

/// Under this Oklab chroma a colour is a grey, with no hue to keep.
pub const GREY: i64 = 4_000_000;

/// The cosine of the furthest (0.7 radians) that a hue may be from the
/// theme's for it to be turned toward it, in `ONE`ths.
pub const REACH: i64 = 76_484_219;

/// What is taken for in gamut beyond black and white.
pub const SLACK: i64 = 50_000;

/// How many colours the cache holds.
pub const CACHE_CAP: usize = 8192;

/// A colour's light, channel by channel; a colour outside sRGB has less
/// than none or more than all of it.
#[derive(Clone, Copy, Debug, PartialEq, Eq, Structural)]
pub struct Lin {
    pub r: i64,
    pub g: i64,
    pub b: i64,
}

/// A lightness with the two colour axes of Oklab.
#[derive(Clone, Copy, Debug, PartialEq, Eq, Structural)]
pub struct Lab {
    pub l: i64,
    pub a: i64,
    pub b: i64,
}

/// The hue as a direction in the plane of Oklab's colour axes.
#[derive(Clone, Copy, Debug, PartialEq, Eq, Structural)]
pub struct Hue {
    pub x: i64,
    pub y: i64,
}

/// A contrast: `hi` to `lo`.
#[derive(Clone, Copy, Debug, PartialEq, Eq, Structural)]
pub struct Ratio {
    pub hi: i128,
    pub lo: i128,
}

/// The three channels of a packed colour.
pub open spec fn channel(rgb: u32, shift: int) -> int {
    rgb as int / shift % 256
}

/// The light of a packed colour.
pub open spec fn light_of(rgb: u32) -> Lin {
    Lin {
        r: LINEAR[channel(rgb, 65536)] as i64,
        g: LINEAR[channel(rgb, 256)] as i64,
        b: LINEAR[channel(rgb, 1)] as i64,
    }
}

/// The light of a packed colour.
pub fn linear(rgb: u32) -> (l: Lin)
    ensures
        l == light_of(rgb),
        0 <= l.r <= u32::MAX,
        0 <= l.g <= u32::MAX,
        0 <= l.b <= u32::MAX,
{
    Lin {
        r: LINEAR[(rgb / 65536 % 256) as usize] as i64,
        g: LINEAR[(rgb / 256 % 256) as usize] as i64,
        b: LINEAR[(rgb % 256) as usize] as i64,
    }
}

/// From `k` on, the value that light `c` is rounded to.
pub open spec fn rounded(c: int, k: int) -> int
    decreases 255 - k,
{
    if 0 <= k < 255 && STEPS[k] <= c {
        rounded(c, k + 1)
    } else {
        k
    }
}

/// The value of a channel that shows light `c`.
fn from_linear(c: i64) -> (v: u32)
    ensures
        v == rounded(c as int, 0),
        v <= 255,
{
    let mut k: usize = 0;
    while k < 255 && STEPS[k] as i64 <= c
        invariant
            k <= 255,
            rounded(c as int, k as int) == rounded(c as int, 0),
        decreases 255 - k,
    {
        k = k + 1;
    }
    k as u32
}

/// A colour packed, in eight bits a channel.
pub open spec fn packed(l: Lin) -> int {
    rounded(l.r as int, 0) * 65536 + rounded(l.g as int, 0) * 256 + rounded(l.b as int, 0)
}

/// A colour packed, in eight bits a channel.
pub fn pack(l: Lin) -> (rgb: u32)
    ensures
        rgb == packed(l),
{
    from_linear(l.r) * 65536 + from_linear(l.g) * 256 + from_linear(l.b)
}

/// `x`, or the nearer of the bounds.
pub open spec fn clamped(x: int, most: int) -> int {
    if x < 0 {
        0
    } else if x > most {
        most
    } else {
        x
    }
}

fn clamp(x: i128, most: i128) -> (r: i128)
    requires
        0 <= most,
    ensures
        r == clamped(x as int, most as int),
        0 <= r <= most,
{
    if x < 0 {
        0
    } else if x > most {
        most
    } else {
        x
    }
}

/// WCAG relative luminance of a colour, no channel counted past black or
/// white, in ten-thousandths of `ONE`ths.
pub open spec fn luminance_of(l: Lin) -> int {
    2126 * clamped(l.r as int, ONE as int) + 7152 * clamped(l.g as int, ONE as int) + 722 * clamped(
        l.b as int,
        ONE as int,
    )
}

fn luminance(l: Lin) -> (y: i128)
    ensures
        y == luminance_of(l),
        0 <= y <= ONE * 10_000,
{
    2126 * clamp(l.r as i128, ONE as i128) + 7152 * clamp(l.g as i128, ONE as i128) + 722 * clamp(
        l.b as i128,
        ONE as i128,
    )
}

/// What a deuteranope sees of a colour (Machado, Oliveira and Fernandes
/// 2009, deuteranopia at full severity, in linear RGB).
pub open spec fn seen_of(l: Lin) -> Lin {
    Lin {
        r: ((367322 * l.r + 860646 * l.g - 227968 * l.b) / 1_000_000) as i64,
        g: ((280085 * l.r + 672501 * l.g + 47413 * l.b) / 1_000_000) as i64,
        b: ((42940 * l.g + 968881 * l.b - 11820 * l.r) / 1_000_000) as i64,
    }
}

/// WCAG contrast of two luminances, a twentieth of white's added to each.
pub open spec fn ratio_of(x: int, y: int) -> Ratio {
    Ratio {
        hi: ((if x < y { y } else { x }) + ONE * 500) as i128,
        lo: ((if x < y { x } else { y }) + ONE * 500) as i128,
    }
}

/// A contrast no less than another.
pub open spec fn no_less(p: Ratio, q: Ratio) -> bool {
    p.hi * q.lo >= q.hi * p.lo
}

/// WCAG contrast as a normal viewer has it.
pub open spec fn contrast_of(fg: Lin, bg: Lin) -> Ratio {
    ratio_of(luminance_of(fg), luminance_of(bg))
}

/// WCAG contrast as a deuteranope has it.
pub open spec fn deuteranope_contrast(fg: Lin, bg: Lin) -> Ratio {
    contrast_of(seen_of(fg), seen_of(bg))
}

/// The contrast as the worse of the two viewers sees it.
pub open spec fn contrast_for_both(fg: Lin, bg: Lin) -> Ratio {
    if no_less(deuteranope_contrast(fg, bg), contrast_of(fg, bg)) {
        contrast_of(fg, bg)
    } else {
        deuteranope_contrast(fg, bg)
    }
}

/// WCAG AA for text: 4.5 to 1.
pub open spec fn meets(p: Ratio) -> bool {
    2 * p.hi >= 9 * p.lo
}

/// A ratio that there can be: neither side is nought, nor too great to be
/// multiplied.
pub open spec fn countable(p: Ratio) -> bool {
    0 < p.lo <= p.hi <= 0x1000_0000_0000_0000
}

fn ratio(x: i128, y: i128) -> (p: Ratio)
    requires
        0 <= x <= ONE * 10_000,
        0 <= y <= ONE * 10_000,
    ensures
        p == ratio_of(x as int, y as int),
        countable(p),
{
    let pad: i128 = ONE as i128 * 500;
    if x < y {
        Ratio { hi: y + pad, lo: x + pad }
    } else {
        Ratio { hi: x + pad, lo: y + pad }
    }
}

fn is_no_less(p: Ratio, q: Ratio) -> (r: bool)
    requires
        countable(p),
        countable(q),
    ensures
        r == no_less(p, q),
{
    proof {
        lemma_within(p.hi as int, q.lo as int, 0x1000_0000_0000_0000, 0x1000_0000_0000_0000);
        lemma_within(q.hi as int, p.lo as int, 0x1000_0000_0000_0000, 0x1000_0000_0000_0000);
    }
    p.hi * q.lo >= q.hi * p.lo
}

/// Light that a packed colour can have, or a little more.
pub open spec fn lit(l: Lin) -> bool {
    0 <= l.r <= u32::MAX && 0 <= l.g <= u32::MAX && 0 <= l.b <= u32::MAX
}

/// WCAG contrast, as a normal viewer has it.
pub fn contrast(fg: Lin, bg: Lin) -> (p: Ratio)
    ensures
        p == contrast_of(fg, bg),
        countable(p),
{
    ratio(luminance(fg), luminance(bg))
}

/// What a deuteranope sees of a colour.
pub fn deuteranope(l: Lin) -> (d: Lin)
    requires
        lit(l),
    ensures
        d == seen_of(l),
{
    let (r, g, b): (i128, i128, i128) = (l.r as i128, l.g as i128, l.b as i128);
    let x: i128 = 367322 * r + 860646 * g - 227968 * b;
    let y: i128 = 280085 * r + 672501 * g + 47413 * b;
    let z: i128 = 42940 * g + 968881 * b - 11820 * r;
    proof {
        lemma_within_div(x as int, 2 * u32::MAX, 1_000_000);
        lemma_within_div(y as int, 2 * u32::MAX, 1_000_000);
        lemma_within_div(z as int, 2 * u32::MAX, 1_000_000);
    }
    Lin {
        r: floor_div(x, 1_000_000) as i64,
        g: floor_div(y, 1_000_000) as i64,
        b: floor_div(z, 1_000_000) as i64,
    }
}

/// WCAG contrast, as a deuteranope has it.
pub fn contrast_to_deuteranope(fg: Lin, bg: Lin) -> (p: Ratio)
    requires
        lit(fg),
        lit(bg),
    ensures
        p == deuteranope_contrast(fg, bg),
        countable(p),
{
    contrast(deuteranope(fg), deuteranope(bg))
}

/// The contrast as the worse of the two viewers sees it.
pub fn contrast_for_all(fg: Lin, bg: Lin) -> (p: Ratio)
    requires
        lit(fg),
        lit(bg),
    ensures
        p == contrast_for_both(fg, bg),
        countable(p),
{
    let a = contrast(fg, bg);
    let d = contrast_to_deuteranope(fg, bg);
    if is_no_less(d, a) {
        a
    } else {
        d
    }
}

/// Ink reads on paper: AA for a normal viewer and a deuteranope both.
#[verifier::opaque]
pub open spec fn reads(fg: u32, bg: u32) -> bool {
    meets(contrast_for_both(light_of(fg), light_of(bg)))
}

/// Whether ink reads on paper: AA for a normal viewer and a deuteranope
/// both.
pub fn legible(fg: u32, bg: u32) -> (r: bool)
    ensures
        r == reads(fg, bg),
{
    proof {
        reveal(reads);
    }
    let p = contrast_for_all(linear(fg), linear(bg));
    2 * p.hi >= 9 * p.lo
}

/// Ink that reads does so to each of the viewers.
pub proof fn law_what_reads_reads_to_both(fg: u32, bg: u32)
    ensures
        reads(fg, bg) <==> meets(contrast_of(light_of(fg), light_of(bg))) && meets(
            deuteranope_contrast(light_of(fg), light_of(bg)),
        ),
{
    reveal(reads);
    let f = light_of(fg);
    let b = light_of(bg);
    let p = contrast_of(f, b);
    let q = deuteranope_contrast(f, b);
    assert(countable(p) && countable(q));
    if no_less(q, p) && meets(p) {
        assert(2 * q.hi >= 9 * q.lo) by (nonlinear_arith)
            requires
                q.hi * p.lo >= p.hi * q.lo,
                2 * p.hi >= 9 * p.lo,
                p.lo > 0,
                q.lo > 0,
        ;
    }
    if !no_less(q, p) && meets(q) {
        assert(2 * p.hi >= 9 * p.lo) by (nonlinear_arith)
            requires
                q.hi * p.lo < p.hi * q.lo,
                2 * q.hi >= 9 * q.lo,
                p.lo > 0,
                q.lo > 0,
        ;
    }
}

/// Ink reads on paper as well as paper of its colour reads under ink of
/// the paper's.
pub proof fn law_reading_goes_both_ways(fg: u32, bg: u32)
    ensures
        reads(fg, bg) == reads(bg, fg),
{
    reveal(reads);
}

// Oklab, after Bjorn Ottosson (2020).

/// A cone's answer to light, by its weights in ten-thousand-millionths.
pub open spec fn cone(c: Lin, wr: int, wg: int, wb: int) -> int {
    cbrt_of((wr * c.r + wg * c.g + wb * c.b) * 1_000_000)
}

/// A colour in Oklab.
#[verifier::opaque]
pub open spec fn lab_of(c: Lin) -> Lab {
    let l = cone(c, 4122214708, 5363325363, 514459929);
    let m = cone(c, 2119034982, 6806995451, 1073969566);
    let s = cone(c, 883024619, 2817188376, 6299787005);
    Lab {
        l: ((2104542553 * l + 7936177850 * m - 40720468 * s) / 10_000_000_000) as i64,
        a: ((19779984951 * l - 24285922050 * m + 4505937099 * s) / 10_000_000_000) as i64,
        b: ((259040371 * l + 7827717662 * m - 8086757660 * s) / 10_000_000_000) as i64,
    }
}

fn cone_of(c: Lin, wr: i128, wg: i128, wb: i128) -> (r: i128)
    requires
        lit(c),
        0 <= wr <= 10_000_000_000,
        0 <= wg <= 10_000_000_000,
        0 <= wb <= 10_000_000_000,
    ensures
        r == cone(c, wr as int, wg as int, wb as int),
        0 <= r <= 0x1_0000_0000,
{
    proof {
        lemma_within(wr as int, c.r as int, 10_000_000_000, u32::MAX as int);
        lemma_within(wg as int, c.g as int, 10_000_000_000, u32::MAX as int);
        lemma_within(wb as int, c.b as int, 10_000_000_000, u32::MAX as int);
        assert(wr * c.r >= 0 && wg * c.g >= 0 && wb * c.b >= 0) by (nonlinear_arith)
            requires
                wr >= 0,
                wg >= 0,
                wb >= 0,
                c.r >= 0,
                c.g >= 0,
                c.b >= 0,
        ;
    }
    icbrt((wr * c.r as i128 + wg * c.g as i128 + wb * c.b as i128) * 1_000_000)
}

/// The furthest an Oklab coordinate is from nought.
pub const LAB_MOST: i64 = 0x6_0000_0000;

/// A colour in Oklab.
pub fn oklab(c: Lin) -> (lab: Lab)
    requires
        lit(c),
    ensures
        lab == lab_of(c),
        within(lab.l as int, LAB_MOST as int),
        within(lab.a as int, LAB_MOST as int),
        within(lab.b as int, LAB_MOST as int),
{
    proof {
        reveal(lab_of);
    }
    let l: i128 = cone_of(c, 4122214708, 5363325363, 514459929);
    let m: i128 = cone_of(c, 2119034982, 6806995451, 1073969566);
    let s: i128 = cone_of(c, 883024619, 2817188376, 6299787005);
    let x: i128 = 2104542553 * l + 7936177850 * m - 40720468 * s;
    let y: i128 = 19779984951 * l - 24285922050 * m + 4505937099 * s;
    let z: i128 = 259040371 * l + 7827717662 * m - 8086757660 * s;
    proof {
        lemma_within_div(x as int, LAB_MOST as int, 10_000_000_000);
        lemma_within_div(y as int, LAB_MOST as int, 10_000_000_000);
        lemma_within_div(z as int, LAB_MOST as int, 10_000_000_000);
    }
    Lab {
        l: floor_div(x, 10_000_000_000) as i64,
        a: floor_div(y, 10_000_000_000) as i64,
        b: floor_div(z, 10_000_000_000) as i64,
    }
}

/// How far a colour is from grey.
pub open spec fn chroma_of(x: int, y: int) -> int {
    sqrt_of(x * x + y * y)
}

/// The direction of a vector; that of no vector is along the first axis.
pub open spec fn direction(x: int, y: int) -> Hue {
    let n = chroma_of(x, y);
    if n == 0 {
        Hue { x: ONE, y: 0 }
    } else {
        Hue { x: (x * ONE / n) as i64, y: (y * ONE / n) as i64 }
    }
}

/// A direction that there can be.
pub open spec fn pointing(h: Hue) -> bool {
    within(h.x as int, ONE as int) && within(h.y as int, ONE as int)
}

/// A side is no longer than the whole.
pub proof fn lemma_side_within(x: int, n: int, rest: int)
    requires
        0 <= rest,
        0 <= n,
        x * x + rest < (n + 1) * (n + 1),
    ensures
        within(x, n),
{
    assert(-n <= x && x <= n) by (nonlinear_arith)
        requires
            0 <= rest,
            0 <= n,
            x * x + rest < (n + 1) * (n + 1),
    ;
}

/// The chroma and the direction of a vector.
fn polar(x: i64, y: i64) -> (r: (i64, Hue))
    requires
        within(x as int, LAB_MOST as int),
        within(y as int, LAB_MOST as int),
    ensures
        r.0 == chroma_of(x as int, y as int),
        r.1 == direction(x as int, y as int),
        0 <= r.0 <= 2 * LAB_MOST,
        pointing(r.1),
{
    proof {
        lemma_within(x as int, x as int, LAB_MOST as int, LAB_MOST as int);
        lemma_within(y as int, y as int, LAB_MOST as int, LAB_MOST as int);
        assert(x * x >= 0 && y * y >= 0) by (nonlinear_arith);
    }
    let n: i128 = isqrt(x as i128 * x as i128 + y as i128 * y as i128);
    proof {
        assert(n <= 2 * LAB_MOST) by (nonlinear_arith)
            requires
                n * n <= x * x + y * y,
                x * x <= LAB_MOST * LAB_MOST,
                y * y <= LAB_MOST * LAB_MOST,
                0 <= n,
                LAB_MOST > 0,
        ;
    }
    if n == 0 {
        return (0, Hue { x: ONE, y: 0 });
    }
    proof {
        lemma_side_within(x as int, n as int, y * y);
        lemma_side_within(y as int, n as int, x * x);
        lemma_within(x as int, ONE as int, n as int, ONE as int);
        lemma_within(y as int, ONE as int, n as int, ONE as int);
        assert(n * ONE == ONE * n) by (nonlinear_arith);
        lemma_within_div(x * ONE, ONE as int, n as int);
        lemma_within_div(y * ONE, ONE as int, n as int);
    }
    let hx: i128 = floor_div(x as i128 * ONE as i128, n);
    let hy: i128 = floor_div(y as i128 * ONE as i128, n);
    (n as i64, Hue { x: hx as i64, y: hy as i64 })
}

/// How nearly two directions agree: `ONE` times `ONE` when they are one.
pub open spec fn agreement(p: Hue, q: Hue) -> int {
    p.x * q.x + p.y * q.y
}

/// The colours of the sixteen that have a hue to offer: neither blacks
/// nor whites nor greys.
pub open spec fn offers(ansi: [u32; 16], i: int) -> bool {
    i != 0 && i != 7 && i != 8 && i != 15 && ({
        let lab = lab_of(light_of(ansi[i]));
        chroma_of(lab.a as int, lab.b as int) >= GREY
    })
}

/// The hue of one of the sixteen.
pub open spec fn theme_hue(ansi: [u32; 16], i: int) -> Hue {
    let lab = lab_of(light_of(ansi[i]));
    direction(lab.a as int, lab.b as int)
}

/// Of the first `n` of the sixteen, the one whose hue is nearest, the
/// first of those that are equally near; none when none has a hue.
pub open spec fn nearest(h: Hue, ansi: [u32; 16], n: int) -> Option<int>
    decreases n,
{
    if n <= 0 {
        None
    } else {
        let before = nearest(h, ansi, n - 1);
        if offers(ansi, n - 1) && (before is None || agreement(h, theme_hue(ansi, n - 1)) > agreement(
            h,
            theme_hue(ansi, before->0),
        )) {
            Some(n - 1)
        } else {
            before
        }
    }
}

/// The direction half way between two.
pub open spec fn halfway(p: Hue, q: Hue) -> Hue {
    if chroma_of(p.x + q.x, p.y + q.y) == 0 {
        p
    } else {
        direction(p.x + q.x, p.y + q.y)
    }
}

/// The hue turned half way toward the nearest of the theme's own, when
/// one is near; a grey has none to turn.
pub open spec fn harmonised(h: Hue, c: int, ansi: [u32; 16]) -> Hue {
    let near = nearest(h, ansi, 16);
    if c < GREY || near is None {
        h
    } else if agreement(h, theme_hue(ansi, near->0)) < REACH * ONE {
        h
    } else {
        halfway(h, theme_hue(ansi, near->0))
    }
}

fn agree(p: Hue, q: Hue) -> (r: i128)
    requires
        pointing(p),
        pointing(q),
    ensures
        r == agreement(p, q),
{
    proof {
        lemma_within(p.x as int, q.x as int, ONE as int, ONE as int);
        lemma_within(p.y as int, q.y as int, ONE as int, ONE as int);
    }
    p.x as i128 * q.x as i128 + p.y as i128 * q.y as i128
}

fn nearest_hue(h: Hue, ansi: &[u32; 16]) -> (r: Option<Hue>)
    requires
        pointing(h),
    ensures
        r is Some == nearest(h, *ansi, 16) is Some,
        r matches Some(t) ==> t == theme_hue(*ansi, nearest(h, *ansi, 16)->0) && pointing(t),
{
    let mut best: Option<Hue> = None;
    let mut i: usize = 0;
    while i < 16
        invariant
            i <= 16,
            pointing(h),
            best is Some == nearest(h, *ansi, i as int) is Some,
            best matches Some(t) ==> t == theme_hue(*ansi, nearest(h, *ansi, i as int)->0) && pointing(t),
        decreases 16 - i,
    {
        if i != 0 && i != 7 && i != 8 && i != 15 {
            let lab = oklab(linear(ansi[i]));
            let (c, t) = polar(lab.a, lab.b);
            if c >= GREY {
                let nearer = match best {
                    Some(b) => agree(h, t) > agree(h, b),
                    None => true,
                };
                if nearer {
                    best = Some(t);
                }
            }
        }
        i = i + 1;
    }
    best
}

/// The hue turned partway toward the nearest of the theme's own, when
/// one is near.
fn harmonise(h: Hue, c: i64, th: &Theme) -> (r: Hue)
    requires
        pointing(h),
    ensures
        r == harmonised(h, c as int, th.ansi),
        pointing(r),
{
    if c < GREY {
        return h;
    }
    match nearest_hue(h, &th.ansi) {
        Some(t) => {
            if agree(h, t) < REACH as i128 * ONE as i128 {
                return h;
            }
            let (n, half) = polar(h.x + t.x, h.y + t.y);
            if n == 0 {
                h
            } else {
                half
            }
        },
        None => h,
    }
}

/// A cone's answer cubed, in `ONE`ths.
pub open spec fn cubed(x: int) -> int {
    x * x * x / (ONE * ONE)
}

/// A cone's answer to a colour of Oklab, cubed.
pub open spec fn cone_light(l: int, a: int, b: int, wa: int, wb: int) -> int {
    cubed((l * 10_000_000_000 + wa * a + wb * b) / 10_000_000_000)
}

/// The light of a colour of Oklab.
#[verifier::opaque]
pub open spec fn lab_light(ll: int, a: int, b: int) -> Lin {
    let l = cone_light(ll, a, b, 3963377774, 2158037573);
    let m = cone_light(ll, a, b, -1055613458, -638541728);
    let s = cone_light(ll, a, b, -894841775, -12914855480);
    Lin {
        r: ((40767416621 * l - 33077115913 * m + 2309699292 * s) / 10_000_000_000) as i64,
        g: ((26097574011 * m - 12684380046 * l - 3413193965 * s) / 10_000_000_000) as i64,
        b: ((17076147010 * s - 41960863 * l - 7034186147 * m) / 10_000_000_000) as i64,
    }
}

/// The most a cone answers with.
pub const CONE_MOST: i64 = 600_000_000_000_000_000;

fn cone_light_of(l: i64, a: i64, b: i64, wa: i128, wb: i128) -> (r: i128)
    requires
        within(l as int, LAB_MOST as int),
        within(a as int, 2 * LAB_MOST),
        within(b as int, 2 * LAB_MOST),
        within(wa as int, 13_000_000_000),
        within(wb as int, 13_000_000_000),
    ensures
        r == cone_light(l as int, a as int, b as int, wa as int, wb as int),
        within(r as int, CONE_MOST as int),
{
    proof {
        lemma_within(wa as int, a as int, 13_000_000_000, 2 * LAB_MOST);
        lemma_within(wb as int, b as int, 13_000_000_000, 2 * LAB_MOST);
    }
    let n: i128 = l as i128 * 10_000_000_000 + wa * a as i128 + wb * b as i128;
    proof {
        lemma_within_div(n as int, 7 * LAB_MOST, 10_000_000_000);
    }
    let x: i128 = floor_div(n, 10_000_000_000);
    proof {
        lemma_within(x as int, x as int, 7 * LAB_MOST, 7 * LAB_MOST);
        lemma_within(x * x, x as int, 7 * LAB_MOST * (7 * LAB_MOST), 7 * LAB_MOST);
        lemma_within_div(x * x * x, CONE_MOST as int, ONE * ONE);
    }
    floor_div(x * x * x, ONE as i128 * ONE as i128)
}

/// The light of a colour of Oklab.
fn from_oklab(l: i64, a: i64, b: i64) -> (c: Lin)
    requires
        within(l as int, LAB_MOST as int),
        within(a as int, 2 * LAB_MOST),
        within(b as int, 2 * LAB_MOST),
    ensures
        c == lab_light(l as int, a as int, b as int),
{
    proof {
        reveal(lab_light);
    }
    let p: i128 = cone_light_of(l, a, b, 3963377774, 2158037573);
    let q: i128 = cone_light_of(l, a, b, -1055613458, -638541728);
    let s: i128 = cone_light_of(l, a, b, -894841775, -12914855480);
    let x: i128 = 40767416621 * p - 33077115913 * q + 2309699292 * s;
    let y: i128 = 26097574011 * q - 12684380046 * p - 3413193965 * s;
    let z: i128 = 17076147010 * s - 41960863 * p - 7034186147 * q;
    proof {
        lemma_within_div(x as int, 8 * CONE_MOST, 10_000_000_000);
        lemma_within_div(y as int, 8 * CONE_MOST, 10_000_000_000);
        lemma_within_div(z as int, 8 * CONE_MOST, 10_000_000_000);
    }
    Lin {
        r: floor_div(x, 10_000_000_000) as i64,
        g: floor_div(y, 10_000_000_000) as i64,
        b: floor_div(z, 10_000_000_000) as i64,
    }
}

/// sRGB has the colour, or all but.
pub open spec fn shows(c: Lin) -> bool {
    &&& -SLACK <= c.r <= ONE + SLACK
    &&& -SLACK <= c.g <= ONE + SLACK
    &&& -SLACK <= c.b <= ONE + SLACK
}

fn in_gamut(c: Lin) -> (r: bool)
    ensures
        r == shows(c),
{
    -SLACK <= c.r && c.r <= ONE + SLACK && -SLACK <= c.g && c.g <= ONE + SLACK && -SLACK <= c.b && c.b <= ONE + SLACK
}

/// The colour of a lightness, a chroma and a hue.
pub open spec fn colored(l: int, c: int, h: Hue) -> Lin {
    lab_light(l, c * h.x / (ONE as int), c * h.y / (ONE as int))
}

fn color(l: i64, c: i64, h: Hue) -> (r: Lin)
    requires
        within(l as int, LAB_MOST as int),
        0 <= c <= 2 * LAB_MOST,
        pointing(h),
    ensures
        r == colored(l as int, c as int, h),
{
    proof {
        lemma_within(c as int, h.x as int, 2 * LAB_MOST, ONE as int);
        lemma_within(c as int, h.y as int, 2 * LAB_MOST, ONE as int);
        lemma_within_div(c * h.x, 2 * LAB_MOST, ONE as int);
        lemma_within_div(c * h.y, 2 * LAB_MOST, ONE as int);
    }
    from_oklab(
        l,
        floor_div(c as i128 * h.x as i128, ONE as i128) as i64,
        floor_div(c as i128 * h.y as i128, ONE as i128) as i64,
    )
}

/// The most chroma that sRGB has of a lightness and hue, between `lo`,
/// which it has, and `hi`, which it has not, to `k` halvings.
pub open spec fn most_chroma(l: int, h: Hue, lo: int, hi: int, k: int) -> int
    decreases k,
{
    if k <= 0 {
        lo
    } else {
        let mid = (lo + hi) / 2;
        if shows(colored(l, mid, h)) {
            most_chroma(l, h, mid, hi, k - 1)
        } else {
            most_chroma(l, h, lo, mid, k - 1)
        }
    }
}

/// A colour with no channel past black or white.
pub open spec fn bounded(c: Lin) -> Lin {
    Lin {
        r: clamped(c.r as int, ONE as int) as i64,
        g: clamped(c.g as int, ONE as int) as i64,
        b: clamped(c.b as int, ONE as int) as i64,
    }
}

/// The colour of this lightness and hue, at this chroma if sRGB has it
/// and else at the most it has.
pub open spec fn fitted(l: int, c: int, h: Hue) -> Lin {
    if shows(colored(l, c, h)) {
        colored(l, c, h)
    } else {
        bounded(colored(l, most_chroma(l, h, 0, c, 16), h))
    }
}

/// The colour of this lightness and hue, at this chroma if sRGB has it
/// and else at the most it has.
fn fit(l: i64, c: i64, h: Hue) -> (r: Lin)
    requires
        within(l as int, LAB_MOST as int),
        0 <= c <= 2 * LAB_MOST,
        pointing(h),
    ensures
        r == fitted(l as int, c as int, h),
{
    let first = color(l, c, h);
    if in_gamut(first) {
        return first;
    }
    let mut lo: i64 = 0;
    let mut hi: i64 = c;
    let mut k: u32 = 16;
    while k > 0
        invariant
            k <= 16,
            within(l as int, LAB_MOST as int),
            0 <= lo <= hi <= c <= 2 * LAB_MOST,
            pointing(h),
            most_chroma(l as int, h, lo as int, hi as int, k as int) == most_chroma(l as int, h, 0, c as int, 16),
        decreases k,
    {
        let mid: i64 = (lo + hi) / 2;
        if in_gamut(color(l, mid, h)) {
            lo = mid;
        } else {
            hi = mid;
        }
        k = k - 1;
    }
    let at = color(l, lo, h);
    Lin {
        r: clamp(at.r as i128, ONE as i128) as i64,
        g: clamp(at.g as i128, ONE as i128) as i64,
        b: clamp(at.b as i128, ONE as i128) as i64,
    }
}

/// An ink of a chroma and hue at a lightness, as it is drawn: in eight
/// bits a channel.
#[verifier::opaque]
pub open spec fn inked(l: int, c: int, h: Hue) -> u32 {
    packed(fitted(l, c, h)) as u32
}

fn ink(l: i64, c: i64, h: Hue) -> (rgb: u32)
    requires
        within(l as int, LAB_MOST as int),
        0 <= c <= 2 * LAB_MOST,
        pointing(h),
    ensures
        rgb == inked(l as int, c as int, h),
{
    proof {
        reveal(inked);
    }
    pack(fit(l, c, h))
}

/// Between `lo`, at which an ink does not read, and `hi`, at which it
/// does, the edge of reading, to `k` halvings.
pub open spec fn edge(bg: u32, c: int, h: Hue, lo: int, hi: int, k: int) -> int
    decreases k,
{
    if k <= 0 {
        hi
    } else {
        let mid = (lo + hi) / 2;
        if reads(inked(mid, c, h), bg) {
            edge(bg, c, h, lo, mid, k - 1)
        } else {
            edge(bg, c, h, mid, hi, k - 1)
        }
    }
}

/// Whichever of black and white a paper reads better against.
pub open spec fn far_end(bg: u32) -> int {
    if no_less(
        contrast_for_both((Lin { r: 0, g: 0, b: 0 }), light_of(bg)),
        contrast_for_both((Lin { r: ONE, g: ONE, b: ONE }), light_of(bg)),
    ) {
        0
    } else {
        ONE as int
    }
}

/// A lightness as far inside the edge of reading as half of what it lay
/// beyond it.
pub open spec fn mirrored(edge: int, l: int) -> int {
    clamped(edge + (edge - l) / 2, ONE as int)
}

/// An ink that does not read, of lightness `l`, moved until it does.
pub open spec fn moved(bg: u32, l: int, c: int, h: Hue) -> u32 {
    let end = far_end(bg);
    if reads(inked(l, c, h), bg) {
        inked(l, c, h)
    } else if !reads(inked(end, c, h), bg) {
        // no ink of this hue reads on this paper: as far as it goes
        inked(end, c, h)
    } else {
        // the edge of reading, then the mirror
        let e = edge(bg, c, h, l, end, 20);
        if reads(inked(mirrored(e, l), c, h), bg) {
            inked(mirrored(e, l), c, h)
        } else {
            inked(e, c, h)
        }
    }
}

/// The chroma of a packed colour.
pub open spec fn own_chroma(rgb: u32) -> int {
    let lab = lab_of(light_of(rgb));
    chroma_of(lab.a as int, lab.b as int)
}

/// The hue a packed colour is given among a theme's.
pub open spec fn own_hue(rgb: u32, ansi: [u32; 16]) -> Hue {
    let lab = lab_of(light_of(rgb));
    harmonised(direction(lab.a as int, lab.b as int), own_chroma(rgb), ansi)
}

/// The ink `fg` as it should be drawn on the paper `bg`: itself where it
/// reads, else moved in lightness until it does and half as far again.
#[verifier::opaque]
pub open spec fn corrected(fg: u32, bg: u32, th: Theme) -> u32 {
    if reads(fg, bg) {
        fg
    } else {
        moved(bg, lab_of(light_of(fg)).l as int, own_chroma(fg), own_hue(fg, th.ansi))
    }
}

/// Ink that reads is left exactly as it is.
pub proof fn law_ink_that_reads_is_left_alone(fg: u32, bg: u32, th: Theme)
    requires
        reads(fg, bg),
    ensures
        corrected(fg, bg, th) == fg,
{
    reveal(corrected);
}

proof fn lemma_the_edge_reads(bg: u32, c: int, h: Hue, lo: int, hi: int, k: int)
    requires
        reads(inked(hi, c, h), bg),
    ensures
        reads(inked(edge(bg, c, h, lo, hi, k), c, h), bg),
    decreases k,
{
    if k > 0 {
        let mid = (lo + hi) / 2;
        if reads(inked(mid, c, h), bg) {
            lemma_the_edge_reads(bg, c, h, lo, mid, k - 1);
        } else {
            lemma_the_edge_reads(bg, c, h, mid, hi, k - 1);
        }
    }
}

/// Every answer reads, to both viewers, or is as far as its hue goes
/// toward the end that the paper reads better against -- and that only
/// where not even that end reads.
pub proof fn law_every_answer_reads_or_is_as_far_as_it_goes(fg: u32, bg: u32, th: Theme)
    ensures
        reads(corrected(fg, bg, th), bg) || (corrected(fg, bg, th) == inked(
            far_end(bg),
            own_chroma(fg),
            own_hue(fg, th.ansi),
        ) && !reads(inked(far_end(bg), own_chroma(fg), own_hue(fg, th.ansi)), bg)),
{
    reveal(corrected);
    let l = lab_of(light_of(fg)).l as int;
    let c = own_chroma(fg);
    let h = own_hue(fg, th.ansi);
    if reads(inked(far_end(bg), c, h), bg) {
        lemma_the_edge_reads(bg, c, h, l, far_end(bg), 20);
    }
}

/// The edge of reading, found by halving.
fn find_edge(bg: u32, c: i64, h: Hue, l: i64, end: i64) -> (e: i64)
    requires
        within(l as int, LAB_MOST as int),
        within(end as int, LAB_MOST as int),
        0 <= c <= 2 * LAB_MOST,
        pointing(h),
    ensures
        e == edge(bg, c as int, h, l as int, end as int, 20),
        within(e as int, LAB_MOST as int),
{
    let mut lo: i64 = l;
    let mut hi: i64 = end;
    let mut k: u32 = 20;
    while k > 0
        invariant
            k <= 20,
            within(lo as int, LAB_MOST as int),
            within(hi as int, LAB_MOST as int),
            0 <= c <= 2 * LAB_MOST,
            pointing(h),
            edge(bg, c as int, h, lo as int, hi as int, k as int) == edge(bg, c as int, h, l as int, end as int, 20),
        decreases k,
    {
        let mid: i64 = floor_div(lo as i128 + hi as i128, 2) as i64;
        if legible(ink(mid, c, h), bg) {
            hi = mid;
        } else {
            lo = mid;
        }
        k = k - 1;
    }
    hi
}

fn move_ink(bg: u32, l: i64, c: i64, h: Hue) -> (rgb: u32)
    requires
        within(l as int, LAB_MOST as int),
        0 <= c <= 2 * LAB_MOST,
        pointing(h),
    ensures
        rgb == moved(bg, l as int, c as int, h),
{
    let b = linear(bg);
    // toward whichever of black and white the paper reads better
    // against: down on light paper, up on dark, whatever the theme
    let black = contrast_for_all(Lin { r: 0, g: 0, b: 0 }, b);
    let white = contrast_for_all(Lin { r: ONE, g: ONE, b: ONE }, b);
    let end: i64 = if is_no_less(black, white) {
        0
    } else {
        ONE
    };
    let as_is: u32 = ink(l, c, h);
    if legible(as_is, bg) {
        return as_is;
    }
    let furthest: u32 = ink(end, c, h);
    if !legible(furthest, bg) {
        return furthest;
    }
    let e: i64 = find_edge(bg, c, h, l, end);
    let m: i64 = clamp(e as i128 + floor_div(e as i128 - l as i128, 2), ONE as i128) as i64;
    let inside: u32 = ink(m, c, h);
    if legible(inside, bg) {
        inside
    } else {
        ink(e, c, h)
    }
}

/// The ink `fg` as it should be drawn on the paper `bg`.
pub fn compute(fg: u32, bg: u32, th: &Theme) -> (rgb: u32)
    ensures
        rgb == corrected(fg, bg, *th),
{
    proof {
        reveal(corrected);
    }
    if legible(fg, bg) {
        return fg;
    }
    let lab = oklab(linear(fg));
    let (c, own) = polar(lab.a, lab.b);
    let h = harmonise(own, c, th);
    move_ink(bg, lab.l, c, h)
}

/// The ink `fg` as it should be drawn on the paper `bg`: itself where
/// it reads, else moved in lightness until it does and half as far
/// again.
pub fn correct(fg: u32, bg: u32, th: &Theme) -> (rgb: u32)
    ensures
        rgb == corrected(fg, bg, *th),
{
    compute(fg, bg, th)
}

/// The theme that is dark, or the one that is light.
pub open spec fn theme_for(dark: bool) -> Theme {
    if dark {
        dark_colors()
    } else {
        light_colors()
    }
}

/// A question as a number: the ink, the paper, the theme.
pub open spec fn question(fg: u32, bg: u32, dark: bool) -> u128 {
    (fg as int * 0x2_0000_0000 + bg as int * 2 + if dark { 1int } else { 0int }) as u128
}

/// The answers given so far.
pub struct Cache {
    answers: HashMap<u128, u32>,
}

impl Cache {
    /// Every answer kept is the right one.
    pub closed spec fn wf(&self) -> bool {
        forall|fg: u32, bg: u32, dark: bool|
            self.answers@.contains_key(#[trigger] question(fg, bg, dark)) ==> self.answers@[question(fg, bg, dark)]
                == corrected(fg, bg, theme_for(dark))
    }

    /// How many answers are kept.
    pub closed spec fn size(&self) -> nat {
        self.answers@.len()
    }

    /// No answers yet.
    pub fn new() -> (c: Cache)
        ensures
            c.wf(),
            c.size() == 0,
    {
        Cache { answers: HashMap::new() }
    }

    /// The ink as it should be drawn, out of the cache or into it.
    pub fn correct(&mut self, fg: u32, bg: u32, dark_theme: bool) -> (rgb: u32)
        requires
            old(self).wf(),
            old(self).size() <= CACHE_CAP,
        ensures
            rgb == corrected(fg, bg, theme_for(dark_theme)),
            final(self).wf(),
            final(self).size() <= CACHE_CAP,
    {
        broadcast use vstd::std_specs::hash::group_hash_axioms;

        let key: u128 = fg as u128 * 0x2_0000_0000 + bg as u128 * 2 + if dark_theme { 1 } else { 0 };
        assert(key == question(fg, bg, dark_theme));
        if let Some(v) = self.answers.get(&key) {
            return *v;
        }
        let v: u32 = if dark_theme {
            compute(fg, bg, &dark())
        } else {
            compute(fg, bg, &light())
        };
        if self.answers.len() >= CACHE_CAP {
            self.answers.clear();
        }
        self.answers.insert(key, v);
        proof {
            assert forall|f: u32, b: u32, d: bool| self.answers@.contains_key(#[trigger] question(f, b, d)) implies self.answers@[question(f, b, d)] == corrected(f, b, theme_for(d)) by {
                if question(f, b, d) == key {
                    assert(f == fg && b == bg && d == dark_theme);
                }
            }
        }
        v
    }
}

} // verus!
