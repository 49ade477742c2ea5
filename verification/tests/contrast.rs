//! Ink that reads on its paper.

use apex::contrast::{
    compute, contrast, contrast_for_all, contrast_to_deuteranope, correct, deuteranope, legible, linear, oklab, Cache,
    Lin, Ratio, ONE,
};
use apex::theme::{dark, light};

const TARGET: f64 = 4.5;
const MIRROR: f64 = 0.5;

fn of_one(x: i64) -> f64 {
    x as f64 / ONE as f64
}

fn times(p: Ratio) -> f64 {
    p.hi as f64 / p.lo as f64
}

/// Lightness, chroma and hue (radians) of a colour.
fn oklch(c: Lin) -> (f64, f64, f64) {
    let lab = oklab(c);
    (of_one(lab.l), of_one(lab.a).hypot(of_one(lab.b)), of_one(lab.b).atan2(of_one(lab.a)))
}

fn hue_distance(a: f64, b: f64) -> f64 {
    let d = (b - a).rem_euclid(std::f64::consts::TAU);
    if d > std::f64::consts::PI {
        d - std::f64::consts::TAU
    } else {
        d
    }
}

fn hue(rgb: u32) -> f64 {
    oklch(linear(rgb)).2
}

fn lightness(rgb: u32) -> f64 {
    oklch(linear(rgb)).0
}

fn deut_contrast(fg: u32, bg: u32) -> f64 {
    times(contrast_to_deuteranope(linear(fg), linear(bg)))
}

#[test]
fn ink_that_reads_is_left_exactly_as_it_is() {
    assert_eq!(correct(light().text, light().body_bg, &light()), light().text);
    assert_eq!(correct(dark().text, dark().body_bg, &dark()), dark().text);
    // a program's own legible pair, on either paper
    assert_eq!(correct(0x1A1A1A, 0xF0F0F0, &light()), 0x1A1A1A);
    assert_eq!(correct(0xF0F0F0, 0x1A1A1A, &dark()), 0xF0F0F0);
}

#[test]
fn a_dark_terminals_yellow_deepens_on_light_paper_and_stays_a_yellow() {
    let y = 0xD6C000;
    let got = correct(y, light().body_bg, &light());
    assert_ne!(got, y);
    assert!(legible(got, light().body_bg), "{got:06x}");
    assert!(lightness(got) < lightness(y), "darker");
    assert!(hue_distance(hue(y), hue(got)).abs() < 0.4, "still a yellow: {got:06x}");
}

#[test]
fn a_light_terminals_navy_lifts_on_dark_paper() {
    let navy = 0x0000AA;
    let got = correct(navy, dark().body_bg, &dark());
    assert!(legible(got, dark().body_bg), "{got:06x}");
    assert!(lightness(got) > lightness(navy), "lighter");
    assert!(hue_distance(hue(navy), hue(got)).abs() < 0.4, "still a blue: {got:06x}");
}

#[test]
fn ink_on_a_programs_own_dark_block_goes_light_whatever_the_theme() {
    // a dark grey block with the theme's black ink, on light paper
    let got = correct(light().text, 0x333333, &light());
    assert!(legible(got, 0x333333), "{got:06x}");
    assert!(lightness(got) > 0.5);
    // and the theme's white ink on a program's white block, on dark
    let got = correct(dark().text, 0xF8F8F8, &dark());
    assert!(legible(got, 0xF8F8F8), "{got:06x}");
    assert!(lightness(got) < 0.5);
}

#[test]
fn a_red_that_reads_to_most_eyes_but_not_a_deuteranopes_is_corrected_for_them() {
    let red = 0xE00000;
    assert!(times(contrast(linear(red), linear(light().body_bg))) >= TARGET, "reads to a normal viewer as it is");
    assert!(deut_contrast(red, light().body_bg) < TARGET, "and not to a deuteranope");
    let got = correct(red, light().body_bg, &light());
    assert_ne!(got, red);
    assert!(deut_contrast(got, light().body_bg) >= TARGET, "{got:06x}");
    assert!(hue_distance(hue(red), hue(got)).abs() < 0.4, "still a red: {got:06x}");
}

#[test]
fn shades_a_program_tells_apart_stay_apart_to_a_deuteranope() {
    // xterm's red and yellow on light paper: to a deuteranope both
    // are olives, told apart by the yellow's lightness; the yellow
    // needs correcting and the red (just) does not, and set on the
    // edge the two would be one
    let paper = light().body_bg;
    let r = correct(0xCC241D, paper, &light());
    let y = correct(0xB08A00, paper, &light());
    assert!(legible(r, paper) && legible(y, paper));
    let dl = (lightness(r) - lightness(y)).abs();
    assert!(dl > 0.03, "{r:06x} {y:06x}: dl {dl}");
    // the bright red and green, both far past the edge: what a
    // deuteranope had to tell them apart by -- lightness and the
    // blue-yellow axis, the red-green one being lost on them --
    // survives the mirror at the mirror's scale, not collapsed
    let apart = |a: u32, b: u32| {
        let x = oklab(deuteranope(linear(a)));
        let y = oklab(deuteranope(linear(b)));
        of_one(x.l - y.l).hypot(of_one(x.b - y.b))
    };
    let before = apart(0xFF5555, 0x55C055);
    let after = apart(correct(0xFF5555, paper, &light()), correct(0x55C055, paper, &light()));
    assert!(after >= before * MIRROR * 0.8, "before {before} after {after}");
}

#[test]
fn a_dark_terminals_bright_is_a_light_ones_deep() {
    // xterm's yellow and bright yellow on light paper: the brighter
    // comes out the deeper, and the two stay two
    let paper = light().body_bg;
    let y = correct(0xB08A00, paper, &light());
    let by = correct(0xD6C000, paper, &light());
    assert!(lightness(by) < lightness(y) - 0.03, "{y:06x} {by:06x}");
    // and on dark paper a light terminal's navy and its deeper navy:
    // the deeper comes out the lighter
    let n = correct(0x0000AA, dark().body_bg, &dark());
    let dn = correct(0x000066, dark().body_bg, &dark());
    assert!(lightness(dn) > lightness(n) + 0.03, "{n:06x} {dn:06x}");
}

#[test]
fn greys_are_not_given_a_hue() {
    let got = correct(0x888888, light().body_bg, &light());
    assert!(legible(got, light().body_bg));
    let (_, c, _) = oklch(linear(got));
    assert!(c < 0.02, "{got:06x} chroma {c}");
}

#[test]
fn black_on_black_and_white_on_white_come_out_the_far_side() {
    assert!(legible(correct(0x000000, 0x000000, &light()), 0x000000));
    assert!(legible(correct(0xFFFFFF, 0xFFFFFF, &dark()), 0xFFFFFF));
}

#[test]
fn every_answer_reads_to_both_viewers_or_is_as_far_as_the_hue_goes() {
    let papers = [light().body_bg, dark().body_bg, 0x000000, 0xFFFFFF, 0x333333, 0xCCCCCC, 0x1C4FD6, 0xFFD700];
    for r in (0..=255).step_by(51) {
        for g in (0..=255).step_by(51) {
            for b in (0..=255).step_by(51) {
                let fg = (r << 16) | (g << 8) | b;
                for &bg in &papers {
                    for th in [&light(), &dark()] {
                        let got = correct(fg, bg, th);
                        let extreme = got == 0 || got == 0xFFFFFF;
                        assert!(legible(got, bg) || extreme, "{fg:06x} on {bg:06x}: {got:06x}");
                    }
                }
            }
        }
    }
}

#[test]
fn the_themes_own_sixteen_read_on_their_paper_once_corrected() {
    for th in [&light(), &dark()] {
        for (i, &c) in th.ansi.iter().enumerate() {
            let got = correct(c, th.body_bg, th);
            assert!(legible(got, th.body_bg), "ansi {i} {c:06x} -> {got:06x}");
        }
    }
}

#[test]
fn the_theme_pulls_a_near_hue_partway_and_leaves_a_far_one() {
    // a near miss of the light theme's green: turned toward it, not onto it
    let green = hue(light().ansi[2]);
    let off = 0x60D030; // a yellower green, low contrast on light paper
    let got = correct(off, light().body_bg, &light());
    let before = hue_distance(green, hue(off)).abs();
    let after = hue_distance(green, hue(got)).abs();
    assert!(after < before, "nearer the theme's green: {before} -> {after}");
    assert!(after > 0.005, "but not on it: {after}");
}

#[test]
fn what_is_remembered_is_what_is_computed() {
    let mut c = Cache::new();
    for (fg, bg) in [(0xD6C000, 0xffffea), (0x888888, 0x000000), (0xD6C000, 0xffffea)] {
        assert_eq!(c.correct(fg, bg, false), compute(fg, bg, &light()));
        assert_eq!(c.correct(fg, bg, true), compute(fg, bg, &dark()));
    }
}

#[test]
fn reading_is_symmetric_in_ink_and_paper() {
    for (a, b) in [(0x000000, 0xffffff), (0x777777, 0x888888), (0xE00000, 0xffffea), (0x123456, 0xfedcba)] {
        assert_eq!(legible(a, b), legible(b, a));
    }
    assert!(legible(0x000000, 0xffffff));
    assert!(!legible(0x777777, 0x777777));
}

#[test]
fn what_a_deuteranope_sees_and_the_worse_of_the_two_viewers() {
    assert_eq!(deuteranope(linear(0x000000)), Lin { r: 0, g: 0, b: 0 });
    assert_eq!(deuteranope(linear(0xFF0000)), Lin { r: 36_732_200, g: 28_008_500, b: -1_182_000 });
    assert_eq!(deuteranope(linear(0xFFFFFF)), Lin { r: 100_000_000, g: 99_999_900, b: 100_000_100 });
    let (black, white) = (linear(0x000000), linear(0xFFFFFF));
    assert_eq!(contrast(white, black), Ratio { hi: 1_050_000_000_000, lo: 50_000_000_000 });
    for (a, b) in [(0xE00000, 0xFFFFEA), (0x00AA00, 0xFFFFFF), (0x1C4FD6, 0x000000)] {
        let (n, d) = (contrast(linear(a), linear(b)), contrast_to_deuteranope(linear(a), linear(b)));
        let both = contrast_for_all(linear(a), linear(b));
        assert!(both == n || both == d);
        assert!(times(both) <= times(n) && times(both) <= times(d));
    }
}

#[test]
fn every_ink_comes_out_reading_on_grey_paper() {
    for v in (0..256u32).step_by(3).chain([0x74, 0x75, 0x76, 0x77]) {
        let bg = v << 16 | v << 8 | v;
        for fg in [0x000000, 0xFFFFFF, 0x0000FF, 0xFF0000, 0x00FF00, 0xFFFF00, 0x6070A0, 0x777777] {
            assert!(legible(compute(fg, bg, &light()), bg), "{fg:06x} on {bg:06x}");
        }
    }
}

#[test]
fn an_answer_that_does_not_read_is_all_but_black_or_white() {
    // neither black nor white reads on this red to both viewers
    assert!(!legible(0x000000, 0xE00000) && !legible(0xFFFFFF, 0xE00000));
    assert_eq!(compute(0x777777, 0xE00000, &light()), 0x000000);
    assert_eq!(compute(0x0000FF, 0xE00000, &light()), 0x010008);
    for fg in [0x0000FF, 0x6070A0, 0xFF8800, 0x00AA00, 0x777777, 0xE00000] {
        let got = compute(fg, 0xE00000, &light());
        assert!(!legible(got, 0xE00000) && lightness(got) < 0.15, "{fg:06x} -> {got:06x}");
    }
}
