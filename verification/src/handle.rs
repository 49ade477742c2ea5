//! A window's handle, in layers: a colour for what the text is, the
//! stipples of what goes on behind it over that, and a face over all for
//! a window that wants the user.

use vstd::prelude::*;

use crate::theme::Theme;

verus! {

/// A breath, out and in, in milliseconds.
pub const BREATH: u64 = 1200;

/// A window's handle. Any of the marks goes with any other: a live,
/// working, notified window shows all three.
#[derive(Clone, Copy, Debug, PartialEq, Eq, Structural)]
pub struct Handle {
    /// Clean (the tag's colour), dirty, stale (dirty, and changed on disk
    /// since), or unsynced (the client has lost its place in the log).
    pub base: u32,
    /// Live, a process behind it: stippled in the dirty colour -- dirty,
    /// but going on -- or in the paper's over a dirty base, where the
    /// dirty colour would not show.
    pub live: Option<u32>,
    /// Working: stippled, breathing between the colour work is drawn in
    /// (a terminal's progress bar's) and the base.
    pub pulse: Option<u32>,
    /// Notified: a face, in an ink the base does not hide.
    pub face: Option<u32>,
}

/// One channel of `a` towards one of `b` by `num` parts of `den`, rounded
/// to the nearest.
pub open spec fn mixed_channel(x: int, y: int, num: int, den: int) -> int {
    (2 * (x * den + (y - x) * num) + den) / (2 * den)
}

/// `a` towards `b` by `num` parts of `den`, channel by channel.
pub open spec fn mixed(a: u32, b: u32, num: int, den: int) -> int {
    mixed_channel(a as int / 65536 % 256, b as int / 65536 % 256, num, den) * 65536 + mixed_channel(
        a as int / 256 % 256,
        b as int / 256 % 256,
        num,
        den,
    ) * 256 + mixed_channel(a as int % 256, b as int % 256, num, den)
}

fn mix_channel(x: u32, y: u32, num: u32, den: u32) -> (r: u32)
    requires
        x < 256,
        y < 256,
        num <= den,
        0 < den <= 0xffff,
    ensures
        r == mixed_channel(x as int, y as int, num as int, den as int),
        r < 256,
{
    proof {
        assert(x * den + (y - x) * num == x * (den - num) + y * num) by (nonlinear_arith);
        assert(0 <= x * (den - num) <= 255 * (den - num) && 0 <= y * num <= 255 * num) by (nonlinear_arith)
            requires
                0 <= x <= 255,
                0 <= y <= 255,
                0 <= num <= den,
        ;
        let n = 2 * (x * (den - num) + y * num) + den;
        assert(0 <= n < 256 * (2 * den)) by (nonlinear_arith)
            requires
                n == 2 * (x * (den - num) + y * num) + den,
                0 <= x * (den - num) <= 255 * (den - num),
                0 <= y * num <= 255 * num,
                den > 0,
        ;
        assert(0 <= n / (2 * den as int) < 256) by (nonlinear_arith)
            requires
                0 <= n < 256 * (2 * den),
                den > 0,
        ;
    }
    let n: u32 = 2 * (x * (den - num) + y * num) + den;
    n / (2 * den)
}

/// `a` towards `b` by `num` parts of `den`, per channel.
pub fn mix(a: u32, b: u32, num: u32, den: u32) -> (c: u32)
    requires
        num <= den,
        0 < den <= 0xffff,
    ensures
        c == mixed(a, b, num as int, den as int),
{
    mix_channel(a / 65536 % 256, b / 65536 % 256, num, den) * 65536 + mix_channel(
        a / 256 % 256,
        b / 256 % 256,
        num,
        den,
    ) * 256 + mix_channel(a % 256, b % 256, num, den)
}

/// Mixing by nothing leaves a colour, and by all of it gives the other.
pub proof fn law_mixing_goes_from_one_to_the_other(a: u32, b: u32, den: int)
    requires
        0 < den,
        a <= 0xff_ffff,
        b <= 0xff_ffff,
    ensures
        mixed(a, b, 0, den) == a,
        mixed(a, b, den, den) == b,
{
    lemma_mixed_ends(a as int / 65536 % 256, b as int / 65536 % 256, den);
    lemma_mixed_ends(a as int / 256 % 256, b as int / 256 % 256, den);
    lemma_mixed_ends(a as int % 256, b as int % 256, den);
}

proof fn lemma_mixed_ends(x: int, y: int, den: int)
    requires
        0 < den,
    ensures
        mixed_channel(x, y, 0, den) == x,
        mixed_channel(x, y, den, den) == y,
{
    assert((2 * (x * den + (y - x) * 0) + den) / (2 * den) == x) by (nonlinear_arith)
        requires
            den > 0,
    ;
    assert((2 * (x * den + (y - x) * den) + den) / (2 * den) == y) by (nonlinear_arith)
        requires
            den > 0,
    ;
}

/// How far out a breath is, in 600ths, `ms` milliseconds into the day.
pub open spec fn breathed(ms: int) -> int {
    let t = ms % (BREATH as int);
    if t < 600 {
        t
    } else {
        1200 - t
    }
}

/// How far a working handle is from its colour towards the base at this
/// instant, in 600ths.
pub fn breath(ms: u64) -> (n: u32)
    ensures
        n == breathed(ms as int),
        n <= 600,
{
    let t: u64 = ms % BREATH;
    if t < 600 {
        t as u32
    } else {
        (1200 - t) as u32
    }
}

/// The colour of what the text is.
pub open spec fn base_of(th: Theme, unsynced: bool, stale: bool, dirty: bool) -> u32 {
    if unsynced {
        th.unsynced
    } else if stale {
        th.stale
    } else if dirty {
        th.dirty
    } else {
        th.tag_bg
    }
}

/// The handle of a window; `pulse` is how far its breath is out, in
/// 600ths, when it is working.
pub fn handle(
    th: &Theme,
    unsynced: bool,
    stale: bool,
    dirty: bool,
    live: bool,
    pulse: Option<u32>,
    notified: bool,
) -> (h: Handle)
    requires
        pulse matches Some(n) ==> n <= 600,
    ensures
        ({
            let base = base_of(*th, unsynced, stale, dirty);
            let ink = if base == th.dirty {
                th.tag_bg
            } else {
                th.dirty
            };
            &&& h.base == base
            &&& h.live == (if live {
                Some(ink)
            } else {
                None
            })
            &&& h.pulse is Some == pulse is Some
            // at its furthest out it is 0.85 of the way
            &&& pulse is Some ==> h.pulse->0 == mixed(th.progress, base, pulse->0 * 17, 12000)
            &&& h.face == (if !notified {
                None
            } else if base == th.dirty {
                Some(th.tag_bg)
            } else {
                Some(th.text)
            })
        }),
{
    let base: u32 = if unsynced {
        th.unsynced
    } else if stale {
        th.stale
    } else if dirty {
        th.dirty
    } else {
        th.tag_bg
    };
    let dark = base == th.dirty;
    let live = if live {
        Some(if dark { th.tag_bg } else { th.dirty })
    } else {
        None
    };
    let pulse = match pulse {
        Some(n) => Some(mix(th.progress, base, n * 17, 12000)),
        None => None,
    };
    let face = if notified {
        Some(if dark { th.tag_bg } else { th.text })
    } else {
        None
    };
    Handle { base, live, pulse, face }
}

/// What is left of `x` after as many twos as go into it, of `x`'s sign.
pub open spec fn rem2(x: int) -> int {
    if x >= 0 {
        x % 2
    } else {
        -((-x) % 2)
    }
}

/// Half of `x`, rounded towards nought.
pub open spec fn half(x: int) -> int {
    if x >= 0 {
        x / 2
    } else {
        -((-x) / 2)
    }
}

/// A dot every other pixel on every other row, each such row shifted one
/// from the last, on the even rows -- or, `odd`, on the odd ones.
pub open spec fn dotted(x: int, y: int, odd: bool) -> bool {
    let o = if odd {
        1int
    } else {
        0int
    };
    rem2(y) == o && rem2(x) == rem2(half(y) + o)
}

fn rem2_of(x: i64) -> (r: i64)
    requires
        x > i64::MIN,
    ensures
        r == rem2(x as int),
{
    if x >= 0 {
        (x as u64 % 2) as i64
    } else {
        -(((-x) as u64 % 2) as i64)
    }
}

fn half_of(x: i64) -> (r: i64)
    requires
        x > i64::MIN,
    ensures
        r == half(x as int),
{
    if x >= 0 {
        (x as u64 / 2) as i64
    } else {
        -(((-x) as u64 / 2) as i64)
    }
}

/// `x`, `y` (pixels into the handle) inked in a stipple: a dot every
/// other pixel on every other row, each such row shifted one from the
/// last, on the even rows -- or, `odd`, on the odd rows, the lattice
/// between.
pub fn stippled(x: i32, y: i32, odd: bool) -> (r: bool)
    ensures
        r == dotted(x as int, y as int, odd),
{
    let o: i64 = if odd {
        1
    } else {
        0
    };
    rem2_of(y as i64) == o && rem2_of(x as i64) == rem2_of(half_of(y as i64) + o)
}

/// The two stipples are never on one pixel.
pub proof fn law_the_stipples_never_meet(x: int, y: int)
    ensures
        !(dotted(x, y, false) && dotted(x, y, true)),
{
}

/// A number for whether.
pub open spec fn one_if(b: bool) -> int {
    if b {
        1
    } else {
        0
    }
}

/// Each stipple is a quarter of the pixels: one of any four in a square.
pub proof fn law_each_stipple_is_a_quarter(x: int, y: int, odd: bool)
    requires
        0 <= x,
        0 <= y,
    ensures
        one_if(dotted(x, y, odd)) + one_if(dotted(x + 1, y, odd)) + one_if(dotted(x, y + 1, odd)) + one_if(
            dotted(x + 1, y + 1, odd),
        ) == 1,
{
}

/// A window's handle tells what matters most: that it has lost its place, else
/// that its file changed under it, else that it is dirty.
pub proof fn law_a_handle_tells_what_matters_most(th: Theme, stale: bool, dirty: bool)
    ensures
        base_of(th, true, stale, dirty) == th.unsynced,
        base_of(th, false, true, dirty) == th.stale,
        base_of(th, false, false, true) == th.dirty,
        base_of(th, false, false, false) == th.tag_bg,
{
}

/// A mixed channel is the nearest to the share of the way from the one to the
/// other.
pub proof fn law_a_mixed_channel_is_the_nearest(x: int, y: int, num: int, den: int)
    requires
        0 < den,
    ensures
        ({
            let m = mixed_channel(x, y, num, den);
            -den <= 2 * (m * den - (x * den + (y - x) * num)) <= den
        }),
{
    let t = x * den + (y - x) * num;
    let m = mixed_channel(x, y, num, den);
    let d = 2 * den;
    assert(m * d <= 2 * t + den && 2 * t + den < m * d + d) by (nonlinear_arith)
        requires
            m == (2 * t + den) / d,
            d > 0,
    ;
    assert(m * d == 2 * (m * den)) by (nonlinear_arith)
        requires
            d == 2 * den,
    ;
}

/// Work breathes: from nothing to all and back in a little over a second, a
/// step at a time, and over again.
pub proof fn law_work_breathes(ms: int)
    requires
        0 <= ms,
    ensures
        0 <= breathed(ms) <= 600,
        breathed(ms + 1200) == breathed(ms),
        breathed(ms + 1) - breathed(ms) == 1 || breathed(ms + 1) - breathed(ms) == -1,
        ms % 1200 == 0 ==> breathed(ms) == 0,
        ms % 1200 == 600 ==> breathed(ms) == 600,
{
}

} // verus!
