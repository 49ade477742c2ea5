//! Scrolling: the wheel, a button held on the scroll bar, and text swept
//! past its edge.  Positions are in [`crate::mouse::SUB`]ths of a pixel.

use vstd::prelude::*;

use crate::drag::FAR;
use crate::lines::{line_number, line_of};
use crate::mouse::{Button, Target};

verus! {

/// A line, in the units that the wheel turns by.
pub const LINE: i64 = 0x1_0000;

/// The farthest that the wheel turns at once.
pub const TURN: i64 = 0x1000_0000_0000;

/// The wheel's fraction of a line not yet scrolled, and what it was over.
#[derive(Clone, Copy, Debug, PartialEq, Eq, Structural)]
pub struct Rest {
    pub target: Target,
    pub part: i64,
}

/// The whole number of lines nearest to a part of one, halves away from
/// none.
pub open spec fn nearest(x: int) -> int {
    if x >= 0 {
        (x + LINE / 2) / (LINE as int)
    } else {
        -((-x + LINE / 2) / (LINE as int))
    }
}

/// What was left of the last turn, over the same target.
pub open spec fn left_over(rest: Option<Rest>, target: Target) -> int {
    match rest {
        Some(r) => if r.target == target {
            r.part as int
        } else {
            0
        },
        None => 0,
    }
}

/// What is left is less than a line.
pub open spec fn is_part(rest: Option<Rest>) -> bool {
    rest matches Some(r) ==> -LINE <= r.part <= LINE
}

/// The wheel turned by part of a line, or lines (up is positive): how
/// many lines to scroll, and what is left over for the next turn.
pub fn scroll_wheel(rest: Option<Rest>, target: Target, lines: i64) -> (r: (i64, Rest))
    requires
        is_part(rest),
        -TURN <= lines <= TURN,
    ensures
        ({
            let (n, left) = r;
            let total = left_over(rest, target) - lines;
            &&& n == nearest(total)
            &&& left.target == target
            &&& left.part == total - n * LINE
            &&& is_part(Some(left))
        }),
{
    let was: i64 = match rest {
        Some(x) => {
            if x.target == target {
                x.part
            } else {
                0
            }
        },
        None => 0,
    };
    let total: i64 = was - lines;
    let n: i64 = if total >= 0 {
        (total + LINE / 2) / LINE
    } else {
        -((LINE / 2 - total) / LINE)
    };
    (n, Rest { target, part: total - n * LINE })
}

/// Nothing of what the wheel turns is dropped: over two turns, what is
/// scrolled and what is left over in the end are together what was left
/// over before and what the two turned by; and what is left over is half
/// a line at most.
pub proof fn law_small_turns_add_up(before: int, a: int, b: int)
    ensures
        ({
            let n = nearest(before - a);
            let left = before - a - n * LINE;
            let m = nearest(left - b);
            let end = left - b - m * LINE;
            (n + m) * LINE + end == before - a - b && -LINE <= 2 * end <= LINE
        }),
{
}

/// How far down its bar a height is: from nothing to all of it.
pub open spec fn part_of(y: int, top: int, height: int) -> int {
    if y < top {
        0
    } else if y - top > height {
        height
    } else {
        y - top
    }
}

/// What a scroll bar's button does.
#[derive(Clone, Copy, Debug, PartialEq, Eq, Structural)]
pub enum Scroll {
    /// To a line of the text.
    To(usize),
    /// By so many lines, down the text or up.
    By(i64),
}

/// Which way a scroll bar's button goes: the left up, the middle to the
/// place itself, the right down.
pub open spec fn way(b: Button) -> int {
    match b {
        Button::Left => -1,
        Button::Middle => 0,
        _ => 1,
    }
}

/// What a button on a text's scroll bar does, of a text of `total` lines
/// of which `fit` are on screen: the middle one to the line that is as
/// far down the text as the pointer is down the bar; the others by as
/// many lines as are above the pointer, one at least.
pub open spec fn clicked(b: Button, part: int, height: int, fit: int, total: int) -> Scroll {
    if way(b) == 0 {
        let line = total * part / height;
        let last = if total > 0 {
            total - 1
        } else {
            0
        };
        Scroll::To(
            (if line < last {
                line
            } else {
                last
            }) as usize,
        )
    } else {
        let n = fit * part / height;
        Scroll::By(
            ((if n < 1 {
                1
            } else {
                n
            }) * way(b)) as i64,
        )
    }
}

fn part_down(y: i64, top: i64, height: i64) -> (p: i64)
    requires
        -FAR <= y <= FAR,
        -FAR <= top <= FAR,
        0 < height <= FAR,
    ensures
        p == part_of(y as int, top as int, height as int),
        0 <= p <= height,
{
    if y < top {
        0
    } else if y - top > height {
        height
    } else {
        y - top
    }
}

proof fn lemma_part(n: int, part: int, height: int)
    requires
        n >= 0,
        0 <= part <= height,
        height > 0,
    ensures
        0 <= n * part / height <= n,
        0 <= n * part <= n * height,
{
    assert(0 <= n * part <= n * height) by (nonlinear_arith)
        requires
            n >= 0,
            0 <= part <= height,
    ;
    assert(0 <= n * part / height <= n) by (nonlinear_arith)
        requires
            0 <= n * part <= n * height,
            height > 0,
    ;
}

/// A button on a text's scroll bar, of which `fit` lines of `total` are
/// on screen.
pub fn scrollbar_click(b: Button, y: i64, top: i64, height: i64, fit: u32, total: usize) -> (s: Scroll)
    requires
        -FAR <= y <= FAR,
        -FAR <= top <= FAR,
        0 < height <= FAR,
    ensures
        s == clicked(b, part_of(y as int, top as int, height as int), height as int, fit as int, total as int),
{
    let part: i64 = part_down(y, top, height);
    proof {
        lemma_part(total as int, part as int, height as int);
        lemma_part(fit as int, part as int, height as int);
        assert(total * height <= 0x1_0000_0000_0000_0000int * 0x100_0000_0000int) by (nonlinear_arith)
            requires
                0 <= total <= 0x1_0000_0000_0000_0000,
                0 < height <= 0x100_0000_0000,
        ;
        assert(fit * height <= 0x1_0000_0000int * 0x100_0000_0000int) by (nonlinear_arith)
            requires
                0 <= fit <= 0x1_0000_0000,
                0 < height <= 0x100_0000_0000,
        ;
    }
    if b == Button::Middle {
        let line: u128 = (total as u128 * part as u128) / (height as u128);
        let last: usize = if total > 0 {
            total - 1
        } else {
            0
        };
        if line < last as u128 {
            Scroll::To(line as usize)
        } else {
            Scroll::To(last)
        }
    } else {
        let q: u128 = (fit as u128 * part as u128) / (height as u128);
        let mut n: i64 = q as i64;
        if n < 1 {
            n = 1;
        }
        if b == Button::Left {
            Scroll::By(-n)
        } else {
            Scroll::By(n)
        }
    }
}

/// A button on a terminal's scroll bar: as on a text's, but the middle
/// one goes nowhere.
pub fn term_scrollbar_click(b: Button, y: i64, top: i64, height: i64, rows: u32) -> (n: i64)
    requires
        -FAR <= y <= FAR,
        -FAR <= top <= FAR,
        0 < height <= FAR,
    ensures
        ({
            let k = rows * part_of(y as int, top as int, height as int) / (height as int);
            n == (if k < 1 {
                1
            } else {
                k
            }) * way(b)
        }),
{
    let part: i64 = part_down(y, top, height);
    proof {
        lemma_part(rows as int, part as int, height as int);
        assert(rows * height <= 0x1_0000_0000int * 0x100_0000_0000int) by (nonlinear_arith)
            requires
                0 <= rows <= 0x1_0000_0000,
                0 < height <= 0x100_0000_0000,
        ;
    }
    let q: u128 = (rows as u128 * part as u128) / (height as u128);
    let mut k: i64 = q as i64;
    if k < 1 {
        k = 1;
    }
    if b == Button::Left {
        -k
    } else if b == Button::Middle {
        0
    } else {
        k
    }
}

/// The pointer is kept on the bar while a button is held there: a height
/// within it.
pub fn kept_on_bar(y: i64, top: i64, bottom: i64) -> (r: i64)
    requires
        top <= bottom,
    ensures
        r == (if y < top {
            top
        } else if y > bottom {
            bottom
        } else {
            y
        }),
{
    if y < top {
        top
    } else if y > bottom {
        bottom
    } else {
        y
    }
}

/// Text swept past its edge scrolls by as many lines as the pointer is
/// past it, one at least; not at all once the pointer is back.
pub open spec fn swept_past(up: bool, y: int, top: int, bottom: int, lh: int) -> Option<int> {
    let dist = if up {
        top - y
    } else {
        y - bottom
    };
    if dist <= 0 {
        None
    } else {
        let n = if dist / lh < 1 {
            1
        } else {
            dist / lh
        };
        Some(
            if up {
                -n
            } else {
                n
            },
        )
    }
}

/// One tick of sweeping past the edge of a text: how many lines it
/// scrolls, or that it is over.
pub fn autoscroll_step(up: bool, y: i64, top: i64, bottom: i64, lh: u32) -> (r: Option<i64>)
    requires
        -FAR <= y <= FAR,
        -FAR <= top <= FAR,
        -FAR <= bottom <= FAR,
        lh > 0,
    ensures
        match r {
            Some(n) => swept_past(up, y as int, top as int, bottom as int, lh as int) == Some(n as int),
            None => swept_past(up, y as int, top as int, bottom as int, lh as int) is None,
        },
{
    let dist: i64 = if up {
        top - y
    } else {
        y - bottom
    };
    if dist <= 0 {
        return None;
    }
    proof {
        assert(0 <= dist as int / lh as int <= dist) by (nonlinear_arith)
            requires
                dist > 0,
                lh > 0,
        ;
    }
    let mut n: i64 = dist / (lh as i64);
    if n < 1 {
        n = 1;
    }
    Some(
        if up {
            -n
        } else {
            n
        },
    )
}

/// A program's output at an offset moves an insertion point after it
/// along by as much as there is of it.
pub fn moved_along(point: usize, at: usize, end: usize) -> (p: usize)
    requires
        at <= end,
        at < point ==> point + (end - at) <= usize::MAX,
    ensures
        p == (if at < point {
            point + (end - at)
        } else {
            point as int
        }),
{
    if at < point {
        point + (end - at)
    } else {
        point
    }
}

/// A program's output is followed when the point it went in at was on
/// screen: from the origin on, within the lines that fit; or when an
/// earlier showing, still to come, brings it there.
pub fn follows_output(t: &[char], at: usize, origin: usize, fits: usize, showing: Option<usize>) -> (r: bool)
    requires
        origin <= t@.len(),
    ensures
        r == ({
            let q = if at < t@.len() {
                at as int
            } else {
                t@.len() as int
            };
            ||| at >= origin && line_of(t@, q) < line_of(t@, origin as int) + fits
            ||| showing is Some && at <= showing->0
        }),
{
    if let Some(q) = showing {
        if at <= q {
            return true;
        }
    }
    if at < origin {
        return false;
    }
    let q: usize = if at < t.len() {
        at
    } else {
        t.len()
    };
    let here: usize = line_number(t, q);
    let first: usize = line_number(t, origin);
    (here as u128) < first as u128 + fits as u128
}

/// A turn scrolls by the whole lines nearest to it, as far one way as the same
/// turn does the other.
pub proof fn law_a_turn_is_rounded_to_the_nearest_line(x: int)
    ensures
        -LINE <= 2 * (x - nearest(x) * LINE) <= LINE,
        nearest(-x) == -nearest(x),
        x >= 0 ==> nearest(x) >= 0,
{
}

/// The first button scrolls a text up and the third down, both by as much as
/// is above the pointer, and by one line at least; the second goes to the line
/// that is as far down the text as the pointer down the bar.
pub proof fn law_the_buttons_of_a_scrollbar(part: int, height: int, fit: int, total: int)
    requires
        0 <= part <= height,
        0 < height,
        0 <= fit <= u32::MAX,
        0 <= total <= usize::MAX,
    ensures
        ({
            let up = clicked(Button::Left, part, height, fit, total);
            let down = clicked(Button::Right, part, height, fit, total);
            let to = clicked(Button::Middle, part, height, fit, total);
            &&& up is By && down is By && up->By_0 == -down->By_0
            &&& down->By_0 >= 1
            &&& down->By_0 > 1 ==> down->By_0 * height <= fit * part
            &&& fit * part < (down->By_0 + 1) * height
            &&& to is To
            &&& total > 0 ==> to->To_0 < total && to->To_0 * height <= total * part
            &&& total == 0 ==> to->To_0 == 0
            &&& to->To_0 + 1 < total ==> total * part < (to->To_0 + 1) * height
        }),
{
    lemma_quotient(fit, part, height);
    lemma_quotient(total, part, height);
    let n = fit * part / height;
    let line = total * part / height;
    let d = if n < 1 {
        1
    } else {
        n
    };
    assert(clicked(Button::Right, part, height, fit, total)->By_0 == d);
    assert(clicked(Button::Left, part, height, fit, total)->By_0 == -d);
    assert((n + 1) * height <= (d + 1) * height) by (nonlinear_arith)
        requires
            n <= d,
            height > 0,
    ;
    let last = total - 1;
    if total > 0 && line > last {
        assert(last * height <= line * height) by (nonlinear_arith)
            requires
                last <= line,
                height > 0,
        ;
    }
    let l = if total == 0 {
        0
    } else if line < last {
        line
    } else {
        last
    };
    assert(clicked(Button::Middle, part, height, fit, total)->To_0 == l);
}

proof fn lemma_quotient(n: int, part: int, height: int)
    requires
        0 <= n,
        0 <= part <= height,
        0 < height,
    ensures
        0 <= n * part / height <= n,
        n * part / height * height <= n * part < (n * part / height + 1) * height,
{
    let p = n * part;
    let q = p / height;
    assert(0 <= p && p <= n * height) by (nonlinear_arith)
        requires
            p == n * part,
            0 <= n,
            0 <= part <= height,
    ;
    assert(0 <= q && q * height <= p && p < (q + 1) * height) by (nonlinear_arith)
        requires
            q == p / height,
            0 <= p,
            0 < height,
    ;
    assert(q <= n) by (nonlinear_arith)
        requires
            q * height <= p,
            p <= n * height,
            0 < height,
    ;
}

/// What is above the bar is its top, and what is below its bottom.
pub proof fn law_a_place_on_the_bar(y: int, top: int, height: int)
    requires
        0 <= height,
    ensures
        y <= top ==> part_of(y, top, height) == 0,
        top <= y <= top + height ==> part_of(y, top, height) == y - top,
        top + height <= y ==> part_of(y, top, height) == height,
{
}

/// A sweep past the text scrolls the way it goes: up past its top, down past
/// its bottom, a line for each line's height past it and one at least; within
/// the text it scrolls not at all.
pub proof fn law_a_sweep_scrolls_the_way_it_goes(y: int, top: int, bottom: int, lh: int)
    requires
        0 < lh,
    ensures
        y >= top ==> swept_past(true, y, top, bottom, lh) is None,
        y <= bottom ==> swept_past(false, y, top, bottom, lh) is None,
        y < top ==> swept_past(true, y, top, bottom, lh) is Some && swept_past(true, y, top, bottom, lh)->0 <= -1,
        y > bottom ==> swept_past(false, y, top, bottom, lh) is Some && swept_past(false, y, top, bottom, lh)->0 >= 1,
        y > bottom ==> ({
            let n = swept_past(false, y, top, bottom, lh)->0;
            (n > 1 ==> n * lh <= y - bottom) && y - bottom < (n + 1) * lh
        }),
        // as much the one way as the other
        y < top ==> swept_past(true, y, top, bottom, lh)->0 == -swept_past(false, bottom + top - y, top, bottom, lh)->0,
{
    if y > bottom {
        let d = y - bottom;
        let q = d / lh;
        assert(0 <= q && q * lh <= d && d < (q + 1) * lh) by (nonlinear_arith)
            requires
                q == d / lh,
                0 <= d,
                0 < lh,
        ;
        if q < 1 {
            assert((q + 1) * lh <= 2 * lh) by (nonlinear_arith)
                requires
                    q < 1,
                    lh > 0,
            ;
        }
    }
}

} // verus!
