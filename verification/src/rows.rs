//! The rows of a text on the screen: which there are above and below its
//! top, how much of the text shows, and what of each row is swept.

use vstd::prelude::*;

use crate::layout::{on_line, range_on_line, LineInfo};

verus! {

/// The rows of the first `n` lines, one line after another.
pub open spec fn flat(lines: Seq<Vec<usize>>, n: int) -> Seq<usize>
    decreases n,
{
    if n <= 0 || n > lines.len() {
        Seq::empty()
    } else {
        flat(lines, n - 1) + lines[n - 1]@
    }
}

/// The rows of the `n` lines nearest above, the farthest first.
pub open spec fn above_rows(above: Seq<Vec<usize>>, n: int) -> Seq<usize>
    decreases n,
{
    if n <= 0 || n > above.len() {
        Seq::empty()
    } else {
        above[n - 1]@ + above_rows(above, n - 1)
    }
}

/// How many lines above give a screen of rows, `have` of which there are
/// with the first `n` lines.
pub open spec fn lines_above(above: Seq<Vec<usize>>, have: int, n: int, lh: int, height: int) -> int
    decreases above.len() - n,
{
    if 0 <= n < above.len() && lh * have <= height {
        lines_above(above, have + above[n]@.len(), n + 1, lh, height)
    } else {
        n
    }
}

/// The rows across which a view scrolls: a screen of them above the top
/// -- `r` of which are of its own first line -- and those laid out from
/// it down.  The lines above come nearest first.
pub open spec fn rows_of(above: Seq<Vec<usize>>, lines: Seq<Vec<usize>>, r: int, lh: int, height: int) -> Seq<usize> {
    above_rows(above, lines_above(above, r, 0, lh, height)) + flat(lines, lines.len() as int)
}

fn fits(have: i128, lh: u32, height: i64) -> (r: bool)
    requires
        lh > 0,
        0 <= have <= 0x1_8000_0000_0000_0000,
    ensures
        r == (lh * have <= height),
        r ==> have <= height,
{
    proof {
        assert(0 <= lh * have <= 0xffff_ffff * 0x1_8000_0000_0000_0000) by (nonlinear_arith)
            requires
                0 < lh <= 0xffff_ffff,
                0 <= have <= 0x1_8000_0000_0000_0000,
        ;
        assert(have > height ==> lh * have > height) by (nonlinear_arith)
            requires
                lh > 0,
                have >= 0,
        ;
    }
    lh as i128 * have <= height as i128
}

/// The rows across which a view scrolls.
pub fn rows_across(above: &Vec<Vec<usize>>, lines: &Vec<Vec<usize>>, r: usize, lh: u32, height: i64) -> (rows: Vec<usize>)
    requires
        lh > 0,
    ensures
        rows@ == rows_of(above@, lines@, r as int, lh as int, height as int),
{
    let mut have: i128 = r as i128;
    let mut n: usize = 0;
    while n < above.len() && fits(have, lh, height)
        invariant
            lh > 0,
            n <= above@.len(),
            0 <= have <= 0x1_8000_0000_0000_0000,
            lines_above(above@, have as int, n as int, lh as int, height as int) == lines_above(
                above@,
                r as int,
                0,
                lh as int,
                height as int,
            ),
        decreases above@.len() - n,
    {
        have = have + above[n].len() as i128;
        n = n + 1;
    }
    let mut rows: Vec<usize> = Vec::new();
    let mut k: usize = n;
    while k > 0
        invariant
            k <= n <= above@.len(),
            rows@ + above_rows(above@, k as int) == above_rows(above@, n as int),
        decreases k,
    {
        let ghost before = rows@;
        push_all(&mut rows, &above[k - 1]);
        k = k - 1;
        proof {
            assert(rows@ + above_rows(above@, k as int) =~= before + (above@[k as int]@ + above_rows(above@, k as int)));
        }
    }
    proof {
        assert(rows@ =~= above_rows(above@, n as int));
    }
    let ghost up = rows@;
    let mut i: usize = 0;
    proof {
        assert(rows@ =~= up + flat(lines@, 0));
    }
    while i < lines.len()
        invariant
            i <= lines@.len(),
            rows@ == up + flat(lines@, i as int),
        decreases lines@.len() - i,
    {
        push_all(&mut rows, &lines[i]);
        i = i + 1;
        proof {
            assert(rows@ =~= up + flat(lines@, i as int));
        }
    }
    rows
}

fn push_all(to: &mut Vec<usize>, from: &Vec<usize>)
    ensures
        final(to)@ == old(to)@ + from@,
{
    let ghost start = to@;
    let mut i: usize = 0;
    proof {
        assert(to@ =~= start + from@.take(0));
    }
    while i < from.len()
        invariant
            i <= from@.len(),
            to@ == start + from@.take(i as int),
        decreases from@.len() - i,
    {
        to.push(from[i]);
        i = i + 1;
        proof {
            assert(from@.take(i as int) =~= from@.take(i - 1).push(from@[i - 1]));
            assert(to@ =~= start + from@.take(i as int));
        }
    }
    proof {
        assert(from@.take(i as int) =~= from@);
    }
}

/// Where a row of a line ends: where the next one starts, or past the
/// line and its newline.
pub open spec fn row_end(l: LineInfo, i: int) -> int {
    if i + 1 < l.subs@.len() {
        l.src_of(l.subs@[i + 1].0 as int)
    } else {
        l.end + if l.has_newline {
            1int
        } else {
            0int
        }
    }
}

/// How many of a line's rows have their tops in view, from the `i`th on:
/// the place of the first that has not.
pub open spec fn rows_in_view(l: LineInfo, i: int, lh: int, height: int) -> int
    decreases l.subs@.len() - i,
{
    if 0 <= i < l.subs@.len() && l.y + lh * i < height {
        rows_in_view(l, i + 1, lh, height)
    } else {
        i
    }
}

/// Where the text shown of the first `n` lines ends.
pub open spec fn shown_to(lines: Seq<LineInfo>, n: int, lh: int, height: int) -> int
    decreases n,
{
    if n <= 0 || n > lines.len() {
        lines[0].start as int
    } else {
        let l = lines[n - 1];
        let k = rows_in_view(l, 0, lh, height);
        if k > 0 {
            row_end(l, k - 1)
        } else {
            shown_to(lines, n - 1, lh, height)
        }
    }
}

/// The text that shows: from the top row, the `r`th of the first line, to
/// the end of the last row whose top is in view.
pub open spec fn shown_of(lines: Seq<LineInfo>, r: int, lh: int, height: int) -> (int, int) {
    let from = lines[0].src_of(lines[0].subs@[r].0 as int);
    let to = shown_to(lines, lines.len() as int, lh, height);
    (
        from,
        if to > from {
            to
        } else {
            from
        },
    )
}

/// The farthest that a line's top or a view's bottom is.
pub const REACH: i64 = 0x1000_0000_0000_0000;

/// A line is in order, and its top not too far.
pub open spec fn is_laid(l: LineInfo) -> bool {
    l.wf() && l.end < usize::MAX && -REACH <= l.y <= REACH
}

fn end_of(l: &LineInfo, lh: u32, height: i64) -> (r: Option<usize>)
    requires
        is_laid(*l),
        -REACH <= height <= REACH,
    ensures
        ({
            let k = rows_in_view(*l, 0, lh as int, height as int);
            match r {
                Some(e) => k > 0 && e == row_end(*l, k - 1),
                None => k <= 0,
            }
        }),
{
    let n: usize = l.subs.len();
    let mut i: usize = 0;
    let mut y: i64 = l.y;
    proof {
        assert(lh * 0 == 0) by (nonlinear_arith);
    }
    while i < n && y < height
        invariant
            n == l.subs@.len(),
            i <= n,
            y == l.y + lh * i,
            -REACH <= y <= REACH + 0x1_0000_0000,
            -REACH <= height <= REACH,
            rows_in_view(*l, i as int, lh as int, height as int) == rows_in_view(*l, 0, lh as int, height as int),
        decreases n - i,
    {
        proof {
            assert(lh * (i + 1) == lh * i + lh) by (nonlinear_arith);
        }
        y = y + lh as i64;
        i = i + 1;
    }
    if i == 0 {
        return None;
    }
    if i < n {
        Some(l.to_src(l.subs[i].0))
    } else if l.has_newline {
        Some(l.end + 1)
    } else {
        Some(l.end)
    }
}

/// The text that shows.
pub fn shown(lines: &Vec<LineInfo>, r: usize, lh: u32, height: i64) -> (s: (usize, usize))
    requires
        lines@.len() > 0,
        r < lines@[0].subs@.len(),
        forall|i: int| 0 <= i < lines@.len() ==> #[trigger] is_laid(lines@[i]),
        -REACH <= height <= REACH,
    ensures
        (s.0 as int, s.1 as int) == shown_of(lines@, r as int, lh as int, height as int),
{
    proof {
        assert(is_laid(lines@[0]));
    }
    let from: usize = lines[0].to_src(lines[0].subs[r].0);
    let mut to: usize = lines[0].start;
    let mut i: usize = 0;
    while i < lines.len()
        invariant
            i <= lines@.len(),
            forall|i: int| 0 <= i < lines@.len() ==> #[trigger] is_laid(lines@[i]),
            -REACH <= height <= REACH,
            to == shown_to(lines@, i as int, lh as int, height as int),
        decreases lines@.len() - i,
    {
        proof {
            assert(is_laid(lines@[i as int]));
        }
        if let Some(e) = end_of(&lines[i], lh, height) {
            to = e;
        }
        i = i + 1;
    }
    (
        from,
        if to > from {
            to
        } else {
            from
        },
    )
}

/// How many rows the first `n` lines wrap to, each to one at least.
pub open spec fn wrapped(lines: Seq<LineInfo>, n: int) -> int
    decreases n,
{
    if n <= 0 || n > lines.len() {
        0
    } else {
        wrapped(lines, n - 1) + if lines[n - 1].subs@.len() > 0 {
            lines[n - 1].subs@.len() as int
        } else {
            1
        }
    }
}

/// How many rows a tag needs.
pub fn tag_need(lines: &Vec<LineInfo>) -> (n: u128)
    ensures
        n == wrapped(lines@, lines@.len() as int),
{
    let mut n: u128 = 0;
    let mut i: usize = 0;
    while i < lines.len()
        invariant
            i <= lines@.len(),
            n == wrapped(lines@, i as int),
            0 <= n <= i * 0x1_0000_0000_0000_0000,
        decreases lines@.len() - i,
    {
        let rows: usize = lines[i].subs.len();
        n = n + if rows > 0 {
            rows as u128
        } else {
            1
        };
        i = i + 1;
    }
    n
}

/// What of a row is swept: from a byte drawn to another, or to the edge.
#[derive(Clone, Copy, Debug, PartialEq, Eq, Structural)]
pub struct Span {
    pub row: usize,
    pub from: usize,
    pub to: Option<usize>,
}

/// What of a row is swept: `lo` to `hi` are the bytes drawn, and `past`
/// says that the newline is taken in.
pub open spec fn span_of(l: LineInfo, i: int, lo: int, hi: int, past: bool) -> Option<Span> {
    let (ds, de) = l.subs@[i];
    let s = if lo > ds {
        lo
    } else {
        ds as int
    };
    let e = if hi < de {
        hi
    } else {
        de as int
    };
    if i + 1 == l.subs@.len() && past && lo <= de {
        Some(Span { row: i as usize, from: s as usize, to: None })
    } else if s < e {
        Some(Span { row: i as usize, from: s as usize, to: Some(e as usize) })
    } else {
        None
    }
}

/// What of the first `n` rows is swept.
pub open spec fn spans_of(l: LineInfo, lo: int, hi: int, past: bool, n: int) -> Seq<Span>
    decreases n,
{
    if n <= 0 || n > l.subs@.len() {
        Seq::empty()
    } else {
        match span_of(l, n - 1, lo, hi, past) {
            Some(s) => spans_of(l, lo, hi, past, n - 1).push(s),
            None => spans_of(l, lo, hi, past, n - 1),
        }
    }
}

/// What of a line is swept, row by row.
pub fn swept(l: &LineInfo, a: usize, b: usize) -> (r: Vec<Span>)
    requires
        l.wf(),
        l.start <= l.end < usize::MAX,
    ensures
        r@ == (match on_line(l.start as int, l.end as int, l.has_newline, a as int, b as int) {
            Some((lo, hi, past)) => spans_of(*l, l.disp_of(lo), l.disp_of(hi), past, l.subs@.len() as int),
            None => Seq::empty(),
        }),
{
    let mut out: Vec<Span> = Vec::new();
    let (lo, hi, past) = match range_on_line(l, a, b) {
        Some(r) => r,
        None => {
            return out;
        },
    };
    let dlo: usize = l.to_disp(lo);
    let dhi: usize = l.to_disp(hi);
    let n: usize = l.subs.len();
    let mut i: usize = 0;
    while i < n
        invariant
            n == l.subs@.len(),
            i <= n,
            out@ == spans_of(*l, dlo as int, dhi as int, past, i as int),
        decreases n - i,
    {
        let (ds, de) = l.subs[i];
        let s: usize = if dlo > ds {
            dlo
        } else {
            ds
        };
        let e: usize = if dhi < de {
            dhi
        } else {
            de
        };
        if i + 1 == n && past && dlo <= de {
            out.push(Span { row: i, from: s, to: None });
        } else if s < e {
            out.push(Span { row: i, from: s, to: Some(e) });
        }
        i = i + 1;
    }
    out
}

/// How many cells of a terminal fit: two across and one down at least.
pub fn grid_size(width: i64, height: i64, margin: i64, cell_w: u32, cell_h: u32) -> (r: (u16, u16))
    requires
        -REACH <= width <= REACH,
        -REACH <= height <= REACH,
        -REACH <= margin <= REACH,
        cell_w > 0 && cell_h > 0,
    ensures
        ({
            let c = (width - margin) / (cell_w as int);
            let n = height as int / (cell_h as int);
            r == (
                (if c < 2 {
                    2
                } else if c > 0xffff {
                    0xffff
                } else {
                    c
                }) as u16,
                (if n < 1 {
                    1
                } else if n > 0xffff {
                    0xffff
                } else {
                    n
                }) as u16,
            )
        }),
{
    let w: i64 = width - margin;
    let c: i64 = if w < 0 {
        proof {
            assert(w as int / (cell_w as int) <= 0) by (nonlinear_arith)
                requires
                    w < 0,
                    cell_w > 0,
            ;
        }
        0
    } else {
        w / cell_w as i64
    };
    let n: i64 = if height < 0 {
        proof {
            assert(height as int / (cell_h as int) <= 0) by (nonlinear_arith)
                requires
                    height < 0,
                    cell_h > 0,
            ;
        }
        0
    } else {
        height / cell_h as i64
    };
    let cols: u16 = if c < 2 {
        2
    } else if c > 0xffff {
        0xffff
    } else {
        c as u16
    };
    let rows: u16 = if n < 1 {
        1
    } else if n > 0xffff {
        0xffff
    } else {
        n as u16
    };
    (cols, rows)
}

/// What a height in a text falls on.
#[derive(Clone, Copy, Debug, PartialEq, Eq, Structural)]
pub enum Falls {
    /// No line: this offset is taken.
    On(usize),
    /// A line, by its place among those laid out.
    Line(usize),
}

/// The first line from `i` on that ends below a height; the end of them
/// where none does.
pub open spec fn line_under(lines: Seq<LineInfo>, y: int, lh: int, i: int) -> int
    decreases lines.len() - i,
{
    if 0 <= i < lines.len() && y >= lines[i].y + lh * lines[i].subs@.len() {
        line_under(lines, y, lh, i + 1)
    } else {
        i
    }
}

/// What a height falls on: above the lines, the first one's start; below
/// them, the end of the last one where more lines follow, else the text's
/// end.
pub open spec fn falls_on(lines: Seq<LineInfo>, y: int, lh: int, first: int, total: int, text_len: usize) -> Falls {
    let k = line_under(lines, y, lh, 0);
    if lines.len() == 0 {
        Falls::On(text_len)
    } else if y < lines[0].y {
        Falls::On(lines[0].start)
    } else if k < lines.len() {
        Falls::Line(k as usize)
    } else if lines.last().has_newline && first + lines.len() < total {
        Falls::On(lines.last().end)
    } else {
        Falls::On(text_len)
    }
}

/// What a height in a text falls on: `first` is the line of the text that
/// is laid out first, of `total`.
pub fn offset_at(lines: &Vec<LineInfo>, y: i64, lh: u32, first: usize, total: usize, text_len: usize) -> (f: Falls)
    requires
        forall|i: int| 0 <= i < lines@.len() ==> -REACH <= (#[trigger] lines@[i]).y <= REACH,
    ensures
        f == falls_on(lines@, y as int, lh as int, first as int, total as int, text_len),
{
    let n: usize = lines.len();
    if n == 0 {
        return Falls::On(text_len);
    }
    if y < lines[0].y {
        return Falls::On(lines[0].start);
    }
    let mut i: usize = 0;
    while i < n
        invariant
            n == lines@.len(),
            i <= n,
            n > 0,
            y >= lines@[0].y,
            forall|i: int| 0 <= i < lines@.len() ==> -REACH <= (#[trigger] lines@[i]).y <= REACH,
            line_under(lines@, y as int, lh as int, i as int) == line_under(lines@, y as int, lh as int, 0),
        decreases n - i,
    {
        let rows: usize = lines[i].subs.len();
        proof {
            assert(0 <= lh * rows <= 0xffff_ffff * 0xffff_ffff_ffff_ffff) by (nonlinear_arith)
                requires
                    0 <= lh <= 0xffff_ffff,
                    0 <= rows <= 0xffff_ffff_ffff_ffff,
            ;
        }
        let tall: i128 = lh as i128 * rows as i128;
        if (y as i128) < lines[i].y as i128 + tall {
            return Falls::Line(i);
        }
        i = i + 1;
    }
    let after: u128 = first as u128 + n as u128;
    if lines[n - 1].has_newline && after < total as u128 {
        Falls::On(lines[n - 1].end)
    } else {
        Falls::On(text_len)
    }
}

/// An offset is drawn on a line: on it, or at its end where no newline
/// follows.
pub open spec fn drawn_on(l: LineInfo, off: int) -> bool {
    l.start <= off && (off < l.end || (off == l.end && !l.has_newline))
}

/// The first line from `i` on that an offset is drawn on; the end of them
/// where it is on none.
pub open spec fn line_with(lines: Seq<LineInfo>, off: int, i: int) -> int
    decreases lines.len() - i,
{
    if 0 <= i < lines.len() && !drawn_on(lines[i], off) {
        line_with(lines, off, i + 1)
    } else {
        i
    }
}

/// The line that an offset is drawn on, and its first byte drawn there.
pub fn point_of(lines: &Vec<LineInfo>, off: usize) -> (r: Option<(usize, usize)>)
    requires
        forall|i: int| 0 <= i < lines@.len() ==> (#[trigger] lines@[i]).wf(),
    ensures
        ({
            let k = line_with(lines@, off as int, 0);
            match r {
                Some((i, d)) => k < lines@.len() && i == k && d == lines@[k].disp_of(off as int),
                None => k >= lines@.len(),
            }
        }),
{
    let mut i: usize = 0;
    while i < lines.len()
        invariant
            i <= lines@.len(),
            forall|i: int| 0 <= i < lines@.len() ==> (#[trigger] lines@[i]).wf(),
            line_with(lines@, off as int, i as int) == line_with(lines@, off as int, 0),
        decreases lines@.len() - i,
    {
        let l: &LineInfo = &lines[i];
        if l.start <= off && (off < l.end || (off == l.end && !l.has_newline)) {
            return Some((i, l.to_disp(off)));
        }
        i = i + 1;
    }
    None
}

/// What is swept of a row lies on it.
pub proof fn law_what_is_swept_is_on_its_row(l: LineInfo, i: int, lo: int, hi: int, past: bool)
    requires
        l.wf(),
        0 <= i < l.subs@.len(),
        0 <= lo,
        span_of(l, i, lo, hi, past) is Some,
    ensures
        ({
            let s = span_of(l, i, lo, hi, past)->0;
            let (ds, de) = l.subs@[i];
            &&& s.row == i || i > usize::MAX
            &&& lo <= usize::MAX ==> s.from >= ds && s.from >= lo
            &&& s.to matches Some(e) ==> (hi >= 0 && e <= de && e <= hi)
        }),
{
}

/// How many lines fit in a height: one at the least.
pub fn lines_that_fit(height: i64, lh: u32) -> (n: u64)
    requires
        lh > 0,
    ensures
        n == (if height < lh {
            1
        } else {
            height as int / (lh as int)
        }),
{
    if height < lh as i64 {
        1
    } else {
        height as u64 / lh as u64
    }
}

/// The rows of a line that are in view are those that start above the bottom.
pub proof fn law_rows_in_view_start_above_the_bottom(l: LineInfo, i: int, lh: int, height: int)
    requires
        0 <= i <= l.subs@.len(),
    ensures
        ({
            let k = rows_in_view(l, i, lh, height);
            &&& i <= k <= l.subs@.len()
            &&& forall|j: int| i <= j < k ==> l.y + #[trigger] times(lh, j) < height
            &&& k < l.subs@.len() ==> l.y + times(lh, k) >= height
        }),
    decreases l.subs@.len() - i,
{
    if i < l.subs@.len() && l.y + lh * i < height {
        law_rows_in_view_start_above_the_bottom(l, i + 1, lh, height);
        assert(times(lh, i) == lh * i);
    }
}

/// So many lines' height.
pub open spec fn times(lh: int, n: int) -> int {
    lh * n
}

/// A row ends where the next begins, and the last where the line does, its
/// newline with it.
pub proof fn law_a_row_ends_where_the_next_begins(l: LineInfo, i: int)
    requires
        0 <= i < l.subs@.len(),
    ensures
        i + 1 < l.subs@.len() ==> row_end(l, i) == l.src_of(l.subs@[i + 1].0 as int),
        i + 1 == l.subs@.len() && l.has_newline ==> row_end(l, i) == l.end + 1,
        i + 1 == l.subs@.len() && !l.has_newline ==> row_end(l, i) == l.end,
{
}

proof fn lemma_line_under(lines: Seq<LineInfo>, y: int, lh: int, i: int)
    requires
        0 <= i <= lines.len(),
    ensures
        i <= line_under(lines, y, lh, i) <= lines.len(),
        forall|j: int|
            i <= j < line_under(lines, y, lh, i) ==> y >= (#[trigger] lines[j]).y + lh * lines[j].subs@.len(),
        line_under(lines, y, lh, i) < lines.len() ==> y < lines[line_under(lines, y, lh, i)].y + lh
            * lines[line_under(lines, y, lh, i)].subs@.len(),
    decreases lines.len() - i,
{
    if i < lines.len() && y >= lines[i].y + lh * lines[i].subs@.len() {
        lemma_line_under(lines, y, lh, i + 1);
    }
}

/// A point falls on the first line that reaches below it; above them all it
/// takes the first's start, and below the end of the last line there is: of
/// the text where that is its last.
pub proof fn law_a_point_falls_on_the_line_it_is_in(
    lines: Seq<LineInfo>,
    y: int,
    lh: int,
    first: int,
    total: int,
    text_len: usize,
    k: int,
)
    requires
        lines.len() <= usize::MAX,
    ensures
        lines.len() == 0 ==> falls_on(lines, y, lh, first, total, text_len) == Falls::On(text_len),
        lines.len() > 0 && y < lines[0].y ==> falls_on(lines, y, lh, first, total, text_len) == Falls::On(lines[0].start),
        lines.len() > 0 && y >= lines[0].y && 0 <= k < lines.len() && y < lines[k].y + lh * lines[k].subs@.len() && (
        forall|j: int| 0 <= j < k ==> y >= (#[trigger] lines[j]).y + lh * lines[j].subs@.len()) ==> falls_on(
            lines,
            y,
            lh,
            first,
            total,
            text_len,
        ) == Falls::Line(k as usize),
        lines.len() > 0 && y >= lines[0].y && (forall|j: int|
            0 <= j < lines.len() ==> y >= (#[trigger] lines[j]).y + lh * lines[j].subs@.len()) ==> falls_on(
            lines,
            y,
            lh,
            first,
            total,
            text_len,
        ) == Falls::On(
            if lines.last().has_newline && first + lines.len() < total {
                lines.last().end
            } else {
                text_len
            },
        ),
{
    lemma_line_under(lines, y, lh, 0);
    let u = line_under(lines, y, lh, 0);
    if 0 <= k < lines.len() && y < lines[k].y + lh * lines[k].subs@.len() && (forall|j: int|
        0 <= j < k ==> y >= (#[trigger] lines[j]).y + lh * lines[j].subs@.len()) {
        if u < k {
            assert(y >= lines[u].y + lh * lines[u].subs@.len());
        }
        if k < u {
            assert(y >= lines[k].y + lh * lines[k].subs@.len());
        }
    }
    if forall|j: int| 0 <= j < lines.len() ==> y >= (#[trigger] lines[j]).y + lh * lines[j].subs@.len() {
        if u < lines.len() {
            assert(y >= lines[u].y + lh * lines[u].subs@.len());
        }
    }
}

/// An offset is drawn on a line from its start up to its end, and at its end
/// where no newline is.
pub proof fn law_where_an_offset_is_drawn(l: LineInfo, off: int)
    ensures
        l.start <= off < l.end ==> drawn_on(l, off),
        off == l.end && l.start <= l.end && !l.has_newline ==> drawn_on(l, off),
        off == l.end && l.has_newline ==> !drawn_on(l, off),
        off < l.start || off > l.end ==> !drawn_on(l, off),
{
}

/// A tag needs a row for each row that its lines wrap to, and one for a line
/// that has none.
pub proof fn law_each_line_needs_a_row(lines: Seq<LineInfo>, n: int)
    requires
        0 <= n <= lines.len(),
    ensures
        wrapped(lines, n) >= n,
        (forall|i: int| 0 <= i < n ==> (#[trigger] lines[i]).subs@.len() <= 1) ==> wrapped(lines, n) == n,
    decreases n,
{
    if n > 0 {
        law_each_line_needs_a_row(lines, n - 1);
        if forall|i: int| 0 <= i < n ==> (#[trigger] lines[i]).subs@.len() <= 1 {
            assert(lines[n - 1].subs@.len() <= 1);
        }
    }
}

} // verus!
