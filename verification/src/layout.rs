//! A text laid out: tabs expanded, the rows its lines wrap to, which of
//! them are at the top, and what of the text shows.
//!
//! Heights are in the units of [`crate::mouse::Pt`].

use vstd::prelude::*;

use crate::text::{len_utf8, width_utf8};

verus! {

/// The columns a tab goes to the next multiple of.
pub const TABSTOP: usize = 4;

/// How many blanks a tab at column `col` stands for.
pub open spec fn tab_width(col: int) -> int {
    TABSTOP - col % (TABSTOP as int)
}

/// The column after the first `n` characters.
pub open spec fn column_after(src: Seq<char>, n: int) -> int
    decreases n,
{
    if n <= 0 || n > src.len() {
        0
    } else {
        let col = column_after(src, n - 1);
        if src[n - 1] == '\t' {
            col + tab_width(col)
        } else {
            col + 1
        }
    }
}

/// `n` times `x`.
pub open spec fn copies<T>(x: T, n: int) -> Seq<T> {
    Seq::new(n as nat, |i: int| x)
}

/// What the first `n` characters are drawn as.
pub open spec fn drawn(src: Seq<char>, n: int) -> Seq<char>
    decreases n,
{
    if n <= 0 || n > src.len() {
        Seq::empty()
    } else if src[n - 1] == '\t' {
        drawn(src, n - 1) + copies(' ', tab_width(column_after(src, n - 1)))
    } else {
        drawn(src, n - 1).push(src[n - 1])
    }
}

/// How many bytes the character at `i` is drawn as.
pub open spec fn drawn_width(src: Seq<char>, i: int) -> int {
    if src[i] == '\t' {
        tab_width(column_after(src, i))
    } else {
        width_utf8(src[i])
    }
}

/// For each byte that the first `n` characters are drawn as, the offset
/// of its character, the first one's being `start`.
pub open spec fn mapped(src: Seq<char>, start: int, n: int) -> Seq<int>
    decreases n,
{
    if n <= 0 || n > src.len() {
        Seq::empty()
    } else {
        mapped(src, start, n - 1) + copies(start + n - 1, drawn_width(src, n - 1))
    }
}

/// A map as a sequence of whole numbers.
pub open spec fn ints(s: Seq<usize>) -> Seq<int> {
    s.map_values(|x: usize| x as int)
}

/// The map goes up through every offset from `start` to the end.
pub open spec fn ascending(map: Seq<int>, start: int, end: int) -> bool {
    &&& map.len() > 0
    &&& map[0] == start
    &&& map.last() == end
    &&& forall|i: int, j: int| 0 <= i <= j < map.len() ==> map[i] <= map[j]
    &&& forall|i: int| 0 < i < map.len() ==> (#[trigger] map[i]) <= map[i - 1] + 1
}

proof fn lemma_mapped(src: Seq<char>, start: int, n: int)
    requires
        0 <= n <= src.len(),
        forall|i: int| 0 <= i < src.len() ==> 0 <= #[trigger] column_after(src, i),
    ensures
        ascending(mapped(src, start, n).push(start + n), start, start + n),
        mapped(src, start, n).len() >= n,
    decreases n,
{
    let m = mapped(src, start, n).push(start + n);
    if n > 0 {
        lemma_mapped(src, start, n - 1);
        let b = mapped(src, start, n - 1);
        let w = drawn_width(src, n - 1);
        assert(0 <= column_after(src, n - 1));
        assert(w >= 1);
        assert(b.push(start + n - 1).last() == start + n - 1);
        assert forall|i: int| 0 <= i < b.len() implies m[i] == b.push(start + n - 1)[i] by {}
        assert forall|i: int| b.len() <= i < b.len() + w implies m[i] == start + n - 1 by {}
        assert(m.len() == b.len() + w + 1);
        assert(b.push(start + n - 1)[b.len() as int] == start + n - 1);
        assert forall|i: int, j: int| 0 <= i <= j < m.len() implies m[i] <= m[j] by {
            if j < b.len() {
                assert(b.push(start + n - 1)[i] <= b.push(start + n - 1)[j]);
            } else if i < b.len() {
                assert(b.push(start + n - 1)[i] <= b.push(start + n - 1)[b.len() as int]);
            }
        }
        assert forall|i: int| 0 < i < m.len() implies (#[trigger] m[i]) <= m[i - 1] + 1 by {
            if i < b.len() {
                assert(b.push(start + n - 1)[i] <= b.push(start + n - 1)[i - 1] + 1);
            } else if i == b.len() {
                assert(b.push(start + n - 1)[i] <= b.push(start + n - 1)[i - 1] + 1);
            }
        }
    }
}

proof fn lemma_columns(src: Seq<char>, n: int)
    ensures
        0 <= column_after(src, n),
    decreases n,
{
    if 0 < n <= src.len() {
        lemma_columns(src, n - 1);
    }
}

/// The map of a line goes up from its start to its end, through every
/// offset between.
pub proof fn law_the_map_reaches_every_offset(src: Seq<char>, start: int)
    ensures
        ascending(mapped(src, start, src.len() as int).push(start + src.len()), start, start + src.len()),
{
    assert forall|i: int| 0 <= i < src.len() implies 0 <= #[trigger] column_after(src, i) by {
        lemma_columns(src, i);
    }
    lemma_mapped(src, start, src.len() as int);
}

/// A line expanded: what it is drawn as, and for each byte of that, and
/// the end, the offset of its character.
pub struct Expanded {
    pub out: Vec<char>,
    pub map: Vec<usize>,
}

/// Expand tabs and build the map from bytes drawn to offsets; `start` is
/// the offset of the first character.
pub fn expand(src: &[char], start: usize) -> (e: Expanded)
    requires
        start + src@.len() <= usize::MAX,
    ensures
        e.out@ == drawn(src@, src@.len() as int),
        ints(e.map@) == mapped(src@, start as int, src@.len() as int).push(start + src@.len()),
{
    let mut out: Vec<char> = Vec::new();
    let mut map: Vec<usize> = Vec::new();
    // the column, counted within a tab's width
    let mut col: usize = 0;
    let mut i: usize = 0;
    proof {
        assert(ints(map@) =~= Seq::<int>::empty());
    }
    while i < src.len()
        invariant
            i <= src@.len(),
            start + src@.len() <= usize::MAX,
            col < TABSTOP,
            column_after(src@, i as int) % (TABSTOP as int) == col,
            column_after(src@, i as int) >= 0,
            out@ == drawn(src@, i as int),
            ints(map@) == mapped(src@, start as int, i as int),
        decreases src@.len() - i,
    {
        let c = src[i];
        let ghost out0 = out@;
        let ghost map0 = map@;
        let tab = c == '\t';
        let n: usize = if tab {
            TABSTOP - col
        } else {
            len_utf8(c)
        };
        let mut k: usize = 0;
        while k < n
            invariant
                k <= n,
                i < src@.len(),
                start + src@.len() <= usize::MAX,
                out@ == (if tab {
                    out0 + copies(' ', k as int)
                } else {
                    out0
                }),
                ints(map@) == ints(map0) + copies((start + i) as int, k as int),
            decreases n - k,
        {
            let ghost map1 = map@;
            if tab {
                out.push(' ');
            }
            map.push(start + i);
            proof {
                assert(ints(map@) =~= ints(map1).push((start + i) as int));
                assert(copies(' ', k + 1) =~= copies(' ', k as int).push(' '));
                assert(copies((start + i) as int, k + 1) =~= copies((start + i) as int, k as int).push(
                    (start + i) as int,
                ));
                assert(ints(map@) =~= ints(map0) + copies((start + i) as int, k + 1));
                assert(tab ==> out@ =~= out0 + copies(' ', k + 1));
            }
            k = k + 1;
        }
        if tab {
            proof {
                let before = column_after(src@, i as int);
                assert((before + tab_width(before)) % (TABSTOP as int) == 0) by (nonlinear_arith)
                    requires
                        before % 4 == col,
                        tab_width(before) == 4 - before % 4,
                        TABSTOP == 4,
                ;
            }
            col = 0;
        } else {
            out.push(c);
            proof {
                assert(out@ =~= drawn(src@, i + 1));
            }
            col = if col + 1 == TABSTOP {
                0
            } else {
                col + 1
            };
        }
        i = i + 1;
    }
    map.push(start + i);
    proof {
        assert(ints(map@) =~= mapped(src@, start as int, src@.len() as int).push(start + src@.len()));
    }
    Expanded { out, map }
}

/// How many of `s`, which goes up, are less than `x`.
pub open spec fn below(s: Seq<int>, x: int) -> int
    decreases s.len(),
{
    if s.len() == 0 || s.last() < x {
        s.len() as int
    } else {
        below(s.drop_last(), x)
    }
}

proof fn lemma_below(s: Seq<int>, x: int)
    requires
        forall|i: int, j: int| 0 <= i <= j < s.len() ==> s[i] <= s[j],
    ensures
        0 <= below(s, x) <= s.len(),
        forall|i: int| 0 <= i < below(s, x) ==> s[i] < x,
        forall|i: int| below(s, x) <= i < s.len() ==> s[i] >= x,
    decreases s.len(),
{
    if s.len() > 0 && s.last() >= x {
        lemma_below(s.drop_last(), x);
        assert forall|i: int| 0 <= i < below(s, x) implies s[i] < x by {
            assert(s.drop_last()[i] < x);
        }
        assert forall|i: int| below(s, x) <= i < s.len() implies s[i] >= x by {
            if i < s.len() - 1 {
                assert(s.drop_last()[i] >= x);
            }
        }
    }
}

/// How many of `s`, which goes up, are less than `x`.
fn count_below(s: &Vec<usize>, x: usize) -> (n: usize)
    ensures
        n == below(ints(s@), x as int),
        n <= s@.len(),
{
    let mut n: usize = s.len();
    proof {
        assert(ints(s@).take(n as int) =~= ints(s@));
    }
    while n > 0 && s[n - 1] >= x
        invariant
            n <= s@.len(),
            below(ints(s@).take(n as int), x as int) == below(ints(s@), x as int),
        decreases n,
    {
        proof {
            assert(ints(s@).take(n as int).drop_last() =~= ints(s@).take(n - 1));
        }
        n = n - 1;
    }
    proof {
        assert(n > 0 ==> ints(s@).take(n as int).last() == s@[n - 1]);
    }
    n
}

/// A line laid out: the offsets of its start and its end, whether a
/// newline follows, the map from bytes drawn to offsets, and the rows it
/// wraps to, each from a byte drawn up to another.
pub struct LineInfo {
    pub start: usize,
    pub end: usize,
    pub has_newline: bool,
    pub map: Vec<usize>,
    pub subs: Vec<(usize, usize)>,
    /// Where its top is.
    pub y: i64,
}

impl LineInfo {
    /// The map goes up, and there is a row.
    pub open spec fn wf(&self) -> bool {
        &&& ascending(ints(self.map@), self.start as int, self.end as int)
        &&& self.subs@.len() > 0
        &&& self.subs@[0].0 == 0
        &&& forall|i: int, j: int| 0 <= i <= j < self.subs@.len() ==> (#[trigger] self.subs@[i]).0 <= (#[trigger] self.subs@[j]).0
        &&& forall|i: int| 0 <= i < self.subs@.len() ==> (#[trigger] self.subs@[i]).0 < self.map@.len()
    }

    /// The first byte drawn of the character at `src`.
    pub open spec fn disp_of(&self, src: int) -> int {
        let n = below(ints(self.map@), src);
        if n < self.map@.len() - 1 {
            n
        } else {
            self.map@.len() - 1
        }
    }

    /// The offset of the character that the byte `d` draws.
    pub open spec fn src_of(&self, d: int) -> int {
        self.map@[if d < self.map@.len() {
            d
        } else {
            self.map@.len() - 1
        }] as int
    }

    /// The row a character is on: the last to start at or before it, of
    /// the first `n`.
    pub open spec fn last_row(&self, d: int, n: int) -> int
        decreases n,
    {
        if n <= 1 || n > self.subs@.len() || self.subs@[n - 1].0 <= d {
            n - 1
        } else {
            self.last_row(d, n - 1)
        }
    }

    /// The row a character is on.
    pub open spec fn row_at(&self, q: int) -> int {
        self.last_row(self.disp_of(q), self.subs@.len() as int)
    }

    /// The first byte drawn of the character at `src`.
    pub fn to_disp(&self, src: usize) -> (d: usize)
        requires
            self.wf(),
        ensures
            d == self.disp_of(src as int),
            d < self.map@.len(),
    {
        let n: usize = count_below(&self.map, src);
        if n < self.map.len() - 1 {
            n
        } else {
            self.map.len() - 1
        }
    }

    /// The offset of the character that the byte `d` draws.
    pub fn to_src(&self, d: usize) -> (q: usize)
        requires
            self.wf(),
        ensures
            q == self.src_of(d as int),
            self.start <= q <= self.end,
    {
        let n: usize = self.map.len();
        let at: usize = if d < n {
            d
        } else {
            n - 1
        };
        proof {
            assert(ints(self.map@)[0] <= ints(self.map@)[at as int]);
            assert(ints(self.map@)[at as int] <= ints(self.map@)[n - 1]);
        }
        self.map[at]
    }

    /// How tall the line is: as many rows as it wraps to.
    pub fn height(&self, lh: u32) -> (h: u128)
        ensures
            h == lh * self.subs@.len(),
    {
        let n: usize = self.subs.len();
        proof {
            assert(0 <= lh * n <= 0xffff_ffff * 0xffff_ffff_ffff_ffff) by (nonlinear_arith)
                requires
                    0 <= lh <= 0xffff_ffff,
                    0 <= n <= 0xffff_ffff_ffff_ffff,
            ;
        }
        lh as u128 * n as u128
    }

    /// Where each of the rows it wraps to starts, as offsets.
    pub fn row_starts(&self) -> (r: Vec<usize>)
        requires
            self.wf(),
        ensures
            r@.len() == self.subs@.len(),
            forall|i: int| 0 <= i < r@.len() ==> (#[trigger] r@[i]) == self.src_of(self.subs@[i].0 as int),
    {
        let mut out: Vec<usize> = Vec::new();
        let mut i: usize = 0;
        while i < self.subs.len()
            invariant
                self.wf(),
                i <= self.subs@.len(),
                out@.len() == i,
                forall|j: int| 0 <= j < i ==> (#[trigger] out@[j]) == self.src_of(self.subs@[j].0 as int),
            decreases self.subs@.len() - i,
        {
            out.push(self.to_src(self.subs[i].0));
            i = i + 1;
        }
        out
    }

    /// The row a character is on: the last to start at or before it.
    pub fn row_of(&self, q: usize) -> (r: usize)
        requires
            self.wf(),
        ensures
            r == self.row_at(q as int),
            r < self.subs@.len(),
    {
        let d: usize = self.to_disp(q);
        let mut n: usize = self.subs.len();
        while n > 1 && self.subs[n - 1].0 > d
            invariant
                1 <= n <= self.subs@.len(),
                self.last_row(d as int, n as int) == self.last_row(d as int, self.subs@.len() as int),
            decreases n,
        {
            n = n - 1;
        }
        n - 1
    }
}

/// Going from an offset of a line to its first byte drawn and back is to
/// stay where one was.
pub proof fn law_there_and_back(l: LineInfo, q: int)
    requires
        l.wf(),
        l.start <= q <= l.end,
    ensures
        0 <= l.disp_of(q) < l.map@.len(),
        l.src_of(l.disp_of(q)) == q,
{
    let m = ints(l.map@);
    lemma_below(m, q);
    let n = below(m, q);
    assert(m.last() == l.end);
    if n == m.len() {
        assert(m[m.len() - 1] < q);
    }
    if n > 0 {
        assert(m[n - 1] < q);
        assert(m[n] <= m[n - 1] + 1);
    }
    assert(m[n] >= q);
    assert(m[n] == l.map@[n]);
}

/// A row starts no further on than the characters that are on it.
pub proof fn law_a_character_is_on_its_row(l: LineInfo, q: int)
    requires
        l.wf(),
    ensures
        0 <= l.row_at(q) < l.subs@.len(),
        l.subs@[l.row_at(q)].0 <= l.disp_of(q),
        l.row_at(q) + 1 < l.subs@.len() ==> l.subs@[l.row_at(q) + 1].0 > l.disp_of(q),
{
    lemma_below(ints(l.map@), q);
    lemma_last_row(l, l.disp_of(q), l.subs@.len() as int);
}

proof fn lemma_last_row(l: LineInfo, d: int, n: int)
    requires
        l.wf(),
        1 <= n <= l.subs@.len(),
        0 <= d,
        n < l.subs@.len() ==> l.subs@[n].0 > d,
    ensures
        0 <= l.last_row(d, n) < n,
        l.subs@[l.last_row(d, n)].0 <= d,
        l.last_row(d, n) + 1 < l.subs@.len() ==> l.subs@[l.last_row(d, n) + 1].0 > d,
    decreases n,
{
    if n > 1 && l.subs@[n - 1].0 > d {
        lemma_last_row(l, d, n - 1);
    }
}

/// The rows of a text as they are laid out, by where they start.
pub open spec fn rises(rows: Seq<usize>) -> bool {
    forall|i: int, j: int| 0 <= i <= j < rows.len() ==> rows[i] <= rows[j]
}

/// The row `n` rows from the one `origin` is on, of those laid out.
pub open spec fn row_stepped(rows: Seq<usize>, origin: int, n: int) -> int {
    if n == 0 || rows.len() == 0 {
        origin
    } else {
        let k = below(ints(rows), origin + 1);
        let at = if k == 0 {
            0
        } else {
            k - 1
        };
        let to = at + n;
        rows[if to < 0 {
            0
        } else if to >= rows.len() {
            rows.len() - 1
        } else {
            to
        }] as int
    }
}

/// The row `n` rows below the one `origin` is on (above when `n` is
/// negative), as far as the rows laid out reach: where the top of the
/// view goes when scrolled by `n` rows.
pub fn row_from(rows: &Vec<usize>, origin: usize, n: i64) -> (r: usize)
    ensures
        r == row_stepped(rows@, origin as int, n as int),
{
    if n == 0 || rows.len() == 0 {
        return origin;
    }
    let mut k: usize = rows.len();
    proof {
        assert(ints(rows@).take(k as int) =~= ints(rows@));
    }
    while k > 0 && rows[k - 1] > origin
        invariant
            k <= rows@.len(),
            below(ints(rows@).take(k as int), origin + 1) == below(ints(rows@), origin + 1),
        decreases k,
    {
        proof {
            assert(ints(rows@).take(k as int).drop_last() =~= ints(rows@).take(k - 1));
        }
        k = k - 1;
    }
    proof {
        assert(k > 0 ==> ints(rows@).take(k as int).last() == rows@[k - 1]);
    }
    let at: usize = if k == 0 {
        0
    } else {
        k - 1
    };
    let to: i128 = at as i128 + n as i128;
    let to: usize = if to < 0 {
        0
    } else if to >= rows.len() as i128 {
        rows.len() - 1
    } else {
        to as usize
    };
    rows[to]
}

/// Scrolling lands on a row, and a scroll up does not go down.
pub proof fn law_scrolling_lands_on_a_row(rows: Seq<usize>, origin: int, n: int)
    requires
        rows.len() > 0,
        n != 0,
        rises(rows),
        rows[0] <= origin,
    ensures
        exists|i: int| 0 <= i < rows.len() && rows[i] == row_stepped(rows, origin, n),
        n < 0 ==> row_stepped(rows, origin, n) <= origin,
{
    let m = ints(rows);
    lemma_below(m, origin + 1);
    let k = below(m, origin + 1);
    if k == 0 {
        assert(m[0] >= origin + 1);
    }
    let to = k - 1 + n;
    let i = if to < 0 {
        0
    } else if to >= rows.len() {
        rows.len() - 1
    } else {
        to
    };
    assert(rows[i] == row_stepped(rows, origin, n));
    if n < 0 {
        assert(m[k - 1] < origin + 1);
        assert(rows[i] <= rows[k - 1]);
    }
}

/// How many whole rows of `lh` go in `room`.
pub open spec fn rows_in(room: int, lh: int) -> int {
    if room <= 0 {
        0
    } else {
        room / lh
    }
}

/// The room above a row, cut so that what is left of its line, `rest`
/// high, stays in a view of `height` when it can.
pub open spec fn room_above(room: int, rest: int, height: int) -> int {
    if rest <= height && room > height - rest {
        height - rest
    } else {
        room
    }
}

/// The row `up` rows above the end of the lines in `above`, the nearest
/// line first; the start of the text when there are not so many.
pub open spec fn row_up(above: Seq<Vec<usize>>, up: int) -> int
    decreases above.len(),
{
    if above.len() == 0 {
        0
    } else {
        let starts = above[0]@;
        if up <= starts.len() {
            starts[starts.len() - up] as int
        } else {
            row_up(above.skip(1), up - starts.len())
        }
    }
}

/// The row to have at the top, so that row `r` of a line is `up` rows
/// down.
pub open spec fn top_row(starts: Seq<usize>, r: int, above: Seq<Vec<usize>>, up: int) -> int {
    if up <= r {
        starts[r - up] as int
    } else {
        row_up(above, up - r)
    }
}

/// The row to have at the top so that row `r` of a line starts `room`
/// down the view (or as near as whole rows come without going over),
/// counting rows as the lines wrap.  The rest of the line is kept in the
/// `height` when it can be.  `starts` is where the line's rows start, and
/// `above` where those of the lines above it do, the nearest line first.
pub fn top_for(starts: &Vec<usize>, r: usize, above: &Vec<Vec<usize>>, room: i64, height: i64, lh: u32) -> (top: usize)
    requires
        r < starts@.len(),
        lh > 0,
    ensures
        top == top_row(
            starts@,
            r as int,
            above@,
            rows_in(room_above(room as int, lh * (starts@.len() - r), height as int), lh as int),
        ),
{
    let left: usize = starts.len() - r;
    let ghost goal = top_row(
        starts@,
        r as int,
        above@,
        rows_in(room_above(room as int, lh * (starts@.len() - r), height as int), lh as int),
    );
    proof {
        assert(0 <= lh * left <= u32::MAX * u64::MAX) by (nonlinear_arith)
            requires
                0 <= lh <= u32::MAX,
                0 <= left <= u64::MAX,
        ;
    }
    let rest: i128 = lh as i128 * left as i128;
    let kept: i128 = if rest <= height as i128 && room as i128 > height as i128 - rest {
        height as i128 - rest
    } else {
        room as i128
    };
    let mut up: u64 = if kept <= 0 {
        0
    } else {
        kept as u64 / lh as u64
    };
    if up <= r as u64 {
        return starts[r - up as usize];
    }
    up = up - r as u64;
    let mut i: usize = 0;
    proof {
        assert(above@.skip(0) =~= above@);
    }
    while i < above.len()
        invariant
            i <= above@.len(),
            up > 0,
            row_up(above@.skip(i as int), up as int) == goal,
            goal == top_row(
                starts@,
                r as int,
                above@,
                rows_in(room_above(room as int, lh * (starts@.len() - r), height as int), lh as int),
            ),
        decreases above@.len() - i,
    {
        let n: usize = above[i].len();
        proof {
            assert(above@.skip(i as int)[0] == above@[i as int]);
            assert(above@.skip(i as int).skip(1) =~= above@.skip(i + 1));
        }
        if up <= n as u64 {
            return above[i][n - up as usize];
        }
        up = up - n as u64;
        i = i + 1;
    }
    0
}

/// What is to be brought on screen: a place to show, so many quarters of
/// the view down, else the end of the selection where it is wanted.
pub open spec fn wanted(show_at: Option<(usize, usize)>, want_visible: bool, q1: usize, height: int) -> Option<
    (usize, Option<int>),
> {
    match show_at {
        Some((q, quarters)) => Some((q, Some(height * quarters / 4))),
        None => if want_visible {
            Some((q1, None))
        } else {
            None
        },
    }
}

/// The room to leave above a row that is to be shown, or none when it is
/// in view: wholly on screen, or the top one while scrolled into it.
/// `row_y` is where its top is, when it is laid out at all; `before` says
/// that its line is above those laid out.
pub open spec fn room_for(row_y: Option<int>, before: bool, room: Option<int>, lh: int, height: int) -> Option<int> {
    if row_y matches Some(y) && y + lh > 0 && y + lh <= height {
        None
    } else {
        Some(
            match room {
                Some(r) => r,
                // the selection above: its row at the top; else half way
                // down, as acme's textshow
                None => if before || (row_y matches Some(y) && y < 0) {
                    0
                } else {
                    height / 2
                },
            },
        )
    }
}

/// What is to be brought on screen, and the room above it.
pub fn want(show_at: Option<(usize, u8)>, want_visible: bool, q1: usize, height: i64) -> (r: Option<(usize, Option<i64>)>)
    requires
        0 <= height <= crate::drag::FAR,
    ensures
        ({
            let w = wanted(
                match show_at {
                    Some((q, k)) => Some((q, k as usize)),
                    None => None,
                },
                want_visible,
                q1,
                height as int,
            );
            match r {
                None => w is None,
                Some((q, None)) => w == Some((q, None::<int>)),
                Some((q, Some(room))) => w == Some((q, Some(room as int))),
            }
        }),
{
    match show_at {
        Some((q, quarters)) => {
            proof {
                assert(0 <= height * quarters <= crate::drag::FAR * 255) by (nonlinear_arith)
                    requires
                        0 <= height <= crate::drag::FAR,
                        quarters <= 255,
                ;
            }
            let room: i64 = (height as u64 * quarters as u64 / 4) as i64;
            Some((q, Some(room)))
        },
        None => if want_visible {
            Some((q1, None))
        } else {
            None
        },
    }
}

/// The room to leave above a row that is to be shown; none when it is in
/// view.
pub fn room_to_leave(row_y: Option<i64>, before: bool, room: Option<i64>, lh: u32, height: i64) -> (r: Option<i64>)
    requires
        0 <= height,
    ensures
        ({
            let w = room_for(
                match row_y {
                    Some(y) => Some(y as int),
                    None => None,
                },
                before,
                match room {
                    Some(x) => Some(x as int),
                    None => None,
                },
                lh as int,
                height as int,
            );
            match r {
                None => w is None,
                Some(x) => w == Some(x as int),
            }
        }),
{
    let mut above = before;
    if let Some(y) = row_y {
        let end: i128 = y as i128 + lh as i128;
        if end > 0 && end <= height as i128 {
            return None;
        }
        if y < 0 {
            above = true;
        }
    }
    match room {
        Some(r) => Some(r),
        None => if above {
            Some(0)
        } else {
            Some((height as u64 / 2) as i64)
        },
    }
}

/// Where the thumb of a scrollbar of `height` starts and how long it is,
/// for the text from `a` to `b` of `n` characters shown.
pub open spec fn thumb_of(a: int, b: int, n: int, height: int) -> (int, int) {
    if n == 0 {
        (0, height)
    } else {
        (height * a / n, height * (if b < n { b } else { n }) / n - height * a / n)
    }
}

/// The scrollbar's thumb: the runes shown, of all of them.
pub fn thumb(a: usize, b: usize, n: usize, height: u32) -> (r: (u32, u32))
    requires
        a <= b,
        a <= n,
    ensures
        (r.0 as int, r.1 as int) == thumb_of(a as int, b as int, n as int, height as int),
{
    if n == 0 {
        return (0, height);
    }
    let b: usize = if b < n {
        b
    } else {
        n
    };
    proof {
        assert(height * a <= height * b && height * b <= height * n && height * n <= u32::MAX * u64::MAX)
            by (nonlinear_arith)
            requires
                0 <= a <= b <= n <= u64::MAX,
                0 <= height <= u32::MAX,
        ;
        assert(0 <= height * a) by (nonlinear_arith);
        vstd::arithmetic::div_mod::lemma_div_is_ordered(height * a, height * b, n as int);
        vstd::arithmetic::div_mod::lemma_div_is_ordered(height * b, height * n, n as int);
        assert(height * n / (n as int) == height) by (nonlinear_arith)
            requires
                n > 0,
        ;
        assert(0 <= height * a / (n as int)) by (nonlinear_arith)
            requires
                n > 0,
                0 <= height * a,
        ;
    }
    let t0: u128 = height as u128 * a as u128 / n as u128;
    let t1: u128 = height as u128 * b as u128 / n as u128;
    (t0 as u32, (t1 - t0) as u32)
}

/// Of a range `a..b`, what lies on a line from `start` to `end`: from
/// where to where, and whether it takes the line's newline in.
pub open spec fn on_line(start: int, end: int, newline: bool, a: int, b: int) -> Option<(int, int, bool)> {
    let lo = if a > start {
        a
    } else {
        start
    };
    let stop = end + if newline {
        1int
    } else {
        0int
    };
    let hi = if b < stop {
        b
    } else {
        stop
    };
    let past = newline && b > end && a <= end;
    if a >= b || lo > end || hi < start || (lo >= hi && !past) {
        None
    } else {
        Some(
            (
                lo,
                if hi < end {
                    hi
                } else {
                    end
                },
                past,
            ),
        )
    }
}

/// What of a range lies on a line.
pub fn range_on_line(l: &LineInfo, a: usize, b: usize) -> (r: Option<(usize, usize, bool)>)
    requires
        l.start <= l.end < usize::MAX,
    ensures
        r is Some == on_line(l.start as int, l.end as int, l.has_newline, a as int, b as int) is Some,
        r matches Some((lo, hi, past)) ==> on_line(l.start as int, l.end as int, l.has_newline, a as int, b as int) == Some(
            (lo as int, hi as int, past),
        ),
{
    let lo: usize = if a > l.start {
        a
    } else {
        l.start
    };
    let stop: usize = if l.has_newline {
        l.end + 1
    } else {
        l.end
    };
    let hi: usize = if b < stop {
        b
    } else {
        stop
    };
    let past = l.has_newline && b > l.end && a <= l.end;
    if a >= b || lo > l.end || hi < l.start || (lo >= hi && !past) {
        None
    } else {
        Some((lo, if hi < l.end { hi } else { l.end }, past))
    }
}

/// A line's bytes drawn in one colour or the other: from a byte up to
/// another, and whether they are swept.
pub open spec fn inks(n: int, lo: int, hi: int) -> Seq<(int, int, bool)> {
    (if lo > 0 {
        seq![(0int, lo, false)]
    } else {
        Seq::empty()
    }) + (if hi > lo {
        seq![(lo, hi, true)]
    } else {
        Seq::empty()
    }) + (if n > hi {
        seq![(hi, n, false)]
    } else {
        Seq::empty()
    })
}

/// The colours of a line's bytes, when `lo..hi` of the text is swept.
pub open spec fn line_inks(l: LineInfo, swept: Option<(usize, usize)>) -> Seq<(int, int, bool)> {
    let n = l.map@.len() - 1;
    match swept {
        Some((lo, hi)) => if lo < l.end && hi > l.start && lo < hi {
            inks(
                n,
                l.disp_of(
                    if lo > l.start {
                        lo as int
                    } else {
                        l.start as int
                    },
                ),
                l.disp_of(
                    if hi < l.end {
                        hi as int
                    } else {
                        l.end as int
                    },
                ),
            )
        } else {
            seq![(0, n, false)]
        },
        None => seq![(0, n, false)],
    }
}

/// Stretches of bytes as values.
pub open spec fn stretches(s: Seq<(usize, usize, bool)>) -> Seq<(int, int, bool)> {
    s.map_values(|x: (usize, usize, bool)| (x.0 as int, x.1 as int, x.2))
}

/// The colours of a line's bytes: the ink, or the ink of what is swept.
pub fn colors(l: &LineInfo, swept: Option<(usize, usize)>) -> (r: Vec<(usize, usize, bool)>)
    requires
        l.wf(),
    ensures
        stretches(r@) == line_inks(*l, swept),
{
    let n: usize = l.map.len() - 1;
    let mut out: Vec<(usize, usize, bool)> = Vec::new();
    if let Some((lo, hi)) = swept {
        if lo < l.end && hi > l.start && lo < hi {
            let dlo: usize = l.to_disp(if lo > l.start { lo } else { l.start });
            let dhi: usize = l.to_disp(if hi < l.end { hi } else { l.end });
            if dlo > 0 {
                out.push((0, dlo, false));
            }
            if dhi > dlo {
                out.push((dlo, dhi, true));
            }
            if n > dhi {
                out.push((dhi, n, false));
            }
            proof {
                assert(stretches(out@) =~= inks(n as int, dlo as int, dhi as int));
            }
            return out;
        }
    }
    out.push((0, n, false));
    proof {
        assert(stretches(out@) =~= seq![(0int, n as int, false)]);
    }
    out
}

/// A tab goes to the next column that is a multiple of four, and any other
/// character takes one.
pub proof fn law_a_tab_goes_to_the_next_stop(src: Seq<char>, n: int)
    requires
        0 < n <= src.len(),
    ensures
        ({
            let (before, after) = (column_after(src, n - 1), column_after(src, n));
            &&& 0 <= before < after
            &&& src[n - 1] == '\t' ==> after % 4 == 0 && after <= before + 4
            &&& src[n - 1] != '\t' ==> after == before + 1
        }),
{
    lemma_column(src, n - 1);
}

proof fn lemma_column(src: Seq<char>, n: int)
    ensures
        0 <= column_after(src, n),
    decreases n,
{
    if 0 < n <= src.len() {
        lemma_column(src, n - 1);
    }
}

/// What is drawn of a line is as long as the column that it goes to, and no
/// tabs are in it; without tabs it is the line.
pub proof fn law_what_is_drawn_has_no_tabs(src: Seq<char>, n: int)
    requires
        0 <= n <= src.len(),
    ensures
        drawn(src, n).len() == column_after(src, n),
        forall|i: int| 0 <= i < drawn(src, n).len() ==> #[trigger] drawn(src, n)[i] != '\t',
        (forall|i: int| 0 <= i < n ==> #[trigger] src[i] != '\t') ==> drawn(src, n) == src.take(n),
    decreases n,
{
    if n > 0 {
        law_what_is_drawn_has_no_tabs(src, n - 1);
        lemma_column(src, n - 1);
        let before = drawn(src, n - 1);
        let all = drawn(src, n);
        assert forall|i: int| 0 <= i < all.len() implies #[trigger] all[i] != '\t' by {
            if i < before.len() {
                assert(all[i] == before[i]);
            }
        }
        if forall|i: int| 0 <= i < n ==> #[trigger] src[i] != '\t' {
            assert(src[n - 1] != '\t');
            assert(all =~= src.take(n));
        }
    } else {
        assert(drawn(src, 0) =~= src.take(0));
    }
}

} // verus!
