//! A terminal's text: what is under the pointer or swept, and the rows
//! as they are drawn.

use vstd::prelude::*;

use crate::drag::{near, FAR};
use crate::mouse::{Button, Cell, HlKind, Pt};
use crate::text::{
    has_at, has_ink, inked, is_whitespace, len_utf8, slice_of, stands_at, string_of, trim_end, trimmed_end, whitespace,
    width_utf8,
};
use crate::words::{is_exec_char, is_file_char, run_end, run_start, taken};

verus! {

/// A cell of the grid: its character (NUL for none), its colours packed
/// (0 for the default), and the link it is part of (from 1; 0 for none).
#[derive(Clone, Copy, Debug, PartialEq, Eq, Structural)]
pub struct GridCell {
    pub ch: char,
    pub fg: u32,
    pub bg: u32,
    pub link: u32,
}

/// What a cell shows: a blank where there is no character.
pub open spec fn glyph(c: GridCell) -> char {
    if c.ch == '\0' {
        ' '
    } else {
        c.ch
    }
}

/// `a` is at or before `b`.
pub open spec fn not_after(a: Cell, b: Cell) -> bool {
    a.line < b.line || a.line == b.line && a.col <= b.col
}

/// The lesser of the two.
pub open spec fn lesser(a: int, b: int) -> int {
    if a <= b {
        a
    } else {
        b
    }
}

/// What a row at `line` gives of what lies from `p0` to `p1`, blanks at
/// its end left out.
pub open spec fn row_piece(row: Seq<GridCell>, line: int, p0: Cell, p1: Cell) -> Seq<char> {
    let n = row.len() as int;
    let to = if line == p1.line {
        lesser(p1.col as int, n)
    } else {
        n
    };
    let from = lesser(
        if line == p0.line {
            lesser(p0.col as int, n)
        } else {
            0
        },
        to,
    );
    let s = row.subrange(from, to).map_values(|c: GridCell| glyph(c));
    s.take(trimmed_end(s, s.len() as int))
}

/// What the first `n` rows give, from `p0` to `p1`: the rows joined by
/// newlines, from the first that is not blank.
pub open spec fn gathered(grid: Seq<Vec<GridCell>>, top: int, p0: Cell, p1: Cell, n: int) -> Seq<char>
    decreases n,
{
    if n <= 0 || n > grid.len() {
        Seq::empty()
    } else {
        let out = gathered(grid, top, p0, p1, n - 1);
        let line = top + n - 1;
        if line < p0.line || line > p1.line {
            out
        } else if out.len() == 0 {
            row_piece(grid[n - 1]@, line, p0, p1)
        } else {
            out + seq!['\n'] + row_piece(grid[n - 1]@, line, p0, p1)
        }
    }
}

/// The text between two places, whichever comes first.
pub open spec fn grid_text(grid: Seq<Vec<GridCell>>, top: int, a: Cell, b: Cell) -> Seq<char> {
    if not_after(a, b) {
        gathered(grid, top, a, b, grid.len() as int)
    } else {
        gathered(grid, top, b, a, grid.len() as int)
    }
}

fn piece_of(row: &[GridCell], line: u64, p0: Cell, p1: Cell) -> (r: Vec<char>)
    ensures
        r@ == row_piece(row@, line as int, p0, p1),
{
    let n: usize = row.len();
    let to: usize = if line == p1.line && p1.col < n {
        p1.col
    } else {
        n
    };
    let from: usize = if line != p0.line {
        0
    } else if p0.col < to {
        p0.col
    } else {
        to
    };
    let mut out: Vec<char> = Vec::new();
    let mut i: usize = from;
    let ghost all = row@.subrange(from as int, to as int).map_values(|c: GridCell| glyph(c));
    while i < to
        invariant
            from <= i <= to <= row@.len(),
            all == row@.subrange(from as int, to as int).map_values(|c: GridCell| glyph(c)),
            out@ == all.take(i - from),
        decreases to - i,
    {
        let c = row[i];
        proof {
            assert(all.take(i + 1 - from) =~= all.take(i - from).push(glyph(c)));
        }
        out.push(if c.ch == '\0' { ' ' } else { c.ch });
        i = i + 1;
    }
    proof {
        assert(out@ =~= all);
    }
    let z: usize = trim_end(out.as_slice(), out.len());
    out.truncate(z);
    proof {
        assert(out@ =~= all.take(z as int));
    }
    out
}

/// The text between two places of a terminal, from the rows on screen (a
/// sweep is on screen); lines joined by newlines, trailing blanks
/// dropped.  None when there is nothing there but blanks.
pub fn term_grid_text(grid: &Vec<Vec<GridCell>>, top: u64, a: Cell, b: Cell) -> (r: Option<String>)
    requires
        top + grid@.len() <= u64::MAX,
    ensures
        r is Some == inked(grid_text(grid@, top as int, a, b)),
        r matches Some(s) ==> s@ == grid_text(grid@, top as int, a, b),
{
    let forward = a.line < b.line || a.line == b.line && a.col <= b.col;
    let (p0, p1) = if forward {
        (a, b)
    } else {
        (b, a)
    };
    let mut out: Vec<char> = Vec::new();
    let mut i: usize = 0;
    while i < grid.len()
        invariant
            i <= grid@.len(),
            top + grid@.len() <= u64::MAX,
            out@ == gathered(grid@, top as int, p0, p1, i as int),
        decreases grid@.len() - i,
    {
        let line: u64 = top + i as u64;
        if line >= p0.line && line <= p1.line {
            let mut piece: Vec<char> = piece_of(grid[i].as_slice(), line, p0, p1);
            let ghost before = out@;
            let ghost piece0 = piece@;
            if out.len() > 0 {
                out.push('\n');
                out.append(&mut piece);
                proof {
                    assert(out@ =~= before + seq!['\n'] + piece0);
                }
            } else {
                out.append(&mut piece);
                proof {
                    assert(out@ =~= piece0);
                }
            }
        }
        i = i + 1;
    }
    if has_ink(out.as_slice()) {
        Some(string_of(out.as_slice()))
    } else {
        None
    }
}

/// The link under a cell of the grid, if any.
pub fn term_link(grid: &Vec<Vec<GridCell>>, links: &Vec<String>, c: usize, r: usize) -> (l: Option<String>)
    ensures
        l is Some == (r < grid@.len() && c < grid@[r as int]@.len() && 1 <= grid@[r as int]@[c as int].link
            <= links@.len()),
        l matches Some(s) ==> s@ == links@[grid@[r as int]@[c as int].link - 1]@,
{
    if r >= grid.len() || c >= grid[r].len() {
        return None;
    }
    let link: u32 = grid[r][c].link;
    if link == 0 || (link - 1) as usize >= links.len() {
        None
    } else {
        Some(links[(link - 1) as usize].clone())
    }
}

/// Punctuation that closes a sentence around a URL.
pub open spec fn closing(c: char) -> bool {
    c == '.' || c == ',' || c == ';' || c == ':' || c == '!' || c == '?' || c == ')' || c == '>' || c == ']' || c == '}'
        || c == '\'' || c == '"'
}

fn is_closing(c: char) -> (r: bool)
    ensures
        r == closing(c),
{
    c == '.' || c == ',' || c == ';' || c == ':' || c == '!' || c == '?' || c == ')' || c == '>' || c == ']' || c == '}'
        || c == '\'' || c == '"'
}

/// Where the run without white space that ends at `i` starts.
pub open spec fn solid_start(s: Seq<char>, i: int) -> int
    decreases i,
{
    if 0 < i <= s.len() && !whitespace(s[i - 1]) {
        solid_start(s, i - 1)
    } else {
        i
    }
}

/// Where the run without white space that starts at `i` ends.
pub open spec fn solid_end(s: Seq<char>, i: int) -> int
    decreases s.len() - i,
{
    if 0 <= i < s.len() && !whitespace(s[i]) {
        solid_end(s, i + 1)
    } else {
        i
    }
}

/// How long the scheme of a web URL is at `i`; 0 where there is none.
pub open spec fn scheme(s: Seq<char>, i: int) -> int {
    if stands_at(s, i, "https://"@) {
        8
    } else if stands_at(s, i, "http://"@) {
        7
    } else {
        0
    }
}

/// Where the first scheme from `i` on is; the end where there is none.
pub open spec fn first_scheme(s: Seq<char>, i: int) -> int
    decreases s.len() - i,
{
    if 0 <= i < s.len() && scheme(s, i) == 0 {
        first_scheme(s, i + 1)
    } else {
        i
    }
}

/// The end of `s[a..z]` once the punctuation it ends with is left out.
pub open spec fn unclosed_end(s: Seq<char>, a: int, z: int) -> int
    decreases z - a,
{
    if 0 <= a < z <= s.len() && closing(s[z - 1]) {
        unclosed_end(s, a, z - 1)
    } else {
        z
    }
}

/// The URL in `run`: from its scheme on, less the punctuation at its end;
/// none without something after the scheme.
pub open spec fn url_in(run: Seq<char>) -> Option<Seq<char>> {
    let a = first_scheme(run, 0);
    let z = unclosed_end(run, a, run.len() as int);
    if a < run.len() && z > a + scheme(run, a) && !stands_at(run.take(z), a + scheme(run, a), "://"@) {
        Some(run.subrange(a, z))
    } else {
        None
    }
}

/// The URL at column `c` of a row.
pub open spec fn url_at(row: Seq<char>, c: int) -> Option<Seq<char>> {
    if c >= row.len() || whitespace(row[c]) {
        None
    } else {
        url_in(row.subrange(solid_start(row, c), solid_end(row, c + 1)))
    }
}

/// The URL in a run of text without white space.
fn url_of(run: &[char]) -> (r: Option<String>)
    ensures
        r is Some == url_in(run@) is Some,
        r matches Some(u) ==> Some(u@) == url_in(run@),
{
    let n: usize = run.len();
    let mut a: usize = 0;
    let mut k: usize = 0;
    while a < n
        invariant_except_break
            k == 0,
        invariant
            a <= n == run@.len(),
            first_scheme(run@, a as int) == first_scheme(run@, 0),
        ensures
            a == first_scheme(run@, 0),
            a < n ==> k == scheme(run@, a as int) && k > 0,
        decreases n - a,
    {
        if has_at(run, a, "https://") {
            k = 8;
            break;
        }
        if has_at(run, a, "http://") {
            k = 7;
            break;
        }
        a = a + 1;
    }
    if a >= n {
        return None;
    }
    let mut z: usize = n;
    while a < z && is_closing(run[z - 1])
        invariant
            a <= z <= n == run@.len(),
            unclosed_end(run@, a as int, z as int) == unclosed_end(run@, a as int, n as int),
        decreases z,
    {
        z = z - 1;
    }
    if z <= a || z - a <= k {
        return None;
    }
    let kept: Vec<char> = slice_of(run, 0, z);
    proof {
        assert(kept@ =~= run@.take(z as int));
    }
    if has_at(kept.as_slice(), a + k, "://") {
        return None;
    }
    let url: Vec<char> = slice_of(run, a, z);
    Some(string_of(url.as_slice()))
}

/// A URL under a terminal cell: the run of non-blank text there, from its
/// `http://` or `https://` on, less any punctuation that closes the
/// sentence around it.
pub fn term_url(row: &[char], c: usize) -> (r: Option<String>)
    ensures
        r is Some == url_at(row@, c as int) is Some,
        r matches Some(u) ==> Some(u@) == url_at(row@, c as int),
{
    if c >= row.len() || is_whitespace(row[c]) {
        return None;
    }
    let mut a: usize = c;
    while a > 0 && !is_whitespace(row[a - 1])
        invariant
            a <= c < row@.len(),
            solid_start(row@, a as int) == solid_start(row@, c as int),
        decreases a,
    {
        a = a - 1;
    }
    let mut b: usize = c + 1;
    while b < row.len() && !is_whitespace(row[b])
        invariant
            c < b <= row@.len(),
            solid_end(row@, b as int) == solid_end(row@, c + 1),
        decreases row@.len() - b,
    {
        b = b + 1;
    }
    let run: Vec<char> = slice_of(row, a, b);
    url_of(run.as_slice())
}

/// The word at column `c` of a row.
pub open spec fn word_at(row: Seq<char>, c: int, kind: HlKind) -> Option<Seq<char>> {
    if c < row.len() && taken(kind, row[c]) {
        Some(row.subrange(run_start(row, c, kind), run_end(row, c + 1, kind)))
    } else {
        None
    }
}

/// The word under a terminal cell, as B2 or B3 takes it.
pub fn term_word(row: &[char], c: usize, kind: HlKind) -> (r: Option<String>)
    ensures
        r is Some == word_at(row@, c as int, kind) is Some,
        r matches Some(w) ==> Some(w@) == word_at(row@, c as int, kind),
{
    if c >= row.len() || !word_char(row[c], kind) {
        return None;
    }
    let mut a: usize = c;
    while a > 0 && word_char(row[a - 1], kind)
        invariant
            a <= c < row@.len(),
            run_start(row@, a as int, kind) == run_start(row@, c as int, kind),
        decreases a,
    {
        a = a - 1;
    }
    let mut b: usize = c + 1;
    while b < row.len() && word_char(row[b], kind)
        invariant
            c < b <= row@.len(),
            run_end(row@, b as int, kind) == run_end(row@, c + 1, kind),
        decreases row@.len() - b,
    {
        b = b + 1;
    }
    let word: Vec<char> = slice_of(row, a, b);
    Some(string_of(word.as_slice()))
}

fn word_char(c: char, kind: HlKind) -> (r: bool)
    ensures
        r == taken(kind, c),
{
    match kind {
        HlKind::Exec => is_exec_char(c),
        HlKind::Look => is_file_char(c),
    }
}

/// What B2 or B3 takes in a terminal where nothing was swept: B2 the
/// command word; B3 a link's target, else the whole of a URL (a file word
/// stops at `?`), else the file word.
pub open spec fn cell_text(row: Seq<char>, c: int, link: Option<Seq<char>>, button: Button) -> Option<Seq<char>> {
    if button == Button::Middle {
        word_at(row, c, HlKind::Exec)
    } else if link is Some {
        link
    } else if url_at(row, c) is Some {
        url_at(row, c)
    } else {
        word_at(row, c, HlKind::Look)
    }
}

/// What B2 or B3 takes in a terminal: what was swept, else what is at the
/// cell.
pub fn term_take(swept: Option<String>, row: &[char], c: usize, link: Option<String>, button: Button) -> (r: Option<String>)
    ensures
        swept is Some ==> r == swept,
        swept is None ==> r is Some == cell_text(
            row@,
            c as int,
            match link {
                Some(l) => Some(l@),
                None => None,
            },
            button,
        ) is Some,
        swept is None ==> (r matches Some(t) ==> Some(t@) == cell_text(
            row@,
            c as int,
            match link {
                Some(l) => Some(l@),
                None => None,
            },
            button,
        )),
{
    if swept.is_some() {
        return swept;
    }
    if button == Button::Middle {
        return term_word(row, c, HlKind::Exec);
    }
    if link.is_some() {
        return link;
    }
    match term_url(row, c) {
        Some(u) => Some(u),
        None => term_word(row, c, HlKind::Look),
    }
}

/// The cell under a point: `origin` is where the text starts, a cell is
/// `w` by `h`, and the grid `cols` by `rows`.
pub open spec fn cell_under(pos: Pt, origin: Pt, w: int, h: int, cols: int, rows: int) -> (int, int) {
    let x = if pos.x <= origin.x {
        0
    } else {
        (pos.x - origin.x) / w
    };
    let y = if pos.y <= origin.y {
        0
    } else {
        (pos.y - origin.y) / h
    };
    (
        lesser(
            x,
            if cols == 0 {
                0
            } else {
                cols - 1
            },
        ),
        lesser(
            y,
            if rows == 0 {
                0
            } else {
                rows - 1
            },
        ),
    )
}

/// The cell under a point, the nearest one where there is none.
pub fn cell_at(pos: Pt, origin: Pt, w: u32, h: u32, cols: u16, rows: u16) -> (r: (usize, usize))
    requires
        near(pos),
        near(origin),
        w > 0,
        h > 0,
    ensures
        (r.0 as int, r.1 as int) == cell_under(pos, origin, w as int, h as int, cols as int, rows as int),
{
    (along(pos.x, origin.x, w, cols), along(pos.y, origin.y, h, rows))
}

fn along(at: i64, from: i64, step: u32, n: u16) -> (r: usize)
    requires
        -FAR <= at <= FAR,
        -FAR <= from <= FAR,
        step > 0,
    ensures
        r == lesser(
            if at <= from {
                0
            } else {
                (at - from) / step as int
            },
            if n == 0 {
                0
            } else {
                n - 1
            },
        ),
{
    let last: u64 = if n == 0 {
        0
    } else {
        n as u64 - 1
    };
    if at <= from {
        return 0;
    }
    let x: u64 = (at - from) as u64 / step as u64;
    if x < last {
        x as usize
    } else {
        last as usize
    }
}

/// A row as it is drawn: its text, the runs of one ink (in bytes of the
/// text), and the stretches of background (from a column, so many).
pub struct RowDraw {
    pub text: String,
    pub runs: Vec<(usize, u32)>,
    pub bgs: Vec<(usize, usize, u32)>,
}

/// The ink a cell is drawn in; under the cursor, the paper's.
pub open spec fn ink(c: GridCell, cursor: bool, fg: u32, bg: u32) -> u32 {
    if cursor {
        bg
    } else if c.fg == 0 {
        fg
    } else {
        c.fg & 0xff_ffff
    }
}

/// The background a cell is drawn on, where it is not the paper; under
/// the cursor, the ink's.
pub open spec fn back(c: GridCell, cursor: bool, fg: u32) -> Option<u32> {
    if cursor {
        Some(
            if c.fg == 0 {
                fg
            } else {
                c.fg & 0xff_ffff
            },
        )
    } else if c.bg == 0 {
        None
    } else {
        Some(c.bg & 0xff_ffff)
    }
}

/// A run of `n` bytes of `color` after `runs`: part of the last when that
/// is the same colour.
pub open spec fn run_added(runs: Seq<(usize, u32)>, n: int, color: u32) -> Seq<(usize, u32)> {
    if runs.len() > 0 && runs.last().1 == color {
        runs.drop_last().push(((runs.last().0 + n) as usize, color))
    } else {
        runs.push((n as usize, color))
    }
}

/// The background of column `x` after `bgs`: part of the last stretch
/// when that is the same colour and ends there.
pub open spec fn back_added(bgs: Seq<(usize, usize, u32)>, x: int, color: u32) -> Seq<(usize, usize, u32)> {
    if bgs.len() > 0 && bgs.last().2 == color && bgs.last().0 + bgs.last().1 == x {
        bgs.drop_last().push((bgs.last().0, (bgs.last().1 + 1) as usize, color))
    } else {
        bgs.push((x as usize, 1, color))
    }
}

/// The cursor is on column `x`.
pub open spec fn cursor_on(cursor: Option<usize>, x: int) -> bool {
    cursor matches Some(c) && c == x
}

/// The runs of the first `n` cells.
pub open spec fn ink_runs(row: Seq<GridCell>, cursor: Option<usize>, fg: u32, bg: u32, n: int) -> Seq<(usize, u32)>
    decreases n,
{
    if n <= 0 || n > row.len() {
        Seq::empty()
    } else {
        let c = row[n - 1];
        run_added(
            ink_runs(row, cursor, fg, bg, n - 1),
            width_utf8(glyph(c)),
            ink(c, cursor_on(cursor, n - 1), fg, bg),
        )
    }
}

/// The backgrounds of the first `n` cells.
pub open spec fn back_runs(row: Seq<GridCell>, cursor: Option<usize>, fg: u32, n: int) -> Seq<(usize, usize, u32)>
    decreases n,
{
    if n <= 0 || n > row.len() {
        Seq::empty()
    } else {
        let before = back_runs(row, cursor, fg, n - 1);
        match back(row[n - 1], cursor_on(cursor, n - 1), fg) {
            Some(b) => back_added(before, n - 1, b),
            None => before,
        }
    }
}

/// How many bytes the first `k` runs take.
pub open spec fn runs_len(runs: Seq<(usize, u32)>) -> int
    decreases runs.len(),
{
    if runs.len() == 0 {
        0
    } else {
        runs_len(runs.drop_last()) + runs.last().0
    }
}

/// How many bytes the first `n` cells take.
pub open spec fn text_len(row: Seq<GridCell>, n: int) -> int
    decreases n,
{
    if n <= 0 || n > row.len() {
        0
    } else {
        text_len(row, n - 1) + width_utf8(glyph(row[n - 1]))
    }
}

proof fn lemma_run_added(runs: Seq<(usize, u32)>, n: int, color: u32)
    requires
        0 < n,
        runs_len(runs) + n <= usize::MAX,
        0 <= runs_len(runs),
        runs.len() > 0 ==> runs.last().0 <= runs_len(runs),
    ensures
        runs_len(run_added(runs, n, color)) == runs_len(runs) + n,
        run_added(runs, n, color).last().0 <= runs_len(runs) + n,
{
    let r = run_added(runs, n, color);
    if runs.len() > 0 && runs.last().1 == color {
        assert(r.drop_last() =~= runs.drop_last());
    } else {
        assert(r.drop_last() =~= runs);
    }
}

/// The runs of a row cover its text, no more and no less, and no two next
/// to each other are of one colour.
pub proof fn law_runs_cover_the_row(row: Seq<GridCell>, cursor: Option<usize>, fg: u32, bg: u32, n: int)
    requires
        0 <= n <= row.len(),
        text_len(row, n) <= usize::MAX,
    ensures
        runs_len(ink_runs(row, cursor, fg, bg, n)) == text_len(row, n),
        0 <= text_len(row, n),
        forall|i: int|
            0 < i < ink_runs(row, cursor, fg, bg, n).len() ==> ink_runs(row, cursor, fg, bg, n)[i - 1].1 != (
            #[trigger] ink_runs(row, cursor, fg, bg, n)[i]).1,
        ink_runs(row, cursor, fg, bg, n).len() > 0 ==> ink_runs(row, cursor, fg, bg, n).last().0 <= text_len(row, n),
    decreases n,
{
    if n > 0 {
        law_runs_cover_the_row(row, cursor, fg, bg, n - 1);
        let before = ink_runs(row, cursor, fg, bg, n - 1);
        let c = row[n - 1];
        lemma_run_added(before, width_utf8(glyph(c)), ink(c, cursor_on(cursor, n - 1), fg, bg));
    }
}

/// A row as it is drawn, with the cursor on a column of it perhaps, `fg`
/// and `bg` being the ink and the paper.
pub fn draw_row(row: &[GridCell], cursor: Option<usize>, fg: u32, bg: u32) -> (d: RowDraw)
    requires
        text_len(row@, row@.len() as int) <= usize::MAX,
    ensures
        d.text@ == row@.map_values(|c: GridCell| glyph(c)),
        d.runs@ == ink_runs(row@, cursor, fg, bg, row@.len() as int),
        d.bgs@ == back_runs(row@, cursor, fg, row@.len() as int),
{
    let mut text: String = String::new();
    let mut runs: Vec<(usize, u32)> = Vec::new();
    let mut bgs: Vec<(usize, usize, u32)> = Vec::new();
    let mut x: usize = 0;
    let ghost all = row@.map_values(|c: GridCell| glyph(c));
    proof {
        assert(text@ =~= all.take(0));
    }
    while x < row.len()
        invariant
            x <= row@.len(),
            text_len(row@, row@.len() as int) <= usize::MAX,
            all == row@.map_values(|c: GridCell| glyph(c)),
            text@ == all.take(x as int),
            runs@ == ink_runs(row@, cursor, fg, bg, x as int),
            bgs@ == back_runs(row@, cursor, fg, x as int),
            forall|i: int| 0 <= i < bgs@.len() ==> (#[trigger] bgs@[i]).0 + bgs@[i].1 <= x,
        decreases row@.len() - x,
    {
        let c = row[x];
        let own: u32 = if c.fg == 0 {
            fg
        } else {
            c.fg & 0xff_ffff
        };
        let on = match cursor {
            Some(k) => k == x,
            None => false,
        };
        let color: u32 = if on {
            bg
        } else {
            own
        };
        let behind: Option<u32> = if on {
            Some(own)
        } else if c.bg == 0 {
            None
        } else {
            Some(c.bg & 0xff_ffff)
        };
        if let Some(b) = behind {
            add_back(&mut bgs, x, b);
        }
        let g: char = if c.ch == '\0' {
            ' '
        } else {
            c.ch
        };
        proof {
            lemma_text_len_grows(row@, x + 1, row@.len() as int);
            law_runs_cover_the_row(row@, cursor, fg, bg, x as int);
            assert(all.take(x + 1) =~= all.take(x as int).push(g));
        }
        add_run(&mut runs, len_utf8(g), color);
        text.push(g);
        x = x + 1;
    }
    proof {
        assert(text@ =~= all);
    }
    RowDraw { text, runs, bgs }
}

proof fn lemma_text_len_grows(row: Seq<GridCell>, a: int, b: int)
    requires
        0 <= a <= b <= row.len(),
    ensures
        0 <= text_len(row, a) <= text_len(row, b),
    decreases b,
{
    if a < b {
        lemma_text_len_grows(row, a, b - 1);
    } else if b > 0 {
        lemma_text_len_grows(row, a - 1, b - 1);
    }
}

fn add_run(runs: &mut Vec<(usize, u32)>, n: usize, color: u32)
    requires
        old(runs)@.len() > 0 ==> old(runs)@.last().0 + n <= usize::MAX,
    ensures
        final(runs)@ == run_added(old(runs)@, n as int, color),
{
    let k: usize = runs.len();
    if k > 0 && runs[k - 1].1 == color {
        let m: usize = runs[k - 1].0;
        runs.truncate(k - 1);
        runs.push((m + n, color));
        proof {
            assert(runs@ =~= run_added(old(runs)@, n as int, color));
        }
    } else {
        runs.push((n, color));
    }
}

fn add_back(bgs: &mut Vec<(usize, usize, u32)>, x: usize, color: u32)
    requires
        x < usize::MAX,
        forall|i: int| 0 <= i < old(bgs)@.len() ==> (#[trigger] old(bgs)@[i]).0 + old(bgs)@[i].1 <= x,
    ensures
        final(bgs)@ == back_added(old(bgs)@, x as int, color),
        forall|i: int| 0 <= i < final(bgs)@.len() ==> (#[trigger] final(bgs)@[i]).0 + final(bgs)@[i].1 <= x + 1,
{
    let k: usize = bgs.len();
    if k > 0 && bgs[k - 1].2 == color && bgs[k - 1].0 + bgs[k - 1].1 == x {
        let (sx, n, _) = bgs[k - 1];
        bgs.truncate(k - 1);
        bgs.push((sx, n + 1, color));
        proof {
            assert(bgs@ =~= back_added(old(bgs)@, x as int, color));
        }
    } else {
        bgs.push((x, 1, color));
    }
}

/// What lies from `p0` to `p1` begins in a row of `n` cells at `line` here.
pub open spec fn begins(n: int, line: int, p0: Cell, p1: Cell) -> int {
    if line != p0.line {
        0
    } else if p0.col < stops(n, line, p1) {
        p0.col as int
    } else {
        stops(n, line, p1)
    }
}

/// What lies up to `p1` stops in a row of `n` cells at `line` here.
pub open spec fn stops(n: int, line: int, p1: Cell) -> int {
    if line == p1.line && p1.col < n {
        p1.col as int
    } else {
        n
    }
}

/// A row gives its characters from where the stretch begins in it to where
/// it stops, a blank for a cell with none, and without the blanks at the end
/// and nothing else left out.
pub proof fn law_a_row_gives_its_characters(row: Seq<GridCell>, line: int, p0: Cell, p1: Cell)
    ensures
        ({
            let s = row_piece(row, line, p0, p1);
            let a = begins(row.len() as int, line, p0, p1);
            let z = stops(row.len() as int, line, p1);
            &&& 0 <= a <= z <= row.len()
            &&& s.len() <= z - a
            &&& forall|j: int|
                0 <= j < s.len() ==> #[trigger] s[j] == if row[a + j].ch == '\0' { ' ' } else { row[a + j].ch }
            &&& forall|j: int|
                a + s.len() <= j < z ==> (#[trigger] row[j]).ch == '\0' || whitespace(row[j].ch)
            &&& s.len() > 0 ==> !whitespace(s.last())
        }),
{
    let n = row.len() as int;
    let a = begins(n, line, p0, p1);
    let z = stops(n, line, p1);
    let all = row.subrange(a, z).map_values(|c: GridCell| glyph(c));
    crate::text::lemma_trimmed_end(all, all.len() as int);
    let s = row_piece(row, line, p0, p1);
    assert(s =~= all.take(trimmed_end(all, all.len() as int)));
    assert forall|j: int| a + s.len() <= j < z implies (#[trigger] row[j]).ch == '\0' || whitespace(row[j].ch) by {
        assert(whitespace(all[j - a]));
    }
}

/// The pieces lie in the text one after the other, each from its start, with
/// one newline between each and the next and nothing before, between or
/// after them else.
pub open spec fn a_line_each(text: Seq<char>, pieces: Seq<Seq<char>>, starts: Seq<int>) -> bool {
    &&& starts.len() == pieces.len() && pieces.len() > 0
    &&& starts[0] == 0
    &&& forall|k: int|
        0 <= k < pieces.len() ==> 0 <= #[trigger] starts[k] && starts[k] + pieces[k].len() <= text.len()
            && text.subrange(starts[k], starts[k] + pieces[k].len()) == pieces[k]
    &&& forall|k: int|
        0 < k < pieces.len() ==> #[trigger] starts[k] == starts[k - 1] + pieces[k - 1].len() + 1 && text[starts[k] - 1]
            == '\n'
    &&& text.len() == starts.last() + pieces.last().len()
}

/// What the rows from `f` up to `z` give.
pub open spec fn given(grid: Seq<Vec<GridCell>>, top: int, p0: Cell, p1: Cell, f: int, z: int) -> Seq<Seq<char>> {
    Seq::new((z - f) as nat, |k: int| row_piece(grid[f + k]@, top + f + k, p0, p1))
}

/// The rows from `a` up to `z` are those from `p0`'s line to `p1`'s, and `f`
/// is the first of them that is not blank, or `z`.
pub open spec fn rows_between(grid: Seq<Vec<GridCell>>, top: int, p0: Cell, p1: Cell, a: int, f: int, z: int) -> bool {
    &&& 0 <= a <= f <= z <= grid.len()
    &&& forall|i: int| 0 <= i < grid.len() ==> (a <= i < z <==> p0.line <= top + #[trigger] mark_row(i) <= p1.line)
    &&& forall|i: int| a <= i < f ==> row_piece(grid[i]@, top + i, p0, p1).len() == 0
    &&& f < z ==> row_piece(grid[f]@, top + f, p0, p1).len() > 0
}

/// A row's place among the rows.
pub open spec fn mark_row(i: int) -> int {
    i
}

/// The text between two places has a line for each row between them, from
/// the first that is not blank: what that row gives, and no row's shares a
/// line with another's.  It is empty where they are all blank.
pub proof fn law_each_row_has_a_line(grid: Seq<Vec<GridCell>>, top: int, p0: Cell, p1: Cell, a: int, f: int, z: int)
    requires
        not_after(p0, p1),
        rows_between(grid, top, p0, p1, a, f, z),
    ensures
        f == z ==> grid_text(grid, top, p0, p1).len() == 0,
        f < z ==> exists|starts: Seq<int>|
            a_line_each(grid_text(grid, top, p0, p1), given(grid, top, p0, p1, f, z), starts),
{
    let n = grid.len() as int;
    let starts = lemma_rows_gathered(grid, top, p0, p1, a, f, z, n);
    if f < z {
        assert(grid_text(grid, top, p0, p1) == gathered(grid, top, p0, p1, n));
        assert(a_line_each(grid_text(grid, top, p0, p1), given(grid, top, p0, p1, f, z), starts));
    }
}

proof fn lemma_rows_gathered(
    grid: Seq<Vec<GridCell>>,
    top: int,
    p0: Cell,
    p1: Cell,
    a: int,
    f: int,
    z: int,
    n: int,
) -> (starts: Seq<int>)
    requires
        rows_between(grid, top, p0, p1, a, f, z),
        0 <= n <= grid.len(),
    ensures
        n <= f || f == z ==> gathered(grid, top, p0, p1, n).len() == 0,
        f < n && f < z ==> a_line_each(
            gathered(grid, top, p0, p1, n),
            given(grid, top, p0, p1, f, if n < z { n } else { z }),
            starts,
        ),
    decreases n,
{
    if n == 0 {
        Seq::empty()
    } else {
        let before = lemma_rows_gathered(grid, top, p0, p1, a, f, z, n - 1);
        let i = n - 1;
        assert(a <= i < z <==> p0.line <= top + mark_row(i) <= p1.line);
        let out = gathered(grid, top, p0, p1, n - 1);
        let all = gathered(grid, top, p0, p1, n);
        let piece = row_piece(grid[i]@, top + i, p0, p1);
        if f < z && f < n && n <= z {
            let fewer = given(grid, top, p0, p1, f, n - 1);
            let more = given(grid, top, p0, p1, f, n);
            assert(more =~= fewer.push(piece));
            if n - 1 == f {
                assert(all == piece);
                assert(all.subrange(0, all.len() as int) =~= all);
                assert(a_line_each(all, more, seq![0int]));
                seq![0int]
            } else {
                let starts = before.push(out.len() as int + 1);
                lemma_not_empty(out, fewer, before);
                assert(all == out + seq!['\n'] + piece);
                lemma_line_added(out, fewer, before, piece);
                starts
            }
        } else {
            before
        }
    }
}

proof fn lemma_line_added(out: Seq<char>, fewer: Seq<Seq<char>>, before: Seq<int>, piece: Seq<char>)
    requires
        a_line_each(out, fewer, before),
    ensures
        a_line_each(out + seq!['\n'] + piece, fewer.push(piece), before.push(out.len() as int + 1)),
{
    let all = out + seq!['\n'] + piece;
    let more = fewer.push(piece);
    let starts = before.push(out.len() as int + 1);
    assert forall|k: int| 0 <= k < more.len() implies 0 <= #[trigger] starts[k] && starts[k] + more[k].len()
        <= all.len() && all.subrange(starts[k], starts[k] + more[k].len()) == more[k] by {
        if k < fewer.len() {
            assert(starts[k] == before[k]);
            assert(all.subrange(starts[k], starts[k] + more[k].len()) =~= out.subrange(
                before[k],
                before[k] + fewer[k].len(),
            ));
        } else {
            assert(all.subrange(starts[k], starts[k] + more[k].len()) =~= piece);
        }
    }
    assert forall|k: int| 0 < k < more.len() implies #[trigger] starts[k] == starts[k - 1] + more[k - 1].len() + 1
        && all[starts[k] - 1] == '\n' by {
        if k < fewer.len() {
            assert(before[k] == before[k - 1] + fewer[k - 1].len() + 1);
            assert(0 <= before[k] && before[k] + fewer[k].len() <= out.len());
        } else {
            assert(starts[k - 1] == before.last());
        }
    }
}

proof fn lemma_not_empty(text: Seq<char>, pieces: Seq<Seq<char>>, starts: Seq<int>)
    requires
        a_line_each(text, pieces, starts),
        pieces[0].len() > 0,
    ensures
        text.len() > 0,
{
    assert(starts[0] + pieces[0].len() <= text.len());
}

/// Which of the two places comes first makes no difference.
pub proof fn law_the_text_is_the_same_both_ways(grid: Seq<Vec<GridCell>>, top: int, a: Cell, b: Cell)
    ensures
        grid_text(grid, top, a, b) == grid_text(grid, top, b, a),
{
}

/// The text between two places has something in it just where a cell between
/// them does.
pub proof fn law_there_is_text_where_a_cell_is_not_blank(
    grid: Seq<Vec<GridCell>>,
    top: int,
    p0: Cell,
    p1: Cell,
    a: int,
    f: int,
    z: int,
)
    requires
        not_after(p0, p1),
        rows_between(grid, top, p0, p1, a, f, z),
    ensures
        inked(grid_text(grid, top, p0, p1)) <==> exists|i: int, j: int|
            a <= i < z && begins(grid[i]@.len() as int, top + i, p0, p1) <= j < stops(
                grid[i]@.len() as int,
                top + i,
                p1,
            ) && (#[trigger] grid[i]@[j]).ch != '\0' && !whitespace(grid[i]@[j].ch),
{
    let n = grid.len() as int;
    let text = grid_text(grid, top, p0, p1);
    let starts = lemma_rows_gathered(grid, top, p0, p1, a, f, z, n);
    if f < z {
        let row = grid[f]@;
        law_a_row_gives_its_characters(row, top + f, p0, p1);
        let s = row_piece(row, top + f, p0, p1);
        let j = begins(row.len() as int, top + f, p0, p1) + s.len() - 1;
        let pieces = given(grid, top, p0, p1, f, z);
        assert(pieces[0] == s);
        assert(starts[0] == 0 && text.subrange(0, s.len() as int) == s);
        assert(text[s.len() - 1] == s.last());
        assert(!whitespace(text[s.len() - 1]));
        assert(s[s.len() - 1] == if row[j].ch == '\0' { ' ' } else { row[j].ch });
        assert(grid[f]@[j].ch != '\0' && !whitespace(grid[f]@[j].ch));
    } else {
        assert forall|i: int, j: int|
            a <= i < z && begins(grid[i]@.len() as int, top + i, p0, p1) <= j < stops(
                grid[i]@.len() as int,
                top + i,
                p1,
            ) implies (#[trigger] grid[i]@[j]).ch == '\0' || whitespace(grid[i]@[j].ch) by {
            law_a_row_gives_its_characters(grid[i]@, top + i, p0, p1);
        }
    }
}

/// The scheme of a web address stands at `i`.
pub open spec fn web_at(s: Seq<char>, i: int) -> bool {
    stands_at(s, i, "http://"@) || stands_at(s, i, "https://"@)
}

proof fn lemma_solid(s: Seq<char>, c: int)
    requires
        0 <= c < s.len(),
        !whitespace(s[c]),
    ensures
        0 <= solid_start(s, c) <= c < solid_end(s, c + 1) <= s.len(),
        forall|j: int| solid_start(s, c) <= j < solid_end(s, c + 1) ==> !whitespace(#[trigger] s[j]),
        solid_start(s, c) == 0 || whitespace(s[solid_start(s, c) - 1]),
        solid_end(s, c + 1) == s.len() || whitespace(s[solid_end(s, c + 1)]),
{
    lemma_solid_start(s, c);
    lemma_solid_end(s, c + 1);
}

proof fn lemma_solid_start(s: Seq<char>, i: int)
    requires
        0 <= i <= s.len(),
    ensures
        0 <= solid_start(s, i) <= i,
        forall|j: int| solid_start(s, i) <= j < i ==> !whitespace(#[trigger] s[j]),
        solid_start(s, i) == 0 || whitespace(s[solid_start(s, i) - 1]),
    decreases i,
{
    if i > 0 && !whitespace(s[i - 1]) {
        lemma_solid_start(s, i - 1);
    }
}

proof fn lemma_solid_end(s: Seq<char>, i: int)
    requires
        0 <= i <= s.len(),
    ensures
        i <= solid_end(s, i) <= s.len(),
        forall|j: int| i <= j < solid_end(s, i) ==> !whitespace(#[trigger] s[j]),
        solid_end(s, i) == s.len() || whitespace(s[solid_end(s, i)]),
    decreases s.len() - i,
{
    if i < s.len() && !whitespace(s[i]) {
        lemma_solid_end(s, i + 1);
    }
}

proof fn lemma_first_scheme(s: Seq<char>, i: int)
    requires
        0 <= i <= s.len(),
    ensures
        i <= first_scheme(s, i) <= s.len(),
        forall|j: int| i <= j < first_scheme(s, i) ==> !(#[trigger] web_at(s, j)),
        first_scheme(s, i) < s.len() ==> web_at(s, first_scheme(s, i)),
    decreases s.len() - i,
{
    if i < s.len() && scheme(s, i) == 0 {
        assert(!web_at(s, i));
        lemma_first_scheme(s, i + 1);
    }
}

proof fn lemma_unclosed(s: Seq<char>, a: int, z: int)
    requires
        0 <= a <= z <= s.len(),
    ensures
        a <= unclosed_end(s, a, z) <= z,
        forall|j: int| unclosed_end(s, a, z) <= j < z ==> closing(#[trigger] s[j]),
        unclosed_end(s, a, z) > a ==> !closing(s[unclosed_end(s, a, z) - 1]),
    decreases z - a,
{
    if a < z && closing(s[z - 1]) {
        lemma_unclosed(s, a, z - 1);
    }
}

/// Sentences close with these and no other character.
pub proof fn law_what_closes_a_sentence(c: char)
    ensures
        closing(c) <==> seq!['.', ',', ';', ':', '!', '?', ')', '>', ']', '}', '\'', '"'].contains(c),
{
    let all = seq!['.', ',', ';', ':', '!', '?', ')', '>', ']', '}', '\'', '"'];
    if closing(c) {
        assert(all[0] == '.' && all[1] == ',' && all[2] == ';' && all[3] == ':' && all[4] == '!' && all[5] == '?'
            && all[6] == ')' && all[7] == '>' && all[8] == ']' && all[9] == '}' && all[10] == '\'' && all[11] == '"');
    }
}

/// The run of text without white space round `c` is `a..z`.
pub open spec fn run_round(row: Seq<char>, c: int, a: int, z: int) -> bool {
    &&& 0 <= a <= c < z <= row.len()
    &&& forall|j: int| a <= j < z ==> !whitespace(#[trigger] row[j])
    &&& a == 0 || whitespace(row[a - 1])
    &&& z == row.len() || whitespace(row[z])
}

/// A URL at a column is part of the run of text there: from the first scheme
/// of a web address in it, up to the punctuation that it ends with, and
/// holding more than the scheme.  Where nothing stands at the column, or the
/// run has no scheme, there is none.
pub proof fn law_a_url_is_part_of_its_run(row: Seq<char>, c: int, a: int, z: int)
    requires
        run_round(row, c, a, z),
    ensures
        ({
            let run = row.subrange(a, z);
            let u = url_at(row, c);
            &&& u matches Some(url) ==> exists|i: int, k: int|
                0 <= i < k <= run.len() && url == #[trigger] run.subrange(i, k) && web_at(run, i) && (forall|j: int|
                    0 <= j < i ==> !(#[trigger] web_at(run, j))) && !closing(run[k - 1]) && (forall|j: int|
                    k <= j < run.len() ==> closing(#[trigger] run[j])) && k - i > 7
            &&& (forall|j: int| 0 <= j < run.len() ==> !(#[trigger] web_at(run, j))) ==> u is None
        }),
        c >= row.len() || whitespace(row[c]) ==> url_at(row, c) is None,
{
    lemma_solid(row, c);
    let (x, y) = (solid_start(row, c), solid_end(row, c + 1));
    if x < a {
        assert(!whitespace(row[a - 1]));
    }
    if a < x {
        assert(!whitespace(row[x - 1]));
    }
    if y < z {
        assert(!whitespace(row[y]));
    }
    if z < y {
        assert(!whitespace(row[z]));
    }
    let run = row.subrange(a, z);
    lemma_first_scheme(run, 0);
    let i = first_scheme(run, 0);
    lemma_unclosed(run, i, run.len() as int);
    let k = unclosed_end(run, i, run.len() as int);
    if url_at(row, c) is Some {
        assert(url_at(row, c)->0 == run.subrange(i, k));
    }
}

/// An address that goes on after its scheme is found: where the run's first
/// scheme is followed by a character that closes no sentence, there is a URL.
pub proof fn law_a_url_that_is_there_is_found(row: Seq<char>, c: int, a: int, z: int, i: int, n: int)
    requires
        run_round(row, c, a, z),
        a <= i && i + n < z,
        stands_at(row.subrange(a, z), i - a, "https://"@) && n == 8 || n == 7 && stands_at(
            row.subrange(a, z),
            i - a,
            "http://"@,
        ),
        forall|j: int| 0 <= j < i - a ==> !(#[trigger] web_at(row.subrange(a, z), j)),
        !closing(row[i + n]),
    ensures
        url_at(row, c) is Some,
{
    lemma_solid(row, c);
    let (x, y) = (solid_start(row, c), solid_end(row, c + 1));
    if x < a {
        assert(!whitespace(row[a - 1]));
    }
    if a < x {
        assert(!whitespace(row[x - 1]));
    }
    if y < z {
        assert(!whitespace(row[y]));
    }
    if z < y {
        assert(!whitespace(row[z]));
    }
    let run = row.subrange(a, z);
    reveal_strlit("https://");
    reveal_strlit("http://");
    reveal_strlit("://");
    lemma_first_scheme(run, 0);
    let s = first_scheme(run, 0);
    assert(web_at(run, i - a));
    assert(s == i - a);
    lemma_unclosed(run, s, run.len() as int);
    let k = unclosed_end(run, s, run.len() as int);
    assert(run[s + n] == row[i + n]);
    if k <= s + n {
        assert(closing(run[s + n]));
    }
    lemma_one_scheme(run, s, n);
    if stands_at(run.take(k), s + n, "://"@) {
        assert(run.take(k)[s + n] == "://"@[0]);
    }
}

proof fn lemma_one_scheme(run: Seq<char>, i: int, n: int)
    requires
        stands_at(run, i, "https://"@) && n == 8 || n == 7 && stands_at(run, i, "http://"@),
    ensures
        scheme(run, i) == n,
{
    reveal_strlit("https://");
    reveal_strlit("http://");
    if n == 7 && stands_at(run, i, "https://"@) {
        assert(run.subrange(i, i + 7)[4] == ':');
        assert(run.subrange(i, i + 8)[4] == 's');
        assert(run[i + 4] == ':');
    }
}

/// The word at a column is the whole run of a name's or a command's
/// characters there; there is none where the column has no such character.
pub proof fn law_a_word_is_whole(row: Seq<char>, c: int, kind: HlKind)
    requires
        0 <= c,
    ensures
        c >= row.len() || !taken(kind, row[c]) ==> word_at(row, c, kind) is None,
        c < row.len() && taken(kind, row[c]) ==> exists|a: int, z: int|
            0 <= a <= c < z <= row.len() && word_at(row, c, kind) == Some(#[trigger] row.subrange(a, z)) && (forall|j: int|
                a <= j < z ==> taken(kind, #[trigger] row[j])) && (a > 0 ==> !taken(kind, row[a - 1])) && (z < row.len()
                ==> !taken(kind, row[z])),
{
    if c < row.len() && taken(kind, row[c]) {
        crate::words::law_a_run_is_whole(row, c, kind);
        crate::words::law_a_run_is_whole(row, c + 1, kind);
        let (a, z) = (run_start(row, c, kind), run_end(row, c + 1, kind));
        assert forall|j: int| a <= j < z implies taken(kind, #[trigger] row[j]) by {
            if j < c {
                assert(taken(kind, row[j]));
            }
        }
        assert(word_at(row, c, kind) == Some(row.subrange(a, z)));
    }
}

/// Where nothing was swept, the second button takes the command word; the
/// third a link's target, else a URL, else the file word.
pub proof fn law_what_a_button_takes_of_a_cell(row: Seq<char>, c: int, link: Option<Seq<char>>, button: Button)
    ensures
        button == Button::Middle ==> cell_text(row, c, link, button) == word_at(row, c, HlKind::Exec),
        button == Button::Right && link is Some ==> cell_text(row, c, link, button) == link,
        button == Button::Right && link is None && url_at(row, c) is Some ==> cell_text(row, c, link, button) == url_at(
            row,
            c,
        ),
        button == Button::Right && link is None && url_at(row, c) is None ==> cell_text(row, c, link, button)
            == word_at(row, c, HlKind::Look),
{
}

/// The cell under a point of the grid holds it; for a point outside, it is
/// the nearest one.
pub proof fn law_a_point_is_in_its_cell(pos: Pt, origin: Pt, w: int, h: int, cols: int, rows: int)
    requires
        w > 0,
        h > 0,
        cols > 0,
        rows > 0,
    ensures
        ({
            let (c, r) = cell_under(pos, origin, w, h, cols, rows);
            &&& 0 <= c < cols && 0 <= r < rows
            &&& pos.x < origin.x ==> c == 0
            &&& pos.y < origin.y ==> r == 0
            &&& origin.x <= pos.x ==> c * w <= pos.x - origin.x && (c + 1 < cols ==> pos.x - origin.x < (c + 1) * w)
            &&& origin.y <= pos.y ==> r * h <= pos.y - origin.y && (r + 1 < rows ==> pos.y - origin.y < (r + 1) * h)
        }),
{
    lemma_along(pos.x - origin.x, w, cols);
    lemma_along(pos.y - origin.y, h, rows);
}

proof fn lemma_along(d: int, w: int, n: int)
    requires
        w > 0,
        n > 0,
    ensures
        ({
            let c = lesser(if d <= 0 { 0 } else { d / w }, n - 1);
            0 <= c < n && (d >= 0 ==> c * w <= d && (c + 1 < n ==> d < (c + 1) * w))
        }),
{
    if d > 0 {
        let q = d / w;
        assert(0 <= q && q * w <= d && d < (q + 1) * w) by (nonlinear_arith)
            requires
                w > 0,
                d > 0,
                q == d / w,
        ;
        if q > n - 1 {
            assert((n - 1) * w <= q * w) by (nonlinear_arith)
                requires
                    w > 0,
                    n - 1 <= q,
            ;
        }
    } else {
        assert(0 * w == 0 && 1 * w == w) by (nonlinear_arith);
    }
}

/// How many bytes the first `k` of the runs take.
pub open spec fn run_from(runs: Seq<(usize, u32)>, k: int) -> int {
    runs_len(runs.take(k))
}

/// Bytes `a` to `b` are drawn in a colour: they lie in a run of it.
pub open spec fn drawn_in(runs: Seq<(usize, u32)>, k: int, a: int, b: int, color: u32) -> bool {
    0 <= k < runs.len() && run_from(runs, k) <= a && b <= run_from(runs, k + 1) && runs[k].1 == color
}

proof fn lemma_run_kept(runs: Seq<(usize, u32)>, n: int, color: u32, k: int, a: int, b: int, c: u32)
    requires
        0 < n,
        0 <= runs_len(runs),
        runs_len(runs) + n <= usize::MAX,
        runs.len() > 0 ==> runs.last().0 <= runs_len(runs),
        drawn_in(runs, k, a, b, c),
    ensures
        drawn_in(run_added(runs, n, color), k, a, b, c),
{
    let all = run_added(runs, n, color);
    assert(all.take(k) =~= runs.take(k));
    if k + 1 < runs.len() {
        assert(all.take(k + 1) =~= runs.take(k + 1));
    } else {
        assert(runs.take(k + 1) =~= runs);
        lemma_run_added(runs, n, color);
        if runs.last().1 == color {
            assert(all.take(k + 1) =~= all);
        } else {
            assert(all.take(k + 1) =~= runs);
        }
    }
}

proof fn lemma_run_put(runs: Seq<(usize, u32)>, n: int, color: u32)
    requires
        0 < n,
        0 <= runs_len(runs),
        runs_len(runs) + n <= usize::MAX,
        runs.len() > 0 ==> runs.last().0 <= runs_len(runs),
    ensures
        drawn_in(
            run_added(runs, n, color),
            run_added(runs, n, color).len() - 1,
            runs_len(runs),
            runs_len(runs) + n,
            color,
        ),
{
    let all = run_added(runs, n, color);
    let k = all.len() - 1;
    lemma_run_added(runs, n, color);
    assert(all.take(k + 1) =~= all);
    assert(all.take(k) =~= all.drop_last());
    if runs.len() > 0 && runs.last().1 == color {
        assert(all.drop_last() =~= runs.drop_last());
    } else {
        assert(all.drop_last() =~= runs);
    }
}

/// Every cell of a row is drawn in its own ink: the run that its bytes lie in
/// is of the cell's colour, of the text's where it has none, and of the
/// paper's under the cursor.
pub proof fn law_each_cell_is_in_its_ink(
    row: Seq<GridCell>,
    cursor: Option<usize>,
    fg: u32,
    bg: u32,
    n: int,
    i: int,
    a: int,
    b: int,
    c: u32,
)
    requires
        0 <= i < n <= row.len(),
        a == text_len(row, i),
        b == text_len(row, i + 1),
        text_len(row, n) <= usize::MAX,
        c == if cursor is Some && cursor->0 == i {
            bg
        } else if row[i].fg == 0 {
            fg
        } else {
            row[i].fg & 0xff_ffff
        },
    ensures
        exists|k: int|
            drawn_in(ink_runs(row, cursor, fg, bg, n), k, a, b, c),
    decreases n,
{
    let before = ink_runs(row, cursor, fg, bg, n - 1);
    let w = width_utf8(glyph(row[n - 1]));
    let color = ink(row[n - 1], cursor_on(cursor, n - 1), fg, bg);
    assert(text_len(row, n) == text_len(row, n - 1) + w);
    law_runs_cover_the_row(row, cursor, fg, bg, n - 1);
    if i == n - 1 {
        lemma_run_put(before, w, color);
        let all = ink_runs(row, cursor, fg, bg, n);
        assert(color == c);
        assert(drawn_in(all, all.len() - 1, a, b, c));
    } else {
        law_each_cell_is_in_its_ink(row, cursor, fg, bg, n - 1, i, a, b, c);
        let k = choose|k: int| drawn_in(before, k, a, b, c);
        lemma_run_kept(before, w, color, k, a, b, c);
        assert(drawn_in(ink_runs(row, cursor, fg, bg, n), k, a, b, c));
    }
}

/// Every cell of a row is drawn on its own background, and one without any
/// on none; under the cursor it is the ink's.
pub proof fn law_each_cell_is_on_its_background(row: Seq<GridCell>, cursor: Option<usize>, fg: u32, n: int, i: int)
    requires
        0 <= i < n <= row.len() <= usize::MAX,
    ensures
        ({
            let bgs = back_runs(row, cursor, fg, n);
            let color = if cursor == Some(i as usize) {
                Some(if row[i].fg == 0 { fg } else { row[i].fg & 0xff_ffff })
            } else if row[i].bg == 0 {
                None
            } else {
                Some(row[i].bg & 0xff_ffff)
            };
            &&& color is None ==> forall|k: int|
                0 <= k < bgs.len() ==> !((#[trigger] bgs[k]).0 <= i < bgs[k].0 + bgs[k].1)
            &&& color is Some ==> exists|k: int|
                0 <= k < bgs.len() && (#[trigger] bgs[k]).0 <= i < bgs[k].0 + bgs[k].1 && bgs[k].2 == color->0
        }),
    decreases n,
{
    lemma_backs_end(row, cursor, fg, n);
    lemma_backs_end(row, cursor, fg, n - 1);
    let before = back_runs(row, cursor, fg, n - 1);
    let all = back_runs(row, cursor, fg, n);
    if i == n - 1 {
        if back(row[i], cursor_on(cursor, i), fg) is Some {
            let k = all.len() - 1;
            assert(all[k].0 <= i < all[k].0 + all[k].1);
        }
    } else {
        law_each_cell_is_on_its_background(row, cursor, fg, n - 1, i);
        let had = exists|k: int| 0 <= k < before.len() && (#[trigger] before[k]).0 <= i < before[k].0 + before[k].1;
        if had {
            let color = if cursor == Some(i as usize) {
                Some(if row[i].fg == 0 { fg } else { row[i].fg & 0xff_ffff })
            } else if row[i].bg == 0 {
                None
            } else {
                Some(row[i].bg & 0xff_ffff)
            };
            let k = choose|k: int|
                0 <= k < before.len() && (#[trigger] before[k]).0 <= i < before[k].0 + before[k].1 && before[k].2
                    == color->0;
            assert(all[k].0 <= i < all[k].0 + all[k].1);
        } else {
            assert forall|k: int| 0 <= k < all.len() implies !((#[trigger] all[k]).0 <= i < all[k].0 + all[k].1) by {
                if k < before.len() {
                    assert(!(before[k].0 <= i < before[k].0 + before[k].1));
                }
            }
        }
    }
}

proof fn lemma_backs_end(row: Seq<GridCell>, cursor: Option<usize>, fg: u32, n: int)
    requires
        0 <= n <= row.len() <= usize::MAX,
    ensures
        forall|k: int|
            0 <= k < back_runs(row, cursor, fg, n).len() ==> (#[trigger] back_runs(row, cursor, fg, n)[k]).0
                + back_runs(row, cursor, fg, n)[k].1 <= n,
    decreases n,
{
    if n > 0 {
        lemma_backs_end(row, cursor, fg, n - 1);
        let before = back_runs(row, cursor, fg, n - 1);
        let all = back_runs(row, cursor, fg, n);
        assert forall|k: int| 0 <= k < all.len() implies (#[trigger] all[k]).0 + all[k].1 <= n by {
            if k < before.len() {
                assert(before[k].0 + before[k].1 <= n - 1);
            }
        }
    }
}

} // verus!
