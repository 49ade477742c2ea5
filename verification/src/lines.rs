//! The lines of a text: where they start and end, and which one an
//! offset is on.

use vstd::prelude::*;

verus! {

/// Where the line that `q` is on starts.
pub open spec fn line_start(t: Seq<char>, q: int) -> int
    decreases q,
{
    if 0 < q <= t.len() && t[q - 1] != '\n' {
        line_start(t, q - 1)
    } else {
        q
    }
}

/// Where the line that `q` is on ends, its newline left out.
pub open spec fn line_end(t: Seq<char>, q: int) -> int
    decreases t.len() - q,
{
    if 0 <= q < t.len() && t[q] != '\n' {
        line_end(t, q + 1)
    } else {
        q
    }
}

/// The line, from 0, that `q` is on: the newlines before it.
pub open spec fn line_of(t: Seq<char>, q: int) -> int
    decreases q,
{
    if 0 < q <= t.len() {
        line_of(t, q - 1) + if t[q - 1] == '\n' {
            1int
        } else {
            0int
        }
    } else {
        0
    }
}

/// How many lines there are: one more than the newlines.
pub open spec fn line_count(t: Seq<char>) -> int {
    line_of(t, t.len() as int) + 1
}

/// Where the line `n` lines on from the one that starts at `from` starts;
/// the end when there are not so many.
pub open spec fn nth_line(t: Seq<char>, n: int, from: int) -> int
    decreases t.len() - from,
{
    if n <= 0 || !(0 <= from < t.len()) {
        from
    } else if t[from] == '\n' {
        nth_line(t, n - 1, from + 1)
    } else {
        nth_line(t, n, from + 1)
    }
}

/// A line's start is at or before the offset, right after a newline or
/// at the start of the text, and no newline lies between.
pub proof fn law_line_start(t: Seq<char>, q: int)
    requires
        0 <= q <= t.len(),
    ensures
        0 <= line_start(t, q) <= q,
        line_start(t, q) == 0 || t[line_start(t, q) - 1] == '\n',
        forall|j: int| line_start(t, q) <= j < q ==> t[j] != '\n',
        line_of(t, line_start(t, q)) == line_of(t, q),
    decreases q,
{
    if q > 0 && t[q - 1] != '\n' {
        law_line_start(t, q - 1);
    }
}

/// A line's end is at or after the offset, at a newline or the end of
/// the text, and no newline lies between.
pub proof fn law_line_end(t: Seq<char>, q: int)
    requires
        0 <= q <= t.len(),
    ensures
        q <= line_end(t, q) <= t.len(),
        line_end(t, q) == t.len() || t[line_end(t, q)] == '\n',
        forall|j: int| q <= j < line_end(t, q) ==> t[j] != '\n',
        line_of(t, line_end(t, q)) == line_of(t, q),
    decreases t.len() - q,
{
    if q < t.len() && t[q] != '\n' {
        law_line_end(t, q + 1);
    }
}

proof fn lemma_line_of_grows(t: Seq<char>, a: int, b: int)
    requires
        0 <= a <= b <= t.len(),
    ensures
        0 <= line_of(t, a) <= line_of(t, b) <= b,
    decreases b,
{
    if a < b {
        lemma_line_of_grows(t, a, b - 1);
    } else if b > 0 {
        lemma_line_of_grows(t, a - 1, b - 1);
    }
}

proof fn lemma_nth_line(t: Seq<char>, n: int, from: int)
    requires
        0 <= from <= t.len(),
        0 <= n,
        line_of(t, from) + n <= line_of(t, t.len() as int),
        from == 0 || t[from - 1] == '\n' || n > 0,
    ensures
        from <= nth_line(t, n, from) <= t.len(),
        line_of(t, nth_line(t, n, from)) == line_of(t, from) + n,
        nth_line(t, n, from) == 0 || t[nth_line(t, n, from) - 1] == '\n',
    decreases t.len() - from,
{
    if n > 0 {
        lemma_line_of_grows(t, from, t.len() as int);
        if from < t.len() {
            if t[from] == '\n' {
                lemma_nth_line(t, n - 1, from + 1);
            } else {
                lemma_nth_line(t, n, from + 1);
            }
        }
    }
}

/// A line that there is starts where a line starts, and it is that line.
pub proof fn law_nth_line(t: Seq<char>, n: int)
    requires
        0 <= n < line_count(t),
    ensures
        0 <= nth_line(t, n, 0) <= t.len(),
        line_of(t, nth_line(t, n, 0)) == n,
        nth_line(t, n, 0) == 0 || t[nth_line(t, n, 0) - 1] == '\n',
{
    lemma_nth_line(t, n, 0);
}

/// The offset that the line `q` is on starts at.
pub fn start_of_line(t: &[char], q: usize) -> (s: usize)
    requires
        q <= t@.len(),
    ensures
        s == line_start(t@, q as int),
        s <= q,
{
    let mut s: usize = q;
    while s > 0 && t[s - 1] != '\n'
        invariant
            s <= q <= t@.len(),
            line_start(t@, s as int) == line_start(t@, q as int),
        decreases s,
    {
        s = s - 1;
    }
    s
}

/// The offset that the line `q` is on ends at.
pub fn end_of_line(t: &[char], q: usize) -> (e: usize)
    requires
        q <= t@.len(),
    ensures
        e == line_end(t@, q as int),
        q <= e <= t@.len(),
{
    let mut e: usize = q;
    while e < t.len() && t[e] != '\n'
        invariant
            q <= e <= t@.len(),
            line_end(t@, e as int) == line_end(t@, q as int),
        decreases t@.len() - e,
    {
        e = e + 1;
    }
    e
}

/// The line that `q` is on.
pub fn line_number(t: &[char], q: usize) -> (n: usize)
    requires
        q <= t@.len(),
    ensures
        n == line_of(t@, q as int),
        n <= q,
{
    let mut n: usize = 0;
    let mut i: usize = 0;
    while i < q
        invariant
            i <= q <= t@.len(),
            n == line_of(t@, i as int),
            n <= i,
        decreases q - i,
    {
        if t[i] == '\n' {
            n = n + 1;
        }
        i = i + 1;
    }
    n
}

/// Where the line `n` starts, from 0.
pub fn start_of_nth(t: &[char], n: usize) -> (s: usize)
    ensures
        s == nth_line(t@, n as int, 0),
        s <= t@.len(),
{
    let mut left: usize = n;
    let mut i: usize = 0;
    while left > 0 && i < t.len()
        invariant
            i <= t@.len(),
            nth_line(t@, left as int, i as int) == nth_line(t@, n as int, 0),
        decreases t@.len() - i,
    {
        if t[i] == '\n' {
            left = left - 1;
        }
        i = i + 1;
    }
    i
}

/// The line `delta` lines from the one `origin` is on, or the first or
/// the last.
pub open spec fn scrolled(t: Seq<char>, origin: int, delta: int) -> int {
    let line = line_of(t, origin) + delta;
    let last = line_count(t) - 1;
    nth_line(
        t,
        if line < 0 {
            0
        } else if line > last {
            last
        } else {
            line
        },
        0,
    )
}

/// A text scrolled by `delta` lines: the origin it then has.
pub fn scroll_by(t: &[char], origin: usize, delta: i64) -> (o: usize)
    requires
        origin <= t@.len(),
    ensures
        o == scrolled(t@, origin as int, delta as int),
        o <= t@.len(),
{
    let line: usize = line_number(t, origin);
    let last: usize = line_number(t, t.len());
    let to: i128 = line as i128 + delta as i128;
    proof {
        lemma_line_of_grows(t@, origin as int, t@.len() as int);
    }
    let new: usize = if to < 0 {
        0
    } else if to > last as i128 {
        last
    } else {
        to as usize
    };
    start_of_nth(t, new)
}

/// Scrolling leaves the origin at the start of a line of the text.
pub proof fn law_scrolling_lands_on_a_line(t: Seq<char>, origin: int, delta: int)
    requires
        0 <= origin <= t.len(),
    ensures
        0 <= scrolled(t, origin, delta) <= t.len(),
        scrolled(t, origin, delta) == 0 || t[scrolled(t, origin, delta) - 1] == '\n',
{
    lemma_line_of_grows(t, origin, t.len() as int);
    let line = line_of(t, origin) + delta;
    let last = line_count(t) - 1;
    law_nth_line(t, if line < 0 { 0 } else if line > last { last } else { line });
}

} // verus!
