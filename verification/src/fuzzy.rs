//! A fuzzy score for a query against a path, in Zed's spirit.
//!
//! Points are counted in thousandths.

use std::cmp::Ordering;
use vstd::prelude::*;

use crate::text::{
    capital, chars_of, is_lowercase, is_numeric, is_uppercase, lowercase, numeric, same_chars, small, to_lowercase,
};

verus! {

/// The same character, whatever the case.
pub open spec fn alike(a: char, b: char) -> bool {
    lowercase(a) == lowercase(b)
}

/// Where the file name of a path starts: after its last slash.
pub open spec fn name_start(p: Seq<char>, n: int) -> int
    decreases n,
{
    if n <= 0 || n > p.len() || p[n - 1] == '/' {
        n
    } else {
        name_start(p, n - 1)
    }
}

/// A character that a word starts after.
pub open spec fn parts_words(c: char) -> bool {
    c == '-' || c == '_' || c == '.' || c == ' ' || numeric(c)
}

/// A word starts at `j`.
pub open spec fn starts_word(p: Seq<char>, j: int) -> bool {
    j > 0 && (parts_words(p[j - 1]) || small(p[j - 1]) && capital(p[j]))
}

/// What matching `qc` at `j` scores, `follows` saying that the character
/// before it in the query matched right before.
pub open spec fn points(qc: char, p: Seq<char>, j: int, name: int, follows: bool) -> int {
    let s: int = if j == name {
        1000
    } else if j > 0 && p[j - 1] == '/' {
        900
    } else if follows {
        1000
    } else if starts_word(p, j) {
        800
    } else {
        550
    };
    (if p[j] != qc && small(p[j]) != small(qc) {
        s / 2
    } else {
        s
    }) + (if j >= name {
        150int
    } else {
        0int
    })
}

/// Places of `p`, in order, where the characters of `q` from `qi` on are.
pub open spec fn aligned(q: Seq<char>, p: Seq<char>, qi: int, at: Seq<int>) -> bool {
    &&& at.len() == q.len() - qi
    &&& forall|i: int| 0 <= i < at.len() ==> 0 <= #[trigger] at[i] < p.len() && alike(p[at[i]], q[qi + i])
    &&& forall|i: int, j: int| 0 <= i < j < at.len() ==> at[i] < at[j]
}

/// What an alignment of the characters from `qi` on scores, `last` being
/// where the character before them matched.
pub open spec fn worth(q: Seq<char>, p: Seq<char>, name: int, qi: int, at: Seq<int>, last: int) -> int
    decreases at.len(),
{
    if at.len() == 0 {
        0
    } else {
        points(q[qi], p, at[0], name, at[0] == last + 1) + worth(q, p, name, qi + 1, at.skip(1), at[0])
    }
}

/// The greater of two totals, where there are any.
pub open spec fn better(a: Option<int>, b: Option<int>) -> Option<int> {
    match (a, b) {
        (Some(x), Some(y)) => if x >= y {
            a
        } else {
            b
        },
        (Some(_), None) => a,
        _ => b,
    }
}

/// A total with `n` more, where there is one.
pub open spec fn plus(a: Option<int>, n: int) -> Option<int> {
    match a {
        Some(x) => Some(x + n),
        None => None,
    }
}

/// The best total for the characters from `qi` on, matched from `pi` on,
/// `prev` saying that the one before matched right before `pi`: with this
/// one matched here, or further on.
pub open spec fn best(q: Seq<char>, p: Seq<char>, name: int, qi: int, pi: int, prev: bool) -> Option<int>
    decreases q.len() - qi, p.len() - pi,
{
    if !(0 <= qi < q.len()) {
        Some(0)
    } else if !(0 <= pi < p.len()) {
        None
    } else if alike(p[pi], q[qi]) {
        better(
            plus(best(q, p, name, qi + 1, pi + 1, true), points(q[qi], p, pi, name, prev)),
            best(q, p, name, qi, pi + 1, false),
        )
    } else {
        best(q, p, name, qi, pi + 1, false)
    }
}

proof fn lemma_no_alignment_is_better(
    q: Seq<char>,
    p: Seq<char>,
    name: int,
    qi: int,
    pi: int,
    last: int,
    at: Seq<int>,
)
    requires
        0 <= qi <= q.len(),
        0 <= pi <= p.len(),
        aligned(q, p, qi, at),
        at.len() > 0 ==> at[0] >= pi,
        last < pi,
    ensures
        best(q, p, name, qi, pi, last + 1 == pi) is Some,
        best(q, p, name, qi, pi, last + 1 == pi)->0 >= worth(q, p, name, qi, at, last),
    decreases q.len() - qi, p.len() - pi,
{
    if qi < q.len() {
        assert(0 <= at[0] < p.len() && alike(p[at[0]], q[qi + 0]));
        if at[0] == pi {
            let rest = at.skip(1);
            assert forall|i: int| 0 <= i < rest.len() implies 0 <= #[trigger] rest[i] < p.len() && alike(
                p[rest[i]],
                q[qi + 1 + i],
            ) by {
                assert(rest[i] == at[i + 1]);
                assert(alike(p[at[i + 1]], q[qi + (i + 1)]));
            }
            assert forall|i: int, j: int| 0 <= i < j < rest.len() implies rest[i] < rest[j] by {
                assert(at[i + 1] < at[j + 1]);
            }
            if rest.len() > 0 {
                assert(at[0] < at[1]);
            }
            lemma_no_alignment_is_better(q, p, name, qi + 1, pi + 1, pi, rest);
        } else {
            // further on, it follows nothing right before
            lemma_no_alignment_is_better(q, p, name, qi, pi + 1, last, at);
        }
    }
}

proof fn lemma_some_alignment_is_that_good(q: Seq<char>, p: Seq<char>, name: int, qi: int, pi: int, last: int) -> (at: Seq<
    int,
>)
    requires
        0 <= qi <= q.len(),
        0 <= pi <= p.len(),
        last < pi,
        best(q, p, name, qi, pi, last + 1 == pi) is Some,
    ensures
        aligned(q, p, qi, at),
        at.len() > 0 ==> at[0] >= pi,
        best(q, p, name, qi, pi, last + 1 == pi)->0 == worth(q, p, name, qi, at, last),
    decreases q.len() - qi, p.len() - pi,
{
    if qi == q.len() {
        Seq::empty()
    } else {
        let prev = last + 1 == pi;
        let later = best(q, p, name, qi, pi + 1, false);
        let taken = plus(best(q, p, name, qi + 1, pi + 1, true), points(q[qi], p, pi, name, prev));
        if alike(p[pi], q[qi]) && taken is Some && (later is None || taken->0 >= later->0) {
            let rest = lemma_some_alignment_is_that_good(q, p, name, qi + 1, pi + 1, pi);
            let at = seq![pi] + rest;
            assert(at.skip(1) =~= rest);
            assert forall|i: int| 0 <= i < at.len() implies 0 <= #[trigger] at[i] < p.len() && alike(
                p[at[i]],
                q[qi + i],
            ) by {
                if i > 0 {
                    assert(at[i] == rest[i - 1]);
                    assert(alike(p[rest[i - 1]], q[qi + 1 + (i - 1)]));
                }
            }
            assert forall|i: int, j: int| 0 <= i < j < at.len() implies at[i] < at[j] by {
                if i > 0 {
                    assert(rest[i - 1] < rest[j - 1]);
                } else {
                    assert(rest[0] <= rest[j - 1]);
                }
            }
            at
        } else {
            lemma_some_alignment_is_that_good(q, p, name, qi, pi + 1, last)
        }
    }
}

/// The total of the best alignment of the query in the path; none when
/// there is no alignment.
pub open spec fn total(q: Seq<char>, p: Seq<char>) -> Option<int> {
    best(q, p, name_start(p, p.len() as int), 0, 0, false)
}

/// The total is that of an alignment, and no alignment has a greater one;
/// there is none just when the characters do not appear in order.
pub proof fn law_the_best_alignment_is_taken(q: Seq<char>, p: Seq<char>)
    ensures
        total(q, p) is Some <==> exists|at: Seq<int>| aligned(q, p, 0, at),
        total(q, p) is Some ==> exists|at: Seq<int>|
            aligned(q, p, 0, at) && worth(q, p, name_start(p, p.len() as int), 0, at, -2) == total(q, p)->0,
        forall|at: Seq<int>| #[trigger]
            aligned(q, p, 0, at) ==> worth(q, p, name_start(p, p.len() as int), 0, at, -2) <= total(q, p)->0,
{
    let name = name_start(p, p.len() as int);
    if total(q, p) is Some {
        let at = lemma_some_alignment_is_that_good(q, p, name, 0, 0, -2);
        assert(aligned(q, p, 0, at));
    }
    assert forall|at: Seq<int>| #[trigger] aligned(q, p, 0, at) implies total(q, p) is Some && worth(
        q,
        p,
        name,
        0,
        at,
        -2,
    ) <= total(q, p)->0 by {
        lemma_no_alignment_is_better(q, p, name, 0, 0, -2, at);
    }
}

/// What is compared: the mean per character of the query, a little less
/// for long paths -- times two thousand times the query's length, which
/// makes a whole number of it.
pub open spec fn scored(q: Seq<char>, p: Seq<char>) -> Option<int> {
    if q.len() == 0 || q.len() > p.len() {
        None
    } else {
        plus(doubled(total(q, p)), -(q.len() * p.len()))
    }
}

/// A total twice.
pub open spec fn doubled(a: Option<int>) -> Option<int> {
    match a {
        Some(x) => Some(2 * x),
        None => None,
    }
}

/// A score: what the matches gain, and what the lengths cost.
#[derive(Clone, Copy, Debug)]
pub struct Score {
    pub gain: u128,
    pub cost: u128,
}

impl View for Score {
    type V = int;

    open spec fn view(&self) -> int {
        self.gain - self.cost
    }
}

impl Score {
    /// Whether it is more than another.
    pub fn over(&self, other: &Score) -> (r: bool)
        ensures
            r == (self@ > other@),
    {
        if self.gain >= other.gain {
            let more: u128 = self.gain - other.gain;
            if self.cost > other.cost {
                more > self.cost - other.cost
            } else {
                more > 0 || self.cost < other.cost
            }
        } else {
            other.cost > self.cost && other.cost - self.cost > other.gain - self.gain
        }
    }
}

impl PartialEq for Score {
    fn eq(&self, other: &Score) -> (r: bool) {
        !self.over(other) && !other.over(self)
    }
}

impl vstd::std_specs::cmp::PartialEqSpecImpl for Score {
    open spec fn obeys_eq_spec() -> bool {
        true
    }

    open spec fn eq_spec(&self, other: &Score) -> bool {
        self@ == other@
    }
}

impl PartialOrd for Score {
    fn partial_cmp(&self, other: &Score) -> (r: Option<Ordering>) {
        if self.over(other) {
            Some(Ordering::Greater)
        } else if other.over(self) {
            Some(Ordering::Less)
        } else {
            Some(Ordering::Equal)
        }
    }
}

impl vstd::std_specs::cmp::PartialOrdSpecImpl for Score {
    open spec fn obeys_partial_cmp_spec() -> bool {
        true
    }

    open spec fn partial_cmp_spec(&self, other: &Score) -> Option<Ordering> {
        if self@ > other@ {
            Some(Ordering::Greater)
        } else if self@ < other@ {
            Some(Ordering::Less)
        } else {
            Some(Ordering::Equal)
        }
    }
}

/// A score as a value, where there is one.
pub open spec fn worth_of(s: Option<Score>) -> Option<int> {
    match s {
        Some(s) => Some(s@),
        None => None,
    }
}

/// A total as a value.
pub open spec fn whole(a: Option<u128>) -> Option<int> {
    match a {
        Some(x) => Some(x as int),
        None => None,
    }
}

fn points_of(qc: char, p: &[char], j: usize, name: usize, follows: bool) -> (s: u128)
    requires
        j < p@.len(),
    ensures
        s == points(qc, p@, j as int, name as int, follows),
        0 <= s <= 1150,
{
    let pc = p[j];
    let s: u128 = if j == name {
        1000
    } else if j > 0 && p[j - 1] == '/' {
        900
    } else if follows {
        1000
    } else if j > 0 && (parts(p[j - 1]) || is_lowercase(p[j - 1]) && is_uppercase(pc)) {
        800
    } else {
        550
    };
    let s: u128 = if pc != qc && is_lowercase(pc) != is_lowercase(qc) {
        s / 2
    } else {
        s
    };
    if j >= name {
        s + 150
    } else {
        s
    }
}

fn parts(c: char) -> (r: bool)
    ensures
        r == parts_words(c),
{
    c == '-' || c == '_' || c == '.' || c == ' ' || is_numeric(c)
}

fn best_of(a: Option<u128>, b: Option<u128>) -> (r: Option<u128>)
    ensures
        whole(r) == better(whole(a), whole(b)),
        r == a || r == b,
{
    match (a, b) {
        (Some(x), Some(y)) => if x >= y {
            a
        } else {
            b
        },
        (Some(_), None) => a,
        _ => b,
    }
}

/// Characters in lower case.
fn lower(s: &[char]) -> (r: Vec<Vec<char>>)
    ensures
        r@.len() == s@.len(),
        forall|i: int| 0 <= i < s@.len() ==> (#[trigger] r@[i])@ == lowercase(s@[i]),
{
    let mut out: Vec<Vec<char>> = Vec::new();
    let mut i: usize = 0;
    while i < s.len()
        invariant
            i <= s@.len(),
            out@.len() == i,
            forall|j: int| 0 <= j < i ==> (#[trigger] out@[j])@ == lowercase(s@[j]),
        decreases s@.len() - i,
    {
        out.push(to_lowercase(s[i]));
        i = i + 1;
    }
    out
}

/// Where the file name of a path starts.
pub fn name_of(p: &[char]) -> (n: usize)
    ensures
        n == name_start(p@, p@.len() as int),
        n <= p@.len(),
{
    let mut n: usize = p.len();
    while n > 0 && p[n - 1] != '/'
        invariant
            n <= p@.len(),
            name_start(p@, n as int) == name_start(p@, p@.len() as int),
        decreases n,
    {
        n = n - 1;
    }
    n
}

/// A row of totals: for each place, the best from there on for the
/// characters from `qi` on.
pub open spec fn row_of(row: Seq<Option<u128>>, q: Seq<char>, p: Seq<char>, name: int, qi: int, prev: bool) -> bool {
    &&& row.len() == p.len() + 1
    &&& forall|i: int|
        0 <= i <= p.len() ==> whole(#[trigger] row[i]) == best(q, p, name, qi, i, prev) && (row[i] matches Some(x)
            ==> 0 <= x <= 1150 * (q.len() - qi))
}

/// The row for the character at `qi`, from the row for those after it.
/// Built from the end of the path back, so the row comes out reversed.
fn row_before(
    q: &[char],
    p: &[char],
    ql: &Vec<char>,
    pl: &Vec<Vec<char>>,
    name: usize,
    qi: usize,
    next: &Vec<Option<u128>>,
) -> (row: Vec<Option<u128>>)
    requires
        qi < q@.len(),
        ql@ == lowercase(q@[qi as int]),
        pl@.len() == p@.len(),
        forall|i: int| 0 <= i < p@.len() ==> (#[trigger] pl@[i])@ == lowercase(p@[i]),
        row_of(next@, q@, p@, name as int, qi + 1, true),
    ensures
        row_of(row@, q@, p@, name as int, qi as int, true),
{
    let m: usize = p.len();
    // `after` is the best from the next place on, following nothing
    let mut after: Option<u128> = None;
    let mut back: Vec<Option<u128>> = Vec::new();
    back.push(None);
    let mut i: usize = m;
    while i > 0
        invariant
            i <= m == p@.len(),
            qi < q@.len(),
            ql@ == lowercase(q@[qi as int]),
            pl@.len() == p@.len(),
            forall|j: int| 0 <= j < p@.len() ==> (#[trigger] pl@[j])@ == lowercase(p@[j]),
            row_of(next@, q@, p@, name as int, qi + 1, true),
            back@.len() == m - i + 1,
            whole(after) == best(q@, p@, name as int, qi as int, i as int, false),
            after matches Some(x) ==> 0 <= x <= 1150 * (q@.len() - qi),
            forall|k: int|
                0 <= k < back@.len() ==> whole(#[trigger] back@[k]) == best(
                    q@,
                    p@,
                    name as int,
                    qi as int,
                    m - k,
                    true,
                ) && (back@[k] matches Some(x) ==> 0 <= x <= 1150 * (q@.len() - qi)),
        decreases i,
    {
        i = i - 1;
        let rest = next[i + 1];
        let alike_here = same_chars(pl[i].as_slice(), ql.as_slice());
        let (t, f): (Option<u128>, Option<u128>) = match rest {
            Some(r) => if alike_here {
                let pt: u128 = points_of(q[qi], p, i, name, true);
                let pf: u128 = points_of(q[qi], p, i, name, false);
                proof {
                    assert(r <= 1150 * (q@.len() - (qi + 1)));
                }
                (best_of(Some(r + pt), after), best_of(Some(r + pf), after))
            } else {
                (after, after)
            },
            None => (after, after),
        };
        proof {
            assert(whole(next@[i + 1]) == best(q@, p@, name as int, qi + 1, i + 1, true));
            assert(alike_here == alike(p@[i as int], q@[qi as int]));
            assert(whole(t) == best(q@, p@, name as int, qi as int, i as int, true));
            assert(whole(f) == best(q@, p@, name as int, qi as int, i as int, false));
        }
        after = f;
        let ghost before = back@;
        back.push(t);
        proof {
            assert forall|k: int| 0 <= k < back@.len() implies whole(#[trigger] back@[k]) == best(
                q@,
                p@,
                name as int,
                qi as int,
                m - k,
                true,
            ) && (back@[k] matches Some(x) ==> 0 <= x <= 1150 * (q@.len() - qi)) by {
                if k < before.len() {
                    assert(back@[k] == before[k]);
                }
            }
        }
    }
    let mut row: Vec<Option<u128>> = Vec::new();
    let mut k: usize = m;
    while k > 0
        invariant
            k <= m == p@.len(),
            back@.len() == m + 1,
            row@.len() == m - k,
            forall|j: int| 0 <= j < m - k ==> #[trigger] row@[j] == back@[m - j],
        decreases k,
    {
        row.push(back[k]);
        k = k - 1;
    }
    row.push(back[0]);
    proof {
        assert forall|j: int| 0 <= j <= p@.len() implies whole(#[trigger] row@[j]) == best(
            q@,
            p@,
            name as int,
            qi as int,
            j,
            true,
        ) && (row@[j] matches Some(x) ==> 0 <= x <= 1150 * (q@.len() - qi)) by {
            assert(row@[j] == back@[m - j]);
        }
    }
    row
}

fn score_chars(query: &[char], path: &[char]) -> (r: Option<Score>)
    ensures
        worth_of(r) == scored(query@, path@),
{
    let n: usize = query.len();
    let m: usize = path.len();
    if n == 0 || n > m {
        return None;
    }
    let name: usize = name_of(path);
    let pl: Vec<Vec<char>> = lower(path);
    let ql: Vec<Vec<char>> = lower(query);
    let mut row: Vec<Option<u128>> = Vec::new();
    let mut k: usize = 0;
    row.push(Some(0));
    while k < m
        invariant
            k <= m == path@.len(),
            row@.len() == k + 1,
            forall|j: int| 0 <= j <= k ==> #[trigger] row@[j] == Some(0u128),
        decreases m - k,
    {
        row.push(Some(0));
        k = k + 1;
    }
    let mut qi: usize = n;
    while qi > 1
        invariant
            1 <= qi <= n == query@.len(),
            n <= m == path@.len(),
            name == name_start(path@, path@.len() as int),
            ql@.len() == n,
            forall|i: int| 0 <= i < n ==> (#[trigger] ql@[i])@ == lowercase(query@[i]),
            pl@.len() == m,
            forall|i: int| 0 <= i < m ==> (#[trigger] pl@[i])@ == lowercase(path@[i]),
            row_of(row@, query@, path@, name as int, qi as int, true),
        decreases qi,
    {
        qi = qi - 1;
        row = row_before(query, path, &ql[qi], &pl, name, qi, &row);
    }
    // the first character follows nothing, wherever it is
    let t: Option<u128> = first_total(query, path, &ql[0], &pl, name, &row);
    match t {
        Some(x) => {
            proof {
                assert(0 <= n * m <= u64::MAX * u64::MAX) by (nonlinear_arith)
                    requires
                        0 <= n <= u64::MAX,
                        0 <= m <= u64::MAX,
                ;
            }
            Some(Score { gain: 2 * x, cost: n as u128 * m as u128 })
        },
        None => None,
    }
}

fn first_total(q: &[char], p: &[char], ql: &Vec<char>, pl: &Vec<Vec<char>>, name: usize, next: &Vec<Option<u128>>) -> (t: Option<
    u128,
>)
    requires
        0 < q@.len(),
        ql@ == lowercase(q@[0]),
        pl@.len() == p@.len(),
        forall|i: int| 0 <= i < p@.len() ==> (#[trigger] pl@[i])@ == lowercase(p@[i]),
        row_of(next@, q@, p@, name as int, 1, true),
    ensures
        whole(t) == best(q@, p@, name as int, 0, 0, false),
        t matches Some(x) ==> 0 <= x <= 1150 * q@.len(),
{
    let mut after: Option<u128> = None;
    let mut i: usize = p.len();
    while i > 0
        invariant
            i <= p@.len(),
            0 < q@.len(),
            ql@ == lowercase(q@[0]),
            pl@.len() == p@.len(),
            forall|j: int| 0 <= j < p@.len() ==> (#[trigger] pl@[j])@ == lowercase(p@[j]),
            row_of(next@, q@, p@, name as int, 1, true),
            whole(after) == best(q@, p@, name as int, 0, i as int, false),
            after matches Some(x) ==> 0 <= x <= 1150 * q@.len(),
        decreases i,
    {
        i = i - 1;
        let alike_here = same_chars(pl[i].as_slice(), ql.as_slice());
        proof {
            assert(whole(next@[i + 1]) == best(q@, p@, name as int, 1, i + 1, true));
            assert(alike_here == alike(p@[i as int], q@[0]));
        }
        if alike_here {
            if let Some(r) = next[i + 1] {
                let pf: u128 = points_of(q[0], p, i, name, false);
                after = best_of(Some(r + pf), after);
            }
        }
    }
    after
}

/// A fuzzy score for `query` against `path`: each query character must
/// appear in order; a character scores 1.0 when it starts the file name,
/// 0.9 right after `/`, 0.8 at a word start (after `-`, `_`, `.`, a
/// digit, or a case change), 1.0 when it continues the previous match,
/// 0.55 otherwise; a case mismatch costs half. The best alignment is
/// taken, and the score is the mean per query character, nudged up for
/// matches inside the file name, and a little less for long paths --
/// given times two thousand times the query's length, so that scores of
/// one query compare as they are.
pub fn score(query: &str, path: &str) -> (r: Option<Score>)
    ensures
        worth_of(r) == scored(query@, path@),
{
    let q: Vec<char> = chars_of(query);
    let p: Vec<char> = chars_of(path);
    score_chars(q.as_slice(), p.as_slice())
}

/// The characters of `q` are at the places `at` of `p`, in order, whatever
/// their case.
pub open spec fn fits(q: Seq<char>, p: Seq<char>, at: Seq<int>) -> bool {
    &&& at.len() == q.len()
    &&& forall|i: int| 0 <= i < at.len() ==> 0 <= #[trigger] at[i] < p.len() && lowercase(p[at[i]]) == lowercase(q[i])
    &&& forall|i: int, j: int| 0 <= i < j < at.len() ==> at[i] < at[j]
}

/// There is no slash from `j` on.
pub open spec fn in_the_name(p: Seq<char>, j: int) -> bool {
    forall|k: int| j <= k < p.len() ==> #[trigger] p[k] != '/'
}

/// What the `i`th match earns: 1000 where it starts the file name, 900 right
/// after a slash, 1000 right after the match before it, 800 where a word
/// starts and 550 elsewhere; half of that in the other case; and 150 more in
/// the file name.
pub open spec fn earned(q: Seq<char>, p: Seq<char>, at: Seq<int>, i: int) -> int {
    let j = at[i];
    let s: int = if (j == 0 || p[j - 1] == '/') && in_the_name(p, j) {
        1000
    } else if j > 0 && p[j - 1] == '/' {
        900
    } else if i > 0 && at[i - 1] == j - 1 {
        1000
    } else if j > 0 && (seq!['-', '_', '.', ' '].contains(p[j - 1]) || numeric(p[j - 1]) || small(p[j - 1]) && capital(
        p[j],
    )) {
        800
    } else {
        550
    };
    (if p[j] != q[i] && small(p[j]) != small(q[i]) {
        s / 2
    } else {
        s
    }) + (if in_the_name(p, j) {
        150int
    } else {
        0int
    })
}

/// What the first `n` matches earn together.
pub open spec fn earnings(q: Seq<char>, p: Seq<char>, at: Seq<int>, n: int) -> int
    decreases n,
{
    if n <= 0 {
        0
    } else {
        earnings(q, p, at, n - 1) + earned(q, p, at, n - 1)
    }
}

proof fn lemma_name_start(p: Seq<char>, n: int)
    requires
        0 <= n <= p.len(),
        in_the_name(p, n),
    ensures
        0 <= name_start(p, n) <= n,
        in_the_name(p, name_start(p, n)),
        name_start(p, n) > 0 ==> p[name_start(p, n) - 1] == '/',
    decreases n,
{
    if n > 0 && p[n - 1] != '/' {
        assert forall|k: int| n - 1 <= k < p.len() implies #[trigger] p[k] != '/' by {
            if k > n - 1 {
                assert(p[k] != '/');
            }
        }
        lemma_name_start(p, n - 1);
    }
}

/// The file name starts after the last slash, and at the start where there is
/// none.
pub proof fn law_the_file_name_is_what_follows_the_last_slash(p: Seq<char>)
    ensures
        ({
            let n = name_start(p, p.len() as int);
            &&& 0 <= n <= p.len()
            &&& forall|k: int| n <= k < p.len() ==> #[trigger] p[k] != '/'
            &&& n > 0 ==> p[n - 1] == '/'
        }),
{
    lemma_name_start(p, p.len() as int);
}

proof fn lemma_earned(q: Seq<char>, p: Seq<char>, at: Seq<int>, i: int, follows: bool)
    requires
        0 <= i < q.len() == at.len(),
        0 <= at[i] < p.len(),
        follows == (i > 0 && at[i - 1] == at[i] - 1),
    ensures
        points(q[i], p, at[i], name_start(p, p.len() as int), follows) == earned(q, p, at, i),
{
    let j = at[i];
    let name = name_start(p, p.len() as int);
    lemma_name_start(p, p.len() as int);
    if j < name {
        assert(p[name - 1] == '/');
        assert(!in_the_name(p, j));
    } else {
        assert(in_the_name(p, j));
    }
    if j > name {
        assert(p[j - 1] != '/');
    }
    let all = seq!['-', '_', '.', ' '];
    if j > 0 {
        assert(all[0] == '-' && all[1] == '_' && all[2] == '.' && all[3] == ' ');
    }
}

proof fn lemma_worth(q: Seq<char>, p: Seq<char>, at: Seq<int>, n: int)
    requires
        fits(q, p, at),
        0 <= n <= at.len(),
    ensures
        worth(
            q,
            p,
            name_start(p, p.len() as int),
            n,
            at.skip(n),
            if n > 0 {
                at[n - 1]
            } else {
                -2
            },
        ) == earnings(q, p, at, at.len() as int) - earnings(q, p, at, n),
    decreases at.len() - n,
{
    if n < at.len() {
        lemma_worth(q, p, at, n + 1);
        let rest = at.skip(n);
        assert(rest[0] == at[n]);
        assert(rest.skip(1) =~= at.skip(n + 1));
        assert(0 <= at[n] < p.len());
        lemma_earned(q, p, at, n, n > 0 && at[n - 1] == at[n] - 1);
        assert(earnings(q, p, at, n + 1) == earnings(q, p, at, n) + earned(q, p, at, n));
    }
}

proof fn lemma_rising(p: Seq<char>, at: Seq<int>, i: int)
    requires
        0 <= i < at.len(),
        forall|i: int| 0 <= i < at.len() ==> 0 <= #[trigger] at[i] < p.len(),
        forall|i: int, j: int| 0 <= i < j < at.len() ==> at[i] < at[j],
    ensures
        i <= at[i],
    decreases i,
{
    if i > 0 {
        lemma_rising(p, at, i - 1);
        assert(at[i - 1] < at[i]);
    }
}

/// A path is found just where the characters of the query are in it in order,
/// whatever their case; and then its score is twice what the best of the ways
/// they can be placed earns, less the product of the two lengths.  A query
/// without characters finds nothing.
pub proof fn law_the_score_is_that_of_the_best_way(q: Seq<char>, p: Seq<char>)
    ensures
        q.len() == 0 ==> scored(q, p) is None,
        forall|at: Seq<int>|
            q.len() > 0 && #[trigger] fits(q, p, at) ==> scored(q, p) is Some && scored(q, p)->0 >= 2 * earnings(
                q,
                p,
                at,
                q.len() as int,
            ) - q.len() * p.len(),
        scored(q, p) is Some ==> exists|at: Seq<int>| #[trigger]
            fits(q, p, at) && scored(q, p)->0 == 2 * earnings(q, p, at, q.len() as int) - q.len() * p.len(),
{
    law_the_best_alignment_is_taken(q, p);
    let name = name_start(p, p.len() as int);
    assert forall|at: Seq<int>| q.len() > 0 && #[trigger] fits(q, p, at) implies scored(q, p) is Some && scored(q, p)->0
        >= 2 * earnings(q, p, at, q.len() as int) - q.len() * p.len() by {
        lemma_rising(p, at, at.len() - 1);
        assert(at[at.len() - 1] < p.len());
        assert(aligned(q, p, 0, at));
        lemma_worth(q, p, at, 0);
        assert(at.skip(0) =~= at);
    }
    if scored(q, p) is Some {
        let at = choose|at: Seq<int>| aligned(q, p, 0, at) && worth(q, p, name, 0, at, -2) == total(q, p)->0;
        assert(aligned(q, p, 0, at));
        assert forall|i: int| 0 <= i < at.len() implies 0 <= #[trigger] at[i] < p.len() && lowercase(p[at[i]])
            == lowercase(q[i]) by {
            assert(alike(p[at[i]], q[0 + i]));
        }
        assert(fits(q, p, at));
        lemma_worth(q, p, at, 0);
        assert(at.skip(0) =~= at);
    }
}

/// A query finds a path in whatever case it is written.
pub proof fn law_case_is_no_hindrance(q: Seq<char>, p: Seq<char>, at: Seq<int>)
    requires
        0 < q.len() == at.len(),
        forall|i: int| 0 <= i < at.len() ==> 0 <= #[trigger] at[i] < p.len(),
        forall|i: int| 0 <= i < at.len() ==> lowercase(p[#[trigger] at[i]]) == lowercase(q[i]),
        forall|i: int, j: int| 0 <= i < j < at.len() ==> at[i] < at[j],
    ensures
        scored(q, p) is Some,
{
    law_the_score_is_that_of_the_best_way(q, p);
    assert(fits(q, p, at));
}

/// The better score is the one that gains more over what it costs.
pub proof fn law_scores_are_ordered_by_what_they_gain(s: Score, t: Score)
    ensures
        vstd::std_specs::cmp::PartialOrdSpec::partial_cmp_spec(&s, &t) == Some(Ordering::Greater) <==> s.gain + t.cost
            > t.gain + s.cost,
        vstd::std_specs::cmp::PartialOrdSpec::partial_cmp_spec(&s, &t) == Some(Ordering::Less) <==> s.gain + t.cost
            < t.gain + s.cost,
        vstd::std_specs::cmp::PartialEqSpec::eq_spec(&s, &t) <==> s.gain + t.cost == t.gain + s.cost,
{
}

} // verus!
