//! Acme's words: what B2 and B3 take from a text around the place
//! clicked.

use vstd::prelude::*;

use crate::mouse::{Drag, HlKind, Swept};

verus! {

/// ASCII punctuation, but for `_`.
pub open spec fn punctuation(c: char) -> bool {
    let u = c as u32;
    0x21 <= u <= 0x2f || 0x3a <= u <= 0x40 || 0x5b <= u <= 0x5e || u == 0x60 || 0x7b <= u <= 0x7e
}

/// acme's `isalnum`: anything but space, controls and ASCII punctuation
/// (so `_` counts).
pub open spec fn alnum(c: char) -> bool {
    let u = c as u32;
    u > 0x20 && !(0x7f <= u <= 0xa0) && !punctuation(c)
}

/// acme's `isfilec`: alnum, and `.-+/:@`.
pub open spec fn file_char(c: char) -> bool {
    alnum(c) || c == '.' || c == '-' || c == '+' || c == '/' || c == ':' || c == '@'
}

/// A character of a command: a file's, and `<|>`.
pub open spec fn exec_char(c: char) -> bool {
    file_char(c) || c == '<' || c == '|' || c == '>'
}

/// A character of what is taken to be run, or to be looked up.
pub open spec fn taken(kind: HlKind, c: char) -> bool {
    match kind {
        HlKind::Exec => exec_char(c),
        HlKind::Look => file_char(c),
    }
}

/// Whether `c` is acme's alnum.
pub fn is_alnum(c: char) -> (r: bool)
    ensures
        r == alnum(c),
{
    let u: u32 = c as u32;
    u > 0x20 && !(0x7f <= u && u <= 0xa0) && !(0x21 <= u && u <= 0x2f || 0x3a <= u && u <= 0x40 || 0x5b <= u && u <= 0x5e
        || u == 0x60 || 0x7b <= u && u <= 0x7e)
}

/// Whether `c` can be in a file's name.
pub fn is_file_char(c: char) -> (r: bool)
    ensures
        r == file_char(c),
{
    is_alnum(c) || c == '.' || c == '-' || c == '+' || c == '/' || c == ':' || c == '@'
}

/// Whether `c` can be in a command.
pub fn is_exec_char(c: char) -> (r: bool)
    ensures
        r == exec_char(c),
{
    is_file_char(c) || c == '<' || c == '|' || c == '>'
}

fn is_taken(kind: HlKind, c: char) -> (r: bool)
    ensures
        r == taken(kind, c),
{
    match kind {
        HlKind::Exec => is_exec_char(c),
        HlKind::Look => is_file_char(c),
    }
}

/// Where the run of characters taken that ends at `i` starts.
pub open spec fn run_start(t: Seq<char>, i: int, kind: HlKind) -> int
    decreases i,
{
    if 0 < i <= t.len() && taken(kind, t[i - 1]) {
        run_start(t, i - 1, kind)
    } else {
        i
    }
}

/// Where the run of characters taken that starts at `i` ends.
pub open spec fn run_end(t: Seq<char>, i: int, kind: HlKind) -> int
    decreases t.len() - i,
{
    if 0 <= i < t.len() && taken(kind, t[i]) {
        run_end(t, i + 1, kind)
    } else {
        i
    }
}

/// What is taken around a place is the whole run of characters there:
/// every one of them is taken, and neither neighbour is.
pub proof fn law_a_run_is_whole(t: Seq<char>, i: int, kind: HlKind)
    requires
        0 <= i <= t.len(),
    ensures
        0 <= run_start(t, i, kind) <= i <= run_end(t, i, kind) <= t.len(),
        forall|j: int| run_start(t, i, kind) <= j < run_end(t, i, kind) ==> taken(kind, #[trigger] t[j]),
        run_start(t, i, kind) > 0 ==> !taken(kind, t[run_start(t, i, kind) - 1]),
        run_end(t, i, kind) < t.len() ==> !taken(kind, t[run_end(t, i, kind)]),
{
    lemma_run_start(t, i, kind);
    lemma_run_end(t, i, kind);
}

proof fn lemma_run_start(t: Seq<char>, i: int, kind: HlKind)
    requires
        0 <= i <= t.len(),
    ensures
        0 <= run_start(t, i, kind) <= i,
        forall|j: int| run_start(t, i, kind) <= j < i ==> taken(kind, #[trigger] t[j]),
        run_start(t, i, kind) > 0 ==> !taken(kind, t[run_start(t, i, kind) - 1]),
    decreases i,
{
    if i > 0 && taken(kind, t[i - 1]) {
        lemma_run_start(t, i - 1, kind);
    }
}

proof fn lemma_run_end(t: Seq<char>, i: int, kind: HlKind)
    requires
        0 <= i <= t.len(),
    ensures
        i <= run_end(t, i, kind) <= t.len(),
        forall|j: int| i <= j < run_end(t, i, kind) ==> taken(kind, #[trigger] t[j]),
        run_end(t, i, kind) < t.len() ==> !taken(kind, t[run_end(t, i, kind)]),
    decreases t.len() - i,
{
    if i < t.len() && taken(kind, t[i]) {
        lemma_run_end(t, i + 1, kind);
    }
}

/// The lesser of `i` and the length.
pub open spec fn inside(t: Seq<char>, i: int) -> int {
    if i < t.len() {
        i
    } else {
        t.len() as int
    }
}

/// Expand outward from `i` over the characters taken.
pub fn expand(t: &[char], i: usize, kind: HlKind) -> (r: (usize, usize))
    ensures
        r.0 == run_start(t@, inside(t@, i as int), kind),
        r.1 == run_end(t@, inside(t@, i as int), kind),
        r.0 <= r.1 <= t@.len(),
{
    let n: usize = t.len();
    let i: usize = if i < n {
        i
    } else {
        n
    };
    let mut a: usize = i;
    while a > 0 && is_taken(kind, t[a - 1])
        invariant
            a <= i <= t@.len(),
            run_start(t@, a as int, kind) == run_start(t@, i as int, kind),
        decreases a,
    {
        a = a - 1;
    }
    let mut b: usize = i;
    while b < n && is_taken(kind, t[b])
        invariant
            n == t@.len(),
            a <= i <= b <= n,
            run_end(t@, b as int, kind) == run_end(t@, i as int, kind),
        decreases n - b,
    {
        b = b + 1;
    }
    (a, b)
}

/// What a button took on purpose: the sweep, or the selection the
/// pointer is in.
pub open spec fn explicit(hl: Option<Swept>, sel: Option<(usize, usize)>, d: Drag) -> Option<(usize, usize)> {
    if hl matches Some(h) && h.view == d.view && h.lo < h.hi {
        Some((hl->0.lo, hl->0.hi))
    } else {
        match sel {
            Some((q0, q1)) => if q0 < q1 && q0 <= d.anchor <= q1 {
                Some((q0, q1))
            } else {
                None
            },
            None => None,
        }
    }
}

/// What a button took on purpose; none for a plain click.
pub fn explicit_range_at(hl: Option<Swept>, sel: Option<(usize, usize)>, d: Drag) -> (r: Option<(usize, usize)>)
    ensures
        r == explicit(hl, sel, d),
{
    if let Some(h) = hl {
        if h.view == d.view && h.lo < h.hi {
            return Some((h.lo, h.hi));
        }
    }
    match sel {
        Some((q0, q1)) => if q0 < q1 && q0 <= d.anchor && d.anchor <= q1 {
            Some((q0, q1))
        } else {
            None
        },
        None => None,
    }
}

/// What a button takes: what it took on purpose, else the run under the
/// pointer, else nothing.
pub open spec fn range_taken(t: Seq<char>, hl: Option<Swept>, sel: Option<(usize, usize)>, d: Drag, kind: HlKind) -> Option<
    (usize, usize),
> {
    if explicit(hl, sel, d) is Some {
        explicit(hl, sel, d)
    } else {
        let a = run_start(t, inside(t, d.anchor as int), kind);
        let z = run_end(t, inside(t, d.anchor as int), kind);
        if a == z {
            None
        } else {
            Some((a as usize, z as usize))
        }
    }
}

/// What a button takes from the text.
pub fn take_range_at(t: &[char], hl: Option<Swept>, sel: Option<(usize, usize)>, d: Drag, kind: HlKind) -> (r: Option<
    (usize, usize),
>)
    ensures
        r == range_taken(t@, hl, sel, d, kind),
{
    match explicit_range_at(hl, sel, d) {
        Some(r) => Some(r),
        None => {
            let (a, z) = expand(t, d.anchor, kind);
            if a == z {
                None
            } else {
                Some((a, z))
            }
        },
    }
}

/// A file's name is made of letters, digits and `_`, of any character past
/// ASCII's own and the no-break space, and of `.-+/:@`; a command's of those
/// and `<|>`.  Nothing else is in either: no space, no control code, no
/// other punctuation.
pub proof fn law_the_characters_of_names_and_commands(c: char)
    ensures
        'a' <= c <= 'z' || 'A' <= c <= 'Z' || '0' <= c <= '9' || c == '_' || c > '\u{a0}' ==> alnum(c) && taken(
            HlKind::Look,
            c,
        ),
        c == '.' || c == '-' || c == '+' || c == '/' || c == ':' || c == '@' ==> !alnum(c) && taken(HlKind::Look, c),
        c <= ' ' || c == '\u{7f}' || '\u{80}' <= c <= '\u{a0}' ==> !taken(HlKind::Look, c) && !taken(HlKind::Exec, c),
        c == '!' || c == '"' || c == '#' || c == '$' || c == '%' || c == '&' || c == '\'' || c == '(' || c == ')' || c
            == '*' || c == ',' || c == ';' || c == '=' || c == '?' || c == '[' || c == '\\' || c == ']' || c == '^' || c
            == '`' || c == '{' || c == '}' || c == '~' ==> !taken(HlKind::Look, c) && !taken(HlKind::Exec, c),
        c == '<' || c == '|' || c == '>' ==> !taken(HlKind::Look, c) && taken(HlKind::Exec, c),
        taken(HlKind::Look, c) ==> taken(HlKind::Exec, c),
{
}

/// What a button takes of a text: the sweep in that text, where there is
/// one; else the selection, where the button went down in it; else the whole
/// run of characters there, every one of them a name's or a command's and
/// neither neighbour, where there are any.
pub proof fn law_a_button_takes_what_is_there(
    t: Seq<char>,
    hl: Option<Swept>,
    sel: Option<(usize, usize)>,
    d: Drag,
    kind: HlKind,
)
    requires
        t.len() <= usize::MAX,
    ensures
        ({
            let r = range_taken(t, hl, sel, d, kind);
            let swept = hl is Some && hl->0.view == d.view && hl->0.lo < hl->0.hi;
            let selected = sel is Some && (sel->0).0 < (sel->0).1 && (sel->0).0 <= d.anchor <= (sel->0).1;
            let at: int = if d.anchor < t.len() { d.anchor as int } else { t.len() as int };
            &&& swept || selected <==> explicit(hl, sel, d) is Some
            &&& swept ==> r == Some((hl->0.lo, hl->0.hi))
            &&& !swept && selected ==> r == sel
            &&& !swept && !selected && r is None ==> (at < t.len() ==> !taken(kind, t[at])) && (at > 0 ==> !taken(
                kind,
                t[at - 1],
            ))
            &&& !swept && !selected && r is Some ==> {
                let (a, z) = r->0;
                &&& a <= at <= z <= t.len() && a < z
                &&& forall|j: int| a <= j < z ==> taken(kind, #[trigger] t[j])
                &&& a > 0 ==> !taken(kind, t[a - 1])
                &&& z < t.len() ==> !taken(kind, t[z as int])
            }
        }),
{
    let at: int = if d.anchor < t.len() { d.anchor as int } else { t.len() as int };
    law_a_run_is_whole(t, at, kind);
    if run_start(t, at, kind) == run_end(t, at, kind) {
        if at > 0 {
            assert(run_start(t, at, kind) == at);
        }
    }
}

} // verus!
