//! What the window asks of others, step by step: a terminal's text, a
//! path completed, a rule walked, a host's sessions, the login shell's
//! environment.

use vstd::prelude::*;
use vstd::string::*;

use crate::ids::{TermId, WindowId};
use crate::mouse::{Cell, TermSel};
use crate::text::{chars_of, find, find_char, lines, lines_of, same, slice_of, string_of, views};
use crate::words::{file_char, is_file_char};

verus! {

/// What `Snarfout` does with a window.
#[derive(Clone, Copy, Debug, PartialEq, Eq, Structural)]
pub enum Snarfout {
    /// The terminal's text is read on its host, up to this row.
    Read(TermId, u64),
    /// There is no such terminal.
    NoTerminal,
    /// The window's own text is looked through.
    Text,
    /// There is no such window.
    NoWindow,
}

/// A window's body, for `Snarfout`: a terminal with its first row and how
/// many it has, where it is there.
#[derive(Clone, Copy, Debug)]
pub enum Body {
    Term(TermId, Option<(u64, u16)>),
    Text,
    Gone,
}

/// `Snarfout`: the last command's output in a terminal -- all its text
/// read, scrollback too -- or in a window.
pub fn snarfout(b: Body) -> (s: Snarfout)
    requires
        b matches Body::Term(_, Some((top, rows))) ==> top + rows <= u64::MAX,
    ensures
        s == (match b {
            Body::Term(t, Some((top, rows))) => Snarfout::Read(t, (top + rows) as u64),
            Body::Term(_, None) => Snarfout::NoTerminal,
            Body::Text => Snarfout::Text,
            Body::Gone => Snarfout::NoWindow,
        }),
{
    match b {
        Body::Term(t, Some((top, rows))) => Snarfout::Read(t, top + rows as u64),
        Body::Term(_, None) => Snarfout::NoTerminal,
        Body::Text => Snarfout::Text,
        Body::Gone => Snarfout::NoWindow,
    }
}

/// A terminal's selection is copied: where it is this window's, it holds
/// something and there is a terminal.
pub fn term_copy(sel: Option<TermSel>, w: WindowId, term: Option<TermId>) -> (r: Option<(TermId, Cell, Cell)>)
    ensures
        r == (match (sel, term) {
            (Some(s), Some(t)) => if s.window == w && s.from != s.to {
                Some((t, s.from, s.to))
            } else {
                None
            },
            _ => None,
        }),
{
    match (sel, term) {
        (Some(s), Some(t)) => {
            if s.window == w && s.from != s.to {
                Some((t, s.from, s.to))
            } else {
                None
            }
        },
        _ => None,
    }
}

/// Where the path before an offset starts.
pub open spec fn path_start(t: Seq<char>, q: int) -> int
    decreases q,
{
    if 0 < q <= t.len() && file_char(t[q - 1]) {
        path_start(t, q - 1)
    } else {
        q
    }
}

/// The path that is to be completed: what stands before an offset.
pub fn complete(t: &[char], q0: usize) -> (prefix: String)
    requires
        q0 <= t@.len(),
    ensures
        prefix@ == t@.subrange(path_start(t@, q0 as int), q0 as int),
        0 <= path_start(t@, q0 as int) <= q0,
{
    let mut q: usize = q0;
    while q > 0 && is_file_char(t[q - 1])
        invariant
            q <= q0 <= t@.len(),
            path_start(t@, q as int) == path_start(t@, q0 as int),
        decreases q,
    {
        q = q - 1;
    }
    let p: Vec<char> = slice_of(t, q, q0);
    string_of(p.as_slice())
}

/// Where the walk of the rules stands.
pub enum PlumbStep {
    /// It is over: these are done, or they are done though it was
    /// refused.
    Done,
    Refused,
    /// It was a dry run.
    Trace,
    /// The client is asked to do something itself.
    ClientDo(String, String),
    /// Something is asked that the session does.
    Ask,
    /// A tool is asked.
    AskTool(String),
}

/// What the walk of the rules leads to.
pub enum PlumbAct {
    /// What it left is done, and that is all.
    Perform,
    /// That is all.
    Stop,
    /// The client does it, and the walk goes on with what came of it.
    ClientDo(String, String),
    /// The session does it, and the walk goes on.
    PerformOn,
    /// The walk goes on with this error.
    Refuse(String),
}

/// The walk of the rules in this process: there are no tools here.
pub fn plumb_local(s: PlumbStep) -> (a: PlumbAct)
    ensures
        match s {
            PlumbStep::Done => a is Perform,
            PlumbStep::Refused => a is Perform,
            PlumbStep::Trace => a is Stop,
            PlumbStep::ClientDo(v, g) => a == PlumbAct::ClientDo(v, g),
            PlumbStep::Ask => a is PerformOn,
            PlumbStep::AskTool(t) => a matches PlumbAct::Refuse(e) && e@ == "no tool "@ + t@ + " in-process"@,
        },
{
    match s {
        PlumbStep::Done => PlumbAct::Perform,
        PlumbStep::Refused => PlumbAct::Perform,
        PlumbStep::Trace => PlumbAct::Stop,
        PlumbStep::ClientDo(v, g) => PlumbAct::ClientDo(v, g),
        PlumbStep::Ask => PlumbAct::PerformOn,
        PlumbStep::AskTool(t) => {
            let mut e: String = "no tool ".to_owned();
            e.append(t.as_str());
            e.append(" in-process");
            PlumbAct::Refuse(e)
        },
    }
}

/// Where the asking of a host for its sessions stands.
#[derive(Clone, Copy, Debug, PartialEq, Eq, Structural)]
pub enum Asked {
    Nothing,
    /// It was asked, and answered or not.
    Once(bool),
    /// It was given our binary, or not.
    Deployed(bool),
    /// It was asked again, and answered or not.
    Twice(bool),
}

/// What the asking of a host comes to.
#[derive(Clone, Copy, Debug, PartialEq, Eq, Structural)]
pub enum Asking {
    /// This machine is asked, or the host.
    AskHere,
    AskHost,
    /// A host that has no binary of ours yet gets one.
    Deploy,
    AskAgain,
    /// The answer there is now is the answer.
    Answered,
    /// The first failure is what is told: there was nothing to deploy.
    FailedFirst,
    /// The last failure is what is told.
    FailedLast,
}

/// The asking of a host for its sessions: a host that does not answer
/// gets our binary first, as attaching would give it, and is asked again.
pub fn ask_host(local: bool, a: Asked) -> (r: Asking)
    ensures
        r == (match a {
            Asked::Nothing => if local {
                Asking::AskHere
            } else {
                Asking::AskHost
            },
            Asked::Once(ok) => if ok {
                Asking::Answered
            } else if local {
                Asking::FailedLast
            } else {
                Asking::Deploy
            },
            Asked::Deployed(ok) => if ok {
                Asking::AskAgain
            } else {
                Asking::FailedFirst
            },
            Asked::Twice(ok) => if ok {
                Asking::Answered
            } else {
                Asking::FailedLast
            },
        }),
{
    match a {
        Asked::Nothing => {
            if local {
                Asking::AskHere
            } else {
                Asking::AskHost
            }
        },
        Asked::Once(ok) => {
            if ok {
                Asking::Answered
            } else if local {
                Asking::FailedLast
            } else {
                Asking::Deploy
            }
        },
        Asked::Deployed(ok) => {
            if ok {
                Asking::AskAgain
            } else {
                Asking::FailedFirst
            }
        },
        Asked::Twice(ok) => {
            if ok {
                Asking::Answered
            } else {
                Asking::FailedLast
            }
        },
    }
}

/// The parts of a text between nul characters, from `i` on.
pub open spec fn between_nuls(s: Seq<char>, i: int) -> Seq<Seq<char>>
    decreases s.len() - i,
{
    let e = find(s, '\0', i);
    if 0 <= i <= e < s.len() {
        seq![s.subrange(i, e)] + between_nuls(s, e + 1)
    } else if 0 <= i <= s.len() {
        seq![s.skip(i)]
    } else {
        Seq::empty()
    }
}

/// The entries of an environment: between nul characters where there are
/// any, else a line each.
pub open spec fn entries_of(s: Seq<char>) -> Seq<Seq<char>> {
    if find(s, '\0', 0) < s.len() {
        between_nuls(s, 0)
    } else {
        lines_of(s)
    }
}

/// The entries of an environment.
pub fn entries(text: &str) -> (r: Vec<Vec<char>>)
    ensures
        views(r@) == entries_of(text@),
{
    let s: Vec<char> = chars_of(text);
    let first: usize = find_char(s.as_slice(), '\0', 0);
    if first >= s.len() {
        return lines(s.as_slice());
    }
    let mut out: Vec<Vec<char>> = Vec::new();
    let mut i: usize = 0;
    let mut e: usize = first;
    proof {
        assert(views(out@) + between_nuls(text@, 0) =~= between_nuls(text@, 0));
    }
    while e < s.len()
        invariant
            s@ == text@,
            i <= e <= s@.len() || e == s@.len(),
            i <= s@.len(),
            e == find(s@, '\0', i as int),
            views(out@) + between_nuls(text@, i as int) == between_nuls(text@, 0),
        decreases s@.len() - e,
    {
        let ghost before = out@;
        let part: Vec<char> = slice_of(s.as_slice(), i, e);
        out.push(part);
        proof {
            assert(views(out@) =~= views(before).push(s@.subrange(i as int, e as int)));
            assert(views(out@) + between_nuls(text@, e + 1) =~= views(before) + (seq![s@.subrange(i as int, e as int)]
                + between_nuls(text@, e + 1)));
        }
        i = e + 1;
        e = find_char(s.as_slice(), '\0', i);
    }
    let ghost before = out@;
    let part: Vec<char> = slice_of(s.as_slice(), i, s.len());
    out.push(part);
    proof {
        assert(part@ =~= s@.skip(i as int));
        assert(views(out@) =~= views(before) + seq![s@.skip(i as int)]);
        assert(views(out@) =~= between_nuls(text@, 0));
    }
    out
}

/// A variable that is adopted changes something: it was not there, or
/// had another value.
pub fn changes(was: Option<&str>, value: &str) -> (r: bool)
    ensures
        r == (match was {
            Some(w) => w@ != value@,
            None => true,
        }),
{
    match was {
        Some(w) => !same(w, value),
        None => true,
    }
}

/// What is completed is the whole run of a file name's characters before the
/// cursor.
pub proof fn law_the_whole_name_is_completed(t: Seq<char>, q: int)
    requires
        0 <= q <= t.len(),
    ensures
        0 <= path_start(t, q) <= q,
        forall|j: int| path_start(t, q) <= j < q ==> file_char(#[trigger] t[j]),
        path_start(t, q) > 0 ==> !file_char(t[path_start(t, q) - 1]),
    decreases q,
{
    if 0 < q && file_char(t[q - 1]) {
        law_the_whole_name_is_completed(t, q - 1);
    }
}

/// The pieces, with a NUL between each and the next.
pub open spec fn with_nuls(p: Seq<Seq<char>>) -> Seq<char>
    decreases p.len(),
{
    if p.len() == 0 {
        Seq::empty()
    } else if p.len() == 1 {
        p[0]
    } else {
        p[0] + seq!['\0'] + with_nuls(p.skip(1))
    }
}

proof fn lemma_between_nuls(s: Seq<char>, i: int)
    requires
        0 <= i <= s.len(),
    ensures
        between_nuls(s, i).len() > 0,
        with_nuls(between_nuls(s, i)) == s.skip(i),
        forall|k: int| 0 <= k < between_nuls(s, i).len() ==> !(#[trigger] between_nuls(s, i)[k]).contains('\0'),
    decreases s.len() - i,
{
    crate::text::lemma_find(s, '\0', i);
    let e = find(s, '\0', i);
    let p = between_nuls(s, i);
    if e < s.len() {
        lemma_between_nuls(s, e + 1);
        let rest = between_nuls(s, e + 1);
        assert(p =~= seq![s.subrange(i, e)] + rest);
        assert(p.skip(1) =~= rest);
        assert(with_nuls(p) == p[0] + seq!['\0'] + with_nuls(rest));
        assert(with_nuls(p) =~= s.skip(i));
        assert forall|k: int| 0 <= k < p.len() implies !(#[trigger] p[k]).contains('\0') by {
            if k > 0 {
                assert(p[k] == rest[k - 1]);
            } else if p[0].contains('\0') {
                let j = choose|j: int| 0 <= j < p[0].len() && p[0][j] == '\0';
                assert(s[i + j] == '\0');
            }
        }
    } else {
        assert(p =~= seq![s.skip(i)]);
        if p[0].contains('\0') {
            let j = choose|j: int| 0 <= j < p[0].len() && p[0][j] == '\0';
            assert(s[i + j] == '\0');
        }
    }
}

/// Entries that NULs part are what is between them, each without one, and put
/// together again they are the text; a text without any is parted in lines.
pub proof fn law_entries_are_what_nuls_part(s: Seq<char>)
    ensures
        s.contains('\0') ==> with_nuls(entries_of(s)) == s && forall|k: int|
            0 <= k < entries_of(s).len() ==> !(#[trigger] entries_of(s)[k]).contains('\0'),
        !s.contains('\0') ==> entries_of(s) == lines_of(s),
{
    crate::text::lemma_find(s, '\0', 0);
    lemma_between_nuls(s, 0);
    assert(s.skip(0) =~= s);
    if s.contains('\0') {
        let j = choose|j: int| 0 <= j < s.len() && s[j] == '\0';
        if find(s, '\0', 0) == s.len() {
            assert(s[j] != '\0');
        }
    } else if find(s, '\0', 0) < s.len() {
        assert(s[find(s, '\0', 0)] == '\0');
    }
}

} // verus!
