//! What was there lately: the sessions attached to, latest first, and
//! each session's files closed, latest first.

use vstd::prelude::*;
use vstd::string::*;

use crate::finder::{Entry, WinKind, KEEP};
use crate::fuzzy::{name_of, name_start};
use crate::ids::WindowId;
use crate::selector::strs;
use crate::session::{urls, SessionUrl, Url};
use crate::tabbed::{
    law_lines_are_read_back, law_sides_are_read_back, one_line, part, parted, put_side_by_side, side_by_side,
    write_lines, written,
};
use crate::text::{chars_of, contains, holds, lines, lines_of, same, same_chars, string_of, views};

verus! {

/// How many sessions attached to lately are kept.
pub const LATELY: usize = 12;

/// The first `n` of the sessions without one.
pub open spec fn without(list: Seq<Url>, u: Url, n: int) -> Seq<Url>
    decreases n,
{
    if n <= 0 || n > list.len() {
        Seq::empty()
    } else if list[n - 1].is(u) {
        without(list, u, n - 1)
    } else {
        without(list, u, n - 1).push(list[n - 1])
    }
}

/// As many of the sessions as are kept.
pub open spec fn kept_lately(list: Seq<Url>) -> Seq<Url> {
    if list.len() > LATELY {
        list.take(LATELY as int)
    } else {
        list
    }
}

/// The sessions attached to lately once one has been: that one, and the
/// others after it.
pub open spec fn attached(list: Seq<Url>, u: Url) -> Seq<Url> {
    kept_lately(seq![u] + without(list, u, list.len() as int))
}

/// A session attached to: the first of those attached to lately, and
/// there once.
pub fn note_recent(list: &Vec<SessionUrl>, url: &SessionUrl) -> (r: Vec<SessionUrl>)
    ensures
        urls(r@) == attached(urls(list@), url@),
{
    let mut out: Vec<SessionUrl> = Vec::new();
    out.push(url.copy());
    let mut i: usize = 0;
    proof {
        assert(urls(out@) =~= kept_lately(seq![url@] + without(urls(list@), url@, 0)));
    }
    while i < list.len()
        invariant
            i <= list@.len(),
            urls(out@) == kept_lately(seq![url@] + without(urls(list@), url@, i as int)),
        decreases list@.len() - i,
    {
        let ghost before = out@;
        let ghost w = without(urls(list@), url@, i as int);
        proof {
            assert(urls(list@)[i as int] == list@[i as int]@);
            assert(urls(out@).len() == out@.len());
        }
        if !list[i].is(url) {
            proof {
                assert(seq![url@] + without(urls(list@), url@, i + 1) =~= (seq![url@] + w).push(list@[i as int]@));
            }
            if out.len() < LATELY {
                out.push(list[i].copy());
                proof {
                    assert(urls(out@) =~= urls(before).push(list@[i as int]@));
                }
            } else {
                proof {
                    assert((seq![url@] + w).push(list@[i as int]@).take(LATELY as int) =~= kept_lately(
                        seq![url@] + w,
                    ));
                }
            }
        }
        i = i + 1;
    }
    out
}

/// A session attached to is the first of those attached to lately, and
/// no other of them is it; there are only so many.
pub proof fn law_the_latest_is_first_and_once(list: Seq<Url>, u: Url)
    ensures
        attached(list, u).len() >= 1,
        attached(list, u)[0] == u,
        attached(list, u).len() <= LATELY,
        forall|i: int| 1 <= i < attached(list, u).len() ==> !(#[trigger] attached(list, u)[i]).is(u),
{
    lemma_without(list, u, list.len() as int);
    let w = without(list, u, list.len() as int);
    let all = seq![u] + w;
    assert forall|i: int| 1 <= i < attached(list, u).len() implies !(#[trigger] attached(list, u)[i]).is(u) by {
        assert(attached(list, u)[i] == w[i - 1]);
    }
}

proof fn lemma_without(list: Seq<Url>, u: Url, n: int)
    requires
        0 <= n <= list.len(),
    ensures
        forall|i: int| 0 <= i < without(list, u, n).len() ==> !(#[trigger] without(list, u, n)[i]).is(u),
    decreases n,
{
    if n > 0 {
        lemma_without(list, u, n - 1);
        let before = without(list, u, n - 1);
        let all = without(list, u, n);
        assert forall|i: int| 0 <= i < all.len() implies !(#[trigger] all[i]).is(u) by {
            if i < before.len() {
                assert(all[i] == before[i]);
            }
        }
    }
}

/// A session that has another name now.
pub open spec fn renamed(u: Url, old: Url, new: Url) -> Url {
    if u.is(old) {
        new
    } else {
        u
    }
}

/// A session renamed: those attached to lately, with its new name.
pub fn renamed_recent(list: &Vec<SessionUrl>, old: &SessionUrl, new: &SessionUrl) -> (r: Vec<SessionUrl>)
    ensures
        urls(r@) == kept_lately(urls(list@).map_values(|u: Url| renamed(u, old@, new@))),
{
    let mut out: Vec<SessionUrl> = Vec::new();
    let mut i: usize = 0;
    let ghost all = urls(list@).map_values(|u: Url| renamed(u, old@, new@));
    proof {
        assert(urls(out@) =~= all.take(0));
    }
    while i < list.len() && i < LATELY
        invariant
            i <= list@.len(),
            i <= LATELY,
            all == urls(list@).map_values(|u: Url| renamed(u, old@, new@)),
            urls(out@) == all.take(i as int),
        decreases list@.len() - i,
    {
        let ghost before = out@;
        let u = if list[i].is(old) {
            new.copy()
        } else {
            list[i].copy()
        };
        out.push(u);
        i = i + 1;
        proof {
            assert(all[i - 1] == u@);
            assert(urls(out@) =~= urls(before).push(u@));
            assert(urls(out@) =~= all.take(i as int));
        }
    }
    proof {
        assert(urls(out@) =~= kept_lately(all));
    }
    out
}

/// A file closed: the session it was in, and its path.
pub type Closed = (Seq<char>, Seq<char>);

/// What the first `n` lines tell of files closed.
pub open spec fn closed_in(l: Seq<Seq<char>>, n: int) -> Seq<Closed>
    decreases n,
{
    if n <= 0 || n > l.len() {
        Seq::empty()
    } else {
        match parted(l[n - 1]) {
            Some(c) => closed_in(l, n - 1).push(c),
            None => closed_in(l, n - 1),
        }
    }
}

/// What a file tells of files closed.
pub open spec fn closed_told(text: Seq<char>) -> Seq<Closed> {
    closed_in(lines_of(text), lines_of(text).len() as int)
}

/// The paths closed in one session, of the first `n`.
pub open spec fn closed_at(c: Seq<Closed>, key: Seq<char>, n: int) -> Seq<Seq<char>>
    decreases n,
{
    if n <= 0 || n > c.len() {
        Seq::empty()
    } else if c[n - 1].0 == key {
        closed_at(c, key, n - 1).push(c[n - 1].1)
    } else {
        closed_at(c, key, n - 1)
    }
}

/// What was closed in other sessions, of the first `n`.
pub open spec fn closed_elsewhere(c: Seq<Closed>, key: Seq<char>, n: int) -> Seq<Closed>
    decreases n,
{
    if n <= 0 || n > c.len() {
        Seq::empty()
    } else if c[n - 1].0 == key {
        closed_elsewhere(c, key, n - 1)
    } else {
        closed_elsewhere(c, key, n - 1).push(c[n - 1])
    }
}

/// The first `n` paths without one.
pub open spec fn but(p: Seq<Seq<char>>, path: Seq<char>, n: int) -> Seq<Seq<char>>
    decreases n,
{
    if n <= 0 || n > p.len() {
        Seq::empty()
    } else if p[n - 1] == path {
        but(p, path, n - 1)
    } else {
        but(p, path, n - 1).push(p[n - 1])
    }
}

/// A session's paths once one has been closed: that one first, and once.
pub open spec fn closed_first(p: Seq<Seq<char>>, path: Seq<char>) -> Seq<Seq<char>> {
    let all = seq![path] + but(p, path, p.len() as int);
    if all.len() > KEEP {
        all.take(KEEP as int)
    } else {
        all
    }
}

/// The file once a path has been closed: the session's own lines, then
/// the others'.
pub open spec fn closed_file(text: Seq<char>, key: Seq<char>, path: Seq<char>) -> Seq<char> {
    let c = closed_told(text);
    let ours = closed_first(closed_at(c, key, c.len() as int), path);
    let others = closed_elsewhere(c, key, c.len() as int);
    written(ours.map_values(|p: Seq<char>| side_by_side(key, p)) + others.map_values(|x: Closed| side_by_side(x.0, x.1)))
}

/// Both sides of the lines that have two.
fn read_closed(text: &str) -> (r: (Vec<Vec<char>>, Vec<Vec<char>>))
    ensures
        r.0@.len() == r.1@.len() == closed_told(text@).len(),
        forall|i: int|
            0 <= i < r.0@.len() ==> #[trigger] closed_told(text@)[i] == (r.0@[i]@, r.1@[i]@),
{
    let all: Vec<char> = chars_of(text);
    let l: Vec<Vec<char>> = lines(all.as_slice());
    let mut keys: Vec<Vec<char>> = Vec::new();
    let mut paths: Vec<Vec<char>> = Vec::new();
    let mut i: usize = 0;
    while i < l.len()
        invariant
            i <= l@.len(),
            views(l@) == lines_of(text@),
            keys@.len() == paths@.len() == closed_in(views(l@), i as int).len(),
            forall|j: int|
                0 <= j < keys@.len() ==> #[trigger] closed_in(views(l@), i as int)[j] == (keys@[j]@, paths@[j]@),
        decreases l@.len() - i,
    {
        proof {
            assert(views(l@)[i as int] == l@[i as int]@);
        }
        let ghost so_far = closed_in(views(l@), i as int);
        if let Some((a, b)) = part(l[i].as_slice()) {
            keys.push(a);
            paths.push(b);
            proof {
                let now = closed_in(views(l@), i + 1);
                assert forall|j: int| 0 <= j < keys@.len() implies #[trigger] now[j] == (keys@[j]@, paths@[j]@) by {
                    if j < so_far.len() {
                        assert(now[j] == so_far[j]);
                    }
                }
            }
        }
        i = i + 1;
    }
    (keys, paths)
}

/// The files closed lately in a session, latest first.
pub fn recently_closed(text: &str, key: &str) -> (r: Vec<String>)
    ensures
        strs(r@) == closed_at(closed_told(text@), key@, closed_told(text@).len() as int),
{
    let (keys, paths) = read_closed(text);
    let k: Vec<char> = chars_of(key);
    let mut out: Vec<String> = Vec::new();
    let mut i: usize = 0;
    let ghost c = closed_told(text@);
    proof {
        assert(strs(out@) =~= Seq::<Seq<char>>::empty());
    }
    while i < keys.len()
        invariant
            i <= keys@.len(),
            k@ == key@,
            keys@.len() == paths@.len() == c.len(),
            forall|j: int| 0 <= j < keys@.len() ==> #[trigger] c[j] == (keys@[j]@, paths@[j]@),
            strs(out@) == closed_at(c, key@, i as int),
        decreases keys@.len() - i,
    {
        let ghost before = out@;
        proof {
            assert(c[i as int] == (keys@[i as int]@, paths@[i as int]@));
        }
        if same_chars(keys[i].as_slice(), k.as_slice()) {
            let p: String = string_of(paths[i].as_slice());
            out.push(p);
            proof {
                assert(strs(out@) =~= strs(before).push(p@));
            }
        }
        i = i + 1;
    }
    out
}

/// The session's own lines, the path just closed first.
fn own_lines(keys: &Vec<Vec<char>>, paths: &Vec<Vec<char>>, key: &[char], path: &[char], Ghost(c): Ghost<Seq<Closed>>) -> (r: Vec<
    Vec<char>,
>)
    requires
        keys@.len() == paths@.len() == c.len(),
        forall|j: int| 0 <= j < keys@.len() ==> #[trigger] c[j] == (keys@[j]@, paths@[j]@),
    ensures
        views(r@) == closed_first(closed_at(c, key@, c.len() as int), path@).map_values(
            |p: Seq<char>| side_by_side(key@, p),
        ),
{
    let ghost ln = |p: Seq<char>| side_by_side(key@, p);
    let mut out: Vec<Vec<char>> = Vec::new();
    out.push(put_side_by_side(key, path));
    let mut i: usize = 0;
    proof {
        assert(seq![path@] + but(closed_at(c, key@, 0), path@, 0) =~= seq![path@]);
        assert(views(out@) =~= closed_first(closed_at(c, key@, 0), path@).map_values(ln));
    }
    while i < keys.len()
        invariant
            i <= keys@.len(),
            keys@.len() == paths@.len() == c.len(),
            forall|j: int| 0 <= j < keys@.len() ==> #[trigger] c[j] == (keys@[j]@, paths@[j]@),
            ln == (|p: Seq<char>| side_by_side(key@, p)),
            views(out@) == closed_first(closed_at(c, key@, i as int), path@).map_values(ln),
        decreases keys@.len() - i,
    {
        let ghost before = out@;
        let ghost p0 = closed_at(c, key@, i as int);
        let ghost p1 = closed_at(c, key@, i + 1);
        proof {
            assert(c[i as int] == (keys@[i as int]@, paths@[i as int]@));
            assert(views(out@).len() == out@.len());
        }
        if same_chars(keys[i].as_slice(), key) {
            proof {
                lemma_but_of_more(p0, paths@[i as int]@, path@, p0.len() as int);
            }
            if !same_chars(paths[i].as_slice(), path) {
                let ghost w0 = seq![path@] + but(p0, path@, p0.len() as int);
                proof {
                    assert(seq![path@] + but(p1, path@, p1.len() as int) =~= w0.push(paths@[i as int]@));
                }
                if out.len() < KEEP {
                    let l: Vec<char> = put_side_by_side(key, paths[i].as_slice());
                    out.push(l);
                    proof {
                        assert(views(out@) =~= views(before).push(l@));
                        assert(views(out@) =~= closed_first(p1, path@).map_values(ln));
                    }
                } else {
                    proof {
                        assert(w0.push(paths@[i as int]@).take(KEEP as int) =~= closed_first(p0, path@));
                    }
                }
            }
        }
        i = i + 1;
    }
    out
}

proof fn lemma_but_of_more(p: Seq<Seq<char>>, x: Seq<char>, path: Seq<char>, n: int)
    requires
        0 <= n <= p.len(),
    ensures
        but(p.push(x), path, n) == but(p, path, n),
    decreases n,
{
    if n > 0 {
        lemma_but_of_more(p, x, path, n - 1);
        assert(p.push(x)[n - 1] == p[n - 1]);
    }
}

/// A file's window closed: remembered, first and once, in its session.
/// What the file is then.
pub fn note_closed(text: &str, key: &str, path: &str) -> (r: String)
    ensures
        r@ == closed_file(text@, key@, path@),
{
    let (keys, paths) = read_closed(text);
    let k: Vec<char> = chars_of(key);
    let p: Vec<char> = chars_of(path);
    let ghost c = closed_told(text@);
    let ghost ln = |x: Closed| side_by_side(x.0, x.1);
    let mut out: Vec<Vec<char>> = own_lines(&keys, &paths, k.as_slice(), p.as_slice(), Ghost(c));
    let ghost ours = views(out@);
    let mut i: usize = 0;
    proof {
        assert(views(out@) =~= ours + closed_elsewhere(c, key@, 0).map_values(ln));
    }
    while i < keys.len()
        invariant
            i <= keys@.len(),
            k@ == key@,
            ln == (|x: Closed| side_by_side(x.0, x.1)),
            keys@.len() == paths@.len() == c.len(),
            forall|j: int| 0 <= j < keys@.len() ==> #[trigger] c[j] == (keys@[j]@, paths@[j]@),
            views(out@) == ours + closed_elsewhere(c, key@, i as int).map_values(ln),
        decreases keys@.len() - i,
    {
        let ghost before = out@;
        proof {
            assert(c[i as int] == (keys@[i as int]@, paths@[i as int]@));
        }
        if !same_chars(keys[i].as_slice(), k.as_slice()) {
            let l: Vec<char> = put_side_by_side(keys[i].as_slice(), paths[i].as_slice());
            out.push(l);
            proof {
                assert(views(out@) =~= views(before).push(l@));
                assert(views(out@) =~= ours + closed_elsewhere(c, key@, i + 1).map_values(ln));
            }
        }
        i = i + 1;
    }
    write_lines(&out)
}

/// A window's name is that of a file: a whole path, not a directory's,
/// not a window of the program's own (`/+...`), and not a terminal's
/// (`.../-host`).
pub open spec fn of_a_file(name: Seq<char>) -> bool {
    &&& name.len() > 0
    &&& name[0] == '/'
    &&& name.last() != '/'
    &&& !holds(name, "/+"@)
    &&& name[name_start(name, name.len() as int)] != '-'
}

proof fn lemma_name_start(p: Seq<char>, n: int)
    requires
        0 <= n <= p.len(),
    ensures
        0 <= name_start(p, n) <= n,
    decreases n,
{
    if n > 0 {
        lemma_name_start(p, n - 1);
    }
}

/// Whether a window's name is that of a file.
pub fn is_file(name: &str) -> (r: bool)
    ensures
        r == of_a_file(name@),
{
    let c: Vec<char> = chars_of(name);
    if c.len() == 0 || c[0] != '/' || c[c.len() - 1] == '/' {
        return false;
    }
    let n: usize = name_of(c.as_slice());
    proof {
        assert(c@.last() == c@[c@.len() - 1]);
        lemma_name_start(c@, c@.len() - 1);
    }
    !contains(name, "/+") && c[n] != '-'
}

/// The windows of the first `n` that have gone, and were on files.
pub open spec fn gone_files(before: Seq<(WindowId, String)>, now: Seq<WindowId>, n: int) -> Seq<Seq<char>>
    decreases n,
{
    if n <= 0 || n > before.len() {
        Seq::empty()
    } else {
        let (w, name) = before[n - 1];
        if !now.contains(w) && of_a_file(name@) {
            gone_files(before, now, n - 1).push(name@)
        } else {
            gone_files(before, now, n - 1)
        }
    }
}

/// The windows that went since the last look: the files' go on the list,
/// in this order.
pub fn track_closed(before: &Vec<(WindowId, String)>, now: &Vec<WindowId>) -> (r: Vec<String>)
    ensures
        strs(r@) == gone_files(before@, now@, before@.len() as int),
{
    let mut out: Vec<String> = Vec::new();
    let mut i: usize = 0;
    proof {
        assert(strs(out@) =~= Seq::<Seq<char>>::empty());
    }
    while i < before.len()
        invariant
            i <= before@.len(),
            strs(out@) == gone_files(before@, now@, i as int),
        decreases before@.len() - i,
    {
        let mut here = false;
        let mut k: usize = 0;
        while k < now.len()
            invariant
                i < before@.len(),
                k <= now@.len(),
                here == now@.take(k as int).contains(before@[i as int].0),
            decreases now@.len() - k,
        {
            proof {
                assert(now@.take(k + 1) =~= now@.take(k as int).push(now@[k as int]));
                assert(now@.take(k + 1)[k as int] == now@[k as int]);
                assert forall|j: int| 0 <= j < k implies now@.take(k + 1)[j] == now@.take(k as int)[j] by {}
            }
            if now[k] == before[i].0 {
                here = true;
            }
            proof {
                let (w, _) = before@[i as int];
                let fewer = now@.take(k as int);
                let more = now@.take(k + 1);
                if fewer.contains(w) {
                    let j = choose|j: int| 0 <= j < fewer.len() && fewer[j] == w;
                    assert(more[j] == w);
                }
                if more.contains(w) {
                    let j = choose|j: int| 0 <= j < more.len() && more[j] == w;
                    assert(j == k || fewer[j] == w);
                }
            }
            k = k + 1;
        }
        proof {
            assert(now@.take(k as int) =~= now@);
        }
        if !here && is_file(before[i].1.as_str()) {
            let ghost so_far = out@;
            out.push(before[i].1.clone());
            proof {
                assert(strs(out@) =~= strs(so_far).push(before@[i as int].1@));
            }
        }
        i = i + 1;
    }
    out
}

/// An entry as a value.
pub open spec fn entry_seen(e: Entry) -> (Seq<char>, Option<WindowId>, WinKind) {
    (e.name@, e.window, e.kind)
}

/// Entries as values.
pub open spec fn entries_seen(s: Seq<Entry>) -> Seq<(Seq<char>, Option<WindowId>, WinKind)> {
    s.map_values(|e: Entry| entry_seen(e))
}

/// The first `n` open windows that have names.
pub open spec fn named_ones(open: Seq<Entry>, n: int) -> Seq<(Seq<char>, Option<WindowId>, WinKind)>
    decreases n,
{
    if n <= 0 || n > open.len() {
        Seq::empty()
    } else if open[n - 1].name@.len() == 0 {
        named_ones(open, n - 1)
    } else {
        named_ones(open, n - 1).push(entry_seen(open[n - 1]))
    }
}

/// A name is among the entries'.
pub open spec fn has_name(e: Seq<(Seq<char>, Option<WindowId>, WinKind)>, name: Seq<char>) -> bool {
    exists|i: int| 0 <= i < e.len() && (#[trigger] e[i]).0 == name
}

/// The entries, and the first `n` closed files that are not among them.
pub open spec fn with_closed(
    e: Seq<(Seq<char>, Option<WindowId>, WinKind)>,
    closed: Seq<Seq<char>>,
    n: int,
) -> Seq<(Seq<char>, Option<WindowId>, WinKind)>
    decreases n,
{
    if n <= 0 || n > closed.len() {
        e
    } else {
        let before = with_closed(e, closed, n - 1);
        if has_name(before, closed[n - 1]) {
            before
        } else {
            before.push((closed[n - 1], None, WinKind::File))
        }
    }
}

fn is_named(e: &Vec<Entry>, name: &str) -> (r: bool)
    ensures
        r == has_name(entries_seen(e@), name@),
{
    let mut i: usize = 0;
    while i < e.len()
        invariant
            i <= e@.len(),
            forall|j: int| 0 <= j < i ==> (#[trigger] entries_seen(e@)[j]).0 != name@,
        decreases e@.len() - i,
    {
        proof {
            assert(entries_seen(e@)[i as int].0 == e@[i as int].name@);
        }
        if same(e[i].name.as_str(), name) {
            return true;
        }
        i = i + 1;
    }
    false
}

/// The finder's entries as things stand: the open windows that have
/// names, in layout order, then the closed files not open now.
pub fn finder_entries(open: &Vec<Entry>, closed: &Vec<String>) -> (r: Vec<Entry>)
    ensures
        entries_seen(r@) == with_closed(named_ones(open@, open@.len() as int), strs(closed@), closed@.len() as int),
{
    let mut out: Vec<Entry> = Vec::new();
    let mut i: usize = 0;
    proof {
        assert(entries_seen(out@) =~= named_ones(open@, 0));
    }
    while i < open.len()
        invariant
            i <= open@.len(),
            entries_seen(out@) == named_ones(open@, i as int),
        decreases open@.len() - i,
    {
        if !open[i].name.as_str().is_empty() {
            let ghost before = out@;
            let e = open[i].copy();
            out.push(e);
            proof {
                assert(entries_seen(out@) =~= entries_seen(before).push(entry_seen(open@[i as int])));
            }
        }
        i = i + 1;
    }
    let ghost first = entries_seen(out@);
    let mut k: usize = 0;
    while k < closed.len()
        invariant
            k <= closed@.len(),
            entries_seen(out@) == with_closed(first, strs(closed@), k as int),
        decreases closed@.len() - k,
    {
        proof {
            assert(strs(closed@)[k as int] == closed@[k as int]@);
        }
        if !is_named(&out, closed[k].as_str()) {
            let ghost before = out@;
            let e = Entry { name: closed[k].clone(), window: None, kind: WinKind::File };
            out.push(e);
            proof {
                assert(entries_seen(out@) =~= entries_seen(before).push(entry_seen(e)));
            }
        }
        k = k + 1;
    }
    out
}

/// Lines of two sides that are read back as they are written.
pub open spec fn can_be_told(c: Seq<Closed>) -> bool {
    forall|i: int| 0 <= i < c.len() ==> {
        let (a, b) = #[trigger] c[i];
        !a.contains('\t') && one_line(side_by_side(a, b))
    }
}

proof fn lemma_told_back(c: Seq<Closed>)
    requires
        can_be_told(c),
    ensures
        closed_told(written(c.map_values(|x: Closed| side_by_side(x.0, x.1)))) == c,
{
    let l = c.map_values(|x: Closed| side_by_side(x.0, x.1));
    assert forall|i: int| 0 <= i < l.len() implies one_line(#[trigger] l[i]) by {
        let (a, b) = c[i];
        assert(l[i] == side_by_side(a, b));
    }
    law_lines_are_read_back(l);
    assert forall|i: int| 0 <= i < l.len() implies parted(#[trigger] l[i]) == Some(c[i]) by {
        let (a, b) = c[i];
        law_sides_are_read_back(a, b);
    }
    lemma_all_told(l, c, l.len() as int);
    assert(c.take(c.len() as int) =~= c);
}

proof fn lemma_all_told(l: Seq<Seq<char>>, c: Seq<Closed>, n: int)
    requires
        l.len() == c.len(),
        0 <= n <= l.len(),
        forall|i: int| 0 <= i < l.len() ==> parted(#[trigger] l[i]) == Some(c[i]),
    ensures
        closed_in(l, n) == c.take(n),
    decreases n,
{
    if n > 0 {
        lemma_all_told(l, c, n - 1);
        assert(parted(l[n - 1]) == Some(c[n - 1]));
        assert(c.take(n) =~= c.take(n - 1).push(c[n - 1]));
    } else {
        assert(c.take(0) =~= Seq::<Closed>::empty());
    }
}

proof fn lemma_closed_at_both(a: Seq<Closed>, b: Seq<Closed>, key: Seq<char>, n: int)
    requires
        0 <= n <= b.len(),
    ensures
        closed_at(a + b, key, a.len() + n) == closed_at(a, key, a.len() as int) + closed_at(b, key, n),
    decreases n,
{
    if n > 0 {
        lemma_closed_at_both(a, b, key, n - 1);
        assert((a + b)[a.len() + n - 1] == b[n - 1]);
        assert(closed_at(a + b, key, a.len() + n) =~= closed_at(a, key, a.len() as int) + closed_at(b, key, n));
    } else {
        lemma_closed_at_start(a, b, key, a.len() as int);
        assert(closed_at(a, key, a.len() as int) + Seq::<Seq<char>>::empty() =~= closed_at(a, key, a.len() as int));
    }
}

proof fn lemma_closed_at_start(a: Seq<Closed>, b: Seq<Closed>, key: Seq<char>, n: int)
    requires
        0 <= n <= a.len(),
    ensures
        closed_at(a + b, key, n) == closed_at(a, key, n),
    decreases n,
{
    if n > 0 {
        lemma_closed_at_start(a, b, key, n - 1);
        assert((a + b)[n - 1] == a[n - 1]);
    }
}

proof fn lemma_closed_at_one_key(p: Seq<Seq<char>>, key: Seq<char>, other: Seq<char>, n: int)
    requires
        0 <= n <= p.len(),
    ensures
        closed_at(p.map_values(|x: Seq<char>| (key, x)), other, n) == if other == key {
            p.take(n)
        } else {
            Seq::empty()
        },
    decreases n,
{
    if n > 0 {
        lemma_closed_at_one_key(p, key, other, n - 1);
        assert(p.take(n) =~= p.take(n - 1).push(p[n - 1]));
    } else {
        assert(p.take(0) =~= Seq::<Seq<char>>::empty());
    }
}

proof fn lemma_closed_at_elsewhere(c: Seq<Closed>, key: Seq<char>, other: Seq<char>, n: int)
    requires
        0 <= n <= c.len(),
    ensures
        closed_at(closed_elsewhere(c, key, n), other, closed_elsewhere(c, key, n).len() as int) == if other == key {
            Seq::empty()
        } else {
            closed_at(c, other, n)
        },
    decreases n,
{
    if n > 0 {
        lemma_closed_at_elsewhere(c, key, other, n - 1);
        let before = closed_elsewhere(c, key, n - 1);
        if c[n - 1].0 != key {
            assert(before.push(c[n - 1]) =~= before + seq![c[n - 1]]);
            lemma_closed_at_start(before, seq![c[n - 1]], other, before.len() as int);
        }
    }
}

proof fn lemma_but(p: Seq<Seq<char>>, path: Seq<char>, n: int)
    requires
        0 <= n <= p.len(),
    ensures
        forall|i: int| 0 <= i < but(p, path, n).len() ==> #[trigger] but(p, path, n)[i] != path && p.contains(
            but(p, path, n)[i],
        ),
    decreases n,
{
    if n > 0 {
        lemma_but(p, path, n - 1);
        let before = but(p, path, n - 1);
        let all = but(p, path, n);
        assert(p.contains(p[n - 1]));
        assert forall|i: int| 0 <= i < all.len() implies #[trigger] all[i] != path && p.contains(all[i]) by {
            if i < before.len() {
                assert(all[i] == before[i]);
            }
        }
    }
}

/// The last file closed in a session is the first of its own, and there
/// once; there are only so many.
pub proof fn law_the_last_closed_is_first_and_once(p: Seq<Seq<char>>, path: Seq<char>)
    ensures
        closed_first(p, path).len() >= 1,
        closed_first(p, path)[0] == path,
        closed_first(p, path).len() <= KEEP,
        forall|i: int| 1 <= i < closed_first(p, path).len() ==> #[trigger] closed_first(p, path)[i] != path,
{
    lemma_but(p, path, p.len() as int);
    let b = but(p, path, p.len() as int);
    assert forall|i: int| 1 <= i < closed_first(p, path).len() implies #[trigger] closed_first(p, path)[i] != path by {
        assert(closed_first(p, path)[i] == b[i - 1]);
    }
}

/// A session's files closed are read back from the file that was written
/// when one was: that one first; and every other session's are as they
/// were.
pub proof fn law_files_closed_are_read_back(text: Seq<char>, key: Seq<char>, path: Seq<char>, other: Seq<char>)
    requires
        can_be_told(closed_told(text)),
        !key.contains('\t'),
        one_line(side_by_side(key, path)),
    ensures
        ({
            let before = closed_told(text);
            let after = closed_told(closed_file(text, key, path));
            closed_at(after, other, after.len() as int) == if other == key {
                closed_first(closed_at(before, key, before.len() as int), path)
            } else {
                closed_at(before, other, before.len() as int)
            }
        }),
{
    let c = closed_told(text);
    let n = c.len() as int;
    let own = closed_first(closed_at(c, key, n), path);
    let ours = own.map_values(|x: Seq<char>| (key, x));
    let rest = closed_elsewhere(c, key, n);
    let all = ours + rest;
    lemma_closed_at_are_told(c, key, n);
    lemma_elsewhere_are_told(c, key, n);
    lemma_but(closed_at(c, key, n), path, closed_at(c, key, n).len() as int);
    assert forall|i: int| 0 <= i < all.len() implies ({
        let (a, b) = #[trigger] all[i];
        !a.contains('\t') && one_line(side_by_side(a, b))
    }) by {
        if i < ours.len() {
            assert(all[i] == (key, own[i]));
            if i > 0 {
                let b = but(closed_at(c, key, n), path, closed_at(c, key, n).len() as int);
                assert(own[i] == b[i - 1]);
                assert(closed_at(c, key, n).contains(b[i - 1]));
                let j = choose|j: int|
                    0 <= j < closed_at(c, key, n).len() && #[trigger] closed_at(c, key, n)[j] == b[i - 1];
                assert(c.contains((key, closed_at(c, key, n)[j])));
                let m = choose|m: int| 0 <= m < c.len() && c[m] == (key, closed_at(c, key, n)[j]);
                let (x, y) = c[m];
            }
        } else {
            assert(all[i] == rest[i - ours.len()]);
            assert(c.contains(rest[i - ours.len()]));
            let m = choose|m: int| 0 <= m < c.len() && c[m] == all[i];
            let (x, y) = c[m];
        }
    }
    lemma_told_back(all);
    assert(all.map_values(|x: Closed| side_by_side(x.0, x.1)) =~= own.map_values(|p: Seq<char>| side_by_side(key, p))
        + rest.map_values(|x: Closed| side_by_side(x.0, x.1)));
    lemma_closed_at_both(ours, rest, other, rest.len() as int);
    lemma_closed_at_one_key(own, key, other, own.len() as int);
    lemma_closed_at_elsewhere(c, key, other, n);
    assert(own.take(own.len() as int) =~= own);
    assert(own + Seq::<Seq<char>>::empty() =~= own);
    assert(Seq::<Seq<char>>::empty() + closed_at(c, other, n) =~= closed_at(c, other, n));
}

proof fn lemma_closed_at_are_told(c: Seq<Closed>, key: Seq<char>, n: int)
    requires
        0 <= n <= c.len(),
    ensures
        forall|i: int| 0 <= i < closed_at(c, key, n).len() ==> c.contains((key, #[trigger] closed_at(c, key, n)[i])),
    decreases n,
{
    if n > 0 {
        lemma_closed_at_are_told(c, key, n - 1);
        assert(c.contains(c[n - 1]));
        let before = closed_at(c, key, n - 1);
        let all = closed_at(c, key, n);
        assert forall|i: int| 0 <= i < all.len() implies c.contains((key, #[trigger] all[i])) by {
            if i < before.len() {
                assert(all[i] == before[i]);
            } else {
                assert(c[n - 1] == (key, all[i]));
            }
        }
    }
}

proof fn lemma_elsewhere_are_told(c: Seq<Closed>, key: Seq<char>, n: int)
    requires
        0 <= n <= c.len(),
    ensures
        forall|i: int|
            0 <= i < closed_elsewhere(c, key, n).len() ==> c.contains(#[trigger] closed_elsewhere(c, key, n)[i]),
    decreases n,
{
    if n > 0 {
        lemma_elsewhere_are_told(c, key, n - 1);
        assert(c.contains(c[n - 1]));
        let before = closed_elsewhere(c, key, n - 1);
        let all = closed_elsewhere(c, key, n);
        assert forall|i: int| 0 <= i < all.len() implies c.contains(#[trigger] all[i]) by {
            if i < before.len() {
                assert(all[i] == before[i]);
            }
        }
    }
}

/// Those attached lately are the last dozen, in the order that they were
/// attached in but for the one that is again; and what was closed is the last
/// fifty.
pub proof fn law_a_dozen_are_kept_in_order(list: Seq<Url>, u: Url, n: int)
    requires
        0 <= n <= list.len(),
    ensures
        (forall|i: int| 0 <= i < n ==> !(#[trigger] list[i]).is(u)) ==> without(list, u, n) == list.take(n),
        forall|i: int| 0 <= i < n && !(#[trigger] list[i]).is(u) ==> without(list, u, n).contains(list[i]),
        forall|i: int| 0 <= i < without(list, u, n).len() ==> !(#[trigger] without(list, u, n)[i]).is(u),
        list.len() <= 12 ==> kept_lately(list) == list,
        list.len() > 12 ==> kept_lately(list) == list.take(12),
    decreases n,
{
    if n > 0 {
        law_a_dozen_are_kept_in_order(list, u, n - 1);
        let before = without(list, u, n - 1);
        let all = without(list, u, n);
        if forall|i: int| 0 <= i < n ==> !(#[trigger] list[i]).is(u) {
            assert(!list[n - 1].is(u));
            assert(all =~= list.take(n));
        }
        assert forall|i: int| 0 <= i < n && !(#[trigger] list[i]).is(u) implies all.contains(list[i]) by {
            if i < n - 1 {
                assert(before.contains(list[i]));
                let k = choose|k: int| 0 <= k < before.len() && before[k] == list[i];
                assert(all[k] == list[i]);
            } else {
                assert(all[all.len() - 1] == list[i]);
            }
        }
    } else {
        assert(without(list, u, 0) =~= list.take(0));
    }
}

/// A session that took another name has that in its place, and no other has.
pub proof fn law_only_what_was_renamed_has_the_name(u: Url, old_one: Url, new: Url)
    ensures
        u.is(old_one) ==> renamed(u, old_one, new) == new,
        !u.is(old_one) ==> renamed(u, old_one, new) == u,
{
}

/// A file is named by an absolute path that neither ends in a slash nor is a
/// terminal's or a tool's.
pub proof fn law_what_names_a_file(name: Seq<char>)
    ensures
        of_a_file(name) ==> name.len() > 1 && name[0] == '/' && name.last() != '/' && !holds(name, "/+"@),
        of_a_file(name) ==> exists|n: int|
            0 < n < name.len() && name[n - 1] == '/' && #[trigger] name[n] != '-' && name[n] != '/' && forall|k: int|
                n <= k < name.len() ==> #[trigger] name[k] != '/',
{
    if of_a_file(name) {
        crate::fuzzy::law_the_file_name_is_what_follows_the_last_slash(name);
        let n = name_start(name, name.len() as int);
        if n == name.len() {
            assert(name[n - 1] == '/');
        }
        assert(n < name.len());
        assert(name[n] != '/');
        assert(n > 0);
    }
}

/// What closed is what was there, is not now, and is a file.
pub proof fn law_what_closed_is_what_is_gone(before: Seq<(WindowId, String)>, now: Seq<WindowId>, n: int)
    requires
        0 <= n <= before.len(),
    ensures
        forall|i: int|
            0 <= i < n && !now.contains((#[trigger] before[i]).0) && of_a_file(before[i].1@) ==> gone_files(
                before,
                now,
                n,
            ).contains(before[i].1@),
        forall|k: int| 0 <= k < gone_files(before, now, n).len() ==> of_a_file(#[trigger] gone_files(before, now, n)[k]),
        (forall|i: int| 0 <= i < n ==> now.contains((#[trigger] before[i]).0)) ==> gone_files(before, now, n).len() == 0,
    decreases n,
{
    if n > 0 {
        law_what_closed_is_what_is_gone(before, now, n - 1);
        let some = gone_files(before, now, n - 1);
        let all = gone_files(before, now, n);
        assert forall|i: int|
            0 <= i < n && !now.contains((#[trigger] before[i]).0) && of_a_file(before[i].1@) implies all.contains(
            before[i].1@,
        ) by {
            if i < n - 1 {
                assert(some.contains(before[i].1@));
                let k = choose|k: int| 0 <= k < some.len() && some[k] == before[i].1@;
                assert(all[k] == before[i].1@);
            } else {
                assert(all[all.len() - 1] == before[i].1@);
            }
        }
        assert forall|k: int| 0 <= k < all.len() implies of_a_file(#[trigger] all[k]) by {
            if k < some.len() {
                assert(all[k] == some[k]);
            }
        }
        if forall|i: int| 0 <= i < n ==> now.contains((#[trigger] before[i]).0) {
            assert(now.contains(before[n - 1].0));
        }
    }
}

} // verus!
