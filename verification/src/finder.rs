//! Go to anything: every open window of the session (files, directories,
//! terminals, win, +Errors) and the files closed lately (the last fifty,
//! each once, kept per session on this machine), ranked the way Zed's
//! file finder ranks: with nothing typed, what is open in layout order;
//! with a query, a fuzzy score over the whole path that likes the file
//! name best, matches at word starts and after `/` next, runs of
//! consecutive matches, and pays for gaps and for the wrong case; open
//! windows before closed files at equal scores.  A path that matches
//! nothing can still be opened as typed.

use vstd::prelude::*;
use vstd::string::*;

use crate::field::{Edited, LineEdit};
use crate::fixed::floor_mod;
use crate::fuzzy::{score, scored, Score};
use crate::ids::WindowId;
use crate::keys::Modifiers;
use crate::text::{chars_of, same, slice_of, string_of, trim, trimmed};

verus! {

/// How many closed files a session remembers.
pub const KEEP: usize = 50;

/// What a window shows.
#[derive(Clone, Copy, Debug, PartialEq, Eq, Structural)]
pub enum WinKind {
    File,
    Dir,
    Term,
    Errors,
    Web,
}

/// Something to go to.
#[derive(Debug)]
pub struct Entry {
    /// The window's name (a file's path, `dir/`, `dir/-host`, `dir/+Errors`).
    pub name: String,
    /// The window, when one is open on it.
    pub window: Option<WindowId>,
    pub kind: WinKind,
}

/// The finder: what is typed, where the cursor is, and what there is to
/// go to: open windows in layout order, then closed files by recency.
pub struct Finder {
    pub filter: LineEdit,
    pub cursor: usize,
    pub entries: Vec<Entry>,
}

/// One is the same as the other.
pub open spec fn same_entry(a: Entry, b: Entry) -> bool {
    a.name@ == b.name@ && a.window == b.window && a.kind == b.kind
}

impl Entry {
    /// The same entry.
    pub fn copy(&self) -> (e: Entry)
        ensures
            same_entry(e, *self),
    {
        Entry { name: self.name.clone(), window: self.window, kind: self.kind }
    }
}

/// Entry `a` comes before entry `b` for a query: best first; open before
/// closed; then the order they had.
pub open spec fn ahead(q: Seq<char>, entries: Seq<Entry>, a: int, b: int) -> bool {
    let sa = scored(q, entries[a].name@)->0;
    let sb = scored(q, entries[b].name@)->0;
    sa > sb || sa == sb && (entries[a].window is Some && entries[b].window is None || entries[a].window is Some
        == entries[b].window is Some && a < b)
}

/// Entry `i` is shown for a query: with nothing typed, when a window is
/// open on it; else when it matches.
pub open spec fn offered(q: Seq<char>, entries: Seq<Entry>, i: int) -> bool {
    if q.len() == 0 {
        entries[i].window is Some
    } else {
        scored(q, entries[i].name@) is Some
    }
}

/// `order` is how the entries are shown: those that are, each once, and
/// ranked.
pub open spec fn ranked(q: Seq<char>, entries: Seq<Entry>, order: Seq<int>) -> bool {
    &&& forall|k: int| 0 <= k < order.len() ==> 0 <= #[trigger] order[k] < entries.len() && offered(q, entries, order[k])
    &&& forall|i: int| 0 <= i < entries.len() && offered(q, entries, i) ==> order.contains(i)
    &&& forall|j: int, k: int|
        0 <= j < k < order.len() ==> precedes(q, entries, #[trigger] order[j], #[trigger] order[k])
}

/// Entry `a` is shown before entry `b`: in their own order with nothing
/// typed, else by how well they match.
pub open spec fn precedes(q: Seq<char>, entries: Seq<Entry>, a: int, b: int) -> bool {
    if q.len() == 0 {
        a < b
    } else {
        ahead(q, entries, a, b)
    }
}

/// There is one ranking.
pub proof fn law_one_ranking(q: Seq<char>, entries: Seq<Entry>, a: Seq<int>, b: Seq<int>)
    requires
        ranked(q, entries, a),
        ranked(q, entries, b),
    ensures
        a == b,
    decreases a.len(),
{
    lemma_rankings_agree(q, entries, a, b, 0);
    lemma_rankings_agree(q, entries, b, a, 0);
    if a.len() < b.len() {
        assert(offered(q, entries, b[a.len() as int]));
        assert(a.contains(b[a.len() as int]));
        let k = choose|k: int| 0 <= k < a.len() && a[k] == b[a.len() as int];
        assert(a[k] == b[k]);
        lemma_in_order(q, entries, b, k, a.len() as int);
    }
    if b.len() < a.len() {
        assert(offered(q, entries, a[b.len() as int]));
        assert(b.contains(a[b.len() as int]));
        let k = choose|k: int| 0 <= k < b.len() && b[k] == a[b.len() as int];
        assert(a[k] == b[k]);
        lemma_in_order(q, entries, a, k, b.len() as int);
    }
    assert(a =~= b);
}

/// Of two entries that what is typed matches, the better match is shown
/// first; of two that match alike, one that is open before one that is
/// closed.
pub proof fn law_the_better_match_is_first(q: Seq<char>, entries: Seq<Entry>, order: Seq<int>, i: int, j: int)
    requires
        ranked(q, entries, order),
        q.len() > 0,
        0 <= i < entries.len() && offered(q, entries, i),
        0 <= j < entries.len() && offered(q, entries, j),
        ({
            let (a, b) = (scored(q, entries[i].name@)->0, scored(q, entries[j].name@)->0);
            a > b || a == b && entries[i].window is Some && entries[j].window is None
        }),
    ensures
        exists|a: int, b: int| 0 <= a < b < order.len() && #[trigger] order[a] == i && #[trigger] order[b] == j,
{
    assert(order.contains(i) && order.contains(j));
    let a = choose|a: int| 0 <= a < order.len() && order[a] == i;
    let b = choose|b: int| 0 <= b < order.len() && order[b] == j;
    if b <= a {
        lemma_in_order(q, entries, order, b, a);
    }
    assert(order[a] == i && order[b] == j);
}

proof fn lemma_in_order(q: Seq<char>, entries: Seq<Entry>, order: Seq<int>, j: int, k: int)
    requires
        ranked(q, entries, order),
        0 <= j <= k < order.len(),
    ensures
        j < k ==> order[j] != order[k],
        j < k && q.len() == 0 ==> order[j] < order[k],
        j < k && q.len() > 0 ==> ahead(q, entries, order[j], order[k]),
{
}

proof fn lemma_rankings_agree(q: Seq<char>, entries: Seq<Entry>, a: Seq<int>, b: Seq<int>, n: int)
    requires
        ranked(q, entries, a),
        ranked(q, entries, b),
        0 <= n,
        forall|k: int| 0 <= k < n && k < a.len() && k < b.len() ==> a[k] == b[k],
    ensures
        forall|k: int| 0 <= k < a.len() && k < b.len() ==> a[k] == b[k],
    decreases a.len() - n,
{
    if n < a.len() && n < b.len() {
        let x = a[n];
        let y = b[n];
        if x != y {
            assert(offered(q, entries, x) && offered(q, entries, y));
            assert(b.contains(x) && a.contains(y));
            let i = choose|i: int| 0 <= i < b.len() && b[i] == x;
            let j = choose|j: int| 0 <= j < a.len() && a[j] == y;
            if i < n {
                assert(a[i] == b[i]);
                assert(a[i] == a[n]);
            }
            if j < n {
                assert(a[j] == b[j]);
                assert(b[j] == b[n]);
            }
            if i >= n && j >= n {
                lemma_in_order(q, entries, b, n, i);
                lemma_in_order(q, entries, a, n, j);
            } else if i < n {
                lemma_in_order(q, entries, a, i, n);
            } else {
                lemma_in_order(q, entries, b, j, n);
            }
        }
        lemma_rankings_agree(q, entries, a, b, n + 1);
    }
}

/// Whole numbers of a list of indices.
pub open spec fn indices(v: Seq<usize>) -> Seq<int> {
    v.map_values(|x: usize| x as int)
}

/// An entry with its score.
struct Scored {
    points: Score,
    open: bool,
    at: usize,
}

impl Scored {
    spec fn of(self, q: Seq<char>, entries: Seq<Entry>) -> bool {
        &&& self.at < entries.len()
        &&& scored(q, entries[self.at as int].name@) == Some(self.points@)
        &&& self.open == entries[self.at as int].window is Some
    }
}

/// The entries that match a query, ranked.
fn rank(q: &str, entries: &Vec<Entry>) -> (r: Vec<usize>)
    requires
        q@.len() > 0,
    ensures
        ranked(q@, entries@, indices(r@)),
{
    let mut found: Vec<Scored> = Vec::new();
    let mut i: usize = 0;
    while i < entries.len()
        invariant
            i <= entries@.len(),
            q@.len() > 0,
            forall|k: int| 0 <= k < found@.len() ==> (#[trigger] found@[k]).of(q@, entries@) && found@[k].at < i,
            forall|e: int|
                0 <= e < i && offered(q@, entries@, e) ==> exists|k: int|
                    0 <= k < found@.len() && (#[trigger] found@[k]).at == e,
            forall|j: int, k: int|
                0 <= j < k < found@.len() ==> ahead(
                    q@,
                    entries@,
                    (#[trigger] found@[j]).at as int,
                    (#[trigger] found@[k]).at as int,
                ),
        decreases entries@.len() - i,
    {
        match score(q, entries[i].name.as_str()) {
            Some(points) => {
                let new = Scored { points, open: entries[i].window.is_some(), at: i };
                let ghost before = found@;
                let mut k: usize = found.len();
                while k > 0 && (new.points.over(&found[k - 1].points) || !found[k - 1].points.over(&new.points) && (new.open
                    && !found[k - 1].open))
                    invariant
                        k <= found@.len(),
                        found@ == before,
                        new.of(q@, entries@),
                        new.at == i,
                        forall|j: int|
                            0 <= j < found@.len() ==> (#[trigger] found@[j]).of(q@, entries@) && found@[j].at < i,
                        forall|j: int|
                            k <= j < found@.len() ==> ahead(q@, entries@, i as int, (#[trigger] found@[j]).at as int),
                    decreases k,
                {
                    proof {
                        assert(found@[k - 1].of(q@, entries@));
                    }
                    k = k - 1;
                }
                proof {
                    assert forall|j: int| 0 <= j < k implies ahead(
                        q@,
                        entries@,
                        (#[trigger] before[j]).at as int,
                        i as int,
                    ) by {
                        assert(before[k - 1].of(q@, entries@));
                        assert(before[j].of(q@, entries@));
                        if j < k - 1 {
                            assert(ahead(q@, entries@, before[j].at as int, before[k - 1].at as int));
                        }
                    }
                }
                found.insert(k, new);
                proof {
                    assert forall|e: int| 0 <= e < i + 1 && offered(q@, entries@, e) implies exists|j: int|
                        0 <= j < found@.len() && (#[trigger] found@[j]).at == e by {
                        if e == i {
                            assert(found@[k as int].at == e);
                        } else {
                            let j = choose|j: int| 0 <= j < before.len() && (#[trigger] before[j]).at == e;
                            if j < k {
                                assert(found@[j] == before[j]);
                            } else {
                                assert(found@[j + 1] == before[j]);
                            }
                        }
                    }
                    assert forall|a: int, b: int| 0 <= a < b < found@.len() implies ahead(
                        q@,
                        entries@,
                        (#[trigger] found@[a]).at as int,
                        (#[trigger] found@[b]).at as int,
                    ) by {
                        if a < k && b < k {
                            assert(ahead(q@, entries@, before[a].at as int, before[b].at as int));
                        } else if a < k && b == k {
                            assert(ahead(q@, entries@, before[a].at as int, i as int));
                        } else if a < k {
                            assert(ahead(q@, entries@, before[a].at as int, before[b - 1].at as int));
                        } else if a == k {
                            assert(ahead(q@, entries@, i as int, before[b - 1].at as int));
                        } else {
                            assert(ahead(q@, entries@, before[a - 1].at as int, before[b - 1].at as int));
                        }
                    }
                    assert forall|j: int| 0 <= j < found@.len() implies (#[trigger] found@[j]).of(q@, entries@)
                        && found@[j].at < i + 1 by {
                        if j < k {
                            assert(found@[j] == before[j]);
                        } else if j > k {
                            assert(found@[j] == before[j - 1]);
                        }
                    }
                }
            },
            None => {},
        }
        i = i + 1;
    }
    let mut out: Vec<usize> = Vec::new();
    let mut k: usize = 0;
    while k < found.len()
        invariant
            k <= found@.len(),
            out@.len() == k,
            forall|j: int| 0 <= j < k ==> (#[trigger] out@[j]) == found@[j].at,
        decreases found@.len() - k,
    {
        out.push(found[k].at);
        k = k + 1;
    }
    proof {
        let order = indices(out@);
        assert forall|j: int| 0 <= j < order.len() implies 0 <= #[trigger] order[j] < entries@.len() && offered(
            q@,
            entries@,
            order[j],
        ) by {
            assert(found@[j].of(q@, entries@));
        }
        assert forall|e: int| 0 <= e < entries@.len() && offered(q@, entries@, e) implies order.contains(e) by {
            let j = choose|j: int| 0 <= j < found@.len() && (#[trigger] found@[j]).at == e;
            assert(order[j] == e);
        }
        assert forall|a: int, b: int| 0 <= a < b < order.len() implies ahead(q@, entries@, order[a], order[b]) by {
            assert(ahead(q@, entries@, found@[a].at as int, found@[b].at as int));
        }
    }
    out
}

/// The entries with a window open on them, in their order.
fn open_ones(q: &str, entries: &Vec<Entry>) -> (r: Vec<usize>)
    requires
        q@.len() == 0,
    ensures
        ranked(q@, entries@, indices(r@)),
{
    let mut out: Vec<usize> = Vec::new();
    let mut i: usize = 0;
    while i < entries.len()
        invariant
            i <= entries@.len(),
            q@.len() == 0,
            forall|k: int| 0 <= k < out@.len() ==> (#[trigger] out@[k]) < i && entries@[out@[k] as int].window is Some,
            forall|j: int, k: int| 0 <= j < k < out@.len() ==> out@[j] < out@[k],
            forall|e: int|
                0 <= e < i && entries@[e].window is Some ==> exists|k: int|
                    0 <= k < out@.len() && #[trigger] out@[k] == e,
        decreases entries@.len() - i,
    {
        if entries[i].window.is_some() {
            let ghost before = out@;
            out.push(i);
            proof {
                assert forall|e: int| 0 <= e < i + 1 && entries@[e].window is Some implies exists|k: int|
                    0 <= k < out@.len() && #[trigger] out@[k] == e by {
                    if e == i {
                        assert(out@[before.len() as int] == e);
                    } else {
                        let k = choose|k: int| 0 <= k < before.len() && #[trigger] before[k] == e;
                        assert(out@[k] == e);
                    }
                }
            }
        }
        i = i + 1;
    }
    proof {
        let order = indices(out@);
        assert forall|j: int| 0 <= j < order.len() implies 0 <= #[trigger] order[j] < entries@.len() && offered(
            q@,
            entries@,
            order[j],
        ) by {
            assert(out@[j] < i);
        }
        assert forall|e: int| 0 <= e < entries@.len() && offered(q@, entries@, e) implies order.contains(e) by {
            let k = choose|k: int| 0 <= k < out@.len() && #[trigger] out@[k] == e;
            assert(order[k] == e);
        }
    }
    out
}

impl Finder {
    /// The field is one that can be typed in.
    pub open spec fn wf(&self) -> bool {
        self.filter.wf()
    }

    /// What is looked for.
    pub open spec fn query(&self) -> Seq<char> {
        trimmed(self.filter@.text)
    }

    /// What is typed, without the white space round it.
    fn typed_path(&self) -> (q: String)
        ensures
            q@ == self.query(),
    {
        let typed: Vec<char> = chars_of(self.filter.as_str());
        string_of(trim(typed.as_slice()).as_slice())
    }

    /// The indices of what the list shows for the query, ranked.
    pub fn order(&self) -> (r: Vec<usize>)
        requires
            self.wf(),
        ensures
            ranked(self.query(), self.entries@, indices(r@)),
    {
        let q: String = self.typed_path();
        if q.as_str().is_empty() {
            open_ones(q.as_str(), &self.entries)
        } else {
            rank(q.as_str(), &self.entries)
        }
    }

    /// What the list shows for the query, ranked. With nothing typed,
    /// the open windows alone: the files closed lately are there to be
    /// found by name, not to be scrolled through.
    pub fn picks(&self) -> (r: Vec<Entry>)
        requires
            self.wf(),
        ensures
            exists|order: Seq<int>|
                ranked(self.query(), self.entries@, order) && r@.len() == order.len() && forall|k: int|
                    0 <= k < order.len() ==> same_entry(#[trigger] r@[k], self.entries@[order[k]]),
    {
        let order: Vec<usize> = self.order();
        let mut out: Vec<Entry> = Vec::new();
        let mut k: usize = 0;
        let ghost all = indices(order@);
        while k < order.len()
            invariant
                k <= order@.len(),
                all == indices(order@),
                ranked(self.query(), self.entries@, all),
                out@.len() == k,
                forall|j: int| 0 <= j < k ==> same_entry(#[trigger] out@[j], self.entries@[all[j]]),
            decreases order@.len() - k,
        {
            proof {
                assert(0 <= all[k as int] < self.entries@.len());
            }
            out.push(self.entries[order[k]].copy());
            k = k + 1;
        }
        out
    }

    /// The cursor moved by so many, round the ends; it stays where it is
    /// when there is nothing to move among.
    pub fn move_cursor(&mut self, by: i32)
        requires
            old(self).wf(),
        ensures
            final(self).filter == old(self).filter,
            final(self).entries == old(self).entries,
            exists|order: Seq<int>|
                ranked(old(self).query(), old(self).entries@, order) && final(self).cursor == (if order.len() == 0 {
                    old(self).cursor as int
                } else {
                    (old(self).cursor + by) % (order.len() as int)
                }),
    {
        let order: Vec<usize> = self.order();
        let n: usize = order.len();
        if n > 0 {
            let to: i128 = self.cursor as i128 + by as i128;
            self.cursor = floor_mod(to, n as i128) as usize;
        }
        proof {
            let all = indices(order@);
            assert(ranked(old(self).query(), old(self).entries@, all));
            assert(all.len() == n);
            assert(n > 0 ==> self.cursor == (old(self).cursor + by) % (n as int));
        }
    }
}

/// What a key does while the finder is open.
#[derive(Debug)]
pub enum FinderAct {
    Close,
    /// Close, and go to an entry.
    Pick(usize),
    /// Close, and open a path as it was typed.
    Open(String),
    Redraw,
    Nothing,
}

/// A [`FinderAct`] as a value.
pub enum Step {
    Close,
    Pick(int),
    Open(Seq<char>),
    Redraw,
    Nothing,
}

impl View for FinderAct {
    type V = Step;

    open spec fn view(&self) -> Step {
        match self {
            FinderAct::Close => Step::Close,
            FinderAct::Pick(i) => Step::Pick(*i as int),
            FinderAct::Open(path) => Step::Open(path@),
            FinderAct::Redraw => Step::Redraw,
            FinderAct::Nothing => Step::Nothing,
        }
    }
}

impl Step {
    /// The finder is closed by it.
    pub open spec fn closing(self) -> bool {
        self is Close || self is Pick || self is Open
    }
}

impl FinderAct {
    /// Whether the finder is closed by it.
    pub fn closes(&self) -> (r: bool)
        ensures
            r == self@.closing(),
    {
        match self {
            FinderAct::Close | FinderAct::Pick(_) | FinderAct::Open(_) => true,
            FinderAct::Redraw | FinderAct::Nothing => false,
        }
    }
}

/// What is gone to, with the cursor at a place of what is shown: the entry
/// there; or what is typed, where something is and nothing matches it.
pub open spec fn gone_to(q: Seq<char>, order: Seq<int>, cursor: int) -> Step {
    if cursor < order.len() {
        Step::Pick(order[cursor])
    } else if order.len() == 0 && q.len() > 0 {
        Step::Open(q)
    } else {
        Step::Nothing
    }
}

/// What a key that neither closes, nor picks, nor moves does: it is the
/// field's, and a change of what is typed puts the cursor at the top.
pub open spec fn typed(e: Edited, cursor: usize) -> (usize, Step) {
    match e {
        Edited::Changed => (0, Step::Redraw),
        Edited::Moved => (cursor, Step::Redraw),
        Edited::No => (cursor, Step::Nothing),
    }
}

/// A path that matches nothing can still be opened as typed: where
/// something is typed and no entry matches it, that is what is gone to.
pub proof fn law_what_matches_nothing_is_opened_as_typed(
    q: Seq<char>,
    entries: Seq<Entry>,
    order: Seq<int>,
    cursor: int,
)
    requires
        ranked(q, entries, order),
        q.len() > 0,
        0 <= cursor,
        forall|i: int| 0 <= i < entries.len() ==> #[trigger] scored(q, entries[i].name@) is None,
    ensures
        gone_to(q, order, cursor) == Step::Open(q),
        gone_to(q, order, cursor).closing(),
{
    if order.len() > 0 {
        assert(offered(q, entries, order[0]));
    }
}

/// A key that leaves what is typed alone: it closes, goes or moves.
pub open spec fn own_key(key: Seq<char>) -> bool {
    key == "escape"@ || key == "enter"@ || key == "up"@ || key == "down"@
}

impl Finder {
    /// Keys while the finder is open.
    pub fn finder_key(&mut self, key: &str, ch: Option<&str>, mods: &Modifiers) -> (a: FinderAct)
        requires
            old(self).wf(),
        ensures
            final(self).wf(),
            final(self).entries == old(self).entries,
            own_key(key@) ==> final(self).filter == old(self).filter,
            key@ == "escape"@ ==> a@ == Step::Close && final(self).cursor == old(self).cursor,
            key@ != "escape"@ && key@ == "enter"@ ==> final(self).cursor == old(self).cursor && exists|order: Seq<int>|
                ranked(old(self).query(), old(self).entries@, order) && a@ == gone_to(
                    old(self).query(),
                    order,
                    old(self).cursor as int,
                ),
            key@ != "escape"@ && key@ != "enter"@ && (key@ == "up"@ || key@ == "down"@) ==> a@ == Step::Redraw
                && exists|order: Seq<int>|
                ranked(old(self).query(), old(self).entries@, order) && final(self).cursor == (if order.len() == 0 {
                    old(self).cursor as int
                } else {
                    (old(self).cursor + if key@ == "up"@ {
                        -1int
                    } else {
                        1int
                    }) % (order.len() as int)
                }),
            !own_key(key@) ==> ({
                let (line, e) = old(self).filter@.keyed(
                    key@,
                    match ch {
                        Some(c) => Some(c@),
                        None => None,
                    },
                    *mods,
                );
                final(self).filter@ == line && (final(self).cursor, a@) == typed(e, old(self).cursor)
            }),
    {
        if same(key, "escape") {
            FinderAct::Close
        } else if same(key, "enter") {
            let order: Vec<usize> = self.order();
            let ghost all = indices(order@);
            proof {
                assert(ranked(old(self).query(), old(self).entries@, all));
                assert(all.len() == order@.len());
                assert(gone_to(old(self).query(), all, old(self).cursor as int) == if old(self).cursor < all.len() {
                    Step::Pick(order@[old(self).cursor as int] as int)
                } else if all.len() == 0 && old(self).query().len() > 0 {
                    Step::Open(old(self).query())
                } else {
                    Step::Nothing
                });
            }
            if self.cursor < order.len() {
                FinderAct::Pick(order[self.cursor])
            } else if order.len() == 0 {
                let q: String = self.typed_path();
                if q.as_str().is_empty() {
                    FinderAct::Nothing
                } else {
                    FinderAct::Open(q)
                }
            } else {
                FinderAct::Nothing
            }
        } else if same(key, "up") {
            self.move_cursor(-1);
            FinderAct::Redraw
        } else if same(key, "down") {
            proof {
                reveal_strlit("up");
                reveal_strlit("down");
                assert("up"@.len() != "down"@.len());
            }
            self.move_cursor(1);
            FinderAct::Redraw
        } else {
            match self.filter.key(key, ch, mods) {
                Edited::Changed => {
                    self.cursor = 0;
                    FinderAct::Redraw
                },
                Edited::Moved => FinderAct::Redraw,
                Edited::No => FinderAct::Nothing,
            }
        }
    }
}

/// A path as its directory, with the slash, and its name; all of it is
/// the name when there is no slash or nothing after the last.
pub open spec fn dir_and_name(path: Seq<char>) -> (Seq<char>, Seq<char>) {
    let n = crate::fuzzy::name_start(path, path.len() as int);
    if n < path.len() {
        (path.take(n), path.skip(n))
    } else {
        (Seq::empty(), path)
    }
}

/// The mark before an entry: a terminal's, an open window's, a closed
/// file's; and its colour.
pub open spec fn mark_of(e: Entry) -> (Seq<char>, u32) {
    if e.window is None {
        ("\u{25cb}"@, 0x8a8a8a)
    } else if e.kind == WinKind::Term {
        ("\u{25b6}"@, 0x990099)
    } else {
        ("\u{25cf}"@, 0x000099)
    }
}

/// A path as its directory and its name.
pub fn split_name(path: &str) -> (r: (String, String))
    ensures
        (r.0@, r.1@) == dir_and_name(path@),
{
    let p: Vec<char> = chars_of(path);
    let n: usize = crate::fuzzy::name_of(p.as_slice());
    if n < p.len() {
        let dir: Vec<char> = slice_of(p.as_slice(), 0, n);
        let name: Vec<char> = slice_of(p.as_slice(), n, p.len());
        proof {
            assert(dir@ =~= path@.take(n as int));
            assert(name@ =~= path@.skip(n as int));
        }
        (string_of(dir.as_slice()), string_of(name.as_slice()))
    } else {
        (String::new(), path.to_owned())
    }
}

/// The mark before an entry, and its colour.
pub fn mark(e: &Entry) -> (r: (&'static str, u32))
    ensures
        (r.0@, r.1) == mark_of(*e),
{
    if e.window.is_none() {
        ("\u{25cb}", 0x8a8a8a)
    } else if e.kind == WinKind::Term {
        ("\u{25b6}", 0x990099)
    } else {
        ("\u{25cf}", 0x000099)
    }
}

/// How many of what is found are shown.
pub const SHOWN: usize = 24;

/// A row of the finder's panel.
pub struct Found {
    pub mark: &'static str,
    pub mark_color: u32,
    pub name: String,
    pub dir: String,
    /// Its window is open.
    pub open: bool,
    /// The cursor is on it.
    pub picked: bool,
}

/// A row of the finder's panel as a value.
pub open spec fn found_seen(f: Found) -> (Seq<char>, u32, Seq<char>, Seq<char>, bool, bool) {
    (f.mark@, f.mark_color, f.name@, f.dir@, f.open, f.picked)
}

/// A row of the finder's panel, for what is picked at a place.
pub open spec fn found_row(e: Entry, i: int, cursor: int) -> (Seq<char>, u32, Seq<char>, Seq<char>, bool, bool) {
    let (dir, name) = dir_and_name(e.name@);
    let (mark, color) = mark_of(e);
    (mark, color, name, dir, e.window is Some, i == cursor)
}

/// The rows of the finder's panel: the first of what is picked.
pub fn finder_panel(picks: &Vec<Entry>, cursor: usize) -> (r: Vec<Found>)
    ensures
        r@.len() == (if picks@.len() < SHOWN {
            picks@.len()
        } else {
            SHOWN as nat
        }),
        forall|i: int|
            0 <= i < r@.len() ==> found_seen(#[trigger] r@[i]) == found_row(picks@[i], i, cursor as int),
{
    let mut out: Vec<Found> = Vec::new();
    let mut i: usize = 0;
    while i < picks.len() && i < SHOWN
        invariant
            i <= picks@.len(),
            i <= SHOWN,
            out@.len() == i,
            forall|j: int|
                0 <= j < i ==> found_seen(#[trigger] out@[j]) == found_row(picks@[j], j, cursor as int),
        decreases picks@.len() - i,
    {
        let e: &Entry = &picks[i];
        let (dir, name) = split_name(e.name.as_str());
        let (m, color) = mark(e);
        out.push(Found { mark: m, mark_color: color, name, dir, open: e.window.is_some(), picked: i == cursor });
        i = i + 1;
    }
    out
}

/// A path is its directory and its name put together; the name is not empty
/// unless the path is, and has no slash unless it ends in one.
pub proof fn law_a_path_is_its_directory_and_name(path: Seq<char>)
    ensures
        ({
            let (dir, name) = dir_and_name(path);
            &&& dir + name == path
            &&& dir.len() > 0 ==> dir.last() == '/'
            &&& path.len() > 0 ==> name.len() > 0
            &&& path.len() > 0 && path.last() != '/' ==> !name.contains('/')
            &&& path.len() > 0 && path.last() == '/' ==> dir.len() == 0
        }),
{
    crate::fuzzy::law_the_file_name_is_what_follows_the_last_slash(path);
    let n = crate::fuzzy::name_start(path, path.len() as int);
    let (dir, name) = dir_and_name(path);
    assert(dir + name =~= path);
}

/// An entry's mark tells a closed file from what is open, and a terminal from
/// other windows; nothing else of an entry bears on it.
pub proof fn law_marks_tell_what_is_open(a: Entry, b: Entry)
    ensures
        a.window is Some && b.window is None ==> mark_of(a).0 != mark_of(b).0 && mark_of(a).1 != mark_of(b).1,
        a.window is Some && b.window is Some && a.kind == WinKind::Term && b.kind != WinKind::Term ==> mark_of(a).0
            != mark_of(b).0 && mark_of(a).1 != mark_of(b).1,
        a.window is None && b.window is None ==> mark_of(a) == mark_of(b),
        a.window is None ==> mark_of(a).1 == 0x8a8a8a,
        a.window is Some && a.kind == WinKind::Term ==> mark_of(a).1 == 0x990099 && mark_of(a).0 == seq!['\u{25b6}'],
        a.window is Some && a.kind != WinKind::Term ==> mark_of(a).1 == 0x000099 && mark_of(a).0 == seq!['\u{25cf}'],
        a.window is None ==> mark_of(a).0 == seq!['\u{25cb}'],
{
    reveal_strlit("\u{25cb}");
    reveal_strlit("\u{25b6}");
    reveal_strlit("\u{25cf}");
    assert("\u{25cb}"@ =~= seq!['\u{25cb}']);
    assert("\u{25b6}"@ =~= seq!['\u{25b6}']);
    assert("\u{25cf}"@ =~= seq!['\u{25cf}']);
    assert("\u{25cb}"@[0] == '\u{25cb}' && "\u{25b6}"@[0] == '\u{25b6}' && "\u{25cf}"@[0] == '\u{25cf}');
}

/// A row of the panel is of one entry: its name and directory put together
/// are the entry's, it is open where a window is, and the cursor is on the
/// one row that it counts to.
pub proof fn law_a_row_is_of_its_entry(e: Entry, i: int, cursor: int)
    ensures
        ({
            let (mark, color, name, dir, open, picked) = found_row(e, i, cursor);
            &&& dir + name == e.name@
            &&& open == e.window is Some
            &&& picked == (i == cursor)
            &&& (mark, color) == mark_of(e)
            &&& e.name@.len() > 0 && e.name@.last() != '/' ==> !name.contains('/')
        }),
{
    law_a_path_is_its_directory_and_name(e.name@);
}

/// What the cursor is on is gone to, for every place that it can be at.
pub proof fn law_what_the_cursor_is_on_is_gone_to(q: Seq<char>, order: Seq<int>, cursor: int)
    requires
        0 <= cursor,
    ensures
        cursor < order.len() ==> gone_to(q, order, cursor) == Step::Pick(order[cursor]),
        cursor >= order.len() && order.len() > 0 ==> gone_to(q, order, cursor) == Step::Nothing,
        order.len() == 0 && q.len() == 0 ==> gone_to(q, order, cursor) == Step::Nothing,
{
}

/// The finder shows with nothing typed just what is open, in the order that it
/// had.
pub proof fn law_with_nothing_typed_what_is_open_is_shown(entries: Seq<Entry>, order: Seq<int>, q: Seq<char>)
    requires
        ranked(q, entries, order),
        q.len() == 0,
    ensures
        forall|i: int| 0 <= i < entries.len() ==> (order.contains(i) <==> (#[trigger] entries[i]).window is Some),
        forall|j: int, k: int| 0 <= j < k < order.len() ==> #[trigger] order[j] < #[trigger] order[k],
{
    assert forall|i: int| 0 <= i < entries.len() implies (order.contains(i) <==> (#[trigger] entries[i]).window is Some) by {
        if order.contains(i) {
            let k = choose|k: int| 0 <= k < order.len() && order[k] == i;
            assert(offered(q, entries, order[k]));
        }
        if entries[i].window is Some {
            assert(offered(q, entries, i));
        }
    }
    assert forall|j: int, k: int| 0 <= j < k < order.len() implies #[trigger] order[j] < #[trigger] order[k] by {
        assert(precedes(q, entries, order[j], order[k]));
    }
}

/// What is typed puts the cursor back at the top; a move in the field leaves
/// it, and what the field has no use for changes nothing.
pub proof fn law_typing_puts_the_cursor_at_the_top(cursor: usize)
    ensures
        typed(Edited::Changed, cursor) == (0usize, Step::Redraw),
        typed(Edited::Moved, cursor) == (cursor, Step::Redraw),
        typed(Edited::No, cursor) == (cursor, Step::Nothing),
{
}

} // verus!
