//! The pool at work: links that land, sessions parked and taken, tabs let
//! go, and the order a walk through the tabs goes in.

use vstd::prelude::*;
use vstd::string::*;

use crate::ids::TabId;
use crate::pool::{each_apart, tab_at, with_state, with_url, Parked, Pool, Seen, Stage, State, Why, CAP};
use crate::session::{SessionUrl, Url};
use crate::text::{chars_of, has_at, stands_at};

verus! {

/// The place of a tab among those parked, from `i` on; the end where it
/// is not.
pub open spec fn parked_at(p: Seq<Parked>, id: TabId, i: int) -> int
    decreases p.len() - i,
{
    if 0 <= i < p.len() && p[i].tab != id {
        parked_at(p, id, i + 1)
    } else {
        i
    }
}

/// The sessions parked without a tab's.
pub open spec fn unparked(p: Seq<Parked>, id: TabId) -> Seq<Parked> {
    let i = parked_at(p, id, 0);
    if i < p.len() {
        p.remove(i)
    } else {
        p
    }
}

/// A tab has a session parked.
pub open spec fn has_parked(p: Seq<Parked>, id: TabId) -> bool {
    parked_at(p, id, 0) < p.len()
}

/// The first `n` tabs without one.
pub open spec fn others(s: Seq<TabId>, id: TabId, n: int) -> Seq<TabId>
    decreases n,
{
    if n <= 0 || n > s.len() {
        Seq::empty()
    } else if s[n - 1] == id {
        others(s, id, n - 1)
    } else {
        others(s, id, n - 1).push(s[n - 1])
    }
}

fn leave_out(s: &Vec<TabId>, id: TabId) -> (r: Vec<TabId>)
    ensures
        r@ == others(s@, id, s@.len() as int),
{
    let mut out: Vec<TabId> = Vec::new();
    let mut i: usize = 0;
    while i < s.len()
        invariant
            i <= s@.len(),
            out@ == others(s@, id, i as int),
        decreases s@.len() - i,
    {
        if s[i] != id {
            out.push(s[i]);
        }
        i = i + 1;
    }
    out
}

/// The tabs without one.
pub open spec fn without_tab(t: Seq<Seen>, id: TabId) -> Seq<Seen> {
    let i = tab_at(t, id, 0);
    if i < t.len() {
        t.remove(i)
    } else {
        t
    }
}

proof fn lemma_unparked(p: Seq<Parked>, id: TabId)
    requires
        each_apart(p),
    ensures
        each_apart(unparked(p, id)),
        !has_parked(unparked(p, id), id),
        unparked(p, id).len() <= p.len(),
        has_parked(p, id) ==> unparked(p, id).len() == p.len() - 1,
        forall|i: int| 0 <= i < unparked(p, id).len() ==> p.contains(#[trigger] unparked(p, id)[i]) && unparked(
            p,
            id,
        )[i].tab != id,
{
    let i = parked_at(p, id, 0);
    lemma_parked_at(p, id, 0);
    let u = unparked(p, id);
    lemma_parked_at(u, id, 0);
    if i < p.len() {
        assert forall|a: int, b: int| 0 <= a < b < u.len() implies (#[trigger] u[a]).tab != (#[trigger] u[b]).tab by {
            let x = if a < i {
                a
            } else {
                a + 1
            };
            let y = if b < i {
                b
            } else {
                b + 1
            };
            assert(u[a] == p[x] && u[b] == p[y]);
        }
        assert forall|a: int| 0 <= a < u.len() implies p.contains(#[trigger] u[a]) && u[a].tab != id by {
            let x = if a < i {
                a
            } else {
                a + 1
            };
            assert(u[a] == p[x]);
            if a < i {
                assert(p[x].tab != p[i].tab);
            } else {
                assert(p[i].tab != p[x].tab);
            }
        }
    } else {
        assert forall|a: int| 0 <= a < u.len() implies p.contains(#[trigger] u[a]) && u[a].tab != id by {}
    }
}

proof fn lemma_parked_at(p: Seq<Parked>, id: TabId, i: int)
    requires
        0 <= i <= p.len(),
    ensures
        i <= parked_at(p, id, i) <= p.len(),
        parked_at(p, id, i) < p.len() ==> p[parked_at(p, id, i)].tab == id,
        forall|j: int| i <= j < parked_at(p, id, i) ==> (#[trigger] p[j]).tab != id,
    decreases p.len() - i,
{
    if i < p.len() && p[i].tab != id {
        lemma_parked_at(p, id, i + 1);
    }
}

impl Pool {
    fn find_parked(&self, id: TabId) -> (i: usize)
        ensures
            i == parked_at(self.parked@, id, 0),
            i <= self.parked@.len(),
    {
        let mut i: usize = 0;
        while i < self.parked.len()
            invariant
                i <= self.parked@.len(),
                parked_at(self.parked@, id, i as int) == parked_at(self.parked@, id, 0),
            decreases self.parked@.len() - i,
        {
            if self.parked[i].tab == id {
                return i;
            }
            i = i + 1;
        }
        i
    }

    /// A tab's parked session taken, to show it; whether there was one.
    pub fn take(&mut self, id: TabId) -> (had: bool)
        requires
            old(self).wf(),
        ensures
            final(self).wf(),
            had == has_parked(old(self).parked@, id),
            final(self).parked@ == unparked(old(self).parked@, id),
            *final(self) == (Pool { parked: final(self).parked, ..*old(self) }),
    {
        proof {
            lemma_unparked(self.parked@, id);
        }
        let i: usize = self.find_parked(id);
        if i < self.parked.len() {
            let _ = self.parked.remove(i);
            true
        } else {
            false
        }
    }

    /// A tab let go: its link closes, where it was parked (then true),
    /// and its place in the row goes with it.
    pub fn let_go(&mut self, id: TabId) -> (close: bool)
        requires
            old(self).wf(),
        ensures
            final(self).wf(),
            close == has_parked(old(self).parked@, id),
            final(self).parked@ == unparked(old(self).parked@, id),
            final(self).row() == without_tab(old(self).row(), id),
            final(self).settled@ == others(old(self).settled@, id, old(self).settled@.len() as int),
            final(self).next == old(self).next,
    {
        let close = self.take(id);
        let i: usize = self.find(id);
        let ghost row = self.row();
        if i < self.tabs.len() {
            let _ = self.tabs.remove(i);
            proof {
                assert(self.row() =~= row.remove(i as int));
                lemma_removed(row, i as int, self.next);
            }
        }
        self.settled = leave_out(&self.settled, id);
        close
    }
}

proof fn lemma_removed(row: Seq<Seen>, at: int, next: u64)
    requires
        0 <= at < row.len(),
        forall|i: int| 0 <= i < row.len() ==> {
            let TabId(n) = (#[trigger] row[i]).id;
            n <= next
        },
        forall|i: int, j: int| 0 <= i < j < row.len() ==> (#[trigger] row[i]).id != (#[trigger] row[j]).id,
    ensures
        forall|i: int| 0 <= i < row.remove(at).len() ==> {
            let TabId(n) = (#[trigger] row.remove(at)[i]).id;
            n <= next
        },
        forall|i: int, j: int|
            0 <= i < j < row.remove(at).len() ==> (#[trigger] row.remove(at)[i]).id != (#[trigger] row.remove(at)[j]).id,
{
    let r = row.remove(at);
    assert forall|i: int| 0 <= i < r.len() implies ({
        let TabId(n) = (#[trigger] r[i]).id;
        n <= next
    }) by {
        assert(r[i] == row[if i < at {
            i
        } else {
            i + 1
        }]);
    }
    assert forall|i: int, j: int| 0 <= i < j < r.len() implies (#[trigger] r[i]).id != (#[trigger] r[j]).id by {
        let x = if i < at {
            i
        } else {
            i + 1
        };
        let y = if j < at {
            j
        } else {
            j + 1
        };
        assert(r[i] == row[x] && r[j] == row[y]);
    }
}

/// The tabs settled on once a window has settled on one: that one first.
pub open spec fn settled_on(s: Seq<TabId>, id: TabId) -> Seq<TabId> {
    if s.len() > 0 && s[0] == id {
        s
    } else {
        seq![id] + others(s, id, s.len() as int)
    }
}

impl Pool {
    /// A window has settled on a tab: the most recent of the settled.
    pub fn note_settled(&mut self, id: TabId)
        requires
            old(self).wf(),
        ensures
            final(self).wf(),
            final(self).settled@ == settled_on(old(self).settled@, id),
            *final(self) == (Pool { settled: final(self).settled, ..*old(self) }),
    {
        if self.settled.len() > 0 && self.settled[0] == id {
            return;
        }
        let mut s: Vec<TabId> = leave_out(&self.settled, id);
        let ghost rest = s@;
        s.insert(0, id);
        proof {
            assert(s@ =~= seq![id] + rest);
        }
        self.settled = s;
    }
}

/// How lately a tab was settled on: its place among the settled, the end
/// for one never settled on.
pub open spec fn lately(settled: Seq<TabId>, id: TabId, i: int) -> int
    decreases settled.len() - i,
{
    if 0 <= i < settled.len() && settled[i] != id {
        lately(settled, id, i + 1)
    } else {
        i
    }
}

/// A parked tab comes before another: settled on more recently, or, both
/// never settled on, parked more recently.
pub open spec fn sooner(settled: Seq<TabId>, a: Parked, b: Parked) -> bool {
    let x = lately(settled, a.tab, 0);
    let y = lately(settled, b.tab, 0);
    x < y || (x == y && a.at > b.at)
}

/// Where, from `i` on, a parked tab goes in the order.
pub open spec fn sooner_at(settled: Seq<TabId>, r: Seq<Parked>, p: Parked, i: int) -> int
    decreases r.len() - i,
{
    if 0 <= i < r.len() && !sooner(settled, p, r[i]) {
        sooner_at(settled, r, p, i + 1)
    } else {
        i
    }
}

/// The first `n` parked tabs, the most recently settled on first; ones
/// never settled on after those, the most recently parked first.
pub open spec fn recency(settled: Seq<TabId>, p: Seq<Parked>, n: int) -> Seq<Parked>
    decreases n,
{
    if n <= 0 || n > p.len() {
        Seq::empty()
    } else {
        let before = recency(settled, p, n - 1);
        before.insert(sooner_at(settled, before, p[n - 1], 0), p[n - 1])
    }
}

/// The tabs of what is parked.
pub open spec fn tabs_of(p: Seq<Parked>) -> Seq<TabId> {
    p.map_values(|x: Parked| x.tab)
}

fn how_lately(settled: &Vec<TabId>, id: TabId) -> (i: usize)
    ensures
        i == lately(settled@, id, 0),
        i <= settled@.len(),
{
    let mut i: usize = 0;
    while i < settled.len()
        invariant
            i <= settled@.len(),
            lately(settled@, id, i as int) == lately(settled@, id, 0),
        decreases settled@.len() - i,
    {
        if settled[i] == id {
            return i;
        }
        i = i + 1;
    }
    i
}

fn is_sooner(settled: &Vec<TabId>, a: Parked, b: Parked) -> (r: bool)
    ensures
        r == sooner(settled@, a, b),
{
    let x: usize = how_lately(settled, a.tab);
    let y: usize = how_lately(settled, b.tab);
    x < y || (x == y && a.at > b.at)
}

impl Pool {
    /// The parked tabs, the most recently settled on first.
    pub fn by_recency(&self) -> (r: Vec<TabId>)
        ensures
            r@ == tabs_of(recency(self.settled@, self.parked@, self.parked@.len() as int)),
    {
        let mut out: Vec<Parked> = Vec::new();
        let mut i: usize = 0;
        while i < self.parked.len()
            invariant
                i <= self.parked@.len(),
                out@ == recency(self.settled@, self.parked@, i as int),
            decreases self.parked@.len() - i,
        {
            let ghost before = out@;
            let p = self.parked[i];
            let mut at: usize = 0;
            while at < out.len() && !is_sooner(&self.settled, p, out[at])
                invariant
                    at <= out@.len(),
                    out@ == before,
                    sooner_at(self.settled@, before, p, at as int) == sooner_at(self.settled@, before, p, 0),
                decreases out@.len() - at,
            {
                at = at + 1;
            }
            out.insert(at, p);
            i = i + 1;
        }
        let mut r: Vec<TabId> = Vec::new();
        let mut k: usize = 0;
        while k < out.len()
            invariant
                k <= out@.len(),
                r@.len() == k,
                forall|j: int| 0 <= j < k ==> r@[j] == out@[j].tab,
            decreases out@.len() - k,
        {
            r.push(out[k].tab);
            k = k + 1;
        }
        proof {
            assert(r@ =~= tabs_of(out@));
        }
        r
    }

    /// The tab to switch back to: the first by recency.
    pub fn most_recent(&self) -> (id: Option<TabId>)
        ensures
            ({
                let r = recency(self.settled@, self.parked@, self.parked@.len() as int);
                id == (if r.len() > 0 {
                    Some(r[0].tab)
                } else {
                    None
                })
            }),
    {
        let r: Vec<TabId> = self.by_recency();
        let ghost all = recency(self.settled@, self.parked@, self.parked@.len() as int);
        proof {
            assert(tabs_of(all).len() == all.len());
        }
        if r.len() > 0 {
            proof {
                assert(tabs_of(all)[0] == all[0].tab);
            }
            Some(r[0])
        } else {
            None
        }
    }
}

/// The order holds every parked tab, and none comes after one that it is
/// sooner than.
pub proof fn law_the_order_is_by_recency(settled: Seq<TabId>, p: Seq<Parked>, n: int)
    requires
        0 <= n <= p.len(),
    ensures
        recency(settled, p, n).len() == n,
        forall|i: int, j: int|
            0 <= i < j < n ==> !sooner(settled, #[trigger] recency(settled, p, n)[j], #[trigger] recency(
                settled,
                p,
                n,
            )[i]),
        forall|x: Parked| #[trigger] recency(settled, p, n).contains(x) <==> p.take(n).contains(x),
{
    lemma_in_order(settled, p, n);
    lemma_members(settled, p, n);
}

proof fn lemma_in_order(settled: Seq<TabId>, p: Seq<Parked>, n: int)
    requires
        0 <= n <= p.len(),
    ensures
        recency(settled, p, n).len() == n,
        forall|i: int, j: int|
            0 <= i < j < n ==> !sooner(settled, #[trigger] recency(settled, p, n)[j], #[trigger] recency(
                settled,
                p,
                n,
            )[i]),
    decreases n,
{
    if n > 0 {
        lemma_in_order(settled, p, n - 1);
        let before = recency(settled, p, n - 1);
        let x = p[n - 1];
        let at = sooner_at(settled, before, x, 0);
        lemma_sooner_at(settled, before, x, 0);
        let all = recency(settled, p, n);
        assert forall|i: int, j: int| 0 <= i < j < n implies !sooner(settled, #[trigger] all[j], #[trigger] all[i]) by {
            if j == at {
                assert(all[i] == before[i]);
            } else if i == at {
                assert(all[j] == before[j - 1]);
                if j - 1 > at {
                    assert(!sooner(settled, before[j - 1], before[at]));
                }
            } else {
                let a = if i < at {
                    i
                } else {
                    i - 1
                };
                let b = if j < at {
                    j
                } else {
                    j - 1
                };
                assert(all[i] == before[a] && all[j] == before[b]);
            }
        }
    }
}

proof fn lemma_members(settled: Seq<TabId>, p: Seq<Parked>, n: int)
    requires
        0 <= n <= p.len(),
    ensures
        forall|x: Parked| #[trigger] recency(settled, p, n).contains(x) <==> p.take(n).contains(x),
    decreases n,
{
    let all = recency(settled, p, n);
    let more = p.take(n);
    if n > 0 {
        lemma_members(settled, p, n - 1);
        lemma_in_order(settled, p, n - 1);
        let before = recency(settled, p, n - 1);
        let fewer = p.take(n - 1);
        let x = p[n - 1];
        lemma_sooner_at(settled, before, x, 0);
        assert(more =~= fewer.push(x));
        assert forall|y: Parked| #[trigger] all.contains(y) <==> more.contains(y) by {
            lemma_inserted(before, sooner_at(settled, before, x, 0), x, y);
            lemma_inserted(fewer, fewer.len() as int, x, y);
            assert(more =~= fewer.insert(fewer.len() as int, x));
        }
    }
}

proof fn lemma_inserted(s: Seq<Parked>, at: int, x: Parked, y: Parked)
    requires
        0 <= at <= s.len(),
    ensures
        s.insert(at, x).contains(y) <==> s.contains(y) || y == x,
{
    let all = s.insert(at, x);
    if all.contains(y) && y != x {
        let i = choose|i: int| 0 <= i < all.len() && all[i] == y;
        assert(s[if i < at {
            i
        } else {
            i - 1
        }] == y);
    }
    if s.contains(y) {
        let a = choose|a: int| 0 <= a < s.len() && s[a] == y;
        assert(all[if a < at {
            a
        } else {
            a + 1
        }] == y);
    }
    if y == x {
        assert(all[at] == y);
    }
}

proof fn lemma_sooner_at(settled: Seq<TabId>, r: Seq<Parked>, p: Parked, i: int)
    requires
        0 <= i <= r.len(),
    ensures
        i <= sooner_at(settled, r, p, i) <= r.len(),
        sooner_at(settled, r, p, i) < r.len() ==> sooner(settled, p, r[sooner_at(settled, r, p, i)]),
        forall|j: int| i <= j < sooner_at(settled, r, p, i) ==> !sooner(settled, p, #[trigger] r[j]),
    decreases r.len() - i,
{
    if i < r.len() && !sooner(settled, p, r[i]) {
        lemma_sooner_at(settled, r, p, i + 1);
    }
}

/// Settling on one tab and then on another, the next walk goes back to
/// the one left: it is the first of the parked tabs.
pub proof fn law_the_walk_goes_back_to_the_tab_left(settled: Seq<TabId>, p: Seq<Parked>, left: TabId, here: TabId, k: int)
    requires
        left != here,
        0 <= k < p.len(),
        p[k].tab == left,
        forall|i: int| 0 <= i < p.len() ==> (#[trigger] p[i]).tab != here,
    ensures
        ({
            let s = settled_on(settled_on(settled, left), here);
            let r = recency(s, p, p.len() as int);
            r.len() > 0 && r[0].tab == left
        }),
{
    let s1 = settled_on(settled, left);
    let s = settled_on(s1, here);
    assert(s1[0] == left);
    assert(s[0] == here);
    lemma_others_first(s1, here, s1.len() as int);
    assert(s[1] == left);
    let r = recency(s, p, p.len() as int);
    law_the_order_is_by_recency(s, p, p.len() as int);
    assert(p.take(p.len() as int) =~= p);
    assert(p.contains(p[k]));
    assert(r.contains(p[k]));
    let j = choose|j: int| 0 <= j < r.len() && r[j] == p[k];
    assert(r.contains(r[0]));
    assert(p.contains(r[0]));
    let m = choose|m: int| 0 <= m < p.len() && p[m] == r[0];
    assert(p[m].tab != here);
    reveal_with_fuel(lately, 3);
    assert(lately(s, left, 0) == 1);
    if r[0].tab != left {
        lemma_lately(s, r[0].tab, 2);
        assert(lately(s, r[0].tab, 0) >= 2);
        assert(j > 0);
        assert(sooner(s, r[j], r[0]));
    }
}

proof fn lemma_lately(s: Seq<TabId>, id: TabId, i: int)
    requires
        0 <= i <= s.len(),
    ensures
        lately(s, id, i) >= i,
    decreases s.len() - i,
{
    if i < s.len() && s[i] != id {
        lemma_lately(s, id, i + 1);
    }
}

proof fn lemma_others_first(s: Seq<TabId>, id: TabId, n: int)
    requires
        0 < n <= s.len(),
        s[0] != id,
    ensures
        others(s, id, n).len() > 0,
        others(s, id, n)[0] == s[0],
    decreases n,
{
    if n > 1 {
        lemma_others_first(s, id, n - 1);
    } else {
        assert(others(s, id, 0).len() == 0);
    }
}

/// The place of the session parked longest ago, of the first `n`.
pub open spec fn oldest(p: Seq<Parked>, n: int) -> int
    decreases n,
{
    if n <= 1 || n > p.len() {
        0
    } else {
        let b = oldest(p, n - 1);
        if p[n - 1].at < p[b].at {
            n - 1
        } else {
            b
        }
    }
}

/// Why a tab has no link when there were too many.
pub open spec fn enough() -> Seq<char> {
    "let go: 8 sessions are as many as stay attached"@
}

/// What parking a tab's session came to: it was refused, for the window
/// shows the tab already; an older link of the same tab was replaced;
/// and a tab whose session was let go.  The links that close are to be
/// closed.
#[derive(Clone, Copy, Debug, PartialEq, Eq, Structural)]
pub struct Parking {
    pub refused: bool,
    pub replaced: bool,
    pub gone: Option<TabId>,
}

/// What is parked once a tab's session is, before any is let go.
pub open spec fn with_parked(p: Seq<Parked>, id: TabId, at: u64) -> Seq<Parked> {
    unparked(p, id).push(Parked { tab: id, at })
}

impl Pool {
    /// A tab's session parked at a time.  The same tab parked twice: the
    /// older link leaves.  With too many parked, the one parked longest
    /// ago is let go; its tab stays, with no link under it.
    pub fn park(&mut self, id: TabId, at: u64, shown: bool) -> (r: Parking)
        requires
            old(self).wf(),
        ensures
            final(self).wf(),
            r.refused == shown,
            shown ==> *final(self) == *old(self) && !r.replaced && r.gone is None,
            !shown ==> {
                let all = with_parked(old(self).parked@, id, at);
                let up = with_state(old(self).row(), id, Stage::Up);
                let o = oldest(all, all.len() as int);
                &&& r.replaced == has_parked(old(self).parked@, id)
                &&& all.len() <= CAP ==> r.gone is None && final(self).parked@ == all && final(self).row() == up
                &&& all.len() > CAP ==> r.gone == Some(all[o].tab) && final(self).parked@ == all.remove(o)
                    && final(self).row() == with_state(up, all[o].tab, Stage::Down(enough()))
                &&& final(self).settled == old(self).settled && final(self).next == old(self).next
            },
    {
        if shown {
            return Parking { refused: true, replaced: false, gone: None };
        }
        proof {
            lemma_unparked(self.parked@, id);
        }
        let replaced = self.take(id);
        let ghost rest = self.parked@;
        self.parked.push(Parked { tab: id, at });
        self.set_up(id);
        let ghost all = self.parked@;
        proof {
            assert(each_apart(all)) by {
                assert forall|a: int, b: int| 0 <= a < b < all.len() implies (#[trigger] all[a]).tab != (
                #[trigger] all[b]).tab by {
                    if b == rest.len() {
                        assert(all[a] == rest[a]);
                    }
                }
            }
        }
        if self.parked.len() <= CAP {
            return Parking { refused: false, replaced, gone: None };
        }
        let mut o: usize = 0;
        let mut i: usize = 1;
        while i < self.parked.len()
            invariant
                1 <= i <= self.parked@.len(),
                self.parked@ == all,
                o == oldest(all, i as int),
                o < i,
            decreases self.parked@.len() - i,
        {
            if self.parked[i].at < self.parked[o].at {
                o = i;
            }
            i = i + 1;
        }
        let gone = self.parked[o].tab;
        let _ = self.parked.remove(o);
        proof {
            lemma_apart_without(all, o as int);
        }
        self.set(gone, State::Down("let go: 8 sessions are as many as stay attached".to_owned()));
        Parking { refused: false, replaced, gone: Some(gone) }
    }

    fn set_up(&mut self, id: TabId)
        requires
            forall|i: int| 0 <= i < old(self).row().len() ==> {
                let TabId(n) = (#[trigger] old(self).row()[i]).id;
                n <= old(self).next
            },
            forall|i: int, j: int|
                0 <= i < j < old(self).row().len() ==> (#[trigger] old(self).row()[i]).id != (
                #[trigger] old(self).row()[j]).id,
        ensures
            final(self).row() == with_state(old(self).row(), id, Stage::Up),
            *final(self) == (Pool { tabs: final(self).tabs, ..*old(self) }),
            forall|i: int| 0 <= i < final(self).row().len() ==> {
                let TabId(n) = (#[trigger] final(self).row()[i]).id;
                n <= final(self).next
            },
            forall|i: int, j: int|
                0 <= i < j < final(self).row().len() ==> (#[trigger] final(self).row()[i]).id != (
                #[trigger] final(self).row()[j]).id,
    {
        let i: usize = self.find(id);
        if i < self.tabs.len() {
            let ghost row = self.row();
            let t = crate::pool::Tab { id, url: self.tabs[i].url.copy(), state: State::Up };
            proof {
                assert(row[i as int] == self.tabs@[i as int]@);
            }
            self.tabs.set(i, t);
            proof {
                assert(self.row() =~= row.update(i as int, t@));
            }
        }
    }
}

proof fn lemma_apart_without(p: Seq<Parked>, o: int)
    requires
        0 <= o < p.len(),
        each_apart(p),
    ensures
        each_apart(p.remove(o)),
{
    let r = p.remove(o);
    assert forall|a: int, b: int| 0 <= a < b < r.len() implies (#[trigger] r[a]).tab != (#[trigger] r[b]).tab by {
        let x = if a < o {
            a
        } else {
            a + 1
        };
        let y = if b < o {
            b
        } else {
            b + 1
        };
        assert(r[a] == p[x] && r[b] == p[y]);
    }
}

/// The session let go when there are too many is none that was parked
/// after another.
pub proof fn law_the_oldest_goes_first(p: Seq<Parked>, i: int)
    requires
        0 <= i < p.len(),
    ensures
        p[oldest(p, p.len() as int)].at <= p[i].at,
{
    lemma_oldest(p, p.len() as int, i);
}

proof fn lemma_oldest(p: Seq<Parked>, n: int, i: int)
    requires
        0 <= i < n <= p.len(),
    ensures
        0 <= oldest(p, n) < n,
        p[oldest(p, n)].at <= p[i].at,
    decreases n,
{
    if n > 1 {
        if i < n - 1 {
            lemma_oldest(p, n - 1, i);
        } else {
            lemma_oldest(p, n - 1, 0);
        }
    }
}

impl Pool {
    /// A tab brought up: it says so until its link lands.  Where to
    /// attach; nothing for a tab that is not there, or is already coming
    /// up, which is left to come.
    pub fn start(&mut self, id: TabId, why: Why) -> (u: Option<SessionUrl>)
        requires
            old(self).wf(),
        ensures
            final(self).wf(),
            ({
                let i = tab_at(old(self).row(), id, 0);
                let goes = i < old(self).row().len() && !(old(self).row()[i].state is Coming);
                &&& u is Some == goes
                &&& goes ==> u->0@ == old(self).row()[i].url && final(self).row() == with_state(
                    old(self).row(),
                    id,
                    Stage::Coming(why),
                )
                &&& !goes ==> *final(self) == *old(self)
                &&& *final(self) == (Pool { tabs: final(self).tabs, ..*old(self) })
            }),
    {
        let i: usize = self.find(id);
        if i >= self.tabs.len() {
            return None;
        }
        proof {
            assert(self.row()[i as int] == self.tabs@[i as int]@);
        }
        if let State::Coming(_) = &self.tabs[i].state {
            return None;
        }
        let u = self.tabs[i].url.copy();
        self.set(id, State::Coming(why));
        Some(u)
    }
}

/// What to do with a link that has come, or has not.
#[derive(Clone, Copy, Debug, PartialEq, Eq, Structural)]
pub enum Landed {
    /// The tab was closed while its link was being made: the link, if
    /// one came, goes with it.
    Closed,
    /// The window waits on this tab: it takes the link.
    Show,
    /// No window waits on it: the link is parked.
    Park,
    /// It did not come, and a window waits: it is told why.
    Tell,
    /// It did not come, and the session is not there any more: the tab
    /// went with it.  True for a link under it that is to be closed.
    Gone(bool),
    /// It did not come: the tab keeps its place, saying why.
    Down,
}

/// Why a link did not come says that the session is gone.
pub open spec fn says_gone(why: Seq<char>) -> bool {
    stands_at(why, 0, "no session"@)
}

impl Pool {
    /// A tab's link has come, with what session answered, or has not.
    pub fn landed(&mut self, id: TabId, r: Result<SessionUrl, String>, waiting: bool) -> (l: Landed)
        requires
            old(self).wf(),
        ensures
            final(self).wf(),
            ({
                let there = tab_at(old(self).row(), id, 0) < old(self).row().len();
                &&& !there ==> l == Landed::Closed && *final(self) == *old(self)
                &&& there ==> match r {
                    Ok(said) => {
                        &&& l == (if waiting {
                            Landed::Show
                        } else {
                            Landed::Park
                        })
                        &&& final(self).row() == with_state(with_url(old(self).row(), id, said@), id, Stage::Up)
                        &&& *final(self) == (Pool { tabs: final(self).tabs, ..*old(self) })
                    },
                    Err(why) => if !waiting && says_gone(why@) {
                        &&& l == Landed::Gone(has_parked(old(self).parked@, id))
                        &&& final(self).row() == without_tab(old(self).row(), id)
                        &&& final(self).parked@ == unparked(old(self).parked@, id)
                        &&& final(self).settled@ == others(old(self).settled@, id, old(self).settled@.len() as int)
                        &&& final(self).next == old(self).next
                    } else {
                        &&& l == (if waiting {
                            Landed::Tell
                        } else {
                            Landed::Down
                        })
                        &&& final(self).row() == with_state(old(self).row(), id, Stage::Down(why@))
                        &&& *final(self) == (Pool { tabs: final(self).tabs, ..*old(self) })
                    },
                }
            }),
    {
        let i: usize = self.find(id);
        if i >= self.tabs.len() {
            return Landed::Closed;
        }
        match r {
            Ok(said) => {
                let _ = self.named(id, &said);
                self.set(id, State::Up);
                if waiting {
                    Landed::Show
                } else {
                    Landed::Park
                }
            },
            Err(why) => {
                if waiting {
                    self.set(id, State::Down(why));
                    return Landed::Tell;
                }
                let w: Vec<char> = chars_of(why.as_str());
                if has_at(w.as_slice(), 0, "no session") {
                    Landed::Gone(self.let_go(id))
                } else {
                    self.set(id, State::Down(why));
                    Landed::Down
                }
            },
        }
    }

    /// A parked session goes by another label now: the tab says it.
    pub fn relabel(&mut self, id: TabId, label: &str)
        requires
            old(self).wf(),
        ensures
            final(self).wf(),
            *final(self) == (Pool { tabs: final(self).tabs, ..*old(self) }),
            ({
                let i = tab_at(old(self).row(), id, 0);
                final(self).row() == (if label@.len() > 0 && i < old(self).row().len() {
                    with_url(old(self).row(), id, Url { session: label@, ..old(self).row()[i].url })
                } else {
                    old(self).row()
                })
            }),
    {
        if label.is_empty() {
            return;
        }
        let i: usize = self.find(id);
        if i < self.tabs.len() {
            proof {
                assert(self.row()[i as int] == self.tabs@[i as int]@);
            }
            let u = self.tabs[i].url.with_session(label);
            let _ = self.named(id, &u);
        }
    }

    /// A parked session's link has ended: it is let go, and its tab keeps
    /// its place, to attach again when it is shown.
    pub fn link_ended(&mut self, id: TabId) -> (had: bool)
        requires
            old(self).wf(),
        ensures
            final(self).wf(),
            had == has_parked(old(self).parked@, id),
            final(self).parked@ == unparked(old(self).parked@, id),
            final(self).row() == (if had {
                with_state(old(self).row(), id, Stage::Down("the link ended"@))
            } else {
                old(self).row()
            }),
            final(self).settled == old(self).settled && final(self).next == old(self).next,
    {
        let had = self.take(id);
        if had {
            self.set(id, State::Down("the link ended".to_owned()));
        }
        had
    }

    /// The app is quitting: nothing is parked any more.  The tabs whose
    /// links are to be closed.
    pub fn close_all(&mut self) -> (r: Vec<TabId>)
        requires
            old(self).wf(),
        ensures
            final(self).wf(),
            r@ == tabs_of(old(self).parked@),
            final(self).parked@.len() == 0,
            *final(self) == (Pool { parked: final(self).parked, ..*old(self) }),
    {
        let mut r: Vec<TabId> = Vec::new();
        let mut k: usize = 0;
        while k < self.parked.len()
            invariant
                *self == *old(self),
                k <= self.parked@.len(),
                r@.len() == k,
                forall|j: int| 0 <= j < k ==> r@[j] == self.parked@[j].tab,
            decreases self.parked@.len() - k,
        {
            r.push(self.parked[k].tab);
            k = k + 1;
        }
        proof {
            assert(r@ =~= tabs_of(self.parked@));
        }
        self.parked = Vec::new();
        r
    }
}

/// The first `n` tabs that no window shows.
pub open spec fn not_shown(t: Seq<Seen>, shown: Seq<TabId>, n: int) -> Seq<TabId>
    decreases n,
{
    if n <= 0 || n > t.len() {
        Seq::empty()
    } else if shown.contains(t[n - 1].id) {
        not_shown(t, shown, n - 1)
    } else {
        not_shown(t, shown, n - 1).push(t[n - 1].id)
    }
}

fn has_tab(s: &Vec<TabId>, id: TabId) -> (r: bool)
    ensures
        r == s@.contains(id),
{
    let mut i: usize = 0;
    while i < s.len()
        invariant
            i <= s@.len(),
            forall|j: int| 0 <= j < i ==> s@[j] != id,
        decreases s@.len() - i,
    {
        if s[i] == id {
            return true;
        }
        i = i + 1;
    }
    false
}

impl Pool {
    /// The tabs of last time that are to be attached again: all but those
    /// a window already holds, which are the window's own to attach.
    pub fn restore(&self, shown: &Vec<TabId>) -> (r: Vec<TabId>)
        ensures
            r@ == not_shown(self.row(), shown@, self.row().len() as int),
    {
        let mut out: Vec<TabId> = Vec::new();
        let mut i: usize = 0;
        while i < self.tabs.len()
            invariant
                i <= self.tabs@.len(),
                out@ == not_shown(self.row(), shown@, i as int),
            decreases self.tabs@.len() - i,
        {
            proof {
                assert(self.row()[i as int] == self.tabs@[i as int]@);
            }
            if !has_tab(shown, self.tabs[i].id) {
                out.push(self.tabs[i].id);
            }
            i = i + 1;
        }
        out
    }
}

/// What is parked is found by its tab and taken out, and the rest stay in their
/// order.
pub proof fn law_only_the_tab_named_is_unparked(p: Seq<Parked>, id: TabId)
    requires
        each_apart(p),
    ensures
        has_parked(p, id) <==> exists|i: int| 0 <= i < p.len() && (#[trigger] p[i]).tab == id,
        !has_parked(p, id) ==> unparked(p, id) == p,
        has_parked(p, id) ==> unparked(p, id).len() == p.len() - 1,
        !has_parked(unparked(p, id), id),
        forall|i: int| 0 <= i < p.len() && (#[trigger] p[i]).tab != id ==> unparked(p, id).contains(p[i]),
{
    lemma_found_parked(p, id, 0);
    let k = parked_at(p, id, 0);
    let r = unparked(p, id);
    lemma_found_parked(r, id, 0);
    if k < p.len() {
        assert(p[k].tab == id);
        let m = parked_at(r, id, 0);
        if m < r.len() {
            let o = if m < k {
                m
            } else {
                m + 1
            };
            assert(r[m] == p[o]);
            if o < k {
                assert(p[o].tab != p[k].tab);
            } else {
                assert(p[k].tab != p[o].tab);
            }
        }
    }
    assert forall|i: int| 0 <= i < p.len() && (#[trigger] p[i]).tab != id implies r.contains(p[i]) by {
        if k < p.len() {
            if i < k {
                assert(r[i] == p[i]);
            } else {
                assert(r[i - 1] == p[i]);
            }
        } else {
            assert(r[i] == p[i]);
        }
    }
}

proof fn lemma_found_parked(p: Seq<Parked>, id: TabId, i: int)
    requires
        0 <= i <= p.len(),
    ensures
        i <= parked_at(p, id, i) <= p.len(),
        forall|j: int| i <= j < parked_at(p, id, i) ==> (#[trigger] p[j]).tab != id,
        parked_at(p, id, i) < p.len() ==> p[parked_at(p, id, i)].tab == id,
    decreases p.len() - i,
{
    if i < p.len() && p[i].tab != id {
        lemma_found_parked(p, id, i + 1);
    }
}

proof fn lemma_without(s: Seq<TabId>, id: TabId, n: int)
    requires
        0 <= n <= s.len(),
    ensures
        !others(s, id, n).contains(id),
        forall|i: int| 0 <= i < n && #[trigger] s[i] != id ==> others(s, id, n).contains(s[i]),
        (forall|i: int| 0 <= i < n ==> #[trigger] s[i] != id) ==> others(s, id, n) == s.take(n),
    decreases n,
{
    let all = others(s, id, n);
    if n > 0 {
        lemma_without(s, id, n - 1);
        let before = others(s, id, n - 1);
        if all.contains(id) {
            let k = choose|k: int| 0 <= k < all.len() && all[k] == id;
            if k < before.len() {
                assert(before[k] == id);
            }
        }
        assert forall|i: int| 0 <= i < n && #[trigger] s[i] != id implies all.contains(s[i]) by {
            if i < n - 1 {
                assert(before.contains(s[i]));
                let k = choose|k: int| 0 <= k < before.len() && before[k] == s[i];
                assert(all[k] == s[i]);
            } else {
                assert(all[all.len() - 1] == s[i]);
            }
        }
        if forall|i: int| 0 <= i < n ==> #[trigger] s[i] != id {
            assert(s[n - 1] != id);
            assert(all =~= s.take(n));
        }
    } else {
        assert(all =~= s.take(0));
    }
}

/// The tab settled on last is first and once, and the others follow as they
/// were.
pub proof fn law_the_last_settled_on_is_first(s: Seq<TabId>, id: TabId)
    requires
        s.no_duplicates(),
    ensures
        settled_on(s, id).len() > 0 && settled_on(s, id)[0] == id,
        forall|i: int| 0 < i < settled_on(s, id).len() ==> #[trigger] settled_on(s, id)[i] != id,
        forall|i: int| 0 <= i < s.len() ==> settled_on(s, id).contains(#[trigger] s[i]),
        !s.contains(id) ==> settled_on(s, id) == seq![id] + s,
        settled_on(settled_on(s, id), id) == settled_on(s, id),
{
    lemma_without(s, id, s.len() as int);
    let r = settled_on(s, id);
    let rest = others(s, id, s.len() as int);
    assert(s.take(s.len() as int) =~= s);
    if s.len() > 0 && s[0] == id {
        assert(r == s);
        assert forall|i: int| 0 < i < r.len() implies #[trigger] r[i] != id by {
            assert(s[i] != s[0]);
        }
        assert forall|i: int| 0 <= i < s.len() implies r.contains(#[trigger] s[i]) by {
            assert(r[i] == s[i]);
        }
        if !s.contains(id) {
            assert(s[0] == id);
        }
    } else {
        assert forall|i: int| 0 < i < r.len() implies #[trigger] r[i] != id by {
            assert(r[i] == rest[i - 1]);
        }
        assert forall|i: int| 0 <= i < s.len() implies r.contains(#[trigger] s[i]) by {
            if s[i] == id {
                assert(r[0] == s[i]);
            } else {
                assert(rest.contains(s[i]));
                let k = choose|k: int| 0 <= k < rest.len() && rest[k] == s[i];
                assert(r[k + 1] == s[i]);
            }
        }
        if !s.contains(id) {
            assert forall|i: int| 0 <= i < s.len() implies #[trigger] s[i] != id by {}
        }
    }
}

/// A session that is let go for room is told why, and one is gone where the
/// reason starts so.
pub proof fn law_what_says_that_a_session_is_gone(why: Seq<char>, rest: Seq<char>)
    ensures
        says_gone("no session"@ + rest),
        says_gone(why) ==> why.len() >= 10 && why[0] == 'n' && why[1] == 'o' && why[2] == ' ',
{
    reveal_strlit("no session");
    let t = "no session"@ + rest;
    assert(t.subrange(0, 10) =~= "no session"@);
    if says_gone(why) {
        let s = why.subrange(0, 10);
        assert(s[0] == why[0] && s[1] == why[1] && s[2] == why[2]);
    }
}

/// The tabs that no window shows are those of the row that are not shown, in
/// its order.
pub proof fn law_what_no_window_shows(t: Seq<Seen>, shown: Seq<TabId>, n: int)
    requires
        0 <= n <= t.len(),
    ensures
        forall|i: int|
            0 <= i < n && !shown.contains((#[trigger] t[i]).id) ==> not_shown(t, shown, n).contains(t[i].id),
        forall|k: int| 0 <= k < not_shown(t, shown, n).len() ==> !shown.contains(#[trigger] not_shown(t, shown, n)[k]),
        not_shown(t, shown, n).len() <= n,
        shown.len() == 0 ==> not_shown(t, shown, n).len() == n,
    decreases n,
{
    if n > 0 {
        law_what_no_window_shows(t, shown, n - 1);
        let before = not_shown(t, shown, n - 1);
        let all = not_shown(t, shown, n);
        assert forall|i: int| 0 <= i < n && !shown.contains((#[trigger] t[i]).id) implies all.contains(t[i].id) by {
            if i < n - 1 {
                assert(before.contains(t[i].id));
                let k = choose|k: int| 0 <= k < before.len() && before[k] == t[i].id;
                assert(all[k] == t[i].id);
            } else {
                assert(all[all.len() - 1] == t[i].id);
            }
        }
        assert forall|k: int| 0 <= k < all.len() implies !shown.contains(#[trigger] all[k]) by {
            if k < before.len() {
                assert(all[k] == before[k]);
            }
        }
    }
}

} // verus!
