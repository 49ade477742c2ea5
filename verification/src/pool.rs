//! The tabs, and the sessions behind them.
//!
//! A tab is the app's own: it is made when the user makes one, brought
//! back at launch, and goes only when the user closes it.  What it names
//! is a session somewhere, and a session's own identity is not the app's
//! to lean on: the app names its tabs itself ([`TabId`], never changing),
//! and keeps the session's own name beside it.  A session a window
//! switched away from stays attached: parked, under the same tab.

use vstd::prelude::*;
use vstd::string::*;

use crate::ids::TabId;
use crate::session::{SessionUrl, Url};
use crate::text::same;

verus! {

/// How many sessions stay parked; the least recently parked goes first.
/// A tab beyond that keeps its place, with no link under it.
pub const CAP: usize = 8;

/// Why a link is being made.
#[derive(Clone, Copy, Debug, PartialEq, Eq, Structural)]
pub enum Why {
    /// A tab the user has just asked for.
    Attaching,
    /// A tab of last time, coming back at launch.
    Restoring,
}

impl Why {
    /// The word for it on the tab.
    pub open spec fn said(self) -> Seq<char> {
        match self {
            Why::Attaching => "connecting\u{2026}"@,
            Why::Restoring => "restoring\u{2026}"@,
        }
    }

    /// The word for it on the tab.
    pub fn word(self) -> (w: &'static str)
        ensures
            w@ == self.said(),
    {
        match self {
            Why::Attaching => "connecting\u{2026}",
            Why::Restoring => "restoring\u{2026}",
        }
    }

    /// A sentence for the blank page of the tab while it waits, the
    /// session described.
    pub fn sentence(self, described: &str) -> (s: String)
        ensures
            s@ == (match self {
                Why::Attaching => "attaching to "@,
                Why::Restoring => "restoring "@,
            }) + described@ + "\u{2026}"@,
    {
        let mut s: String = match self {
            Why::Attaching => "attaching to ".to_owned(),
            Why::Restoring => "restoring ".to_owned(),
        };
        s.append(described);
        s.append("\u{2026}");
        s
    }
}

/// What a tab is doing, when it is not simply up.
pub enum State {
    /// A link is being made, and why.
    Coming(Why),
    /// Attached: shown in the window, or parked here.
    Up,
    /// No link, and why.
    Down(String),
}

/// A [`State`] as a value.
pub enum Stage {
    Coming(Why),
    Up,
    Down(Seq<char>),
}

impl View for State {
    type V = Stage;

    open spec fn view(&self) -> Stage {
        match self {
            State::Coming(w) => Stage::Coming(*w),
            State::Up => Stage::Up,
            State::Down(why) => Stage::Down(why@),
        }
    }
}

impl State {
    /// The same again.
    pub fn copy(&self) -> (s: State)
        ensures
            s@ == self@,
    {
        match self {
            State::Coming(w) => State::Coming(*w),
            State::Up => State::Up,
            State::Down(why) => State::Down(why.clone()),
        }
    }

    /// The word for it on the tab; nothing for one that is up.
    pub fn word(&self) -> (w: Option<&'static str>)
        ensures
            match w {
                Some(w) => match self@ {
                    Stage::Coming(why) => w@ == why.said(),
                    Stage::Up => false,
                    Stage::Down(_) => w@ == "offline"@,
                },
                None => self@ == Stage::Up,
            },
    {
        match self {
            State::Coming(why) => Some(why.word()),
            State::Up => None,
            State::Down(_) => Some("offline"),
        }
    }
}

/// A tab: the app's handle on a session, where that session is as far as
/// the app knows, and what the link under it is doing.
pub struct Tab {
    pub id: TabId,
    pub url: SessionUrl,
    pub state: State,
}

/// A [`Tab`] as a value.
pub struct Seen {
    pub id: TabId,
    pub url: Url,
    pub state: Stage,
}

impl View for Tab {
    type V = Seen;

    open spec fn view(&self) -> Seen {
        Seen { id: self.id, url: self.url@, state: self.state@ }
    }
}

/// Tabs as values.
pub open spec fn seen(t: Seq<Tab>) -> Seq<Seen> {
    t.map_values(|x: Tab| x@)
}

/// Two urls name one session: the same identity, or -- while either side
/// has none, or holds one the session has left behind -- the same label
/// on the same host.
pub open spec fn one(a: Url, b: Url) -> bool {
    a.is(b) || a.reads_as(b)
}

/// Whether two urls name one session.
pub fn one_session(a: &SessionUrl, b: &SessionUrl) -> (r: bool)
    ensures
        r == one(a@, b@),
{
    a.is(b) || a.reads_as(b)
}

/// A session that is parked: its tab, and when it was parked.
#[derive(Clone, Copy, Debug, PartialEq, Eq, Structural)]
pub struct Parked {
    pub tab: TabId,
    pub at: u64,
}

/// The tabs, and which of them have a session parked.
pub struct Pool {
    /// Every tab the app has, in the order the bar shows them.
    pub tabs: Vec<Tab>,
    /// The sessions attached but not shown.
    pub parked: Vec<Parked>,
    /// The tabs a window has settled on, the most recent first.
    pub settled: Vec<TabId>,
    /// The last id given to a tab.
    pub next: u64,
}

/// The place of a tab, from `i` on; the end where it is not.
pub open spec fn tab_at(t: Seq<Seen>, id: TabId, i: int) -> int
    decreases t.len() - i,
{
    if 0 <= i < t.len() && t[i].id != id {
        tab_at(t, id, i + 1)
    } else {
        i
    }
}

/// The place of the tab that is of this session, from `i` on; the end
/// where there is none.
pub open spec fn tab_for(t: Seq<Seen>, u: Url, i: int) -> int
    decreases t.len() - i,
{
    if 0 <= i < t.len() && !one(t[i].url, u) {
        tab_for(t, u, i + 1)
    } else {
        i
    }
}

/// The tabs with one doing another thing.
pub open spec fn with_state(t: Seq<Seen>, id: TabId, s: Stage) -> Seq<Seen> {
    let i = tab_at(t, id, 0);
    if i < t.len() {
        t.update(i, Seen { state: s, ..t[i] })
    } else {
        t
    }
}

/// The tabs with one holding another session.
pub open spec fn with_url(t: Seq<Seen>, id: TabId, u: Url) -> Seq<Seen> {
    let i = tab_at(t, id, 0);
    if i < t.len() {
        t.update(i, Seen { url: u, ..t[i] })
    } else {
        t
    }
}

/// Each parked session is its tab's own.
pub open spec fn each_apart(p: Seq<Parked>) -> bool {
    forall|i: int, j: int| 0 <= i < j < p.len() ==> (#[trigger] p[i]).tab != (#[trigger] p[j]).tab
}

impl Pool {
    /// The tabs, as values.
    pub open spec fn row(&self) -> Seq<Seen> {
        seen(self.tabs@)
    }

    /// Every tab has an id of its own, none of them still to be given;
    /// each parked session is its tab's own, and only so many are kept.
    pub open spec fn wf(&self) -> bool {
        &&& forall|i: int| 0 <= i < self.row().len() ==> {
            let TabId(n) = (#[trigger] self.row()[i]).id;
            n <= self.next
        }
        &&& forall|i: int, j: int|
            0 <= i < j < self.row().len() ==> (#[trigger] self.row()[i]).id != (#[trigger] self.row()[j]).id
        &&& each_apart(self.parked@)
        &&& self.parked@.len() <= CAP
    }

    pub(crate) fn find(&self, id: TabId) -> (i: usize)
        ensures
            i == tab_at(self.row(), id, 0),
            i <= self.tabs@.len(),
            i < self.tabs@.len() ==> self.tabs@[i as int].id == id,
    {
        let mut i: usize = 0;
        while i < self.tabs.len()
            invariant
                i <= self.tabs@.len(),
                tab_at(self.row(), id, i as int) == tab_at(self.row(), id, 0),
            decreases self.tabs@.len() - i,
        {
            proof {
                assert(self.row()[i as int] == self.tabs@[i as int]@);
            }
            if self.tabs[i].id == id {
                return i;
            }
            i = i + 1;
        }
        i
    }
}

/// The sessions of last time that tabs are made for: those known by
/// identity.
pub open spec fn known_by_id(u: Seq<Url>, n: int) -> Seq<Url>
    decreases n,
{
    if n <= 0 || n > u.len() {
        Seq::empty()
    } else if u[n - 1].id is Some {
        known_by_id(u, n - 1).push(u[n - 1])
    } else {
        known_by_id(u, n - 1)
    }
}

/// A tab with no link under it yet.
pub open spec fn unattached(id: u64, u: Url) -> Seen {
    Seen { id: TabId(id), url: u, state: Stage::Down("not attached"@) }
}

impl Pool {
    /// The pool at launch: the tabs of last time, in their order, with
    /// no link under them.
    pub fn install(last: &Vec<SessionUrl>) -> (p: Pool)
        ensures
            p.wf(),
            ({
                let u = known_by_id(crate::session::urls(last@), last@.len() as int);
                &&& p.row().len() == u.len()
                &&& p.next == u.len()
                &&& forall|i: int| 0 <= i < u.len() ==> #[trigger] p.row()[i] == unattached((i + 1) as u64, u[i])
            }),
            p.parked@.len() == 0,
            p.settled@.len() == 0,
    {
        let mut tabs: Vec<Tab> = Vec::new();
        let mut next: u64 = 0;
        let mut i: usize = 0;
        let ghost all = crate::session::urls(last@);
        while i < last.len()
            invariant
                i <= last@.len(),
                all == crate::session::urls(last@),
                seen(tabs@).len() == known_by_id(all, i as int).len(),
                next == tabs@.len(),
                next <= i,
                forall|j: int|
                    0 <= j < tabs@.len() ==> #[trigger] seen(tabs@)[j] == unattached(
                        (j + 1) as u64,
                        known_by_id(all, i as int)[j],
                    ),
            decreases last@.len() - i,
        {
            let ghost before = tabs@;
            let ghost u0 = known_by_id(all, i as int);
            proof {
                assert(all[i as int] == last@[i as int]@);
            }
            if last[i].id.is_some() {
                next = next + 1;
                tabs.push(
                    Tab {
                        id: TabId(next),
                        url: last[i].copy(),
                        state: State::Down("not attached".to_owned()),
                    },
                );
                proof {
                    let u1 = known_by_id(all, i + 1);
                    assert forall|j: int| 0 <= j < tabs@.len() implies #[trigger] seen(tabs@)[j] == unattached(
                        (j + 1) as u64,
                        u1[j],
                    ) by {
                        if j < before.len() {
                            assert(seen(tabs@)[j] == seen(before)[j]);
                            assert(u1[j] == u0[j]);
                        }
                    }
                }
            }
            i = i + 1;
        }
        Pool { tabs, parked: Vec::new(), settled: Vec::new(), next }
    }

    /// The tab for a session: the one the app already has for it, or a
    /// new one, at the end of the row.  True for a new one: the tabs are
    /// to be saved.
    pub fn open(&mut self, url: &SessionUrl) -> (r: (TabId, bool))
        requires
            old(self).wf(),
            old(self).next < u64::MAX,
        ensures
            final(self).wf(),
            ({
                let (id, new) = r;
                let i = tab_for(old(self).row(), url@, 0);
                if i < old(self).row().len() {
                    !new && id == old(self).row()[i].id && *final(self) == *old(self)
                } else {
                    &&& new
                    &&& id == TabId((old(self).next + 1) as u64)
                    &&& final(self).next == old(self).next + 1
                    &&& final(self).row() == old(self).row().push(unattached((old(self).next + 1) as u64, url@))
                    &&& *final(self) == (Pool { tabs: final(self).tabs, next: final(self).next, ..*old(self) })
                }
            }),
    {
        let mut i: usize = 0;
        while i < self.tabs.len()
            invariant
                *self == *old(self),
                self.wf(),
                i <= self.tabs@.len(),
                tab_for(self.row(), url@, i as int) == tab_for(self.row(), url@, 0),
            decreases self.tabs@.len() - i,
        {
            proof {
                assert(self.row()[i as int] == self.tabs@[i as int]@);
            }
            if one_session(&self.tabs[i].url, url) {
                return (self.tabs[i].id, false);
            }
            i = i + 1;
        }
        let ghost before = self.tabs@;
        self.next = self.next + 1;
        let id = TabId(self.next);
        let t = Tab { id, url: url.copy(), state: State::Down("not attached".to_owned()) };
        self.tabs.push(t);
        proof {
            assert(seen(self.tabs@) =~= seen(before).push(t@));
        }
        (id, true)
    }

    /// What a tab is doing; up, where there is no such tab.
    pub fn state(&self, id: TabId) -> (s: State)
        ensures
            ({
                let i = tab_at(self.row(), id, 0);
                s@ == (if i < self.row().len() {
                    self.row()[i].state
                } else {
                    Stage::Up
                })
            }),
    {
        let i: usize = self.find(id);
        if i < self.tabs.len() {
            proof {
                assert(self.row()[i as int] == self.tabs@[i as int]@);
            }
            self.tabs[i].state.copy()
        } else {
            State::Up
        }
    }

    /// Where a tab's session is, as far as the app knows.
    pub fn url_of(&self, id: TabId) -> (u: Option<&SessionUrl>)
        ensures
            match u {
                Some(u) => tab_at(self.row(), id, 0) < self.row().len() && u@ == self.row()[tab_at(
                    self.row(),
                    id,
                    0,
                )].url,
                None => tab_at(self.row(), id, 0) >= self.row().len(),
            },
    {
        let i: usize = self.find(id);
        if i < self.tabs.len() {
            proof {
                assert(self.row()[i as int] == self.tabs@[i as int]@);
            }
            Some(&self.tabs[i].url)
        } else {
            None
        }
    }

    /// A tab is doing another thing.
    pub fn set(&mut self, id: TabId, s: State)
        requires
            old(self).wf(),
        ensures
            final(self).wf(),
            final(self).row() == with_state(old(self).row(), id, s@),
            *final(self) == (Pool { tabs: final(self).tabs, ..*old(self) }),
    {
        let i: usize = self.find(id);
        if i < self.tabs.len() {
            let ghost before = self.tabs@;
            let ghost row = self.row();
            let t = Tab { id, url: self.tabs[i].url.copy(), state: s };
            self.tabs.set(i, t);
            proof {
                assert(row[i as int] == before[i as int]@);
                assert(seen(self.tabs@) =~= row.update(i as int, t@));
            }
        }
    }

    /// The session a tab holds is this one, as the session itself says.
    /// True when that is news: the tabs are to be saved.
    pub fn named(&mut self, id: TabId, url: &SessionUrl) -> (news: bool)
        requires
            old(self).wf(),
        ensures
            final(self).wf(),
            final(self).row() == with_url(old(self).row(), id, url@),
            *final(self) == (Pool { tabs: final(self).tabs, ..*old(self) }),
            news == ({
                let i = tab_at(old(self).row(), id, 0);
                i < old(self).row().len() && old(self).row()[i].url != url@
            }),
    {
        let i: usize = self.find(id);
        if i >= self.tabs.len() {
            return false;
        }
        let ghost before = self.tabs@;
        let ghost row = self.row();
        proof {
            assert(row[i as int] == before[i as int]@);
        }
        let ids = match (&self.tabs[i].url.id, &url.id) {
            (Some(a), Some(b)) => *a == *b,
            (None, None) => true,
            _ => false,
        };
        if self.tabs[i].url.reads_as(url) && ids {
            proof {
                assert(row[i as int].url =~= url@);
                assert(row.update(i as int, Seen { url: url@, ..row[i as int] }) =~= row);
            }
            return false;
        }
        let mut t = Tab { id, url: url.copy(), state: State::Up };
        self.swap_state(i, &mut t);
        let ghost now = t@;
        self.tabs.set(i, t);
        proof {
            assert(seen(self.tabs@) =~= row.update(i as int, now));
        }
        true
    }

    /// The state of the tab at a place, copied to another.
    fn swap_state(&self, i: usize, t: &mut Tab)
        requires
            i < self.tabs@.len(),
        ensures
            final(t)@ == (Seen { state: self.tabs@[i as int].state@, ..old(t)@ }),
    {
        t.state = match &self.tabs[i].state {
            State::Coming(w) => State::Coming(*w),
            State::Up => State::Up,
            State::Down(why) => State::Down(why.clone()),
        };
    }

    /// A window is showing a tab, attached: its session is what the
    /// window says it is, and the tab is up.
    pub fn note_open(&mut self, id: TabId, url: &SessionUrl) -> (news: bool)
        requires
            old(self).wf(),
        ensures
            final(self).wf(),
            final(self).row() == with_state(with_url(old(self).row(), id, url@), id, Stage::Up),
            *final(self) == (Pool { tabs: final(self).tabs, ..*old(self) }),
            news == ({
                let i = tab_at(old(self).row(), id, 0);
                i < old(self).row().len() && old(self).row()[i].url != url@
            }),
    {
        let news = self.named(id, url);
        self.set(id, State::Up);
        news
    }
}

/// The tabs with the one at `at` moved before the tab `before`, or to
/// the end.
pub open spec fn moved(t: Seq<Seen>, at: int, before: Option<TabId>) -> Seq<Seen> {
    let rest = t.remove(at);
    let to = match before {
        Some(b) => tab_at(rest, b, 0),
        None => rest.len() as int,
    };
    rest.insert(to, t[at])
}

proof fn lemma_tab_at(t: Seq<Seen>, id: TabId, i: int)
    requires
        0 <= i <= t.len(),
    ensures
        i <= tab_at(t, id, i) <= t.len(),
        tab_at(t, id, i) < t.len() ==> t[tab_at(t, id, i)].id == id,
    decreases t.len() - i,
{
    if i < t.len() && t[i].id != id {
        lemma_tab_at(t, id, i + 1);
    }
}

/// A session has one tab: once there is a tab for it, it is the one that
/// is found, and a tab made for it is found as the last.
pub proof fn law_a_session_has_one_tab(t: Seq<Seen>, u: Url, n: u64)
    ensures
        tab_for(t, u, 0) <= t.len(),
        tab_for(t, u, 0) < t.len() ==> one(t[tab_for(t, u, 0)].url, u),
        tab_for(t, u, 0) == t.len() ==> tab_for(t.push(unattached(n, u)), u, 0) == t.len(),
{
    lemma_tab_for(t, u, n, 0);
}

proof fn lemma_tab_for(t: Seq<Seen>, u: Url, n: u64, i: int)
    requires
        0 <= i <= t.len(),
    ensures
        i <= tab_for(t, u, i) <= t.len(),
        tab_for(t, u, i) < t.len() ==> one(t[tab_for(t, u, i)].url, u),
        tab_for(t, u, i) == t.len() ==> tab_for(t.push(unattached(n, u)), u, i) == t.len(),
    decreases t.len() - i,
{
    let more = t.push(unattached(n, u));
    if i < t.len() {
        assert(more[i] == t[i]);
        if !one(t[i].url, u) {
            lemma_tab_for(t, u, n, i + 1);
        }
    } else {
        assert(more[i].url == u);
        assert(one(u, u));
    }
}

/// Moving a tab loses none and makes none: each tab is there as it was.
pub proof fn law_moving_a_tab_keeps_the_tabs(t: Seq<Seen>, at: int, before: Option<TabId>, x: Seen)
    requires
        0 <= at < t.len(),
    ensures
        moved(t, at, before).len() == t.len(),
        moved(t, at, before).contains(x) == t.contains(x),
        before is Some && before->0 != t[at].id && tab_at(t, before->0, 0) < t.len() ==> ({
            let m = moved(t, at, before);
            let i = tab_at(t.remove(at), before->0, 0);
            m[i] == t[at] && m[i + 1].id == before->0
        }),
        before is None ==> moved(t, at, before).last() == t[at],
{
    let rest = t.remove(at);
    let m = moved(t, at, before);
    let to = match before {
        Some(b) => tab_at(rest, b, 0),
        None => rest.len() as int,
    };
    if before is Some {
        lemma_tab_at(rest, before->0, 0);
        let b = before->0;
        if b != t[at].id && tab_at(t, b, 0) < t.len() {
            lemma_tab_at(t, b, 0);
            let k = tab_at(t, b, 0);
            assert(t[k].id == b);
            let j = if k < at {
                k
            } else {
                k - 1
            };
            assert(rest[j] == t[k]);
            lemma_found_by(rest, b, 0, j);
        }
    }
    if t.contains(x) {
        let k = choose|k: int| 0 <= k < t.len() && t[k] == x;
        if k == at {
            assert(m[to] == x);
        } else {
            let j = if k < at {
                k
            } else {
                k - 1
            };
            assert(rest[j] == x);
            assert(m[if j < to {
                j
            } else {
                j + 1
            }] == x);
        }
    }
    if m.contains(x) {
        let k = choose|k: int| 0 <= k < m.len() && m[k] == x;
        if k == to {
            assert(t[at] == x);
        } else {
            let j = if k < to {
                k
            } else {
                k - 1
            };
            assert(rest[j] == x);
            assert(t[if j < at {
                j
            } else {
                j + 1
            }] == x);
        }
    }
}

proof fn lemma_found_by(t: Seq<Seen>, id: TabId, i: int, k: int)
    requires
        0 <= i <= k < t.len(),
        t[k].id == id,
    ensures
        tab_at(t, id, i) <= k,
        t[tab_at(t, id, i)].id == id,
    decreases k - i,
{
    if t[i].id != id {
        lemma_found_by(t, id, i + 1, k);
    }
}

impl Pool {
    /// A tab dragged before another in the order, or to the end.  True
    /// when it is there: the order is to be saved.
    pub fn move_tab(&mut self, id: TabId, before: Option<TabId>) -> (did: bool)
        requires
            old(self).wf(),
        ensures
            final(self).wf(),
            did == (tab_at(old(self).row(), id, 0) < old(self).row().len()),
            final(self).row() == (if did {
                moved(old(self).row(), tab_at(old(self).row(), id, 0), before)
            } else {
                old(self).row()
            }),
            *final(self) == (Pool { tabs: final(self).tabs, ..*old(self) }),
    {
        let at: usize = self.find(id);
        if at >= self.tabs.len() {
            return false;
        }
        let ghost t0 = self.tabs@;
        let ghost row = self.row();
        let tab = self.tabs.remove(at);
        let ghost rest = self.row();
        proof {
            assert(rest =~= row.remove(at as int));
            assert(row[at as int] == tab@);
        }
        let to: usize = match before {
            Some(b) => self.find(b),
            None => self.tabs.len(),
        };
        let ghost t1 = tab@;
        self.tabs.insert(to, tab);
        proof {
            assert(self.row() =~= rest.insert(to as int, t1));
            let m = self.row();
            assert forall|i: int| 0 <= i < m.len() implies ({
                let TabId(n) = (#[trigger] m[i]).id;
                n <= self.next
            }) by {
                law_moving_a_tab_keeps_the_tabs(row, at as int, before, m[i]);
                assert(m.contains(m[i]));
            }
            assert forall|i: int, j: int| 0 <= i < j < m.len() implies (#[trigger] m[i]).id != (#[trigger] m[j]).id by {
                let at = at as int;
                let to = to as int;
                let p = if i == to {
                    at
                } else {
                    let q = if i < to {
                        i
                    } else {
                        i - 1
                    };
                    if q < at {
                        q
                    } else {
                        q + 1
                    }
                };
                let r = if j == to {
                    at
                } else {
                    let q = if j < to {
                        j
                    } else {
                        j - 1
                    };
                    if q < at {
                        q
                    } else {
                        q + 1
                    }
                };
                assert(m[i] == row[p] && m[j] == row[r] && p != r);
            }
        }
        true
    }
}

/// A tab is found by its id: the first that has it, and none where none has.
pub proof fn law_a_tab_is_found_by_its_id(t: Seq<Seen>, id: TabId, i: int)
    requires
        0 <= i <= t.len(),
    ensures
        i <= tab_at(t, id, i) <= t.len(),
        forall|j: int| i <= j < tab_at(t, id, i) ==> (#[trigger] t[j]).id != id,
        tab_at(t, id, i) < t.len() ==> t[tab_at(t, id, i)].id == id,
    decreases t.len() - i,
{
    if i < t.len() && t[i].id != id {
        law_a_tab_is_found_by_its_id(t, id, i + 1);
    }
}

/// A tab's state and its session are changed in its place, and nothing else of
/// it or of any other tab is.
pub proof fn law_only_the_tab_named_is_changed(t: Seq<Seen>, id: TabId, s: Stage, u: Url, k: int)
    requires
        0 <= k < t.len(),
        forall|i: int, j: int| 0 <= i < j < t.len() ==> (#[trigger] t[i]).id != (#[trigger] t[j]).id,
    ensures
        with_state(t, id, s).len() == t.len() && with_url(t, id, u).len() == t.len(),
        t[k].id == id ==> with_state(t, id, s)[k] == (Seen { state: s, ..t[k] }) && with_url(t, id, u)[k] == (Seen {
            url: u,
            ..t[k]
        }),
        t[k].id != id ==> with_state(t, id, s)[k] == t[k] && with_url(t, id, u)[k] == t[k],
{
    law_a_tab_is_found_by_its_id(t, id, 0);
    let i = tab_at(t, id, 0);
    if t[k].id == id && i != k {
        if k < i {
            assert(t[k].id != id);
        } else {
            assert(t[i].id != t[k].id);
        }
    }
}

/// Two are one session's where they are the same or read the same.
pub proof fn law_what_is_one_session(a: Url, b: Url)
    ensures
        one(a, a),
        a.is(b) ==> one(a, b),
        a.reads_as(b) ==> one(a, b),
        one(a, b) ==> a.beside(b),
        one(a, b) == one(b, a),
{
}

} // verus!
