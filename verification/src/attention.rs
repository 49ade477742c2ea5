//! The notifications the app is carrying, across every session it has
//! open.  A session's own are in the order they were raised; across
//! sessions, the order is the one the app first saw them in.

use vstd::prelude::*;

use crate::ids::{TabId, WindowId};

verus! {

/// A notification the app is carrying: the tab it is in, the window it
/// is about, and the entry that raised it.
pub type Note = (TabId, WindowId, u64);

/// What a session holds now: its tab, and its notifications, oldest
/// first.
pub struct Held {
    pub tab: TabId,
    pub notes: Vec<(WindowId, u64)>,
}

/// A notification is among the first `n` sessions' own.
pub open spec fn raised(now: Seq<Held>, n: int, tab: TabId, at: u64) -> bool {
    exists|i: int, j: int|
        0 <= i < n && 0 <= j < now[i].notes@.len() && (#[trigger] now[i].notes@[j]).1 == at && now[i].tab == tab
}

/// A notification is in the queue.
pub open spec fn queued(q: Seq<Note>, tab: TabId, at: u64) -> bool {
    exists|k: int| 0 <= k < q.len() && (#[trigger] q[k]).0 == tab && q[k].2 == at
}

/// Of the first `n` in the queue, those that are still there.
pub open spec fn still(q: Seq<Note>, now: Seq<Held>, n: int) -> Seq<Note>
    decreases n,
{
    if n <= 0 || n > q.len() {
        Seq::empty()
    } else {
        let (tab, _, at) = q[n - 1];
        if raised(now, now.len() as int, tab, at) {
            still(q, now, n - 1).push(q[n - 1])
        } else {
            still(q, now, n - 1)
        }
    }
}

/// Of a session's first `n`, those that the queue did not have.
pub open spec fn fresh_in(q: Seq<Note>, tab: TabId, notes: Seq<(WindowId, u64)>, n: int) -> Seq<Note>
    decreases n,
{
    if n <= 0 || n > notes.len() {
        Seq::empty()
    } else {
        let (w, at) = notes[n - 1];
        if queued(q, tab, at) {
            fresh_in(q, tab, notes, n - 1)
        } else {
            fresh_in(q, tab, notes, n - 1).push((tab, w, at))
        }
    }
}

/// Of the first `n` sessions' own, those that the queue did not have.
pub open spec fn fresh(q: Seq<Note>, now: Seq<Held>, n: int) -> Seq<Note>
    decreases n,
{
    if n <= 0 || n > now.len() {
        Seq::empty()
    } else {
        fresh(q, now, n - 1) + fresh_in(q, now[n - 1].tab, now[n - 1].notes@, now[n - 1].notes@.len() as int)
    }
}

/// One of them is of a session that was looked at before.
pub open spec fn news(f: Seq<Note>, looked: Seq<TabId>) -> bool {
    exists|i: int| 0 <= i < f.len() && looked.contains((#[trigger] f[i]).0)
}

fn is_raised(now: &Vec<Held>, tab: TabId, at: u64) -> (r: bool)
    ensures
        r == raised(now@, now@.len() as int, tab, at),
{
    let mut i: usize = 0;
    while i < now.len()
        invariant
            i <= now@.len(),
            !raised(now@, i as int, tab, at),
        decreases now@.len() - i,
    {
        if now[i].tab == tab {
            let mut j: usize = 0;
            while j < now[i].notes.len()
                invariant
                    i < now@.len(),
                    now@[i as int].tab == tab,
                    j <= now@[i as int].notes@.len(),
                    !raised(now@, i as int, tab, at),
                    forall|k: int| 0 <= k < j ==> (#[trigger] now@[i as int].notes@[k]).1 != at,
                decreases now@[i as int].notes@.len() - j,
            {
                if now[i].notes[j].1 == at {
                    proof {
                        assert(now@[i as int].notes@[j as int].1 == at);
                    }
                    return true;
                }
                j = j + 1;
            }
        }
        i = i + 1;
    }
    false
}

fn is_queued(q: &Vec<Note>, tab: TabId, at: u64) -> (r: bool)
    ensures
        r == queued(q@, tab, at),
{
    let mut i: usize = 0;
    while i < q.len()
        invariant
            i <= q@.len(),
            forall|k: int| 0 <= k < i ==> !((#[trigger] q@[k]).0 == tab && q@[k].2 == at),
        decreases q@.len() - i,
    {
        if q[i].0 == tab && q[i].2 == at {
            return true;
        }
        i = i + 1;
    }
    false
}

fn has_tab(s: &Vec<TabId>, id: TabId) -> (r: bool)
    ensures
        r == s@.contains(id),
{
    let mut i: usize = 0;
    while i < s.len()
        invariant
            i <= s@.len(),
            forall|j: int| 0 <= j < i ==> s@[j] != id,
        decreases s@.len() - i,
    {
        if s[i] == id {
            return true;
        }
        i = i + 1;
    }
    false
}

/// What is fresh, after what is still there; and whether any is news.
fn collect(q: &Vec<Note>, looked: &Vec<TabId>, now: &Vec<Held>, out: &mut Vec<Note>) -> (came: bool)
    ensures
        final(out)@ == old(out)@ + fresh(q@, now@, now@.len() as int),
        came == news(fresh(q@, now@, now@.len() as int), looked@),
{
    let ghost out0 = out@;
    let mut came = false;
    let mut i: usize = 0;
    proof {
        assert(out@ =~= out0 + fresh(q@, now@, 0));
    }
    while i < now.len()
        invariant
            i <= now@.len(),
            out@ == out0 + fresh(q@, now@, i as int),
            came == news(fresh(q@, now@, i as int), looked@),
        decreases now@.len() - i,
    {
        let ghost f0 = fresh(q@, now@, i as int);
        let tab = now[i].tab;
        let ghost notes = now@[i as int].notes@;
        let mut j: usize = 0;
        proof {
            assert(out@ =~= out0 + (f0 + fresh_in(q@, tab, notes, 0)));
            assert(f0 + fresh_in(q@, tab, notes, 0) =~= f0);
        }
        while j < now[i].notes.len()
            invariant
                i < now@.len(),
                notes == now@[i as int].notes@,
                tab == now@[i as int].tab,
                j <= notes.len(),
                out@ == out0 + (f0 + fresh_in(q@, tab, notes, j as int)),
                came == news(f0 + fresh_in(q@, tab, notes, j as int), looked@),
            decreases notes.len() - j,
        {
            let w = now[i].notes[j].0;
            let at: u64 = now[i].notes[j].1;
            let ghost before = f0 + fresh_in(q@, tab, notes, j as int);
            if !is_queued(q, tab, at) {
                out.push((tab, w, at));
                let known = has_tab(looked, tab);
                proof {
                    let after = f0 + fresh_in(q@, tab, notes, j + 1);
                    assert(after =~= before.push((tab, w, at)));
                    assert(out@ =~= out0 + after);
                    lemma_news(before, (tab, w, at), looked@);
                }
                came = came || known;
            }
            j = j + 1;
        }
        i = i + 1;
    }
    came
}

proof fn lemma_news(f: Seq<Note>, x: Note, looked: Seq<TabId>)
    ensures
        news(f.push(x), looked) == (news(f, looked) || looked.contains(x.0)),
{
    let g = f.push(x);
    if news(f, looked) {
        let i = choose|i: int| 0 <= i < f.len() && looked.contains((#[trigger] f[i]).0);
        assert(g[i] == f[i]);
    }
    if looked.contains(x.0) {
        assert(g[f.len() as int] == x);
    }
    if news(g, looked) {
        let i = choose|i: int| 0 <= i < g.len() && looked.contains((#[trigger] g[i]).0);
        if i < f.len() {
            assert(f[i] == g[i]);
        }
    }
}

/// The queue against what the sessions hold now: what has gone is
/// dropped, what has come is put at the end, each session's in its own
/// order.  True if any of what came is news, which a session the app is
/// seeing for the first time (not in `looked`) never brings.
pub fn advance(queue: &mut Vec<Note>, looked: &Vec<TabId>, now: &Vec<Held>) -> (came: bool)
    ensures
        final(queue)@ == still(old(queue)@, now@, old(queue)@.len() as int) + fresh(
            old(queue)@,
            now@,
            now@.len() as int,
        ),
        came == news(fresh(old(queue)@, now@, now@.len() as int), looked@),
{
    let ghost q = queue@;
    let mut out: Vec<Note> = Vec::new();
    let mut i: usize = 0;
    while i < queue.len()
        invariant
            queue@ == q,
            i <= q.len(),
            out@ == still(q, now@, i as int),
        decreases q.len() - i,
    {
        let n = queue[i];
        if is_raised(now, n.0, n.2) {
            out.push(n);
        }
        i = i + 1;
    }
    let came = collect(queue, looked, now, &mut out);
    *queue = out;
    came
}

/// The queue is what is waiting: a notification is in it exactly when a
/// session holds it now.
pub proof fn law_the_queue_is_what_is_waiting(q: Seq<Note>, now: Seq<Held>, tab: TabId, at: u64)
    ensures
        queued(still(q, now, q.len() as int) + fresh(q, now, now.len() as int), tab, at) == raised(
            now,
            now.len() as int,
            tab,
            at,
        ),
{
    let s = still(q, now, q.len() as int);
    let f = fresh(q, now, now.len() as int);
    let all = s + f;
    lemma_still(q, now, q.len() as int, tab, at);
    assert(q.take(q.len() as int) =~= q);
    lemma_fresh(q, now, now.len() as int, tab, at);
    if queued(all, tab, at) {
        let k = choose|k: int| 0 <= k < all.len() && (#[trigger] all[k]).0 == tab && all[k].2 == at;
        if k < s.len() {
            assert(s[k] == all[k]);
        } else {
            assert(f[k - s.len()] == all[k]);
        }
    }
    if queued(s, tab, at) {
        let k = choose|k: int| 0 <= k < s.len() && (#[trigger] s[k]).0 == tab && s[k].2 == at;
        assert(all[k] == s[k]);
    }
    if queued(f, tab, at) {
        let k = choose|k: int| 0 <= k < f.len() && (#[trigger] f[k]).0 == tab && f[k].2 == at;
        assert(all[s.len() + k] == f[k]);
    }
}

proof fn lemma_still(q: Seq<Note>, now: Seq<Held>, n: int, tab: TabId, at: u64)
    requires
        0 <= n <= q.len(),
    ensures
        queued(still(q, now, n), tab, at) == (queued(q.take(n), tab, at) && raised(now, now.len() as int, tab, at)),
    decreases n,
{
    if n > 0 {
        lemma_still(q, now, n - 1, tab, at);
        assert(q.take(n) =~= q.take(n - 1).push(q[n - 1]));
        lemma_queued_push(q.take(n - 1), q[n - 1], tab, at);
        lemma_queued_push(still(q, now, n - 1), q[n - 1], tab, at);
    }
}

proof fn lemma_queued_push(q: Seq<Note>, x: Note, tab: TabId, at: u64)
    ensures
        queued(q.push(x), tab, at) == (queued(q, tab, at) || (x.0 == tab && x.2 == at)),
{
    let g = q.push(x);
    if queued(q, tab, at) {
        let k = choose|k: int| 0 <= k < q.len() && (#[trigger] q[k]).0 == tab && q[k].2 == at;
        assert(g[k] == q[k]);
    }
    if x.0 == tab && x.2 == at {
        assert(g[q.len() as int] == x);
    }
    if queued(g, tab, at) {
        let k = choose|k: int| 0 <= k < g.len() && (#[trigger] g[k]).0 == tab && g[k].2 == at;
        if k < q.len() {
            assert(q[k] == g[k]);
        }
    }
}

proof fn lemma_fresh(q: Seq<Note>, now: Seq<Held>, n: int, tab: TabId, at: u64)
    requires
        0 <= n <= now.len(),
    ensures
        queued(fresh(q, now, n), tab, at) == (raised(now, n, tab, at) && !queued(q, tab, at)),
    decreases n,
{
    if n > 0 {
        lemma_fresh(q, now, n - 1, tab, at);
        let notes = now[n - 1].notes@;
        let a = fresh(q, now, n - 1);
        let b = fresh_in(q, now[n - 1].tab, notes, notes.len() as int);
        lemma_fresh_in(q, now[n - 1].tab, notes, notes.len() as int, tab, at);
        let all = a + b;
        if queued(all, tab, at) {
            let k = choose|k: int| 0 <= k < all.len() && (#[trigger] all[k]).0 == tab && all[k].2 == at;
            if k < a.len() {
                assert(a[k] == all[k]);
            } else {
                assert(b[k - a.len()] == all[k]);
            }
        }
        if queued(a, tab, at) {
            let k = choose|k: int| 0 <= k < a.len() && (#[trigger] a[k]).0 == tab && a[k].2 == at;
            assert(all[k] == a[k]);
        }
        if queued(b, tab, at) {
            let k = choose|k: int| 0 <= k < b.len() && (#[trigger] b[k]).0 == tab && b[k].2 == at;
            assert(all[a.len() + k] == b[k]);
        }
        if raised(now, n, tab, at) && !raised(now, n - 1, tab, at) {
            let (i, j) = choose|i: int, j: int|
                0 <= i < n && 0 <= j < now[i].notes@.len() && (#[trigger] now[i].notes@[j]).1 == at && now[i].tab == tab;
            assert(i == n - 1);
            assert(noted(notes, notes.len() as int, at));
        }
        if now[n - 1].tab == tab && noted(notes, notes.len() as int, at) {
            let j = choose|j: int| 0 <= j < notes.len() && (#[trigger] notes[j]).1 == at;
            assert(now[n - 1].notes@[j].1 == at);
        }
    }
}

spec fn noted(notes: Seq<(WindowId, u64)>, n: int, at: u64) -> bool {
    exists|j: int| 0 <= j < n && (#[trigger] notes[j]).1 == at
}

proof fn lemma_fresh_in(q: Seq<Note>, t: TabId, notes: Seq<(WindowId, u64)>, n: int, tab: TabId, at: u64)
    requires
        0 <= n <= notes.len(),
    ensures
        queued(fresh_in(q, t, notes, n), tab, at) == (t == tab && noted(notes, n, at) && !queued(q, tab, at)),
    decreases n,
{
    if n > 0 {
        lemma_fresh_in(q, t, notes, n - 1, tab, at);
        let (w, a) = notes[n - 1];
        lemma_queued_push(fresh_in(q, t, notes, n - 1), (t, w, a), tab, at);
        if noted(notes, n - 1, at) {
            let j = choose|j: int| 0 <= j < n - 1 && (#[trigger] notes[j]).1 == at;
            assert(notes[j].1 == at);
        }
        if a == at {
            assert(notes[n - 1].1 == at);
        }
        if noted(notes, n, at) {
            let j = choose|j: int| 0 <= j < n && (#[trigger] notes[j]).1 == at;
            if j < n - 1 {
                assert(noted(notes, n - 1, at));
            }
        }
    }
}

/// What was waiting and still is stays in the order that it was in, and
/// nothing else is among it.
pub proof fn law_what_still_waits_keeps_its_place(q: Seq<Note>, now: Seq<Held>, n: int)
    requires
        0 <= n <= q.len(),
    ensures
        forall|i: int|
            0 <= i < still(q, now, n).len() ==> q.take(n).contains(#[trigger] still(q, now, n)[i]) && raised(
                now,
                now.len() as int,
                still(q, now, n)[i].0,
                still(q, now, n)[i].2,
            ),
        forall|i: int|
            0 <= i < n && raised(now, now.len() as int, (#[trigger] q[i]).0, q[i].2) ==> still(q, now, n).contains(q[i]),
        (forall|i: int| 0 <= i < n ==> raised(now, now.len() as int, (#[trigger] q[i]).0, q[i].2)) ==> still(q, now, n)
            == q.take(n),
        n > 0 && raised(now, now.len() as int, q[n - 1].0, q[n - 1].2) ==> still(q, now, n).len() > 0 && still(
            q,
            now,
            n,
        ).last() == q[n - 1],
    decreases n,
{
    let all = still(q, now, n);
    if n > 0 {
        law_what_still_waits_keeps_its_place(q, now, n - 1);
        let before = still(q, now, n - 1);
        let kept = raised(now, now.len() as int, q[n - 1].0, q[n - 1].2);
        assert forall|i: int| 0 <= i < all.len() implies q.take(n).contains(#[trigger] all[i]) && raised(
            now,
            now.len() as int,
            all[i].0,
            all[i].2,
        ) by {
            if i < before.len() {
                assert(all[i] == before[i]);
                assert(q.take(n - 1).contains(before[i]));
                let some = q.take(n - 1);
                let k = choose|k: int| 0 <= k < some.len() && some[k] == before[i];
                assert(q.take(n)[k] == before[i]);
            } else {
                assert(q.take(n)[n - 1] == all[i]);
            }
        }
        assert forall|i: int| 0 <= i < n && raised(now, now.len() as int, (#[trigger] q[i]).0, q[i].2) implies all.contains(
            q[i],
        ) by {
            if i < n - 1 {
                assert(before.contains(q[i]));
                let k = choose|k: int| 0 <= k < before.len() && before[k] == q[i];
                assert(all[k] == q[i]);
            } else {
                assert(all[all.len() - 1] == q[i]);
            }
        }
        if forall|i: int| 0 <= i < n ==> raised(now, now.len() as int, (#[trigger] q[i]).0, q[i].2) {
            assert(kept);
            assert(all =~= q.take(n));
        }
    } else {
        assert(all =~= q.take(0));
    }
}

} // verus!
