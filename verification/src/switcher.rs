//! ctrl-tab: the connected sessions, stepped through live, as a browser
//! steps its tabs.  The order is the one when control was pressed and
//! holds while it is held; letting go ends the walk where it is, and
//! escape goes back to where it began.

use vstd::prelude::*;

use crate::ids::TabId;

verus! {

/// A walk through the tabs: as they were when control was pressed, this
/// window's first, and where the walk is.
pub struct Switcher {
    pub entries: Vec<TabId>,
    pub index: usize,
}

/// The window's tab, and the first `n` of the others, each once.
pub open spec fn walk_of(here: TabId, recent: Seq<TabId>, n: int) -> Seq<TabId>
    decreases n,
{
    if n <= 0 || n > recent.len() {
        seq![here]
    } else {
        let before = walk_of(here, recent, n - 1);
        if before.contains(recent[n - 1]) {
            before
        } else {
            before.push(recent[n - 1])
        }
    }
}

/// Where a step takes the walk of `n` tabs from `i`, round the ends.
pub open spec fn stepped(n: int, i: int, back: bool) -> int {
    if n > 1 {
        if back {
            (i + n - 1) % n
        } else {
            (i + 1) % n
        }
    } else {
        i
    }
}

impl Switcher {
    /// The walk is somewhere on the list.
    pub open spec fn wf(&self) -> bool {
        self.index < self.entries@.len()
    }

    /// The walk as it starts: the window's tab, then the others, the most
    /// recently shown first.
    pub fn start(here: TabId, recent: &Vec<TabId>) -> (s: Switcher)
        ensures
            s.wf(),
            s.index == 0,
            s.entries@ == walk_of(here, recent@, recent@.len() as int),
            s.entries@[0] == here,
    {
        let mut out: Vec<TabId> = Vec::new();
        out.push(here);
        let mut i: usize = 0;
        while i < recent.len()
            invariant
                i <= recent@.len(),
                out@ == walk_of(here, recent@, i as int),
                out@.len() > 0,
                out@[0] == here,
            decreases recent@.len() - i,
        {
            let mut k: usize = 0;
            let mut found = false;
            while k < out.len()
                invariant
                    i < recent@.len(),
                    k <= out@.len(),
                    found == exists|j: int| 0 <= j < k && out@[j] == recent@[i as int],
                decreases out@.len() - k,
            {
                if out[k] == recent[i] {
                    found = true;
                }
                k = k + 1;
            }
            if !found {
                out.push(recent[i]);
            }
            i = i + 1;
        }
        Switcher { entries: out, index: 0 }
    }

    /// One step on through the tabs, or back.  The tab to switch to, when
    /// it is another than the window shows.
    pub fn step(&mut self, back: bool, here: TabId) -> (to: Option<TabId>)
        requires
            old(self).wf(),
        ensures
            final(self).wf(),
            final(self).entries == old(self).entries,
            final(self).index == stepped(old(self).entries@.len() as int, old(self).index as int, back),
            to == (if final(self).entries@[final(self).index as int] != here {
                Some(final(self).entries@[final(self).index as int])
            } else {
                None
            }),
    {
        let n: usize = self.entries.len();
        if n > 1 {
            proof {
                lemma_round(n as int, self.index as int);
            }
            self.index = if back {
                if self.index == 0 {
                    n - 1
                } else {
                    self.index - 1
                }
            } else if self.index == n - 1 {
                0
            } else {
                self.index + 1
            };
        }
        let id = self.entries[self.index];
        if id != here {
            Some(id)
        } else {
            None
        }
    }

    /// Escape with control still held: the tab where the walk began, when
    /// it is another than the window shows.
    pub fn close(&self, here: TabId) -> (to: Option<TabId>)
        requires
            self.wf(),
        ensures
            to == (if self.entries@[0] != here {
                Some(self.entries@[0])
            } else {
                None
            }),
    {
        let id = self.entries[0];
        if id != here {
            Some(id)
        } else {
            None
        }
    }
}

proof fn lemma_round(n: int, i: int)
    requires
        n > 1,
        0 <= i < n,
    ensures
        (i + 1) % n == (if i == n - 1 {
            0
        } else {
            i + 1
        }),
        (i + n - 1) % n == (if i == 0 {
            n - 1
        } else {
            i - 1
        }),
{
    if i == n - 1 {
        assert(n % n == 0) by (nonlinear_arith)
            requires
                n > 1,
        ;
    } else {
        assert((i + 1) % n == i + 1) by (nonlinear_arith)
            requires
                0 <= i < n - 1,
        ;
    }
    if i == 0 {
        assert((n - 1) % n == n - 1) by (nonlinear_arith)
            requires
                n > 1,
        ;
    } else {
        assert((i + n - 1) % n == i - 1) by (nonlinear_arith)
            requires
                0 < i < n,
        ;
    }
}

/// A step back undoes a step on, and a step on undoes one back.
pub proof fn law_a_step_back_undoes_a_step(n: int, i: int)
    requires
        0 <= i < n,
    ensures
        0 <= stepped(n, i, false) < n,
        0 <= stepped(n, i, true) < n,
        stepped(n, stepped(n, i, false), true) == i,
        stepped(n, stepped(n, i, true), false) == i,
{
    if n > 1 {
        lemma_round(n, i);
        lemma_round(n, stepped(n, i, false));
        lemma_round(n, stepped(n, i, true));
    }
}

/// The walk after so many steps on.
pub open spec fn walked(n: int, i: int, steps: nat) -> int
    decreases steps,
{
    if steps == 0 {
        i
    } else {
        stepped(n, walked(n, i, (steps - 1) as nat), false)
    }
}

/// The presses walk the list rather than bouncing between two: after as
/// many as there are tabs the walk is where it began, and before that it
/// has been at every tab once.
pub proof fn law_the_walk_goes_round(n: int, steps: nat)
    requires
        n > 0,
        steps <= n,
    ensures
        walked(n, 0, steps) == (if steps < n {
            steps as int
        } else {
            0
        }),
    decreases steps,
{
    if steps > 0 {
        law_the_walk_goes_round(n, (steps - 1) as nat);
        if n > 1 {
            lemma_round(n, steps - 1);
        }
    }
}

/// The walk starts at the tab that is here, and goes to each of those used
/// lately once, the latest first.
pub proof fn law_the_walk_is_by_what_was_used_last(here: TabId, recent: Seq<TabId>, n: int)
    requires
        0 <= n <= recent.len(),
    ensures
        ({
            let w = walk_of(here, recent, n);
            &&& w.len() > 0 && w[0] == here
            &&& forall|i: int, j: int| 0 <= i < j < w.len() ==> w[i] != w[j]
            &&& forall|i: int| 0 <= i < n ==> w.contains(#[trigger] recent[i])
            &&& forall|i: int| 0 < i < w.len() ==> recent.take(n).contains(#[trigger] w[i])
        }),
        // none twice, and not the one here: just as they were
        recent.take(n).no_duplicates() && !recent.take(n).contains(here) ==> walk_of(here, recent, n) == seq![here]
            + recent.take(n),
    decreases n,
{
    let w = walk_of(here, recent, n);
    if n > 0 {
        law_the_walk_is_by_what_was_used_last(here, recent, n - 1);
        let before = walk_of(here, recent, n - 1);
        let (some, all) = (recent.take(n - 1), recent.take(n));
        let new = recent[n - 1];
        assert forall|i: int| 0 <= i < n implies w.contains(#[trigger] recent[i]) by {
            if i < n - 1 {
                assert(before.contains(recent[i]));
                let k = choose|k: int| 0 <= k < before.len() && before[k] == recent[i];
                assert(w[k] == recent[i]);
            } else if !before.contains(new) {
                assert(w[w.len() - 1] == new);
            }
        }
        assert forall|i: int| 0 < i < w.len() implies all.contains(#[trigger] w[i]) by {
            if i < before.len() {
                assert(some.contains(before[i]));
                let k = choose|k: int| 0 <= k < some.len() && some[k] == before[i];
                assert(all[k] == w[i]);
            } else {
                assert(all[n - 1] == w[i]);
            }
        }
        if all.no_duplicates() && !all.contains(here) {
            assert forall|i: int, j: int| 0 <= i < some.len() && 0 <= j < some.len() && i != j implies some[i] != some[j] by {
                assert(all[i] != all[j]);
            }
            if some.contains(here) {
                let k = choose|k: int| 0 <= k < some.len() && some[k] == here;
                assert(all[k] == here);
            }
            assert(all[n - 1] == new);
            if before.contains(new) {
                let k = choose|k: int| 0 <= k < before.len() && before[k] == new;
                if k > 0 {
                    assert(before[k] == some[k - 1]);
                    assert(all[k - 1] == new);
                }
            }
            assert(w =~= seq![here] + all);
        }
    } else {
        assert(w =~= seq![here] + recent.take(0));
    }
}

} // verus!
