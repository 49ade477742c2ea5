//! The title bar's tabs: what each says and offers, and a tab dragged
//! along the row.  Positions are in [`crate::mouse::SUB`]ths of a pixel.

use vstd::prelude::*;
use vstd::string::*;

use crate::drag::{near, FAR};
use crate::mouse::{Pt, SUB};
use crate::session::{copy_maybe, maybe, SessionUrl, Url};

verus! {

/// A tab as the app knows it: its session, what it is doing when it is
/// anything but simply up, and whether a tool in it wants the user.
pub struct TabInfo {
    pub url: SessionUrl,
    pub word: Option<String>,
    pub notified: bool,
}

/// Where a tab was drawn.
pub struct TabBox {
    pub url: SessionUrl,
    pub at: Pt,
    pub width: i64,
}

impl TabBox {
    /// Within reach.
    pub open spec fn near(&self) -> bool {
        near(self.at) && 0 <= self.width <= FAR
    }
}

/// Every tab drawn is within reach.
pub open spec fn all_near(b: Seq<TabBox>) -> bool {
    forall|i: int| 0 <= i < b.len() ==> (#[trigger] b[i]).near()
}

/// A tab held with the first button: which, whether it is the current
/// one, where the press was, and whether it has moved enough to be a
/// drag rather than a click.
pub struct TabDrag {
    pub url: SessionUrl,
    pub current: bool,
    pub start: Pt,
    /// Where the pointer is now.
    pub pos: Pt,
    /// Where in the tab it was grabbed, from its left edge, and the
    /// tab's width: the floating tab keeps that grip.
    pub grab: i64,
    pub width: i64,
    pub moved: bool,
}

impl TabDrag {
    /// Within reach.
    pub open spec fn near(&self) -> bool {
        near(self.start) && near(self.pos) && -2 * FAR <= self.grab <= 2 * FAR && 0 <= self.width <= FAR
    }
}

/// The first of the tabs drawn that is of this session, from `i` on; the
/// end where there is none.
pub open spec fn drawn_at(b: Seq<TabBox>, u: Url, i: int) -> int
    decreases b.len() - i,
{
    if 0 <= i < b.len() && !b[i].url@.is(u) {
        drawn_at(b, u, i + 1)
    } else {
        i
    }
}

fn find_drawn(b: &Vec<TabBox>, u: &SessionUrl) -> (i: usize)
    ensures
        i == drawn_at(b@, u@, 0),
        i <= b@.len(),
        i < b@.len() ==> b@[i as int].url@.is(u@),
        forall|j: int| 0 <= j < i ==> !(#[trigger] b@[j]).url@.is(u@),
{
    let mut i: usize = 0;
    while i < b.len()
        invariant
            i <= b@.len(),
            drawn_at(b@, u@, i as int) == drawn_at(b@, u@, 0),
            forall|j: int| 0 <= j < i ==> !(#[trigger] b@[j]).url@.is(u@),
        decreases b@.len() - i,
    {
        if b[i].url.is(u) {
            return i;
        }
        i = i + 1;
    }
    i
}

/// The width of a tab that was not drawn.
pub const UNDRAWN: i64 = 80 * SUB;

impl TabDrag {
    /// A tab pressed: held where the pointer is in it.
    pub fn press(url: &SessionUrl, current: bool, at: Pt, drawn: &Vec<TabBox>) -> (d: TabDrag)
        requires
            near(at),
            all_near(drawn@),
        ensures
            d.near(),
            d.url@ == url@,
            d.current == current,
            d.start == at && d.pos == at,
            !d.moved,
            ({
                let i = drawn_at(drawn@, url@, 0);
                if i < drawn@.len() {
                    d.grab == at.x - drawn@[i].at.x && d.width == drawn@[i].width
                } else {
                    d.grab == 0 && d.width == UNDRAWN
                }
            }),
    {
        let i: usize = find_drawn(drawn, url);
        let mut grab: i64 = 0;
        let mut width: i64 = UNDRAWN;
        if i < drawn.len() {
            proof {
                assert(drawn@[i as int].near());
            }
            grab = at.x - drawn[i].at.x;
            width = drawn[i].width;
        }
        TabDrag { url: url.copy(), current, start: at, pos: at, grab, width, moved: false }
    }
}

/// A tab drawn, as a value.
pub ghost struct Spot {
    pub url: Url,
    pub x: int,
    pub width: int,
}

/// A tab's place as a value.
pub open spec fn spot(b: TabBox) -> Spot {
    Spot { url: b.url@, x: b.at.x as int, width: b.width as int }
}

/// Where, from `i` on, a place goes among places in order.
pub open spec fn spot_at(row: Seq<Spot>, x: int, i: int) -> int
    decreases row.len() - i,
{
    if 0 <= i < row.len() && row[i].x <= x {
        spot_at(row, x, i + 1)
    } else {
        i
    }
}

/// The first `n` tabs drawn, from left to right.
pub open spec fn row_of(drawn: Seq<TabBox>, n: int) -> Seq<Spot>
    decreases n,
{
    if n <= 0 || n > drawn.len() {
        Seq::empty()
    } else {
        let before = row_of(drawn, n - 1);
        before.insert(spot_at(before, drawn[n - 1].at.x as int, 0), spot(drawn[n - 1]))
    }
}

/// The room between two tabs of the row.
pub open spec fn gap(row: Seq<Spot>) -> int {
    if row.len() >= 2 {
        row[1].x - (row[0].x + row[0].width)
    } else {
        4 * SUB
    }
}

/// A place in the row that a tab other than the one held has.
pub ghost struct Slot {
    pub url: Url,
    pub left: int,
    pub right: int,
}

/// Where the tabs after the first `n` start, with the one held out of
/// the row.
pub open spec fn left_after(row: Seq<Spot>, held: Url, n: int) -> int
    decreases n,
{
    if n <= 0 || n > row.len() {
        if row.len() > 0 {
            row[0].x
        } else {
            0
        }
    } else if row[n - 1].url.is(held) {
        left_after(row, held, n - 1)
    } else {
        left_after(row, held, n - 1) + row[n - 1].width + gap(row)
    }
}

/// The slots of the first `n` tabs, with the one held out of the row.
pub open spec fn slots(row: Seq<Spot>, held: Url, n: int) -> Seq<Slot>
    decreases n,
{
    if n <= 0 || n > row.len() {
        Seq::empty()
    } else if row[n - 1].url.is(held) {
        slots(row, held, n - 1)
    } else {
        let left = left_after(row, held, n - 1);
        slots(row, held, n - 1).push(Slot { url: row[n - 1].url, left, right: left + row[n - 1].width })
    }
}

/// The place of the tab held in the row, from `i` on; the end where it
/// is not.
pub open spec fn held_at(row: Seq<Spot>, held: Url, i: int) -> int
    decreases row.len() - i,
{
    if 0 <= i < row.len() && !row[i].url.is(held) {
        held_at(row, held, i + 1)
    } else {
        i
    }
}

/// The tab held, its left edge at `gl`, has come to occupy the slot on
/// its right: its left edge is past the slot's, and its centre is past
/// the slot's centre.
pub open spec fn passes_right(s: Seq<Slot>, k: int, gl: int, width: int) -> bool {
    0 <= k < s.len() && gl >= s[k].left && 2 * gl + width >= s[k].left + s[k].right
}

/// It has come to occupy the slot on its left.
pub open spec fn passes_left(s: Seq<Slot>, k: int, gl: int, width: int) -> bool {
    0 < k <= s.len() && gl + width <= s[k - 1].right && 2 * gl + width < s[k - 1].left + s[k - 1].right
}

/// The walk past each neighbour that the tab held has come to occupy.
pub open spec fn walked(s: Seq<Slot>, k: int, gl: int, width: int, steps: nat) -> int
    decreases steps,
{
    if steps == 0 {
        k
    } else if passes_right(s, k, gl, width) {
        walked(s, k + 1, gl, width, (steps - 1) as nat)
    } else if passes_left(s, k, gl, width) {
        walked(s, k - 1, gl, width, (steps - 1) as nat)
    } else {
        k
    }
}

proof fn lemma_walk_right(s: Seq<Slot>, k: int, gl: int, width: int, steps: nat)
    requires
        0 <= k <= s.len(),
        !passes_left(s, k, gl, width),
        steps >= s.len() - k,
    ensures
        ({
            let r = walked(s, k, gl, width, steps);
            k <= r <= s.len() && !passes_right(s, r, gl, width) && !passes_left(s, r, gl, width)
        }),
    decreases s.len() - k,
{
    if steps > 0 && passes_right(s, k, gl, width) {
        assert(!passes_left(s, k + 1, gl, width));
        lemma_walk_right(s, k + 1, gl, width, (steps - 1) as nat);
    }
}

proof fn lemma_walk_left(s: Seq<Slot>, k: int, gl: int, width: int, steps: nat)
    requires
        0 <= k <= s.len(),
        !passes_right(s, k, gl, width),
        steps >= k,
    ensures
        ({
            let r = walked(s, k, gl, width, steps);
            0 <= r <= k && !passes_right(s, r, gl, width) && !passes_left(s, r, gl, width)
        }),
    decreases k,
{
    if steps > 0 && passes_left(s, k, gl, width) {
        assert(!passes_right(s, k - 1, gl, width));
        lemma_walk_left(s, k - 1, gl, width, (steps - 1) as nat);
    }
}

/// The walk ends where neither neighbour is to be passed, so that a swap
/// does not undo itself: from there, the pointer where it is, the tab
/// stays.
pub proof fn law_a_swap_does_not_undo_itself(s: Seq<Slot>, k: int, gl: int, width: int)
    requires
        0 <= k <= s.len(),
    ensures
        ({
            let r = walked(s, k, gl, width, s.len() + 1);
            &&& 0 <= r <= s.len()
            &&& !passes_right(s, r, gl, width)
            &&& !passes_left(s, r, gl, width)
            &&& walked(s, r, gl, width, s.len() + 1) == r
        }),
{
    if passes_right(s, k, gl, width) {
        assert(!passes_left(s, k + 1, gl, width));
        lemma_walk_right(s, k + 1, gl, width, s.len());
    } else {
        lemma_walk_left(s, k, gl, width, s.len() + 1);
    }
}

/// The session that a tab dragged goes before, in the row as it was
/// drawn; nothing for the end of it.
pub open spec fn dropped_before(drawn: Seq<TabBox>, d: TabDrag) -> Option<Url> {
    let row = row_of(drawn, drawn.len() as int);
    let s = slots(row, d.url@, row.len() as int);
    let k0 = held_at(row, d.url@, 0);
    let start = if k0 < row.len() {
        k0
    } else {
        s.len() as int
    };
    let k = walked(s, start, d.pos.x - d.grab, d.width as int, s.len() + 1);
    if 0 <= k < s.len() {
        Some(s[k].url)
    } else {
        None
    }
}

/// Farther than this from the press, a tab held is dragged.
pub const SLACK: i64 = 4 * SUB;

/// The pointer has left the press behind.
pub open spec fn strayed(d: TabDrag, pos: Pt) -> bool {
    d.moved || d.start.x - pos.x > SLACK || pos.x - d.start.x > SLACK || d.start.y - pos.y > SLACK || pos.y
        - d.start.y > SLACK
}

/// The row from left to right: each tab's place, and the session of it.
struct Row {
    x: Vec<i64>,
    width: Vec<i64>,
    url: Vec<SessionUrl>,
}

impl Row {
    spec fn of(&self, s: Seq<Spot>) -> bool {
        &&& self.x@.len() == s.len() && self.width@.len() == s.len() && self.url@.len() == s.len()
        &&& forall|i: int|
            0 <= i < s.len() ==> (#[trigger] s[i]).url == self.url@[i]@ && s[i].x == self.x@[i] && s[i].width
                == self.width@[i]
    }
}

spec fn spots_near(s: Seq<Spot>) -> bool {
    forall|i: int| 0 <= i < s.len() ==> -FAR <= (#[trigger] s[i]).x <= FAR && 0 <= s[i].width <= FAR
}

fn line_up(drawn: &Vec<TabBox>) -> (r: Row)
    requires
        all_near(drawn@),
    ensures
        r.of(row_of(drawn@, drawn@.len() as int)),
        spots_near(row_of(drawn@, drawn@.len() as int)),
        row_of(drawn@, drawn@.len() as int).len() == drawn@.len(),
{
    let mut r = Row { x: Vec::new(), width: Vec::new(), url: Vec::new() };
    let mut i: usize = 0;
    while i < drawn.len()
        invariant
            i <= drawn@.len(),
            all_near(drawn@),
            r.of(row_of(drawn@, i as int)),
            spots_near(row_of(drawn@, i as int)),
            row_of(drawn@, i as int).len() == i,
        decreases drawn@.len() - i,
    {
        let ghost before = row_of(drawn@, i as int);
        let x: i64 = drawn[i].at.x;
        let mut at: usize = 0;
        while at < r.x.len() && r.x[at] <= x
            invariant
                at <= r.x@.len(),
                r.of(before),
                before.len() == r.x@.len(),
                spot_at(before, x as int, at as int) == spot_at(before, x as int, 0),
            decreases r.x@.len() - at,
        {
            proof {
                assert(before[at as int].x == r.x@[at as int]);
            }
            at = at + 1;
        }
        proof {
            if at < before.len() {
                assert(before[at as int].x == r.x@[at as int]);
            }
            assert(drawn@[i as int].near());
        }
        let ghost r0 = r;
        r.x.insert(at, x);
        r.width.insert(at, drawn[i].width);
        r.url.insert(at, drawn[i].url.copy());
        proof {
            let now = row_of(drawn@, i + 1);
            assert forall|j: int| 0 <= j < now.len() implies (#[trigger] now[j]).url == r.url@[j]@ && now[j].x
                == r.x@[j] && now[j].width == r.width@[j] && -FAR <= now[j].x <= FAR && 0 <= now[j].width <= FAR by {
                if j < at {
                    assert(now[j] == before[j]);
                } else if j > at {
                    assert(now[j] == before[j - 1]);
                }
            }
        }
        i = i + 1;
    }
    r
}

/// The slots of the other tabs.
struct Slots {
    left: Vec<i128>,
    right: Vec<i128>,
    url: Vec<SessionUrl>,
}

impl Slots {
    spec fn of(&self, s: Seq<Slot>) -> bool {
        &&& self.left@.len() == s.len() && self.right@.len() == s.len() && self.url@.len() == s.len()
        &&& forall|i: int|
            0 <= i < s.len() ==> (#[trigger] s[i]).url == self.url@[i]@ && s[i].left == self.left@[i] && s[i].right
                == self.right@[i]
    }
}

/// No farther than `n` tabs and the room between them reach.
spec fn within(x: int, n: int) -> bool {
    -(0x400_0000_0000int * n) <= x <= 0x400_0000_0000int * n
}

spec fn slots_near(s: Seq<Slot>, n: int) -> bool {
    forall|i: int|
        0 <= i < s.len() ==> within((#[trigger] s[i]).left, n + 1) && within(s[i].right, n + 2)
}

fn lay_out(row: &Row, held: &SessionUrl, Ghost(s): Ghost<Seq<Spot>>) -> (r: Slots)
    requires
        row.of(s),
        spots_near(s),
    ensures
        r.of(slots(s, held@, s.len() as int)),
        slots_near(slots(s, held@, s.len() as int), s.len() as int),
{
    let n: usize = row.x.len();
    let mut gap_: i128 = 4 * SUB as i128;
    let mut left: i128 = 0;
    if n > 0 {
        proof {
            assert(s[0].x == row.x@[0]);
        }
        left = row.x[0] as i128;
    }
    if n >= 2 {
        proof {
            assert(s[0].x == row.x@[0] && s[1].x == row.x@[1] && s[0].width == row.width@[0]);
        }
        gap_ = row.x[1] as i128 - (row.x[0] as i128 + row.width[0] as i128);
    }
    proof {
        assert(gap_ == gap(s));
    }
    let mut r = Slots { left: Vec::new(), right: Vec::new(), url: Vec::new() };
    let mut i: usize = 0;
    while i < n
        invariant
            i <= n,
            n == s.len(),
            row.of(s),
            spots_near(s),
            gap_ == gap(s),
            -3 * FAR <= gap_ <= 3 * FAR,
            left == left_after(s, held@, i as int),
            within(left as int, i + 1),
            r.of(slots(s, held@, i as int)),
            slots_near(slots(s, held@, i as int), i as int),
        decreases n - i,
    {
        let ghost before = slots(s, held@, i as int);
        proof {
            assert(s[i as int].url == row.url@[i as int]@);
            assert(i + 1 <= 0x1_0000_0000_0000_0000);
        }
        if !row.url[i].is(held) {
            let w: i128 = row.width[i] as i128;
            r.left.push(left);
            r.right.push(left + w);
            r.url.push(row.url[i].copy());
            proof {
                let now = slots(s, held@, i + 1);
                assert forall|j: int| 0 <= j < now.len() implies (#[trigger] now[j]).url == r.url@[j]@ && now[j].left
                    == r.left@[j] && now[j].right == r.right@[j] && within(now[j].left, i + 2) && within(now[j].right, i + 3) by {
                    if j < before.len() {
                        assert(now[j] == before[j]);
                    }
                }
            }
            left = left + w + gap_;
        }
        i = i + 1;
    }
    r
}

proof fn lemma_held_among_slots(s: Seq<Spot>, held: Url, i: int, k: int)
    requires
        0 <= i <= k <= s.len(),
        k == held_at(s, held, 0),
        forall|j: int| 0 <= j < k ==> !(#[trigger] s[j]).url.is(held),
    ensures
        slots(s, held, i).len() == i,
    decreases i,
{
    if i > 0 {
        lemma_held_among_slots(s, held, i - 1, k);
    }
}

proof fn lemma_slots_grow(s: Seq<Spot>, held: Url, i: int, n: int)
    requires
        0 <= i <= n <= s.len(),
    ensures
        slots(s, held, i).len() <= slots(s, held, n).len(),
    decreases n - i,
{
    if i < n {
        lemma_slots_grow(s, held, i, n - 1);
    }
}

impl TabDrag {
    /// The pointer has moved with the tab held: past a few pixels it is
    /// a drag, and then the tab goes before the session returned, or to
    /// the end of the row (`Some(None)`).
    pub fn drag(&mut self, pos: Pt, drawn: &Vec<TabBox>) -> (r: Option<Option<SessionUrl>>)
        requires
            old(self).near(),
            near(pos),
            all_near(drawn@),
        ensures
            final(self).near(),
            *final(self) == (TabDrag { pos, moved: strayed(*old(self), pos), ..*old(self) }),
            r is Some == strayed(*old(self), pos),
            r matches Some(before) ==> (match before {
                Some(u) => Some(u@),
                None => None,
            }) == dropped_before(drawn@, *final(self)),
    {
        self.pos = pos;
        if self.start.x - pos.x > SLACK || pos.x - self.start.x > SLACK || self.start.y - pos.y > SLACK || pos.y
            - self.start.y > SLACK {
            self.moved = true;
        }
        if !self.moved {
            return None;
        }
        let row = line_up(drawn);
        let ghost s = row_of(drawn@, drawn@.len() as int);
        let all = lay_out(&row, &self.url, Ghost(s));
        let ghost sl = slots(s, self.url@, s.len() as int);
        let n: usize = all.left.len();
        let gl: i128 = pos.x as i128 - self.grab as i128;
        let w: i128 = self.width as i128;
        let mut k: usize = 0;
        while k < row.url.len() && !row.url[k].is(&self.url)
            invariant
                k <= row.url@.len(),
                row.of(s),
                held_at(s, self.url@, k as int) == held_at(s, self.url@, 0),
                forall|j: int| 0 <= j < k ==> !(#[trigger] s[j]).url.is(self.url@),
            decreases row.url@.len() - k,
        {
            proof {
                assert(s[k as int].url == row.url@[k as int]@);
            }
            k = k + 1;
        }
        proof {
            if k < s.len() {
                assert(s[k as int].url == row.url@[k as int]@);
            }
            lemma_held_among_slots(s, self.url@, k as int, k as int);
            lemma_slots_grow(s, self.url@, k as int, s.len() as int);
        }
        if k >= row.url.len() {
            k = n;
        }
        let ghost k0 = k as int;
        let mut steps: u128 = 0;
        proof {
            lemma_walked_stays(sl, k0, gl as int, w as int, sl.len() + 1);
        }
        while steps <= n as u128
            invariant
                n == sl.len(),
                all.of(sl),
                slots_near(sl, s.len() as int),
                s.len() <= usize::MAX,
                k <= n,
                steps <= n + 1,
                -4 * FAR <= gl <= 4 * FAR,
                0 <= w <= FAR,
                walked(sl, k as int, gl as int, w as int, (n + 1 - steps) as nat) == walked(
                    sl,
                    k0,
                    gl as int,
                    w as int,
                    (n + 1) as nat,
                ),
            ensures
                k <= n,
                k == walked(sl, k0, gl as int, w as int, (n + 1) as nat),
            decreases n + 1 - steps,
        {
            proof {
                if k < n {
                    assert(sl[k as int].left == all.left@[k as int] && sl[k as int].right == all.right@[k as int]);
                }
                if k > 0 {
                    assert(sl[k - 1].left == all.left@[k - 1] && sl[k - 1].right == all.right@[k - 1]);
                }
                assert(s.len() + 2 <= 0x1_0000_0000_0000_0001);
            }
            if k < n && gl >= all.left[k] && 2 * gl + w >= all.left[k] + all.right[k] {
                k = k + 1;
            } else if k > 0 && gl + w <= all.right[k - 1] && 2 * gl + w < all.left[k - 1] + all.right[k - 1] {
                k = k - 1;
            } else {
                break;
            }
            steps = steps + 1;
        }
        if k < n {
            proof {
                assert(sl[k as int].url == all.url@[k as int]@);
            }
            Some(Some(all.url[k].copy()))
        } else {
            Some(None)
        }
    }
}

proof fn lemma_walked_stays(s: Seq<Slot>, k: int, gl: int, width: int, steps: nat)
    requires
        0 <= k <= s.len(),
    ensures
        0 <= walked(s, k, gl, width, steps) <= s.len(),
    decreases steps,
{
    if steps > 0 {
        if passes_right(s, k, gl, width) {
            lemma_walked_stays(s, k + 1, gl, width, (steps - 1) as nat);
        } else if passes_left(s, k, gl, width) {
            lemma_walked_stays(s, k - 1, gl, width, (steps - 1) as nat);
        }
    }
}

/// What letting go of a tab that is held does.
pub enum TabClick {
    /// It was dragged: it stays where it went.
    Dropped,
    /// The current tab, clicked: the picker opens, or goes.
    TogglePicker,
    /// Another tab, clicked: the window moves to its session.
    Switch(SessionUrl),
}

impl TabDrag {
    /// The button comes up: a tab that was not dragged was clicked.
    pub fn release(self) -> (c: TabClick)
        ensures
            self.moved ==> c is Dropped,
            !self.moved && self.current ==> c is TogglePicker,
            !self.moved && !self.current ==> c == TabClick::Switch(self.url),
    {
        if self.moved {
            TabClick::Dropped
        } else if self.current {
            TabClick::TogglePicker
        } else {
            TabClick::Switch(self.url)
        }
    }
}

/// The leftmost of `x` and the first `n` tabs' left edges.
pub open spec fn leftmost(drawn: Seq<TabBox>, x: int, n: int) -> int
    decreases n,
{
    if n <= 0 || n > drawn.len() {
        x
    } else {
        let before = leftmost(drawn, x, n - 1);
        if drawn[n - 1].at.x < before {
            drawn[n - 1].at.x as int
        } else {
            before
        }
    }
}

/// The rightmost of `x` and the first `n` tabs' right edges.
pub open spec fn rightmost(drawn: Seq<TabBox>, x: int, n: int) -> int
    decreases n,
{
    if n <= 0 || n > drawn.len() {
        x
    } else {
        let before = rightmost(drawn, x, n - 1);
        if drawn[n - 1].at.x + drawn[n - 1].width > before {
            drawn[n - 1].at.x + drawn[n - 1].width
        } else {
            before
        }
    }
}

/// Where a tab that is dragged floats: under the pointer, kept within
/// the row as it was drawn, and as high as it was; nowhere while it is
/// not dragged, or was not drawn.
pub open spec fn floats(drawn: Seq<TabBox>, d: TabDrag) -> Option<(int, int)> {
    let i = drawn_at(drawn, d.url@, 0);
    if !d.moved || i >= drawn.len() {
        None
    } else {
        let left = leftmost(drawn, drawn[i].at.x as int, drawn.len() as int);
        let right = rightmost(drawn, drawn[i].at.x + drawn[i].width, drawn.len() as int);
        let x = d.pos.x - d.grab;
        let x = if x > right - d.width {
            right - d.width
        } else {
            x
        };
        Some((
            if x < left {
                left
            } else {
                x
            },
            drawn[i].at.y as int,
        ))
    }
}

impl TabDrag {
    /// Where the tab floats while it is dragged.
    pub fn float(&self, drawn: &Vec<TabBox>) -> (p: Option<Pt>)
        requires
            self.near(),
            all_near(drawn@),
        ensures
            match p {
                Some(p) => floats(drawn@, *self) == Some((p.x as int, p.y as int)),
                None => floats(drawn@, *self) is None,
            },
    {
        let mine: usize = find_drawn(drawn, &self.url);
        if !self.moved || mine >= drawn.len() {
            return None;
        }
        proof {
            assert(drawn@[mine as int].near());
        }
        let mut left: i64 = drawn[mine].at.x;
        let mut right: i64 = drawn[mine].at.x + drawn[mine].width;
        let ghost x0 = left as int;
        let ghost r0 = right as int;
        let mut i: usize = 0;
        while i < drawn.len()
            invariant
                i <= drawn@.len(),
                all_near(drawn@),
                left == leftmost(drawn@, x0, i as int),
                right == rightmost(drawn@, r0, i as int),
                -FAR <= left <= FAR,
                -FAR <= right <= 2 * FAR,
            decreases drawn@.len() - i,
        {
            proof {
                assert(drawn@[i as int].near());
            }
            if drawn[i].at.x < left {
                left = drawn[i].at.x;
            }
            if drawn[i].at.x + drawn[i].width > right {
                right = drawn[i].at.x + drawn[i].width;
            }
            i = i + 1;
        }
        let mut x: i64 = self.pos.x - self.grab;
        if x > right - self.width {
            x = right - self.width;
        }
        if x < left {
            x = left;
        }
        Some(Pt { x, y: drawn[mine].at.y })
    }
}

/// A tab dragged does not leave the row: it floats no farther left than
/// the row's left edge, and, where the row is as wide as it is, no
/// farther right than its right edge.
pub proof fn law_a_tab_floats_within_the_row(drawn: Seq<TabBox>, d: TabDrag, i: int)
    requires
        floats(drawn, d) is Some,
        0 <= i < drawn.len(),
        d.width <= drawn[i].width,
    ensures
        ({
            let (x, y) = floats(drawn, d)->0;
            let mine = drawn_at(drawn, d.url@, 0);
            let left = leftmost(drawn, drawn[mine].at.x as int, drawn.len() as int);
            let right = rightmost(drawn, drawn[mine].at.x + drawn[mine].width, drawn.len() as int);
            left <= x && x + d.width <= right
        }),
{
    let mine = drawn_at(drawn, d.url@, 0);
    lemma_leftmost(drawn, drawn[mine].at.x as int, drawn.len() as int, i);
    lemma_rightmost(drawn, drawn[mine].at.x + drawn[mine].width, drawn.len() as int, i);
}

proof fn lemma_leftmost(drawn: Seq<TabBox>, x: int, n: int, i: int)
    requires
        0 <= i < n <= drawn.len(),
    ensures
        leftmost(drawn, x, n) <= drawn[i].at.x,
    decreases n,
{
    if i < n - 1 {
        lemma_leftmost(drawn, x, n - 1, i);
    }
}

proof fn lemma_rightmost(drawn: Seq<TabBox>, x: int, n: int, i: int)
    requires
        0 <= i < n <= drawn.len(),
    ensures
        rightmost(drawn, x, n) >= drawn[i].at.x + drawn[i].width,
    decreases n,
{
    if i < n - 1 {
        lemma_rightmost(drawn, x, n - 1, i);
    }
}

/// How the title bar stands: the session the window shows, whether that
/// runs in this process, whether a session can be switched from here,
/// the tab held, and the tab the pointer is on.
pub struct Bar {
    pub url: SessionUrl,
    pub in_process: bool,
    pub clickable: bool,
    pub drag: Option<TabDrag>,
    pub hovered: Option<SessionUrl>,
    /// The pointer has rested on the tab for a while.
    pub rested: bool,
}

/// A tab's face: its name, the host after it for a session elsewhere,
/// what it is doing, the bell, the key that reaches it, and whether it
/// has a button to close it, and shows it.
pub struct Face {
    pub current: bool,
    pub text: String,
    pub host: Option<String>,
    pub word: Option<String>,
    pub notified: bool,
    pub key: Option<&'static str>,
    pub closable: bool,
    pub close: bool,
    /// It is dragged: its place in the row is kept, empty.
    pub held: bool,
}

/// The key that reaches a tab: the first nine have one.
pub open spec fn key_for(i: int) -> Option<Seq<char>> {
    if i == 0 {
        Some("\u{2318}1"@)
    } else if i == 1 {
        Some("\u{2318}2"@)
    } else if i == 2 {
        Some("\u{2318}3"@)
    } else if i == 3 {
        Some("\u{2318}4"@)
    } else if i == 4 {
        Some("\u{2318}5"@)
    } else if i == 5 {
        Some("\u{2318}6"@)
    } else if i == 6 {
        Some("\u{2318}7"@)
    } else if i == 7 {
        Some("\u{2318}8"@)
    } else if i == 8 {
        Some("\u{2318}9"@)
    } else {
        None
    }
}

fn key(i: usize) -> (k: Option<&'static str>)
    ensures
        match k {
            Some(k) => key_for(i as int) == Some(k@),
            None => key_for(i as int) is None,
        },
{
    if i == 0 {
        Some("\u{2318}1")
    } else if i == 1 {
        Some("\u{2318}2")
    } else if i == 2 {
        Some("\u{2318}3")
    } else if i == 3 {
        Some("\u{2318}4")
    } else if i == 4 {
        Some("\u{2318}5")
    } else if i == 5 {
        Some("\u{2318}6")
    } else if i == 6 {
        Some("\u{2318}7")
    } else if i == 7 {
        Some("\u{2318}8")
    } else if i == 8 {
        Some("\u{2318}9")
    } else {
        None
    }
}

/// What a session that runs in this process is called.
pub open spec fn name_in(bar: Bar, u: Url) -> Seq<char> {
    if bar.in_process && u.is(bar.url@) {
        "in-process"@
    } else {
        u.session
    }
}

/// The face of the `i`th of `n` tabs.
pub open spec fn faced(bar: Bar, t: TabInfo, i: int, n: int, f: Face) -> bool {
    let u = t.url@;
    let current = u.is(bar.url@);
    &&& f.current == current
    &&& f.text@ == name_in(bar, u)
    &&& maybe(f.host) == (if u.local() {
        None
    } else {
        Some(u.arg)
    })
    &&& maybe(f.word) == maybe(t.word)
    &&& f.notified == t.notified
    &&& (match f.key {
        Some(k) => Some(k@),
        None => None,
    }) == key_for(i)
    &&& f.closable == (bar.clickable && (!current || n > 1))
    &&& f.close == (f.closable && bar.drag is None && bar.hovered is Some && bar.hovered->0@.is(u))
    &&& f.held == (bar.drag is Some && bar.drag->0.moved && bar.drag->0.url@.is(u))
}

fn face(bar: &Bar, t: &TabInfo, i: usize, n: usize) -> (f: Face)
    ensures
        faced(*bar, *t, i as int, n as int, f),
{
    let current = t.url.is(&bar.url);
    let text: String = if bar.in_process && current {
        "in-process".to_owned()
    } else {
        t.url.session.clone()
    };
    let host: Option<String> = if t.url.is_local() {
        None
    } else {
        Some(t.url.arg.clone())
    };
    let closable = bar.clickable && (!current || n > 1);
    let on_it = match &bar.hovered {
        Some(h) => h.is(&t.url) && bar.drag.is_none(),
        None => false,
    };
    let held = match &bar.drag {
        Some(d) => d.moved && d.url.is(&t.url),
        None => false,
    };
    Face {
        current,
        text,
        host,
        word: copy_maybe(&t.word),
        notified: t.notified,
        key: key(i),
        closable,
        close: closable && on_it,
        held,
    }
}

/// The title bar: the tabs' faces; or, where there is one tab, its face
/// as the title, for one tab is no tab.
pub struct Strip {
    pub title: Option<Face>,
    pub faces: Vec<Face>,
    /// Where the tab that is dragged floats.
    pub floating: Option<Pt>,
    /// Where the hovered tab's card hangs, under its left edge.
    pub card: Option<i64>,
}

/// Where the card of the tab that the pointer rests on hangs: nowhere
/// while a tab is held.
pub open spec fn card_at(bar: Bar, drawn: Seq<TabBox>) -> Option<int> {
    if bar.hovered is Some && bar.drag is None && bar.rested {
        let i = drawn_at(drawn, bar.hovered->0@, 0);
        if i < drawn.len() {
            Some(drawn[i].at.x as int)
        } else {
            None
        }
    } else {
        None
    }
}

/// The title bar as it is drawn: a tab per session the app has open, in
/// order, the current one marked.
pub fn titlebar(bar: &Bar, tabs: &Vec<TabInfo>, drawn: &Vec<TabBox>) -> (s: Strip)
    requires
        all_near(drawn@),
        bar.drag matches Some(d) ==> d.near(),
    ensures
        match s.title {
            Some(f) => tabs@.len() == 1 && faced(*bar, tabs@[0], 0, 1, f) && s.faces@.len() == 0,
            None => tabs@.len() != 1 && s.faces@.len() == tabs@.len() && forall|i: int|
                0 <= i < tabs@.len() ==> faced(*bar, tabs@[i], i, tabs@.len() as int, #[trigger] s.faces@[i]),
        },
        match s.floating {
            Some(p) => bar.drag is Some && floats(drawn@, bar.drag->0) == Some((p.x as int, p.y as int)),
            None => bar.drag is Some ==> floats(drawn@, bar.drag->0) is None,
        },
        match s.card {
            Some(x) => card_at(*bar, drawn@) == Some(x as int),
            None => card_at(*bar, drawn@) is None,
        },
{
    let floating = match &bar.drag {
        Some(d) => d.float(drawn),
        None => None,
    };
    let mut card: Option<i64> = None;
    if let Some(h) = &bar.hovered {
        if bar.drag.is_none() && bar.rested {
            let i: usize = find_drawn(drawn, h);
            if i < drawn.len() {
                card = Some(drawn[i].at.x);
            }
        }
    }
    let mut faces: Vec<Face> = Vec::new();
    if tabs.len() == 1 {
        return Strip { title: Some(face(bar, &tabs[0], 0, 1)), faces, floating, card };
    }
    let mut i: usize = 0;
    while i < tabs.len()
        invariant
            i <= tabs@.len(),
            faces@.len() == i,
            forall|j: int|
                0 <= j < i ==> faced(*bar, tabs@[j], j, tabs@.len() as int, #[trigger] faces@[j]),
        decreases tabs@.len() - i,
    {
        faces.push(face(bar, &tabs[i], i, tabs.len()));
        i = i + 1;
    }
    Strip { title: None, faces, floating, card }
}

/// The tab that the pointer is on, once it has come to or left one: not
/// while a tab is held, for one passed over is not rested on.
pub open spec fn hovering(hovered: Option<Url>, dragging: bool, u: Url, on: bool) -> Option<Url> {
    if dragging {
        hovered
    } else if on {
        if hovered is Some && hovered->0.is(u) {
            hovered
        } else {
            Some(u)
        }
    } else if hovered is Some && hovered->0.is(u) {
        None
    } else {
        hovered
    }
}

impl Bar {
    /// The pointer has come to a tab, or left it.  True when it has come
    /// to rest on another: the card is due after a while.
    pub fn hover(&mut self, u: &SessionUrl, on: bool) -> (fresh: bool)
        ensures
            *final(self) == (Bar { hovered: final(self).hovered, rested: final(self).rested, ..*old(self) }),
            (match final(self).hovered {
                Some(h) => Some(h@),
                None => None,
            }) == hovering(
                match old(self).hovered {
                    Some(h) => Some(h@),
                    None => None,
                },
                old(self).drag is Some,
                u@,
                on,
            ),
            fresh == (old(self).drag is None && on && !(old(self).hovered is Some && old(self).hovered->0@.is(u@))),
            final(self).rested == (old(self).rested && !fresh),
    {
        if self.drag.is_some() {
            return false;
        }
        let same = match &self.hovered {
            Some(h) => h.is(u),
            None => false,
        };
        if on {
            if !same {
                self.hovered = Some(u.copy());
                self.rested = false;
                return true;
            }
        } else if same {
            self.hovered = None;
        }
        false
    }
}

/// A tab that is held is dragged once the pointer is more than four pixels
/// from where it went down, either way, and from then on.
pub proof fn law_a_tab_is_dragged_past_four_pixels(d: TabDrag, pos: Pt)
    ensures
        d.moved ==> strayed(d, pos),
        !d.moved ==> (strayed(d, pos) <==> pos.x > d.start.x + 4 * SUB || pos.x < d.start.x - 4 * SUB || pos.y > d.start.y
            + 4 * SUB || pos.y < d.start.y - 4 * SUB),
{
}

proof fn lemma_spot_at(row: Seq<Spot>, x: int, i: int)
    requires
        0 <= i <= row.len(),
    ensures
        i <= spot_at(row, x, i) <= row.len(),
        forall|j: int| i <= j < spot_at(row, x, i) ==> (#[trigger] row[j]).x <= x,
        spot_at(row, x, i) < row.len() ==> row[spot_at(row, x, i)].x > x,
    decreases row.len() - i,
{
    if i < row.len() && row[i].x <= x {
        lemma_spot_at(row, x, i + 1);
    }
}

/// The tabs' row is the tabs that are drawn, from left to right.
pub proof fn law_the_row_is_from_left_to_right(drawn: Seq<TabBox>, n: int)
    requires
        0 <= n <= drawn.len(),
    ensures
        ({
            let row = row_of(drawn, n);
            &&& row.len() == n
            &&& forall|i: int, j: int| 0 <= i <= j < n ==> (#[trigger] row[i]).x <= (#[trigger] row[j]).x
            &&& forall|i: int| 0 <= i < n ==> row.contains(spot(#[trigger] drawn[i]))
        }),
    decreases n,
{
    if n > 0 {
        law_the_row_is_from_left_to_right(drawn, n - 1);
        let before = row_of(drawn, n - 1);
        let new = spot(drawn[n - 1]);
        lemma_spot_at(before, new.x, 0);
        let k = spot_at(before, new.x, 0);
        let row = before.insert(k, new);
        assert(row_of(drawn, n) == row);
        assert forall|i: int, j: int| 0 <= i <= j < n implies (#[trigger] row[i]).x <= (#[trigger] row[j]).x by {
            let a = if i < k {
                before[i]
            } else if i == k {
                new
            } else {
                before[i - 1]
            };
            let b = if j < k {
                before[j]
            } else if j == k {
                new
            } else {
                before[j - 1]
            };
            assert(row[i] == a && row[j] == b);
            if i < k && j > k {
                assert(before[i].x <= before[j - 1].x);
            }
            if i == k && j > k {
                assert(before[k].x <= before[j - 1].x);
            }
        }
        assert forall|i: int| 0 <= i < n implies row.contains(spot(#[trigger] drawn[i])) by {
            if i < n - 1 {
                assert(before.contains(spot(drawn[i])));
                let m = choose|m: int| 0 <= m < before.len() && before[m] == spot(drawn[i]);
                if m < k {
                    assert(row[m] == spot(drawn[i]));
                } else {
                    assert(row[m + 1] == spot(drawn[i]));
                }
            } else {
                assert(row[k] == new);
            }
        }
    }
}

/// The tabs beside the one that is held lie as they would without it: from the
/// row's left edge on, each as far from the last as tabs are, and it is not
/// among them.
pub proof fn law_the_others_close_up(row: Seq<Spot>, held: Url, n: int)
    requires
        0 <= n <= row.len(),
        row.len() > 0,
    ensures
        ({
            let s = slots(row, held, n);
            &&& s.len() == 0 ==> left_after(row, held, n) == row[0].x
            &&& s.len() > 0 ==> s[0].left == row[0].x && left_after(row, held, n) == s.last().right + gap(row)
            &&& forall|k: int| 0 < k < s.len() ==> (#[trigger] s[k]).left == s[k - 1].right + gap(row)
            &&& forall|k: int| 0 <= k < s.len() ==> !(#[trigger] s[k]).url.is(held)
        }),
    decreases n,
{
    if n > 0 {
        law_the_others_close_up(row, held, n - 1);
    }
}

/// The first nine tabs have the keys from one to nine, and no others have any.
pub proof fn law_nine_tabs_have_keys(i: int)
    ensures
        0 <= i < 9 ==> key_for(i) == Some(
            seq!['\u{2318}', seq!['1', '2', '3', '4', '5', '6', '7', '8', '9'][i]],
        ),
        i < 0 || i >= 9 ==> key_for(i) is None,
{
    reveal_strlit("\u{2318}1");
    reveal_strlit("\u{2318}2");
    reveal_strlit("\u{2318}3");
    reveal_strlit("\u{2318}4");
    reveal_strlit("\u{2318}5");
    reveal_strlit("\u{2318}6");
    reveal_strlit("\u{2318}7");
    reveal_strlit("\u{2318}8");
    reveal_strlit("\u{2318}9");
    if 0 <= i < 9 {
        let c = seq!['1', '2', '3', '4', '5', '6', '7', '8', '9'][i];
        assert(key_for(i)->0 =~= seq!['\u{2318}', c]);
    }
}

/// A tab's face names its session, and its host where that is elsewhere; the
/// only tab cannot be closed, nor any where nothing is clicked; a tab offers
/// to close while the pointer is on it and none is dragged.
pub proof fn law_a_tabs_face(bar: Bar, t: TabInfo, i: int, n: int, f: Face)
    requires
        faced(bar, t, i, n, f),
    ensures
        f.current <==> t.url@.is(bar.url@),
        !(bar.in_process && f.current) ==> f.text@ == t.url@.session,
        bar.in_process && f.current ==> f.text@ == "in-process"@,
        f.host is None <==> t.url@.local(),
        f.host matches Some(h) ==> h@ == t.url@.arg,
        f.closable ==> bar.clickable && (n > 1 || !f.current),
        bar.clickable && n > 1 ==> f.closable,
        f.close ==> f.closable && bar.drag is None && bar.hovered is Some && bar.hovered->0@.is(t.url@),
        f.closable && bar.drag is None && bar.hovered is Some && bar.hovered->0@.is(t.url@) ==> f.close,
        f.held ==> bar.drag is Some && bar.drag->0.moved && bar.drag->0.url@.is(t.url@),
        f.notified == t.notified,
        f.key is Some <==> 0 <= i < 9,
{
    law_nine_tabs_have_keys(i);
}

/// The pointer is on the tab that it came to last and has not left; while a
/// tab is dragged nothing changes.
pub proof fn law_the_pointer_is_on_one_tab(hovered: Option<Url>, u: Url, on: bool)
    ensures
        hovering(hovered, true, u, on) == hovered,
        hovering(hovered, false, u, true) is Some,
        hovered is None || !hovered->0.is(u) ==> hovering(hovered, false, u, true) == Some(u),
        hovered is Some && hovered->0.is(u) ==> hovering(hovered, false, u, true) == hovered && hovering(
            hovered,
            false,
            u,
            false,
        ) is None,
        hovered is Some && !hovered->0.is(u) ==> hovering(hovered, false, u, false) == hovered,
        hovered is None ==> hovering(hovered, false, u, false) is None,
{
}

/// A tab's card hangs only where the pointer rests on the tab, none is dragged
/// and the tab is drawn.
pub proof fn law_a_card_hangs_under_the_tab(bar: Bar, drawn: Seq<TabBox>)
    ensures
        card_at(bar, drawn) is Some ==> bar.hovered is Some && bar.rested && bar.drag is None,
        bar.hovered is None || !bar.rested || bar.drag is Some ==> card_at(bar, drawn) is None,
        card_at(bar, drawn) is Some ==> exists|i: int|
            0 <= i < drawn.len() && (#[trigger] drawn[i]).url@.is(bar.hovered->0@) && card_at(bar, drawn)->0
                == drawn[i].at.x,
{
    if bar.hovered is Some {
        lemma_drawn_at(drawn, bar.hovered->0@, 0);
        let i = drawn_at(drawn, bar.hovered->0@, 0);
        if i < drawn.len() {
            assert(drawn[i].url@.is(bar.hovered->0@));
        }
    }
}

proof fn lemma_drawn_at(b: Seq<TabBox>, u: Url, i: int)
    requires
        0 <= i <= b.len(),
    ensures
        i <= drawn_at(b, u, i) <= b.len(),
        drawn_at(b, u, i) < b.len() ==> b[drawn_at(b, u, i)].url@.is(u),
    decreases b.len() - i,
{
    if i < b.len() && !b[i].url@.is(u) {
        lemma_drawn_at(b, u, i + 1);
    }
}

} // verus!
