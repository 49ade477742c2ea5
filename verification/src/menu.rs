//! The tools menu on the fourth button: libdraw's `menuhit`, as acme pops
//! it up on a window.  The numbers are menuhit's; coordinates are whole
//! pixels of acme's area.

use vstd::prelude::*;
use vstd::string::*;

use crate::ids::WindowId;
use crate::selector::strs;
use crate::text::same;

verus! {

/// Outside to text.
pub const MARGIN: i64 = 4;

/// Outside to selection boxes.
pub const BORDER: i64 = 2;

/// Width of the outlining border.
pub const BLACKBORDER: i64 = 2;

/// Extra spacing between lines of text.
pub const VSPACING: i64 = 2;

/// Maximum number of entries before scrolling turns on.
pub const MAXUNSCROLL: i64 = 25;

/// Number of entries in the scrolling part.
pub const NSCROLL: i64 = 20;

/// Width of the scroll bar.
pub const SCROLLWID: i64 = 14;

/// Between text and scroll bar.
pub const GAP: i64 = 4;

/// A rectangle: its right and bottom edges are outside it.
#[derive(Clone, Copy, Debug, PartialEq, Eq, Structural)]
pub struct Rect {
    pub x0: i64,
    pub y0: i64,
    pub x1: i64,
    pub y1: i64,
}

/// The farthest that coordinates and sizes reach.
pub const REACH: i64 = 0x1_0000_0000;

/// The farthest that a menu reaches.
pub const OUTER: i64 = 0x10_0000_0000;

/// A number within reach.
pub open spec fn reached(x: int, far: int) -> bool {
    -far <= x <= far
}

impl Rect {
    /// All of it within reach.
    pub open spec fn reached(self, far: int) -> bool {
        reached(self.x0 as int, far) && reached(self.y0 as int, far) && reached(self.x1 as int, far) && reached(
            self.y1 as int,
            far,
        )
    }

    /// The point is in it.
    pub open spec fn has(self, x: int, y: int) -> bool {
        self.x0 <= x < self.x1 && self.y0 <= y < self.y1
    }

    /// A rectangle from its corners.
    pub fn new(x0: i64, y0: i64, x1: i64, y1: i64) -> (r: Rect)
        ensures
            r == (Rect { x0, y0, x1, y1 }),
    {
        Rect { x0, y0, x1, y1 }
    }

    /// Whether the point is in it.
    pub fn contains(&self, x: i64, y: i64) -> (r: bool)
        ensures
            r == self.has(x as int, y as int),
    {
        self.x0 <= x && x < self.x1 && self.y0 <= y && y < self.y1
    }
}

/// A menu that is up.
pub struct Menu {
    pub window: WindowId,
    pub items: Vec<String>,
    /// The whole menu, with its border.
    pub menur: Rect,
    /// The text elements.
    pub textr: Rect,
    pub scrollr: Rect,
    pub scrolling: bool,
    pub nitemdrawn: i64,
    /// The first item drawn (scrolling).
    pub off: i64,
    /// The highlighted item, relative to `off`; -1 for none.
    pub lasti: i64,
    /// Item height: the font's height plus the spacing.
    pub ih: i64,
}

/// Half of `x`, toward zero.
pub open spec fn half(x: int) -> int {
    if x >= 0 {
        x / 2
    } else {
        -((-x) / 2)
    }
}

fn halved(x: i64) -> (r: i64)
    requires
        reached(x as int, 8 * OUTER as int),
    ensures
        r == half(x as int),
{
    if x >= 0 {
        x / 2
    } else {
        -((-x) / 2)
    }
}

/// `x` divided, toward zero.
pub open spec fn toward_zero(x: int, by: int) -> int {
    if x >= 0 {
        x / by
    } else {
        -((-x) / by)
    }
}

fn divided(x: i128, by: i128) -> (r: i128)
    requires
        by > 0,
        -0x1000_0000_0000_0000_0000_0000 <= x <= 0x1000_0000_0000_0000_0000_0000,
    ensures
        r == toward_zero(x as int, by as int),
        x >= 0 ==> 0 <= r <= x,
        x < 0 ==> x <= r <= 0,
{
    proof {
        let y = if x >= 0 {
            x as int
        } else {
            -(x as int)
        };
        assert(0 <= y / (by as int) <= y) by (nonlinear_arith)
            requires
                y >= 0,
                by > 0,
        ;
    }
    if x >= 0 {
        x / by
    } else {
        -((-x) / by)
    }
}

/// `x` kept between `lo` and `hi`, the first of which is the lesser.
pub open spec fn clamped(x: int, lo: int, hi: int) -> int {
    if x < lo {
        lo
    } else if x > hi {
        hi
    } else {
        x
    }
}

/// The greater of the two.
pub open spec fn greater(a: int, b: int) -> int {
    if a > b {
        a
    } else {
        b
    }
}

impl Menu {
    /// A menu that is in order: its parts within reach, as many items
    /// drawn as there are or fewer, those drawn among those there are,
    /// the highlighted one among those drawn.
    pub open spec fn wf(&self) -> bool {
        &&& self.menur.reached(OUTER as int) && self.textr.reached(OUTER as int) && self.scrollr.reached(OUTER as int)
        &&& 0 < self.ih <= REACH
        &&& 1 <= self.nitemdrawn <= MAXUNSCROLL
        &&& 0 <= self.off <= greater(self.items@.len() - self.nitemdrawn, 0)
        &&& -1 <= self.lasti < self.nitemdrawn
    }

    /// The rectangle, with its edge, of a drawn item.
    pub open spec fn rect_of(&self, i: int) -> (int, int, int, int) {
        if i < 0 {
            (0, 0, 0, 0)
        } else {
            let y0 = self.textr.y0 + self.ih * i;
            let g = MARGIN - BORDER;
            (self.textr.x0 - g, y0 - g, self.textr.x1 + g, y0 + self.ih + g)
        }
    }

    /// The rectangle, with its edge, of a drawn item; an empty one for
    /// none.
    pub fn item_rect(&self, i: i64) -> (r: Rect)
        requires
            self.wf(),
            i <= MAXUNSCROLL,
        ensures
            (r.x0 as int, r.y0 as int, r.x1 as int, r.y1 as int) == self.rect_of(i as int),
            r.reached(4 * OUTER),
    {
        if i < 0 {
            return Rect::new(0, 0, 0, 0);
        }
        proof {
            assert(0 <= self.ih * i <= 0x1_0000_0000int * 25) by (nonlinear_arith)
                requires
                    0 <= i <= 25,
                    0 < self.ih <= 0x1_0000_0000,
            ;
        }
        let y0: i64 = self.textr.y0 + self.ih * i;
        let g: i64 = MARGIN - BORDER;
        Rect::new(self.textr.x0 - g, y0 - g, self.textr.x1 + g, y0 + self.ih + g)
    }

    /// The drawn item that a point is on; -1 outside the text.
    pub open spec fn item_at(&self, x: int, y: int) -> int {
        if self.textr.x0 + MARGIN <= x < self.textr.x1 - MARGIN && self.textr.y0 + MARGIN <= y < self.textr.y1 - MARGIN {
            let i = (y - (self.textr.y0 + MARGIN)) / (self.ih as int);
            if i < self.nitemdrawn - 1 {
                i
            } else {
                self.nitemdrawn - 1
            }
        } else {
            -1
        }
    }

    /// The drawn item that a point is on; -1 outside the text.
    pub fn sel(&self, x: i64, y: i64) -> (i: i64)
        requires
            self.wf(),
        ensures
            i == self.item_at(x as int, y as int),
            -1 <= i < self.nitemdrawn,
    {
        let r = Rect::new(
            self.textr.x0 + MARGIN,
            self.textr.y0 + MARGIN,
            self.textr.x1 - MARGIN,
            self.textr.y1 - MARGIN,
        );
        if !r.contains(x, y) {
            return -1;
        }
        let d: i64 = y - r.y0;
        let i: i64 = d / self.ih;
        proof {
            assert(0 <= d as int / self.ih as int) by (nonlinear_arith)
                requires
                    d >= 0,
                    self.ih > 0,
            ;
        }
        if i < self.nitemdrawn - 1 {
            i
        } else {
            self.nitemdrawn - 1
        }
    }

    /// The scroll bar's thumb: its top and bottom, in proportion to what
    /// is drawn of what there is, and at least two pixels.
    pub open spec fn thumb_of(&self) -> (int, int) {
        let n = greater(self.items@.len() as int, 1);
        let dy = self.scrollr.y1 - self.scrollr.y0;
        let top = self.scrollr.y0 + toward_zero(dy * self.off, n);
        let bottom = self.scrollr.y0 + toward_zero(dy * (self.off + self.nitemdrawn), n);
        (top, greater(bottom, top + 2))
    }

    /// The scroll bar's thumb.
    pub fn thumb(&self) -> (r: Rect)
        requires
            self.wf(),
            self.items@.len() <= REACH,
        ensures
            r.x0 == self.scrollr.x0 && r.x1 == self.scrollr.x1,
            (r.y0 as int, r.y1 as int) == self.thumb_of(),
    {
        let n: i128 = if self.items.len() > 1 {
            self.items.len() as i128
        } else {
            1
        };
        let dy: i128 = self.scrollr.y1 as i128 - self.scrollr.y0 as i128;
        let off: i128 = self.off as i128;
        let drawn: i128 = self.nitemdrawn as i128;
        proof {
            assert(-0x20_0000_0000int * 0x1_0000_0000int <= dy * off <= 0x20_0000_0000int * 0x1_0000_0000int)
                by (nonlinear_arith)
                requires
                    -0x20_0000_0000 <= dy <= 0x20_0000_0000,
                    0 <= off <= 0x1_0000_0000,
            ;
            assert(-0x20_0000_0000int * 0x2_0000_0000int <= dy * (off + drawn) <= 0x20_0000_0000int * 0x2_0000_0000int)
                by (nonlinear_arith)
                requires
                    -0x20_0000_0000 <= dy <= 0x20_0000_0000,
                    0 <= off + drawn <= 0x2_0000_0000,
            ;
        }
        let a: i128 = divided(dy * off, n);
        let b: i128 = divided(dy * (off + drawn), n);
        proof {
            lemma_divided_within(dy as int, off as int, n as int);
            lemma_divided_within(dy as int, (off + drawn) as int, n as int);
        }
        let y0: i64 = self.scrollr.y0 + a as i64;
        let mut y1: i64 = self.scrollr.y0 + b as i64;
        if y1 < y0 + 2 {
            y1 = y0 + 2;
        }
        Rect::new(self.scrollr.x0, y0, self.scrollr.x1, y1)
    }
}

proof fn lemma_divided_within(dy: int, k: int, n: int)
    requires
        n >= 1,
        0 <= k <= n + 25,
        -0x20_0000_0000 <= dy <= 0x20_0000_0000,
    ensures
        -0x400_0000_0000 <= toward_zero(dy * k, n) <= 0x400_0000_0000,
{
    let y = if dy >= 0 {
        dy
    } else {
        -dy
    };
    assert(y * k <= 0x20_0000_0000int * (n * 26)) by (nonlinear_arith)
        requires
            0 <= y <= 0x20_0000_0000,
            0 <= k <= n + 25,
            n >= 1,
    ;
    assert(0 <= (y * k) / n <= 0x20_0000_0000int * 26) by (nonlinear_arith)
        requires
            0 <= y,
            0 <= k,
            n >= 1,
            y * k <= 0x20_0000_0000int * (n * 26),
    ;
    if dy >= 0 {
        assert(dy * k >= 0) by (nonlinear_arith)
            requires
                dy >= 0,
                k >= 0,
        ;
    } else {
        assert(dy * k == -(y * k)) by (nonlinear_arith)
            requires
                y == -dy,
        ;
        assert(y * k >= 0) by (nonlinear_arith)
            requires
                y >= 0,
                k >= 0,
        ;
        if dy * k == 0 {
            assert(0int / n == 0) by (nonlinear_arith)
                requires
                    n >= 1,
            ;
        }
    }
}

/// The place of the item chosen last, from `i` on; the first where it is
/// not there.
pub open spec fn chosen_at(items: Seq<Seq<char>>, last: Option<Seq<char>>, i: int) -> int
    decreases items.len() - i,
{
    if last is None || !(0 <= i < items.len()) {
        0
    } else if items[i] == last->0 {
        i
    } else {
        chosen_at(items, last, i + 1)
    }
}

fn find_chosen(items: &Vec<String>, last: Option<&str>) -> (i: usize)
    ensures
        i == chosen_at(
            strs(items@),
            match last {
                Some(l) => Some(l@),
                None => None,
            },
            0,
        ),
        items@.len() > 0 ==> i < items@.len(),
        items@.len() == 0 ==> i == 0,
{
    if let Some(l) = last {
        let mut i: usize = 0;
        while i < items.len()
            invariant
                i <= items@.len(),
                last == Some(l),
                chosen_at(strs(items@), Some(l@), i as int) == chosen_at(strs(items@), Some(l@), 0),
            decreases items@.len() - i,
        {
            proof {
                assert(strs(items@)[i as int] == items@[i as int]@);
            }
            if same(items[i].as_str(), l) {
                return i;
            }
            i = i + 1;
        }
    }
    0
}

/// How the items of a menu are shown: whether it scrolls, how many are
/// drawn, the first drawn, and the one under the pointer.
#[derive(Clone, Copy, Debug, PartialEq, Eq, Structural)]
pub struct Fit {
    pub scrolling: bool,
    pub drawn: i64,
    pub off: i64,
    pub lasti: i64,
}

/// How `n` items are shown, `lasthit` chosen last, in a space that holds
/// `room` of them.
pub open spec fn fitted(n: int, lasthit: int, room: int) -> (bool, int, int, int) {
    if n > MAXUNSCROLL || n > room {
        let drawn = greater(
            if NSCROLL < room {
                NSCROLL as int
            } else {
                room
            },
            1,
        );
        let off = clamped(lasthit - drawn / 2, 0, greater(n - drawn, 0));
        (true, drawn, off, lasthit - off)
    } else {
        (false, n, 0, lasthit)
    }
}

fn fit(n: i64, lasthit: i64, room: i64) -> (f: Fit)
    requires
        1 <= n <= REACH,
        0 <= lasthit < n,
        -2 * REACH <= room <= 2 * REACH,
    ensures
        (f.scrolling, f.drawn as int, f.off as int, f.lasti as int) == fitted(n as int, lasthit as int, room as int),
        1 <= f.drawn <= MAXUNSCROLL,
        0 <= f.lasti < f.drawn,
        0 <= f.off <= greater(n - f.drawn, 0),
{
    if n > MAXUNSCROLL || n > room {
        let mut drawn: i64 = if NSCROLL < room {
            NSCROLL
        } else {
            room
        };
        if drawn < 1 {
            drawn = 1;
        }
        let most: i64 = if n - drawn > 0 {
            n - drawn
        } else {
            0
        };
        let mut off: i64 = lasthit - drawn / 2;
        if off < 0 {
            off = 0;
        } else if off > most {
            off = most;
        }
        Fit { scrolling: true, drawn, off, lasti: lasthit - off }
    } else {
        Fit { scrolling: false, drawn: n, off: 0, lasti: lasthit }
    }
}

/// How far a menu from `lo` to `hi` is to be moved to be within a screen
/// from `from` to `to`: its start has the last word.
pub open spec fn nudge(lo: int, hi: int, from: int, to: int) -> int {
    if lo < from {
        from - lo
    } else if hi > to {
        to - hi
    } else {
        0
    }
}

fn nudged(lo: i64, hi: i64, from: i64, to: i64) -> (d: i64)
    requires
        reached(lo as int, 0x4_0000_0000),
        reached(hi as int, 0xc_0000_0000),
        reached(from as int, REACH as int),
        reached(to as int, REACH as int),
    ensures
        d == nudge(lo as int, hi as int, from as int, to as int),
{
    if lo < from {
        from - lo
    } else if hi > to {
        to - hi
    } else {
        0
    }
}

/// Where a menu pops up: its width and items' heights, so that the item
/// chosen last is centred on the pointer, and within the screen.
pub open spec fn popped(
    screen: Rect,
    mx: int,
    my: int,
    wid: int,
    drawn: int,
    lasti: int,
    ih: int,
) -> (int, int, int, int) {
    let fh = ih - VSPACING;
    let dx = mx - wid / 2;
    let dy = my - (lasti * ih + fh / 2);
    let x0 = -MARGIN + dx;
    let y0 = -MARGIN + dy;
    let x1 = wid + MARGIN + dx;
    let y1 = drawn * ih + MARGIN + dy;
    let px = nudge(x0, x1, screen.x0 as int, screen.x1 as int);
    let py = nudge(y0, y1, screen.y0 as int, screen.y1 as int);
    (x0 + px, y0 + py, x1 + px, y1 + py)
}

fn pop(screen: Rect, mx: i64, my: i64, wid: i64, drawn: i64, lasti: i64, ih: i64) -> (r: Rect)
    requires
        screen.reached(REACH as int),
        reached(mx as int, REACH as int),
        reached(my as int, REACH as int),
        0 <= wid <= 0x1_0000_0020,
        1 <= drawn <= MAXUNSCROLL,
        0 <= lasti < drawn,
        VSPACING <= ih <= 0x1000_0000,
    ensures
        (r.x0 as int, r.y0 as int, r.x1 as int, r.y1 as int) == popped(
            screen,
            mx as int,
            my as int,
            wid as int,
            drawn as int,
            lasti as int,
            ih as int,
        ),
        r.reached(0xf_0000_0000),
        r.x1 - r.x0 == wid + 2 * MARGIN,
        r.y1 - r.y0 == drawn * ih + 2 * MARGIN,
{
    proof {
        assert(0 <= lasti * ih <= 25 * 0x1000_0000int) by (nonlinear_arith)
            requires
                0 <= lasti < 25,
                0 <= ih <= 0x1000_0000,
        ;
        assert(0 <= drawn * ih <= 25 * 0x1000_0000int) by (nonlinear_arith)
            requires
                0 <= drawn <= 25,
                0 <= ih <= 0x1000_0000,
        ;
    }
    let fh: i64 = ih - VSPACING;
    let dx: i64 = mx - wid / 2;
    let dy: i64 = my - (lasti * ih + fh / 2);
    let x0: i64 = dx - MARGIN;
    let y0: i64 = dy - MARGIN;
    let x1: i64 = wid + MARGIN + dx;
    let y1: i64 = drawn * ih + MARGIN + dy;
    let px: i64 = nudged(x0, x1, screen.x0, screen.x1);
    let py: i64 = nudged(y0, y1, screen.y0, screen.y1);
    Rect::new(x0 + px, y0 + py, x1 + px, y1 + py)
}

/// A menu as it is asked for: the window's verbs, the widest of them in
/// pixels, the font's height, what was chosen last, acme's area, and
/// where the pointer is in it.
pub struct Popup<'a> {
    pub window: WindowId,
    pub widest: i64,
    pub font: i64,
    pub last: Option<&'a str>,
    pub screen: Rect,
    pub mx: i64,
    pub my: i64,
}

impl<'a> Popup<'a> {
    /// Everything within reach.
    pub open spec fn wf(&self) -> bool {
        &&& 0 <= self.widest <= REACH
        &&& 0 <= self.font <= 0xfff_0000
        &&& self.screen.reached(REACH as int)
        &&& reached(self.mx as int, REACH as int) && reached(self.my as int, REACH as int)
    }

    /// What was chosen last.
    pub open spec fn chosen(&self) -> Option<Seq<char>> {
        match self.last {
            Some(l) => Some(l@),
            None => None,
        }
    }

    /// How many items the area has room for.
    pub open spec fn room(&self) -> int {
        toward_zero(self.screen.y1 - self.screen.y0 - 10, self.font + VSPACING)
    }
}

/// The menu that comes of being asked for one, over these items.
pub open spec fn menu_of(p: Popup, items: Seq<Seq<char>>, m: Menu) -> bool {
    let ih = p.font + VSPACING;
    let (scrolling, drawn, off, lasti) = fitted(items.len() as int, chosen_at(items, p.chosen(), 0), p.room());
    let wid = if scrolling {
        p.widest + GAP + SCROLLWID
    } else {
        p.widest as int
    };
    let r = m.menur;
    &&& m.window == p.window
    &&& strs(m.items@) == items
    &&& m.scrolling == scrolling && m.nitemdrawn == drawn && m.off == off && m.lasti == lasti && m.ih == ih
    &&& (r.x0 as int, r.y0 as int, r.x1 as int, r.y1 as int) == popped(
        p.screen,
        p.mx as int,
        p.my as int,
        wid,
        drawn,
        lasti,
        ih,
    )
    &&& m.textr.x0 == r.x1 - MARGIN - p.widest && m.textr.x1 == r.x1 - MARGIN
    &&& m.textr.y0 == r.y0 + MARGIN && m.textr.y1 == r.y0 + MARGIN + drawn * ih
    &&& m.scrollr == (if scrolling {
        Rect {
            x0: (r.x0 + BORDER) as i64,
            y0: (r.y0 + BORDER) as i64,
            x1: (r.x0 + BORDER + SCROLLWID) as i64,
            y1: (r.y1 - BORDER) as i64,
        }
    } else {
        Rect { x0: 0, y0: 0, x1: 0, y1: 0 }
    })
}

/// The fourth button on a window: the tools menu, popped up so that the
/// item chosen last is under the pointer; and where the pointer is put,
/// on that item.  Nothing where there is nothing to offer.
pub fn menu_open(p: &Popup, items: Vec<String>) -> (r: Option<(Menu, i64, i64)>)
    requires
        p.wf(),
        items@.len() <= REACH,
    ensures
        r is Some == (items@.len() > 0),
        r matches Some((m, x, y)) ==> {
            &&& m.wf()
            &&& menu_of(*p, strs(items@), m)
            &&& ({
                let (x0, y0, x1, y1) = m.rect_of(m.lasti as int);
                x == half(x0 + x1) && y == half(y0 + y1)
            })
        },
{
    if items.len() == 0 {
        return None;
    }
    let n: i64 = items.len() as i64;
    let ih: i64 = p.font + VSPACING;
    let tall: i64 = p.screen.y1 - p.screen.y0 - 10;
    let room: i64 = divided(tall as i128, ih as i128) as i64;
    let ghost names = strs(items@);
    proof {
        assert(names.len() == items@.len());
        lemma_room(tall as int, ih as int);
    }
    let lasthit: i64 = find_chosen(&items, p.last) as i64;
    let f = fit(n, lasthit, room);
    let wid: i64 = if f.scrolling {
        p.widest + GAP + SCROLLWID
    } else {
        p.widest
    };
    let menur = pop(p.screen, p.mx, p.my, wid, f.drawn, f.lasti, ih);
    proof {
        assert(0 <= f.drawn * ih <= 25 * 0x1000_0000int) by (nonlinear_arith)
            requires
                0 <= f.drawn <= 25,
                0 <= ih <= 0x1000_0000,
        ;
    }
    let textr = Rect::new(
        menur.x1 - MARGIN - p.widest,
        menur.y0 + MARGIN,
        menur.x1 - MARGIN,
        menur.y0 + MARGIN + f.drawn * ih,
    );
    let scrollr = if f.scrolling {
        Rect::new(menur.x0 + BORDER, menur.y0 + BORDER, menur.x0 + BORDER + SCROLLWID, menur.y1 - BORDER)
    } else {
        Rect::new(0, 0, 0, 0)
    };
    let m = Menu {
        window: p.window,
        items,
        menur,
        textr,
        scrollr,
        scrolling: f.scrolling,
        nitemdrawn: f.drawn,
        off: f.off,
        lasti: f.lasti,
        ih,
    };
    let ir = m.item_rect(m.lasti);
    let x: i64 = halved(ir.x0 + ir.x1);
    let y: i64 = halved(ir.y0 + ir.y1);
    Some((m, x, y))
}

proof fn lemma_room(tall: int, ih: int)
    requires
        ih >= 2,
        -0x2_0000_0010 <= tall <= 0x2_0000_0000,
    ensures
        -0x2_0000_0000 <= toward_zero(tall, ih) <= 0x2_0000_0000,
{
    let y = if tall >= 0 {
        tall
    } else {
        -tall
    };
    assert(0 <= y / ih <= y / 2) by (nonlinear_arith)
        requires
            y >= 0,
            ih >= 2,
    ;
}

impl Menu {
    /// What of the items is drawn first when the pointer is on the scroll
    /// bar: the part of the bar above it, half a page less.
    pub open spec fn scrolled_to(&self, y: int) -> int {
        let n = self.items@.len() as int;
        clamped(
            toward_zero((y - self.scrollr.y0) * n, greater(self.scrollr.y1 - self.scrollr.y0, 1)) - self.nitemdrawn / 2,
            0,
            greater(n - self.nitemdrawn, 0),
        )
    }

    /// The pointer has moved with the menu's button held: what is under
    /// it is highlighted, none outside; on the scroll bar, it scrolls.
    pub fn menu_track(&mut self, x: i64, y: i64)
        requires
            old(self).wf(),
            old(self).items@.len() <= REACH,
            reached(x as int, OUTER as int),
            reached(y as int, OUTER as int),
        ensures
            final(self).wf(),
            final(self).lasti == old(self).item_at(x as int, y as int),
            final(self).off == (if final(self).lasti < 0 && old(self).scrolling && old(self).scrollr.has(
                x as int,
                y as int,
            ) {
                old(self).scrolled_to(y as int)
            } else {
                old(self).off as int
            }),
            *final(self) == (Menu { lasti: final(self).lasti, off: final(self).off, ..*old(self) }),
    {
        let i: i64 = self.sel(x, y);
        self.lasti = i;
        if i >= 0 {
            return;
        }
        if self.scrolling && self.scrollr.contains(x, y) {
            let n: i64 = self.items.len() as i64;
            let d: i64 = y - self.scrollr.y0;
            let tall: i64 = self.scrollr.y1 - self.scrollr.y0;
            let by: i128 = if tall > 1 {
                tall as i128
            } else {
                1
            };
            proof {
                assert(0 <= d * n <= 0x20_0000_0000int * 0x1_0000_0000int) by (nonlinear_arith)
                    requires
                        0 <= d <= 0x20_0000_0000,
                        0 <= n <= 0x1_0000_0000,
                ;
                assert((d as int * n as int) / (by as int) <= n as int) by (nonlinear_arith)
                    requires
                        0 <= d < by,
                        0 <= n,
                ;
            }
            let q: i128 = divided(d as i128 * n as i128, by);
            let mut noff: i64 = q as i64 - self.nitemdrawn / 2;
            let most: i64 = if n - self.nitemdrawn > 0 {
                n - self.nitemdrawn
            } else {
                0
            };
            if noff < 0 {
                noff = 0;
            } else if noff > most {
                noff = most;
            }
            self.off = noff;
        }
    }

    /// The menu's button has come up: the item that runs, none where none
    /// is highlighted.
    pub fn menu_up(self) -> (item: Option<String>)
        requires
            self.wf(),
        ensures
            match item {
                Some(s) => self.lasti >= 0 && self.lasti + self.off < self.items@.len() && s@ == self.items@[self.lasti
                    + self.off]@,
                None => self.lasti < 0 || self.lasti + self.off >= self.items@.len(),
            },
    {
        if self.lasti < 0 {
            return None;
        }
        let i: i128 = self.lasti as i128 + self.off as i128;
        if i < self.items.len() as i128 {
            Some(self.items[i as usize].clone())
        } else {
            None
        }
    }
}

/// A click alone repeats what was chosen last: the menu opens with it
/// highlighted, the pointer is put on it, and there it stays highlighted.
/// The font is of a height, and the widest item of a width, that leaves
/// room within the margins.
pub proof fn law_a_click_repeats_the_last(p: Popup, items: Seq<Seq<char>>, m: Menu)
    requires
        p.wf(),
        p.font >= 8,
        p.widest > 2 * MARGIN + 1,
        0 < items.len() <= REACH,
        menu_of(p, items, m),
    ensures
        ({
            let (x0, y0, x1, y1) = m.rect_of(m.lasti as int);
            m.item_at(half(x0 + x1), half(y0 + y1)) == m.lasti
        }),
        m.lasti + m.off == chosen_at(items, p.chosen(), 0),
        items[m.lasti + m.off] == (if p.chosen() is Some && items.contains(p.chosen()->0) {
            p.chosen()->0
        } else {
            items[0]
        }),
{
    let ih = m.ih as int;
    let i = m.lasti as int;
    let n = m.nitemdrawn as int;
    lemma_chosen_at(items, p.chosen(), 0);
    let hit = chosen_at(items, p.chosen(), 0);
    assert(0 <= i < n);
    let (x0, y0, x1, y1) = m.rect_of(i);
    let x = half(x0 + x1);
    let y = half(y0 + y1);
    let t0 = m.textr.y0 as int;
    assert(ih * (n - 1 - i) >= 0) by (nonlinear_arith)
        requires
            ih >= 0,
            i <= n - 1,
    ;
    assert(ih * i >= 0) by (nonlinear_arith)
        requires
            ih >= 0,
            i >= 0,
    ;
    assert(ih * (n - 1 - i) == ih * n - ih - ih * i) by (nonlinear_arith);
    assert(n * ih == ih * n) by (nonlinear_arith);
    assert(m.textr.y1 == t0 + n * ih);
    let d = y - (t0 + MARGIN);
    assert(ih * i <= d < ih * i + ih);
    assert(d / ih == i) by (nonlinear_arith)
        requires
            ih * i <= d < ih * i + ih,
            ih > 0,
    ;
    assert(m.textr.x1 - m.textr.x0 == p.widest);
    assert(x0 + x1 == m.textr.x0 + m.textr.x1);
    assert(m.textr.x0 + MARGIN <= x < m.textr.x1 - MARGIN);
    assert(t0 + MARGIN <= y < m.textr.y1 - MARGIN);
}

proof fn lemma_chosen_at(items: Seq<Seq<char>>, last: Option<Seq<char>>, i: int)
    requires
        0 <= i < items.len() || (i == items.len() && i > 0),
    ensures
        0 <= chosen_at(items, last, i) < items.len(),
        last is Some ==> {
            let k = chosen_at(items, last, i);
            items[k] == last->0 || (k == 0 && forall|j: int| i <= j < items.len() ==> items[j] != last->0)
        },
        last is None ==> chosen_at(items, last, i) == 0,
    decreases items.len() - i,
{
    if last is Some && i < items.len() && items[i] != last->0 {
        lemma_chosen_at(items, last, i + 1);
    }
}

/// The item under a point is that whose row it is in; below the last there is
/// no other, and beside the items there is none.
pub proof fn law_the_item_under_a_point(m: Menu, x: int, y: int)
    requires
        m.wf(),
    ensures
        ({
            let i = m.item_at(x, y);
            let inside = m.textr.x0 + 4 <= x < m.textr.x1 - 4 && m.textr.y0 + 4 <= y < m.textr.y1 - 4;
            &&& -1 <= i < m.nitemdrawn
            &&& i == -1 <==> !inside
            &&& inside ==> i * m.ih <= y - m.textr.y0 - 4 && (i < m.nitemdrawn - 1 ==> y - m.textr.y0 - 4 < (i + 1)
                * m.ih)
        }),
{
    if m.textr.y0 + 4 <= y {
        let d = y - (m.textr.y0 + 4);
        let h = m.ih as int;
        let q = d / h;
        assert(0 <= q && q * h <= d && d < (q + 1) * h) by (nonlinear_arith)
            requires
                d >= 0,
                h > 0,
                q == d / h,
        ;
        let last = m.nitemdrawn - 1;
        if q > last {
            assert(last * h <= q * h) by (nonlinear_arith)
                requires
                    last <= q,
                    h > 0,
            ;
        }
    }
}

/// The items' rectangles lie one below the other, a row's height apart, and
/// each takes in the whole width of the text.
pub proof fn law_items_lie_one_below_the_other(m: Menu, i: int)
    requires
        m.wf(),
        0 <= i,
    ensures
        m.rect_of(i + 1).1 == m.rect_of(i).1 + m.ih,
        m.rect_of(i + 1).0 == m.rect_of(i).0 && m.rect_of(i + 1).2 == m.rect_of(i).2,
        m.rect_of(0).1 == m.textr.y0 - 2,
        m.rect_of(i).3 - m.rect_of(i).1 == m.ih + 4,
        m.rect_of(i).0 == m.textr.x0 - 2 && m.rect_of(i).2 == m.textr.x1 + 2,
        m.rect_of(-1) == (0int, 0int, 0int, 0int),
{
    assert(m.ih * (i + 1) == m.ih * i + m.ih) by (nonlinear_arith);
    assert(m.ih * 0 == 0) by (nonlinear_arith);
}

/// All the items are shown where they are few and there is room; else as many
/// as twenty or what there is room for, one at least, of which the last one
/// chosen is one.
pub proof fn law_what_is_shown_of_a_menu(n: int, lasthit: int, room: int)
    requires
        0 <= lasthit < n,
    ensures
        ({
            let (scrolling, drawn, off, lasti) = fitted(n, lasthit, room);
            &&& scrolling <==> n > 25 || n > room
            &&& !scrolling ==> drawn == n && off == 0
            &&& scrolling ==> drawn == if room >= 20 { 20 } else if room >= 1 { room } else { 1 }
            &&& off + lasti == lasthit
            &&& 0 <= lasti < drawn
            &&& 0 <= off && (off + drawn <= n || off == 0)
            // as near the middle as the ends let it
            &&& scrolling && 0 < off && off + drawn < n ==> lasti == drawn / 2
        }),
{
}

/// A menu is as large as its items and margins, is moved no more than it must
/// be to be on the screen, and is wholly on it where it fits; where it need
/// not be moved, the pointer is on the last one chosen.
pub proof fn law_a_menu_comes_up_under_the_pointer(
    screen: Rect,
    mx: int,
    my: int,
    wid: int,
    drawn: int,
    lasti: int,
    ih: int,
)
    requires
        0 <= wid,
        0 <= lasti < drawn,
        2 <= ih,
    ensures
        ({
            let (x0, y0, x1, y1) = popped(screen, mx, my, wid, drawn, lasti, ih);
            let (ux, uy) = (mx - wid / 2 - 4, my - lasti * ih - (ih - 2) / 2 - 4);
            &&& x1 - x0 == wid + 8 && y1 - y0 == drawn * ih + 8
            &&& x1 - x0 <= screen.x1 - screen.x0 ==> screen.x0 <= x0 && x1 <= screen.x1
            &&& y1 - y0 <= screen.y1 - screen.y0 ==> screen.y0 <= y0 && y1 <= screen.y1
            &&& screen.x0 <= ux && ux + wid + 8 <= screen.x1 ==> x0 == ux
            &&& screen.y0 <= uy && uy + drawn * ih + 8 <= screen.y1 ==> y0 == uy
            &&& ux < screen.x0 ==> x0 == screen.x0
            &&& uy < screen.y0 ==> y0 == screen.y0
            &&& screen.x0 <= ux && ux + wid + 8 > screen.x1 ==> x1 == screen.x1
            &&& screen.y0 <= uy && uy + drawn * ih + 8 > screen.y1 ==> y1 == screen.y1
        }),
{
}

/// A scrolling menu's thumb is as far down as what is not shown above, and
/// never too small to be seen.
pub proof fn law_the_thumb_is_where_the_menu_is(m: Menu)
    requires
        m.wf(),
        m.items@.len() > 0,
        m.scrollr.y0 <= m.scrollr.y1,
    ensures
        ({
            let (top, bottom) = m.thumb_of();
            let n = m.items@.len() as int;
            let dy = m.scrollr.y1 - m.scrollr.y0;
            &&& (top - m.scrollr.y0) * n <= dy * m.off < (top - m.scrollr.y0 + 1) * n
            &&& bottom >= top + 2
            &&& bottom > top + 2 ==> (bottom - m.scrollr.y0) * n <= dy * (m.off + m.nitemdrawn) < (bottom - m.scrollr.y0
                + 1) * n
            &&& bottom == top + 2 ==> dy * (m.off + m.nitemdrawn) < (bottom - m.scrollr.y0 + 1) * n
        }),
{
    let n = m.items@.len() as int;
    let dy = m.scrollr.y1 - m.scrollr.y0;
    lemma_share(dy, m.off as int, n);
    lemma_share(dy, m.off + m.nitemdrawn, n);
    let (top, bottom) = m.thumb_of();
    let b = m.scrollr.y0 + toward_zero(dy * (m.off + m.nitemdrawn), n);
    let d = b - m.scrollr.y0;
    if b < bottom {
        assert((d + 1) * n <= (bottom - m.scrollr.y0 + 1) * n) by (nonlinear_arith)
            requires
                d <= bottom - m.scrollr.y0,
                n > 0,
        ;
    }
}

proof fn lemma_share(dy: int, k: int, n: int)
    requires
        0 <= dy,
        0 <= k,
        0 < n,
    ensures
        toward_zero(dy * k, n) * n <= dy * k < (toward_zero(dy * k, n) + 1) * n,
{
    let p = dy * k;
    assert(p >= 0) by (nonlinear_arith)
        requires
            dy >= 0,
            k >= 0,
            p == dy * k,
    ;
    let q = p / n;
    assert(q * n <= p && p < (q + 1) * n) by (nonlinear_arith)
        requires
            p >= 0,
            n > 0,
            q == p / n,
    ;
}

/// Held in the scrollbar a menu scrolls with the pointer: to the first items
/// at its top, never past the last.
pub proof fn law_a_menu_scrolls_with_the_pointer(m: Menu, y: int)
    requires
        m.wf(),
    ensures
        0 <= m.scrolled_to(y),
        m.items@.len() > m.nitemdrawn ==> m.scrolled_to(y) <= m.items@.len() - m.nitemdrawn,
        m.items@.len() <= m.nitemdrawn ==> m.scrolled_to(y) == 0,
        y <= m.scrollr.y0 ==> m.scrolled_to(y) == 0,
        m.scrollr.y0 < m.scrollr.y1 <= y ==> m.scrolled_to(y) == greater(m.items@.len() - m.nitemdrawn, 0),
{
    let n = m.items@.len() as int;
    let d = y - m.scrollr.y0;
    let h = greater(m.scrollr.y1 - m.scrollr.y0, 1);
    if d <= 0 {
        assert(d * n <= 0) by (nonlinear_arith)
            requires
                d <= 0,
                n >= 0,
        ;
        let p = -(d * n);
        assert(p / h >= 0) by (nonlinear_arith)
            requires
                p >= 0,
                h > 0,
        ;
        if d * n == 0 {
            assert(0int / h == 0) by (nonlinear_arith)
                requires
                    h > 0,
            ;
        }
    }
    if m.scrollr.y0 < m.scrollr.y1 && m.scrollr.y1 <= y {
        let p = d * n;
        assert(p / h >= n) by (nonlinear_arith)
            requires
                p == d * n,
                d >= h,
                h > 0,
                n >= 0,
        ;
        assert(p >= 0) by (nonlinear_arith)
            requires
                p == d * n,
                d >= 0,
                n >= 0,
        ;
    }
}

} // verus!
