//! A frame: what is drawn where, and what a point falls on.

use vstd::prelude::*;

use crate::handle::{breath, breathed};
use crate::ids::{ColumnId, TermId, ViewId, WindowId};
use crate::menu::{Menu, Rect, BLACKBORDER, REACH};
use crate::mouse::{Pt, Region, Swept, Target};
use crate::term::{cell_at, cell_under};

verus! {

/// What a window's body is.
#[derive(Clone, Copy, Debug, PartialEq, Eq, Structural)]
pub enum Shows {
    Text,
    Term(TermId),
    /// The window is not there any more.
    Gone,
}

/// A window in its column: all of it, and its body.
#[derive(Clone, Copy, Debug, PartialEq, Eq, Structural)]
pub struct Slot {
    pub window: WindowId,
    pub r: Rect,
    pub body: Rect,
    pub shows: Shows,
}

/// A column: where its windows are, and whether more than the first can
/// be seen.
pub struct Column {
    pub id: ColumnId,
    pub r: Rect,
    pub safe: bool,
    pub wins: Vec<Slot>,
}

/// Where everything is.
pub struct Tiling {
    pub r: Rect,
    pub cols: Vec<Column>,
}

impl Tiling {
    /// All of it is within reach.
    pub open spec fn wf(&self) -> bool {
        &&& self.r.reached(REACH as int)
        &&& forall|i: int| 0 <= i < self.cols@.len() ==> (#[trigger] self.cols@[i]).r.reached(REACH as int)
        &&& forall|i: int, j: int|
            0 <= i < self.cols@.len() && 0 <= j < self.cols@[i].wins@.len() ==> (#[trigger] self.cols@[i].wins@[j]).r.reached(
                REACH as int,
            ) && self.cols@[i].wins@[j].body.reached(REACH as int)
    }
}

/// What is drawn.
#[derive(Clone, Copy, Debug, PartialEq, Eq, Structural)]
pub enum Drawn {
    View(ViewId),
    Term(WindowId, TermId),
}

/// Something drawn, and where.
#[derive(Clone, Copy, Debug, PartialEq, Eq, Structural)]
pub struct Placed {
    pub x: i64,
    pub y: i64,
    pub w: i64,
    pub h: i64,
    pub what: Drawn,
}

/// Something drawn, its size none where it would be less.
pub open spec fn placed(x: int, y: int, w: int, h: int, what: Drawn) -> Placed {
    Placed {
        x: x as i64,
        y: y as i64,
        w: (if w > 0 {
            w
        } else {
            0
        }) as i64,
        h: (if h > 0 {
            h
        } else {
            0
        }) as i64,
        what,
    }
}

fn place(x: i64, y: i64, w: i64, h: i64, what: Drawn) -> (p: Placed)
    ensures
        p == placed(x as int, y as int, w as int, h as int, what),
{
    Placed {
        x,
        y,
        w: if w > 0 {
            w
        } else {
            0
        },
        h: if h > 0 {
            h
        } else {
            0
        },
        what,
    }
}

/// A window's pieces: its tag, as tall as what its body leaves, and its
/// body where it has room for one.
pub open spec fn of_slot(s: Slot) -> Seq<Placed> {
    let tall = s.body.y1 - s.body.y0 > 0;
    let tag = placed(
        s.r.x0 as int,
        s.r.y0 as int,
        s.r.x1 - s.r.x0,
        if tall {
            s.body.y0 - s.r.y0
        } else {
            s.r.y1 - s.r.y0
        },
        Drawn::View(ViewId::Tag(s.window)),
    );
    let body = |what: Drawn|
        placed(s.body.x0 as int, s.body.y0 as int, s.body.x1 - s.body.x0, s.body.y1 - s.body.y0, what);
    match s.shows {
        Shows::Gone => Seq::empty(),
        Shows::Text => if tall {
            seq![tag, body(Drawn::View(ViewId::Body(s.window)))]
        } else {
            seq![tag]
        },
        Shows::Term(t) => if tall {
            seq![tag, body(Drawn::Term(s.window, t))]
        } else {
            seq![tag]
        },
    }
}

/// A column's pieces: its tag, and those of its first `n` windows; the
/// first alone where it hides the others.
pub open spec fn of_column(c: Column, font: int, n: int) -> Seq<Placed>
    decreases n,
{
    if n <= 0 || n > c.wins@.len() {
        seq![placed(c.r.x0 as int, c.r.y0 as int, c.r.x1 - c.r.x0, font, Drawn::View(ViewId::ColTag(c.id)))]
    } else if !c.safe && n - 1 > 0 {
        of_column(c, font, n - 1)
    } else {
        of_column(c, font, n - 1) + of_slot(c.wins@[n - 1])
    }
}

/// A frame's pieces: the top row, and those of the first `n` columns.
pub open spec fn framed(t: Tiling, font: int, n: int) -> Seq<Placed>
    decreases n,
{
    if n <= 0 || n > t.cols@.len() {
        seq![placed(t.r.x0 as int, t.r.y0 as int, t.r.x1 - t.r.x0, font, Drawn::View(ViewId::Top))]
    } else {
        framed(t, font, n - 1) + of_column(t.cols@[n - 1], font, t.cols@[n - 1].wins@.len() as int)
    }
}

fn put_slot(s: &Slot, out: &mut Vec<Placed>)
    requires
        s.r.reached(REACH as int) && s.body.reached(REACH as int),
    ensures
        final(out)@ == old(out)@ + of_slot(*s),
{
    let ghost start = out@;
    let tall = s.body.y1 - s.body.y0 > 0;
    let what: Drawn = match s.shows {
        Shows::Gone => {
            proof {
                assert(out@ =~= start + of_slot(*s));
            }
            return;
        },
        Shows::Text => Drawn::View(ViewId::Body(s.window)),
        Shows::Term(t) => Drawn::Term(s.window, t),
    };
    let h: i64 = if tall {
        s.body.y0 - s.r.y0
    } else {
        s.r.y1 - s.r.y0
    };
    out.push(place(s.r.x0, s.r.y0, s.r.x1 - s.r.x0, h, Drawn::View(ViewId::Tag(s.window))));
    if tall {
        out.push(place(s.body.x0, s.body.y0, s.body.x1 - s.body.x0, s.body.y1 - s.body.y0, what));
    }
    proof {
        assert(out@ =~= start + of_slot(*s));
    }
}

fn put_column(c: &Column, font: u16, out: &mut Vec<Placed>)
    requires
        c.r.reached(REACH as int),
        forall|j: int|
            0 <= j < c.wins@.len() ==> (#[trigger] c.wins@[j]).r.reached(REACH as int) && c.wins@[j].body.reached(
                REACH as int,
            ),
    ensures
        final(out)@ == old(out)@ + of_column(*c, font as int, c.wins@.len() as int),
{
    let ghost start = out@;
    out.push(place(c.r.x0, c.r.y0, c.r.x1 - c.r.x0, font as i64, Drawn::View(ViewId::ColTag(c.id))));
    proof {
        assert(out@ =~= start + of_column(*c, font as int, 0));
    }
    let mut i: usize = 0;
    while i < c.wins.len()
        invariant
            i <= c.wins@.len(),
            forall|j: int|
                0 <= j < c.wins@.len() ==> (#[trigger] c.wins@[j]).r.reached(REACH as int)
                    && c.wins@[j].body.reached(REACH as int),
            out@ == start + of_column(*c, font as int, i as int),
        decreases c.wins@.len() - i,
    {
        if c.safe || i == 0 {
            let ghost before = out@;
            put_slot(&c.wins[i], out);
            proof {
                assert(out@ =~= start + (of_column(*c, font as int, i as int) + of_slot(c.wins@[i as int])));
            }
        }
        i = i + 1;
    }
}

/// A frame's pieces, in the order they are drawn.
pub fn render(t: &Tiling, font: u16) -> (out: Vec<Placed>)
    requires
        t.wf(),
    ensures
        out@ == framed(*t, font as int, t.cols@.len() as int),
{
    let mut out: Vec<Placed> = Vec::new();
    out.push(place(t.r.x0, t.r.y0, t.r.x1 - t.r.x0, font as i64, Drawn::View(ViewId::Top)));
    proof {
        assert(out@ =~= framed(*t, font as int, 0));
    }
    let mut i: usize = 0;
    while i < t.cols.len()
        invariant
            t.wf(),
            i <= t.cols@.len(),
            out@ == framed(*t, font as int, i as int),
        decreases t.cols@.len() - i,
    {
        proof {
            assert(t.cols@[i as int].r.reached(REACH as int));
            assert forall|j: int| 0 <= j < t.cols@[i as int].wins@.len() implies (#[trigger] t.cols@[i as int].wins@[j]).r.reached(
                REACH as int,
            ) && t.cols@[i as int].wins@[j].body.reached(REACH as int) by {}
        }
        put_column(&t.cols[i], font, &mut out);
        i = i + 1;
    }
    out
}

/// The pointer over the windows: the box while a layout box is held,
/// else the big arrow.
#[derive(Clone, Copy, Debug, PartialEq, Eq, Structural)]
pub enum Style {
    BigArrow,
    Box,
}

/// The pointer over the windows.
pub fn style(dragging_box: bool) -> (s: Style)
    ensures
        s == (if dragging_box {
            Style::Box
        } else {
            Style::BigArrow
        }),
{
    if dragging_box {
        Style::Box
    } else {
        Style::BigArrow
    }
}

/// Where the windows start: below the title bar, or at the top when the
/// screen is theirs.
pub fn top(fullscreen: bool, bar: u16) -> (y: u16)
    ensures
        y == (if fullscreen {
            0
        } else {
            bar
        }),
{
    if fullscreen {
        0
    } else {
        bar
    }
}

/// The place that a window of this size leaves the windows, where it is
/// another than now and there is any.
pub fn resized(now: Rect, width: i64, height: i64, top: u16) -> (r: Option<Rect>)
    requires
        -REACH <= width <= REACH,
        -REACH <= height <= REACH,
    ensures
        r == ({
            let place = Rect { x0: 0, y0: 0, x1: width, y1: (height - top) as i64 };
            if width > 0 && height - top > 0 && place != now {
                Some(place)
            } else {
                None
            }
        }),
{
    let place = Rect::new(0, 0, width, height - top as i64);
    if width > 0 && height - top as i64 > 0 && place != now {
        Some(place)
    } else {
        None
    }
}

/// A menu's item as it is drawn, within the menu.
pub struct Line {
    pub x: i64,
    pub y: i64,
    pub w: i64,
    pub h: i64,
    pub text: String,
    /// In negative: the one that the pointer is on.
    pub highlighted: bool,
}

/// A menu's item as a value.
pub open spec fn line_seen(l: Line) -> (int, int, int, int, Seq<char>, bool) {
    (l.x as int, l.y as int, l.w as int, l.h as int, l.text@, l.highlighted)
}

/// A drawn item of a menu, within the menu.
pub open spec fn menu_line(m: Menu, i: int) -> (int, int, int, int, Seq<char>, bool) {
    let (x0, y0, x1, y1) = m.rect_of(i);
    (
        x0 - m.menur.x0 - BLACKBORDER,
        y0 - m.menur.y0 - BLACKBORDER,
        x1 - x0,
        y1 - y0,
        if i + m.off < m.items@.len() {
            m.items@[i + m.off]@
        } else {
            Seq::empty()
        },
        i == m.lasti,
    )
}

/// The items of a menu as they are drawn.
pub fn menu_lines(m: &Menu) -> (r: Vec<Line>)
    requires
        m.wf(),
    ensures
        r@.len() == m.nitemdrawn,
        forall|i: int| 0 <= i < r@.len() ==> line_seen(#[trigger] r@[i]) == menu_line(*m, i),
{
    let mut out: Vec<Line> = Vec::new();
    let mut i: i64 = 0;
    while i < m.nitemdrawn
        invariant
            m.wf(),
            0 <= i <= m.nitemdrawn,
            out@.len() == i,
            forall|j: int| 0 <= j < i ==> line_seen(#[trigger] out@[j]) == menu_line(*m, j),
        decreases m.nitemdrawn - i,
    {
        let r: Rect = m.item_rect(i);
        let n: usize = m.items.len();
        let at: usize = m.off as usize + i as usize;
        let text: String = if at < n {
            m.items[at].clone()
        } else {
            String::new()
        };
        let line = Line {
            x: r.x0 - m.menur.x0 - BLACKBORDER,
            y: r.y0 - m.menur.y0 - BLACKBORDER,
            w: r.x1 - r.x0,
            h: r.y1 - r.y0,
            text,
            highlighted: i == m.lasti,
        };
        proof {
            let seen = line_seen(line);
            let told = menu_line(*m, i as int);
            assert(line.text@ =~= told.4);
        }
        out.push(line);
        i = i + 1;
    }
    out
}

/// A terminal on the screen: all of it, its scroll bar, its cells, and
/// what it is.
#[derive(Clone, Copy, Debug)]
pub struct TermPlace {
    pub window: WindowId,
    pub shows: Shows,
    pub bounds: Rect,
    pub scrollbar: Rect,
    pub origin: Pt,
    pub cell_w: u32,
    pub cell_h: u32,
    pub cols: u16,
    pub rows: u16,
}

/// A text on the screen: all of it, its scroll bar or its layout box
/// where it has one, and the offset under the point that is asked of.
#[derive(Clone, Copy, Debug)]
pub struct TextPlace {
    pub view: ViewId,
    pub bounds: Rect,
    pub scrollbar: Option<Rect>,
    pub layout_box: Option<Rect>,
    pub offset: usize,
}

/// A point falls on a terminal that is one still.
pub open spec fn on_term(t: TermPlace, p: Pt) -> bool {
    t.bounds.has(p.x as int, p.y as int) && t.shows is Term
}

/// What a point falls on in a terminal.
pub open spec fn in_term(t: TermPlace, p: Pt) -> (Target, Region) {
    let target = Target::Term(t.window, t.shows->Term_0);
    if t.scrollbar.has(p.x as int, p.y as int) {
        (target, Region::TermScrollbar)
    } else {
        let (c, r) = cell_under(p, t.origin, t.cell_w as int, t.cell_h as int, t.cols as int, t.rows as int);
        (target, Region::Term(c as usize, r as usize))
    }
}

/// What a point falls on in a text.
pub open spec fn in_text(t: TextPlace, p: Pt) -> (Target, Region) {
    let on = |r: Option<Rect>|
        match r {
            Some(r) => r.has(p.x as int, p.y as int),
            None => false,
        };
    let target = Target::View(t.view);
    if on(t.scrollbar) {
        (target, Region::Scrollbar)
    } else if on(t.layout_box) {
        (target, Region::LayoutBox)
    } else {
        (target, Region::Text(t.offset))
    }
}

/// The first terminal from `i` on that a point falls on; the end of them
/// where it falls on none.
pub open spec fn term_under(t: Seq<TermPlace>, p: Pt, i: int) -> int
    decreases t.len() - i,
{
    if 0 <= i < t.len() && !on_term(t[i], p) {
        term_under(t, p, i + 1)
    } else {
        i
    }
}

/// The first text from `i` on that a point falls on; the end of them
/// where it falls on none.
pub open spec fn text_under(t: Seq<TextPlace>, p: Pt, i: int) -> int
    decreases t.len() - i,
{
    if 0 <= i < t.len() && !t[i].bounds.has(p.x as int, p.y as int) {
        text_under(t, p, i + 1)
    } else {
        i
    }
}

/// What a point falls on: a terminal before a text.
pub open spec fn located(terms: Seq<TermPlace>, texts: Seq<TextPlace>, p: Pt) -> Option<(Target, Region)> {
    let i = term_under(terms, p, 0);
    let k = text_under(texts, p, 0);
    if i < terms.len() {
        Some(in_term(terms[i], p))
    } else if k < texts.len() {
        Some(in_text(texts[k], p))
    } else {
        None
    }
}

/// What a point falls on.
pub fn locate(terms: &Vec<TermPlace>, texts: &Vec<TextPlace>, p: Pt) -> (r: Option<(Target, Region)>)
    requires
        forall|i: int| 0 <= i < terms@.len() ==> (#[trigger] terms@[i]).cell_w > 0 && terms@[i].cell_h > 0,
        crate::drag::near(p),
        forall|i: int| 0 <= i < terms@.len() ==> crate::drag::near((#[trigger] terms@[i]).origin),
    ensures
        r == located(terms@, texts@, p),
{
    let mut i: usize = 0;
    while i < terms.len()
        invariant
            i <= terms@.len(),
            forall|i: int| 0 <= i < terms@.len() ==> (#[trigger] terms@[i]).cell_w > 0 && terms@[i].cell_h > 0,
            crate::drag::near(p),
            forall|i: int| 0 <= i < terms@.len() ==> crate::drag::near((#[trigger] terms@[i]).origin),
            term_under(terms@, p, i as int) == term_under(terms@, p, 0),
        decreases terms@.len() - i,
    {
        let t: TermPlace = terms[i];
        if t.bounds.contains(p.x, p.y) {
            if let Shows::Term(id) = t.shows {
                if t.scrollbar.contains(p.x, p.y) {
                    return Some((Target::Term(t.window, id), Region::TermScrollbar));
                }
                let (c, r) = cell_at(p, t.origin, t.cell_w, t.cell_h, t.cols, t.rows);
                return Some((Target::Term(t.window, id), Region::Term(c, r)));
            }
        }
        i = i + 1;
    }
    let mut k: usize = 0;
    while k < texts.len()
        invariant
            k <= texts@.len(),
            term_under(terms@, p, 0) >= terms@.len(),
            text_under(texts@, p, k as int) == text_under(texts@, p, 0),
        decreases texts@.len() - k,
    {
        let t: TextPlace = texts[k];
        if t.bounds.contains(p.x, p.y) {
            if let Some(b) = t.scrollbar {
                if b.contains(p.x, p.y) {
                    return Some((Target::View(t.view), Region::Scrollbar));
                }
            }
            if let Some(b) = t.layout_box {
                if b.contains(p.x, p.y) {
                    return Some((Target::View(t.view), Region::LayoutBox));
                }
            }
            return Some((Target::View(t.view), Region::Text(t.offset)));
        }
        k = k + 1;
    }
    None
}

/// What a window's body says of it.
#[derive(Clone, Copy, Debug, PartialEq, Eq, Structural)]
pub struct Behind {
    pub mono: bool,
    /// The text differs from its file.
    pub dirty: bool,
    /// The file changed since.
    pub stale: bool,
    /// A process is behind it.
    pub live: bool,
    /// It is a page.
    pub web: bool,
    /// It is a page that is loading.
    pub loading: bool,
}

/// How a view is drawn, for what is behind it.
#[derive(Clone, Copy, Debug, PartialEq, Eq, Structural)]
pub struct Source {
    pub mono: bool,
    pub dirty: bool,
    pub stale: bool,
    pub live: bool,
    /// While a page loads, how far out its handle's breath is.
    pub pulse: Option<u32>,
    /// What is swept in it with another button.
    pub hl: Option<Swept>,
}

/// How a view is drawn: a window's, for what its body is, and what is
/// swept in this view alone.
pub open spec fn sourced(view: ViewId, b: Option<Behind>, hl: Option<Swept>, ms: int) -> Source {
    let swept = match hl {
        Some(s) => if s.view == view {
            hl
        } else {
            None
        },
        None => None,
    };
    match (view, b) {
        (ViewId::Body(_), Some(b)) | (ViewId::Tag(_), Some(b)) => Source {
            mono: b.mono,
            dirty: b.dirty,
            stale: b.stale && b.dirty,
            live: b.web || b.live,
            pulse: if b.web && b.loading {
                Some(breathed(ms) as u32)
            } else {
                None
            },
            hl: swept,
        },
        _ => Source { mono: false, dirty: false, stale: false, live: false, pulse: None, hl: swept },
    }
}

/// How a view is drawn.
pub fn source(view: ViewId, b: Option<Behind>, hl: Option<Swept>, ms: u64) -> (s: Source)
    ensures
        s == sourced(view, b, hl, ms as int),
{
    let swept: Option<Swept> = match hl {
        Some(s) => {
            if s.view == view {
                hl
            } else {
                None
            }
        },
        None => None,
    };
    let of_window = match view {
        ViewId::Body(_) => true,
        ViewId::Tag(_) => true,
        _ => false,
    };
    if of_window {
        if let Some(b) = b {
            return Source {
                mono: b.mono,
                dirty: b.dirty,
                stale: b.stale && b.dirty,
                live: b.web || b.live,
                pulse: if b.web && b.loading {
                    Some(breath(ms))
                } else {
                    None
                },
                hl: swept,
            };
        }
    }
    Source { mono: false, dirty: false, stale: false, live: false, pulse: None, hl: swept }
}

/// A window that hides the others of its column is the only one of them
/// that is drawn.
pub proof fn law_a_full_window_hides_the_others(c: Column, font: int, i: int, w: WindowId)
    requires
        !c.safe,
        c.wins@.len() > 0 ==> c.wins@[0].window != w,
        0 <= i < of_column(c, font, c.wins@.len() as int).len(),
    ensures
        of_column(c, font, c.wins@.len() as int)[i].what != Drawn::View(ViewId::Tag(w)),
        of_column(c, font, c.wins@.len() as int)[i].what != Drawn::View(ViewId::Body(w)),
        of_column(c, font, c.wins@.len() as int)[i].what matches Drawn::Term(x, _) ==> x != w,
{
    lemma_hidden(c, font, c.wins@.len() as int);
}

proof fn lemma_hidden(c: Column, font: int, n: int)
    requires
        !c.safe,
        0 <= n <= c.wins@.len(),
    ensures
        of_column(c, font, n) == (if n == 0 {
            of_column(c, font, 0)
        } else {
            of_column(c, font, 0) + of_slot(c.wins@[0])
        }),
    decreases n,
{
    if n > 0 {
        lemma_hidden(c, font, n - 1);
    }
}

/// A window that is there is drawn with its tag, and with its body under the
/// tag where it has room for one; a window that is gone is not drawn.
pub proof fn law_a_window_is_its_tag_and_body(s: Slot)
    requires
        s.r.reached(REACH as int),
        s.body.reached(REACH as int),
        s.r.x0 <= s.r.x1 && s.r.y0 <= s.body.y0 && s.body.x0 <= s.body.x1 && s.r.y0 <= s.r.y1,
    ensures
        s.shows is Gone ==> of_slot(s).len() == 0,
        !(s.shows is Gone) && s.body.y1 > s.body.y0 ==> of_slot(s).len() == 2,
        !(s.shows is Gone) && s.body.y1 <= s.body.y0 ==> of_slot(s).len() == 1,
        !(s.shows is Gone) ==> ({
            let tag = of_slot(s)[0];
            &&& tag.what == Drawn::View(ViewId::Tag(s.window))
            &&& tag.x == s.r.x0 && tag.y == s.r.y0 && tag.x + tag.w == s.r.x1
            &&& s.body.y1 > s.body.y0 ==> tag.y + tag.h == s.body.y0
            &&& s.body.y1 <= s.body.y0 ==> tag.y + tag.h == s.r.y1
        }),
        !(s.shows is Gone) && s.body.y1 > s.body.y0 ==> ({
            let b = of_slot(s)[1];
            &&& b.x == s.body.x0 && b.y == s.body.y0 && b.x + b.w == s.body.x1 && b.y + b.h == s.body.y1
            &&& s.shows is Text ==> b.what == Drawn::View(ViewId::Body(s.window))
            &&& s.shows matches Shows::Term(t) ==> b.what == Drawn::Term(s.window, t)
        }),
{
}

proof fn lemma_under(terms: Seq<TermPlace>, texts: Seq<TextPlace>, p: Pt, i: int, k: int)
    requires
        0 <= i <= terms.len(),
        0 <= k <= texts.len(),
    ensures
        i <= term_under(terms, p, i) <= terms.len(),
        forall|j: int| i <= j < term_under(terms, p, i) ==> !on_term(#[trigger] terms[j], p),
        term_under(terms, p, i) < terms.len() ==> on_term(terms[term_under(terms, p, i)], p),
        k <= text_under(texts, p, k) <= texts.len(),
        forall|j: int| k <= j < text_under(texts, p, k) ==> !(#[trigger] texts[j]).bounds.has(p.x as int, p.y as int),
        text_under(texts, p, k) < texts.len() ==> texts[text_under(texts, p, k)].bounds.has(p.x as int, p.y as int),
    decreases terms.len() - i + texts.len() - k,
{
    if i < terms.len() && !on_term(terms[i], p) {
        lemma_under(terms, texts, p, i + 1, k);
    }
    if k < texts.len() && !texts[k].bounds.has(p.x as int, p.y as int) {
        lemma_under(terms, texts, p, i, k + 1);
    }
}

/// A point is in what it is on: a terminal that it is within, else a text;
/// where it is within neither it is on nothing.
pub proof fn law_a_point_is_on_what_is_there(terms: Seq<TermPlace>, texts: Seq<TextPlace>, p: Pt)
    ensures
        ({
            let (x, y) = (p.x as int, p.y as int);
            let l = located(terms, texts, p);
            let term = exists|i: int|
                0 <= i < terms.len() && (#[trigger] terms[i]).shows is Term && terms[i].bounds.x0 <= x < terms[i].bounds.x1
                    && terms[i].bounds.y0 <= y < terms[i].bounds.y1;
            let text = exists|i: int|
                0 <= i < texts.len() && (#[trigger] texts[i]).bounds.x0 <= x < texts[i].bounds.x1 && texts[i].bounds.y0
                    <= y < texts[i].bounds.y1;
            &&& l is None <==> !term && !text
            &&& term ==> (l->0).0 is Term
            &&& !term && text ==> (l->0).0 is View
        }),
{
    lemma_under(terms, texts, p, 0, 0);
    let i = term_under(terms, p, 0);
    let k = text_under(texts, p, 0);
    if i < terms.len() {
        assert(on_term(terms[i], p));
    } else {
        assert forall|j: int| 0 <= j < terms.len() implies !on_term(#[trigger] terms[j], p) by {}
    }
    if k < texts.len() {
        assert(texts[k].bounds.has(p.x as int, p.y as int));
    } else {
        assert forall|j: int| 0 <= j < texts.len() implies !(#[trigger] texts[j]).bounds.has(p.x as int, p.y as int) by {}
    }
}

/// In a text the scrollbar goes before the layout box, and both before the
/// text; in a terminal the scrollbar goes before the cells.
pub proof fn law_the_parts_of_a_text(t: TextPlace, m: TermPlace, p: Pt)
    requires
        m.shows is Term,
    ensures
        ({
            let (x, y) = (p.x as int, p.y as int);
            let bar = t.scrollbar is Some && t.scrollbar->0.has(x, y);
            let grip = t.layout_box is Some && t.layout_box->0.has(x, y);
            &&& in_text(t, p).0 == Target::View(t.view)
            &&& bar ==> in_text(t, p).1 == Region::Scrollbar
            &&& !bar && grip ==> in_text(t, p).1 == Region::LayoutBox
            &&& !bar && !grip ==> in_text(t, p).1 == Region::Text(t.offset)
            &&& in_term(m, p).0 == Target::Term(m.window, m.shows->Term_0)
            &&& m.scrollbar.has(x, y) ==> in_term(m, p).1 == Region::TermScrollbar
            &&& !m.scrollbar.has(x, y) ==> in_term(m, p).1 is Term
        }),
{
}

/// What is behind a text shows in it and in its tag: that it is dirty, and
/// stale only then; that a process or a page is behind it; and a page that
/// loads breathes.  A column's tag and the top show nothing of the kind.
pub proof fn law_what_is_behind_a_text_shows(w: WindowId, c: ColumnId, b: Behind, hl: Option<Swept>, ms: int)
    ensures
        sourced(ViewId::Body(w), Some(b), None, ms) == sourced(ViewId::Tag(w), Some(b), None, ms),
        ({
            let s = sourced(ViewId::Body(w), Some(b), hl, ms);
            &&& s.mono == b.mono && s.dirty == b.dirty
            &&& s.stale <==> b.stale && b.dirty
            &&& s.live <==> b.web || b.live
            &&& s.pulse is Some <==> b.web && b.loading
            &&& s.hl is Some <==> hl is Some && hl->0.view == ViewId::Body(w)
        }),
        ({
            let s = sourced(ViewId::ColTag(c), Some(b), hl, ms);
            !s.mono && !s.dirty && !s.stale && !s.live && s.pulse is None
        }),
        ({
            let s = sourced(ViewId::Top, Some(b), hl, ms);
            !s.mono && !s.dirty && !s.stale && !s.live && s.pulse is None
        }),
{
}

} // verus!
