//! Where the pointer is put: the moves acme makes after the layout
//! changes, kept until a frame shows where things are, and the measures
//! that the layout asks of the texts.  Positions are in
//! [`crate::mouse::SUB`]ths of a pixel, the layout's own in pixels.

use vstd::prelude::*;

use crate::ids::{ColumnId, ViewId, WindowId};
use crate::mouse::{Pt, SUB};
use crate::text::find;

verus! {

/// A move of the pointer that a change of the layout asks for.
#[derive(Clone, Copy, Debug, PartialEq, Eq, Structural)]
pub enum Warp {
    /// Into a window just made.
    NewWindow(WindowId),
    /// A window closed: back where the pointer was when it was made, or
    /// to another's `Del`.
    Closed(WindowId, Option<WindowId>),
    /// To a window's layout box.
    WinButton(WindowId),
    /// To a column's.
    ColButton(ColumnId),
    /// To what is selected in a text.
    Sel(ViewId),
}

/// A move waiting for the screen to show the new layout.
#[derive(Clone, Copy, Debug, PartialEq, Eq, Structural)]
pub enum Pending {
    Warp(Warp),
    Restore(Pt),
}

/// The pointer as the app moves it.
#[derive(Clone, Copy, Debug, PartialEq, Eq)]
pub struct Pointer {
    pub pending: Option<Pending>,
    /// The frame after a layout change has the geometry a move needs.
    pub wait: bool,
    /// The window whose making moved the pointer, and where it was.
    pub saved: Option<(WindowId, Pt)>,
    /// Where a move put the pointer, until the mouse really moves.
    pub at: Option<Pt>,
    /// Where the mouse was last.
    pub last: Pt,
}

/// The pointer after a change of the layout has asked for a move.
pub open spec fn warped(p: Pointer, w: Warp) -> Pointer {
    match w {
        Warp::NewWindow(win) => Pointer {
            saved: Some((win, p.last)),
            pending: Some(Pending::Warp(w)),
            wait: true,
            ..p
        },
        Warp::Closed(win, next) => {
            let rest = Pointer { saved: None, ..p };
            match p.saved {
                Some((sw, at)) if sw == win => Pointer { pending: Some(Pending::Restore(at)), wait: true, ..rest },
                _ => if next is Some {
                    Pointer { pending: Some(Pending::Warp(w)), wait: true, ..rest }
                } else {
                    rest
                },
            }
        },
        _ => Pointer { pending: Some(Pending::Warp(w)), wait: true, ..p },
    }
}

impl Pointer {
    /// The pointer of a window that opens: nothing waits.
    pub fn new() -> (p: Pointer)
        ensures
            p == (Pointer { pending: None, wait: false, saved: None, at: None, last: Pt { x: 0, y: 0 } }),
    {
        Pointer { pending: None, wait: false, saved: None, at: None, last: Pt { x: 0, y: 0 } }
    }

    /// A change of the layout asks for a move.
    pub fn take_warp(&mut self, w: Warp)
        ensures
            *final(self) == warped(*old(self), w),
    {
        let p = match w {
            Warp::NewWindow(win) => {
                self.saved = Some((win, self.last));
                Pending::Warp(w)
            },
            Warp::Closed(win, next) => {
                let saved = self.saved.take();
                let back: Option<Pt> = match saved {
                    Some((sw, at)) => {
                        if sw == win {
                            Some(at)
                        } else {
                            None
                        }
                    },
                    None => None,
                };
                match back {
                    Some(at) => Pending::Restore(at),
                    None => {
                        if next.is_none() {
                            return;
                        }
                        Pending::Warp(w)
                    },
                }
            },
            _ => Pending::Warp(w),
        };
        self.pending = Some(p);
        self.wait = true;
    }
}

/// A window made and closed with nothing between gives the pointer back:
/// it is put where it was when the window was made.
pub proof fn law_closing_a_new_window_gives_the_pointer_back(p: Pointer, win: WindowId, next: Option<WindowId>)
    ensures
        warped(warped(p, Warp::NewWindow(win)), Warp::Closed(win, next)).pending == Some(Pending::Restore(p.last)),
        warped(warped(p, Warp::NewWindow(win)), Warp::Closed(win, next)).saved is None,
{
}

/// Where things are in the frame just drawn, as far as a move needs it:
/// the window's slot (its corner, and where its tag ends), the column's
/// corner, and the point of the text the move is to.
#[derive(Clone, Copy, Debug, PartialEq, Eq, Structural)]
pub struct Drawn {
    pub slot: Option<Slot>,
    pub column: Option<Corner>,
    pub point: Option<Pt>,
}

/// A corner, in pixels of acme's area.
#[derive(Clone, Copy, Debug, PartialEq, Eq, Structural)]
pub struct Corner {
    pub x0: i32,
    pub y0: i32,
}

/// A window's slot: its corner, and where its tag ends.
#[derive(Clone, Copy, Debug, PartialEq, Eq, Structural)]
pub struct Slot {
    pub x0: i32,
    pub y0: i32,
    pub tag_y1: i32,
}

/// A point of acme's area as one of the window.
pub open spec fn in_window(x: int, y: int, top: int) -> Pt {
    Pt { x: (x * SUB) as i64, y: ((y + top) * SUB) as i64 }
}

/// A little into the text from a point of it, where its line ends.
pub open spec fn on_text(q: Pt, font: int) -> Pt {
    Pt { x: (q.x + 4 * SUB) as i64, y: (q.y + (font - 4) * SUB) as i64 }
}

/// Where a move that waited puts the pointer: for lines of `font` pixels,
/// a scroll bar `bar` pixels wide, and acme's area starting at `top`.
pub open spec fn placed(p: Pending, d: Drawn, font: int, bar: int, top: int) -> Option<Pt> {
    match p {
        Pending::Restore(at) => Some(at),
        Pending::Warp(Warp::NewWindow(_)) => match d.slot {
            Some(s) => Some(in_window(s.x0 + bar + 3, s.tag_y1 + 3, top)),
            None => None,
        },
        Pending::Warp(Warp::WinButton(_)) => match d.slot {
            Some(s) => Some(in_window(s.x0 + bar / 2, s.y0 + font / 2, top)),
            None => None,
        },
        Pending::Warp(Warp::ColButton(_)) => match d.column {
            Some(c) => Some(in_window(c.x0 + bar / 2, c.y0 + font / 2, top)),
            None => None,
        },
        Pending::Warp(Warp::Closed(_, None)) => None,
        _ => match d.point {
            Some(q) => Some(on_text(q, font)),
            None => None,
        },
    }
}

fn to_window(x: i64, y: i64, top: u16) -> (p: Pt)
    requires
        -0x2_0000_0000 <= x <= 0x2_0000_0000,
        -0x2_0000_0000 <= y <= 0x2_0000_0000,
    ensures
        p == in_window(x as int, y as int, top as int),
{
    Pt { x: x * SUB, y: (y + top as i64) * SUB }
}

impl Pointer {
    /// A frame begins: a move that waited for the layout now drawn is
    /// placed, and where it puts the pointer is where the pointer is.
    pub fn resolve_warp(&mut self, d: &Drawn, font: u16, bar: u16, top: u16) -> (to: Option<Pt>)
        requires
            d.point matches Some(q) ==> crate::drag::near(q),
        ensures
            to == (if old(self).wait || old(self).pending is None {
                None
            } else {
                placed(old(self).pending->0, *d, font as int, bar as int, top as int)
            }),
            *final(self) == (if old(self).wait || old(self).pending is None {
                *old(self)
            } else {
                match to {
                    Some(at) => Pointer { pending: None, at: Some(at), last: at, ..*old(self) },
                    None => Pointer { pending: None, ..*old(self) },
                }
            }),
    {
        if self.wait {
            return None;
        }
        let p = match self.pending {
            Some(p) => p,
            None => {
                return None;
            },
        };
        self.pending = None;
        let f: i64 = font as i64;
        let b: i64 = bar as i64;
        let to: Option<Pt> = match p {
            Pending::Restore(at) => Some(at),
            Pending::Warp(Warp::NewWindow(_)) => match d.slot {
                Some(s) => Some(to_window(s.x0 as i64 + b + 3, s.tag_y1 as i64 + 3, top)),
                None => None,
            },
            Pending::Warp(Warp::WinButton(_)) => match d.slot {
                Some(s) => Some(to_window(s.x0 as i64 + b / 2, s.y0 as i64 + f / 2, top)),
                None => None,
            },
            Pending::Warp(Warp::ColButton(_)) => match d.column {
                Some(c) => Some(to_window(c.x0 as i64 + b / 2, c.y0 as i64 + f / 2, top)),
                None => None,
            },
            Pending::Warp(Warp::Closed(_, None)) => None,
            _ => match d.point {
                Some(q) => Some(Pt { x: q.x + 4 * SUB, y: q.y + (f - 4) * SUB }),
                None => None,
            },
        };
        if let Some(at) = to {
            self.at = Some(at);
            self.last = at;
        }
        to
    }

    /// A frame ends: a move queued by what it applied needs one more,
    /// whose layout shows the new geometry.  Whether one is to be drawn.
    pub fn schedule_warp(&mut self) -> (again: bool)
        ensures
            again == (old(self).pending is Some && old(self).wait),
            *final(self) == (Pointer { wait: old(self).wait && !again, ..*old(self) }),
    {
        if self.pending.is_some() && self.wait {
            self.wait = false;
            true
        } else {
            false
        }
    }

    /// The window became active or not: coming back, the pointer is put
    /// where it last was here; unless a button is down, for then a click
    /// is what brought it back.
    pub fn window_activated(&mut self, active: bool, button_down: bool) -> (to: Option<Pt>)
        ensures
            to == (if active && !button_down && old(self).last != (Pt { x: 0, y: 0 }) {
                Some(old(self).last)
            } else {
                None
            }),
            *final(self) == (if to is Some {
                Pointer { at: to, ..*old(self) }
            } else {
                *old(self)
            }),
    {
        let nowhere = self.last.x == 0 && self.last.y == 0;
        if !active || nowhere || button_down {
            return None;
        }
        self.at = Some(self.last);
        Some(self.last)
    }
}

/// Where the pointer goes in the tag of a window left when another has
/// closed: two past the tag's first space, where `Del` is; its start,
/// where it has none.
pub fn del_at(tag: &[char]) -> (n: usize)
    requires
        tag@.len() < usize::MAX,
    ensures
        n == (if find(tag@, ' ', 0) < tag@.len() {
            find(tag@, ' ', 0) + 2
        } else {
            0
        }),
{
    let i: usize = crate::text::find_char(tag, ' ', 0);
    if i < tag.len() {
        i + 2
    } else {
        0
    }
}

/// A window's rectangle, and its body's, as the layout has them, with
/// where its tag ends.
#[derive(Clone, Copy, Debug, PartialEq, Eq, Structural)]
pub struct Frame {
    pub x0: i32,
    pub x1: i32,
    pub y0: i32,
    pub tag_y1: i32,
    pub body_y0: i32,
    pub body_y1: i32,
}

impl Frame {
    /// The point is on the tag.
    pub open spec fn in_tag(self, x: int, y: int) -> bool {
        self.x0 <= x < self.x1 && self.y0 <= y < self.tag_y1
    }

    /// The point is on the body.
    pub open spec fn in_body(self, x: int, y: int) -> bool {
        self.x0 <= x < self.x1 && self.body_y0 <= y < self.body_y1
    }
}

/// The height that the pointer is put at when a window's tag has changed
/// shape under it: pulled up as the tag closes, pushed down as it opens.
pub open spec fn pulled(before: Frame, after: Frame, x: int, y: int) -> Option<int> {
    if before.in_tag(x, y) && !after.in_tag(x, y) {
        Some(after.tag_y1 - 3)
    } else if before.in_body(x, y) && after.in_tag(x, y) {
        Some(after.tag_y1 + 3)
    } else {
        None
    }
}

impl Pointer {
    /// A window's tag has changed shape: the pointer, at `(x, y)` of
    /// acme's area, is kept on the part of the window it was on.
    pub fn refitted(&mut self, before: &Frame, after: &Frame, x: i32, y: i32, top: u16)
        ensures
            *final(self) == (match pulled(*before, *after, x as int, y as int) {
                Some(to) => Pointer {
                    pending: Some(
                        Pending::Restore(Pt { x: old(self).last.x, y: ((to + top) * SUB) as i64 }),
                    ),
                    wait: false,
                    ..*old(self)
                },
                None => *old(self),
            }),
    {
        let was_in_tag = before.x0 <= x && x < before.x1 && before.y0 <= y && y < before.tag_y1;
        let is_in_tag = after.x0 <= x && x < after.x1 && after.y0 <= y && y < after.tag_y1;
        let was_in_body = before.x0 <= x && x < before.x1 && before.body_y0 <= y && y < before.body_y1;
        let to: i64 = if was_in_tag && !is_in_tag {
            after.tag_y1 as i64 - 3
        } else if was_in_body && is_in_tag {
            after.tag_y1 as i64 + 3
        } else {
            return;
        };
        self.pending = Some(Pending::Restore(Pt { x: self.last.x, y: (to + top as i64) * SUB }));
        self.wait = false;
    }
}

/// How many tag lines fit a window, for its tag to be fitted anew: as
/// many as its height holds, and no fewer than it has.
pub fn tag_room(height: i32, font: u16, taglines: i32) -> (n: i32)
    requires
        font > 0,
        taglines >= 0,
    ensures
        n == ({
            let fit = if height > 0 {
                height as int / font as int
            } else {
                0
            };
            if fit > taglines {
                fit
            } else {
                taglines as int
            }
        }),
{
    let fit: i32 = if height > 0 {
        proof {
            assert(0 <= height as int / font as int <= height) by (nonlinear_arith)
                requires
                    height > 0,
                    font > 0,
            ;
        }
        height / (font as i32)
    } else {
        0
    };
    if fit > taglines {
        fit
    } else {
        taglines
    }
}

/// What is measured of a window's tag: its lines, and whether it ends
/// with a newline; one line while it is shrunk to one.
pub fn tag_measured(expanded: bool, measured: Option<(i32, bool)>) -> (r: Option<(i32, bool)>)
    ensures
        r == (if expanded {
            measured
        } else {
            Some((1i32, false))
        }),
{
    if expanded {
        measured
    } else {
        Some((1, false))
    }
}

/// How a window's body is measured: whether its text is in the fixed
/// font, how many lines it has from its origin on, and whether it is a
/// terminal.
#[derive(Clone, Copy, Debug, PartialEq, Eq, Structural)]
pub struct BodyInfo {
    pub mono: bool,
    pub lines: i32,
    pub term: bool,
}

/// The lines of a text from its first on screen on.
pub fn lines_left(total: u32, first: u32) -> (n: u32)
    ensures
        n == (if total > first {
            total - first
        } else {
            0
        }),
{
    if total > first {
        total - first
    } else {
        0
    }
}

/// The height of a body's lines: the fixed font's for a terminal, for a
/// text in it, and for a body not measured.
pub fn body_font_height(b: Option<BodyInfo>, prop: i32, mono: i32) -> (h: i32)
    ensures
        h == (if b is Some && !b->0.mono && !b->0.term {
            prop
        } else {
            mono
        }),
{
    match b {
        Some(x) => {
            if !x.mono && !x.term {
                prop
            } else {
                mono
            }
        },
        None => mono,
    }
}

/// How many lines a body has use for, of as many as there are at most: a
/// terminal has use for all.
pub fn body_nlines(b: Option<BodyInfo>, most: i32) -> (n: i32)
    ensures
        n == (if b is Some && !b->0.term && b->0.lines < most {
            b->0.lines
        } else {
            most
        }),
{
    match b {
        Some(x) => {
            if !x.term && x.lines < most {
                x.lines
            } else {
                most
            }
        },
        None => most,
    }
}

/// The pointer is to go into a window just made, to be given back when that
/// closes; any other move leaves what is to be given back as it is, and every
/// move waits for the frame.
pub proof fn law_a_new_window_has_the_pointer(p: Pointer, win: WindowId, col: ColumnId, v: ViewId)
    ensures
        warped(p, Warp::NewWindow(win)).saved == Some((win, p.last)),
        warped(p, Warp::NewWindow(win)).pending == Some(Pending::Warp(Warp::NewWindow(win))),
        warped(p, Warp::NewWindow(win)).wait,
        warped(p, Warp::WinButton(win)) == (Pointer {
            pending: Some(Pending::Warp(Warp::WinButton(win))),
            wait: true,
            ..p
        }),
        warped(p, Warp::ColButton(col)) == (Pointer {
            pending: Some(Pending::Warp(Warp::ColButton(col))),
            wait: true,
            ..p
        }),
        warped(p, Warp::Sel(v)) == (Pointer { pending: Some(Pending::Warp(Warp::Sel(v))), wait: true, ..p }),
{
}

/// A window that closes gives the pointer back only if its making moved it:
/// else it goes to the window next, where there is one, and stays where there
/// is none; and what there was to give back is forgotten.
pub proof fn law_a_window_that_closes_gives_back_only_its_own(p: Pointer, win: WindowId, next: WindowId)
    ensures
        warped(p, Warp::Closed(win, Some(next))).saved is None,
        warped(p, Warp::Closed(win, None)).saved is None,
        p.saved is None || (p.saved->0).0 != win ==> warped(p, Warp::Closed(win, Some(next))).pending == Some(
            Pending::Warp(Warp::Closed(win, Some(next))),
        ) && warped(p, Warp::Closed(win, Some(next))).wait,
        p.saved is None || (p.saved->0).0 != win ==> warped(p, Warp::Closed(win, None)) == (Pointer { saved: None, ..p }),
        p.saved is Some && (p.saved->0).0 == win ==> warped(p, Warp::Closed(win, Some(next))).pending == Some(
            Pending::Restore((p.saved->0).1),
        ),
{
}

/// A window's pointer is put inside the window: by the corner of its body when
/// it is made, in its layout box when that is asked for; and below whatever is
/// above the columns.
pub proof fn law_the_pointer_is_put_inside(d: Drawn, win: WindowId, font: int, bar: int, top: int)
    requires
        0 <= font <= u16::MAX,
        0 < bar <= u16::MAX,
        0 <= top <= u16::MAX,
    ensures
        d.slot is Some ==> placed(Pending::Warp(Warp::NewWindow(win)), d, font, bar, top) == Some(
            Pt {
                x: ((d.slot->0.x0 + bar + 3) * SUB) as i64,
                y: ((d.slot->0.tag_y1 + 3 + top) * SUB) as i64,
            },
        ),
        d.slot is Some ==> placed(Pending::Warp(Warp::WinButton(win)), d, font, bar, top) == Some(
            Pt {
                x: ((d.slot->0.x0 + bar / 2) * SUB) as i64,
                y: ((d.slot->0.y0 + font / 2 + top) * SUB) as i64,
            },
        ),
        d.slot is None ==> placed(Pending::Warp(Warp::NewWindow(win)), d, font, bar, top) is None && placed(
            Pending::Warp(Warp::WinButton(win)),
            d,
            font,
            bar,
            top,
        ) is None,
        forall|at: Pt| #[trigger] placed(Pending::Restore(at), d, font, bar, top) == Some(at),
        placed(Pending::Warp(Warp::Closed(win, None)), d, font, bar, top) is None,
{
}

/// A pointer that was in a window's tag is kept in it, and one that was in its
/// body is kept out of the tag; one that neither lost nor gained the tag stays.
pub proof fn law_the_pointer_keeps_to_its_side_of_the_tag(before: Frame, after: Frame, x: int, y: int)
    requires
        after.tag_y1 - after.y0 >= 3,
        after.x0 == before.x0 && after.x1 == before.x1,
    ensures
        before.in_tag(x, y) && !after.in_tag(x, y) ==> pulled(before, after, x, y) is Some && after.in_tag(
            x,
            pulled(before, after, x, y)->0,
        ),
        !before.in_tag(x, y) && before.in_body(x, y) && after.in_tag(x, y) ==> pulled(before, after, x, y) is Some
            && !after.in_tag(x, pulled(before, after, x, y)->0) && pulled(before, after, x, y)->0 > y,
        before.in_tag(x, y) && after.in_tag(x, y) && !before.in_body(x, y) ==> pulled(before, after, x, y) is None,
        !before.in_tag(x, y) && !after.in_tag(x, y) ==> pulled(before, after, x, y) is None,
{
}

} // verus!
