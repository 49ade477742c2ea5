//! The mouse moved with buttons held: sweeps and selections follow it.

use vstd::prelude::*;

use crate::mouse::{Act, Cell, Drag, HlKind, Mouse, Pt, Scrolling, Swept, TermSel, TermSweep, Ui, SUB};

verus! {

/// The furthest a position is from the window's corner.
pub const FAR: i64 = 0x100_0000_0000;

/// A position within reach.
pub open spec fn near(p: Pt) -> bool {
    -FAR <= p.x <= FAR && -FAR <= p.y <= FAR
}

/// The text under the pointer, of a text B1 is held in: the offset, and
/// whether the pointer is above or below the text.
#[derive(Clone, Copy, Debug, PartialEq, Eq, Structural)]
pub struct OffsetAt {
    pub off: usize,
    pub above: bool,
    pub below: bool,
}

/// The cell of a terminal under the pointer, the columns there are, and
/// the history line in the first row.
#[derive(Clone, Copy, Debug, PartialEq, Eq, Structural)]
pub struct CellAt {
    pub col: usize,
    pub row: usize,
    pub cols: usize,
    pub top: u64,
}

/// What is under the pointer of each thing that is held; none where
/// nothing is held, or what is held is not on screen.
#[derive(Clone, Copy, Debug, PartialEq, Eq, Structural)]
pub struct Over {
    pub b1: Option<OffsetAt>,
    pub b2: Option<usize>,
    pub b3: Option<usize>,
    pub sweep: Option<CellAt>,
    pub drag: Option<CellAt>,
}

/// A cell's line of the history can be counted.
pub open spec fn countable(c: Option<CellAt>) -> bool {
    c matches Some(c) ==> c.top + c.row <= u64::MAX
}

/// The distance between two numbers.
pub open spec fn apart(a: int, b: int) -> int {
    if a < b {
        b - a
    } else {
        a - b
    }
}

/// Further than `d` from each other, one way or the other.
pub open spec fn parted(p: Pt, q: Pt, d: int) -> bool {
    apart(p.x as int, q.x as int) > d || apart(p.y as int, q.y as int) > d
}

/// Whether two points are further than `d` from each other, one way or
/// the other.
pub fn are_parted(p: Pt, q: Pt, d: i64) -> (r: bool)
    requires
        near(p),
        near(q),
    ensures
        r == parted(p, q, d as int),
{
    let dx: i64 = if p.x < q.x {
        q.x - p.x
    } else {
        p.x - q.x
    };
    let dy: i64 = if p.y < q.y {
        q.y - p.y
    } else {
        p.y - q.y
    };
    dx > d || dy > d
}

/// The end of a sweep that began at `from`: it takes the cell pointed at
/// in when it runs forward.
pub open spec fn swept_to(from: Cell, at: CellAt) -> Cell {
    let line = (at.top + at.row) as u64;
    let forward = line > from.line || line == from.line && at.col >= from.col;
    Cell {
        col: if !forward {
            at.col
        } else if at.col < at.cols {
            (at.col + 1) as usize
        } else {
            at.cols
        },
        line,
    }
}

/// The end of a sweep in a terminal.
pub fn sweep_end(from: Cell, at: CellAt) -> (end: Cell)
    requires
        at.top + at.row <= u64::MAX,
    ensures
        end == swept_to(from, at),
{
    let line: u64 = at.top + at.row as u64;
    let forward = line > from.line || line == from.line && at.col >= from.col;
    let col: usize = if !forward {
        at.col
    } else if at.col < at.cols {
        at.col + 1
    } else {
        at.cols
    };
    Cell { col, line }
}

/// The pointer where it is now: a warp's place is forgotten once the
/// mouse is more than a pixel from it, and a scrollbar held follows the
/// height.
pub open spec fn pointed(ui: Ui, pos: Pt) -> Ui {
    Ui {
        pointer: match ui.pointer {
            Some(p) => if parted(p, pos, SUB as int) {
                None
            } else {
                Some(p)
            },
            None => None,
        },
        last_mouse: pos,
        mouse: Mouse {
            scrolling: match ui.mouse.scrolling {
                Some(s) => Some(Scrolling { y: pos.y, ..s }),
                None => None,
            },
            ..ui.mouse
        },
        ..ui
    }
}

/// A B2 or B3 sweep in a terminal follows the pointer.
pub open spec fn sweep_follows(ui: Ui, over: Over) -> Ui {
    match (ui.mouse.term_sweep, over.sweep, ui.term_hl) {
        (Some(h), Some(at), Some(hl)) => Ui { term_hl: Some(TermSweep { to: swept_to(h.at, at), ..hl }), ..ui },
        _ => ui,
    }
}

/// A B1 selection in a terminal follows the pointer.
pub open spec fn selection_follows(ui: Ui, over: Over) -> Ui {
    match (ui.mouse.term_drag, over.drag, ui.term_sel) {
        (Some(w), Some(at), Some(s)) => if s.window == w {
            Ui { term_sel: Some(TermSel { to: swept_to(s.from, at), ..s }), ..ui }
        } else {
            ui
        },
        _ => ui,
    }
}

/// Which way a text scrolls for a pointer outside it.
pub open spec fn outward(at: OffsetAt) -> Option<i64> {
    if at.above {
        Some(-1i64)
    } else if at.below {
        Some(1i64)
    } else {
        None
    }
}

/// B1's sweep follows the pointer, unless a chord ended it.
pub open spec fn b1_follows(ui: Ui, over: Over) -> (Ui, Seq<Act>) {
    match (ui.mouse.b1, over.b1) {
        (Some(d), Some(at)) => if ui.mouse.chorded {
            (ui, Seq::empty())
        } else {
            let select = Act::Select(d.view, least(d.anchor, at.off), most(d.anchor, at.off));
            (
                Ui {
                    mouse: Mouse {
                        autoscroll: match outward(at) {
                            Some(dir) => Some((d.view, dir)),
                            None => None,
                        },
                        ..ui.mouse
                    },
                    ..ui
                },
                if outward(at) is Some && ui.mouse.autoscroll is None {
                    seq![select, Act::StartAutoscroll]
                } else {
                    seq![select]
                },
            )
        },
        _ => (ui, Seq::empty()),
    }
}

/// The lesser of the two.
pub open spec fn least(a: usize, b: usize) -> usize {
    if a <= b {
        a
    } else {
        b
    }
}

/// The greater of the two.
pub open spec fn most(a: usize, b: usize) -> usize {
    if a <= b {
        b
    } else {
        a
    }
}

/// The text swept from where a button went down.
pub open spec fn swept(d: Drag, off: usize, kind: HlKind) -> Swept {
    Swept { view: d.view, lo: least(d.anchor, off), hi: most(d.anchor, off), kind }
}

/// What B2's and B3's sweeps show; B3's when both are held.
pub open spec fn shown(ui: Ui, over: Over) -> Option<Swept> {
    match (ui.mouse.b3, over.b3) {
        (Some(d), Some(off)) => Some(swept(d, off, HlKind::Look)),
        _ => match (ui.mouse.b2, over.b2) {
            (Some(d), Some(off)) => Some(swept(d, off, HlKind::Exec)),
            _ => ui.hl,
        },
    }
}

/// Something held follows the pointer, so there is something to draw.
pub open spec fn stirs(ui: Ui, over: Over) -> bool {
    ||| ui.mouse.term_sweep is Some && over.sweep is Some
    ||| ui.mouse.term_drag matches Some(w) && over.drag is Some && ui.term_sel is Some && ui.term_sel->0.window == w
    ||| ui.mouse.b1 is Some && over.b1 is Some && !ui.mouse.chorded
    ||| ui.mouse.b2 is Some && over.b2 is Some
    ||| ui.mouse.b3 is Some && over.b3 is Some
}

/// What a move does with nothing open but, perhaps, the menu.
pub open spec fn moved(ui: Ui, pos: Pt, over: Over) -> (Ui, Seq<Act>) {
    if ui.menu {
        (Ui { last_mouse: pos, ..ui }, seq![Act::TrackMenu, Act::Redraw])
    } else {
        let (u, acts) = b1_follows(selection_follows(sweep_follows(pointed(ui, pos), over), over), over);
        (
            Ui { hl: shown(ui, over), ..u },
            if stirs(ui, over) {
                acts + seq![Act::Redraw]
            } else {
                acts
            },
        )
    }
}

/// Once a chord has been made, moving the pointer selects nothing: the
/// cut's insertion point, or what was pasted, stays as it is.
pub proof fn law_a_chord_ends_the_sweep(ui: Ui, pos: Pt, over: Over)
    requires
        ui.mouse.chorded,
        !ui.menu,
    ensures
        forall|i: int| 0 <= i < moved(ui, pos, over).1.len() ==> !(#[trigger] moved(ui, pos, over).1[i] is Select),
        moved(ui, pos, over).0.mouse.b1 == ui.mouse.b1,
        moved(ui, pos, over).0.mouse.autoscroll == ui.mouse.autoscroll,
{
}

/// A move holds no button and lets none go.
pub proof fn law_moves_hold_what_was_held(ui: Ui, pos: Pt, over: Over)
    ensures
        moved(ui, pos, over).0.mouse.b1 == ui.mouse.b1,
        moved(ui, pos, over).0.mouse.b2 == ui.mouse.b2,
        moved(ui, pos, over).0.mouse.b3 == ui.mouse.b3,
        moved(ui, pos, over).0.mouse.box_drag == ui.mouse.box_drag,
        moved(ui, pos, over).0.mouse.term_drag == ui.mouse.term_drag,
        moved(ui, pos, over).0.mouse.term_sweep == ui.mouse.term_sweep,
        moved(ui, pos, over).0.mouse.chorded == ui.mouse.chorded,
{
}

impl Ui {
    fn point_at(&mut self, pos: Pt)
        requires
            near(pos),
            old(self).pointer matches Some(p) ==> near(p),
        ensures
            *final(self) == pointed(*old(self), pos),
    {
        let pointer = match self.pointer {
            Some(p) => if are_parted(p, pos, SUB) {
                None
            } else {
                Some(p)
            },
            None => None,
        };
        let scrolling = match self.mouse.scrolling {
            Some(s) => Some(Scrolling { target: s.target, button: s.button, y: pos.y }),
            None => None,
        };
        self.pointer = pointer;
        self.last_mouse = pos;
        self.mouse.scrolling = scrolling;
    }

    fn follow_sweep(&mut self, over: &Over)
        requires
            countable(over.sweep),
        ensures
            *final(self) == sweep_follows(*old(self), *over),
    {
        if let Some(h) = self.mouse.term_sweep {
            if let Some(at) = over.sweep {
                let end = sweep_end(h.at, at);
                if let Some(hl) = self.term_hl {
                    self.term_hl = Some(TermSweep { window: hl.window, button: hl.button, from: hl.from, to: end });
                }
            }
        }
    }

    fn follow_selection(&mut self, over: &Over)
        requires
            countable(over.drag),
        ensures
            *final(self) == selection_follows(*old(self), *over),
    {
        if let Some(w) = self.mouse.term_drag {
            if let Some(at) = over.drag {
                if let Some(s) = self.term_sel {
                    if s.window == w {
                        let end = sweep_end(s.from, at);
                        self.term_sel = Some(TermSel { window: w, from: s.from, to: end });
                    }
                }
            }
        }
    }

    fn follow_b1(&mut self, over: &Over) -> (acts: Vec<Act>)
        ensures
            (*final(self), acts@) == b1_follows(*old(self), *over),
    {
        let mut acts: Vec<Act> = Vec::new();
        if let Some(d) = self.mouse.b1 {
            if let Some(at) = over.b1 {
                if !self.mouse.chorded {
                    acts.push(if d.anchor <= at.off {
                        Act::Select(d.view, d.anchor, at.off)
                    } else {
                        Act::Select(d.view, at.off, d.anchor)
                    });
                    // acme's framescroll: keep scrolling while the pointer
                    // is outside
                    if at.above || at.below {
                        let fresh = self.mouse.autoscroll.is_none();
                        self.mouse.autoscroll = Some((d.view, if at.above { -1i64 } else { 1i64 }));
                        if fresh {
                            acts.push(Act::StartAutoscroll);
                        }
                    } else {
                        self.mouse.autoscroll = None;
                    }
                }
            }
        }
        proof {
            assert(acts@ =~= b1_follows(*old(self), *over).1);
        }
        acts
    }

    fn sweep_shown(&self, over: &Over) -> (hl: Option<Swept>)
        ensures
            hl == shown(*self, *over),
    {
        if let Some(d) = self.mouse.b3 {
            if let Some(off) = over.b3 {
                return Some(sweep_from(d, off, HlKind::Look));
            }
        }
        if let Some(d) = self.mouse.b2 {
            if let Some(off) = over.b2 {
                return Some(sweep_from(d, off, HlKind::Exec));
            }
        }
        self.hl
    }

    fn stirs(&self, over: &Over) -> (r: bool)
        ensures
            r == stirs(*self, *over),
    {
        let dragged = match (self.mouse.term_drag, self.term_sel) {
            (Some(w), Some(s)) => over.drag.is_some() && s.window == w,
            _ => false,
        };
        dragged || self.mouse.term_sweep.is_some() && over.sweep.is_some() || self.mouse.b1.is_some() && over.b1.is_some()
            && !self.mouse.chorded || self.mouse.b2.is_some() && over.b2.is_some() || self.mouse.b3.is_some()
            && over.b3.is_some()
    }

    /// The mouse moved to `pos`.
    pub fn mouse_move(&mut self, pos: Pt, over: &Over) -> (acts: Vec<Act>)
        requires
            near(pos),
            old(self).pointer matches Some(p) ==> near(p),
            countable(over.sweep),
            countable(over.drag),
        ensures
            (*final(self), acts@) == moved(*old(self), pos, *over),
    {
        if self.menu {
            self.last_mouse = pos;
            let mut acts: Vec<Act> = Vec::new();
            acts.push(Act::TrackMenu);
            acts.push(Act::Redraw);
            proof {
                assert(acts@ =~= seq![Act::TrackMenu, Act::Redraw]);
            }
            return acts;
        }
        let stirred = self.stirs(over);
        let hl = self.sweep_shown(over);
        self.point_at(pos);
        self.follow_sweep(over);
        self.follow_selection(over);
        let mut acts: Vec<Act> = self.follow_b1(over);
        self.hl = hl;
        let ghost before = acts@;
        if stirred {
            acts.push(Act::Redraw);
            proof {
                assert(acts@ =~= before + seq![Act::Redraw]);
            }
        }
        acts
    }
}

fn sweep_from(d: Drag, off: usize, kind: HlKind) -> (s: Swept)
    ensures
        s == swept(d, off, kind),
{
    if d.anchor <= off {
        Swept { view: d.view, lo: d.anchor, hi: off, kind }
    } else {
        Swept { view: d.view, lo: off, hi: d.anchor, kind }
    }
}

/// With the menu up, a move tracks it and changes nothing else but where the
/// mouse was last.
pub proof fn law_the_menu_follows_the_pointer(ui: Ui, pos: Pt, over: Over)
    requires
        ui.menu,
    ensures
        moved(ui, pos, over).0 == (Ui { last_mouse: pos, ..ui }),
        moved(ui, pos, over).1 == seq![Act::TrackMenu, Act::Redraw],
{
}

/// A move is noted: where a warp put the pointer is forgotten once the mouse
/// is more than a pixel away from it, across or down, and a scrollbar that
/// is held follows the height.
pub proof fn law_a_move_is_noted(ui: Ui, pos: Pt, over: Over)
    requires
        !ui.menu,
    ensures
        ({
            let u = moved(ui, pos, over).0;
            &&& u.last_mouse == pos
            &&& ui.pointer is None ==> u.pointer is None
            &&& ui.pointer matches Some(p) ==> if p.x - pos.x > SUB || pos.x - p.x > SUB || p.y - pos.y > SUB || pos.y
                - p.y > SUB {
                u.pointer is None
            } else {
                u.pointer == Some(p)
            }
            &&& u.mouse.scrolling is Some <==> ui.mouse.scrolling is Some
            &&& ui.mouse.scrolling matches Some(s) ==> u.mouse.scrolling->0.target == s.target
                && u.mouse.scrolling->0.button == s.button && u.mouse.scrolling->0.y == pos.y
            &&& u.mouse == (Mouse { scrolling: u.mouse.scrolling, autoscroll: u.mouse.autoscroll, ..ui.mouse })
            &&& u == (Ui {
                pointer: u.pointer,
                last_mouse: pos,
                mouse: u.mouse,
                hl: u.hl,
                term_sel: u.term_sel,
                term_hl: u.term_hl,
                ..ui
            })
        }),
{
}

/// B1's sweep selects from where the button went down to where the pointer
/// is, the lesser offset first; it scrolls back while the pointer is above
/// the text, on while it is below, and not while it is in it.
pub proof fn law_b1_selects_what_it_sweeps(ui: Ui, pos: Pt, over: Over, d: Drag, at: OffsetAt)
    requires
        !ui.menu,
        !ui.mouse.chorded,
        ui.mouse.b1 == Some(d),
        over.b1 == Some(at),
    ensures
        ({
            let (u, acts) = moved(ui, pos, over);
            &&& acts.len() > 0 && acts[0] is Select
            &&& acts[0]->Select_0 == d.view && acts[0]->Select_1 <= acts[0]->Select_2
            &&& d.anchor <= at.off ==> acts[0]->Select_1 == d.anchor && acts[0]->Select_2 == at.off
            &&& at.off <= d.anchor ==> acts[0]->Select_1 == at.off && acts[0]->Select_2 == d.anchor
            &&& at.above ==> u.mouse.autoscroll == Some((d.view, -1i64))
            &&& !at.above && at.below ==> u.mouse.autoscroll == Some((d.view, 1i64))
            &&& !at.above && !at.below ==> u.mouse.autoscroll is None
            &&& acts.contains(Act::StartAutoscroll) <==> (at.above || at.below) && ui.mouse.autoscroll is None
            &&& acts.last() == Act::Redraw
        }),
{
    let acts = moved(ui, pos, over).1;
    if (at.above || at.below) && ui.mouse.autoscroll is None {
        assert(acts[1] == Act::StartAutoscroll);
    }
}

/// Where nothing is swept with the first button, a move selects nothing in a
/// text and leaves what scrolls alone.
pub proof fn law_nothing_is_selected_without_b1(ui: Ui, pos: Pt, over: Over)
    requires
        !ui.menu,
        ui.mouse.b1 is None || over.b1 is None || ui.mouse.chorded,
    ensures
        ({
            let (u, acts) = moved(ui, pos, over);
            &&& u.mouse.autoscroll == ui.mouse.autoscroll
            &&& acts == Seq::<Act>::empty() || acts == seq![Act::Redraw]
        }),
{
    let acts = moved(ui, pos, over).1;
    assert(acts =~= Seq::<Act>::empty() || acts =~= seq![Act::Redraw]);
}

/// B3's sweep, else B2's, is shown from where the button went down to where
/// the pointer is: B3's as something to look up, B2's as something to run.
/// With neither held over a text, what was shown stays.
pub proof fn law_b2_and_b3_show_what_they_sweep(ui: Ui, pos: Pt, over: Over)
    requires
        !ui.menu,
    ensures
        ({
            let hl = moved(ui, pos, over).0.hl;
            let third = ui.mouse.b3 is Some && over.b3 is Some;
            let second = ui.mouse.b2 is Some && over.b2 is Some;
            &&& third ==> shows(hl, ui.mouse.b3->0, over.b3->0, HlKind::Look)
            &&& !third && second ==> shows(hl, ui.mouse.b2->0, over.b2->0, HlKind::Exec)
            &&& !third && !second ==> hl == ui.hl
        }),
{
}

/// What is shown is what lies between the press and `off`, in the text
/// pressed, for this purpose.
pub open spec fn shows(hl: Option<Swept>, d: Drag, off: usize, kind: HlKind) -> bool {
    &&& hl is Some && hl->0.view == d.view && hl->0.kind == kind
    &&& hl->0.lo <= hl->0.hi
    &&& hl->0.lo == d.anchor && hl->0.hi == off || hl->0.lo == off && hl->0.hi == d.anchor
}

/// A sweep in a terminal ends at the cell pointed at, on that cell's line of
/// the history: past it where it runs on from where it began, so that the
/// cell is in it, and at it where it runs back; never past the last column.
pub proof fn law_a_sweep_takes_the_cell_in(from: Cell, at: CellAt)
    requires
        at.top + at.row <= u64::MAX,
        at.cols < usize::MAX,
    ensures
        ({
            let end = swept_to(from, at);
            let line = at.top + at.row;
            &&& end.line == line
            &&& line < from.line || line == from.line && at.col < from.col ==> end.col == at.col
            &&& line > from.line || line == from.line && at.col >= from.col ==> end.col == if at.col < at.cols {
                at.col + 1
            } else {
                at.cols as int
            }
        }),
{
}

/// The sweep of the second or third button in a terminal follows the pointer
/// from where it began, and so does the selection of the first, in the
/// terminal that it is held in; each is otherwise as it was.
pub proof fn law_what_is_held_in_a_terminal_follows(ui: Ui, pos: Pt, over: Over)
    requires
        !ui.menu,
    ensures
        ({
            let u = moved(ui, pos, over).0;
            let sweeps = ui.mouse.term_sweep is Some && over.sweep is Some && ui.term_hl is Some;
            let selects = ui.mouse.term_drag is Some && over.drag is Some && ui.term_sel is Some
                && ui.term_sel->0.window == ui.mouse.term_drag->0;
            &&& !sweeps ==> u.term_hl == ui.term_hl
            &&& sweeps ==> u.term_hl is Some && u.term_hl->0.window == ui.term_hl->0.window && u.term_hl->0.button
                == ui.term_hl->0.button && u.term_hl->0.from == ui.term_hl->0.from && u.term_hl->0.to == swept_to(
                ui.mouse.term_sweep->0.at,
                over.sweep->0,
            )
            &&& !selects ==> u.term_sel == ui.term_sel
            &&& selects ==> u.term_sel is Some && u.term_sel->0.window == ui.term_sel->0.window && u.term_sel->0.from
                == ui.term_sel->0.from && u.term_sel->0.to == swept_to(ui.term_sel->0.from, over.drag->0)
        }),
{
}

/// A move draws again just where something that is held is over what it is
/// held in.
pub proof fn law_a_move_draws_what_stirs(ui: Ui, pos: Pt, over: Over)
    requires
        !ui.menu,
    ensures
        moved(ui, pos, over).1.contains(Act::Redraw) <==> {
            ||| ui.mouse.term_sweep is Some && over.sweep is Some
            ||| ui.mouse.term_drag is Some && over.drag is Some && ui.term_sel is Some && ui.term_sel->0.window
                == ui.mouse.term_drag->0
            ||| ui.mouse.b1 is Some && over.b1 is Some && !ui.mouse.chorded
            ||| ui.mouse.b2 is Some && over.b2 is Some
            ||| ui.mouse.b3 is Some && over.b3 is Some
        },
{
    let acts = moved(ui, pos, over).1;
    if stirs(ui, over) {
        assert(acts.last() == Act::Redraw);
    }
}

} // verus!
