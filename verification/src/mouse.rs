//! Acme's three-button mouse: what a press, a move and a release mean,
//! the chords, and what they leave held.
//!
//! Positions are in [`SUB`]ths of a pixel.

use vstd::prelude::*;

use crate::ids::{ColumnId, ExecCtx, TermId, ViewId, WindowId};
use crate::keys::Modifiers;

verus! {

/// A pixel, in the units positions are given in.
pub const SUB: i64 = 64;

/// A point of the window.
#[derive(Clone, Copy, Debug, PartialEq, Eq, Structural)]
pub struct Pt {
    pub x: i64,
    pub y: i64,
}

/// A button, as acme counts them: `Menu` is the fourth.
#[derive(Clone, Copy, Debug, PartialEq, Eq, Structural)]
pub enum Button {
    Left,
    Middle,
    Right,
    Menu,
}

/// What a press landed on.
#[derive(Clone, Copy, Debug, PartialEq, Eq, Structural)]
pub enum Target {
    View(ViewId),
    Term(WindowId, TermId),
}

/// Which part of it, and where in the text or the grid.
#[derive(Clone, Copy, Debug, PartialEq, Eq, Structural)]
pub enum Region {
    Text(usize),
    Scrollbar,
    LayoutBox,
    Term(usize, usize),
    TermScrollbar,
}

/// A button held in a text: the text, and the offset it was pressed at.
#[derive(Clone, Copy, Debug, PartialEq, Eq, Structural)]
pub struct Drag {
    pub view: ViewId,
    pub anchor: usize,
}

/// A layout box being dragged: a window's or a column's.
#[derive(Clone, Copy, Debug, PartialEq, Eq, Structural)]
pub enum BoxTarget {
    Win(WindowId),
    Col(ColumnId),
}

/// What a sweep is for: running it, or looking it up.
#[derive(Clone, Copy, Debug, PartialEq, Eq, Structural)]
pub enum HlKind {
    Exec,
    Look,
}

/// A place in a terminal: the column, and the line of its history.
#[derive(Clone, Copy, Debug, PartialEq, Eq, Structural)]
pub struct Cell {
    pub col: usize,
    pub line: u64,
}

/// Text swept with B2 or B3.
#[derive(Clone, Copy, Debug, PartialEq, Eq, Structural)]
pub struct Swept {
    pub view: ViewId,
    pub lo: usize,
    pub hi: usize,
    pub kind: HlKind,
}

/// A selection in a terminal, from `from` up to `to`.
#[derive(Clone, Copy, Debug, PartialEq, Eq, Structural)]
pub struct TermSel {
    pub window: WindowId,
    pub from: Cell,
    pub to: Cell,
}

/// A B2 or B3 sweep in a terminal.
#[derive(Clone, Copy, Debug, PartialEq, Eq, Structural)]
pub struct TermSweep {
    pub window: WindowId,
    pub button: Button,
    pub from: Cell,
    pub to: Cell,
}

/// A layout box held: the box, the button, where it was pressed.
#[derive(Clone, Copy, Debug, PartialEq, Eq, Structural)]
pub struct BoxDrag {
    pub target: BoxTarget,
    pub button: Button,
    pub start: Pt,
}

/// A scrollbar button held, and the pointer's height.
#[derive(Clone, Copy, Debug, PartialEq, Eq, Structural)]
pub struct Scrolling {
    pub target: Target,
    pub button: Button,
    pub y: i64,
}

/// A button held in a terminal, with the cell of the grid it was pressed
/// on and that cell's place in the history.
#[derive(Clone, Copy, Debug, PartialEq, Eq)]
pub struct Held {
    pub window: WindowId,
    pub button: Button,
    pub cell: (usize, usize),
    pub at: Cell,
}

/// What the buttons hold.
#[derive(Clone, Copy, Debug, PartialEq, Eq)]
pub struct Mouse {
    pub b1: Option<Drag>,
    pub b2: Option<Drag>,
    pub b3: Option<Drag>,
    pub chorded: bool,
    /// B1 was pressed while B2 was down: the command gets an argument.
    pub chord_arg: bool,
    /// acme's `coldragwin`/`rowdragcol`.
    pub box_drag: Option<BoxDrag>,
    /// acme's `textscroll`.
    pub scrolling: Option<Scrolling>,
    /// acme's `framescroll`: B1 dragged past the top or bottom of the text.
    pub autoscroll: Option<(ViewId, i64)>,
    /// B1 held in a terminal: the selection follows the pointer.
    pub term_drag: Option<WindowId>,
    /// B3 went down with shift: the look runs backwards.
    pub b3_reverse: bool,
    /// B3 with command held: `Def` at the pointer (with shift, `Back`).
    pub b3_cmd: bool,
    /// B2 or B3 held in a terminal (acme's `textselect23`).
    pub term_sweep: Option<Held>,
    /// The button that the left one stands for while it is down.
    pub left_as: Option<Button>,
    pub mods: Modifiers,
}

/// What the window shows of the mouse, and what is open over the texts.
#[derive(Clone, Copy, Debug, PartialEq, Eq)]
pub struct Ui {
    pub finder: bool,
    pub selector: bool,
    /// The picker of a new window, which a click does not dismiss.
    pub chooser: bool,
    pub menu: bool,
    pub switcher: bool,
    /// There are pages, which may have the keyboard.
    pub pages: bool,
    /// Where a warp put the pointer, until the mouse really moves.
    pub pointer: Option<Pt>,
    pub last_mouse: Pt,
    pub mouse: Mouse,
    pub hl: Option<Swept>,
    pub term_sel: Option<TermSel>,
    pub term_hl: Option<TermSweep>,
}

/// A button pressed.
#[derive(Clone, Copy, Debug, PartialEq, Eq, Structural)]
pub struct Press {
    pub button: Button,
    pub at: Pt,
    pub clicks: usize,
    pub mods: Modifiers,
}

/// What there is where a button was pressed: what it landed on, the
/// column of that text's window, and the history line in the first row
/// of the terminal.
#[derive(Clone, Copy, Debug, PartialEq, Eq)]
pub struct Under {
    pub hit: Option<(Target, Region)>,
    pub home: Option<ColumnId>,
    pub top: u64,
}

/// What is to be done about it, in order.
#[derive(Clone, Copy, Debug, PartialEq, Eq)]
pub enum Act {
    /// The keyboard taken back from any page that had it.
    FocusUi,
    CloseFinder,
    CloseSelector,
    /// The tools menu popped up for a window.
    OpenMenu(WindowId),
    /// The tools menu's button came up.
    MenuUp,
    /// The menu follows the pointer.
    TrackMenu,
    CommitTag(WindowId),
    /// Typing starts afresh in a text.
    ForgetTyped(ViewId),
    ActiveColumn(Option<ColumnId>),
    Select(ViewId, usize, usize),
    /// The word, line or brackets that a double click at an offset takes.
    SelectWord(ViewId, usize),
    /// The bar that is held scrolls, now and while it is held.
    StartScrolling,
    /// The text scrolls while the pointer is outside it.
    StartAutoscroll,
    Cut(ViewId),
    Paste(ViewId),
    TermCopy(WindowId),
    TermPaste(WindowId),
    /// A window's box dragged with a button, from a point to a point.
    DragWindow(WindowId, u8, Pt, Pt),
    DragColumn(ColumnId, Pt, Pt),
    /// A terminal's text run or looked up: what was swept, when anything
    /// was, else what is at the cell.
    TermText(Held, Option<(Cell, Cell)>),
    /// The text of a view between two offsets run, with the last
    /// selection as its argument if so said.
    Execute(ExecCtx, ViewId, usize, usize, bool),
    /// `Back`, run from a text.
    Back(ExecCtx),
    Look(Lookup),
    /// The switcher's walk ends where it stands.
    SwitcherCommit,
    Redraw,
}

/// A look: the text between `lo` and `hi` of `view`, pressed at `at`;
/// `explicit` when it was swept or selected; backwards; and whether it is
/// `Def` that is asked.
#[derive(Clone, Copy, Debug, PartialEq, Eq, Structural)]
pub struct Lookup {
    pub ctx: ExecCtx,
    pub view: ViewId,
    pub at: usize,
    pub lo: usize,
    pub hi: usize,
    pub explicit: bool,
    pub reverse: bool,
    pub def: bool,
}

/// The plan9port mapping for laptops: option-click is B2, command-click
/// is B3, shift-click is B4.
pub open spec fn logical(button: Button, mods: Modifiers) -> Button {
    if button != Button::Left {
        button
    } else if mods.alt {
        Button::Middle
    } else if mods.platform {
        Button::Right
    } else if mods.shift {
        Button::Menu
    } else {
        Button::Left
    }
}

/// The button a press stands for.
pub fn logical_button(e: &Press) -> (b: Button)
    ensures
        b == logical(e.button, e.mods),
{
    if e.button != Button::Left {
        e.button
    } else if e.mods.alt {
        Button::Middle
    } else if e.mods.platform {
        Button::Right
    } else if e.mods.shift {
        Button::Menu
    } else {
        Button::Left
    }
}

/// Command held on B3 (a real one), or control on the click that stands
/// in for it, so that cmd-B3 can be typed on a laptop.
pub open spec fn commanded(e: Press) -> bool {
    e.mods.platform && (e.button == Button::Left ==> e.mods.control)
}

/// Whether a press of B3 asks for `Def`.
pub fn b3_cmd(e: &Press) -> (r: bool)
    ensures
        r == commanded(*e),
{
    if e.button == Button::Left {
        e.mods.platform && e.mods.control
    } else {
        e.mods.platform
    }
}

/// The window that a press is on.
pub open spec fn window_under(hit: Option<(Target, Region)>) -> Option<WindowId> {
    match hit {
        Some((Target::View(v), _)) => crate::ids::window_of(v),
        Some((Target::Term(w, _), _)) => Some(w),
        None => None,
    }
}

/// The layout box of a text, where it has one.
pub open spec fn box_of(v: ViewId) -> Option<BoxTarget> {
    match v {
        ViewId::Tag(w) => Some(BoxTarget::Win(w)),
        ViewId::ColTag(c) => Some(BoxTarget::Col(c)),
        _ => None,
    }
}

/// A state with an act to do.
pub open spec fn does(ui: Ui, a: Act) -> (Ui, Seq<Act>) {
    (ui, seq![a])
}

/// A scrollbar button goes down.
pub open spec fn scrolls(ui: Ui, target: Target, button: Button, y: int) -> (Ui, Seq<Act>) {
    (
        Ui { mouse: Mouse { scrolling: Some(Scrolling { target, button, y: y as i64 }), ..ui.mouse }, ..ui },
        seq![Act::StartScrolling],
    )
}

/// B1 goes down in a text.
pub open spec fn b1_down(ui: Ui, v: ViewId, region: Region, e: Press, home: Option<ColumnId>) -> (Ui, Seq<Act>) {
    match region {
        Region::Text(off) => (
            Ui { mouse: Mouse { b1: Some(Drag { view: v, anchor: off }), chorded: false, ..ui.mouse }, ..ui },
            seq![
                Act::ForgetTyped(v),
                Act::ActiveColumn(crate::ids::column_of(v, home)),
                if e.clicks >= 2 {
                    Act::SelectWord(v, off)
                } else {
                    Act::Select(v, off, off)
                },
            ],
        ),
        Region::Scrollbar => scrolls(ui, Target::View(v), Button::Left, e.at.y as int),
        _ => (ui, Seq::empty()),
    }
}

/// B2 or B3 goes down in a text with B1 up.
pub open spec fn b23_down(ui: Ui, v: ViewId, region: Region, e: Press, button: Button) -> (Ui, Seq<Act>) {
    match region {
        Region::Text(off) => {
            let d = Some(Drag { view: v, anchor: off });
            let m = if button == Button::Middle {
                Mouse { b2: d, ..ui.mouse }
            } else {
                Mouse { b3: d, b3_reverse: e.mods.shift, b3_cmd: commanded(e), ..ui.mouse }
            };
            (Ui { mouse: m, hl: None, ..ui }, Seq::empty())
        },
        Region::Scrollbar => scrolls(ui, Target::View(v), button, e.at.y as int),
        _ => (ui, Seq::empty()),
    }
}

/// A button goes down in a text.
pub open spec fn view_down(ui: Ui, v: ViewId, region: Region, e: Press, button: Button, home: Option<ColumnId>) -> (
    Ui,
    Seq<Act>,
) {
    match button {
        Button::Left => if ui.mouse.b2 is Some {
            // acme's textselect2: button 1 while 2 is down makes the last
            // selection the command's argument
            (Ui { mouse: Mouse { chord_arg: true, ..ui.mouse }, ..ui }, Seq::empty())
        } else {
            b1_down(ui, v, region, e, home)
        },
        Button::Menu => (ui, Seq::empty()),
        _ => match ui.mouse.b1 {
            // the chords: B2 cuts, B3 pastes, in the text B1 is held in
            Some(d) => (
                Ui { mouse: Mouse { chorded: true, ..ui.mouse }, ..ui },
                seq![
                    if button == Button::Middle {
                        Act::Cut(d.view)
                    } else {
                        Act::Paste(d.view)
                    },
                ],
            ),
            None => b23_down(ui, v, region, e, button),
        },
    }
}

/// A button goes down in a terminal.
pub open spec fn term_down(ui: Ui, w: WindowId, t: TermId, region: Region, e: Press, button: Button, under: Under) -> (
    Ui,
    Seq<Act>,
) {
    match region {
        Region::Term(c, r) => {
            let p = Cell { col: c, line: (under.top + r) as u64 };
            if button == Button::Left {
                (
                    Ui {
                        term_sel: Some(TermSel { window: w, from: p, to: p }),
                        mouse: Mouse { term_drag: Some(w), ..ui.mouse },
                        ..ui
                    },
                    seq![Act::ActiveColumn(under.home)],
                )
            } else if button == Button::Menu {
                (ui, Seq::empty())
            } else if ui.mouse.term_drag is Some {
                // B1+B2: copy (there is nothing to cut); B1+B3: paste
                (
                    Ui { mouse: Mouse { chorded: true, ..ui.mouse }, ..ui },
                    seq![
                        if button == Button::Middle {
                            Act::TermCopy(w)
                        } else {
                            Act::TermPaste(w)
                        },
                    ],
                )
            } else {
                (
                    Ui {
                        term_hl: Some(TermSweep { window: w, button, from: p, to: p }),
                        mouse: Mouse {
                            term_sweep: Some(Held { window: w, button, cell: (c, r), at: p }),
                            ..ui.mouse
                        },
                        ..ui
                    },
                    Seq::empty(),
                )
            }
        },
        Region::TermScrollbar => if button == Button::Left || button == Button::Right {
            scrolls(ui, Target::Term(w, t), button, e.at.y as int)
        } else {
            (ui, Seq::empty())
        },
        _ => (ui, Seq::empty()),
    }
}

/// A button goes down on something.
#[verifier::opaque]
pub open spec fn target_down(ui: Ui, target: Target, region: Region, e: Press, button: Button, under: Under) -> (
    Ui,
    Seq<Act>,
) {
    let boxed = match target {
        Target::View(v) => if region == Region::LayoutBox && ui.mouse.b1 is None {
            box_of(v)
        } else {
            None
        },
        _ => None,
    };
    match boxed {
        // acme's coldragwin/rowdragcol wait for the release
        Some(b) => (
            Ui { mouse: Mouse { box_drag: Some(BoxDrag { target: b, button, start: e.at }), ..ui.mouse }, ..ui },
            Seq::empty(),
        ),
        None => match target {
            Target::View(v) => view_down(ui, v, region, e, button, under.home),
            Target::Term(w, t) => term_down(ui, w, t, region, e, button, under),
        },
    }
}

/// The button that a press leaves recorded for the left one.
pub open spec fn left_as(ui: Ui, e: Press) -> Option<Button> {
    if e.button == Button::Left {
        Some(logical(e.button, e.mods))
    } else {
        ui.mouse.left_as
    }
}

/// What the fourth button does: the menu, on a window.
pub open spec fn menu_pressed(hit: Option<(Target, Region)>) -> Seq<Act> {
    match window_under(hit) {
        Some(w) => seq![Act::OpenMenu(w), Act::Redraw],
        None => seq![Act::Redraw],
    }
}

/// A click in a tag commits the name typed there.
pub open spec fn committed(target: Target) -> Seq<Act> {
    match target {
        Target::View(ViewId::Tag(w)) => seq![Act::CommitTag(w)],
        _ => Seq::empty(),
    }
}

/// The state once a press of one of the three is noted.
pub open spec fn noted(ui: Ui, e: Press) -> Ui {
    Ui {
        pointer: None,
        last_mouse: e.at,
        mouse: Mouse { left_as: left_as(ui, e), mods: e.mods, ..ui.mouse },
        ..ui
    }
}

/// What a press does once nothing is open over the texts.
pub open spec fn pressed(ui: Ui, e: Press, under: Under) -> (Ui, Seq<Act>) {
    let button = logical(e.button, e.mods);
    if button == Button::Menu {
        (Ui { mouse: Mouse { left_as: left_as(ui, e), ..ui.mouse }, ..ui }, menu_pressed(under.hit))
    } else {
        match under.hit {
            None => (noted(ui, e), Seq::empty()),
            Some((target, region)) => {
                let (u, acts) = target_down(noted(ui, e), target, region, e, button, under);
                (u, committed(target) + acts + seq![Act::Redraw])
            },
        }
    }
}

/// What a press does.
pub open spec fn down(ui: Ui, e: Press, under: Under) -> (Ui, Seq<Act>) {
    let (u, acts) = if ui.finder {
        // a click anywhere else dismisses it
        does(ui, Act::CloseFinder)
    } else if ui.selector {
        // a new window's picker stays until escape or a choice
        if ui.chooser {
            (ui, Seq::empty())
        } else {
            does(ui, Act::CloseSelector)
        }
    } else if ui.menu {
        // held open by its button; nothing else until it closes
        (ui, Seq::empty())
    } else {
        pressed(ui, e, under)
    };
    (
        u,
        if ui.pages {
            seq![Act::FocusUi] + acts
        } else {
            acts
        },
    )
}

impl Mouse {
    /// No button held.
    pub fn new() -> (m: Mouse)
        ensures
            m == (Mouse {
                b1: None,
                b2: None,
                b3: None,
                chorded: false,
                chord_arg: false,
                box_drag: None,
                scrolling: None,
                autoscroll: None,
                term_drag: None,
                b3_reverse: false,
                b3_cmd: false,
                term_sweep: None,
                left_as: None,
                mods: m.mods,
            }),
            m.mods == (Modifiers { shift: false, alt: false, platform: false, control: false, function: false }),
    {
        Mouse {
            b1: None,
            b2: None,
            b3: None,
            chorded: false,
            chord_arg: false,
            box_drag: None,
            scrolling: None,
            autoscroll: None,
            term_drag: None,
            b3_reverse: false,
            b3_cmd: false,
            term_sweep: None,
            left_as: None,
            mods: Modifiers::none(),
        }
    }
}

impl Ui {
    /// A window as it opens: nothing is held, and nothing is open over the
    /// texts.
    pub fn new() -> (u: Ui)
        ensures
            !u.finder && !u.selector && !u.chooser && !u.menu && !u.switcher && !u.pages,
            u.pointer is None && u.hl is None && u.term_sel is None && u.term_hl is None,
            u.last_mouse == (Pt { x: 0, y: 0 }),
            u.mouse.b1 is None && u.mouse.b2 is None && u.mouse.b3 is None,
            !u.mouse.chorded && !u.mouse.chord_arg && !u.mouse.b3_reverse && !u.mouse.b3_cmd,
            u.mouse.box_drag is None && u.mouse.scrolling is None && u.mouse.autoscroll is None,
            u.mouse.term_drag is None && u.mouse.term_sweep is None && u.mouse.left_as is None,
            !u.mouse.mods.shift && !u.mouse.mods.alt && !u.mouse.mods.platform && !u.mouse.mods.control && !u.mouse.mods.function,
    {
        Ui {
            finder: false,
            selector: false,
            chooser: false,
            menu: false,
            switcher: false,
            pages: false,
            pointer: None,
            last_mouse: Pt { x: 0, y: 0 },
            mouse: Mouse::new(),
            hl: None,
            term_sel: None,
            term_hl: None,
        }
    }
}

impl Ui {
    fn start_scrolling(&mut self, target: Target, button: Button, y: i64, acts: &mut Vec<Act>)
        ensures
            *final(self) == scrolls(*old(self), target, button, y as int).0,
            final(acts)@ == old(acts)@ + scrolls(*old(self), target, button, y as int).1,
    {
        self.mouse.scrolling = Some(Scrolling { target, button, y });
        acts.push(Act::StartScrolling);
    }

    fn b1_down(&mut self, v: ViewId, region: Region, e: &Press, home: Option<ColumnId>, acts: &mut Vec<Act>)
        ensures
            *final(self) == b1_down(*old(self), v, region, *e, home).0,
            final(acts)@ == old(acts)@ + b1_down(*old(self), v, region, *e, home).1,
    {
        match region {
            Region::Text(off) => {
                acts.push(Act::ForgetTyped(v));
                acts.push(Act::ActiveColumn(v.column_of_view(home)));
                acts.push(
                    if e.clicks >= 2 {
                        Act::SelectWord(v, off)
                    } else {
                        Act::Select(v, off, off)
                    },
                );
                self.mouse.b1 = Some(Drag { view: v, anchor: off });
                self.mouse.chorded = false;
                proof {
                    assert(acts@ =~= old(acts)@ + b1_down(*old(self), v, region, *e, home).1);
                }
            },
            Region::Scrollbar => self.start_scrolling(Target::View(v), Button::Left, e.at.y, acts),
            _ => {
                proof {
                    assert(acts@ =~= old(acts)@ + Seq::<Act>::empty());
                }
            },
        }
    }

    fn b23_down(&mut self, v: ViewId, region: Region, e: &Press, button: Button, acts: &mut Vec<Act>)
        ensures
            *final(self) == b23_down(*old(self), v, region, *e, button).0,
            final(acts)@ == old(acts)@ + b23_down(*old(self), v, region, *e, button).1,
    {
        match region {
            Region::Text(off) => {
                if button == Button::Middle {
                    self.mouse.b2 = Some(Drag { view: v, anchor: off });
                } else {
                    self.mouse.b3 = Some(Drag { view: v, anchor: off });
                    self.mouse.b3_reverse = e.mods.shift;
                    self.mouse.b3_cmd = b3_cmd(e);
                }
                self.hl = None;
                proof {
                    assert(acts@ =~= old(acts)@ + Seq::<Act>::empty());
                }
            },
            Region::Scrollbar => self.start_scrolling(Target::View(v), button, e.at.y, acts),
            _ => {
                proof {
                    assert(acts@ =~= old(acts)@ + Seq::<Act>::empty());
                }
            },
        }
    }

    fn view_down(
        &mut self,
        v: ViewId,
        region: Region,
        e: &Press,
        button: Button,
        home: Option<ColumnId>,
        acts: &mut Vec<Act>,
    )
        ensures
            *final(self) == view_down(*old(self), v, region, *e, button, home).0,
            final(acts)@ == old(acts)@ + view_down(*old(self), v, region, *e, button, home).1,
    {
        proof {
            assert(acts@ =~= old(acts)@ + Seq::<Act>::empty());
        }
        match button {
            Button::Left => if self.mouse.b2.is_some() {
                self.mouse.chord_arg = true;
            } else {
                self.b1_down(v, region, e, home, acts);
            },
            Button::Menu => {},
            _ => match self.mouse.b1 {
                Some(d) => {
                    self.mouse.chorded = true;
                    acts.push(
                        if button == Button::Middle {
                            Act::Cut(d.view)
                        } else {
                            Act::Paste(d.view)
                        },
                    );
                },
                None => self.b23_down(v, region, e, button, acts),
            },
        }
    }

    fn term_down(
        &mut self,
        w: WindowId,
        t: TermId,
        region: Region,
        e: &Press,
        button: Button,
        under: &Under,
        acts: &mut Vec<Act>,
    )
        requires
            region matches Region::Term(_, r) ==> under.top + r <= u64::MAX,
        ensures
            *final(self) == term_down(*old(self), w, t, region, *e, button, *under).0,
            final(acts)@ == old(acts)@ + term_down(*old(self), w, t, region, *e, button, *under).1,
    {
        match region {
            Region::Term(c, r) => {
                let p = Cell { col: c, line: under.top + r as u64 };
                match button {
                    Button::Left => {
                        self.term_sel = Some(TermSel { window: w, from: p, to: p });
                        self.mouse.term_drag = Some(w);
                        acts.push(Act::ActiveColumn(under.home));
                    },
                    Button::Menu => {},
                    _ => if self.mouse.term_drag.is_some() {
                        self.mouse.chorded = true;
                        if button == Button::Middle {
                            acts.push(Act::TermCopy(w));
                        } else {
                            acts.push(Act::TermPaste(w));
                        }
                    } else {
                        self.mouse.term_sweep = Some(Held { window: w, button, cell: (c, r), at: p });
                        self.term_hl = Some(TermSweep { window: w, button, from: p, to: p });
                    },
                }
            },
            Region::TermScrollbar => if button == Button::Left || button == Button::Right {
                self.start_scrolling(Target::Term(w, t), button, e.at.y, acts);
            },
            _ => {},
        }
        proof {
            assert(acts@ =~= old(acts)@ + term_down(*old(self), w, t, region, *e, button, *under).1);
        }
    }

    fn target_down(&mut self, target: Target, region: Region, e: &Press, button: Button, under: &Under, acts: &mut Vec<Act>)
        requires
            region matches Region::Term(_, r) ==> under.top + r <= u64::MAX,
        ensures
            *final(self) == target_down(*old(self), target, region, *e, button, *under).0,
            final(acts)@ == old(acts)@ + target_down(*old(self), target, region, *e, button, *under).1,
    {
        proof {
            reveal(target_down);
        }
        match target {
            Target::View(v) => {
                if region == Region::LayoutBox && self.mouse.b1.is_none() {
                    let held = match v {
                        ViewId::Tag(w) => Some(BoxTarget::Win(w)),
                        ViewId::ColTag(c) => Some(BoxTarget::Col(c)),
                        _ => None,
                    };
                    if let Some(b) = held {
                        self.mouse.box_drag = Some(BoxDrag { target: b, button, start: e.at });
                        proof {
                            assert(acts@ =~= old(acts)@ + Seq::<Act>::empty());
                        }
                        return;
                    }
                }
                self.view_down(v, region, e, button, under.home, acts);
            },
            Target::Term(w, t) => self.term_down(w, t, region, e, button, under, acts),
        }
    }

    fn note_press(&mut self, e: &Press, button: Button)
        requires
            button == logical(e.button, e.mods),
        ensures
            *final(self) == noted(*old(self), *e),
    {
        if e.button == Button::Left {
            self.mouse.left_as = Some(button);
        }
        self.pointer = None;
        self.last_mouse = e.at;
        self.mouse.mods = e.mods;
    }

    fn menu_press(&mut self, e: &Press, under: &Under, acts: &mut Vec<Act>)
        requires
            logical(e.button, e.mods) == Button::Menu,
        ensures
            *final(self) == (Ui { mouse: Mouse { left_as: left_as(*old(self), *e), ..old(self).mouse }, ..*old(self) }),
            final(acts)@ == old(acts)@ + menu_pressed(under.hit),
    {
        if e.button == Button::Left {
            self.mouse.left_as = Some(Button::Menu);
        }
        let at = match under.hit {
            Some((Target::View(v), _)) => v.window(),
            Some((Target::Term(w, _), _)) => Some(w),
            None => None,
        };
        if let Some(w) = at {
            acts.push(Act::OpenMenu(w));
        }
        acts.push(Act::Redraw);
        proof {
            assert(acts@ =~= old(acts)@ + menu_pressed(under.hit));
        }
    }

    fn press(&mut self, e: &Press, under: &Under, acts: &mut Vec<Act>)
        requires
            under.hit matches Some((_, Region::Term(_, r))) ==> under.top + r <= u64::MAX,
        ensures
            *final(self) == pressed(*old(self), *e, *under).0,
            final(acts)@ == old(acts)@ + pressed(*old(self), *e, *under).1,
    {
        let button = logical_button(e);
        if button == Button::Menu {
            self.menu_press(e, under, acts);
            return;
        }
        self.note_press(e, button);
        let ghost u = *self;
        match under.hit {
            None => {
                proof {
                    assert(acts@ =~= old(acts)@ + Seq::<Act>::empty());
                }
            },
            Some((target, region)) => {
                if let Target::View(ViewId::Tag(w)) = target {
                    acts.push(Act::CommitTag(w));
                }
                let ghost mid = acts@;
                proof {
                    assert(mid =~= old(acts)@ + committed(target));
                }
                self.target_down(target, region, e, button, under, acts);
                acts.push(Act::Redraw);
                proof {
                    let rest = target_down(u, target, region, *e, button, *under).1;
                    assert(acts@ =~= old(acts)@ + (committed(target) + rest + seq![Act::Redraw]));
                }
            },
        }
    }

    /// A button pressed: what it leaves held, and what to do.
    pub fn mouse_down(&mut self, e: &Press, under: &Under) -> (acts: Vec<Act>)
        requires
            under.hit matches Some((_, Region::Term(_, r))) ==> under.top + r <= u64::MAX,
        ensures
            (*final(self), acts@) == down(*old(self), *e, *under),
    {
        let mut acts: Vec<Act> = Vec::new();
        if self.pages {
            acts.push(Act::FocusUi);
        }
        if self.finder {
            acts.push(Act::CloseFinder);
        } else if self.selector {
            if !self.chooser {
                acts.push(Act::CloseSelector);
            }
        } else if !self.menu {
            self.press(e, under, &mut acts);
        }
        proof {
            assert(acts@ =~= down(*old(self), *e, *under).1);
        }
        acts
    }
}

/// Nothing is open over the texts.
pub open spec fn clear(ui: Ui) -> bool {
    !ui.finder && !ui.selector && !ui.menu
}

/// The keyboard taken back from the pages, where there are any, and then
/// these acts.
pub open spec fn led_by_focus(ui: Ui, acts: Seq<Act>) -> Seq<Act> {
    if ui.pages {
        seq![Act::FocusUi] + acts
    } else {
        acts
    }
}

/// The left button stands for the second with option, else for the third
/// with command, else for the fourth with shift, else for itself; the
/// others are what they are whatever is held.
pub proof fn law_modifiers_stand_for_buttons(e: Press)
    ensures
        e.button == Button::Left ==> {
            &&& logical(e.button, e.mods) == Button::Middle <==> e.mods.alt
            &&& logical(e.button, e.mods) == Button::Right <==> !e.mods.alt && e.mods.platform
            &&& logical(e.button, e.mods) == Button::Menu <==> !e.mods.alt && !e.mods.platform && e.mods.shift
            &&& logical(e.button, e.mods) == Button::Left <==> !e.mods.alt && !e.mods.platform && !e.mods.shift
        },
        e.button != Button::Left ==> logical(e.button, e.mods) == e.button,
        e.button == Button::Right ==> (commanded(e) <==> e.mods.platform),
        e.button == Button::Left ==> (commanded(e) <==> e.mods.platform && e.mods.control),
{
}

/// What is open over the texts has the press: the finder closes, the picker
/// closes unless it is a new window's, and the menu keeps everything else
/// away.  Nothing is held, and nothing else changes.
pub proof fn law_what_is_open_has_the_press(ui: Ui, e: Press, under: Under)
    requires
        !clear(ui),
    ensures
        down(ui, e, under).0 == ui,
        ui.finder ==> down(ui, e, under).1 == led_by_focus(ui, seq![Act::CloseFinder]),
        !ui.finder && ui.selector && !ui.chooser ==> down(ui, e, under).1 == led_by_focus(ui, seq![Act::CloseSelector]),
        !ui.finder && ui.selector && ui.chooser ==> down(ui, e, under).1 == led_by_focus(ui, Seq::empty()),
        !ui.finder && !ui.selector ==> down(ui, e, under).1 == led_by_focus(ui, Seq::empty()),
{
}

/// With nothing open, a press of one of the three buttons is noted, whatever
/// it lands on: a warp's place is forgotten, and the pointer's place, the
/// modifiers and what the left button stands for are kept.  What is open,
/// and the chooser, the switcher and the pages, are as they were.
pub proof fn law_a_press_is_noted(ui: Ui, e: Press, under: Under)
    requires
        clear(ui),
        logical(e.button, e.mods) != Button::Menu,
    ensures
        ({
            let u = down(ui, e, under).0;
            &&& u.pointer is None && u.last_mouse == e.at && u.mouse.mods == e.mods
            &&& e.button == Button::Left ==> u.mouse.left_as == Some(logical(e.button, e.mods))
            &&& e.button != Button::Left ==> u.mouse.left_as == ui.mouse.left_as
            &&& clear(u) && u.chooser == ui.chooser && u.switcher == ui.switcher && u.pages == ui.pages
            &&& u.mouse.autoscroll == ui.mouse.autoscroll
        }),
        under.hit is None ==> down(ui, e, under).1 == led_by_focus(ui, Seq::empty()),
        under.hit is None ==> down(ui, e, under).0 == (Ui {
            pointer: None,
            last_mouse: e.at,
            mouse: down(ui, e, under).0.mouse,
            ..ui
        }),
        under.hit is Some ==> down(ui, e, under).1.len() > 0 && down(ui, e, under).1.last() == Act::Redraw,
{
    reveal(target_down);
}

/// The fourth button, or a click with shift, opens the tools menu of the
/// window that it is on, and holds nothing.
pub proof fn law_the_fourth_button_opens_the_menu(ui: Ui, e: Press, under: Under)
    requires
        clear(ui),
        logical(e.button, e.mods) == Button::Menu,
    ensures
        ({
            let (u, acts) = down(ui, e, under);
            let own = match under.hit {
                Some((Target::View(ViewId::Tag(w)), _)) => Some(w),
                Some((Target::View(ViewId::Body(w)), _)) => Some(w),
                Some((Target::Term(w, _), _)) => Some(w),
                _ => None,
            };
            &&& own matches Some(w) ==> acts == led_by_focus(ui, seq![Act::OpenMenu(w), Act::Redraw])
            &&& own is None ==> acts == led_by_focus(ui, seq![Act::Redraw])
            &&& u == (Ui { mouse: Mouse { left_as: u.mouse.left_as, ..ui.mouse }, ..ui })
            &&& u.mouse.left_as == if e.button == Button::Left { Some(Button::Menu) } else { ui.mouse.left_as }
        }),
{
}

/// The first button in a text, the second not held: a sweep begins at the
/// offset pressed, with nothing chorded yet; typing starts afresh there,
/// the text's column is the active one, and the offset is selected, or the
/// word there at a second click.  In a window's tag, what is typed there is
/// taken for its name first.
pub proof fn law_b1_begins_a_selection(ui: Ui, e: Press, under: Under, v: ViewId, off: usize)
    requires
        clear(ui),
        logical(e.button, e.mods) == Button::Left,
        under.hit == Some((Target::View(v), Region::Text(off))),
        ui.mouse.b2 is None,
    ensures
        ({
            let (u, acts) = down(ui, e, under);
            let column = match v {
                ViewId::Top => None,
                ViewId::ColTag(c) => Some(c),
                _ => under.home,
            };
            let begun = seq![
                Act::ForgetTyped(v),
                Act::ActiveColumn(column),
                if e.clicks >= 2 { Act::SelectWord(v, off) } else { Act::Select(v, off, off) },
                Act::Redraw,
            ];
            &&& u.mouse.b1 == Some(Drag { view: v, anchor: off })
            &&& !u.mouse.chorded
            &&& v matches ViewId::Tag(w) ==> acts == led_by_focus(ui, seq![Act::CommitTag(w)] + begun)
            &&& !(v is Tag) ==> acts == led_by_focus(ui, begun)
            &&& only_mouse(ui, u)
            &&& u.mouse == (Mouse {
                b1: u.mouse.b1,
                chorded: false,
                left_as: u.mouse.left_as,
                mods: e.mods,
                ..ui.mouse
            })
        }),
{
    reveal(target_down);
    assert(down(ui, e, under).1 =~= led_by_focus(
        ui,
        (if v is Tag { seq![Act::CommitTag(v->Tag_0)] } else { Seq::<Act>::empty() }) + b1_down(
            noted(ui, e),
            v,
            Region::Text(off),
            e,
            under.home,
        ).1 + seq![Act::Redraw],
    ));
    let begun = b1_down(noted(ui, e), v, Region::Text(off), e, under.home).1 + seq![Act::Redraw];
    if v is Tag {
        assert(down(ui, e, under).1 =~= led_by_focus(ui, seq![Act::CommitTag(v->Tag_0)] + begun));
    } else {
        assert(down(ui, e, under).1 =~= led_by_focus(ui, begun));
    }
}

/// Nothing is changed but what the buttons hold, and where the pointer is.
pub open spec fn only_mouse(before: Ui, after: Ui) -> bool {
    after == (Ui { pointer: after.pointer, last_mouse: after.last_mouse, mouse: after.mouse, ..before })
}

/// The chords in a text: while the first button is held, the second cuts and
/// the third pastes, in the text that the first is held in, wherever in the
/// texts the press is; what the first holds is held still, and the chord is
/// remembered.
pub proof fn law_b1_with_b2_cuts_and_with_b3_pastes(ui: Ui, e: Press, under: Under, v: ViewId, r: Region, d: Drag)
    requires
        clear(ui),
        under.hit == Some((Target::View(v), r)),
        ui.mouse.b1 == Some(d),
    ensures
        ({
            let (u, acts) = down(ui, e, under);
            let b = logical(e.button, e.mods);
            b == Button::Middle || b == Button::Right ==> {
                &&& u.mouse == (Mouse { chorded: true, left_as: u.mouse.left_as, mods: e.mods, ..ui.mouse })
                &&& only_mouse(ui, u)
                &&& b == Button::Middle ==> acts.contains(Act::Cut(d.view))
                &&& b == Button::Right ==> acts.contains(Act::Paste(d.view))
                &&& forall|i: int|
                    0 <= i < acts.len() ==> match #[trigger] acts[i] {
                        Act::Cut(x) => b == Button::Middle && x == d.view,
                        Act::Paste(x) => b == Button::Right && x == d.view,
                        Act::FocusUi => ui.pages,
                        Act::CommitTag(w) => v == ViewId::Tag(w),
                        Act::Redraw => true,
                        _ => false,
                    }
            }
        }),
{
    reveal(target_down);
    let (u, acts) = down(ui, e, under);
    let b = logical(e.button, e.mods);
    if b == Button::Middle || b == Button::Right {
        let a = if b == Button::Middle { Act::Cut(d.view) } else { Act::Paste(d.view) };
        let k: int = (if ui.pages { 1int } else { 0int }) + (if v is Tag { 1int } else { 0int });
        assert(acts.len() == k + 2);
        assert(acts[k] == a);
    }
}

/// The first button while the second is held in a text makes the last
/// selection the command's argument, and does nothing else.
pub proof fn law_b2_with_b1_takes_an_argument(ui: Ui, e: Press, under: Under, v: ViewId, off: usize)
    requires
        clear(ui),
        logical(e.button, e.mods) == Button::Left,
        under.hit == Some((Target::View(v), Region::Text(off))),
        ui.mouse.b2 is Some,
    ensures
        ({
            let (u, acts) = down(ui, e, under);
            &&& u.mouse == (Mouse { chord_arg: true, left_as: u.mouse.left_as, mods: e.mods, ..ui.mouse })
            &&& only_mouse(ui, u)
            &&& forall|i: int|
                0 <= i < acts.len() ==> match #[trigger] acts[i] {
                    Act::FocusUi => ui.pages,
                    Act::CommitTag(w) => v == ViewId::Tag(w),
                    Act::Redraw => true,
                    _ => false,
                }
        }),
{
    reveal(target_down);
}

/// The second or third button in a text, the first not held, begins its own
/// sweep at the offset pressed, and selects nothing; the third notes that
/// shift turns it round, and that command asks for a definition.
pub proof fn law_b2_and_b3_begin_their_sweeps(ui: Ui, e: Press, under: Under, v: ViewId, off: usize)
    requires
        clear(ui),
        under.hit == Some((Target::View(v), Region::Text(off))),
        ui.mouse.b1 is None,
    ensures
        ({
            let (u, acts) = down(ui, e, under);
            let b = logical(e.button, e.mods);
            let d = Some(Drag { view: v, anchor: off });
            &&& b == Button::Middle ==> u.mouse == (Mouse {
                b2: d,
                left_as: u.mouse.left_as,
                mods: e.mods,
                ..ui.mouse
            })
            &&& b == Button::Right ==> u.mouse == (Mouse {
                b3: d,
                b3_reverse: e.mods.shift,
                b3_cmd: e.mods.platform && (e.button == Button::Left ==> e.mods.control),
                left_as: u.mouse.left_as,
                mods: e.mods,
                ..ui.mouse
            })
            &&& b == Button::Middle || b == Button::Right ==> u.hl is None && only_mouse(Ui { hl: None, ..ui }, u)
                && forall|i: int|
                0 <= i < acts.len() ==> match #[trigger] acts[i] {
                    Act::FocusUi => ui.pages,
                    Act::CommitTag(w) => v == ViewId::Tag(w),
                    Act::Redraw => true,
                    _ => false,
                }
        }),
{
    reveal(target_down);
}

/// A button on a text's scrollbar scrolls it from the height pressed, for as
/// long as that button is held; with no other button in the texts held.
pub proof fn law_a_scrollbar_is_held(ui: Ui, e: Press, under: Under, v: ViewId)
    requires
        clear(ui),
        logical(e.button, e.mods) != Button::Menu,
        under.hit == Some((Target::View(v), Region::Scrollbar)),
        ui.mouse.b1 is None && ui.mouse.b2 is None,
    ensures
        ({
            let (u, acts) = down(ui, e, under);
            &&& u.mouse == (Mouse {
                scrolling: Some(
                    Scrolling { target: Target::View(v), button: logical(e.button, e.mods), y: e.at.y },
                ),
                left_as: u.mouse.left_as,
                mods: e.mods,
                ..ui.mouse
            })
            &&& only_mouse(ui, u)
            &&& acts.contains(Act::StartScrolling)
        }),
{
    reveal(target_down);
    let acts = down(ui, e, under).1;
    let k: int = (if ui.pages { 1int } else { 0int }) + (if v is Tag { 1int } else { 0int });
    assert(acts[k] == Act::StartScrolling);
}

/// A layout box pressed is dragged: a window's from its tag, a column's from
/// its own, with the button and from the point pressed; nothing moves yet.
pub proof fn law_a_layout_box_is_dragged(ui: Ui, e: Press, under: Under, v: ViewId)
    requires
        clear(ui),
        logical(e.button, e.mods) != Button::Menu,
        under.hit == Some((Target::View(v), Region::LayoutBox)),
        ui.mouse.b1 is None,
        v is Tag || v is ColTag,
    ensures
        ({
            let (u, acts) = down(ui, e, under);
            &&& u.mouse.box_drag is Some
            &&& u.mouse.box_drag->0.button == logical(e.button, e.mods) && u.mouse.box_drag->0.start == e.at
            &&& v matches ViewId::Tag(w) ==> u.mouse.box_drag->0.target == BoxTarget::Win(w)
            &&& v matches ViewId::ColTag(c) ==> u.mouse.box_drag->0.target == BoxTarget::Col(c)
            &&& u.mouse == (Mouse { box_drag: u.mouse.box_drag, left_as: u.mouse.left_as, mods: e.mods, ..ui.mouse })
            &&& only_mouse(ui, u)
            &&& forall|i: int|
                0 <= i < acts.len() ==> match #[trigger] acts[i] {
                    Act::FocusUi => ui.pages,
                    Act::CommitTag(w) => v == ViewId::Tag(w),
                    Act::Redraw => true,
                    _ => false,
                }
        }),
{
    reveal(target_down);
}

/// The first button on a cell of a terminal begins a selection there, at the
/// cell's own line of the history, and makes its window's column active.
pub proof fn law_b1_selects_in_a_terminal(ui: Ui, e: Press, under: Under, w: WindowId, t: TermId, c: usize, r: usize)
    requires
        clear(ui),
        logical(e.button, e.mods) == Button::Left,
        under.hit == Some((Target::Term(w, t), Region::Term(c, r))),
        under.top + r <= u64::MAX,
    ensures
        ({
            let (u, acts) = down(ui, e, under);
            &&& u.term_sel is Some && u.term_sel->0.window == w && u.term_sel->0.from == u.term_sel->0.to
            &&& u.term_sel->0.from.col == c && u.term_sel->0.from.line == under.top + r
            &&& u.mouse == (Mouse { term_drag: Some(w), left_as: u.mouse.left_as, mods: e.mods, ..ui.mouse })
            &&& only_mouse(Ui { term_sel: u.term_sel, ..ui }, u)
            &&& acts == led_by_focus(ui, seq![Act::ActiveColumn(under.home), Act::Redraw])
        }),
{
    reveal(target_down);
    assert(down(ui, e, under).1 =~= led_by_focus(ui, seq![Act::ActiveColumn(under.home), Act::Redraw]));
}

/// The chords in a terminal: while the first button is held there, the
/// second copies and pastes nothing, the third pastes and copies nothing, in
/// the terminal that is pressed.
pub proof fn law_b1_with_b2_copies_and_with_b3_pastes_in_a_terminal(
    ui: Ui,
    e: Press,
    under: Under,
    w: WindowId,
    t: TermId,
    c: usize,
    r: usize,
)
    requires
        clear(ui),
        ui.mouse.term_drag is Some,
        under.hit == Some((Target::Term(w, t), Region::Term(c, r))),
        under.top + r <= u64::MAX,
    ensures
        ({
            let (u, acts) = down(ui, e, under);
            let b = logical(e.button, e.mods);
            &&& b == Button::Middle ==> acts == led_by_focus(ui, seq![Act::TermCopy(w), Act::Redraw])
            &&& b == Button::Right ==> acts == led_by_focus(ui, seq![Act::TermPaste(w), Act::Redraw])
            &&& b == Button::Middle || b == Button::Right ==> u.mouse == (Mouse {
                chorded: true,
                left_as: u.mouse.left_as,
                mods: e.mods,
                ..ui.mouse
            }) && only_mouse(ui, u)
        }),
{
    reveal(target_down);
    let a = if logical(e.button, e.mods) == Button::Middle { Act::TermCopy(w) } else { Act::TermPaste(w) };
    if logical(e.button, e.mods) == Button::Middle || logical(e.button, e.mods) == Button::Right {
        assert(down(ui, e, under).1 =~= led_by_focus(ui, seq![a, Act::Redraw]));
    }
}

/// The second or third button on a cell of a terminal, the first not held
/// there, begins a sweep at the cell, with that button.
pub proof fn law_b2_and_b3_sweep_in_a_terminal(
    ui: Ui,
    e: Press,
    under: Under,
    w: WindowId,
    t: TermId,
    c: usize,
    r: usize,
)
    requires
        clear(ui),
        ui.mouse.term_drag is None,
        logical(e.button, e.mods) == Button::Middle || logical(e.button, e.mods) == Button::Right,
        under.hit == Some((Target::Term(w, t), Region::Term(c, r))),
        under.top + r <= u64::MAX,
    ensures
        ({
            let (u, acts) = down(ui, e, under);
            let h = u.mouse.term_sweep->0;
            let s = u.term_hl->0;
            &&& u.mouse.term_sweep is Some && u.term_hl is Some
            &&& h.window == w && h.button == logical(e.button, e.mods) && h.cell == (c, r)
            &&& h.at.col == c && h.at.line == under.top + r
            &&& s.window == w && s.button == h.button && s.from == h.at && s.to == h.at
            &&& u.mouse == (Mouse { term_sweep: u.mouse.term_sweep, left_as: u.mouse.left_as, mods: e.mods, ..ui.mouse })
            &&& only_mouse(Ui { term_hl: u.term_hl, ..ui }, u)
            &&& acts == led_by_focus(ui, seq![Act::Redraw])
        }),
{
    reveal(target_down);
    assert(down(ui, e, under).1 =~= led_by_focus(ui, seq![Act::Redraw]));
}

/// A terminal's scrollbar is scrolled with the first and the third button
/// and not with the second.
pub proof fn law_a_terminals_scrollbar_is_held(ui: Ui, e: Press, under: Under, w: WindowId, t: TermId)
    requires
        clear(ui),
        logical(e.button, e.mods) != Button::Menu,
        under.hit == Some((Target::Term(w, t), Region::TermScrollbar)),
    ensures
        ({
            let (u, acts) = down(ui, e, under);
            let b = logical(e.button, e.mods);
            &&& b == Button::Left || b == Button::Right ==> u.mouse.scrolling == Some(
                Scrolling { target: Target::Term(w, t), button: b, y: e.at.y },
            ) && acts == led_by_focus(ui, seq![Act::StartScrolling, Act::Redraw])
            &&& b == Button::Middle ==> u.mouse.scrolling == ui.mouse.scrolling && acts == led_by_focus(
                ui,
                seq![Act::Redraw],
            )
            &&& u.mouse == (Mouse {
                scrolling: u.mouse.scrolling,
                left_as: u.mouse.left_as,
                mods: e.mods,
                ..ui.mouse
            })
            &&& only_mouse(ui, u)
        }),
{
    reveal(target_down);
    let b = logical(e.button, e.mods);
    if b == Button::Middle {
        assert(down(ui, e, under).1 =~= led_by_focus(ui, seq![Act::Redraw]));
    } else {
        assert(down(ui, e, under).1 =~= led_by_focus(ui, seq![Act::StartScrolling, Act::Redraw]));
    }
}

} // verus!
