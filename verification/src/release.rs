//! A button let go: what was swept is run or looked up, what was dragged
//! is dropped.  And the chords made with modifier keys.

use vstd::prelude::*;

use crate::keys::Modifiers;
use crate::mouse::{Act, BoxDrag, BoxTarget, Button, Cell, Drag, HlKind, Lookup, Mouse, Pt, Ui};
use crate::words::{explicit, explicit_range_at, range_taken, take_range_at};

verus! {

/// The text a button was held in, and its selection; none where there is
/// none to read.
#[derive(Clone, Copy)]
pub struct HeldText<'a> {
    pub text: Option<&'a [char]>,
    pub sel: Option<(usize, usize)>,
}

/// The button that comes up.
pub open spec fn released(ui: Ui, button: Button) -> Button {
    if button == Button::Left && ui.mouse.left_as is Some {
        ui.mouse.left_as->0
    } else {
        button
    }
}

/// The state once a release is noted: a scrollbar held by the button
/// stops.
pub open spec fn let_up(ui: Ui, button: Button, at: Pt) -> Ui {
    let b = released(ui, button);
    Ui {
        last_mouse: at,
        mouse: Mouse {
            left_as: if button == Button::Left {
                None
            } else {
                ui.mouse.left_as
            },
            scrolling: match ui.mouse.scrolling {
                Some(s) => if s.button == b {
                    None
                } else {
                    Some(s)
                },
                None => None,
            },
            ..ui.mouse
        },
        ..ui
    }
}

/// acme's number for the button that drags a box.
pub open spec fn number(b: Button) -> u8 {
    match b {
        Button::Left => 1,
        Button::Middle => 2,
        _ => 3,
    }
}

/// A layout box let go at `at`.
pub open spec fn box_dropped(d: BoxDrag, at: Pt) -> Act {
    match d.target {
        BoxTarget::Win(w) => Act::DragWindow(w, number(d.button), d.start, at),
        BoxTarget::Col(c) => Act::DragColumn(c, d.start, at),
    }
}

/// What is swept in a terminal, when anything is.
pub open spec fn term_swept(ui: Ui) -> Option<(Cell, Cell)> {
    match ui.term_hl {
        Some(h) => if h.from != h.to {
            Some((h.from, h.to))
        } else {
            None
        },
        None => None,
    }
}

/// What B2 takes from the text it was held in.
pub open spec fn b2_range(ui: Ui, d: Drag, held: HeldText) -> Option<(usize, usize)> {
    match held.text {
        Some(t) => range_taken(t@, ui.hl, held.sel, d, HlKind::Exec),
        None => None,
    }
}

/// B2 comes up.
pub open spec fn b2_up(ui: Ui, held: HeldText) -> (Ui, Seq<Act>) {
    match ui.mouse.b2 {
        Some(d) => (
            Ui { hl: None, mouse: Mouse { b2: None, chord_arg: false, ..ui.mouse }, ..ui },
            match b2_range(ui, d, held) {
                Some((lo, hi)) => seq![
                    Act::Execute(crate::ids::context_of(d.view), d.view, lo, hi, ui.mouse.chord_arg),
                ],
                None => Seq::empty(),
            },
        ),
        None => (ui, Seq::empty()),
    }
}

/// The look that B3 asks for, having taken `lo..hi`.
pub open spec fn looked(m: Mouse, d: Drag, lo: usize, hi: usize, explicit: bool) -> Act {
    let ctx = crate::ids::context_of(d.view);
    if m.b3_cmd && m.b3_reverse {
        // shift-cmd-B3: Back, as cmd-[ issues it
        Act::Back(ctx)
    } else {
        // cmd-B3: Def at the pointer; B3 looks; shift-B3 looks backwards
        Act::Look(
            Lookup {
                ctx,
                view: d.view,
                at: d.anchor,
                lo,
                hi,
                explicit,
                reverse: !m.b3_cmd && m.b3_reverse,
                def: m.b3_cmd,
            },
        )
    }
}

/// B3 comes up.
pub open spec fn b3_up(ui: Ui, held: HeldText) -> (Ui, Seq<Act>) {
    match ui.mouse.b3 {
        Some(d) => (
            Ui { hl: None, mouse: Mouse { b3: None, ..ui.mouse }, ..ui },
            match held.text {
                Some(t) => match range_taken(t@, ui.hl, held.sel, d, HlKind::Look) {
                    Some((lo, hi)) => seq![looked(ui.mouse, d, lo, hi, explicit(ui.hl, held.sel, d) is Some)],
                    None => Seq::empty(),
                },
                None => Seq::empty(),
            },
        ),
        None => (ui, Seq::empty()),
    }
}

/// A button comes up that drags no box and sweeps no terminal.
pub open spec fn plain_up(ui: Ui, b: Button, held: HeldText) -> (Ui, Seq<Act>) {
    match b {
        Button::Left => (
            Ui { mouse: Mouse { b1: None, autoscroll: None, term_drag: None, ..ui.mouse }, ..ui },
            Seq::empty(),
        ),
        Button::Middle => b2_up(ui, held),
        Button::Right => b3_up(ui, held),
        Button::Menu => (ui, seq![Act::MenuUp]),
    }
}

/// What a release does.
pub open spec fn up(ui: Ui, button: Button, at: Pt, held: HeldText) -> (Ui, Seq<Act>) {
    let b = released(ui, button);
    let u = let_up(ui, button, at);
    if u.mouse.box_drag is Some && u.mouse.box_drag->0.button == b {
        (
            Ui { mouse: Mouse { box_drag: None, ..u.mouse }, ..u },
            seq![box_dropped(u.mouse.box_drag->0, at), Act::Redraw],
        )
    } else if u.mouse.term_sweep is Some && u.mouse.term_sweep->0.button == b {
        (
            Ui { term_hl: None, mouse: Mouse { term_sweep: None, ..u.mouse }, ..u },
            seq![Act::TermText(u.mouse.term_sweep->0, term_swept(u)), Act::Redraw],
        )
    } else {
        let (v, acts) = plain_up(u, b, held);
        (v, acts + seq![Act::Redraw])
    }
}

/// Letting a button go leaves nothing held by it.
pub proof fn law_a_button_let_go_holds_nothing(ui: Ui, at: Pt, held: HeldText)
    requires
        ui.mouse.left_as is None,
        ui.mouse.box_drag is None,
        ui.mouse.term_sweep is None,
    ensures
        up(ui, Button::Left, at, held).0.mouse.b1 is None,
        up(ui, Button::Left, at, held).0.mouse.autoscroll is None,
        up(ui, Button::Left, at, held).0.mouse.term_drag is None,
        up(ui, Button::Middle, at, held).0.mouse.b2 is None,
        up(ui, Button::Right, at, held).0.mouse.b3 is None,
{
}

/// A box or a terminal's sweep ends with the button that began it.
pub proof fn law_drags_end_with_their_button(ui: Ui, button: Button, at: Pt, held: HeldText)
    ensures
        ui.mouse.box_drag matches Some(d) && d.button == released(ui, button) ==> up(
            ui,
            button,
            at,
            held,
        ).0.mouse.box_drag is None,
        ui.mouse.box_drag matches Some(d) && d.button != released(ui, button) ==> up(
            ui,
            button,
            at,
            held,
        ).0.mouse.box_drag == ui.mouse.box_drag,
        ui.mouse.box_drag is None && (ui.mouse.term_sweep matches Some(h) && h.button == released(ui, button)) ==> up(
            ui,
            button,
            at,
            held,
        ).0.mouse.term_sweep is None,
{
}

/// The chord that a modifier newly held makes while B1 is down: option
/// cuts (copies, in a terminal), command pastes.
pub open spec fn chord(ui: Ui, mods: Modifiers) -> Option<Act> {
    let cuts = mods.alt && !ui.mouse.mods.alt;
    let pastes = mods.platform && !ui.mouse.mods.platform;
    match ui.mouse.term_drag {
        Some(w) => if cuts {
            Some(Act::TermCopy(w))
        } else if pastes {
            Some(Act::TermPaste(w))
        } else {
            None
        },
        None => match ui.mouse.b1 {
            Some(d) => if cuts {
                Some(Act::Cut(d.view))
            } else if pastes {
                Some(Act::Paste(d.view))
            } else {
                None
            },
            None => None,
        },
    }
}

/// What a change of the modifiers does.
pub open spec fn modified(ui: Ui, mods: Modifiers) -> (Ui, Seq<Act>) {
    let u = Ui { mouse: Mouse { mods, ..ui.mouse }, ..ui };
    if ui.switcher && !mods.control {
        // control let go with the switcher up
        (u, seq![Act::SwitcherCommit])
    } else {
        match chord(ui, mods) {
            Some(a) => (Ui { mouse: Mouse { chorded: true, ..u.mouse }, ..u }, seq![a, Act::Redraw]),
            None => (u, Seq::empty()),
        }
    }
}

fn number_of(b: Button) -> (n: u8)
    ensures
        n == number(b),
{
    match b {
        Button::Left => 1,
        Button::Middle => 2,
        _ => 3,
    }
}

impl Ui {
    fn let_up(&mut self, button: Button, at: Pt) -> (b: Button)
        ensures
            b == released(*old(self), button),
            *final(self) == let_up(*old(self), button, at),
    {
        let b = match self.mouse.left_as {
            Some(l) => if button == Button::Left {
                l
            } else {
                button
            },
            None => button,
        };
        let left_as = if button == Button::Left {
            None
        } else {
            self.mouse.left_as
        };
        let scrolling = match self.mouse.scrolling {
            Some(s) => if s.button == b {
                None
            } else {
                Some(s)
            },
            None => None,
        };
        self.last_mouse = at;
        self.mouse.left_as = left_as;
        self.mouse.scrolling = scrolling;
        b
    }

    fn b2_up(&mut self, held: &HeldText) -> (acts: Vec<Act>)
        ensures
            (*final(self), acts@) == b2_up(*old(self), *held),
    {
        let mut acts: Vec<Act> = Vec::new();
        if let Some(d) = self.mouse.b2 {
            let range = match held.text {
                Some(t) => take_range_at(t, self.hl, held.sel, d, HlKind::Exec),
                None => None,
            };
            if let Some((lo, hi)) = range {
                acts.push(Act::Execute(d.view.ctx_of(), d.view, lo, hi, self.mouse.chord_arg));
            }
            self.hl = None;
            self.mouse.b2 = None;
            self.mouse.chord_arg = false;
        }
        proof {
            assert(acts@ =~= b2_up(*old(self), *held).1);
        }
        acts
    }

    fn b3_up(&mut self, held: &HeldText) -> (acts: Vec<Act>)
        ensures
            (*final(self), acts@) == b3_up(*old(self), *held),
    {
        let mut acts: Vec<Act> = Vec::new();
        if let Some(d) = self.mouse.b3 {
            if let Some(t) = held.text {
                let on_purpose = explicit_range_at(self.hl, held.sel, d).is_some();
                if let Some((lo, hi)) = take_range_at(t, self.hl, held.sel, d, HlKind::Look) {
                    let ctx = d.view.ctx_of();
                    if self.mouse.b3_cmd && self.mouse.b3_reverse {
                        acts.push(Act::Back(ctx));
                    } else {
                        acts.push(
                            Act::Look(
                                Lookup {
                                    ctx,
                                    view: d.view,
                                    at: d.anchor,
                                    lo,
                                    hi,
                                    explicit: on_purpose,
                                    reverse: !self.mouse.b3_cmd && self.mouse.b3_reverse,
                                    def: self.mouse.b3_cmd,
                                },
                            ),
                        );
                    }
                }
            }
            self.hl = None;
            self.mouse.b3 = None;
        }
        proof {
            assert(acts@ =~= b3_up(*old(self), *held).1);
        }
        acts
    }

    fn plain_up(&mut self, b: Button, held: &HeldText) -> (acts: Vec<Act>)
        ensures
            (*final(self), acts@) == plain_up(*old(self), b, *held),
    {
        match b {
            Button::Left => {
                self.mouse.b1 = None;
                self.mouse.autoscroll = None;
                self.mouse.term_drag = None;
                let acts: Vec<Act> = Vec::new();
                proof {
                    assert(acts@ =~= Seq::empty());
                }
                acts
            },
            Button::Middle => self.b2_up(held),
            Button::Right => self.b3_up(held),
            Button::Menu => {
                let mut acts: Vec<Act> = Vec::new();
                acts.push(Act::MenuUp);
                proof {
                    assert(acts@ =~= seq![Act::MenuUp]);
                }
                acts
            },
        }
    }

    /// A button let go at `at`; `held` is the text that B2 or B3 was held
    /// in.
    pub fn mouse_up(&mut self, button: Button, at: Pt, held: &HeldText) -> (acts: Vec<Act>)
        ensures
            (*final(self), acts@) == up(*old(self), button, at, *held),
    {
        let b = self.let_up(button, at);
        let ghost u = *self;
        if let Some(d) = self.mouse.box_drag {
            if d.button == b {
                self.mouse.box_drag = None;
                let mut acts: Vec<Act> = Vec::new();
                acts.push(match d.target {
                    BoxTarget::Win(w) => Act::DragWindow(w, number_of(d.button), d.start, at),
                    BoxTarget::Col(c) => Act::DragColumn(c, d.start, at),
                });
                acts.push(Act::Redraw);
                proof {
                    assert(acts@ =~= seq![box_dropped(d, at), Act::Redraw]);
                }
                return acts;
            }
        }
        if let Some(h) = self.mouse.term_sweep {
            if h.button == b {
                let swept = match self.term_hl {
                    Some(s) => if s.from != s.to {
                        Some((s.from, s.to))
                    } else {
                        None
                    },
                    None => None,
                };
                self.mouse.term_sweep = None;
                self.term_hl = None;
                let mut acts: Vec<Act> = Vec::new();
                acts.push(Act::TermText(h, swept));
                acts.push(Act::Redraw);
                proof {
                    assert(acts@ =~= seq![Act::TermText(h, term_swept(u)), Act::Redraw]);
                }
                return acts;
            }
        }
        let mut acts: Vec<Act> = self.plain_up(b, held);
        let ghost before = acts@;
        acts.push(Act::Redraw);
        proof {
            assert(acts@ =~= before + seq![Act::Redraw]);
        }
        acts
    }

    fn chorded_by(&self, mods: &Modifiers) -> (a: Option<Act>)
        ensures
            a == chord(*self, *mods),
    {
        let cuts = mods.alt && !self.mouse.mods.alt;
        let pastes = mods.platform && !self.mouse.mods.platform;
        match self.mouse.term_drag {
            Some(w) => if cuts {
                Some(Act::TermCopy(w))
            } else if pastes {
                Some(Act::TermPaste(w))
            } else {
                None
            },
            None => match self.mouse.b1 {
                Some(d) => if cuts {
                    Some(Act::Cut(d.view))
                } else if pastes {
                    Some(Act::Paste(d.view))
                } else {
                    None
                },
                None => None,
            },
        }
    }

    /// plan9port chords: while B1 is held, option cuts and command
    /// pastes.
    pub fn modifiers_changed(&mut self, mods: Modifiers) -> (acts: Vec<Act>)
        ensures
            (*final(self), acts@) == modified(*old(self), mods),
    {
        let a = self.chorded_by(&mods);
        self.mouse.mods = mods;
        let mut acts: Vec<Act> = Vec::new();
        if self.switcher && !mods.control {
            acts.push(Act::SwitcherCommit);
        } else if let Some(a) = a {
            self.mouse.chorded = true;
            acts.push(a);
            acts.push(Act::Redraw);
        }
        proof {
            assert(acts@ =~= modified(*old(self), mods).1);
        }
        acts
    }
}

/// The button that comes up is the one that the left one stood for when it
/// went down, else itself; and the left one stands for nothing any more.
pub proof fn law_what_went_down_comes_up(ui: Ui, button: Button, at: Pt, held: HeldText)
    ensures
        button == Button::Left && ui.mouse.left_as is Some ==> released(ui, button) == ui.mouse.left_as->0,
        button != Button::Left || ui.mouse.left_as is None ==> released(ui, button) == button,
        ({
            let u = up(ui, button, at, held).0;
            &&& u.last_mouse == at
            &&& button == Button::Left ==> u.mouse.left_as is None
            &&& button != Button::Left ==> u.mouse.left_as == ui.mouse.left_as
            &&& ui.mouse.scrolling matches Some(s) ==> u.mouse.scrolling == if s.button == released(ui, button) {
                None
            } else {
                Some(s)
            }
            &&& ui.mouse.scrolling is None ==> u.mouse.scrolling is None
            &&& u == (Ui { last_mouse: at, mouse: u.mouse, hl: u.hl, term_hl: u.term_hl, ..ui })
            &&& u.mouse.mods == ui.mouse.mods && u.mouse.chorded == ui.mouse.chorded
        }),
        up(ui, button, at, held).1.len() > 0 && up(ui, button, at, held).1.last() == Act::Redraw,
{
}

/// A box let go by its button moves what it is the box of, with acme's
/// number for the button, from where it was pressed to where it is let go.
pub proof fn law_a_box_is_dropped_where_it_is_let_go(ui: Ui, button: Button, at: Pt, held: HeldText, d: BoxDrag)
    requires
        ui.mouse.box_drag == Some(d),
        d.button == released(ui, button),
    ensures
        ({
            let (u, acts) = up(ui, button, at, held);
            &&& u.mouse.box_drag is None
            &&& acts.len() == 2
            &&& d.target matches BoxTarget::Col(c) ==> acts[0] == Act::DragColumn(c, d.start, at)
            &&& d.target matches BoxTarget::Win(w) ==> {
                &&& d.button == Button::Left ==> acts[0] == Act::DragWindow(w, 1, d.start, at)
                &&& d.button == Button::Middle ==> acts[0] == Act::DragWindow(w, 2, d.start, at)
                &&& d.button == Button::Right ==> acts[0] == Act::DragWindow(w, 3, d.start, at)
            }
            &&& u.hl == ui.hl && u.term_hl == ui.term_hl
            &&& u.mouse == (Mouse {
                box_drag: None,
                left_as: u.mouse.left_as,
                scrolling: u.mouse.scrolling,
                ..ui.mouse
            })
        }),
{
}

/// No box being dropped: a sweep in a terminal let go by its button asks for
/// what it swept, and where it swept nothing, for what is at the cell; and is
/// shown no more.
pub proof fn law_a_terminals_sweep_is_taken(ui: Ui, button: Button, at: Pt, held: HeldText)
    requires
        ui.mouse.box_drag matches Some(d) ==> d.button != released(ui, button),
        ui.mouse.term_sweep is Some,
        ui.mouse.term_sweep->0.button == released(ui, button),
    ensures
        ({
            let (u, acts) = up(ui, button, at, held);
            &&& u.mouse.term_sweep is None && u.term_hl is None && u.hl == ui.hl
            &&& acts.len() == 2 && acts[0] is TermText
            &&& acts[0]->TermText_0 == ui.mouse.term_sweep->0
            &&& ui.term_hl is None || ui.term_hl->0.from == ui.term_hl->0.to ==> acts[0]->TermText_1 is None
            &&& ui.term_hl is Some && ui.term_hl->0.from != ui.term_hl->0.to ==> acts[0]->TermText_1 == Some(
                (ui.term_hl->0.from, ui.term_hl->0.to),
            )
            &&& u.mouse == (Mouse {
                term_sweep: None,
                left_as: u.mouse.left_as,
                scrolling: u.mouse.scrolling,
                ..ui.mouse
            })
        }),
{
}

/// Neither a box nor a terminal's sweep is let go by this button.
pub open spec fn in_the_texts(ui: Ui, button: Button) -> bool {
    &&& ui.mouse.box_drag matches Some(d) ==> d.button != released(ui, button)
    &&& ui.mouse.term_sweep matches Some(h) ==> h.button != released(ui, button)
}

/// The first button let go ends the selection that it swept, in a text or a
/// terminal, and runs nothing; the fourth lets the menu go.
pub proof fn law_b1_let_go_runs_nothing(ui: Ui, button: Button, at: Pt, held: HeldText)
    requires
        in_the_texts(ui, button),
    ensures
        ({
            let (u, acts) = up(ui, button, at, held);
            let b = released(ui, button);
            &&& b == Button::Left ==> acts == seq![Act::Redraw] && u.mouse == (Mouse {
                b1: None,
                autoscroll: None,
                term_drag: None,
                left_as: u.mouse.left_as,
                scrolling: u.mouse.scrolling,
                ..ui.mouse
            })
            &&& b == Button::Menu ==> acts == seq![Act::MenuUp, Act::Redraw] && u.mouse == (Mouse {
                left_as: u.mouse.left_as,
                scrolling: u.mouse.scrolling,
                ..ui.mouse
            })
            &&& b == Button::Left || b == Button::Menu ==> u.hl == ui.hl && u.term_hl == ui.term_hl
        }),
{
    let acts = up(ui, button, at, held).1;
    if released(ui, button) == Button::Left {
        assert(acts =~= seq![Act::Redraw]);
    }
    if released(ui, button) == Button::Menu {
        assert(acts =~= seq![Act::MenuUp, Act::Redraw]);
    }
}

/// The second button let go runs what it took of the text that it was held
/// in, from that text, with the argument that was asked for; the third looks
/// what it took up, backwards with shift; with command it is the definition
/// that is asked for, and with both, `Back`.  A button that took nothing
/// does nothing.
pub proof fn law_b2_runs_and_b3_looks(ui: Ui, button: Button, at: Pt, held: HeldText, d: Drag)
    requires
        in_the_texts(ui, button),
        held.text is Some,
    ensures
        ({
            let (u, acts) = up(ui, button, at, held);
            let b = released(ui, button);
            let kind = if b == Button::Middle { HlKind::Exec } else { HlKind::Look };
            let took = range_taken(held.text->0@, ui.hl, held.sel, d, kind);
            let on_purpose = explicit(ui.hl, held.sel, d) is Some;
            &&& b == Button::Middle && ui.mouse.b2 == Some(d) ==> {
                &&& u.mouse.b2 is None && !u.mouse.chord_arg && u.hl is None && u.mouse.b3 == ui.mouse.b3
                &&& took is None ==> acts == seq![Act::Redraw]
                &&& took is Some ==> acts.len() == 2 && acts[0] is Execute && acts[0]->Execute_1
                    == d.view && acts[0]->Execute_2 == (took->0).0 && acts[0]->Execute_3 == (took->0).1
                    && acts[0]->Execute_4 == ui.mouse.chord_arg && runs_from(d.view, acts[0]->Execute_0)
            }
            &&& b == Button::Right && ui.mouse.b3 == Some(d) ==> {
                &&& u.mouse.b3 is None && u.hl is None && u.mouse.b2 == ui.mouse.b2
                &&& took is None ==> acts == seq![Act::Redraw]
                &&& took is Some ==> acts.len() == 2
                &&& took is Some && ui.mouse.b3_cmd && ui.mouse.b3_reverse ==> acts[0] is Back && runs_from(
                    d.view,
                    acts[0]->Back_0,
                )
                &&& took is Some && !(ui.mouse.b3_cmd && ui.mouse.b3_reverse) ==> {
                    let l = acts[0]->Look_0;
                    &&& acts[0] is Look && runs_from(d.view, l.ctx) && l.view == d.view && l.at == d.anchor
                    &&& l.lo == (took->0).0 && l.hi == (took->0).1 && l.explicit == on_purpose
                    &&& l.def == ui.mouse.b3_cmd && l.reverse == (ui.mouse.b3_reverse && !ui.mouse.b3_cmd)
                }
            }
            &&& b == Button::Middle && ui.mouse.b2 is None ==> acts == seq![Act::Redraw] && u.hl == ui.hl
            &&& b == Button::Right && ui.mouse.b3 is None ==> acts == seq![Act::Redraw] && u.hl == ui.hl
        }),
{
    let acts = up(ui, button, at, held).1;
    if acts.len() == 1 {
        assert(acts =~= seq![Act::Redraw]);
    }
}

/// A command from this text runs here: in the text's window, else its
/// column, else at the top.
pub open spec fn runs_from(v: crate::ids::ViewId, ctx: crate::ids::ExecCtx) -> bool {
    match ctx {
        crate::ids::ExecCtx::Window(w) => v == crate::ids::ViewId::Tag(w) || v == crate::ids::ViewId::Body(w),
        crate::ids::ExecCtx::Column(c) => v == crate::ids::ViewId::ColTag(c),
        crate::ids::ExecCtx::Top => v == crate::ids::ViewId::Top,
    }
}

/// The chords made with the keys while the first button is held: option
/// newly held cuts, in a terminal copies, and command newly held pastes;
/// a modifier that was held already, or is let go, does nothing.  Control let
/// go with the switcher up settles on the tab that it is at.
pub proof fn law_modifiers_chord_with_b1(ui: Ui, mods: Modifiers)
    ensures
        ({
            let (u, acts) = modified(ui, mods);
            let option = mods.alt && !ui.mouse.mods.alt;
            let command = mods.platform && !ui.mouse.mods.platform;
            let settles = ui.switcher && !mods.control;
            &&& u.mouse.mods == mods
            &&& u == (Ui { mouse: Mouse { mods, chorded: u.mouse.chorded, ..ui.mouse }, ..ui })
            &&& settles ==> acts == seq![Act::SwitcherCommit] && u.mouse.chorded == ui.mouse.chorded
            &&& !settles && !option && !command ==> acts.len() == 0 && u.mouse.chorded == ui.mouse.chorded
            &&& !settles && ui.mouse.term_drag is None && ui.mouse.b1 is None ==> acts.len() == 0 && u.mouse.chorded
                == ui.mouse.chorded
            &&& ui.mouse.term_drag matches Some(w) ==> {
                &&& !settles && option ==> acts == seq![Act::TermCopy(w), Act::Redraw] && u.mouse.chorded
                &&& !settles && !option && command ==> acts == seq![Act::TermPaste(w), Act::Redraw] && u.mouse.chorded
            }
            &&& ui.mouse.term_drag is None ==> (ui.mouse.b1 matches Some(d) ==> {
                &&& !settles && option ==> acts == seq![Act::Cut(d.view), Act::Redraw] && u.mouse.chorded
                &&& !settles && !option && command ==> acts == seq![Act::Paste(d.view), Act::Redraw] && u.mouse.chorded
            })
        }),
{
}

} // verus!
