//! What running a command, the Edit menu and the menus' commands come to:
//! where each goes, and what is to be done there.

use vstd::prelude::*;
use vstd::string::*;

use crate::argv::{first_word, has_word, words, words_of};
use crate::field::characters;
use crate::ids::{ExecCtx, TermId, ViewId, WindowId};
use crate::mouse::{Target, TermSel};
use crate::session::maybe;
use crate::term::{grid_text, term_grid_text, GridCell};
use crate::text::{chars_of, has_at, inked, same, stands_at, string_of, trim, trimmed, views};

verus! {

/// What a window's body is.
#[derive(Clone, Copy, Debug, PartialEq, Eq, Structural)]
pub enum Body {
    Text,
    Term(TermId),
    Web,
    Html,
}

/// Where a page goes in its history, or that it loads again.
#[derive(Clone, Copy, Debug, PartialEq, Eq, Structural)]
pub enum Nav {
    Back,
    Fwd,
    Reload,
}

/// What a command comes to.
pub enum Command {
    /// The session ends, whatever is unsaved when forced, and the window
    /// closes.
    End(bool),
    /// What is selected in a terminal is snarfed, and typed into it with
    /// a newline.
    Send { term: TermId, text: String, typed: String },
    /// A page's own history and reload.
    Page(WindowId, Nav),
    /// A terminal's selection is copied.
    TermCopy(WindowId),
    /// The command runs as any does; before it, the clipboard is put in
    /// the snarf buffer, or after it, the snarf buffer on the clipboard.
    Run { from_clipboard: bool, to_clipboard: bool },
}

/// A [`Command`] as a value.
pub enum Commanded {
    End(bool),
    Send { term: TermId, text: Seq<char>, typed: Seq<char> },
    Page(WindowId, Nav),
    TermCopy(WindowId),
    Run { from_clipboard: bool, to_clipboard: bool },
}

impl View for Command {
    type V = Commanded;

    open spec fn view(&self) -> Commanded {
        match self {
            Command::End(f) => Commanded::End(*f),
            Command::Send { term, text, typed } => Commanded::Send { term: *term, text: text@, typed: typed@ },
            Command::Page(w, n) => Commanded::Page(*w, *n),
            Command::TermCopy(w) => Commanded::TermCopy(*w),
            Command::Run { from_clipboard, to_clipboard } => Commanded::Run {
                from_clipboard: *from_clipboard,
                to_clipboard: *to_clipboard,
            },
        }
    }
}

/// What the window that a command runs in shows: what its body is; for a
/// terminal, its rows on screen and the line of the history they start
/// at; and the selection in a terminal.
pub struct Shown<'a> {
    pub body: Option<Body>,
    pub grid: &'a Vec<Vec<GridCell>>,
    pub top: u64,
    pub sel: Option<TermSel>,
}

/// What is selected in a window that is a terminal.
pub open spec fn selected_in(w: WindowId, s: Shown) -> Option<Seq<char>> {
    if s.body is Some && s.body->0 is Term && s.sel is Some && s.sel->0.window == w && s.sel->0.from != s.sel->0.to {
        let t = grid_text(s.grid@, s.top as int, s.sel->0.from, s.sel->0.to);
        if inked(t) {
            Some(t)
        } else {
            None
        }
    } else {
        None
    }
}

/// A text with a newline at its end.
pub open spec fn ended(t: Seq<char>) -> Seq<char> {
    if t.len() > 0 && t.last() == '\n' {
        t
    } else {
        t.push('\n')
    }
}

/// Where a word takes a page.
pub open spec fn nav_of(word: Seq<char>) -> Option<Nav> {
    if word == "Back"@ {
        Some(Nav::Back)
    } else if word == "Fwd"@ {
        Some(Nav::Fwd)
    } else if word == "Get"@ {
        Some(Nav::Reload)
    } else {
        None
    }
}

/// What a command comes to, by its first word and where it runs.
pub open spec fn commanded(ctx: ExecCtx, text: Seq<char>, s: Shown) -> Commanded {
    let word = first_word(text);
    let run = Commanded::Run {
        from_clipboard: word == "Paste"@,
        to_clipboard: word == "Cut"@ || word == "Snarf"@,
    };
    if word == "End"@ {
        Commanded::End(words_of(text).contains("-f"@))
    } else {
        match ctx {
            ExecCtx::Window(w) => if word == "Send"@ && selected_in(w, s) is Some {
                Commanded::Send {
                    term: s.body->0->Term_0,
                    text: selected_in(w, s)->0,
                    typed: ended(selected_in(w, s)->0),
                }
            } else if s.body == Some(Body::Web) && nav_of(word) is Some {
                Commanded::Page(w, nav_of(word)->0)
            } else if word == "Snarf"@ && s.body is Some && s.body->0 is Term {
                Commanded::TermCopy(w)
            } else {
                run
            },
            _ => run,
        }
    }
}

fn nav(word: &str) -> (n: Option<Nav>)
    ensures
        n == nav_of(word@),
{
    if same(word, "Back") {
        Some(Nav::Back)
    } else if same(word, "Fwd") {
        Some(Nav::Fwd)
    } else if same(word, "Get") {
        Some(Nav::Reload)
    } else {
        None
    }
}

fn selection_in(w: WindowId, s: &Shown) -> (r: Option<String>)
    requires
        s.top + s.grid@.len() <= u64::MAX,
    ensures
        maybe(r) == selected_in(w, *s),
{
    let is_term = match s.body {
        Some(Body::Term(_)) => true,
        _ => false,
    };
    if !is_term {
        return None;
    }
    match s.sel {
        Some(sel) => {
            if sel.window == w && sel.from != sel.to {
                term_grid_text(s.grid, s.top, sel.from, sel.to)
            } else {
                None
            }
        },
        None => None,
    }
}

fn typed_with_newline(t: &str) -> (r: String)
    ensures
        r@ == ended(t@),
{
    let c: Vec<char> = chars_of(t);
    let mut r: String = t.to_owned();
    if c.len() == 0 || c[c.len() - 1] != '\n' {
        r.push('\n');
    }
    r
}

fn in_window(w: WindowId, word: &str, s: &Shown) -> (c: Option<Command>)
    requires
        s.top + s.grid@.len() <= u64::MAX,
    ensures
        match c {
            Some(c) => c@ == (if word@ == "Send"@ && selected_in(w, *s) is Some {
                Commanded::Send {
                    term: s.body->0->Term_0,
                    text: selected_in(w, *s)->0,
                    typed: ended(selected_in(w, *s)->0),
                }
            } else if s.body == Some(Body::Web) && nav_of(word@) is Some {
                Commanded::Page(w, nav_of(word@)->0)
            } else {
                Commanded::TermCopy(w)
            }) && ((word@ == "Send"@ && selected_in(w, *s) is Some) || (s.body == Some(Body::Web) && nav_of(
                word@,
            ) is Some) || (word@ == "Snarf"@ && s.body is Some && s.body->0 is Term)),
            None => !(word@ == "Send"@ && selected_in(w, *s) is Some) && !(s.body == Some(Body::Web) && nav_of(
                word@,
            ) is Some) && !(word@ == "Snarf"@ && s.body is Some && s.body->0 is Term),
        },
{
    if same(word, "Send") {
        if let Some(t) = selection_in(w, s) {
            if let Some(Body::Term(term)) = s.body {
                let typed: String = typed_with_newline(t.as_str());
                return Some(Command::Send { term, text: t, typed });
            }
        }
    }
    match s.body {
        Some(Body::Web) => {
            if let Some(n) = nav(word) {
                return Some(Command::Page(w, n));
            }
        },
        Some(Body::Term(_)) => {
            if same(word, "Snarf") {
                return Some(Command::TermCopy(w));
            }
        },
        _ => {},
    }
    None
}

/// A command that is run (with the second button, or from a menu): what
/// it comes to.
pub fn execute(ctx: ExecCtx, text: &str, s: &Shown) -> (c: Command)
    requires
        s.top + s.grid@.len() <= u64::MAX,
    ensures
        c@ == commanded(ctx, text@, *s),
{
    let all: Vec<char> = chars_of(text);
    let w: Vec<Vec<char>> = words(all.as_slice());
    let word: String = if w.len() > 0 {
        proof {
            assert(views(w@)[0] == w@[0]@);
        }
        string_of(w[0].as_slice())
    } else {
        String::new()
    };
    proof {
        assert(views(w@).len() == w@.len());
        assert(word@ =~= first_word(text@));
    }
    if same(word.as_str(), "End") {
        let f: Vec<char> = chars_of("-f");
        return Command::End(has_word(&w, f.as_slice()));
    }
    if let ExecCtx::Window(win) = ctx {
        if let Some(c) = in_window(win, word.as_str(), s) {
            return c;
        }
    }
    Command::Run {
        from_clipboard: same(word.as_str(), "Paste"),
        to_clipboard: same(word.as_str(), "Cut") || same(word.as_str(), "Snarf"),
    }
}

/// How a command that was run came out.
pub enum Ran {
    Done,
    Quit,
    Failed(String),
}

/// What is to be done once it has run.
pub enum After {
    Nothing,
    /// The app quits: the session runs in this process.
    QuitApp,
    /// The window closes; the session lives on, parked.
    CloseWindow,
    /// A line for `+Errors`.
    Report(String),
}

/// What is to be done once a command has run.
pub fn after_run(r: Ran, in_process: bool) -> (a: After)
    ensures
        r is Done ==> a is Nothing,
        r is Quit && in_process ==> a is QuitApp,
        r is Quit && !in_process ==> a is CloseWindow,
        r matches Ran::Failed(why) ==> (a matches After::Report(l) && l@ == why@.push('\n')),
{
    match r {
        Ran::Done => After::Nothing,
        Ran::Quit => {
            if in_process {
                After::QuitApp
            } else {
                After::CloseWindow
            }
        },
        Ran::Failed(why) => {
            let mut l: String = why;
            l.push('\n');
            After::Report(l)
        },
    }
}

/// What text is looked up as: without the white space round it; nothing
/// where there is nothing else.
pub fn look_at(text: &str) -> (r: Option<String>)
    ensures
        maybe(r) == (if trimmed(text@).len() > 0 {
            Some(trimmed(text@))
        } else {
            None
        }),
{
    let all: Vec<char> = chars_of(text);
    let t: Vec<char> = trim(all.as_slice());
    if t.len() == 0 {
        None
    } else {
        Some(string_of(t.as_slice()))
    }
}

/// What the Edit menu does.
#[derive(Clone, Copy, Debug, PartialEq, Eq, Structural)]
pub enum EditAct {
    Nothing,
    /// An overlay has the keyboard: its field has it.
    Overlay,
    TermPaste(TermId),
    TermCopy(WindowId),
    TermSelectAll(WindowId),
    Undo(ViewId),
    Redo(ViewId),
    Cut(ViewId),
    Copy(ViewId),
    Paste(ViewId),
    SelectAll(ViewId),
    /// The text is only brought into view.
    Show(ViewId),
}

/// Where keys and menus go: what is under the pointer, else the text
/// selected last.
pub open spec fn aimed_at(under: Option<Target>, seltext: Option<ViewId>) -> Option<Target> {
    match under {
        Some(t) => Some(t),
        None => match seltext {
            Some(v) => Some(Target::View(v)),
            None => None,
        },
    }
}

/// What the Edit menu does to a terminal or a text.
pub open spec fn edit_of(what: Seq<char>, at: Option<Target>) -> EditAct {
    match at {
        None => EditAct::Nothing,
        Some(Target::Term(w, t)) => if what == "paste"@ {
            EditAct::TermPaste(t)
        } else if what == "copy"@ || what == "cut"@ {
            EditAct::TermCopy(w)
        } else if what == "select-all"@ {
            EditAct::TermSelectAll(w)
        } else {
            EditAct::Nothing
        },
        Some(Target::View(v)) => if what == "undo"@ {
            EditAct::Undo(v)
        } else if what == "redo"@ {
            EditAct::Redo(v)
        } else if what == "cut"@ {
            EditAct::Cut(v)
        } else if what == "copy"@ {
            EditAct::Copy(v)
        } else if what == "paste"@ {
            EditAct::Paste(v)
        } else if what == "select-all"@ {
            EditAct::SelectAll(v)
        } else {
            EditAct::Show(v)
        },
    }
}

fn edit(what: &str, at: Option<Target>) -> (a: EditAct)
    ensures
        a == edit_of(what@, at),
{
    match at {
        None => EditAct::Nothing,
        Some(Target::Term(w, t)) => {
            if same(what, "paste") {
                EditAct::TermPaste(t)
            } else if same(what, "copy") || same(what, "cut") {
                EditAct::TermCopy(w)
            } else if same(what, "select-all") {
                EditAct::TermSelectAll(w)
            } else {
                EditAct::Nothing
            }
        },
        Some(Target::View(v)) => {
            if same(what, "undo") {
                EditAct::Undo(v)
            } else if same(what, "redo") {
                EditAct::Redo(v)
            } else if same(what, "cut") {
                EditAct::Cut(v)
            } else if same(what, "copy") {
                EditAct::Copy(v)
            } else if same(what, "paste") {
                EditAct::Paste(v)
            } else if same(what, "select-all") {
                EditAct::SelectAll(v)
            } else {
                EditAct::Show(v)
            }
        },
    }
}

/// The Edit menu, and its shortcuts: an overlay's field, with one up;
/// nothing, where a page under the pointer took it; else the text under
/// the pointer, or the one selected last.
pub fn menu_edit(what: &str, overlay: bool, page_took: bool, under: Option<Target>, seltext: Option<ViewId>) -> (a: EditAct)
    ensures
        a == (if overlay {
            EditAct::Overlay
        } else if page_took {
            EditAct::Nothing
        } else {
            edit_of(what@, aimed_at(under, seltext))
        }),
{
    if overlay {
        return EditAct::Overlay;
    }
    if page_took {
        return EditAct::Nothing;
    }
    let at: Option<Target> = match under {
        Some(t) => Some(t),
        None => match seltext {
            Some(v) => Some(Target::View(v)),
            None => None,
        },
    };
    edit(what, at)
}

/// All of a terminal's screen: its first row's line of the history, to
/// the last column of its last row.
pub open spec fn whole_screen(w: WindowId, top: int, cols: int, rows: int) -> TermSel {
    TermSel {
        window: w,
        from: crate::mouse::Cell { col: 0, line: top as u64 },
        to: crate::mouse::Cell {
            col: cols as usize,
            line: (if rows > 0 {
                top + rows - 1
            } else {
                top
            }) as u64,
        },
    }
}

/// Select all in a terminal: what is on its screen.
pub fn term_select_all(w: WindowId, top: u64, cols: u16, rows: u16) -> (s: TermSel)
    requires
        top + rows <= u64::MAX,
    ensures
        s == whole_screen(w, top as int, cols as int, rows as int),
{
    let last: u64 = if rows > 0 {
        top + rows as u64 - 1
    } else {
        top
    };
    TermSel {
        window: w,
        from: crate::mouse::Cell { col: 0, line: top },
        to: crate::mouse::Cell { col: cols as usize, line: last },
    }
}

/// The window that a menu's command acts on: the page's under the
/// pointer; the one under the pointer; else that of the text selected
/// last.
pub open spec fn acted_on(page: Option<WindowId>, under: Option<Target>, seltext: Option<ViewId>) -> Option<WindowId> {
    let last = match seltext {
        Some(v) => crate::ids::window_of(v),
        None => None,
    };
    if page is Some {
        page
    } else {
        match under {
            Some(Target::View(v)) => match crate::ids::window_of(v) {
                Some(w) => Some(w),
                None => last,
            },
            Some(Target::Term(w, _)) => Some(w),
            None => last,
        }
    }
}

/// The window that a menu's command acts on.
pub fn window_at_pointer(page: Option<WindowId>, under: Option<Target>, seltext: Option<ViewId>) -> (w: Option<WindowId>)
    ensures
        w == acted_on(page, under, seltext),
{
    if page.is_some() {
        return page;
    }
    let last: Option<WindowId> = match seltext {
        Some(v) => v.window(),
        None => None,
    };
    match under {
        Some(Target::View(v)) => match v.window() {
            Some(w) => Some(w),
            None => last,
        },
        Some(Target::Term(w, _)) => Some(w),
        None => last,
    }
}

/// What a menu's item that is a command comes to.
#[derive(Clone, Copy, Debug, PartialEq, Eq, Structural)]
pub enum MenuAct {
    Nothing,
    /// Select all, in the field of the overlay that has the keyboard.
    OverlaySelectAll,
    Run(ExecCtx),
}

/// A command that needs no window.
pub open spec fn needs_no_window(text: Seq<char>) -> bool {
    text == "New"@ || stands_at(text, 0, "New "@) || text == "Back"@ || text == "Fwd"@
}

/// A menu's item that is a command: run in the window it acts on, as the
/// second button there would run it.  Select all is the overlay's, with
/// one up, or the page's, where a page under the pointer took it.
pub fn menu_command(text: &str, overlay: bool, page_took: bool, at: Option<WindowId>) -> (a: MenuAct)
    ensures
        a == (if overlay {
            if text@ == "Edit ,"@ {
                MenuAct::OverlaySelectAll
            } else {
                MenuAct::Nothing
            }
        } else if text@ == "Edit ,"@ && page_took {
            MenuAct::Nothing
        } else {
            match at {
                Some(w) => MenuAct::Run(ExecCtx::Window(w)),
                None => if needs_no_window(text@) {
                    MenuAct::Run(ExecCtx::Top)
                } else {
                    MenuAct::Nothing
                },
            }
        }),
{
    let all = same(text, "Edit ,");
    if overlay {
        return if all {
            MenuAct::OverlaySelectAll
        } else {
            MenuAct::Nothing
        };
    }
    if all && page_took {
        return MenuAct::Nothing;
    }
    match at {
        Some(w) => MenuAct::Run(ExecCtx::Window(w)),
        None => {
            let c: Vec<char> = chars_of(text);
            if same(text, "New") || has_at(c.as_slice(), 0, "New ") || same(text, "Back") || same(text, "Fwd") {
                MenuAct::Run(ExecCtx::Top)
            } else {
                MenuAct::Nothing
            }
        },
    }
}

/// A command's text with its argument, where one is given that is not
/// empty: a space between the two.
pub open spec fn command_with(text: Seq<char>, arg: Option<Seq<char>>) -> Seq<char> {
    match arg {
        Some(a) => if a.len() > 0 {
            text + seq![' '] + a
        } else {
            text
        },
        None => text,
    }
}

/// A command's text with the chord's argument.
pub fn with_argument(text: &str, arg: Option<&str>) -> (r: String)
    ensures
        r@ == command_with(text@, characters(arg)),
{
    let mut r: String = text.to_owned();
    if let Some(a) = arg {
        if !a.is_empty() {
            r.append(" ");
            r.append(a);
            proof {
                reveal_strlit(" ");
                assert(r@ =~= text@ + seq![' '] + a@);
            }
        }
    }
    r
}

proof fn lemma_words()
    ensures
        "End"@ != "Send"@ && "End"@ != "Back"@ && "End"@ != "Fwd"@ && "End"@ != "Get"@ && "End"@ != "Snarf"@ && "End"@
            != "Paste"@ && "End"@ != "Cut"@,
        "Send"@ != "Back"@ && "Send"@ != "Fwd"@ && "Send"@ != "Get"@ && "Send"@ != "Snarf"@ && "Send"@ != "Paste"@
            && "Send"@ != "Cut"@,
        "Back"@ != "Fwd"@ && "Back"@ != "Get"@ && "Back"@ != "Snarf"@,
        "Fwd"@ != "Get"@ && "Fwd"@ != "Snarf"@,
        "Get"@ != "Snarf"@,
        "Snarf"@ != "Paste"@ && "Snarf"@ != "Cut"@ && "Paste"@ != "Cut"@,
        "Paste"@ != "Back"@ && "Paste"@ != "Fwd"@ && "Paste"@ != "Get"@,
        "Cut"@ != "Back"@ && "Cut"@ != "Fwd"@ && "Cut"@ != "Get"@,
{
    reveal_strlit("End");
    reveal_strlit("Send");
    reveal_strlit("Back");
    reveal_strlit("Fwd");
    reveal_strlit("Get");
    reveal_strlit("Snarf");
    reveal_strlit("Paste");
    reveal_strlit("Cut");
    assert("End"@[0] == 'E' && "Fwd"@[0] == 'F' && "Get"@[0] == 'G' && "Cut"@[0] == 'C');
    assert("Send"@[0] == 'S' && "Back"@[0] == 'B' && "Snarf"@[0] == 'S' && "Paste"@[0] == 'P');
    assert("Send"@.len() == 4 && "Snarf"@.len() == 5);
}

/// End ends the session, whatever is unsaved only with its flag.
pub proof fn law_end_ends_the_session(ctx: ExecCtx, text: Seq<char>, s: Shown)
    requires
        first_word(text) == "End"@,
    ensures
        words_of(text).contains("-f"@) ==> commanded(ctx, text, s) == Commanded::End(true),
        !words_of(text).contains("-f"@) ==> commanded(ctx, text, s) == Commanded::End(false),
{
}

/// Back and Fwd go through a page's history, and Get loads it again; in any
/// other window they run as any command does, and touch no clipboard.
pub proof fn law_a_page_has_its_own_history(w: WindowId, text: Seq<char>, s: Shown)
    ensures
        s.body == Some(Body::Web) && first_word(text) == "Back"@ ==> commanded(ExecCtx::Window(w), text, s)
            == Commanded::Page(w, Nav::Back),
        s.body == Some(Body::Web) && first_word(text) == "Fwd"@ ==> commanded(ExecCtx::Window(w), text, s)
            == Commanded::Page(w, Nav::Fwd),
        s.body == Some(Body::Web) && first_word(text) == "Get"@ ==> commanded(ExecCtx::Window(w), text, s)
            == Commanded::Page(w, Nav::Reload),
        s.body != Some(Body::Web) && (first_word(text) == "Back"@ || first_word(text) == "Fwd"@ || first_word(text)
            == "Get"@) ==> commanded(ExecCtx::Window(w), text, s) == (Commanded::Run {
            from_clipboard: false,
            to_clipboard: false,
        }),
{
    lemma_words();
}

/// Paste takes from the clipboard before it runs, Cut and Snarf put on it
/// after; no other command that runs does either.
pub proof fn law_the_clipboard_goes_with_cut_snarf_and_paste(ctx: ExecCtx, text: Seq<char>, s: Shown)
    requires
        commanded(ctx, text, s) is Run,
    ensures
        commanded(ctx, text, s)->from_clipboard <==> first_word(text) == "Paste"@,
        commanded(ctx, text, s)->to_clipboard <==> first_word(text) == "Cut"@ || first_word(text) == "Snarf"@,
        first_word(text) != "End"@,
{
}

/// In a terminal Snarf copies its selection, and Send types what is selected
/// with a newline at its end, the one it has or one more.
pub proof fn law_a_terminal_copies_and_sends_its_selection(w: WindowId, t: TermId, text: Seq<char>, s: Shown)
    requires
        s.body == Some(Body::Term(t)),
    ensures
        first_word(text) == "Snarf"@ ==> commanded(ExecCtx::Window(w), text, s) == Commanded::TermCopy(w),
        ({
            let sel = s.sel->0;
            let got = grid_text(s.grid@, s.top as int, sel.from, sel.to);
            first_word(text) == "Send"@ && s.sel is Some && sel.window == w && sel.from != sel.to && inked(got)
                ==> commanded(ExecCtx::Window(w), text, s) is Send && commanded(ExecCtx::Window(w), text, s)->term == t
                && commanded(ExecCtx::Window(w), text, s)->text == got && commanded(ExecCtx::Window(w), text, s)->typed
                == if got.last() == '\n' {
                got
            } else {
                got.push('\n')
            }
        }),
        first_word(text) == "Send"@ && (s.sel is None || s.sel->0.window != w || s.sel->0.from == s.sel->0.to)
            ==> commanded(ExecCtx::Window(w), text, s) == (Commanded::Run {
            from_clipboard: false,
            to_clipboard: false,
        }),
        first_word(text) != "Send"@ && first_word(text) != "Snarf"@ && first_word(text) != "End"@ ==> commanded(
            ExecCtx::Window(w),
            text,
            s,
        ) is Run,
{
    lemma_words();
}

/// Where no window is, every command but End runs as any does.
pub proof fn law_out_of_windows_commands_just_run(ctx: ExecCtx, text: Seq<char>, s: Shown)
    requires
        !(ctx is Window),
        first_word(text) != "End"@,
    ensures
        commanded(ctx, text, s) is Run,
{
}

proof fn lemma_edits()
    ensures
        "paste"@ != "copy"@ && "paste"@ != "cut"@ && "paste"@ != "select-all"@ && "paste"@ != "undo"@ && "paste"@
            != "redo"@,
        "copy"@ != "cut"@ && "copy"@ != "select-all"@ && "copy"@ != "undo"@ && "copy"@ != "redo"@,
        "cut"@ != "select-all"@ && "cut"@ != "undo"@ && "cut"@ != "redo"@,
        "select-all"@ != "undo"@ && "select-all"@ != "redo"@ && "undo"@ != "redo"@,
{
    reveal_strlit("paste");
    reveal_strlit("copy");
    reveal_strlit("cut");
    reveal_strlit("select-all");
    reveal_strlit("undo");
    reveal_strlit("redo");
    assert("paste"@.len() == 5 && "copy"@.len() == 4 && "cut"@.len() == 3 && "select-all"@.len() == 10);
    assert("undo"@.len() == 4 && "redo"@.len() == 4);
    assert("copy"@[0] == 'c' && "undo"@[0] == 'u' && "redo"@[0] == 'r');
}

/// The Edit menu does to a text what each of its items is named for.
pub proof fn law_the_edit_menu_does_as_it_says(v: ViewId)
    ensures
        edit_of("undo"@, Some(Target::View(v))) == EditAct::Undo(v),
        edit_of("redo"@, Some(Target::View(v))) == EditAct::Redo(v),
        edit_of("cut"@, Some(Target::View(v))) == EditAct::Cut(v),
        edit_of("copy"@, Some(Target::View(v))) == EditAct::Copy(v),
        edit_of("paste"@, Some(Target::View(v))) == EditAct::Paste(v),
        edit_of("select-all"@, Some(Target::View(v))) == EditAct::SelectAll(v),
        forall|what: Seq<char>| #[trigger] edit_of(what, None) == EditAct::Nothing,
{
    lemma_edits();
}

/// In a terminal it pastes and selects, and copies where it would cut: what a
/// terminal shows cannot be taken out of it, nor undone.
pub proof fn law_a_terminal_is_not_cut_from(w: WindowId, t: TermId)
    ensures
        edit_of("paste"@, Some(Target::Term(w, t))) == EditAct::TermPaste(t),
        edit_of("copy"@, Some(Target::Term(w, t))) == EditAct::TermCopy(w),
        edit_of("cut"@, Some(Target::Term(w, t))) == EditAct::TermCopy(w),
        edit_of("select-all"@, Some(Target::Term(w, t))) == EditAct::TermSelectAll(w),
        edit_of("undo"@, Some(Target::Term(w, t))) == EditAct::Nothing,
        edit_of("redo"@, Some(Target::Term(w, t))) == EditAct::Nothing,
{
    lemma_edits();
}

/// What is under the pointer goes before the text selected last.
pub proof fn law_the_pointer_goes_before_the_last_selection(under: Target, seltext: Option<ViewId>, v: ViewId)
    ensures
        aimed_at(Some(under), seltext) == Some(under),
        aimed_at(None, Some(v)) == Some(Target::View(v)),
        aimed_at(None, None) is None,
{
}

/// Select all in a terminal takes in each of the rows on its screen and all
/// its columns.
pub proof fn law_all_of_the_screen_is_selected(w: WindowId, top: int, cols: int, rows: int)
    requires
        0 <= top && 0 < rows && 0 <= cols <= u16::MAX && top + rows <= u64::MAX,
    ensures
        ({
            let s = whole_screen(w, top, cols, rows);
            s.window == w && s.from.line == top && s.from.col == 0 && s.to.line - s.from.line + 1 == rows && s.to.col
                == cols
        }),
{
}

/// A menu's command acts on the page under the pointer, else on the window
/// there, else on that of the text selected last.
pub proof fn law_a_menus_command_acts_where_the_pointer_is(
    page: Option<WindowId>,
    w: WindowId,
    t: TermId,
    seltext: Option<ViewId>,
    x: WindowId,
)
    ensures
        acted_on(Some(w), None, seltext) == Some(w),
        acted_on(Some(w), Some(Target::Term(x, t)), seltext) == Some(w),
        acted_on(Some(w), Some(Target::View(ViewId::Body(x))), seltext) == Some(w),
        acted_on(None, Some(Target::Term(w, t)), seltext) == Some(w),
        acted_on(None, Some(Target::View(ViewId::Body(w))), seltext) == Some(w),
        acted_on(None, Some(Target::View(ViewId::Tag(w))), seltext) == Some(w),
        acted_on(None, Some(Target::View(ViewId::Top)), Some(ViewId::Body(w))) == Some(w),
        acted_on(None, None, Some(ViewId::Body(w))) == Some(w),
        acted_on(None, None, Some(ViewId::Tag(w))) == Some(w),
        acted_on(None, None, None) is None,
{
}

/// A command is given its argument after one blank, and none where there is
/// none or an empty one.
pub proof fn law_an_argument_follows_a_blank(text: Seq<char>, arg: Seq<char>)
    ensures
        command_with(text, None) == text,
        arg.len() == 0 ==> command_with(text, Some(arg)) == text,
        arg.len() > 0 ==> command_with(text, Some(arg)).len() == text.len() + 1 + arg.len() && command_with(
            text,
            Some(arg),
        ).take(text.len() as int) == text && command_with(text, Some(arg))[text.len() as int] == ' ' && command_with(
            text,
            Some(arg),
        ).skip(text.len() as int + 1) == arg,
{
    let c = command_with(text, Some(arg));
    if arg.len() > 0 {
        assert(c.take(text.len() as int) =~= text);
        assert(c.skip(text.len() as int + 1) =~= arg);
    }
}

/// New, Back and Fwd need no window, with or without what follows New; Get,
/// Put and Del do.
pub proof fn law_what_needs_no_window(text: Seq<char>, rest: Seq<char>)
    ensures
        needs_no_window("New"@) && needs_no_window("Back"@) && needs_no_window("Fwd"@),
        needs_no_window("New "@ + rest),
        text.len() > 0 && text[0] != 'N' && text[0] != 'B' && text[0] != 'F' ==> !needs_no_window(text),
        text.len() == 0 ==> !needs_no_window(text),
{
    reveal_strlit("New");
    reveal_strlit("New ");
    reveal_strlit("Back");
    reveal_strlit("Fwd");
    let t = "New "@ + rest;
    assert(t.subrange(0, 4) =~= "New "@);
    if stands_at(text, 0, "New "@) {
        assert(text.subrange(0, 4)[0] == text[0]);
    }
}

} // verus!
