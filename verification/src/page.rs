//! Pages: what a web view does, and what it is shown.

use vstd::prelude::*;
use vstd::string::*;

use crate::ids::WindowId;
use crate::lines::{line_number, line_of};
use crate::text::same;

verus! {

/// What a page did.
pub enum WebEvent {
    /// It went to another address.
    Navigated(String),
    /// It has a title.
    Title(String),
    /// It is to be loaded again.
    Reload,
    /// A link in a page of ours was followed.
    Link(String),
    /// A link to a file was followed, with a line or not.
    Open(String, Option<usize>),
    /// It began to load, or was done.
    Loading(bool),
    /// Its pointer changed.
    Cursor(String),
    /// The host's loopback by its bare name: it goes through the proxy.
    Reroute(String),
}

/// What a page's doing leads to.
pub enum WebAct {
    /// The view is told the address that it is at.
    At(String),
    /// The window takes the address for its name.
    Rename(String),
    /// The view loads the address.
    Load(String),
    Reload,
    /// A place is gone to, at a line or where it was.
    Goto(String, Option<usize>),
    Loading(bool),
    Cursor(String),
}

/// A [`WebAct`] as a value.
pub enum Doing {
    At(Seq<char>),
    Rename(Seq<char>),
    Load(Seq<char>),
    Reload,
    Goto(Seq<char>, Option<usize>),
    Loading(bool),
    Cursor(Seq<char>),
}

impl View for WebAct {
    type V = Doing;

    open spec fn view(&self) -> Doing {
        match self {
            WebAct::At(u) => Doing::At(u@),
            WebAct::Rename(u) => Doing::Rename(u@),
            WebAct::Load(u) => Doing::Load(u@),
            WebAct::Reload => Doing::Reload,
            WebAct::Goto(n, l) => Doing::Goto(n@, *l),
            WebAct::Loading(on) => Doing::Loading(*on),
            WebAct::Cursor(c) => Doing::Cursor(c@),
        }
    }
}

/// Acts as values.
pub open spec fn doings(s: Seq<WebAct>) -> Seq<Doing> {
    s.map_values(|a: WebAct| a@)
}

/// A window's name is changed, where it is another.
pub open spec fn renamed(name: Seq<char>, url: Seq<char>) -> Seq<Doing> {
    if name != url {
        seq![Doing::Rename(url)]
    } else {
        Seq::empty()
    }
}

/// What a page's doing leads to, in a window of this name.
pub open spec fn web_done(name: Seq<char>, e: WebEvent) -> Seq<Doing> {
    match e {
        WebEvent::Navigated(u) => seq![Doing::At(u@)] + renamed(name, u@),
        WebEvent::Title(_) => Seq::empty(),
        WebEvent::Reload => seq![Doing::Reload],
        WebEvent::Link(u) => seq![Doing::Goto(u@, None)],
        WebEvent::Open(p, l) => seq![Doing::Goto(p@, l)],
        WebEvent::Loading(on) => seq![Doing::Loading(on)],
        WebEvent::Cursor(c) => seq![Doing::Cursor(c@)],
        WebEvent::Reroute(u) => seq![Doing::Load(u@)] + renamed(name, u@),
    }
}

/// What a page's doing leads to.
pub fn web_event(name: &str, e: WebEvent) -> (acts: Vec<WebAct>)
    ensures
        doings(acts@) == web_done(name@, e),
{
    let mut out: Vec<WebAct> = Vec::new();
    let ghost event = e;
    match e {
        WebEvent::Navigated(u) => {
            let other = !same(name, u.as_str());
            out.push(WebAct::At(u.clone()));
            if other {
                out.push(WebAct::Rename(u));
            }
        },
        WebEvent::Title(_) => {},
        WebEvent::Reload => {
            out.push(WebAct::Reload);
        },
        WebEvent::Link(u) => {
            out.push(WebAct::Goto(u, None));
        },
        WebEvent::Open(p, l) => {
            out.push(WebAct::Goto(p, l));
        },
        WebEvent::Loading(on) => {
            out.push(WebAct::Loading(on));
        },
        WebEvent::Cursor(c) => {
            out.push(WebAct::Cursor(c));
        },
        WebEvent::Reroute(u) => {
            let other = !same(name, u.as_str());
            out.push(WebAct::Load(u.clone()));
            if other {
                out.push(WebAct::Rename(u));
            }
        },
    }
    proof {
        assert(doings(out@) =~= web_done(name@, event));
    }
    out
}

/// What a view is shown.
#[derive(Clone, Copy, Debug, PartialEq, Eq, Structural)]
pub enum Shown {
    /// Nothing: its window has no name yet.
    Nothing,
    /// The page at its window's name.
    Page { visible: bool },
    /// The text of its buffer, as a page.
    Html { visible: bool },
}

/// What a view is shown, where it lands: hidden while an overlay would be
/// under it.
pub fn web_place(name: &str, html: bool, overlay: bool) -> (s: Shown)
    ensures
        s == (if name@.len() == 0 {
            Shown::Nothing
        } else if html {
            Shown::Html { visible: !overlay }
        } else {
            Shown::Page { visible: !overlay }
        }),
{
    if name.unicode_len() == 0 {
        Shown::Nothing
    } else if html {
        Shown::Html { visible: !overlay }
    } else {
        Shown::Page { visible: !overlay }
    }
}

/// Whether an overlay is up that a view would hide.
pub fn overlay_up(menu: bool, finder: bool, selector: bool) -> (r: bool)
    ensures
        r == (menu || finder || selector),
{
    menu || finder || selector
}

/// The line, from one, that dot is on: what a preview of the text
/// follows.
pub fn source_line(t: &[char], dot: usize) -> (n: usize)
    requires
        t@.len() < usize::MAX,
    ensures
        n == line_of(
            t@,
            if dot < t@.len() {
                dot as int
            } else {
                t@.len() as int
            },
        ) + 1,
{
    let q: usize = if dot < t.len() {
        dot
    } else {
        t.len()
    };
    line_number(t, q) + 1
}

/// What is due over the pages at a tick: the pages' events, the keyboard
/// to the one under the pointer, and its pointer.
#[derive(Clone, Copy, Debug, PartialEq, Eq, Structural)]
pub struct Tick {
    pub events: bool,
    pub focus: bool,
    pub cursor: Option<WindowId>,
    /// Something is to be drawn again: a page is loading.
    pub redraw: bool,
}

/// What is due over the pages at a tick: nothing where there is none.
pub fn web_focus_tick(
    pages: bool,
    overlay: bool,
    cursor_changed: bool,
    under: Option<WindowId>,
    loading: bool,
) -> (t: Tick)
    ensures
        t == (if !pages {
            Tick { events: false, focus: false, cursor: None, redraw: false }
        } else {
            Tick {
                events: true,
                focus: !overlay,
                cursor: if cursor_changed {
                    under
                } else {
                    None
                },
                redraw: loading,
            }
        }),
{
    if !pages {
        Tick { events: false, focus: false, cursor: None, redraw: false }
    } else {
        Tick {
            events: true,
            focus: !overlay,
            cursor: if cursor_changed {
                under
            } else {
                None
            },
            redraw: loading,
        }
    }
}

/// A window that went to an address and is told so again is left as it
/// is.
pub proof fn law_a_page_renames_its_window_once(name: Seq<char>, url: Seq<char>)
    ensures
        renamed(url, url).len() == 0,
        renamed(name, url).len() <= 1,
{
}

/// A page that went elsewhere is at its new address, and its window takes that
/// for its name unless it has it; one that is sent through the proxy loads
/// what it is sent to.
pub proof fn law_a_window_is_named_for_its_page(name: Seq<char>, u: String)
    ensures
        web_done(name, WebEvent::Navigated(u))[0] == Doing::At(u@),
        web_done(name, WebEvent::Reroute(u))[0] == Doing::Load(u@),
        name != u@ ==> web_done(name, WebEvent::Navigated(u)).len() == 2 && web_done(name, WebEvent::Navigated(u))[1]
            == Doing::Rename(u@),
        name != u@ ==> web_done(name, WebEvent::Reroute(u)).len() == 2 && web_done(name, WebEvent::Reroute(u))[1]
            == Doing::Rename(u@),
        name == u@ ==> web_done(name, WebEvent::Navigated(u)).len() == 1 && web_done(name, WebEvent::Reroute(u)).len()
            == 1,
{
}

/// A link goes to its place, a file's at its line; a title changes nothing,
/// and a reload, the loading and the pointer are passed on as they are.
pub proof fn law_what_a_page_asks_is_done(name: Seq<char>, s: String, line: Option<usize>, on: bool)
    ensures
        web_done(name, WebEvent::Title(s)).len() == 0,
        web_done(name, WebEvent::Reload) == seq![Doing::Reload],
        web_done(name, WebEvent::Link(s)) == seq![Doing::Goto(s@, None)],
        web_done(name, WebEvent::Open(s, line)) == seq![Doing::Goto(s@, line)],
        web_done(name, WebEvent::Loading(on)) == seq![Doing::Loading(on)],
        web_done(name, WebEvent::Cursor(s)) == seq![Doing::Cursor(s@)],
{
}

} // verus!
