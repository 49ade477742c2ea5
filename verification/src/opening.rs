//! Opening a window: what it is titled, where it goes, and what it falls
//! back to when its session cannot be attached.

use vstd::prelude::*;
use vstd::string::*;

use crate::link::{second_word, title, titled, via_title};
use crate::session::{SessionUrl, Url};

verus! {

/// Where a window's session lives.
pub enum Target {
    /// The server is in this process; these files are opened.
    Local(Vec<String>),
    /// A session by its URL, and as it is described.
    Url { url: SessionUrl, described: String, files: Vec<String> },
    /// Through a command's stdin and stdout.
    Via { cmd: String, session: String, files: Vec<String> },
    /// A window with the picker open, attached to nothing yet: the URL is
    /// the one that the picker calls current.
    Chooser { url: SessionUrl },
}

/// The title that a window opens with.
pub open spec fn opens_titled(t: Target) -> Seq<char> {
    match t {
        Target::Local(_) => "apex"@,
        Target::Url { described, .. } => titled(described@),
        Target::Via { cmd, session, .. } => session@ + " via "@ + (match second_word(cmd@) {
            Some(w) => w,
            None => cmd@,
        }) + " \u{2014} apex"@,
        Target::Chooser { .. } => "choose a session \u{2014} apex"@,
    }
}

/// The title that a window opens with.
pub fn opening_title(t: &Target) -> (s: String)
    ensures
        s@ == opens_titled(*t),
{
    match t {
        Target::Local(_) => "apex".to_owned(),
        Target::Url { described, .. } => title(described.as_str()),
        Target::Via { cmd, session, .. } => via_title(session.as_str(), cmd.as_str()),
        Target::Chooser { .. } => "choose a session \u{2014} apex".to_owned(),
    }
}

/// How far a window is moved from the middle, both ways, for the windows
/// that are open already.
pub fn cascade(open: u32) -> (d: u64)
    ensures
        d == 24 * open,
{
    24 * open as u64
}

/// What became of an attach.
#[derive(Clone, Copy, Debug, PartialEq, Eq, Structural)]
pub enum Attached {
    Yes,
    No,
}

/// What a window becomes.
#[derive(Clone, Copy, Debug, PartialEq, Eq, Structural)]
pub enum Opening {
    /// It shows its session, or the server in this process.
    Shown,
    /// Its session is not to be had: this machine's default is tried in
    /// its place.
    Fallback,
    /// It shows this machine's default, and says why.
    ShownInstead,
    /// It shows nothing but why, pointed at the session it is for.
    Offline,
    /// It shows nothing but why, pointed at this machine's default.
    OfflineInstead,
    /// It shows the picker.
    Chooser,
    /// The program ends: there is nothing else to show.
    Exit,
}

/// What a window becomes: `first` is what came of attaching to its
/// session, `second` of attaching to the default in its place.
pub open spec fn opened(t: Target, first: Attached, second: Option<Attached>) -> Opening {
    match t {
        Target::Local(_) => Opening::Shown,
        Target::Chooser { .. } => Opening::Chooser,
        Target::Via { .. } => if first == Attached::Yes {
            Opening::Shown
        } else {
            Opening::Exit
        },
        Target::Url { url, .. } => if first == Attached::Yes {
            Opening::Shown
        } else if url@.local() {
            Opening::Offline
        } else {
            match second {
                None => Opening::Fallback,
                Some(Attached::Yes) => Opening::ShownInstead,
                Some(Attached::No) => Opening::OfflineInstead,
            }
        },
    }
}

/// What a window becomes.
pub fn open_window(t: &Target, first: Attached, second: Option<Attached>) -> (o: Opening)
    ensures
        o == opened(*t, first, second),
{
    match t {
        Target::Local(_) => Opening::Shown,
        Target::Chooser { .. } => Opening::Chooser,
        Target::Via { .. } => {
            if first == Attached::Yes {
                Opening::Shown
            } else {
                Opening::Exit
            }
        },
        Target::Url { url, .. } => {
            if first == Attached::Yes {
                Opening::Shown
            } else if url.is_local() {
                Opening::Offline
            } else {
                match second {
                    None => Opening::Fallback,
                    Some(Attached::Yes) => Opening::ShownInstead,
                    Some(Attached::No) => Opening::OfflineInstead,
                }
            }
        },
    }
}

/// What a new window is.
pub enum NewWindow {
    /// The first one: on this machine's default session.
    Default(SessionUrl),
    /// Another one: it asks which session, before it attaches anywhere.
    Chooser(SessionUrl),
}

/// A new window: the first goes to the default; another asks, with the
/// session shown now as the current one.
pub fn new_window(open: usize, current: Option<SessionUrl>) -> (n: NewWindow)
    ensures
        match n {
            NewWindow::Default(u) => open == 0 && current is None && u@ == (Url {
                provider: "local"@,
                arg: Seq::empty(),
                session: "default"@,
                id: None,
            }),
            NewWindow::Chooser(u) => !(open == 0 && current is None) && (match current {
                Some(c) => u@ == c@,
                None => u@ == (Url { provider: "local"@, arg: Seq::empty(), session: "default"@, id: None }),
            }),
        },
{
    match current {
        None => {
            if open == 0 {
                NewWindow::Default(SessionUrl::local("default"))
            } else {
                NewWindow::Chooser(SessionUrl::local("default"))
            }
        },
        Some(c) => NewWindow::Chooser(c),
    }
}

/// A window whose session cannot be attached is never left without
/// anything: it shows the default, or why.  Only one through a command
/// ends the program.
pub proof fn law_a_window_shows_something(t: Target, first: Attached, second: Attached)
    ensures
        opened(t, first, Some(second)) != Opening::Fallback,
        opened(t, first, Some(second)) == Opening::Exit ==> t is Via && first == Attached::No,
{
}

/// A window shows its session where it is attached.  One of this machine that
/// is not stays offline; one of elsewhere tries this machine's default, and
/// shows that, or why neither is to be had.
pub proof fn law_a_session_that_is_not_there_is_replaced(t: Target, second: Option<Attached>)
    ensures
        t is Local ==> opened(t, Attached::Yes, second) == Opening::Shown && opened(t, Attached::No, second)
            == Opening::Shown,
        t is Chooser ==> opened(t, Attached::Yes, second) == Opening::Chooser && opened(t, Attached::No, second)
            == Opening::Chooser,
        t is Via || t is Url ==> opened(t, Attached::Yes, second) == Opening::Shown,
        t is Via ==> opened(t, Attached::No, second) == Opening::Exit,
        t is Url && t->Url_url@.local() ==> opened(t, Attached::No, second) == Opening::Offline,
        t is Url && !t->Url_url@.local() ==> opened(t, Attached::No, None) == Opening::Fallback && opened(
            t,
            Attached::No,
            Some(Attached::Yes),
        ) == Opening::ShownInstead && opened(t, Attached::No, Some(Attached::No)) == Opening::OfflineInstead,
{
}

} // verus!
