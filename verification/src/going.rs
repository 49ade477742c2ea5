//! Going from one session to another, and to a place in one: what each
//! way of asking comes to.

use vstd::prelude::*;
use vstd::string::*;

use crate::ids::WindowId;
use crate::recall::{had_all, sessions_at, sessions_of, Known};
use crate::session::{infos, maybe, urls, Host, Info, Place, SessionInfo, SessionUrl, Url};
use crate::text::{chars_of, has_at, same, slice_of, stands_at, string_of};

verus! {

/// The tab that a number's key goes to, where there is one, and it is
/// not the one shown: the first for none.
pub open spec fn tab_number(tabs: Seq<Url>, here: Url, n: int) -> Option<Url> {
    let i = if n > 0 {
        n - 1
    } else {
        0
    };
    if i < tabs.len() && !tabs[i].is(here) {
        Some(tabs[i])
    } else {
        None
    }
}

/// The nth tab: where to go, if anywhere.
pub fn go_to_tab(tabs: &Vec<SessionUrl>, here: &SessionUrl, n: usize) -> (u: Option<SessionUrl>)
    ensures
        (match u {
            Some(u) => Some(u@),
            None => None,
        }) == tab_number(urls(tabs@), here@, n as int),
{
    let i: usize = if n > 0 {
        n - 1
    } else {
        0
    };
    if i < tabs.len() {
        proof {
            assert(urls(tabs@)[i as int] == tabs@[i as int]@);
        }
        if !tabs[i].is(here) {
            return Some(tabs[i].copy());
        }
    }
    None
}

/// A session as it was named: by identity, by the start of one, or by
/// label.
pub open spec fn answers_to(i: Info, name: Seq<char>) -> bool {
    i.id == name || stands_at(i.id, 0, name) || i.label == name
}

/// The first session from `i` on that answers to a name; the end where
/// none does.
pub open spec fn called(s: Seq<Info>, name: Seq<char>, i: int) -> int
    decreases s.len() - i,
{
    if 0 <= i < s.len() && !answers_to(s[i], name) {
        called(s, name, i + 1)
    } else {
        i
    }
}

/// The first few characters of an identity: what stands for a label that
/// is not known.
pub open spec fn stub(id: Seq<char>) -> Seq<char> {
    if id.len() > 8 {
        id.take(8)
    } else {
        id
    }
}

/// Where a session named in a place is: on this host, as it is known
/// there; else of that label, where the name is one; else of that
/// identity, under a stub that the attach corrects.
pub open spec fn place_named(here: Place, known: Seq<Info>, name: Seq<char>, is_label: bool) -> Url {
    let i = called(known, name, 0);
    if i < known.len() {
        here.url_of(known[i])
    } else if is_label {
        here.url(name)
    } else {
        Url { id: Some(name), ..here.url(stub(name)) }
    }
}

fn find_called(s: &Vec<SessionInfo>, name: &str) -> (i: usize)
    ensures
        i == called(infos(s@), name@, 0),
        i <= s@.len(),
{
    let mut i: usize = 0;
    while i < s.len()
        invariant
            i <= s@.len(),
            called(infos(s@), name@, i as int) == called(infos(s@), name@, 0),
        decreases s@.len() - i,
    {
        proof {
            assert(infos(s@)[i as int] == s@[i as int]@);
        }
        let id: Vec<char> = chars_of(s[i].id.as_str());
        if same(s[i].id.as_str(), name) || has_at(id.as_slice(), 0, name) || same(s[i].label.as_str(), name) {
            return i;
        }
        i = i + 1;
    }
    i
}

/// A place in another session was named: where that session is.
pub fn switch_for(url: &SessionUrl, known: &Vec<Known>, name: &str, is_label: bool) -> (u: SessionUrl)
    ensures
        u@ == place_named(
            Place::of(url@),
            sessions_at(had_all(known@), Place::of(url@), known@.len() as int),
            name@,
            is_label,
        ),
{
    let here = Host::of(url);
    let s: Vec<SessionInfo> = sessions_of(known, &here);
    let i: usize = find_called(&s, name);
    let ghost all = infos(s@);
    proof {
        assert(all.len() == s@.len());
    }
    if i < s.len() {
        proof {
            assert(all[i as int] == s@[i as int]@);
        }
        return here.url_of(&s[i]);
    }
    if is_label {
        return here.url(name);
    }
    let c: Vec<char> = chars_of(name);
    let n: usize = if c.len() > 8 {
        8
    } else {
        c.len()
    };
    let short: Vec<char> = slice_of(c.as_slice(), 0, n);
    proof {
        assert(short@ =~= stub(name@));
    }
    let label: String = string_of(short.as_slice());
    here.url(label.as_str()).with_id(name)
}

/// What a switch to a session comes to, once the one shown is parked.
#[derive(Clone, Copy, Debug, PartialEq, Eq, Structural)]
pub enum Switching {
    /// Parked: back at once.
    Adopt,
    /// On this machine: attached now.
    Reattach,
    /// Elsewhere: attached on a thread, the window saying so meanwhile.
    Attach,
    /// There is nothing to wake the window when it comes.
    Nothing,
}

/// How a session is shown in a window that another was shown in.
pub fn switch_to(parked: bool, local: bool, has_wake: bool) -> (s: Switching)
    ensures
        s == (if parked {
            Switching::Adopt
        } else if local {
            Switching::Reattach
        } else if has_wake {
            Switching::Attach
        } else {
            Switching::Nothing
        }),
{
    if parked {
        Switching::Adopt
    } else if local {
        Switching::Reattach
    } else if has_wake {
        Switching::Attach
    } else {
        Switching::Nothing
    }
}

/// What the window says while it is attached elsewhere.
pub fn attaching(described: &str) -> (m: String)
    ensures
        m@ == described@ + ": attaching\u{2026}\n"@,
{
    let mut m: String = described.to_owned();
    m.append(": attaching\u{2026}\n");
    m
}

/// What comes of an attach made on a thread.
#[derive(Clone, Copy, Debug, PartialEq, Eq, Structural)]
pub enum Attached {
    /// The window still waits for it.
    Adopt,
    /// The window moved on meanwhile: it is kept, parked.
    Park,
    /// It failed, and the window still waits: it says why.
    Tell,
    Nothing,
}

/// An attach made on a thread has come back to a window that shows
/// `here` now.
pub fn attach_landed(here: &SessionUrl, connected: bool, asked: &SessionUrl, ok: bool) -> (a: Attached)
    ensures
        a == (if ok {
            if here@.is(asked@) && !connected {
                Attached::Adopt
            } else {
                Attached::Park
            }
        } else if here@.is(asked@) {
            Attached::Tell
        } else {
            Attached::Nothing
        }),
{
    let same_one = here.is(asked);
    if ok {
        if same_one && !connected {
            Attached::Adopt
        } else {
            Attached::Park
        }
    } else if same_one {
        Attached::Tell
    } else {
        Attached::Nothing
    }
}

/// What ending the window's session came to.
#[derive(Clone, Copy, Debug, PartialEq, Eq, Structural)]
pub enum EndedHere {
    /// It ended: the window closes, with nothing to park.
    Close,
    /// The window has moved on since.
    Nothing,
    /// Refused, which is said.
    Tell,
}

/// The session that a window asked to end has ended, or not.
pub fn end_session(here: &SessionUrl, asked: &SessionUrl, ok: bool) -> (e: EndedHere)
    ensures
        e == (if !ok {
            EndedHere::Tell
        } else if here@.is(asked@) {
            EndedHere::Close
        } else {
            EndedHere::Nothing
        }),
{
    if !ok {
        EndedHere::Tell
    } else if here.is(asked) {
        EndedHere::Close
    } else {
        EndedHere::Nothing
    }
}

/// The line that says why a session did not end.
pub fn end_refused(why: &str) -> (m: String)
    ensures
        m@ == "End: "@ + why@ + "\n"@,
{
    let mut m: String = "End: ".to_owned();
    m.append(why);
    m.append("\n");
    m
}

/// The command that ends a session on its host, or renames it there.
pub fn remote_command(bin: &str, verb: &str, force: bool, session: &str, to: Option<&str>) -> (c: String)
    ensures
        c@ == bin@ + " "@ + verb@ + (if force {
            " -f"@
        } else {
            Seq::empty()
        }) + " "@ + session@ + (match to {
            Some(t) => " "@ + t@,
            None => Seq::empty(),
        }),
{
    let mut c: String = bin.to_owned();
    c.append(" ");
    c.append(verb);
    if force {
        c.append(" -f");
    }
    c.append(" ");
    c.append(session);
    let ghost so_far = c@;
    if let Some(t) = to {
        c.append(" ");
        c.append(t);
        proof {
            assert(c@ =~= so_far + (" "@ + t@));
        }
    }
    proof {
        let f = if force {
            " -f"@
        } else {
            Seq::empty()
        };
        assert(so_far =~= bin@ + " "@ + verb@ + f + " "@ + session@);
        if to is None {
            assert(c@ =~= so_far + Seq::empty());
        }
    }
    c
}

/// What going to a place comes to.
#[derive(Clone, Copy, Debug, PartialEq, Eq, Structural)]
pub enum Goto {
    /// It is in another session: the window moves there first.
    Switch,
    /// Its window is open, and shown.
    Show(WindowId),
    /// It is a page: a window on it, here and now.
    OpenPage,
    /// Its file is opened, and the place is gone to once it is.
    OpenFile,
    /// There is no column to open it in.
    Nothing,
}

/// A place to go to.
pub fn goto(elsewhere: bool, open: Option<WindowId>, has_column: bool, is_url: bool) -> (g: Goto)
    ensures
        g == (if elsewhere {
            Goto::Switch
        } else if open is Some {
            Goto::Show(open->0)
        } else if !has_column {
            Goto::Nothing
        } else if is_url {
            Goto::OpenPage
        } else {
            Goto::OpenFile
        }),
{
    if elsewhere {
        return Goto::Switch;
    }
    match open {
        Some(w) => Goto::Show(w),
        None => {
            if !has_column {
                Goto::Nothing
            } else if is_url {
                Goto::OpenPage
            } else {
                Goto::OpenFile
            }
        },
    }
}

/// The files a window opens when it is first shown: those it was given;
/// in a session with no windows and with nothing given, the directory.
pub fn open_initial(files: Vec<String>, no_windows: bool) -> (r: Vec<String>)
    ensures
        files@.len() == 0 && no_windows ==> r@.len() == 1 && r@[0]@ == "."@,
        !(files@.len() == 0 && no_windows) ==> r@ == files@,
{
    if files.len() == 0 && no_windows {
        let mut r: Vec<String> = Vec::new();
        r.push(".".to_owned());
        r
    } else {
        files
    }
}

/// A window's session takes a new name: there is one, and it is another.
pub fn renames(session: &str, to: &str) -> (r: bool)
    ensures
        r == (to@.len() > 0 && to@ != session@),
{
    !to.is_empty() && !same(to, session)
}

/// The text that the clipboard gets: the last of those that programs set;
/// and, once what was asked of a terminal has come, the snarf buffer.
pub struct Snarf {
    pub set: Option<String>,
    pub came: bool,
}

/// A terminal copy may be waiting for the server's text, with the snarf
/// buffer as it was when it was asked for: once the buffer changes, the
/// clipboard gets it too.
pub fn settle_snarf(clips: &Vec<String>, wanted: Option<&str>, snarf: &str) -> (r: Snarf)
    ensures
        maybe(r.set) == (if clips@.len() > 0 {
            Some(clips@.last()@)
        } else {
            None
        }),
        r.came == (wanted is Some && wanted->0@ != snarf@),
{
    let set: Option<String> = if clips.len() > 0 {
        Some(clips[clips.len() - 1].clone())
    } else {
        None
    };
    let came = match wanted {
        Some(w) => !same(w, snarf),
        None => false,
    };
    Snarf { set, came }
}

/// The source that a preview is of, by its window's name: the name
/// without `+Preview` at its end.
pub open spec fn source_of(name: Seq<char>) -> Option<Seq<char>> {
    let n = name.len() - "+Preview"@.len();
    if n >= 0 && stands_at(name, n, "+Preview"@) {
        Some(name.take(n))
    } else {
        None
    }
}

/// The source that a preview is of.
pub fn preview_source(name: &str) -> (r: Option<String>)
    ensures
        maybe(r) == source_of(name@),
{
    let c: Vec<char> = chars_of(name);
    let suffix: usize = "+Preview".unicode_len();
    if c.len() < suffix {
        return None;
    }
    let n: usize = c.len() - suffix;
    if has_at(c.as_slice(), n, "+Preview") {
        let s: Vec<char> = slice_of(c.as_slice(), 0, n);
        proof {
            assert(s@ =~= name@.take(n as int));
        }
        Some(string_of(s.as_slice()))
    } else {
        None
    }
}

/// A tab is gone to by its number from one on, and not where it is the one
/// that is here.
pub proof fn law_tabs_are_counted_from_one(tabs: Seq<Url>, here: Url, n: int)
    requires
        1 <= n,
    ensures
        n <= tabs.len() && !tabs[n - 1].is(here) ==> tab_number(tabs, here, n) == Some(tabs[n - 1]),
        n <= tabs.len() && tabs[n - 1].is(here) ==> tab_number(tabs, here, n) is None,
        n > tabs.len() ==> tab_number(tabs, here, n) is None,
        tab_number(tabs, here, 0) == tab_number(tabs, here, 1),
{
}

proof fn lemma_called(s: Seq<Info>, name: Seq<char>, i: int)
    requires
        0 <= i <= s.len(),
    ensures
        i <= called(s, name, i) <= s.len(),
        forall|j: int| i <= j < called(s, name, i) ==> !answers_to(#[trigger] s[j], name),
        called(s, name, i) < s.len() ==> answers_to(s[called(s, name, i)], name),
    decreases s.len() - i,
{
    if i < s.len() && !answers_to(s[i], name) {
        lemma_called(s, name, i + 1);
    }
}

/// A session answers to its id, to the start of it, and to its label.
pub proof fn law_a_session_answers_to_its_id_and_label(i: Info, n: int)
    requires
        0 <= n <= i.id.len(),
    ensures
        answers_to(i, i.id),
        answers_to(i, i.id.take(n)),
        answers_to(i, i.label),
{
    assert(i.id.subrange(0, n) =~= i.id.take(n));
}

/// A name is that of the first session that answers to it, on the host that
/// is here; one that none answers to is a new label there, or an id, by whose
/// first eight characters the session goes until it is known.
pub proof fn law_a_name_is_of_the_first_that_answers(here: Place, known: Seq<Info>, name: Seq<char>, is_label: bool, i: int)
    ensures
        0 <= i < known.len() && answers_to(known[i], name) && (forall|j: int|
            0 <= j < i ==> !answers_to(#[trigger] known[j], name)) ==> place_named(here, known, name, is_label) == (Url {
            provider: here.provider,
            arg: here.arg,
            session: known[i].label,
            id: Some(known[i].id),
        }),
        (forall|j: int| 0 <= j < known.len() ==> !answers_to(#[trigger] known[j], name)) ==> ({
            let u = place_named(here, known, name, is_label);
            &&& u.provider == here.provider && u.arg == here.arg
            &&& is_label ==> u.session == name && u.id is None
            &&& !is_label ==> u.id == Some(name) && u.session.len() <= 8 && u.session == name.take(
                u.session.len() as int,
            ) && (u.session.len() < 8 ==> u.session == name)
        }),
{
    lemma_called(known, name, 0);
    let k = called(known, name, 0);
    if 0 <= i < known.len() && answers_to(known[i], name) && (forall|j: int|
        0 <= j < i ==> !answers_to(#[trigger] known[j], name)) {
        if k < i {
            assert(answers_to(known[k], name));
        }
        if i < k {
            assert(!answers_to(known[i], name));
        }
    }
    assert(name.take(name.len() as int) =~= name);
}

/// A preview is of what its name says before its ending, and nothing else is
/// one.
pub proof fn law_a_preview_is_named_for_its_source(name: Seq<char>, source: Seq<char>)
    ensures
        source_of(name) == Some(source) <==> name == source + "+Preview"@,
{
    let tail = "+Preview"@;
    let n = name.len() - tail.len();
    if source_of(name) == Some(source) {
        assert(name =~= source + name.subrange(n, n + tail.len()));
    }
    if name == source + tail {
        assert(name.subrange(n, n + tail.len()) =~= tail);
        assert(name.take(n) =~= source);
    }
}

} // verus!
