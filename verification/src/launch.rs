//! What the app does when it starts: what its arguments say, which
//! session it opens, and what it remembers of its windows.

use vstd::prelude::*;
use vstd::string::*;

use crate::selector::strs;
use crate::session::{maybe, SessionInfo, SessionUrl, Url};
use crate::tabbed::{fields, fields_of, law_fields_are_read_back, tabbed};
use crate::text::{chars_of, find, find_char, has_at, lines, lines_of, same, slice_of, stands_at, string_of, trim, trimmed, views};

verus! {

/// The daemon's socket, as the arguments have it.
pub enum Socket {
    /// Nothing is said of it.
    Unsaid,
    /// The usual one.
    Usual,
    /// This one.
    At(String),
}

/// What the arguments say.
pub struct Args {
    pub local: bool,
    pub socket: Socket,
    pub via: Option<String>,
    pub remote: Option<String>,
    pub url: Option<String>,
    pub session: Option<String>,
    pub files: Vec<String>,
}

/// A [`Socket`] as a value.
pub enum SocketSaid {
    Unsaid,
    Usual,
    At(Seq<char>),
}

/// What the arguments say, as a value.
#[verifier::ext_equal]
pub struct Said {
    pub local: bool,
    pub socket: SocketSaid,
    pub via: Option<Seq<char>>,
    pub remote: Option<Seq<char>>,
    pub url: Option<Seq<char>>,
    pub session: Option<Seq<char>>,
    pub files: Seq<Seq<char>>,
}

impl View for Args {
    type V = Said;

    open spec fn view(&self) -> Said {
        Said {
            local: self.local,
            socket: match self.socket {
                Socket::Unsaid => SocketSaid::Unsaid,
                Socket::Usual => SocketSaid::Usual,
                Socket::At(p) => SocketSaid::At(p@),
            },
            via: maybe(self.via),
            remote: maybe(self.remote),
            url: maybe(self.url),
            session: maybe(self.session),
            files: strs(self.files@),
        }
    }
}

/// Nothing said.
pub open spec fn unsaid() -> Said {
    Said {
        local: false,
        socket: SocketSaid::Unsaid,
        via: None,
        remote: None,
        url: None,
        session: None,
        files: Seq::empty(),
    }
}

/// A path that is a socket's.
pub open spec fn is_socket(p: Seq<char>) -> bool {
    p.len() >= ".sock"@.len() && stands_at(p, p.len() - ".sock"@.len(), ".sock"@)
}

/// What an option that takes a value is called with, said of one that
/// has none.
pub open spec fn wanted(option: Seq<char>) -> Option<Seq<char>> {
    if option == "--via"@ {
        Some("--via CMD"@)
    } else if option == "--remote"@ || option == "--ssh"@ {
        Some("--remote DESTINATION"@)
    } else if option == "--url"@ {
        Some("--url URL"@)
    } else if option == "--session"@ {
        Some("--session NAME"@)
    } else {
        None
    }
}

/// What is said once an option that takes a value has had it.
pub open spec fn with_value(s: Said, option: Seq<char>, v: Seq<char>) -> Said {
    if option == "--via"@ {
        Said { via: Some(v), ..s }
    } else if option == "--remote"@ || option == "--ssh"@ {
        Said { remote: Some(v), ..s }
    } else if option == "--url"@ {
        Said { url: Some(v), ..s }
    } else {
        Said { session: Some(v), ..s }
    }
}

/// What the arguments from `i` on say, after `s` was said; or what an
/// option is called with that has no value.
pub open spec fn said_from(a: Seq<Seq<char>>, i: int, s: Said) -> Result<Said, Seq<char>>
    decreases a.len() - i,
{
    if !(0 <= i < a.len()) {
        Ok(s)
    } else if a[i] == "--local"@ {
        said_from(a, i + 1, Said { local: true, ..s })
    } else if a[i] == "--attach"@ {
        if i + 1 < a.len() && is_socket(a[i + 1]) {
            said_from(a, i + 2, Said { socket: SocketSaid::At(a[i + 1]), ..s })
        } else {
            said_from(a, i + 1, Said { socket: SocketSaid::Usual, ..s })
        }
    } else if wanted(a[i]) is Some {
        if i + 1 < a.len() {
            said_from(a, i + 2, with_value(s, a[i], a[i + 1]))
        } else {
            Err(wanted(a[i])->0)
        }
    } else if stands_at(a[i], 0, "-psn_"@) {
        said_from(a, i + 1, s)
    } else {
        said_from(a, i + 1, Said { files: s.files.push(a[i]), ..s })
    }
}

fn wants(option: &str) -> (w: Option<&'static str>)
    ensures
        match w {
            Some(w) => wanted(option@) == Some(w@),
            None => wanted(option@) is None,
        },
{
    if same(option, "--via") {
        Some("--via CMD")
    } else if same(option, "--remote") || same(option, "--ssh") {
        Some("--remote DESTINATION")
    } else if same(option, "--url") {
        Some("--url URL")
    } else if same(option, "--session") {
        Some("--session NAME")
    } else {
        None
    }
}

fn names_socket(p: &str) -> (r: bool)
    ensures
        r == is_socket(p@),
{
    let c: Vec<char> = chars_of(p);
    let n: usize = ".sock".unicode_len();
    c.len() >= n && has_at(c.as_slice(), c.len() - n, ".sock")
}

impl Args {
    fn take(&mut self, option: &str, v: &str)
        requires
            wanted(option@) is Some,
        ensures
            final(self)@ == with_value(old(self)@, option@, v@),
    {
        if same(option, "--via") {
            self.via = Some(v.to_owned());
        } else if same(option, "--remote") || same(option, "--ssh") {
            self.remote = Some(v.to_owned());
        } else if same(option, "--url") {
            self.url = Some(v.to_owned());
        } else {
            self.session = Some(v.to_owned());
        }
    }

    /// What the arguments say; or what an option that has no value is
    /// called with.
    pub fn parse(a: &Vec<String>) -> (r: Result<Args, &'static str>)
        ensures
            match r {
                Ok(s) => said_from(strs(a@), 0, unsaid()) == Ok::<Said, Seq<char>>(s@),
                Err(e) => said_from(strs(a@), 0, unsaid()) == Err::<Said, Seq<char>>(e@),
            },
    {
        let ghost all = strs(a@);
        let mut s = Args {
            local: false,
            socket: Socket::Unsaid,
            via: None,
            remote: None,
            url: None,
            session: None,
            files: Vec::new(),
        };
        proof {
            assert(s@ =~= unsaid());
        }
        let mut i: usize = 0;
        while i < a.len()
            invariant
                i <= a@.len(),
                all == strs(a@),
                said_from(all, i as int, s@) == said_from(all, 0, unsaid()),
            decreases a@.len() - i,
        {
            let ghost was = s@;
            proof {
                assert(all[i as int] == a@[i as int]@);
                if i + 1 < a@.len() {
                    assert(all[i + 1] == a@[i + 1]@);
                }
            }
            let c: Vec<char> = chars_of(a[i].as_str());
            if same(a[i].as_str(), "--local") {
                s.local = true;
                proof {
                    assert(s@ =~= (Said { local: true, ..was }));
                }
                i = i + 1;
            } else if same(a[i].as_str(), "--attach") {
                if i + 1 < a.len() && names_socket(a[i + 1].as_str()) {
                    s.socket = Socket::At(a[i + 1].clone());
                    proof {
                        assert(s@ =~= (Said { socket: SocketSaid::At(all[i + 1]), ..was }));
                    }
                    i = i + 2;
                } else {
                    s.socket = Socket::Usual;
                    proof {
                        assert(s@ =~= (Said { socket: SocketSaid::Usual, ..was }));
                    }
                    i = i + 1;
                }
            } else if let Some(w) = wants(a[i].as_str()) {
                if i + 1 < a.len() {
                    s.take(a[i].as_str(), a[i + 1].as_str());
                    i = i + 2;
                } else {
                    return Err(w);
                }
            } else if has_at(c.as_slice(), 0, "-psn_") {
                i = i + 1;
            } else {
                let ghost before = s.files@;
                s.files.push(a[i].clone());
                proof {
                    assert(strs(s.files@) =~= strs(before).push(all[i as int]));
                    assert(s@ =~= (Said { files: was.files.push(all[i as int]), ..was }));
                }
                i = i + 1;
            }
        }
        Ok(s)
    }
}

/// What is opened at the start.
#[derive(Clone, Copy, Debug, PartialEq, Eq, Structural)]
pub enum Opens {
    /// A session in this process.
    Local,
    /// A session through a command.
    Via,
    /// The session of a URL, which may be no good.
    Url,
    /// A session at a destination.
    Remote,
    /// The session named, on this machine.
    Named,
    /// What was open last time, or what there is.
    Plan,
}

impl Args {
    /// What is opened: the first of these that is asked for.
    pub fn opens(&self) -> (o: Opens)
        ensures
            o == (if self@.local {
                Opens::Local
            } else if self@.via is Some {
                Opens::Via
            } else if self@.url is Some {
                Opens::Url
            } else if self@.remote is Some {
                Opens::Remote
            } else if self@.session is Some {
                Opens::Named
            } else {
                Opens::Plan
            }),
    {
        if self.local {
            Opens::Local
        } else if self.via.is_some() {
            Opens::Via
        } else if self.url.is_some() {
            Opens::Url
        } else if self.remote.is_some() {
            Opens::Remote
        } else if self.session.is_some() {
            Opens::Named
        } else {
            Opens::Plan
        }
    }
}

/// Which session to open when none is named.
pub enum Plan {
    /// The window remembered, by its place in the list.
    Again(usize),
    /// The first session there is, on this machine.
    First(SessionUrl),
    /// A new one.
    New,
}

/// The first of the windows remembered, from `i` on, whose session can be
/// made out; the end where none can.
pub open spec fn made_out(good: Seq<bool>, i: int) -> int
    decreases good.len() - i,
{
    if 0 <= i < good.len() && !good[i] {
        made_out(good, i + 1)
    } else {
        i
    }
}

/// The window to open at launch: the one remembered, as far as its
/// session can be made out; else the first existing session here; else a
/// new one.
pub fn plan(good: &Vec<bool>, existing: &Vec<SessionInfo>) -> (p: Plan)
    ensures
        ({
            let i = made_out(good@, 0);
            match p {
                Plan::Again(k) => k == i && i < good@.len(),
                Plan::First(u) => i >= good@.len() && existing@.len() > 0 && u@ == (Url {
                    provider: "local"@,
                    arg: Seq::empty(),
                    session: existing@[0]@.label,
                    id: Some(existing@[0]@.id),
                }),
                Plan::New => i >= good@.len() && existing@.len() == 0,
            }
        }),
{
    let mut i: usize = 0;
    while i < good.len()
        invariant
            i <= good@.len(),
            made_out(good@, i as int) == made_out(good@, 0),
        decreases good@.len() - i,
    {
        if good[i] {
            return Plan::Again(i);
        }
        i = i + 1;
    }
    if existing.len() > 0 {
        Plan::First(SessionUrl::local(existing[0].label.as_str()).with_id(existing[0].id.as_str()))
    } else {
        Plan::New
    }
}

/// A window as remembered: its session's URL, its frame as it is written
/// (x, y, width, height), and whether it filled the screen.
pub struct Remembered {
    pub url: String,
    pub frame: Vec<String>,
    pub fullscreen: bool,
}

/// A [`Remembered`] as a value.
#[verifier::ext_equal]
pub struct Recalled {
    pub url: Seq<char>,
    pub frame: Seq<Seq<char>>,
    pub fullscreen: bool,
}

impl View for Remembered {
    type V = Recalled;

    open spec fn view(&self) -> Recalled {
        Recalled { url: self.url@, frame: strs(self.frame@), fullscreen: self.fullscreen }
    }
}

/// Windows remembered, as values.
pub open spec fn recalled(s: Seq<Remembered>) -> Seq<Recalled> {
    s.map_values(|r: Remembered| r@)
}

/// A window as a line says it: the URL, up to four numbers, and whether
/// it is full.
pub open spec fn recalled_at(line: Seq<char>) -> Recalled {
    let f = fields_of(line);
    let rest = f.skip(1);
    Recalled {
        url: f[0],
        frame: if rest.len() > 4 {
            rest.take(4)
        } else {
            rest
        },
        fullscreen: rest.len() > 4 && rest[4] == "full"@,
    }
}

/// The windows that the first `n` lines say; a line of nothing but white
/// space says none.
pub open spec fn recalled_in(l: Seq<Seq<char>>, n: int) -> Seq<Recalled>
    decreases n,
{
    if n <= 0 || n > l.len() {
        Seq::empty()
    } else if trimmed(l[n - 1]).len() == 0 {
        recalled_in(l, n - 1)
    } else {
        recalled_in(l, n - 1).push(recalled_at(trimmed(l[n - 1])))
    }
}

fn read_line(line: &[char]) -> (r: Remembered)
    ensures
        r@ == recalled_at(line@),
{
    let f: Vec<Vec<char>> = fields(line);
    let ghost all = fields_of(line@);
    proof {
        assert(views(f@).len() == f@.len());
        assert(all.len() > 0);
        assert(views(f@)[0] == f@[0]@);
    }
    let url: String = string_of(f[0].as_slice());
    let mut frame: Vec<String> = Vec::new();
    let mut i: usize = 1;
    proof {
        assert(strs(frame@) =~= all.subrange(1, 1));
    }
    while i < f.len() && i < 5
        invariant
            1 <= i <= f@.len(),
            i <= 5,
            views(f@) == all,
            strs(frame@) == all.subrange(1, i as int),
        decreases f@.len() - i,
    {
        let ghost before = frame@;
        let s: String = string_of(f[i].as_slice());
        frame.push(s);
        i = i + 1;
        proof {
            assert(views(f@)[i - 1] == f@[i - 1]@);
            assert(strs(frame@) =~= strs(before).push(s@));
            assert(strs(frame@) =~= all.subrange(1, i as int));
        }
    }
    let full: Vec<char> = chars_of("full");
    let fullscreen = f.len() > 5 && crate::text::same_chars(f[5].as_slice(), full.as_slice());
    proof {
        let rest = all.skip(1);
        if f@.len() > 5 {
            assert(views(f@)[5] == f@[5]@);
            assert(rest[4] == all[5]);
            assert(all.subrange(1, 5) =~= rest.take(4));
        } else if f@.len() == 5 {
            assert(all.subrange(1, 5) =~= rest);
        } else {
            assert(all.subrange(1, i as int) =~= rest);
        }
    }
    Remembered { url, frame, fullscreen }
}

/// The windows open when the app last ran: one line each, the session's
/// URL and (tab-separated) the frame's numbers, as they are written.
pub fn remembered(text: &str) -> (r: Vec<Remembered>)
    ensures
        recalled(r@) == recalled_in(lines_of(text@), lines_of(text@).len() as int),
{
    let all: Vec<char> = chars_of(text);
    let l: Vec<Vec<char>> = lines(all.as_slice());
    let mut out: Vec<Remembered> = Vec::new();
    let mut i: usize = 0;
    proof {
        assert(recalled(out@) =~= Seq::<Recalled>::empty());
    }
    while i < l.len()
        invariant
            i <= l@.len(),
            views(l@) == lines_of(text@),
            recalled(out@) == recalled_in(views(l@), i as int),
        decreases l@.len() - i,
    {
        let t: Vec<char> = trim(l[i].as_slice());
        proof {
            assert(views(l@)[i as int] == l@[i as int]@);
        }
        if t.len() > 0 {
            let ghost before = out@;
            let r = read_line(t.as_slice());
            out.push(r);
            proof {
                assert(recalled(out@) =~= recalled(before).push(r@));
            }
        }
        i = i + 1;
    }
    out
}

/// A window's line.
pub open spec fn window_line(r: Recalled) -> Seq<char> {
    if r.frame.len() == 4 {
        tabbed(
            if r.fullscreen {
                seq![r.url] + r.frame + seq!["full"@]
            } else {
                seq![r.url] + r.frame
            },
        )
    } else {
        r.url
    }
}

/// A window's line: its session, and where it was on screen, when that
/// is known.
pub fn remember(r: &Remembered) -> (l: String)
    ensures
        l@ == window_line(r@),
{
    let mut l: String = r.url.clone();
    if r.frame.len() == 4 {
        let ghost f = strs(r.frame@);
        proof {
            assert(f[0] == r.frame@[0]@ && f[1] == r.frame@[1]@ && f[2] == r.frame@[2]@ && f[3] == r.frame@[3]@);
        }
        l.push('\t');
        l.append(r.frame[0].as_str());
        l.push('\t');
        l.append(r.frame[1].as_str());
        l.push('\t');
        l.append(r.frame[2].as_str());
        l.push('\t');
        l.append(r.frame[3].as_str());
        if r.fullscreen {
            l.push('\t');
            l.append("full");
        }
        proof {
            let t = if r.fullscreen {
                seq![r@.url] + f + seq!["full"@]
            } else {
                seq![r@.url] + f
            };
            reveal_with_fuel(crate::tabbed::tabbed_from, 7);
            assert(t[0] == r@.url && t[1] == f[0] && t[2] == f[1] && t[3] == f[2] && t[4] == f[3]);
            assert(l@ =~= tabbed(t));
        }
    }
    l
}

/// A window is read back from its line, when its fields hold no tabs.
pub proof fn law_a_window_is_read_back(r: Recalled)
    requires
        r.frame.len() == 4,
        !r.url.contains('\t'),
        forall|i: int| 0 <= i < 4 ==> !(#[trigger] r.frame[i]).contains('\t'),
    ensures
        recalled_at(window_line(r)) == r,
{
    let f = if r.fullscreen {
        seq![r.url] + r.frame + seq!["full"@]
    } else {
        seq![r.url] + r.frame
    };
    reveal_strlit("full");
    assert forall|i: int| 0 <= i < f.len() implies !(#[trigger] f[i]).contains('\t') by {
        if 0 < i <= 4 {
            assert(f[i] == r.frame[i - 1]);
        }
    }
    law_fields_are_read_back(f);
    let rest = f.skip(1);
    if r.fullscreen {
        assert(rest.take(4) =~= r.frame);
        assert(rest[4] == "full"@);
    } else {
        assert(rest =~= r.frame);
    }
    assert(recalled_at(window_line(r)) =~= r);
}

/// A window is remembered when its session can be switched from it, and
/// it is not attached through a command.
pub fn is_remembered(has_socket: bool, provider: &str) -> (r: bool)
    ensures
        r == (has_socket && provider@ != "via"@),
{
    has_socket && !same(provider, "via")
}

/// A variable of the environment that is this process's own to have.
pub open spec fn keeps_own(k: Seq<char>) -> bool {
    k.len() == 0 || k == "_"@ || k == "SHLVL"@ || k == "PWD"@ || k == "OLDPWD"@ || k == "TERM"@ || k
        == "TERM_PROGRAM"@ || k == "TERM_SESSION_ID"@
}

/// What an entry of the login shell's environment says: a variable and
/// its value, that is to be adopted.
pub open spec fn adopted(entry: Seq<char>) -> Option<(Seq<char>, Seq<char>)> {
    let e = find(entry, '=', 0);
    if 0 <= e < entry.len() && !keeps_own(entry.take(e)) {
        Some((entry.take(e), entry.skip(e + 1)))
    } else {
        None
    }
}

/// A variable of the login shell's environment that is to be adopted, and
/// its value.
pub fn adopts(entry: &str) -> (r: Option<(String, String)>)
    ensures
        match r {
            Some((k, v)) => adopted(entry@) == Some((k@, v@)),
            None => adopted(entry@) is None,
        },
{
    let c: Vec<char> = chars_of(entry);
    let e: usize = find_char(c.as_slice(), '=', 0);
    if e >= c.len() {
        return None;
    }
    let k: Vec<char> = slice_of(c.as_slice(), 0, e);
    let v: Vec<char> = slice_of(c.as_slice(), e + 1, c.len());
    proof {
        assert(k@ =~= entry@.take(e as int));
        assert(v@ =~= entry@.skip(e + 1));
    }
    let key: String = string_of(k.as_slice());
    let own = k.len() == 0 || same(key.as_str(), "_") || same(key.as_str(), "SHLVL") || same(key.as_str(), "PWD")
        || same(key.as_str(), "OLDPWD") || same(key.as_str(), "TERM") || same(key.as_str(), "TERM_PROGRAM") || same(
        key.as_str(),
        "TERM_SESSION_ID",
    );
    if own {
        None
    } else {
        Some((key, string_of(v.as_slice())))
    }
}

/// Where the command is linked.
pub fn cli_link() -> (p: &'static str)
    ensures
        p@ == "/usr/local/bin/apex"@,
{
    "/usr/local/bin/apex"
}

/// What the user is told of the command linked.
pub fn cli_linked(link: &str, target: &str) -> (m: String)
    ensures
        m@ == link@ + " \u{2192} "@ + target@,
{
    let mut m: String = link.to_owned();
    m.append(" \u{2192} ");
    m.append(target);
    m
}

/// The script that links the command with an administrator's rights.
pub fn cli_script(dir: &str, target: &str, link: &str) -> (s: String)
    ensures
        s@ == "do shell script \"mkdir -p '"@ + dir@ + "' && ln -sfn '"@ + target@ + "' '"@ + link@
            + "'\" with administrator privileges"@,
{
    let mut s: String = "do shell script \"mkdir -p '".to_owned();
    s.append(dir);
    s.append("' && ln -sfn '");
    s.append(target);
    s.append("' '");
    s.append(link);
    s.append("'\" with administrator privileges");
    s
}

/// Why the command could not be linked with an administrator's rights,
/// by what the script said.
pub fn cli_refused(link: &str, said: &str) -> (m: String)
    ensures
        m@ == (if crate::text::holds(said@, "-128"@) {
            "cancelled"@
        } else {
            "could not link "@ + link@ + ": "@ + trimmed(said@)
        }),
{
    if crate::text::contains(said, "-128") {
        return "cancelled".to_owned();
    }
    let c: Vec<char> = chars_of(said);
    let t: Vec<char> = trim(c.as_slice());
    let why: String = string_of(t.as_slice());
    let mut m: String = "could not link ".to_owned();
    m.append(link);
    m.append(": ");
    m.append(why.as_str());
    m
}

/// What was at the place the command is to be linked at.
#[derive(Clone, Copy, Debug, PartialEq, Eq, Structural)]
pub enum There {
    Nothing,
    Link,
    File,
}

/// What is done there: a link is replaced, a file is left alone.
#[derive(Clone, Copy, Debug, PartialEq, Eq, Structural)]
pub enum Linking {
    Make,
    Replace,
    Refuse,
}

/// How the command is linked: a link is replaced, so that a rebuilt app
/// moves it; a real file is never clobbered.
pub fn link_cli(there: There) -> (l: Linking)
    ensures
        l == (match there {
            There::Nothing => Linking::Make,
            There::Link => Linking::Replace,
            There::File => Linking::Refuse,
        }),
{
    match there {
        There::Nothing => Linking::Make,
        There::Link => Linking::Replace,
        There::File => Linking::Refuse,
    }
}

proof fn lemma_options()
    ensures
        "--local"@ != "--attach"@ && "--local"@ != "--via"@ && "--local"@ != "--remote"@ && "--local"@ != "--ssh"@
            && "--local"@ != "--url"@ && "--local"@ != "--session"@,
        "--attach"@ != "--via"@ && "--attach"@ != "--remote"@ && "--attach"@ != "--ssh"@ && "--attach"@ != "--url"@
            && "--attach"@ != "--session"@,
        "--via"@ != "--remote"@ && "--via"@ != "--ssh"@ && "--via"@ != "--url"@ && "--via"@ != "--session"@,
        "--remote"@ != "--url"@ && "--remote"@ != "--session"@,
        "--ssh"@ != "--url"@ && "--ssh"@ != "--session"@,
        "--url"@ != "--session"@,
{
    reveal_strlit("--local");
    reveal_strlit("--attach");
    reveal_strlit("--via");
    reveal_strlit("--remote");
    reveal_strlit("--ssh");
    reveal_strlit("--url");
    reveal_strlit("--session");
    assert("--local"@.len() == 7 && "--attach"@.len() == 8 && "--via"@.len() == 5 && "--remote"@.len() == 8
        && "--ssh"@.len() == 5 && "--url"@.len() == 5 && "--session"@.len() == 9);
    assert("--attach"@[2] == 'a' && "--remote"@[2] == 'r');
    assert("--via"@[2] == 'v' && "--ssh"@[2] == 's' && "--url"@[2] == 'u');
}

/// Each option sets what it is named for, from the argument after it where it
/// takes one, and nothing else.
pub proof fn law_an_option_sets_what_it_is_named_for(s: Said, v: Seq<char>)
    ensures
        with_value(s, "--via"@, v) == (Said { via: Some(v), ..s }),
        with_value(s, "--remote"@, v) == (Said { remote: Some(v), ..s }),
        with_value(s, "--ssh"@, v) == (Said { remote: Some(v), ..s }),
        with_value(s, "--url"@, v) == (Said { url: Some(v), ..s }),
        with_value(s, "--session"@, v) == (Said { session: Some(v), ..s }),
        wanted("--via"@) is Some && wanted("--remote"@) is Some && wanted("--ssh"@) is Some && wanted("--url"@) is Some
            && wanted("--session"@) is Some,
        wanted("--local"@) is None && wanted("--attach"@) is None,
{
    lemma_options();
}

/// An option that wants an argument takes the next, and is refused at the end;
/// what is no option is a file.
pub proof fn law_arguments_are_read_in_order(a: Seq<Seq<char>>, i: int, s: Said)
    requires
        0 <= i < a.len(),
    ensures
        wanted(a[i]) is Some && i + 1 == a.len() ==> said_from(a, i, s) is Err,
        wanted(a[i]) is Some && i + 1 < a.len() ==> said_from(a, i, s) == said_from(a, i + 2, with_value(s, a[i], a[i + 1])),
        a[i] == "--local"@ ==> said_from(a, i, s) == said_from(a, i + 1, Said { local: true, ..s }),
        a[i] == "--attach"@ && (i + 1 == a.len() || !is_socket(a[i + 1])) ==> said_from(a, i, s) == said_from(
            a,
            i + 1,
            Said { socket: SocketSaid::Usual, ..s },
        ),
        a[i] == "--attach"@ && i + 1 < a.len() && is_socket(a[i + 1]) ==> said_from(a, i, s) == said_from(
            a,
            i + 2,
            Said { socket: SocketSaid::At(a[i + 1]), ..s },
        ),
        a[i].len() > 0 && a[i][0] != '-' ==> said_from(a, i, s) == said_from(
            a,
            i + 1,
            Said { files: s.files.push(a[i]), ..s },
        ),
{
    lemma_options();
    if a[i].len() > 0 && a[i][0] != '-' {
        reveal_strlit("--local");
        reveal_strlit("--attach");
        reveal_strlit("--via");
        reveal_strlit("--remote");
        reveal_strlit("--ssh");
        reveal_strlit("--url");
        reveal_strlit("--session");
        reveal_strlit("-psn_");
        assert("--local"@[0] == '-' && "--attach"@[0] == '-' && "--via"@[0] == '-' && "--remote"@[0] == '-' && "--ssh"@[0]
            == '-' && "--url"@[0] == '-' && "--session"@[0] == '-');
        if stands_at(a[i], 0, "-psn_"@) {
            assert(a[i].subrange(0, 5)[0] == a[i][0]);
            assert("-psn_"@[0] == '-');
        }
    }
}

/// A variable of another's surroundings is taken over by its name and its
/// value, told apart at the first `=`; those that are a process's own are not.
pub proof fn law_a_variable_is_taken_over_whole(entry: Seq<char>)
    ensures
        adopted(entry) matches Some((k, v)) ==> k.push('=') + v == entry && !k.contains('=') && k.len() > 0 && k
            != "PWD"@ && k != "OLDPWD"@ && k != "SHLVL"@ && k != "TERM"@ && k != "_"@ && k != "TERM_PROGRAM"@ && k
            != "TERM_SESSION_ID"@,
        !entry.contains('=') ==> adopted(entry) is None,
{
    crate::text::lemma_find(entry, '=', 0);
    let e = find(entry, '=', 0);
    if e < entry.len() {
        assert(entry[e] == '=');
        assert(entry.take(e).push('=') + entry.skip(e + 1) =~= entry);
    }
}

/// The first window that can be opened again is.
pub proof fn law_the_first_that_can_be_opened_is(good: Seq<bool>, i: int)
    requires
        0 <= i <= good.len(),
    ensures
        i <= made_out(good, i) <= good.len(),
        forall|j: int| i <= j < made_out(good, i) ==> !(#[trigger] good[j]),
        made_out(good, i) < good.len() ==> good[made_out(good, i)],
    decreases good.len() - i,
{
    if i < good.len() && !good[i] {
        law_the_first_that_can_be_opened_is(good, i + 1);
    }
}

} // verus!
