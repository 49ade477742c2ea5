//! What rules ask of this client, and the previews of remote files that
//! come of it.

use vstd::prelude::*;
use vstd::string::*;

use crate::ids::WindowId;
use crate::num::{decimal, digits, number, parse};
use crate::session::{maybe, SessionUrl, Url};
use crate::text::{chars_of, same, slice_of, string_of, trim, trimmed};

verus! {

/// What a rule's ask comes to.
pub enum Ask {
    /// Opened as the platform opens things.
    Open,
    /// Previewed, from the file itself.
    Preview,
    /// A preview that is up already is shown again.
    ShowAgain,
    /// The file is on the host: its bytes are asked for, and watched.
    Watch,
    /// A window's last output is snarfed.
    Snarfout(WindowId),
    /// Refused, and why.
    Refuse(String),
}

/// An [`Ask`] as a value.
pub enum Asked {
    Open,
    Preview,
    ShowAgain,
    Watch,
    Snarfout(WindowId),
    Refuse(Seq<char>),
}

impl View for Ask {
    type V = Asked;

    open spec fn view(&self) -> Asked {
        match self {
            Ask::Open => Asked::Open,
            Ask::Preview => Asked::Preview,
            Ask::ShowAgain => Asked::ShowAgain,
            Ask::Watch => Asked::Watch,
            Ask::Snarfout(w) => Asked::Snarfout(*w),
            Ask::Refuse(why) => Asked::Refuse(why@),
        }
    }
}

/// What an ask of a session that is on this machine or not, and whose
/// file is previewed already or not, comes to.
pub open spec fn asked(verb: Seq<char>, args: Seq<char>, local: bool, live: bool) -> Asked {
    if verb == "open"@ {
        Asked::Open
    } else if verb == "preview"@ {
        if local {
            Asked::Preview
        } else if live {
            Asked::ShowAgain
        } else {
            Asked::Watch
        }
    } else if verb == "snarfout"@ {
        match number(trimmed(args)) {
            Some(n) => Asked::Snarfout(WindowId(n)),
            None => Asked::Refuse("snarfout: "@ + args + ": not a window"@),
        }
    } else {
        Asked::Refuse("apex-ui cannot "@ + verb)
    }
}

/// What a rule's ask comes to.
pub fn answer_ask(verb: &str, args: &str, local: bool, live: bool) -> (a: Ask)
    ensures
        a@ == asked(verb@, args@, local, live),
{
    if same(verb, "open") {
        Ask::Open
    } else if same(verb, "preview") {
        if local {
            Ask::Preview
        } else if live {
            Ask::ShowAgain
        } else {
            Ask::Watch
        }
    } else if same(verb, "snarfout") {
        let c: Vec<char> = chars_of(args);
        let t: Vec<char> = trim(c.as_slice());
        match parse(t.as_slice()) {
            Some(n) => Ask::Snarfout(WindowId(n)),
            None => {
                let mut m: String = "snarfout: ".to_owned();
                m.append(args);
                m.append(": not a window");
                Ask::Refuse(m)
            },
        }
    } else {
        Ask::Refuse(cannot(verb))
    }
}

/// What is said of a verb that this client does not know.
pub fn cannot(verb: &str) -> (m: String)
    ensures
        m@ == "apex-ui cannot "@ + verb@,
{
    let mut m: String = "apex-ui cannot ".to_owned();
    m.append(verb);
    m
}

/// An ask of a session that is parked: things are still opened, and the
/// rest is refused, since nobody sees the session.
pub fn answer_parked(verb: &str) -> (r: Option<String>)
    ensures
        maybe(r) == (if verb@ == "open"@ {
            None
        } else {
            Some(verb@ + ": the session is parked, nobody sees it"@)
        }),
{
    if same(verb, "open") {
        None
    } else {
        let mut m: String = verb.to_owned();
        m.append(": the session is parked, nobody sees it");
        Some(m)
    }
}

/// What came on a stream.
#[derive(Clone, Copy, Debug, PartialEq, Eq, Structural)]
pub enum Frame {
    Response(u16),
    Body,
    End,
    Reset,
    Request,
}

/// What to do with what came.
pub enum Came {
    Nothing,
    /// The first bytes: the copy is written and shown.
    Show,
    /// A change: the copy follows.
    Update,
    /// The ask is answered with this, and the preview is given up.
    Refuse(String),
}

/// A [`Came`] as a value.
pub enum CameTo {
    Nothing,
    Show,
    Update,
    Refuse(Seq<char>),
}

impl View for Came {
    type V = CameTo;

    open spec fn view(&self) -> CameTo {
        match self {
            Came::Nothing => CameTo::Nothing,
            Came::Show => CameTo::Show,
            Came::Update => CameTo::Update,
            Came::Refuse(why) => CameTo::Refuse(why@),
        }
    }
}

/// What a frame comes to on the stream of a file whose first bytes are
/// waited for, or of one that is shown, or of neither.
pub open spec fn framed(f: Frame, waiting: Option<Seq<char>>, live: bool) -> CameTo {
    match waiting {
        Some(path) => match f {
            Frame::Response(status) => if status == 200 {
                CameTo::Nothing
            } else {
                CameTo::Refuse(path + ": "@ + digits(status as nat))
            },
            Frame::Body => CameTo::Show,
            Frame::End => CameTo::Refuse(path + ": the host ended the stream"@),
            Frame::Reset => CameTo::Refuse(path + ": the host ended the stream"@),
            Frame::Request => CameTo::Nothing,
        },
        None => if live && f == Frame::Body {
            CameTo::Update
        } else {
            CameTo::Nothing
        },
    }
}

/// What came on a preview's stream: the first bytes show the copy, later
/// ones keep it current; a refusal answers the ask.
pub fn preview_frame(f: Frame, waiting: Option<&str>, live: bool) -> (c: Came)
    ensures
        c@ == framed(
            f,
            match waiting {
                Some(p) => Some(p@),
                None => None,
            },
            live,
        ),
{
    match waiting {
        Some(path) => {
            let mut m: String = path.to_owned();
            match f {
                Frame::Response(status) => {
                    if status == 200 {
                        Came::Nothing
                    } else {
                        m.append(": ");
                        m.append(decimal(status as u64).as_str());
                        Came::Refuse(m)
                    }
                },
                Frame::Body => Came::Show,
                Frame::Request => Came::Nothing,
                _ => {
                    m.append(": the host ended the stream");
                    Came::Refuse(m)
                },
            }
        },
        None => {
            if live && f == Frame::Body {
                Came::Update
            } else {
                Came::Nothing
            }
        },
    }
}

/// A live preview, as far as its ending goes: its previewer has exited,
/// and the file's window is gone.
#[derive(Clone, Copy, Debug, PartialEq, Eq, Structural)]
pub struct Live {
    pub exited: bool,
    pub window_gone: bool,
}

/// The previews that are over: whose previewer has exited, or whose
/// file's window is gone, or all of them once another client leads.
pub fn end_stale_previews(live: &Vec<Live>, fenced: bool) -> (done: Vec<bool>)
    ensures
        done@.len() == live@.len(),
        forall|i: int|
            0 <= i < live@.len() ==> #[trigger] done@[i] == (live@[i].exited || live@[i].window_gone || fenced),
{
    let mut done: Vec<bool> = Vec::new();
    let mut i: usize = 0;
    while i < live.len()
        invariant
            i <= live@.len(),
            done@.len() == i,
            forall|j: int|
                0 <= j < i ==> #[trigger] done@[j] == (live@[j].exited || live@[j].window_gone || fenced),
        decreases live@.len() - i,
    {
        done.push(live[i].exited || live[i].window_gone || fenced);
        i = i + 1;
    }
    done
}

/// The setting that names what previews a file: that of its extension,
/// lowercased, where the setting is there; else the one for all.
pub fn preview_app<'a>(for_extension: Option<&'a str>, for_all: Option<&'a str>) -> (r: Option<&'a str>)
    ensures
        r == (if for_extension is Some {
            for_extension
        } else {
            for_all
        }),
{
    match for_extension {
        Some(s) => Some(s),
        None => for_all,
    }
}

/// The name of the setting for an extension.
pub fn preview_setting(extension: &str) -> (s: String)
    ensures
        s@ == "Preview."@ + extension@,
{
    let mut s: String = "Preview.".to_owned();
    s.append(extension);
    s
}

/// A character that is kept in a directory's name.
pub open spec fn keeps(c: char) -> bool {
    ('a' <= c <= 'z') || ('A' <= c <= 'Z') || ('0' <= c <= '9') || c == '-' || c == '.'
}

/// A host as a directory's name: what would not do in one is a line.
pub open spec fn directory(u: Url) -> Seq<char> {
    (u.provider + "-"@ + u.arg).map_values(
        |c: char|
            if keeps(c) {
                c
            } else {
                '_'
            },
    )
}

/// The directory of a host's previews.
pub fn preview_directory(u: &SessionUrl) -> (d: String)
    ensures
        d@ == directory(u@),
{
    let mut name: String = u.provider.clone();
    name.append("-");
    name.append(u.arg.as_str());
    let c: Vec<char> = chars_of(name.as_str());
    let mut out: Vec<char> = Vec::new();
    let mut i: usize = 0;
    while i < c.len()
        invariant
            i <= c@.len(),
            out@.len() == i,
            forall|j: int|
                0 <= j < i ==> out@[j] == (if keeps(c@[j]) {
                    c@[j]
                } else {
                    '_'
                }),
        decreases c@.len() - i,
    {
        let x: char = c[i];
        let ok = ('a' <= x && x <= 'z') || ('A' <= x && x <= 'Z') || ('0' <= x && x <= '9') || x == '-' || x == '.';
        out.push(
            if ok {
                x
            } else {
                '_'
            },
        );
        i = i + 1;
    }
    proof {
        assert(out@ =~= directory(u@));
    }
    string_of(out.as_slice())
}

/// Where a path starts once the slashes it starts with are left out.
pub open spec fn past_slashes(s: Seq<char>, i: int) -> int
    decreases s.len() - i,
{
    if 0 <= i < s.len() && s[i] == '/' {
        past_slashes(s, i + 1)
    } else {
        i
    }
}

/// A path under another: without the slashes it starts with.
pub fn under(path: &str) -> (r: String)
    ensures
        r@ == path@.skip(past_slashes(path@, 0)),
{
    let c: Vec<char> = chars_of(path);
    let mut i: usize = 0;
    while i < c.len() && c[i] == '/'
        invariant
            i <= c@.len(),
            c@ == path@,
            past_slashes(path@, i as int) == past_slashes(path@, 0),
        decreases c@.len() - i,
    {
        i = i + 1;
    }
    let rest: Vec<char> = slice_of(c.as_slice(), i, c.len());
    proof {
        assert(rest@ =~= path@.skip(i as int));
    }
    string_of(rest.as_slice())
}

/// No host's directory leads out of where it is: it holds no slash.
pub proof fn law_a_directory_is_one_name(u: Url)
    ensures
        !directory(u).contains('/'),
        directory(u).len() == u.provider.len() + 1 + u.arg.len(),
{
    reveal_strlit("-");
    let d = directory(u);
    assert forall|i: int| 0 <= i < d.len() implies d[i] != '/' by {}
}

proof fn lemma_verbs()
    ensures
        "open"@ != "preview"@ && "open"@ != "snarfout"@ && "preview"@ != "snarfout"@,
{
    reveal_strlit("open");
    reveal_strlit("preview");
    reveal_strlit("snarfout");
    assert("open"@.len() == 4 && "preview"@.len() == 7 && "snarfout"@.len() == 8);
}

/// A file on this machine is previewed from itself; one on a host has its
/// preview shown again where it is up, and else its bytes are watched.
pub proof fn law_a_preview_is_of_the_file_or_of_a_copy(args: Seq<char>, local: bool, live: bool)
    ensures
        asked("open"@, args, local, live) == Asked::Open,
        local ==> asked("preview"@, args, local, live) == Asked::Preview,
        !local && live ==> asked("preview"@, args, local, live) == Asked::ShowAgain,
        !local && !live ==> asked("preview"@, args, local, live) == Asked::Watch,
{
    lemma_verbs();
}

/// A window's output is snarfed by its number, whatever white space is round
/// it; what is no number, and any other verb, is refused by name.
pub proof fn law_what_cannot_be_done_is_refused(verb: Seq<char>, args: Seq<char>, local: bool, live: bool, n: u64)
    ensures
        number(trimmed(args)) == Some(n) <==> asked("snarfout"@, args, local, live) == Asked::Snarfout(WindowId(n)),
        number(trimmed(args)) is None ==> asked("snarfout"@, args, local, live) is Refuse && asked(
            "snarfout"@,
            args,
            local,
            live,
        )->Refuse_0 == "snarfout: "@ + args + ": not a window"@,
        verb != "open"@ && verb != "preview"@ && verb != "snarfout"@ ==> asked(verb, args, local, live) is Refuse
            && asked(verb, args, local, live)->Refuse_0 == "apex-ui cannot "@ + verb,
{
    lemma_verbs();
}

/// A preview that is waited for is shown by its first bytes, and given up on
/// any answer but success and at the end of the stream, its path told; one
/// that is up follows each change; nothing comes of what is not waited for.
pub proof fn law_a_preview_follows_its_stream(path: Seq<char>, status: u16, live: bool)
    ensures
        framed(Frame::Body, Some(path), live) == CameTo::Show,
        framed(Frame::Response(200), Some(path), live) == CameTo::Nothing,
        status != 200 ==> framed(Frame::Response(status), Some(path), live) is Refuse && framed(
            Frame::Response(status),
            Some(path),
            live,
        )->Refuse_0 == path + ": "@ + digits(status as nat),
        framed(Frame::End, Some(path), live) is Refuse && framed(Frame::End, Some(path), live)->Refuse_0 == path
            + ": the host ended the stream"@,
        framed(Frame::Reset, Some(path), live) == framed(Frame::End, Some(path), live),
        framed(Frame::Body, None, true) == CameTo::Update,
        framed(Frame::Body, None, false) == CameTo::Nothing,
        framed(Frame::Response(status), None, live) == CameTo::Nothing,
        framed(Frame::End, None, live) == CameTo::Nothing,
        framed(Frame::Reset, None, live) == CameTo::Nothing,
{
}

/// Letters, digits, `-` and `.` stay as they are in a directory's name, and
/// all else is `_`; the provider's name and the host's are told apart by a
/// `-`.
pub proof fn law_a_directory_keeps_letters_and_digits(u: Url, i: int)
    requires
        0 <= i < u.provider.len() + 1 + u.arg.len(),
    ensures
        ({
            let c = if i < u.provider.len() {
                u.provider[i]
            } else if i == u.provider.len() {
                '-'
            } else {
                u.arg[i - u.provider.len() - 1]
            };
            directory(u)[i] == if 'a' <= c && c <= 'z' || 'A' <= c && c <= 'Z' || '0' <= c && c <= '9' || c == '-' || c
                == '.' {
                c
            } else {
                '_'
            }
        }),
{
    reveal_strlit("-");
}

/// What is under a directory's path starts with no slash, and nothing but
/// slashes was taken from before it.
pub proof fn law_slashes_are_taken_off_the_front(s: Seq<char>, i: int)
    requires
        0 <= i <= s.len(),
    ensures
        i <= past_slashes(s, i) <= s.len(),
        past_slashes(s, i) < s.len() ==> s[past_slashes(s, i)] != '/',
        forall|j: int| i <= j < past_slashes(s, i) ==> #[trigger] s[j] == '/',
    decreases s.len() - i,
{
    if i < s.len() && s[i] == '/' {
        law_slashes_are_taken_off_the_front(s, i + 1);
    }
}

} // verus!
