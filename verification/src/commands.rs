//! What the arguments of each command ask for.  Arguments that are not a
//! command's own are answered with its usage.

use vstd::prelude::*;
use vstd::string::*;

use crate::cli::{join, joined_from};
use crate::num::{number, parse};
use crate::selector::strs;
use crate::session::maybe;
use crate::text::{chars_of, has_at, same, stands_at};

verus! {

/// The one argument, where there is one and no more.
pub open spec fn the_one(a: Seq<Seq<char>>) -> Option<Seq<char>> {
    if a.len() == 1 {
        Some(a[0])
    } else {
        None
    }
}

/// The one argument that `new-session`, `preview`, `editor` and `cat`
/// take.
pub fn one(args: &Vec<String>) -> (r: Option<String>)
    ensures
        maybe(r) == the_one(strs(args@)),
{
    if args.len() == 1 {
        proof {
            assert(strs(args@)[0] == args@[0]@);
        }
        Some(args[0].clone())
    } else {
        None
    }
}

/// The argument that `new`, `awd` and `end` may have, where there is one
/// at most.
pub fn one_or_none(args: &Vec<String>) -> (r: Option<Option<String>>)
    ensures
        (match r {
            Some(o) => Some(maybe(o)),
            None => None,
        }) == (if args@.len() == 0 {
            Some(None::<Seq<char>>)
        } else if args@.len() == 1 {
            Some(Some(args@[0]@))
        } else {
            None
        }),
{
    if args.len() == 0 {
        Some(None)
    } else if args.len() == 1 {
        Some(Some(args[0].clone()))
    } else {
        None
    }
}

/// `rename`: the session renamed, this one where one name is given, and
/// the name it gets.
pub fn rename_session(args: &Vec<String>, session: &str) -> (r: Option<(String, String)>)
    ensures
        match r {
            Some(p) => {
                let (from, to) = p;
                ||| args@.len() == 2 && from@ == args@[0]@ && to@ == args@[1]@
                ||| args@.len() == 1 && from@ == session@ && to@ == args@[0]@
            },
            None => args@.len() != 1 && args@.len() != 2,
        },
{
    if args.len() == 2 {
        Some((args[0].clone(), args[1].clone()))
    } else if args.len() == 1 {
        Some((session.to_owned(), args[0].clone()))
    } else {
        None
    }
}

/// `end`: the session ended, this one where none is named.
pub fn end_session(args: &Vec<String>, session: &str) -> (r: Option<String>)
    ensures
        maybe(r) == (if args@.len() == 0 {
            Some(session@)
        } else if args@.len() == 1 {
            Some(args@[0]@)
        } else {
            None
        }),
{
    if args.len() == 0 {
        Some(session.to_owned())
    } else if args.len() == 1 {
        Some(args[0].clone())
    } else {
        None
    }
}

/// A tool to run.
pub enum Tool {
    Lsp,
    /// In a window, this command.
    Win(Vec<String>),
    /// The preview of this file.
    Preview(String),
}

/// `tool`: the tool to run.
pub fn tool_cmd(args: &Vec<String>) -> (r: Option<Tool>)
    ensures
        match r {
            Some(Tool::Lsp) => args@.len() > 0 && args@[0]@ == "lsp"@,
            Some(Tool::Win(v)) => args@.len() > 0 && args@[0]@ == "win"@ && strs(v@) == strs(args@).skip(1),
            Some(Tool::Preview(f)) => args@.len() > 1 && args@[0]@ == "preview"@ && f@ == args@[1]@,
            None => args@.len() == 0 || (args@[0]@ != "lsp"@ && args@[0]@ != "win"@ && !(args@[0]@ == "preview"@
                && args@.len() > 1)),
        },
{
    if args.len() == 0 {
        return None;
    }
    if same(args[0].as_str(), "lsp") {
        Some(Tool::Lsp)
    } else if same(args[0].as_str(), "win") {
        Some(Tool::Win(crate::flags::rest_of(args, 1)))
    } else if same(args[0].as_str(), "preview") && args.len() > 1 {
        Some(Tool::Preview(args[1].clone()))
    } else {
        None
    }
}

/// A preview that says it is shown has found another of the same file
/// up: that is no failure.
pub fn previewed(r: Result<(), String>) -> (o: Result<(), String>)
    ensures
        o == (match r {
            Err(e) => if e@ == "shown"@ {
                Ok(())
            } else {
                r
            },
            Ok(_) => r,
        }),
{
    match r {
        Err(e) => {
            if same(e.as_str(), "shown") {
                Ok(())
            } else {
                Err(e)
            }
        },
        Ok(u) => Ok(u),
    }
}

/// What `win` does.
pub enum WinCmd {
    List,
    Del(String),
}

/// `win`: the windows listed, or one deleted.
pub fn win(args: &Vec<String>) -> (r: Option<WinCmd>)
    ensures
        match r {
            Some(WinCmd::List) => args@.len() == 0 || args@[0]@ == "list"@,
            Some(WinCmd::Del(w)) => args@.len() > 1 && args@[0]@ == "del"@ && w@ == args@[1]@,
            None => args@.len() > 0 && args@[0]@ != "list"@ && !(args@[0]@ == "del"@ && args@.len() > 1),
        },
{
    if args.len() == 0 || same(args[0].as_str(), "list") {
        Some(WinCmd::List)
    } else if same(args[0].as_str(), "del") && args.len() > 1 {
        Some(WinCmd::Del(args[1].clone()))
    } else {
        None
    }
}

/// `text`: what follows `read`, its flags among it.
pub fn text(args: &Vec<String>) -> (r: Option<Vec<String>>)
    ensures
        match r {
            Some(v) => args@.len() > 0 && args@[0]@ == "read"@ && strs(v@) == strs(args@).skip(1),
            None => args@.len() == 0 || args@[0]@ != "read"@,
        },
{
    if args.len() > 0 && same(args[0].as_str(), "read") {
        Some(crate::flags::rest_of(args, 1))
    } else {
        None
    }
}

/// What `sel` does with the window it names.
#[derive(Clone, Copy, Debug, PartialEq, Eq, Structural)]
pub enum Sel {
    Show,
    Select(u64, u64),
}

/// Why `sel` does nothing.
#[derive(Clone, Copy, Debug, PartialEq, Eq, Structural)]
pub enum NotSel {
    Usage,
    Q0,
    Q1,
}

/// What `sel`'s arguments after the window ask for.
pub open spec fn sel_of(a: Seq<Seq<char>>) -> Result<Sel, NotSel> {
    if a.len() == 0 || a.len() == 2 {
        Err(NotSel::Usage)
    } else if a.len() == 1 {
        Ok(Sel::Show)
    } else if number(a[1]) is None {
        Err(NotSel::Q0)
    } else if number(a[2]) is None {
        Err(NotSel::Q1)
    } else {
        Ok(Sel::Select(number(a[1])->0, number(a[2])->0))
    }
}

/// `sel`: dot shown, or set to the range given.
pub fn sel(args: &Vec<String>) -> (r: Result<Sel, NotSel>)
    ensures
        r == sel_of(strs(args@)),
{
    let ghost a = strs(args@);
    if args.len() == 0 || args.len() == 2 {
        return Err(NotSel::Usage);
    }
    if args.len() == 1 {
        return Ok(Sel::Show);
    }
    proof {
        assert(a[1] == args@[1]@ && a[2] == args@[2]@);
    }
    let c: Vec<char> = chars_of(args[1].as_str());
    let d: Vec<char> = chars_of(args[2].as_str());
    match parse(c.as_slice()) {
        None => Err(NotSel::Q0),
        Some(q0) => match parse(d.as_slice()) {
            None => Err(NotSel::Q1),
            Some(q1) => Ok(Sel::Select(q0, q1)),
        },
    }
}

impl NotSel {
    /// What is said of it.
    pub fn message(&self) -> (m: &'static str)
        ensures
            m@ == (match self {
                NotSel::Usage => "usage"@,
                NotSel::Q0 => "Q0 must be a number"@,
                NotSel::Q1 => "Q1 must be a number"@,
            }),
    {
        match self {
            NotSel::Usage => "usage",
            NotSel::Q0 => "Q0 must be a number",
            NotSel::Q1 => "Q1 must be a number",
        }
    }
}

/// A command to run: in a window, or at the top.
pub struct ExecArgs {
    pub window: Option<String>,
    pub text: String,
}

/// `exec`: the command, and the window it runs in where one is named.
pub fn exec(args: &Vec<String>) -> (r: Option<ExecArgs>)
    ensures
        match r {
            Some(e) => {
                ||| args@.len() == 1 && e.window is None && e.text@ == args@[0]@
                ||| args@.len() == 2 && maybe(e.window) == Some(args@[0]@) && e.text@ == args@[1]@
            },
            None => args@.len() != 1 && args@.len() != 2,
        },
{
    if args.len() == 1 {
        Some(ExecArgs { window: None, text: args[0].clone() })
    } else if args.len() == 2 {
        Some(ExecArgs { window: Some(args[0].clone()), text: args[1].clone() })
    } else {
        None
    }
}

/// What `term` does.
pub enum TermCmd {
    /// A terminal is made.
    New,
    /// This is typed in this terminal.
    Send(String, String),
    /// This terminal's screen is read.
    Read(String),
}

/// `term`: a terminal made, typed in or read.
pub fn term(args: &Vec<String>) -> (r: Option<TermCmd>)
    ensures
        match r {
            Some(TermCmd::New) => args@.len() > 0 && args@[0]@ == "new"@,
            Some(TermCmd::Send(t, s)) => args@.len() > 1 && args@[0]@ == "send"@ && t@ == args@[1]@ && s@
                == joined_from(strs(args@), 2),
            Some(TermCmd::Read(t)) => args@.len() > 1 && args@[0]@ == "read"@ && t@ == args@[1]@,
            None => args@.len() == 0 || (args@[0]@ != "new"@ && !(args@.len() > 1 && (args@[0]@ == "send"@ || args@[0]@
                == "read"@))),
        },
{
    if args.len() == 0 {
        return None;
    }
    if same(args[0].as_str(), "new") {
        Some(TermCmd::New)
    } else if args.len() < 2 {
        None
    } else if same(args[0].as_str(), "send") {
        Some(TermCmd::Send(args[1].clone(), join(args, 2)))
    } else if same(args[0].as_str(), "read") {
        Some(TermCmd::Read(args[1].clone()))
    } else {
        None
    }
}

/// What `plumb` does.
pub enum PlumbCmd {
    /// The rules are seen to.
    Rule(Vec<String>),
    /// This is plumbed.
    Text(String),
}

/// `plumb`: the rules, or a text; an empty one is none.
pub fn plumb(args: &Vec<String>) -> (r: Option<PlumbCmd>)
    ensures
        match r {
            Some(PlumbCmd::Rule(v)) => args@.len() > 0 && args@[0]@ == "rule"@ && strs(v@) == strs(args@).skip(1),
            Some(PlumbCmd::Text(t)) => !(args@.len() > 0 && args@[0]@ == "rule"@) && t@ == joined_from(strs(args@), 0)
                && t@.len() > 0,
            None => !(args@.len() > 0 && args@[0]@ == "rule"@) && joined_from(strs(args@), 0).len() == 0,
        },
{
    if args.len() > 0 && same(args[0].as_str(), "rule") {
        return Some(PlumbCmd::Rule(crate::flags::rest_of(args, 1)));
    }
    let t: String = join(args, 0);
    if t.as_str().unicode_len() == 0 {
        None
    } else {
        Some(PlumbCmd::Text(t))
    }
}

/// What `env` does.
#[derive(Clone, Copy, Debug, PartialEq, Eq, Structural)]
pub enum EnvCmd {
    /// The variables are set, and shown where none is.
    Assign { show: bool },
    /// This process's own are taken in.
    Take,
    /// Both at once are refused.
    Refused,
}

/// `env`: with so many variables to set, and `-import` or not.
pub fn env_cmd(set: usize, import: bool) -> (e: EnvCmd)
    ensures
        e == (if !import {
            EnvCmd::Assign { show: set == 0 }
        } else if set == 0 {
            EnvCmd::Take
        } else {
            EnvCmd::Refused
        }),
{
    if !import {
        EnvCmd::Assign { show: set == 0 }
    } else if set == 0 {
        EnvCmd::Take
    } else {
        EnvCmd::Refused
    }
}

/// What `web` opens.
pub enum WebCmd {
    /// A page at an address.
    Open(String),
    /// The page on stdin.
    Html,
}

/// `web`: a page at an address, or the one on stdin.
pub fn web(args: &Vec<String>) -> (r: Option<WebCmd>)
    ensures
        match r {
            Some(WebCmd::Open(u)) => args@.len() == 2 && args@[0]@ == "open"@ && u@ == args@[1]@,
            Some(WebCmd::Html) => args@.len() == 0,
            None => args@.len() != 0 && !(args@.len() == 2 && args@[0]@ == "open"@),
        },
{
    if args.len() == 0 {
        Some(WebCmd::Html)
    } else if args.len() == 2 && same(args[0].as_str(), "open") {
        Some(WebCmd::Open(args[1].clone()))
    } else {
        None
    }
}

/// The name of the page on stdin, in the directory it is made in unless
/// it is a whole path: `+web` where none is given.
pub fn web_name(name: Option<&str>) -> (n: String)
    ensures
        n@ == (match name {
            Some(n) => n@,
            None => "+web"@,
        }),
{
    match name {
        Some(n) => n.to_owned(),
        None => "+web".to_owned(),
    }
}

/// What is attached to: a session here, or one of a host; the rest are
/// files to open.
pub struct Attach {
    pub target: String,
    pub files: Vec<String>,
}

/// `attach`: the first argument names the session unless it is a file
/// that is there.
pub fn attach(args: &Vec<String>, first_is_file: bool, session: &str) -> (a: Attach)
    ensures
        if args@.len() > 0 && !first_is_file {
            a.target@ == args@[0]@ && strs(a.files@) == strs(args@).skip(1)
        } else {
            a.target@ == session@ && strs(a.files@) == strs(args@)
        },
{
    if args.len() > 0 && !first_is_file {
        Attach { target: args[0].clone(), files: crate::flags::rest_of(args, 1) }
    } else {
        proof {
            assert(strs(args@).skip(0) =~= strs(args@));
        }
        Attach { target: session.to_owned(), files: crate::flags::rest_of(args, 0) }
    }
}

/// What came while a command waits.
#[derive(Clone, Copy, Debug, PartialEq, Eq, Structural)]
pub enum Heard {
    /// Something, or nothing for a while.
    Something,
    /// The connection's end.
    Closed,
}

/// What a command that waits does next.
#[derive(Clone, Copy, Debug, PartialEq, Eq, Structural)]
pub enum Waiting {
    Done,
    TimedOut,
    Closed,
    Listen,
}

/// A command waits until what it waits for is so, the time is up or the
/// connection is closed: what came last, and whether it is so now.
pub fn wait(heard: Heard, done: bool, late: bool) -> (w: Waiting)
    ensures
        w == (if heard == Heard::Closed {
            Waiting::Closed
        } else if done {
            Waiting::Done
        } else if late {
            Waiting::TimedOut
        } else {
            Waiting::Listen
        }),
{
    if heard == Heard::Closed {
        Waiting::Closed
    } else if done {
        Waiting::Done
    } else if late {
        Waiting::TimedOut
    } else {
        Waiting::Listen
    }
}

/// An entry of a shard is told: every one, or those of the shards whose
/// names start so.
pub fn events(only: Option<&str>, shard: &str) -> (r: bool)
    ensures
        r == (match only {
            None => true,
            Some(o) => stands_at(shard@, 0, o@),
        }),
{
    match only {
        None => true,
        Some(o) => {
            let c: Vec<char> = chars_of(shard);
            has_at(c.as_slice(), 0, o)
        },
    }
}

} // verus!
