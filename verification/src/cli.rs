//! The command line: what its commands' arguments say, what they print,
//! and the help.

use vstd::prelude::*;
use vstd::string::*;

use crate::flags::{quoted, quoted_as, Flag};
use crate::ids::{TermId, WindowId};
use crate::num::{decimal, digits, number, parse};
use crate::selector::strs;
use crate::session::maybe;
use crate::text::{chars_of, contains, find, find_char, holds, same, slice_of, string_of, trim_end, trimmed_end};

verus! {

/// A command: its name, how it is used, what it does in a line, its
/// flags, and what it does.
pub struct Cmd {
    pub name: &'static str,
    pub usage: &'static str,
    pub short: &'static str,
    pub flags: Vec<Flag>,
    pub long: &'static str,
}

/// A help topic: its name, what it is on, and what it says.
pub struct Topic {
    pub name: &'static str,
    pub short: &'static str,
    pub text: &'static str,
}

/// A flag's two lines of help.
pub open spec fn flag_line(f: Flag) -> Seq<char> {
    "\t-"@ + f.name@ + (if f.boolean {
        Seq::empty()
    } else {
        "=VALUE"@
    }) + "\n\t\t"@ + f.help@ + "\n"@
}

/// The first `n` flags' lines of help.
pub open spec fn flag_lines(f: Seq<Flag>, n: int) -> Seq<char>
    decreases n,
{
    if n <= 0 || n > f.len() {
        Seq::empty()
    } else {
        flag_lines(f, n - 1) + flag_line(f[n - 1])
    }
}

fn put_flags(out: &mut String, f: &Vec<Flag>)
    ensures
        final(out)@ == old(out)@ + flag_lines(f@, f@.len() as int),
{
    let ghost start = out@;
    let mut i: usize = 0;
    proof {
        assert(out@ =~= start + flag_lines(f@, 0));
    }
    while i < f.len()
        invariant
            i <= f@.len(),
            out@ == start + flag_lines(f@, i as int),
        decreases f@.len() - i,
    {
        let ghost before = out@;
        out.append("\t-");
        out.append(f[i].name);
        if !f[i].boolean {
            out.append("=VALUE");
        }
        out.append("\n\t\t");
        out.append(f[i].help);
        out.append("\n");
        proof {
            assert(out@ =~= before + flag_line(f@[i as int]));
            assert(out@ =~= start + (flag_lines(f@, i as int) + flag_line(f@[i as int])));
        }
        i = i + 1;
    }
}

/// `-h`: the usage, briefly, and where the rest is.
pub fn usage(c: &Cmd) -> (r: String)
    ensures
        r@ == "usage: "@ + c.usage@ + "\n"@ + flag_lines(c.flags@, c.flags@.len() as int) + "Run 'apex help "@ + c.name@
            + "' for details.\n"@,
{
    let mut r: String = "usage: ".to_owned();
    r.append(c.usage);
    r.append("\n");
    put_flags(&mut r, &c.flags);
    r.append("Run 'apex help ");
    r.append(c.name);
    r.append("' for details.\n");
    r
}

/// So many spaces.
pub open spec fn spaces(n: int) -> Seq<char>
    decreases n,
{
    if n <= 0 {
        Seq::empty()
    } else {
        spaces(n - 1).push(' ')
    }
}

/// A line of a list: a name in a column of its own, and what it is.
pub open spec fn listing_line(name: Seq<char>, short: Seq<char>) -> Seq<char> {
    "\t"@ + name + spaces(16 - name.len()) + short + "\n"@
}

fn put_listing(out: &mut String, name: &str, short: &str)
    ensures
        final(out)@ == old(out)@ + listing_line(name@, short@),
{
    let ghost start = out@;
    out.append("\t");
    out.append(name);
    let n: usize = name.unicode_len();
    let ghost before = out@;
    let room: usize = if n < 16 {
        16 - n
    } else {
        0
    };
    let mut i: usize = 0;
    proof {
        assert(out@ =~= before + spaces(0));
    }
    while i < room
        invariant
            i <= room,
            out@ == before + spaces(i as int),
        decreases room - i,
    {
        out.push(' ');
        i = i + 1;
        proof {
            assert(out@ =~= before + spaces(i as int));
        }
    }
    out.append(short);
    out.append("\n");
    proof {
        assert(spaces(16 - name@.len()) == spaces(room as int));
        assert(out@ =~= start + listing_line(name@, short@));
    }
}

/// The first `n` commands, a line each.
pub open spec fn command_lines(c: Seq<Cmd>, n: int) -> Seq<char>
    decreases n,
{
    if n <= 0 || n > c.len() {
        Seq::empty()
    } else {
        command_lines(c, n - 1) + listing_line(c[n - 1].name@, c[n - 1].short@)
    }
}

/// The first `n` topics, a line each.
pub open spec fn topic_lines(t: Seq<Topic>, n: int) -> Seq<char>
    decreases n,
{
    if n <= 0 || n > t.len() {
        Seq::empty()
    } else {
        topic_lines(t, n - 1) + listing_line(t[n - 1].name@, t[n - 1].short@)
    }
}

/// What `apex help` says.
pub open spec fn overview_of(c: Seq<Cmd>, t: Seq<Topic>, global: Seq<Flag>) -> Seq<char> {
    "Apex is acme, remade: a text editor and shell, remote and scriptable.\n\nUsage:\n\n\tapex [-socket=PATH] [-session=NAME] [-ensure-server] <command> [arguments]\n\nThe commands are:\n\n"@
        + command_lines(c, c.len() as int)
        + "\nUse \"apex help <command>\" for more information about a command.\n\nAdditional help topics:\n\n"@
        + topic_lines(t, t.len() as int)
        + "\nUse \"apex help <topic>\" for more information about that topic.\n\nThe flags apply to every command:\n\n"@
        + flag_lines(global, global.len() as int)
}

/// `apex help`, `apex`: the commands and the topics.
pub fn overview(c: &Vec<Cmd>, t: &Vec<Topic>, global: &Vec<Flag>) -> (r: String)
    ensures
        r@ == overview_of(c@, t@, global@),
{
    let mut r: String =
        "Apex is acme, remade: a text editor and shell, remote and scriptable.\n\nUsage:\n\n\tapex [-socket=PATH] [-session=NAME] [-ensure-server] <command> [arguments]\n\nThe commands are:\n\n".to_owned();
    let ghost start = r@;
    let mut i: usize = 0;
    proof {
        assert(r@ =~= start + command_lines(c@, 0));
    }
    while i < c.len()
        invariant
            i <= c@.len(),
            r@ == start + command_lines(c@, i as int),
        decreases c@.len() - i,
    {
        let ghost before = r@;
        put_listing(&mut r, c[i].name, c[i].short);
        proof {
            assert(r@ =~= start + (command_lines(c@, i as int) + listing_line(c@[i as int].name@, c@[i as int].short@)));
        }
        i = i + 1;
    }
    r.append("\nUse \"apex help <command>\" for more information about a command.\n\nAdditional help topics:\n\n");
    let ghost middle = r@;
    let mut k: usize = 0;
    proof {
        assert(r@ =~= middle + topic_lines(t@, 0));
    }
    while k < t.len()
        invariant
            k <= t@.len(),
            r@ == middle + topic_lines(t@, k as int),
        decreases t@.len() - k,
    {
        put_listing(&mut r, t[k].name, t[k].short);
        proof {
            assert(r@ =~= middle + (topic_lines(t@, k as int) + listing_line(t@[k as int].name@, t@[k as int].short@)));
        }
        k = k + 1;
    }
    r.append(
        "\nUse \"apex help <topic>\" for more information about that topic.\n\nThe flags apply to every command:\n\n",
    );
    put_flags(&mut r, global);
    r
}

/// The place of a command, from `i` on; the end where it is not.
pub open spec fn command_at(c: Seq<Cmd>, name: Seq<char>, i: int) -> int
    decreases c.len() - i,
{
    if 0 <= i < c.len() && c[i].name@ != name {
        command_at(c, name, i + 1)
    } else {
        i
    }
}

/// The place of a topic, from `i` on; the end where it is not.
pub open spec fn topic_at(t: Seq<Topic>, name: Seq<char>, i: int) -> int
    decreases t.len() - i,
{
    if 0 <= i < t.len() && t[i].name@ != name {
        topic_at(t, name, i + 1)
    } else {
        i
    }
}

/// The command of a name.
pub fn find_command(c: &Vec<Cmd>, name: &str) -> (i: Option<usize>)
    ensures
        match i {
            Some(i) => i == command_at(c@, name@, 0) && i < c@.len(),
            None => command_at(c@, name@, 0) >= c@.len(),
        },
{
    let mut i: usize = 0;
    while i < c.len()
        invariant
            i <= c@.len(),
            command_at(c@, name@, i as int) == command_at(c@, name@, 0),
        decreases c@.len() - i,
    {
        if same(c[i].name, name) {
            return Some(i);
        }
        i = i + 1;
    }
    None
}

/// What `apex help` says of a command.
pub open spec fn help_of(c: Cmd, rule_flags: Seq<Flag>) -> Seq<char> {
    "usage: "@ + c.usage@ + "\n\n"@ + (if c.flags@.len() == 0 {
        Seq::empty()
    } else {
        flag_lines(c.flags@, c.flags@.len() as int) + "\n"@
    }) + c.long@ + "\n"@ + (if c.name@ == "plumb"@ {
        "\nThe flags of plumb rule add:\n\n"@ + flag_lines(rule_flags, rule_flags.len() as int)
    } else {
        Seq::empty()
    })
}

fn help_text(c: &Cmd, rule_flags: &Vec<Flag>) -> (r: String)
    ensures
        r@ == help_of(*c, rule_flags@),
{
    let mut r: String = "usage: ".to_owned();
    r.append(c.usage);
    r.append("\n\n");
    let ghost a = r@;
    if c.flags.len() > 0 {
        put_flags(&mut r, &c.flags);
        r.append("\n");
        proof {
            assert(r@ =~= a + (flag_lines(c.flags@, c.flags@.len() as int) + "\n"@));
        }
    } else {
        proof {
            assert(r@ =~= a + Seq::empty());
        }
    }
    r.append(c.long);
    r.append("\n");
    let ghost b = r@;
    if same(c.name, "plumb") {
        r.append("\nThe flags of plumb rule add:\n\n");
        put_flags(&mut r, rule_flags);
        proof {
            assert(r@ =~= b + ("\nThe flags of plumb rule add:\n\n"@ + flag_lines(
                rule_flags@,
                rule_flags@.len() as int,
            )));
        }
    } else {
        proof {
            assert(r@ =~= b + Seq::empty());
        }
    }
    r
}

/// What `apex help` says of a command or a topic, or of all of them; or
/// that there is none such.
pub open spec fn helped(
    what: Option<Seq<char>>,
    c: Seq<Cmd>,
    t: Seq<Topic>,
    global: Seq<Flag>,
    rule_flags: Seq<Flag>,
) -> Result<Seq<char>, Seq<char>> {
    match what {
        None => Ok(overview_of(c, t, global)),
        Some(w) => {
            let i = command_at(c, w, 0);
            let k = topic_at(t, w, 0);
            if i < c.len() {
                Ok(help_of(c[i], rule_flags))
            } else if k < t.len() {
                Ok(t[k].text@ + "\n"@)
            } else {
                Err("apex help "@ + w + ": unknown help topic. Run 'apex help'."@)
            }
        },
    }
}

/// `apex help CMD|TOPIC`.
pub fn help(what: Option<&str>, c: &Vec<Cmd>, t: &Vec<Topic>, global: &Vec<Flag>, rule_flags: &Vec<Flag>) -> (r: Result<
    String,
    String,
>)
    ensures
        (match r {
            Ok(s) => Ok(s@),
            Err(e) => Err(e@),
        }) == helped(
            match what {
                Some(w) => Some(w@),
                None => None,
            },
            c@,
            t@,
            global@,
            rule_flags@,
        ),
{
    let w = match what {
        Some(w) => w,
        None => {
            return Ok(overview(c, t, global));
        },
    };
    if let Some(i) = find_command(c, w) {
        return Ok(help_text(&c[i], rule_flags));
    }
    let mut k: usize = 0;
    while k < t.len()
        invariant
            k <= t@.len(),
            what == Some(w),
            command_at(c@, w@, 0) >= c@.len(),
            topic_at(t@, w@, k as int) == topic_at(t@, w@, 0),
        decreases t@.len() - k,
    {
        if same(t[k].name, w) {
            let mut s: String = t[k].text.to_owned();
            s.append("\n");
            return Ok(s);
        }
        k = k + 1;
    }
    let mut e: String = "apex help ".to_owned();
    e.append(w);
    e.append(": unknown help topic. Run 'apex help'.");
    Err(e)
}

/// The session a command works on: the flag's; else the one of the
/// terminal it runs in; else the environment's; else `default`.
pub fn session(flag: Option<&str>, here: Option<String>, env: Option<String>) -> (s: String)
    ensures
        s@ == (if flag is Some {
            flag->0@
        } else if here is Some {
            here->0@
        } else if env is Some {
            env->0@
        } else {
            "default"@
        }),
{
    match flag {
        Some(f) => f.to_owned(),
        None => match here {
            Some(h) => h,
            None => match env {
                Some(e) => e,
                None => "default".to_owned(),
            },
        },
    }
}

/// A window: its id, and its name.
pub struct Win {
    pub id: WindowId,
    pub name: String,
}

/// A window as a value.
pub open spec fn win_seen(w: Win) -> (WindowId, Seq<char>) {
    (w.id, w.name@)
}

/// Windows as values.
pub open spec fn wins(s: Seq<Win>) -> Seq<(WindowId, Seq<char>)> {
    s.map_values(|w: Win| win_seen(w))
}

/// The first `n` windows of exactly this name.
pub open spec fn named_so(w: Seq<(WindowId, Seq<char>)>, spec_: Seq<char>, n: int) -> Seq<WindowId>
    decreases n,
{
    if n <= 0 || n > w.len() {
        Seq::empty()
    } else {
        let (id, name) = w[n - 1];
        if name == spec_ {
            named_so(w, spec_, n - 1).push(id)
        } else {
            named_so(w, spec_, n - 1)
        }
    }
}

/// The first `n` windows with this in their names.
pub open spec fn matching(w: Seq<(WindowId, Seq<char>)>, spec_: Seq<char>, n: int) -> Seq<WindowId>
    decreases n,
{
    if n <= 0 || n > w.len() {
        Seq::empty()
    } else {
        let (id, name) = w[n - 1];
        if holds(name, spec_) {
            matching(w, spec_, n - 1).push(id)
        } else {
            matching(w, spec_, n - 1)
        }
    }
}

/// What a window is named by comes to.
#[derive(Clone, Copy, Debug, PartialEq, Eq, Structural)]
pub enum Found {
    /// This window, by its id.
    Id(WindowId),
    /// A window's id, and no window that has it.
    Missing(WindowId),
    /// The one window of that name, or with that in its name.
    Named(WindowId),
    /// None, or several.
    Not(usize),
}

/// One of the windows has this id.
pub open spec fn there(w: Seq<(WindowId, Seq<char>)>, id: WindowId) -> bool {
    exists|i: int| 0 <= i < w.len() && (#[trigger] w[i]).0 == id
}

/// The window that a text names: a number is an id, and no name is looked
/// at; else by name, exactly first, then as a unique part of one.
pub open spec fn found(w: Seq<(WindowId, Seq<char>)>, s: Seq<char>) -> Found {
    let n = w.len() as int;
    let exact = named_so(w, s, n);
    let hits = matching(w, s, n);
    if number(s) is Some {
        let id = WindowId(number(s)->0);
        if there(w, id) {
            Found::Id(id)
        } else {
            Found::Missing(id)
        }
    } else if exact.len() == 1 {
        Found::Named(exact[0])
    } else if hits.len() == 1 {
        Found::Named(hits[0])
    } else {
        Found::Not(hits.len() as usize)
    }
}

/// Whether one of the windows has this id.
fn is_there(w: &Vec<Win>, id: WindowId) -> (r: bool)
    ensures
        r == there(wins(w@), id),
{
    let mut i: usize = 0;
    while i < w.len()
        invariant
            i <= w@.len(),
            forall|j: int| 0 <= j < i ==> (#[trigger] wins(w@)[j]).0 != id,
        decreases w@.len() - i,
    {
        proof {
            assert(wins(w@)[i as int] == win_seen(w@[i as int]));
        }
        if w[i].id == id {
            return true;
        }
        i = i + 1;
    }
    false
}

/// A window that is found is one of those there are.
pub proof fn law_a_window_found_is_there(w: Seq<(WindowId, Seq<char>)>, s: Seq<char>)
    ensures
        found(w, s) matches Found::Id(id) ==> there(w, id),
        found(w, s) matches Found::Named(id) ==> there(w, id),
        found(w, s) matches Found::Missing(id) ==> !there(w, id) && number(s) == Some(id.0),
        number(s) is Some <==> found(w, s) is Id || found(w, s) is Missing,
{
    lemma_named_are_there(w, s, w.len() as int);
}

proof fn lemma_named_are_there(w: Seq<(WindowId, Seq<char>)>, s: Seq<char>, n: int)
    requires
        0 <= n <= w.len(),
    ensures
        forall|i: int| 0 <= i < named_so(w, s, n).len() ==> there(w, #[trigger] named_so(w, s, n)[i]),
        forall|i: int| 0 <= i < matching(w, s, n).len() ==> there(w, #[trigger] matching(w, s, n)[i]),
    decreases n,
{
    if n > 0 {
        lemma_named_are_there(w, s, n - 1);
        assert(there(w, w[n - 1].0));
        let (a, b) = (named_so(w, s, n - 1), matching(w, s, n - 1));
        assert forall|i: int| 0 <= i < named_so(w, s, n).len() implies there(w, #[trigger] named_so(w, s, n)[i]) by {
            if i < a.len() {
                assert(named_so(w, s, n)[i] == a[i]);
            }
        }
        assert forall|i: int| 0 <= i < matching(w, s, n).len() implies there(w, #[trigger] matching(w, s, n)[i]) by {
            if i < b.len() {
                assert(matching(w, s, n)[i] == b[i]);
            }
        }
    }
}

/// The window that a text names.
pub fn find_window(w: &Vec<Win>, s: &str) -> (f: Found)
    ensures
        f == found(wins(w@), s@),
{
    let c: Vec<char> = chars_of(s);
    if let Some(n) = parse(c.as_slice()) {
        let id = WindowId(n);
        return if is_there(w, id) {
            Found::Id(id)
        } else {
            Found::Missing(id)
        };
    }
    let mut exact: Vec<WindowId> = Vec::new();
    let mut hits: Vec<WindowId> = Vec::new();
    let mut i: usize = 0;
    while i < w.len()
        invariant
            i <= w@.len(),
            exact@ == named_so(wins(w@), s@, i as int),
            hits@ == matching(wins(w@), s@, i as int),
            hits@.len() <= i,
        decreases w@.len() - i,
    {
        proof {
            assert(wins(w@)[i as int] == win_seen(w@[i as int]));
        }
        if same(w[i].name.as_str(), s) {
            exact.push(w[i].id);
        }
        if contains(w[i].name.as_str(), s) {
            hits.push(w[i].id);
        }
        i = i + 1;
    }
    if exact.len() == 1 {
        Found::Named(exact[0])
    } else if hits.len() == 1 {
        Found::Named(hits[0])
    } else {
        Found::Not(hits.len())
    }
}

/// What is said when no one window is named.
pub fn not_found(n: usize, s: &str) -> (m: String)
    ensures
        m@ == (if n == 0 {
            "no window matches "@ + quoted_as(s@)
        } else {
            digits(n as nat) + " windows match "@ + quoted_as(s@)
        }),
{
    if n == 0 {
        let mut m: String = "no window matches ".to_owned();
        m.append(quoted(s).as_str());
        m
    } else {
        let mut m: String = decimal(n as u64);
        m.append(" windows match ");
        m.append(quoted(s).as_str());
        m
    }
}

/// A number of at most two digits, in two.
pub open spec fn two_digits(n: nat) -> Seq<char> {
    if n < 10 {
        "0"@ + digits(n)
    } else {
        digits(n)
    }
}

/// How long ago, in seconds, minutes, or hours and minutes.
pub open spec fn ago_of(s: nat) -> Seq<char> {
    if s < 60 {
        digits(s) + "s ago"@
    } else if s < 3600 {
        digits(s / 60) + "m ago"@
    } else {
        digits(s / 3600) + "h"@ + two_digits(s % 3600 / 60) + "m ago"@
    }
}

/// How long ago, in seconds, minutes, or hours and minutes.
pub fn ago(s: u64) -> (r: String)
    ensures
        r@ == ago_of(s as nat),
{
    if s < 60 {
        let mut r: String = decimal(s);
        r.append("s ago");
        r
    } else if s < 3600 {
        let mut r: String = decimal(s / 60);
        r.append("m ago");
        r
    } else {
        let mut r: String = decimal(s / 3600);
        r.append("h");
        let m: u64 = s % 3600 / 60;
        let ghost before = r@;
        if m < 10 {
            r.append("0");
        }
        r.append(decimal(m).as_str());
        proof {
            assert(r@ =~= before + two_digits(m as nat));
        }
        r.append("m ago");
        r
    }
}

/// Where a command was started from: a window, a column by the name it
/// goes by, or the top row.
pub enum Origin {
    Window(WindowId),
    Column(String),
    Top,
}

/// A command that runs: its process, its name, where it was started
/// from, how long ago, its directory and its command line.
pub struct Running {
    pub pid: u64,
    pub name: String,
    pub ctx: Origin,
    pub ago: u64,
    pub dir: String,
    pub cmd: String,
}

/// Where a command was started from.
pub open spec fn started_from(c: Origin) -> Seq<char> {
    match c {
        Origin::Window(w) => {
            let WindowId(n) = w;
            digits(n as nat)
        },
        Origin::Column(c) => "col "@ + c@,
        Origin::Top => "top"@,
    }
}

/// A running command's line.
pub open spec fn proc_line(r: Running) -> Seq<char> {
    digits(r.pid as nat) + "\t"@ + r.name@ + "\t"@ + started_from(r.ctx) + "\t"@ + ago_of(r.ago as nat) + "\t"@ + r.dir@
        + "\t"@ + r.cmd@
}

/// A running command's line.
pub fn print_proc(r: &Running) -> (l: String)
    ensures
        l@ == proc_line(*r),
{
    let mut l: String = decimal(r.pid);
    l.append("\t");
    l.append(r.name.as_str());
    l.append("\t");
    let from: String = match &r.ctx {
        Origin::Window(w) => {
            let WindowId(n) = *w;
            decimal(n)
        },
        Origin::Column(c) => {
            let mut s: String = "col ".to_owned();
            s.append(c.as_str());
            s
        },
        Origin::Top => "top".to_owned(),
    };
    l.append(from.as_str());
    l.append("\t");
    l.append(ago(r.ago).as_str());
    l.append("\t");
    l.append(r.dir.as_str());
    l.append("\t");
    l.append(r.cmd.as_str());
    l
}

/// A name or a process is among those that run.
pub open spec fn is_running(p: Seq<Running>, t: Seq<char>) -> bool {
    exists|i: int| 0 <= i < p.len() && ((#[trigger] p[i]).name@ == t || digits(p[i].pid as nat) == t)
}

fn runs(p: &Vec<Running>, t: &str) -> (r: bool)
    ensures
        r == is_running(p@, t@),
{
    let mut i: usize = 0;
    while i < p.len()
        invariant
            i <= p@.len(),
            forall|j: int| 0 <= j < i ==> (#[trigger] p@[j]).name@ != t@ && digits(p@[j].pid as nat) != t@,
        decreases p@.len() - i,
    {
        if same(p[i].name.as_str(), t) || same(decimal(p[i].pid).as_str(), t) {
            return true;
        }
        i = i + 1;
    }
    false
}

/// What is to be ended is all running; or what is said of the first that
/// is not.
pub fn kill(p: &Vec<Running>, what: &Vec<String>) -> (r: Result<(), String>)
    ensures
        match r {
            Ok(_) => forall|i: int| 0 <= i < what@.len() ==> is_running(p@, (#[trigger] what@[i])@),
            Err(e) => exists|i: int|
                0 <= i < what@.len() && !is_running(p@, (#[trigger] what@[i])@) && e@ == what@[i]@
                    + ": no such command; apex ps lists them"@ && forall|j: int|
                    0 <= j < i ==> is_running(p@, (#[trigger] what@[j])@),
        },
{
    let mut i: usize = 0;
    while i < what.len()
        invariant
            i <= what@.len(),
            forall|j: int| 0 <= j < i ==> is_running(p@, (#[trigger] what@[j])@),
        decreases what@.len() - i,
    {
        if !runs(p, what[i].as_str()) {
            let mut e: String = what[i].clone();
            e.append(": no such command; apex ps lists them");
            proof {
                assert(e@ =~= what@[i as int]@ + ": no such command; apex ps lists them"@);
            }
            return Err(e);
        }
        i = i + 1;
    }
    Ok(())
}

/// The mark of a window in a list: a live one's, an unsaved one's, or
/// none.
pub fn mark(live: bool, dirty: bool) -> (m: &'static str)
    ensures
        m@ == (if live {
            ">"@
        } else if dirty {
            "*"@
        } else {
            " "@
        }),
{
    if live {
        ">"
    } else if dirty {
        "*"
    } else {
        " "
    }
}

/// The words from `i` on, parted by spaces.
pub open spec fn joined_from(a: Seq<Seq<char>>, i: int) -> Seq<char>
    decreases a.len() - i,
{
    if 0 <= i < a.len() - 1 {
        a[i] + " "@ + joined_from(a, i + 1)
    } else if 0 <= i < a.len() {
        a[i]
    } else {
        Seq::empty()
    }
}

/// Words as one text, parted by spaces.
pub fn join(a: &Vec<String>, from: usize) -> (r: String)
    ensures
        r@ == joined_from(strs(a@), from as int),
{
    let ghost all = strs(a@);
    let mut out: String = String::new();
    let mut i: usize = from;
    proof {
        assert(out@ + joined_from(all, from as int) =~= joined_from(all, from as int));
    }
    while i < a.len()
        invariant
            from <= i,
            all == strs(a@),
            i <= a@.len() || i == from,
            out@ + joined_from(all, i as int) == joined_from(all, from as int),
        decreases a@.len() - i,
    {
        let ghost before = out@;
        proof {
            assert(all[i as int] == a@[i as int]@);
        }
        out.append(a[i].as_str());
        if i + 1 < a.len() {
            out.append(" ");
            proof {
                assert(out@ + joined_from(all, i + 1) =~= before + (all[i as int] + " "@ + joined_from(all, i + 1)));
            }
        } else {
            proof {
                assert(out@ + joined_from(all, i + 1) =~= before + all[i as int]);
            }
        }
        i = i + 1;
    }
    proof {
        assert(out@ + joined_from(all, i as int) =~= out@);
    }
    out
}

/// The command that makes a terminal, running a command or a shell.
pub fn newterm(args: &Vec<String>) -> (r: String)
    ensures
        r@ == (if args@.len() > 1 {
            "Newterm "@ + joined_from(strs(args@), 1)
        } else {
            "Newterm"@
        }),
{
    let mut r: String = "Newterm".to_owned();
    if args.len() > 1 {
        r.append(" ");
        r.append(join(args, 1).as_str());
        proof {
            reveal_strlit("Newterm ");
            reveal_strlit("Newterm");
            reveal_strlit(" ");
            assert("Newterm"@ + " "@ =~= "Newterm "@);
        }
    }
    r
}

/// What is typed into a terminal: text, and the Enter key after it.
pub struct Typed {
    pub text: Option<String>,
    pub enter: bool,
}

/// Text for a terminal: a final newline is the Enter key, since shells
/// take a pasted newline literally.
pub fn term_send(text: &str) -> (t: Typed)
    ensures
        t.enter == (text@.len() > 0 && (text@.last() == '\r' || text@.last() == '\n')),
        ({
            let rest = if t.enter {
                text@.drop_last()
            } else {
                text@
            };
            maybe(t.text) == (if rest.len() > 0 {
                Some(rest)
            } else {
                None
            })
        }),
{
    let c: Vec<char> = chars_of(text);
    let n: usize = c.len();
    let enter = n > 0 && (c[n - 1] == '\r' || c[n - 1] == '\n');
    let z: usize = if enter {
        n - 1
    } else {
        n
    };
    let rest: Vec<char> = slice_of(c.as_slice(), 0, z);
    proof {
        assert(rest@ =~= if enter {
            text@.drop_last()
        } else {
            text@
        });
    }
    Typed {
        text: if rest.len() > 0 {
            Some(string_of(rest.as_slice()))
        } else {
            None
        },
        enter,
    }
}

/// A row of a terminal's screen, without the blanks it ends with.
pub fn term_row(row: &[char]) -> (r: String)
    ensures
        r@ == row@.take(trimmed_end(row@, row@.len() as int)),
{
    let z: usize = trim_end(row, row.len());
    let s: Vec<char> = slice_of(row, 0, z);
    proof {
        assert(s@ =~= row@.take(z as int));
    }
    string_of(s.as_slice())
}

/// The terminal that a text names: a number of one that is there.
pub fn find_term(terms: &Vec<TermId>, s: &str) -> (r: Result<TermId, String>)
    ensures
        match r {
            Ok(t) => number(s@) is Some && t == TermId(number(s@)->0) && terms@.contains(t),
            Err(e) => match number(s@) {
                None => e@ == "TERM must be a number"@,
                Some(n) => !terms@.contains(TermId(n)) && e@ == "no terminal "@ + digits(n as nat),
            },
        },
{
    let c: Vec<char> = chars_of(s);
    match parse(c.as_slice()) {
        None => Err("TERM must be a number".to_owned()),
        Some(n) => {
            let mut i: usize = 0;
            while i < terms.len()
                invariant
                    i <= terms@.len(),
                    number(s@) == Some(n),
                    forall|j: int| 0 <= j < i ==> terms@[j] != TermId(n),
                decreases terms@.len() - i,
            {
                if terms[i] == TermId(n) {
                    return Ok(TermId(n));
                }
                i = i + 1;
            }
            let mut e: String = "no terminal ".to_owned();
            e.append(decimal(n).as_str());
            Err(e)
        },
    }
}

/// A variable and its value.
pub struct Var {
    pub key: String,
    pub value: String,
}

/// Variables as values.
pub open spec fn vars(s: Seq<Var>) -> Seq<(Seq<char>, Seq<char>)> {
    s.map_values(|v: Var| (v.key@, v.value@))
}

/// An argument that sets a variable: its name, and its value.
pub open spec fn assigned(a: Seq<char>) -> Option<(Seq<char>, Seq<char>)> {
    let e = find(a, '=', 0);
    if 0 <= e < a.len() {
        Some((a.take(e), a.skip(e + 1)))
    } else {
        None
    }
}

/// The variables that arguments set; or what is said of the first that
/// sets none.
pub fn env_args(args: &Vec<String>) -> (r: Result<Vec<Var>, String>)
    ensures
        match r {
            Ok(v) => v@.len() == args@.len() && forall|i: int|
                0 <= i < args@.len() ==> assigned(args@[i]@) == Some(#[trigger] vars(v@)[i]),
            Err(e) => exists|i: int|
                0 <= i < args@.len() && assigned((#[trigger] args@[i])@) is None && e@ == args@[i]@
                    + ": not KEY=VALUE"@ && forall|j: int| 0 <= j < i ==> assigned((#[trigger] args@[j])@) is Some,
        },
{
    let mut out: Vec<Var> = Vec::new();
    let mut i: usize = 0;
    while i < args.len()
        invariant
            i <= args@.len(),
            out@.len() == i,
            forall|j: int| 0 <= j < i ==> assigned(args@[j]@) == Some(#[trigger] vars(out@)[j]),
            forall|j: int| 0 <= j < i ==> assigned((#[trigger] args@[j])@) is Some,
        decreases args@.len() - i,
    {
        let ghost before = out@;
        let c: Vec<char> = chars_of(args[i].as_str());
        let e: usize = find_char(c.as_slice(), '=', 0);
        if e >= c.len() {
            let mut m: String = args[i].clone();
            m.append(": not KEY=VALUE");
            proof {
                assert(m@ =~= args@[i as int]@ + ": not KEY=VALUE"@);
                assert(assigned(args@[i as int]@) is None);
            }
            return Err(m);
        }
        let k: Vec<char> = slice_of(c.as_slice(), 0, e);
        let v: Vec<char> = slice_of(c.as_slice(), e + 1, c.len());
        proof {
            assert(k@ =~= args@[i as int]@.take(e as int));
            assert(v@ =~= args@[i as int]@.skip(e + 1));
        }
        let var = Var { key: string_of(k.as_slice()), value: string_of(v.as_slice()) };
        out.push(var);
        proof {
            assert forall|j: int| 0 <= j <= i implies assigned(args@[j]@) == Some(#[trigger] vars(out@)[j]) by {
                if j < i {
                    assert(vars(out@)[j] == vars(before)[j]);
                }
            }
        }
        i = i + 1;
    }
    Ok(out)
}

/// Where the `r`s that a rule's id starts with end.
pub open spec fn past_rs(s: Seq<char>, i: int) -> int
    decreases s.len() - i,
{
    if 0 <= i < s.len() && s[i] == 'r' {
        past_rs(s, i + 1)
    } else {
        i
    }
}

/// The number of a rule's id; or what is said of a text that is none.
pub fn rule_id(a: &str) -> (r: Result<u64, String>)
    ensures
        match r {
            Ok(n) => number(a@.skip(past_rs(a@, 0))) == Some(n),
            Err(e) => number(a@.skip(past_rs(a@, 0))) is None && e@ == "rule rm: "@ + a@ + ": not a rule id"@,
        },
{
    let c: Vec<char> = chars_of(a);
    let mut i: usize = 0;
    while i < c.len() && c[i] == 'r'
        invariant
            i <= c@.len(),
            c@ == a@,
            past_rs(a@, i as int) == past_rs(a@, 0),
        decreases c@.len() - i,
    {
        i = i + 1;
    }
    let rest: Vec<char> = slice_of(c.as_slice(), i, c.len());
    proof {
        assert(rest@ =~= a@.skip(i as int));
    }
    match parse(rest.as_slice()) {
        Some(n) => Ok(n),
        None => {
            let mut e: String = "rule rm: ".to_owned();
            e.append(a);
            e.append(": not a rule id");
            Err(e)
        },
    }
}

/// The sequence that titles a terminal's window.
pub fn label(text: &str) -> (s: String)
    ensures
        s@ == "\u{1b}];"@ + text@ + "\u{7}"@,
{
    let mut s: String = "\u{1b}];".to_owned();
    s.append(text);
    s.append("\u{7}");
    s
}

/// The sequences that report a terminal's directory, and title its
/// window.
pub fn awd(host: &str, dir: &str, title: &str) -> (s: String)
    ensures
        s@ == "\u{1b}]7;file://"@ + host@ + dir@ + "\u{7}\u{1b}];"@ + title@ + "\u{7}"@,
{
    let mut s: String = "\u{1b}]7;file://".to_owned();
    s.append(host);
    s.append(dir);
    s.append("\u{7}\u{1b}];");
    s.append(title);
    s.append("\u{7}");
    s
}

/// A name that is a whole path.
pub fn is_absolute(name: &str) -> (r: bool)
    ensures
        r == (name@.len() > 0 && name@[0] == '/'),
{
    let c: Vec<char> = chars_of(name);
    c.len() > 0 && c[0] == '/'
}

/// The program's own name is that of the editor's link.
pub fn is_editor(argv0: &str) -> (r: bool)
    ensures
        r == ({
            let n = crate::fuzzy::name_start(argv0@, argv0@.len() as int);
            argv0@.skip(n) == "apex-editor"@
        }),
{
    let c: Vec<char> = chars_of(argv0);
    let n: usize = crate::fuzzy::name_of(c.as_slice());
    let name: Vec<char> = slice_of(c.as_slice(), n, c.len());
    let s: String = string_of(name.as_slice());
    proof {
        assert(s@ =~= argv0@.skip(n as int));
    }
    same(s.as_str(), "apex-editor")
}

} // verus!
