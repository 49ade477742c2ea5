//! The command line taken apart: the flags that apply to every command,
//! the command, its own flags, and how it ended.

use vstd::prelude::*;
use vstd::string::*;

use crate::cli::{command_at, find_command, is_editor, Cmd};
use crate::flags::{parse, parsed_from, rest_of, Flag, Parsed, Refusal, Refused};
use crate::fuzzy::name_start;
use crate::selector::strs;
use crate::session::maybe;
use crate::text::same;

verus! {

/// What a command line comes to, once its first flags are read.
pub enum Step {
    /// The commands and the topics are told.
    Overview,
    /// This much is wrong with the first flags.
    Die(String),
    /// Help is asked for: of something, or of everything.
    Help(Option<String>),
    /// There is no such command.
    Unknown(String),
    /// The command's usage is asked for.
    Usage(usize),
    /// This much is wrong with the command's flags.
    Misused(usize, String),
    /// The command runs.
    Run(usize, Parsed),
}

/// A [`Step`] as a value.
pub ghost enum Going {
    Overview,
    Die(Seq<char>),
    Help(Option<Seq<char>>),
    Unknown(Seq<char>),
    Usage(int),
    Misused(int, Seq<char>),
    Run(int, Map<Seq<char>, Seq<char>>, Seq<Seq<char>>),
}

impl View for Step {
    type V = Going;

    open spec fn view(&self) -> Going {
        match self {
            Step::Overview => Going::Overview,
            Step::Die(m) => Going::Die(m@),
            Step::Help(w) => Going::Help(maybe(*w)),
            Step::Unknown(m) => Going::Unknown(m@),
            Step::Usage(i) => Going::Usage(*i as int),
            Step::Misused(i, m) => Going::Misused(*i as int, m@),
            Step::Run(i, p) => Going::Run(*i as int, p.all(), strs(p.args@)),
        }
    }
}

/// The arguments as they are read: through the editor's link they are
/// the editor's.
pub open spec fn through_link(argv0: Seq<char>, a: Seq<Seq<char>>) -> Seq<Seq<char>> {
    if argv0.skip(name_start(argv0, argv0.len() as int)) == "apex-editor"@ {
        seq!["editor"@] + a
    } else {
        a
    }
}

/// The arguments as they are read.
pub fn arguments(argv0: &str, args: &Vec<String>) -> (r: Vec<String>)
    ensures
        strs(r@) == through_link(argv0@, strs(args@)),
{
    let copied: Vec<String> = rest_of(args, 0);
    proof {
        assert(strs(args@).skip(0) =~= strs(args@));
    }
    if !is_editor(argv0) {
        return copied;
    }
    let mut out: Vec<String> = Vec::new();
    out.push("editor".to_owned());
    let ghost first = out@;
    let mut i: usize = 0;
    proof {
        assert(strs(out@) =~= seq!["editor"@] + strs(args@).take(0));
    }
    while i < args.len()
        invariant
            i <= args@.len(),
            strs(out@) == seq!["editor"@] + strs(args@).take(i as int),
        decreases args@.len() - i,
    {
        let ghost before = out@;
        out.push(args[i].clone());
        i = i + 1;
        proof {
            assert(strs(out@) =~= strs(before).push(args@[i - 1]@));
            assert(strs(out@) =~= seq!["editor"@] + strs(args@).take(i as int));
        }
    }
    proof {
        assert(strs(args@).take(i as int) =~= strs(args@));
    }
    out
}

/// What the arguments after the first flags come to.
pub open spec fn going_of(c: Seq<Cmd>, rest: Seq<Seq<char>>) -> Going {
    if rest.len() == 0 {
        Going::Overview
    } else if rest[0] == "help"@ {
        Going::Help(
            if rest.len() > 1 {
                Some(rest[1])
            } else {
                None
            },
        )
    } else {
        let i = command_at(c, rest[0], 0);
        if i >= c.len() {
            Going::Unknown("apex "@ + rest[0] + ": unknown command\nRun 'apex help' for usage."@)
        } else {
            match parsed_from(c[i].flags@, rest.skip(1), 0, Map::empty()) {
                Err(Refusal::Help) => Going::Usage(i),
                Err(e) => Going::Misused(i, "apex "@ + rest[0] + ": "@ + e.said()),
                Ok((m, k)) => Going::Run(i, m, rest.skip(1).skip(k)),
            }
        }
    }
}

/// What a command line comes to: with the first flags, where they are
/// in order.
pub open spec fn going(c: Seq<Cmd>, global: Seq<Flag>, a: Seq<Seq<char>>) -> (Map<Seq<char>, Seq<char>>, Going) {
    match parsed_from(global, a, 0, Map::empty()) {
        Err(Refusal::Help) => (Map::empty(), Going::Overview),
        Err(e) => (Map::empty(), Going::Die("apex: "@ + e.said() + "\nRun 'apex help' for usage."@)),
        Ok((m, i)) => (m, going_of(c, a.skip(i))),
    }
}

/// A command line: the flags that apply to every command, and the step.
pub struct Line {
    pub global: Parsed,
    pub step: Step,
}

fn step_of(c: &Vec<Cmd>, rest: &Vec<String>) -> (s: Step)
    ensures
        s@ == going_of(c@, strs(rest@)),
{
    let ghost r = strs(rest@);
    if rest.len() == 0 {
        return Step::Overview;
    }
    proof {
        assert(r[0] == rest@[0]@);
    }
    if same(rest[0].as_str(), "help") {
        if rest.len() > 1 {
            proof {
                assert(r[1] == rest@[1]@);
            }
            return Step::Help(Some(rest[1].clone()));
        }
        return Step::Help(None);
    }
    match find_command(c, rest[0].as_str()) {
        None => {
            let mut m: String = "apex ".to_owned();
            m.append(rest[0].as_str());
            m.append(": unknown command\nRun 'apex help' for usage.");
            Step::Unknown(m)
        },
        Some(i) => {
            let own: Vec<String> = rest_of(rest, 1);
            match parse(c[i].flags.as_slice(), &own) {
                Err(Refused::Help) => Step::Usage(i),
                Err(e) => {
                    let mut m: String = "apex ".to_owned();
                    m.append(rest[0].as_str());
                    m.append(": ");
                    m.append(e.message().as_str());
                    Step::Misused(i, m)
                },
                Ok(p) => Step::Run(i, p),
            }
        },
    }
}

/// A command line taken apart.
pub fn read(c: &Vec<Cmd>, global: &Vec<Flag>, args: &Vec<String>) -> (l: Line)
    ensures
        (l.global.all(), l.step@) == going(c@, global@, strs(args@)),
{
    match parse(global.as_slice(), args) {
        Err(Refused::Help) => Line { global: Parsed { flags: Vec::new(), args: Vec::new() }, step: Step::Overview },
        Err(e) => {
            let mut m: String = "apex: ".to_owned();
            m.append(e.message().as_str());
            m.append("\nRun 'apex help' for usage.");
            Line { global: Parsed { flags: Vec::new(), args: Vec::new() }, step: Step::Die(m) }
        },
        Ok(p) => {
            let step = step_of(c, &p.args);
            Line { global: p, step }
        },
    }
}

/// How a command ended: with this status, this message where there is
/// one, and its usage or not.
pub struct Ended {
    pub status: u8,
    pub message: Option<String>,
    pub usage: bool,
}

/// How a command ended: well; on arguments that are not its own, which
/// its usage tells; or on something else.
pub fn ended(name: &str, r: &Result<(), String>) -> (e: Ended)
    ensures
        match *r {
            Ok(_) => e.status == 0 && e.message is None && !e.usage,
            Err(m) => if m@ == "usage"@ {
                e.status == 2 && e.message is None && e.usage
            } else {
                e.status == 1 && maybe(e.message) == Some("apex "@ + name@ + ": "@ + m@) && !e.usage
            },
        },
{
    match r {
        Ok(_) => Ended { status: 0, message: None, usage: false },
        Err(m) => {
            if same(m.as_str(), "usage") {
                Ended { status: 2, message: None, usage: true }
            } else {
                let mut s: String = "apex ".to_owned();
                s.append(name);
                s.append(": ");
                s.append(m.as_str());
                Ended { status: 1, message: Some(s), usage: false }
            }
        },
    }
}

/// Every name in the list of commands runs that command and no other,
/// where the names differ and its arguments have no flags.
pub proof fn law_a_command_is_found_by_its_name(c: Seq<Cmd>, k: int)
    requires
        0 <= k < c.len(),
        forall|i: int, j: int| 0 <= i < j < c.len() ==> (#[trigger] c[i]).name@ != (#[trigger] c[j]).name@,
        c[k].name@ != "help"@,
    ensures
        going_of(c, seq![c[k].name@]) == Going::Run(k, Map::empty(), Seq::empty()),
{
    lemma_found(c, k, 0);
    let rest = seq![c[k].name@];
    assert(rest.skip(1) =~= Seq::<Seq<char>>::empty());
    assert(rest.skip(1).skip(0) =~= Seq::<Seq<char>>::empty());
}

proof fn lemma_found(c: Seq<Cmd>, k: int, i: int)
    requires
        0 <= i <= k < c.len(),
        forall|i: int, j: int| 0 <= i < j < c.len() ==> (#[trigger] c[i]).name@ != (#[trigger] c[j]).name@,
    ensures
        command_at(c, c[k].name@, i) == k,
    decreases k - i,
{
    if i < k {
        assert(c[i].name@ != c[k].name@);
        lemma_found(c, k, i + 1);
    }
}

} // verus!
