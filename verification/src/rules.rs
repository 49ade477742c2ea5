//! The plumbing rules: what the flags of `apex plumb rule add` say, and
//! how the table is listed.

use vstd::prelude::*;
use vstd::string::*;

use crate::finder::WinKind;
use crate::flags::{quoted, quoted_as, value_in, Parsed};
use crate::num::{integer, parse_signed, signed, signed_digits};
use crate::session::maybe;
use crate::text::{chars_of, same};

verus! {

/// What a rule does.
pub enum RuleAction {
    Edit(String),
    Run(String),
    Tool(String),
    Client(String, String),
}

/// A [`RuleAction`] as a value.
pub enum Doing {
    Edit(Seq<char>),
    Run(Seq<char>),
    Tool(Seq<char>),
    Client(Seq<char>, Seq<char>),
}

impl View for RuleAction {
    type V = Doing;

    open spec fn view(&self) -> Doing {
        match self {
            RuleAction::Edit(s) => Doing::Edit(s@),
            RuleAction::Run(s) => Doing::Run(s@),
            RuleAction::Tool(s) => Doing::Tool(s@),
            RuleAction::Client(v, a) => Doing::Client(v@, a@),
        }
    }
}

/// Where what a rule runs writes.
#[derive(Clone, Copy, Debug, PartialEq, Eq, Structural)]
pub enum RunTo {
    Errors,
    Window,
}

/// A rule: what it matches, and what it does.
pub struct PlumbRule {
    pub verb: String,
    pub text: Option<String>,
    pub file: Option<String>,
    pub kind: Option<WinKind>,
    pub isfile: Option<String>,
    pub isdir: Option<String>,
    pub action: RuleAction,
    pub to: Option<RunTo>,
}

/// A [`PlumbRule`] as a value.
pub ghost struct Rule {
    pub verb: Seq<char>,
    pub text: Option<Seq<char>>,
    pub file: Option<Seq<char>>,
    pub kind: Option<WinKind>,
    pub isfile: Option<Seq<char>>,
    pub isdir: Option<Seq<char>>,
    pub action: Doing,
    pub to: Option<RunTo>,
}

impl View for PlumbRule {
    type V = Rule;

    open spec fn view(&self) -> Rule {
        Rule {
            verb: self.verb@,
            text: maybe(self.text),
            file: maybe(self.file),
            kind: self.kind,
            isfile: maybe(self.isfile),
            isdir: maybe(self.isdir),
            action: self.action@,
            to: self.to,
        }
    }
}

/// A kind of window by its name.
pub open spec fn kind_named(k: Seq<char>) -> Option<WinKind> {
    if k == "file"@ {
        Some(WinKind::File)
    } else if k == "dir"@ {
        Some(WinKind::Dir)
    } else if k == "term"@ {
        Some(WinKind::Term)
    } else if k == "errors"@ {
        Some(WinKind::Errors)
    } else if k == "web"@ {
        Some(WinKind::Web)
    } else {
        None
    }
}

impl WinKind {
    /// A kind of window by its name.
    pub fn parse(k: &str) -> (r: Option<WinKind>)
        ensures
            r == kind_named(k@),
    {
        if same(k, "file") {
            Some(WinKind::File)
        } else if same(k, "dir") {
            Some(WinKind::Dir)
        } else if same(k, "term") {
            Some(WinKind::Term)
        } else if same(k, "errors") {
            Some(WinKind::Errors)
        } else if same(k, "web") {
            Some(WinKind::Web)
        } else {
            None
        }
    }
}

/// A value, or another in its place.
pub open spec fn or(v: Option<Seq<char>>, other: Seq<char>) -> Seq<char> {
    match v {
        Some(v) => v,
        None => other,
    }
}

/// How many of the flags that say what a rule does are given.
pub open spec fn actions(m: Map<Seq<char>, Seq<char>>) -> int {
    (if m.contains_key("edit"@) {
        1int
    } else {
        0
    }) + (if m.contains_key("run"@) {
        1int
    } else {
        0
    }) + (if m.contains_key("tool"@) {
        1int
    } else {
        0
    }) + (if m.contains_key("client"@) {
        1int
    } else {
        0
    })
}

/// What a rule does, where one flag says it.
pub open spec fn action_of(m: Map<Seq<char>, Seq<char>>) -> Doing {
    if m.contains_key("edit"@) {
        Doing::Edit(m["edit"@])
    } else if m.contains_key("run"@) {
        Doing::Run(m["run"@])
    } else if m.contains_key("tool"@) {
        Doing::Tool(m["tool"@])
    } else {
        Doing::Client(m["client"@], or(value_in(m, "args"@), Seq::empty()))
    }
}

/// The rule that flags are, its priority, and whether it is the
/// attachment's own; or what is said of them.
pub open spec fn ruled(m: Map<Seq<char>, Seq<char>>) -> Result<(Rule, i32, bool), Seq<char>> {
    let kind = value_in(m, "kind"@);
    let to = value_in(m, "to"@);
    let priority = value_in(m, "priority"@);
    if actions(m) == 0 {
        Err("rule add: one of -edit, -run, -client or -tool"@)
    } else if actions(m) > 1 {
        Err("rule add: only one of -edit, -run, -client and -tool"@)
    } else if kind is Some && kind_named(kind->0) is None {
        Err("-kind="@ + kind->0 + ": file, dir, term or errors"@)
    } else if to is Some && to->0 != "errors"@ && to->0 != "window"@ {
        Err("-to="@ + to->0 + ": errors or window"@)
    } else if priority is Some && integer(priority->0) is None {
        Err("-priority="@ + priority->0 + ": not a number"@)
    } else {
        Ok(
            (
                Rule {
                    verb: or(value_in(m, "verb"@), "plumb"@),
                    text: value_in(m, "text"@),
                    file: value_in(m, "file"@),
                    kind: match kind {
                        Some(k) => kind_named(k),
                        None => None,
                    },
                    isfile: value_in(m, "isfile"@),
                    isdir: value_in(m, "isdir"@),
                    action: action_of(m),
                    to: match to {
                        Some(t) => Some(
                            if t == "errors"@ {
                                RunTo::Errors
                            } else {
                                RunTo::Window
                            },
                        ),
                        None => None,
                    },
                },
                match priority {
                    Some(p) => integer(p)->0,
                    None => 0,
                },
                m.contains_key("mine"@),
            ),
        )
    }
}

/// A rule, its priority, and whether it is the attachment's own.
pub struct Ruling {
    pub rule: PlumbRule,
    pub priority: i32,
    pub mine: bool,
}

fn owned(v: Option<&str>) -> (r: Option<String>)
    ensures
        maybe(r) == (match v {
            Some(v) => Some(v@),
            None => None,
        }),
{
    match v {
        Some(v) => Some(v.to_owned()),
        None => None,
    }
}

fn refuse(flag: &str, v: &str, why: &str) -> (e: String)
    ensures
        e@ == flag@ + v@ + why@,
{
    let mut e: String = flag.to_owned();
    e.append(v);
    e.append(why);
    e
}

/// The flags of `apex plumb rule add`, as a rule.
pub fn rule_of(f: &Parsed) -> (r: Result<Ruling, String>)
    ensures
        match r {
            Ok(r) => ruled(f.all()) == Ok::<(Rule, i32, bool), Seq<char>>((r.rule@, r.priority, r.mine)),
            Err(e) => ruled(f.all()) == Err::<(Rule, i32, bool), Seq<char>>(e@),
        },
{
    let edit = f.get("edit");
    let run = f.get("run");
    let tool = f.get("tool");
    let client = f.get("client");
    let mut n: u8 = 0;
    if edit.is_some() {
        n = n + 1;
    }
    if run.is_some() {
        n = n + 1;
    }
    if tool.is_some() {
        n = n + 1;
    }
    if client.is_some() {
        n = n + 1;
    }
    if n > 1 {
        return Err("rule add: only one of -edit, -run, -client and -tool".to_owned());
    }
    let action: RuleAction = match (edit, run, tool, client) {
        (Some(v), _, _, _) => RuleAction::Edit(v.to_owned()),
        (_, Some(v), _, _) => RuleAction::Run(v.to_owned()),
        (_, _, Some(v), _) => RuleAction::Tool(v.to_owned()),
        (_, _, _, Some(v)) => {
            let args: String = match f.get("args") {
                Some(a) => a.to_owned(),
                None => String::new(),
            };
            proof {
                assert(args@ =~= or(value_in(f.all(), "args"@), Seq::empty()));
            }
            RuleAction::Client(v.to_owned(), args)
        },
        _ => {
            return Err("rule add: one of -edit, -run, -client or -tool".to_owned());
        },
    };
    let kind: Option<WinKind> = match f.get("kind") {
        Some(k) => match WinKind::parse(k) {
            Some(w) => Some(w),
            None => {
                return Err(refuse("-kind=", k, ": file, dir, term or errors"));
            },
        },
        None => None,
    };
    let to: Option<RunTo> = match f.get("to") {
        Some(t) => {
            if same(t, "errors") {
                Some(RunTo::Errors)
            } else if same(t, "window") {
                Some(RunTo::Window)
            } else {
                return Err(refuse("-to=", t, ": errors or window"));
            }
        },
        None => None,
    };
    let priority: i32 = match f.get("priority") {
        Some(v) => {
            let c: Vec<char> = chars_of(v);
            match parse_signed(c.as_slice()) {
                Some(n) => n,
                None => {
                    return Err(refuse("-priority=", v, ": not a number"));
                },
            }
        },
        None => 0,
    };
    let verb: String = match f.get("verb") {
        Some(v) => v.to_owned(),
        None => "plumb".to_owned(),
    };
    let rule = PlumbRule {
        verb,
        text: owned(f.get("text")),
        file: owned(f.get("file")),
        kind,
        isfile: owned(f.get("isfile")),
        isdir: owned(f.get("isdir")),
        action,
        to,
    };
    Ok(Ruling { rule, priority, mine: f.is("mine") })
}

/// The priority of the rules that a client brings.
pub const OWN: i32 = -10;

/// A rule of a client's own: what it matches, and what the client does.
pub open spec fn own_rule(
    verb: Seq<char>,
    text: Option<Seq<char>>,
    file: Option<Seq<char>>,
    kind: Option<WinKind>,
    does: Seq<char>,
    args: Seq<char>,
) -> Rule {
    Rule { verb, text, file, kind, isfile: None, isdir: None, action: Doing::Client(does, args), to: None }
}

/// The rules that a client brings: it can open things the way the
/// platform does, and addresses go there; and it takes the last command's
/// output in terminals and in windows on a shell.
pub open spec fn armed() -> Seq<Rule> {
    seq![
        own_rule("plumb"@, Some("https?://\\S+"@), None, None, "open"@, "$0"@),
        own_rule("Snarfout"@, None, None, Some(WinKind::Term), "snarfout"@, "$win"@),
        own_rule("Snarfout"@, None, Some("/-[^/]+$"@), Some(WinKind::File), "snarfout"@, "$win"@),
    ]
}

/// Rules as values.
pub open spec fn rules(s: Seq<PlumbRule>) -> Seq<Rule> {
    s.map_values(|r: PlumbRule| r@)
}

/// The rules that a client brings.
pub fn arm() -> (r: Vec<PlumbRule>)
    ensures
        rules(r@) == armed(),
{
    let mut out: Vec<PlumbRule> = Vec::new();
    out.push(
        PlumbRule {
            verb: "plumb".to_owned(),
            text: Some("https?://\\S+".to_owned()),
            file: None,
            kind: None,
            isfile: None,
            isdir: None,
            action: RuleAction::Client("open".to_owned(), "$0".to_owned()),
            to: None,
        },
    );
    out.push(
        PlumbRule {
            verb: "Snarfout".to_owned(),
            text: None,
            file: None,
            kind: Some(WinKind::Term),
            isfile: None,
            isdir: None,
            action: RuleAction::Client("snarfout".to_owned(), "$win".to_owned()),
            to: None,
        },
    );
    out.push(
        PlumbRule {
            verb: "Snarfout".to_owned(),
            text: None,
            file: Some("/-[^/]+$".to_owned()),
            kind: Some(WinKind::File),
            isfile: None,
            isdir: None,
            action: RuleAction::Client("snarfout".to_owned(), "$win".to_owned()),
            to: None,
        },
    );
    proof {
        assert(rules(out@) =~= armed());
    }
    out
}

/// What is said of an argument after the flags of `rule add`.
pub fn unexpected(a: &str) -> (m: String)
    ensures
        m@ == "rule add: unexpected argument "@ + quoted_as(a@),
{
    let mut m: String = "rule add: unexpected argument ".to_owned();
    m.append(quoted(a).as_str());
    m
}

/// Whose a rule or a setting is: the session's, an attachment's by its
/// name and id, or one's that has gone by its id.
pub open spec fn owner_said(of_session: bool, name: Option<Seq<char>>, id: Seq<char>) -> Seq<char> {
    if of_session {
        "session"@
    } else {
        match name {
            Some(n) => n + "("@ + id + ")"@,
            None => id,
        }
    }
}

/// Whose a rule or a setting is.
pub fn owner(of_session: bool, name: Option<&str>, id: &str) -> (s: String)
    ensures
        s@ == owner_said(
            of_session,
            match name {
                Some(n) => Some(n@),
                None => None,
            },
            id@,
        ),
{
    if of_session {
        return "session".to_owned();
    }
    match name {
        Some(n) => {
            let mut s: String = n.to_owned();
            s.append("(");
            s.append(id);
            s.append(")");
            s
        },
        None => id.to_owned(),
    }
}

/// A rule's line in the table: its id, whose it is, its priority, and
/// the flags that would add it.
pub fn rule_line(id: &str, whose: &str, priority: i32, flags: &str) -> (l: String)
    ensures
        l@ == id@ + "\t"@ + whose@ + "\tp"@ + signed_digits(priority as int) + "\t"@ + flags@,
{
    let mut l: String = id.to_owned();
    l.append("\t");
    l.append(whose);
    l.append("\tp");
    l.append(signed(priority).as_str());
    l.append("\t");
    l.append(flags);
    l
}

/// A setting's line: whose it is, its key and its value.
pub fn set_line(whose: &str, key: &str, value: &str) -> (l: String)
    ensures
        l@ == whose@ + "\t"@ + key@ + "\t"@ + value@,
{
    let mut l: String = whose.to_owned();
    l.append("\t");
    l.append(key);
    l.append("\t");
    l.append(value);
    l
}

/// A rule does one thing: the flags that say what are refused unless one
/// of them is given.
pub proof fn law_a_rule_does_one_thing(m: Map<Seq<char>, Seq<char>>)
    ensures
        ruled(m) is Ok ==> actions(m) == 1,
        actions(m) != 1 ==> ruled(m) is Err,
{
}

/// A rule does what its one action is given for: edits, runs, asks a tool, or
/// asks the client with the arguments that are given.
pub proof fn law_a_rules_action_is_the_one_given(m: Map<Seq<char>, Seq<char>>)
    requires
        actions(m) == 1,
    ensures
        m.contains_key("edit"@) ==> action_of(m) == Doing::Edit(m["edit"@]),
        m.contains_key("run"@) ==> action_of(m) == Doing::Run(m["run"@]),
        m.contains_key("tool"@) ==> action_of(m) == Doing::Tool(m["tool"@]),
        m.contains_key("client"@) && m.contains_key("args"@) ==> action_of(m) == Doing::Client(m["client"@], m["args"@]),
        m.contains_key("client"@) && !m.contains_key("args"@) ==> action_of(m) == Doing::Client(
            m["client"@],
            Seq::empty(),
        ),
{
}

/// A rule that is taken has every condition that is given and no other; it is
/// for plumbing where no verb is given, and of no priority where none is.
pub proof fn law_a_rule_has_the_conditions_given(m: Map<Seq<char>, Seq<char>>)
    requires
        ruled(m) is Ok,
    ensures
        ({
            let (r, priority, mine) = ruled(m)->Ok_0;
            &&& m.contains_key("verb"@) ==> r.verb == m["verb"@]
            &&& !m.contains_key("verb"@) ==> r.verb == "plumb"@
            &&& r.text is Some <==> m.contains_key("text"@)
            &&& m.contains_key("text"@) ==> r.text == Some(m["text"@])
            &&& r.file is Some <==> m.contains_key("file"@)
            &&& m.contains_key("file"@) ==> r.file == Some(m["file"@])
            &&& r.isfile is Some <==> m.contains_key("isfile"@)
            &&& m.contains_key("isfile"@) ==> r.isfile == Some(m["isfile"@])
            &&& r.isdir is Some <==> m.contains_key("isdir"@)
            &&& m.contains_key("isdir"@) ==> r.isdir == Some(m["isdir"@])
            &&& r.kind is Some <==> m.contains_key("kind"@)
            &&& r.to is Some <==> m.contains_key("to"@)
            &&& m.contains_key("to"@) && m["to"@] == "errors"@ ==> r.to == Some(RunTo::Errors)
            &&& m.contains_key("to"@) && m["to"@] == "window"@ && "errors"@ != "window"@ ==> r.to == Some(RunTo::Window)
            &&& !m.contains_key("priority"@) ==> priority == 0
            &&& m.contains_key("priority"@) ==> integer(m["priority"@]) == Some(priority)
            &&& mine <==> m.contains_key("mine"@)
        }),
{
}

/// A kind is told by its own name.
pub proof fn law_kinds_are_told_by_their_names()
    ensures
        kind_named("file"@) == Some(WinKind::File),
        kind_named("dir"@) == Some(WinKind::Dir),
        kind_named("term"@) == Some(WinKind::Term),
        kind_named("errors"@) == Some(WinKind::Errors),
        kind_named("web"@) == Some(WinKind::Web),
        forall|k: Seq<char>|
            k != "file"@ && k != "dir"@ && k != "term"@ && k != "errors"@ && k != "web"@ ==> #[trigger] kind_named(k) is None,
{
    reveal_strlit("file");
    reveal_strlit("dir");
    reveal_strlit("term");
    reveal_strlit("errors");
    reveal_strlit("web");
    assert("file"@.len() == 4 && "dir"@.len() == 3 && "term"@.len() == 4 && "errors"@.len() == 6 && "web"@.len() == 3);
    assert("file"@[0] == 'f' && "term"@[0] == 't' && "dir"@[0] == 'd' && "web"@[0] == 'w');
}

} // verus!
