//! The command line.

use apex::cli::{
    ago, awd, env_args, find_command, find_term, find_window, help, is_absolute, is_editor, join, kill, label, mark,
    newterm, not_found, overview, print_proc, rule_id, session, term_row, term_send, usage, Cmd, Found, Origin, Running,
    Topic, Win,
};
use apex::commands::{
    attach, end_session, env_cmd, events, exec, one, one_or_none, plumb, previewed, rename_session, sel, term, text,
    tool_cmd, wait, web, web_name, win, EnvCmd, Heard, NotSel, PlumbCmd, Sel, TermCmd, Tool, Waiting, WebCmd, WinCmd,
};
use apex::dispatch::{arguments, ended, read, Step};
use apex::finder::WinKind;
use apex::flags::{flag, parse, switch, Flag, Refused};
use apex::ids::{TermId, WindowId};
use apex::markdown::{mark as mark_blocks, markdown_page, marks, Met, Piece};
use apex::num::{decimal, parse as parse_number, parse_signed, signed};
use apex::plane::{io_answer, io_send, status_said, tunnelled, Answered, Frame, Sending, Tunnelled};
use apex::rules::{arm, owner, rule_line, rule_of, set_line, unexpected, RuleAction, RunTo};
use apex::table;

fn v(a: &[&str]) -> Vec<String> {
    a.iter().map(|s| s.to_string()).collect()
}

fn c(s: &str) -> Vec<char> {
    s.chars().collect()
}

fn defs() -> Vec<Flag> {
    vec![flag("addr", "an address"), switch("f", "by force")]
}

#[test]
fn flags_come_before_the_arguments() {
    let p = parse(&defs(), &v(&["-addr=2,3", "--f", "x", "-f"])).ok().unwrap();
    assert_eq!(p.get("addr"), Some("2,3"));
    assert!(p.is("f"));
    assert_eq!(p.args, v(&["x", "-f"]));
    // two dashes end them, one dash is an argument
    let p = parse(&defs(), &v(&["--", "-f"])).ok().unwrap();
    assert!(!p.is("f"));
    assert_eq!(p.args, v(&["-f"]));
    let p = parse(&defs(), &v(&["-", "-f"])).ok().unwrap();
    assert_eq!(p.args, v(&["-", "-f"]));
    // a boolean that is false is not given; the last value stands
    let p = parse(&defs(), &v(&["-f=false", "-addr=1", "-addr=a=b"])).ok().unwrap();
    assert!(!p.is("f"));
    assert_eq!(p.get("addr"), Some("a=b"));
}

#[test]
fn flags_that_are_not_right_are_refused() {
    let said = |a: &[&str]| parse(&defs(), &v(a)).err().map(|e| e.message());
    assert_eq!(said(&["-x"]).as_deref(), Some("flag provided but not defined: -x"));
    assert_eq!(said(&["-f=no"]).as_deref(), Some("invalid boolean value \"no\" for -f"));
    assert_eq!(said(&["-addr"]).as_deref(), Some("flag needs an argument: -addr=VALUE"));
    assert!(matches!(parse(&defs(), &v(&["-h"])), Err(Refused::Help)));
    assert!(matches!(parse(&defs(), &v(&["--help"])), Err(Refused::Help)));
    // what cannot be shown as it is, is escaped
    assert_eq!(said(&["-f=a\"\n"]).as_deref(), Some("invalid boolean value \"a\\\"\\n\" for -f"));
}

fn commands() -> Vec<Cmd> {
    vec![
        Cmd { name: "ls", usage: "apex ls", short: "list the sessions", flags: vec![], long: "Lists." },
        Cmd {
            name: "plumb",
            usage: "apex plumb TEXT...",
            short: "plumb text",
            flags: vec![switch("edit", "only to edit")],
            long: "Plumbs.",
        },
        Cmd { name: "editor", usage: "apex editor FILE", short: "edit a file", flags: vec![], long: "Edits." },
    ]
}

fn topics() -> Vec<Topic> {
    vec![Topic { name: "rules", short: "the rules", text: "Rules are." }]
}

#[test]
fn help_is_of_a_command_a_topic_or_everything() {
    let (cmds, tops) = (commands(), topics());
    let global = vec![flag("socket", "the socket")];
    let rules = vec![flag("verb", "the verb")];
    let of = |w: Option<&str>| help(w, &cmds, &tops, &global, &rules);
    assert_eq!(of(Some("ls")).unwrap(), "usage: apex ls\n\nLists.\n");
    assert_eq!(
        of(Some("plumb")).unwrap(),
        "usage: apex plumb TEXT...\n\n\t-edit\n\t\tonly to edit\n\nPlumbs.\n\nThe flags of plumb rule add:\n\n\t-verb=VALUE\n\t\tthe verb\n"
    );
    assert_eq!(of(Some("rules")).unwrap(), "Rules are.\n");
    assert_eq!(of(Some("nothing")).unwrap_err(), "apex help nothing: unknown help topic. Run 'apex help'.");
    let all = of(None).unwrap();
    assert_eq!(all, overview(&cmds, &tops, &global));
    assert!(all.contains("\n\tls              list the sessions\n"), "{all}");
    assert!(all.contains("\n\trules           the rules\n"));
    assert!(all.ends_with("\n\t-socket=VALUE\n\t\tthe socket\n"));
    assert_eq!(
        usage(&cmds[1]),
        "usage: apex plumb TEXT...\n\t-edit\n\t\tonly to edit\nRun 'apex help plumb' for details.\n"
    );
    assert_eq!(find_command(&cmds, "plumb"), Some(1));
    assert_eq!(find_command(&cmds, "plum"), None);
}

#[test]
fn a_command_line_is_taken_apart() {
    let cmds = commands();
    let global = vec![flag("session", "a session"), switch("ensure-server", "start it")];
    let line = |a: &[&str]| read(&cmds, &global, &v(a));
    assert!(matches!(line(&[]).step, Step::Overview));
    assert!(matches!(line(&["-h"]).step, Step::Overview));
    assert!(matches!(line(&["-x"]).step, Step::Die(m) if m
        == "apex: flag provided but not defined: -x\nRun 'apex help' for usage."));
    assert!(matches!(line(&["help"]).step, Step::Help(None)));
    assert!(matches!(line(&["help", "ls"]).step, Step::Help(Some(w)) if w == "ls"));
    assert!(matches!(line(&["nope"]).step, Step::Unknown(m) if m
        == "apex nope: unknown command\nRun 'apex help' for usage."));
    assert!(matches!(line(&["plumb", "-h"]).step, Step::Usage(1)));
    assert!(matches!(line(&["plumb", "-zz"]).step, Step::Misused(1, m) if m
        == "apex plumb: flag provided but not defined: -zz"));
    let l = line(&["-session=side", "plumb", "-edit", "a", "b"]);
    assert_eq!(l.global.get("session"), Some("side"));
    match l.step {
        Step::Run(i, p) => {
            assert_eq!(i, 1);
            assert!(p.is("edit"));
            assert_eq!(p.args, v(&["a", "b"]));
        }
        _ => unreachable!(),
    }
}

#[test]
fn the_editors_link_runs_the_editor() {
    assert!(is_editor("/usr/local/bin/apex-editor"));
    assert!(is_editor("apex-editor"));
    assert!(!is_editor("/apex-editor/apex"));
    assert_eq!(arguments("/bin/apex-editor", &v(&["f"])), v(&["editor", "f"]));
    assert_eq!(arguments("/bin/apex", &v(&["f"])), v(&["f"]));
}

#[test]
fn how_a_command_ended() {
    let e = ended("ls", &Ok(()));
    assert_eq!((e.status, e.message, e.usage), (0, None, false));
    let e = ended("ls", &Err("usage".to_string()));
    assert_eq!((e.status, e.message, e.usage), (2, None, true));
    let e = ended("ls", &Err("no".to_string()));
    assert_eq!((e.status, e.message.as_deref(), e.usage), (1, Some("apex ls: no"), false));
}

#[test]
fn a_session_is_named_by_the_flag_the_terminal_or_the_environment() {
    let s = |x: &str| Some(x.to_string());
    assert_eq!(session(Some("a"), s("b"), s("c")), "a");
    assert_eq!(session(None, s("b"), s("c")), "b");
    assert_eq!(session(None, None, s("c")), "c");
    assert_eq!(session(None, None, None), "default");
}

#[test]
fn a_window_is_found_by_id_by_name_or_by_a_part_of_one() {
    let w = |n: u64, s: &str| Win { id: WindowId(n), name: s.to_string() };
    let all = vec![w(1, "/x/notes.md"), w(2, "/x/notes.md+Preview"), w(3, "/y/a.rs"), w(4, "/y/b.rs")];
    assert_eq!(find_window(&all, "3"), Found::Id(WindowId(3)));
    assert_eq!(find_window(&all, "7"), Found::Missing(WindowId(7)));
    // a number is an id, whatever the names
    assert_eq!(find_window(&vec![w(1, "7")], "7"), Found::Missing(WindowId(7)));
    assert_eq!(find_window(&all, "/x/notes.md"), Found::Named(WindowId(1)));
    assert_eq!(find_window(&all, "Preview"), Found::Named(WindowId(2)));
    assert_eq!(find_window(&all, "notes"), Found::Not(2));
    assert_eq!(find_window(&all, "zzz"), Found::Not(0));
    assert_eq!(not_found(0, "zzz"), "no window matches \"zzz\"");
    assert_eq!(not_found(2, "notes"), "2 windows match \"notes\"");
}

fn running(pid: u64, name: &str, ctx: Origin, ago: u64) -> Running {
    Running { pid, name: name.into(), ctx, ago, dir: "/tmp".into(), cmd: "sleep 30".into() }
}

#[test]
fn what_runs_is_listed_and_ended_by_name() {
    assert_eq!((ago(59).as_str(), ago(60).as_str(), ago(3599).as_str()), ("59s ago", "1m ago", "59m ago"));
    assert_eq!((ago(3600).as_str(), ago(7500).as_str()), ("1h00m ago", "2h05m ago"));
    let p = vec![
        running(41, "sleep", Origin::Top, 5),
        running(42, "cc", Origin::Window(WindowId(7)), 61),
        running(43, "w", Origin::Column("3".to_string()), 1),
    ];
    assert_eq!(print_proc(&p[0]), "41\tsleep\ttop\t5s ago\t/tmp\tsleep 30");
    assert_eq!(print_proc(&p[1]), "42\tcc\t7\t1m ago\t/tmp\tsleep 30");
    assert_eq!(print_proc(&p[2]), "43\tw\tcol 3\t1s ago\t/tmp\tsleep 30");
    assert!(kill(&p, &v(&["sleep", "42"])).is_ok());
    assert_eq!(
        kill(&p, &v(&["sleep", "nothing-runs-here", "zz"])).unwrap_err(),
        "nothing-runs-here: no such command; apex ps lists them"
    );
    assert_eq!((mark(true, true), mark(false, true), mark(false, false)), (">", "*", " "));
}

#[test]
fn terminals_are_made_typed_in_and_read() {
    assert_eq!(newterm(&v(&["new"])), "Newterm");
    assert_eq!(newterm(&v(&["new", "vi", "x"])), "Newterm vi x");
    assert_eq!(join(&v(&["a", "b", "c"]), 1), "b c");
    assert_eq!(join(&v(&[]), 0), "");
    let t = term_send("echo hi\r");
    assert_eq!((t.text.as_deref(), t.enter), (Some("echo hi"), true));
    let t = term_send("\n");
    assert_eq!((t.text.as_deref(), t.enter), (None, true));
    let t = term_send("ls");
    assert_eq!((t.text.as_deref(), t.enter), (Some("ls"), false));
    let t = term_send("");
    assert_eq!((t.text, t.enter), (None, false));
    assert_eq!(term_row(&c("  ls  \t ")), "  ls");
    let terms = vec![TermId(3)];
    assert_eq!(find_term(&terms, "3").unwrap(), TermId(3));
    assert_eq!(find_term(&terms, "4").unwrap_err(), "no terminal 4");
    assert_eq!(find_term(&terms, "x").unwrap_err(), "TERM must be a number");
}

#[test]
fn variables_are_set_by_key_and_value() {
    let e = env_args(&v(&["A=b", "C=", "D=e=f"])).ok().unwrap();
    let pairs: Vec<(&str, &str)> = e.iter().map(|x| (x.key.as_str(), x.value.as_str())).collect();
    assert_eq!(pairs, vec![("A", "b"), ("C", ""), ("D", "e=f")]);
    assert_eq!(env_args(&v(&["A=b", "nope"])).err().unwrap(), "nope: not KEY=VALUE");
    assert_eq!(env_cmd(0, false), EnvCmd::Assign { show: true });
    assert_eq!(env_cmd(2, false), EnvCmd::Assign { show: false });
    assert_eq!(env_cmd(0, true), EnvCmd::Take);
    assert_eq!(env_cmd(1, true), EnvCmd::Refused);
}

#[test]
fn terminals_are_told_their_titles() {
    assert_eq!(label("x y"), "\u{1b}];x y\u{7}");
    assert_eq!(awd("box", "/home/me", "lab"), "\u{1b}]7;file://box/home/me\u{7}\u{1b}];lab\u{7}");
    assert!(is_absolute("/x") && !is_absolute("x/") && !is_absolute(""));
}

#[test]
fn what_the_arguments_of_each_command_ask_for() {
    assert_eq!(one(&v(&["a"])).as_deref(), Some("a"));
    assert!(one(&v(&[])).is_none() && one(&v(&["a", "b"])).is_none());
    assert_eq!(one_or_none(&v(&[])), Some(None));
    assert_eq!(one_or_none(&v(&["a"])), Some(Some("a".to_string())));
    assert_eq!(one_or_none(&v(&["a", "b"])), None);
    assert_eq!(rename_session(&v(&["b"]), "here"), Some(("here".into(), "b".into())));
    assert_eq!(rename_session(&v(&["a", "b"]), "here"), Some(("a".into(), "b".into())));
    assert_eq!(rename_session(&v(&[]), "here"), None);
    assert_eq!(end_session(&v(&[]), "here").as_deref(), Some("here"));
    assert_eq!(end_session(&v(&["x"]), "here").as_deref(), Some("x"));
    assert!(end_session(&v(&["x", "y"]), "here").is_none());
    assert!(matches!(tool_cmd(&v(&["lsp"])), Some(Tool::Lsp)));
    assert!(matches!(tool_cmd(&v(&["win", "rc"])), Some(Tool::Win(a)) if a == v(&["rc"])));
    assert!(matches!(tool_cmd(&v(&["preview", "f"])), Some(Tool::Preview(f)) if f == "f"));
    assert!(tool_cmd(&v(&["preview"])).is_none() && tool_cmd(&v(&["x"])).is_none());
    assert!(previewed(Err("shown".into())).is_ok());
    assert_eq!(previewed(Err("no".into())).unwrap_err(), "no");
    assert!(matches!(win(&v(&[])), Some(WinCmd::List)));
    assert!(matches!(win(&v(&["del", "x"])), Some(WinCmd::Del(w)) if w == "x"));
    assert!(win(&v(&["del"])).is_none());
    assert_eq!(text(&v(&["read", "-addr=1", "x"])), Some(v(&["-addr=1", "x"])));
    assert_eq!(text(&v(&["write"])), None);
    assert_eq!(sel(&v(&["w"])), Ok(Sel::Show));
    assert_eq!(sel(&v(&["w", "5", "10"])), Ok(Sel::Select(5, 10)));
    assert_eq!(sel(&v(&["w", "5"])).unwrap_err().message(), "usage");
    assert_eq!(sel(&v(&["w", "x", "1"])), Err(NotSel::Q0));
    assert_eq!(sel(&v(&["w", "1", "x"])).unwrap_err().message(), "Q1 must be a number");
    let e = exec(&v(&["w", "Put"])).unwrap();
    assert_eq!((e.window.as_deref(), e.text.as_str()), (Some("w"), "Put"));
    assert!(exec(&v(&["Put"])).unwrap().window.is_none());
    assert!(matches!(term(&v(&["send", "1", "a", "b"])), Some(TermCmd::Send(t, s)) if t == "1" && s == "a b"));
    assert!(matches!(term(&v(&["new"])), Some(TermCmd::New)));
    assert!(matches!(term(&v(&["read", "2"])), Some(TermCmd::Read(t)) if t == "2"));
    assert!(term(&v(&["read"])).is_none());
    assert!(matches!(plumb(&v(&["rule", "ls"])), Some(PlumbCmd::Rule(a)) if a == v(&["ls"])));
    assert!(matches!(plumb(&v(&["a", "b"])), Some(PlumbCmd::Text(t)) if t == "a b"));
    assert!(plumb(&v(&[])).is_none() && plumb(&v(&[""])).is_none());
    assert!(matches!(web(&v(&["open", "u"])), Some(WebCmd::Open(u)) if u == "u"));
    assert!(matches!(web(&v(&[])), Some(WebCmd::Html)));
    assert!(web(&v(&["u"])).is_none());
    assert_eq!((web_name(Some("n")).as_str(), web_name(None).as_str()), ("n", "+web"));
    let a = attach(&v(&["side", "f"]), false, "here");
    assert_eq!((a.target.as_str(), a.files), ("side", v(&["f"])));
    let a = attach(&v(&["f"]), true, "here");
    assert_eq!((a.target.as_str(), a.files), ("here", v(&["f"])));
    assert!(events(None, "b3") && events(Some("b"), "b3") && !events(Some("t"), "b3"));
}

#[test]
fn a_command_waits_until_it_is_so_the_time_is_up_or_the_end() {
    assert_eq!(wait(Heard::Something, false, false), Waiting::Listen);
    assert_eq!(wait(Heard::Something, true, true), Waiting::Done);
    assert_eq!(wait(Heard::Something, false, true), Waiting::TimedOut);
    assert_eq!(wait(Heard::Closed, true, false), Waiting::Closed);
}

#[test]
fn flags_are_a_rule() {
    let of = |a: &[&str]| {
        let d = vec![
            flag("edit", ""),
            flag("run", ""),
            flag("tool", ""),
            flag("client", ""),
            flag("args", ""),
            flag("kind", ""),
            flag("to", ""),
            flag("priority", ""),
            flag("verb", ""),
            flag("file", ""),
            switch("mine", ""),
        ];
        rule_of(&parse(&d, &v(a)).ok().unwrap())
    };
    let r = of(&["-verb=Preview", "-file=\\.md$", "-run=echo preview $file", "-priority=-3", "-mine"]).ok().unwrap();
    assert_eq!((r.rule.verb.as_str(), r.rule.file.as_deref(), r.priority, r.mine), ("Preview", Some("\\.md$"), -3, true));
    assert!(matches!(r.rule.action, RuleAction::Run(c) if c == "echo preview $file"));
    let r = of(&["-client=open", "-args=$0", "-kind=web", "-to=window"]).ok().unwrap();
    assert_eq!((r.rule.verb.as_str(), r.rule.kind, r.rule.to, r.mine), ("plumb", Some(WinKind::Web), Some(RunTo::Window), false));
    assert!(matches!(r.rule.action, RuleAction::Client(v, a) if v == "open" && a == "$0"));
    let said = |a: &[&str]| of(a).err().unwrap();
    assert_eq!(said(&[]), "rule add: one of -edit, -run, -client or -tool");
    assert_eq!(said(&["-edit=x", "-tool=t"]), "rule add: only one of -edit, -run, -client and -tool");
    assert_eq!(said(&["-edit=x", "-kind=z"]), "-kind=z: file, dir, term or errors");
    assert_eq!(said(&["-edit=x", "-to=z"]), "-to=z: errors or window");
    assert_eq!(said(&["-edit=x", "-priority=high"]), "-priority=high: not a number");
    assert_eq!(unexpected("a b"), "rule add: unexpected argument \"a b\"");
    assert_eq!((rule_id("r12"), rule_id("rr7"), rule_id("4")), (Ok(12), Ok(7), Ok(4)));
    assert_eq!(rule_id("rx").unwrap_err(), "rule rm: rx: not a rule id");
}

#[test]
fn rules_and_settings_are_listed() {
    assert_eq!(owner(true, Some("x"), "a1"), "session");
    assert_eq!(owner(false, Some("ui"), "a1"), "ui(a1)");
    assert_eq!(owner(false, None, "a1"), "a1");
    assert_eq!(rule_line("r1", "session", -100, "-text=x"), "r1\tsession\tp-100\t-text=x");
    assert_eq!(set_line("session", "Preview", "Quick"), "session\tPreview\tQuick");
    let own = arm();
    assert_eq!(own.len(), 3);
    assert_eq!(own[0].text.as_deref(), Some(r"https?://\S+"));
    assert_eq!(own[2].file.as_deref(), Some(r"/-[^/]+$"));
}

#[test]
fn numbers_are_written_and_read_back() {
    for n in [0, 7, 10, 90210, u64::MAX] {
        assert_eq!(decimal(n), n.to_string());
        assert_eq!(parse_number(&c(&n.to_string())), Some(n));
    }
    for s in ["", "+", "-1", "1x", "18446744073709551616", "99999999999999999999"] {
        assert_eq!(parse_number(&c(s)), s.parse::<u64>().ok(), "{s}");
    }
    assert_eq!(parse_number(&c("+5")), Some(5));
    for n in [0, -1, i32::MIN, i32::MAX] {
        assert_eq!(signed(n), n.to_string());
        assert_eq!(parse_signed(&c(&n.to_string())), Some(n));
    }
    for s in ["-", "--1", "-+1", "+-1", "2147483648", "-2147483649", "+7", "-0"] {
        assert_eq!(parse_signed(&c(s)), s.parse::<i32>().ok(), "{s}");
    }
}

#[test]
fn a_request_is_sent_with_a_body_or_without() {
    assert_eq!(io_send("CONNECT", "127.0.0.1:80", false), Sending::Tunnel);
    assert_eq!(io_send("PUT", "file:///x", true), Sending::Body);
    assert_eq!(io_send("POST", "http://x/", false), Sending::Body);
    assert_eq!(io_send("POST", "http://x/", true), Sending::End);
    assert_eq!(io_send("GET", "http://x/", false), Sending::End);
    assert_eq!(io_send("GET", "file:///x", false), Sending::Nothing);
    assert_eq!(io_answer(true, false, 200), Answered::Tunnel);
    assert_eq!(io_answer(true, false, 502), Answered::Refused);
    assert_eq!(io_answer(false, true, 200), Answered::Watch);
    assert_eq!(io_answer(false, true, 404), Answered::Failed);
    assert_eq!(io_answer(false, false, 200), Answered::Body);
    assert_eq!(status_said(404), "404");
}

#[test]
fn a_tunnel_is_written_out_up_to_its_end() {
    let mut out = Vec::new();
    let frames = vec![Frame::Body(b"ab".to_vec()), Frame::Other, Frame::Body(b"c".to_vec())];
    assert!(matches!(tunnelled(&frames, &mut out), Tunnelled::Open));
    assert_eq!(out, b"abc");
    let frames = vec![Frame::Body(b"d".to_vec()), Frame::End, Frame::Body(b"e".to_vec())];
    assert!(matches!(tunnelled(&frames, &mut out), Tunnelled::Done));
    assert_eq!(out, b"abcd");
    assert!(matches!(tunnelled(&vec![Frame::Reset("gone".into())], &mut out), Tunnelled::Reset(r) if r == "gone"));
}

#[test]
fn markdown_is_a_page_with_its_lines_marked() {
    let text = "# Title\n\n- [x] done\n\n| a | b |\n|---|---|\n| 1 | 2 |\n";
    let page = markdown_page(text, "/* style */");
    assert!(page.starts_with("<!doctype html>\n"));
    assert!(page.contains("<style>/* style */\n.markdown-body {"));
    assert!(page.contains("<span class=\"apex-line\" data-line=\"1\"></span>\n<h1>Title</h1>"), "{page}");
    assert!(page.contains("data-line=\"3\""), "{page}");
    assert!(page.contains("<span class=\"apex-line\" data-line=\"5\"></span><table>"), "{page}");
    assert!(page.contains("type=\"checkbox\""), "{page}");
    assert!(page.ends_with("</article></body></html>\n"));
    let page = markdown_page("~~gone~~ é\n\nx[^1]\n\n[^1]: note\n", "");
    assert!(page.contains("<del>gone</del>"), "{page}");
    assert!(page.contains("footnote"), "{page}");
}

#[test]
fn blocks_are_marked_with_the_line_they_start_on() {
    let text = "é\nb\n";
    let met = |said: &str, start: usize| Met { said: said.to_string(), start };
    let met = vec![
        met("Start(Paragraph)", 0),
        met("Text(Borrowed(\"Start(Paragraph)\"))", 0),
        met("Start(Item)", 2),
        met("Start(Heading { level: H1, id: None, classes: [], attrs: [] })", 3),
        met("Start(Table([None]))", 99),
    ];
    let said: Vec<String> = mark_blocks(text, &met)
        .iter()
        .map(|p| match p {
            Piece::Event(i) => format!("{i}"),
            Piece::Html(h) => h.replace("<span class=\"apex-line\" data-line=\"", "L").replace("\"></span>", ""),
        })
        .collect();
    assert_eq!(said, vec!["L1", "0", "1", "L1", "2", "L2", "3", "L3", "4"]);
}

#[test]
fn the_starts_of_seven_elements_are_marked_and_nothing_else() {
    for e in ["Paragraph", "Heading { level: H2 }", "BlockQuote(None)", "CodeBlock(Indented)", "Item", "Table([])", "HtmlBlock"] {
        assert!(marks(&format!("Start({e})")), "{e}");
        assert!(!marks(&format!("End({e})")), "{e}");
    }
    for e in ["List(None)", "TableHead", "TableRow", "TableCell", "Emphasis", "Strong", "FootnoteDefinition(x)", ""] {
        assert!(!marks(&format!("Start({e})")), "{e}");
    }
    assert!(!marks("SoftBreak") && !marks("Rule") && !marks(""));
    // and they are what the parser says
    let lines = |text: &str| -> Vec<String> {
        let page = markdown_page(text, "");
        page.split("data-line=\"").skip(1).map(|s| s[..s.find('"').unwrap()].to_string()).collect()
    };
    assert_eq!(lines("a\n\n# b\n"), vec!["1", "3"]);
    assert_eq!(lines("> a\n"), vec!["1", "1"]);
    assert_eq!(lines("x\n\n```\ncode\n```\n"), vec!["1", "3"]);
    assert_eq!(lines("- a\n- b\n"), vec!["1", "2"]);
    assert_eq!(lines("<div>\nx\n</div>\n"), vec!["1"]);
    assert_eq!(lines("| a |\n|---|\n| *b* |\n"), vec!["1"]);
    assert_eq!(lines("---\n"), Vec::<String>::new());
}

#[test]
fn every_command_is_documented_under_its_own_name() {
    let (cmds, topics) = (table::commands(), table::topics());
    for (i, x) in cmds.iter().enumerate() {
        assert_eq!(find_command(&cmds, x.name), Some(i));
        assert!(x.usage.starts_with("apex"));
        assert!(!x.short.is_empty() && !x.long.is_empty());
        assert!(topics.iter().all(|t| t.name != x.name));
    }
    let shown = overview(&cmds, &topics, &table::global());
    assert!(shown.contains("\tserver"));
    assert!(shown.contains("-ensure-server"));
    assert!(table::rule_flags().iter().any(|f| f.name == "mine" && f.boolean));
    assert!(topics.iter().any(|t| t.name == "sessions"));
}

#[test]
fn only_a_booleans_false_is_left_out() {
    let p = parse(&[flag("text", "")], &v(&["-text=false"])).ok().unwrap();
    assert_eq!((p.get("text"), p.args.len()), (Some("false"), 0));
    let p = parse(&[switch("n", "")], &v(&["-n=false"])).ok().unwrap();
    assert!(!p.is("n") && p.get("n").is_none());
    for a in ["-n", "-n=true"] {
        assert_eq!(parse(&[switch("n", "")], &v(&[a])).ok().unwrap().get("n"), Some("true"));
    }
}

#[test]
fn a_flag_is_read_as_given_and_two_dashes_end_them() {
    let p = parse(&defs(), &v(&["-addr=a=b -x"])).ok().unwrap();
    assert_eq!((p.get("addr"), p.args.len()), (Some("a=b -x"), 0));
    let p = parse(&defs(), &v(&["-f", "--", "-addr=1"])).ok().unwrap();
    assert!(p.is("f") && p.get("addr").is_none());
    assert_eq!(p.args, v(&["-addr=1"]));
    let p = parse(&defs(), &v(&["x", "-f"])).ok().unwrap();
    assert!(!p.is("f"));
    assert_eq!(p.args, v(&["x", "-f"]));
}
