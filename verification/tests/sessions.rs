//! Sessions, their hosts, tabs and links.

use apex::asks::{
    answer_ask, answer_parked, cannot, end_stale_previews, preview_app, preview_directory, preview_frame,
    preview_setting, under, Ask, Came, Frame, Live,
};
use apex::errands::{
    ask_host, changes, complete, entries, plumb_local, snarfout, term_copy, Asked, Asking, Body, PlumbAct, PlumbStep,
    Snarfout,
};
use apex::going::{
    attach_landed, attaching, end_refused, end_session, go_to_tab, goto, open_initial, preview_source, remote_command,
    renames, settle_snarf, switch_for, switch_to, Attached, EndedHere, Goto, Switching,
};
use apex::hosts::{forget_host, known_hosts, note_host, write_hosts};
use apex::ids::{TabId, TermId, WindowId};
use apex::launch::{
    adopts, cli_link, cli_linked, cli_refused, cli_script, is_remembered, link_cli, plan, remember, remembered, Args,
    Linking, Opens, Plan, Remembered, Socket, There,
};
use apex::link::{connect_error, current_title, fenced, latency, resizes, second, title, via_title, Heart, Lease};
use apex::mouse::{Cell, Pt, TermSel};
use apex::opening::{cascade, new_window, open_window, opening_title, Attached as Tried, NewWindow, Opening, Target};
use apex::page::{overlay_up, source_line, web_event, web_focus_tick, web_place, Shown, WebAct, WebEvent};
use apex::parking::Landed;
use apex::pool::{Pool, State, Why, CAP};
use apex::recall::{known_sessions, note_sessions, sessions_of, Known};
use apex::recent::{is_file, note_closed, note_recent, recently_closed, renamed_recent, track_closed};
use apex::session::{identified, relabelled, session_parts, Host, SessionInfo, SessionUrl};
use apex::switcher::Switcher;
use apex::tabbed::{fields, part, put_side_by_side, write_lines};
use apex::tabs::{titlebar, Bar, TabBox, TabClick, TabDrag, TabInfo};

fn c(s: &str) -> Vec<char> {
    s.chars().collect()
}

fn s(v: &[char]) -> String {
    v.iter().collect()
}

fn v(a: &[&str]) -> Vec<String> {
    a.iter().map(|s| s.to_string()).collect()
}

fn local(name: &str) -> SessionUrl {
    SessionUrl::local(name)
}

fn on(host: &str, name: &str) -> SessionUrl {
    SessionUrl { provider: "ssh".into(), arg: host.into(), session: name.into(), id: None }
}

fn host(arg: &str) -> Host {
    Host { provider: "ssh".into(), arg: arg.into() }
}

fn info(id: &str, label: &str) -> SessionInfo {
    SessionInfo { id: id.into(), label: label.into() }
}

fn names(u: &[SessionUrl]) -> Vec<String> {
    u.iter().map(|u| u.session.clone()).collect()
}

fn args_of(h: &[Host]) -> Vec<String> {
    h.iter().map(|h| h.arg.clone()).collect()
}

#[test]
fn an_identity_is_the_session_whatever_it_is_called() {
    let a = local("work").with_id("7");
    assert!(a.is(&local("toil").with_id("7")));
    assert!(!a.is(&local("work").with_id("8")));
    assert!(a.is(&local("work")) && local("work").is(&a));
    assert!(!a.is(&on("box", "work")));
    let u = identified(&local("work"), "7", "toil");
    assert_eq!((u.session.as_str(), u.id.as_deref()), ("toil", Some("7")));
    assert!(identified(&local("work"), "", "toil").id.is_none());
    assert_eq!(relabelled(&u, "7", "fun").as_deref(), Some("fun"));
    assert!(relabelled(&u, "8", "fun").is_none() && relabelled(&u, "7", "toil").is_none());
    assert_eq!(session_parts(&on("box", "work")), ("work".into(), "box".into(), "(ssh)".into()));
}

#[test]
fn lines_and_fields_are_read_back() {
    let lines = vec![c("a"), c("b c")];
    assert_eq!(write_lines(&lines), "a\nb c\n");
    let f: Vec<String> = fields(&c("x\ty\t")).iter().map(|f| s(f)).collect();
    assert_eq!(f, vec!["x", "y", ""]);
    let both = put_side_by_side(&c("k"), &c("v w"));
    assert_eq!(s(&both), "k\tv w");
    let (a, b) = part(&both).unwrap();
    assert_eq!((s(&a), s(&b)), ("k".to_string(), "v w".to_string()));
    assert!(part(&c("k")).is_none());
}

#[test]
fn hosts_are_kept_latest_first_and_once() {
    let none: Vec<SessionUrl> = vec![];
    let text = note_host("", &none, &on("box", "x")).unwrap();
    let text = note_host(&text, &none, &on("mill", "x")).unwrap();
    let text = note_host(&text, &none, &on("box", "y")).unwrap();
    let list = known_hosts(&text, &none);
    assert_eq!(args_of(&list)[..3], v(&["", "box", "mill"])[..]);
    assert_eq!(known_hosts(&write_hosts(&list), &none).len(), list.len());
    let (text, recent) = forget_host(&text, &vec![on("box", "x"), on("mill", "y")], &host("box"));
    assert!(!args_of(&known_hosts(&text, &none)).contains(&"box".to_string()));
    assert_eq!(names(&recent), v(&["y"]));
}

#[test]
fn what_a_host_told_is_known_the_next_time() {
    let none: Vec<SessionUrl> = vec![];
    let text = note_sessions("", &none, &host("box"), &vec![info("1", "a"), info("2", "b")]);
    let k = known_sessions(&text, &none);
    let told: Vec<String> = sessions_of(&k, &host("box")).iter().map(|i| format!("{}={}", i.id, i.label)).collect();
    assert_eq!(told, v(&["1=a", "2=b"]));
    assert!(sessions_of(&k, &host("mill")).is_empty());
    let text = note_sessions(&text, &none, &host("box"), &vec![info("2", "c")]);
    let told: Vec<String> = sessions_of(&known_sessions(&text, &none), &host("box")).iter().map(|i| i.label.clone()).collect();
    assert_eq!(told, v(&["c"]));
}

#[test]
fn the_latest_session_comes_first() {
    let list = note_recent(&vec![], &local("a"));
    let list = note_recent(&list, &local("b"));
    let list = note_recent(&list, &local("a"));
    assert_eq!(names(&list), v(&["a", "b"]));
    let list = renamed_recent(&list, &local("b"), &local("z"));
    assert_eq!(names(&list), v(&["a", "z"]));
    let mut many = vec![];
    for i in 0..20 {
        many = note_recent(&many, &local(&format!("s{i}")));
    }
    assert_eq!(many.len(), 12);
    assert_eq!(many[0].session, "s19");
}

#[test]
fn files_closed_are_remembered_by_session() {
    let t = note_closed("", "k", "/a");
    let t = note_closed(&t, "k", "/b");
    let t = note_closed(&t, "other", "/c");
    let t = note_closed(&t, "k", "/a");
    assert_eq!(recently_closed(&t, "k"), v(&["/a", "/b"]));
    assert_eq!(recently_closed(&t, "other"), v(&["/c"]));
    assert!(is_file("/x/a.rs") && !is_file("/x/") && !is_file("/x/+Errors") && !is_file("/x/-host") && !is_file("x"));
    let before = vec![(WindowId(1), "/x/a".to_string()), (WindowId(2), "/x/b".to_string()), (WindowId(3), "/x/".to_string())];
    assert_eq!(track_closed(&before, &vec![WindowId(1)]), v(&["/x/b"]));
}

fn pool() -> Pool {
    Pool::install(&vec![local("a").with_id("1"), local("b").with_id("2"), local("c").with_id("3")])
}

#[test]
fn tabs_come_back_in_their_order_and_are_opened_once() {
    let mut p = pool();
    let labels: Vec<String> = p.tabs.iter().map(|t| t.url.session.clone()).collect();
    assert_eq!(labels, v(&["a", "b", "c"]));
    assert!(matches!(p.state(TabId(1)), State::Down(w) if w == "not attached"));
    let (id, fresh) = p.open(&local("b"));
    assert_eq!((id, fresh), (TabId(2), false));
    let (id, fresh) = p.open(&local("d"));
    assert_eq!((id, fresh), (TabId(4), true));
    assert!(p.move_tab(TabId(4), Some(TabId(1))));
    let ids: Vec<TabId> = p.tabs.iter().map(|t| t.id).collect();
    assert_eq!(ids, vec![TabId(4), TabId(1), TabId(2), TabId(3)]);
    assert_eq!(Why::Attaching.sentence("box"), "attaching to box\u{2026}");
}

#[test]
fn what_is_parked_is_walked_by_recency() {
    let mut p = pool();
    for (i, at) in [(1, 10), (2, 20), (3, 15)] {
        let r = p.park(TabId(i), at, false);
        assert!(!r.refused && !r.replaced && r.gone.is_none());
    }
    assert_eq!(p.by_recency(), vec![TabId(2), TabId(3), TabId(1)]);
    p.note_settled(TabId(1));
    assert_eq!(p.by_recency(), vec![TabId(1), TabId(2), TabId(3)]);
    assert_eq!(p.most_recent(), Some(TabId(1)));
    assert!(p.park(TabId(1), 30, true).refused);
    assert!(p.take(TabId(1)) && !p.take(TabId(1)));
    assert_eq!(p.close_all().len(), 2);
}

#[test]
fn the_oldest_of_too_many_is_let_go() {
    let last: Vec<SessionUrl> = (0..12).map(|i| local(&format!("s{i}")).with_id(&format!("{i}"))).collect();
    let mut p = Pool::install(&last);
    for i in 1..=8 {
        assert!(p.park(TabId(i), 100 - i, false).gone.is_none());
    }
    assert_eq!(p.parked.len(), CAP);
    assert_eq!(p.park(TabId(9), 200, false).gone, Some(TabId(8)));
    assert_eq!(p.parked.len(), CAP);
    assert!(matches!(p.state(TabId(8)), State::Down(w) if w == "let go: 8 sessions are as many as stay attached"));
}

#[test]
fn a_link_that_comes_goes_to_whoever_waits_for_it() {
    let mut p = pool();
    assert!(p.start(TabId(1), Why::Restoring).is_some());
    assert!(p.start(TabId(1), Why::Restoring).is_none());
    assert_eq!(p.landed(TabId(1), Ok(local("a2").with_id("1")), false), Landed::Park);
    assert!(matches!(p.state(TabId(1)), State::Up));
    assert_eq!(p.url_of(TabId(1)).unwrap().session, "a2");
    assert_eq!(p.landed(TabId(2), Ok(local("b").with_id("2")), true), Landed::Show);
    assert_eq!(p.landed(TabId(2), Err("down".into()), true), Landed::Tell);
    assert_eq!(p.landed(TabId(2), Err("down".into()), false), Landed::Down);
    assert!(matches!(p.landed(TabId(2), Err("no session b".into()), false), Landed::Gone(_)));
    assert!(p.url_of(TabId(2)).is_none());
    assert!(matches!(p.state(TabId(2)), State::Up));
    assert_eq!(p.landed(TabId(2), Ok(local("b")), false), Landed::Closed);
    p.relabel(TabId(3), "see");
    assert_eq!(p.url_of(TabId(3)).unwrap().session, "see");
    assert!(!p.link_ended(TabId(3)));
    assert_eq!(p.restore(&vec![TabId(1)]), vec![TabId(3)]);
}

#[test]
fn the_switcher_walks_round_and_back() {
    let mut w = Switcher::start(TabId(1), &vec![TabId(2), TabId(3)]);
    assert_eq!(w.entries, vec![TabId(1), TabId(2), TabId(3)]);
    assert_eq!(w.step(false, TabId(1)), Some(TabId(2)));
    assert_eq!(w.step(false, TabId(2)), Some(TabId(3)));
    assert_eq!(w.step(true, TabId(3)), Some(TabId(2)));
    assert_eq!(w.close(TabId(2)), Some(TabId(1)));
    assert_eq!(w.close(TabId(1)), None);
}

fn boxes() -> Vec<TabBox> {
    ["a", "b", "c"]
        .iter()
        .enumerate()
        .map(|(i, n)| TabBox { url: local(n), at: Pt { x: 6400 * i as i64, y: 0 }, width: 6400 })
        .collect()
}

#[test]
fn a_tab_is_clicked_or_dragged() {
    let at = Pt { x: 100, y: 10 };
    let d = TabDrag::press(&local("a"), true, at, &boxes());
    assert!(matches!(d.release(), TabClick::TogglePicker));
    let d = TabDrag::press(&local("b"), false, Pt { x: 6500, y: 10 }, &boxes());
    assert!(matches!(d.release(), TabClick::Switch(u) if u.session == "b"));
    let mut d = TabDrag::press(&local("a"), true, at, &boxes());
    assert!(d.drag(Pt { x: 120, y: 10 }, &boxes()).is_none());
    let to = d.drag(Pt { x: 4000, y: 10 }, &boxes());
    assert!(matches!(&to, Some(Some(u)) if u.session == "c"), "{}", to.is_some());
    let f = d.float(&boxes()).unwrap();
    assert!(f.x >= 0 && f.x <= 12800);
    assert!(matches!(d.release(), TabClick::Dropped));
}

#[test]
fn one_tab_is_no_tab() {
    let tab = |n: &str| TabInfo { url: local(n), word: None, notified: false };
    let bar = Bar { url: local("a"), in_process: false, clickable: true, drag: None, hovered: None, rested: false };
    let lone = titlebar(&bar, &vec![tab("a")], &vec![]);
    assert!(lone.title.is_some() && lone.faces.is_empty());
    let two = titlebar(&bar, &vec![tab("a"), tab("b")], &boxes());
    assert!(two.title.is_none());
    assert_eq!(two.faces.len(), 2);
    assert!(two.faces[0].current && !two.faces[1].current);
    assert_eq!(two.faces[1].text, "b");
}

#[test]
fn silence_on_a_link_is_found_out() {
    let mut h = Heart { connected: true, last_ping: None, ping_ms: None };
    let second = 1_000_000_000;
    let (changed, ping) = h.beat(None, second);
    assert!(!changed && ping);
    let (changed, ping) = h.beat(Some(second + 5_000_000), 3 * second);
    assert!(!changed && ping);
    assert_eq!(h.ping_ms, Some(5));
    let (changed, _) = h.beat(Some(second + 5_000_000), 3 * second + 60 * second);
    assert!(changed && !h.connected);
    assert_eq!(latency(true, Some(5), None).as_deref(), Some("5ms/\u{2014}"));
    assert_eq!(latency(false, Some(5), Some(6)), None);
    assert!(fenced(Some(Lease { holder: 2, released: false }), 1));
    assert!(fenced(Some(Lease { holder: 1, released: true }), 1));
    assert!(!fenced(Some(Lease { holder: 1, released: false }), 1) && !fenced(None, 1));
}

#[test]
fn a_window_says_where_it_is() {
    assert_eq!(title("notes"), "notes \u{2014} apex");
    assert_eq!(current_title("u", "notes", true, false), "notes \u{2014} apex");
    assert_eq!(current_title("u", "notes", false, true), "u \u{2014} disconnected \u{2014} apex");
    assert_eq!(current_title("u", "notes", true, true), "u \u{2014} fenced (another client leads) \u{2014} apex");
    assert_eq!(connect_error("box", "no", false), "box: no\n");
    assert_eq!(connect_error("box", "no", true), "box: no: Reconnect (\u{2318}\u{21e7}R)\n");
    assert_eq!(second("ssh me@box apex").as_deref(), Some("me@box"));
    assert_eq!(via_title("side", "ssh me@box apex"), "side via me@box \u{2014} apex");
    assert_eq!(via_title("side", "bridge"), "side via bridge \u{2014} apex");
    assert!(resizes(None, 80, 24) && resizes(Some((80, 25)), 80, 24) && !resizes(Some((80, 24)), 80, 24));
}

#[test]
fn the_program_is_told_what_to_open() {
    let a = Args::parse(&v(&["--attach", "/x/a.sock", "--session", "side", "-psn_0_1", "f"])).unwrap();
    assert!(matches!(&a.socket, Socket::At(p) if p == "/x/a.sock"));
    assert_eq!((a.session.as_deref(), a.files.clone()), (Some("side"), v(&["f"])));
    assert_eq!(a.opens(), Opens::Named);
    let a = Args::parse(&v(&["--attach", "f"])).unwrap();
    assert!(matches!(a.socket, Socket::Usual));
    assert_eq!(a.files, v(&["f"]));
    assert_eq!(Args::parse(&v(&["--local", "--via", "x"])).unwrap().opens(), Opens::Local);
    assert_eq!(Args::parse(&v(&["--via", "x"])).unwrap().opens(), Opens::Via);
    assert_eq!(Args::parse(&v(&["--ssh", "box"])).unwrap().opens(), Opens::Remote);
    assert_eq!(Args::parse(&v(&[])).unwrap().opens(), Opens::Plan);
    assert_eq!(Args::parse(&v(&["--via"])).err(), Some("--via CMD"));
    assert!(matches!(plan(&vec![false, true], &vec![]), Plan::Again(1)));
    assert!(matches!(plan(&vec![], &vec![info("1", "a"), info("2", "b")]), Plan::First(u) if u.session == "a"));
    assert!(matches!(plan(&vec![false], &vec![]), Plan::New));
}

#[test]
fn a_window_is_remembered_where_it_was() {
    let r = Remembered { url: "local:///a".into(), frame: v(&["1", "2", "300.5", "400"]), fullscreen: true };
    let line = remember(&r);
    assert_eq!(line, "local:///a\t1\t2\t300.5\t400\tfull");
    let back = remembered(&line);
    assert_eq!(back.len(), 1);
    assert_eq!((back[0].url.as_str(), back[0].fullscreen, back[0].frame.clone()), ("local:///a", true, r.frame.clone()));
    assert_eq!(remember(&Remembered { url: "u".into(), frame: vec![], fullscreen: true }), "u");
    assert_eq!(remembered("\n  u  \n\n").len(), 1);
    assert!(is_remembered(true, "local") && !is_remembered(true, "via") && !is_remembered(false, "local"));
}

#[test]
fn the_command_is_linked_but_a_file_is_never_replaced() {
    assert_eq!((link_cli(There::Nothing), link_cli(There::Link), link_cli(There::File)), (Linking::Make, Linking::Replace, Linking::Refuse));
    assert_eq!(cli_link(), "/usr/local/bin/apex");
    assert_eq!(cli_linked("/l", "/t"), "/l \u{2192} /t");
    assert_eq!(
        cli_script("/d", "/t", "/l"),
        "do shell script \"mkdir -p '/d' && ln -sfn '/t' '/l'\" with administrator privileges"
    );
    assert_eq!(cli_refused("/l", "execution error: User canceled. (-128)"), "cancelled");
    assert_eq!(cli_refused("/l", " no \n"), "could not link /l: no");
}

#[test]
fn the_login_shells_environment_is_read() {
    let e = |t: &str| -> Vec<String> { entries(t).iter().map(|x| s(x)).collect() };
    assert_eq!(e("A=1\0B=2\n3\0"), v(&["A=1", "B=2\n3", ""]));
    assert_eq!(e("A=1\nB=2\n"), v(&["A=1", "B=2"]));
    assert_eq!(adopts("PATH=/bin:/usr/bin"), Some(("PATH".into(), "/bin:/usr/bin".into())));
    assert!(adopts("PWD=/x").is_none() && adopts("=x").is_none() && adopts("nothing").is_none());
    assert!(changes(None, "x") && changes(Some("y"), "x") && !changes(Some("x"), "x"));
}

#[test]
fn going_to_a_tab_a_session_and_a_place() {
    let tabs = vec![local("a"), local("b")];
    assert_eq!(go_to_tab(&tabs, &local("a"), 2).unwrap().session, "b");
    assert!(go_to_tab(&tabs, &local("a"), 1).is_none() && go_to_tab(&tabs, &local("a"), 3).is_none());
    let known = vec![Known { host: Host::local(), session: info("77-x", "lab") }];
    assert_eq!(switch_for(&local("a"), &known, "77", false).session, "lab");
    assert_eq!(switch_to(true, false, true), Switching::Adopt);
    assert_eq!(switch_to(false, true, true), Switching::Reattach);
    assert_eq!(switch_to(false, false, true), Switching::Attach);
    assert_eq!(attaching("box"), "box: attaching\u{2026}\n");
    assert_eq!(attach_landed(&local("a"), false, &local("a"), true), Attached::Adopt);
    assert_eq!(attach_landed(&local("b"), true, &local("a"), true), Attached::Park);
    assert_eq!(end_session(&local("a"), &local("a"), true), EndedHere::Close);
    assert_eq!(end_session(&local("b"), &local("a"), true), EndedHere::Nothing);
    assert_eq!(end_session(&local("a"), &local("a"), false), EndedHere::Tell);
    assert!(end_refused("unsaved").contains("unsaved"));
    assert_eq!(remote_command("apex", "end-session", true, "s", None), "apex end-session -f s");
    assert_eq!(remote_command("apex", "rename-session", false, "s", Some("t")), "apex rename-session s t");
    assert_eq!(goto(false, Some(WindowId(3)), true, false), Goto::Show(WindowId(3)));
    assert_eq!(goto(false, None, true, true), Goto::OpenPage);
    assert_eq!(goto(false, None, true, false), Goto::OpenFile);
    assert_eq!(goto(false, None, false, false), Goto::Nothing);
    assert_eq!(goto(true, None, true, false), Goto::Switch);
    assert_eq!(open_initial(v(&["f"]), true), v(&["f"]));
    assert!(renames("a", "b") && !renames("a", "a"));
    let r = settle_snarf(&v(&["x", "y"]), None, "z");
    assert_eq!((r.set.as_deref(), r.came), (Some("y"), false));
    let r = settle_snarf(&v(&[]), Some("old"), "new");
    assert_eq!((r.set.as_deref(), r.came), (None, true));
    assert_eq!(preview_source("/x/a.md+Preview").as_deref(), Some("/x/a.md"));
    assert!(preview_source("/x/a.md").is_none());
}

#[test]
fn what_rules_ask_of_the_window() {
    assert!(matches!(answer_ask("open", "u", false, false), Ask::Open));
    assert!(matches!(answer_ask("preview", "f", true, false), Ask::Preview));
    assert!(matches!(answer_ask("preview", "f", false, true), Ask::ShowAgain));
    assert!(matches!(answer_ask("preview", "f", false, false), Ask::Watch));
    assert!(matches!(answer_ask("snarfout", "12", false, false), Ask::Snarfout(WindowId(12))));
    assert!(matches!(answer_ask("dance", "", false, false), Ask::Refuse(_)));
    assert_eq!(cannot("dance"), "apex-ui cannot dance");
    assert!(answer_parked("open").is_none());
    assert_eq!(answer_parked("preview").as_deref(), Some("preview: the session is parked, nobody sees it"));
    assert!(matches!(preview_frame(Frame::Response(404), Some("f"), false), Came::Refuse(_)));
    let live = vec![Live { exited: true, window_gone: false }, Live { exited: false, window_gone: false }];
    assert_eq!(end_stale_previews(&live, false), vec![true, false]);
    assert_eq!(end_stale_previews(&live, true), vec![true, true]);
    assert_eq!(preview_app(Some("Marked"), Some("Quick")), Some("Marked"));
    assert_eq!(preview_setting("md"), "Preview.md");
    assert_eq!(preview_directory(&on("me@box", "x")), "ssh-me_box");
    assert_eq!(under("//a/b"), "a/b");
}

#[test]
fn errands_run_step_by_step() {
    assert_eq!(snarfout(Body::Term(TermId(1), Some((100, 24)))), Snarfout::Read(TermId(1), 124));
    assert_eq!(snarfout(Body::Term(TermId(1), None)), Snarfout::NoTerminal);
    assert_eq!((snarfout(Body::Text), snarfout(Body::Gone)), (Snarfout::Text, Snarfout::NoWindow));
    let cell = |col, line| Cell { col, line };
    let sel = TermSel { window: WindowId(1), from: cell(0, 0), to: cell(3, 0) };
    assert!(term_copy(Some(sel), WindowId(1), Some(TermId(2))).is_some());
    assert!(term_copy(Some(sel), WindowId(2), Some(TermId(2))).is_none());
    let none = TermSel { to: cell(0, 0), ..sel };
    assert!(term_copy(Some(none), WindowId(1), Some(TermId(2))).is_none());
    assert_eq!(complete(&c("cat /usr/li and"), 11), "/usr/li");
    assert_eq!(complete(&c("cat "), 4), "");
    assert!(matches!(plumb_local(PlumbStep::AskTool("t".into())), PlumbAct::Refuse(e) if e == "no tool t in-process"));
    assert!(matches!(plumb_local(PlumbStep::Refused), PlumbAct::Perform));
    assert!(matches!(plumb_local(PlumbStep::Trace), PlumbAct::Stop));
    assert_eq!(ask_host(true, Asked::Nothing), Asking::AskHere);
    assert_eq!(ask_host(false, Asked::Once(false)), Asking::Deploy);
    assert_eq!(ask_host(false, Asked::Deployed(true)), Asking::AskAgain);
    assert_eq!(ask_host(false, Asked::Deployed(false)), Asking::FailedFirst);
    assert_eq!(ask_host(false, Asked::Twice(false)), Asking::FailedLast);
    assert_eq!(ask_host(true, Asked::Once(false)), Asking::FailedLast);
}

#[test]
fn a_window_that_cannot_be_attached_falls_back_and_says_so() {
    let url = |u: SessionUrl| Target::Url { url: u, described: "notes".into(), files: vec![] };
    assert_eq!(opening_title(&url(local("notes"))), "notes \u{2014} apex");
    assert_eq!(opening_title(&Target::Local(vec![])), "apex");
    assert_eq!(opening_title(&Target::Chooser { url: local("a") }), "choose a session \u{2014} apex");
    assert_eq!(open_window(&url(local("a")), Tried::Yes, None), Opening::Shown);
    assert_eq!(open_window(&url(local("a")), Tried::No, None), Opening::Offline);
    assert_eq!(open_window(&url(on("box", "a")), Tried::No, None), Opening::Fallback);
    assert_eq!(open_window(&url(on("box", "a")), Tried::No, Some(Tried::Yes)), Opening::ShownInstead);
    assert_eq!(open_window(&url(on("box", "a")), Tried::No, Some(Tried::No)), Opening::OfflineInstead);
    let via = Target::Via { cmd: "x".into(), session: "s".into(), files: vec![] };
    assert_eq!(open_window(&via, Tried::No, None), Opening::Exit);
    assert!(matches!(new_window(0, None), NewWindow::Default(u) if u.session == "default"));
    assert!(matches!(new_window(1, None), NewWindow::Chooser(u) if u.session == "default"));
    assert!(matches!(new_window(0, Some(local("x"))), NewWindow::Chooser(u) if u.session == "x"));
    assert_eq!(cascade(3), 72);
}

#[test]
fn what_pages_do() {
    let acts = web_event("http://a", WebEvent::Navigated("http://b".into()));
    assert!(matches!(&acts[0], WebAct::At(u) if u == "http://b") && matches!(&acts[1], WebAct::Rename(_)));
    assert_eq!(web_event("http://a", WebEvent::Navigated("http://a".into())).len(), 1);
    assert!(web_event("x", WebEvent::Title("t".into())).is_empty());
    assert!(matches!(&web_event("x", WebEvent::Open("/f".into(), Some(3)))[0], WebAct::Goto(p, Some(3)) if p == "/f"));
    assert_eq!(web_place("", false, false), Shown::Nothing);
    assert_eq!(web_place("u", false, true), Shown::Page { visible: false });
    assert_eq!(web_place("u", true, false), Shown::Html { visible: true });
    assert!(overlay_up(false, true, false) && !overlay_up(false, false, false));
    assert_eq!(source_line(&c("a\nb\nc"), 2), 2);
    assert_eq!(source_line(&c("a\nb\nc"), 99), 3);
    assert!(!web_focus_tick(false, false, true, Some(WindowId(1)), true).redraw);
    let t = web_focus_tick(true, true, true, Some(WindowId(1)), true);
    assert!(t.redraw && !t.focus && t.cursor == Some(WindowId(1)));
}
