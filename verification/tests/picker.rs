//! The picker, the tabs, and what the pointer and the keys are told.

use apex::drag::{are_parted, sweep_end, CellAt};
use apex::field::{caret_visible, LineEdit};
use apex::finder::{split_name, Entry, Finder, WinKind};
use apex::ids::{ColumnId, ExecCtx, TabId, ViewId, WindowId};
use apex::keys::Modifiers;
use apex::mouse::{Cell, Pt, SUB};
use apex::picker::{overlay_edit, Choice, Ending, PickerAct};
use apex::pool::{Pool, State};
use apex::recall::Known;
use apex::recent::finder_entries;
use apex::selector::{Connect, Field, Row, Selector};
use apex::session::{has_host, parenthesised, Host, SessionInfo, SessionUrl};
use apex::theme::{dark, light, term_colors};
use apex::warp::{body_font_height, body_nlines, lines_left, BodyInfo, Pointer};
use apex::words::is_alnum;

fn si(l: &str) -> SessionInfo {
    SessionInfo { id: format!("id-{l}"), label: l.to_string() }
}

fn devvm() -> Host {
    Host { provider: "sprite".into(), arg: "devvm".into() }
}

fn known(h: Host, l: &str) -> Known {
    Known { host: h, session: si(l) }
}

fn opened() -> Selector {
    let tabs = vec![SessionUrl::local("notes"), SessionUrl::local("default")];
    let recent = vec![SessionUrl::local("gone"), SessionUrl::local("default")];
    let k = vec![known(Host::local(), "default"), known(devvm(), "work")];
    Selector::open_picker(&SessionUrl::local("notes"), vec![Host::local(), devvm()], tabs, &recent, &k, 7)
}

fn press(s: &mut Selector, key: &str) -> PickerAct {
    s.selector_key(key, None, &Modifiers::none())
}

fn type_char(s: &mut Selector, c: &str) -> PickerAct {
    s.selector_key(c, Some(c), &Modifiers::none())
}

fn titles(s: &Selector) -> Vec<String> {
    s.selector_panel().rows.iter().map(|r| r.title()).collect()
}

#[test]
fn the_picker_opens_on_what_is_known() {
    let s = opened();
    assert_eq!(s.epoch, 7);
    assert_eq!(titles(&s), vec!["default", "work", "gone", "Add a host\u{2026}"]);
    let p = s.selector_panel();
    assert_eq!(p.hint, "Search a session, or type a name to make one\u{2026}");
    assert!(p.empty.is_none());
    assert_eq!(p.picked, Some(s.cursor));
    assert_eq!(p.rows[1].where_(), Some("devvm".to_string()));
    assert_eq!(p.rows[0].where_(), None);
}

#[test]
fn the_pickers_keys() {
    let mut s = opened();
    s.cursor = 0;
    assert!(matches!(press(&mut s, "down"), PickerAct::Redraw));
    assert_eq!(s.cursor, 1);
    assert!(matches!(press(&mut s, "up"), PickerAct::Redraw));
    assert!(matches!(press(&mut s, "up"), PickerAct::Redraw));
    assert_eq!(s.cursor, 0);
    for _ in 0..5 {
        press(&mut s, "down");
    }
    assert_eq!(s.cursor, 3);
    assert!(matches!(press(&mut s, "enter"), PickerAct::Choose(Row::NewHost)));
    assert!(matches!(press(&mut s, "f5"), PickerAct::Nothing));
    assert!(matches!(type_char(&mut s, "w"), PickerAct::Typed));
    s.label = true;
    s.overlay_changed();
    assert_eq!((s.filter.as_str(), s.moved, s.cursor), ("w", true, 0));
    assert_eq!(titles(&s), vec!["work", "w", "w", "Add a host\u{2026}"]);
    assert!(matches!(press(&mut s, "enter"), PickerAct::Choose(Row::Open(u)) if u.session == "work"));
    assert!(matches!(press(&mut s, "escape"), PickerAct::Close));
    // renaming: escape goes back to the list
    s.rename(SessionUrl::local("notes"));
    assert_eq!(s.selector_panel().hint, "New name for notes\u{2026}");
    assert_eq!(s.selector_panel().empty, Some("Type a name"));
    assert!(matches!(press(&mut s, "escape"), PickerAct::Redraw));
    assert!(s.renaming.is_none() && s.filter.is_empty());
}

#[test]
fn a_step_of_nothing_leaves_the_cursor_on_its_row() {
    let mut s = opened();
    s.cursor = 1;
    assert!(s.rows()[1].pickable());
    s.moved = false;
    s.move_cursor(0);
    assert_eq!((s.cursor, s.moved), (1, true));
    s.cursor = 99;
    s.move_cursor(0);
    assert_eq!(s.cursor, 99);
}

#[test]
fn the_cursor_is_kept_over_any_change() {
    let mut s = opened();
    let add = |r: &Row| matches!(r, Row::NewHost);
    s.cursor = s.rows().iter().position(add).unwrap();
    let was = s.cursor;
    let mut calls = 0;
    s.keeping(|s| {
        calls += 1;
        s.closed.push(SessionUrl::local("elsewhere"));
        s.cursor = 0;
    });
    assert!(calls == 1 && s.cursor == was + 1 && add(&s.rows()[s.cursor]));
    // a row that goes: the first that can be picked from where it has come to
    s.cursor = s.rows().iter().position(|r| matches!(r, Row::Open(u) if u.session == "elsewhere")).unwrap();
    s.keeping(|s| {
        s.closed.clear();
        s.cursor = 99;
    });
    assert!(s.rows()[s.cursor].pickable());
    assert_eq!(s.cursor, s.rows().len() - 1);
    // nothing to land on: the top
    s.keeping(|s| s.connect = Some(Connect::new(vec![])));
    assert_eq!((s.rows().len(), s.cursor), (0, 0));
}

#[test]
fn a_field_that_is_emptied_has_nothing_to_go_back_to() {
    let here = SessionUrl::local("notes");
    let mut s = opened();
    type_char(&mut s, "w");
    s.rename(SessionUrl::local("notes"));
    assert!(s.filter.is_empty() && !s.filter.undo());
    type_char(&mut s, "w");
    press(&mut s, "escape");
    assert!(s.filter.is_empty() && !s.filter.undo());
    type_char(&mut s, "w");
    s.choose_row(Row::NewHost, &here, vec!["ssh".into()]);
    assert!(s.filter.is_empty() && !s.filter.undo());
    assert!(!s.connect.as_mut().unwrap().host.undo());
}

#[test]
fn a_row_chosen() {
    let here = SessionUrl::local("notes");
    let mut s = opened();
    assert!(matches!(s.choose_row(Row::Note("no".into()), &here, vec![]), Choice::Nothing));
    assert!(matches!(s.choose_row(Row::Open(SessionUrl::local("gone")), &here, vec![]), Choice::Switch(u) if u.session == "gone"));
    assert!(matches!(s.choose_row(Row::GoTo(SessionUrl::local("notes")), &here, vec![]), Choice::Stay(u) if u.session == "notes"));
    assert!(matches!(s.choose_row(Row::Rename("ideas".into()), &here, vec![]), Choice::RenameHere(n) if n == "ideas"));
    s.rename(SessionUrl::local("default"));
    let c = s.choose_row(Row::Rename("main".into()), &here, vec![]);
    assert!(matches!(c, Choice::RenameOther(u, n) if u.session == "default" && n == "main"));
    // a new host: the form, with what there is to choose from
    let mut s = opened();
    assert!(matches!(s.choose_row(Row::NewHost, &here, vec!["ssh".into(), "sprite".into()]), Choice::Form));
    let form = s.connect.as_ref().unwrap();
    assert_eq!((form.providers.len(), form.provider()), (2, "ssh"));
}

#[test]
fn the_new_host_forms_keys() {
    let mut s = opened();
    s.connect = Some(Connect::new(vec!["ssh".into(), "sprite".into()]));
    s.connect.as_mut().unwrap().field = Field::Provider;
    assert!(matches!(press(&mut s, "right"), PickerAct::Redraw));
    assert_eq!(s.connect.as_ref().unwrap().provider(), "sprite");
    type_char(&mut s, "S");
    assert_eq!(s.connect.as_ref().unwrap().provider(), "ssh");
    press(&mut s, "down");
    assert!(s.connect.as_ref().unwrap().field == Field::Host);
    // nothing typed: nothing to add
    assert!(matches!(press(&mut s, "enter"), PickerAct::Redraw));
    type_char(&mut s, "b");
    type_char(&mut s, "x");
    assert!(matches!(press(&mut s, "enter"), PickerAct::AddHost(h) if h.is(&Host { provider: "ssh".into(), arg: "bx".into() })));
    s.connect.as_mut().unwrap().pick_provider(1);
    let form = s.connect.as_ref().unwrap();
    assert_eq!(form.provider(), "sprite");
    assert!(form.hint().starts_with("enter adds it"));
    s.add_host(&devvm());
    assert!(s.connect.is_none());
    assert_eq!(s.hosts.len(), 2);
    let new = Host { provider: "ssh".into(), arg: "bx".into() };
    s.add_host(&new);
    assert!(has_host(&s.hosts, &new));
    // escape leaves the form
    s.connect = Some(Connect::new(vec![]));
    assert!(matches!(press(&mut s, "escape"), PickerAct::Redraw));
    assert!(s.connect.is_none());
}

#[test]
fn what_a_host_answers_lands_in_its_own_picker() {
    let mut s = opened();
    assert!(!s.answered(6, &devvm(), Ok(vec![si("late")])));
    assert!(!titles(&s).contains(&"late".to_string()));
    assert!(s.answered(7, &devvm(), Ok(vec![si("late"), si("work")])));
    assert!(titles(&s).contains(&"late".to_string()));
    // a refusal keeps what was known
    assert!(s.answered(7, &devvm(), Err("down".into())));
    assert!(titles(&s).contains(&"late".to_string()));
    let work = devvm().url_of(&si("work"));
    assert!(s.ended(6, &work, Ok(())) == Ending::Stale);
    assert!(s.ended(7, &work, Ok(())) == Ending::AskAgain);
    assert!(!titles(&s).contains(&"work".to_string()));
    assert!(s.ended(7, &work, Err("unsaved".into())) == Ending::Refused);
}

#[test]
fn the_edit_menu_on_an_overlays_field() {
    let mut f = LineEdit::of("ab");
    assert_eq!(overlay_edit(&mut f, "paste", Some("  cd \nef")), (true, None));
    assert_eq!(f.as_str(), "abcd");
    assert_eq!(overlay_edit(&mut f, "paste", Some("\nx")), (false, None));
    assert_eq!(overlay_edit(&mut f, "paste", None), (false, None));
    assert_eq!(overlay_edit(&mut f, "copy", None), (false, None));
    assert_eq!(overlay_edit(&mut f, "select-all", None), (false, None));
    assert_eq!(overlay_edit(&mut f, "copy", None), (false, Some("abcd".to_string())));
    assert_eq!(overlay_edit(&mut f, "cut", None), (true, Some("abcd".to_string())));
    assert_eq!(f.as_str(), "");
    assert_eq!(overlay_edit(&mut f, "undo", None), (true, None));
    assert_eq!(f.as_str(), "abcd");
    assert_eq!(overlay_edit(&mut f, "redo", None), (false, None));
    // a paste that inserts is an edit, though the text is the same
    overlay_edit(&mut f, "select-all", None);
    assert_eq!(overlay_edit(&mut f, "paste", Some("abcd")), (true, None));
    assert_eq!(overlay_edit(&mut f, "undo", None), (true, None));
    f.clear();
    assert!(f.is_empty());
}

#[test]
fn the_finder_lists_open_windows_then_closed_files() {
    let open = vec![Entry { name: "/a".into(), window: Some(WindowId(1)), kind: WinKind::File }];
    let all = finder_entries(&open, &vec!["/a".to_string(), "/b".to_string()]);
    assert_eq!(all.iter().map(|e| (e.name.as_str(), e.window)).collect::<Vec<_>>(), vec![("/a", Some(WindowId(1))), ("/b", None)]);
    let mut f = Finder { filter: LineEdit::new(), cursor: 0, entries: all };
    // with nothing typed the closed files are not listed
    f.move_cursor(1);
    assert_eq!(f.cursor, 0);
    f.filter = LineEdit::of("/");
    f.move_cursor(1);
    assert_eq!(f.cursor, 1);
    f.move_cursor(1);
    assert_eq!(f.cursor, 0);
    f.move_cursor(-1);
    assert_eq!(f.cursor, 1);
    assert_eq!(split_name("/x/y.rs"), ("/x/".to_string(), "y.rs".to_string()));
    assert_eq!(split_name("/x/"), (String::new(), "/x/".to_string()));
}

#[test]
fn a_tab_takes_the_name_its_session_goes_by() {
    let mut p = Pool::install(&vec![]);
    let (id, new) = p.open(&SessionUrl::local("work"));
    assert!(new);
    assert_eq!(p.open(&SessionUrl::local("work")), (id, false));
    assert!(matches!(p.state(id), State::Down(why) if why == "not attached"));
    let real = SessionUrl::local("work").with_id("abc");
    assert!(p.note_open(id, &real));
    assert!(!p.note_open(id, &real));
    assert!(matches!(p.state(id), State::Up));
    assert_eq!(p.url_of(id).unwrap().id.as_deref(), Some("abc"));
    assert!(p.named(id, &real.with_session("play")));
    assert_eq!(p.url_of(id).unwrap().session, "play");
    // nothing is parked under it: no link to close, and the tab goes
    assert!(!p.let_go(id));
    assert!(p.url_of(id).is_none());
    assert_eq!(p.open(&SessionUrl::local("work")).0, TabId(id.0 + 1));
}

#[test]
fn sessions_are_told_apart_by_place_and_name() {
    let u = SessionUrl::local("work");
    assert!(u.is_local() && Host::of(&u).is_local() && !devvm().is_local());
    assert!(u.is_beside(&SessionUrl::local("play")));
    assert!(!u.is_beside(&devvm().url("work")));
    assert!(u.reads_as(&u.with_id("x")));
    assert!(!u.reads_as(&u.with_session("play")));
    assert_eq!(parenthesised("ssh"), "(ssh)");
}

#[test]
fn where_a_view_belongs() {
    let w = WindowId(3);
    assert_eq!(ViewId::Body(w).ctx_of(), ExecCtx::Window(w));
    assert_eq!(ViewId::ColTag(ColumnId(2)).ctx_of(), ExecCtx::Column(ColumnId(2)));
    assert_eq!(ViewId::Top.ctx_of(), ExecCtx::Top);
    assert_eq!(ViewId::Tag(w).column_of_view(Some(ColumnId(9))), Some(ColumnId(9)));
    assert_eq!(ViewId::ColTag(ColumnId(2)).column_of_view(None), Some(ColumnId(2)));
    assert_eq!(ViewId::Top.column_of_view(Some(ColumnId(9))), None);
}

#[test]
fn a_window_that_comes_back_has_the_pointer_back() {
    let at = Pt { x: 5 * SUB, y: 9 * SUB };
    let mut p = Pointer::new();
    assert_eq!(p.window_activated(true, false), None);
    p.last = at;
    assert_eq!(p.window_activated(false, false), None);
    assert_eq!(p.window_activated(true, true), None);
    assert_eq!(p.window_activated(true, false), Some(at));
    assert_eq!(p.at, Some(at));
}

#[test]
fn what_the_tiling_is_told_of_a_body() {
    let text = BodyInfo { mono: false, lines: 7, term: false };
    let mono = BodyInfo { mono: true, lines: 7, term: false };
    let term = BodyInfo { mono: false, lines: 7, term: true };
    assert_eq!((body_font_height(Some(text), 17, 16), body_font_height(Some(mono), 17, 16)), (17, 16));
    assert_eq!((body_font_height(Some(term), 17, 16), body_font_height(None, 17, 16)), (16, 16));
    assert_eq!((body_nlines(Some(text), 30), body_nlines(Some(text), 5)), (7, 5));
    assert_eq!((body_nlines(Some(term), 30), body_nlines(None, 30)), (30, 30));
    assert_eq!((lines_left(10, 3), lines_left(3, 10)), (7, 0));
}

#[test]
fn a_sweep_ends_past_the_cell_pointed_at() {
    let from = Cell { col: 4, line: 10 };
    assert_eq!(sweep_end(from, CellAt { col: 6, row: 0, cols: 80, top: 10 }), Cell { col: 7, line: 10 });
    assert_eq!(sweep_end(from, CellAt { col: 2, row: 0, cols: 80, top: 10 }), Cell { col: 2, line: 10 });
    assert_eq!(sweep_end(from, CellAt { col: 79, row: 3, cols: 80, top: 10 }), Cell { col: 80, line: 13 });
    let o = Pt { x: 0, y: 0 };
    assert!(!are_parted(o, Pt { x: SUB, y: 0 }, SUB));
    assert!(are_parted(o, Pt { x: 0, y: SUB + 1 }, SUB));
}

#[test]
fn the_terminals_hear_the_themes_colours() {
    let t = light();
    let c = term_colors(&t);
    assert_eq!((c.fg, c.bg), (t.text, t.body_bg));
    assert_eq!(c.ansi, t.ansi);
    assert_ne!(term_colors(&dark()).bg, c.bg);
}

#[test]
fn what_a_word_is_made_of() {
    assert!(is_alnum('a') && is_alnum('_') && is_alnum('\u{e9}'));
    assert!(!is_alnum(' ') && !is_alnum('.') && !is_alnum('\u{a0}'));
}

#[test]
fn the_caret_blinks() {
    assert!(caret_visible(0) && caret_visible(499) && caret_visible(1000));
    assert!(!caret_visible(500) && !caret_visible(999));
}

#[test]
fn a_session_is_offered_once() {
    let mut s = opened();
    s.closed = vec![SessionUrl::local("default"), devvm().url("work"), SessionUrl::local("gone"), SessionUrl::local("notes")];
    assert_eq!(titles(&s), vec!["default", "work", "gone", "Add a host\u{2026}"]);
    s.filter = LineEdit::of("gone");
    s.label = true;
    assert_eq!(titles(&s), vec!["gone", "gone", "Add a host\u{2026}"]);
    assert!(matches!(&s.rows()[1], Row::Create(_, h) if h.is(&devvm())));
}

#[test]
fn the_better_match_is_listed_first() {
    let e = |name: &str, w: Option<u64>| Entry { name: name.into(), window: w.map(WindowId), kind: WinKind::File };
    let f = Finder { filter: LineEdit::of("main"), cursor: 0, entries: vec![e("/main/x.rs", Some(1)), e("/a/main.rs", None), e("/a/main.rs", Some(2))] };
    let names: Vec<(String, bool)> = f.picks().into_iter().map(|p| (p.name, p.window.is_some())).collect();
    assert_eq!(names, vec![("/a/main.rs".to_string(), true), ("/a/main.rs".to_string(), false), ("/main/x.rs".to_string(), true)]);
}
