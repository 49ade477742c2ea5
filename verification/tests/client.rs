//! The window's parts, each on its own.

use apex::attention::{advance, Held};
use apex::field::{field_view, Bit, Edited, LineEdit};
use apex::finder::{finder_panel, Entry, Finder, FinderAct, WinKind};
use apex::fuzzy::{score, Score};
use apex::handle::{breath, handle, mix, stippled};
use apex::ids::{TabId, WindowId};
use apex::keys::Modifiers;
use apex::layout::row_from;
use apex::pool::one_session;
use apex::selector::{Connect, Field, Listing, Loading, Row, Selector};
use apex::session::{Host, SessionInfo, SessionUrl};
use apex::theme::{theme, unjoined, Appearance};

fn tab(n: u64) -> TabId {
    TabId(n)
}

fn held(tab: TabId, notes: Vec<(WindowId, u64)>) -> Held {
    Held { tab, notes }
}

#[test]
fn the_queue_keeps_them_in_the_order_they_came() {
    let (a, b) = (tab(1), tab(2));
    let mut q: Vec<(TabId, WindowId, u64)> = Vec::new();
    let mut looked: Vec<TabId> = Vec::new();
    // the first look at a session: what it has is queued, and is no news
    let came = advance(&mut q, &looked, &vec![held(a, vec![(WindowId(1), 7)])]);
    assert!(!came, "a session first seen brings no news");
    assert_eq!(q, vec![(a, WindowId(1), 7)]);
    looked.push(a);
    // another in the same session, and one in a session also new
    let now = vec![held(a, vec![(WindowId(1), 7), (WindowId(2), 9)]), held(b, vec![(WindowId(5), 2)])];
    let came = advance(&mut q, &looked, &now);
    assert!(came, "the one in the session we had is news");
    assert_eq!(q, vec![(a, WindowId(1), 7), (a, WindowId(2), 9), (b, WindowId(5), 2)]);
    looked.push(b);
    // the oldest is taken: it goes, the rest keep their order
    let came = advance(&mut q, &looked, &vec![held(a, vec![(WindowId(2), 9)]), held(b, vec![(WindowId(5), 2)])]);
    assert!(!came);
    assert_eq!(q, vec![(a, WindowId(2), 9), (b, WindowId(5), 2)]);
    // one raised again after being lowered is another notification,
    // and goes to the end
    let now = vec![held(a, vec![(WindowId(2), 9), (WindowId(1), 11)]), held(b, vec![(WindowId(5), 2)])];
    let came = advance(&mut q, &looked, &now);
    assert!(came);
    assert_eq!(q, vec![(a, WindowId(2), 9), (b, WindowId(5), 2), (a, WindowId(1), 11)]);
    // and with none left, nothing is queued
    let came = advance(&mut q, &looked, &vec![held(a, vec![]), held(b, vec![])]);
    assert!(!came);
    assert!(q.is_empty());
}

fn mods(shift: bool, alt: bool, platform: bool, control: bool) -> Modifiers {
    Modifiers { shift, alt, platform, control, function: false }
}

#[test]
fn editing_keys_do_what_a_mac_field_does() {
    let m = mods(false, false, false, false);
    let mut e = LineEdit::new();
    for c in ["a", "b", " ", "c", "d"] {
        assert_eq!(e.key(c, Some(c), &m), Edited::Changed);
    }
    assert_eq!((e.as_str(), e.cursor), ("ab cd", 5));
    // option-left: a word; shift-arrows select; typing replaces
    e.key("left", None, &mods(false, true, false, false));
    assert_eq!(e.cursor, 3);
    e.key("left", None, &mods(true, false, false, false));
    e.key("left", None, &mods(true, false, false, false));
    assert_eq!(e.selected().as_deref(), Some("b "));
    e.key("X", Some("X"), &m);
    assert_eq!(e.as_str(), "aXcd");
    // command-backspace to the start; undo brings it back
    e.key("backspace", None, &mods(false, false, true, false));
    assert_eq!(e.as_str(), "cd");
    assert!(e.undo());
    assert_eq!((e.as_str(), e.cursor), ("aXcd", 2));
    // ^W a word, ^A ^E the ends, select all and cut
    e.key("e", None, &mods(false, false, false, true));
    e.key("w", None, &mods(false, false, false, true));
    assert_eq!(e.as_str(), "");
    e.set("one two");
    e.select_all();
    assert_eq!(e.cut().as_deref(), Some("one two"));
    assert!(e.is_empty());
    // a command key that is not editing is not taken
    assert_eq!(e.key("k", Some("k"), &mods(false, false, true, false)), Edited::No);
}

#[test]
fn a_key_that_erases_nothing_changes_nothing() {
    let m = mods(false, false, false, false);
    let ctrl = mods(false, false, false, true);
    let mut e = LineEdit::new();
    assert_eq!(e.key("backspace", None, &m), Edited::Moved);
    for k in ["h", "d", "u", "w", "k"] {
        assert_eq!(e.key(k, None, &ctrl), Edited::Moved);
    }
    assert_eq!(e.key("delete", None, &m), Edited::Moved);
    assert!(!e.undo());
    let mut e = LineEdit::of("ab");
    assert_eq!(e.key("delete", None, &m), Edited::Moved);
    assert_eq!(e.key("k", None, &ctrl), Edited::Moved);
    // the same text typed over itself is no change either
    e.select_all();
    assert_eq!(e.key("", Some("ab"), &m), Edited::Moved);
    assert_eq!((e.as_str(), e.cursor, e.anchor), ("ab", 2, None));
    assert!(!e.undo());
    assert_eq!(e.key("backspace", None, &m), Edited::Changed);
    assert!(e.undo());
    assert_eq!((e.as_str(), e.cursor), ("ab", 2));
}

#[test]
fn undo_takes_back_an_edit_whatever_it_did() {
    let mut e = LineEdit::new();
    e.backspace();
    assert!(e.undo());
    assert_eq!((e.as_str(), e.cursor), ("", 0));
    assert!(!e.undo());
    let mut e = LineEdit::of("ab");
    e.insert("c");
    e.delete();
    assert!(e.undo());
    assert_eq!((e.as_str(), e.cursor), ("abc", 3));
    assert!(e.undo());
    assert_eq!((e.as_str(), e.cursor), ("ab", 2));
    // also when there are as many states as are kept
    for _ in 0..70 {
        e.insert("x");
    }
    e.insert("");
    let (text, cursor) = (e.as_str().to_string(), e.cursor);
    e.backspace();
    assert!(e.undo());
    assert_eq!((e.as_str(), e.cursor, e.anchor), (text.as_str(), cursor, None));
    assert_eq!((0..100).filter(|_| e.undo()).count(), 63);
    // and a cut
    let mut e = LineEdit::of("one");
    e.select_all();
    assert_eq!(e.cut().as_deref(), Some("one"));
    assert!(e.undo());
    assert_eq!((e.as_str(), e.cursor, e.anchor), ("one", 3, None));
}

#[test]
fn a_selection_is_of_characters_that_are_there() {
    let (m, shift) = (mods(false, false, false, false), mods(true, false, false, false));
    let mut e = LineEdit::of("ab");
    e.key("left", None, &shift);
    assert_eq!(e.selection(), Some((1, 2)));
    e.key("right", None, &shift);
    assert_eq!((e.selection(), e.anchor), (None, Some(2)));
    e.key("backspace", None, &m);
    assert_eq!((e.as_str(), e.selection(), e.anchor), ("a", None, None));
    assert_eq!(field_view(&e, "", true).len(), 2);
    // what is cut can be put back
    let mut e = LineEdit::of("one two");
    e.key("left", None, &mods(true, true, false, false));
    let cut = e.cut().unwrap();
    assert_eq!((cut.as_str(), e.as_str(), e.selection()), ("two", "one ", None));
    e.insert(&cut);
    assert_eq!(e.as_str(), "one two");
}

#[test]
fn a_field_is_drawn_with_its_caret_and_its_selection() {
    let drawn = |e: &LineEdit, active: bool| -> Vec<String> {
        field_view(e, "find\u{2026}", active)
            .into_iter()
            .map(|b| match b {
                Bit::Caret => "|".to_string(),
                Bit::Text(s, on) => format!("{}{s}", if on { "+" } else { "" }),
                Bit::Hint(s) => format!("?{s}"),
            })
            .collect()
    };
    let mut e = LineEdit::new();
    assert_eq!(drawn(&e, true), vec!["|", "?find\u{2026}"]);
    assert_eq!(drawn(&e, false), vec!["?find\u{2026}"]);
    e.set("abcd");
    assert_eq!(drawn(&e, true), vec!["abcd", "|"]);
    let m = mods(true, false, false, false);
    e.key("left", None, &m);
    e.key("left", None, &m);
    assert_eq!(drawn(&e, true), vec!["ab", "|", "+cd"]);
    e.select_all();
    assert_eq!(drawn(&e, true), vec!["+abcd", "|"]);
    assert_eq!(drawn(&e, false), vec!["+abcd"]);
}

#[test]
fn the_file_name_beats_the_directory_and_open_beats_closed() {
    let a = score("main", "/src/apex/crates/apex-client/src/main.rs").unwrap();
    let b = score("main", "/src/main-things/other/file.rs").unwrap();
    assert!(a > b, "{a:?} vs {b:?}");
    assert!(score("zzz", "/src/main.rs").is_none());
    // consecutive letters in the name beat scattered ones
    let c = score("app", "/x/app.rs").unwrap();
    let d = score("app", "/a/p/p.rs").unwrap();
    assert!(c > d, "{c:?} vs {d:?}");
    let f = Finder {
        filter: LineEdit::of("rs"),
        cursor: 0,
        entries: vec![
            Entry { name: "/x/closed.rs".into(), window: None, kind: WinKind::File },
            Entry { name: "/x/open.rs".into(), window: Some(WindowId(1)), kind: WinKind::File },
        ],
    };
    let picks = f.picks();
    assert!(picks[0].name == "/x/open.rs", "{picks:?}");
    assert_eq!(picks.len(), 2);
}

#[test]
fn the_finder_shows_what_it_found() {
    let picks = vec![
        Entry { name: "/x/open.rs".into(), window: Some(WindowId(1)), kind: WinKind::File },
        Entry { name: "/x/-host".into(), window: Some(WindowId(2)), kind: WinKind::Term },
        Entry { name: "/x/closed.rs".into(), window: None, kind: WinKind::File },
        Entry { name: "/x/".into(), window: Some(WindowId(3)), kind: WinKind::Dir },
    ];
    let rows = finder_panel(&picks, 1);
    assert_eq!(rows.len(), 4);
    assert_eq!((rows[0].mark, rows[0].dir.as_str(), rows[0].name.as_str()), ("\u{25cf}", "/x/", "open.rs"));
    assert_eq!((rows[1].mark, rows[1].mark_color, rows[1].picked), ("\u{25b6}", 0x990099, true));
    assert_eq!((rows[2].mark, rows[2].open, rows[2].picked), ("\u{25cb}", false, false));
    assert_eq!((rows[3].dir.as_str(), rows[3].name.as_str()), ("", "/x/"));
    let many: Vec<Entry> =
        (0..40).map(|i| Entry { name: format!("/f{i}"), window: None, kind: WinKind::File }).collect();
    assert_eq!(finder_panel(&many, 0).len(), 24);
}

#[test]
fn keys_in_the_finder_type_move_pick_and_close() {
    let m = mods(false, false, false, false);
    let mut f = Finder {
        filter: LineEdit::new(),
        cursor: 0,
        entries: vec![
            Entry { name: "/x/a.rs".into(), window: Some(WindowId(1)), kind: WinKind::File },
            Entry { name: "/x/b.rs".into(), window: Some(WindowId(2)), kind: WinKind::File },
        ],
    };
    assert!(matches!(f.finder_key("down", None, &m), FinderAct::Redraw));
    assert_eq!(f.cursor, 1);
    assert!(matches!(f.finder_key("b", Some("b"), &m), FinderAct::Redraw));
    assert_eq!((f.filter.as_str(), f.cursor), ("b", 0));
    let pick = f.finder_key("enter", None, &m);
    assert!(matches!(pick, FinderAct::Pick(1)) && pick.closes());
    assert!(matches!(f.finder_key("escape", None, &m), FinderAct::Close));
}

#[test]
fn a_path_that_matches_nothing_is_opened_as_typed() {
    let m = mods(false, false, false, false);
    let mut f = Finder {
        filter: LineEdit::of(" /x/new.rs "),
        cursor: 0,
        entries: vec![Entry { name: "/x/a.rs".into(), window: Some(WindowId(1)), kind: WinKind::File }],
    };
    assert!(f.picks().is_empty());
    let a = f.finder_key("enter", None, &m);
    assert!(a.closes());
    assert!(matches!(&a, FinderAct::Open(p) if p == "/x/new.rs"), "{a:?}");
    assert!(FinderAct::Close.closes() && !FinderAct::Redraw.closes());
    // with nothing typed there is nothing to open
    f.filter.clear();
    f.entries.clear();
    let a = f.finder_key("enter", None, &m);
    assert!(matches!(a, FinderAct::Nothing) && !a.closes());
}

#[test]
fn scores_compare_as_what_they_gain_less_what_they_cost() {
    let s = |gain: u128, cost: u128| Score { gain, cost };
    assert!(s(5, 3) > s(1, 0) && s(5, 3) == s(2, 0) && s(0, u128::MAX) < s(0, 1));
    assert!(s(1, 0).over(&s(0, 0)) && !s(1, 1).over(&s(0, 0)) && s(0, 1).over(&s(2, 9)) && !s(0, 9).over(&s(2, 9)));
    assert_eq!(score("a", "a").map(|s| (s.gain, s.cost)), Some((2300, 1)));
}

fn url(label: &str, id: &str) -> SessionUrl {
    SessionUrl::local(label).with_id(id)
}

#[test]
fn what_makes_a_url_the_tab_the_app_already_has() {
    // a host and a label name a session: the identity under it can
    // change (one that was gone is made again with the same label),
    // and it is the same tab
    assert!(one_session(&url("work", "old"), &url("work", "new")));
    // and a label can change under an identity (a rename one side
    // has not heard about yet)
    let mut renamed = url("work", "same");
    renamed.session = "toil".into();
    assert!(one_session(&url("work", "same"), &renamed));
    // but two names and two identities are two sessions
    assert!(!one_session(&url("work", "a"), &url("play", "b")));
    // and a host of its own is a session of its own
    let mut elsewhere = url("work", "a");
    elsewhere.provider = "ssh".into();
    elsewhere.arg = "box".into();
    assert!(!one_session(&url("work", "b"), &elsewhere));
}

fn si(l: &str) -> SessionInfo {
    SessionInfo { id: format!("id-{l}"), label: l.to_string() }
}

fn picker() -> Selector {
    let local = Host::local();
    let box_ = Host { provider: "sprite".into(), arg: "devvm".into() };
    Selector {
        tabs: Vec::new(),
        closed: Vec::new(),
        filter: LineEdit::new(),
        label: false,
        cursor: 0,
        moved: false,
        hosts: vec![local.copy(), box_.copy()],
        sessions: vec![
            Listing { host: local, loading: Loading::Ready(vec![si("default"), si("notes"), si("anotherfoobaz")]) },
            Listing { host: box_, loading: Loading::Seeded(vec![si("work")]) },
        ],
        current: SessionUrl::local("notes"),
        renaming: None,
        connect: None,
        epoch: 1,
    }
}

/// What the rows say, as the eye reads them: the name and what
/// picking it does.
fn shape(sel: &Selector) -> Vec<String> {
    sel.rows().iter().map(|r| format!("{} {}", r.title(), r.action())).collect()
}

#[test]
fn the_picker_offers_every_way_into_a_session() {
    // nothing typed: the tabs to go to, the sessions to open, a host
    // to add at the bottom; this window's own session is not offered
    let mut sel = picker();
    sel.tabs = vec![SessionUrl::local("default"), SessionUrl::local("notes")];
    assert_eq!(
        shape(&sel),
        vec![
            "default Go to session",
            "anotherfoobaz Open session",
            "work Open session",
            "Add a host… Add a host",
        ]
    );
    // a name typed: what it matches, then the making of it on every
    // host that has no session by that name, then the host row
    sel.filter = LineEdit::of("another");
    sel.label = true;
    assert_eq!(
        shape(&sel),
        vec![
            "anotherfoobaz Open session",
            "another Create on local",
            "another Create on devvm (sprite)",
            "Add a host… Add a host",
        ]
    );
    // a name a session already has on one host: only the other hosts
    // offer to make it
    sel.filter = LineEdit::of("work");
    sel.label = true;
    assert_eq!(shape(&sel), vec!["work Open session", "work Create on local", "Add a host… Add a host"]);
    // one closed lately is there to open, and is not offered twice
    let mut sel = picker();
    sel.closed = vec![SessionUrl::local("default"), SessionUrl::local("gone")];
    assert!(shape(&sel).contains(&"gone Open session".to_string()));
    assert_eq!(shape(&sel).iter().filter(|r| r.starts_with("default ")).count(), 1);
    // a name that is no label: said, and nothing is offered to make
    let mut sel = picker();
    sel.filter = LineEdit::of("Not A Label");
    sel.label = false;
    let rows = sel.rows();
    assert!(matches!(rows[0], Row::Note(_)));
    assert!(!rows.iter().any(|r| matches!(r, Row::Create(..))));
    // the cursor lands on the first row worth landing on, and a host
    // answering leaves it on the row it was on
    let mut sel = picker();
    sel.land_on_current();
    assert!(sel.rows()[sel.cursor].pickable());
    sel.cursor = sel.rows().iter().position(|r| matches!(r, Row::Open(u) if u.session == "work")).unwrap();
    sel.moved = true;
    let devvm = Host { provider: "sprite".into(), arg: "devvm".into() };
    sel.keeping(|s| s.relist(&devvm, Loading::Ready(vec![si("a"), si("b"), si("work")])));
    assert!(matches!(sel.rows()[sel.cursor], Row::Open(ref u) if u.session == "work"));
    // renaming: the field is the new name, and the only row is it
    let mut sel = picker();
    sel.renaming = Some(SessionUrl::local("notes"));
    sel.filter = LineEdit::of("scratch");
    sel.label = true;
    let rows = sel.rows();
    assert_eq!(rows.len(), 1);
    assert!(matches!(&rows[0], Row::Rename(n) if n == "scratch"));
}

#[test]
fn the_new_host_form_reads_its_fields() {
    // the new-host form
    let mut f = Connect {
        providers: vec!["ssh".into(), "sprite".into()],
        provider: 0,
        host: LineEdit::new(),
        field: Field::Provider,
    };
    assert!(f.host().is_none());
    f.host = LineEdit::of("me@box");
    assert!(f.host().unwrap().is(&Host { provider: "ssh".into(), arg: "me@box".into() }));
    f.next_provider(1);
    assert_eq!(f.host().unwrap().provider, "sprite");
    let devvm = SessionUrl { provider: "sprite".into(), arg: "devvm".into(), session: "x".into(), id: None };
    assert_eq!(Host::of(&devvm).parts(), ("devvm".to_string(), "(sprite)".to_string()));
    assert_eq!(Host::local().parts(), ("local".to_string(), String::new()));
}

#[test]
fn scrolling_steps_across_rows_from_wherever_the_origin_is() {
    // one line wrapped every 80 runes
    let rows: Vec<usize> = (0..10).map(|r| r * 80).collect();
    assert_eq!(row_from(&rows, 0, 3), 240, "three rows into the line");
    assert_eq!(row_from(&rows, 250, -1), 160, "from a row's middle, a row back");
    assert_eq!(row_from(&rows, 250, 0), 250, "no scroll, no move");
    assert_eq!(row_from(&rows, 160, 100), 720, "the last row can come to the top");
    assert_eq!(row_from(&rows, 160, -100), 0);
}

#[test]
fn a_handle_is_a_colour_with_its_marks_laid_over_it() {
    let th = theme(&Appearance::new());
    // clean and dirty: a colour, and nothing over it
    let clean = handle(&th, false, false, false, false, None, false);
    assert_eq!((clean.base, clean.live, clean.pulse, clean.face), (th.tag_bg, None, None, None));
    assert_eq!(handle(&th, false, false, true, false, None, false).base, th.dirty);
    // live: the dirty colour stippled over clean, the paper's over dirty
    assert_eq!(handle(&th, false, false, false, true, None, false).live, Some(th.dirty));
    assert_eq!(handle(&th, false, false, true, true, None, false).live, Some(th.tag_bg));
    // working: a stipple from the progress blue at the top of its breath
    assert_eq!(handle(&th, false, false, false, false, Some(0), false).pulse, Some(th.progress));
    // all of it at once: each mark still there
    let all = handle(&th, false, false, false, true, Some(0), true);
    assert!(all.live.is_some() && all.pulse.is_some() && all.face == Some(th.text), "{all:?}");
}

#[test]
fn the_two_stipples_are_a_quarter_each_and_never_on_one_pixel() {
    let (mut even, mut odd) = (0, 0);
    for y in 0..8 {
        for x in 0..8 {
            assert!(!(stippled(x, y, false) && stippled(x, y, true)), "{x},{y}");
            even += i32::from(stippled(x, y, false));
            odd += i32::from(stippled(x, y, true));
        }
    }
    assert_eq!((even, odd), (16, 16));
}

#[test]
fn a_breath_goes_out_and_comes_back() {
    assert_eq!((breath(0), breath(300), breath(600), breath(900), breath(1200)), (0, 300, 600, 300, 0));
    assert_eq!(mix(0x000000, 0xffffff, 300, 600), 0x808080);
    assert_eq!(mix(0x123456, 0xfedcba, 0, 600), 0x123456);
}

#[test]
fn text_fonts_join_no_letters_into_one_glyph() {
    // with liga, clig and calt off each of ff, fi, fl, ffi and ffl is a
    // glyph a letter, so a click or the cursor can land between any two
    let off = unjoined();
    for tag in ["liga", "clig", "calt"] {
        assert!(off.contains(&tag), "{tag} off ({off:?})");
    }
}
