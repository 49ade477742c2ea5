//! Texts, terminals, the mouse and the keys.

use apex::cursor::{pixels, BIGARROW2_CLR, BIGARROW2_SET, BIGARROW_CLR, BIGARROW_SET, BOX_CLR, BOX_SET};
use apex::drag::{CellAt, OffsetAt, Over};
use apex::exec::{
    after_run, execute, look_at, menu_command, menu_edit, term_select_all, window_at_pointer, with_argument, After, Body, Command,
    EditAct, MenuAct, Nav, Ran, Shown as ShownBody,
};
use apex::frame::{
    locate, menu_lines, render, resized, source, style, top, Behind, Column, Drawn, Shows, Slot, Style, TermPlace,
    TextPlace, Tiling,
};
use apex::ids::{ColumnId, ExecCtx, Kind, TermId, ViewId, WindowId};
use apex::keys::Modifiers;
use apex::layout::{
    colors, expand, range_on_line, room_to_leave, thumb, top_for, want, LineInfo,
};
use apex::lines::{end_of_line, line_number, scroll_by, start_of_line, start_of_nth};
use apex::menu::{menu_open, Popup, Rect};
use apex::menus::{bindings, menus, Action, Item};
use apex::mouse::{
    b3_cmd, logical_button, Act, Button, Cell, Drag, HlKind, Mouse, Press, Pt, Region, Swept, Target, TermSel, Ui,
    Under, SUB,
};
use apex::release::HeldText;
use apex::rows::{grid_size, lines_that_fit, offset_at, point_of, rows_across, shown, swept, tag_need, Falls};
use apex::scroll::{
    autoscroll_step, follows_output, kept_on_bar, moved_along, scroll_wheel, scrollbar_click, term_scrollbar_click,
    Scroll, LINE,
};
use apex::term::{cell_at, draw_row, term_grid_text, term_link, term_take, term_url, term_word, GridCell};
use apex::text::{contains, len_utf8, lines, splice, trim};
use apex::textkeys::{key_down, text_key, KeyRoute, TextAct, TextState};
use apex::theme::{dark, is_dark, light, load, mode, palette, session_square, set_mode, set_system_dark, theme, Appearance, Mode};
use apex::warp::{del_at, tag_measured, tag_room, Drawn as Where, Frame, Pending, Pointer, Slot as WarpSlot, Warp};
use apex::words::{expand as word_at, explicit_range_at, is_exec_char, is_file_char, take_range_at};

fn c(s: &str) -> Vec<char> {
    s.chars().collect()
}

fn s(v: &[char]) -> String {
    v.iter().collect()
}

fn held(shift: bool, alt: bool, platform: bool, control: bool) -> Modifiers {
    Modifiers { shift, alt, platform, control, function: false }
}

fn plain() -> Modifiers {
    Modifiers::none()
}

fn at(x: i64, y: i64) -> Pt {
    Pt { x, y }
}

fn ui() -> Ui {
    Ui {
        finder: false,
        selector: false,
        chooser: false,
        menu: false,
        switcher: false,
        pages: false,
        pointer: None,
        last_mouse: at(0, 0),
        mouse: Mouse::new(),
        hl: None,
        term_sel: None,
        term_hl: None,
    }
}

const BODY: ViewId = ViewId::Body(WindowId(1));

fn press(button: Button, clicks: usize, mods: Modifiers) -> Press {
    Press { button, at: at(10 * SUB, 10 * SUB), clicks, mods }
}

fn over_text(q: usize) -> Under {
    Under { hit: Some((Target::View(BODY), Region::Text(q))), home: Some(ColumnId(1)), top: 0 }
}

#[test]
fn letters_of_other_scripts_are_letters() {
    assert!(is_file_char('é') && is_file_char('/') && is_file_char('语') && !is_file_char(' ') && !is_file_char('|'));
    assert!(is_exec_char('|') && !is_exec_char('('));
    assert_eq!(s(&trim(&c("\u{3000} x\u{a0}\n"))), "x");
    for w in "\t\n\u{b}\u{c}\r \u{85}\u{a0}\u{1680}\u{2000}\u{200a}\u{2028}\u{2029}\u{202f}\u{205f}\u{3000}".chars() {
        assert!(trim(&[w]).is_empty(), "{w:?}");
    }
    for x in "\u{8}\u{e}\u{1f}\u{84}\u{86}\u{180e}\u{200b}\u{2060}\u{feff}".chars() {
        assert_eq!(trim(&[x]).len(), 1, "{x:?}");
    }
    assert_eq!((len_utf8('a'), len_utf8('é'), len_utf8('语'), len_utf8('😀')), (1, 2, 3, 4));
    let l: Vec<String> = lines(&c("a\r\nb\n\nc")).iter().map(|l| s(l)).collect();
    assert_eq!(l, vec!["a", "b", "", "c"]);
    assert!(contains("Überall", "all") && !contains("x", "xx") && contains("x", ""));
    assert_eq!(splice("abcd", 1, 3, "XY Z"), "aXY Zd");
}

#[test]
fn a_word_is_taken_where_the_mouse_is() {
    let t = c("open /usr/lib:12 now");
    assert_eq!(word_at(&t, 7, HlKind::Look), (5, 16));
    assert_eq!(word_at(&t, 1, HlKind::Exec), (0, 4));
    let d = Drag { view: BODY, anchor: 7 };
    let hl = Some(Swept { view: BODY, lo: 5, hi: 9, kind: HlKind::Look });
    assert_eq!(explicit_range_at(hl, None, d), Some((5, 9)));
    assert_eq!(take_range_at(&t, None, Some((5, 16)), d, HlKind::Look), Some((5, 16)));
    assert_eq!(take_range_at(&t, None, None, d, HlKind::Look), Some((5, 16)));
}

#[test]
fn lines_are_counted_and_stepped() {
    let t = c("one\ntwo\n\nfour");
    assert_eq!((start_of_line(&t, 5), end_of_line(&t, 5)), (4, 7));
    assert_eq!((line_number(&t, 0), line_number(&t, 8), line_number(&t, 13)), (0, 2, 3));
    assert_eq!((start_of_nth(&t, 0), start_of_nth(&t, 3)), (0, 9));
    assert_eq!(scroll_by(&t, 4, 2), 9);
    assert_eq!(scroll_by(&t, 9, -2), 4);
    assert_eq!(scroll_by(&t, 9, -20), 0);
}

fn state<'a>(t: &'a [char], q0: usize, q1: usize) -> TextState<'a> {
    TextState {
        text: Some(t),
        sel: Some((q0, q1)),
        fit: 30,
        tagexpand: None,
        typed_start: None,
        iq1: 0,
        origin: 0,
        shown_end: Some(t.len()),
        live: false,
    }
}

#[test]
fn keys_in_a_text() {
    let t = c("one two\nthree");
    let key = |k: &str, ch: Option<&str>, m: Modifiers, q0: usize, q1: usize| text_key(BODY, k, ch, &m, &state(&t, q0, q1));
    let o = key("x", Some("x"), plain(), 3, 3);
    assert!(matches!(o.act, TextAct::Type));
    assert_eq!((o.text.as_str(), o.typed_start), ("x", Some(3)));
    assert!(matches!(key("left", None, plain(), 3, 3).act, TextAct::Select(2, 2)));
    assert!(matches!(key("left", None, plain(), 0, 0).act, TextAct::Select(0, 0)));
    assert!(matches!(key("right", None, plain(), 3, 5).act, TextAct::Select(5, 5)));
    assert!(matches!(key("z", None, held(false, false, true, false), 3, 3).act, TextAct::Undo));
    assert!(matches!(key("z", None, held(true, false, true, false), 3, 3).act, TextAct::Redo));
    assert!(matches!(key("c", None, held(false, false, true, false), 3, 5).act, TextAct::Snarf));
    assert!(matches!(key("v", None, held(false, false, true, false), 3, 5).act, TextAct::Paste));
    assert!(matches!(key("a", None, held(false, false, false, true), 10, 10).act, TextAct::Select(8, 8)));
    assert!(matches!(key("e", None, held(false, false, false, true), 10, 10).act, TextAct::Select(13, 13)));
    assert!(matches!(key("w", None, held(false, false, false, true), 7, 7).act, TextAct::EraseWord));
    assert!(matches!(key("backspace", None, plain(), 3, 3).act, TextAct::EraseChar));
    // with control it erases nothing, and notes the insertion point all the same
    let o = key("backspace", None, held(false, false, false, true), 3, 3);
    assert!(matches!(o.act, TextAct::Nothing) && o.insertion && o.reveal);
    let o = key("delete", None, held(false, false, false, true), 3, 3);
    assert!(matches!(o.act, TextAct::Nothing) && !o.insertion && o.reveal);
}

#[test]
fn a_key_goes_where_the_mouse_is() {
    let down = |k: &str, m: Modifiers, sw: bool, f: bool, sel: bool, over: Option<Target>| key_down(k, &m, sw, f, sel, over, Some(BODY));
    let term = Some(Target::Term(WindowId(2), TermId(3)));
    assert_eq!(down("tab", held(true, false, false, true), false, false, false, None), KeyRoute::SwitcherStep(true));
    assert_eq!(down("escape", plain(), true, false, false, None), KeyRoute::CloseSwitcher);
    assert_eq!(down("x", plain(), true, false, false, None), KeyRoute::Nowhere);
    assert_eq!(down("x", plain(), false, true, false, None), KeyRoute::Finder);
    assert_eq!(down("x", plain(), false, false, true, None), KeyRoute::Selector);
    assert_eq!(down("x", plain(), false, false, false, term), KeyRoute::Term(TermId(3)));
    assert_eq!(down("v", held(false, false, true, false), false, false, false, term), KeyRoute::TermPaste(TermId(3)));
    assert!(matches!(down("x", plain(), false, false, false, None), KeyRoute::Text(BODY, _)));
}

#[test]
fn b1_selects_and_chords_cut_and_paste() {
    let mut u = ui();
    let acts = u.mouse_down(&press(Button::Left, 1, plain()), &over_text(5));
    assert!(acts.contains(&Act::Select(BODY, 5, 5)), "{acts:?}");
    assert_eq!(u.mouse.b1, Some(Drag { view: BODY, anchor: 5 }));
    let over = Over { b1: Some(OffsetAt { off: 2, above: false, below: false }), b2: None, b3: None, sweep: None, drag: None };
    let acts = u.mouse_move(at(20 * SUB, 10 * SUB), &over);
    assert!(acts.contains(&Act::Select(BODY, 2, 5)), "{acts:?}");
    // B2 while B1 is held cuts, B3 pastes
    let acts = u.mouse_down(&press(Button::Middle, 1, plain()), &over_text(2));
    assert!(acts.contains(&Act::Cut(BODY)), "{acts:?}");
    let acts = u.mouse_down(&press(Button::Right, 1, plain()), &over_text(2));
    assert!(acts.contains(&Act::Paste(BODY)), "{acts:?}");
    let t = c("hello there");
    u.mouse_up(Button::Left, at(20 * SUB, 10 * SUB), &HeldText { text: Some(&t), sel: Some((2, 2)) });
    assert_eq!(u.mouse.b1, None);
    // two clicks take a word
    let acts = u.mouse_down(&press(Button::Left, 2, plain()), &over_text(5));
    assert!(acts.contains(&Act::SelectWord(BODY, 5)), "{acts:?}");
}

#[test]
fn b2_runs_and_b3_looks() {
    let t = c("Put it");
    let mut u = ui();
    u.mouse_down(&press(Button::Middle, 1, plain()), &over_text(1));
    assert_eq!(u.mouse.b2, Some(Drag { view: BODY, anchor: 1 }));
    let acts = u.mouse_up(Button::Middle, at(10 * SUB, 10 * SUB), &HeldText { text: Some(&t), sel: Some((0, 0)) });
    assert!(acts.contains(&Act::Execute(ExecCtx::Window(WindowId(1)), BODY, 0, 3, false)), "{acts:?}");
    // option makes the left button the middle one, command the right
    assert_eq!(logical_button(&press(Button::Left, 1, held(false, true, false, false))), Button::Middle);
    assert_eq!(logical_button(&press(Button::Left, 1, held(false, false, true, false))), Button::Right);
    assert_eq!(logical_button(&press(Button::Left, 1, held(true, false, false, false))), Button::Menu);
    assert!(b3_cmd(&press(Button::Right, 1, held(false, false, true, false))));
    let mut u = ui();
    u.mouse_down(&press(Button::Right, 1, plain()), &over_text(5));
    let acts = u.mouse_up(Button::Right, at(10 * SUB, 10 * SUB), &HeldText { text: Some(&t), sel: Some((0, 0)) });
    assert!(acts.iter().any(|a| matches!(a, Act::Look(l) if l.lo == 4 && l.hi == 6 && !l.reverse)), "{acts:?}");
}

#[test]
fn a_terminal_is_selected_by_dragging() {
    let hit = Under { hit: Some((Target::Term(WindowId(2), TermId(3)), Region::Term(4, 1))), home: None, top: 100 };
    let mut u = ui();
    u.mouse_down(&press(Button::Left, 1, plain()), &hit);
    assert_eq!(u.mouse.term_drag, Some(WindowId(2)));
    let over = Over { b1: None, b2: None, b3: None, sweep: None, drag: Some(CellAt { col: 9, row: 2, cols: 80, top: 100 }) };
    u.mouse_move(at(500 * SUB, 60 * SUB), &over);
    let sel = u.term_sel.unwrap();
    assert_eq!((sel.from.line, sel.to.line), (101, 102));
    u.mouse_up(Button::Left, at(500 * SUB, 60 * SUB), &HeldText { text: None, sel: None });
    assert_eq!(u.mouse.term_drag, None);
    // the switcher is left when control is
    let mut u = ui();
    u.switcher = true;
    let acts = u.modifiers_changed(plain());
    assert!(acts.contains(&Act::SwitcherCommit), "{acts:?}");
}

#[test]
fn tabs_are_drawn_to_the_next_stop() {
    let e = expand(&c("a\tb"), 10);
    assert_eq!(s(&e.out), "a   b");
    assert_eq!(e.map, vec![10, 11, 11, 11, 12, 13]);
}

fn line() -> LineInfo {
    // ten characters from offset 100 on, wrapped after six, then a newline
    LineInfo { start: 100, end: 110, has_newline: true, map: (100..=110).collect(), subs: vec![(0, 6), (6, 10)], y: 0 }
}

#[test]
fn a_line_wraps_to_rows() {
    let l = line();
    assert_eq!((l.to_disp(104), l.to_src(7)), (4, 107));
    assert_eq!(l.row_starts(), vec![100, 106]);
    assert_eq!((l.row_of(105), l.row_of(106), l.row_of(110)), (0, 1, 1));
    assert_eq!(range_on_line(&l, 90, 104), Some((100, 104, false)));
    assert_eq!(range_on_line(&l, 104, 200), Some((104, 110, true)));
    assert_eq!(range_on_line(&l, 120, 130), None);
    let spans = swept(&l, 104, 108);
    assert_eq!(spans.iter().map(|x| (x.row, x.from, x.to)).collect::<Vec<_>>(), vec![(0, 4, Some(6)), (1, 6, Some(8))]);
    let spans = swept(&l, 108, 200);
    assert_eq!(spans.iter().map(|x| (x.row, x.from, x.to)).collect::<Vec<_>>(), vec![(1, 8, None)]);
    assert!(swept(&l, 111, 111).is_empty());
    assert_eq!(colors(&l, Some((102, 104))).len(), 3);
    assert_eq!(tag_need(&vec![line(), line()]), 4);
    assert_eq!(line().height(17), 34);
    assert_eq!((lines_that_fit(100, 17), lines_that_fit(3, 17), lines_that_fit(-5, 17)), (5, 1, 1));
}

#[test]
fn a_height_falls_on_a_line_or_beside_them() {
    let mut next = LineInfo { start: 111, end: 115, has_newline: false, map: (111..=115).collect(), subs: vec![(0, 4)], y: 0 };
    next.y = 40;
    let lines = vec![line(), next];
    assert_eq!(offset_at(&vec![], 10, 20, 0, 1, 7), Falls::On(7));
    assert_eq!(offset_at(&lines, -1, 20, 3, 5, 115), Falls::On(100));
    assert_eq!(offset_at(&lines, 39, 20, 3, 5, 115), Falls::Line(0));
    assert_eq!(offset_at(&lines, 40, 20, 3, 5, 115), Falls::Line(1));
    assert_eq!(offset_at(&lines, 60, 20, 3, 5, 115), Falls::On(115));
    // more lines follow one that ends in a newline: its end
    assert_eq!(offset_at(&vec![line()], 40, 20, 3, 9, 500), Falls::On(110));
    assert_eq!(point_of(&lines, 104), Some((0, 4)));
    // the newline's place is drawn on no line, the end of the text is
    assert_eq!(point_of(&lines, 110), None);
    assert_eq!(point_of(&lines, 115), Some((1, 4)));
    assert_eq!(point_of(&lines, 99), None);
}

#[test]
fn a_window_starts_with_nothing_held() {
    let u = Ui::new();
    assert!(!u.finder && !u.selector && !u.menu && u.pointer.is_none() && u.hl.is_none());
    assert!(u.mouse.b1.is_none() && u.mouse.left_as.is_none() && !u.mouse.mods.shift);
    let mut p = Pointer::new();
    assert!(p.pending.is_none() && p.at.is_none());
    assert!(!p.schedule_warp());
}

#[test]
fn what_shows_and_what_a_view_scrolls_across() {
    let mut next = LineInfo { start: 111, end: 115, has_newline: false, map: (111..=115).collect(), subs: vec![(0, 4)], y: 0 };
    next.y = 40;
    assert_eq!(shown(&vec![line(), next], 1, 20, 50), (106, 115));
    let mut below = line();
    below.y = 60;
    assert_eq!(shown(&vec![line(), below], 0, 20, 21), (100, 111));
    assert_eq!(rows_across(&vec![vec![50, 60], vec![20]], &vec![vec![100, 106], vec![111]], 0, 20, 30), vec![50, 60, 100, 106, 111]);
    assert_eq!(rows_across(&vec![vec![50], vec![20]], &vec![vec![100]], 0, 20, 30), vec![20, 50, 100]);
    assert_eq!(thumb(0, 50, 100, 200), (0, 100));
    assert_eq!(thumb(0, 0, 0, 200), (0, 200));
    assert_eq!(thumb(0x1_0000_0000, 0x1_8000_0000, 0x2_0000_0000, 200), (100, 50));
    assert_eq!(top_for(&vec![0, 80, 160], 2, &vec![], 40, 400, 20), 0);
    assert_eq!(want(Some((7, 1)), false, 3, 400), Some((7, Some(100))));
    assert_eq!(want(None, true, 3, 400), Some((3, None)));
    assert_eq!(want(None, false, 3, 400), None);
    assert_eq!(room_to_leave(Some(0), false, None, 20, 400), None);
    assert_eq!(room_to_leave(None, true, None, 20, 400), Some(0));
    assert_eq!(room_to_leave(None, false, None, 20, 400), Some(200));
    assert_eq!(grid_size(804, 480, 24, 8, 16), (97, 30));
    assert_eq!(grid_size(0, 0, 24, 8, 16), (2, 1));
}

fn grid(rows: &[&str]) -> Vec<Vec<GridCell>> {
    rows.iter().map(|r| r.chars().map(|ch| GridCell { ch, fg: 0, bg: 0, link: 0 }).collect()).collect()
}

#[test]
fn words_and_addresses_in_a_terminal() {
    let g = grid(&["see https://x.org/a, ok", "next   "]);
    let cell = |col, line| Cell { col, line };
    assert_eq!(term_grid_text(&g, 100, cell(4, 100), cell(9, 100)).as_deref(), Some("https"));
    assert_eq!(term_grid_text(&g, 100, cell(4, 7), cell(9, 7)), None);
    let row = c("see https://x.org/a, ok");
    assert_eq!(term_url(&row, 8).as_deref(), Some("https://x.org/a"));
    assert_eq!(term_url(&row, 1), None);
    assert_eq!(term_word(&row, 22, HlKind::Look).as_deref(), Some("ok"));
    assert_eq!(term_take(Some("swept".into()), &row, 8, None, Button::Right).as_deref(), Some("swept"));
    assert_eq!(term_take(None, &row, 8, Some("link".into()), Button::Right).as_deref(), Some("link"));
    assert_eq!(term_take(None, &row, 8, None, Button::Right).as_deref(), Some("https://x.org/a"));
    let mut linked = grid(&["ab"]);
    linked[0][1].link = 1;
    assert_eq!(term_link(&linked, &vec!["u".to_string()], 1, 0).as_deref(), Some("u"));
    assert_eq!(term_link(&linked, &vec!["u".to_string()], 0, 0), None);
    assert_eq!(cell_at(at(100, 50), at(20, 10), 8, 16, 80, 24), (10, 2));
    assert_eq!(cell_at(at(0, 0), at(20, 10), 8, 16, 80, 24), (0, 0));
    let d = draw_row(&[GridCell { ch: 'a', fg: 1, bg: 0, link: 0 }, GridCell { ch: '\0', fg: 1, bg: 9, link: 0 }], None, 5, 6);
    assert_eq!(d.text, "a ");
    assert_eq!(d.runs.len(), 1);
    assert_eq!(d.bgs.len(), 1);
}

#[test]
fn the_wheel_adds_up_and_the_bar_scrolls() {
    let t = Target::View(BODY);
    let (n, rest) = scroll_wheel(None, t, LINE / 4);
    assert_eq!(n, 0);
    let (n, _) = scroll_wheel(Some(rest), t, LINE / 4 * 2);
    assert_eq!(n.abs(), 1);
    let (n, _) = scroll_wheel(Some(rest), Target::Term(WindowId(1), TermId(1)), LINE / 4);
    assert_eq!(n, 0);
    assert!(matches!(scrollbar_click(Button::Middle, 50, 0, 100, 20, 200), Scroll::To(100)));
    assert!(matches!(scrollbar_click(Button::Left, 50, 0, 100, 20, 200), Scroll::By(n) if n < 0));
    assert!(matches!(scrollbar_click(Button::Right, 50, 0, 100, 20, 200), Scroll::By(n) if n > 0));
    assert!(term_scrollbar_click(Button::Left, 50, 0, 100, 24) != term_scrollbar_click(Button::Right, 50, 0, 100, 24));
    assert_eq!((kept_on_bar(-5, 0, 100), kept_on_bar(50, 0, 100), kept_on_bar(500, 0, 100)), (0, 50, 100));
    assert!(autoscroll_step(true, -40, 0, 400, 20).is_some());
    assert_eq!((moved_along(10, 5, 8), moved_along(10, 10, 13)), (13, 10));
    let text = c("a\nb\nc\nd");
    assert!(follows_output(&text, 2, 0, 3, None) && !follows_output(&text, 6, 0, 3, None) && follows_output(&text, 6, 0, 3, Some(6)));
}

#[test]
fn the_pointer_goes_to_what_opens_and_comes_back() {
    let mut p = Pointer { pending: None, wait: false, saved: None, at: None, last: at(7, 9) };
    p.take_warp(Warp::NewWindow(WindowId(4)));
    assert!(p.wait && p.saved == Some((WindowId(4), at(7, 9))));
    assert!(p.schedule_warp());
    let d = Where { slot: Some(WarpSlot { x0: 10, y0: 20, tag_y1: 40 }), column: None, point: None };
    assert_eq!(p.resolve_warp(&d, 20, 12, 30), Some(at((10 + 12 + 3) * SUB, (40 + 3 + 30) * SUB)));
    p.take_warp(Warp::Closed(WindowId(4), None));
    assert_eq!(p.pending, Some(Pending::Restore(at(7, 9))));
    assert_eq!(del_at(&c("/x/a Del Snarf")), 6);
    assert_eq!(del_at(&c("nothing")), 0);
    assert_eq!(tag_measured(false, Some((3, true))), Some((1, false)));
    assert_eq!(tag_measured(true, Some((3, true))), Some((3, true)));
    assert_eq!(tag_room(100, 20, 2), 5);
    let mut p = Pointer { pending: None, wait: true, saved: None, at: None, last: at(50 * SUB, 25 * SUB) };
    let before = Frame { x0: 0, x1: 100, y0: 0, tag_y1: 40, body_y0: 40, body_y1: 200 };
    let after = Frame { tag_y1: 20, body_y0: 20, ..before };
    p.refitted(&before, &after, 50, 25, 0);
    assert_eq!(p.pending, Some(Pending::Restore(at(50 * SUB, 17 * SUB))));
}

#[test]
fn the_tools_menu_opens_on_what_was_chosen_last() {
    let items: Vec<String> = ["Look", "Put", "Del"].iter().map(|x| x.to_string()).collect();
    let p = Popup { window: WindowId(1), widest: 60, font: 16, last: Some("Put"), screen: Rect::new(0, 0, 800, 600), mx: 400, my: 300 };
    let (mut m, x, y) = menu_open(&p, items.clone()).unwrap();
    assert_eq!(m.lasti, 1);
    m.menu_track(x, y);
    let drawn = menu_lines(&m);
    assert_eq!(drawn.len(), 3);
    assert!(drawn[1].highlighted && drawn[1].text == "Put" && !drawn[0].highlighted);
    assert_eq!(m.menu_up().as_deref(), Some("Put"));
    assert!(menu_open(&p, vec![]).is_none());
    let (mut m, _, _) = menu_open(&p, items).unwrap();
    m.menu_track(-1000, -1000);
    assert_eq!(m.menu_up(), None);
}

#[test]
fn a_frame_is_drawn_and_found_again() {
    let slot = |w: u64, y0: i64, y1: i64, body: i64, shows: Shows| Slot {
        window: WindowId(w),
        r: Rect::new(0, y0, 100, y1),
        body: Rect::new(0, body, 100, y1),
        shows,
    };
    let col = |safe: bool| Column {
        id: ColumnId(1),
        r: Rect::new(0, 20, 100, 400),
        safe,
        wins: vec![slot(1, 40, 200, 60, Shows::Text), slot(2, 200, 400, 220, Shows::Term(TermId(5))), slot(3, 400, 400, 400, Shows::Gone)],
    };
    let t = Tiling { r: Rect::new(0, 0, 100, 400), cols: vec![col(true)] };
    let drawn = render(&t, 20);
    let what: Vec<Drawn> = drawn.iter().map(|p| p.what).collect();
    assert_eq!(
        what,
        vec![
            Drawn::View(ViewId::Top),
            Drawn::View(ViewId::ColTag(ColumnId(1))),
            Drawn::View(ViewId::Tag(WindowId(1))),
            Drawn::View(ViewId::Body(WindowId(1))),
            Drawn::View(ViewId::Tag(WindowId(2))),
            Drawn::Term(WindowId(2), TermId(5)),
        ]
    );
    assert_eq!((drawn[2].h, drawn[3].h), (20, 140));
    let t = Tiling { r: Rect::new(0, 0, 100, 400), cols: vec![col(false)] };
    assert_eq!(render(&t, 20).len(), 4);
    let terms = vec![TermPlace {
        window: WindowId(2),
        shows: Shows::Term(TermId(5)),
        bounds: Rect::new(0, 220, 100, 400),
        scrollbar: Rect::new(0, 220, 12, 400),
        origin: at(20, 220),
        cell_w: 8,
        cell_h: 16,
        cols: 10,
        rows: 11,
    }];
    let texts = vec![TextPlace {
        view: BODY,
        bounds: Rect::new(0, 60, 100, 200),
        scrollbar: Some(Rect::new(0, 60, 12, 200)),
        layout_box: None,
        offset: 33,
    }];
    let found = |x, y| locate(&terms, &texts, at(x, y));
    assert_eq!(found(5, 300), Some((Target::Term(WindowId(2), TermId(5)), Region::TermScrollbar)));
    assert_eq!(found(40, 240), Some((Target::Term(WindowId(2), TermId(5)), Region::Term(2, 1))));
    assert_eq!(found(5, 100), Some((Target::View(BODY), Region::Scrollbar)));
    assert_eq!(found(50, 100), Some((Target::View(BODY), Region::Text(33))));
    assert_eq!(found(50, 10), None);
    assert_eq!((style(true), style(false)), (Style::Box, Style::BigArrow));
    assert_eq!((top(true, 28), top(false, 28)), (0, 28));
    assert_eq!(resized(Rect::new(0, 0, 100, 372), 100, 400, 28), None);
    assert_eq!(resized(Rect::new(0, 0, 100, 372), 100, 428, 28), Some(Rect::new(0, 0, 100, 400)));
}

#[test]
fn a_page_that_loads_breathes() {
    let b = Behind { mono: false, dirty: false, stale: true, live: false, web: true, loading: true };
    let x = source(BODY, Some(b), None, 300);
    assert_eq!((x.live, x.stale, x.pulse), (true, false, Some(300)));
    let x = source(ViewId::Top, Some(b), None, 300);
    assert_eq!((x.live, x.pulse), (false, None));
    let hl = Some(Swept { view: ViewId::Top, lo: 0, hi: 1, kind: HlKind::Exec });
    assert!(source(BODY, None, hl, 0).hl.is_none() && source(ViewId::Top, None, hl, 0).hl.is_some());
}

#[test]
fn commands_run_in_windows_terminals_and_pages() {
    let g = grid(&["ls"]);
    let shown = |body| ShownBody { body: Some(body), grid: &g, top: 0, sel: None };
    let w = ExecCtx::Window(WindowId(1));
    assert!(matches!(execute(w, "Back", &shown(Body::Web)), Command::Page(WindowId(1), Nav::Back)));
    assert!(matches!(execute(w, "Put", &shown(Body::Text)), Command::Run { from_clipboard: false, to_clipboard: false }));
    assert!(matches!(execute(w, "Snarf", &shown(Body::Term(TermId(2)))), Command::TermCopy(WindowId(1))));
    assert!(matches!(execute(w, "Paste", &shown(Body::Text)), Command::Run { from_clipboard: true, .. }));
    assert!(matches!(after_run(Ran::Quit, true), After::QuitApp));
    assert!(matches!(after_run(Ran::Quit, false), After::CloseWindow));
    assert!(matches!(after_run(Ran::Failed("no".into()), false), After::Report(_)));
    assert_eq!(look_at("  x y ").as_deref(), Some("x y"));
    assert_eq!(look_at("   "), None);
    assert!(matches!(menu_edit("copy", true, false, None, None), EditAct::Overlay));
    assert!(matches!(menu_edit("copy", false, true, None, Some(BODY)), EditAct::Nothing));
    assert!(matches!(menu_edit("cut", false, false, None, Some(BODY)), EditAct::Cut(BODY)));
    let t = Some(Target::Term(WindowId(2), TermId(3)));
    assert!(matches!(menu_edit("paste", false, false, t, None), EditAct::TermPaste(TermId(3))));
    let sel: TermSel = term_select_all(WindowId(2), 100, 80, 24);
    assert_eq!((sel.from.line, sel.to.line), (100, 123));
    assert_eq!(window_at_pointer(Some(WindowId(9)), t, None), Some(WindowId(9)));
    assert_eq!(window_at_pointer(None, t, None), Some(WindowId(2)));
    assert!(matches!(menu_command("Put", false, false, Some(WindowId(2))), MenuAct::Run(ExecCtx::Window(WindowId(2)))));
}

#[test]
fn the_menu_bar_marks_the_theme_and_keys_are_bound() {
    let m = menus(Mode::Dark, true, false);
    assert_eq!(m.iter().map(|x| x.name).collect::<Vec<_>>()[0], "Apex");
    let names: Vec<String> = m
        .iter()
        .flat_map(|x| x.items.iter())
        .filter_map(|i| match i {
            Item::Action(n, _) => Some(n.clone()),
            Item::Separator => None,
        })
        .collect();
    assert!(names.iter().any(|n| n.contains("Dark")), "{names:?}");
    assert!(bindings().iter().any(|b| b.key == "cmd-z" && b.action == Action::Undo));
    assert_eq!(Action::Put.command(), Some("Put"));
    assert_eq!(Action::Copy.edits(), Some("copy"));
    assert_eq!((Action::Tab3.tab(), Action::Put.tab()), (Some(3), None));
}

#[test]
fn the_theme_follows_the_choice_or_the_system() {
    let mut a = Appearance::new();
    assert_eq!(mode(&a), Mode::Light);
    set_mode(&mut a, Mode::System);
    assert!(!is_dark(&a));
    set_system_dark(&mut a, true);
    assert!(is_dark(&a));
    assert_eq!(theme(&a), dark());
    let kept = set_mode(&mut a, Mode::Light);
    assert!(!is_dark(&a));
    let mut b = Appearance::new();
    load(&mut b, Some(kept));
    assert_eq!(mode(&b), Mode::Light);
    let t = light();
    assert_eq!(palette(&t, Kind::Body).bg, t.body_bg);
    assert_eq!(palette(&t, Kind::WinTag).bg, t.tag_bg);
    assert_eq!((session_square(&t, true, true), session_square(&t, false, true), session_square(&t, false, false)), (t.fenced, t.notified, t.tag_bg));
}

#[test]
fn the_pointers_are_black_within_white() {
    let p = pixels(16, 16, &BIGARROW_CLR, &BIGARROW_SET);
    assert_eq!(p.len(), 16 * 16 * 4);
    // the corner is white, the next pixel down its side is white, and one in from both black
    assert_eq!(&p[0..4], &[255, 255, 255, 255]);
    let at = |x: usize, y: usize| &p[(y * 16 + x) * 4..(y * 16 + x) * 4 + 4];
    assert_eq!(at(1, 1), &[0, 0, 0, 255]);
    assert_eq!(at(15, 5), &[0, 0, 0, 0]);
    assert_eq!(pixels(32, 32, &BIGARROW2_CLR, &BIGARROW2_SET).len(), 32 * 32 * 4);
    let b = pixels(16, 16, &BOX_CLR, &BOX_SET);
    assert_eq!(&b[(8 * 16 + 8) * 4..(8 * 16 + 8) * 4 + 4], &[0, 0, 0, 0]);
}

#[test]
fn a_chords_argument_follows_the_command() {
    assert_eq!(with_argument("Edit", Some("s/a/b/")), "Edit s/a/b/");
    assert_eq!(with_argument("Edit", Some("")), "Edit");
    assert_eq!(with_argument("Edit", None), "Edit");
    assert_eq!(with_argument("", Some("x")), " x");
}
