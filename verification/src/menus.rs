//! The menu bar, and the keys bound to its actions.

use vstd::prelude::*;
use vstd::string::*;

use crate::theme::Mode;

verus! {

/// What a menu's item or a key does.
#[derive(Clone, Copy, Debug, PartialEq, Eq, Structural)]
pub enum Action {
    Quit,
    HideApp,
    About,
    InstallCli,
    NewFile,
    CloseWindow,
    NewTab,
    CloseTab,
    PreviousSession,
    Profile,
    Tab1,
    Tab2,
    Tab3,
    Tab4,
    Tab5,
    Tab6,
    Tab7,
    Tab8,
    Tab9,
    PrevTab,
    NextTab,
    Goto,
    GotoAll,
    NextNotification,
    NavBack,
    NavFwd,
    Reconnect,
    ToggleFullScreen,
    Put,
    Get,
    Del,
    Undo,
    Redo,
    Cut,
    Copy,
    Paste,
    SelectAll,
    ThemeLight,
    ThemeDark,
    ThemeSystem,
    ToggleFullscreenTabs,
    ToggleContrast,
}

/// An item of a menu.
pub enum Item {
    Separator,
    Action(String, Action),
}

/// An [`Item`] as a value.
pub enum Entry {
    Separator,
    Action(Seq<char>, Action),
}

impl View for Item {
    type V = Entry;

    open spec fn view(&self) -> Entry {
        match self {
            Item::Separator => Entry::Separator,
            Item::Action(l, a) => Entry::Action(l@, *a),
        }
    }
}

/// Items as values.
pub open spec fn entries(s: Seq<Item>) -> Seq<Entry> {
    s.map_values(|i: Item| i@)
}

/// A menu of the bar.
pub struct Menu {
    pub name: &'static str,
    pub items: Vec<Item>,
}

fn put(items: &mut Vec<Item>, label: &str, a: Action)
    ensures
        entries(final(items)@) == entries(old(items)@).push(Entry::Action(label@, a)),
{
    let ghost before = items@;
    items.push(Item::Action(label.to_owned(), a));
    proof {
        assert(entries(items@) =~= entries(before).push(Entry::Action(label@, a)));
    }
}

fn part(items: &mut Vec<Item>)
    ensures
        entries(final(items)@) == entries(old(items)@).push(Entry::Separator),
{
    let ghost before = items@;
    items.push(Item::Separator);
    proof {
        assert(entries(items@) =~= entries(before).push(Entry::Separator));
    }
}

fn none() -> (v: Vec<Item>)
    ensures
        entries(v@) == Seq::<Entry>::empty(),
{
    let v: Vec<Item> = Vec::new();
    proof {
        assert(entries(v@) =~= Seq::<Entry>::empty());
    }
    v
}

/// The Apex menu.
pub open spec fn apex_entries() -> Seq<Entry> {
    seq![
        Entry::Action("About Apex"@, Action::About),
        Entry::Separator,
        Entry::Action("Install apex Command\u{2026}"@, Action::InstallCli),
        Entry::Separator,
        Entry::Action("Hide Apex"@, Action::HideApp),
        Entry::Separator,
        Entry::Action("Quit Apex"@, Action::Quit),
    ]
}

fn apex_menu() -> (m: Menu)
    ensures
        m.name@ == "Apex"@,
        entries(m.items@) == apex_entries(),
{
    let mut i: Vec<Item> = none();
    put(&mut i, "About Apex", Action::About);
    part(&mut i);
    put(&mut i, "Install apex Command\u{2026}", Action::InstallCli);
    part(&mut i);
    put(&mut i, "Hide Apex", Action::HideApp);
    part(&mut i);
    put(&mut i, "Quit Apex", Action::Quit);
    proof {
        assert(entries(i@) =~= apex_entries());
    }
    Menu { name: "Apex", items: i }
}

/// The File menu.
pub open spec fn file_entries() -> Seq<Entry> {
    seq![
        Entry::Action("New"@, Action::NewFile),
        Entry::Action("New Tab"@, Action::NewTab),
        Entry::Action("Close Tab"@, Action::CloseTab),
        Entry::Action("Previous Tab"@, Action::PrevTab),
        Entry::Action("Next Tab"@, Action::NextTab),
        Entry::Action("Go to\u{2026}"@, Action::Goto),
        Entry::Action("Go to in All Tabs\u{2026}"@, Action::GotoAll),
        Entry::Action("Next Notification"@, Action::NextNotification),
        Entry::Action("Back"@, Action::NavBack),
        Entry::Action("Forward"@, Action::NavFwd),
        Entry::Action("Reconnect"@, Action::Reconnect),
        Entry::Separator,
        Entry::Action("Enter Full Screen"@, Action::ToggleFullScreen),
        Entry::Separator,
        Entry::Action("Put"@, Action::Put),
        Entry::Action("Get"@, Action::Get),
        Entry::Action("Del"@, Action::Del),
        Entry::Separator,
        Entry::Action("Close Window"@, Action::CloseWindow),
    ]
}

fn file_menu() -> (m: Menu)
    ensures
        m.name@ == "File"@,
        entries(m.items@) == file_entries(),
{
    let mut i: Vec<Item> = none();
    put(&mut i, "New", Action::NewFile);
    put(&mut i, "New Tab", Action::NewTab);
    put(&mut i, "Close Tab", Action::CloseTab);
    put(&mut i, "Previous Tab", Action::PrevTab);
    put(&mut i, "Next Tab", Action::NextTab);
    put(&mut i, "Go to\u{2026}", Action::Goto);
    put(&mut i, "Go to in All Tabs\u{2026}", Action::GotoAll);
    put(&mut i, "Next Notification", Action::NextNotification);
    put(&mut i, "Back", Action::NavBack);
    put(&mut i, "Forward", Action::NavFwd);
    put(&mut i, "Reconnect", Action::Reconnect);
    part(&mut i);
    put(&mut i, "Enter Full Screen", Action::ToggleFullScreen);
    part(&mut i);
    put(&mut i, "Put", Action::Put);
    put(&mut i, "Get", Action::Get);
    put(&mut i, "Del", Action::Del);
    part(&mut i);
    put(&mut i, "Close Window", Action::CloseWindow);
    proof {
        assert(entries(i@) =~= file_entries());
    }
    Menu { name: "File", items: i }
}

/// The Edit menu.
pub open spec fn edit_entries() -> Seq<Entry> {
    seq![
        Entry::Action("Undo"@, Action::Undo),
        Entry::Action("Redo"@, Action::Redo),
        Entry::Separator,
        Entry::Action("Cut"@, Action::Cut),
        Entry::Action("Copy"@, Action::Copy),
        Entry::Action("Paste"@, Action::Paste),
        Entry::Action("Select All"@, Action::SelectAll),
    ]
}

fn edit_menu() -> (m: Menu)
    ensures
        m.name@ == "Edit"@,
        entries(m.items@) == edit_entries(),
{
    let mut i: Vec<Item> = none();
    put(&mut i, "Undo", Action::Undo);
    put(&mut i, "Redo", Action::Redo);
    part(&mut i);
    put(&mut i, "Cut", Action::Cut);
    put(&mut i, "Copy", Action::Copy);
    put(&mut i, "Paste", Action::Paste);
    put(&mut i, "Select All", Action::SelectAll);
    proof {
        assert(entries(i@) =~= edit_entries());
    }
    Menu { name: "Edit", items: i }
}

/// A label, with a mark when it is the one chosen.
pub open spec fn marked(label: Seq<char>, on: bool) -> Seq<char> {
    if on {
        label + " \u{2713}"@
    } else {
        label
    }
}

fn mark(label: &str, on: bool) -> (r: String)
    ensures
        r@ == marked(label@, on),
{
    let mut r: String = label.to_owned();
    if on {
        r.append(" \u{2713}");
    }
    r
}

/// The View menu: the theme chosen, and what is switched on, marked.
pub open spec fn view_entries(mode: Mode, tabs: bool, contrast: bool) -> Seq<Entry> {
    seq![
        Entry::Action(marked("Light"@, mode == Mode::Light), Action::ThemeLight),
        Entry::Action(marked("Dark"@, mode == Mode::Dark), Action::ThemeDark),
        Entry::Action(marked("System"@, mode == Mode::System), Action::ThemeSystem),
        Entry::Separator,
        Entry::Action(marked("Always Show Tabs in Full Screen"@, tabs), Action::ToggleFullscreenTabs),
        Entry::Action(marked("Correct Terminal Contrast"@, contrast), Action::ToggleContrast),
    ]
}

fn view_menu(mode: Mode, tabs: bool, contrast: bool) -> (m: Menu)
    ensures
        m.name@ == "View"@,
        entries(m.items@) == view_entries(mode, tabs, contrast),
{
    let mut i: Vec<Item> = none();
    put(&mut i, mark("Light", mode == Mode::Light).as_str(), Action::ThemeLight);
    put(&mut i, mark("Dark", mode == Mode::Dark).as_str(), Action::ThemeDark);
    put(&mut i, mark("System", mode == Mode::System).as_str(), Action::ThemeSystem);
    part(&mut i);
    put(&mut i, mark("Always Show Tabs in Full Screen", tabs).as_str(), Action::ToggleFullscreenTabs);
    put(&mut i, mark("Correct Terminal Contrast", contrast).as_str(), Action::ToggleContrast);
    proof {
        assert(entries(i@) =~= view_entries(mode, tabs, contrast));
    }
    Menu { name: "View", items: i }
}

/// The menu bar.
pub fn menus(mode: Mode, tabs: bool, contrast: bool) -> (m: Vec<Menu>)
    ensures
        m@.len() == 4,
        m@[0].name@ == "Apex"@ && entries(m@[0].items@) == apex_entries(),
        m@[1].name@ == "File"@ && entries(m@[1].items@) == file_entries(),
        m@[2].name@ == "Edit"@ && entries(m@[2].items@) == edit_entries(),
        m@[3].name@ == "View"@ && entries(m@[3].items@) == view_entries(mode, tabs, contrast),
{
    let mut m: Vec<Menu> = Vec::new();
    m.push(apex_menu());
    m.push(file_menu());
    m.push(edit_menu());
    m.push(view_menu(mode, tabs, contrast));
    m
}

/// A key bound to an action.
pub struct Binding {
    pub key: &'static str,
    pub action: Action,
}

/// Bindings as values.
pub open spec fn bound(s: Seq<Binding>) -> Seq<(Seq<char>, Action)> {
    s.map_values(|b: Binding| (b.key@, b.action))
}

fn bind(v: &mut Vec<Binding>, key: &'static str, action: Action)
    ensures
        bound(final(v)@) == bound(old(v)@).push((key@, action)),
{
    let ghost before = v@;
    v.push(Binding { key, action });
    proof {
        assert(bound(v@) =~= bound(before).push((key@, action)));
    }
}

/// The keys, and what each does.
pub open spec fn keys() -> Seq<(Seq<char>, Action)> {
    seq![
        ("cmd-q"@, Action::Quit),
        ("cmd-h"@, Action::HideApp),
        ("cmd-n"@, Action::NewFile),
        ("cmd-s"@, Action::Put),
        ("cmd-t"@, Action::NewTab),
        ("cmd-w"@, Action::Del),
        ("cmd-shift-w"@, Action::CloseTab),
        ("cmd-shift-k"@, Action::PreviousSession),
        ("cmd-g"@, Action::NextNotification),
        ("cmd-1"@, Action::Tab1),
        ("cmd-2"@, Action::Tab2),
        ("cmd-3"@, Action::Tab3),
        ("cmd-4"@, Action::Tab4),
        ("cmd-5"@, Action::Tab5),
        ("cmd-6"@, Action::Tab6),
        ("cmd-7"@, Action::Tab7),
        ("cmd-8"@, Action::Tab8),
        ("cmd-9"@, Action::Tab9),
        ("cmd-{"@, Action::PrevTab),
        ("cmd-}"@, Action::NextTab),
        ("cmd-,"@, Action::Profile),
        ("cmd-r"@, Action::Get),
        ("cmd-shift-r"@, Action::Reconnect),
        ("cmd-p"@, Action::Goto),
        ("cmd-shift-p"@, Action::GotoAll),
        ("cmd-["@, Action::NavBack),
        ("cmd-]"@, Action::NavFwd),
        ("cmd-ctrl-f"@, Action::ToggleFullScreen),
        ("cmd-z"@, Action::Undo),
        ("cmd-shift-z"@, Action::Redo),
        ("cmd-x"@, Action::Cut),
        ("cmd-c"@, Action::Copy),
        ("cmd-v"@, Action::Paste),
        ("cmd-a"@, Action::SelectAll),
    ]
}

/// The keys, and what each does.
pub fn bindings() -> (v: Vec<Binding>)
    ensures
        bound(v@) == keys(),
{
    let mut v: Vec<Binding> = Vec::new();
    proof {
        assert(bound(v@) =~= Seq::<(Seq<char>, Action)>::empty());
    }
    bind(&mut v, "cmd-q", Action::Quit);
    bind(&mut v, "cmd-h", Action::HideApp);
    bind(&mut v, "cmd-n", Action::NewFile);
    bind(&mut v, "cmd-s", Action::Put);
    bind(&mut v, "cmd-t", Action::NewTab);
    bind(&mut v, "cmd-w", Action::Del);
    bind(&mut v, "cmd-shift-w", Action::CloseTab);
    bind(&mut v, "cmd-shift-k", Action::PreviousSession);
    bind(&mut v, "cmd-g", Action::NextNotification);
    bind(&mut v, "cmd-1", Action::Tab1);
    bind(&mut v, "cmd-2", Action::Tab2);
    bind(&mut v, "cmd-3", Action::Tab3);
    bind(&mut v, "cmd-4", Action::Tab4);
    bind(&mut v, "cmd-5", Action::Tab5);
    bind(&mut v, "cmd-6", Action::Tab6);
    bind(&mut v, "cmd-7", Action::Tab7);
    bind(&mut v, "cmd-8", Action::Tab8);
    bind(&mut v, "cmd-9", Action::Tab9);
    bind(&mut v, "cmd-{", Action::PrevTab);
    bind(&mut v, "cmd-}", Action::NextTab);
    bind(&mut v, "cmd-,", Action::Profile);
    bind(&mut v, "cmd-r", Action::Get);
    bind(&mut v, "cmd-shift-r", Action::Reconnect);
    bind(&mut v, "cmd-p", Action::Goto);
    bind(&mut v, "cmd-shift-p", Action::GotoAll);
    bind(&mut v, "cmd-[", Action::NavBack);
    bind(&mut v, "cmd-]", Action::NavFwd);
    bind(&mut v, "cmd-ctrl-f", Action::ToggleFullScreen);
    bind(&mut v, "cmd-z", Action::Undo);
    bind(&mut v, "cmd-shift-z", Action::Redo);
    bind(&mut v, "cmd-x", Action::Cut);
    bind(&mut v, "cmd-c", Action::Copy);
    bind(&mut v, "cmd-v", Action::Paste);
    bind(&mut v, "cmd-a", Action::SelectAll);
    proof {
        assert(bound(v@) =~= keys());
    }
    v
}

/// A menu's item that is a command of acme's: what it runs.
pub open spec fn runs(a: Action) -> Option<Seq<char>> {
    match a {
        Action::SelectAll => Some("Edit ,"@),
        Action::Put => Some("Put"@),
        Action::Get => Some("Get"@),
        Action::Del => Some("Del"@),
        Action::NewFile => Some("New"@),
        Action::NavBack => Some("Back"@),
        Action::NavFwd => Some("Fwd"@),
        _ => None,
    }
}

impl Action {
    /// The command of acme's that it is, where it is one.
    pub fn command(self) -> (c: Option<&'static str>)
        ensures
            match c {
                Some(c) => runs(self) == Some(c@),
                None => runs(self) is None,
            },
    {
        match self {
            Action::SelectAll => Some("Edit ,"),
            Action::Put => Some("Put"),
            Action::Get => Some("Get"),
            Action::Del => Some("Del"),
            Action::NewFile => Some("New"),
            Action::NavBack => Some("Back"),
            Action::NavFwd => Some("Fwd"),
            _ => None,
        }
    }

    /// What it does to the text under the pointer, where it edits one.
    pub fn edits(self) -> (w: Option<&'static str>)
        ensures
            match w {
                Some(w) => w@ == (match self {
                    Action::Undo => "undo"@,
                    Action::Redo => "redo"@,
                    Action::Cut => "cut"@,
                    Action::Copy => "copy"@,
                    _ => "paste"@,
                }) && (self is Undo || self is Redo || self is Cut || self is Copy || self is Paste),
                None => !(self is Undo || self is Redo || self is Cut || self is Copy || self is Paste),
            },
    {
        match self {
            Action::Undo => Some("undo"),
            Action::Redo => Some("redo"),
            Action::Cut => Some("cut"),
            Action::Copy => Some("copy"),
            Action::Paste => Some("paste"),
            _ => None,
        }
    }

    /// The number of the tab that it goes to, where it goes to one.
    pub fn tab(self) -> (n: Option<usize>)
        ensures
            n == (match self {
                Action::Tab1 => Some(1usize),
                Action::Tab2 => Some(2usize),
                Action::Tab3 => Some(3usize),
                Action::Tab4 => Some(4usize),
                Action::Tab5 => Some(5usize),
                Action::Tab6 => Some(6usize),
                Action::Tab7 => Some(7usize),
                Action::Tab8 => Some(8usize),
                Action::Tab9 => Some(9usize),
                _ => None,
            }),
    {
        match self {
            Action::Tab1 => Some(1),
            Action::Tab2 => Some(2),
            Action::Tab3 => Some(3),
            Action::Tab4 => Some(4),
            Action::Tab5 => Some(5),
            Action::Tab6 => Some(6),
            Action::Tab7 => Some(7),
            Action::Tab8 => Some(8),
            Action::Tab9 => Some(9),
            _ => None,
        }
    }
}

} // verus!
