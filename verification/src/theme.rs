//! The two themes: acme's colours (light), and a dark one of the same
//! make. acme's philosophy is two tinted papers, a warm one for bodies
//! and a cool one for tags, with selections a deeper tint of each, mid
//! tone borders, and black ink; the dark theme keeps every relation and
//! inverts the paper: deep warm and deep cool grounds, selections a
//! deeper tint again but lit, the same mid tone borders, warm-white
//! ink. Chosen in the View menu (Light, Dark, System); the choice is
//! kept beside the other state files.

use vstd::prelude::*;

use crate::ids::Kind;
use crate::text::{chars_of, has_at, trim, trimmed};

verus! {

/// The theme asked for.
#[derive(Clone, Copy, Debug, PartialEq, Eq, Structural)]
pub enum Mode {
    Light,
    Dark,
    System,
}

/// The colours everything is drawn in.
#[derive(Clone, Copy, Debug, PartialEq, Eq)]
pub struct Theme {
    // acme's texts
    pub body_bg: u32,
    pub body_sel: u32,
    pub body_border: u32,
    pub tag_bg: u32,
    pub tag_sel: u32,
    pub tag_border: u32,
    /// The ink.
    pub text: u32,
    /// The text over a B2/B3 sweep.
    pub sweep_text: u32,
    /// The borders between columns and windows (acme's black).
    pub border: u32,
    /// A column where no window is (acme's white).
    pub column: u32,
    // the handles
    pub dirty: u32,
    pub unsynced: u32,
    pub live: u32,
    pub stale: u32,
    pub fenced: u32,
    pub exec_hl: u32,
    pub look_hl: u32,
    /// What the terminal's cursor tints its cell towards.
    pub cursor_tint_to: u32,
    /// Work going on (a terminal's progress bar's colour).
    pub progress: u32,
    /// The session's square while a tool has asked for the user.
    pub notified: u32,
    // the title bar
    pub strip: u32,
    pub tab_bg: u32,
    pub tab_open_bg: u32,
    pub tab_current_text: u32,
    pub tab_text: u32,
    pub tab_hover: u32,
    pub tab_dim: u32,
    pub tab_close_hover: u32,
    pub tab_fenced_text: u32,
    // the overlays (picker, finder, switcher) and their fields
    pub panel_bg: u32,
    pub panel_border: u32,
    pub panel_divider: u32,
    pub panel_text: u32,
    pub panel_text_dim: u32,
    pub panel_dim: u32,
    pub panel_pick: u32,
    pub panel_hover: u32,
    pub panel_chosen_bg: u32,
    pub panel_chosen_text: u32,
    pub panel_accent: u32,
    pub panel_danger_hover: u32,
    pub field_sel: u32,
    /// The sixteen ANSI colours a program in a terminal gets when it
    /// names one and has not set the palette itself.
    pub ansi: [u32; 16],
    // the tools menu (menuhit's: greenish, negative selection)
    pub menu_bg: u32,
    pub menu_hl: u32,
    pub menu_border: u32,
    pub menu_text: u32,
    pub menu_hl_text: u32,
}

/// acme's colours, from plan9port's acme.c and draw.h.
pub open spec fn light_colors() -> Theme {
    Theme {
        body_bg: 0xFFFFEA,
        body_sel: 0xEEEE9E,
        body_border: 0x99994C,
        tag_bg: 0xEAFFFF,
        tag_sel: 0x9EEEEE,
        tag_border: 0x8888CC,
        text: 0x000000,
        sweep_text: 0xFFFFFF,
        border: 0x000000,
        column: 0xFFFFFF,
        dirty: 0x000099,
        unsynced: 0x88CC88,
        live: 0xB24073,
        stale: 0xFFD700,
        fenced: 0xAA0000,
        exec_hl: 0xAA0000,
        look_hl: 0x006600,
        progress: 0x1C4FD6,
        notified: 0xFFD700,
        cursor_tint_to: 0x000000,
        strip: 0xECECEC,
        tab_bg: 0xEAFFFF,
        tab_open_bg: 0xD4F5F5,
        tab_current_text: 0x000099,
        tab_text: 0x555555,
        tab_hover: 0xE0E0E0,
        tab_dim: 0x9A9A9A,
        tab_close_hover: 0x000000,
        tab_fenced_text: 0x555555,
        panel_bg: 0xF4F4F4,
        panel_border: 0xC8C8C8,
        panel_divider: 0xDDDDDD,
        panel_text: 0x111111,
        panel_text_dim: 0x555555,
        panel_dim: 0x8A8A8A,
        panel_pick: 0x9EEEEE,
        panel_hover: 0xE4E4E4,
        panel_chosen_bg: 0x000099,
        panel_chosen_text: 0xFFFFFF,
        panel_accent: 0x000099,
        panel_danger_hover: 0xF0C0C0,
        field_sel: 0xB4D5FE,
        ansi: [
            0x000000, 0xCC241D, 0x3C8A2A, 0xB08A00, 0x1C4FD6, 0x9A2D9A, 0x0F8A8A, 0xBBBBBB,
            0x555555, 0xFF5555, 0x55C055, 0xD6C000, 0x5580FF, 0xDD55DD, 0x33C0C0, 0xFFFFFF,
        ],
        menu_bg: 0xD4FFD4,
        menu_hl: 0x448844,
        menu_border: 0x88CC88,
        menu_text: 0x000000,
        menu_hl_text: 0xD4FFD4,
    }
}

/// acme's colours, from plan9port's acme.c and draw.h.
pub fn light() -> (t: Theme)
    ensures
        t == light_colors(),
{
    Theme {
        body_bg: 0xFFFFEA,
        body_sel: 0xEEEE9E,
        body_border: 0x99994C,
        tag_bg: 0xEAFFFF,
        tag_sel: 0x9EEEEE,
        tag_border: 0x8888CC,
        text: 0x000000,
        sweep_text: 0xFFFFFF,
        border: 0x000000,
        column: 0xFFFFFF,
        dirty: 0x000099,
        unsynced: 0x88CC88,
        live: 0xB24073,
        stale: 0xFFD700,
        fenced: 0xAA0000,
        exec_hl: 0xAA0000,
        look_hl: 0x006600,
        progress: 0x1C4FD6,
        notified: 0xFFD700,
        cursor_tint_to: 0x000000,
        strip: 0xECECEC,
        tab_bg: 0xEAFFFF,
        tab_open_bg: 0xD4F5F5,
        tab_current_text: 0x000099,
        tab_text: 0x555555,
        tab_hover: 0xE0E0E0,
        tab_dim: 0x9A9A9A,
        tab_close_hover: 0x000000,
        tab_fenced_text: 0x555555,
        panel_bg: 0xF4F4F4,
        panel_border: 0xC8C8C8,
        panel_divider: 0xDDDDDD,
        panel_text: 0x111111,
        panel_text_dim: 0x555555,
        panel_dim: 0x8A8A8A,
        panel_pick: 0x9EEEEE,
        panel_hover: 0xE4E4E4,
        panel_chosen_bg: 0x000099,
        panel_chosen_text: 0xFFFFFF,
        panel_accent: 0x000099,
        panel_danger_hover: 0xF0C0C0,
        field_sel: 0xB4D5FE,
        // xterm's, as the server sent them before the theme
        ansi: [
            0x000000, 0xCC241D, 0x3C8A2A, 0xB08A00, 0x1C4FD6, 0x9A2D9A, 0x0F8A8A, 0xBBBBBB,
            0x555555, 0xFF5555, 0x55C055, 0xD6C000, 0x5580FF, 0xDD55DD, 0x33C0C0, 0xFFFFFF,
        ],
        menu_bg: 0xD4FFD4,
        menu_hl: 0x448844,
        menu_border: 0x88CC88,
        menu_text: 0x000000,
        menu_hl_text: 0xD4FFD4,
    }
}

/// The same, on dark paper: bodies a deep warm ground, tags a deep
/// cool one, selections the tints lit up, ink warm white; the mid tone
/// borders and handle colours stand as they are where they read on
/// dark, lifted where they would not (the dirty blue, the fenced red).
pub open spec fn dark_colors() -> Theme {
    Theme {
        body_bg: 0x1E1E14,
        body_sel: 0x5C5A2A,
        body_border: 0x8A8A45,
        tag_bg: 0x142426,
        tag_sel: 0x2A6464,
        tag_border: 0x8888CC,
        text: 0xE8E8DC,
        sweep_text: 0xFFFFFF,
        border: 0x76766C,
        column: 0x101010,
        dirty: 0x6A6AF0,
        unsynced: 0x88CC88,
        live: 0xC8508A,
        stale: 0xFFD700,
        fenced: 0xFF3030,
        exec_hl: 0xB02020,
        look_hl: 0x2E8B2E,
        progress: 0x6A9EE6,
        notified: 0xFFD700,
        cursor_tint_to: 0xFFFFFF,
        strip: 0x2A2A2A,
        tab_bg: 0x142426,
        tab_open_bg: 0x1E3A3C,
        tab_current_text: 0xA0A0FF,
        tab_text: 0xB8B8B8,
        tab_hover: 0x3A3A3A,
        tab_dim: 0x8A8A8A,
        tab_close_hover: 0xFFFFFF,
        tab_fenced_text: 0xB8B8B8,
        panel_bg: 0x262626,
        panel_border: 0x484848,
        panel_divider: 0x3A3A3A,
        panel_text: 0xE6E6E6,
        panel_text_dim: 0xB0B0B0,
        panel_dim: 0x8E8E8E,
        panel_pick: 0x2A6464,
        panel_hover: 0x333333,
        panel_chosen_bg: 0x5050D0,
        panel_chosen_text: 0xFFFFFF,
        panel_accent: 0xA0A0FF,
        panel_danger_hover: 0x6A3030,
        field_sel: 0x2A4A6A,
        ansi: [
            0x2A2A20, 0xE06060, 0x8AC26A, 0xD6B85A, 0x6A9EE6, 0xC07AC0, 0x5AB8B8, 0xC8C8BC,
            0x6A6A5E, 0xF08080, 0xA8D88A, 0xF0D070, 0x8AB8F0, 0xD69AD6, 0x80D0D0, 0xE8E8DC,
        ],
        menu_bg: 0x1C3A1C,
        menu_hl: 0x448844,
        menu_border: 0x5A9A5A,
        menu_text: 0xE0F0E0,
        menu_hl_text: 0xFFFFFF,
    }
}

/// The same, on dark paper.
pub fn dark() -> (t: Theme)
    ensures
        t == dark_colors(),
{
    Theme {
        body_bg: 0x1E1E14,
        body_sel: 0x5C5A2A,
        body_border: 0x8A8A45,
        tag_bg: 0x142426,
        tag_sel: 0x2A6464,
        tag_border: 0x8888CC,
        text: 0xE8E8DC,
        sweep_text: 0xFFFFFF,
        // the borders a mid warm grey: black would sink into the paper, the
        // ink would shout; halfway between reads as a rule
        border: 0x76766C,
        column: 0x101010,
        dirty: 0x6A6AF0,
        unsynced: 0x88CC88,
        live: 0xC8508A,
        stale: 0xFFD700,
        fenced: 0xFF3030,
        exec_hl: 0xB02020,
        look_hl: 0x2E8B2E,
        progress: 0x6A9EE6,
        notified: 0xFFD700,
        cursor_tint_to: 0xFFFFFF,
        strip: 0x2A2A2A,
        tab_bg: 0x142426,
        tab_open_bg: 0x1E3A3C,
        tab_current_text: 0xA0A0FF,
        tab_text: 0xB8B8B8,
        tab_hover: 0x3A3A3A,
        tab_dim: 0x8A8A8A,
        tab_close_hover: 0xFFFFFF,
        tab_fenced_text: 0xB8B8B8,
        panel_bg: 0x262626,
        panel_border: 0x484848,
        panel_divider: 0x3A3A3A,
        panel_text: 0xE6E6E6,
        panel_text_dim: 0xB0B0B0,
        panel_dim: 0x8E8E8E,
        panel_pick: 0x2A6464,
        panel_hover: 0x333333,
        panel_chosen_bg: 0x5050D0,
        panel_chosen_text: 0xFFFFFF,
        panel_accent: 0xA0A0FF,
        panel_danger_hover: 0x6A3030,
        field_sel: 0x2A4A6A,
        // the same hues, lit for the dark paper: black a shade of it, white
        // the ink, the rest lighter and a little softer; the bright ones
        // brighter still
        ansi: [
            0x2A2A20, 0xE06060, 0x8AC26A, 0xD6B85A, 0x6A9EE6, 0xC07AC0, 0x5AB8B8, 0xC8C8BC,
            0x6A6A5E, 0xF08080, 0xA8D88A, 0xF0D070, 0x8AB8F0, 0xD69AD6, 0x80D0D0, 0xE8E8DC,
        ],
        menu_bg: 0x1C3A1C,
        menu_hl: 0x448844,
        menu_border: 0x5A9A5A,
        menu_text: 0xE0F0E0,
        menu_hl_text: 0xFFFFFF,
    }
}

/// What decides the theme: the one asked for, and whether the system's
/// appearance is dark.
#[derive(Clone, Copy, Debug, PartialEq, Eq, Structural)]
pub struct Appearance {
    pub mode: Mode,
    pub system_dark: bool,
}

impl Appearance {
    /// The light theme, until another is asked for.
    pub fn new() -> (a: Appearance)
        ensures
            a == (Appearance { mode: Mode::Light, system_dark: false }),
    {
        Appearance { mode: Mode::Light, system_dark: false }
    }
}

/// The theme asked for.
pub fn mode(a: &Appearance) -> (m: Mode)
    ensures
        m == a.mode,
{
    a.mode
}

/// What the choice of a theme is kept as.
pub open spec fn kept(m: Mode) -> Seq<char> {
    match m {
        Mode::Light => "light\n"@,
        Mode::Dark => "dark\n"@,
        Mode::System => "system\n"@,
    }
}

/// The choice that what was kept stands for: light, when it is none.
pub open spec fn chosen(s: Seq<char>) -> Mode {
    if trimmed(s) == "dark"@ {
        Mode::Dark
    } else if trimmed(s) == "system"@ {
        Mode::System
    } else {
        Mode::Light
    }
}

/// Another theme asked for; what to keep of it for next time.
pub fn set_mode(a: &mut Appearance, m: Mode) -> (keep: &'static str)
    ensures
        *final(a) == (Appearance { mode: m, ..*old(a) }),
        keep@ == kept(m),
{
    a.mode = m;
    match m {
        Mode::Light => "light\n",
        Mode::Dark => "dark\n",
        Mode::System => "system\n",
    }
}

/// The choice of last time, applied; `was` is what was kept of it, if
/// anything.
pub fn load(a: &mut Appearance, was: Option<&str>)
    ensures
        *final(a) == (Appearance {
            mode: match was {
                Some(s) => chosen(s@),
                None => Mode::Light,
            },
            ..*old(a)
        }),
{
    a.mode = match was {
        Some(s) => {
            let all: Vec<char> = chars_of(s);
            let word: Vec<char> = trim(all.as_slice());
            proof {
                reveal_strlit("dark");
                reveal_strlit("system");
                assert(word@.len() == 4 ==> word@.subrange(0, 4) =~= word@);
                assert(word@.len() == 6 ==> word@.subrange(0, 6) =~= word@);
            }
            if word.len() == 4 && has_at(word.as_slice(), 0, "dark") {
                Mode::Dark
            } else if word.len() == 6 && has_at(word.as_slice(), 0, "system") {
                Mode::System
            } else {
                Mode::Light
            }
        },
        None => Mode::Light,
    };
}

/// A choice that was kept is the choice that is applied next time.
pub proof fn law_the_choice_comes_back(m: Mode)
    ensures
        chosen(kept(m)) == m,
{
    reveal_strlit("light\n");
    reveal_strlit("dark\n");
    reveal_strlit("system\n");
    reveal_strlit("dark");
    reveal_strlit("system");
    reveal_with_fuel(crate::text::trimmed_end, 3);
    reveal_with_fuel(crate::text::trimmed_start, 2);
    let s = kept(m);
    let n = s.len() as int;
    assert(crate::text::trimmed_end(s, n) == n - 1);
    assert(crate::text::trimmed_start(s, 0) == 0);
    assert(trimmed(s) =~= s.take(n - 1));
    if m == Mode::Dark {
        assert(trimmed(s) =~= "dark"@);
    } else if m == Mode::System {
        assert(trimmed(s) =~= "system"@);
        assert("system"@.len() != "dark"@.len());
    } else {
        assert(trimmed(s)[0] == 'l');
        assert("dark"@[0] == 'd');
        assert("system"@[0] == 's');
    }
}

/// What the system's appearance is, as the window reports it (System
/// follows it).
pub fn set_system_dark(a: &mut Appearance, dark: bool)
    ensures
        *final(a) == (Appearance { system_dark: dark, ..*old(a) }),
{
    a.system_dark = dark;
}

/// Whether the theme is the dark one.
pub open spec fn darkened(a: Appearance) -> bool {
    match a.mode {
        Mode::Light => false,
        Mode::Dark => true,
        Mode::System => a.system_dark,
    }
}

/// Whether the theme is the dark one.
pub fn is_dark(a: &Appearance) -> (r: bool)
    ensures
        r == darkened(*a),
{
    match a.mode {
        Mode::Light => false,
        Mode::Dark => true,
        Mode::System => a.system_dark,
    }
}

/// The theme.
pub fn theme(a: &Appearance) -> (t: Theme)
    ensures
        t == (if darkened(*a) {
            dark_colors()
        } else {
            light_colors()
        }),
{
    if is_dark(a) {
        dark()
    } else {
        light()
    }
}

/// The colours a terminal answers programs with.
#[derive(Clone, Copy, Debug, PartialEq, Eq)]
pub struct TermColors {
    pub fg: u32,
    pub bg: u32,
    pub ansi: [u32; 16],
}

/// The terminal's colours as the daemon should answer programs that
/// ask for them: the theme's ink, paper and sixteen.
pub fn term_colors(t: &Theme) -> (c: TermColors)
    ensures
        c == (TermColors { fg: t.text, bg: t.body_bg, ansi: t.ansi }),
{
    TermColors { fg: t.text, bg: t.body_bg, ansi: t.ansi }
}

/// The colours of a text.
#[derive(Clone, Copy, Debug, PartialEq, Eq, Structural)]
pub struct Palette {
    pub bg: u32,
    pub sel: u32,
    pub border: u32,
}

/// The colours of a text: a body's, or a tag's.
pub fn palette(t: &Theme, kind: Kind) -> (p: Palette)
    ensures
        p == (if kind == Kind::Body {
            Palette { bg: t.body_bg, sel: t.body_sel, border: t.body_border }
        } else {
            Palette { bg: t.tag_bg, sel: t.tag_sel, border: t.tag_border }
        }),
{
    if kind == Kind::Body {
        Palette { bg: t.body_bg, sel: t.body_sel, border: t.body_border }
    } else {
        Palette { bg: t.tag_bg, sel: t.tag_sel, border: t.tag_border }
    }
}

/// The colour of the session's square: when another client leads, when a
/// tool has asked for the user, or the tag's.
pub fn session_square(t: &Theme, fenced: bool, notified: bool) -> (c: u32)
    ensures
        c == (if fenced {
            t.fenced
        } else if notified {
            t.notified
        } else {
            t.tag_bg
        }),
{
    if fenced {
        t.fenced
    } else if notified {
        t.notified
    } else {
        t.tag_bg
    }
}

/// The features of a font that join letters into one glyph: a text's
/// fonts have them all off, so that a click or the cursor can land
/// between any two letters.
pub fn unjoined() -> (r: Vec<&'static str>)
    ensures
        r@.len() == 3,
        r@[0]@ == "liga"@ && r@[1]@ == "clig"@ && r@[2]@ == "calt"@,
{
    let mut r: Vec<&'static str> = Vec::new();
    r.push("liga");
    r.push("clig");
    r.push("calt");
    r
}

/// The theme is dark where that is chosen, or where the system's is and the
/// system is to say.
pub proof fn law_when_the_theme_is_dark(a: Appearance)
    ensures
        a.mode == Mode::Dark ==> darkened(a),
        a.mode == Mode::Light ==> !darkened(a),
        a.mode == Mode::System ==> (darkened(a) <==> a.system_dark),
{
}

} // verus!
