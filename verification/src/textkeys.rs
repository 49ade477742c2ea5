//! Keys in a text, as acme's `texttype` has them, and where a key goes.

use vstd::prelude::*;
use vstd::string::*;

use crate::ids::{TermId, ViewId, WindowId};
use crate::keys::Modifiers;
use crate::lines::{end_of_line, line_end, line_start, start_of_line};
use crate::mouse::{HlKind, Target};
use crate::text::same;
use crate::words::{is_file_char, run_start};

verus! {

/// What a key does to a text.
#[derive(Clone, Copy, Debug, PartialEq, Eq, Structural)]
pub enum TextAct {
    Nothing,
    Undo,
    Redo,
    Cut,
    Snarf,
    Paste,
    Select(usize, usize),
    Quit,
    /// The file name from the first offset to the second completed.
    Complete(usize, usize),
    /// A window's tag shown whole, or one line of it.
    TagExpand(WindowId, bool),
    /// Scrolled by some lines.
    Scroll(i64),
    EraseLine,
    EraseWord,
    EraseChar,
    DeleteForward,
    /// Text typed in place of the selection.
    Type,
    SetOrigin(usize),
    /// The end of the text brought on screen, so many quarters down.
    ShowEnd(u8),
}

/// What a key did: the act, the text it types, where the typing in this
/// text began, whether the insertion point is noted afterwards, and
/// whether the text is to be brought on screen.
pub struct Outcome {
    pub act: TextAct,
    pub text: String,
    pub typed_start: Option<usize>,
    pub insertion: bool,
    pub reveal: bool,
}

/// An [`Outcome`] as a value.
pub struct Effect {
    pub act: TextAct,
    pub text: Seq<char>,
    pub typed_start: Option<usize>,
    pub insertion: bool,
    pub reveal: bool,
}

impl View for Outcome {
    type V = Effect;

    open spec fn view(&self) -> Effect {
        Effect {
            act: self.act,
            text: self.text@,
            typed_start: self.typed_start,
            insertion: self.insertion,
            reveal: self.reveal,
        }
    }
}

/// The text a key is typed in: what it holds and what is selected (none
/// when there is no such text), the lines that fit, whether its window's
/// tag is shown whole (none when there is no such window), where typing
/// in it began, where the last typing in it ended, its origin, the end of
/// what is shown, and whether a program is running in it.
#[derive(Clone, Copy)]
pub struct TextState<'a> {
    pub text: Option<&'a [char]>,
    pub sel: Option<(usize, usize)>,
    pub fit: u32,
    pub tagexpand: Option<bool>,
    pub typed_start: Option<usize>,
    pub iq1: usize,
    pub origin: usize,
    pub shown_end: Option<usize>,
    pub live: bool,
}

impl<'a> TextState<'a> {
    /// What is selected lies in the text.
    pub open spec fn valid(self) -> bool {
        (self.text is Some && self.sel is Some) ==> ({
            let (q0, q1) = self.sel->0;
            q0 <= q1 <= self.text->0@.len()
        })
    }
}

/// A key that types nothing and leaves everything else as it is.
pub open spec fn plain(s: TextState, act: TextAct, reveal: bool) -> Effect {
    Effect { act, text: Seq::empty(), typed_start: s.typed_start, insertion: false, reveal }
}

/// A key that erases: the insertion point is where it leaves it.
pub open spec fn erases(s: TextState, act: TextAct) -> Effect {
    Effect { insertion: true, ..plain(s, act, true) }
}

/// Text typed at `q0`: typing in the text began there, or further back.
pub open spec fn types(s: TextState, q0: usize, text: Seq<char>) -> Effect {
    Effect {
        act: TextAct::Type,
        text,
        typed_start: match s.typed_start {
            Some(b) => if b > q0 {
                Some(q0)
            } else {
                Some(b)
            },
            None => Some(q0),
        },
        insertion: true,
        reveal: true,
    }
}

/// A key held with command.
pub open spec fn with_command(key: Seq<char>, shift: bool, s: TextState) -> TextAct {
    if key == "z"@ {
        if shift {
            TextAct::Redo
        } else {
            TextAct::Undo
        }
    } else if key == "y"@ {
        TextAct::Redo
    } else if key == "x"@ {
        TextAct::Cut
    } else if key == "c"@ {
        TextAct::Snarf
    } else if key == "v"@ {
        TextAct::Paste
    } else if key == "a"@ {
        match s.text {
            Some(t) => TextAct::Select(0, t@.len() as usize),
            None => TextAct::Nothing,
        }
    } else if key == "q"@ {
        TextAct::Quit
    } else {
        TextAct::Nothing
    }
}

/// A third of `n`, or two thirds, and one at the least.
pub open spec fn thirds(n: int, k: int) -> int {
    if n * k / 3 < 1 {
        1
    } else {
        n * k / 3
    }
}

/// acme: up and down scroll by a third of the window, page up and page
/// down by two thirds.
pub open spec fn key_scroll(key: Seq<char>, control: bool, fit: int) -> Option<int> {
    if key == "up"@ && !control {
        Some(-thirds(fit, 1))
    } else if key == "down"@ && !control {
        Some(thirds(fit, 1))
    } else if key == "pageup"@ {
        Some(-thirds(fit, 2))
    } else if key == "pagedown"@ {
        Some(thirds(fit, 2))
    } else {
        None
    }
}

/// The control character that a letter held with control types.
pub open spec fn control_char(key: Seq<char>) -> Option<char> {
    if key.len() == 1 && 'a' <= key[0] <= 'z' {
        Some((key[0] as u32 - 96) as char)
    } else {
        None
    }
}

/// A key held with control.
pub open spec fn with_control(key: Seq<char>, s: TextState, t: Seq<char>, q0: usize, q1: usize) -> Effect {
    if key == "u"@ {
        erases(s, TextAct::EraseLine)
    } else if key == "w"@ {
        erases(s, TextAct::EraseWord)
    } else if key == "h"@ {
        erases(s, TextAct::EraseChar)
    } else if key == "a"@ {
        let b = line_start(t, q0 as int) as usize;
        plain(s, TextAct::Select(b, b), true)
    } else if key == "e"@ {
        let e = line_end(t, q1 as int) as usize;
        plain(s, TextAct::Select(e, e), true)
    } else {
        // acme inserts any other control character as itself: win reads ^D
        // and ^C out of the text
        match control_char(key) {
            Some(c) => types(s, q0, seq![c]),
            // backspace erases nothing here, and notes the insertion point
            None => Effect { insertion: key == "backspace"@, ..plain(s, TextAct::Nothing, true) },
        }
    }
}

/// How many of the characters from `a` up to `z` are blanks, from `a` on.
pub open spec fn blanks(t: Seq<char>, a: int, z: int) -> int
    decreases z - a,
{
    if 0 <= a < z <= t.len() && (t[a] == ' ' || t[a] == '\t') {
        1 + blanks(t, a + 1, z)
    } else {
        0
    }
}

/// The blanks that the line `q` is on starts with, up to `q`.
pub open spec fn indent(t: Seq<char>, q: int) -> Seq<char> {
    let a = line_start(t, q);
    t.subrange(a, a + blanks(t, a, q))
}

/// What enter types: a newline and, in a body, the indentation of the
/// line.
pub open spec fn newline(v: ViewId, t: Seq<char>, q0: int) -> Seq<char> {
    if v is Body {
        seq!['\n'] + indent(t, q0)
    } else {
        seq!['\n']
    }
}

/// The insertion point last noted, as far as the text reaches.
pub open spec fn insertion_point(s: TextState, t: Seq<char>) -> int {
    if s.iq1 < t.len() {
        s.iq1 as int
    } else {
        t.len() as int
    }
}

/// The start of the line of the character before `q`.
pub open spec fn line_before(t: Seq<char>, q: int) -> int {
    line_start(t, if q == 0 { 0 } else { q - 1 })
}

/// acme's Khome: the last insertion point, scrolled off above, comes back
/// with its line at the top; else the top of the text.
pub open spec fn homes(s: TextState, t: Seq<char>) -> TextAct {
    if s.origin > insertion_point(s, t) {
        TextAct::SetOrigin(line_before(t, insertion_point(s, t)) as usize)
    } else {
        TextAct::SetOrigin(0)
    }
}

/// acme's Kend: the last insertion point, scrolled off below, comes back
/// with its line at the top; else the end of the text is shown.
pub open spec fn ends(s: TextState, t: Seq<char>) -> TextAct {
    if s.shown_end matches Some(e) && insertion_point(s, t) > e {
        TextAct::SetOrigin(line_before(t, insertion_point(s, t)) as usize)
    } else {
        TextAct::ShowEnd(
            if s.live {
                3
            } else {
                1
            },
        )
    }
}

/// A key with neither command nor control.
pub open spec fn unmodified(
    v: ViewId,
    key: Seq<char>,
    ch: Option<Seq<char>>,
    s: TextState,
    t: Seq<char>,
    q0: usize,
    q1: usize,
) -> Effect {
    if key == "backspace"@ {
        erases(s, TextAct::EraseChar)
    } else if key == "delete"@ {
        erases(s, TextAct::DeleteForward)
    } else if key == "enter"@ {
        types(s, q0, newline(v, t, q0 as int))
    } else if key == "tab"@ {
        types(s, q0, seq!['\t'])
    } else if key == "escape"@ {
        Effect {
            typed_start: None,
            ..plain(
                s,
                match s.typed_start {
                    Some(b) => TextAct::Select(
                        if b < q1 {
                            b
                        } else {
                            q1
                        },
                        q1,
                    ),
                    None => TextAct::Nothing,
                },
                true,
            )
        }
    } else if key == "left"@ {
        let p = if q0 < q1 || q0 == 0 {
            q0
        } else {
            (q0 - 1) as usize
        };
        plain(s, TextAct::Select(p, p), true)
    } else if key == "right"@ {
        let p = if q0 < q1 || q1 == t.len() {
            q1
        } else {
            (q1 + 1) as usize
        };
        plain(s, TextAct::Select(p, p), true)
    } else if key == "home"@ {
        plain(s, homes(s, t), false)
    } else if key == "end"@ {
        plain(s, ends(s, t), false)
    } else if ch is Some && ch->0.len() > 0 {
        types(s, q0, ch->0)
    } else {
        plain(s, TextAct::Nothing, true)
    }
}

/// What up and down do in a window's tag: down shows it whole, up one
/// line of it.
pub open spec fn expands(v: ViewId, key: Seq<char>, s: TextState) -> Option<TextAct> {
    match v {
        ViewId::Tag(w) => if key == "up"@ || key == "down"@ {
            let on = key == "down"@;
            if s.tagexpand matches Some(now) && now != on {
                Some(TextAct::TagExpand(w, on))
            } else {
                Some(TextAct::Nothing)
            }
        } else {
            None
        },
        _ => None,
    }
}

/// What a key does in a text that is there.
pub open spec fn typed_in(
    v: ViewId,
    key: Seq<char>,
    ch: Option<Seq<char>>,
    m: Modifiers,
    s: TextState,
    t: Seq<char>,
    q0: usize,
    q1: usize,
) -> Effect {
    if key == "enter"@ && (v is ColTag || v is Top) {
        // newline is ignored in column tags and the top row
        plain(s, TextAct::Nothing, false)
    } else if (m.control && key == "f"@) || key == "insert"@ {
        plain(s, TextAct::Complete(run_start(t, q0 as int, HlKind::Look) as usize, q0), false)
    } else if expands(v, key, s) is Some {
        plain(s, expands(v, key, s)->0, false)
    } else if key_scroll(key, m.control, s.fit as int) is Some {
        plain(s, TextAct::Scroll(key_scroll(key, m.control, s.fit as int)->0 as i64), false)
    } else if m.control {
        with_control(key, s, t, q0, q1)
    } else {
        unmodified(v, key, ch, s, t, q0, q1)
    }
}

/// What a key does in a text.
pub open spec fn keyed(v: ViewId, key: Seq<char>, ch: Option<Seq<char>>, m: Modifiers, s: TextState) -> Effect {
    if m.platform {
        plain(s, with_command(key, m.shift, s), true)
    } else if s.text is None || s.sel is None {
        plain(s, TextAct::Nothing, false)
    } else {
        let (q0, q1) = s.sel->0;
        typed_in(v, key, ch, m, s, s.text->0@, q0, q1)
    }
}

fn does(s: &TextState, act: TextAct, reveal: bool) -> (o: Outcome)
    ensures
        o@ == plain(*s, act, reveal),
{
    Outcome { act, text: String::new(), typed_start: s.typed_start, insertion: false, reveal }
}

fn erase(s: &TextState, act: TextAct) -> (o: Outcome)
    ensures
        o@ == erases(*s, act),
{
    Outcome { act, text: String::new(), typed_start: s.typed_start, insertion: true, reveal: true }
}

fn type_text(s: &TextState, q0: usize, text: String) -> (o: Outcome)
    ensures
        o@ == types(*s, q0, text@),
{
    let typed_start = match s.typed_start {
        Some(b) => if b > q0 {
            Some(q0)
        } else {
            Some(b)
        },
        None => Some(q0),
    };
    Outcome { act: TextAct::Type, text, typed_start, insertion: true, reveal: true }
}

fn command_key(key: &str, shift: bool, s: &TextState) -> (a: TextAct)
    ensures
        a == with_command(key@, shift, *s),
{
    if same(key, "z") {
        if shift {
            TextAct::Redo
        } else {
            TextAct::Undo
        }
    } else if same(key, "y") {
        TextAct::Redo
    } else if same(key, "x") {
        TextAct::Cut
    } else if same(key, "c") {
        TextAct::Snarf
    } else if same(key, "v") {
        TextAct::Paste
    } else if same(key, "a") {
        match s.text {
            Some(t) => TextAct::Select(0, t.len()),
            None => TextAct::Nothing,
        }
    } else if same(key, "q") {
        TextAct::Quit
    } else {
        TextAct::Nothing
    }
}

fn third(n: u32, k: u32) -> (r: i64)
    requires
        k <= 2,
    ensures
        r == thirds(n as int, k as int),
{
    proof {
        assert(n * k <= u32::MAX * 2) by (nonlinear_arith)
            requires
                k <= 2,
                n <= u32::MAX,
        ;
        assert(n * k >= 0) by (nonlinear_arith);
    }
    let x: i64 = (n as u64 * k as u64 / 3) as i64;
    if x < 1 {
        1
    } else {
        x
    }
}

fn scroll_of(key: &str, control: bool, fit: u32) -> (r: Option<i64>)
    ensures
        r is Some == key_scroll(key@, control, fit as int) is Some,
        r is Some ==> r->0 == key_scroll(key@, control, fit as int)->0,
{
    if same(key, "up") && !control {
        Some(-third(fit, 1))
    } else if same(key, "down") && !control {
        Some(third(fit, 1))
    } else if same(key, "pageup") {
        Some(-third(fit, 2))
    } else if same(key, "pagedown") {
        Some(third(fit, 2))
    } else {
        None
    }
}

fn control_of(key: &str) -> (r: Option<char>)
    ensures
        r == control_char(key@),
{
    if key.unicode_len() == 1 {
        let c = key.get_char(0);
        if 'a' <= c && c <= 'z' {
            let n: u8 = c as u8 - 96;
            return Some(n as char);
        }
    }
    None
}

fn control_key(key: &str, s: &TextState, t: &[char], q0: usize, q1: usize) -> (o: Outcome)
    requires
        q0 <= q1 <= t@.len(),
    ensures
        o@ == with_control(key@, *s, t@, q0, q1),
{
    if same(key, "u") {
        erase(s, TextAct::EraseLine)
    } else if same(key, "w") {
        erase(s, TextAct::EraseWord)
    } else if same(key, "h") {
        erase(s, TextAct::EraseChar)
    } else if same(key, "a") {
        let b: usize = start_of_line(t, q0);
        does(s, TextAct::Select(b, b), true)
    } else if same(key, "e") {
        let e: usize = end_of_line(t, q1);
        does(s, TextAct::Select(e, e), true)
    } else {
        match control_of(key) {
            Some(c) => {
                let mut text = String::new();
                text.push(c);
                proof {
                    assert(text@ =~= seq![c]);
                }
                type_text(s, q0, text)
            },
            None => Outcome {
                act: TextAct::Nothing,
                text: String::new(),
                typed_start: s.typed_start,
                insertion: same(key, "backspace"),
                reveal: true,
            },
        }
    }
}

fn newline_text(v: ViewId, t: &[char], q0: usize) -> (r: String)
    requires
        q0 <= t@.len(),
    ensures
        r@ == newline(v, t@, q0 as int),
{
    let mut text = String::new();
    text.push('\n');
    match v {
        ViewId::Body(_) => {
            let a: usize = start_of_line(t, q0);
            let mut i: usize = a;
            proof {
                assert(text@ =~= seq!['\n'] + t@.subrange(a as int, a as int));
            }
            while i < q0 && (t[i] == ' ' || t[i] == '\t')
                invariant
                    a <= i <= q0 <= t@.len(),
                    blanks(t@, a as int, q0 as int) == i - a + blanks(t@, i as int, q0 as int),
                    text@ == seq!['\n'] + t@.subrange(a as int, i as int),
                decreases q0 - i,
            {
                proof {
                    assert(t@.subrange(a as int, i + 1) =~= t@.subrange(a as int, i as int).push(t@[i as int]));
                }
                text.push(t[i]);
                i = i + 1;
            }
        },
        _ => {
            proof {
                assert(text@ =~= seq!['\n']);
            }
        },
    }
    text
}

fn insertion_of(s: &TextState, t: &[char]) -> (q: usize)
    ensures
        q == insertion_point(*s, t@),
        q <= t@.len(),
{
    if s.iq1 < t.len() {
        s.iq1
    } else {
        t.len()
    }
}

fn line_before_of(t: &[char], q: usize) -> (r: usize)
    requires
        q <= t@.len(),
    ensures
        r == line_before(t@, q as int),
{
    start_of_line(
        t,
        if q == 0 {
            0
        } else {
            q - 1
        },
    )
}

fn home(s: &TextState, t: &[char]) -> (a: TextAct)
    ensures
        a == homes(*s, t@),
{
    let iq1: usize = insertion_of(s, t);
    if s.origin > iq1 {
        TextAct::SetOrigin(line_before_of(t, iq1))
    } else {
        TextAct::SetOrigin(0)
    }
}

fn end(s: &TextState, t: &[char]) -> (a: TextAct)
    ensures
        a == ends(*s, t@),
{
    let iq1: usize = insertion_of(s, t);
    if let Some(e) = s.shown_end {
        if iq1 > e {
            return TextAct::SetOrigin(line_before_of(t, iq1));
        }
    }
    TextAct::ShowEnd(if s.live { 3 } else { 1 })
}

fn plain_key(v: ViewId, key: &str, ch: Option<&str>, s: &TextState, t: &[char], q0: usize, q1: usize) -> (o: Outcome)
    requires
        q0 <= q1 <= t@.len(),
    ensures
        o@ == unmodified(
            v,
            key@,
            match ch {
                Some(c) => Some(c@),
                None => None,
            },
            *s,
            t@,
            q0,
            q1,
        ),
{
    if same(key, "backspace") {
        erase(s, TextAct::EraseChar)
    } else if same(key, "delete") {
        erase(s, TextAct::DeleteForward)
    } else if same(key, "enter") {
        type_text(s, q0, newline_text(v, t, q0))
    } else if same(key, "tab") {
        let mut text = String::new();
        text.push('\t');
        proof {
            assert(text@ =~= seq!['\t']);
        }
        type_text(s, q0, text)
    } else if same(key, "escape") {
        let act = match s.typed_start {
            Some(b) => TextAct::Select(
                if b < q1 {
                    b
                } else {
                    q1
                },
                q1,
            ),
            None => TextAct::Nothing,
        };
        Outcome { act, text: String::new(), typed_start: None, insertion: false, reveal: true }
    } else if same(key, "left") {
        let p: usize = if q0 < q1 || q0 == 0 {
            q0
        } else {
            q0 - 1
        };
        does(s, TextAct::Select(p, p), true)
    } else if same(key, "right") {
        let p: usize = if q0 < q1 || q1 == t.len() {
            q1
        } else {
            q1 + 1
        };
        does(s, TextAct::Select(p, p), true)
    } else if same(key, "home") {
        does(s, home(s, t), false)
    } else if same(key, "end") {
        does(s, end(s, t), false)
    } else {
        match ch {
            Some(c) => if !c.is_empty() {
                type_text(s, q0, c.to_owned())
            } else {
                does(s, TextAct::Nothing, true)
            },
            None => does(s, TextAct::Nothing, true),
        }
    }
}

fn expansion(v: ViewId, key: &str, s: &TextState) -> (a: Option<TextAct>)
    ensures
        a == expands(v, key@, *s),
{
    match v {
        ViewId::Tag(w) => {
            let on = same(key, "down");
            if on || same(key, "up") {
                if let Some(now) = s.tagexpand {
                    if now != on {
                        return Some(TextAct::TagExpand(w, on));
                    }
                }
                Some(TextAct::Nothing)
            } else {
                None
            }
        },
        _ => None,
    }
}

/// Where the file name that ends at `q0` starts.
fn name_start(t: &[char], q0: usize) -> (q: usize)
    requires
        q0 <= t@.len(),
    ensures
        q == run_start(t@, q0 as int, HlKind::Look),
{
    let mut q: usize = q0;
    while q > 0 && is_file_char(t[q - 1])
        invariant
            q <= q0 <= t@.len(),
            run_start(t@, q as int, HlKind::Look) == run_start(t@, q0 as int, HlKind::Look),
        decreases q,
    {
        q = q - 1;
    }
    q
}

/// A key typed in the text `v`.
pub fn text_key(v: ViewId, key: &str, ch: Option<&str>, m: &Modifiers, s: &TextState) -> (o: Outcome)
    requires
        s.valid(),
    ensures
        o@ == keyed(
            v,
            key@,
            match ch {
                Some(c) => Some(c@),
                None => None,
            },
            *m,
            *s,
        ),
{
    if m.platform {
        return does(s, command_key(key, m.shift, s), true);
    }
    let (t, q0, q1) = match (s.text, s.sel) {
        (Some(t), Some((q0, q1))) => (t, q0, q1),
        _ => {
            return does(s, TextAct::Nothing, false);
        },
    };
    let row = match v {
        ViewId::ColTag(_) => true,
        ViewId::Top => true,
        _ => false,
    };
    if same(key, "enter") && row {
        return does(s, TextAct::Nothing, false);
    }
    if (m.control && same(key, "f")) || same(key, "insert") {
        return does(s, TextAct::Complete(name_start(t, q0), q0), false);
    }
    if let Some(a) = expansion(v, key, s) {
        return does(s, a, false);
    }
    if let Some(n) = scroll_of(key, m.control, s.fit) {
        return does(s, TextAct::Scroll(n), false);
    }
    if m.control {
        control_key(key, s, t, q0, q1)
    } else {
        plain_key(v, key, ch, s, t, q0, q1)
    }
}

/// The insertion point is noted after typing and erasing, and after a
/// backspace that control keeps from erasing; after nothing else.
pub proof fn law_typing_and_erasing_note_the_insertion_point(
    v: ViewId,
    key: Seq<char>,
    ch: Option<Seq<char>>,
    m: Modifiers,
    s: TextState,
)
    ensures
        keyed(v, key, ch, m, s).insertion == (match keyed(v, key, ch, m, s).act {
            TextAct::Type => true,
            TextAct::EraseLine => true,
            TextAct::EraseWord => true,
            TextAct::EraseChar => true,
            TextAct::DeleteForward => true,
            _ => key == "backspace"@ && m.control && !m.platform && s.text is Some && s.sel is Some,
        }),
{
    reveal_strlit("backspace");
    reveal_strlit("enter");
    reveal_strlit("insert");
    reveal_strlit("f");
    reveal_strlit("up");
    reveal_strlit("down");
    reveal_strlit("pageup");
    reveal_strlit("pagedown");
    reveal_strlit("u");
    reveal_strlit("w");
    reveal_strlit("h");
    reveal_strlit("a");
    reveal_strlit("e");
}

/// Where a key goes.
#[derive(Clone, Copy, Debug, PartialEq, Eq, Structural)]
pub enum KeyRoute {
    /// The switcher steps, backwards if so said.
    SwitcherStep(bool),
    CloseSwitcher,
    Nowhere,
    Finder,
    Selector,
    /// The clipboard typed into a terminal.
    TermPaste(TermId),
    Term(TermId),
    /// The text, its column made the active one if so said.
    Text(ViewId, bool),
}

/// A key that moves or scrolls, and so does not make the column active.
pub open spec fn travels(key: Seq<char>) -> bool {
    key == "up"@ || key == "down"@ || key == "left"@ || key == "right"@ || key == "pageup"@ || key == "pagedown"@
}

/// Where a key goes: the switcher while control holds it up, the overlay
/// that is open, else what the pointer is over, else the text last
/// selected in.
pub open spec fn route(
    key: Seq<char>,
    m: Modifiers,
    switcher: bool,
    finder: bool,
    selector: bool,
    over: Option<Target>,
    seltext: Option<ViewId>,
) -> KeyRoute {
    if m.control && key == "tab"@ {
        KeyRoute::SwitcherStep(m.shift)
    } else if switcher {
        if key == "escape"@ {
            KeyRoute::CloseSwitcher
        } else {
            KeyRoute::Nowhere
        }
    } else if finder {
        KeyRoute::Finder
    } else if selector {
        KeyRoute::Selector
    } else {
        match over {
            Some(Target::Term(_, t)) => if m.platform {
                if key == "v"@ {
                    KeyRoute::TermPaste(t)
                } else {
                    KeyRoute::Nowhere
                }
            } else {
                KeyRoute::Term(t)
            },
            Some(Target::View(v)) => KeyRoute::Text(v, !travels(key)),
            None => match seltext {
                Some(v) => KeyRoute::Text(v, !travels(key)),
                None => KeyRoute::Nowhere,
            },
        }
    }
}

/// Where a key goes.
pub fn key_down(
    key: &str,
    m: &Modifiers,
    switcher: bool,
    finder: bool,
    selector: bool,
    over: Option<Target>,
    seltext: Option<ViewId>,
) -> (r: KeyRoute)
    ensures
        r == route(key@, *m, switcher, finder, selector, over, seltext),
{
    if m.control && same(key, "tab") {
        return KeyRoute::SwitcherStep(m.shift);
    }
    if switcher {
        return if same(key, "escape") {
            KeyRoute::CloseSwitcher
        } else {
            KeyRoute::Nowhere
        };
    }
    if finder {
        return KeyRoute::Finder;
    }
    if selector {
        return KeyRoute::Selector;
    }
    let view = match over {
        Some(Target::Term(_, t)) => {
            return if !m.platform {
                KeyRoute::Term(t)
            } else if same(key, "v") {
                KeyRoute::TermPaste(t)
            } else {
                KeyRoute::Nowhere
            };
        },
        Some(Target::View(v)) => Some(v),
        None => seltext,
    };
    match view {
        Some(v) => {
            let travelling = same(key, "up") || same(key, "down") || same(key, "left") || same(key, "right") || same(
                key,
                "pageup",
            ) || same(key, "pagedown");
            KeyRoute::Text(v, !travelling)
        },
        None => KeyRoute::Nowhere,
    }
}

/// A text is there to type in, and command is not held.
pub open spec fn typing(m: Modifiers, s: TextState) -> bool {
    s.valid() && !m.platform && s.text is Some && s.sel is Some
}

proof fn lemma_key_names()
    ensures
        "up"@ == seq!['u', 'p'],
        "down"@ == seq!['d', 'o', 'w', 'n'],
        "pageup"@ == seq!['p', 'a', 'g', 'e', 'u', 'p'],
        "pagedown"@ == seq!['p', 'a', 'g', 'e', 'd', 'o', 'w', 'n'],
        "left"@ == seq!['l', 'e', 'f', 't'],
        "right"@ == seq!['r', 'i', 'g', 'h', 't'],
        "home"@ == seq!['h', 'o', 'm', 'e'],
        "end"@ == seq!['e', 'n', 'd'],
        "enter"@ == seq!['e', 'n', 't', 'e', 'r'],
        "tab"@ == seq!['t', 'a', 'b'],
        "escape"@ == seq!['e', 's', 'c', 'a', 'p', 'e'],
        "backspace"@ == seq!['b', 'a', 'c', 'k', 's', 'p', 'a', 'c', 'e'],
        "delete"@ == seq!['d', 'e', 'l', 'e', 't', 'e'],
        "insert"@ == seq!['i', 'n', 's', 'e', 'r', 't'],
        "f"@ == seq!['f'],
        "u"@ == seq!['u'],
        "w"@ == seq!['w'],
        "h"@ == seq!['h'],
        "a"@ == seq!['a'],
        "e"@ == seq!['e'],
        "z"@ == seq!['z'],
        "y"@ == seq!['y'],
        "x"@ == seq!['x'],
        "c"@ == seq!['c'],
        "v"@ == seq!['v'],
        "q"@ == seq!['q'],
{
    reveal_strlit("up");
    reveal_strlit("down");
    reveal_strlit("pageup");
    reveal_strlit("pagedown");
    reveal_strlit("left");
    reveal_strlit("right");
    reveal_strlit("home");
    reveal_strlit("end");
    reveal_strlit("enter");
    reveal_strlit("tab");
    reveal_strlit("escape");
    reveal_strlit("backspace");
    reveal_strlit("delete");
    reveal_strlit("insert");
    reveal_strlit("f");
    reveal_strlit("u");
    reveal_strlit("w");
    reveal_strlit("h");
    reveal_strlit("a");
    reveal_strlit("e");
    reveal_strlit("z");
    reveal_strlit("y");
    reveal_strlit("x");
    reveal_strlit("c");
    reveal_strlit("v");
    reveal_strlit("q");
}

/// Of a text in which `fit` lines fit, `n` lines are a `k`th part of three,
/// and one at the least.
pub open spec fn part_of_three(n: int, fit: int, k: int) -> bool {
    n >= 1 && (3 * n <= k * fit < 3 * n + 3 || n == 1 && k * fit < 3)
}

/// Up and page up scroll back, down and page down on; up and down by a
/// third of the lines that fit, the pages by two thirds, and by one at the
/// least; and the one goes as far back as the other goes on.  Nothing is
/// typed or selected, and the selection need not be brought on screen.
pub proof fn law_up_scrolls_back_and_down_scrolls_on(v: ViewId, ch: Option<Seq<char>>, m: Modifiers, s: TextState)
    requires
        typing(m, s),
        !(v is Tag),
    ensures
        ({
            let up = keyed(v, "up"@, ch, m, s);
            let down = keyed(v, "down"@, ch, m, s);
            !m.control ==> {
                &&& up.act is Scroll && down.act is Scroll
                &&& up.act->Scroll_0 < 0 < down.act->Scroll_0
                &&& up.act->Scroll_0 == -down.act->Scroll_0
                &&& part_of_three(down.act->Scroll_0 as int, s.fit as int, 1)
                &&& !up.reveal && !down.reveal && !up.insertion && !down.insertion
                &&& up.typed_start == s.typed_start && down.typed_start == s.typed_start
                &&& up.text.len() == 0 && down.text.len() == 0
            }
        }),
{
    lemma_key_names();
}

/// The same of the pages, in a tag too.
pub proof fn law_pages_scroll_two_thirds(v: ViewId, ch: Option<Seq<char>>, m: Modifiers, s: TextState)
    requires
        typing(m, s),
    ensures
        ({
            let up = keyed(v, "pageup"@, ch, m, s);
            let down = keyed(v, "pagedown"@, ch, m, s);
            &&& up.act is Scroll && down.act is Scroll
            &&& up.act->Scroll_0 < 0 < down.act->Scroll_0
            &&& up.act->Scroll_0 == -down.act->Scroll_0
            &&& part_of_three(down.act->Scroll_0 as int, s.fit as int, 2)
            &&& !up.reveal && !down.reveal && !up.insertion && !down.insertion
            &&& up.typed_start == s.typed_start && down.typed_start == s.typed_start
            &&& up.text.len() == 0 && down.text.len() == 0
        }),
{
    lemma_key_names();
}

/// In a window's tag down shows the whole of it, up one line of it; where
/// it is shown so already, neither does anything.
pub proof fn law_up_and_down_fold_a_tag(w: WindowId, ch: Option<Seq<char>>, m: Modifiers, s: TextState)
    requires
        typing(m, s),
    ensures
        s.tagexpand == Some(false) ==> keyed(ViewId::Tag(w), "down"@, ch, m, s).act == TextAct::TagExpand(w, true),
        s.tagexpand == Some(true) ==> keyed(ViewId::Tag(w), "up"@, ch, m, s).act == TextAct::TagExpand(w, false),
        s.tagexpand != Some(false) ==> keyed(ViewId::Tag(w), "down"@, ch, m, s).act == TextAct::Nothing,
        s.tagexpand != Some(true) ==> keyed(ViewId::Tag(w), "up"@, ch, m, s).act == TextAct::Nothing,
{
    lemma_key_names();
}

/// With command, z undoes and with shift redoes, y redoes, x cuts, c
/// snarfs, v pastes, a selects the whole text and q quits; every other key
/// does nothing.  None of them types.
pub proof fn law_command_keys(v: ViewId, key: Seq<char>, ch: Option<Seq<char>>, m: Modifiers, s: TextState)
    requires
        m.platform,
    ensures
        ({
            let e = keyed(v, key, ch, m, s);
            &&& e.text.len() == 0 && !e.insertion && e.reveal && e.typed_start == s.typed_start
            &&& e.act == TextAct::Undo <==> key == seq!['z'] && !m.shift
            &&& e.act == TextAct::Redo <==> key == seq!['y'] || key == seq!['z'] && m.shift
            &&& e.act == TextAct::Cut <==> key == seq!['x']
            &&& e.act == TextAct::Snarf <==> key == seq!['c']
            &&& e.act == TextAct::Paste <==> key == seq!['v']
            &&& e.act == TextAct::Quit <==> key == seq!['q']
            &&& e.act is Select <==> key == seq!['a'] && s.text is Some
            &&& e.act matches TextAct::Select(a, z) ==> a == 0 && z == s.text->0@.len() as usize
            &&& !(e.act is Type) && !(e.act is Scroll) && !(e.act is Complete) && !(e.act is TagExpand)
            &&& !(e.act is EraseLine) && !(e.act is EraseWord) && !(e.act is EraseChar) && !(e.act is DeleteForward)
            &&& !(e.act is SetOrigin) && !(e.act is ShowEnd)
        }),
{
    lemma_key_names();
}

/// With no text to type in and no command held, nothing is done.
pub proof fn law_no_text_no_key(v: ViewId, key: Seq<char>, ch: Option<Seq<char>>, m: Modifiers, s: TextState)
    requires
        !m.platform,
        s.text is None || s.sel is None,
    ensures
        keyed(v, key, ch, m, s).act == TextAct::Nothing,
        !keyed(v, key, ch, m, s).reveal && !keyed(v, key, ch, m, s).insertion,
        keyed(v, key, ch, m, s).typed_start == s.typed_start,
{
}

/// With control, u erases the line, w the word and h the character before
/// the cursor; a goes to the start of the line that the selection starts
/// on, e to the end of the line that it ends on; and any other letter types
/// its control character in place of the selection.
pub proof fn law_control_keys(v: ViewId, key: Seq<char>, ch: Option<Seq<char>>, m: Modifiers, s: TextState)
    requires
        typing(m, s),
        m.control,
        key.len() == 1,
    ensures
        ({
            let e = keyed(v, key, ch, m, s);
            let t = s.text->0@;
            let (q0, q1) = s.sel->0;
            &&& key == seq!['u'] <==> e.act == TextAct::EraseLine
            &&& key == seq!['w'] <==> e.act == TextAct::EraseWord
            &&& key == seq!['h'] <==> e.act == TextAct::EraseChar
            &&& key == seq!['u'] || key == seq!['w'] || key == seq!['h'] ==> e.insertion && e.reveal && e.typed_start
                == s.typed_start
            &&& key == seq!['a'] ==> {
                &&& e.act matches TextAct::Select(a, z) && a == z && a <= q0
                &&& ({
                    let a = e.act->Select_0;
                    (a == 0 || t[a - 1] == '\n') && forall|j: int| a <= j < q0 ==> t[j] != '\n'
                })
            }
            &&& key == seq!['e'] ==> {
                &&& e.act matches TextAct::Select(a, z) && a == z && q1 <= a <= t.len()
                &&& ({
                    let a = e.act->Select_0;
                    (a == t.len() || t[a as int] == '\n') && forall|j: int| q1 <= j < a ==> t[j] != '\n'
                })
            }
            &&& ('a' <= key[0] <= 'z' && key[0] != 'u' && key[0] != 'w' && key[0] != 'h' && key[0] != 'a' && key[0]
                != 'e' && key[0] != 'f') ==> e.act == TextAct::Type && e.text.len() == 1 && e.text[0] as u32 == key[0]
                as u32 - 96
            &&& !('a' <= key[0] <= 'z') ==> e.act == TextAct::Nothing && !e.insertion
        }),
{
    lemma_key_names();
    let t = s.text->0@;
    let (q0, q1) = s.sel->0;
    crate::lines::law_line_start(t, q0 as int);
    crate::lines::law_line_end(t, q1 as int);
    assert(s.text->0.len() == t.len());
    assert(key =~= seq![key[0]]);
}

/// Control and f, or insert, completes the file name that ends at the
/// cursor: all of it, and nothing before it.
pub proof fn law_a_whole_name_is_completed(v: ViewId, ch: Option<Seq<char>>, m: Modifiers, s: TextState)
    requires
        typing(m, s),
    ensures
        ({
            let e = keyed(v, "insert"@, ch, m, s);
            let t = s.text->0@;
            let (q0, _) = s.sel->0;
            &&& m.control ==> keyed(v, "f"@, ch, m, s) == e
            &&& e.act matches TextAct::Complete(a, z) && a <= z && z == q0
            &&& ({
                let a = e.act->Complete_0;
                &&& forall|j: int| a <= j < q0 ==> crate::words::file_char(#[trigger] t[j])
                &&& a > 0 ==> !crate::words::file_char(t[a - 1])
            })
            &&& !e.reveal && !e.insertion && e.typed_start == s.typed_start
        }),
{
    lemma_key_names();
    let (q0, _) = s.sel->0;
    let t = s.text->0@;
    crate::words::law_a_run_is_whole(t, q0 as int, HlKind::Look);
    let a = run_start(t, q0 as int, HlKind::Look);
    assert forall|j: int| a <= j < q0 implies crate::words::file_char(#[trigger] t[j]) by {
        assert(crate::words::taken(HlKind::Look, t[j]));
    }
    if a > 0 {
        assert(!crate::words::taken(HlKind::Look, t[a - 1]));
    }
}

/// Backspace erases the character before the cursor, delete the one after
/// it; tab types a tab, and a key that stands for characters types those.
pub proof fn law_keys_erase_and_type(v: ViewId, key: Seq<char>, ch: Option<Seq<char>>, m: Modifiers, s: TextState)
    requires
        typing(m, s),
        !m.control,
    ensures
        keyed(v, "backspace"@, ch, m, s).act == TextAct::EraseChar,
        keyed(v, "delete"@, ch, m, s).act == TextAct::DeleteForward,
        keyed(v, "tab"@, ch, m, s).act == TextAct::Type && keyed(v, "tab"@, ch, m, s).text == seq!['\t'],
        key.len() == 1 && ch is Some && ch->0.len() > 0 ==> keyed(v, key, ch, m, s).act == TextAct::Type && keyed(
            v,
            key,
            ch,
            m,
            s,
        ).text == ch->0,
        key.len() == 1 && (ch is None || ch->0.len() == 0) ==> keyed(v, key, ch, m, s).act == TextAct::Nothing,
{
    lemma_key_names();
}

/// The line that `q` is on starts at `b`, and `blank` is the blanks that it
/// starts with, as far as `q`.
pub open spec fn indented_from(t: Seq<char>, b: int, q: int, blank: Seq<char>) -> bool {
    let z = b + blank.len();
    &&& 0 <= b <= z <= q
    &&& b == 0 || t[b - 1] == '\n'
    &&& forall|j: int| b <= j < q ==> t[j] != '\n'
    &&& t.subrange(b, z) == blank
    &&& forall|j: int| b <= j < z ==> t[j] == ' ' || t[j] == '\t'
    &&& z < q ==> t[z] != ' ' && t[z] != '\t'
}

/// Enter types a newline; in a body, with the blanks that the line starts
/// with, up to the cursor; nothing in a column's tag or the top row.
pub proof fn law_enter_keeps_the_indentation(v: ViewId, ch: Option<Seq<char>>, m: Modifiers, s: TextState)
    requires
        typing(m, s),
        !m.control,
    ensures
        ({
            let e = keyed(v, "enter"@, ch, m, s);
            let t = s.text->0@;
            let (q0, _) = s.sel->0;
            &&& v is ColTag || v is Top ==> e.act == TextAct::Nothing
            &&& v is Tag || v is Body ==> e.act == TextAct::Type && e.text.len() > 0 && e.text[0] == '\n'
            &&& v is Tag ==> e.text.len() == 1
            &&& v is Body ==> exists|b: int| #[trigger] indented_from(t, b, q0 as int, e.text.skip(1))
        }),
{
    lemma_key_names();
    let t = s.text->0@;
    let (q0, _) = s.sel->0;
    let b = line_start(t, q0 as int);
    crate::lines::law_line_start(t, q0 as int);
    lemma_blanks(t, b, q0 as int);
    let k = blanks(t, b, q0 as int);
    let e = keyed(v, "enter"@, ch, m, s);
    if v is Body {
        assert(e.text.len() == k + 1);
        assert(e.text.skip(1) =~= t.subrange(b, b + k));
        assert(indented_from(t, b, q0 as int, e.text.skip(1)));
    }
}

proof fn lemma_blanks(t: Seq<char>, a: int, z: int)
    requires
        0 <= a <= z <= t.len(),
    ensures
        0 <= blanks(t, a, z) <= z - a,
        forall|j: int| a <= j < a + blanks(t, a, z) ==> t[j] == ' ' || t[j] == '\t',
        a + blanks(t, a, z) < z ==> t[a + blanks(t, a, z)] != ' ' && t[a + blanks(t, a, z)] != '\t',
    decreases z - a,
{
    if a < z && (t[a] == ' ' || t[a] == '\t') {
        lemma_blanks(t, a + 1, z);
    }
}

/// The arrows put the cursor at the end of the selection that they point
/// to; with nothing selected, one character that way, where there is one.
pub proof fn law_arrows_move_by_one(v: ViewId, ch: Option<Seq<char>>, m: Modifiers, s: TextState)
    requires
        typing(m, s),
        !m.control,
    ensures
        ({
            let left = keyed(v, "left"@, ch, m, s);
            let right = keyed(v, "right"@, ch, m, s);
            let n = s.text->0@.len();
            let (q0, q1) = s.sel->0;
            &&& left.act is Select && left.act->Select_0 == left.act->Select_1
            &&& right.act is Select && right.act->Select_0 == right.act->Select_1
            &&& q0 < q1 ==> left.act->Select_0 == q0 && right.act->Select_0 == q1
            &&& q0 == q1 && q0 > 0 ==> left.act->Select_0 + 1 == q0
            &&& q0 == q1 && q0 == 0 ==> left.act->Select_0 == 0
            &&& q0 == q1 && q0 < n ==> right.act->Select_0 == q0 + 1
            &&& q0 == q1 && q0 == n ==> right.act->Select_0 == n
            &&& left.reveal && right.reveal && !left.insertion && !right.insertion
        }),
{
    lemma_key_names();
    assert(s.text->0.len() == s.text->0@.len());
}

/// Escape selects what was typed: from where the typing began to the end of
/// the selection; and the typing is over.
pub proof fn law_escape_selects_what_was_typed(v: ViewId, ch: Option<Seq<char>>, m: Modifiers, s: TextState)
    requires
        typing(m, s),
        !m.control,
    ensures
        ({
            let e = keyed(v, "escape"@, ch, m, s);
            let (_, q1) = s.sel->0;
            &&& e.typed_start is None
            &&& s.typed_start is None ==> e.act == TextAct::Nothing
            &&& s.typed_start matches Some(b) ==> e.act is Select && e.act->Select_1 == q1 && e.act->Select_0 <= b
                && e.act->Select_0 <= q1 && (e.act->Select_0 == b || e.act->Select_0 == q1)
        }),
{
    lemma_key_names();
}

/// Home goes to the top of the text, unless the last typing is above what
/// is shown: then the line before it is the top one.  End shows the end,
/// further down the window where a program runs in it, unless the last
/// typing is below what is shown.  The cursor stays where it is.
pub proof fn law_home_and_end(v: ViewId, ch: Option<Seq<char>>, m: Modifiers, s: TextState)
    requires
        typing(m, s),
        !m.control,
    ensures
        ({
            let home = keyed(v, "home"@, ch, m, s).act;
            let end = keyed(v, "end"@, ch, m, s).act;
            let t = s.text->0@;
            let at: int = if s.iq1 < t.len() { s.iq1 as int } else { t.len() as int };
            let above = s.origin > at;
            let below = s.shown_end matches Some(e) && at > e;
            &&& !above ==> home == TextAct::SetOrigin(0)
            &&& above ==> home is SetOrigin && starts_line_before(t, home->SetOrigin_0 as int, at)
            &&& !below ==> end == TextAct::ShowEnd(if s.live { 3 } else { 1 })
            &&& below ==> end is SetOrigin && starts_line_before(t, end->SetOrigin_0 as int, at)
        }),
{
    lemma_key_names();
    let t = s.text->0@;
    let at: int = if s.iq1 < t.len() { s.iq1 as int } else { t.len() as int };
    crate::lines::law_line_start(t, if at == 0 { 0 } else { at - 1 });
}

/// `a` is where the line of the character before `q` starts.
pub open spec fn starts_line_before(t: Seq<char>, a: int, q: int) -> bool {
    &&& 0 <= a <= q
    &&& a == 0 || t[a - 1] == '\n'
    &&& forall|j: int| a <= j < q - 1 ==> t[j] != '\n'
}

/// What is typed begins, or goes on, a stretch of typing: it starts where
/// it did, or at the cursor if that is before.
pub proof fn law_typing_goes_on_from_where_it_began(
    v: ViewId,
    key: Seq<char>,
    ch: Option<Seq<char>>,
    m: Modifiers,
    s: TextState,
)
    requires
        s.valid(),
        keyed(v, key, ch, m, s).act == TextAct::Type,
    ensures
        ({
            let e = keyed(v, key, ch, m, s);
            let (q0, _) = s.sel->0;
            &&& e.insertion && e.reveal && e.text.len() > 0
            &&& s.typed_start is None ==> e.typed_start == Some(q0)
            &&& s.typed_start matches Some(b) ==> e.typed_start is Some && e.typed_start->0 <= b && e.typed_start->0
                <= q0 && (e.typed_start->0 == b || e.typed_start->0 == q0)
        }),
{
    lemma_key_names();
}

/// A key that types nothing leaves where the typing began, but for escape.
pub proof fn law_only_typing_and_escape_touch_the_typing(
    v: ViewId,
    key: Seq<char>,
    ch: Option<Seq<char>>,
    m: Modifiers,
    s: TextState,
)
    ensures
        keyed(v, key, ch, m, s).act != TextAct::Type && key != "escape"@ ==> keyed(v, key, ch, m, s).typed_start
            == s.typed_start && keyed(v, key, ch, m, s).text.len() == 0,
{
    lemma_key_names();
}

/// Control and tab step the switcher, back with shift, whatever is open;
/// while it is up, escape closes it and every other key is lost.  Then the
/// finder has the keys, then the picker.
pub proof fn law_what_is_open_has_the_keys(
    key: Seq<char>,
    m: Modifiers,
    switcher: bool,
    finder: bool,
    selector: bool,
    over: Option<Target>,
    seltext: Option<ViewId>,
)
    ensures
        ({
            let r = route(key, m, switcher, finder, selector, over, seltext);
            let steps = m.control && key == "tab"@;
            &&& steps <==> r is SwitcherStep
            &&& steps ==> r == KeyRoute::SwitcherStep(m.shift)
            &&& !steps && switcher ==> r == if key == "escape"@ { KeyRoute::CloseSwitcher } else { KeyRoute::Nowhere }
            &&& r == KeyRoute::Finder <==> !steps && !switcher && finder
            &&& r == KeyRoute::Selector <==> !steps && !switcher && !finder && selector
        }),
{
}

/// With nothing open, a key goes to what the pointer is over: to a
/// terminal, but for command and v, which pastes there, and the other keys
/// with command, which are lost; or to a text, and where the pointer is over
/// neither, to the text last selected in.  A key that moves or scrolls does
/// not make the text's column the active one, and every other does.
pub proof fn law_keys_go_where_the_pointer_is(key: Seq<char>, m: Modifiers, over: Option<Target>, seltext: Option<ViewId>)
    requires
        !(m.control && key == "tab"@),
    ensures
        ({
            let r = route(key, m, false, false, false, over, seltext);
            let moves = key == "up"@ || key == "down"@ || key == "left"@ || key == "right"@ || key == "pageup"@ || key
                == "pagedown"@;
            &&& over matches Some(Target::Term(_, t)) ==> {
                &&& !m.platform ==> r == KeyRoute::Term(t)
                &&& m.platform && key == "v"@ ==> r == KeyRoute::TermPaste(t)
                &&& m.platform && key != "v"@ ==> r == KeyRoute::Nowhere
            }
            &&& over matches Some(Target::View(v)) ==> r == KeyRoute::Text(v, !moves)
            &&& over is None && seltext is Some ==> r == KeyRoute::Text(seltext->0, !moves)
            &&& over is None && seltext is None ==> r == KeyRoute::Nowhere
        }),
{
}

} // verus!
