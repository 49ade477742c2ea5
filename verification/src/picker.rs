//! The session picker at work: its keys, its field, the hosts' answers,
//! and what picking a row does.

use vstd::prelude::*;
use vstd::string::*;

use crate::field::{characters, Edited, Line, LineEdit};
use crate::keys::Modifiers;
use crate::recall::{had_all, info, info_of, sessions_at, sessions_of, Known};
use crate::selector::{
    had_by, heard_of, is_read_among, kept, kept_on, reads_among, relisted, settled, shown, stepped, strs, Connect, Field, Heard, Listing, Loading, Offer, Row, Selector,
};
use crate::session::{has_host, infos, listed, maybe, places, urls, Host, Info, Place, SessionInfo, SessionUrl, Url};
use crate::text::{chars_of, has_at, is_control, lines, lines_of, lower_str, lowered, same, stands_at, string_of, trim, trimmed, views};

verus! {

impl Selector {
    /// The cursor moved by steps of `delta` to the next row that can be
    /// landed on.
    pub fn move_cursor(&mut self, delta: i32)
        requires
            delta != 0 || old(self).cursor >= old(self).listed().len()
                || old(self).listed()[old(self).cursor as int].pickable(),
        ensures
            *final(self) == (Selector { cursor: final(self).cursor, moved: true, ..*old(self) }),
            final(self).cursor == stepped(
                old(self).listed(),
                old(self).cursor as int,
                old(self).cursor as int,
                delta as int,
            ),
    {
        self.moved = true;
        if delta == 0 {
            return;
        }
        let rows: Vec<Row> = self.rows();
        let ghost all = shown(rows@);
        let start: usize = self.cursor;
        let mut i: i128 = self.cursor as i128;
        while i + (delta as i128) >= 0 && i + (delta as i128) < rows.len() as i128
            invariant
                delta != 0,
                all == shown(rows@),
                0 <= i <= usize::MAX,
                start == self.cursor,
                *self == (Selector { cursor: start, moved: true, ..*old(self) }),
                all == old(self).listed(),
                start == old(self).cursor,
                stepped(all, start as int, i as int, delta as int) == stepped(
                    all,
                    start as int,
                    start as int,
                    delta as int,
                ),
            decreases (if delta < 0 { i + 1 } else { rows@.len() - i }),
        {
            i = i + delta as i128;
            proof {
                assert(all[i as int] == rows@[i as int]@);
            }
            if rows[i as usize].pickable() {
                self.cursor = i as usize;
                return;
            }
        }
    }

    /// Change the list and keep the cursor on the row it was on, wherever
    /// that row is now (a host answering fills its section in above).
    pub fn keeping<F: FnOnce(&mut Selector)>(&mut self, change: F)
        requires
            forall|s: &mut Selector| *s == *old(self) ==> #[trigger] call_requires(change, (s,)),
        ensures
            exists|s: &mut Selector|
                *s == *old(self) && #[trigger] call_ensures(change, (s,), ()) && kept_over(
                    *old(self),
                    *final(s),
                    *final(self),
                ),
    {
        let before: Vec<Row> = self.rows();
        let at: usize = self.cursor;
        change(self);
        let rows: Vec<Row> = self.rows();
        let ghost changed = *self;
        let ghost b = shown(before@);
        let found: usize = if at < before.len() {
            proof {
                assert(b[at as int] == before@[at as int]@);
            }
            crate::selector::find_row(&rows, &before[at])
        } else {
            rows.len()
        };
        self.cursor = if found < rows.len() {
            found
        } else {
            crate::selector::settle_in(&rows, self.cursor)
        };
        proof {
            assert(kept_over(*old(self), changed, *self));
        }
    }

    /// A host's sessions are others now: the cursor stays on its row.
    fn relist_keeping(&mut self, h: &Host, loading: Loading)
        ensures
            relisted(old(self).sessions@, h@, loading@, final(self).sessions@),
            *final(self) == (Selector {
                sessions: final(self).sessions,
                cursor: final(self).cursor,
                ..*old(self)
            }),
            final(self).cursor == kept(old(self).listed(), final(self).listed(), old(self).cursor as int),
    {
        self.keeping(
            |s: &mut Selector| -> (u: ())
                ensures
                    only_relisted(*old(s), h@, loading@, *final(s))
                {
                    s.relist(h, loading);
                },
        );
    }
}

/// A host's sessions are others, and nothing else is.
pub open spec fn only_relisted(before: Selector, h: Place, l: Heard, after: Selector) -> bool {
    &&& relisted(before.sessions@, h, l, after.sessions@)
    &&& after == (Selector { sessions: after.sessions, ..before })
}

/// The cursor is kept on its row over a change: `changed` is what the change
/// made of `before`, and `after` is that with the cursor put right.
pub open spec fn kept_over(before: Selector, changed: Selector, after: Selector) -> bool {
    &&& after == (Selector { cursor: after.cursor, ..changed })
    &&& after.cursor == kept_on(before.listed(), before.cursor as int, changed.listed(), changed.cursor as int)
}

/// Whatever the change is: where the row that the cursor was on is still
/// there, the cursor is on it, and on the first that is it; where it is not,
/// the cursor is on a row that can be picked, if there is one, and else at
/// the top.
pub proof fn law_the_cursor_is_kept_over_any_change(before: Selector, changed: Selector, after: Selector)
    requires
        kept_over(before, changed, after),
    ensures
        after.listed() == changed.listed(),
        ({
            let rows = after.listed();
            let at = after.cursor as int;
            let there = before.cursor < before.listed().len() && exists|i: int|
                0 <= i < rows.len() && (#[trigger] rows[i]).is(before.listed()[before.cursor as int]);
            if there {
                let row = before.listed()[before.cursor as int];
                at < rows.len() && rows[at].is(row) && forall|j: int| 0 <= j < at ==> !(#[trigger] rows[j]).is(row)
            } else if exists|i: int| 0 <= i < rows.len() && (#[trigger] rows[i]).pickable() {
                at < rows.len() && rows[at].pickable()
            } else {
                at == 0
            }
        }),
{
    let rows = changed.listed();
    assert(after.listed() == rows);
    if before.cursor < before.listed().len() {
        crate::selector::lemma_first_place(rows, before.listed()[before.cursor as int], 0);
    }
    crate::selector::lemma_settles(rows, changed.cursor as int);
}

impl Selector {
    /// The cursor on its row, in a list that has not changed.
    fn keep_as_it_is(&mut self)
        ensures
            *final(self) == (Selector { cursor: final(self).cursor, ..*old(self) }),
            final(self).cursor == kept(old(self).listed(), old(self).listed(), old(self).cursor as int),
    {
        self.keeping(
            |s: &mut Selector| -> (u: ())
                ensures
                    *old(s) == *final(s)
                {},
        );
    }
}

/// The sessions of a list, copied.
fn copies(s: &Vec<SessionInfo>) -> (r: Vec<SessionInfo>)
    ensures
        infos(r@) == infos(s@),
{
    let mut out: Vec<SessionInfo> = Vec::new();
    let mut i: usize = 0;
    while i < s.len()
        invariant
            i <= s@.len(),
            out@.len() == i,
            forall|j: int| 0 <= j < i ==> (#[trigger] out@[j])@ == s@[j]@,
        decreases s@.len() - i,
    {
        out.push(s[i].copy());
        i = i + 1;
    }
    proof {
        assert(infos(out@) =~= infos(s@));
    }
    out
}

/// What is known of a host once it has answered: what it says, or what
/// it had, and why it could not be asked.
pub open spec fn answered_with(before: Seq<Info>, r: Result<Seq<Info>, Seq<char>>) -> Heard {
    match r {
        Ok(s) => Heard::Ready(s),
        Err(e) => Heard::Failed(before, e),
    }
}

/// An answer as a value.
pub open spec fn answer(r: Result<Vec<SessionInfo>, String>) -> Result<Seq<Info>, Seq<char>> {
    match r {
        Ok(s) => Ok(infos(s@)),
        Err(e) => Err(e@),
    }
}

impl Selector {
    /// What a host has, as it is known.
    fn known(&self, h: &Host) -> (r: Vec<SessionInfo>)
        ensures
            infos(r@) == had_by(self.sessions@, h@),
    {
        match self.sessions_of(h) {
            Some(i) => copies(self.sessions[i].loading.sessions()),
            None => {
                let none: Vec<SessionInfo> = Vec::new();
                proof {
                    assert(infos(none@) =~= had_by(self.sessions@, h@));
                }
                none
            },
        }
    }

    /// A host has answered, to the opening of the picker that asked it:
    /// an answer to another opening is dropped, and false says so.  The
    /// cursor stays on its row; untouched, it lands on the first row
    /// worth landing on.
    pub fn answered(&mut self, epoch: u64, h: &Host, r: Result<Vec<SessionInfo>, String>) -> (took: bool)
        ensures
            took == (old(self).epoch == epoch),
            !took ==> *final(self) == *old(self),
            took ==> {
                &&& relisted(
                    old(self).sessions@,
                    h@,
                    answered_with(had_by(old(self).sessions@, h@), answer(r)),
                    final(self).sessions@,
                )
                &&& *final(self) == (Selector {
                    sessions: final(self).sessions,
                    cursor: final(self).cursor,
                    ..*old(self)
                })
                &&& final(self).cursor == ({
                    let k = kept(old(self).listed(), final(self).listed(), old(self).cursor as int);
                    if old(self).moved {
                        k
                    } else {
                        settled(final(self).listed(), k)
                    }
                })
            },
    {
        if self.epoch != epoch {
            return false;
        }
        let loading = match r {
            Ok(s) => Loading::Ready(s),
            Err(e) => Loading::Failed(self.known(h), e),
        };
        self.relist_keeping(h, loading);
        if !self.moved {
            self.land_on_current();
        }
        true
    }
}

/// The sessions of a host without one that has ended.
pub open spec fn without(h: Place, s: Seq<Info>, gone: Url, n: int) -> Seq<Info>
    decreases n,
{
    if n <= 0 || n > s.len() {
        Seq::empty()
    } else if h.url_of(s[n - 1]).is(gone) {
        without(h, s, gone, n - 1)
    } else {
        without(h, s, gone, n - 1).push(s[n - 1])
    }
}

fn leave_out(h: &Host, s: &Vec<SessionInfo>, gone: &SessionUrl) -> (r: Vec<SessionInfo>)
    ensures
        infos(r@) == without(h@, infos(s@), gone@, s@.len() as int),
{
    let mut out: Vec<SessionInfo> = Vec::new();
    let mut i: usize = 0;
    proof {
        assert(infos(out@) =~= Seq::<Info>::empty());
    }
    while i < s.len()
        invariant
            i <= s@.len(),
            infos(out@) == without(h@, infos(s@), gone@, i as int),
        decreases s@.len() - i,
    {
        let ghost before = out@;
        proof {
            assert(infos(s@)[i as int] == s@[i as int]@);
        }
        if !h.url_of(&s[i]).is(gone) {
            out.push(s[i].copy());
            proof {
                assert(infos(out@) =~= infos(before).push(s@[i as int]@));
            }
        }
        i = i + 1;
    }
    out
}

/// What comes of ending a session from the picker.
#[derive(Clone, Copy, Debug, PartialEq, Eq, Structural)]
pub enum Ending {
    /// The picker has been opened anew since: nothing.
    Stale,
    /// Gone from what the host had; the host is asked again.
    AskAgain,
    /// Refused, which the host's listing says.
    Refused,
}

impl Selector {
    /// A session ended from the picker, or not.
    pub fn ended(&mut self, epoch: u64, url: &SessionUrl, r: Result<(), String>) -> (e: Ending)
        ensures
            e == (if old(self).epoch != epoch {
                Ending::Stale
            } else if r is Ok {
                Ending::AskAgain
            } else {
                Ending::Refused
            }),
            e == Ending::Stale ==> *final(self) == *old(self),
            e != Ending::Stale ==> {
                let h = Place::of(url@);
                let had = had_by(old(self).sessions@, h);
                &&& if r is Ok && heard_of(old(self).sessions@, h) is None {
                    final(self).sessions == old(self).sessions
                } else {
                    relisted(
                        old(self).sessions@,
                        h,
                        match r {
                            Ok(_) => Heard::Seeded(without(h, had, url@, had.len() as int)),
                            Err(e) => Heard::Failed(had, e@),
                        },
                        final(self).sessions@,
                    )
                }
                &&& *final(self) == (Selector {
                    sessions: final(self).sessions,
                    cursor: final(self).cursor,
                    ..*old(self)
                })
                &&& final(self).cursor == kept(old(self).listed(), final(self).listed(), old(self).cursor as int)
            },
    {
        if self.epoch != epoch {
            return Ending::Stale;
        }
        let h = Host::of(url);
        let had: Vec<SessionInfo> = self.known(&h);
        match r {
            Ok(()) => {
                if self.sessions_of(&h).is_some() {
                    let left: Vec<SessionInfo> = leave_out(&h, &had, url);
                    self.relist_keeping(&h, Loading::Seeded(left));
                } else {
                    self.keep_as_it_is();
                }
                Ending::AskAgain
            },
            Err(e) => {
                self.relist_keeping(&h, Loading::Failed(had, e));
                Ending::Refused
            },
        }
    }

    /// The text of the field changed: the list is filtered anew from the
    /// top.
    pub fn overlay_changed(&mut self)
        ensures
            old(self).connect is Some ==> *final(self) == *old(self),
            old(self).connect is None ==> *final(self) == (Selector {
                moved: true,
                cursor: final(self).cursor,
                ..*old(self)
            }) && final(self).cursor == settled(old(self).listed(), 0),
    {
        if self.connect.is_none() {
            self.moved = true;
            self.cursor = 0;
            self.settle();
        }
    }
}

/// What the Edit menu's items are called.
pub open spec fn pasted(clip: Option<Seq<char>>) -> Option<Seq<char>> {
    match clip {
        Some(t) => {
            let l = lines_of(t);
            if l.len() > 0 && trimmed(l[0]).len() > 0 {
                Some(trimmed(l[0]))
            } else {
                None
            }
        },
        None => None,
    }
}

/// What the Edit menu does to a field: what the field is then, whether the
/// text was edited, and what goes on the clipboard.
pub open spec fn edited(l: Line, what: Seq<char>, clip: Option<Seq<char>>) -> (Line, bool, Option<Seq<char>>) {
    let selected = match l.selection() {
        Some((a, z)) => Some(l.text.subrange(a, z)),
        None => None,
    };
    if what == "paste"@ {
        match pasted(clip) {
            Some(s) => (l.inserted(s), true, None),
            None => (l, false, None),
        }
    } else if what == "select-all"@ {
        (l.all_selected(), false, None)
    } else if what == "copy"@ {
        (l, false, selected)
    } else if what == "cut"@ {
        (l.taken_out(), selected is Some, selected)
    } else if what == "undo"@ {
        (l.undone(), l.undo.len() > 0, None)
    } else {
        (l, false, None)
    }
}

/// The Edit menu (its keys) with an overlay up: cut, copy, paste (the
/// text's first line), select all and undo on its field.  Whether the
/// text was edited, and what goes on the clipboard.
pub fn overlay_edit(field: &mut LineEdit, what: &str, clip: Option<&str>) -> (r: (bool, Option<String>))
    requires
        old(field).wf(),
    ensures
        final(field).wf(),
        (final(field)@, r.0, maybe(r.1)) == edited(old(field)@, what@, characters(clip)),
{
    if same(what, "paste") {
        if let Some(t) = clip {
            let all: Vec<char> = chars_of(t);
            let l: Vec<Vec<char>> = lines(all.as_slice());
            proof {
                assert(views(l@).len() == l@.len());
            }
            if l.len() > 0 {
                proof {
                    assert(views(l@)[0] == l@[0]@);
                }
                let first: Vec<char> = trim(l[0].as_slice());
                if first.len() > 0 {
                    let s: String = string_of(first.as_slice());
                    field.insert(s.as_str());
                    return (true, None);
                }
            }
        }
        (false, None)
    } else if same(what, "select-all") {
        field.select_all();
        (false, None)
    } else if same(what, "copy") {
        (false, field.selected())
    } else if same(what, "cut") {
        let cut = field.cut();
        (cut.is_some(), cut)
    } else if same(what, "undo") {
        (field.undo(), None)
    } else {
        (false, None)
    }
}

/// What a key of the picker asks for.
pub enum PickerAct {
    /// Nothing.
    Nothing,
    Redraw,
    Close,
    /// What is typed has changed: whether it is a label is to be asked,
    /// and the list filtered anew.
    Typed,
    AddHost(Host),
    Choose(Row),
}

/// A [`PickerAct`] as a value.
pub enum Ask {
    Nothing,
    Redraw,
    Close,
    Typed,
    AddHost(Place),
    Choose(Offer),
}

impl View for PickerAct {
    type V = Ask;

    open spec fn view(&self) -> Ask {
        match self {
            PickerAct::Nothing => Ask::Nothing,
            PickerAct::Redraw => Ask::Redraw,
            PickerAct::Close => Ask::Close,
            PickerAct::Typed => Ask::Typed,
            PickerAct::AddHost(h) => Ask::AddHost(h@),
            PickerAct::Choose(r) => Ask::Choose(r@),
        }
    }
}

/// No character of `s` is a control code.
pub open spec fn plain(s: Seq<char>) -> bool {
    forall|i: int| 0 <= i < s.len() ==> !crate::text::control(#[trigger] s[i])
}

/// The first provider from `i` on whose name starts with what is typed,
/// whatever the case; the end where there is none.
pub open spec fn starting(providers: Seq<Seq<char>>, typed: Seq<char>, i: int) -> int
    decreases providers.len() - i,
{
    if 0 <= i < providers.len() && !stands_at(lowered(providers[i]), 0, lowered(typed)) {
        starting(providers, typed, i + 1)
    } else {
        i
    }
}

/// The provider that a character typed chooses.
pub open spec fn chosen_by(c: Connect, ch: Option<Seq<char>>) -> usize {
    if ch is Some && plain(ch->0) && starting(strs(c.providers@), ch->0, 0) < c.providers@.len() {
        starting(strs(c.providers@), ch->0, 0) as usize
    } else {
        c.provider
    }
}

/// What a key does to the form, but for escape and enter: up and down
/// between the two fields, left and right (or a letter) through the
/// providers, else what the host's field does with it.
pub open spec fn form_keyed(c: Connect, key: Seq<char>, ch: Option<Seq<char>>, mods: Modifiers, after: Connect) -> bool {
    if key == "up"@ {
        after == (Connect { field: Field::Provider, ..c })
    } else if key == "down"@ || key == "tab"@ {
        after == (Connect { field: Field::Host, ..c })
    } else if c.field == Field::Provider {
        let n = c.providers@.len() as int;
        after == (Connect {
            provider: if key == "left"@ || key == "right"@ || key == "space"@ {
                if n == 0 {
                    c.provider
                } else {
                    ((c.provider + if key == "left"@ {
                        -1int
                    } else {
                        1int
                    }) % n) as usize
                }
            } else {
                chosen_by(c, ch)
            },
            ..c
        })
    } else {
        after.host@ == c.host@.keyed(key, ch, mods).0 && after == (Connect { host: after.host, ..c })
    }
}

fn is_plain(s: &str) -> (r: bool)
    ensures
        r == plain(s@),
{
    let chars: Vec<char> = chars_of(s);
    let mut i: usize = 0;
    while i < chars.len()
        invariant
            i <= chars@.len(),
            chars@ == s@,
            forall|j: int| 0 <= j < i ==> !crate::text::control(#[trigger] s@[j]),
        decreases chars@.len() - i,
    {
        if is_control(chars[i]) {
            proof {
                assert(crate::text::control(s@[i as int]));
            }
            return false;
        }
        i = i + 1;
    }
    true
}

fn choice(c: &Connect, ch: Option<&str>) -> (p: usize)
    ensures
        p == chosen_by(
            *c,
            match ch {
                Some(s) => Some(s@),
                None => None,
            },
        ),
{
    if let Some(t) = ch {
        if is_plain(t) {
            let typed: String = lower_str(t);
            let mut i: usize = 0;
            while i < c.providers.len()
                invariant
                    i <= c.providers@.len(),
                    typed@ == lowered(t@),
                    plain(t@),
                    starting(strs(c.providers@), t@, i as int) == starting(strs(c.providers@), t@, 0),
                    ch == Some(t),
                decreases c.providers@.len() - i,
            {
                let name: Vec<char> = chars_of(lower_str(c.providers[i].as_str()).as_str());
                proof {
                    assert(strs(c.providers@)[i as int] == c.providers@[i as int]@);
                }
                if has_at(name.as_slice(), 0, typed.as_str()) {
                    return i;
                }
                i = i + 1;
            }
        }
    }
    c.provider
}

/// A key of the form that is neither escape nor enter.
fn form_key(form: &mut Connect, key: &str, ch: Option<&str>, mods: &Modifiers)
    requires
        old(form).host.wf(),
    ensures
        final(form).host.wf(),
        form_keyed(
            *old(form),
            key@,
            match ch {
                Some(s) => Some(s@),
                None => None,
            },
            *mods,
            *final(form),
        ),
{
    proof {
        reveal_strlit("left");
        reveal_strlit("right");
        reveal_strlit("space");
        assert("left"@.len() != "right"@.len());
        assert("left"@.len() != "space"@.len());
    }
    if same(key, "up") {
        form.next_field(-1);
    } else if same(key, "down") || same(key, "tab") {
        form.next_field(1);
    } else if form.field == Field::Provider {
        if same(key, "left") {
            form.next_provider(-1);
        } else if same(key, "right") || same(key, "space") {
            form.next_provider(1);
        } else {
            form.provider = choice(form, ch);
        }
    } else {
        let _ = form.host.key(key, ch, mods);
    }
}

/// A key with the form up.
pub open spec fn form_act(c: Connect, key: Seq<char>) -> Ask {
    if key != "escape"@ && key == "enter"@ && c.named() is Some {
        Ask::AddHost(c.named()->0)
    } else {
        Ask::Redraw
    }
}

impl Selector {
    fn key_in_form(&mut self, key: &str, ch: Option<&str>, mods: &Modifiers) -> (a: PickerAct)
        requires
            old(self).wf(),
            old(self).connect is Some,
        ensures
            final(self).wf(),
            a@ == form_act(old(self).connect->0, key@),
            *final(self) == (Selector { connect: final(self).connect, cursor: final(self).cursor, ..*old(self) }),
            key@ == "escape"@ ==> final(self).connect is None && final(self).cursor == settled(
                final(self).listed(),
                old(self).cursor as int,
            ),
            key@ != "escape"@ ==> final(self).cursor == old(self).cursor && final(self).connect is Some,
            key@ != "escape"@ && key@ == "enter"@ ==> final(self).connect == old(self).connect,
            key@ != "escape"@ && key@ != "enter"@ ==> form_keyed(
                old(self).connect->0,
                key@,
                match ch {
                    Some(s) => Some(s@),
                    None => None,
                },
                *mods,
                final(self).connect->0,
            ),
    {
        if same(key, "escape") {
            self.connect = None;
            self.settle();
            return PickerAct::Redraw;
        }
        let mut form = self.connect.take().unwrap();
        if same(key, "enter") {
            let named = form.host();
            self.connect = Some(form);
            return match named {
                Some(h) => PickerAct::AddHost(h),
                None => PickerAct::Redraw,
            };
        }
        form_key(&mut form, key, ch, mods);
        self.connect = Some(form);
        PickerAct::Redraw
    }

    /// Keys while the picker is open.
    pub fn selector_key(&mut self, key: &str, ch: Option<&str>, mods: &Modifiers) -> (a: PickerAct)
        requires
            old(self).wf(),
        ensures
            final(self).wf(),
            // the form has every key
            old(self).connect is Some ==> {
                &&& a@ == form_act(old(self).connect->0, key@)
                &&& *final(self) == (Selector {
                    connect: final(self).connect,
                    cursor: final(self).cursor,
                    ..*old(self)
                })
                &&& key@ == "escape"@ ==> final(self).connect is None && final(self).cursor == settled(
                    final(self).listed(),
                    old(self).cursor as int,
                )
                &&& key@ != "escape"@ ==> final(self).cursor == old(self).cursor && final(self).connect is Some
                &&& key@ != "escape"@ && key@ == "enter"@ ==> final(self).connect == old(self).connect
                &&& key@ != "escape"@ && key@ != "enter"@ ==> form_keyed(
                    old(self).connect->0,
                    key@,
                    match ch {
                        Some(s) => Some(s@),
                        None => None,
                    },
                    *mods,
                    final(self).connect->0,
                )
            },
            // escape leaves the renaming, else the picker
            old(self).connect is None && key@ == "escape"@ ==> if old(self).renaming is Some {
                &&& a@ == Ask::Redraw
                &&& final(self).renaming is None
                &&& final(self).filter@ == Line::empty()
                &&& *final(self) == (Selector {
                    renaming: None,
                    filter: final(self).filter,
                    label: false,
                    cursor: final(self).cursor,
                    ..*old(self)
                })
                &&& final(self).cursor == settled(final(self).listed(), old(self).cursor as int)
            } else {
                a@ == Ask::Close && *final(self) == *old(self)
            },
            old(self).connect is None && key@ != "escape"@ && key@ == "enter"@ ==> *final(self) == *old(self) && a@ == (
            if old(self).cursor < old(self).listed().len() && old(self).listed()[old(self).cursor as int].pickable() {
                Ask::Choose(old(self).listed()[old(self).cursor as int])
            } else {
                Ask::Nothing
            }),
            old(self).connect is None && key@ != "escape"@ && key@ != "enter"@ && (key@ == "up"@ || key@ == "down"@)
                ==> a@ == Ask::Redraw && *final(self) == (Selector {
                cursor: final(self).cursor,
                moved: true,
                ..*old(self)
            }) && final(self).cursor == stepped(
                old(self).listed(),
                old(self).cursor as int,
                old(self).cursor as int,
                if key@ == "up"@ {
                    -1
                } else {
                    1
                },
            ),
            // the rest is the field's
            old(self).connect is None && key@ != "escape"@ && key@ != "enter"@ && key@ != "up"@ && key@ != "down"@ ==> {
                let (line, e) = old(self).filter@.keyed(
                    key@,
                    match ch {
                        Some(s) => Some(s@),
                        None => None,
                    },
                    *mods,
                );
                &&& final(self).filter@ == line
                &&& *final(self) == (Selector { filter: final(self).filter, ..*old(self) })
                &&& a@ == (match e {
                    Edited::Changed => Ask::Typed,
                    Edited::Moved => Ask::Redraw,
                    Edited::No => Ask::Nothing,
                })
            },
    {
        if self.connect.is_some() {
            return self.key_in_form(key, ch, mods);
        }
        if same(key, "escape") {
            if self.renaming.is_some() {
                // back to the list; nothing typed is no label
                self.renaming = None;
                self.filter.clear();
                self.label = false;
                self.land_on_current();
                PickerAct::Redraw
            } else {
                PickerAct::Close
            }
        } else if same(key, "enter") {
            let rows: Vec<Row> = self.rows();
            if self.cursor < rows.len() {
                proof {
                    assert(shown(rows@)[self.cursor as int] == rows@[self.cursor as int]@);
                }
                if rows[self.cursor].pickable() {
                    return PickerAct::Choose(rows[self.cursor].copy());
                }
            }
            PickerAct::Nothing
        } else if same(key, "up") {
            self.move_cursor(-1);
            PickerAct::Redraw
        } else if same(key, "down") {
            proof {
                reveal_strlit("up");
                reveal_strlit("down");
                assert("up"@.len() != "down"@.len());
            }
            self.move_cursor(1);
            PickerAct::Redraw
        } else {
            match self.filter.key(key, ch, mods) {
                Edited::Changed => PickerAct::Typed,
                Edited::Moved => PickerAct::Redraw,
                Edited::No => PickerAct::Nothing,
            }
        }
    }
}

/// The first row that makes a session on a host, from `i` on; the end
/// where there is none.
pub open spec fn making_on(rows: Seq<Offer>, h: Place, i: int) -> int
    decreases rows.len() - i,
{
    if 0 <= i < rows.len() && !(rows[i] is Create && rows[i]->Create_1 == h) {
        making_on(rows, h, i + 1)
    } else {
        i
    }
}

fn find_making(rows: &Vec<Row>, h: &Host) -> (i: usize)
    ensures
        i == making_on(shown(rows@), h@, 0),
        i <= rows@.len(),
{
    let mut i: usize = 0;
    while i < rows.len()
        invariant
            i <= rows@.len(),
            making_on(shown(rows@), h@, i as int) == making_on(shown(rows@), h@, 0),
        decreases rows@.len() - i,
    {
        proof {
            assert(shown(rows@)[i as int] == rows@[i as int]@);
        }
        let here = match &rows[i] {
            Row::Create(_, k) => k.is(h),
            _ => false,
        };
        if here {
            return i;
        }
        i = i + 1;
    }
    i
}

/// The hosts with one more, unless it is among them.
pub open spec fn with_host(hosts: Seq<Place>, h: Place) -> Seq<Place> {
    if listed(hosts, h) {
        hosts
    } else {
        hosts.push(h)
    }
}

fn add_to(hosts: &mut Vec<Host>, h: &Host)
    ensures
        places(final(hosts)@) == with_host(places(old(hosts)@), h@),
{
    if !has_host(hosts, h) {
        let ghost before = hosts@;
        hosts.push(h.copy());
        proof {
            assert(places(hosts@) =~= places(before).push(h@));
        }
    }
}

impl Selector {
    /// A host added from the form: listed, with nothing known of it yet,
    /// the cursor on the making of a session there.
    pub fn add_host(&mut self, h: &Host)
        ensures
            *final(self) == (Selector {
                connect: None,
                hosts: final(self).hosts,
                sessions: final(self).sessions,
                cursor: final(self).cursor,
                ..*old(self)
            }),
            places(final(self).hosts@) == with_host(places(old(self).hosts@), h@),
            relisted(old(self).sessions@, h@, Heard::Seeded(Seq::empty()), final(self).sessions@),
            final(self).cursor == ({
                let rows = final(self).listed();
                let at = making_on(rows, h@, 0);
                settled(
                    rows,
                    if at < rows.len() {
                        at
                    } else {
                        0
                    },
                )
            }),
    {
        self.connect = None;
        add_to(&mut self.hosts, h);
        let none: Vec<SessionInfo> = Vec::new();
        proof {
            assert(infos(none@) =~= Seq::<Info>::empty());
        }
        self.relist(h, Loading::Seeded(none));
        let rows: Vec<Row> = self.rows();
        let at: usize = find_making(&rows, h);
        self.cursor = if at < rows.len() {
            at
        } else {
            0
        };
        self.settle();
    }
}

/// What comes of a row picked.
pub enum Choice {
    /// Nothing.
    Nothing,
    /// The new-host form is up.
    Form,
    /// The picker goes, and the window's own session takes the name.
    RenameHere(String),
    /// The picker goes, and another session takes the name.
    RenameOther(SessionUrl, String),
    /// The picker goes; the window shows the session already.
    Stay(SessionUrl),
    /// The picker goes, and the window moves to the session.
    Switch(SessionUrl),
}

/// A [`Choice`] as a value.
pub enum Chosen {
    Nothing,
    Form,
    RenameHere(Seq<char>),
    RenameOther(Url, Seq<char>),
    Stay(Url),
    Switch(Url),
}

impl View for Choice {
    type V = Chosen;

    open spec fn view(&self) -> Chosen {
        match self {
            Choice::Nothing => Chosen::Nothing,
            Choice::Form => Chosen::Form,
            Choice::RenameHere(t) => Chosen::RenameHere(t@),
            Choice::RenameOther(u, t) => Chosen::RenameOther(u@, t@),
            Choice::Stay(u) => Chosen::Stay(u@),
            Choice::Switch(u) => Chosen::Switch(u@),
        }
    }
}

fn go(u: SessionUrl, here: &SessionUrl) -> (c: Choice)
    ensures
        c@ == (if u@.is(here@) {
            Chosen::Stay(u@)
        } else {
            Chosen::Switch(u@)
        }),
{
    if u.is(here) {
        Choice::Stay(u)
    } else {
        Choice::Switch(u)
    }
}

/// What picking a row does in a window that shows `here`, with the
/// picker renaming `renaming`.
pub open spec fn choice_of(row: Offer, renaming: Option<Url>, here: Url) -> Chosen {
    let go = |u: Url|
        if u.is(here) {
            Chosen::Stay(u)
        } else {
            Chosen::Switch(u)
        };
    match row {
        Offer::Note(_) => Chosen::Nothing,
        Offer::NewHost => Chosen::Form,
        Offer::Rename(to) => match renaming {
            Some(target) if !target.is(here) => Chosen::RenameOther(target, to),
            _ => Chosen::RenameHere(to),
        },
        Offer::GoTo(u) => go(u),
        Offer::Open(u) => go(u),
        Offer::Create(u, _) => go(u),
    }
}

impl Selector {
    /// A row picked: what is to be done.  The form comes up empty, over
    /// the providers available; the rest is as it was.
    pub fn choose_row(&mut self, row: Row, here: &SessionUrl, available: Vec<String>) -> (c: Choice)
        requires
            old(self).wf(),
        ensures
            final(self).wf(),
            c@ == choice_of(
                row@,
                match old(self).renaming {
                    Some(u) => Some(u@),
                    None => None,
                },
                here@,
            ),
            row@ is NewHost ==> {
                &&& *final(self) == (Selector {
                    connect: final(self).connect,
                    filter: final(self).filter,
                    label: false,
                    ..*old(self)
                })
                &&& final(self).filter@ == Line::empty()
                &&& final(self).connect is Some
                &&& strs(final(self).connect->0.providers@) == strs(available@).filter(|p: Seq<char>| p != "local"@)
                &&& final(self).connect->0.provider == 0
                &&& final(self).connect->0.host@ == Line::empty()
                &&& final(self).connect->0.field == Field::Provider
            },
            !(row@ is NewHost) ==> *final(self) == *old(self),
    {
        match row {
            Row::Note(_) => Choice::Nothing,
            Row::NewHost => {
                self.connect = Some(Connect::new(available));
                self.filter.clear();
                self.label = false;
                Choice::Form
            },
            Row::Rename(to) => {
                if let Some(target) = &self.renaming {
                    if !target.is(here) {
                        return Choice::RenameOther(target.copy(), to);
                    }
                }
                Choice::RenameHere(to)
            },
            Row::GoTo(u) => go(u, here),
            Row::Open(u) => go(u, here),
            Row::Create(u, _) => go(u, here),
        }
    }
}

/// Of the first `n` sessions attached to lately, those not open here,
/// one per place and label (a session made anew under an old label is
/// the same tab to the eye).
pub open spec fn closed_lately(recent: Seq<Url>, tabs: Seq<Url>, n: int) -> Seq<Url>
    decreases n,
{
    if n <= 0 || n > recent.len() {
        Seq::empty()
    } else {
        let before = closed_lately(recent, tabs, n - 1);
        let u = recent[n - 1];
        if reads_among(tabs, u) || reads_among(before, u) {
            before
        } else {
            before.push(u)
        }
    }
}

/// What a host is shown to have before it answers: what it had last
/// time, and this window's own session where it is the host's.
pub open spec fn seeded(known: Seq<(Place, Info)>, h: Place, url: Url) -> Seq<Info> {
    let names = sessions_at(known, h, known.len() as int);
    if h == Place::of(url) && !(exists|i: int| 0 <= i < names.len() && h.url_of(#[trigger] names[i]).is(url)) {
        names.push(info_of(url))
    } else {
        names
    }
}

fn seed(known: &Vec<Known>, h: &Host, url: &SessionUrl) -> (r: Vec<SessionInfo>)
    ensures
        infos(r@) == seeded(had_all(known@), h@, url@),
{
    let mut names: Vec<SessionInfo> = sessions_of(known, h);
    let ghost all = infos(names@);
    if !Host::of(url).is(h) {
        return names;
    }
    let mut i: usize = 0;
    while i < names.len()
        invariant
            i <= names@.len(),
            all == infos(names@),
            forall|j: int| 0 <= j < i ==> !h@.url_of(#[trigger] all[j]).is(url@),
            all == sessions_at(had_all(known@), h@, had_all(known@).len() as int),
        decreases names@.len() - i,
    {
        proof {
            assert(all[i as int] == names@[i as int]@);
        }
        if h.url_of(&names[i]).is(url) {
            return names;
        }
        i = i + 1;
    }
    let own = info(url);
    names.push(own);
    proof {
        assert(infos(names@) =~= all.push(own@));
    }
    names
}

impl Selector {
    /// The picker as it opens in a window that shows `url`: the hosts
    /// known, and the window's own; what each had last time, shown at
    /// once; nothing typed, and the cursor on the first row worth
    /// landing on.
    pub fn open_picker(
        url: &SessionUrl,
        known_hosts: Vec<Host>,
        tabs: Vec<SessionUrl>,
        recent: &Vec<SessionUrl>,
        known: &Vec<Known>,
        epoch: u64,
    ) -> (s: Selector)
        ensures
            s.wf(),
            s.tabs == tabs,
            urls(s.closed@) == closed_lately(urls(recent@), urls(tabs@), recent@.len() as int),
            s.filter@ == Line::empty() && !s.label && !s.moved && s.renaming is None && s.connect is None,
            places(s.hosts@) == with_host(places(known_hosts@), Place::of(url@)),
            s.current@ == url@ && s.epoch == epoch,
            forall|h: Place| #[trigger]
                heard_of(s.sessions@, h) == (if listed(places(s.hosts@), h) {
                    Some(Heard::Seeded(seeded(had_all(known@), h, url@)))
                } else {
                    None
                }),
            s.cursor == settled(s.listed(), 0),
    {
        let mut hosts: Vec<Host> = known_hosts;
        add_to(&mut hosts, &Host::of(url));
        let mut closed: Vec<SessionUrl> = Vec::new();
        let mut i: usize = 0;
        proof {
            assert(urls(closed@) =~= Seq::<Url>::empty());
        }
        while i < recent.len()
            invariant
                i <= recent@.len(),
                urls(closed@) == closed_lately(urls(recent@), urls(tabs@), i as int),
            decreases recent@.len() - i,
        {
            proof {
                assert(urls(recent@)[i as int] == recent@[i as int]@);
            }
            if !is_read_among(&tabs, &recent[i]) && !is_read_among(&closed, &recent[i]) {
                let ghost before = closed@;
                closed.push(recent[i].copy());
                proof {
                    assert(urls(closed@) =~= urls(before).push(recent@[i as int]@));
                }
            }
            i = i + 1;
        }
        let none: Vec<Listing> = Vec::new();
        let mut s = Selector {
            tabs,
            closed,
            filter: LineEdit::new(),
            label: false,
            cursor: 0,
            moved: false,
            hosts,
            sessions: none,
            current: url.copy(),
            renaming: None,
            connect: None,
            epoch,
        };
        let ghost first = s;
        let mut k: usize = 0;
        while k < s.hosts.len()
            invariant
                k <= s.hosts@.len(),
                s == (Selector { sessions: s.sessions, ..first }),
                forall|h: Place| #[trigger]
                    heard_of(s.sessions@, h) == (if listed(places(s.hosts@).take(k as int), h) {
                        Some(Heard::Seeded(seeded(had_all(known@), h, url@)))
                    } else {
                        None
                    }),
            decreases s.hosts@.len() - k,
        {
            let h = s.hosts[k].copy();
            let names: Vec<SessionInfo> = seed(known, &h, url);
            let ghost all = s.sessions@;
            s.relist(&h, Loading::Seeded(names));
            proof {
                let p = places(s.hosts@);
                let fewer = p.take(k as int);
                let more = p.take(k + 1);
                assert(more =~= fewer.push(h@));
                assert forall|g: Place| #[trigger] heard_of(s.sessions@, g) == (if listed(more, g) {
                    Some(Heard::Seeded(seeded(had_all(known@), g, url@)))
                } else {
                    None
                }) by {
                    if listed(fewer, g) {
                        let j = choose|j: int| 0 <= j < fewer.len() && fewer[j] == g;
                        assert(more[j] == g);
                    }
                    if listed(more, g) && g != h@ {
                        let j = choose|j: int| 0 <= j < more.len() && more[j] == g;
                        assert(fewer[j] == g);
                    }
                    assert(more[k as int] == h@);
                    assert(g != h@ ==> heard_of(s.sessions@, g) == heard_of(all, g));
                }
            }
            k = k + 1;
        }
        proof {
            assert(places(s.hosts@).take(k as int) =~= places(s.hosts@));
        }
        s.land_on_current();
        s
    }

    /// A tab right-clicked: the picker's field is its session's new name.
    pub fn rename(&mut self, url: SessionUrl)
        requires
            old(self).wf(),
        ensures
            final(self).wf(),
            final(self).renaming == Some(url),
            final(self).filter@ == Line::empty(),
            *final(self) == (Selector {
                renaming: Some(url),
                filter: final(self).filter,
                label: false,
                cursor: 0,
                ..*old(self)
            }),
    {
        self.renaming = Some(url);
        self.filter.clear();
        self.label = false;
        self.cursor = 0;
    }
}

/// What the field says while nothing is typed in it.
pub open spec fn hint_of(renaming: Option<Url>) -> Seq<char> {
    match renaming {
        Some(u) => "New name for "@ + u.session + "\u{2026}"@,
        None => "Search a session, or type a name to make one\u{2026}"@,
    }
}

/// The picker as it is drawn: the field's hint, which row is picked, and
/// the words in place of a list that is empty.
pub struct Panel {
    pub hint: String,
    pub rows: Vec<Row>,
    pub picked: Option<usize>,
    pub empty: Option<&'static str>,
}

impl Selector {
    /// The picker as it is drawn.
    pub fn selector_panel(&self) -> (p: Panel)
        ensures
            p.hint@ == hint_of(
                match self.renaming {
                    Some(u) => Some(u@),
                    None => None,
                },
            ),
            shown(p.rows@) == self.listed(),
            p.picked == (if self.cursor < self.listed().len() && self.listed()[self.cursor as int].pickable() {
                Some(self.cursor)
            } else {
                None
            }),
            match p.empty {
                Some(w) => self.listed().len() == 0 && self.connect is None && w@ == (if self.renaming is Some {
                    "Type a name"@
                } else {
                    "Nothing matches"@
                }),
                None => self.listed().len() > 0 || self.connect is Some,
            },
    {
        let hint: String = match &self.renaming {
            Some(u) => {
                let mut h: String = "New name for ".to_owned();
                h.append(u.session.as_str());
                h.append("\u{2026}");
                h
            },
            None => "Search a session, or type a name to make one\u{2026}".to_owned(),
        };
        let rows: Vec<Row> = self.rows();
        let ghost all = shown(rows@);
        proof {
            assert(all.len() == rows@.len());
        }
        let mut picked: Option<usize> = None;
        if self.cursor < rows.len() {
            proof {
                assert(all[self.cursor as int] == rows@[self.cursor as int]@);
            }
            if rows[self.cursor].pickable() {
                picked = Some(self.cursor);
            }
        }
        let mut empty: Option<&'static str> = None;
        if rows.len() == 0 && self.connect.is_none() {
            empty = Some(
                if self.renaming.is_some() {
                    "Type a name"
                } else {
                    "Nothing matches"
                },
            );
        }
        Panel { hint, rows, picked, empty }
    }
}

/// The words under the new-host form: what enter does once a host is
/// named, or that one is to be typed.
pub open spec fn form_hint(c: Connect) -> Seq<char> {
    if c.named() is Some {
        "enter adds it and asks for its sessions  \u{b7}  \u{2190}\u{2192} providers  \u{b7}  esc back"@
    } else {
        "type the host  \u{b7}  \u{2190}\u{2192} providers  \u{b7}  esc back"@
    }
}

impl Connect {
    /// The words under the form.
    pub fn hint(&self) -> (h: &'static str)
        ensures
            h@ == form_hint(*self),
    {
        if self.host().is_some() {
            "enter adds it and asks for its sessions  \u{b7}  \u{2190}\u{2192} providers  \u{b7}  esc back"
        } else {
            "type the host  \u{b7}  \u{2190}\u{2192} providers  \u{b7}  esc back"
        }
    }

    /// A provider clicked: chosen, and the host is next.
    pub fn pick_provider(&mut self, i: usize)
        ensures
            *final(self) == (Connect { provider: i, field: Field::Host, ..*old(self) }),
    {
        self.provider = i;
        self.field = Field::Host;
    }
}

/// A session that is picked is gone to, unless it is the one here, which stays;
/// a note does nothing, and a new host is asked for in the form.
pub proof fn law_what_is_picked_is_gone_to(u: Url, h: Place, note: Seq<char>, renaming: Option<Url>, here: Url)
    ensures
        !u.is(here) ==> choice_of(Offer::GoTo(u), renaming, here) == Chosen::Switch(u) && choice_of(
            Offer::Open(u),
            renaming,
            here,
        ) == Chosen::Switch(u) && choice_of(Offer::Create(u, h), renaming, here) == Chosen::Switch(u),
        u.is(here) ==> choice_of(Offer::GoTo(u), renaming, here) == Chosen::Stay(u) && choice_of(
            Offer::Open(u),
            renaming,
            here,
        ) == Chosen::Stay(u) && choice_of(Offer::Create(u, h), renaming, here) == Chosen::Stay(u),
        choice_of(Offer::Note(note), renaming, here) == Chosen::Nothing,
        choice_of(Offer::NewHost, renaming, here) == Chosen::Form,
{
}

/// A name is given to the session that is being renamed: this window's own
/// where it is that one, or where none is.
pub proof fn law_a_name_is_given_to_what_is_renamed(to: Seq<char>, target: Url, here: Url)
    ensures
        target.is(here) ==> choice_of(Offer::Rename(to), Some(target), here) == Chosen::RenameHere(to),
        !target.is(here) ==> choice_of(Offer::Rename(to), Some(target), here) == Chosen::RenameOther(target, to),
        choice_of(Offer::Rename(to), None, here) == Chosen::RenameHere(to),
{
}

proof fn lemma_field_edits()
    ensures
        "paste"@ != "select-all"@ && "paste"@ != "copy"@ && "paste"@ != "cut"@ && "paste"@ != "undo"@,
        "select-all"@ != "copy"@ && "select-all"@ != "cut"@ && "select-all"@ != "undo"@,
        "copy"@ != "cut"@ && "copy"@ != "undo"@ && "cut"@ != "undo"@,
{
    reveal_strlit("paste");
    reveal_strlit("select-all");
    reveal_strlit("copy");
    reveal_strlit("cut");
    reveal_strlit("undo");
    assert("paste"@.len() == 5 && "select-all"@.len() == 10 && "copy"@.len() == 4 && "cut"@.len() == 3
        && "undo"@.len() == 4);
    assert("copy"@[0] == 'c' && "undo"@[0] == 'u');
}

/// Copying leaves a field as it is and gives what is selected; cutting gives
/// the same and takes it out; selecting all gives nothing and changes no text.
pub proof fn law_a_field_is_copied_and_cut(l: Line, clip: Option<Seq<char>>)
    ensures
        edited(l, "copy"@, clip).0 == l && !edited(l, "copy"@, clip).1,
        edited(l, "copy"@, clip).2 == edited(l, "cut"@, clip).2,
        l.selection() is Some ==> edited(l, "copy"@, clip).2 == Some(
            l.text.subrange((l.selection()->0).0, (l.selection()->0).1),
        ),
        l.selection() is None ==> edited(l, "copy"@, clip).2 is None && !edited(l, "cut"@, clip).1,
        l.selection() is Some ==> edited(l, "cut"@, clip).1,
        edited(l, "cut"@, clip).0 == l.taken_out(),
        edited(l, "select-all"@, clip).0 == l.all_selected() && edited(l, "select-all"@, clip).2 is None,
        edited(l, "undo"@, clip).0 == l.undone() && edited(l, "undo"@, clip).2 is None,
{
    lemma_field_edits();
}

/// What is pasted into a field is the first line of the clipboard, without the
/// white space round it, and nothing where it is blank.
pub proof fn law_one_line_is_pasted(l: Line, clip: Seq<char>)
    ensures
        edited(l, "paste"@, None) == (l, false, None::<Seq<char>>),
        lines_of(clip).len() == 0 ==> edited(l, "paste"@, Some(clip)) == (l, false, None::<Seq<char>>),
        lines_of(clip).len() > 0 && trimmed(lines_of(clip)[0]).len() > 0 ==> edited(l, "paste"@, Some(clip)) == (
            l.inserted(trimmed(lines_of(clip)[0])),
            true,
            None::<Seq<char>>,
        ),
        lines_of(clip).len() > 0 && trimmed(lines_of(clip)[0]).len() == 0 ==> edited(l, "paste"@, Some(clip)) == (
            l,
            false,
            None::<Seq<char>>,
        ),
{
}

proof fn lemma_form_keys()
    ensures
        "up"@ != "down"@ && "up"@ != "tab"@ && "up"@ != "left"@ && "up"@ != "right"@ && "up"@ != "space"@,
        "down"@ != "left"@ && "down"@ != "right"@ && "down"@ != "space"@,
        "tab"@ != "left"@ && "tab"@ != "right"@ && "tab"@ != "space"@,
        "left"@ != "right"@ && "left"@ != "space"@,
{
    reveal_strlit("up");
    reveal_strlit("down");
    reveal_strlit("tab");
    reveal_strlit("left");
    reveal_strlit("right");
    reveal_strlit("space");
    assert("up"@.len() == 2 && "down"@.len() == 4 && "tab"@.len() == 3 && "left"@.len() == 4 && "right"@.len() == 5
        && "space"@.len() == 5);
    assert("down"@[0] == 'd' && "left"@[0] == 'l');
}

/// In the new-host form up goes to the provider, and down and tab to the host;
/// on the provider right and space go to the next and left to the one before,
/// round the ends, each undoing the other.
pub proof fn law_keys_of_the_form(c: Connect, ch: Option<Seq<char>>, mods: Modifiers, after: Connect)
    requires
        c.provider < c.providers@.len(),
    ensures
        form_keyed(c, "up"@, ch, mods, after) ==> after == (Connect { field: Field::Provider, ..c }),
        form_keyed(c, "down"@, ch, mods, after) ==> after == (Connect { field: Field::Host, ..c }),
        form_keyed(c, "tab"@, ch, mods, after) ==> after == (Connect { field: Field::Host, ..c }),
        c.field == Field::Provider && form_keyed(c, "right"@, ch, mods, after) ==> after.provider == if c.provider + 1
            < c.providers@.len() {
            c.provider + 1
        } else {
            0
        },
        c.field == Field::Provider && form_keyed(c, "space"@, ch, mods, after) ==> after.provider == if c.provider + 1
            < c.providers@.len() {
            c.provider + 1
        } else {
            0
        },
        c.field == Field::Provider && form_keyed(c, "left"@, ch, mods, after) ==> after.provider == if c.provider > 0 {
            c.provider - 1
        } else {
            c.providers@.len() - 1
        },
{
    lemma_form_keys();
    let n = c.providers@.len() as int;
    assert(c.providers.len() == n);
    if c.provider + 1 < n {
        vstd::arithmetic::div_mod::lemma_small_mod((c.provider + 1) as nat, n as nat);
    } else {
        vstd::arithmetic::div_mod::lemma_mod_self_0(n);
    }
    if c.provider > 0 {
        vstd::arithmetic::div_mod::lemma_small_mod((c.provider - 1) as nat, n as nat);
    } else {
        vstd::arithmetic::div_mod::lemma_mod_add_multiples_vanish(-1, n);
        vstd::arithmetic::div_mod::lemma_small_mod((n - 1) as nat, n as nat);
    }
}

/// A typed letter takes the first provider whose name starts with it, whatever
/// the case; where none does the provider stays.
pub proof fn law_a_letter_takes_the_first_provider(providers: Seq<Seq<char>>, typed: Seq<char>, i: int)
    requires
        0 <= i <= providers.len(),
    ensures
        i <= starting(providers, typed, i) <= providers.len(),
        forall|j: int|
            i <= j < starting(providers, typed, i) ==> !stands_at(lowered(#[trigger] providers[j]), 0, lowered(typed)),
        starting(providers, typed, i) < providers.len() ==> stands_at(
            lowered(providers[starting(providers, typed, i)]),
            0,
            lowered(typed),
        ),
    decreases providers.len() - i,
{
    if i < providers.len() && !stands_at(lowered(providers[i]), 0, lowered(typed)) {
        law_a_letter_takes_the_first_provider(providers, typed, i + 1);
    }
}

/// A session that ended is taken from what its host had, and no other is.
pub proof fn law_only_what_ended_is_taken(h: Place, s: Seq<Info>, gone: Url, n: int)
    requires
        0 <= n <= s.len(),
    ensures
        forall|i: int|
            0 <= i < without(h, s, gone, n).len() ==> !h.url_of(#[trigger] without(h, s, gone, n)[i]).is(gone),
        forall|i: int|
            0 <= i < n && !h.url_of(#[trigger] s[i]).is(gone) ==> without(h, s, gone, n).contains(s[i]),
        without(h, s, gone, n).len() <= n,
        (forall|i: int| 0 <= i < n ==> !h.url_of(#[trigger] s[i]).is(gone)) ==> without(h, s, gone, n) == s.take(n),
    decreases n,
{
    if n > 0 {
        law_only_what_ended_is_taken(h, s, gone, n - 1);
        let before = without(h, s, gone, n - 1);
        let all = without(h, s, gone, n);
        assert forall|i: int| 0 <= i < n && !h.url_of(#[trigger] s[i]).is(gone) implies all.contains(s[i]) by {
            if i < n - 1 {
                assert(before.contains(s[i]));
                let k = choose|k: int| 0 <= k < before.len() && before[k] == s[i];
                assert(all[k] == s[i]);
            } else {
                assert(all[all.len() - 1] == s[i]);
            }
        }
        if forall|i: int| 0 <= i < n ==> !h.url_of(#[trigger] s[i]).is(gone) {
            assert(!h.url_of(s[n - 1]).is(gone));
            assert(all =~= s.take(n));
        }
    } else {
        assert(without(h, s, gone, 0) =~= s.take(0));
    }
}

/// A host is added at the end, and once.
pub proof fn law_a_host_is_added_once(hosts: Seq<Place>, h: Place)
    ensures
        hosts.contains(h) ==> with_host(hosts, h) == hosts,
        !hosts.contains(h) ==> with_host(hosts, h) == hosts.push(h),
        with_host(hosts, h).contains(h),
        with_host(with_host(hosts, h), h) == with_host(hosts, h),
{
    let w = with_host(hosts, h);
    if !hosts.contains(h) {
        assert(w[w.len() - 1] == h);
    }
}

} // verus!
