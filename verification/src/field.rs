//! A one-line text field for the overlays (the session picker, its
//! new-host form, the finder): a cursor, a selection, and the editing
//! keys a Mac text field answers -- arrows with shift, option and
//! command, delete forward and back, the emacs control keys, select
//! all, cut, copy, paste and undo.

use vstd::prelude::*;
use vstd::string::*;

use crate::keys::Modifiers;
use crate::text::{is_alphanumeric, is_control, same, splice};

verus! {

/// How many states a field can be taken back through.
pub const UNDO_DEPTH: usize = 64;

/// A field: its text, the cursor, the selection's other end, and the
/// states that undo goes back to.
pub struct LineEdit {
    pub text: String,
    /// The cursor, in characters.
    pub cursor: usize,
    /// The other end of the selection, when there is one.
    pub anchor: Option<usize>,
    /// The states to go back to, oldest first: a text and its cursor.
    pub undo: Vec<(String, usize)>,
}

/// What a key did to the field.
#[derive(Clone, Copy, Debug, PartialEq, Eq, Structural)]
pub enum Edited {
    /// The text changed.
    Changed,
    /// The cursor or selection moved.
    Moved,
    /// Not an editing key.
    No,
}

/// A field as a value: the text is a sequence of characters, and the
/// states to go back to are oldest first.
#[verifier::ext_equal]
pub struct Line {
    pub text: Seq<char>,
    pub cursor: int,
    pub anchor: Option<int>,
    pub undo: Seq<(Seq<char>, int)>,
}

/// A character of a word.
pub open spec fn word(c: char) -> bool {
    crate::text::alphanumeric(c) || c == '_'
}

/// From `i` back over characters that are not a word's.
pub open spec fn skip_gap_left(s: Seq<char>, i: int) -> int
    decreases i,
{
    if 0 < i <= s.len() && !word(s[i - 1]) {
        skip_gap_left(s, i - 1)
    } else {
        i
    }
}

/// From `i` back over a word's characters.
pub open spec fn skip_word_left(s: Seq<char>, i: int) -> int
    decreases i,
{
    if 0 < i <= s.len() && word(s[i - 1]) {
        skip_word_left(s, i - 1)
    } else {
        i
    }
}

/// From `i` on over characters that are not a word's.
pub open spec fn skip_gap_right(s: Seq<char>, i: int) -> int
    decreases s.len() - i,
{
    if 0 <= i < s.len() && !word(s[i]) {
        skip_gap_right(s, i + 1)
    } else {
        i
    }
}

/// From `i` on over a word's characters.
pub open spec fn skip_word_right(s: Seq<char>, i: int) -> int
    decreases s.len() - i,
{
    if 0 <= i < s.len() && word(s[i]) {
        skip_word_right(s, i + 1)
    } else {
        i
    }
}

/// The lesser of the two.
pub open spec fn lesser(a: int, b: int) -> int {
    if a <= b {
        a
    } else {
        b
    }
}

impl Line {
    /// The cursor and the selection's other end are in the text, and so is
    /// the cursor of every state to go back to, of which there are
    /// `UNDO_DEPTH` at the most.
    pub open spec fn valid(self) -> bool {
        &&& 0 <= self.cursor <= self.text.len()
        &&& self.anchor matches Some(a) ==> 0 <= a <= self.text.len()
        &&& self.undo.len() <= UNDO_DEPTH
        &&& forall|i: int| 0 <= i < self.undo.len() ==> 0 <= (#[trigger] self.undo[i]).1 <= self.undo[i].0.len()
    }

    /// The selection as an ordered, non-empty range of characters.
    pub open spec fn selection(self) -> Option<(int, int)> {
        match self.anchor {
            Some(a) => if a < self.cursor {
                Some((a, self.cursor))
            } else if self.cursor < a {
                Some((self.cursor, a))
            } else {
                None
            },
            None => None,
        }
    }

    /// The states to go back to, and this one; the oldest goes when there
    /// are too many.
    pub open spec fn kept(self) -> Seq<(Seq<char>, int)> {
        let all = self.undo.push((self.text, self.cursor));
        if all.len() > UNDO_DEPTH {
            all.skip(1)
        } else {
            all
        }
    }

    /// The text from `a` to `z` replaced by `s`, the cursor after it and
    /// nothing selected.  This state is one to go back to.
    pub open spec fn replaced(self, a: int, z: int, s: Seq<char>) -> Line {
        Line {
            text: self.text.take(a) + s + self.text.skip(z),
            cursor: a + s.len(),
            anchor: None,
            undo: self.kept(),
        }
    }

    /// The selection, or what lies from `a` to `z` where nothing is
    /// selected, replaced by `s`.
    pub open spec fn selection_or(self, a: int, z: int, s: Seq<char>) -> Line {
        match self.selection() {
            Some((lo, hi)) => self.replaced(lo, hi, s),
            None => self.replaced(a, z, s),
        }
    }

    /// `s` typed over the selection.
    pub open spec fn inserted(self, s: Seq<char>) -> Line {
        self.selection_or(self.cursor, self.cursor, s)
    }

    /// The text from `from` to the cursor erased, or the selection.
    pub open spec fn erased_back_to(self, from: int) -> Line {
        self.selection_or(from, self.cursor, Seq::empty())
    }

    /// The character before the cursor erased, or the selection.
    pub open spec fn backspaced(self) -> Line {
        self.erased_back_to(if self.cursor == 0 { 0 } else { self.cursor - 1 })
    }

    /// The text from the cursor up to `to` erased, as far as it reaches, or
    /// the selection.
    pub open spec fn erased_on_to(self, to: int) -> Line {
        self.selection_or(self.cursor, lesser(to, self.text.len() as int), Seq::empty())
    }

    /// What an editing key that makes this field into `after` comes to, and
    /// says it did.  One that leaves the text as it is is no state to go
    /// back to.
    pub open spec fn edit(self, after: Line) -> (Line, Edited) {
        if after.text == self.text {
            (Line { undo: self.undo, ..after }, Edited::Moved)
        } else {
            (after, Edited::Changed)
        }
    }

    /// What an edit that makes this field into `after` comes to, by a key or
    /// not.
    pub open spec fn done(self, after: Line, by_key: bool) -> Line {
        if by_key {
            self.edit(after).0
        } else {
            after
        }
    }

    /// The selection taken out; the same field when nothing is selected.
    pub open spec fn taken_out(self) -> Line {
        match self.selection() {
            Some((a, z)) => self.replaced(a, z, Seq::empty()),
            None => self,
        }
    }

    /// The cursor put at `p`, or the end; the selection extended from
    /// where it was, or dropped.
    pub open spec fn moved(self, p: int, extend: bool) -> Line {
        Line {
            cursor: lesser(p, self.text.len() as int),
            anchor: if !extend {
                None
            } else if self.anchor is None {
                Some(self.cursor)
            } else {
                self.anchor
            },
            ..self
        }
    }

    /// Everything selected.
    pub open spec fn all_selected(self) -> Line {
        Line { anchor: Some(0), cursor: self.text.len() as int, ..self }
    }

    /// Back to the state last kept, if there is one.
    pub open spec fn undone(self) -> Line {
        if self.undo.len() == 0 {
            self
        } else {
            Line {
                text: self.undo.last().0,
                cursor: lesser(self.undo.last().1, self.undo.last().0.len() as int),
                anchor: None,
                undo: self.undo.drop_last(),
            }
        }
    }

    /// The start of the word before the cursor, what is not a word
    /// skipped first.
    pub open spec fn word_left(self) -> int {
        skip_word_left(self.text, skip_gap_left(self.text, self.cursor))
    }

    /// The end of the word after the cursor, what is not a word skipped
    /// first.
    pub open spec fn word_right(self) -> int {
        skip_word_right(self.text, skip_gap_right(self.text, self.cursor))
    }

    /// What a key held with control does.
    pub open spec fn control_key(self, key: Seq<char>, extend: bool) -> (Line, Edited) {
        if key == "a"@ {
            (self.moved(0, extend), Edited::Moved)
        } else if key == "e"@ {
            (self.moved(self.text.len() as int, extend), Edited::Moved)
        } else if key == "b"@ {
            (self.moved(if self.cursor == 0 { 0 } else { self.cursor - 1 }, extend), Edited::Moved)
        } else if key == "f"@ {
            (self.moved(self.cursor + 1, extend), Edited::Moved)
        } else if key == "d"@ {
            self.edit(self.erased_on_to(self.cursor + 1))
        } else if key == "h"@ {
            self.edit(self.backspaced())
        } else if key == "u"@ {
            self.edit(self.erased_back_to(0))
        } else if key == "w"@ {
            self.edit(self.erased_back_to(self.word_left()))
        } else if key == "k"@ {
            self.edit(self.erased_on_to(self.text.len() as int))
        } else {
            (self, Edited::No)
        }
    }

    /// Where the left arrow takes the cursor.
    pub open spec fn left_of(self, mods: Modifiers) -> int {
        if mods.platform {
            0
        } else if mods.alt {
            self.word_left()
        } else if !mods.shift && self.selection() is Some {
            ({ let (a, _) = self.selection()->0; a })
        } else if self.cursor == 0 {
            0
        } else {
            self.cursor - 1
        }
    }

    /// Where the right arrow takes the cursor.
    pub open spec fn right_of(self, mods: Modifiers) -> int {
        if mods.platform {
            self.text.len() as int
        } else if mods.alt {
            self.word_right()
        } else if !mods.shift && self.selection() is Some {
            ({ let (_, z) = self.selection()->0; z })
        } else {
            self.cursor + 1
        }
    }

    /// What a key does, and what it says it did.
    pub open spec fn keyed(self, key: Seq<char>, ch: Option<Seq<char>>, mods: Modifiers) -> (Line, Edited) {
        if mods.control {
            self.control_key(key, mods.shift)
        } else if key == "left"@ {
            (self.moved(self.left_of(mods), mods.shift), Edited::Moved)
        } else if key == "right"@ {
            (self.moved(self.right_of(mods), mods.shift), Edited::Moved)
        } else if key == "home"@ {
            (self.moved(0, mods.shift), Edited::Moved)
        } else if key == "end"@ {
            (self.moved(self.text.len() as int, mods.shift), Edited::Moved)
        } else if key == "backspace"@ {
            if mods.platform {
                self.edit(self.erased_back_to(0))
            } else if mods.alt {
                self.edit(self.erased_back_to(self.word_left()))
            } else {
                self.edit(self.backspaced())
            }
        } else if key == "delete"@ {
            self.edit(self.erased_on_to(self.cursor + 1))
        } else if !mods.platform && ch is Some && typed(ch->0) {
            self.edit(self.inserted(ch->0))
        } else {
            (self, Edited::No)
        }
    }
}

/// Undo takes `after` back to `before`: its text and its cursor, with
/// nothing selected.
pub open spec fn taken_back(before: Line, after: Line) -> bool {
    &&& after.undo.len() > 0
    &&& after.undone().text == before.text
    &&& after.undone().cursor == before.cursor
    &&& after.undone().anchor is None
}

/// Text that a key types: some characters, none of them a control code.
pub open spec fn typed(s: Seq<char>) -> bool {
    s.len() > 0 && forall|i: int| 0 <= i < s.len() ==> !crate::text::control(#[trigger] s[i])
}

/// The characters that a key stands for, where it stands for some.
pub open spec fn characters(ch: Option<&str>) -> Option<Seq<char>> {
    match ch {
        Some(c) => Some(c@),
        None => None,
    }
}

/// An anchor as a value.
pub open spec fn anchor_of(a: Option<usize>) -> Option<int> {
    match a {
        Some(a) => Some(a as int),
        None => None,
    }
}

impl View for LineEdit {
    type V = Line;

    open spec fn view(&self) -> Line {
        Line {
            text: self.text@,
            cursor: self.cursor as int,
            anchor: anchor_of(self.anchor),
            undo: Seq::new(self.undo@.len(), |i: int| (self.undo@[i].0@, self.undo@[i].1 as int)),
        }
    }
}

proof fn lemma_skip_gap_left(s: Seq<char>, i: int)
    requires
        0 <= i <= s.len(),
    ensures
        0 <= skip_gap_left(s, i) <= i,
    decreases i,
{
    if i > 0 && !word(s[i - 1]) {
        lemma_skip_gap_left(s, i - 1);
    }
}

proof fn lemma_skip_word_left(s: Seq<char>, i: int)
    requires
        0 <= i <= s.len(),
    ensures
        0 <= skip_word_left(s, i) <= i,
    decreases i,
{
    if i > 0 && word(s[i - 1]) {
        lemma_skip_word_left(s, i - 1);
    }
}

proof fn lemma_skip_gap_right(s: Seq<char>, i: int)
    requires
        0 <= i <= s.len(),
    ensures
        i <= skip_gap_right(s, i) <= s.len(),
    decreases s.len() - i,
{
    if i < s.len() && !word(s[i]) {
        lemma_skip_gap_right(s, i + 1);
    }
}

proof fn lemma_skip_word_right(s: Seq<char>, i: int)
    requires
        0 <= i <= s.len(),
    ensures
        i <= skip_word_right(s, i) <= s.len(),
    decreases s.len() - i,
{
    if i < s.len() && word(s[i]) {
        lemma_skip_word_right(s, i + 1);
    }
}

/// The word before the cursor starts at or before it, and the word after
/// ends at or after it, in the text both times.
pub proof fn law_words_stand_either_side(l: Line)
    requires
        l.valid(),
    ensures
        0 <= l.word_left() <= l.cursor <= l.word_right() <= l.text.len(),
{
    lemma_skip_gap_left(l.text, l.cursor);
    lemma_skip_word_left(l.text, skip_gap_left(l.text, l.cursor));
    lemma_skip_gap_right(l.text, l.cursor);
    lemma_skip_word_right(l.text, skip_gap_right(l.text, l.cursor));
}

/// A selection is an ordered, non-empty range of the text's characters.
pub proof fn law_a_selection_is_of_the_text(l: Line)
    requires
        l.valid(),
    ensures
        l.selection() matches Some((a, z)) ==> 0 <= a < z <= l.text.len(),
{
}

proof fn lemma_replaced_is_valid(l: Line, a: int, z: int, s: Seq<char>)
    requires
        l.valid(),
        0 <= a <= z <= l.text.len(),
    ensures
        l.replaced(a, z, s).valid(),
{
}

/// An edit is taken back by undo, whatever it did to the text: there is a
/// state to go back to, and it is the text and the cursor from before, with
/// nothing selected.
pub proof fn law_undo_takes_an_edit_back(l: Line, s: Seq<char>)
    requires
        l.valid(),
    ensures
        taken_back(l, l.inserted(s)),
        taken_back(l, l.backspaced()),
        taken_back(l, l.erased_on_to(l.cursor + 1)),
        l.selection() is Some ==> taken_back(l, l.taken_out()),
{
    lemma_kept_is_gone_back_to(l, l.inserted(s));
    lemma_kept_is_gone_back_to(l, l.backspaced());
    lemma_kept_is_gone_back_to(l, l.erased_on_to(l.cursor + 1));
    if l.selection() is Some {
        lemma_kept_is_gone_back_to(l, l.taken_out());
    }
}

/// The selection goes with what is taken out of it, and can be put back.
pub proof fn law_what_is_cut_can_be_put_back(l: Line)
    requires
        l.valid(),
        l.selection() is Some,
    ensures
        l.taken_out().selection() is None,
        l.taken_out().inserted(l.text.subrange((l.selection()->0).0, (l.selection()->0).1)).text == l.text,
{
    let (a, z) = l.selection()->0;
    let out = l.taken_out();
    let s = l.text.subrange(a, z);
    assert(out.inserted(s).text =~= l.text);
}

proof fn lemma_moved_is_valid(l: Line, p: int, extend: bool)
    requires
        l.valid(),
        0 <= p,
    ensures
        l.moved(p, extend).valid(),
{
}

/// A valid field stays valid whatever key it is given.
pub proof fn law_keys_keep_the_field_valid(l: Line, key: Seq<char>, ch: Option<Seq<char>>, mods: Modifiers)
    requires
        l.valid(),
    ensures
        l.keyed(key, ch, mods).0.valid(),
{
    law_words_stand_either_side(l);
    assert forall|p: int, e: bool| 0 <= p implies #[trigger] l.moved(p, e).valid() by {
        lemma_moved_is_valid(l, p, e);
    }
    assert forall|a: int, z: int, s: Seq<char>| 0 <= a <= z <= l.text.len() implies #[trigger] l.replaced(
        a,
        z,
        s,
    ).valid() by {
        lemma_replaced_is_valid(l, a, z, s);
    }
}

proof fn lemma_a_change_is_kept(l: Line, key: Seq<char>, ch: Option<Seq<char>>, mods: Modifiers)
    requires
        l.keyed(key, ch, mods).1 == Edited::Changed,
    ensures
        l.keyed(key, ch, mods).0.undo == l.kept(),
{
}

proof fn lemma_kept_is_gone_back_to(l: Line, after: Line)
    requires
        l.valid(),
        after.undo == l.kept(),
    ensures
        taken_back(l, after),
{
    assert(l.kept().last() == (l.text, l.cursor));
}

/// A key that changes the text can be taken back.
pub proof fn law_undo_takes_a_key_back(l: Line, key: Seq<char>, ch: Option<Seq<char>>, mods: Modifiers)
    requires
        l.valid(),
        l.keyed(key, ch, mods).1 == Edited::Changed,
    ensures
        taken_back(l, l.keyed(key, ch, mods).0),
{
    lemma_a_change_is_kept(l, key, ch, mods);
    lemma_kept_is_gone_back_to(l, l.keyed(key, ch, mods).0);
}

/// A key says that the text changed where it did, and nowhere else; one
/// that leaves it leaves what can be gone back to alone too, and one that
/// is no editing key leaves everything.
pub proof fn law_only_changes_change_the_text(l: Line, key: Seq<char>, ch: Option<Seq<char>>, mods: Modifiers)
    ensures
        l.keyed(key, ch, mods).1 == Edited::Changed <==> l.keyed(key, ch, mods).0.text != l.text,
        l.keyed(key, ch, mods).1 != Edited::Changed ==> l.keyed(key, ch, mods).0.undo == l.undo,
        l.keyed(key, ch, mods).1 == Edited::No ==> l.keyed(key, ch, mods).0 == l,
{
}

/// Text typed stands before the cursor, with nothing selected.
pub proof fn law_what_is_typed_is_there(l: Line, s: Seq<char>)
    requires
        l.valid(),
    ensures
        l.inserted(s).anchor is None,
        s.len() <= l.inserted(s).cursor <= l.inserted(s).text.len(),
        l.inserted(s).text.subrange(l.inserted(s).cursor - s.len(), l.inserted(s).cursor) == s,
        l.selection() is None ==> l.inserted(s).text.len() == l.text.len() + s.len(),
{
    let at = l.inserted(s).cursor - s.len();
    assert(l.inserted(s).text.subrange(at, at + s.len()) =~= s);
}

impl Line {
    /// An empty field, with nothing to go back to.
    pub open spec fn empty() -> Line {
        Line { text: Seq::empty(), cursor: 0, anchor: None, undo: Seq::empty() }
    }
}

impl LineEdit {
    /// The field is one that its operations can be asked of.
    pub open spec fn wf(&self) -> bool {
        self@.valid()
    }

    /// An empty field.
    pub fn new() -> (e: LineEdit)
        ensures
            e@ == Line::empty(),
            e.wf(),
    {
        let e = LineEdit { text: String::new(), cursor: 0, anchor: None, undo: Vec::new() };
        proof {
            assert(e@.undo =~= Seq::empty());
        }
        e
    }

    /// A field that holds `s`, the cursor at its end.
    pub fn of(s: &str) -> (e: LineEdit)
        ensures
            e@ == (Line { text: s@, cursor: s@.len() as int, anchor: None, undo: Seq::empty() }),
            e.wf(),
    {
        let mut e = LineEdit::new();
        e.set(s);
        e
    }

    /// The text.
    pub fn as_str(&self) -> (s: &str)
        ensures
            s@ == self@.text,
    {
        self.text.as_str()
    }

    /// Whether there is no text.
    pub fn is_empty(&self) -> (b: bool)
        ensures
            b == (self@.text.len() == 0),
    {
        self.text.as_str().is_empty()
    }

    /// The text put in place of the text there is, the cursor at its end.
    pub fn set(&mut self, s: &str)
        requires
            old(self).wf(),
        ensures
            final(self)@ == (Line { text: s@, cursor: s@.len() as int, anchor: None, undo: old(self)@.undo }),
            final(self).wf(),
    {
        self.text = s.to_owned();
        self.cursor = self.len();
        self.anchor = None;
        proof {
            assert(self@.undo =~= old(self)@.undo);
        }
    }

    /// Emptied, with nothing to go back to.
    pub fn clear(&mut self)
        requires
            old(self).wf(),
        ensures
            final(self)@ == Line::empty(),
            final(self).wf(),
    {
        self.text = String::new();
        self.cursor = 0;
        self.anchor = None;
        self.undo = Vec::new();
        proof {
            assert(self@.undo =~= Seq::empty());
        }
    }

    /// How many characters the text has.
    pub fn len(&self) -> (n: usize)
        ensures
            n == self@.text.len(),
    {
        self.text.as_str().unicode_len()
    }

    /// The selection as an ordered, non-empty range of characters.
    pub fn selection(&self) -> (r: Option<(usize, usize)>)
        ensures
            r is Some == self@.selection() is Some,
            r matches Some((a, z)) ==> self@.selection() == Some((a as int, z as int)),
            r matches Some((a, z)) ==> a < z && (self.wf() ==> z <= self@.text.len()),
    {
        match self.anchor {
            Some(a) => if a < self.cursor {
                Some((a, self.cursor))
            } else if self.cursor < a {
                Some((self.cursor, a))
            } else {
                None
            },
            None => None,
        }
    }

    /// What is selected.
    pub fn selected(&self) -> (r: Option<String>)
        requires
            self.wf(),
        ensures
            r is Some == self@.selection() is Some,
            r matches Some(s) ==> ({
                let (a, z) = self@.selection()->0;
                s@ == self@.text.subrange(a, z)
            }),
    {
        match self.selection() {
            Some((a, z)) => Some(String::from_str(self.text.as_str().substring_char(a, z))),
            None => None,
        }
    }

    /// The text from `a` to `z` replaced by `s`.  This state is kept to go
    /// back to; for a key, only where the text is another then.
    fn replace(&mut self, a: usize, z: usize, s: &str, by_key: bool)
        requires
            old(self).wf(),
            a <= z <= old(self)@.text.len(),
        ensures
            final(self)@ == old(self)@.done(old(self)@.replaced(a as int, z as int, s@), by_key),
            final(self).wf(),
    {
        let text: String = splice(self.text.as_str(), a, z, s);
        if !by_key || !same(text.as_str(), self.text.as_str()) {
            self.undo.push((self.text.clone(), self.cursor));
            if self.undo.len() > UNDO_DEPTH {
                self.undo.remove(0);
            }
            proof {
                assert(self@.undo =~= old(self)@.kept());
            }
        }
        let total: usize = text.as_str().unicode_len();
        let n: usize = s.unicode_len();
        proof {
            lemma_replaced_is_valid(old(self)@, a as int, z as int, s@);
            assert(text@ =~= old(self)@.replaced(a as int, z as int, s@).text);
            assert(a + n <= total);
        }
        self.text = text;
        self.cursor = a + n;
        self.anchor = None;
        proof {
            assert(self@ =~= old(self)@.done(old(self)@.replaced(a as int, z as int, s@), by_key));
        }
    }

    /// The selection, or from `a` to `z`, replaced by `s`.
    fn replace_selection_or(&mut self, a: usize, z: usize, s: &str, by_key: bool)
        requires
            old(self).wf(),
            a <= z <= old(self)@.text.len(),
        ensures
            final(self)@ == old(self)@.done(old(self)@.selection_or(a as int, z as int, s@), by_key),
            final(self).wf(),
    {
        match self.selection() {
            Some((lo, hi)) => self.replace(lo, hi, s, by_key),
            None => self.replace(a, z, s, by_key),
        }
    }

    /// `s` in place of the selection, the cursor after it.
    pub fn insert(&mut self, s: &str)
        requires
            old(self).wf(),
        ensures
            final(self)@ == old(self)@.inserted(s@),
            final(self).wf(),
    {
        let at: usize = self.cursor;
        self.replace_selection_or(at, at, s, false);
    }

    /// The character before the cursor erased, or the selection.
    pub fn backspace(&mut self)
        requires
            old(self).wf(),
        ensures
            final(self)@ == old(self)@.backspaced(),
            final(self).wf(),
    {
        let from: usize = self.previous();
        self.erase_back_to(from, false);
    }

    /// The character after the cursor erased, or the selection.
    pub fn delete(&mut self)
        requires
            old(self).wf(),
        ensures
            final(self)@ == old(self)@.erased_on_to(old(self)@.cursor + 1),
            final(self).wf(),
    {
        let to: usize = self.next();
        self.erase_on_to(to, false);
    }

    /// Erase from the cursor to `to` (^K to the end, ^D a character).
    fn erase_on_to(&mut self, to: usize, by_key: bool)
        requires
            old(self).wf(),
            old(self)@.cursor <= to <= old(self)@.text.len(),
        ensures
            final(self)@ == old(self)@.done(old(self)@.erased_on_to(to as int), by_key),
            final(self).wf(),
    {
        let at: usize = self.cursor;
        proof {
            reveal_strlit("");
            assert(""@ =~= Seq::empty());
        }
        self.replace_selection_or(at, to, "", by_key);
    }

    /// Erase from `from` to the cursor (^U to the start, ^W a word).
    fn erase_back_to(&mut self, from: usize, by_key: bool)
        requires
            old(self).wf(),
            from <= old(self)@.cursor,
        ensures
            final(self)@ == old(self)@.done(old(self)@.erased_back_to(from as int), by_key),
            final(self).wf(),
    {
        let at: usize = self.cursor;
        proof {
            reveal_strlit("");
            assert(""@ =~= Seq::empty());
        }
        self.replace_selection_or(from, at, "", by_key);
    }

    fn is_word(c: char) -> (r: bool)
        ensures
            r == word(c),
    {
        is_alphanumeric(c) || c == '_'
    }

    /// The start of the word before the cursor (non-word characters
    /// skipped first), as option-left and ^W count it.
    pub fn word_left(&self) -> (r: usize)
        requires
            self.wf(),
        ensures
            r == self@.word_left(),
            r <= self@.cursor,
    {
        let chars: Vec<char> = crate::text::chars_of(self.text.as_str());
        let mut i: usize = self.cursor;
        while i > 0 && !Self::is_word(chars[i - 1])
            invariant
                i <= self.cursor <= chars@.len(),
                chars@ == self@.text,
                skip_gap_left(chars@, i as int) == skip_gap_left(chars@, self.cursor as int),
            decreases i,
        {
            i = i - 1;
        }
        let ghost mid = i as int;
        while i > 0 && Self::is_word(chars[i - 1])
            invariant
                i <= mid <= self.cursor <= chars@.len(),
                chars@ == self@.text,
                skip_word_left(chars@, i as int) == skip_word_left(chars@, mid),
            decreases i,
        {
            i = i - 1;
        }
        i
    }

    /// The end of the word after the cursor.
    pub fn word_right(&self) -> (r: usize)
        requires
            self.wf(),
        ensures
            r == self@.word_right(),
            self@.cursor <= r <= self@.text.len(),
    {
        let chars: Vec<char> = crate::text::chars_of(self.text.as_str());
        let mut i: usize = self.cursor;
        while i < chars.len() && !Self::is_word(chars[i])
            invariant
                self.cursor <= i <= chars@.len(),
                chars@ == self@.text,
                skip_gap_right(chars@, i as int) == skip_gap_right(chars@, self.cursor as int),
            decreases chars@.len() - i,
        {
            i = i + 1;
        }
        let ghost mid = i as int;
        while i < chars.len() && Self::is_word(chars[i])
            invariant
                self.cursor <= mid <= i <= chars@.len(),
                chars@ == self@.text,
                skip_word_right(chars@, i as int) == skip_word_right(chars@, mid),
            decreases chars@.len() - i,
        {
            i = i + 1;
        }
        i
    }

    fn move_to(&mut self, p: usize, extend: bool)
        requires
            old(self).wf(),
        ensures
            final(self)@ == old(self)@.moved(p as int, extend),
            final(self).wf(),
    {
        let n: usize = self.len();
        let p: usize = if p < n {
            p
        } else {
            n
        };
        if extend {
            if self.anchor.is_none() {
                self.anchor = Some(self.cursor);
            }
        } else {
            self.anchor = None;
        }
        self.cursor = p;
        proof {
            assert(self@.undo =~= old(self)@.undo);
        }
    }

    /// Everything selected.
    pub fn select_all(&mut self)
        requires
            old(self).wf(),
        ensures
            final(self)@ == old(self)@.all_selected(),
            final(self).wf(),
    {
        self.anchor = Some(0);
        self.cursor = self.len();
        proof {
            assert(self@.undo =~= old(self)@.undo);
        }
    }

    /// What is selected, taken out; nothing, and nothing done, when
    /// nothing is.
    pub fn cut(&mut self) -> (r: Option<String>)
        requires
            old(self).wf(),
        ensures
            final(self).wf(),
            r is Some == old(self)@.selection() is Some,
            r matches Some(s) ==> ({
                let (a, z) = old(self)@.selection()->0;
                s@ == old(self)@.text.subrange(a, z)
            }),
            final(self)@ == old(self)@.taken_out(),
    {
        match self.selection() {
            Some((a, z)) => {
                let s: Option<String> = self.selected();
                proof {
                    reveal_strlit("");
                    assert(""@ =~= Seq::empty());
                }
                self.replace(a, z, "", false);
                s
            },
            None => None,
        }
    }

    /// Back to the state last kept; false when there is none.
    pub fn undo(&mut self) -> (did: bool)
        requires
            old(self).wf(),
        ensures
            did == (old(self)@.undo.len() > 0),
            final(self)@ == old(self)@.undone(),
            final(self).wf(),
    {
        match self.undo.pop() {
            Some((text, cursor)) => {
                self.text = text;
                self.cursor = cursor;
                self.anchor = None;
                proof {
                    let last = old(self)@.undo.last();
                    assert(last == (self.text@, cursor as int));
                    assert(self@.undo =~= old(self)@.undo.drop_last());
                    assert(self@ =~= old(self)@.undone());
                    assert forall|i: int| 0 <= i < self@.undo.len() implies 0 <= (#[trigger] self@.undo[i]).1
                        <= self@.undo[i].0.len() by {
                        assert(self@.undo[i] == old(self)@.undo[i]);
                    }
                }
                true
            },
            None => false,
        }
    }

    /// One place on, or the end.
    fn next(&self) -> (p: usize)
        requires
            self.wf(),
        ensures
            p == lesser(self@.cursor + 1, self@.text.len() as int),
    {
        let n: usize = self.len();
        if self.cursor < n {
            self.cursor + 1
        } else {
            n
        }
    }

    /// One place back, or the start.
    fn previous(&self) -> (p: usize)
        ensures
            p == (if self@.cursor == 0 {
                0
            } else {
                self@.cursor - 1
            }),
    {
        if self.cursor == 0 {
            0
        } else {
            self.cursor - 1
        }
    }

    fn key_with_control(&mut self, key: &str, ext: bool) -> (r: bool)
        requires
            old(self).wf(),
        ensures
            final(self)@ == old(self)@.control_key(key@, ext).0,
            r == (old(self)@.control_key(key@, ext).1 != Edited::No),
            final(self).wf(),
    {
        if same(key, "a") {
            self.move_to(0, ext);
        } else if same(key, "e") {
            let n: usize = self.len();
            self.move_to(n, ext);
        } else if same(key, "b") {
            let p: usize = self.previous();
            self.move_to(p, ext);
        } else if same(key, "f") {
            let p: usize = self.next();
            self.move_to(p, ext);
        } else if same(key, "d") {
            let to: usize = self.next();
            self.erase_on_to(to, true);
        } else if same(key, "h") {
            let from: usize = self.previous();
            self.erase_back_to(from, true);
        } else if same(key, "u") {
            self.erase_back_to(0, true);
        } else if same(key, "w") {
            let w: usize = self.word_left();
            self.erase_back_to(w, true);
        } else if same(key, "k") {
            let n: usize = self.len();
            self.erase_on_to(n, true);
        } else {
            return false;
        }
        true
    }

    fn left(&self, mods: &Modifiers) -> (p: usize)
        requires
            self.wf(),
        ensures
            p == self@.left_of(*mods),
    {
        if mods.platform {
            0
        } else if mods.alt {
            self.word_left()
        } else {
            match (self.selection(), mods.shift) {
                (Some((a, _)), false) => a,
                _ => self.previous(),
            }
        }
    }

    fn right(&self, mods: &Modifiers) -> (p: usize)
        requires
            self.wf(),
        ensures
            lesser(p as int, self@.text.len() as int) == lesser(self@.right_of(*mods), self@.text.len() as int),
    {
        if mods.platform {
            self.len()
        } else if mods.alt {
            self.word_right()
        } else {
            match (self.selection(), mods.shift) {
                (Some((_, z)), false) => z,
                _ => self.next(),
            }
        }
    }

    /// A key's work, if it is an editing key; false if not.
    fn work(&mut self, key: &str, ch: Option<&str>, mods: &Modifiers) -> (r: bool)
        requires
            old(self).wf(),
        ensures
            final(self)@ == old(self)@.keyed(key@, characters(ch), *mods).0,
            r == (old(self)@.keyed(key@, characters(ch), *mods).1 != Edited::No),
            final(self).wf(),
    {
        let ext = mods.shift;
        if mods.control {
            return self.key_with_control(key, ext);
        }
        if same(key, "left") {
            let p: usize = self.left(mods);
            self.move_to(p, ext);
        } else if same(key, "right") {
            let p: usize = self.right(mods);
            self.move_to(p, ext);
        } else if same(key, "home") {
            self.move_to(0, ext);
        } else if same(key, "end") {
            let n: usize = self.len();
            self.move_to(n, ext);
        } else if same(key, "backspace") {
            if mods.platform {
                self.erase_back_to(0, true);
            } else if mods.alt {
                let w: usize = self.word_left();
                self.erase_back_to(w, true);
            } else {
                let from: usize = self.previous();
                self.erase_back_to(from, true);
            }
        } else if same(key, "delete") {
            let to: usize = self.next();
            self.erase_on_to(to, true);
        } else {
            match ch {
                Some(c) => if !mods.platform && types(c) {
                    let at: usize = self.cursor;
                    self.replace_selection_or(at, at, c, true);
                } else {
                    return false;
                },
                None => {
                    return false;
                },
            }
        }
        true
    }

    /// An editing key, if it is one: arrows (shift extends, option by
    /// words, command to the ends), home and end, delete back (option:
    /// a word, command: to the start) and forward, ^A ^E ^B ^F ^D ^H ^U
    /// ^W ^K, and a character typed.  The text changed when it says so,
    /// and not otherwise.
    pub fn key(&mut self, key: &str, ch: Option<&str>, mods: &Modifiers) -> (r: Edited)
        requires
            old(self).wf(),
        ensures
            (final(self)@, r) == old(self)@.keyed(
                key@,
                characters(ch),
                *mods,
            ),
            r == Edited::Changed <==> final(self)@.text != old(self)@.text,
            final(self).wf(),
    {
        let before: String = self.text.clone();
        if !self.work(key, ch, mods) {
            Edited::No
        } else if same(self.text.as_str(), before.as_str()) {
            Edited::Moved
        } else {
            Edited::Changed
        }
    }
}

/// Whether `s` is text that a key types.
fn types(s: &str) -> (r: bool)
    ensures
        r == typed(s@),
{
    let chars: Vec<char> = crate::text::chars_of(s);
    if chars.len() == 0 {
        return false;
    }
    let mut i: usize = 0;
    while i < chars.len()
        invariant
            i <= chars@.len(),
            chars@ == s@,
            forall|j: int| 0 <= j < i ==> !crate::text::control(#[trigger] s@[j]),
        decreases chars@.len() - i,
    {
        if is_control(chars[i]) {
            proof {
                assert(crate::text::control(s@[i as int]));
            }
            return false;
        }
        i = i + 1;
    }
    true
}

/// A bit of a field as it is drawn.
pub enum Bit {
    /// The caret.
    Caret,
    /// Text, and whether it is selected.
    Text(String, bool),
    /// What the field is for, in place of text.
    Hint(String),
}

/// A [`Bit`] as a value.
pub enum Drawn {
    Caret,
    Text(Seq<char>, bool),
    Hint(Seq<char>),
}

impl View for Bit {
    type V = Drawn;

    open spec fn view(&self) -> Drawn {
        match self {
            Bit::Caret => Drawn::Caret,
            Bit::Text(s, on) => Drawn::Text(s@, *on),
            Bit::Hint(s) => Drawn::Hint(s@),
        }
    }
}

/// Bits as values.
pub open spec fn bits(s: Seq<Bit>) -> Seq<Drawn> {
    s.map_values(|b: Bit| b@)
}

/// The caret, where there is one.
pub open spec fn caret(on: bool) -> Seq<Drawn> {
    if on {
        seq![Drawn::Caret]
    } else {
        Seq::empty()
    }
}

/// A stretch of text, with the caret before it where it starts there.
pub open spec fn stretch(l: Line, active: bool, a: int, z: int, on: bool) -> Seq<Drawn> {
    if a < z {
        caret(active && a == l.cursor).push(Drawn::Text(l.text.subrange(a, z), on))
    } else {
        Seq::empty()
    }
}

/// The field drawn: its text with the selection marked and the caret at
/// the cursor when it has the keyboard, or the hint when empty.
pub open spec fn field_drawn(l: Line, hint: Seq<char>, active: bool) -> Seq<Drawn> {
    let (lo, hi) = match l.selection() {
        Some((a, z)) => (a, z),
        None => (l.cursor, l.cursor),
    };
    if l.text.len() == 0 {
        caret(active).push(Drawn::Hint(hint))
    } else {
        stretch(l, active, 0, lo, false) + stretch(l, active, lo, hi, true) + stretch(
            l,
            active,
            hi,
            l.text.len() as int,
            false,
        ) + caret(active && l.cursor == l.text.len())
    }
}

fn put_stretch(out: &mut Vec<Bit>, e: &LineEdit, active: bool, a: usize, z: usize, on: bool)
    requires
        z <= e@.text.len(),
    ensures
        bits(final(out)@) == bits(old(out)@) + stretch(e@, active, a as int, z as int, on),
{
    let ghost start = out@;
    if a < z {
        if active && a == e.cursor {
            out.push(Bit::Caret);
        }
        let c: Vec<char> = crate::text::chars_of(e.as_str());
        let part: Vec<char> = crate::text::slice_of(c.as_slice(), a, z);
        proof {
            assert(part@ =~= e@.text.subrange(a as int, z as int));
        }
        out.push(Bit::Text(crate::text::string_of(part.as_slice()), on));
    }
    proof {
        assert(bits(out@) =~= bits(start) + stretch(e@, active, a as int, z as int, on));
    }
}

/// The field drawn.
pub fn field_view(e: &LineEdit, hint: &str, active: bool) -> (r: Vec<Bit>)
    requires
        e.wf(),
    ensures
        bits(r@) == field_drawn(e@, hint@, active),
{
    let mut out: Vec<Bit> = Vec::new();
    let n: usize = e.len();
    if n == 0 {
        if active {
            out.push(Bit::Caret);
        }
        out.push(Bit::Hint(hint.to_owned()));
        proof {
            assert(bits(out@) =~= field_drawn(e@, hint@, active));
        }
        return out;
    }
    let (lo, hi) = match e.selection() {
        Some((a, z)) => (a, z),
        None => (e.cursor, e.cursor),
    };
    put_stretch(&mut out, e, active, 0, lo, false);
    put_stretch(&mut out, e, active, lo, hi, true);
    put_stretch(&mut out, e, active, hi, n, false);
    let ghost before = out@;
    if active && e.cursor == n {
        out.push(Bit::Caret);
    }
    proof {
        assert(bits(out@) =~= bits(before) + caret(active && e.cursor == n));
        assert(bits(out@) =~= field_drawn(e@, hint@, active));
    }
    out
}

/// How long the caret shows, and then does not, in milliseconds.
pub const BLINK: u64 = 500;

/// Whether the caret shows, so many milliseconds after a key: it shows at
/// once, and blinks.
pub fn caret_visible(ms: u64) -> (r: bool)
    ensures
        r == ((ms as int / BLINK as int) % 2 == 0),
{
    (ms / BLINK) % 2 == 0
}

proof fn lemma_field_keys()
    ensures
        "left"@ != "right"@ && "left"@ != "home"@ && "left"@ != "end"@ && "left"@ != "backspace"@ && "left"@ != "delete"@,
        "right"@ != "home"@ && "right"@ != "end"@ && "right"@ != "backspace"@ && "right"@ != "delete"@,
        "home"@ != "end"@ && "home"@ != "backspace"@ && "home"@ != "delete"@,
        "end"@ != "backspace"@ && "end"@ != "delete"@ && "backspace"@ != "delete"@,
{
    reveal_strlit("left");
    reveal_strlit("right");
    reveal_strlit("home");
    reveal_strlit("end");
    reveal_strlit("backspace");
    reveal_strlit("delete");
    assert("left"@.len() == 4 && "right"@.len() == 5 && "home"@.len() == 4 && "end"@.len() == 3 && "backspace"@.len()
        == 9 && "delete"@.len() == 6);
    assert("left"@[0] == 'l' && "home"@[0] == 'h');
}

proof fn lemma_control_keys()
    ensures
        "a"@ != "e"@ && "a"@ != "b"@ && "a"@ != "f"@ && "a"@ != "d"@ && "a"@ != "h"@ && "a"@ != "u"@ && "a"@ != "w"@
            && "a"@ != "k"@,
        "e"@ != "b"@ && "e"@ != "f"@ && "e"@ != "d"@ && "e"@ != "h"@ && "e"@ != "u"@ && "e"@ != "w"@ && "e"@ != "k"@,
        "b"@ != "f"@ && "b"@ != "d"@ && "b"@ != "h"@ && "b"@ != "u"@ && "b"@ != "w"@ && "b"@ != "k"@,
        "f"@ != "d"@ && "f"@ != "h"@ && "f"@ != "u"@ && "f"@ != "w"@ && "f"@ != "k"@,
        "d"@ != "h"@ && "d"@ != "u"@ && "d"@ != "w"@ && "d"@ != "k"@,
        "h"@ != "u"@ && "h"@ != "w"@ && "h"@ != "k"@,
        "u"@ != "w"@ && "u"@ != "k"@ && "w"@ != "k"@,
{
    reveal_strlit("a");
    reveal_strlit("e");
    reveal_strlit("b");
    reveal_strlit("f");
    reveal_strlit("d");
    reveal_strlit("h");
    reveal_strlit("u");
    reveal_strlit("w");
    reveal_strlit("k");
    assert("a"@[0] == 'a' && "e"@[0] == 'e' && "b"@[0] == 'b' && "f"@[0] == 'f' && "d"@[0] == 'd' && "h"@[0] == 'h'
        && "u"@[0] == 'u' && "w"@[0] == 'w' && "k"@[0] == 'k');
}

/// An arrow moves the cursor by one character and stops at the ends; with a
/// selection, to its end on that side; by a word, or to the end, with the
/// modifiers for those.  It changes no text.
pub proof fn law_arrows_move_the_cursor(l: Line, ch: Option<Seq<char>>, mods: Modifiers)
    requires
        l.valid(),
        !mods.control,
    ensures
        ({
            let left = l.keyed("left"@, ch, mods).0;
            let right = l.keyed("right"@, ch, mods).0;
            &&& left.text == l.text && right.text == l.text
            &&& mods.platform ==> left.cursor == 0 && right.cursor == l.text.len()
            &&& !mods.platform && mods.alt ==> left.cursor == l.word_left() && right.cursor == l.word_right()
            &&& !mods.platform && !mods.alt && (mods.shift || l.selection() is None) ==> left.cursor == (if l.cursor > 0 {
                l.cursor - 1
            } else {
                0
            }) && right.cursor == (if l.cursor < l.text.len() {
                l.cursor + 1
            } else {
                l.cursor
            })
            &&& !mods.platform && !mods.alt && !mods.shift && l.selection() is Some ==> left.cursor == (l.selection()->0).0
                && right.cursor == (l.selection()->0).1
        }),
{
    lemma_field_keys();
    law_words_stand_either_side(l);
    law_a_selection_is_of_the_text(l);
}

/// With the shift key a move selects from where it began; without it nothing
/// is selected after.
pub proof fn law_shift_selects_what_is_moved_over(l: Line, ch: Option<Seq<char>>, mods: Modifiers)
    requires
        !mods.control,
    ensures
        !mods.shift ==> l.keyed("left"@, ch, mods).0.anchor is None && l.keyed("right"@, ch, mods).0.anchor is None
            && l.keyed("home"@, ch, mods).0.anchor is None && l.keyed("end"@, ch, mods).0.anchor is None,
        mods.shift && l.anchor is None ==> l.keyed("left"@, ch, mods).0.anchor == Some(l.cursor) && l.keyed(
            "right"@,
            ch,
            mods,
        ).0.anchor == Some(l.cursor) && l.keyed("home"@, ch, mods).0.anchor == Some(l.cursor) && l.keyed(
            "end"@,
            ch,
            mods,
        ).0.anchor == Some(l.cursor),
        mods.shift && l.anchor is Some ==> l.keyed("left"@, ch, mods).0.anchor == l.anchor && l.keyed(
            "right"@,
            ch,
            mods,
        ).0.anchor == l.anchor,
        l.keyed("home"@, ch, mods).0.cursor == 0 && l.keyed("end"@, ch, mods).0.cursor == l.text.len(),
{
    lemma_field_keys();
}

/// Backspace takes out the character before the cursor, and delete the one
/// after it; with a selection both take out that.
pub proof fn law_backspace_and_delete_take_out_one(l: Line, ch: Option<Seq<char>>, mods: Modifiers)
    requires
        l.valid(),
        !mods.control && !mods.platform && !mods.alt,
    ensures
        ({
            let back = l.keyed("backspace"@, ch, mods).0;
            let on = l.keyed("delete"@, ch, mods).0;
            &&& l.selection() is None && l.cursor > 0 ==> back.text == l.text.take(l.cursor - 1) + l.text.skip(l.cursor)
                && back.cursor == l.cursor - 1
            &&& l.selection() is None && l.cursor == 0 ==> back.text == l.text && back.cursor == 0
            &&& l.selection() is None && l.cursor < l.text.len() ==> on.text == l.text.take(l.cursor) + l.text.skip(
                l.cursor + 1,
            ) && on.cursor == l.cursor
            &&& l.selection() is None && l.cursor == l.text.len() ==> on.text == l.text && on.cursor == l.cursor
            &&& l.selection() matches Some((a, z)) ==> back.text == l.text.take(a) + l.text.skip(z) && on.text
                == back.text && back.cursor == a && on.cursor == a
        }),
{
    lemma_field_keys();
    let e = Seq::<char>::empty();
    assert forall|a: int, z: int| 0 <= a <= z <= l.text.len() implies #[trigger] l.replaced(a, z, e).text == l.text.take(a)
        + l.text.skip(z) by {
        assert(l.text.take(a) + e + l.text.skip(z) =~= l.text.take(a) + l.text.skip(z));
    }
    law_a_selection_is_of_the_text(l);
    if l.selection() is Some {
        let (a, z) = l.selection()->0;
        assert(l.replaced(a, z, e).text == l.text.take(a) + l.text.skip(z));
    } else {
        let b = if l.cursor == 0 {
            0
        } else {
            l.cursor - 1
        };
        assert(l.replaced(b, l.cursor, e).text == l.text.take(b) + l.text.skip(l.cursor));
        let z = lesser(l.cursor + 1, l.text.len() as int);
        assert(l.replaced(l.cursor, z, e).text == l.text.take(l.cursor) + l.text.skip(z));
        assert(l.text.take(l.cursor) + l.text.skip(l.cursor) =~= l.text);
    }
}

/// Backspace with the modifiers for them takes out the word before the cursor,
/// or all before it.
pub proof fn law_backspace_takes_out_a_word_or_all(l: Line, ch: Option<Seq<char>>, mods: Modifiers)
    requires
        l.valid(),
        !mods.control,
        l.selection() is None,
    ensures
        mods.platform ==> l.keyed("backspace"@, ch, mods).0.text == l.text.skip(l.cursor) && l.keyed(
            "backspace"@,
            ch,
            mods,
        ).0.cursor == 0,
        !mods.platform && mods.alt ==> l.keyed("backspace"@, ch, mods).0.text == l.text.take(l.word_left()) + l.text.skip(
            l.cursor,
        ) && l.keyed("backspace"@, ch, mods).0.cursor == l.word_left(),
{
    lemma_field_keys();
    law_words_stand_either_side(l);
    let e = Seq::<char>::empty();
    assert(l.text.take(0) + e + l.text.skip(l.cursor) =~= l.text.skip(l.cursor));
    assert(l.text.take(l.word_left()) + e + l.text.skip(l.cursor) =~= l.text.take(l.word_left()) + l.text.skip(l.cursor));
}

/// The control keys are those of a terminal's line: to its start and end, a
/// character back and on, and out with the next, the one before, all before,
/// the word before, and all that follows.
pub proof fn law_the_control_keys(l: Line, ch: Option<Seq<char>>, mods: Modifiers)
    requires
        l.valid(),
        mods.control,
        l.selection() is None,
    ensures
        l.keyed("a"@, ch, mods).0.cursor == 0 && l.keyed("e"@, ch, mods).0.cursor == l.text.len(),
        l.keyed("b"@, ch, mods).0.cursor == if l.cursor > 0 {
            l.cursor - 1
        } else {
            0
        },
        l.keyed("f"@, ch, mods).0.cursor == if l.cursor < l.text.len() {
            l.cursor + 1
        } else {
            l.cursor
        },
        l.keyed("a"@, ch, mods).0.text == l.text && l.keyed("e"@, ch, mods).0.text == l.text && l.keyed(
            "b"@,
            ch,
            mods,
        ).0.text == l.text && l.keyed("f"@, ch, mods).0.text == l.text,
        l.keyed("u"@, ch, mods).0.text == l.text.skip(l.cursor) && l.keyed("u"@, ch, mods).0.cursor == 0,
        l.keyed("k"@, ch, mods).0.text == l.text.take(l.cursor) && l.keyed("k"@, ch, mods).0.cursor == l.cursor,
        l.keyed("w"@, ch, mods).0.text == l.text.take(l.word_left()) + l.text.skip(l.cursor),
        l.cursor > 0 ==> l.keyed("h"@, ch, mods).0.text == l.text.take(l.cursor - 1) + l.text.skip(l.cursor),
        l.cursor < l.text.len() ==> l.keyed("d"@, ch, mods).0.text == l.text.take(l.cursor) + l.text.skip(l.cursor + 1),
{
    lemma_control_keys();
    law_words_stand_either_side(l);
    let e = Seq::<char>::empty();
    let (t, c) = (l.text, l.cursor);
    assert(t.take(0) + e + t.skip(c) =~= t.skip(c));
    assert(t.take(c) + e + t.skip(t.len() as int) =~= t.take(c));
    assert(t.take(l.word_left()) + e + t.skip(c) =~= t.take(l.word_left()) + t.skip(c));
    if c > 0 {
        assert(t.take(c - 1) + e + t.skip(c) =~= t.take(c - 1) + t.skip(c));
    }
    if c < t.len() {
        assert(t.take(c) + e + t.skip(c + 1) =~= t.take(c) + t.skip(c + 1));
    }
}

/// A word's end is where its characters end: what is skipped to the left of
/// the cursor is what is no word's and then a word's, and so to the right.
pub proof fn law_a_word_is_of_its_characters(l: Line)
    requires
        l.valid(),
    ensures
        l.word_left() > 0 ==> !word(l.text[l.word_left() - 1]),
        l.word_right() < l.text.len() ==> !word(l.text[l.word_right()]),
        l.word_left() < l.cursor && word(l.text[l.cursor - 1]) ==> forall|j: int|
            l.word_left() <= j < l.cursor ==> word(#[trigger] l.text[j]),
        l.cursor < l.word_right() && word(l.text[l.cursor]) ==> forall|j: int|
            l.cursor <= j < l.word_right() ==> word(#[trigger] l.text[j]),
        (forall|j: int| 0 <= j < l.cursor ==> !word(#[trigger] l.text[j])) ==> l.word_left() == 0,
{
    let g = skip_gap_left(l.text, l.cursor);
    lemma_gap_left(l.text, l.cursor);
    lemma_word_left(l.text, g);
    let h = skip_gap_right(l.text, l.cursor);
    lemma_gap_right(l.text, l.cursor);
    lemma_word_right(l.text, h);
    if forall|j: int| 0 <= j < l.cursor ==> !word(#[trigger] l.text[j]) {
        if g > 0 {
            assert(word(l.text[g - 1]));
        }
    }
}

proof fn lemma_gap_left(s: Seq<char>, i: int)
    requires
        0 <= i <= s.len(),
    ensures
        0 <= skip_gap_left(s, i) <= i,
        skip_gap_left(s, i) > 0 ==> word(s[skip_gap_left(s, i) - 1]),
        i > 0 && word(s[i - 1]) ==> skip_gap_left(s, i) == i,
    decreases i,
{
    if 0 < i && !word(s[i - 1]) {
        lemma_gap_left(s, i - 1);
    }
}

proof fn lemma_word_left(s: Seq<char>, i: int)
    requires
        0 <= i <= s.len(),
    ensures
        0 <= skip_word_left(s, i) <= i,
        skip_word_left(s, i) > 0 ==> !word(s[skip_word_left(s, i) - 1]),
        forall|j: int| skip_word_left(s, i) <= j < i ==> word(#[trigger] s[j]),
    decreases i,
{
    if 0 < i && word(s[i - 1]) {
        lemma_word_left(s, i - 1);
    }
}

proof fn lemma_gap_right(s: Seq<char>, i: int)
    requires
        0 <= i <= s.len(),
    ensures
        i <= skip_gap_right(s, i) <= s.len(),
        i < s.len() && word(s[i]) ==> skip_gap_right(s, i) == i,
    decreases s.len() - i,
{
    if i < s.len() && !word(s[i]) {
        lemma_gap_right(s, i + 1);
    }
}

proof fn lemma_word_right(s: Seq<char>, i: int)
    requires
        0 <= i <= s.len(),
    ensures
        i <= skip_word_right(s, i) <= s.len(),
        skip_word_right(s, i) < s.len() ==> !word(s[skip_word_right(s, i)]),
        forall|j: int| i <= j < skip_word_right(s, i) ==> word(#[trigger] s[j]),
    decreases s.len() - i,
{
    if i < s.len() && word(s[i]) {
        lemma_word_right(s, i + 1);
    }
}

/// A field goes back as many as sixty-four edits: each is kept last, and the
/// oldest goes where there are more.
pub proof fn law_sixty_four_edits_can_be_undone(l: Line)
    requires
        l.valid(),
    ensures
        l.kept().last() == (l.text, l.cursor),
        l.undo.len() < 64 ==> l.kept().len() == l.undo.len() + 1 && l.kept().drop_last() == l.undo,
        l.undo.len() == 64 ==> l.kept().len() == 64 && l.kept().drop_last() == l.undo.skip(1),
{
    if l.undo.len() < 64 {
        assert(l.kept().drop_last() =~= l.undo);
    } else {
        assert(l.kept().drop_last() =~= l.undo.skip(1));
    }
}

} // verus!
