//! What things are called: windows, columns, terminals, and the texts
//! that show in them.

use vstd::prelude::*;

verus! {

/// A window.
#[derive(Clone, Copy, Debug, PartialEq, Eq, Hash, Structural)]
pub struct WindowId(pub u64);

/// A column.
#[derive(Clone, Copy, Debug, PartialEq, Eq, Hash, Structural)]
pub struct ColumnId(pub u64);

/// A terminal.
#[derive(Clone, Copy, Debug, PartialEq, Eq, Hash, Structural)]
pub struct TermId(pub u64);

/// A tab of the title bar.
#[derive(Clone, Copy, Debug, PartialEq, Eq, Hash, Structural)]
pub struct TabId(pub u64);

/// A text on screen: the top row's, a column's tag, a window's tag, a
/// window's body.
#[derive(Clone, Copy, Debug, PartialEq, Eq, Hash, Structural)]
pub enum ViewId {
    Top,
    ColTag(ColumnId),
    Tag(WindowId),
    Body(WindowId),
}

/// Which of the four a text is.
#[derive(Clone, Copy, Debug, PartialEq, Eq, Hash, Structural)]
pub enum Kind {
    Top,
    ColTag,
    WinTag,
    Body,
}

/// Where a command runs.
#[derive(Clone, Copy, Debug, PartialEq, Eq, Hash, Structural)]
pub enum ExecCtx {
    Window(WindowId),
    Column(ColumnId),
    Top,
}

impl Kind {
    /// Which of the four `v` is.
    pub fn of(v: ViewId) -> (k: Kind)
        ensures
            k == (match v {
                ViewId::Top => Kind::Top,
                ViewId::ColTag(_) => Kind::ColTag,
                ViewId::Tag(_) => Kind::WinTag,
                ViewId::Body(_) => Kind::Body,
            }),
    {
        match v {
            ViewId::Top => Kind::Top,
            ViewId::ColTag(_) => Kind::ColTag,
            ViewId::Tag(_) => Kind::WinTag,
            ViewId::Body(_) => Kind::Body,
        }
    }
}

/// The window a text belongs to, if it belongs to one.
pub open spec fn window_of(v: ViewId) -> Option<WindowId> {
    match v {
        ViewId::Tag(w) => Some(w),
        ViewId::Body(w) => Some(w),
        _ => None,
    }
}

/// Where a command taken from the text `v` runs.
pub open spec fn context_of(v: ViewId) -> ExecCtx {
    match v {
        ViewId::Tag(w) => ExecCtx::Window(w),
        ViewId::Body(w) => ExecCtx::Window(w),
        ViewId::ColTag(c) => ExecCtx::Column(c),
        ViewId::Top => ExecCtx::Top,
    }
}

/// The column a text belongs to, `home` being the column of its window.
pub open spec fn column_of(v: ViewId, home: Option<ColumnId>) -> Option<ColumnId> {
    match v {
        ViewId::ColTag(c) => Some(c),
        ViewId::Top => None,
        _ => home,
    }
}

impl ViewId {
    /// The window this text belongs to, if it belongs to one.
    pub fn window(self) -> (w: Option<WindowId>)
        ensures
            w == window_of(self),
    {
        match self {
            ViewId::Tag(w) => Some(w),
            ViewId::Body(w) => Some(w),
            _ => None,
        }
    }

    /// Where a command taken from this text runs.
    pub fn ctx_of(self) -> (c: ExecCtx)
        ensures
            c == context_of(self),
    {
        match self {
            ViewId::Tag(w) => ExecCtx::Window(w),
            ViewId::Body(w) => ExecCtx::Window(w),
            ViewId::ColTag(c) => ExecCtx::Column(c),
            ViewId::Top => ExecCtx::Top,
        }
    }

    /// The column this text belongs to, for acme's activecol; `home` is
    /// the column its window is in.
    pub fn column_of_view(self, home: Option<ColumnId>) -> (c: Option<ColumnId>)
        ensures
            c == column_of(self, home),
    {
        match self {
            ViewId::ColTag(c) => Some(c),
            ViewId::Top => None,
            _ => home,
        }
    }
}

/// A text is a window's just where a command run from it runs in that window;
/// a column's tag is the column's, and a window's texts are at home in the
/// column that the window is in.
pub proof fn law_a_text_is_where_its_commands_run(v: ViewId, w: WindowId, c: ColumnId, home: Option<ColumnId>)
    ensures
        window_of(v) == Some(w) <==> v == ViewId::Tag(w) || v == ViewId::Body(w),
        context_of(v) == ExecCtx::Window(w) <==> v == ViewId::Tag(w) || v == ViewId::Body(w),
        context_of(v) == ExecCtx::Column(c) <==> v == ViewId::ColTag(c),
        context_of(v) == ExecCtx::Top <==> v == ViewId::Top,
        column_of(ViewId::ColTag(c), home) == Some(c),
        column_of(ViewId::Tag(w), home) == home,
        column_of(ViewId::Body(w), home) == home,
        column_of(ViewId::Top, home) is None,
{
}

} // verus!
