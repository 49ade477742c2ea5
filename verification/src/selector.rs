//! The session picker: a field, and under it every way into a session --
//! the tabs to go to, the sessions to open, the making of one by the name
//! typed on each host, and a host to add -- with the form that adds one.

use vstd::prelude::*;
use vstd::string::*;

use crate::field::{Line, LineEdit};
use crate::fixed::floor_mod;
use crate::session::{infos, maybe, places, urls, Host, Info, Place, SessionInfo, SessionUrl, Url};
use crate::text::{chars_of, contains, holds, lower_str, lowered, same, string_of, trim, trimmed};

verus! {

/// What a label is, said to one who typed another thing.
pub open spec fn label_rule() -> Seq<char> {
    "a label: a letter first, then lowercase letters, digits and -"@
}

/// A host's sessions: as last seen while the host is asked (they are
/// mostly the same), here, or not to be had (the last seen still shown).
pub enum Loading {
    Seeded(Vec<SessionInfo>),
    Ready(Vec<SessionInfo>),
    Failed(Vec<SessionInfo>, String),
}

/// A [`Loading`] as a value.
pub enum Heard {
    Seeded(Seq<Info>),
    Ready(Seq<Info>),
    Failed(Seq<Info>, Seq<char>),
}

impl View for Loading {
    type V = Heard;

    open spec fn view(&self) -> Heard {
        match self {
            Loading::Seeded(n) => Heard::Seeded(infos(n@)),
            Loading::Ready(n) => Heard::Ready(infos(n@)),
            Loading::Failed(n, e) => Heard::Failed(infos(n@), e@),
        }
    }
}

impl Heard {
    /// The sessions, however they came.
    pub open spec fn seen(self) -> Seq<Info> {
        match self {
            Heard::Seeded(n) => n,
            Heard::Ready(n) => n,
            Heard::Failed(n, _) => n,
        }
    }
}

impl Loading {
    /// The sessions, however they came.
    pub fn sessions(&self) -> (r: &Vec<SessionInfo>)
        ensures
            infos(r@) == self@.seen(),
    {
        match self {
            Loading::Seeded(n) => n,
            Loading::Ready(n) => n,
            Loading::Failed(n, _) => n,
        }
    }
}

/// A row of the picker.
pub enum Row {
    /// A session this window has open (a tab): going there.
    GoTo(SessionUrl),
    /// A session that is there but not open here: opening it.
    Open(SessionUrl),
    /// A session to make, named by what was typed, on this host.
    Create(SessionUrl, Host),
    /// "Add a host": the form next.
    NewHost,
    /// Nothing to offer, or a host that could not be asked.
    Note(String),
    /// The new name typed for the session being renamed.
    Rename(String),
}

/// A [`Row`] as a value.
pub enum Offer {
    GoTo(Url),
    Open(Url),
    Create(Url, Place),
    NewHost,
    Note(Seq<char>),
    Rename(Seq<char>),
}

impl View for Row {
    type V = Offer;

    open spec fn view(&self) -> Offer {
        match self {
            Row::GoTo(u) => Offer::GoTo(u@),
            Row::Open(u) => Offer::Open(u@),
            Row::Create(u, h) => Offer::Create(u@, h@),
            Row::NewHost => Offer::NewHost,
            Row::Note(t) => Offer::Note(t@),
            Row::Rename(t) => Offer::Rename(t@),
        }
    }
}

/// The rows of a list, as values.
pub open spec fn shown(s: Seq<Row>) -> Seq<Offer> {
    s.map_values(|r: Row| r@)
}

impl Offer {
    /// The row can be landed on and picked.
    pub open spec fn pickable(self) -> bool {
        !(self is Note)
    }

    /// One row: of one kind, and about one thing.
    pub open spec fn is(self, other: Offer) -> bool {
        match (self, other) {
            (Offer::GoTo(a), Offer::GoTo(b)) => a.is(b),
            (Offer::Open(a), Offer::Open(b)) => a.is(b),
            (Offer::Create(a, h), Offer::Create(b, k)) => a.is(b) && h == k,
            (Offer::NewHost, Offer::NewHost) => true,
            (Offer::Note(a), Offer::Note(b)) => a == b,
            (Offer::Rename(a), Offer::Rename(b)) => a == b,
            _ => false,
        }
    }

    /// The words at the right of the row: what picking it does.
    pub open spec fn action(self) -> Seq<char> {
        match self {
            Offer::GoTo(_) => "Go to session"@,
            Offer::Open(_) => "Open session"@,
            Offer::Create(_, h) => {
                let (name, provider) = h.parts();
                if provider.len() == 0 {
                    "Create on "@ + name
                } else {
                    "Create on "@ + name + " "@ + provider
                }
            },
            Offer::NewHost => "Add a host"@,
            Offer::Rename(_) => "Rename"@,
            Offer::Note(_) => Seq::empty(),
        }
    }

    /// What the row says: the session's name, or the text typed.
    pub open spec fn title(self) -> Seq<char> {
        match self {
            Offer::GoTo(u) => u.session,
            Offer::Open(u) => u.session,
            Offer::Create(u, _) => u.session,
            Offer::NewHost => "Add a host\u{2026}"@,
            Offer::Note(t) => t,
            Offer::Rename(t) => t,
        }
    }

    /// The host under the name, for a session that is elsewhere.
    pub open spec fn whereabouts(self) -> Option<Seq<char>> {
        match self {
            Offer::GoTo(u) => elsewhere(u),
            Offer::Open(u) => elsewhere(u),
            Offer::Create(u, _) => elsewhere(u),
            _ => None,
        }
    }
}

/// The host of a session that is not on this machine.
pub open spec fn elsewhere(u: Url) -> Option<Seq<char>> {
    if u.local() {
        None
    } else {
        Some(u.arg)
    }
}

fn host_elsewhere(u: &SessionUrl) -> (r: Option<String>)
    ensures
        maybe(r) == elsewhere(u@),
{
    if u.is_local() {
        None
    } else {
        Some(u.arg.clone())
    }
}

impl Row {
    /// The same row.
    pub fn copy(&self) -> (r: Row)
        ensures
            r@ == self@,
    {
        match self {
            Row::GoTo(u) => Row::GoTo(u.copy()),
            Row::Open(u) => Row::Open(u.copy()),
            Row::Create(u, h) => Row::Create(u.copy(), h.copy()),
            Row::NewHost => Row::NewHost,
            Row::Note(t) => Row::Note(t.clone()),
            Row::Rename(t) => Row::Rename(t.clone()),
        }
    }

    /// Whether the row can be landed on and picked.
    pub fn pickable(&self) -> (r: bool)
        ensures
            r == self@.pickable(),
    {
        match self {
            Row::Note(_) => false,
            _ => true,
        }
    }

    /// The words at the right of the row: what picking it does.
    pub fn action(&self) -> (r: String)
        ensures
            r@ == self@.action(),
    {
        match self {
            Row::GoTo(_) => "Go to session".to_owned(),
            Row::Open(_) => "Open session".to_owned(),
            Row::Create(_, h) => {
                let (name, provider) = h.parts();
                let mut r: String = "Create on ".to_owned();
                r.append(name.as_str());
                if !provider.as_str().is_empty() {
                    r.append(" ");
                    r.append(provider.as_str());
                }
                r
            },
            Row::NewHost => "Add a host".to_owned(),
            Row::Rename(_) => "Rename".to_owned(),
            Row::Note(_) => String::new(),
        }
    }

    /// The glyph at the left: an arrow for somewhere to go, a plus for
    /// something to make.
    pub fn glyph(&self) -> (g: &'static str)
        ensures
            g@ == (match self@ {
                Offer::GoTo(_) => "\u{2192}"@,
                Offer::Open(_) => "\u{2192}"@,
                Offer::Create(_, _) => "+"@,
                Offer::NewHost => "+"@,
                Offer::Rename(_) => "\u{2713}"@,
                Offer::Note(_) => ""@,
            }),
    {
        match self {
            Row::GoTo(_) => "\u{2192}",
            Row::Open(_) => "\u{2192}",
            Row::Create(_, _) => "+",
            Row::NewHost => "+",
            Row::Rename(_) => "\u{2713}",
            Row::Note(_) => "",
        }
    }

    /// What the row says: the session's name, or the text typed.
    pub fn title(&self) -> (r: String)
        ensures
            r@ == self@.title(),
    {
        match self {
            Row::GoTo(u) => u.session.clone(),
            Row::Open(u) => u.session.clone(),
            Row::Create(u, _) => u.session.clone(),
            Row::NewHost => "Add a host\u{2026}".to_owned(),
            Row::Note(t) => t.clone(),
            Row::Rename(t) => t.clone(),
        }
    }

    /// The host under the name, dimmed, for a session that is elsewhere.
    pub fn where_(&self) -> (r: Option<String>)
        ensures
            maybe(r) == self@.whereabouts(),
    {
        match self {
            Row::GoTo(u) => host_elsewhere(u),
            Row::Open(u) => host_elsewhere(u),
            Row::Create(u, _) => host_elsewhere(u),
            _ => None,
        }
    }
}

/// The new-host form's fields.
#[derive(Clone, Copy, Debug, PartialEq, Eq, Structural)]
pub enum Field {
    Provider,
    Host,
}

/// A new host: a provider chosen from what is available (`ssh`, every
/// `apex-remote-NAME` on the PATH), and the host it takes.
pub struct Connect {
    pub providers: Vec<String>,
    pub provider: usize,
    pub host: LineEdit,
    pub field: Field,
}

/// Strings of a list, as values.
pub open spec fn strs(s: Seq<String>) -> Seq<Seq<char>> {
    s.map_values(|x: String| x@)
}

impl Connect {
    /// The provider chosen; `ssh` when there is none to choose.
    pub open spec fn chosen(&self) -> Seq<char> {
        if self.provider < self.providers@.len() {
            self.providers@[self.provider as int]@
        } else {
            "ssh"@
        }
    }

    /// The host that is named, once one is: something, without a slash.
    pub open spec fn named(&self) -> Option<Place> {
        let h = trimmed(self.host@.text);
        if h.len() == 0 || h.contains('/') {
            None
        } else {
            Some(Place { provider: self.chosen(), arg: h })
        }
    }

    /// The form, with what is available to choose from.
    pub fn new(available: Vec<String>) -> (c: Connect)
        ensures
            c.provider == 0,
            c.field == Field::Provider,
            c.host.wf(),
            c.host@ == Line::empty(),
            strs(c.providers@) == strs(available@).filter(|p: Seq<char>| p != "local"@),
    {
        let mut providers: Vec<String> = Vec::new();
        let mut i: usize = 0;
        proof {
            reveal(Seq::filter);
            assert(strs(providers@) =~= strs(available@).take(0).filter(|p: Seq<char>| p != "local"@));
        }
        while i < available.len()
            invariant
                i <= available@.len(),
                strs(providers@) == strs(available@).take(i as int).filter(|p: Seq<char>| p != "local"@),
            decreases available@.len() - i,
        {
            let ghost before = providers@;
            let ghost all = strs(available@);
            proof {
                reveal(Seq::filter);
                assert(all.take(i + 1).drop_last() =~= all.take(i as int));
                assert(all.take(i + 1).last() == available@[i as int]@);
            }
            if !same(available[i].as_str(), "local") {
                providers.push(available[i].clone());
                proof {
                    assert(strs(providers@) =~= strs(before).push(available@[i as int]@));
                }
            }
            i = i + 1;
        }
        proof {
            assert(strs(available@).take(i as int) =~= strs(available@));
        }
        Connect { providers, provider: 0, host: LineEdit::new(), field: Field::Provider }
    }

    /// The provider chosen.
    pub fn provider(&self) -> (p: &str)
        ensures
            p@ == self.chosen(),
    {
        if self.provider < self.providers.len() {
            self.providers[self.provider].as_str()
        } else {
            "ssh"
        }
    }

    /// The keyboard to the field above, or the one below.
    pub fn next_field(&mut self, delta: i32)
        ensures
            *final(self) == (Connect {
                field: if delta < 0 {
                    Field::Provider
                } else {
                    Field::Host
                },
                ..*old(self)
            }),
    {
        self.field = if delta < 0 {
            Field::Provider
        } else {
            Field::Host
        };
    }

    /// Another provider, so many on, round the ends.
    pub fn next_provider(&mut self, delta: i32)
        ensures
            *final(self) == (Connect { provider: final(self).provider, ..*old(self) }),
            final(self).provider == (if old(self).providers@.len() == 0 {
                old(self).provider as int
            } else {
                (old(self).provider + delta) % (old(self).providers@.len() as int)
            }),
    {
        let n: usize = self.providers.len();
        if n > 0 {
            self.provider = floor_mod(self.provider as i128 + delta as i128, n as i128) as usize;
        }
    }

    /// The host the form names, once it names one.
    pub fn host(&self) -> (r: Option<Host>)
        ensures
            r is Some == self.named() is Some,
            r matches Some(h) ==> Some(h@) == self.named(),
    {
        let typed: Vec<char> = chars_of(self.host.as_str());
        let h: Vec<char> = trim(typed.as_slice());
        if h.len() == 0 {
            return None;
        }
        let slash: usize = crate::text::find_char(h.as_slice(), '/', 0);
        if slash < h.len() {
            proof {
                assert(h@[slash as int] == '/');
            }
            return None;
        }
        Some(Host { provider: self.provider().to_owned(), arg: string_of(h.as_slice()) })
    }
}

/// A list of what each host has, kept by host.
pub struct Listing {
    pub host: Host,
    pub loading: Loading,
}

/// What the picker is: every way into a session.
pub struct Selector {
    /// The tabs open now, in the strip's order.
    pub tabs: Vec<SessionUrl>,
    /// Tabs closed lately, the latest first.
    pub closed: Vec<SessionUrl>,
    pub filter: LineEdit,
    /// What is typed is a label, as the daemons have it.
    pub label: bool,
    /// Index into `rows()`; only pickable rows are ever landed on.
    pub cursor: usize,
    /// The user has moved the cursor or typed: it stays on its row as the
    /// hosts answer, rather than landing on the first worth landing on.
    pub moved: bool,
    /// The hosts remembered, local first: what the picker is organised by.
    pub hosts: Vec<Host>,
    /// Each host's sessions, as they come in.
    pub sessions: Vec<Listing>,
    pub current: SessionUrl,
    /// Typing a new name for this session (a tab, right-clicked).
    pub renaming: Option<SessionUrl>,
    /// The new-host form: a provider, a host.
    pub connect: Option<Connect>,
    /// Which opening of the picker this is: answers for an older one are
    /// dropped.
    pub epoch: u64,
}

/// What is listed for a host, in the first `n` listings.
pub open spec fn listing(all: Seq<Listing>, h: Place, n: int) -> Option<Heard>
    decreases n,
{
    if n <= 0 || n > all.len() {
        None
    } else if listing(all, h, n - 1) is Some {
        listing(all, h, n - 1)
    } else if all[n - 1].host@ == h {
        Some(all[n - 1].loading@)
    } else {
        None
    }
}

/// What is known of a host: its listing, where it has one.
pub open spec fn heard_of(all: Seq<Listing>, h: Place) -> Option<Heard> {
    listing(all, h, all.len() as int)
}

/// What is listed for a host; nothing while it has no listing.
pub open spec fn had_by(all: Seq<Listing>, h: Place) -> Seq<Info> {
    match heard_of(all, h) {
        Some(l) => l.seen(),
        None => Seq::empty(),
    }
}

/// What is typed narrows the list to the sessions whose name, or whose
/// host, holds it, whatever the case.
pub open spec fn matches_typed(u: Url, typed: Seq<char>) -> bool {
    typed.len() == 0 || holds(lowered(u.session), typed) || holds(lowered(u.arg), typed)
}

/// The tabs to go to, of the first `n`: the ones that match, this
/// window's own left out.
pub open spec fn to_go_to(tabs: Seq<Url>, current: Url, typed: Seq<char>, n: int) -> Seq<Url>
    decreases n,
{
    if n <= 0 || n > tabs.len() {
        Seq::empty()
    } else {
        let before = to_go_to(tabs, current, typed, n - 1);
        if !tabs[n - 1].is(current) && matches_typed(tabs[n - 1], typed) {
            before.push(tabs[n - 1])
        } else {
            before
        }
    }
}

/// The URLs of a host's sessions.
pub open spec fn urls_at(h: Place, s: Seq<Info>) -> Seq<Url> {
    s.map_values(|i: Info| h.url_of(i))
}

/// The sessions that the first `n` hosts have.
pub open spec fn had(hosts: Seq<Place>, all: Seq<Listing>, n: int) -> Seq<Url>
    decreases n,
{
    if n <= 0 || n > hosts.len() {
        Seq::empty()
    } else {
        had(hosts, all, n - 1) + urls_at(hosts[n - 1], had_by(all, hosts[n - 1]))
    }
}

/// A session among those seen.
pub open spec fn among(seen: Seq<Url>, u: Url) -> bool {
    exists|i: int| 0 <= i < seen.len() && (#[trigger] seen[i]).is(u)
}

/// A label on a host among those seen.
pub open spec fn reads_among(seen: Seq<Url>, u: Url) -> bool {
    exists|i: int| 0 <= i < seen.len() && (#[trigger] seen[i]).reads_as(u)
}

/// The sessions to open, of the first `n`: the ones that match, each
/// once, and none of those seen already.
pub open spec fn to_open(there: Seq<Url>, seen: Seq<Url>, typed: Seq<char>, n: int) -> Seq<Url>
    decreases n,
{
    if n <= 0 || n > there.len() {
        Seq::empty()
    } else {
        let before = to_open(there, seen, typed, n - 1);
        if !among(seen + before, there[n - 1]) && matches_typed(there[n - 1], typed) {
            before.push(there[n - 1])
        } else {
            before
        }
    }
}

/// The making of a session on each of the first `n` hosts that has none
/// by that name.
pub open spec fn to_make(hosts: Seq<Place>, name: Seq<char>, seen: Seq<Url>, n: int) -> Seq<Offer>
    decreases n,
{
    if n <= 0 || n > hosts.len() {
        Seq::empty()
    } else {
        let before = to_make(hosts, name, seen, n - 1);
        let u = hosts[n - 1].url(name);
        if reads_among(seen, u) {
            before
        } else {
            before.push(Offer::Create(u, hosts[n - 1]))
        }
    }
}

impl Selector {
    /// The fields are ones that can be typed in.
    pub open spec fn wf(&self) -> bool {
        self.filter.wf() && (self.connect matches Some(c) ==> c.host.wf())
    }

    /// What is typed, without the white space round it.
    pub open spec fn typed(&self) -> Seq<char> {
        trimmed(self.filter@.text)
    }

    /// The tabs to go to.
    pub open spec fn go_to(&self) -> Seq<Url> {
        to_go_to(urls(self.tabs@), self.current@, lowered(self.typed()), self.tabs@.len() as int)
    }

    /// What there is to open: what the hosts have, and what was closed
    /// lately.
    pub open spec fn there(&self) -> Seq<Url> {
        had(places(self.hosts@), self.sessions@, self.hosts@.len() as int) + urls(self.closed@)
    }

    /// The sessions to open: not this window's, and not a tab.
    pub open spec fn open(&self) -> Seq<Url> {
        to_open(
            self.there(),
            seq![self.current@] + self.go_to(),
            lowered(self.typed()),
            self.there().len() as int,
        )
    }

    /// The sessions to make.
    pub open spec fn make(&self) -> Seq<Offer> {
        if self.label {
            to_make(
                places(self.hosts@),
                self.typed(),
                seq![self.current@] + self.go_to() + self.open(),
                self.hosts@.len() as int,
            )
        } else {
            Seq::empty()
        }
    }

    /// The rows: the form has none; a new name typed is the only one, or
    /// what a label is; else the tabs, the sessions to open, the making of
    /// one, and a host to add at the very bottom.
    pub open spec fn listed(&self) -> Seq<Offer> {
        if self.connect is Some {
            Seq::empty()
        } else if self.renaming is Some {
            if self.typed().len() == 0 {
                Seq::empty()
            } else if self.label {
                seq![Offer::Rename(self.typed())]
            } else {
                seq![Offer::Note(label_rule())]
            }
        } else {
            let rows = self.go_to().map_values(|u: Url| Offer::GoTo(u)) + self.open().map_values(
                |u: Url| Offer::Open(u),
            ) + self.make() + seq![Offer::NewHost];
            if rows.len() == 1 && self.typed().len() > 0 && !self.label {
                seq![Offer::Note(label_rule())] + rows
            } else {
                rows
            }
        }
    }
}

fn note() -> (r: Row)
    ensures
        r@ == Offer::Note(label_rule()),
{
    Row::Note("a label: a letter first, then lowercase letters, digits and -".to_owned())
}

fn is_match(u: &SessionUrl, typed: &str) -> (r: bool)
    ensures
        r == matches_typed(u@, typed@),
{
    typed.is_empty() || contains(lower_str(u.session.as_str()).as_str(), typed) || contains(
        lower_str(u.arg.as_str()).as_str(),
        typed,
    )
}

fn is_among(seen: &Vec<SessionUrl>, u: &SessionUrl) -> (r: bool)
    ensures
        r == among(urls(seen@), u@),
{
    let mut i: usize = 0;
    while i < seen.len()
        invariant
            i <= seen@.len(),
            forall|j: int| 0 <= j < i ==> !(#[trigger] urls(seen@)[j]).is(u@),
        decreases seen@.len() - i,
    {
        if seen[i].is(u) {
            proof {
                assert(urls(seen@)[i as int].is(u@));
            }
            return true;
        }
        i = i + 1;
    }
    false
}

pub(crate) fn is_read_among(seen: &Vec<SessionUrl>, u: &SessionUrl) -> (r: bool)
    ensures
        r == reads_among(urls(seen@), u@),
{
    let mut i: usize = 0;
    while i < seen.len()
        invariant
            i <= seen@.len(),
            forall|j: int| 0 <= j < i ==> !(#[trigger] urls(seen@)[j]).reads_as(u@),
        decreases seen@.len() - i,
    {
        if seen[i].reads_as(u) {
            proof {
                assert(urls(seen@)[i as int].reads_as(u@));
            }
            return true;
        }
        i = i + 1;
    }
    false
}

proof fn lemma_listing_settled(all: Seq<Listing>, h: Place, n: int, m: int)
    requires
        0 <= n <= m <= all.len(),
        listing(all, h, n) is Some,
    ensures
        listing(all, h, m) == listing(all, h, n),
    decreases m - n,
{
    if n < m {
        lemma_listing_settled(all, h, n, m - 1);
    }
}

impl Selector {
    /// What a host has, as it is known.
    pub(crate) fn sessions_of(&self, h: &Host) -> (r: Option<usize>)
        ensures
            match r {
                Some(i) => i < self.sessions@.len() && heard_of(self.sessions@, h@)
                    == Some(self.sessions@[i as int].loading@) && self.sessions@[i as int].host@ == h@ && forall|j: int|
                    0 <= j < i ==> (#[trigger] self.sessions@[j]).host@ != h@,
                None => heard_of(self.sessions@, h@) is None,
            },
            r is None ==> forall|j: int| 0 <= j < self.sessions@.len() ==> (#[trigger] self.sessions@[j]).host@ != h@,
    {
        let mut i: usize = 0;
        while i < self.sessions.len()
            invariant
                i <= self.sessions@.len(),
                listing(self.sessions@, h@, i as int) is None,
                forall|j: int| 0 <= j < i ==> (#[trigger] self.sessions@[j]).host@ != h@,
            decreases self.sessions@.len() - i,
        {
            if self.sessions[i].host.is(h) {
                proof {
                    assert(listing(self.sessions@, h@, i + 1) is Some);
                    lemma_listing_settled(self.sessions@, h@, i + 1, self.sessions@.len() as int);
                }
                return Some(i);
            }
            i = i + 1;
        }
        None
    }

    fn go_to_rows(&self, typed: &str, rows: &mut Vec<Row>, seen: &mut Vec<SessionUrl>)
        requires
            typed@ == lowered(self.typed()),
            old(rows)@.len() == 0,
        ensures
            shown(final(rows)@) == self.go_to().map_values(|u: Url| Offer::GoTo(u)),
            urls(final(seen)@) == urls(old(seen)@) + self.go_to(),
    {
        let mut i: usize = 0;
        let ghost seen0 = urls(seen@);
        proof {
            assert(shown(rows@) =~= Seq::<Url>::empty().map_values(|u: Url| Offer::GoTo(u)));
            assert(urls(seen@) =~= seen0 + Seq::<Url>::empty());
        }
        while i < self.tabs.len()
            invariant
                i <= self.tabs@.len(),
                typed@ == lowered(self.typed()),
                shown(rows@) == to_go_to(urls(self.tabs@), self.current@, typed@, i as int).map_values(
                    |u: Url| Offer::GoTo(u),
                ),
                urls(seen@) == seen0 + to_go_to(urls(self.tabs@), self.current@, typed@, i as int),
            decreases self.tabs@.len() - i,
        {
            let ghost before = to_go_to(urls(self.tabs@), self.current@, typed@, i as int);
            let ghost rows0 = rows@;
            let ghost seen1 = seen@;
            let u = &self.tabs[i];
            proof {
                assert(urls(self.tabs@)[i as int] == u@);
            }
            if !u.is(&self.current) && is_match(u, typed) {
                seen.push(u.copy());
                rows.push(Row::GoTo(u.copy()));
                proof {
                    assert(before.push(u@).map_values(|u: Url| Offer::GoTo(u)) =~= before.map_values(
                        |u: Url| Offer::GoTo(u),
                    ).push(Offer::GoTo(u@)));
                    assert(shown(rows@) =~= shown(rows0).push(Offer::GoTo(u@)));
                    assert(urls(seen@) =~= urls(seen1).push(u@));
                    assert(urls(seen@) =~= seen0 + before.push(u@));
                }
            }
            i = i + 1;
        }
    }

    fn all_there(&self) -> (r: Vec<SessionUrl>)
        ensures
            urls(r@) == self.there(),
    {
        let mut out: Vec<SessionUrl> = Vec::new();
        let mut i: usize = 0;
        proof {
            assert(urls(out@) =~= Seq::<Url>::empty());
        }
        while i < self.hosts.len()
            invariant
                i <= self.hosts@.len(),
                urls(out@) == had(places(self.hosts@), self.sessions@, i as int),
            decreases self.hosts@.len() - i,
        {
            let h = &self.hosts[i];
            let ghost before = urls(out@);
            let ghost place = h@;
            proof {
                assert(places(self.hosts@)[i as int] == place);
            }
            match self.sessions_of(h) {
                Some(k) => {
                    let list: &Vec<SessionInfo> = self.sessions[k].loading.sessions();
                    let mut j: usize = 0;
                    proof {
                        assert(before =~= before + urls_at(place, infos(list@)).take(0));
                    }
                    while j < list.len()
                        invariant
                            j <= list@.len(),
                            h@ == place,
                            urls(out@) == before + urls_at(place, infos(list@)).take(j as int),
                        decreases list@.len() - j,
                    {
                        let ghost o = out@;
                        out.push(h.url_of(&list[j]));
                        proof {
                            let all = urls_at(place, infos(list@));
                            assert(all[j as int] == place.url_of(list@[j as int]@));
                            assert(all.take(j + 1) =~= all.take(j as int).push(all[j as int]));
                            assert(urls(out@) =~= urls(o).push(all[j as int]));
                            assert(urls(out@) =~= before + all.take(j + 1));
                        }
                        j = j + 1;
                    }
                    proof {
                        let all = urls_at(place, infos(list@));
                        assert(all.take(j as int) =~= all);
                    }
                },
                None => {
                    proof {
                        assert(urls(out@) =~= before + urls_at(place, had_by(self.sessions@, place)));
                    }
                },
            }
            i = i + 1;
        }
        let mut k: usize = 0;
        let ghost base = urls(out@);
        proof {
            assert(base =~= base + urls(self.closed@).take(0));
        }
        while k < self.closed.len()
            invariant
                k <= self.closed@.len(),
                urls(out@) == base + urls(self.closed@).take(k as int),
            decreases self.closed@.len() - k,
        {
            let ghost o = out@;
            out.push(self.closed[k].copy());
            proof {
                let all = urls(self.closed@);
                assert(all.take(k + 1) =~= all.take(k as int).push(self.closed@[k as int]@));
                assert(urls(out@) =~= urls(o).push(self.closed@[k as int]@));
                assert(urls(out@) =~= base + all.take(k + 1));
            }
            k = k + 1;
        }
        proof {
            assert(urls(self.closed@).take(k as int) =~= urls(self.closed@));
        }
        out
    }

    fn open_rows(&self, typed: &str, rows: &mut Vec<Row>, seen: &mut Vec<SessionUrl>)
        requires
            typed@ == lowered(self.typed()),
            urls(old(seen)@) == seq![self.current@] + self.go_to(),
        ensures
            shown(final(rows)@) == shown(old(rows)@) + self.open().map_values(|u: Url| Offer::Open(u)),
            urls(final(seen)@) == urls(old(seen)@) + self.open(),
    {
        let there: Vec<SessionUrl> = self.all_there();
        let ghost seen0 = urls(seen@);
        let ghost rows0 = shown(rows@);
        let ghost all = urls(there@);
        let mut i: usize = 0;
        proof {
            assert(shown(rows@) =~= rows0 + Seq::<Url>::empty().map_values(|u: Url| Offer::Open(u)));
            assert(urls(seen@) =~= seen0 + Seq::<Url>::empty());
        }
        while i < there.len()
            invariant
                i <= there@.len(),
                all == urls(there@),
                shown(rows@) == rows0 + to_open(all, seen0, typed@, i as int).map_values(|u: Url| Offer::Open(u)),
                urls(seen@) == seen0 + to_open(all, seen0, typed@, i as int),
            decreases there@.len() - i,
        {
            let ghost before = to_open(all, seen0, typed@, i as int);
            let ghost rows1 = rows@;
            let ghost seen1 = seen@;
            let u = &there[i];
            proof {
                assert(all[i as int] == u@);
            }
            if !is_among(seen, u) && is_match(u, typed) {
                seen.push(u.copy());
                rows.push(Row::Open(u.copy()));
                proof {
                    assert(before.push(u@).map_values(|u: Url| Offer::Open(u)) =~= before.map_values(
                        |u: Url| Offer::Open(u),
                    ).push(Offer::Open(u@)));
                    assert(shown(rows@) =~= shown(rows1).push(Offer::Open(u@)));
                    assert(shown(rows@) =~= rows0 + before.push(u@).map_values(|u: Url| Offer::Open(u)));
                    assert(urls(seen@) =~= urls(seen1).push(u@));
                    assert(urls(seen@) =~= seen0 + before.push(u@));
                }
            }
            i = i + 1;
        }
    }

    fn make_rows(&self, name: &str, rows: &mut Vec<Row>, seen: &Vec<SessionUrl>)
        requires
            self.label,
            name@ == self.typed(),
            urls(seen@) == seq![self.current@] + self.go_to() + self.open(),
        ensures
            shown(final(rows)@) == shown(old(rows)@) + self.make(),
    {
        let ghost rows0 = shown(rows@);
        let ghost hosts = places(self.hosts@);
        let mut i: usize = 0;
        proof {
            assert(shown(rows@) =~= rows0 + Seq::<Offer>::empty());
        }
        while i < self.hosts.len()
            invariant
                i <= self.hosts@.len(),
                hosts == places(self.hosts@),
                shown(rows@) == rows0 + to_make(hosts, name@, urls(seen@), i as int),
            decreases self.hosts@.len() - i,
        {
            let h = &self.hosts[i];
            let ghost rows1 = rows@;
            let ghost before = to_make(hosts, name@, urls(seen@), i as int);
            proof {
                assert(hosts[i as int] == h@);
            }
            let u = h.url(name);
            if !is_read_among(seen, &u) {
                let ghost made = Offer::Create(u@, h@);
                rows.push(Row::Create(u, h.copy()));
                proof {
                    assert(shown(rows@) =~= shown(rows1).push(made));
                    assert(shown(rows@) =~= rows0 + before.push(made));
                }
            }
            i = i + 1;
        }
    }

    fn typed_text(&self) -> (r: String)
        ensures
            r@ == self.typed(),
    {
        let all: Vec<char> = chars_of(self.filter.as_str());
        string_of(trim(all.as_slice()).as_slice())
    }

    fn list(&self, f: &str) -> (rows: Vec<Row>)
        requires
            f@ == self.typed(),
            self.connect is None,
            self.renaming is None,
        ensures
            shown(rows@) == self.listed(),
    {
        let typed: String = lower_str(f);
        let mut rows: Vec<Row> = Vec::new();
        let mut seen: Vec<SessionUrl> = Vec::new();
        seen.push(self.current.copy());
        proof {
            assert(urls(seen@) =~= seq![self.current@]);
        }
        self.go_to_rows(typed.as_str(), &mut rows, &mut seen);
        self.open_rows(typed.as_str(), &mut rows, &mut seen);
        if self.label {
            self.make_rows(f, &mut rows, &seen);
        }
        let ghost body = shown(rows@);
        proof {
            assert(!self.label ==> body =~= body + self.make());
        }
        rows.push(Row::NewHost);
        proof {
            assert(shown(rows@) =~= body + seq![Offer::NewHost]);
        }
        if rows.len() == 1 && !f.is_empty() && !self.label {
            let ghost r0 = rows@;
            rows.insert(0, note());
            proof {
                assert(shown(rows@) =~= seq![Offer::Note(label_rule())] + shown(r0));
            }
        }
        rows
    }

    /// The rows of the picker.
    pub fn rows(&self) -> (rows: Vec<Row>)
        ensures
            shown(rows@) == self.listed(),
    {
        let mut rows: Vec<Row> = Vec::new();
        if self.connect.is_some() {
            // the form is the panel then
            proof {
                assert(shown(rows@) =~= Seq::empty());
            }
            return rows;
        }
        let f: String = self.typed_text();
        if self.renaming.is_some() {
            if !f.as_str().is_empty() {
                if self.label {
                    rows.push(Row::Rename(f));
                } else {
                    rows.push(note());
                }
            }
            proof {
                assert(shown(rows@) =~= self.listed());
            }
            return rows;
        }
        self.list(f.as_str())
    }
}

/// The first row from `from` on that can be landed on; none when there
/// is none.
pub open spec fn pickable_from(rows: Seq<Offer>, from: int) -> Option<int>
    decreases rows.len() - from,
{
    if !(0 <= from < rows.len()) {
        None
    } else if rows[from].pickable() {
        Some(from)
    } else {
        pickable_from(rows, from + 1)
    }
}

/// Where the cursor settles: the first row at or after it worth landing
/// on, else the first of all, else the top.
pub open spec fn settled(rows: Seq<Offer>, cursor: int) -> int {
    let last = if rows.len() == 0 {
        0
    } else {
        rows.len() - 1
    };
    match pickable_from(
        rows,
        if cursor < last {
            cursor
        } else {
            last
        },
    ) {
        Some(i) => i,
        None => match pickable_from(rows, 0) {
            Some(i) => i,
            None => 0,
        },
    }
}

/// Where the cursor goes, by steps of `delta`: the next row that way that
/// can be landed on; it stays when there is none.
pub open spec fn stepped(rows: Seq<Offer>, cursor: int, i: int, delta: int) -> int
    decreases (if delta < 0 { i + 1 } else { rows.len() - i }),
{
    if delta == 0 || i < 0 || i + delta < 0 || i + delta >= rows.len() {
        cursor
    } else if rows[i + delta].pickable() {
        i + delta
    } else {
        stepped(rows, cursor, i + delta, delta)
    }
}

/// A cursor that has settled is on a row that can be picked, when there
/// is one.
pub proof fn law_the_cursor_settles_on_a_row(rows: Seq<Offer>, cursor: int)
    requires
        0 <= cursor,
        exists|i: int| 0 <= i < rows.len() && (#[trigger] rows[i]).pickable(),
    ensures
        0 <= settled(rows, cursor) < rows.len(),
        rows[settled(rows, cursor)].pickable(),
{
    lemma_settles(rows, cursor);
}

proof fn lemma_pickable_from(rows: Seq<Offer>, from: int)
    requires
        0 <= from <= rows.len(),
    ensures
        pickable_from(rows, from) matches Some(i) ==> from <= i < rows.len() && rows[i].pickable(),
        pickable_from(rows, from) is None ==> forall|i: int| from <= i < rows.len() ==> !(#[trigger] rows[i]).pickable(),
    decreases rows.len() - from,
{
    if from < rows.len() && !rows[from].pickable() {
        lemma_pickable_from(rows, from + 1);
    }
}

/// A host to add is always offered, at the very bottom, unless the form
/// is up or a session is being renamed; and this window's own session is
/// never offered.
pub proof fn law_a_host_can_always_be_added(s: Selector)
    requires
        s.connect is None,
        s.renaming is None,
    ensures
        s.listed().len() > 0,
        s.listed().last() == Offer::NewHost,
        forall|i: int| 0 <= i < s.listed().len() ==> (#[trigger] s.listed()[i] matches Offer::GoTo(u) ==> !u.is(s.current@)),
        forall|i: int| 0 <= i < s.listed().len() ==> (#[trigger] s.listed()[i] matches Offer::Open(u) ==> !s.current@.is(u)),
{
    lemma_go_to(urls(s.tabs@), s.current@, lowered(s.typed()), s.tabs@.len() as int);
    let seen = seq![s.current@] + s.go_to();
    lemma_to_open(s.there(), seen, lowered(s.typed()), s.there().len() as int);
    lemma_to_make(places(s.hosts@), s.typed(), seen + s.open(), s.hosts@.len() as int);
    assert(seen[0] == s.current@);
    assert forall|i: int| 0 <= i < s.open().len() implies !s.current@.is(#[trigger] s.open()[i]) by {
        assert(!among(seen, s.open()[i]));
        assert(!seen[0].is(s.open()[i]));
    }
}

/// A session is offered to be opened once, and not beside the tab that
/// it already is; and none is offered to be made where one of that name
/// is offered.
pub proof fn law_no_session_is_offered_twice(s: Selector, i: int, j: int)
    requires
        0 <= i < j < s.listed().len(),
    ensures
        s.listed()[j] matches Offer::Open(u) ==> (s.listed()[i] matches Offer::GoTo(v) ==> !v.is(u)),
        s.listed()[j] matches Offer::Open(u) ==> (s.listed()[i] matches Offer::Open(v) ==> !v.is(u)),
        s.listed()[j] matches Offer::Create(u, _) ==> (s.listed()[i] matches Offer::GoTo(v) ==> !v.reads_as(u)),
        s.listed()[j] matches Offer::Create(u, _) ==> (s.listed()[i] matches Offer::Open(v) ==> !v.reads_as(u)),
{
    if s.connect is None && s.renaming is None {
        let (g, o, m) = (s.go_to(), s.open(), s.make());
        let seen = seq![s.current@] + g;
        lemma_to_open(s.there(), seen, lowered(s.typed()), s.there().len() as int);
        lemma_to_make(places(s.hosts@), s.typed(), seen + o, s.hosts@.len() as int);
        if g.len() + o.len() + m.len() > 0 {
            let rows = g.map_values(|u: Url| Offer::GoTo(u)) + o.map_values(|u: Url| Offer::Open(u)) + m + seq![
                Offer::NewHost,
            ];
            assert(s.listed() == rows);
            if j < g.len() + o.len() && g.len() <= j {
                let u = o[j - g.len()];
                assert(!among(seen, u));
                if i < g.len() {
                    assert(seen[i + 1] == g[i]);
                }
            }
            if g.len() + o.len() <= j < g.len() + o.len() + m.len() && i < g.len() + o.len() {
                let k = j - g.len() - o.len();
                assert(rows[j] == m[k]);
                assert(m[k] is Create);
                assert(!reads_among(seen + o, m[k]->Create_0));
                assert((seen + o)[i + 1] == (if i < g.len() {
                    g[i]
                } else {
                    o[i - g.len()]
                }));
            }
        }
    }
}

proof fn lemma_go_to(tabs: Seq<Url>, current: Url, typed: Seq<char>, n: int)
    ensures
        forall|i: int| 0 <= i < to_go_to(tabs, current, typed, n).len() ==> !(#[trigger] to_go_to(tabs, current, typed, n)[i]).is(current),
    decreases n,
{
    if 0 < n <= tabs.len() {
        lemma_go_to(tabs, current, typed, n - 1);
        let before = to_go_to(tabs, current, typed, n - 1);
        let all = to_go_to(tabs, current, typed, n);
        assert forall|i: int| 0 <= i < all.len() implies !(#[trigger] all[i]).is(current) by {
            if i < before.len() {
                assert(all[i] == before[i]);
            }
        }
    }
}

proof fn lemma_to_open(there: Seq<Url>, seen: Seq<Url>, typed: Seq<char>, n: int)
    ensures
        forall|i: int| 0 <= i < to_open(there, seen, typed, n).len() ==> !among(seen, #[trigger] to_open(there, seen, typed, n)[i]),
        forall|i: int, j: int|
            0 <= i < j < to_open(there, seen, typed, n).len() ==> !(#[trigger] to_open(there, seen, typed, n)[i]).is(
                #[trigger] to_open(there, seen, typed, n)[j],
            ),
    decreases n,
{
    if 0 < n <= there.len() {
        lemma_to_open(there, seen, typed, n - 1);
        let before = to_open(there, seen, typed, n - 1);
        let all = to_open(there, seen, typed, n);
        let u = there[n - 1];
        if among(seen, u) {
            let i = choose|i: int| 0 <= i < seen.len() && (#[trigger] seen[i]).is(u);
            assert((seen + before)[i].is(u));
            assert(among(seen + before, u));
        }
        assert forall|i: int, j: int| 0 <= i < j < all.len() implies !(#[trigger] all[i]).is(#[trigger] all[j]) by {
            assert(all[i] == before[i]);
            if j < before.len() {
                assert(all[j] == before[j]);
            } else if all[i].is(u) {
                assert((seen + before)[seen.len() + i].is(u));
                assert(among(seen + before, u));
            }
        }
    }
}

proof fn lemma_to_make(hosts: Seq<Place>, name: Seq<char>, seen: Seq<Url>, n: int)
    ensures
        forall|i: int| 0 <= i < to_make(hosts, name, seen, n).len() ==> (#[trigger] to_make(hosts, name, seen, n)[i]) is Create,
        forall|i: int|
            0 <= i < to_make(hosts, name, seen, n).len() ==> !reads_among(
                seen,
                (#[trigger] to_make(hosts, name, seen, n)[i])->Create_0,
            ),
    decreases n,
{
    if 0 < n <= hosts.len() {
        lemma_to_make(hosts, name, seen, n - 1);
    }
}

fn first_pickable(rows: &Vec<Row>, from: usize) -> (r: Option<usize>)
    requires
        from <= rows@.len(),
    ensures
        match r {
            Some(i) => pickable_from(shown(rows@), from as int) == Some(i as int),
            None => pickable_from(shown(rows@), from as int) is None,
        },
{
    let mut i: usize = from;
    while i < rows.len()
        invariant
            from <= i <= rows@.len(),
            pickable_from(shown(rows@), i as int) == pickable_from(shown(rows@), from as int),
        decreases rows@.len() - i,
    {
        proof {
            assert(shown(rows@)[i as int] == rows@[i as int]@);
        }
        if rows[i].pickable() {
            return Some(i);
        }
        i = i + 1;
    }
    None
}

pub(crate) fn settle_in(rows: &Vec<Row>, cursor: usize) -> (c: usize)
    ensures
        c == settled(shown(rows@), cursor as int),
{
    let last: usize = if rows.len() == 0 {
        0
    } else {
        rows.len() - 1
    };
    let from: usize = if cursor < last {
        cursor
    } else {
        last
    };
    match first_pickable(rows, from) {
        Some(i) => i,
        None => match first_pickable(rows, 0) {
            Some(i) => i,
            None => 0,
        },
    }
}

impl Selector {
    /// The cursor on the first row at or after it worth landing on.
    pub fn settle(&mut self)
        ensures
            *final(self) == (Selector { cursor: final(self).cursor, ..*old(self) }),
            final(self).cursor == settled(old(self).listed(), old(self).cursor as int),
    {
        let rows: Vec<Row> = self.rows();
        self.cursor = settle_in(&rows, self.cursor);
    }

    /// The cursor on the first row worth landing on.
    pub fn land_on_current(&mut self)
        ensures
            *final(self) == (Selector { cursor: final(self).cursor, ..*old(self) }),
            final(self).cursor == settled(old(self).listed(), old(self).cursor as int),
    {
        self.settle();
    }
}

/// The place of a row in a list, from `i` on; the end where it is not.
pub open spec fn place_of(rows: Seq<Offer>, r: Offer, i: int) -> int
    decreases rows.len() - i,
{
    if 0 <= i < rows.len() && !rows[i].is(r) {
        place_of(rows, r, i + 1)
    } else {
        i
    }
}

/// Where the cursor is once the list has changed: on the row it was on,
/// wherever that is now, else where it settles from where it has come to.
pub open spec fn kept_on(before: Seq<Offer>, cursor: int, after: Seq<Offer>, landing: int) -> int {
    if 0 <= cursor < before.len() && place_of(after, before[cursor], 0) < after.len() {
        place_of(after, before[cursor], 0)
    } else {
        settled(after, landing)
    }
}

/// Where the cursor is once the list alone has changed.
pub open spec fn kept(before: Seq<Offer>, after: Seq<Offer>, cursor: int) -> int {
    kept_on(before, cursor, after, cursor)
}

/// The place of a row is the first there is of it.
pub proof fn lemma_first_place(rows: Seq<Offer>, r: Offer, from: int)
    requires
        0 <= from <= rows.len(),
    ensures
        from <= place_of(rows, r, from) <= rows.len(),
        place_of(rows, r, from) < rows.len() ==> rows[place_of(rows, r, from)].is(r),
        forall|j: int| from <= j < place_of(rows, r, from) ==> !(#[trigger] rows[j]).is(r),
    decreases rows.len() - from,
{
    if from < rows.len() && !rows[from].is(r) {
        lemma_first_place(rows, r, from + 1);
    }
}

/// The cursor settles on a row that can be picked, else at the top.
pub proof fn lemma_settles(rows: Seq<Offer>, cursor: int)
    requires
        0 <= cursor,
    ensures
        (exists|i: int| 0 <= i < rows.len() && (#[trigger] rows[i]).pickable()) ==> 0 <= settled(rows, cursor)
            < rows.len() && rows[settled(rows, cursor)].pickable(),
        (forall|i: int| 0 <= i < rows.len() ==> !(#[trigger] rows[i]).pickable()) ==> settled(rows, cursor) == 0,
{
    let last = if rows.len() == 0 {
        0
    } else {
        rows.len() - 1
    };
    lemma_pickable_from(rows, if cursor < last { cursor } else { last });
    lemma_pickable_from(rows, 0);
}

/// The cursor stays on its row, when the row is still there.
pub proof fn law_the_cursor_keeps_its_row(before: Seq<Offer>, after: Seq<Offer>, cursor: int)
    requires
        0 <= cursor < before.len(),
        exists|i: int| 0 <= i < after.len() && (#[trigger] after[i]).is(before[cursor]),
    ensures
        0 <= kept(before, after, cursor) < after.len(),
        after[kept(before, after, cursor)].is(before[cursor]),
{
    lemma_first_place(after, before[cursor], 0);
}

fn same_row(a: &Row, b: &Row) -> (r: bool)
    ensures
        r == a@.is(b@),
{
    match (a, b) {
        (Row::GoTo(x), Row::GoTo(y)) => x.is(y),
        (Row::Open(x), Row::Open(y)) => x.is(y),
        (Row::Create(x, h), Row::Create(y, k)) => x.is(y) && h.is(k),
        (Row::NewHost, Row::NewHost) => true,
        (Row::Note(x), Row::Note(y)) => *x == *y,
        (Row::Rename(x), Row::Rename(y)) => *x == *y,
        _ => false,
    }
}

pub(crate) fn find_row(rows: &Vec<Row>, r: &Row) -> (i: usize)
    ensures
        i == place_of(shown(rows@), r@, 0),
        i <= rows@.len(),
{
    let mut i: usize = 0;
    while i < rows.len()
        invariant
            i <= rows@.len(),
            place_of(shown(rows@), r@, i as int) == place_of(shown(rows@), r@, 0),
        decreases rows@.len() - i,
    {
        proof {
            assert(shown(rows@)[i as int] == rows@[i as int]@);
        }
        if same_row(&rows[i], r) {
            return i;
        }
        i = i + 1;
    }
    i
}

/// What the listings are once a host's is another.
pub open spec fn relisted(all: Seq<Listing>, h: Place, l: Heard, after: Seq<Listing>) -> bool {
    &&& heard_of(after, h) == Some(l)
    &&& forall|other: Place| other != h ==> #[trigger] heard_of(after, other) == heard_of(all, other)
}

proof fn lemma_listing_elsewhere(all: Seq<Listing>, after: Seq<Listing>, other: Place, n: int)
    requires
        after.len() >= all.len(),
        0 <= n <= after.len(),
        forall|i: int| 0 <= i < after.len() ==> {
            ||| i < all.len() && #[trigger] after[i] == all[i]
            ||| after[i].host@ != other && (i < all.len() ==> all[i].host@ != other)
        },
    ensures
        n <= all.len() ==> listing(after, other, n) == listing(all, other, n),
        n > all.len() ==> listing(after, other, n) == listing(all, other, all.len() as int),
    decreases n,
{
    if n > 0 {
        lemma_listing_elsewhere(all, after, other, n - 1);
        assert(after[n - 1].host@ == other ==> n - 1 < all.len() && after[n - 1] == all[n - 1]);
    }
}

impl Selector {
    /// A host's sessions as they are now.
    pub fn relist(&mut self, h: &Host, loading: Loading)
        ensures
            relisted(old(self).sessions@, h@, loading@, final(self).sessions@),
            *final(self) == (Selector { sessions: final(self).sessions, ..*old(self) }),
    {
        let ghost all = self.sessions@;
        let ghost s = loading@;
        match self.sessions_of(h) {
            Some(i) => {
                let new = Listing { host: h.copy(), loading };
                self.sessions.set(i, new);
                proof {
                    let after = self.sessions@;
                    assert(after[i as int].host@ == h@);
                    lemma_relisted_at(all, after, h@, i as int);
                    assert forall|other: Place| other != h@ implies #[trigger] heard_of(after, other) == heard_of(
                        all,
                        other,
                    ) by {
                        lemma_listing_elsewhere(all, after, other, after.len() as int);
                    }
                }
            },
            None => {
                let new = Listing { host: h.copy(), loading };
                self.sessions.push(new);
                proof {
                    let after = self.sessions@;
                    assert forall|j: int| 0 <= j < all.len() implies (#[trigger] after[j]).host@ != h@ by {
                        assert(all[j].host@ != h@);
                    }
                    lemma_no_listing(after, h@, all.len() as int);
                    assert(listing(after, h@, after.len() as int) == Some(s));
                    assert forall|other: Place| other != h@ implies #[trigger] heard_of(after, other) == heard_of(
                        all,
                        other,
                    ) by {
                        lemma_listing_elsewhere(all, after, other, after.len() as int);
                    }
                }
            },
        }
    }
}

proof fn lemma_no_listing(all: Seq<Listing>, h: Place, n: int)
    requires
        0 <= n <= all.len(),
        forall|j: int| 0 <= j < n ==> (#[trigger] all[j]).host@ != h,
    ensures
        listing(all, h, n) is None,
    decreases n,
{
    if n > 0 {
        lemma_no_listing(all, h, n - 1);
    }
}

proof fn lemma_relisted_at(all: Seq<Listing>, after: Seq<Listing>, h: Place, i: int)
    requires
        0 <= i < all.len() == after.len(),
        forall|j: int| 0 <= j < i ==> (#[trigger] all[j]).host@ != h,
        forall|j: int| 0 <= j < all.len() && j != i ==> #[trigger] after[j] == all[j],
        after[i].host@ == h,
    ensures
        heard_of(after, h) == Some(after[i].loading@),
{
    assert forall|j: int| 0 <= j < i implies (#[trigger] after[j]).host@ != h by {
        assert(after[j] == all[j]);
    }
    lemma_no_listing(after, h, i);
    assert(listing(after, h, i + 1) is Some);
    lemma_listing_settled(after, h, i + 1, after.len() as int);
}

/// Everything that is offered can be picked but a note.
pub proof fn law_all_but_notes_can_be_picked(u: Url, h: Place, t: Seq<char>)
    ensures
        Offer::GoTo(u).pickable() && Offer::Open(u).pickable() && Offer::Create(u, h).pickable()
            && Offer::NewHost.pickable() && Offer::Rename(t).pickable(),
        !Offer::Note(t).pickable(),
{
}

/// What is offered is called by its session's name, and by its host where that
/// is elsewhere; a name or a note is what it says.
pub proof fn law_an_offer_is_called_by_its_session(u: Url, h: Place, t: Seq<char>)
    ensures
        Offer::GoTo(u).title() == u.session && Offer::Open(u).title() == u.session && Offer::Create(u, h).title()
            == u.session,
        Offer::Note(t).title() == t && Offer::Rename(t).title() == t,
        u.local() ==> Offer::GoTo(u).whereabouts() is None && Offer::Open(u).whereabouts() is None,
        !u.local() ==> Offer::GoTo(u).whereabouts() == Some(u.arg) && Offer::Open(u).whereabouts() == Some(u.arg)
            && Offer::Create(u, h).whereabouts() == Some(u.arg),
        Offer::NewHost.whereabouts() is None && Offer::Note(t).whereabouts() is None && Offer::Rename(t).whereabouts()
            is None,
        Offer::Note(t).action().len() == 0,
{
}

/// Two offers are the same only if they are of one kind.
pub proof fn law_offers_of_two_kinds_are_not_the_same(a: Url, b: Url, h: Place, s: Seq<char>)
    ensures
        !Offer::GoTo(a).is(Offer::Open(b)) && !Offer::Open(a).is(Offer::GoTo(b)),
        !Offer::GoTo(a).is(Offer::Create(b, h)) && !Offer::Create(a, h).is(Offer::Open(b)),
        !Offer::Note(s).is(Offer::Rename(s)) && !Offer::NewHost.is(Offer::Note(s)),
        Offer::GoTo(a).is(Offer::GoTo(b)) == a.is(b),
        Offer::Open(a).is(Offer::Open(b)) == a.is(b),
        Offer::NewHost.is(Offer::NewHost),
{
}

/// What is typed matches a session whose name or host has it, and nothing
/// typed matches them all.
pub proof fn law_what_is_typed_is_looked_for(u: Url, typed: Seq<char>)
    ensures
        matches_typed(u, Seq::empty()),
        holds(lowered(u.session), typed) ==> matches_typed(u, typed),
        holds(lowered(u.arg), typed) ==> matches_typed(u, typed),
        typed.len() > 0 && !holds(lowered(u.session), typed) && !holds(lowered(u.arg), typed) ==> !matches_typed(u, typed),
{
}

/// The tabs to go to are those that match and are not the one here, in their
/// order.
pub proof fn law_the_tabs_to_go_to(tabs: Seq<Url>, current: Url, typed: Seq<char>, n: int)
    requires
        0 <= n <= tabs.len(),
    ensures
        forall|i: int|
            0 <= i < n && !(#[trigger] tabs[i]).is(current) && matches_typed(tabs[i], typed) ==> to_go_to(
                tabs,
                current,
                typed,
                n,
            ).contains(tabs[i]),
        forall|k: int|
            0 <= k < to_go_to(tabs, current, typed, n).len() ==> !(#[trigger] to_go_to(tabs, current, typed, n)[k]).is(
                current,
            ) && matches_typed(to_go_to(tabs, current, typed, n)[k], typed),
        (forall|i: int| 0 <= i < n ==> !(#[trigger] tabs[i]).is(current) && matches_typed(tabs[i], typed)) ==> to_go_to(
            tabs,
            current,
            typed,
            n,
        ) == tabs.take(n),
    decreases n,
{
    let all = to_go_to(tabs, current, typed, n);
    if n > 0 {
        law_the_tabs_to_go_to(tabs, current, typed, n - 1);
        let before = to_go_to(tabs, current, typed, n - 1);
        assert forall|i: int| 0 <= i < n && !(#[trigger] tabs[i]).is(current) && matches_typed(tabs[i], typed) implies all.contains(
            tabs[i],
        ) by {
            if i < n - 1 {
                assert(before.contains(tabs[i]));
                let k = choose|k: int| 0 <= k < before.len() && before[k] == tabs[i];
                assert(all[k] == tabs[i]);
            } else {
                assert(all[all.len() - 1] == tabs[i]);
            }
        }
        assert forall|k: int| 0 <= k < all.len() implies !(#[trigger] all[k]).is(current) && matches_typed(all[k], typed) by {
            if k < before.len() {
                assert(all[k] == before[k]);
            }
        }
        if forall|i: int| 0 <= i < n ==> !(#[trigger] tabs[i]).is(current) && matches_typed(tabs[i], typed) {
            assert(!tabs[n - 1].is(current));
            assert(all =~= tabs.take(n));
        }
    } else {
        assert(all =~= tabs.take(0));
    }
}

/// A session can be made on each host that has none that reads so.
pub proof fn law_a_session_can_be_made_where_there_is_none(hosts: Seq<Place>, name: Seq<char>, seen: Seq<Url>, n: int)
    requires
        0 <= n <= hosts.len(),
    ensures
        forall|i: int|
            0 <= i < n && !reads_among(seen, (#[trigger] hosts[i]).url(name)) ==> to_make(hosts, name, seen, n).contains(
                Offer::Create(hosts[i].url(name), hosts[i]),
            ),
        forall|k: int|
            0 <= k < to_make(hosts, name, seen, n).len() ==> ({
                let o = #[trigger] to_make(hosts, name, seen, n)[k];
                o is Create && o->Create_0 == o->Create_1.url(name) && !reads_among(seen, o->Create_0)
            }),
    decreases n,
{
    let all = to_make(hosts, name, seen, n);
    if n > 0 {
        law_a_session_can_be_made_where_there_is_none(hosts, name, seen, n - 1);
        let before = to_make(hosts, name, seen, n - 1);
        assert forall|i: int| 0 <= i < n && !reads_among(seen, (#[trigger] hosts[i]).url(name)) implies all.contains(
            Offer::Create(hosts[i].url(name), hosts[i]),
        ) by {
            let o = Offer::Create(hosts[i].url(name), hosts[i]);
            if i < n - 1 {
                assert(before.contains(o));
                let k = choose|k: int| 0 <= k < before.len() && before[k] == o;
                assert(all[k] == o);
            } else {
                assert(all[all.len() - 1] == o);
            }
        }
        assert forall|k: int| 0 <= k < all.len() implies ({
            let o = #[trigger] all[k];
            o is Create && o->Create_0 == o->Create_1.url(name) && !reads_among(seen, o->Create_0)
        }) by {
            if k < before.len() {
                assert(all[k] == before[k]);
            }
        }
    }
}

/// A host is named by what is typed without white space round it, with the
/// provider that is chosen; one with a slash, or none, is no name.
pub proof fn law_a_host_is_named_by_what_is_typed(c: Connect)
    ensures
        trimmed(c.host@.text).len() == 0 ==> c.named() is None,
        trimmed(c.host@.text).contains('/') ==> c.named() is None,
        trimmed(c.host@.text).len() > 0 && !trimmed(c.host@.text).contains('/') ==> c.named() == Some(
            Place {
                provider: if c.provider < c.providers@.len() {
                    c.providers@[c.provider as int]@
                } else {
                    "ssh"@
                },
                arg: trimmed(c.host@.text),
            },
        ),
{
}

} // verus!
