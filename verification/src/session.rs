//! Sessions and the places they live: a session's URL, and the host it
//! is on.

use vstd::prelude::*;
use vstd::string::*;

use crate::text::same;

verus! {

/// Where a session is: the provider that reaches its host, the host as
/// the provider takes it, the session's label there, and its identity
/// once that is known.
pub struct SessionUrl {
    pub provider: String,
    pub arg: String,
    pub session: String,
    pub id: Option<String>,
}

/// A [`SessionUrl`] as a value.
#[verifier::ext_equal]
pub struct Url {
    pub provider: Seq<char>,
    pub arg: Seq<char>,
    pub session: Seq<char>,
    pub id: Option<Seq<char>>,
}

/// A string that may be absent, as a value.
pub open spec fn maybe(s: Option<String>) -> Option<Seq<char>> {
    match s {
        Some(s) => Some(s@),
        None => None,
    }
}

impl View for SessionUrl {
    type V = Url;

    open spec fn view(&self) -> Url {
        Url { provider: self.provider@, arg: self.arg@, session: self.session@, id: maybe(self.id) }
    }
}

/// The URLs of a list, as values.
pub open spec fn urls(s: Seq<SessionUrl>) -> Seq<Url> {
    s.map_values(|u: SessionUrl| u@)
}

impl Url {
    /// On this machine.
    pub open spec fn local(self) -> bool {
        self.provider == "local"@
    }

    /// On one host.
    pub open spec fn beside(self, other: Url) -> bool {
        self.provider == other.provider && self.arg == other.arg
    }

    /// One session: on one host, and of one identity, or -- while either
    /// has none that is known -- under one label.
    pub open spec fn is(self, other: Url) -> bool {
        &&& self.beside(other)
        &&& match (self.id, other.id) {
            (Some(a), Some(b)) => a == b,
            _ => self.session == other.session,
        }
    }

    /// One label on one host.
    pub open spec fn reads_as(self, other: Url) -> bool {
        self.beside(other) && self.session == other.session
    }
}

/// A session is itself, and one session is the other whichever is asked
/// about.
pub proof fn law_sameness_goes_both_ways(a: Url, b: Url)
    ensures
        a.is(a),
        a.is(b) == b.is(a),
{
}

/// Sessions that are known by identity are one only if they have one:
/// then sameness carries over from one to the next.
pub proof fn law_identity_carries_over(a: Url, b: Url, c: Url)
    requires
        b.id is Some,
        a.id is Some,
        c.id is Some,
        a.is(b),
        b.is(c),
    ensures
        a.is(c),
{
}

/// A string that may be absent, copied.
pub fn copy_maybe(s: &Option<String>) -> (r: Option<String>)
    ensures
        maybe(r) == maybe(*s),
{
    match s {
        Some(s) => Some(s.clone()),
        None => None,
    }
}

impl SessionUrl {
    /// The session of this label on this machine.
    pub fn local(session: &str) -> (u: SessionUrl)
        ensures
            u@ == (Url { provider: "local"@, arg: Seq::empty(), session: session@, id: None }),
    {
        SessionUrl { provider: "local".to_owned(), arg: String::new(), session: session.to_owned(), id: None }
    }

    /// The same URL.
    pub fn copy(&self) -> (u: SessionUrl)
        ensures
            u@ == self@,
    {
        SessionUrl {
            provider: self.provider.clone(),
            arg: self.arg.clone(),
            session: self.session.clone(),
            id: copy_maybe(&self.id),
        }
    }

    /// Whether the session is on this machine.
    pub fn is_local(&self) -> (r: bool)
        ensures
            r == self@.local(),
    {
        same(self.provider.as_str(), "local")
    }

    /// Whether the two are on one host.
    pub fn is_beside(&self, other: &SessionUrl) -> (r: bool)
        ensures
            r == self@.beside(other@),
    {
        self.provider == other.provider && self.arg == other.arg
    }

    /// Whether the two are one session.
    pub fn is(&self, other: &SessionUrl) -> (r: bool)
        ensures
            r == self@.is(other@),
    {
        self.is_beside(other) && match (&self.id, &other.id) {
            (Some(a), Some(b)) => *a == *b,
            _ => self.session == other.session,
        }
    }

    /// Whether the two have one label on one host.
    pub fn reads_as(&self, other: &SessionUrl) -> (r: bool)
        ensures
            r == self@.reads_as(other@),
    {
        self.is_beside(other) && self.session == other.session
    }

    /// The same session, its identity known.
    pub fn with_id(&self, id: &str) -> (u: SessionUrl)
        ensures
            u@ == (Url { id: Some(id@), ..self@ }),
    {
        SessionUrl {
            provider: self.provider.clone(),
            arg: self.arg.clone(),
            session: self.session.clone(),
            id: Some(id.to_owned()),
        }
    }

    /// The same session under another label.
    pub fn with_session(&self, session: &str) -> (u: SessionUrl)
        ensures
            u@ == (Url { session: session@, ..self@ }),
    {
        SessionUrl {
            provider: self.provider.clone(),
            arg: self.arg.clone(),
            session: session.to_owned(),
            id: copy_maybe(&self.id),
        }
    }
}

/// The URL with what the session says it is: its identity, and its label
/// as it is now; nothing changes while the session says nothing.
pub open spec fn identify(u: Url, id: Seq<char>, label: Seq<char>) -> Url {
    if id.len() == 0 {
        u
    } else {
        Url {
            id: Some(id),
            session: if label.len() == 0 {
                u.session
            } else {
                label
            },
            ..u
        }
    }
}

/// The URL with what the session's metalog says it is: its identity,
/// and its label as it is now.
pub fn identified(url: &SessionUrl, id: &str, label: &str) -> (u: SessionUrl)
    ensures
        u@ == identify(url@, id@, label@),
{
    if id.is_empty() {
        return url.copy();
    }
    let u = url.with_id(id);
    if label.is_empty() {
        u
    } else {
        u.with_session(label)
    }
}

/// A rename made anywhere: the label the session says, when it is this
/// session that says it and it says another.
pub open spec fn relabel(u: Url, id: Seq<char>, label: Seq<char>) -> Option<Seq<char>> {
    if id.len() > 0 && u.id == Some(id) && label.len() > 0 && u.session != label {
        Some(label)
    } else {
        None
    }
}

/// The label that a session is to be shown under from now on, if another
/// than it is.
pub fn relabelled(url: &SessionUrl, id: &str, label: &str) -> (r: Option<String>)
    ensures
        maybe(r) == relabel(url@, id@, label@),
{
    let ours = match &url.id {
        Some(i) => same(i.as_str(), id),
        None => false,
    };
    if !id.is_empty() && ours && !label.is_empty() && !same(url.session.as_str(), label) {
        Some(label.to_owned())
    } else {
        None
    }
}

/// A session as its host lists it.
pub struct SessionInfo {
    pub id: String,
    pub label: String,
}

/// A [`SessionInfo`] as a value.
#[verifier::ext_equal]
pub struct Info {
    pub id: Seq<char>,
    pub label: Seq<char>,
}

impl View for SessionInfo {
    type V = Info;

    open spec fn view(&self) -> Info {
        Info { id: self.id@, label: self.label@ }
    }
}

/// The sessions of a list, as values.
pub open spec fn infos(s: Seq<SessionInfo>) -> Seq<Info> {
    s.map_values(|i: SessionInfo| i@)
}

impl SessionInfo {
    /// The same session.
    pub fn copy(&self) -> (i: SessionInfo)
        ensures
            i@ == self@,
    {
        SessionInfo { id: self.id.clone(), label: self.label.clone() }
    }
}

/// A place sessions live: this machine's daemon (`local`), or a
/// destination through a provider.
#[derive(Debug)]
pub struct Host {
    pub provider: String,
    pub arg: String,
}

/// A [`Host`] as a value.
#[verifier::ext_equal]
pub struct Place {
    pub provider: Seq<char>,
    pub arg: Seq<char>,
}

impl View for Host {
    type V = Place;

    open spec fn view(&self) -> Place {
        Place { provider: self.provider@, arg: self.arg@ }
    }
}

/// The hosts of a list, as values.
pub open spec fn places(s: Seq<Host>) -> Seq<Place> {
    s.map_values(|h: Host| h@)
}

impl Place {
    /// This machine.
    pub open spec fn here() -> Place {
        Place { provider: "local"@, arg: Seq::empty() }
    }

    /// The host a session is on.
    pub open spec fn of(u: Url) -> Place {
        Place {
            provider: u.provider,
            arg: if u.local() {
                Seq::empty()
            } else {
                u.arg
            },
        }
    }

    /// The session of a label here.
    pub open spec fn url(self, session: Seq<char>) -> Url {
        Url { provider: self.provider, arg: self.arg, session, id: None }
    }

    /// One of the sessions here.
    pub open spec fn url_of(self, s: Info) -> Url {
        Url { provider: self.provider, arg: self.arg, session: s.label, id: Some(s.id) }
    }

    /// How the host reads: `local`, or the host with the provider in
    /// parentheses.
    pub open spec fn parts(self) -> (Seq<char>, Seq<char>) {
        if self.provider == "local"@ {
            ("local"@, Seq::empty())
        } else {
            (self.arg, "("@ + self.provider + ")"@)
        }
    }
}

/// `(s)`.
pub fn parenthesised(s: &str) -> (r: String)
    ensures
        r@ == "("@ + s@ + ")"@,
{
    let mut r: String = "(".to_owned();
    r.append(s);
    r.append(")");
    r
}

impl Host {
    /// This machine.
    pub fn local() -> (h: Host)
        ensures
            h@ == Place::here(),
    {
        Host { provider: "local".to_owned(), arg: String::new() }
    }

    /// The same host.
    pub fn copy(&self) -> (h: Host)
        ensures
            h@ == self@,
    {
        Host { provider: self.provider.clone(), arg: self.arg.clone() }
    }

    /// The host a session is on.
    pub fn of(u: &SessionUrl) -> (h: Host)
        ensures
            h@ == Place::of(u@),
    {
        if u.is_local() {
            Host { provider: u.provider.clone(), arg: String::new() }
        } else {
            Host { provider: u.provider.clone(), arg: u.arg.clone() }
        }
    }

    /// Whether the two are one host.
    pub fn is(&self, other: &Host) -> (r: bool)
        ensures
            r == (self@ == other@),
    {
        let r = self.provider == other.provider && self.arg == other.arg;
        proof {
            if r {
                assert(self@ =~= other@);
            }
        }
        r
    }

    /// Whether it is this machine.
    pub fn is_local(&self) -> (r: bool)
        ensures
            r == (self@.provider == "local"@),
    {
        same(self.provider.as_str(), "local")
    }

    /// The URL of one of this host's sessions, identity and all.
    pub fn url_of(&self, s: &SessionInfo) -> (u: SessionUrl)
        ensures
            u@ == self@.url_of(s@),
    {
        SessionUrl {
            provider: self.provider.clone(),
            arg: self.arg.clone(),
            session: s.label.clone(),
            id: Some(s.id.clone()),
        }
    }

    /// The URL of the session of a label on this host.
    pub fn url(&self, session: &str) -> (u: SessionUrl)
        ensures
            u@ == self@.url(session@),
    {
        SessionUrl { provider: self.provider.clone(), arg: self.arg.clone(), session: session.to_owned(), id: None }
    }

    /// How the host reads: `local`, or the host with the provider in
    /// parentheses.
    pub fn parts(&self) -> (r: (String, String))
        ensures
            (r.0@, r.1@) == self@.parts(),
    {
        if self.is_local() {
            ("local".to_owned(), String::new())
        } else {
            (self.arg.clone(), parenthesised(self.provider.as_str()))
        }
    }
}

/// How a session reads in the picker: its label first, then the host,
/// then the provider in parentheses.
pub fn session_parts(u: &SessionUrl) -> (r: (String, String, String))
    ensures
        r.0@ == u@.session,
        r.1@ == u@.arg,
        r.2@ == "("@ + u@.provider + ")"@,
{
    (u.session.clone(), u.arg.clone(), parenthesised(u.provider.as_str()))
}

/// A host in a list.
pub open spec fn listed(list: Seq<Place>, h: Place) -> bool {
    list.contains(h)
}

/// Whether a host is in a list.
pub fn has_host(list: &Vec<Host>, h: &Host) -> (r: bool)
    ensures
        r == listed(places(list@), h@),
{
    let mut i: usize = 0;
    while i < list.len()
        invariant
            i <= list@.len(),
            forall|j: int| 0 <= j < i ==> (#[trigger] list@[j])@ != h@,
        decreases list@.len() - i,
    {
        if list[i].is(h) {
            proof {
                assert(places(list@)[i as int] == h@);
            }
            return true;
        }
        i = i + 1;
    }
    proof {
        assert forall|j: int| 0 <= j < places(list@).len() implies places(list@)[j] != h@ by {
            assert(list@[j]@ != h@);
        }
    }
    false
}

/// Two are one session where they are on one host and have one id; where
/// either's id is not known, where they have one name.
pub proof fn law_a_session_is_told_by_its_id(a: Url, b: Url)
    ensures
        a.is(b) ==> a.provider == b.provider && a.arg == b.arg,
        a.provider == b.provider && a.arg == b.arg && a.id is Some && b.id is Some ==> (a.is(b) <==> a.id == b.id),
        a.provider == b.provider && a.arg == b.arg && (a.id is None || b.id is None) ==> (a.is(b) <==> a.session
            == b.session),
        a.reads_as(b) <==> a.provider == b.provider && a.arg == b.arg && a.session == b.session,
{
}

/// A session that tells its id has it, and its name where it tells one; one
/// that tells none is as it was.
pub proof fn law_a_session_tells_its_id(u: Url, id: Seq<char>, label: Seq<char>)
    ensures
        id.len() == 0 ==> identify(u, id, label) == u,
        id.len() > 0 ==> identify(u, id, label).id == Some(id) && identify(u, id, label).beside(u),
        id.len() > 0 && label.len() > 0 ==> identify(u, id, label).session == label,
        id.len() > 0 && label.len() == 0 ==> identify(u, id, label).session == u.session,
        relabel(u, id, label) is Some <==> id.len() > 0 && u.id == Some(id) && label.len() > 0 && u.session != label,
        relabel(u, id, label) matches Some(l) ==> l == label,
{
}

/// A host is where its sessions are: each of them is on it, with its own name
/// and id, and a new one with none.
pub proof fn law_a_hosts_sessions_are_on_it(h: Place, s: Info, name: Seq<char>)
    ensures
        h.url_of(s).provider == h.provider && h.url_of(s).arg == h.arg && h.url_of(s).session == s.label && h.url_of(s).id
            == Some(s.id),
        h.url(name).provider == h.provider && h.url(name).arg == h.arg && h.url(name).session == name && h.url(name).id
            is None,
        h.provider != "local"@ ==> Place::of(h.url_of(s)) == h && Place::of(h.url(name)) == h,
        Place::of(Place::here().url(name)) == Place::here(),
        h.provider != "local"@ ==> h.parts().0 == h.arg && h.parts().1 == "("@ + h.provider + ")"@,
        h.provider == "local"@ ==> h.parts().0 == "local"@ && h.parts().1.len() == 0,
{
}

} // verus!
