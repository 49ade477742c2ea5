//! What the app remembers of sessions: which each host had when it was
//! last asked, and which were attached to lately.

use vstd::prelude::*;
use vstd::string::*;

use crate::session::{infos, urls, Host, Info, Place, SessionInfo, SessionUrl, Url};
use crate::tabbed::{fields, fields_of, law_fields_are_read_back, law_lines_are_read_back, one_line, tabbed, write_lines, written};
use crate::text::{chars_of, lines, lines_of, slice_of, string_of, views};

verus! {

/// A session that a host had when it was last asked.
pub struct Known {
    pub host: Host,
    pub session: SessionInfo,
}

impl View for Known {
    type V = (Place, Info);

    open spec fn view(&self) -> (Place, Info) {
        (self.host@, self.session@)
    }
}

/// A list of what hosts had, as values.
pub open spec fn had_all(s: Seq<Known>) -> Seq<(Place, Info)> {
    s.map_values(|k: Known| k@)
}

/// A session's line: provider, host, identity, label.
pub open spec fn known_line(k: (Place, Info)) -> Seq<char> {
    tabbed(seq![k.0.provider, k.0.arg, k.1.id, k.1.label])
}

/// The session that a line tells of, where it has all four fields.
pub open spec fn known_at(line: Seq<char>) -> Option<(Place, Info)> {
    let f = fields_of(line);
    if f.len() == 4 {
        Some((Place { provider: f[0], arg: f[1] }, Info { id: f[2], label: f[3] }))
    } else {
        None
    }
}

/// The sessions that the first `n` lines tell of.
pub open spec fn known_in(l: Seq<Seq<char>>, n: int) -> Seq<(Place, Info)>
    decreases n,
{
    if n <= 0 || n > l.len() {
        Seq::empty()
    } else {
        match known_at(l[n - 1]) {
            Some(k) => known_in(l, n - 1).push(k),
            None => known_in(l, n - 1),
        }
    }
}

/// The session is among those known.
pub open spec fn is_known(k: Seq<(Place, Info)>, u: Url) -> bool {
    exists|i: int| 0 <= i < k.len() && (#[trigger] k[i]).0 == Place::of(u) && k[i].0.url_of(k[i].1).is(u)
}

/// A session attached to, as its host would list it.
pub open spec fn info_of(u: Url) -> Info {
    Info {
        id: match u.id {
            Some(id) => id,
            None => Seq::empty(),
        },
        label: u.session,
    }
}

/// What is known, and the first `n` of the sessions attached to lately
/// that it lacks.
pub open spec fn with_recent(k: Seq<(Place, Info)>, recent: Seq<Url>, n: int) -> Seq<(Place, Info)>
    decreases n,
{
    if n <= 0 || n > recent.len() {
        k
    } else {
        let before = with_recent(k, recent, n - 1);
        let u = recent[n - 1];
        if is_known(before, u) {
            before
        } else {
            before.push((Place::of(u), info_of(u)))
        }
    }
}

/// The sessions each host had when last asked, and what the sessions
/// attached to lately say.
pub open spec fn sessions_known(text: Seq<char>, recent: Seq<Url>) -> Seq<(Place, Info)> {
    with_recent(known_in(lines_of(text), lines_of(text).len() as int), recent, recent.len() as int)
}

/// The sessions that a host had, of the first `n` known.
pub open spec fn sessions_at(k: Seq<(Place, Info)>, h: Place, n: int) -> Seq<Info>
    decreases n,
{
    if n <= 0 || n > k.len() {
        Seq::empty()
    } else if k[n - 1].0 == h {
        sessions_at(k, h, n - 1).push(k[n - 1].1)
    } else {
        sessions_at(k, h, n - 1)
    }
}

pub(crate) fn info(u: &SessionUrl) -> (i: SessionInfo)
    ensures
        i@ == info_of(u@),
{
    SessionInfo {
        id: match &u.id {
            Some(id) => id.clone(),
            None => String::new(),
        },
        label: u.session.clone(),
    }
}

fn knows(k: &Vec<Known>, u: &SessionUrl) -> (r: bool)
    ensures
        r == is_known(had_all(k@), u@),
{
    let h = Host::of(u);
    let mut i: usize = 0;
    while i < k.len()
        invariant
            i <= k@.len(),
            h@ == Place::of(u@),
            forall|j: int|
                0 <= j < i ==> !((#[trigger] had_all(k@)[j]).0 == Place::of(u@) && had_all(k@)[j].0.url_of(
                    had_all(k@)[j].1,
                ).is(u@)),
        decreases k@.len() - i,
    {
        proof {
            assert(had_all(k@)[i as int] == k@[i as int]@);
        }
        if k[i].host.is(&h) && h.url_of(&k[i].session).is(u) {
            return true;
        }
        i = i + 1;
    }
    false
}

fn read_known(text: &str) -> (r: Vec<Known>)
    ensures
        had_all(r@) == known_in(lines_of(text@), lines_of(text@).len() as int),
{
    let all: Vec<char> = chars_of(text);
    let l: Vec<Vec<char>> = lines(all.as_slice());
    let mut out: Vec<Known> = Vec::new();
    let mut i: usize = 0;
    proof {
        assert(had_all(out@) =~= Seq::<(Place, Info)>::empty());
    }
    while i < l.len()
        invariant
            i <= l@.len(),
            views(l@) == lines_of(text@),
            had_all(out@) == known_in(views(l@), i as int),
        decreases l@.len() - i,
    {
        let ghost before = out@;
        let f: Vec<Vec<char>> = fields(l[i].as_slice());
        proof {
            assert(views(l@)[i as int] == l@[i as int]@);
            assert(views(f@).len() == f@.len());
        }
        if f.len() == 4 {
            let k = Known {
                host: Host { provider: string_of(f[0].as_slice()), arg: string_of(f[1].as_slice()) },
                session: SessionInfo { id: string_of(f[2].as_slice()), label: string_of(f[3].as_slice()) },
            };
            proof {
                assert(views(f@)[0] == f@[0]@ && views(f@)[1] == f@[1]@ && views(f@)[2] == f@[2]@ && views(f@)[3]
                    == f@[3]@);
            }
            out.push(k);
            proof {
                assert(had_all(out@) =~= had_all(before).push(k@));
            }
        }
        i = i + 1;
    }
    out
}

/// The sessions each host had when last asked (the file, a line per
/// session: provider, host, identity, label), and what the sessions
/// attached to lately say: what the picker shows before a host answers.
pub fn known_sessions(text: &str, recent: &Vec<SessionUrl>) -> (r: Vec<Known>)
    ensures
        had_all(r@) == sessions_known(text@, urls(recent@)),
{
    let mut out: Vec<Known> = read_known(text);
    let ghost file = had_all(out@);
    let mut i: usize = 0;
    while i < recent.len()
        invariant
            i <= recent@.len(),
            had_all(out@) == with_recent(file, urls(recent@), i as int),
        decreases recent@.len() - i,
    {
        proof {
            assert(urls(recent@)[i as int] == recent@[i as int]@);
        }
        if !knows(&out, &recent[i]) {
            let ghost before = out@;
            let k = Known { host: Host::of(&recent[i]), session: info(&recent[i]) };
            out.push(k);
            proof {
                assert(had_all(out@) =~= had_all(before).push(k@));
            }
        }
        i = i + 1;
    }
    out
}

/// The sessions that a host had.
pub fn sessions_of(k: &Vec<Known>, h: &Host) -> (r: Vec<SessionInfo>)
    ensures
        infos(r@) == sessions_at(had_all(k@), h@, k@.len() as int),
{
    let mut out: Vec<SessionInfo> = Vec::new();
    let mut i: usize = 0;
    proof {
        assert(infos(out@) =~= Seq::<Info>::empty());
    }
    while i < k.len()
        invariant
            i <= k@.len(),
            infos(out@) == sessions_at(had_all(k@), h@, i as int),
        decreases k@.len() - i,
    {
        let ghost before = out@;
        proof {
            assert(had_all(k@)[i as int] == k@[i as int]@);
        }
        if k[i].host.is(h) {
            out.push(k[i].session.copy());
            proof {
                assert(infos(out@) =~= infos(before).push(k@[i as int].session@));
            }
        }
        i = i + 1;
    }
    out
}

/// `a` comes before `b`: at the first character from `i` on where they
/// differ it has the lesser one, or it ends there.
pub open spec fn ahead(a: Seq<char>, b: Seq<char>, i: int) -> bool
    decreases a.len() - i,
{
    if !(0 <= i < a.len()) {
        i < b.len()
    } else if i >= b.len() {
        false
    } else if a[i] != b[i] {
        (a[i] as u32) < (b[i] as u32)
    } else {
        ahead(a, b, i + 1)
    }
}

fn is_ahead(a: &[char], b: &[char]) -> (r: bool)
    ensures
        r == ahead(a@, b@, 0),
{
    let mut i: usize = 0;
    let n: usize = b.len();
    while i < a.len()
        invariant
            i <= a@.len(),
            n == b@.len(),
            ahead(a@, b@, i as int) == ahead(a@, b@, 0),
        decreases a@.len() - i,
    {
        if i >= n {
            return false;
        }
        if a[i] != b[i] {
            return (a[i] as u32) < (b[i] as u32);
        }
        i = i + 1;
    }
    i < n
}

/// Where in a list, from `i` on, a line goes: before the first that it
/// is ahead of.
pub open spec fn goes_at(l: Seq<Seq<char>>, x: Seq<char>, i: int) -> int
    decreases l.len() - i,
{
    if 0 <= i < l.len() && !ahead(x, l[i], 0) {
        goes_at(l, x, i + 1)
    } else {
        i
    }
}

/// The first `n` lines in order.
pub open spec fn in_order(l: Seq<Seq<char>>, n: int) -> Seq<Seq<char>>
    decreases n,
{
    if n <= 0 || n > l.len() {
        Seq::empty()
    } else {
        let before = in_order(l, n - 1);
        before.insert(goes_at(before, l[n - 1], 0), l[n - 1])
    }
}

proof fn lemma_goes_at(l: Seq<Seq<char>>, x: Seq<char>, i: int)
    requires
        0 <= i <= l.len(),
    ensures
        i <= goes_at(l, x, i) <= l.len(),
        goes_at(l, x, i) < l.len() ==> ahead(x, l[goes_at(l, x, i)], 0),
        forall|j: int| i <= j < goes_at(l, x, i) ==> !ahead(x, #[trigger] l[j], 0),
    decreases l.len() - i,
{
    if i < l.len() && !ahead(x, l[i], 0) {
        lemma_goes_at(l, x, i + 1);
    }
}

proof fn lemma_ahead_carries_over(a: Seq<char>, b: Seq<char>, c: Seq<char>, i: int)
    requires
        i >= 0,
        ahead(a, b, i),
        ahead(b, c, i),
    ensures
        ahead(a, c, i),
    decreases a.len() - i,
{
    if i < a.len() && i < b.len() && i < c.len() && a[i] == b[i] && b[i] == c[i] {
        lemma_ahead_carries_over(a, b, c, i + 1);
    }
}

/// The lines are in order, no line ahead of one before it, and they are
/// the same lines.
pub proof fn law_the_lines_are_in_order(l: Seq<Seq<char>>, n: int)
    requires
        0 <= n <= l.len(),
    ensures
        in_order(l, n).len() == n,
        forall|i: int, j: int| 0 <= i < j < n ==> !ahead(#[trigger] in_order(l, n)[j], #[trigger] in_order(l, n)[i], 0),
        forall|x: Seq<char>| #[trigger] in_order(l, n).contains(x) <==> l.take(n).contains(x),
    decreases n,
{
    if n > 0 {
        law_the_lines_are_in_order(l, n - 1);
        let before = in_order(l, n - 1);
        let x = l[n - 1];
        let at = goes_at(before, x, 0);
        lemma_goes_at(before, x, 0);
        let all = in_order(l, n);
        assert forall|i: int, j: int| 0 <= i < j < n implies !ahead(#[trigger] all[j], #[trigger] all[i], 0) by {
            if j == at {
                assert(all[i] == before[i]);
            } else if i == at {
                assert(all[j] == before[j - 1]);
                if ahead(all[j], x, 0) {
                    lemma_ahead_carries_over(all[j], x, before[at], 0);
                    if j - 1 > at {
                        assert(!ahead(before[j - 1], before[at], 0));
                    } else {
                        lemma_not_ahead_of_itself(before[at], 0);
                    }
                }
            } else {
                let p = if i < at {
                    i
                } else {
                    i - 1
                };
                let q = if j < at {
                    j
                } else {
                    j - 1
                };
                assert(all[i] == before[p] && all[j] == before[q]);
                assert(!ahead(before[q], before[p], 0));
            }
        }
        assert(l.take(n) =~= l.take(n - 1).push(x));
        assert forall|y: Seq<char>| #[trigger] all.contains(y) <==> l.take(n).contains(y) by {
            if all.contains(y) {
                let i = choose|i: int| 0 <= i < all.len() && all[i] == y;
                if i == at {
                    assert(l.take(n)[n - 1] == y);
                } else {
                    let p = if i < at {
                        i
                    } else {
                        i - 1
                    };
                    assert(before[p] == y);
                    assert(before.contains(y));
                    let fewer = l.take(n - 1);
                    let k = choose|k: int| 0 <= k < fewer.len() && fewer[k] == y;
                    assert(l.take(n)[k] == y);
                }
            }
            if l.take(n).contains(y) {
                let more = l.take(n);
                let k = choose|k: int| 0 <= k < more.len() && more[k] == y;
                if k == n - 1 {
                    assert(all[at] == y);
                } else {
                    assert(l.take(n - 1)[k] == y);
                    assert(before.contains(y));
                    let p = choose|p: int| 0 <= p < before.len() && before[p] == y;
                    assert(all[if p < at {
                        p
                    } else {
                        p + 1
                    }] == y);
                }
            }
        }
    }
}

proof fn lemma_not_ahead_of_itself(a: Seq<char>, i: int)
    ensures
        !ahead(a, a, i) || i < 0,
    decreases a.len() - i,
{
    if 0 <= i < a.len() {
        lemma_not_ahead_of_itself(a, i + 1);
    }
}

fn put_in_order(l: &Vec<Vec<char>>) -> (r: Vec<Vec<char>>)
    ensures
        views(r@) == in_order(views(l@), l@.len() as int),
{
    let mut out: Vec<Vec<char>> = Vec::new();
    let mut i: usize = 0;
    proof {
        assert(views(out@) =~= Seq::<Seq<char>>::empty());
    }
    while i < l.len()
        invariant
            i <= l@.len(),
            views(out@) == in_order(views(l@), i as int),
        decreases l@.len() - i,
    {
        let ghost before = out@;
        let x: Vec<char> = slice_of(l[i].as_slice(), 0, l[i].len());
        proof {
            assert(x@ =~= l@[i as int]@);
            assert(views(l@)[i as int] == x@);
        }
        let mut at: usize = 0;
        while at < out.len() && !is_ahead(x.as_slice(), out[at].as_slice())
            invariant
                at <= out@.len(),
                out@ == before,
                goes_at(views(before), x@, at as int) == goes_at(views(before), x@, 0),
            decreases out@.len() - at,
        {
            proof {
                assert(views(before)[at as int] == before[at as int]@);
            }
            at = at + 1;
        }
        proof {
            if at < before.len() {
                assert(views(before)[at as int] == before[at as int]@);
            }
            assert(views(before).len() == before.len());
        }
        out.insert(at, x);
        proof {
            assert(views(out@) =~= views(before).insert(at as int, x@));
        }
        i = i + 1;
    }
    out
}

/// What is known of the other hosts, of the first `n`.
pub open spec fn of_others(k: Seq<(Place, Info)>, h: Place, n: int) -> Seq<(Place, Info)>
    decreases n,
{
    if n <= 0 || n > k.len() {
        Seq::empty()
    } else if k[n - 1].0 == h {
        of_others(k, h, n - 1)
    } else {
        of_others(k, h, n - 1).push(k[n - 1])
    }
}

/// What is known once a host has told what it has.
pub open spec fn told(k: Seq<(Place, Info)>, h: Place, s: Seq<Info>) -> Seq<(Place, Info)> {
    of_others(k, h, k.len() as int) + s.map_values(|i: Info| (h, i))
}

/// The file of what is known: a line per session, in order.
pub open spec fn sessions_file(k: Seq<(Place, Info)>) -> Seq<char> {
    if k.len() == 0 {
        seq!['\n']
    } else {
        written(in_order(k.map_values(|x: (Place, Info)| known_line(x)), k.len() as int))
    }
}

fn line_of(h: &Host, s: &SessionInfo) -> (r: Vec<char>)
    ensures
        r@ == known_line((h@, s@)),
{
    let mut l: String = h.provider.clone();
    l.push('\t');
    l.append(h.arg.as_str());
    l.push('\t');
    l.append(s.id.as_str());
    l.push('\t');
    l.append(s.label.as_str());
    proof {
        let f = seq![h@.provider, h@.arg, s@.id, s@.label];
        reveal_with_fuel(crate::tabbed::tabbed_from, 5);
        assert(l@ =~= tabbed(f));
    }
    chars_of(l.as_str())
}

/// A host answered: its sessions are what the picker shows for it next
/// time.  What the file is then.
pub fn note_sessions(text: &str, recent: &Vec<SessionUrl>, h: &Host, sessions: &Vec<SessionInfo>) -> (r: String)
    ensures
        r@ == sessions_file(told(sessions_known(text@, urls(recent@)), h@, infos(sessions@))),
{
    let known: Vec<Known> = known_sessions(text, recent);
    let ghost k = had_all(known@);
    let ghost ln = |x: (Place, Info)| known_line(x);
    let mut out: Vec<Vec<char>> = Vec::new();
    let mut i: usize = 0;
    proof {
        assert(views(out@) =~= of_others(k, h@, 0).map_values(ln));
    }
    while i < known.len()
        invariant
            i <= known@.len(),
            k == had_all(known@),
            ln == (|x: (Place, Info)| known_line(x)),
            views(out@) == of_others(k, h@, i as int).map_values(ln),
        decreases known@.len() - i,
    {
        let ghost before = out@;
        proof {
            assert(k[i as int] == known@[i as int]@);
        }
        if !known[i].host.is(h) {
            let l: Vec<char> = line_of(&known[i].host, &known[i].session);
            out.push(l);
            proof {
                assert(views(out@) =~= views(before).push(l@));
                assert(views(out@) =~= of_others(k, h@, i + 1).map_values(ln));
            }
        }
        i = i + 1;
    }
    let ghost all = told(k, h@, infos(sessions@));
    let ghost rest = of_others(k, h@, k.len() as int);
    let mut j: usize = 0;
    proof {
        assert(views(out@) =~= all.map_values(ln).take(rest.len() as int));
    }
    while j < sessions.len()
        invariant
            j <= sessions@.len(),
            ln == (|x: (Place, Info)| known_line(x)),
            all == told(k, h@, infos(sessions@)),
            rest == of_others(k, h@, k.len() as int),
            views(out@) == all.map_values(ln).take(rest.len() + j),
        decreases sessions@.len() - j,
    {
        let ghost before = out@;
        let l: Vec<char> = line_of(h, &sessions[j]);
        out.push(l);
        proof {
            assert(all[rest.len() + j] == (h@, sessions@[j as int]@));
            assert(views(out@) =~= views(before).push(l@));
            assert(views(out@) =~= all.map_values(ln).take(rest.len() + j + 1));
        }
        j = j + 1;
    }
    proof {
        assert(views(out@) =~= all.map_values(ln));
    }
    if out.len() == 0 {
        proof {
            assert(views(out@).len() == 0);
        }
        let mut r: String = String::new();
        r.push('\n');
        proof {
            assert(r@ =~= seq!['\n']);
        }
        return r;
    }
    let sorted: Vec<Vec<char>> = put_in_order(&out);
    write_lines(&sorted)
}

/// A session whose line is read back as it is written.
pub open spec fn writable(k: (Place, Info)) -> bool {
    &&& !k.0.provider.contains('\t')
    &&& !k.0.arg.contains('\t')
    &&& !k.1.id.contains('\t')
    &&& !k.1.label.contains('\t')
    &&& one_line(known_line(k))
}

/// What was written of the sessions is what is read: those of the host
/// that answered are the ones it told of, and the others' are as they
/// were.
pub proof fn law_what_a_host_told_is_known(k: Seq<(Place, Info)>, h: Place, s: Seq<Info>)
    requires
        forall|i: int| 0 <= i < told(k, h, s).len() ==> writable(#[trigger] told(k, h, s)[i]),
    ensures
        ({
            let l = lines_of(sessions_file(told(k, h, s)));
            forall|x: (Place, Info)| #[trigger]
                known_in(l, l.len() as int).contains(x) <==> {
                    ||| x.0 == h && s.contains(x.1)
                    ||| x.0 != h && k.contains(x)
                }
        }),
{
    let all = told(k, h, s);
    let l = lines_of(sessions_file(all));
    lemma_told(k, h, s);
    if all.len() == 0 {
        assert(written(seq![Seq::<char>::empty()]) =~= seq!['\n']) by {
            reveal_with_fuel(crate::tabbed::written_from, 3);
        }
        law_lines_are_read_back(seq![Seq::<char>::empty()]);
        assert(l =~= seq![Seq::<char>::empty()]);
        assert(fields_of(Seq::<char>::empty()).len() == 1) by {
            reveal_with_fuel(crate::tabbed::fields_from, 2);
            assert(crate::text::find(Seq::<char>::empty(), '\t', 0) == 0);
        }
        reveal_with_fuel(known_in, 2);
        let read = known_in(l, l.len() as int);
        assert(read =~= Seq::<(Place, Info)>::empty());
        assert forall|x: (Place, Info)| #[trigger] read.contains(x) <==> {
            ||| x.0 == h && s.contains(x.1)
            ||| x.0 != h && k.contains(x)
        } by {
            assert(told(k, h, s).contains(x) == read.contains(x));
        }
    } else {
        let ln = all.map_values(|x: (Place, Info)| known_line(x));
        let o = in_order(ln, ln.len() as int);
        law_the_lines_are_in_order(ln, ln.len() as int);
        assert(ln.take(ln.len() as int) =~= ln);
        assert forall|i: int| 0 <= i < o.len() implies one_line(#[trigger] o[i]) && known_at(o[i]) is Some && all.contains(
            known_at(o[i])->0,
        ) by {
            assert(o.contains(o[i]));
            let j = choose|j: int| 0 <= j < ln.len() && ln[j] == o[i];
            assert(writable(all[j]));
            lemma_known_line(all[j]);
        }
        law_lines_are_read_back(o);
        lemma_known_in(o, o.len() as int);
        assert forall|x: (Place, Info)| #[trigger] known_in(o, o.len() as int).contains(x) <==> all.contains(x) by {
            if all.contains(x) {
                let j = choose|j: int| 0 <= j < all.len() && all[j] == x;
                assert(writable(all[j]));
                lemma_known_line(x);
                assert(ln[j] == known_line(x));
                assert(ln.contains(known_line(x)));
                assert(o.contains(known_line(x)));
                let i = choose|i: int| 0 <= i < o.len() && o[i] == known_line(x);
                assert(known_in(o, o.len() as int)[i] == x);
            }
            if known_in(o, o.len() as int).contains(x) {
                let read = known_in(o, o.len() as int);
                let i = choose|i: int| 0 <= i < read.len() && read[i] == x;
                assert(known_at(o[i]) == Some(x));
            }
        }
        assert(l == o);
        let read = known_in(l, l.len() as int);
        assert forall|x: (Place, Info)| #[trigger] read.contains(x) <==> {
            ||| x.0 == h && s.contains(x.1)
            ||| x.0 != h && k.contains(x)
        } by {
            assert(known_in(o, o.len() as int).contains(x) == told(k, h, s).contains(x));
        }
    }
}

proof fn lemma_known_line(k: (Place, Info))
    requires
        writable(k),
    ensures
        known_at(known_line(k)) == Some(k),
{
    let f = seq![k.0.provider, k.0.arg, k.1.id, k.1.label];
    law_fields_are_read_back(f);
    assert(k.0 =~= (Place { provider: f[0], arg: f[1] }));
    assert(k.1 =~= (Info { id: f[2], label: f[3] }));
}

proof fn lemma_known_in(l: Seq<Seq<char>>, n: int)
    requires
        0 <= n <= l.len(),
        forall|i: int| 0 <= i < l.len() ==> known_at(#[trigger] l[i]) is Some,
    ensures
        known_in(l, n).len() == n,
        forall|i: int| 0 <= i < n ==> known_at(l[i]) == Some(#[trigger] known_in(l, n)[i]),
    decreases n,
{
    if n > 0 {
        lemma_known_in(l, n - 1);
        assert(known_at(l[n - 1]) is Some);
    }
}

proof fn lemma_told(k: Seq<(Place, Info)>, h: Place, s: Seq<Info>)
    ensures
        forall|x: (Place, Info)| #[trigger]
            told(k, h, s).contains(x) <==> {
                ||| x.0 == h && s.contains(x.1)
                ||| x.0 != h && k.contains(x)
            },
{
    let rest = of_others(k, h, k.len() as int);
    let mine = s.map_values(|i: Info| (h, i));
    let all = told(k, h, s);
    lemma_of_others(k, h, k.len() as int);
    assert(k.take(k.len() as int) =~= k);
    assert forall|x: (Place, Info)| #[trigger] all.contains(x) <==> {
        ||| x.0 == h && s.contains(x.1)
        ||| x.0 != h && k.contains(x)
    } by {
        if all.contains(x) {
            let i = choose|i: int| 0 <= i < all.len() && all[i] == x;
            if i < rest.len() {
                assert(rest.contains(x));
            } else {
                assert(s[i - rest.len()] == x.1);
            }
        }
        if x.0 == h && s.contains(x.1) {
            let i = choose|i: int| 0 <= i < s.len() && s[i] == x.1;
            assert(all[rest.len() + i] == x);
        }
        if x.0 != h && k.contains(x) {
            assert(rest.contains(x));
            let i = choose|i: int| 0 <= i < rest.len() && rest[i] == x;
            assert(all[i] == x);
        }
    }
}

proof fn lemma_of_others(k: Seq<(Place, Info)>, h: Place, n: int)
    requires
        0 <= n <= k.len(),
    ensures
        forall|x: (Place, Info)| #[trigger] of_others(k, h, n).contains(x) <==> x.0 != h && k.take(n).contains(x),
    decreases n,
{
    if n > 0 {
        lemma_of_others(k, h, n - 1);
        let before = of_others(k, h, n - 1);
        let all = of_others(k, h, n);
        assert(k.take(n) =~= k.take(n - 1).push(k[n - 1]));
        assert forall|x: (Place, Info)| #[trigger] all.contains(x) <==> x.0 != h && k.take(n).contains(x) by {
            if all.contains(x) {
                let i = choose|i: int| 0 <= i < all.len() && all[i] == x;
                if i < before.len() {
                    assert(before[i] == x);
                    assert(before.contains(x));
                    let fewer = k.take(n - 1);
                    let j = choose|j: int| 0 <= j < fewer.len() && fewer[j] == x;
                    assert(k.take(n)[j] == x);
                } else {
                    assert(k.take(n)[n - 1] == x);
                }
            }
            if x.0 != h && k.take(n).contains(x) {
                let more = k.take(n);
                let j = choose|j: int| 0 <= j < more.len() && more[j] == x;
                if j < n - 1 {
                    assert(k.take(n - 1)[j] == x);
                    assert(before.contains(x));
                    let i = choose|i: int| 0 <= i < before.len() && before[i] == x;
                    assert(all[i] == x);
                } else {
                    assert(all[all.len() - 1] == x);
                }
            }
        }
    }
}

/// Lines are put in order by their first character that differs, and the start
/// of a line before the line; no line is ahead of itself, nor are two ahead of
/// one another.
pub proof fn law_how_lines_are_ordered(a: Seq<char>, b: Seq<char>, i: int)
    requires
        0 <= i <= a.len(),
        i <= b.len(),
    ensures
        !ahead(a, a, i),
        !(ahead(a, b, i) && ahead(b, a, i)),
        i < a.len() && i < b.len() && a[i] != b[i] ==> (ahead(a, b, i) <==> (a[i] as u32) < (b[i] as u32)),
        i == a.len() && i < b.len() ==> ahead(a, b, i),
        i < a.len() && i == b.len() ==> !ahead(a, b, i),
    decreases a.len() - i,
{
    if i < a.len() {
        if i < b.len() && a[i] == b[i] {
            law_how_lines_are_ordered(a, b, i + 1);
        } else {
            lemma_not_ahead(a, i);
        }
    }
}

proof fn lemma_not_ahead(a: Seq<char>, i: int)
    requires
        0 <= i <= a.len(),
    ensures
        !ahead(a, a, i),
    decreases a.len() - i,
{
    if i < a.len() {
        lemma_not_ahead(a, i + 1);
    }
}

/// The sessions of a host are those known to be on it, in their order.
pub proof fn law_a_hosts_sessions_are_those_on_it(k: Seq<(Place, Info)>, h: Place, n: int)
    requires
        0 <= n <= k.len(),
    ensures
        forall|i: int| 0 <= i < n && (#[trigger] k[i]).0 == h ==> sessions_at(k, h, n).contains(k[i].1),
        (forall|i: int| 0 <= i < n ==> (#[trigger] k[i]).0 != h) ==> sessions_at(k, h, n).len() == 0,
        forall|i: int| 0 <= i < n && (#[trigger] k[i]).0 != h ==> of_others(k, h, n).contains(k[i]),
        forall|j: int| 0 <= j < of_others(k, h, n).len() ==> (#[trigger] of_others(k, h, n)[j]).0 != h,
        sessions_at(k, h, n).len() + of_others(k, h, n).len() == n,
    decreases n,
{
    if n > 0 {
        law_a_hosts_sessions_are_those_on_it(k, h, n - 1);
        let (s, o) = (sessions_at(k, h, n - 1), of_others(k, h, n - 1));
        let (t, p) = (sessions_at(k, h, n), of_others(k, h, n));
        assert forall|i: int| 0 <= i < n && (#[trigger] k[i]).0 == h implies t.contains(k[i].1) by {
            if i < n - 1 {
                assert(s.contains(k[i].1));
                let m = choose|m: int| 0 <= m < s.len() && s[m] == k[i].1;
                assert(t[m] == k[i].1);
            } else {
                assert(t[t.len() - 1] == k[i].1);
            }
        }
        assert forall|i: int| 0 <= i < n && (#[trigger] k[i]).0 != h implies p.contains(k[i]) by {
            if i < n - 1 {
                assert(o.contains(k[i]));
                let m = choose|m: int| 0 <= m < o.len() && o[m] == k[i];
                assert(p[m] == k[i]);
            } else {
                assert(p[p.len() - 1] == k[i]);
            }
        }
        assert forall|j: int| 0 <= j < p.len() implies (#[trigger] p[j]).0 != h by {
            if j < o.len() {
                assert(p[j] == o[j]);
            }
        }
        if forall|i: int| 0 <= i < n ==> (#[trigger] k[i]).0 != h {
            assert(k[n - 1].0 != h);
        }
    }
}

} // verus!
