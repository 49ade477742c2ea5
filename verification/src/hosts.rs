//! The hosts the picker knows, and the sessions each had when it was last
//! asked: kept in a file each, a line apiece, and taken together with the
//! sessions attached to lately.

use vstd::prelude::*;
use vstd::string::*;

use crate::session::{has_host, listed, places, urls, Host, Place, SessionUrl, Url};
use crate::tabbed::{law_lines_are_read_back, law_sides_are_read_back, one_line, part, parted, put_side_by_side, side_by_side, write_lines, written};
use crate::text::{chars_of, lines, lines_of, string_of, views};

verus! {

/// How many hosts are kept.
pub const HOSTS: usize = 50;

/// A host that is not this machine.
pub open spec fn away(p: Place) -> bool {
    p.provider != "local"@
}

/// A host's line: the provider and the host.
pub open spec fn host_line(p: Place) -> Seq<char> {
    side_by_side(p.provider, p.arg)
}

/// The host that a line names, where it names one.
pub open spec fn host_at(line: Seq<char>) -> Option<Place> {
    match parted(line) {
        Some((provider, arg)) => Some(Place { provider, arg }),
        None => None,
    }
}

/// The hosts of the first `n` lines.
pub open spec fn in_file(l: Seq<Seq<char>>, n: int) -> Seq<Place>
    decreases n,
{
    if n <= 0 || n > l.len() {
        Seq::empty()
    } else {
        match host_at(l[n - 1]) {
            Some(p) => in_file(l, n - 1).push(p),
            None => in_file(l, n - 1),
        }
    }
}

/// The hosts that sessions are on.
pub open spec fn hosts_of(u: Seq<Url>) -> Seq<Place> {
    u.map_values(|x: Url| Place::of(x))
}

/// This machine, and the first `n` of the others, each once.
pub open spec fn each_once(c: Seq<Place>, n: int) -> Seq<Place>
    decreases n,
{
    if n <= 0 || n > c.len() {
        seq![Place::here()]
    } else {
        let before = each_once(c, n - 1);
        if away(c[n - 1]) && !listed(before, c[n - 1]) {
            before.push(c[n - 1])
        } else {
            before
        }
    }
}

/// What the file names, and what the sessions attached to lately are on.
pub open spec fn named(text: Seq<char>, recent: Seq<Url>) -> Seq<Place> {
    in_file(lines_of(text), lines_of(text).len() as int) + hosts_of(recent)
}

/// The hosts known: this machine, then those of the file, then those of
/// the sessions attached to lately; each once.
pub open spec fn hosts_known(text: Seq<char>, recent: Seq<Url>) -> Seq<Place> {
    each_once(named(text, recent), named(text, recent).len() as int)
}

fn read_hosts(text: &str) -> (r: Vec<Host>)
    ensures
        places(r@) == in_file(lines_of(text@), lines_of(text@).len() as int),
{
    let all: Vec<char> = chars_of(text);
    let l: Vec<Vec<char>> = lines(all.as_slice());
    let mut out: Vec<Host> = Vec::new();
    let mut i: usize = 0;
    proof {
        assert(places(out@) =~= Seq::<Place>::empty());
    }
    while i < l.len()
        invariant
            i <= l@.len(),
            views(l@) == lines_of(text@),
            places(out@) == in_file(views(l@), i as int),
        decreases l@.len() - i,
    {
        let ghost before = out@;
        proof {
            assert(views(l@)[i as int] == l@[i as int]@);
        }
        if let Some((a, b)) = part(l[i].as_slice()) {
            let h = Host { provider: string_of(a.as_slice()), arg: string_of(b.as_slice()) };
            out.push(h);
            proof {
                assert(places(out@) =~= places(before).push(h@));
            }
        }
        i = i + 1;
    }
    out
}

/// The hosts the picker shows: this machine, then those connected to,
/// latest first (what the file says, then what the sessions attached to
/// lately are on).
pub fn known_hosts(text: &str, recent: &Vec<SessionUrl>) -> (r: Vec<Host>)
    ensures
        places(r@) == hosts_known(text@, urls(recent@)),
{
    let mut c: Vec<Host> = read_hosts(text);
    let ghost file = places(c@);
    let mut i: usize = 0;
    proof {
        assert(places(c@) =~= file + hosts_of(urls(recent@).take(0)));
    }
    while i < recent.len()
        invariant
            i <= recent@.len(),
            places(c@) == file + hosts_of(urls(recent@).take(i as int)),
        decreases recent@.len() - i,
    {
        let ghost before = c@;
        let h = Host::of(&recent[i]);
        c.push(h);
        i = i + 1;
        proof {
            assert(urls(recent@).take(i as int) =~= urls(recent@).take(i - 1).push(recent@[i - 1]@));
            assert(places(c@) =~= places(before).push(h@));
            assert(places(c@) =~= file + hosts_of(urls(recent@).take(i as int)));
        }
    }
    proof {
        assert(urls(recent@).take(i as int) =~= urls(recent@));
    }
    let mut out: Vec<Host> = Vec::new();
    out.push(Host::local());
    proof {
        assert(places(out@) =~= seq![Place::here()]);
    }
    let mut k: usize = 0;
    while k < c.len()
        invariant
            k <= c@.len(),
            places(out@) == each_once(places(c@), k as int),
        decreases c@.len() - k,
    {
        proof {
            assert(places(c@)[k as int] == c@[k as int]@);
        }
        if !c[k].is_local() && !has_host(&out, &c[k]) {
            let ghost before = out@;
            out.push(c[k].copy());
            proof {
                assert(places(out@) =~= places(before).push(c@[k as int]@));
            }
        }
        k = k + 1;
    }
    out
}

/// The hosts of the first `n` that are kept.
pub open spec fn kept(list: Seq<Place>, n: int) -> Seq<Place>
    decreases n,
{
    if n <= 0 || n > list.len() {
        Seq::empty()
    } else {
        let before = kept(list, n - 1);
        if away(list[n - 1]) && before.len() < HOSTS {
            before.push(list[n - 1])
        } else {
            before
        }
    }
}

/// The file of a list of hosts.
pub open spec fn hosts_file(list: Seq<Place>) -> Seq<char> {
    written(kept(list, list.len() as int).map_values(|p: Place| host_line(p)))
}

/// The file of a list of hosts: a line for each that is not this
/// machine, as many as are kept.
pub fn write_hosts(list: &Vec<Host>) -> (r: String)
    ensures
        r@ == hosts_file(places(list@)),
{
    let mut out: Vec<Vec<char>> = Vec::new();
    let mut i: usize = 0;
    proof {
        assert(views(out@) =~= kept(places(list@), 0).map_values(|p: Place| host_line(p)));
    }
    while i < list.len()
        invariant
            i <= list@.len(),
            views(out@) == kept(places(list@), i as int).map_values(|p: Place| host_line(p)),
        decreases list@.len() - i,
    {
        let ghost before = out@;
        proof {
            assert(places(list@)[i as int] == list@[i as int]@);
            assert(views(out@).len() == kept(places(list@), i as int).len());
        }
        if !list[i].is_local() && out.len() < HOSTS {
            let a: Vec<char> = chars_of(list[i].provider.as_str());
            let b: Vec<char> = chars_of(list[i].arg.as_str());
            let l: Vec<char> = put_side_by_side(a.as_slice(), b.as_slice());
            out.push(l);
            proof {
                assert(views(out@) =~= views(before).push(host_line(list@[i as int]@)));
                assert(views(out@) =~= kept(places(list@), i + 1).map_values(|p: Place| host_line(p)));
            }
        }
        i = i + 1;
    }
    write_lines(&out)
}

/// The first `n` of a list without a host.
pub open spec fn others(list: Seq<Place>, h: Place, n: int) -> Seq<Place>
    decreases n,
{
    if n <= 0 || n > list.len() {
        Seq::empty()
    } else if list[n - 1] == h {
        others(list, h, n - 1)
    } else {
        others(list, h, n - 1).push(list[n - 1])
    }
}

fn leave_host_out(list: &Vec<Host>, h: &Host) -> (r: Vec<Host>)
    ensures
        places(r@) == others(places(list@), h@, list@.len() as int),
{
    let mut out: Vec<Host> = Vec::new();
    let mut i: usize = 0;
    proof {
        assert(places(out@) =~= Seq::<Place>::empty());
    }
    while i < list.len()
        invariant
            i <= list@.len(),
            places(out@) == others(places(list@), h@, i as int),
        decreases list@.len() - i,
    {
        let ghost before = out@;
        proof {
            assert(places(list@)[i as int] == list@[i as int]@);
        }
        if !list[i].is(h) {
            out.push(list[i].copy());
            proof {
                assert(places(out@) =~= places(before).push(list@[i as int]@));
            }
        }
        i = i + 1;
    }
    out
}

/// The hosts known once one has been connected to: this machine, that
/// one, and the rest.
pub open spec fn noted(known: Seq<Place>, h: Place) -> Seq<Place> {
    others(known, h, known.len() as int).insert(1, h)
}

proof fn lemma_here_first(c: Seq<Place>, n: int)
    ensures
        each_once(c, n).len() >= 1,
        each_once(c, n)[0] == Place::here(),
    decreases n,
{
    if 0 < n <= c.len() {
        lemma_here_first(c, n - 1);
    }
}

proof fn lemma_others_keep_the_first(list: Seq<Place>, h: Place, n: int)
    requires
        0 < n <= list.len(),
        list[0] != h,
    ensures
        others(list, h, n).len() >= 1,
        others(list, h, n)[0] == list[0],
    decreases n,
{
    if n > 1 {
        lemma_others_keep_the_first(list, h, n - 1);
    } else {
        assert(others(list, h, 0).len() == 0);
    }
}

/// A host connected to is remembered first: what the file is then, or
/// nothing for this machine, which needs no remembering.
pub fn note_host(text: &str, recent: &Vec<SessionUrl>, url: &SessionUrl) -> (r: Option<String>)
    ensures
        r is Some == away(Place::of(url@)),
        r is Some ==> r->0@ == hosts_file(noted(hosts_known(text@, urls(recent@)), Place::of(url@))),
{
    let h = Host::of(url);
    if h.is_local() {
        return None;
    }
    let known: Vec<Host> = known_hosts(text, recent);
    let mut list: Vec<Host> = leave_host_out(&known, &h);
    let ghost before = places(list@);
    let ghost p = h@;
    proof {
        lemma_here_first(named(text@, urls(recent@)), named(text@, urls(recent@)).len() as int);
        lemma_others_keep_the_first(places(known@), h@, known@.len() as int);
        assert(places(list@).len() == list@.len());
    }
    list.insert(1, h);
    proof {
        assert(places(list@) =~= before.insert(1, p));
    }
    Some(write_hosts(&list))
}

/// The first `n` sessions that are on other hosts.
pub open spec fn elsewhere(recent: Seq<Url>, h: Place, n: int) -> Seq<Url>
    decreases n,
{
    if n <= 0 || n > recent.len() {
        Seq::empty()
    } else if Place::of(recent[n - 1]) == h {
        elsewhere(recent, h, n - 1)
    } else {
        elsewhere(recent, h, n - 1).push(recent[n - 1])
    }
}

/// A host forgotten: what the file is then, and the sessions attached to
/// lately without its own, so that it does not come back from there.
pub fn forget_host(text: &str, recent: &Vec<SessionUrl>, h: &Host) -> (r: (String, Vec<SessionUrl>))
    ensures
        r.0@ == hosts_file(
            others(hosts_known(text@, urls(recent@)), h@, hosts_known(text@, urls(recent@)).len() as int),
        ),
        urls(r.1@) == elsewhere(urls(recent@), h@, recent@.len() as int),
{
    let known: Vec<Host> = known_hosts(text, recent);
    let list: Vec<Host> = leave_host_out(&known, h);
    let mut keep: Vec<SessionUrl> = Vec::new();
    let mut i: usize = 0;
    proof {
        assert(places(known@).len() == known@.len());
        assert(urls(keep@) =~= Seq::<Url>::empty());
    }
    while i < recent.len()
        invariant
            i <= recent@.len(),
            urls(keep@) == elsewhere(urls(recent@), h@, i as int),
        decreases recent@.len() - i,
    {
        let ghost before = keep@;
        proof {
            assert(urls(recent@)[i as int] == recent@[i as int]@);
        }
        if !Host::of(&recent[i]).is(h) {
            keep.push(recent[i].copy());
            proof {
                assert(urls(keep@) =~= urls(before).push(recent@[i as int]@));
            }
        }
        i = i + 1;
    }
    (write_hosts(&list), keep)
}

/// A host whose line is read back as it is written.
pub open spec fn writable(p: Place) -> bool {
    !p.provider.contains('\t') && one_line(host_line(p))
}

/// Hosts that can be written are read back from the file of them: as
/// many as are kept, in order.
pub proof fn law_hosts_are_read_back(list: Seq<Place>)
    requires
        forall|i: int| 0 <= i < list.len() ==> writable(#[trigger] list[i]),
    ensures
        in_file(lines_of(hosts_file(list)), lines_of(hosts_file(list)).len() as int) == kept(
            list,
            list.len() as int,
        ),
{
    let k = kept(list, list.len() as int);
    let l = k.map_values(|p: Place| host_line(p));
    lemma_kept_are_of_the_list(list, list.len() as int);
    assert forall|i: int| 0 <= i < l.len() implies one_line(#[trigger] l[i]) by {
        assert(list.contains(k[i]));
        assert(writable(k[i]));
    }
    law_lines_are_read_back(l);
    assert forall|i: int| 0 <= i < k.len() implies host_at(#[trigger] l[i]) == Some(k[i]) by {
        assert(list.contains(k[i]));
        assert(writable(k[i]));
        law_sides_are_read_back(k[i].provider, k[i].arg);
        assert(k[i] =~= (Place { provider: k[i].provider, arg: k[i].arg }));
    }
    lemma_in_file(l, k, l.len() as int);
    assert(k.take(k.len() as int) =~= k);
}

proof fn lemma_in_file(l: Seq<Seq<char>>, k: Seq<Place>, n: int)
    requires
        l.len() == k.len(),
        0 <= n <= l.len(),
        forall|i: int| 0 <= i < k.len() ==> host_at(#[trigger] l[i]) == Some(k[i]),
    ensures
        in_file(l, n) == k.take(n),
    decreases n,
{
    if n > 0 {
        lemma_in_file(l, k, n - 1);
        assert(host_at(l[n - 1]) == Some(k[n - 1]));
        assert(k.take(n) =~= k.take(n - 1).push(k[n - 1]));
    } else {
        assert(k.take(0) =~= Seq::<Place>::empty());
    }
}

proof fn lemma_kept_are_of_the_list(list: Seq<Place>, n: int)
    requires
        0 <= n <= list.len(),
    ensures
        forall|i: int| 0 <= i < kept(list, n).len() ==> list.contains(#[trigger] kept(list, n)[i]) && away(kept(list, n)[i]),
        kept(list, n).len() <= HOSTS,
    decreases n,
{
    if n > 0 {
        lemma_kept_are_of_the_list(list, n - 1);
        assert(list.contains(list[n - 1]));
    }
}

proof fn lemma_others_are_of_the_list(list: Seq<Place>, h: Place, n: int)
    requires
        0 <= n <= list.len(),
    ensures
        forall|i: int| 0 <= i < others(list, h, n).len() ==> list.contains(#[trigger] others(list, h, n)[i]) && others(
            list,
            h,
            n,
        )[i] != h,
    decreases n,
{
    if n > 0 {
        lemma_others_are_of_the_list(list, h, n - 1);
        assert(list.contains(list[n - 1]));
        let before = others(list, h, n - 1);
        let all = others(list, h, n);
        assert forall|i: int| 0 <= i < all.len() implies list.contains(#[trigger] all[i]) && all[i] != h by {
            if i < before.len() {
                assert(all[i] == before[i]);
            }
        }
    }
}

proof fn lemma_each_once_is_of(c: Seq<Place>, n: int, p: Place)
    requires
        0 <= n <= c.len(),
        listed(each_once(c, n), p),
    ensures
        p == Place::here() || c.contains(p),
    decreases n,
{
    let k = each_once(c, n);
    let i = choose|i: int| 0 <= i < k.len() && k[i] == p;
    if n > 0 {
        let before = each_once(c, n - 1);
        if i < before.len() {
            assert(before[i] == p);
            assert(listed(before, p));
            lemma_each_once_is_of(c, n - 1, p);
        } else {
            assert(p == c[n - 1]);
            assert(c.contains(c[n - 1]));
        }
    }
}

proof fn lemma_elsewhere(recent: Seq<Url>, h: Place, n: int)
    requires
        0 <= n <= recent.len(),
    ensures
        forall|i: int| 0 <= i < elsewhere(recent, h, n).len() ==> Place::of(#[trigger] elsewhere(recent, h, n)[i]) != h,
    decreases n,
{
    if n > 0 {
        lemma_elsewhere(recent, h, n - 1);
        let before = elsewhere(recent, h, n - 1);
        let all = elsewhere(recent, h, n);
        assert forall|i: int| 0 <= i < all.len() implies Place::of(#[trigger] all[i]) != h by {
            if i < before.len() {
                assert(all[i] == before[i]);
            }
        }
    }
}

/// Each host is known once, this machine before the others.
pub proof fn law_each_host_is_known_once(text: Seq<char>, recent: Seq<Url>)
    ensures
        hosts_known(text, recent).no_duplicates(),
        hosts_known(text, recent).len() >= 1,
        hosts_known(text, recent)[0] == Place::here(),
{
    let c = named(text, recent);
    lemma_here_first(c, c.len() as int);
    lemma_once(c, c.len() as int);
}

proof fn lemma_once(c: Seq<Place>, n: int)
    ensures
        each_once(c, n).no_duplicates(),
    decreases n,
{
    if 0 < n <= c.len() {
        lemma_once(c, n - 1);
        let before = each_once(c, n - 1);
        assert(forall|i: int| 0 <= i < before.len() ==> listed(before, #[trigger] before[i]));
    }
}

/// A host that was forgotten is known no more: neither from the file nor
/// from the sessions attached to lately.
pub proof fn law_a_host_forgotten_is_gone(text: Seq<char>, recent: Seq<Url>, h: Place)
    requires
        h != Place::here(),
        forall|i: int| 0 <= i < hosts_known(text, recent).len() ==> writable(#[trigger] hosts_known(text, recent)[i]),
    ensures
        ({
            let known = hosts_known(text, recent);
            let file = hosts_file(others(known, h, known.len() as int));
            !listed(hosts_known(file, elsewhere(recent, h, recent.len() as int)), h)
        }),
{
    let known = hosts_known(text, recent);
    let list = others(known, h, known.len() as int);
    let file = hosts_file(list);
    let left = elsewhere(recent, h, recent.len() as int);
    let c = named(file, left);
    lemma_others_are_of_the_list(known, h, known.len() as int);
    assert forall|i: int| 0 <= i < list.len() implies writable(#[trigger] list[i]) by {
        assert(known.contains(list[i]));
    }
    law_hosts_are_read_back(list);
    lemma_kept_are_of_the_list(list, list.len() as int);
    lemma_elsewhere(recent, h, recent.len() as int);
    let k = kept(list, list.len() as int);
    assert forall|i: int| 0 <= i < c.len() implies #[trigger] c[i] != h by {
        if i < k.len() {
            assert(c[i] == k[i]);
            assert(list.contains(k[i]));
        } else {
            assert(c[i] == Place::of(left[i - k.len()]));
        }
    }
    if listed(hosts_known(file, left), h) {
        lemma_each_once_is_of(c, c.len() as int, h);
        assert(c.contains(h));
    }
}

/// A host that was connected to is the first known beside this machine,
/// whatever the sessions attached to lately say.
pub proof fn law_a_host_noted_comes_first(text: Seq<char>, recent: Seq<Url>, later: Seq<Url>, h: Place)
    requires
        away(h),
        writable(h),
        forall|i: int| 0 <= i < hosts_known(text, recent).len() ==> writable(#[trigger] hosts_known(text, recent)[i]),
    ensures
        ({
            let known = hosts_known(hosts_file(noted(hosts_known(text, recent), h)), later);
            known.len() > 1 && known[1] == h
        }),
{
    let before = hosts_known(text, recent);
    lemma_here_first(named(text, recent), named(text, recent).len() as int);
    lemma_others_keep_the_first(before, h, before.len() as int);
    lemma_others_are_of_the_list(before, h, before.len() as int);
    let rest = others(before, h, before.len() as int);
    let list = noted(before, h);
    assert forall|i: int| 0 <= i < list.len() implies writable(#[trigger] list[i]) by {
        if i == 0 {
            assert(before.contains(rest[0]));
        } else if i > 1 {
            assert(list[i] == rest[i - 1]);
            assert(before.contains(rest[i - 1]));
        }
    }
    assert(list[0] == Place::here());
    assert(list[1] == h);
    law_hosts_are_read_back(list);
    lemma_kept_starts(list, list.len() as int);
    let file = hosts_file(list);
    let c = named(file, later);
    assert(c[0] == h);
    lemma_first_named(c, c.len() as int);
}

proof fn lemma_kept_starts(list: Seq<Place>, n: int)
    requires
        2 <= n <= list.len(),
        !away(list[0]),
        away(list[1]),
    ensures
        kept(list, n).len() >= 1,
        kept(list, n)[0] == list[1],
    decreases n,
{
    if n > 2 {
        lemma_kept_starts(list, n - 1);
    } else {
        assert(kept(list, 0).len() == 0);
        assert(kept(list, 1).len() == 0);
    }
}

proof fn lemma_first_named(c: Seq<Place>, n: int)
    requires
        1 <= n <= c.len(),
        away(c[0]),
    ensures
        each_once(c, n).len() >= 2,
        each_once(c, n)[1] == c[0],
    decreases n,
{
    if n > 1 {
        lemma_first_named(c, n - 1);
    } else {
        assert(each_once(c, 0) =~= seq![Place::here()]);
        assert(!listed(each_once(c, 0), c[0]));
    }
}

/// The hosts that are kept are those elsewhere, the first fifty, in their
/// order.
pub proof fn law_fifty_hosts_are_kept(list: Seq<Place>, n: int)
    requires
        0 <= n <= list.len(),
    ensures
        kept(list, n).len() <= 50,
        forall|i: int| 0 <= i < kept(list, n).len() ==> (#[trigger] kept(list, n)[i]).provider != "local"@,
        n <= 50 && (forall|i: int| 0 <= i < n ==> (#[trigger] list[i]).provider != "local"@) ==> kept(list, n)
            == list.take(n),
    decreases n,
{
    if n > 0 {
        law_fifty_hosts_are_kept(list, n - 1);
        let all = kept(list, n);
        if n <= 50 && (forall|i: int| 0 <= i < n ==> (#[trigger] list[i]).provider != "local"@) {
            assert(list[n - 1].provider != "local"@);
            assert(all =~= list.take(n));
        }
    } else {
        assert(kept(list, 0) =~= list.take(0));
    }
}

} // verus!
