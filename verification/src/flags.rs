//! A command's flags, Go style: `-flag=value`, or `-flag` for a boolean,
//! before the arguments; `--` ends them.

use vstd::prelude::*;
use vstd::string::*;

use crate::selector::strs;
use crate::session::maybe;
use crate::text::{chars_of, find, find_char, same, slice_of, string_of};

verus! {

/// A flag that a command takes.
#[derive(Clone, Copy, Debug)]
pub struct Flag {
    pub name: &'static str,
    /// `-flag` alone; otherwise `-flag=value`.
    pub boolean: bool,
    pub help: &'static str,
}

/// A flag that takes a value.
pub fn flag(name: &'static str, help: &'static str) -> (f: Flag)
    ensures
        f.name@ == name@ && f.help@ == help@ && !f.boolean,
{
    Flag { name, boolean: false, help }
}

/// A flag that is there or not.
pub fn switch(name: &'static str, help: &'static str) -> (f: Flag)
    ensures
        f.name@ == name@ && f.help@ == help@ && f.boolean,
{
    Flag { name, boolean: true, help }
}

/// A flag that was given, and its value.
pub struct Given {
    pub name: String,
    pub value: String,
}

/// Parsed flags, and the arguments after them.
pub struct Parsed {
    pub flags: Vec<Given>,
    pub args: Vec<String>,
}

/// The flags given, as values: each with the value given last.
pub open spec fn given(s: Seq<Given>) -> Map<Seq<char>, Seq<char>>
    decreases s.len(),
{
    if s.len() == 0 {
        Map::empty()
    } else {
        given(s.drop_last()).insert(s.last().name@, s.last().value@)
    }
}

/// The value of a flag in a map of them.
pub open spec fn value_in(m: Map<Seq<char>, Seq<char>>, name: Seq<char>) -> Option<Seq<char>> {
    if m.contains_key(name) {
        Some(m[name])
    } else {
        None
    }
}

impl Parsed {
    /// The flags given.
    pub open spec fn all(&self) -> Map<Seq<char>, Seq<char>> {
        given(self.flags@)
    }

    /// A flag's value, where it was given.
    pub fn get(&self, name: &str) -> (v: Option<&str>)
        ensures
            (match v {
                Some(v) => Some(v@),
                None => None,
            }) == value_in(self.all(), name@),
    {
        let mut i: usize = self.flags.len();
        proof {
            assert(self.flags@.take(i as int) =~= self.flags@);
        }
        while i > 0
            invariant
                i <= self.flags@.len(),
                value_in(given(self.flags@.take(i as int)), name@) == value_in(given(self.flags@), name@),
            decreases i,
        {
            proof {
                let s = self.flags@.take(i as int);
                assert(s.drop_last() =~= self.flags@.take(i - 1));
                assert(s.last() == self.flags@[i - 1]);
            }
            if same(self.flags[i - 1].name.as_str(), name) {
                return Some(self.flags[i - 1].value.as_str());
            }
            i = i - 1;
        }
        proof {
            assert(self.flags@.take(0).len() == 0);
        }
        None
    }

    /// Whether a flag was given.
    pub fn is(&self, name: &str) -> (r: bool)
        ensures
            r == self.all().contains_key(name@),
    {
        self.get(name).is_some()
    }
}

/// A text in quotes, as it is shown when it is at fault.
pub uninterp spec fn quoted_as(s: Seq<char>) -> Seq<char>;

/// `format!("{s:?}")`: std's debug form of a string.  It is named: in
/// quotes, with what cannot be shown escaped.
#[verifier::external_body]
pub(crate) fn quoted(s: &str) -> (r: String)
    ensures
        r@ == quoted_as(s@),
{
    format!("{s:?}")
}

/// Why flags could not be parsed.
pub enum Refused {
    /// The usage is asked for.
    Help,
    /// No such flag.
    Undefined(String),
    /// A boolean's value is neither true nor false.
    NotBoolean(String, String),
    /// A flag that takes a value has none.
    NoValue(String),
}

/// A [`Refused`] as a value.
pub enum Refusal {
    Help,
    Undefined(Seq<char>),
    NotBoolean(Seq<char>, Seq<char>),
    NoValue(Seq<char>),
}

impl View for Refused {
    type V = Refusal;

    open spec fn view(&self) -> Refusal {
        match self {
            Refused::Help => Refusal::Help,
            Refused::Undefined(n) => Refusal::Undefined(n@),
            Refused::NotBoolean(n, v) => Refusal::NotBoolean(n@, v@),
            Refused::NoValue(n) => Refusal::NoValue(n@),
        }
    }
}

impl Refusal {
    /// What is said of it.
    pub open spec fn said(self) -> Seq<char> {
        match self {
            Refusal::Help => "help"@,
            Refusal::Undefined(n) => "flag provided but not defined: -"@ + n,
            Refusal::NotBoolean(n, v) => "invalid boolean value "@ + quoted_as(v) + " for -"@ + n,
            Refusal::NoValue(n) => "flag needs an argument: -"@ + n + "=VALUE"@,
        }
    }
}

impl Refused {
    /// What is said of it.
    pub fn message(&self) -> (m: String)
        ensures
            m@ == self@.said(),
    {
        match self {
            Refused::Help => "help".to_owned(),
            Refused::Undefined(n) => {
                let mut m: String = "flag provided but not defined: -".to_owned();
                m.append(n.as_str());
                m
            },
            Refused::NotBoolean(n, v) => {
                let mut m: String = "invalid boolean value ".to_owned();
                m.append(quoted(v.as_str()).as_str());
                m.append(" for -");
                m.append(n.as_str());
                m
            },
            Refused::NoValue(n) => {
                let mut m: String = "flag needs an argument: -".to_owned();
                m.append(n.as_str());
                m.append("=VALUE");
                m
            },
        }
    }
}

/// Where a text starts once the dashes it starts with are left out.
pub open spec fn past_dashes(s: Seq<char>, i: int) -> int
    decreases s.len() - i,
{
    if 0 <= i < s.len() && s[i] == '-' {
        past_dashes(s, i + 1)
    } else {
        i
    }
}

/// An argument that is a flag: it starts with a dash, and is not one
/// dash alone.
pub open spec fn is_flag(a: Seq<char>) -> bool {
    a.len() > 1 && a[0] == '-'
}

/// A flag's name, and its value where it is given one.
pub open spec fn flag_parts(a: Seq<char>) -> (Seq<char>, Option<Seq<char>>) {
    let body = a.skip(past_dashes(a, 0));
    let e = find(body, '=', 0);
    if 0 <= e < body.len() {
        (body.take(e), Some(body.skip(e + 1)))
    } else {
        (body, None)
    }
}

/// The first of the flags from `i` on that has this name; the end where
/// none has.
pub open spec fn defined_at(defs: Seq<Flag>, name: Seq<char>, i: int) -> int
    decreases defs.len() - i,
{
    if 0 <= i < defs.len() && defs[i].name@ != name {
        defined_at(defs, name, i + 1)
    } else {
        i
    }
}

/// What a flag comes to: its name and value, or why not.  A boolean that
/// is false has none.
pub open spec fn one_flag(defs: Seq<Flag>, a: Seq<char>) -> Result<(Seq<char>, Option<Seq<char>>), Refusal> {
    let (name, value) = flag_parts(a);
    let i = defined_at(defs, name, 0);
    if name == "h"@ || name == "help"@ {
        Err(Refusal::Help)
    } else if i >= defs.len() {
        Err(Refusal::Undefined(name))
    } else if defs[i].boolean {
        match value {
            None => Ok((name, Some("true"@))),
            Some(v) => if v == "true"@ {
                Ok((name, Some(v)))
            } else if v == "false"@ {
                Ok((name, None))
            } else {
                Err(Refusal::NotBoolean(name, v))
            },
        }
    } else {
        match value {
            Some(v) => Ok((name, Some(v))),
            None => Err(Refusal::NoValue(name)),
        }
    }
}

/// What the arguments from `i` on come to, with these flags given
/// already: all the flags given, and where the arguments start.
pub open spec fn parsed_from(
    defs: Seq<Flag>,
    a: Seq<Seq<char>>,
    i: int,
    m: Map<Seq<char>, Seq<char>>,
) -> Result<(Map<Seq<char>, Seq<char>>, int), Refusal>
    decreases a.len() - i,
{
    if !(0 <= i < a.len()) {
        Ok((m, i))
    } else if a[i] == "--"@ {
        Ok((m, i + 1))
    } else if !is_flag(a[i]) {
        Ok((m, i))
    } else {
        match one_flag(defs, a[i]) {
            Err(e) => Err(e),
            Ok((name, value)) => parsed_from(
                defs,
                a,
                i + 1,
                match value {
                    Some(v) => m.insert(name, v),
                    None => m,
                },
            ),
        }
    }
}

fn parts(a: &str) -> (r: (String, Option<String>))
    ensures
        (r.0@, maybe(r.1)) == flag_parts(a@),
{
    let c: Vec<char> = chars_of(a);
    let mut s: usize = 0;
    while s < c.len() && c[s] == '-'
        invariant
            s <= c@.len(),
            c@ == a@,
            past_dashes(a@, s as int) == past_dashes(a@, 0),
        decreases c@.len() - s,
    {
        s = s + 1;
    }
    let body: Vec<char> = slice_of(c.as_slice(), s, c.len());
    let ghost b = a@.skip(past_dashes(a@, 0));
    proof {
        assert(body@ =~= b);
    }
    let e: usize = find_char(body.as_slice(), '=', 0);
    if e < body.len() {
        let n: Vec<char> = slice_of(body.as_slice(), 0, e);
        let v: Vec<char> = slice_of(body.as_slice(), e + 1, body.len());
        proof {
            assert(n@ =~= b.take(e as int));
            assert(v@ =~= b.skip(e + 1));
        }
        (string_of(n.as_slice()), Some(string_of(v.as_slice())))
    } else {
        (string_of(body.as_slice()), None)
    }
}

fn take_flag(defs: &[Flag], a: &str) -> (r: Result<Option<Given>, Refused>)
    ensures
        match r {
            Ok(Some(g)) => one_flag(defs@, a@) == Ok::<(Seq<char>, Option<Seq<char>>), Refusal>(
                (g.name@, Some(g.value@)),
            ),
            Ok(None) => one_flag(defs@, a@) is Ok && (one_flag(defs@, a@)->Ok_0).1 is None,
            Err(e) => one_flag(defs@, a@) == Err::<(Seq<char>, Option<Seq<char>>), Refusal>(e@),
        },
{
    let (name, value) = parts(a);
    if same(name.as_str(), "h") || same(name.as_str(), "help") {
        return Err(Refused::Help);
    }
    let mut i: usize = 0;
    while i < defs.len() && !same(defs[i].name, name.as_str())
        invariant
            i <= defs@.len(),
            defined_at(defs@, name@, i as int) == defined_at(defs@, name@, 0),
        decreases defs@.len() - i,
    {
        i = i + 1;
    }
    if i >= defs.len() {
        return Err(Refused::Undefined(name));
    }
    if defs[i].boolean {
        match value {
            None => Ok(Some(Given { name, value: "true".to_owned() })),
            Some(v) => {
                if same(v.as_str(), "true") {
                    Ok(Some(Given { name, value: v }))
                } else if same(v.as_str(), "false") {
                    Ok(None)
                } else {
                    Err(Refused::NotBoolean(name, v))
                }
            },
        }
    } else {
        match value {
            Some(v) => Ok(Some(Given { name, value: v })),
            None => Err(Refused::NoValue(name)),
        }
    }
}

/// The strings of a list from a place on, copied.
pub fn rest_of(a: &Vec<String>, from: usize) -> (r: Vec<String>)
    requires
        from <= a@.len(),
    ensures
        strs(r@) == strs(a@).skip(from as int),
{
    let mut out: Vec<String> = Vec::new();
    let mut i: usize = from;
    proof {
        assert(strs(out@) =~= strs(a@).subrange(from as int, from as int));
    }
    while i < a.len()
        invariant
            from <= i <= a@.len(),
            strs(out@) == strs(a@).subrange(from as int, i as int),
        decreases a@.len() - i,
    {
        let ghost before = out@;
        out.push(a[i].clone());
        i = i + 1;
        proof {
            assert(strs(out@) =~= strs(before).push(a@[i - 1]@));
            assert(strs(out@) =~= strs(a@).subrange(from as int, i as int));
        }
    }
    proof {
        assert(strs(a@).subrange(from as int, i as int) =~= strs(a@).skip(from as int));
    }
    out
}

/// Flags come before the arguments; the first argument that is not a
/// flag ends them, as does `--`.  `-h` and `-help` are the usage.
pub fn parse(defs: &[Flag], args: &Vec<String>) -> (r: Result<Parsed, Refused>)
    ensures
        match (r, parsed_from(defs@, strs(args@), 0, Map::empty())) {
            (Ok(p), Ok((m, i))) => p.all() == m && 0 <= i <= args@.len() && strs(p.args@) == strs(args@).skip(i),
            (Err(e), Err(f)) => e@ == f,
            _ => false,
        },
{
    let ghost a = strs(args@);
    let mut flags: Vec<Given> = Vec::new();
    let mut i: usize = 0;
    let dashes: Vec<char> = chars_of("--");
    while i < args.len()
        invariant_except_break
            parsed_from(defs@, a, i as int, given(flags@)) == parsed_from(defs@, a, 0, Map::empty()),
        invariant
            a == strs(args@),
            i <= args@.len(),
        ensures
            i <= args@.len(),
            parsed_from(defs@, a, 0, Map::empty()) == Ok::<(Map<Seq<char>, Seq<char>>, int), Refusal>(
                (given(flags@), i as int),
            ),
        decreases args@.len() - i,
    {
        proof {
            assert(a[i as int] == args@[i as int]@);
        }
        if same(args[i].as_str(), "--") {
            i = i + 1;
            break;
        }
        let c: Vec<char> = chars_of(args[i].as_str());
        if c.len() <= 1 || c[0] != '-' {
            break;
        }
        match take_flag(defs, args[i].as_str()) {
            Err(e) => {
                return Err(e);
            },
            Ok(Some(g)) => {
                let ghost before = flags@;
                flags.push(g);
                proof {
                    assert(flags@.drop_last() =~= before);
                    assert(flags@.last() == g);
                }
            },
            // a boolean that is false is as if it were not given
            Ok(None) => {},
        }
        i = i + 1;
    }
    Ok(Parsed { flags, args: rest_of(args, i) })
}

/// A flag that takes a value is read as it was given: `-name=value` is
/// that name and that value, whatever the value, and alone it is the one
/// flag given.
pub proof fn law_a_flag_given_is_read(defs: Seq<Flag>, i: int, value: Seq<char>)
    requires
        0 <= i < defs.len(),
        !defs[i].boolean,
        defined_at(defs, defs[i].name@, 0) == i,
        defs[i].name@.len() > 0,
        !defs[i].name@.contains('-'),
        !defs[i].name@.contains('='),
        defs[i].name@ != "h"@,
        defs[i].name@ != "help"@,
    ensures
        one_flag(defs, "-"@ + defs[i].name@ + "="@ + value) == Ok::<(Seq<char>, Option<Seq<char>>), Refusal>(
            (defs[i].name@, Some(value)),
        ),
        parsed_from(defs, seq!["-"@ + defs[i].name@ + "="@ + value], 0, Map::empty()) == Ok::<
            (Map<Seq<char>, Seq<char>>, int),
            Refusal,
        >((Map::empty().insert(defs[i].name@, value), 1)),
{
    let name = defs[i].name@;
    let a = "-"@ + name + "="@ + value;
    reveal_strlit("-");
    lemma_with_value(name, value);
    assert(name.contains(name[0]));
    assert(a[0] == '-' && a[1] == name[0]);
    reveal_strlit("--");
    assert(a[1] != '-');
    reveal_with_fuel(parsed_from, 2);
    assert(seq![a][0] == a);
}

/// A boolean is given alone or as true, and not given where it is false.
pub proof fn law_a_boolean_is_given_unless_it_is_false(defs: Seq<Flag>, i: int)
    requires
        0 <= i < defs.len(),
        defs[i].boolean,
        defined_at(defs, defs[i].name@, 0) == i,
        defs[i].name@.len() > 0,
        !defs[i].name@.contains('-'),
        !defs[i].name@.contains('='),
        defs[i].name@ != "h"@,
        defs[i].name@ != "help"@,
    ensures
        parsed_from(defs, seq!["-"@ + defs[i].name@], 0, Map::empty()) == Ok::<
            (Map<Seq<char>, Seq<char>>, int),
            Refusal,
        >((Map::empty().insert(defs[i].name@, "true"@), 1)),
        parsed_from(defs, seq!["-"@ + defs[i].name@ + "="@ + "true"@], 0, Map::empty()) == Ok::<
            (Map<Seq<char>, Seq<char>>, int),
            Refusal,
        >((Map::empty().insert(defs[i].name@, "true"@), 1)),
        parsed_from(defs, seq!["-"@ + defs[i].name@ + "="@ + "false"@], 0, Map::empty()) == Ok::<
            (Map<Seq<char>, Seq<char>>, int),
            Refusal,
        >((Map::empty(), 1)),
{
    let name = defs[i].name@;
    reveal_strlit("-");
    reveal_strlit("=");
    reveal_strlit("--");
    reveal_strlit("true");
    reveal_strlit("false");
    reveal_with_fuel(past_dashes, 3);
    reveal_with_fuel(parsed_from, 2);
    assert(name.contains(name[0]));
    let bare = "-"@ + name;
    assert(bare[0] == '-' && bare[1] == name[0]);
    assert(bare.skip(1) =~= name);
    lemma_absent(name, 0);
    assert(seq![bare][0] == bare);
    lemma_with_value(name, "true"@);
    lemma_with_value(name, "false"@);
    assert("true"@.len() != "false"@.len());
    let on = "-"@ + name + "="@ + "true"@;
    let off = "-"@ + name + "="@ + "false"@;
    assert(on[1] == name[0] && off[1] == name[0]);
    assert(seq![on][0] == on);
    assert(seq![off][0] == off);
}

/// A name and a value, written out and read again.
proof fn lemma_with_value(name: Seq<char>, value: Seq<char>)
    requires
        name.len() > 0,
        !name.contains('-'),
        !name.contains('='),
    ensures
        flag_parts("-"@ + name + "="@ + value) == (name, Some(value)),
{
    let a = "-"@ + name + "="@ + value;
    reveal_strlit("-");
    reveal_strlit("=");
    assert(name.contains(name[0]));
    assert(a[0] == '-' && a[1] == name[0]);
    reveal_with_fuel(past_dashes, 3);
    assert(past_dashes(a, 0) == 1);
    let body = a.skip(1);
    assert(body =~= name + "="@ + value);
    assert forall|j: int| 0 <= j < name.len() implies body[j] != '=' by {
        assert(name.contains(name[j]));
    }
    lemma_found(body, name.len() as int, 0);
    assert(body.take(name.len() as int) =~= name);
    assert(body.skip(name.len() as int + 1) =~= value);
}

proof fn lemma_absent(s: Seq<char>, i: int)
    requires
        0 <= i <= s.len(),
        !s.contains('='),
    ensures
        find(s, '=', i) >= s.len() || find(s, '=', i) < 0,
    decreases s.len() - i,
{
    if i < s.len() {
        assert(s.contains(s[i]));
        lemma_absent(s, i + 1);
    }
}

proof fn lemma_found(s: Seq<char>, k: int, i: int)
    requires
        0 <= i <= k < s.len(),
        s[k] == '=',
        forall|j: int| 0 <= j < k ==> s[j] != '=',
    ensures
        find(s, '=', i) == k,
    decreases k - i,
{
    if i < k {
        lemma_found(s, k, i + 1);
    }
}

/// The flags end at the first argument that is none, or past two dashes;
/// what follows is left as it is.
pub proof fn law_arguments_end_the_flags(defs: Seq<Flag>, a: Seq<Seq<char>>)
    requires
        a.len() > 0,
    ensures
        a[0] == "--"@ ==> parsed_from(defs, a, 0, Map::empty()) == Ok::<(Map<Seq<char>, Seq<char>>, int), Refusal>(
            (Map::empty(), 1),
        ),
        !is_flag(a[0]) ==> parsed_from(defs, a, 0, Map::empty()) == Ok::<(Map<Seq<char>, Seq<char>>, int), Refusal>(
            (Map::empty(), 0),
        ),
{
    reveal_strlit("--");
}

proof fn lemma_defined_at(defs: Seq<Flag>, name: Seq<char>, i: int)
    requires
        0 <= i <= defs.len(),
    ensures
        i <= defined_at(defs, name, i) <= defs.len(),
        forall|j: int| i <= j < defined_at(defs, name, i) ==> (#[trigger] defs[j]).name@ != name,
        defined_at(defs, name, i) < defs.len() ==> defs[defined_at(defs, name, i)].name@ == name,
    decreases defs.len() - i,
{
    if i < defs.len() && defs[i].name@ != name {
        lemma_defined_at(defs, name, i + 1);
    }
}

/// A flag that is not defined is refused by its name, and one that takes a
/// value and has none; help is always to be had.
pub proof fn law_a_flag_that_cannot_be_read_is_refused(defs: Seq<Flag>, a: Seq<char>)
    ensures
        ({
            let (name, value) = flag_parts(a);
            let r = one_flag(defs, a);
            let helps = name == "h"@ || name == "help"@;
            &&& helps ==> r is Err && r->Err_0 == Refusal::Help
            &&& !helps && (forall|i: int| 0 <= i < defs.len() ==> (#[trigger] defs[i]).name@ != name) ==> r is Err
                && r->Err_0 == Refusal::Undefined(name)
            &&& !helps && value is None && (exists|i: int| 0 <= i < defs.len() && (#[trigger] defs[i]).name@ == name)
                && (forall|i: int| 0 <= i < defs.len() && (#[trigger] defs[i]).name@ == name ==> !defs[i].boolean)
                ==> r is Err && r->Err_0 == Refusal::NoValue(name)
            &&& r is Ok ==> (r->Ok_0).0 == name
        }),
{
    let (name, value) = flag_parts(a);
    lemma_defined_at(defs, name, 0);
    let i = defined_at(defs, name, 0);
    if i < defs.len() {
        assert(defs[i].name@ == name);
    } else {
        assert forall|j: int| 0 <= j < defs.len() implies (#[trigger] defs[j]).name@ != name by {}
    }
}

} // verus!
