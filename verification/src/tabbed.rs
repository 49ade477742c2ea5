//! Text kept a line at a time, the fields of a line parted by tabs: how
//! what the app remembers is written and read back.

use vstd::prelude::*;
use vstd::string::*;

use crate::text::{find, find_char, lines_from, lines_of, slice_of, uncarried, views};

verus! {

/// The lines from `i` on, each ended by a newline.
pub open spec fn written_from(l: Seq<Seq<char>>, i: int) -> Seq<char>
    decreases l.len() - i,
{
    if 0 <= i < l.len() {
        l[i] + seq!['\n'] + written_from(l, i + 1)
    } else {
        Seq::empty()
    }
}

/// The lines, each ended by a newline.
pub open spec fn written(l: Seq<Seq<char>>) -> Seq<char> {
    written_from(l, 0)
}

/// A line that is read back as it is written.
pub open spec fn one_line(l: Seq<char>) -> bool {
    !l.contains('\n') && uncarried(l) == l
}

proof fn lemma_find_past(a: Seq<char>, b: Seq<char>, c: char, k: int)
    requires
        0 <= k <= b.len(),
    ensures
        find(a + b, c, a.len() + k) == a.len() + find(b, c, k),
    decreases b.len() - k,
{
    if k < b.len() {
        assert((a + b)[a.len() + k] == b[k]);
        if b[k] != c {
            lemma_find_past(a, b, c, k + 1);
        }
    }
}

proof fn lemma_lines_past(a: Seq<char>, b: Seq<char>, k: int)
    requires
        0 <= k <= b.len(),
    ensures
        lines_from(a + b, a.len() + k) == lines_from(b, k),
    decreases b.len() - k,
{
    if k < b.len() {
        lemma_find_past(a, b, '\n', k);
        crate::text::lemma_find(b, '\n', k);
        let e = find(b, '\n', k);
        if e < b.len() {
            lemma_lines_past(a, b, e + 1);
            assert((a + b).subrange(a.len() + k, a.len() + e) =~= b.subrange(k, e));
        } else {
            assert((a + b).subrange(a.len() + k, (a + b).len() as int) =~= b.subrange(k, b.len() as int));
        }
    }
}

/// Where a character that is not in a text, put after it, is found.
proof fn lemma_find_end(l: Seq<char>, c: char, rest: Seq<char>, i: int)
    requires
        0 <= i <= l.len(),
        !l.contains(c),
    ensures
        find(l + seq![c] + rest, c, i) == l.len(),
    decreases l.len() - i,
{
    let s = l + seq![c] + rest;
    if i < l.len() {
        assert(s[i] == l[i]);
        assert(l.contains(l[i]));
        lemma_find_end(l, c, rest, i + 1);
    } else {
        assert(s[i] == c);
    }
}

/// Lines that are written are read back: as many, the same, in order.
pub proof fn law_lines_are_read_back(l: Seq<Seq<char>>)
    requires
        forall|i: int| 0 <= i < l.len() ==> one_line(#[trigger] l[i]),
    ensures
        lines_of(written(l)) == l,
{
    lemma_read_back_from(l, 0);
    assert(l.subrange(0, l.len() as int) =~= l);
}

proof fn lemma_read_back_from(l: Seq<Seq<char>>, i: int)
    requires
        0 <= i <= l.len(),
        forall|j: int| 0 <= j < l.len() ==> one_line(#[trigger] l[j]),
    ensures
        lines_from(written_from(l, i), 0) == l.subrange(i, l.len() as int),
    decreases l.len() - i,
{
    if i < l.len() {
        let rest = written_from(l, i + 1);
        let head = l[i] + seq!['\n'];
        let s = head + rest;
        lemma_read_back_from(l, i + 1);
        assert(one_line(l[i]));
        lemma_find_end(l[i], '\n', rest, 0);
        lemma_lines_past(head, rest, 0);
        assert(s.subrange(0, l[i].len() as int) =~= l[i]);
        assert(l.subrange(i, l.len() as int) =~= seq![l[i]] + l.subrange(i + 1, l.len() as int));
    } else {
        assert(l.subrange(i, l.len() as int) =~= Seq::<Seq<char>>::empty());
    }
}

/// The lines, each ended by a newline.
pub fn write_lines(l: &Vec<Vec<char>>) -> (r: String)
    ensures
        r@ == written(views(l@)),
{
    let mut out: String = String::new();
    let mut i: usize = 0;
    proof {
        assert(out@ + written(views(l@)) =~= written(views(l@)));
    }
    while i < l.len()
        invariant
            i <= l@.len(),
            out@ + written_from(views(l@), i as int) == written(views(l@)),
        decreases l@.len() - i,
    {
        let ghost before = out@;
        let ghost rest = written_from(views(l@), i + 1);
        let line: String = crate::text::string_of(l[i].as_slice());
        out.append(line.as_str());
        out.push('\n');
        proof {
            assert(views(l@)[i as int] == l@[i as int]@);
            assert(out@ + rest =~= before + (line@ + seq!['\n'] + rest));
        }
        i = i + 1;
    }
    proof {
        assert(out@ + written_from(views(l@), i as int) =~= out@);
    }
    out
}

/// The fields of a line from `i` on, parted by tabs.
pub open spec fn fields_from(s: Seq<char>, i: int) -> Seq<Seq<char>>
    decreases s.len() - i,
{
    let e = find(s, '\t', i);
    if 0 <= i <= e < s.len() {
        seq![s.subrange(i, e)] + fields_from(s, e + 1)
    } else {
        seq![s.subrange(i, s.len() as int)]
    }
}

/// The fields of a line, parted by tabs.
pub open spec fn fields_of(s: Seq<char>) -> Seq<Seq<char>> {
    fields_from(s, 0)
}

/// The fields of a line, parted by tabs.
pub fn fields(s: &[char]) -> (r: Vec<Vec<char>>)
    ensures
        views(r@) == fields_of(s@),
{
    let mut out: Vec<Vec<char>> = Vec::new();
    let mut i: usize = 0;
    proof {
        assert(views(out@) + fields_from(s@, 0) =~= fields_from(s@, 0));
    }
    loop
        invariant
            i <= s@.len(),
            views(out@) + fields_from(s@, i as int) == fields_of(s@),
        decreases s@.len() - i,
    {
        let e: usize = find_char(s, '\t', i);
        let ghost before = out@;
        let f: Vec<char> = slice_of(s, i, e);
        out.push(f);
        proof {
            assert(views(out@) =~= views(before).push(f@));
        }
        if e >= s.len() {
            proof {
                assert(views(out@) =~= views(before) + seq![f@]);
            }
            return out;
        }
        proof {
            assert(views(out@) + fields_from(s@, e + 1) =~= views(before) + (seq![f@] + fields_from(s@, e + 1)));
        }
        i = e + 1;
    }
}

/// The fields from `i` on, parted by tabs, as a line.
pub open spec fn tabbed_from(f: Seq<Seq<char>>, i: int) -> Seq<char>
    decreases f.len() - i,
{
    if 0 <= i < f.len() - 1 {
        f[i] + seq!['\t'] + tabbed_from(f, i + 1)
    } else if 0 <= i < f.len() {
        f[i]
    } else {
        Seq::empty()
    }
}

/// The fields of a line, parted by tabs, as the line.
pub open spec fn tabbed(f: Seq<Seq<char>>) -> Seq<char> {
    tabbed_from(f, 0)
}

proof fn lemma_fields_past(a: Seq<char>, b: Seq<char>, k: int)
    requires
        0 <= k <= b.len(),
    ensures
        fields_from(a + b, a.len() + k) == fields_from(b, k),
    decreases b.len() - k,
{
    lemma_find_past(a, b, '\t', k);
    crate::text::lemma_find(b, '\t', k);
    let e = find(b, '\t', k);
    if e < b.len() {
        lemma_fields_past(a, b, e + 1);
        assert((a + b).subrange(a.len() + k, a.len() + e) =~= b.subrange(k, e));
    } else {
        assert((a + b).subrange(a.len() + k, (a + b).len() as int) =~= b.subrange(k, b.len() as int));
    }
}

proof fn lemma_find_none(s: Seq<char>, c: char, i: int)
    requires
        0 <= i <= s.len(),
        !s.contains(c),
    ensures
        find(s, c, i) == s.len(),
    decreases s.len() - i,
{
    if i < s.len() {
        assert(s.contains(s[i]));
        lemma_find_none(s, c, i + 1);
    }
}

/// Fields that hold no tab are read back from the line made of them.
pub proof fn law_fields_are_read_back(f: Seq<Seq<char>>)
    requires
        f.len() > 0,
        forall|i: int| 0 <= i < f.len() ==> !(#[trigger] f[i]).contains('\t'),
    ensures
        fields_of(tabbed(f)) == f,
{
    lemma_fields_back_from(f, 0);
    assert(f.subrange(0, f.len() as int) =~= f);
}

proof fn lemma_fields_back_from(f: Seq<Seq<char>>, i: int)
    requires
        0 <= i < f.len(),
        forall|j: int| 0 <= j < f.len() ==> !(#[trigger] f[j]).contains('\t'),
    ensures
        fields_from(tabbed_from(f, i), 0) == f.subrange(i, f.len() as int),
    decreases f.len() - i,
{
    assert(!f[i].contains('\t'));
    if i < f.len() - 1 {
        let rest = tabbed_from(f, i + 1);
        let head = f[i] + seq!['\t'];
        let s = head + rest;
        lemma_fields_back_from(f, i + 1);
        lemma_find_end(f[i], '\t', rest, 0);
        lemma_fields_past(head, rest, 0);
        assert(s.subrange(0, f[i].len() as int) =~= f[i]);
        assert(f.subrange(i, f.len() as int) =~= seq![f[i]] + f.subrange(i + 1, f.len() as int));
    } else {
        lemma_find_none(f[i], '\t', 0);
        assert(f[i].subrange(0, f[i].len() as int) =~= f[i]);
        assert(f.subrange(i, f.len() as int) =~= seq![f[i]]);
    }
}

/// A line as what stands before its first tab and what stands after it;
/// nothing where it has no tab.
pub open spec fn parted(s: Seq<char>) -> Option<(Seq<char>, Seq<char>)> {
    let e = find(s, '\t', 0);
    if 0 <= e < s.len() {
        Some((s.subrange(0, e), s.subrange(e + 1, s.len() as int)))
    } else {
        None
    }
}

/// The two sides of a line's first tab.
pub fn part(s: &[char]) -> (r: Option<(Vec<char>, Vec<char>)>)
    ensures
        match r {
            Some((a, b)) => parted(s@) == Some((a@, b@)),
            None => parted(s@) is None,
        },
{
    let e: usize = find_char(s, '\t', 0);
    if e < s.len() {
        Some((slice_of(s, 0, e), slice_of(s, e + 1, s.len())))
    } else {
        None
    }
}

/// The line of two sides.
pub open spec fn side_by_side(a: Seq<char>, b: Seq<char>) -> Seq<char> {
    a + seq!['\t'] + b
}

/// Two sides are read back, when the first holds no tab.
pub proof fn law_sides_are_read_back(a: Seq<char>, b: Seq<char>)
    requires
        !a.contains('\t'),
    ensures
        parted(side_by_side(a, b)) == Some((a, b)),
{
    lemma_find_end(a, '\t', b, 0);
    let s = side_by_side(a, b);
    assert(s.subrange(0, a.len() as int) =~= a);
    assert(s.subrange(a.len() as int + 1, s.len() as int) =~= b);
}

/// The line of two sides.
pub fn put_side_by_side(a: &[char], b: &[char]) -> (r: Vec<char>)
    ensures
        r@ == side_by_side(a@, b@),
{
    let mut r: Vec<char> = slice_of(a, 0, a.len());
    r.push('\t');
    let mut i: usize = 0;
    proof {
        assert(r@ =~= a@ + seq!['\t'] + b@.subrange(0, 0));
    }
    while i < b.len()
        invariant
            i <= b@.len(),
            r@ == a@ + seq!['\t'] + b@.subrange(0, i as int),
        decreases b@.len() - i,
    {
        r.push(b[i]);
        i = i + 1;
        proof {
            assert(r@ =~= a@ + seq!['\t'] + b@.subrange(0, i as int));
        }
    }
    proof {
        assert(b@.subrange(0, i as int) =~= b@);
    }
    r
}

} // verus!
