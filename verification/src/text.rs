//! Strings taken as sequences of characters.

use vstd::prelude::*;
use vstd::string::*;

verus! {

/// `String::push`: the character goes to the end of the string.
pub assume_specification[ String::push ](s: &mut String, c: char)
    ensures
        final(s)@ == old(s)@.push(c),
;

/// What `char::is_alphanumeric` answers for a character that is not ASCII.
pub uninterp spec fn wide_alphanumeric(c: char) -> bool;

/// A letter or a digit.
pub open spec fn alphanumeric(c: char) -> bool {
    if (c as u32) < 0x80 {
        '0' <= c <= '9' || 'A' <= c <= 'Z' || 'a' <= c <= 'z'
    } else {
        wide_alphanumeric(c)
    }
}

/// `char::is_alphanumeric`: of the ASCII characters, the letters and the
/// digits; of the others, those that Unicode calls alphabetic or numeric.
#[verifier::external_body]
pub(crate) fn is_alphanumeric(c: char) -> (r: bool)
    ensures
        (c as u32) < 0x80 ==> r == ('0' <= c <= '9' || 'A' <= c <= 'Z' || 'a' <= c <= 'z'),
        (c as u32) >= 0x80 ==> r == wide_alphanumeric(c),
{
    c.is_alphanumeric()
}

/// A control code: what Unicode has in its category `Cc`.
pub open spec fn control(c: char) -> bool {
    (c as u32) < 0x20 || 0x7f <= (c as u32) <= 0x9f
}

/// Whether a character is a control code: one of Unicode's category `Cc`.
pub(crate) fn is_control(c: char) -> (r: bool)
    ensures
        r == control(c),
{
    let n: u32 = c as u32;
    n <= 0x1f || 0x7f <= n && n <= 0x9f
}

/// White space: the characters that have Unicode's `White_Space`.
pub open spec fn whitespace(c: char) -> bool {
    let n = c as u32;
    ||| 0x9 <= n <= 0xd
    ||| n == 0x20
    ||| n == 0x85
    ||| n == 0xa0
    ||| n == 0x1680
    ||| 0x2000 <= n <= 0x200a
    ||| n == 0x2028
    ||| n == 0x2029
    ||| n == 0x202f
    ||| n == 0x205f
    ||| n == 0x3000
}

/// Whether a character has Unicode's `White_Space`.
pub(crate) fn is_whitespace(c: char) -> (r: bool)
    ensures
        r == whitespace(c),
{
    let n: u32 = c as u32;
    0x9 <= n && n <= 0xd || n == 0x20 || n == 0x85 || n == 0xa0 || n == 0x1680 || 0x2000 <= n && n <= 0x200a || n
        == 0x2028 || n == 0x2029 || n == 0x202f || n == 0x205f || n == 0x3000
}

/// What `char::to_lowercase` gives for a character that is not ASCII.
pub uninterp spec fn wide_lowercase(c: char) -> Seq<char>;

/// A character in lower case, which may take several.
pub open spec fn lowercase(c: char) -> Seq<char> {
    if 'A' <= c <= 'Z' {
        seq![((c as u32) + 32) as char]
    } else if (c as u32) < 0x80 {
        seq![c]
    } else {
        wide_lowercase(c)
    }
}

/// `char::to_lowercase`: an ASCII capital gives its small letter, any
/// other ASCII character itself; the others what Unicode maps them to.
#[verifier::external_body]
pub(crate) fn to_lowercase(c: char) -> (r: Vec<char>)
    ensures
        'A' <= c <= 'Z' ==> r@ == seq![((c as u32) + 32) as char],
        (c as u32) < 0x80 && !('A' <= c <= 'Z') ==> r@ == seq![c],
        (c as u32) >= 0x80 ==> r@ == wide_lowercase(c),
{
    c.to_lowercase().collect()
}

/// What `str::to_lowercase` gives for a string that is not all ASCII.
pub uninterp spec fn wide_lowered(s: Seq<char>) -> Seq<char>;

/// Every character is ASCII.
pub open spec fn all_ascii(s: Seq<char>) -> bool {
    forall|i: int| 0 <= i < s.len() ==> (#[trigger] s[i] as u32) < 0x80
}

/// An ASCII character in lower case.
pub open spec fn ascii_lower(c: char) -> char {
    if 'A' <= c <= 'Z' {
        ((c as u32) + 32) as char
    } else {
        c
    }
}

/// A string in lower case.
pub open spec fn lowered(s: Seq<char>) -> Seq<char> {
    if all_ascii(s) {
        s.map_values(|c: char| ascii_lower(c))
    } else {
        wide_lowered(s)
    }
}

/// `str::to_lowercase`: a string that is all ASCII has its capitals made
/// small; any other is what Unicode's mapping makes of it.
#[verifier::external_body]
pub(crate) fn lower_str(s: &str) -> (r: String)
    ensures
        all_ascii(s@) ==> r@ == s@.map_values(|c: char| ascii_lower(c)),
        !all_ascii(s@) ==> r@ == wide_lowered(s@),
{
    s.to_lowercase()
}

/// What `char::is_lowercase` answers for a character that is not ASCII.
pub uninterp spec fn wide_small(c: char) -> bool;

/// A small letter.
pub open spec fn small(c: char) -> bool {
    if (c as u32) < 0x80 {
        'a' <= c <= 'z'
    } else {
        wide_small(c)
    }
}

/// `char::is_lowercase`: of the ASCII characters, `a` to `z`; of the
/// others, those that have Unicode's `Lowercase`.
#[verifier::external_body]
pub(crate) fn is_lowercase(c: char) -> (r: bool)
    ensures
        (c as u32) < 0x80 ==> r == ('a' <= c <= 'z'),
        (c as u32) >= 0x80 ==> r == wide_small(c),
{
    c.is_lowercase()
}

/// What `char::is_uppercase` answers for a character that is not ASCII.
pub uninterp spec fn wide_capital(c: char) -> bool;

/// A capital.
pub open spec fn capital(c: char) -> bool {
    if (c as u32) < 0x80 {
        'A' <= c <= 'Z'
    } else {
        wide_capital(c)
    }
}

/// `char::is_uppercase`: of the ASCII characters, `A` to `Z`; of the
/// others, those that have Unicode's `Uppercase`.
#[verifier::external_body]
pub(crate) fn is_uppercase(c: char) -> (r: bool)
    ensures
        (c as u32) < 0x80 ==> r == ('A' <= c <= 'Z'),
        (c as u32) >= 0x80 ==> r == wide_capital(c),
{
    c.is_uppercase()
}

/// What `char::is_numeric` answers for a character that is not ASCII.
pub uninterp spec fn wide_numeric(c: char) -> bool;

/// A numeral.
pub open spec fn numeric(c: char) -> bool {
    if (c as u32) < 0x80 {
        '0' <= c <= '9'
    } else {
        wide_numeric(c)
    }
}

/// `char::is_numeric`: of the ASCII characters, the digits; of the
/// others, those that Unicode counts among the numbers.
#[verifier::external_body]
pub(crate) fn is_numeric(c: char) -> (r: bool)
    ensures
        (c as u32) < 0x80 ==> r == ('0' <= c <= '9'),
        (c as u32) >= 0x80 ==> r == wide_numeric(c),
{
    c.is_numeric()
}

/// The end of `s[..z]` once the white space it ends with is left out.
pub open spec fn trimmed_end(s: Seq<char>, z: int) -> int
    decreases z,
{
    if 0 < z <= s.len() && whitespace(s[z - 1]) {
        trimmed_end(s, z - 1)
    } else {
        z
    }
}

/// The start of `s[a..]` once the white space it starts with is left out.
pub open spec fn trimmed_start(s: Seq<char>, a: int) -> int
    decreases s.len() - a,
{
    if 0 <= a < s.len() && whitespace(s[a]) {
        trimmed_start(s, a + 1)
    } else {
        a
    }
}

/// `s` without the white space it starts and ends with.
pub open spec fn trimmed(s: Seq<char>) -> Seq<char> {
    let z = trimmed_end(s, s.len() as int);
    let a = trimmed_start(s, 0);
    if a < z {
        s.subrange(a, z)
    } else {
        Seq::empty()
    }
}

/// `s` holds something other than white space.
pub open spec fn inked(s: Seq<char>) -> bool {
    exists|i: int| 0 <= i < s.len() && !whitespace(#[trigger] s[i])
}

/// Trimming takes white space from the ends and nothing else: what is
/// left neither starts nor ends with any, and it is empty just when there
/// was nothing but white space.
pub proof fn law_trimmed(s: Seq<char>)
    ensures
        trimmed(s).len() > 0 ==> !whitespace(trimmed(s)[0]) && !whitespace(trimmed(s).last()),
        (trimmed(s).len() > 0) == inked(s),
{
    lemma_trimmed_end(s, s.len() as int);
    lemma_trimmed_start(s, 0);
    let z = trimmed_end(s, s.len() as int);
    let a = trimmed_start(s, 0);
    if a < z {
        assert(!whitespace(s[a]));
        assert(inked(s));
    } else if inked(s) {
        let i = choose|i: int| 0 <= i < s.len() && !whitespace(#[trigger] s[i]);
        assert(a <= i < z);
    }
}

pub(crate) proof fn lemma_trimmed_end(s: Seq<char>, z: int)
    requires
        0 <= z <= s.len(),
    ensures
        0 <= trimmed_end(s, z) <= z,
        forall|j: int| trimmed_end(s, z) <= j < z ==> whitespace(#[trigger] s[j]),
        trimmed_end(s, z) > 0 ==> !whitespace(s[trimmed_end(s, z) - 1]),
    decreases z,
{
    if z > 0 && whitespace(s[z - 1]) {
        lemma_trimmed_end(s, z - 1);
    }
}

pub(crate) proof fn lemma_trimmed_start(s: Seq<char>, a: int)
    requires
        0 <= a <= s.len(),
    ensures
        a <= trimmed_start(s, a) <= s.len(),
        forall|j: int| a <= j < trimmed_start(s, a) ==> whitespace(#[trigger] s[j]),
        trimmed_start(s, a) < s.len() ==> !whitespace(s[trimmed_start(s, a)]),
    decreases s.len() - a,
{
    if a < s.len() && whitespace(s[a]) {
        lemma_trimmed_start(s, a + 1);
    }
}

/// Where `s[..z]` ends without the white space it ends with.
pub fn trim_end(s: &[char], z: usize) -> (r: usize)
    requires
        z <= s@.len(),
    ensures
        r == trimmed_end(s@, z as int),
        r <= z,
{
    let mut r: usize = z;
    while r > 0 && is_whitespace(s[r - 1])
        invariant
            r <= z <= s@.len(),
            trimmed_end(s@, r as int) == trimmed_end(s@, z as int),
        decreases r,
    {
        r = r - 1;
    }
    r
}

/// Where `s[a..]` starts without the white space it starts with.
pub fn trim_start(s: &[char], a: usize) -> (r: usize)
    requires
        a <= s@.len(),
    ensures
        r == trimmed_start(s@, a as int),
        a <= r <= s@.len(),
{
    let mut r: usize = a;
    while r < s.len() && is_whitespace(s[r])
        invariant
            a <= r <= s@.len(),
            trimmed_start(s@, r as int) == trimmed_start(s@, a as int),
        decreases s@.len() - r,
    {
        r = r + 1;
    }
    r
}

/// The characters of `s` from `a` up to `z`.
pub fn slice_of(s: &[char], a: usize, z: usize) -> (r: Vec<char>)
    requires
        a <= z <= s@.len(),
    ensures
        r@ == s@.subrange(a as int, z as int),
{
    let mut out: Vec<char> = Vec::new();
    let mut i: usize = a;
    while i < z
        invariant
            a <= i <= z <= s@.len(),
            out@ == s@.subrange(a as int, i as int),
        decreases z - i,
    {
        proof {
            assert(s@.subrange(a as int, i + 1) =~= s@.subrange(a as int, i as int).push(s@[i as int]));
        }
        out.push(s[i]);
        i = i + 1;
    }
    out
}

/// `s` without the white space it starts and ends with.
pub fn trim(s: &[char]) -> (r: Vec<char>)
    ensures
        r@ == trimmed(s@),
{
    let z: usize = trim_end(s, s.len());
    let a: usize = trim_start(s, 0);
    if a < z {
        slice_of(s, a, z)
    } else {
        let none: Vec<char> = Vec::new();
        proof {
            assert(none@ =~= Seq::empty());
        }
        none
    }
}

/// Whether `s` holds something other than white space.
pub fn has_ink(s: &[char]) -> (r: bool)
    ensures
        r == inked(s@),
{
    let z: usize = trim_end(s, s.len());
    proof {
        lemma_trimmed_end(s@, s@.len() as int);
        if z > 0 {
            assert(!whitespace(s@[z - 1]));
        }
    }
    z > 0
}

/// `lit` stands in `s` at `i`.
pub open spec fn stands_at(s: Seq<char>, i: int, lit: Seq<char>) -> bool {
    0 <= i && i + lit.len() <= s.len() && s.subrange(i, i + lit.len()) == lit
}

/// Whether `lit` stands in `s` at `i`.
pub fn has_at(s: &[char], i: usize, lit: &str) -> (r: bool)
    requires
        i <= s@.len(),
    ensures
        r == stands_at(s@, i as int, lit@),
{
    let l: Vec<char> = chars_of(lit);
    let n: usize = s.len();
    if l.len() > n - i {
        return false;
    }
    let mut k: usize = 0;
    while k < l.len()
        invariant
            k <= l@.len(),
            l@ == lit@,
            i + l@.len() <= s@.len() == n,
            forall|j: int| 0 <= j < k ==> s@[i + j] == l@[j],
        decreases l@.len() - k,
    {
        if s[i + k] != l[k] {
            proof {
                assert(s@.subrange(i as int, i + lit@.len())[k as int] != lit@[k as int]);
            }
            return false;
        }
        k = k + 1;
    }
    proof {
        assert(s@.subrange(i as int, i + lit@.len()) =~= lit@);
    }
    true
}

/// `part` stands somewhere in `s`.
pub open spec fn holds(s: Seq<char>, part: Seq<char>) -> bool {
    exists|i: int| #[trigger] stands_at(s, i, part)
}

/// Whether `part` stands somewhere in `s`.
pub fn contains(s: &str, part: &str) -> (r: bool)
    ensures
        r == holds(s@, part@),
{
    let all: Vec<char> = chars_of(s);
    let mut i: usize = 0;
    while i < all.len()
        invariant
            i <= all@.len(),
            all@ == s@,
            forall|j: int| 0 <= j < i ==> !#[trigger] stands_at(s@, j, part@),
        decreases all@.len() - i,
    {
        if has_at(all.as_slice(), i, part) {
            return true;
        }
        i = i + 1;
    }
    has_at(all.as_slice(), i, part)
}

/// Where the first `c` from `i` on is; the end where there is none.
pub open spec fn find(s: Seq<char>, c: char, i: int) -> int
    decreases s.len() - i,
{
    if 0 <= i < s.len() && s[i] != c {
        find(s, c, i + 1)
    } else {
        i
    }
}

/// Where the first `c` from `i` on is; the end where there is none.
pub fn find_char(s: &[char], c: char, i: usize) -> (r: usize)
    requires
        i <= s@.len(),
    ensures
        r == find(s@, c, i as int),
        i <= r <= s@.len(),
        r < s@.len() ==> s@[r as int] == c,
        forall|j: int| i <= j < r ==> s@[j] != c,
{
    let mut r: usize = i;
    while r < s.len() && s[r] != c
        invariant
            i <= r <= s@.len(),
            find(s@, c, r as int) == find(s@, c, i as int),
            forall|j: int| i <= j < r ==> s@[j] != c,
        decreases s@.len() - r,
    {
        r = r + 1;
    }
    r
}

pub(crate) proof fn lemma_find(s: Seq<char>, c: char, i: int)
    requires
        0 <= i <= s.len(),
    ensures
        i <= find(s, c, i) <= s.len(),
        find(s, c, i) < s.len() ==> s[find(s, c, i)] == c,
        forall|j: int| i <= j < find(s, c, i) ==> s[j] != c,
    decreases s.len() - i,
{
    if i < s.len() && s[i] != c {
        lemma_find(s, c, i + 1);
    }
}

pub(crate) proof fn lemma_found_at(s: Seq<char>, c: char, i: int, k: int)
    requires
        0 <= i <= k <= s.len(),
        forall|j: int| i <= j < k ==> s[j] != c,
        k < s.len() ==> s[k] == c,
    ensures
        find(s, c, i) == k,
    decreases k - i,
{
    if i < k {
        lemma_found_at(s, c, i + 1, k);
    }
}

/// A line without the carriage return its newline makes part of the end.
pub open spec fn uncarried(l: Seq<char>) -> Seq<char> {
    if l.len() > 0 && l.last() == '\r' {
        l.drop_last()
    } else {
        l
    }
}

/// The lines of `s` from `i` on, each ended by a newline or a carriage
/// return and a newline; the last may be ended by nothing.
pub open spec fn lines_from(s: Seq<char>, i: int) -> Seq<Seq<char>>
    decreases s.len() - i,
{
    if !(0 <= i < s.len()) {
        Seq::empty()
    } else {
        let e = find(s, '\n', i);
        if i <= e < s.len() {
            seq![uncarried(s.subrange(i, e))] + lines_from(s, e + 1)
        } else {
            seq![s.subrange(i, s.len() as int)]
        }
    }
}

/// The lines of `s`.
pub open spec fn lines_of(s: Seq<char>) -> Seq<Seq<char>> {
    lines_from(s, 0)
}

/// The views of strings held as characters.
pub open spec fn views(v: Seq<Vec<char>>) -> Seq<Seq<char>> {
    v.map_values(|x: Vec<char>| x@)
}

/// The lines of `s`.
pub fn lines(s: &[char]) -> (r: Vec<Vec<char>>)
    ensures
        views(r@) == lines_of(s@),
{
    let mut out: Vec<Vec<char>> = Vec::new();
    let mut i: usize = 0;
    proof {
        assert(views(out@) + lines_from(s@, 0) =~= lines_from(s@, 0));
    }
    while i < s.len()
        invariant
            i <= s@.len(),
            views(out@) + lines_from(s@, i as int) == lines_of(s@),
        decreases s@.len() - i,
    {
        let e: usize = find_char(s, '\n', i);
        let ghost before = out@;
        if e < s.len() {
            let z: usize = if e > i && s[e - 1] == '\r' {
                e - 1
            } else {
                e
            };
            let l: Vec<char> = slice_of(s, i, z);
            proof {
                let whole = s@.subrange(i as int, e as int);
                assert(whole.len() > 0 ==> whole.last() == s@[e - 1]);
                assert(l@ =~= uncarried(whole));
            }
            out.push(l);
            proof {
                assert(views(out@) =~= views(before).push(l@));
                assert(views(out@) + lines_from(s@, e + 1) =~= views(before) + (seq![l@] + lines_from(s@, e + 1)));
            }
            i = e + 1;
        } else {
            let l: Vec<char> = slice_of(s, i, e);
            out.push(l);
            proof {
                assert(views(out@) =~= views(before).push(l@));
                assert(views(out@) + lines_from(s@, e as int) =~= views(before) + seq![l@]);
            }
            i = e;
        }
    }
    proof {
        assert(views(out@) + lines_from(s@, i as int) =~= views(out@));
    }
    out
}

/// How many bytes `c` takes in UTF-8.
pub open spec fn width_utf8(c: char) -> int {
    let u = c as u32;
    if u < 0x80 {
        1
    } else if u < 0x800 {
        2
    } else if u < 0x10000 {
        3
    } else {
        4
    }
}

/// How many bytes `c` takes in UTF-8.
pub fn len_utf8(c: char) -> (n: usize)
    ensures
        n == width_utf8(c),
        1 <= n <= 4,
{
    let u: u32 = c as u32;
    if u < 0x80 {
        1
    } else if u < 0x800 {
        2
    } else if u < 0x10000 {
        3
    } else {
        4
    }
}

/// Whether two lists hold the same characters.
pub fn same_chars(a: &[char], b: &[char]) -> (r: bool)
    ensures
        r == (a@ == b@),
{
    if a.len() != b.len() {
        return false;
    }
    let mut i: usize = 0;
    while i < a.len()
        invariant
            i <= a@.len() == b@.len(),
            forall|j: int| 0 <= j < i ==> a@[j] == b@[j],
        decreases a@.len() - i,
    {
        if a[i] != b[i] {
            return false;
        }
        i = i + 1;
    }
    proof {
        assert(a@ =~= b@);
    }
    true
}

/// Whether two strings hold the same characters.
pub fn same(a: &str, b: &str) -> (r: bool)
    ensures
        r == (a@ == b@),
{
    a.to_owned() == b.to_owned()
}

/// The characters of `s`.
pub fn chars_of(s: &str) -> (r: Vec<char>)
    ensures
        r@ == s@,
{
    let mut out: Vec<char> = Vec::new();
    for c in it: s.chars()
        invariant
            out@ == it.seq().take(it.index()),
            it.seq() == s@,
    {
        proof {
            assert(it.seq().take(it.index() + 1) =~= it.seq().take(it.index()).push(c));
        }
        out.push(c);
    }
    proof {
        assert(s@.take(s@.len() as int) =~= s@);
    }
    out
}

/// The string made of `v`.
pub fn string_of(v: &[char]) -> (r: String)
    ensures
        r@ == v@,
{
    let mut out: String = String::new();
    let mut i: usize = 0;
    while i < v.len()
        invariant
            i <= v@.len(),
            out@ == v@.take(i as int),
        decreases v@.len() - i,
    {
        proof {
            assert(v@.take(i + 1) =~= v@.take(i as int).push(v@[i as int]));
        }
        out.push(v[i]);
        i = i + 1;
    }
    proof {
        assert(v@.take(i as int) =~= v@);
    }
    out
}

/// `s` with what lies in `a..z` replaced by `with`.
pub open spec fn spliced(s: Seq<char>, a: int, z: int, with: Seq<char>) -> Seq<char> {
    s.take(a) + with + s.skip(z)
}

/// `s` with the characters from `a` up to `z` replaced by `with`.
pub fn splice(s: &str, a: usize, z: usize, with: &str) -> (r: String)
    requires
        a <= z <= s@.len(),
    ensures
        r@ == spliced(s@, a as int, z as int, with@),
{
    let n: usize = s.unicode_len();
    let mut out: String = String::from_str(s.substring_char(0, a));
    out.append(with);
    out.append(s.substring_char(z, n));
    proof {
        assert(s@.subrange(0, a as int) =~= s@.take(a as int));
        assert(s@.subrange(z as int, n as int) =~= s@.skip(z as int));
    }
    out
}

} // verus!
