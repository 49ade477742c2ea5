//! Markdown as a page: every block with the source line it starts on, so
//! that a preview can follow dot.

use pulldown_cmark::{html, CowStr, Event, Options, Parser};
use vstd::prelude::*;
use vstd::string::*;
use vstd::utf8::encode_utf8;

use crate::num::{decimal, digits};
use crate::text::{chars_of, same, slice_of, string_of};

verus! {

/// The extensions, by the parser's own numbers: tables, footnotes,
/// strikethrough, task lists and heading attributes.
pub const EXTENSIONS: u32 = 0x5e;

/// Something met in a text: the event that it is, as the parser says it
/// (`Start(Paragraph)`, `SoftBreak`), and the byte where it starts.
#[derive(Debug)]
pub struct Met {
    pub said: String,
    pub start: usize,
}

/// What is met, as values.
pub open spec fn seen(s: Seq<Met>) -> Seq<(Seq<char>, usize)> {
    s.map_values(|m: Met| (m.said@, m.start))
}

/// What the parser meets in a text, in order: each event as the parser says
/// it, and where its bytes start.
pub uninterp spec fn events_of(text: Seq<char>, extensions: u32) -> Seq<(Seq<char>, usize)>;

/// `pulldown_cmark::Parser::new_ext` and `into_offset_iter`: the events of
/// a text, with the bytes they stand on.  What they are is named: each is
/// told in its own `Debug` form, with where its bytes start.
#[verifier::external_body]
fn parse(text: &str, extensions: u32) -> (r: Vec<Met>)
    ensures
        seen(r@) == events_of(text@, extensions),
{
    let events = Parser::new_ext(text, Options::from_bits_truncate(extensions)).into_offset_iter();
    events.map(|(e, at)| Met { said: format!("{e:?}"), start: at.start }).collect()
}

/// A piece of a page: an event of the text, by its place, or HTML that
/// goes between.
pub enum Piece {
    Event(usize),
    Html(String),
}

/// A [`Piece`] as a value.
pub enum Part {
    Event(usize),
    Html(Seq<char>),
}

impl View for Piece {
    type V = Part;

    open spec fn view(&self) -> Part {
        match self {
            Piece::Event(i) => Part::Event(*i),
            Piece::Html(s) => Part::Html(s@),
        }
    }
}

/// Pieces as values.
pub open spec fn parts(s: Seq<Piece>) -> Seq<Part> {
    s.map_values(|p: Piece| p@)
}

/// The HTML of a text's events, with HTML between them.
pub uninterp spec fn html_of(text: Seq<char>, extensions: u32, parts: Seq<Part>) -> Seq<char>;

/// `pulldown_cmark::html::push_html`: the HTML of events, each an event of
/// the text or HTML that is handed on.  What it is is named.
#[verifier::external_body]
fn render(text: &str, extensions: u32, pieces: &Vec<Piece>) -> (r: String)
    requires
        forall|i: int|
            0 <= i < pieces@.len() ==> (#[trigger] pieces@[i] matches Piece::Event(k) ==> k < events_of(
                text@,
                extensions,
            ).len()),
    ensures
        r@ == html_of(text@, extensions, parts(pieces@)),
{
    let parser = Parser::new_ext(text, Options::from_bits_truncate(extensions)).into_offset_iter();
    let events: Vec<Event<'_>> = parser.map(|(e, _)| e).collect();
    let mut r = String::new();
    html::push_html(&mut r, pieces.iter().map(|p| match p {
        Piece::Event(i) => events[*i].clone(),
        Piece::Html(s) => Event::Html(CowStr::from(s.as_str())),
    }));
    r
}

/// Where the newlines among the first `n` bytes are.
pub open spec fn newlines(b: Seq<u8>, n: int) -> Seq<int>
    decreases n,
{
    if n <= 0 || n > b.len() {
        Seq::empty()
    } else if b[n - 1] == 10 {
        newlines(b, n - 1).push(n - 1)
    } else {
        newlines(b, n - 1)
    }
}

/// The line that a byte is on, counted from one: a newline ends its own.
pub open spec fn line_at(text: Seq<char>, offset: int) -> nat {
    let b = encode_utf8(text);
    1 + newlines(
        b,
        if offset < b.len() {
            offset
        } else {
            b.len() as int
        },
    ).len()
}

proof fn lemma_newlines(b: Seq<u8>, m: int, n: int)
    requires
        0 <= m <= n <= b.len(),
    ensures
        newlines(b, m).len() <= newlines(b, n).len(),
        newlines(b, m).len() <= m,
        forall|i: int| 0 <= i < newlines(b, m).len() ==> 0 <= #[trigger] newlines(b, n)[i] < m,
        forall|i: int| newlines(b, m).len() <= i < newlines(b, n).len() ==> m <= #[trigger] newlines(b, n)[i] < n,
    decreases n,
{
    if m < n {
        lemma_newlines(b, m, n - 1);
        if b[n - 1] == 10 {
            let before = newlines(b, n - 1);
            assert forall|i: int| 0 <= i < newlines(b, m).len() implies 0 <= #[trigger] newlines(b, n)[i] < m by {
                assert(newlines(b, n)[i] == before[i]);
            }
            assert forall|i: int| newlines(b, m).len() <= i < newlines(b, n).len() implies m <= #[trigger] newlines(
                b,
                n,
            )[i] < n by {
                if i < before.len() {
                    assert(newlines(b, n)[i] == before[i]);
                }
            }
        }
    } else if n > 0 {
        lemma_newlines(b, n - 1, n - 1);
        if b[n - 1] == 10 {
            let before = newlines(b, n - 1);
            assert forall|i: int| 0 <= i < newlines(b, n).len() implies 0 <= #[trigger] newlines(b, n)[i] < n by {
                if i < before.len() {
                    assert(newlines(b, n)[i] == before[i]);
                }
            }
        }
    }
}

fn newlines_in(text: &str) -> (r: Vec<usize>)
    ensures
        r@.map_values(|i: usize| i as int) == newlines(encode_utf8(text@), encode_utf8(text@).len() as int),
{
    let b: &[u8] = text.as_bytes();
    let mut r: Vec<usize> = Vec::new();
    let mut i: usize = 0;
    proof {
        assert(r@.map_values(|i: usize| i as int) =~= newlines(b@, 0));
    }
    while i < b.len()
        invariant
            i <= b@.len(),
            r@.map_values(|i: usize| i as int) == newlines(b@, i as int),
        decreases b@.len() - i,
    {
        let ghost before = r@;
        if b[i] == 10 {
            r.push(i);
            proof {
                assert(r@.map_values(|i: usize| i as int) =~= before.map_values(|i: usize| i as int).push(i as int));
            }
        }
        i = i + 1;
    }
    r
}

/// How many of the newlines come before a byte.
fn before(at: &Vec<usize>, offset: usize) -> (k: usize)
    requires
        forall|i: int, j: int| 0 <= i < j < at@.len() ==> at@[i] < at@[j],
    ensures
        k <= at@.len(),
        forall|i: int| 0 <= i < k ==> #[trigger] at@[i] < offset,
        forall|i: int| k <= i < at@.len() ==> #[trigger] at@[i] >= offset,
{
    let mut lo: usize = 0;
    let mut hi: usize = at.len();
    while lo < hi
        invariant
            lo <= hi <= at@.len(),
            forall|i: int, j: int| 0 <= i < j < at@.len() ==> at@[i] < at@[j],
            forall|i: int| 0 <= i < lo ==> #[trigger] at@[i] < offset,
            forall|i: int| hi <= i < at@.len() ==> #[trigger] at@[i] >= offset,
        decreases hi - lo,
    {
        let mid: usize = lo + (hi - lo) / 2;
        if at[mid] < offset {
            lo = mid + 1;
        } else {
            hi = mid;
        }
    }
    lo
}

/// From `i` on over letters.
pub open spec fn word_end(s: Seq<char>, i: int) -> int
    decreases s.len() - i,
{
    if 0 <= i < s.len() && ('A' <= s[i] <= 'Z' || 'a' <= s[i] <= 'z') {
        word_end(s, i + 1)
    } else {
        i
    }
}

/// The element that an event is the start of, by its name.
pub open spec fn started(said: Seq<char>) -> Option<Seq<char>> {
    if said.len() >= 6 && said.take(6) == "Start("@ {
        Some(said.subrange(6, word_end(said, 6)))
    } else {
        None
    }
}

/// An element that is marked with the line it starts on.
pub open spec fn is_block(name: Seq<char>) -> bool {
    ||| name == "Paragraph"@
    ||| name == "Heading"@
    ||| name == "BlockQuote"@
    ||| name == "CodeBlock"@
    ||| name == "Item"@
    ||| name == "Table"@
    ||| name == "HtmlBlock"@
}

/// An event that is marked: the start of such an element.
pub open spec fn is_marked(said: Seq<char>) -> bool {
    started(said) matches Some(name) && is_block(name)
}

/// Whether an event is marked.
pub fn marks(said: &str) -> (r: bool)
    ensures
        r == is_marked(said@),
{
    let c: Vec<char> = chars_of(said);
    if c.len() < 6 {
        return false;
    }
    let what: String = string_of(slice_of(c.as_slice(), 0, 6).as_slice());
    proof {
        assert(said@.subrange(0, 6) =~= said@.take(6));
    }
    if !same(what.as_str(), "Start(") {
        return false;
    }
    let mut z: usize = 6;
    while z < c.len() && ('A' <= c[z] && c[z] <= 'Z' || 'a' <= c[z] && c[z] <= 'z')
        invariant
            6 <= z <= c@.len(),
            c@ == said@,
            word_end(said@, z as int) == word_end(said@, 6),
        decreases c@.len() - z,
    {
        z = z + 1;
    }
    let name: String = string_of(slice_of(c.as_slice(), 6, z).as_slice());
    let n: &str = name.as_str();
    same(n, "Paragraph") || same(n, "Heading") || same(n, "BlockQuote") || same(n, "CodeBlock") || same(n, "Item")
        || same(n, "Table") || same(n, "HtmlBlock")
}

/// The mark of a line.
pub open spec fn mark_of(line: nat) -> Seq<char> {
    "<span class=\"apex-line\" data-line=\""@ + digits(line) + "\"></span>"@
}

/// The first `n` events, with a mark before each that is marked.
pub open spec fn marked(text: Seq<char>, met: Seq<(Seq<char>, usize)>, n: int) -> Seq<Part>
    decreases n,
{
    if n <= 0 || n > met.len() {
        Seq::empty()
    } else {
        let (said, start) = met[n - 1];
        let fewer = marked(text, met, n - 1);
        (if is_marked(said) {
            fewer.push(Part::Html(mark_of(line_at(text, start as int))))
        } else {
            fewer
        }).push(Part::Event((n - 1) as usize))
    }
}

/// The events of a text, with a mark before each that starts a block.
pub fn mark(text: &str, met: &Vec<Met>) -> (r: Vec<Piece>)
    requires
        encode_utf8(text@).len() < u64::MAX,
    ensures
        parts(r@) == marked(text@, seen(met@), met@.len() as int),
{
    let at: Vec<usize> = newlines_in(text);
    let ghost b = encode_utf8(text@);
    let ghost all = newlines(b, b.len() as int);
    proof {
        let seen = at@.map_values(|i: usize| i as int);
        assert(seen == all);
        assert forall|i: int, j: int| 0 <= i < j < at@.len() implies at@[i] < at@[j] by {
            assert(seen[i] == at@[i] && seen[j] == at@[j]);
            lemma_rising(b, b.len() as int, i, j);
        }
    }
    let mut r: Vec<Piece> = Vec::new();
    let mut i: usize = 0;
    proof {
        assert(parts(r@) =~= marked(text@, seen(met@), 0));
    }
    while i < met.len()
        invariant
            i <= met@.len(),
            b == encode_utf8(text@),
            b.len() < u64::MAX,
            all == newlines(b, b.len() as int),
            at@.map_values(|i: usize| i as int) == all,
            forall|i: int, j: int| 0 <= i < j < at@.len() ==> at@[i] < at@[j],
            parts(r@) == marked(text@, seen(met@), i as int),
        decreases met@.len() - i,
    {
        let ghost old_r = r@;
        proof {
            assert(seen(met@)[i as int] == (met@[i as int].said@, met@[i as int].start));
        }
        if marks(met[i].said.as_str()) {
            let offset: usize = met[i].start;
            let k: usize = before(&at, offset);
            proof {
                let m: int = if offset < b.len() {
                    offset as int
                } else {
                    b.len() as int
                };
                let seen = at@.map_values(|i: usize| i as int);
                lemma_newlines(b, m, b.len() as int);
                let c = newlines(b, m).len() as int;
                if k < c {
                    assert(seen[k as int] == at@[k as int]);
                }
                if c < k {
                    assert(seen[c] == at@[c]);
                }
                assert(k == c);
            }
            let line: u64 = k as u64 + 1;
            let mut s: String = "<span class=\"apex-line\" data-line=\"".to_owned();
            s.append(decimal(line).as_str());
            s.append("\"></span>");
            r.push(Piece::Html(s));
            proof {
                assert(parts(r@) =~= parts(old_r).push(Part::Html(mark_of(line_at(text@, offset as int)))));
            }
        }
        let ghost mid_r = r@;
        r.push(Piece::Event(i));
        proof {
            assert(parts(r@) =~= parts(mid_r).push(Part::Event(i)));
        }
        i = i + 1;
    }
    r
}

proof fn lemma_rising(b: Seq<u8>, n: int, i: int, j: int)
    requires
        0 <= n <= b.len(),
        0 <= i < j < newlines(b, n).len(),
    ensures
        newlines(b, n)[i] < newlines(b, n)[j],
    decreases n,
{
    if b[n - 1] == 10 {
        let before = newlines(b, n - 1);
        lemma_newlines(b, n - 1, n - 1);
        if j < before.len() {
            lemma_rising(b, n - 1, i, j);
        }
        assert(newlines(b, n)[i] == before[i]);
    } else {
        lemma_rising(b, n - 1, i, j);
    }
}

proof fn lemma_marked(text: Seq<char>, met: Seq<(Seq<char>, usize)>, n: int)
    requires
        0 <= n <= met.len() <= usize::MAX,
    ensures
        forall|i: int|
            0 <= i < marked(text, met, n).len() ==> (#[trigger] marked(text, met, n)[i] matches Part::Event(k) ==> k < n),
    decreases n,
{
    if n > 0 {
        lemma_marked(text, met, n - 1);
        let fewer = marked(text, met, n - 1);
        let all = marked(text, met, n);
        assert forall|i: int| 0 <= i < all.len() implies (#[trigger] all[i] matches Part::Event(k) ==> k < n) by {
            if i < fewer.len() {
                assert(all[i] == fewer[i]);
            }
        }
    }
}

/// A page around the HTML of a text, with its style.
pub open spec fn page_of(style: Seq<char>, body: Seq<char>) -> Seq<char> {
    "<!doctype html>\n<html><head><meta charset=\"utf-8\"><meta name=\"viewport\" content=\"width=device-width, initial-scale=1\"><style>"@
        + style
        + "\n.markdown-body { box-sizing: border-box; min-width: 200px; max-width: 980px; margin: 0 auto; padding: 45px; } @media (max-width: 767px) { .markdown-body { padding: 15px; } } body { margin: 0; background: #fff; }</style></head><body><article class=\"markdown-body\">\n"@
        + body + "</article></body></html>\n"@
}

/// A page around the HTML of a text, with its style.
pub fn page(style: &str, body: &str) -> (r: String)
    ensures
        r@ == page_of(style@, body@),
{
    let mut r: String =
        "<!doctype html>\n<html><head><meta charset=\"utf-8\"><meta name=\"viewport\" content=\"width=device-width, initial-scale=1\"><style>".to_owned();
    r.append(style);
    r.append(
        "\n.markdown-body { box-sizing: border-box; min-width: 200px; max-width: 980px; margin: 0 auto; padding: 45px; } @media (max-width: 767px) { .markdown-body { padding: 15px; } } body { margin: 0; background: #fff; }</style></head><body><article class=\"markdown-body\">\n",
    );
    r.append(body);
    r.append("</article></body></html>\n");
    r
}

/// Markdown as a whole page, with this stylesheet.
pub fn markdown_page(text: &str, style: &str) -> (r: String)
    requires
        encode_utf8(text@).len() < u64::MAX,
    ensures
        ({
            let met = events_of(text@, EXTENSIONS);
            r@ == page_of(style@, html_of(text@, EXTENSIONS, marked(text@, met, met.len() as int)))
        }),
{
    let met: Vec<Met> = parse(text, EXTENSIONS);
    let pieces: Vec<Piece> = mark(text, &met);
    let n: usize = met.len();
    proof {
        assert(seen(met@).len() == met@.len());
        lemma_marked(text@, seen(met@), n as int);
        assert forall|i: int| 0 <= i < pieces@.len() implies (#[trigger] pieces@[i] matches Piece::Event(k) ==> k < met@.len()) by {
            assert(parts(pieces@)[i] == pieces@[i]@);
        }
    }
    let body: String = render(text, EXTENSIONS, &pieces);
    page(style, body.as_str())
}

/// The marks are added, and nothing else: without them the events are
/// the text's own, in order.
pub proof fn law_the_marks_leave_the_events_as_they_are(text: Seq<char>, met: Seq<(Seq<char>, usize)>, n: int)
    requires
        0 <= n <= met.len() <= usize::MAX,
    ensures
        marked(text, met, n).filter(|p: Part| p is Event) == Seq::new(n as nat, |i: int| Part::Event(i as usize)),
    decreases n,
{
    let own = |p: Part| p is Event;
    let all = marked(text, met, n);
    reveal_with_fuel(Seq::filter, 3);
    if n > 0 {
        law_the_marks_leave_the_events_as_they_are(text, met, n - 1);
        let fewer = marked(text, met, n - 1);
        let line = Part::Html(mark_of(line_at(text, met[n - 1].1 as int)));
        assert(all.drop_last() =~= if is_marked(met[n - 1].0) {
            fewer.push(line)
        } else {
            fewer
        });
        assert(fewer.push(line).drop_last() =~= fewer);
        assert(all.filter(own) =~= fewer.filter(own).push(Part::Event((n - 1) as usize)));
        assert(all.filter(own) =~= Seq::new(n as nat, |i: int| Part::Event(i as usize)));
    } else {
        assert(all.filter(own) =~= Seq::new(0, |i: int| Part::Event(i as usize)));
    }
}

/// The lines marked never go back as the bytes go on.
pub proof fn law_later_bytes_are_on_later_lines(text: Seq<char>, a: int, z: int)
    requires
        0 <= a <= z,
    ensures
        line_at(text, a) <= line_at(text, z),
{
    let b = encode_utf8(text);
    let m: int = if a < b.len() {
        a
    } else {
        b.len() as int
    };
    let n: int = if z < b.len() {
        z
    } else {
        b.len() as int
    };
    lemma_newlines(b, m, n);
}

/// Each block is marked right before it with the line that it starts on, and
/// nothing else is marked.
pub proof fn law_a_block_is_marked_before_it(text: Seq<char>, met: Seq<(Seq<char>, usize)>, n: int)
    requires
        0 < n <= met.len() <= usize::MAX,
    ensures
        ({
            let m = marked(text, met, n);
            let k = marked(text, met, n - 1).len() as int;
            &&& m.take(k) == marked(text, met, n - 1)
            &&& m.last() == Part::Event((n - 1) as usize)
            &&& is_marked(met[n - 1].0) ==> m.len() == k + 2 && m[k] == Part::Html(
                mark_of(line_at(text, met[n - 1].1 as int)),
            )
            &&& !is_marked(met[n - 1].0) ==> m.len() == k + 1
        }),
{
    let m = marked(text, met, n);
    let before = marked(text, met, n - 1);
    assert(m.take(before.len() as int) =~= before);
}

/// Lines are counted from one, and a newline starts the next.
pub proof fn law_lines_are_counted_from_one(text: Seq<char>, i: int)
    requires
        0 <= i < encode_utf8(text).len(),
    ensures
        line_at(text, 0) == 1,
        encode_utf8(text)[i] == 10 ==> line_at(text, i + 1) == line_at(text, i) + 1,
        encode_utf8(text)[i] != 10 ==> line_at(text, i + 1) == line_at(text, i),
{
}

} // verus!
