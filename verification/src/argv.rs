//! Text as the words that white space parts it into.

use vstd::prelude::*;

use crate::text::{is_whitespace, same_chars, slice_of, trim_start, trimmed_start, views, whitespace};

verus! {

/// The end of the word that `s[i..]` starts with.
pub open spec fn word_end(s: Seq<char>, i: int) -> int
    decreases s.len() - i,
{
    if 0 <= i < s.len() && !whitespace(s[i]) {
        word_end(s, i + 1)
    } else {
        i
    }
}

pub(crate) proof fn lemma_word_end(s: Seq<char>, i: int)
    requires
        0 <= i <= s.len(),
    ensures
        i <= word_end(s, i) <= s.len(),
        i < s.len() && !whitespace(s[i]) ==> i < word_end(s, i),
        forall|j: int| i <= j < word_end(s, i) ==> !whitespace(#[trigger] s[j]),
        word_end(s, i) < s.len() ==> whitespace(s[word_end(s, i)]),
    decreases s.len() - i,
{
    if i < s.len() && !whitespace(s[i]) {
        lemma_word_end(s, i + 1);
    }
}

/// The words of `s` from `i` on.
pub open spec fn words_from(s: Seq<char>, i: int) -> Seq<Seq<char>>
    decreases s.len() - i,
{
    let a = trimmed_start(s, i);
    let z = word_end(s, a);
    if 0 <= i <= a < z <= s.len() {
        seq![s.subrange(a, z)] + words_from(s, z)
    } else {
        Seq::empty()
    }
}

/// The words of `s`.
pub open spec fn words_of(s: Seq<char>) -> Seq<Seq<char>> {
    words_from(s, 0)
}

/// The first word of `s`; nothing where it has none.
pub open spec fn first_word(s: Seq<char>) -> Seq<char> {
    if words_of(s).len() > 0 {
        words_of(s)[0]
    } else {
        Seq::empty()
    }
}

/// The words of `s`.
pub fn words(s: &[char]) -> (r: Vec<Vec<char>>)
    ensures
        views(r@) == words_of(s@),
{
    let mut out: Vec<Vec<char>> = Vec::new();
    let mut i: usize = 0;
    proof {
        assert(views(out@) + words_from(s@, 0) =~= words_from(s@, 0));
    }
    loop
        invariant
            i <= s@.len(),
            views(out@) + words_from(s@, i as int) == words_of(s@),
        decreases s@.len() - i,
    {
        let a: usize = trim_start(s, i);
        let mut z: usize = a;
        while z < s.len() && !is_whitespace(s[z])
            invariant
                a <= z <= s@.len(),
                word_end(s@, z as int) == word_end(s@, a as int),
            decreases s@.len() - z,
        {
            z = z + 1;
        }
        proof {
            crate::text::lemma_trimmed_start(s@, i as int);
            lemma_word_end(s@, a as int);
        }
        if a >= z {
            proof {
                assert(views(out@) + words_from(s@, i as int) =~= views(out@));
            }
            return out;
        }
        let ghost before = out@;
        let w: Vec<char> = slice_of(s, a, z);
        out.push(w);
        proof {
            assert(views(out@) =~= views(before).push(w@));
            assert(views(out@) + words_from(s@, z as int) =~= views(before) + (seq![w@] + words_from(s@, z as int)));
        }
        i = z;
    }
}

/// Whether a word is among those of a list.
pub fn has_word(l: &Vec<Vec<char>>, w: &[char]) -> (r: bool)
    ensures
        r == views(l@).contains(w@),
{
    let mut i: usize = 0;
    while i < l.len()
        invariant
            i <= l@.len(),
            forall|j: int| 0 <= j < i ==> #[trigger] views(l@)[j] != w@,
        decreases l@.len() - i,
    {
        proof {
            assert(views(l@)[i as int] == l@[i as int]@);
        }
        if same_chars(l[i].as_slice(), w) {
            return true;
        }
        i = i + 1;
    }
    false
}

/// The words of `s` from `i` on are at these places: each is a run without
/// white space, and nothing but white space is before, between and after
/// them.
pub open spec fn set_apart(s: Seq<char>, i: int, w: Seq<Seq<char>>, at: Seq<int>) -> bool {
    &&& at.len() == w.len()
    &&& forall|k: int|
        0 <= k < w.len() ==> i <= #[trigger] at[k] && w[k].len() > 0 && at[k] + w[k].len() <= s.len() && s.subrange(
            at[k],
            at[k] + w[k].len(),
        ) == w[k]
    &&& forall|k: int, j: int| 0 <= k < w.len() && 0 <= j < w[k].len() ==> !whitespace(#[trigger] w[k][j])
    &&& forall|k: int| 0 < k < w.len() ==> at[k - 1] + w[k - 1].len() < #[trigger] at[k]
    &&& forall|j: int|
        i <= j < s.len() && !whitespace(#[trigger] s[j]) ==> exists|k: int|
            0 <= k < w.len() && #[trigger] at[k] <= j < at[k] + w[k].len()
}

proof fn lemma_set_apart(s: Seq<char>, i: int) -> (at: Seq<int>)
    requires
        0 <= i <= s.len(),
    ensures
        set_apart(s, i, words_from(s, i), at),
    decreases s.len() - i,
{
    crate::text::lemma_trimmed_start(s, i);
    let a = trimmed_start(s, i);
    lemma_word_end(s, a);
    let z = word_end(s, a);
    let w = words_from(s, i);
    if a < z {
        let rest = words_from(s, z);
        let later = lemma_set_apart(s, z);
        let at = seq![a] + later;
        assert(w =~= seq![s.subrange(a, z)] + rest);
        assert forall|k: int| 0 <= k < w.len() implies i <= #[trigger] at[k] && w[k].len() > 0 && at[k] + w[k].len()
            <= s.len() && s.subrange(at[k], at[k] + w[k].len()) == w[k] by {
            if k > 0 {
                assert(at[k] == later[k - 1] && w[k] == rest[k - 1]);
            }
        }
        assert forall|k: int, j: int| 0 <= k < w.len() && 0 <= j < w[k].len() implies !whitespace(#[trigger] w[k][j]) by {
            if k > 0 {
                assert(w[k] == rest[k - 1]);
                assert(!whitespace(rest[k - 1][j]));
            } else {
                assert(w[k][j] == s[a + j]);
            }
        }
        assert forall|k: int| 0 < k < w.len() implies at[k - 1] + w[k - 1].len() < #[trigger] at[k] by {
            assert(at[k] == later[k - 1] && w[k] == rest[k - 1]);
            if k > 1 {
                assert(at[k - 1] == later[k - 2] && w[k - 1] == rest[k - 2]);
                assert(later[k - 2] + rest[k - 2].len() < later[k - 1]);
            } else {
                assert(z <= later[0]);
                if later[0] == z {
                    assert(s.subrange(z, z + rest[0].len())[0] == rest[0][0]);
                    assert(!whitespace(rest[0][0]));
                }
            }
        }
        assert forall|j: int| i <= j < s.len() && !whitespace(#[trigger] s[j]) implies exists|k: int|
            0 <= k < w.len() && #[trigger] at[k] <= j < at[k] + w[k].len() by {
            if j < z {
                assert(at[0] <= j < at[0] + w[0].len());
            } else {
                let k = choose|k: int| 0 <= k < rest.len() && #[trigger] later[k] <= j < later[k] + rest[k].len();
                assert(at[k + 1] == later[k] && w[k + 1] == rest[k]);
                assert(at[k + 1] <= j < at[k + 1] + w[k + 1].len());
            }
        }
        at
    } else {
        assert(w =~= Seq::empty());
        assert forall|j: int| i <= j < s.len() implies whitespace(#[trigger] s[j]) by {
            if j < a {
                assert(whitespace(s[j]));
            }
        }
        Seq::empty()
    }
}

/// The words of a text are its runs without white space, whole and in order,
/// and the first word is the first of them.
pub proof fn law_words_are_the_runs_without_white_space(s: Seq<char>)
    ensures
        exists|at: Seq<int>| set_apart(s, 0, words_of(s), at),
        words_of(s).len() > 0 ==> first_word(s) == words_of(s)[0],
        words_of(s).len() == 0 ==> first_word(s).len() == 0,
{
    let at = lemma_set_apart(s, 0);
    assert(set_apart(s, 0, words_of(s), at));
}

} // verus!
