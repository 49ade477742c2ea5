//! Numbers as text, in decimal.

use vstd::prelude::*;
use vstd::string::*;

verus! {

/// A digit's character.
pub open spec fn digit(d: int) -> char {
    (('0' as u32 + d) as u32) as char
}

/// A number in decimal.
pub open spec fn digits(n: nat) -> Seq<char>
    decreases n,
{
    if n < 10 {
        seq![digit(n as int)]
    } else {
        digits(n / 10).push(digit((n % 10) as int))
    }
}

fn digit_of(d: u64) -> (c: char)
    requires
        d < 10,
    ensures
        c == digit(d as int),
{
    if d == 0 {
        '0'
    } else if d == 1 {
        '1'
    } else if d == 2 {
        '2'
    } else if d == 3 {
        '3'
    } else if d == 4 {
        '4'
    } else if d == 5 {
        '5'
    } else if d == 6 {
        '6'
    } else if d == 7 {
        '7'
    } else if d == 8 {
        '8'
    } else {
        '9'
    }
}

/// A number in decimal.
pub fn decimal(n: u64) -> (r: String)
    ensures
        r@ == digits(n as nat),
    decreases n,
{
    if n < 10 {
        let mut r: String = String::new();
        r.push(digit_of(n));
        proof {
            assert(r@ =~= seq![digit(n as int)]);
        }
        r
    } else {
        let mut r: String = decimal(n / 10);
        r.push(digit_of(n % 10));
        r
    }
}

/// The character is a digit.
pub open spec fn is_digit(c: char) -> bool {
    '0' <= c <= '9'
}

/// The number that the first `n` digits are.
pub open spec fn value(s: Seq<char>, n: int) -> int
    decreases n,
{
    if n <= 0 || n > s.len() {
        0
    } else {
        value(s, n - 1) * 10 + (s[n - 1] as int - '0' as int)
    }
}

/// All of them are digits, and there is one at least.
pub open spec fn all_digits(s: Seq<char>) -> bool {
    s.len() > 0 && forall|i: int| 0 <= i < s.len() ==> is_digit(#[trigger] s[i])
}

/// A text without the plus sign it may start with.
pub open spec fn unsigned(s: Seq<char>) -> Seq<char> {
    if s.len() > 1 && s[0] == '+' {
        s.skip(1)
    } else {
        s
    }
}

/// The number that a text is, where it is one of 64 bits.
pub open spec fn number(s: Seq<char>) -> Option<u64> {
    let t = unsigned(s);
    if all_digits(t) && value(t, t.len() as int) <= u64::MAX {
        Some(value(t, t.len() as int) as u64)
    } else {
        None
    }
}

proof fn lemma_value_grows(s: Seq<char>, i: int, n: int)
    requires
        0 <= i <= n <= s.len(),
        forall|k: int| 0 <= k < s.len() ==> is_digit(#[trigger] s[k]),
    ensures
        0 <= value(s, i) <= value(s, n),
    decreases n,
{
    if i < n {
        lemma_value_grows(s, i, n - 1);
        assert(is_digit(s[n - 1]));
    } else if i > 0 {
        lemma_value_grows(s, i - 1, i - 1);
        assert(is_digit(s[i - 1]));
    }
}

/// The number that a text is, where it is one of 64 bits.
pub fn parse(s: &[char]) -> (r: Option<u64>)
    ensures
        r == number(s@),
{
    let start: usize = if s.len() > 1 && s[0] == '+' {
        1
    } else {
        0
    };
    let ghost t = unsigned(s@);
    proof {
        if start == 0 {
            assert(t == s@);
        } else {
            assert(t == s@.skip(1));
        }
    }
    if s.len() == start {
        return None;
    }
    let mut i: usize = start;
    // whether they are all digits is known before how great they are
    while i < s.len()
        invariant
            start <= i <= s@.len(),
            t == unsigned(s@),
            t.len() == s@.len() - start,
            forall|k: int| 0 <= k < t.len() ==> #[trigger] t[k] == s@[k + start],
            forall|k: int| 0 <= k < i - start ==> is_digit(#[trigger] t[k]),
        decreases s@.len() - i,
    {
        let c: char = s[i];
        if c < '0' || c > '9' {
            proof {
                assert(!is_digit(t[i - start]));
            }
            return None;
        }
        proof {
            assert(t[i - start] == c);
        }
        i = i + 1;
    }
    let mut n: u64 = 0;
    let mut k: usize = start;
    while k < s.len()
        invariant
            start <= k <= s@.len(),
            t.len() == s@.len() - start,
            t == unsigned(s@),
            t.len() > 0,
            forall|j: int| 0 <= j < t.len() ==> #[trigger] t[j] == s@[j + start],
            forall|j: int| 0 <= j < t.len() ==> is_digit(#[trigger] t[j]),
            n == value(t, k - start),
        decreases s@.len() - k,
    {
        let c: char = s[k];
        proof {
            assert(t[k - start] == c);
            assert(is_digit(c));
            lemma_value_grows(t, k - start + 1, t.len() as int);
        }
        let d: u64 = (c as u32 - '0' as u32) as u64;
        if n > (u64::MAX - d) / 10 {
            return None;
        }
        n = n * 10 + d;
        k = k + 1;
    }
    Some(n)
}

/// A number is read back from what it is written as.
pub proof fn law_numbers_are_read_back(n: u64)
    ensures
        number(digits(n as nat)) == Some(n),
{
    lemma_digits(n as nat);
    let s = digits(n as nat);
    assert(is_digit(s[0]));
    assert(unsigned(s) == s);
}

proof fn lemma_digits(n: nat)
    ensures
        all_digits(digits(n)),
        value(digits(n), digits(n).len() as int) == n,
    decreases n,
{
    if n < 10 {
        let s = seq![digit(n as int)];
        assert(s[0] == digit(n as int));
        assert(value(s, 0) == 0);
        assert(value(s, 1) == n);
    } else {
        lemma_digits(n / 10);
        let p = digits(n / 10);
        let s = p.push(digit((n % 10) as int));
        lemma_value_of_more(p, digit((n % 10) as int), p.len() as int);
        assert forall|i: int| 0 <= i < s.len() implies is_digit(#[trigger] s[i]) by {
            if i < p.len() {
                assert(s[i] == p[i]);
            }
        }
    }
}

proof fn lemma_value_of_more(s: Seq<char>, c: char, n: int)
    requires
        0 <= n <= s.len(),
    ensures
        value(s.push(c), n) == value(s, n),
    decreases n,
{
    if n > 0 {
        lemma_value_of_more(s, c, n - 1);
        assert(s.push(c)[n - 1] == s[n - 1]);
    }
}

/// The number that a text is, where it is one of 32 bits with a sign.
pub open spec fn integer(s: Seq<char>) -> Option<i32> {
    if s.len() > 1 && s[0] == '-' {
        let t = s.skip(1);
        if all_digits(t) && value(t, t.len() as int) <= 0x8000_0000 {
            Some((0 - value(t, t.len() as int)) as i32)
        } else {
            None
        }
    } else {
        match number(s) {
            Some(n) => if n <= 0x7fff_ffff {
                Some(n as i32)
            } else {
                None
            },
            None => None,
        }
    }
}

/// The number that a text is, where it is one of 32 bits with a sign.
pub fn parse_signed(s: &[char]) -> (r: Option<i32>)
    ensures
        r == integer(s@),
{
    if s.len() > 1 && s[0] == '-' {
        let rest: Vec<char> = crate::text::slice_of(s, 1, s.len());
        let ghost t = s@.skip(1);
        proof {
            assert(rest@ =~= t);
        }
        if rest[0] == '+' {
            proof {
                assert(!is_digit(t[0]));
            }
            return None;
        }
        proof {
            assert(unsigned(t) == t);
            if all_digits(t) {
                lemma_value_grows(t, 0, t.len() as int);
            }
        }
        match parse(rest.as_slice()) {
            Some(n) => {
                if n <= 0x8000_0000 {
                    Some((0 - n as i64) as i32)
                } else {
                    None
                }
            },
            None => None,
        }
    } else {
        match parse(s) {
            Some(n) => {
                if n <= 0x7fff_ffff {
                    Some(n as i32)
                } else {
                    None
                }
            },
            None => None,
        }
    }
}

/// A number with a sign, as it is written.
pub open spec fn signed_digits(n: int) -> Seq<char> {
    if n < 0 {
        "-"@ + digits((0 - n) as nat)
    } else {
        digits(n as nat)
    }
}

/// A number with a sign, as it is written.
pub fn signed(n: i32) -> (r: String)
    ensures
        r@ == signed_digits(n as int),
{
    if n < 0 {
        let mut r: String = "-".to_owned();
        let d: String = decimal((0 - n as i64) as u64);
        r.append(d.as_str());
        r
    } else {
        decimal(n as u64)
    }
}

/// A number with a sign, written down, is read back.
pub proof fn law_signed_numbers_are_read_back(n: i32)
    ensures
        integer(signed_digits(n as int)) == Some(n),
{
    let m: nat = if n < 0 {
        (0 - n) as nat
    } else {
        n as nat
    };
    law_numbers_are_read_back(m as u64);
    lemma_digits(m);
    assert(is_digit(digits(m)[0]));
    if n < 0 {
        reveal_strlit("-");
        let s = signed_digits(n as int);
        assert(s.skip(1) =~= digits(m));
        assert(unsigned(digits(m)) == digits(m));
    }
}

/// A digit more makes ten times the number and that much, and a plus before it
/// makes none.
pub proof fn law_a_digit_more_is_ten_times_as_much(s: Seq<char>, c: char)
    requires
        all_digits(s),
    ensures
        is_digit(c) && number(s) is Some && number(s)->0 * 10 + (c as int - '0' as int) <= u64::MAX ==> number(s.push(c))
            == Some((number(s)->0 * 10 + (c as int - '0' as int)) as u64),
        !is_digit(c) ==> number(s.push(c)) is None,
        number(seq!['+'] + s) == number(s),
        number(seq!['-'] + s) is None,
        number(Seq::empty()) is None,
{
    assert(is_digit(s[0]));
    let t = s.push(c);
    assert(t[0] == s[0]);
    assert(unsigned(s) == s && unsigned(t) == t);
    lemma_value_kept(s, t, s.len() as int);
    lemma_value_counts(s, s.len() as int);
    if is_digit(c) {
        assert(all_digits(t));
        assert(t[s.len() as int] == c);
        assert(value(t, t.len() as int) == value(t, s.len() as int) * 10 + (c as int - '0' as int));
        if number(s) is Some {
            assert(number(s)->0 == value(s, s.len() as int));
        }
    } else {
        assert(!is_digit(t[s.len() as int]));
    }
    let p = seq!['+'] + s;
    assert(p.skip(1) =~= s);
    let m = seq!['-'] + s;
    assert(!is_digit(m[0]));
}

proof fn lemma_value_counts(s: Seq<char>, n: int)
    requires
        0 <= n <= s.len(),
        forall|i: int| 0 <= i < s.len() ==> is_digit(#[trigger] s[i]),
    ensures
        0 <= value(s, n),
    decreases n,
{
    if n > 0 {
        lemma_value_counts(s, n - 1);
        assert(is_digit(s[n - 1]));
    }
}

proof fn lemma_value_kept(s: Seq<char>, t: Seq<char>, n: int)
    requires
        0 <= n <= s.len() <= t.len(),
        forall|i: int| 0 <= i < n ==> #[trigger] s[i] == t[i],
    ensures
        value(s, n) == value(t, n),
    decreases n,
{
    if n > 0 {
        lemma_value_kept(s, t, n - 1);
        assert(s[n - 1] == t[n - 1]);
    }
}

} // verus!
