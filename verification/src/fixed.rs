//! Whole-number arithmetic that colour needs: division that rounds down,
//! square and cube roots.

use vstd::prelude::*;

verus! {

/// `x` is no further than `m` from nought.
pub open spec fn within(x: int, m: int) -> bool {
    -m <= x <= m
}

/// A product is no further from nought than the factors allow.
pub proof fn lemma_within(x: int, y: int, m: int, n: int)
    requires
        within(x, m),
        within(y, n),
    ensures
        within(x * y, m * n),
{
    assert(-(m * n) <= x * y && x * y <= m * n) by (nonlinear_arith)
        requires
            -m <= x <= m,
            -n <= y <= n,
    ;
}

/// A quotient is no further from nought than what was divided.
pub proof fn lemma_within_div(x: int, m: int, d: int)
    requires
        within(x, m * d),
        d > 0,
        m >= 0,
    ensures
        within(x / d, m),
{
    assert(-m <= x / d && x / d <= m) by (nonlinear_arith)
        requires
            -(m * d) <= x <= m * d,
            d > 0,
    ;
}

/// `a / d`, rounded down.
pub fn floor_div(a: i128, d: i128) -> (q: i128)
    requires
        d > 0,
        a > i128::MIN,
    ensures
        q == a as int / d as int,
{
    if a >= 0 {
        a / d
    } else {
        let m: i128 = -(a + 1);
        let k: i128 = m / d;
        proof {
            let r = m as int % d as int;
            vstd::arithmetic::div_mod::lemma_fundamental_div_mod(m as int, d as int);
            assert(a as int == d * (-k - 1) + (d - r - 1)) by (nonlinear_arith)
                requires
                    m as int == d * k + r,
                    m == -(a + 1),
            ;
            vstd::arithmetic::div_mod::lemma_fundamental_div_mod_converse(
                a as int,
                d as int,
                (-k - 1) as int,
                (d - r - 1) as int,
            );
            assert(k <= m) by (nonlinear_arith)
                requires
                    m as int == d * k + r,
                    r >= 0,
                    d >= 1,
                    m >= 0,
            ;
        }
        -k - 1
    }
}

/// What is left of `a` after as many `d` as go into it.
pub fn floor_mod(a: i128, d: i128) -> (r: i128)
    requires
        d > 0,
        a > i128::MIN,
    ensures
        r == a as int % d as int,
        0 <= r < d,
{
    if a >= 0 {
        a % d
    } else {
        let m: i128 = -(a + 1);
        let k: i128 = m % d;
        proof {
            let q = m as int / d as int;
            vstd::arithmetic::div_mod::lemma_fundamental_div_mod(m as int, d as int);
            assert(a as int == d * (-q - 1) + (d - k - 1)) by (nonlinear_arith)
                requires
                    m as int == d * q + k,
                    m == -(a + 1),
            ;
            vstd::arithmetic::div_mod::lemma_fundamental_div_mod_converse(
                a as int,
                d as int,
                (-q - 1) as int,
                (d - k - 1) as int,
            );
        }
        d - k - 1
    }
}

/// `r` is the square root of `n`, rounded down.
pub open spec fn is_sqrt(n: int, r: int) -> bool {
    0 <= r && r * r <= n < (r + 1) * (r + 1)
}

/// `r` is the cube root of `n`, rounded down.
pub open spec fn is_cbrt(n: int, r: int) -> bool {
    0 <= r && r * r * r <= n < (r + 1) * (r + 1) * (r + 1)
}

/// The square root of `n`, rounded down.
pub open spec fn sqrt_of(n: int) -> int {
    choose|r: int| is_sqrt(n, r)
}

/// The cube root of `n`, rounded down.
pub open spec fn cbrt_of(n: int) -> int {
    choose|r: int| is_cbrt(n, r)
}

/// There is one square root.
pub proof fn lemma_one_sqrt(n: int, a: int, b: int)
    requires
        is_sqrt(n, a),
        is_sqrt(n, b),
    ensures
        a == b,
{
    if a < b {
        assert((a + 1) * (a + 1) <= b * b) by (nonlinear_arith)
            requires
                0 <= a < b,
        ;
    } else if b < a {
        assert((b + 1) * (b + 1) <= a * a) by (nonlinear_arith)
            requires
                0 <= b < a,
        ;
    }
}

/// Cubes keep the order of what they are the cubes of.
pub proof fn lemma_cube_grows(x: int, y: int)
    requires
        x <= y,
    ensures
        x * x * x <= y * y * y,
{
    assert((y - x) * (x * x + x * y + y * y) == y * y * y - x * x * x) by (nonlinear_arith);
    assert(x * x + x * y + y * y >= 0) by (nonlinear_arith);
    assert((y - x) * (x * x + x * y + y * y) >= 0) by (nonlinear_arith)
        requires
            y - x >= 0,
            x * x + x * y + y * y >= 0,
    ;
}

/// There is one cube root.
pub proof fn lemma_one_cbrt(n: int, a: int, b: int)
    requires
        is_cbrt(n, a),
        is_cbrt(n, b),
    ensures
        a == b,
{
    if a < b {
        lemma_cube_grows(a + 1, b);
    } else if b < a {
        lemma_cube_grows(b + 1, a);
    }
}

/// There is a square root, from any number on that is not past it.
pub proof fn lemma_sqrt_from(n: int, r: int)
    requires
        0 <= r,
        r * r <= n,
        r <= n,
    ensures
        is_sqrt(n, sqrt_of(n)),
    decreases n - r,
{
    if n < (r + 1) * (r + 1) {
        assert(is_sqrt(n, r));
    } else {
        assert(r + 1 <= (r + 1) * (r + 1)) by (nonlinear_arith)
            requires
                0 <= r,
        ;
        lemma_sqrt_from(n, r + 1);
    }
}

/// There is a cube root, from any number on that is not past it.
pub proof fn lemma_cbrt_from(n: int, r: int)
    requires
        0 <= r,
        r * r * r <= n,
        r <= n,
    ensures
        is_cbrt(n, cbrt_of(n)),
    decreases n - r,
{
    if n < (r + 1) * (r + 1) * (r + 1) {
        assert(is_cbrt(n, r));
    } else {
        assert(r + 1 <= (r + 1) * (r + 1) * (r + 1)) by (nonlinear_arith)
            requires
                0 <= r,
        ;
        lemma_cbrt_from(n, r + 1);
    }
}

/// The square root of `n`, rounded down.
pub fn isqrt(n: i128) -> (r: i128)
    requires
        0 <= n <= 0x1000_0000_0000_0000_0000_0000,
    ensures
        r == sqrt_of(n as int),
        is_sqrt(n as int, r as int),
        r <= 0x1_0000_0000_0000,
{
    let mut lo: i128 = 0;
    let mut hi: i128 = 0x1_0000_0000_0001;
    while hi - lo > 1
        invariant
            0 <= lo < hi <= 0x1_0000_0000_0001,
            lo * lo <= n,
            n < hi * hi,
        decreases hi - lo,
    {
        let mid: i128 = lo + (hi - lo) / 2;
        proof {
            lemma_within(mid as int, mid as int, 0x1_0000_0000_0001, 0x1_0000_0000_0001);
        }
        if mid * mid <= n {
            lo = mid;
        } else {
            hi = mid;
        }
    }
    proof {
        assert(is_sqrt(n as int, lo as int));
        lemma_one_sqrt(n as int, lo as int, sqrt_of(n as int));
    }
    lo
}

/// The cube root of `n`, rounded down.
pub fn icbrt(n: i128) -> (r: i128)
    requires
        0 <= n <= 0x1000_0000_0000_0000_0000_0000,
    ensures
        r == cbrt_of(n as int),
        is_cbrt(n as int, r as int),
        r <= 0x1_0000_0000,
{
    let mut lo: i128 = 0;
    let mut hi: i128 = 0x1_0000_0001;
    proof {
        assert(0x1_0000_0001int * 0x1_0000_0001int * 0x1_0000_0001int > 0x1000_0000_0000_0000_0000_0000int);
    }
    while hi - lo > 1
        invariant
            0 <= lo < hi <= 0x1_0000_0001,
            lo * lo * lo <= n,
            n < hi * hi * hi,
        decreases hi - lo,
    {
        let mid: i128 = lo + (hi - lo) / 2;
        proof {
            lemma_within(mid as int, mid as int, 0x1_0000_0001, 0x1_0000_0001);
            lemma_within(mid * mid, mid as int, 0x1_0000_0001int * 0x1_0000_0001int, 0x1_0000_0001int);
        }
        if mid * mid * mid <= n {
            lo = mid;
        } else {
            hi = mid;
        }
    }
    proof {
        assert(is_cbrt(n as int, lo as int));
        lemma_one_cbrt(n as int, lo as int, cbrt_of(n as int));
    }
    lo
}

} // verus!
