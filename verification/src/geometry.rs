//! Integer device-pixel geometry: points, translation, cross products, and the
//! exact integer square root and rounded division that the stroke engine uses.

use vstd::prelude::*;

verus! {

/// Largest coordinate magnitude the backend accepts for a device point.
pub const COORD_LIMIT: i64 = 0x4000_0000;

/// Largest stroke width the backend accepts, in device pixels.
pub const WIDTH_LIMIT: i64 = 0x10_0000;

/// A point in device pixel space. Coordinates grow rightwards and downwards,
/// following the framebuffer convention of the drawing protocol.
#[derive(Clone, Copy, PartialEq, Eq, Structural, Debug)]
pub struct Point {
    pub x: i64,
    pub y: i64,
}

/// The point lies within the coordinate range the backend works in.
pub open spec fn in_bounds(p: Point) -> bool {
    &&& -COORD_LIMIT <= p.x <= COORD_LIMIT
    &&& -COORD_LIMIT <= p.y <= COORD_LIMIT
}

/// A shift vector small enough that translating an in-bounds point stays
/// comfortably inside `i64`.
pub open spec fn small_shift(s: Point) -> bool {
    &&& -WIDTH_LIMIT - 1 <= s.x <= WIDTH_LIMIT + 1
    &&& -WIDTH_LIMIT - 1 <= s.y <= WIDTH_LIMIT + 1
}

/// `p` translated by `s` (mathematical; exact whenever the sums fit in `i64`).
pub open spec fn translate_spec(p: Point, s: Point) -> Point {
    Point { x: (p.x + s.x) as i64, y: (p.y + s.y) as i64 }
}

/// `s` with both components negated.
pub open spec fn neg_spec(s: Point) -> Point {
    Point { x: (-s.x) as i64, y: (-s.y) as i64 }
}

/// Two-dimensional cross product of `a` and `b`, as a mathematical integer.
pub open spec fn cross(a: Point, b: Point) -> int {
    a.x * b.y - a.y * b.x
}

/// Translate `p` by `s`.
pub fn translate(p: Point, s: Point) -> (r: Point)
    requires
        in_bounds(p),
        small_shift(s) || in_bounds(s),
    ensures
        r == translate_spec(p, s),
        r.x == p.x + s.x,
        r.y == p.y + s.y,
{
    Point { x: p.x + s.x, y: p.y + s.y }
}

/// Floor of the square root of `n`, defined recursively over `n`.
pub open spec fn isqrt_spec(n: nat) -> nat
    decreases n,
{
    if n == 0 {
        0
    } else {
        let r = isqrt_spec((n - 1) as nat);
        if (r + 1) * (r + 1) <= n {
            r + 1
        } else {
            r
        }
    }
}

/// `isqrt_spec(n)` is the floor of the square root of `n`.
pub proof fn lemma_isqrt_bounds(n: nat)
    ensures
        isqrt_spec(n) * isqrt_spec(n) <= n,
        n < (isqrt_spec(n) + 1) * (isqrt_spec(n) + 1),
    decreases n,
{
    if n == 0 {
        assert(isqrt_spec(0nat) == 0);
        assert(isqrt_spec(n) * isqrt_spec(n) <= n && n < (isqrt_spec(n) + 1) * (isqrt_spec(n)
            + 1)) by (nonlinear_arith)
            requires
                isqrt_spec(n) == 0,
                n == 0,
        ;
    } else {
        lemma_isqrt_bounds((n - 1) as nat);
        let r = isqrt_spec((n - 1) as nat);
        assert(r * r <= n - 1);
        assert(n - 1 < (r + 1) * (r + 1));
        if (r + 1) * (r + 1) <= n {
            assert(isqrt_spec(n) == r + 1);
            assert(n < (r + 1 + 1) * (r + 1 + 1)) by (nonlinear_arith)
                requires
                    n <= (r + 1) * (r + 1),
                    r >= 0,
            ;
        } else {
            assert(isqrt_spec(n) == r);
        }
    }
}

/// The floor of the square root is the only value between whose square and
/// the next square `n` lies.
pub proof fn lemma_isqrt_unique(n: nat, r: nat)
    requires
        r * r <= n,
        n < (r + 1) * (r + 1),
    ensures
        r == isqrt_spec(n),
{
    let q = isqrt_spec(n);
    lemma_isqrt_bounds(n);
    if r < q {
        assert((r + 1) * (r + 1) <= q * q) by (nonlinear_arith)
            requires
                r + 1 <= q,
                r >= 0,
        ;
    }
    if q < r {
        assert((q + 1) * (q + 1) <= r * r) by (nonlinear_arith)
            requires
                q + 1 <= r,
                q >= 0,
        ;
    }
}

/// Floor of the square root of `n`, by binary search.
pub fn isqrt(n: u64) -> (r: u64)
    ensures
        r == isqrt_spec(n as nat),
        r * r <= n,
{
    let mut lo: u64 = 0;
    let mut hi: u64 = 0x1_0000_0000;
    proof {
        assert((0x1_0000_0000u64 as int) * (0x1_0000_0000u64 as int) > u64::MAX as int);
    }
    while hi - lo > 1
        invariant
            lo < hi <= 0x1_0000_0000,
            (lo as int) * (lo as int) <= n as int,
            (n as int) < (hi as int) * (hi as int),
        decreases hi - lo,
    {
        let mid: u64 = lo + (hi - lo) / 2;
        assert((mid as int) * (mid as int) < 0x1_0000_0000_0000_0000) by (nonlinear_arith)
            requires
                0 <= mid < 0x1_0000_0000,
        ;
        if mid * mid <= n {
            lo = mid;
        } else {
            hi = mid;
        }
    }
    proof {
        lemma_isqrt_unique(n as nat, lo as nat);
    }
    lo
}

/// The open shoelace sum of a vertex sequence: the cross products of
/// consecutive vertices, without the closing edge.
pub open spec fn shoelace(s: Seq<Point>) -> int
    decreases s.len(),
{
    if s.len() < 2 {
        0
    } else {
        cross(s[0], s[1]) + shoelace(s.drop_first())
    }
}

/// Twice the signed area of the closed polygon with vertex sequence `s`, by
/// the shoelace formula: the open shoelace sum plus the closing edge from
/// the last vertex back to the first.
pub open spec fn signed_area_2x(s: Seq<Point>) -> int {
    if s.len() < 2 {
        0
    } else {
        shoelace(s) + cross(s.last(), s[0])
    }
}

/// The open shoelace sum of a concatenation splits at the joining edge.
pub proof fn lemma_shoelace_concat(a: Seq<Point>, b: Seq<Point>)
    requires
        a.len() >= 1,
        b.len() >= 1,
    ensures
        shoelace(a + b) == shoelace(a) + cross(a.last(), b[0]) + shoelace(b),
    decreases a.len(),
{
    if a.len() == 1 {
        assert((a + b).drop_first() =~= b);
        assert((a + b)[0] == a[0] && (a + b)[1] == b[0]);
        assert(shoelace(a) == 0);
    } else {
        assert((a + b).drop_first() =~= a.drop_first() + b);
        lemma_shoelace_concat(a.drop_first(), b);
        assert(a.drop_first().last() == a.last());
        assert(a.drop_first()[0] == a[1]);
    }
}

/// Division of `a` by `d` rounded to the nearest integer, halves away from
/// zero. Negating `a` negates the result exactly.
pub open spec fn div_round_spec(a: int, d: int) -> int
    recommends
        d >= 1,
{
    if a >= 0 {
        (a + d / 2) / d
    } else {
        -((-a + d / 2) / d)
    }
}

/// Rounded division is an odd function of its dividend.
pub proof fn lemma_div_round_odd(a: int, d: int)
    requires
        d >= 1,
    ensures
        div_round_spec(-a, d) == -div_round_spec(a, d),
{
    if a == 0 {
        vstd::arithmetic::div_mod::lemma_basic_div(d / 2, d);
    }
}

/// Rounded division keeps the dividend's sign, and a dividend at least half
/// the divisor away from zero rounds to a quotient away from zero.
pub proof fn lemma_div_round_sign(a: int, d: int)
    requires
        d >= 1,
    ensures
        a >= 0 ==> div_round_spec(a, d) >= 0,
        a <= 0 ==> div_round_spec(a, d) <= 0,
        a >= d - d / 2 ==> div_round_spec(a, d) >= 1,
        a <= -(d - d / 2) ==> div_round_spec(a, d) <= -1,
{
    vstd::arithmetic::div_mod::lemma_basic_div(d / 2, d);
    vstd::arithmetic::div_mod::lemma_div_by_self(d);
    if a >= 0 {
        vstd::arithmetic::div_mod::lemma_div_pos_is_pos(a + d / 2, d);
        if a >= d - d / 2 {
            vstd::arithmetic::div_mod::lemma_div_is_ordered(d, a + d / 2, d);
        }
    } else {
        vstd::arithmetic::div_mod::lemma_div_pos_is_pos(-a + d / 2, d);
        if a <= -(d - d / 2) {
            vstd::arithmetic::div_mod::lemma_div_is_ordered(d, -a + d / 2, d);
        }
    }
}

/// Division of `a` by `d` rounded to the nearest integer, halves away from zero.
pub fn div_round(a: i64, d: u64) -> (r: i64)
    requires
        1 <= d <= 0x1_0000_0000,
        -0x8_0000_0000_0000i64 <= a <= 0x8_0000_0000_0000i64,
    ensures
        r == div_round_spec(a as int, d as int),
{
    if a >= 0 {
        let q: u64 = (a as u64 + d / 2) / d;
        proof {
            vstd::arithmetic::div_mod::lemma_div_nonincreasing(a + d / 2, d as int);
            vstd::arithmetic::div_mod::lemma_div_pos_is_pos(a + d / 2, d as int);
        }
        q as i64
    } else {
        let q: u64 = ((-a) as u64 + d / 2) / d;
        proof {
            vstd::arithmetic::div_mod::lemma_div_nonincreasing(-a + d / 2, d as int);
            vstd::arithmetic::div_mod::lemma_div_pos_is_pos(-a + d / 2, d as int);
        }
        -(q as i64)
    }
}

} // verus!
