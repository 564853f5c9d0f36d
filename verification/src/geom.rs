//! Integer plane geometry for the decision engine.
//!
//! World positions are held in fixed-point integer coordinates: one map
//! distance unit is `SCALE` coordinate steps.  Distance comparisons are
//! stated over the exact squared Euclidean distance, and the few places
//! that need a plain distance use a verified floor square root, so no
//! unchecked rounding enters a decision.
use vstd::prelude::*;

verus! {

/// Fixed-point scale: coordinate steps per map distance unit.
pub const SCALE: i64 = 64;

/// Coordinates are kept within `[0, COORD_LIMIT]` so that every squared
/// distance fits comfortably in a `u64`.
pub const COORD_LIMIT: i64 = 0x10_0000;

/// A point of the map, in fixed-point integer coordinates.
#[derive(Clone, Copy, PartialEq, Eq, Structural, Debug, Hash)]
pub struct Pos {
    pub x: i64,
    pub y: i64,
}

impl Pos {
    /// Whether the point lies within the coordinate bounds.
    pub open spec fn in_bounds(self) -> bool {
        0 <= self.x <= COORD_LIMIT && 0 <= self.y <= COORD_LIMIT
    }
}

/// Squared Euclidean distance between two points.
pub open spec fn dist_sq(a: Pos, b: Pos) -> int {
    (a.x - b.x) * (a.x - b.x) + (a.y - b.y) * (a.y - b.y)
}

proof fn lemma_square_bound(d: int)
    requires
        -COORD_LIMIT <= d <= COORD_LIMIT,
    ensures
        0 <= d * d <= (COORD_LIMIT as int) * (COORD_LIMIT as int),
{
    assert(0 <= d * d <= (COORD_LIMIT as int) * (COORD_LIMIT as int)) by (nonlinear_arith)
        requires
            -COORD_LIMIT <= d <= COORD_LIMIT,
    ;
}

/// Exact squared distance between two in-bounds points.
pub fn distance_sq(a: Pos, b: Pos) -> (r: u64)
    requires
        a.in_bounds(),
        b.in_bounds(),
    ensures
        r == dist_sq(a, b),
{
    proof {
        lemma_square_bound(a.x - b.x);
        lemma_square_bound(a.y - b.y);
    }
    let dx: i64 = a.x - b.x;
    let dy: i64 = a.y - b.y;
    (dx * dx + dy * dy) as u64
}

/// Squared distances of in-bounds points are comfortably small.
pub proof fn lemma_dist_sq_bounds(a: Pos, b: Pos)
    requires
        a.in_bounds(),
        b.in_bounds(),
    ensures
        0 <= dist_sq(a, b) <= 2 * (COORD_LIMIT as int) * (COORD_LIMIT as int),
{
    lemma_square_bound(a.x - b.x);
    lemma_square_bound(a.y - b.y);
}

/// Floor of the square root of a natural number, defined by recurrence.
pub open spec fn sqrt_floor(n: nat) -> nat
    decreases n,
{
    if n == 0 {
        0
    } else {
        let s = sqrt_floor((n - 1) as nat);
        if (s + 1) * (s + 1) <= n {
            s + 1
        } else {
            s
        }
    }
}

/// `sqrt_floor(n)` brackets `n`: its square is at most `n` and the next
/// square is beyond `n`.
pub proof fn lemma_sqrt_floor_bracket(n: nat)
    ensures
        sqrt_floor(n) * sqrt_floor(n) <= n,
        n < (sqrt_floor(n) + 1) * (sqrt_floor(n) + 1),
    decreases n,
{
    let r = sqrt_floor(n);
    if n == 0 {
        assert(r == 0);
        assert((r + 1) * (r + 1) == 1) by (nonlinear_arith)
            requires
                r == 0,
        ;
    } else {
        lemma_sqrt_floor_bracket((n - 1) as nat);
        let s = sqrt_floor((n - 1) as nat);
        if (s + 1) * (s + 1) <= n {
            assert(r == s + 1);
            assert(r * r <= n);
            assert(n < (r + 1) * (r + 1)) by (nonlinear_arith)
                requires
                    r == s + 1,
                    s >= 0,
                    n - 1 < (s + 1) * (s + 1),
            ;
        } else {
            assert(r == s);
            assert(r * r <= n - 1 <= n);
            assert(n < (r + 1) * (r + 1));
        }
    }
}

/// The bracketing property determines the floor square root uniquely.
pub proof fn lemma_sqrt_floor_unique(n: nat, r: nat)
    requires
        r * r <= n,
        n < (r + 1) * (r + 1),
    ensures
        r == sqrt_floor(n),
{
    lemma_sqrt_floor_bracket(n);
    let s = sqrt_floor(n);
    assert(r == s) by (nonlinear_arith)
        requires
            r >= 0,
            s >= 0,
            r * r <= n,
            n < (r + 1) * (r + 1),
            s * s <= n,
            n < (s + 1) * (s + 1),
    ;
}

/// Floor square root, by binary search.
pub fn isqrt(n: u64) -> (r: u64)
    requires
        n < 0x4000_0000_0000_0000,
    ensures
        r == sqrt_floor(n as nat),
        r <= 0x8000_0000,
{
    if n == 0 {
        assert(sqrt_floor(0) == 0);
        return 0;
    }
    let mut lo: u64 = 0;
    let mut hi: u64 = 0x8000_0000;
    assert((0x8000_0000u64 as int) * (0x8000_0000u64 as int) == 0x4000_0000_0000_0000);
    while lo + 1 < hi
        invariant
            lo < hi <= 0x8000_0000,
            n < 0x4000_0000_0000_0000,
            (lo as int) * (lo as int) <= n as int,
            (hi as int) * (hi as int) > n as int,
        decreases hi - lo,
    {
        let mid: u64 = lo + (hi - lo) / 2;
        proof {
            assert((mid as int) * (mid as int) <= 0x4000_0000_0000_0000) by (nonlinear_arith)
                requires
                    0 <= mid <= 0x8000_0000u64,
            ;
        }
        if mid * mid <= n {
            lo = mid;
        } else {
            hi = mid;
        }
    }
    proof {
        lemma_sqrt_floor_unique(n as nat, lo as nat);
    }
    lo
}

/// Signed division that truncates toward zero, matching machine division.
pub open spec fn div_toward_zero(a: int, b: int) -> int
    recommends
        b > 0,
{
    if a >= 0 {
        a / b
    } else {
        -((-a) / b)
    }
}

/// The point reached by walking `d` coordinate steps from `from` toward
/// `to`, in the recurrence of the integer model: each coordinate moves by
/// `delta * d / dist` with truncating division.  When the two points
/// coincide the walk stays at `from`.
pub open spec fn towards_spec(from: Pos, to: Pos, d: int) -> Pos {
    let dist = sqrt_floor(dist_sq(from, to) as nat);
    if dist == 0 {
        from
    } else {
        Pos {
            x: (from.x + div_toward_zero((to.x - from.x) * d, dist as int)) as i64,
            y: (from.y + div_toward_zero((to.y - from.y) * d, dist as int)) as i64,
        }
    }
}

/// Divide `a * m` by `b`, truncating toward zero.
pub fn scaled_toward_zero(a: i64, m: i64, b: u64) -> (r: i64)
    requires
        -COORD_LIMIT <= a <= COORD_LIMIT,
        0 <= m <= COORD_LIMIT,
        0 < b,
    ensures
        r == div_toward_zero(a * m, b as int),
        -COORD_LIMIT * COORD_LIMIT <= r <= COORD_LIMIT * COORD_LIMIT,
        m <= b ==> (a >= 0 ==> 0 <= r <= a) && (a < 0 ==> a <= r <= 0),
{
    proof {
        assert(-(COORD_LIMIT as int) * (COORD_LIMIT as int) <= a * m <= (COORD_LIMIT as int) * (
        COORD_LIMIT as int)) by (nonlinear_arith)
            requires
                -COORD_LIMIT <= a <= COORD_LIMIT,
                0 <= m <= COORD_LIMIT,
        ;
    }
    let prod: i64 = a * m;
    if prod >= 0 {
        let q: u64 = (prod as u64) / b;
        proof {
            assert(q <= prod) by (nonlinear_arith)
                requires
                    q == (prod as int) / (b as int),
                    prod >= 0,
                    b > 0,
            ;
            assert((m <= b && a >= 0 ==> q <= a) && (a < 0 ==> q == 0)) by (nonlinear_arith)
                requires
                    q == (prod as int) / (b as int),
                    prod == a * m,
                    prod >= 0,
                    0 <= m,
                    b > 0,
            ;
        }
        q as i64
    } else {
        let q: u64 = ((-prod) as u64) / b;
        proof {
            assert(q <= -prod) by (nonlinear_arith)
                requires
                    q == (-prod as int) / (b as int),
                    prod < 0,
                    b > 0,
            ;
            assert(m <= b ==> q <= -a) by (nonlinear_arith)
                requires
                    q == (-prod as int) / (b as int),
                    prod == a * m,
                    prod < 0,
                    0 <= m,
                    b > 0,
            ;
        }
        -(q as i64)
    }
}

/// Walk `d` coordinate steps from `from` toward `to`.  A walk no longer
/// than the distance stays between the two points.
pub fn towards(from: Pos, to: Pos, d: i64) -> (r: Pos)
    requires
        from.in_bounds(),
        to.in_bounds(),
        0 <= d <= COORD_LIMIT,
    ensures
        r == towards_spec(from, to, d as int),
        d * d <= dist_sq(from, to) ==> r.in_bounds(),
{
    let dsq = distance_sq(from, to);
    proof {
        lemma_square_bound(from.x - to.x);
        lemma_square_bound(from.y - to.y);
    }
    let dist = isqrt(dsq);
    if dist == 0 {
        from
    } else {
        proof {
            lemma_sqrt_floor_bracket(dsq as nat);
            let di = dist as int;
            let dx = from.x - to.x;
            let dy = from.y - to.y;
            assert((d * d <= dsq ==> d <= di) && (-di <= dx <= di) && (-di <= dy <= di))
                by (nonlinear_arith)
                requires
                    dsq == dx * dx + dy * dy,
                    (di + 1) * (di + 1) > dsq,
                    di * di <= dsq,
                    di >= 0,
                    d >= 0,
            ;
        }
        Pos {
            x: from.x + scaled_toward_zero(to.x - from.x, d, dist),
            y: from.y + scaled_toward_zero(to.y - from.y, d, dist),
        }
    }
}

/// The pair of boundary points on the segment joining two round entities:
/// each entity's centre advanced by its radius toward the other, or the
/// common midpoint when the circles overlap.
pub open spec fn calc_line_spec(p1: Pos, r1: int, p2: Pos, r2: int) -> (Pos, Pos) {
    if dist_sq(p1, p2) < (r1 + r2) * (r1 + r2) {
        let mid = Pos { x: ((p1.x + p2.x) / 2) as i64, y: ((p1.y + p2.y) / 2) as i64 };
        (mid, mid)
    } else {
        (towards_spec(p1, p2, r1), towards_spec(p2, p1, r2))
    }
}

/// Boundary points of two round entities along their connecting line.
pub fn calc_line_points(p1: Pos, r1: i64, p2: Pos, r2: i64) -> (r: (Pos, Pos))
    requires
        p1.in_bounds(),
        p2.in_bounds(),
        0 <= r1 <= COORD_LIMIT,
        0 <= r2 <= COORD_LIMIT,
        r1 + r2 <= COORD_LIMIT,
    ensures
        r == calc_line_spec(p1, r1 as int, p2, r2 as int),
        r.0.in_bounds(),
        r.1.in_bounds(),
{
    let dsq = distance_sq(p1, p2);
    let rr: i64 = r1 + r2;
    proof {
        lemma_square_bound(rr as int);
        assert((rr as int) * (rr as int) >= r1 * r1 && (rr as int) * (rr as int) >= r2 * r2)
            by (nonlinear_arith)
            requires
                0 <= r1,
                0 <= r2,
                rr == r1 + r2,
        ;
    }
    if dsq < (rr * rr) as u64 {
        let sx: u64 = (p1.x + p2.x) as u64;
        let sy: u64 = (p1.y + p2.y) as u64;
        let mid = Pos { x: (sx / 2) as i64, y: (sy / 2) as i64 };
        (mid, mid)
    } else {
        proof {
            assert(dist_sq(p2, p1) == dist_sq(p1, p2)) by (nonlinear_arith);
        }
        (towards(p1, p2, r1), towards(p2, p1, r2))
    }
}

} // verus!
