use vstd::prelude::*;
use vstd::arithmetic::div_mod::{lemma_div_is_ordered, lemma_div_by_multiple};

verus! {

/// Fixed-point scale: one world unit is this many steps of a coordinate.
pub const UNIT: i64 = 65536;

/// The largest magnitude a world coordinate may have, in fixed-point steps.
pub const COORD_LIMIT: i64 = 0x1000_0000_0000;

/// Half a turn in microradians.
pub const ANGLE_PI: i64 = 3141593;

/// A full turn in microradians.
pub const ANGLE_TWO_PI: i64 = 6283185;

/// A position in the world, each coordinate in fixed-point steps of `1 / UNIT`.
#[derive(Clone, Copy, Debug, PartialEq, Eq, Structural)]
pub struct Point {
    pub x: i64,
    pub y: i64,
}

impl Point {
    pub fn new(x: i64, y: i64) -> (p: Point)
        ensures
            p == (Point { x, y }),
    {
        Point { x, y }
    }

    /// Both coordinates within the range the library computes with.
    pub open spec fn in_range(self) -> bool {
        -COORD_LIMIT <= self.x <= COORD_LIMIT && -COORD_LIMIT <= self.y <= COORD_LIMIT
    }
}

/// Components within one unit, and a length within two fixed-point steps of one
/// unit, so that a step along the heading covers one world unit.
pub open spec fn heading_ok(c: int, s: int) -> bool {
    &&& -UNIT <= c <= UNIT
    &&& -UNIT <= s <= UNIT
    &&& (UNIT - 2) * (UNIT - 2) <= c * c + s * s <= (UNIT + 2) * (UNIT + 2)
    &&& (c != 0 || s != 0)
}

/// A direction of travel: the cosine and sine of an angle, scaled by `UNIT`.
/// One step along it moves about one world unit.
#[derive(Clone, Copy, Debug)]
pub struct Heading {
    c: i64,
    s: i64,
}

impl Heading {
    #[verifier::type_invariant]
    spec fn inv(self) -> bool {
        heading_ok(self.c as int, self.s as int)
    }

    /// `(cosine, sine)`, scaled by `UNIT`.
    pub closed spec fn components(self) -> (int, int) {
        (self.c as int, self.s as int)
    }

    /// A heading from a scaled cosine and sine; `None` unless it is a unit vector
    /// to within two fixed-point steps.
    pub fn new(c: i64, s: i64) -> (h: Option<Heading>)
        ensures
            h.is_some() == heading_ok(c as int, s as int),
            h.is_some() ==> h.unwrap().components() == (c as int, s as int),
    {
        if -UNIT <= c && c <= UNIT && -UNIT <= s && s <= UNIT && (c != 0 || s != 0) {
            let cc = c as i128;
            let ss = s as i128;
            assert(0 <= cc * cc <= UNIT * UNIT && 0 <= ss * ss <= UNIT * UNIT) by (nonlinear_arith)
                requires
                    -UNIT <= cc <= UNIT,
                    -UNIT <= ss <= UNIT,
            ;
            let len2 = cc * cc + ss * ss;
            let lo: i128 = 4294705156;
            let hi: i128 = 4295229444;
            assert(lo == (UNIT - 2) * (UNIT - 2) && hi == (UNIT + 2) * (UNIT + 2));
            if lo <= len2 && len2 <= hi {
                Some(Heading { c, s })
            } else {
                None
            }
        } else {
            None
        }
    }

    pub fn cos(&self) -> (c: i64)
        ensures
            c == self.components().0,
            heading_ok(self.components().0, self.components().1),
    {
        proof {
            use_type_invariant(self);
        }
        self.c
    }

    pub fn sin(&self) -> (s: i64)
        ensures
            s == self.components().1,
            heading_ok(self.components().0, self.components().1),
    {
        proof {
            use_type_invariant(self);
        }
        self.s
    }
}

/// The angular functions the library needs, which the embedding program supplies.
pub trait Trigonometry {
    /// The unit vector at `angle` microradians.
    fn unit_vector(&self, angle: i64) -> Heading;

    /// The angle in microradians, within `[-ANGLE_PI, ANGLE_PI]`, of the vector
    /// `(dx, dy)`.
    fn angle_of(&self, dx: i64, dy: i64) -> i64;
}

/// The floor of the square root of `n`.
pub open spec fn sqrt_floor(n: nat) -> nat
    decreases n,
{
    if n == 0 {
        0
    } else {
        let r = sqrt_floor((n - 1) as nat);
        if (r + 1) * (r + 1) <= n {
            (r + 1) as nat
        } else {
            r
        }
    }
}

pub proof fn lemma_sqrt_floor(n: nat)
    ensures
        sqrt_floor(n) * sqrt_floor(n) <= n < (sqrt_floor(n) + 1) * (sqrt_floor(n) + 1),
    decreases n,
{
    if n > 0 {
        lemma_sqrt_floor((n - 1) as nat);
        let r = sqrt_floor((n - 1) as nat);
        if (r + 1) * (r + 1) <= n {
            assert((r + 1) * (r + 1) == n) by (nonlinear_arith)
                requires
                    (r + 1) * (r + 1) <= n,
                    n - 1 < (r + 1) * (r + 1),
            ;
            assert(n < (r + 2) * (r + 2)) by (nonlinear_arith)
                requires
                    (r + 1) * (r + 1) == n,
                    r >= 0,
            ;
            assert(sqrt_floor(n) == r + 1);
            let q = sqrt_floor(n);
            assert(q * q <= n < (q + 1) * (q + 1));
        } else {
            assert(sqrt_floor(n) == r);
            assert(r * r <= n);
            assert(n < (r + 1) * (r + 1));
        }
    } else {
        let q = sqrt_floor(n);
        assert(q == 0);
        assert(q * q == 0 && (q + 1) * (q + 1) == 1) by (nonlinear_arith)
            requires
                q == 0,
        ;
    }
}

pub proof fn lemma_sqrt_unique(n: nat, r: nat)
    requires
        r * r <= n < (r + 1) * (r + 1),
    ensures
        r == sqrt_floor(n),
{
    lemma_sqrt_floor(n);
    let q = sqrt_floor(n);
    if r < q {
        assert((r + 1) * (r + 1) <= q * q) by (nonlinear_arith)
            requires
                r + 1 <= q,
                r >= 0,
        ;
    } else if q < r {
        assert((q + 1) * (q + 1) <= r * r) by (nonlinear_arith)
            requires
                q + 1 <= r,
                q >= 0,
        ;
    }
}

/// The largest power-of-two bound on the square roots taken here.
pub const SQRT_BOUND: u128 = 0x4_0000_0000_0000;

/// The floor of the square root of `n`, by bisection.
pub fn isqrt(n: u128) -> (r: u128)
    requires
        n < SQRT_BOUND * SQRT_BOUND,
    ensures
        r == sqrt_floor(n as nat),
        r <= n,
{
    let mut lo: u128 = 0;
    let mut hi: u128 = SQRT_BOUND;
    while hi - lo > 1
        invariant
            lo < hi <= SQRT_BOUND,
            lo * lo <= n,
            n < hi * hi,
        decreases hi - lo,
    {
        let mid = lo + (hi - lo) / 2;
        assert(mid * mid <= SQRT_BOUND * SQRT_BOUND) by (nonlinear_arith)
            requires
                mid <= SQRT_BOUND,
        ;
        if mid * mid <= n {
            lo = mid;
        } else {
            hi = mid;
        }
    }
    proof {
        assert(hi == lo + 1);
        lemma_sqrt_unique(n as nat, lo as nat);
        assert(lo <= n) by (nonlinear_arith)
            requires
                lo * lo <= n,
        ;
    }
    lo
}

/// Integer division rounding toward zero, for a positive divisor.
pub open spec fn quot(n: int, d: int) -> int {
    if n >= 0 {
        n / d
    } else {
        -((-n) / d)
    }
}

/// A step of `mv` toward a point `dist` away, scaled along one axis of offset `d`,
/// is no longer than `mv`.
pub proof fn lemma_quot_step_bound(d: int, mv: int, dist: int)
    requires
        -dist <= d <= dist,
        0 <= mv,
        0 < dist,
    ensures
        -mv <= quot(d * mv, dist) <= mv,
{
    let a = if d >= 0 {
        d * mv
    } else {
        -(d * mv)
    };
    assert(0 <= a <= mv * dist) by (nonlinear_arith)
        requires
            a == (if d >= 0 {
                d * mv
            } else {
                -(d * mv)
            }),
            -dist <= d <= dist,
            0 <= mv,
    ;
    lemma_div_is_ordered(a, mv * dist, dist);
    lemma_div_by_multiple(mv, dist);
    lemma_div_is_ordered(0, a, dist);
}

/// `quot`, computed.
pub fn div_toward_zero(n: i128, d: i128) -> (q: i128)
    requires
        d > 0,
        -0x100_0000_0000_0000_0000_0000_0000_0000 <= n <= 0x100_0000_0000_0000_0000_0000_0000_0000,
    ensures
        q == quot(n as int, d as int),
{
    if n >= 0 {
        n / d
    } else {
        -((-n) / d)
    }
}

} // verus!
