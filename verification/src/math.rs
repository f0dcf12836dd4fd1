//! Exact fixed-point arithmetic for the simulation.
//!
//! Every length is a whole number of thousandths of a world unit. Positions
//! are 32-bit and saturate at the edge of the representable world;
//! displacements and velocities are 64-bit, so the difference of any two
//! positions is exact. Rounding, where a quotient is needed, is always
//! towards zero.

use vstd::prelude::*;

verus! {

/// Number of raw steps in one world unit.
pub const UNIT: i32 = 1000;

/// A position on the ground plane, in thousandths of a unit.
#[derive(Clone, Copy, Debug, PartialEq, Eq, Structural)]
pub struct Point2 {
    pub x: i32,
    pub y: i32,
}

/// A displacement or a velocity, in thousandths of a unit (per second).
#[derive(Clone, Copy, Debug, PartialEq, Eq, Structural)]
pub struct Vector2 {
    pub x: i64,
    pub y: i64,
}

/// `v` brought into the range of a 32-bit coordinate.
pub open spec fn saturated(v: int) -> int {
    if v < i32::MIN {
        i32::MIN as int
    } else if v > i32::MAX {
        i32::MAX as int
    } else {
        v
    }
}

/// `a / b` rounded towards zero; `b` is not zero.
pub open spec fn quotient(a: int, b: int) -> int {
    if b > 0 {
        if a >= 0 {
            a / b
        } else {
            -((-a) / b)
        }
    } else {
        if a <= 0 {
            (-a) / (-b)
        } else {
            -(a / (-b))
        }
    }
}

/// `r` is the integer square root of `n`: the largest whole number whose
/// square does not exceed `n`.
pub open spec fn is_root(n: int, r: int) -> bool {
    0 <= r && r * r <= n && n < (r + 1) * (r + 1)
}

/// The integer square root of `n`, for `n >= 0`.
pub open spec fn root(n: int) -> int {
    choose|r: int| is_root(n, r)
}

/// The square of the Euclidean length of `v`.
pub open spec fn norm_squared(v: Vector2) -> int {
    v.x * v.x + v.y * v.y
}

/// The Euclidean length of `v`, rounded down.
pub open spec fn norm(v: Vector2) -> int {
    root(norm_squared(v))
}

/// `q` is `a` divided by the square root of `b`, rounded down: the largest
/// whole number whose square times `b` does not exceed the square of `a`.
/// `a` is not negative and `b` is positive.
pub open spec fn is_root_quotient(a: int, b: int, q: int) -> bool {
    0 <= q && (q * q) * b <= a * a && a * a < ((q + 1) * (q + 1)) * b
}

/// `a` divided by the square root of `b`, rounded down, for `a >= 0` and
/// `b > 0`.
pub open spec fn root_quotient(a: int, b: int) -> int {
    choose|q: int| is_root_quotient(a, b, q)
}

/// `a` divided by the square root of `b`, rounded towards zero, for `b > 0`.
pub open spec fn quotient_by_root(a: int, b: int) -> int {
    if a >= 0 {
        root_quotient(a, b)
    } else {
        -root_quotient(-a, b)
    }
}

/// `v` turned into the vector of length `length` with the same direction,
/// as near as the grid allows: each component is the exact value,
/// `component * length / sqrt(norm_squared(v))`, rounded towards zero. The
/// zero vector has no direction and gives zero.
pub open spec fn rescaled(v: Vector2, length: int) -> Vector2 {
    if v.x == 0 && v.y == 0 {
        Vector2 { x: 0, y: 0 }
    } else {
        Vector2 {
            x: quotient_by_root(v.x * length, norm_squared(v)) as i64,
            y: quotient_by_root(v.y * length, norm_squared(v)) as i64,
        }
    }
}

/// `to - from`, exact.
pub open spec fn displacement(from: Point2, to: Point2) -> Vector2 {
    Vector2 { x: (to.x - from.x) as i64, y: (to.y - from.y) as i64 }
}

/// `p + v`, each coordinate saturating.
pub open spec fn translated(p: Point2, v: Vector2) -> Point2 {
    Point2 { x: saturated(p.x + v.x) as i32, y: saturated(p.y + v.y) as i32 }
}

/// The integer square root is unique.
pub proof fn lemma_root_unique(n: int, a: int, b: int)
    requires
        is_root(n, a),
        is_root(n, b),
    ensures
        a == b,
{
    if a < b {
        assert((a + 1) * (a + 1) <= b * b) by (nonlinear_arith)
            requires
                0 <= a,
                a + 1 <= b,
        ;
    } else if b < a {
        assert((b + 1) * (b + 1) <= a * a) by (nonlinear_arith)
            requires
                0 <= b,
                b + 1 <= a,
        ;
    }
}

/// Whatever has the defining property of the root is the root.
pub proof fn lemma_root_is(n: int, r: int)
    requires
        is_root(n, r),
    ensures
        root(n) == r,
{
    lemma_root_unique(n, r, root(n));
}

/// No component of a vector is longer than the vector.
pub proof fn lemma_component_le_norm(v: Vector2, n: int)
    requires
        is_root(norm_squared(v), n),
    ensures
        -n <= v.x <= n,
        -n <= v.y <= n,
{
    let x = v.x as int;
    let y = v.y as int;
    assert(x * x >= 0 && y * y >= 0) by (nonlinear_arith);
    if x > n {
        assert((n + 1) * (n + 1) <= x * x) by (nonlinear_arith)
            requires
                0 <= n,
                n + 1 <= x,
        ;
    }
    if x < -n {
        assert((n + 1) * (n + 1) <= x * x) by (nonlinear_arith)
            requires
                0 <= n,
                x <= -(n + 1),
        ;
    }
    if y > n {
        assert((n + 1) * (n + 1) <= y * y) by (nonlinear_arith)
            requires
                0 <= n,
                n + 1 <= y,
        ;
    }
    if y < -n {
        assert((n + 1) * (n + 1) <= y * y) by (nonlinear_arith)
            requires
                0 <= n,
                y <= -(n + 1),
        ;
    }
}

/// A vector has no length exactly when it is the zero vector.
pub proof fn lemma_norm_zero(v: Vector2)
    ensures
        norm(v) == 0 <==> v.x == 0 && v.y == 0,
{
    let x = v.x as int;
    let y = v.y as int;
    assert(x * x >= 0 && y * y >= 0) by (nonlinear_arith);
    if x == 0 && y == 0 {
        assert(is_root(norm_squared(v), 0));
        lemma_root_is(norm_squared(v), 0);
    } else {
        assert(x * x + y * y >= 1) by (nonlinear_arith)
            requires
                x != 0 || y != 0,
        ;
        lemma_root_exists(norm_squared(v));
        let n = norm(v);
        assert(is_root(norm_squared(v), n));
        if n == 0 {
            assert((n + 1) * (n + 1) == 1) by (nonlinear_arith)
                requires
                    n == 0,
            ;
        }
    }
}

/// Every number that is not negative has an integer square root.
pub proof fn lemma_root_exists(n: int)
    requires
        n >= 0,
    ensures
        is_root(n, root(n)),
    decreases n,
{
    if n == 0 {
        assert(is_root(0, 0));
    } else {
        lemma_root_exists(n - 1);
        let r = root(n - 1);
        if (r + 1) * (r + 1) <= n {
            assert(n < (r + 2) * (r + 2)) by (nonlinear_arith)
                requires
                    n - 1 < (r + 1) * (r + 1),
                    r >= 0,
            ;
            assert(is_root(n, r + 1));
        } else {
            assert(r * r <= n) by (nonlinear_arith)
                requires
                    r * r <= n - 1,
            ;
            assert(is_root(n, r));
        }
    }
}

/// There is one quotient by a root at most.
pub proof fn lemma_root_quotient_unique(a: int, b: int, p: int, q: int)
    requires
        b > 0,
        is_root_quotient(a, b, p),
        is_root_quotient(a, b, q),
    ensures
        p == q,
{
    if p < q {
        assert(((p + 1) * (p + 1)) * b <= (q * q) * b) by (nonlinear_arith)
            requires
                0 <= p,
                p + 1 <= q,
                b > 0,
        ;
    } else if q < p {
        assert(((q + 1) * (q + 1)) * b <= (p * p) * b) by (nonlinear_arith)
            requires
                0 <= q,
                q + 1 <= p,
                b > 0,
        ;
    }
}

/// Whatever has the defining property of the quotient by a root is that
/// quotient.
pub proof fn lemma_root_quotient_is(a: int, b: int, q: int)
    requires
        b > 0,
        is_root_quotient(a, b, q),
    ensures
        root_quotient(a, b) == q,
{
    lemma_root_quotient_unique(a, b, q, root_quotient(a, b));
}

/// The quotient by a root is the root of the quotient of the squares.
pub proof fn lemma_root_of_quotient(a: int, b: int, q: int)
    requires
        a >= 0,
        b > 0,
        is_root((a * a) / b, q),
    ensures
        is_root_quotient(a, b, q),
{
    let w = (a * a) / b;
    assert(w * b <= a * a < (w + 1) * b) by (nonlinear_arith)
        requires
            w == (a * a) / b,
            b > 0,
    ;
    assert((q * q) * b <= w * b) by (nonlinear_arith)
        requires
            q * q <= w,
            b > 0,
    ;
    assert((w + 1) * b <= ((q + 1) * (q + 1)) * b) by (nonlinear_arith)
        requires
            w + 1 <= (q + 1) * (q + 1),
            b > 0,
    ;
}

/// Every number that is not negative has a quotient by the root of every
/// positive number.
pub proof fn lemma_root_quotient_exists(a: int, b: int)
    requires
        a >= 0,
        b > 0,
    ensures
        is_root_quotient(a, b, root_quotient(a, b)),
{
    assert(a * a >= 0) by (nonlinear_arith);
    assert((a * a) / b >= 0) by (nonlinear_arith)
        requires
            a * a >= 0,
            b > 0,
    ;
    lemma_root_exists((a * a) / b);
    lemma_root_of_quotient(a, b, root((a * a) / b));
}

/// A rescaled vector is the exact one rounded to the grid. Each component
/// has the sign of the exact one, and the exact one lies between it and the
/// next whole number away from zero. So the vector is never longer than
/// was asked for, and falls short by less than one step of the grid along
/// each axis.
pub proof fn lemma_rescaled(v: Vector2, length: int)
    requires
        v.x != 0 || v.y != 0,
    ensures
        ({
            let r = rescaled(v, length);
            let b = norm_squared(v);
            let rx = if r.x >= 0 {
                r.x as int
            } else {
                -r.x
            };
            let ry = if r.y >= 0 {
                r.y as int
            } else {
                -r.y
            };
            &&& -0x8000_0000 <= length <= 0x8000_0000 ==> r.x == quotient_by_root(v.x * length, b)
                && r.y == quotient_by_root(v.y * length, b)
            &&& -0x8000_0000 <= length <= 0x8000_0000 ==> {
                &&& v.x * length >= 0 ==> r.x >= 0
                &&& v.x * length <= 0 ==> r.x <= 0
                &&& v.y * length >= 0 ==> r.y >= 0
                &&& v.y * length <= 0 ==> r.y <= 0
                &&& (rx * rx) * b <= (v.x * length) * (v.x * length) < ((rx + 1) * (rx + 1)) * b
                &&& (ry * ry) * b <= (v.y * length) * (v.y * length) < ((ry + 1) * (ry + 1)) * b
                &&& norm_squared(r) <= length * length
                &&& length * length < (rx + 1) * (rx + 1) + (ry + 1) * (ry + 1)
            }
        }),
{
    if -0x8000_0000 <= length <= 0x8000_0000 {
        let x = v.x as int;
        let y = v.y as int;
        let b = norm_squared(v);
        assert(x * x >= 0 && y * y >= 0) by (nonlinear_arith);
        assert(b >= 1) by (nonlinear_arith)
            requires
                b == x * x + y * y,
                x != 0 || y != 0,
        ;
        let l: int = if length >= 0 {
            length
        } else {
            -length
        };
        let ax: int = if x * length >= 0 {
            x * length
        } else {
            -(x * length)
        };
        let ay: int = if y * length >= 0 {
            y * length
        } else {
            -(y * length)
        };
        lemma_root_quotient_exists(ax, b);
        lemma_root_quotient_exists(ay, b);
        let qx = root_quotient(ax, b);
        let qy = root_quotient(ay, b);
        assert(ax * ax == (x * length) * (x * length)) by (nonlinear_arith)
            requires
                ax == x * length || ax == -(x * length),
        ;
        assert(ay * ay == (y * length) * (y * length)) by (nonlinear_arith)
            requires
                ay == y * length || ay == -(y * length),
        ;
        assert((x * length) * (x * length) == (length * length) * (x * x)) by (nonlinear_arith);
        assert((y * length) * (y * length) == (length * length) * (y * y)) by (nonlinear_arith);
        assert(l * l == length * length) by (nonlinear_arith)
            requires
                l == length || l == -length,
        ;
        assert(x * x <= b && y * y <= b);
        // No longer than asked for: no component exceeds the length.
        assert(qx <= l && qy <= l) by {
            lemma_root_quotient_at_most(ax, b, qx, l, x);
            lemma_root_quotient_at_most(ay, b, qy, l, y);
        }
        assert(quotient_by_root(x * length, b) == if x * length >= 0 {
            qx
        } else {
            -qx
        });
        assert(quotient_by_root(y * length, b) == if y * length >= 0 {
            qy
        } else {
            -qy
        });
        if ax == 0 && qx != 0 {
            assert((qx * qx) * b >= 1) by (nonlinear_arith)
                requires
                    qx >= 1,
                    b >= 1,
            ;
        }
        if ay == 0 && qy != 0 {
            assert((qy * qy) * b >= 1) by (nonlinear_arith)
                requires
                    qy >= 1,
                    b >= 1,
            ;
        }
        let r = rescaled(v, length);
        assert(r.x == quotient_by_root(x * length, b));
        assert(r.y == quotient_by_root(y * length, b));
        let rx = if r.x >= 0 {
            r.x as int
        } else {
            -r.x
        };
        let ry = if r.y >= 0 {
            r.y as int
        } else {
            -r.y
        };
        assert(rx == qx && ry == qy);
        assert((-qx) * (-qx) == qx * qx && (-qy) * (-qy) == qy * qy) by (nonlinear_arith);
        assert(r.x * r.x == qx * qx && r.y * r.y == qy * qy);
        assert(norm_squared(r) == qx * qx + qy * qy);
        assert(qx * qx + qy * qy <= length * length) by (nonlinear_arith)
            requires
                (qx * qx) * b <= (length * length) * (x * x),
                (qy * qy) * b <= (length * length) * (y * y),
                b == x * x + y * y,
                b >= 1,
        {
            assert((qx * qx + qy * qy) * b <= (length * length) * b);
        }
        assert(length * length < (qx + 1) * (qx + 1) + (qy + 1) * (qy + 1)) by (nonlinear_arith)
            requires
                (length * length) * (x * x) < ((qx + 1) * (qx + 1)) * b,
                (length * length) * (y * y) < ((qy + 1) * (qy + 1)) * b,
                b == x * x + y * y,
                b >= 1,
        {
            assert((length * length) * b < ((qx + 1) * (qx + 1) + (qy + 1) * (qy + 1)) * b);
        }
    }
}

/// A component times a length, divided by the length of the vector, is at
/// most that length.
pub proof fn lemma_root_quotient_at_most(a: int, b: int, q: int, l: int, c: int)
    requires
        b >= 1,
        l >= 0,
        c * c <= b,
        a * a == (l * l) * (c * c),
        is_root_quotient(a, b, q),
    ensures
        q <= l,
{
    if q > l {
        assert(((l + 1) * (l + 1)) * b <= (q * q) * b) by (nonlinear_arith)
            requires
                0 <= l,
                l + 1 <= q,
                b >= 1,
        ;
        assert((l * l) * (c * c) <= (l * l) * b) by (nonlinear_arith)
            requires
                c * c <= b,
                l * l >= 0,
        {
        }
        assert((l * l) * b < ((l + 1) * (l + 1)) * b) by (nonlinear_arith)
            requires
                l >= 0,
                b >= 1,
        ;
    }
}

/// Brings a wide value into the range of a coordinate.
pub fn saturate(v: i128) -> (r: i32)
    ensures
        r == saturated(v as int),
{
    if v < -2147483648 {
        -2147483648
    } else if v > 2147483647 {
        2147483647
    } else {
        v as i32
    }
}

/// Division rounding towards zero, for any non-zero divisor.
pub fn divide(a: i128, b: i128) -> (r: i128)
    requires
        b != 0,
        i128::MIN < a,
        i128::MIN < b,
    ensures
        r == quotient(a as int, b as int),
{
    if b > 0 {
        a / b
    } else {
        let na: i128 = -a;
        let nb: i128 = -b;
        na / nb
    }
}

/// The integer square root, by bisection.
pub fn integer_sqrt(n: u128) -> (r: u64)
    ensures
        is_root(n as int, r as int),
        r == root(n as int),
{
    let mut lo: u128 = 0;
    let mut hi: u128 = 0x1_0000_0000_0000_0000;
    assert(0x1_0000_0000_0000_0000int * 0x1_0000_0000_0000_0000int > u128::MAX) by (nonlinear_arith);
    while hi - lo > 1
        invariant
            lo < hi <= 0x1_0000_0000_0000_0000,
            lo * lo <= n,
            n < hi * hi,
        decreases hi - lo,
    {
        let mid: u128 = lo + (hi - lo) / 2;
        assert(mid * mid <= 0xffff_ffff_ffff_ffff * 0xffff_ffff_ffff_ffff) by (nonlinear_arith)
            requires
                0 <= mid <= 0xffff_ffff_ffff_ffff,
        ;
        if mid * mid <= n {
            lo = mid;
        } else {
            hi = mid;
        }
    }
    proof {
        lemma_root_is(n as int, lo as int);
    }
    lo as u64
}

impl Point2 {
    pub fn new(x: i32, y: i32) -> (p: Point2)
        ensures
            p == (Point2 { x, y }),
    {
        Point2 { x, y }
    }

    /// The displacement that leads from `origin` to this point.
    pub fn minus(self, origin: Point2) -> (v: Vector2)
        ensures
            v == displacement(origin, self),
    {
        Vector2 { x: self.x as i64 - origin.x as i64, y: self.y as i64 - origin.y as i64 }
    }

    /// This point moved by `v`, saturating at the edge of the world.
    pub fn plus(self, v: Vector2) -> (p: Point2)
        ensures
            p == translated(self, v),
    {
        Point2 { x: saturate(self.x as i128 + v.x as i128), y: saturate(self.y as i128 + v.y as i128) }
    }
}

impl Vector2 {
    pub fn new(x: i64, y: i64) -> (v: Vector2)
        ensures
            v == (Vector2 { x, y }),
    {
        Vector2 { x, y }
    }

    pub fn is_zero(&self) -> (z: bool)
        ensures
            z <==> self.x == 0 && self.y == 0,
    {
        self.x == 0 && self.y == 0
    }

    /// The square of the length; it always fits.
    pub fn norm_squared(&self) -> (n: u128)
        ensures
            n == norm_squared(*self),
    {
        let x: i128 = self.x as i128;
        let y: i128 = self.y as i128;
        assert(0 <= x * x <= 0x8000_0000_0000_0000 * 0x8000_0000_0000_0000) by (nonlinear_arith)
            requires
                -0x8000_0000_0000_0000 <= x <= 0x8000_0000_0000_0000,
        ;
        assert(0 <= y * y <= 0x8000_0000_0000_0000 * 0x8000_0000_0000_0000) by (nonlinear_arith)
            requires
                -0x8000_0000_0000_0000 <= y <= 0x8000_0000_0000_0000,
        ;
        let xx: u128 = (x * x) as u128;
        let yy: u128 = (y * y) as u128;
        xx + yy
    }

    /// The length, rounded down.
    pub fn norm(&self) -> (n: u64)
        ensures
            n == norm(*self),
            is_root(norm_squared(*self), n as int),
    {
        integer_sqrt(self.norm_squared())
    }

    /// Whether the length is at most `radius` (a negative radius holds nothing).
    pub fn within(&self, radius: i64) -> (b: bool)
        ensures
            b <==> radius >= 0 && norm_squared(*self) <= radius * radius,
    {
        if radius < 0 {
            return false;
        }
        let r: u128 = radius as u128;
        assert(r * r <= 0x8000_0000_0000_0000 * 0x8000_0000_0000_0000) by (nonlinear_arith)
            requires
                0 <= r <= 0x8000_0000_0000_0000,
        ;
        self.norm_squared() <= r * r
    }

    /// The vector of length `length` in this vector's direction, as near as
    /// the grid allows.
    pub fn with_length(&self, length: i32) -> (v: Vector2)
        ensures
            v == rescaled(*self, length as int),
            -2147483648 <= v.x <= 2147483648,
            -2147483648 <= v.y <= 2147483648,
    {
        if self.x == 0 && self.y == 0 {
            return Vector2 { x: 0, y: 0 };
        }
        let b: u128 = self.norm_squared();
        let n: u64 = integer_sqrt(b);
        proof {
            let x = self.x as int;
            let y = self.y as int;
            assert(x * x >= 0 && y * y >= 0) by (nonlinear_arith);
            assert(b >= 1) by (nonlinear_arith)
                requires
                    b == x * x + y * y,
                    x != 0 || y != 0,
            ;
            lemma_component_le_norm(*self, n as int);
        }
        Vector2 { x: part(self.x, length, b, n), y: part(self.y, length, b, n) }
    }
}

/// `c * length` divided by the square root of `b`, rounded towards zero.
fn part(c: i64, length: i32, b: u128, n: u64) -> (r: i64)
    requires
        b >= 1,
        is_root(b as int, n as int),
        -n <= c <= n,
    ensures
        r == quotient_by_root(c * length, b as int),
        -2147483648 <= r <= 2147483648,
{
    let m: u128 = if c < 0 {
        (-(c as i128)) as u128
    } else {
        c as u128
    };
    let l: u128 = if length < 0 {
        (-(length as i128)) as u128
    } else {
        length as u128
    };
    assert(m * l <= 0x8000_0000_0000_0000 * 0x8000_0000) by (nonlinear_arith)
        requires
            0 <= m <= 0x8000_0000_0000_0000,
            0 <= l <= 0x8000_0000,
    ;
    assert(m * l <= l * n) by (nonlinear_arith)
        requires
            0 <= m <= n,
            0 <= l,
    ;
    let a: u128 = m * l;
    let q: u128 = divide_by_root(a, b, n, l);
    proof {
        let cl = c * length;
        let ci = c as int;
        let li = length as int;
        assert((-ci) * (-li) == ci * li && (-ci) * li == -(ci * li) && ci * (-li) == -(ci * li))
            by (nonlinear_arith);
        assert((ci >= 0 && li >= 0 ==> ci * li >= 0) && (ci <= 0 && li <= 0 ==> ci * li >= 0) && (ci
            >= 0 && li <= 0 ==> ci * li <= 0) && (ci <= 0 && li >= 0 ==> ci * li <= 0))
            by (nonlinear_arith);
        assert(cl == if (c < 0) != (length < 0) {
            -a
        } else {
            a as int
        });
        lemma_root_quotient_is(a as int, b as int, q as int);
        if a == 0 {
            assert((1int * 1int) * b > 0int * 0int);
            assert(a * a == 0) by (nonlinear_arith)
                requires
                    a == 0,
            ;
            if q > 0 {
                assert((q * q) * b >= 1) by (nonlinear_arith)
                    requires
                        q >= 1,
                        b >= 1,
                ;
            }
            assert(q == 0);
        }
    }
    if (c < 0) != (length < 0) {
        -(q as i64)
    } else {
        q as i64
    }
}

/// `a` divided by the square root of `b`, rounded down. `n` is the root of
/// `b` rounded down, and `a` is at most `l` times `n`.
fn divide_by_root(a: u128, b: u128, n: u64, l: u128) -> (q: u128)
    requires
        b >= 1,
        is_root(b as int, n as int),
        l <= 0x8000_0000,
        a <= l * n,
    ensures
        is_root_quotient(a as int, b as int, q as int),
        q <= l,
{
    let q: u128 = if a < 0x1_0000_0000_0000_0000 {
        assert(a * a <= 0xffff_ffff_ffff_ffff * 0xffff_ffff_ffff_ffff) by (nonlinear_arith)
            requires
                0 <= a <= 0xffff_ffff_ffff_ffff,
        ;
        let q = integer_sqrt(a * a / b);
        proof {
            lemma_root_of_quotient(a as int, b as int, q as int);
        }
        q as u128
    } else {
        let d: u128 = n as u128;
        assert(d >= 0x2_0000_0000) by (nonlinear_arith)
            requires
                a <= l * d,
                a >= 0x1_0000_0000_0000_0000,
                0 <= l <= 0x8000_0000,
                d >= 0,
        ;
        let q0: u128 = a / d;
        let r: u128 = a % d;
        assert(a == q0 * d + r && 0 <= r < d && q0 <= l) by (nonlinear_arith)
            requires
                q0 == a / d,
                r == a % d,
                d > 0,
                a <= l * d,
                a >= 0,
        ;
        assert(d * d <= 0xffff_ffff_ffff_ffff * 0xffff_ffff_ffff_ffff) by (nonlinear_arith)
            requires
                0 <= d <= 0xffff_ffff_ffff_ffff,
        ;
        let s: u128 = b - d * d;
        assert(s <= 2 * d) by (nonlinear_arith)
            requires
                s == b - d * d,
                b < (d + 1) * (d + 1),
        ;
        assert(q0 * q0 <= 0x8000_0000 * 0x8000_0000) by (nonlinear_arith)
            requires
                0 <= q0 <= 0x8000_0000,
        ;
        let qq: u128 = q0 * q0;
        assert(qq * s <= 0x4000_0000_0000_0000 * 0x2_0000_0000_0000_0000) by (nonlinear_arith)
            requires
                0 <= qq <= 0x4000_0000_0000_0000,
                0 <= s <= 0x2_0000_0000_0000_0000,
        ;
        let lhs: u128 = qq * s;
        assert(d * r <= 0xffff_ffff_ffff_ffff * 0xffff_ffff_ffff_ffff) by (nonlinear_arith)
            requires
                0 <= d <= 0xffff_ffff_ffff_ffff,
                0 <= r <= 0xffff_ffff_ffff_ffff,
        ;
        assert(r * r <= 0xffff_ffff_ffff_ffff * 0xffff_ffff_ffff_ffff) by (nonlinear_arith)
            requires
                0 <= r <= 0xffff_ffff_ffff_ffff,
        ;
        let keeps: bool = match (d * r).checked_mul(2 * q0) {
            Some(twice) => match twice.checked_add(r * r) {
                Some(rhs) => lhs <= rhs,
                None => true,
            },
            None => true,
        };
        proof {
            let rhs: int = (d * r) * (2 * q0) + r * r;
            assert(keeps == (lhs <= rhs));
            assert(a * a == (q0 * q0) * (d * d) + rhs) by (nonlinear_arith)
                requires
                    a == q0 * d + r,
                    rhs == (d * r) * (2 * q0) + r * r,
            ;
            assert((q0 * q0) * b == (q0 * q0) * (d * d) + lhs) by (nonlinear_arith)
                requires
                    b == d * d + s,
                    lhs == (q0 * q0) * s,
            ;
            assert(keeps == ((q0 * q0) * b <= a * a));
            // The next whole number is too large.
            assert(a * a < ((q0 + 1) * (q0 + 1)) * b) by (nonlinear_arith)
                requires
                    a == q0 * d + r,
                    0 <= r < d,
                    q0 >= 0,
                    b >= d * d,
            {
                assert(a < (q0 + 1) * d);
                assert(a * a < ((q0 + 1) * d) * ((q0 + 1) * d));
                assert(((q0 + 1) * d) * ((q0 + 1) * d) == ((q0 + 1) * (q0 + 1)) * (d * d));
                assert(((q0 + 1) * (q0 + 1)) * (d * d) <= ((q0 + 1) * (q0 + 1)) * b);
            }
            if !keeps {
                assert(q0 >= 1) by (nonlinear_arith)
                    requires
                        !((q0 * q0) * b <= a * a),
                        q0 >= 0,
                        a * a >= 0,
                ;
                // The whole number before is small enough.
                assert(((q0 - 1) * (q0 - 1)) * b <= a * a) by (nonlinear_arith)
                    requires
                        a == q0 * d + r,
                        r >= 0,
                        1 <= q0 <= d,
                        b < (d + 1) * (d + 1),
                        b >= 1,
                {
                    assert((q0 - 1) * (d + 1) <= a);
                    assert(((q0 - 1) * (d + 1)) * ((q0 - 1) * (d + 1)) <= a * a);
                    assert(((q0 - 1) * (d + 1)) * ((q0 - 1) * (d + 1)) == ((q0 - 1) * (q0 - 1)) * ((d
                        + 1) * (d + 1)));
                    assert(((q0 - 1) * (q0 - 1)) * b <= ((q0 - 1) * (q0 - 1)) * ((d + 1) * (d + 1)));
                }
            }
        }
        if keeps {
            q0
        } else {
            q0 - 1
        }
    };
    proof {
        if q > l {
            assert(((l + 1) * (l + 1)) * b <= (q * q) * b) by (nonlinear_arith)
                requires
                    0 <= l,
                    l + 1 <= q,
                    b >= 1,
            ;
            assert(a * a <= (l * n) * (l * n)) by (nonlinear_arith)
                requires
                    0 <= a <= l * n,
            ;
            assert((l * n) * (l * n) == (l * l) * (n * n)) by (nonlinear_arith);
            assert((l * l) * (n * n) <= (l * l) * b) by (nonlinear_arith)
                requires
                    n * n <= b,
            ;
            assert((l * l) * b < ((l + 1) * (l + 1)) * b) by (nonlinear_arith)
                requires
                    l >= 0,
                    b >= 1,
            ;
        }
    }
    q
}

} // verus!
