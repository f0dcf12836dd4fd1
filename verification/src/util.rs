//! Segments against axis-parallel lines and rectangles.

use vstd::prelude::*;
use crate::math::{displacement, divide, quotient, saturate, saturated, Point2, Vector2};

verus! {

/// An axis-parallel rectangle: lower left corner, width and height. A side
/// that would lie beyond the edge of the world lies on that edge.
#[derive(Clone, Copy, Debug, PartialEq, Eq, Structural)]
pub struct Rect {
    pub x: i32,
    pub y: i32,
    pub w: i32,
    pub h: i32,
}

/// The parameter `num / den` of a point `p + v * (num / den)` on a line;
/// `den` is not zero.
#[derive(Clone, Copy, Debug, PartialEq, Eq, Structural)]
pub struct Ratio {
    pub num: i64,
    pub den: i64,
}

impl Ratio {
    /// `0 <= num / den <= 1`: the point lies between `p` and `p + v`.
    pub open spec fn in_unit_interval(self) -> bool {
        (self.den > 0 && 0 <= self.num <= self.den) || (self.den < 0 && self.den <= self.num <= 0)
    }

    /// `self < other` as fractions; both denominators are non-zero.
    pub open spec fn less_than(self, other: Ratio) -> bool {
        if (self.den > 0) == (other.den > 0) {
            self.num * other.den < other.num * self.den
        } else {
            self.num * other.den > other.num * self.den
        }
    }

    pub fn is_in_unit_interval(&self) -> (b: bool)
        ensures
            b == self.in_unit_interval(),
    {
        (self.den > 0 && 0 <= self.num && self.num <= self.den) || (self.den < 0 && self.den
            <= self.num && self.num <= 0)
    }

    pub fn is_less_than(&self, other: &Ratio) -> (b: bool)
        ensures
            b == self.less_than(*other),
    {
        let a: i128 = self.num as i128;
        let b: i128 = other.den as i128;
        let c: i128 = other.num as i128;
        let d: i128 = self.den as i128;
        assert(-0x8000_0000_0000_0000 * 0x8000_0000_0000_0000 <= a * b <= 0x8000_0000_0000_0000
            * 0x8000_0000_0000_0000) by (nonlinear_arith)
            requires
                -0x8000_0000_0000_0000 <= a <= 0x8000_0000_0000_0000,
                -0x8000_0000_0000_0000 <= b <= 0x8000_0000_0000_0000,
        ;
        assert(-0x8000_0000_0000_0000 * 0x8000_0000_0000_0000 <= c * d <= 0x8000_0000_0000_0000
            * 0x8000_0000_0000_0000) by (nonlinear_arith)
            requires
                -0x8000_0000_0000_0000 <= c <= 0x8000_0000_0000_0000,
                -0x8000_0000_0000_0000 <= d <= 0x8000_0000_0000_0000,
        ;
        if (self.den > 0) == (other.den > 0) {
            a * b < c * d
        } else {
            a * b > c * d
        }
    }
}

/// The coordinate that a point reaches when it starts at `start` and covers
/// the fraction `num / den` of `extent`.
pub open spec fn carried(start: i32, extent: i64, num: int, den: int) -> i32 {
    saturated(start + quotient(extent * num, den)) as i32
}

/// Where the line `p + v * t` meets the line `x = c` (`vert`) or `y = c`
/// (not `vert`): the parameter `t` and the point. `None` when the two lines
/// are parallel. The coordinate that `c` fixes is exact, the other is rounded
/// towards `p`.
pub open spec fn crossing(p: Point2, v: Vector2, c: i32, vert: bool) -> Option<(Ratio, Point2)> {
    if vert {
        if v.x == 0 {
            None
        } else {
            Some(
                (
                    Ratio { num: (c - p.x) as i64, den: v.x },
                    Point2 { x: c, y: carried(p.y, v.y, c - p.x, v.x as int) },
                ),
            )
        }
    } else {
        if v.y == 0 {
            None
        } else {
            Some(
                (
                    Ratio { num: (c - p.y) as i64, den: v.y },
                    Point2 { x: carried(p.x, v.x, c - p.y, v.y as int), y: c },
                ),
            )
        }
    }
}

/// The segment from `p` to `p + v` meets the line `x = c` or `y = c` at a
/// point whose other coordinate lies within `lo ..= hi`.
pub open spec fn side_entered(p: Point2, v: Vector2, c: i32, vert: bool, lo: int, hi: int) -> bool {
    match crossing(p, v, c, vert) {
        Some((t, at)) => t.in_unit_interval() && if vert {
            lo <= at.y <= hi
        } else {
            lo <= at.x <= hi
        },
        None => false,
    }
}

impl Rect {
    pub open spec fn left(self) -> int {
        self.x as int
    }

    pub open spec fn right(self) -> int {
        saturated(self.x + self.w)
    }

    pub open spec fn bottom(self) -> int {
        self.y as int
    }

    pub open spec fn top(self) -> int {
        saturated(self.y + self.h)
    }

    /// The square of half-extent `half` around `center`.
    pub open spec fn around(center: Point2, half: int) -> Rect {
        Rect {
            x: saturated(center.x - half) as i32,
            y: saturated(center.y - half) as i32,
            w: saturated(2 * half) as i32,
            h: saturated(2 * half) as i32,
        }
    }

    pub fn centered(center: Point2, half: i32) -> (r: Rect)
        ensures
            r == Rect::around(center, half as int),
    {
        Rect {
            x: saturate(center.x as i128 - half as i128),
            y: saturate(center.y as i128 - half as i128),
            w: saturate(2 * (half as i128)),
            h: saturate(2 * (half as i128)),
        }
    }
}

/// The segment from `p` to `p + v` crosses a side of `r`: it meets one of the
/// four lines that bound `r`, between its two ends and within the extent of
/// that side. A segment that lies wholly inside `r` crosses none.
pub open spec fn rectangle_entered(p: Point2, v: Vector2, r: Rect) -> bool {
    ||| side_entered(p, v, r.bottom() as i32, false, r.left(), r.right())
    ||| side_entered(p, v, r.top() as i32, false, r.left(), r.right())
    ||| side_entered(p, v, r.left() as i32, true, r.bottom(), r.top())
    ||| side_entered(p, v, r.right() as i32, true, r.bottom(), r.top())
}

fn carry(start: i32, extent: i64, num: i64, den: i64) -> (r: i32)
    requires
        den != 0,
        -0x1_0000_0000 <= num <= 0x1_0000_0000,
    ensures
        r == carried(start, extent, num as int, den as int),
{
    let e: i128 = extent as i128;
    let n: i128 = num as i128;
    assert(-0x8000_0000_0000_0000 * 0x1_0000_0000 <= e * n <= 0x8000_0000_0000_0000
        * 0x1_0000_0000) by (nonlinear_arith)
        requires
            -0x8000_0000_0000_0000 <= e <= 0x8000_0000_0000_0000,
            -0x1_0000_0000 <= n <= 0x1_0000_0000,
    ;
    let q: i128 = divide(e * n, den as i128);
    proof {
        let a = e * n;
        let d = den as int;
        let m: int = if a >= 0 { a } else { -a };
        let k: int = if d > 0 { d } else { -d };
        assert(0 <= m / k <= m) by (nonlinear_arith)
            requires
                m >= 0,
                k > 0,
        ;
    }
    saturate(start as i128 + q)
}

/// Where the line through `p` along `v` meets the line `x = c` (`vert`) or
/// `y = c`, with the parameter of the meeting point.
pub fn intersect(p: Point2, v: Vector2, c: i32, vert: bool) -> (r: Option<(Ratio, Point2)>)
    ensures
        r == crossing(p, v, c, vert),
{
    if vert {
        if v.x == 0 {
            None
        } else {
            let num: i64 = c as i64 - p.x as i64;
            Some((Ratio { num, den: v.x }, Point2 { x: c, y: carry(p.y, v.y, num, v.x) }))
        }
    } else {
        if v.y == 0 {
            None
        } else {
            let num: i64 = c as i64 - p.y as i64;
            Some((Ratio { num, den: v.y }, Point2 { x: carry(p.x, v.x, num, v.y), y: c }))
        }
    }
}

fn side_intersect(p: Point2, v: Vector2, c: i32, vert: bool, lo: i32, hi: i32) -> (b: bool)
    ensures
        b == side_entered(p, v, c, vert, lo as int, hi as int),
{
    match intersect(p, v, c, vert) {
        Some((t, at)) => {
            let along: i32 = if vert {
                at.y
            } else {
                at.x
            };
            t.is_in_unit_interval() && lo <= along && along <= hi
        },
        None => false,
    }
}

/// Whether the segment from `p` to `p + v` crosses a side of `r`. It finds an
/// entry, not an overlap: a segment inside `r` from end to end is not seen.
pub fn rectangle_line_intersect(p: Point2, v: Vector2, r: Rect) -> (hit: bool)
    ensures
        hit == rectangle_entered(p, v, r),
{
    let left: i32 = r.x;
    let right: i32 = saturate(r.x as i128 + r.w as i128);
    let bottom: i32 = r.y;
    let top: i32 = saturate(r.y as i128 + r.h as i128);
    if side_intersect(p, v, bottom, false, left, right) {
        return true;
    }
    if side_intersect(p, v, top, false, left, right) {
        return true;
    }
    if side_intersect(p, v, left, true, bottom, top) {
        return true;
    }
    if side_intersect(p, v, right, true, bottom, top) {
        return true;
    }
    false
}


/// The magnitude of `x`.
pub open spec fn magnitude(x: int) -> int {
    if x < 0 {
        -x
    } else {
        x
    }
}

/// Between fractions in the unit interval, the order is that of the
/// magnitudes, cross-multiplied.
pub proof fn lemma_ratio_order(a: Ratio, b: Ratio)
    requires
        a.in_unit_interval(),
        b.in_unit_interval(),
    ensures
        a.less_than(b) <==> magnitude(a.num as int) * magnitude(b.den as int) < magnitude(
            b.num as int,
        ) * magnitude(a.den as int),
{
    let an = a.num as int;
    let ad = a.den as int;
    let bn = b.num as int;
    let bd = b.den as int;
    assert((-an) * (-bd) == an * bd && (-an) * bd == -(an * bd) && an * (-bd) == -(an * bd))
        by (nonlinear_arith);
    assert((-bn) * (-ad) == bn * ad && (-bn) * ad == -(bn * ad) && bn * (-ad) == -(bn * ad))
        by (nonlinear_arith);
}

/// No fraction is less than itself.
pub proof fn lemma_ratio_irreflexive(a: Ratio)
    ensures
        !a.less_than(a),
{
}

/// Among fractions in the unit interval: if `a` is not less than `b`, and
/// `c` is less than `b`, then `a` is not less than `c`.
pub proof fn lemma_ratio_transitive(a: Ratio, b: Ratio, c: Ratio)
    requires
        a.in_unit_interval(),
        b.in_unit_interval(),
        c.in_unit_interval(),
        !a.less_than(b),
        c.less_than(b),
    ensures
        !a.less_than(c),
{
    lemma_ratio_order(a, b);
    lemma_ratio_order(c, b);
    lemma_ratio_order(a, c);
    let an = magnitude(a.num as int);
    let ad = magnitude(a.den as int);
    let bn = magnitude(b.num as int);
    let bd = magnitude(b.den as int);
    let cn = magnitude(c.num as int);
    let cd = magnitude(c.den as int);
    assert(an * cd >= cn * ad) by (nonlinear_arith)
        requires
            an >= 0,
            bn >= 0,
            cn >= 0,
            ad > 0,
            bd > 0,
            cd > 0,
            an * bd >= bn * ad,
            cn * bd < bn * cd,
    {
        assert((an * bd) * cd >= (bn * ad) * cd);
        assert((bn * cd) * ad >= (cn * bd) * ad);
        assert((an * cd) * bd >= (cn * ad) * bd);
    }
}

/// The part `num / den` of an extent, for a fraction in the unit interval:
/// it points the way the extent does and is no longer, and its magnitude is
/// that of the extent times the fraction, rounded down.
pub proof fn lemma_part(extent: int, t: Ratio)
    requires
        t.in_unit_interval(),
    ensures
        ({
            let q = quotient(extent * t.num, t.den as int);
            &&& (extent >= 0 ==> 0 <= q <= extent)
            &&& (extent <= 0 ==> extent <= q <= 0)
            &&& magnitude(q) * magnitude(t.den as int) <= magnitude(extent) * magnitude(t.num as int)
            &&& magnitude(extent) * magnitude(t.num as int) < (magnitude(q) + 1) * magnitude(
                t.den as int,
            )
        }),
{
    let n = magnitude(t.num as int);
    let d = magnitude(t.den as int);
    let e = magnitude(extent);
    let num = t.num as int;
    let den = t.den as int;
    assert(extent * num == e * n || extent * num == -(e * n)) by (nonlinear_arith)
        requires
            n == magnitude(num),
            e == magnitude(extent),
    ;
    assert(e * n >= 0) by (nonlinear_arith)
        requires
            e >= 0,
            n >= 0,
    ;
    let w = (e * n) / d;
    assert(w * d <= e * n < (w + 1) * d && 0 <= w <= e) by (nonlinear_arith)
        requires
            w == (e * n) / d,
            d > 0,
            0 <= n <= d,
            e >= 0,
    ;
    if extent >= 0 {
        assert(extent * num == e * n || extent * num == -(e * n));
        if den > 0 {
            assert(extent * num == e * n) by (nonlinear_arith)
                requires
                    extent >= 0,
                    num >= 0,
                    e == extent,
                    n == num,
            ;
        } else {
            assert(extent * num == -(e * n)) by (nonlinear_arith)
                requires
                    extent >= 0,
                    num <= 0,
                    e == extent,
                    n == -num,
            ;
        }
    } else {
        if den > 0 {
            assert(extent * num == -(e * n)) by (nonlinear_arith)
                requires
                    extent < 0,
                    num >= 0,
                    e == -extent,
                    n == num,
            ;
        } else {
            assert(extent * num == e * n) by (nonlinear_arith)
                requires
                    extent < 0,
                    num <= 0,
                    e == -extent,
                    n == -num,
            ;
        }
    }
}

/// A quotient times its divisor, divided again, is the quotient.
pub proof fn lemma_quotient_cancel(q: int, n: int)
    requires
        n != 0,
    ensures
        quotient(q * n, n) == q,
{
    let a = magnitude(q);
    let b = magnitude(n);
    assert((a * b) / b == a) by (nonlinear_arith)
        requires
            a >= 0,
            b > 0,
    ;
    assert(a * b >= 0) by (nonlinear_arith)
        requires
            a >= 0,
            b >= 0,
    ;
    assert(q * n == a * b || q * n == -(a * b)) by (nonlinear_arith)
        requires
            a == magnitude(q),
            b == magnitude(n),
    ;
    if q >= 0 && n > 0 {
        assert(q * n == a * b) by (nonlinear_arith)
            requires
                a == q,
                b == n,
        ;
    } else if q >= 0 && n < 0 {
        assert(q * n == -(a * b)) by (nonlinear_arith)
            requires
                a == q,
                b == -n,
        ;
    } else if q < 0 && n > 0 {
        assert(q * n == -(a * b)) by (nonlinear_arith)
            requires
                a == -q,
                b == n,
        ;
        assert(a * b > 0) by (nonlinear_arith)
            requires
                a > 0,
                b > 0,
        ;
    } else {
        assert(q * n == a * b) by (nonlinear_arith)
            requires
                a == -q,
                b == -n,
        ;
        assert(a * b > 0) by (nonlinear_arith)
            requires
                a > 0,
                b > 0,
        ;
    }
}

/// The part `num / den` of an extent reaches at least as far as `m`, if the
/// fraction is at least `m / extent`.
pub proof fn lemma_part_reaches(extent: int, t: Ratio, m: int)
    requires
        t.in_unit_interval(),
        magnitude(m) * magnitude(t.den as int) <= magnitude(extent) * magnitude(t.num as int),
    ensures
        magnitude(quotient(extent * t.num, t.den as int)) >= magnitude(m),
{
    lemma_part(extent, t);
    let q = magnitude(quotient(extent * t.num, t.den as int));
    let d = magnitude(t.den as int);
    let mm = magnitude(m);
    let e = magnitude(extent) * magnitude(t.num as int);
    assert(mm < q + 1) by (nonlinear_arith)
        requires
            mm * d <= e,
            e < (q + 1) * d,
            d > 0,
    ;
}

/// Two lines, one along each axis, that the way from `(pa, pb)` to
/// `(qa, qb)` both meets: the one met later is met between the other line
/// and the end of the way.
pub proof fn lemma_corner(pa: i32, pb: i32, qa: i32, qb: i32, ca: i32, cb: i32)
    requires
        (Ratio { num: (ca - pa) as i64, den: (qa - pa) as i64 }).in_unit_interval(),
        (Ratio { num: (cb - pb) as i64, den: (qb - pb) as i64 }).in_unit_interval(),
    ensures
        ({
            let ta = Ratio { num: (ca - pa) as i64, den: (qa - pa) as i64 };
            let tb = Ratio { num: (cb - pb) as i64, den: (qb - pb) as i64 };
            let b = pb + quotient((qb - pb) * (ca - pa), (qa - pa) as int);
            let a = pa + quotient((qa - pa) * (cb - pb), (qb - pb) as int);
            &&& !ta.less_than(tb) ==> if qb > pb {
                cb <= b <= qb
            } else {
                qb <= b <= cb
            }
            &&& ta.less_than(tb) ==> if qa > pa {
                ca <= a <= qa
            } else {
                qa <= a <= ca
            }
        }),
{
    let ta = Ratio { num: (ca - pa) as i64, den: (qa - pa) as i64 };
    let tb = Ratio { num: (cb - pb) as i64, den: (qb - pb) as i64 };
    lemma_ratio_order(ta, tb);
    lemma_part((qb - pb) as int, ta);
    lemma_part((qa - pa) as int, tb);
    let na = magnitude((ca - pa) as int);
    let da = magnitude((qa - pa) as int);
    let nb = magnitude((cb - pb) as int);
    let db = magnitude((qb - pb) as int);
    assert(na * db == db * na && nb * da == da * nb) by (nonlinear_arith);
    if !ta.less_than(tb) {
        lemma_part_reaches((qb - pb) as int, ta, (cb - pb) as int);
    } else {
        lemma_part_reaches((qa - pa) as int, tb, (ca - pa) as int);
    }
}

/// `p` lies in `r`, its sides included.
pub open spec fn holds(r: Rect, p: Point2) -> bool {
    r.left() <= p.x <= r.right() && r.bottom() <= p.y <= r.top()
}

/// `p` lies in `r` and on none of its sides.
pub open spec fn holds_within(r: Rect, p: Point2) -> bool {
    r.left() < p.x < r.right() && r.bottom() < p.y < r.top()
}

/// Nothing gets into a rectangle unseen: a segment that starts outside it
/// and ends in it, or on one of its sides, crosses a side.
pub proof fn lemma_entry_is_seen(p: Point2, q: Point2, r: Rect)
    requires
        !holds(r, p),
        holds(r, q),
    ensures
        rectangle_entered(p, displacement(p, q), r),
{
    let v = displacement(p, q);
    let cx: i32 = if p.x < r.left() {
        r.left() as i32
    } else {
        r.right() as i32
    };
    let cy: i32 = if p.y < r.bottom() {
        r.bottom() as i32
    } else {
        r.top() as i32
    };
    let x_out = p.x < r.left() || p.x > r.right();
    let y_out = p.y < r.bottom() || p.y > r.top();
    let tx = Ratio { num: (cx - p.x) as i64, den: v.x };
    let ty = Ratio { num: (cy - p.y) as i64, den: v.y };
    if x_out {
        assert(tx.in_unit_interval());
        lemma_part(v.y as int, tx);
    }
    if y_out {
        assert(ty.in_unit_interval());
        lemma_part(v.x as int, ty);
    }
    if x_out && y_out {
        lemma_corner(p.x, p.y, q.x, q.y, cx, cy);
        if !tx.less_than(ty) {
            assert(side_entered(p, v, cx, true, r.bottom(), r.top()));
        } else {
            assert(side_entered(p, v, cy, false, r.left(), r.right()));
        }
    } else if x_out {
        assert(side_entered(p, v, cx, true, r.bottom(), r.top()));
    } else {
        assert(side_entered(p, v, cy, false, r.left(), r.right()));
    }
}

/// What lies wholly inside a rectangle is not seen: a segment from one
/// point within it to another crosses no side.
pub proof fn lemma_inside_is_unseen(p: Point2, q: Point2, r: Rect)
    requires
        holds_within(r, p),
        holds_within(r, q),
    ensures
        !rectangle_entered(p, displacement(p, q), r),
{
}

} // verus!
