//! Points, vectors and polygon predicates on the fixed-point plane.
use vstd::prelude::*;
use crate::units::{abs_i128, abs_int, coord_ok, div_floor, div_round, int_sqrt, is_sqrt, isqrt, lemma_product_bound, lemma_sqrt_bound, round_div, AREA_EPS, COORD_LIMIT, UNITS_PER_MM};

verus! {

/// Largest coordinate magnitude the primitives accept (four times
/// [`COORD_LIMIT`]), so that sums of in-range coordinates and distances can be
/// fed back into them.
pub const WIDE_LIMIT: i64 = 1_099_511_627_776;

/// Largest magnitude of a vector component the primitives accept (twice
/// [`WIDE_LIMIT`]): the difference of two accepted points.
pub const VEC_LIMIT: i64 = 2_199_023_255_552;

/// The square of [`VEC_LIMIT`].
pub const VEC_SQ_LIMIT: i128 = 4_835_703_278_458_516_698_824_704;

/// Largest number of vertices a polygon or polyline may have.
pub const MAX_POINTS: usize = 1_000_000_000;

/// Fractional bits kept while normalising a vector.
pub const NORM_SHIFT: u128 = 1_048_576;

#[derive(Debug, Clone, Copy, PartialEq, Eq, Structural)]
pub struct Point2 {
    pub x: i64,
    pub y: i64,
}

#[derive(Debug, Clone, Copy, PartialEq, Eq, Structural)]
pub struct Point3 {
    pub x: i64,
    pub y: i64,
    pub z: i64,
}

#[derive(Debug, Clone, Copy, PartialEq, Eq, Structural)]
pub struct Vec2 {
    pub x: i64,
    pub y: i64,
}

#[derive(Debug, Clone, Copy, PartialEq, Eq, Structural)]
pub struct Vec3 {
    pub x: i64,
    pub y: i64,
    pub z: i64,
}

#[derive(Debug, Clone, Copy, PartialEq, Eq, Structural)]
pub enum Orientation {
    Ccw,
    Cw,
}

/// Multiplies two 64-bit quantities without loss.
pub fn mul_i64(a: i64, b: i64) -> (r: i128)
    ensures
        r == a * b,
{
    proof {
        lemma_product_bound(
            a as int,
            b as int,
            0x8000_0000_0000_0000,
            0x8000_0000_0000_0000,
        );
        assert(0x8000_0000_0000_0000int * 0x8000_0000_0000_0000int
            == 0x4000_0000_0000_0000_0000_0000_0000_0000int) by (nonlinear_arith);
    }
    (a as i128) * (b as i128)
}

/// Multiplies a wide quantity by a narrow one; the bounds keep the product
/// inside `i128`.
pub fn mul_wide(a: i128, b: i128) -> (r: i128)
    requires
        abs_int(a as int) <= 0x10_0000_0000_0000_0000_0000,
        abs_int(b as int) <= 0x400_0000_0000,
    ensures
        r == a * b,
        abs_int(r as int) <= 0x4000_0000_0000_0000_0000_0000_0000_0000,
{
    proof {
        lemma_product_bound(a as int, b as int, 0x10_0000_0000_0000_0000_0000, 0x400_0000_0000);
        assert(0x10_0000_0000_0000_0000_0000int * 0x400_0000_0000int
            == 0x4000_0000_0000_0000_0000_0000_0000_0000int) by (nonlinear_arith);
    }
    a * b
}

/// The product of two vector components stays below [`VEC_SQ_LIMIT`].
pub proof fn lemma_vec_product(a: int, b: int)
    requires
        abs_int(a) <= VEC_LIMIT,
        abs_int(b) <= VEC_LIMIT,
    ensures
        -VEC_SQ_LIMIT <= a * b <= VEC_SQ_LIMIT,
        a * a >= 0,
{
    lemma_product_bound(a, b, VEC_LIMIT as int, VEC_LIMIT as int);
    assert(2_199_023_255_552int * 2_199_023_255_552int == 4_835_703_278_458_516_698_824_704int)
        by (nonlinear_arith);
    assert(a * a >= 0) by (nonlinear_arith);
}

impl Point2 {
    /// Whether both coordinates have magnitude at most `limit`.
    pub open spec fn within(self, limit: int) -> bool {
        abs_int(self.x as int) <= limit && abs_int(self.y as int) <= limit
    }

    /// Whether the point lies inside the supported coordinate range.
    pub open spec fn in_range(self) -> bool {
        self.within(COORD_LIMIT as int)
    }

    pub fn new(x: i64, y: i64) -> (p: Self)
        ensures
            p == (Point2 { x, y }),
    {
        Point2 { x, y }
    }

    /// The Euclidean distance to `other`, rounded down.
    pub fn distance(&self, other: &Self) -> (d: i64)
        requires
            self.within(WIDE_LIMIT as int),
            other.within(WIDE_LIMIT as int),
        ensures
            d == dist(*self, *other),
            0 <= d <= 4 * WIDE_LIMIT,
    {
        let v = Vec2 { x: self.x - other.x, y: self.y - other.y };
        v.length()
    }

    /// The point halfway to `other`; each coordinate is rounded down.
    pub fn midpoint(&self, other: &Self) -> (m: Self)
        ensures
            m.x == (self.x + other.x) / 2,
            m.y == (self.y + other.y) / 2,
    {
        let sx: i128 = self.x as i128 + other.x as i128;
        let sy: i128 = self.y as i128 + other.y as i128;
        let mx = div_floor(sx, 2);
        let my = div_floor(sy, 2);
        Point2 { x: mx as i64, y: my as i64 }
    }

    /// The point displaced by `v`.
    pub fn offset_by(&self, v: Vec2) -> (p: Self)
        requires
            i64::MIN <= self.x + v.x <= i64::MAX,
            i64::MIN <= self.y + v.y <= i64::MAX,
        ensures
            p == (Point2 { x: (self.x + v.x) as i64, y: (self.y + v.y) as i64 }),
    {
        Point2 { x: self.x + v.x, y: self.y + v.y }
    }

    /// The vector that leads from `from` to this point.
    pub fn minus(&self, from: &Self) -> (v: Vec2)
        requires
            i64::MIN <= self.x - from.x <= i64::MAX,
            i64::MIN <= self.y - from.y <= i64::MAX,
        ensures
            v == (Vec2 { x: (self.x - from.x) as i64, y: (self.y - from.y) as i64 }),
    {
        Vec2 { x: self.x - from.x, y: self.y - from.y }
    }
}

impl Point3 {
    /// Whether all three coordinates lie inside the supported range.
    pub open spec fn in_range(self) -> bool {
        coord_ok(self.x as int) && coord_ok(self.y as int) && coord_ok(self.z as int)
    }

    pub fn new(x: i64, y: i64, z: i64) -> (p: Self)
        ensures
            p == (Point3 { x, y, z }),
    {
        Point3 { x, y, z }
    }

    /// The point displaced by `v`.
    pub fn translate(self, v: Vec3) -> (p: Self)
        requires
            i64::MIN <= self.x + v.x <= i64::MAX,
            i64::MIN <= self.y + v.y <= i64::MAX,
            i64::MIN <= self.z + v.z <= i64::MAX,
        ensures
            p == (Point3 {
                x: (self.x + v.x) as i64,
                y: (self.y + v.y) as i64,
                z: (self.z + v.z) as i64,
            }),
    {
        Point3 { x: self.x + v.x, y: self.y + v.y, z: self.z + v.z }
    }
}

/// The squared length of the vector `(x, y)`.
pub open spec fn norm_sq(x: int, y: int) -> int {
    x * x + y * y
}

/// The distance between two points, rounded down.
pub open spec fn dist(a: Point2, b: Point2) -> int {
    int_sqrt(norm_sq(a.x - b.x, a.y - b.y))
}

/// The distance between two points in space, rounded down.
pub open spec fn dist3(a: Point3, b: Point3) -> int {
    int_sqrt((a.x - b.x) * (a.x - b.x) + (a.y - b.y) * (a.y - b.y) + (a.z - b.z) * (a.z - b.z))
}

/// The length of `(x, y)` with [`NORM_SHIFT`] as the unit, rounded down.
pub open spec fn fine_norm(x: int, y: int) -> int {
    int_sqrt(norm_sq(x, y) * NORM_SHIFT * NORM_SHIFT)
}

/// One component of the vector along `(x, y)` whose length is `length`:
/// `c * length / |(x, y)|`, rounded to nearest.
pub open spec fn scaled_component(c: int, x: int, y: int, length: int) -> int {
    round_div(c * length * NORM_SHIFT, fine_norm(x, y))
}

impl Vec2 {
    /// Whether both components have magnitude at most `limit`.
    pub open spec fn within(self, limit: int) -> bool {
        abs_int(self.x as int) <= limit && abs_int(self.y as int) <= limit
    }

    /// The Euclidean length, rounded down.
    pub open spec fn spec_length(self) -> int {
        int_sqrt(norm_sq(self.x as int, self.y as int))
    }

    pub open spec fn spec_dot(self, other: Self) -> int {
        self.x * other.x + self.y * other.y
    }

    pub open spec fn spec_cross(self, other: Self) -> int {
        self.x * other.y - self.y * other.x
    }

    /// The vector along `self` whose length is `length`; the zero vector
    /// stays the zero vector.
    pub open spec fn spec_scaled_to(self, length: int) -> Vec2 {
        if self.x == 0 && self.y == 0 {
            Vec2 { x: 0, y: 0 }
        } else {
            Vec2 {
                x: scaled_component(self.x as int, self.x as int, self.y as int, length) as i64,
                y: scaled_component(self.y as int, self.x as int, self.y as int, length) as i64,
            }
        }
    }

    pub fn new(x: i64, y: i64) -> (v: Self)
        ensures
            v == (Vec2 { x, y }),
    {
        Vec2 { x, y }
    }

    /// The Euclidean length, rounded down.
    pub fn length(&self) -> (d: i64)
        requires
            self.within(VEC_LIMIT as int),
        ensures
            d == self.spec_length(),
            is_sqrt(norm_sq(self.x as int, self.y as int), d as int),
            0 <= d <= 4 * WIDE_LIMIT,
            d == 0 <==> (self.x == 0 && self.y == 0),
    {
        let xx = mul_i64(self.x, self.x);
        let yy = mul_i64(self.y, self.y);
        proof {
            lemma_vec_product(self.x as int, self.x as int);
            lemma_vec_product(self.y as int, self.y as int);
        }
        let n: u128 = (xx + yy) as u128;
        let r = isqrt(n);
        proof {
            let w = 4 * WIDE_LIMIT as int;
            assert((w + 1) * (w + 1) > 2 * VEC_SQ_LIMIT) by (nonlinear_arith)
                requires
                    w == 4 * WIDE_LIMIT,
            ;
            lemma_sqrt_bound(n as int, w);
            if self.x != 0 || self.y != 0 {
                assert(self.x * self.x + self.y * self.y >= 1) by (nonlinear_arith)
                    requires
                        self.x != 0 || self.y != 0,
                ;
                if r == 0 {
                    assert((r + 1) * (r + 1) == 1) by (nonlinear_arith)
                        requires
                            r == 0,
                    ;
                }
            } else {
                assert(n == 0) by (nonlinear_arith)
                    requires
                        n == self.x * self.x + self.y * self.y,
                        self.x == 0,
                        self.y == 0,
                ;
                assert(r == 0) by (nonlinear_arith)
                    requires
                        r * r <= 0,
                        r >= 0,
                ;
            }
        }
        r as i64
    }

    /// The vector of length one millimetre along `self`; the zero vector
    /// stays the zero vector.
    pub fn normalize(&self) -> (v: Self)
        requires
            self.within(VEC_LIMIT as int),
        ensures
            v == self.spec_scaled_to(UNITS_PER_MM as int),
            v.within(UNITS_PER_MM as int),
    {
        self.scaled_to(UNITS_PER_MM)
    }

    /// The vector along `self` whose length is `length` (a negative
    /// `length` points it the other way); the zero vector stays the zero
    /// vector.
    pub fn scaled_to(&self, length: i64) -> (v: Self)
        requires
            self.within(VEC_LIMIT as int),
            abs_int(length as int) <= WIDE_LIMIT,
        ensures
            v == self.spec_scaled_to(length as int),
            v.within(abs_int(length as int)),
    {
        if self.x == 0 && self.y == 0 {
            return Vec2 { x: 0, y: 0 };
        }
        let xx = mul_i64(self.x, self.x);
        let yy = mul_i64(self.y, self.y);
        proof {
            lemma_vec_product(self.x as int, self.x as int);
            lemma_vec_product(self.y as int, self.y as int);
            assert(self.x * self.x + self.y * self.y >= 1) by (nonlinear_arith)
                requires
                    self.x != 0 || self.y != 0,
            ;
        }
        let sq: u128 = (xx + yy) as u128;
        assert(sq * NORM_SHIFT * NORM_SHIFT <= u128::MAX) by (nonlinear_arith)
            requires
                sq <= 2 * VEC_SQ_LIMIT,
        ;
        assert(sq * NORM_SHIFT <= u128::MAX) by (nonlinear_arith)
            requires
                sq <= 2 * VEC_SQ_LIMIT,
        ;
        let n: u128 = sq * NORM_SHIFT * NORM_SHIFT;
        let norm = isqrt(n);
        assert(norm as int == fine_norm(self.x as int, self.y as int));
        proof {
            lemma_fine_norm_dominates(self.x as int, self.x as int, self.y as int, norm as int);
            lemma_fine_norm_dominates(self.y as int, self.x as int, self.y as int, norm as int);
        }
        let vx = scale_component(self.x, length, norm);
        let vy = scale_component(self.y, length, norm);
        Vec2 { x: vx, y: vy }
    }

    pub fn dot(&self, other: &Self) -> (d: i128)
        requires
            self.within(VEC_LIMIT as int),
            other.within(VEC_LIMIT as int),
        ensures
            d == self.spec_dot(*other),
    {
        proof {
            lemma_vec_product(self.x as int, other.x as int);
            lemma_vec_product(self.y as int, other.y as int);
        }
        mul_i64(self.x, other.x) + mul_i64(self.y, other.y)
    }

    pub fn cross(&self, other: &Self) -> (d: i128)
        requires
            self.within(VEC_LIMIT as int),
            other.within(VEC_LIMIT as int),
        ensures
            d == self.spec_cross(*other),
            abs_int(d as int) <= 2 * VEC_SQ_LIMIT,
    {
        proof {
            lemma_vec_product(self.x as int, other.y as int);
            lemma_vec_product(self.y as int, other.x as int);
        }
        mul_i64(self.x, other.y) - mul_i64(self.y, other.x)
    }

    /// The vector turned a quarter turn clockwise.
    pub fn perp_cw(&self) -> (v: Self)
        requires
            self.x > i64::MIN,
        ensures
            v == (Vec2 { x: self.y, y: (-self.x) as i64 }),
    {
        Vec2 { x: self.y, y: -self.x }
    }

    /// The vector turned a quarter turn counter-clockwise.
    pub fn perp_ccw(&self) -> (v: Self)
        requires
            self.y > i64::MIN,
        ensures
            v == (Vec2 { x: (-self.y) as i64, y: self.x }),
    {
        Vec2 { x: -self.y, y: self.x }
    }
}

/// One component of a vector never exceeds the vector's fine norm.
pub proof fn lemma_fine_norm_dominates(c: int, x: int, y: int, norm: int)
    requires
        c == x || c == y,
        is_sqrt(norm_sq(x, y) * NORM_SHIFT * NORM_SHIFT, norm),
    ensures
        abs_int(c) * NORM_SHIFT <= norm,
{
    let a = abs_int(c) * NORM_SHIFT;
    let n = norm_sq(x, y) * NORM_SHIFT * NORM_SHIFT;
    assert(a * a <= n) by (nonlinear_arith)
        requires
            a == abs_int(c) * NORM_SHIFT,
            n == (x * x + y * y) * NORM_SHIFT * NORM_SHIFT,
            c == x || c == y,
    ;
    if norm < a {
        assert((norm + 1) * (norm + 1) <= a * a) by (nonlinear_arith)
            requires
                0 <= norm + 1 <= a,
        ;
    }
}

/// Scales one component of a vector whose fine norm is `norm`.
fn scale_component(c: i64, length: i64, norm: u64) -> (r: i64)
    requires
        abs_int(c as int) <= VEC_LIMIT,
        abs_int(length as int) <= WIDE_LIMIT,
        abs_int(c as int) * NORM_SHIFT <= norm,
        norm > 0,
    ensures
        r == round_div(c * length * NORM_SHIFT, norm as int),
        abs_int(r as int) <= abs_int(length as int),
{
    let cl = mul_i64(c, length);
    proof {
        lemma_product_bound(c as int, length as int, VEC_LIMIT as int, WIDE_LIMIT as int);
        assert(2_199_023_255_552int * 1_099_511_627_776int == 0x2_0000_0000_0000_0000_0000int)
            by (nonlinear_arith);
        assert(abs_int(cl * NORM_SHIFT) <= 0x20_0000_0000_0000_0000_0000_0000int) by (nonlinear_arith)
            requires
                abs_int(cl as int) <= 0x2_0000_0000_0000_0000_0000int,
                NORM_SHIFT == 0x10_0000,
        ;
    }
    let num: i128 = cl * (NORM_SHIFT as i128);
    let q = div_round(num, norm as i128);
    proof {
        let l = abs_int(length as int);
        let m = abs_int(num as int);
        let d = norm as int;
        let ac = abs_int(c as int);
        assert(abs_int(cl as int) == ac * l) by (nonlinear_arith)
            requires
                cl == c * length,
                ac == abs_int(c as int),
                l == abs_int(length as int),
        ;
        assert(m == ac * l * NORM_SHIFT) by (nonlinear_arith)
            requires
                m == abs_int(cl * NORM_SHIFT),
                abs_int(cl as int) == ac * l,
                NORM_SHIFT > 0,
        ;
        assert(m <= l * d) by (nonlinear_arith)
            requires
                m == ac * l * NORM_SHIFT,
                ac * NORM_SHIFT <= d,
                l >= 0,
        ;
        assert((m + d / 2) / d <= l) by (nonlinear_arith)
            requires
                0 <= m <= l * d,
                d > 0,
        ;
        assert((m + d / 2) / d >= 0) by (nonlinear_arith)
            requires
                0 <= m,
                d > 0,
        ;
    }
    q as i64
}

impl Vec3 {
    /// Whether all components have magnitude at most `limit`.
    pub open spec fn within(self, limit: int) -> bool {
        abs_int(self.x as int) <= limit && abs_int(self.y as int) <= limit && abs_int(
            self.z as int,
        ) <= limit
    }

    /// The Euclidean length, rounded down.
    pub open spec fn spec_length(self) -> int {
        int_sqrt(self.x * self.x + self.y * self.y + self.z * self.z)
    }

    pub fn new(x: i64, y: i64, z: i64) -> (v: Self)
        ensures
            v == (Vec3 { x, y, z }),
    {
        Vec3 { x, y, z }
    }

    /// The Euclidean length, rounded down.
    pub fn length(&self) -> (d: i64)
        requires
            self.within(VEC_LIMIT as int),
        ensures
            d == self.spec_length(),
            0 <= d <= 4 * WIDE_LIMIT,
    {
        let xx = mul_i64(self.x, self.x);
        let yy = mul_i64(self.y, self.y);
        let zz = mul_i64(self.z, self.z);
        proof {
            lemma_vec_product(self.x as int, self.x as int);
            lemma_vec_product(self.y as int, self.y as int);
            lemma_vec_product(self.z as int, self.z as int);
        }
        let n: u128 = (xx + yy + zz) as u128;
        let r = isqrt(n);
        proof {
            let w = 4 * WIDE_LIMIT as int;
            assert((w + 1) * (w + 1) > 3 * VEC_SQ_LIMIT) by (nonlinear_arith)
                requires
                    w == 4 * WIDE_LIMIT,
            ;
            lemma_sqrt_bound(n as int, w);
        }
        r as i64
    }
}

/// Whether every point of `s` has coordinates of magnitude at most `limit`.
pub open spec fn points_within(s: Seq<Point2>, limit: int) -> bool {
    forall|i: int| 0 <= i < s.len() ==> (#[trigger] s[i]).within(limit)
}

/// The shoelace term of the edge that leaves vertex `i` of the closed
/// polygon `s`.
pub open spec fn edge_term(s: Seq<Point2>, i: int) -> int {
    let p = s[i];
    let q = s[(i + 1) % (s.len() as int)];
    p.x * q.y - q.x * p.y
}

/// The sum of the shoelace terms of the first `k` edges.
pub open spec fn shoelace(s: Seq<Point2>, k: int) -> int
    decreases k,
{
    if k <= 0 {
        0
    } else {
        shoelace(s, k - 1) + edge_term(s, k - 1)
    }
}

/// Twice the signed area of the closed polygon `s`; zero below three points.
pub open spec fn doubled_area(s: Seq<Point2>) -> int {
    if s.len() < 3 {
        0
    } else {
        shoelace(s, s.len() as int)
    }
}

/// The signed area of the closed polygon `s`, rounded down.
pub open spec fn area_of(s: Seq<Point2>) -> int {
    doubled_area(s) / 2
}

/// Counter-clockwise exactly when the signed area is not negative.
pub open spec fn orientation_of(s: Seq<Point2>) -> Orientation {
    if doubled_area(s) >= 0 {
        Orientation::Ccw
    } else {
        Orientation::Cw
    }
}

/// Twice the signed area by the shoelace formula.
pub fn polygon_doubled_area(points: &[Point2]) -> (a: i128)
    requires
        points_within(points@, WIDE_LIMIT as int),
        points.len() <= MAX_POINTS,
    ensures
        a == doubled_area(points@),
        abs_int(a as int) <= points.len() * 9_671_406_556_917_033_397_649_408,
{
    let n = points.len();
    if n < 3 {
        return 0;
    }
    let mut acc: i128 = 0;
    let mut i: usize = 0;
    while i < n
        invariant
            n == points.len(),
            3 <= n <= MAX_POINTS,
            i <= n,
            points_within(points@, WIDE_LIMIT as int),
            acc == shoelace(points@, i as int),
            abs_int(acc as int) <= i * 9_671_406_556_917_033_397_649_408,
        decreases n - i,
    {
        let p = points[i];
        let q = points[(i + 1) % n];
        proof {
            lemma_vec_product(p.x as int, q.y as int);
            lemma_vec_product(q.x as int, p.y as int);
        }
        let term: i128 = mul_i64(p.x, q.y) - mul_i64(q.x, p.y);
        acc = acc + term;
        i = i + 1;
    }
    acc
}

/// The signed area by the shoelace formula, rounded down; zero below three
/// points.
pub fn polygon_area(points: &[Point2]) -> (a: i128)
    requires
        points_within(points@, WIDE_LIMIT as int),
        points.len() <= MAX_POINTS,
    ensures
        a == area_of(points@),
        abs_int(a as int) <= points.len() * 9_671_406_556_917_033_397_649_408,
{
    div_floor(polygon_doubled_area(points), 2)
}

/// Counter-clockwise exactly when the signed area is not negative.
pub fn polygon_orientation(points: &[Point2]) -> (o: Orientation)
    requires
        points_within(points@, WIDE_LIMIT as int),
        points.len() <= MAX_POINTS,
    ensures
        o == orientation_of(points@),
{
    if polygon_doubled_area(points) >= 0 {
        Orientation::Ccw
    } else {
        Orientation::Cw
    }
}

/// The summed length of the first `k` segments of the polyline `s`.
pub open spec fn open_length(s: Seq<Point2>, k: int) -> int
    decreases k,
{
    if k <= 0 {
        0
    } else {
        open_length(s, k - 1) + dist(s[k - 1], s[k])
    }
}

/// The length of the polyline `s`, with the closing segment when `closed`.
pub open spec fn path_length(s: Seq<Point2>, closed: bool) -> int {
    if s.len() == 0 {
        0
    } else {
        open_length(s, s.len() - 1) + if closed {
            dist(s[s.len() - 1], s[0])
        } else {
            0
        }
    }
}

/// The length of a polyline: the sum of the rounded-down lengths of its
/// segments, with the segment from the last point back to the first when
/// `closed`.
pub fn polyline_length(points: &[Point2], closed: bool) -> (len: i128)
    requires
        points_within(points@, WIDE_LIMIT as int),
    ensures
        len == path_length(points@, closed),
        0 <= len <= points.len() * 4_398_046_511_104,
{
    let n = points.len();
    if n == 0 {
        return 0;
    }
    let mut length: i128 = 0;
    let mut i: usize = 0;
    while i < n - 1
        invariant
            n == points.len(),
            1 <= n,
            i <= n - 1,
            points_within(points@, WIDE_LIMIT as int),
            length == open_length(points@, i as int),
            0 <= length <= i * 4_398_046_511_104,
        decreases n - i,
    {
        let d = points[i].distance(&points[i + 1]);
        length = length + d as i128;
        i = i + 1;
    }
    if closed {
        let d = points[n - 1].distance(&points[0]);
        length = length + d as i128;
    }
    length
}

/// The corners of the smallest axis-aligned box around `points`.
pub fn bounding_box(points: &[Point2]) -> (r: Option<(Point2, Point2)>)
    ensures
        points.len() == 0 <==> r is None,
        r matches Some((lo, hi)) ==> {
            &&& forall|i: int|
                0 <= i < points.len() ==> lo.x <= (#[trigger] points[i]).x <= hi.x && lo.y
                    <= points[i].y <= hi.y
            &&& exists|i: int| 0 <= i < points.len() && points[i].x == lo.x
            &&& exists|i: int| 0 <= i < points.len() && points[i].x == hi.x
            &&& exists|i: int| 0 <= i < points.len() && points[i].y == lo.y
            &&& exists|i: int| 0 <= i < points.len() && points[i].y == hi.y
        },
{
    if points.len() == 0 {
        return None;
    }
    let mut min_x = points[0].x;
    let mut max_x = points[0].x;
    let mut min_y = points[0].y;
    let mut max_y = points[0].y;
    let mut k: usize = 1;
    while k < points.len()
        invariant
            1 <= k <= points.len(),
            forall|i: int|
                0 <= i < k ==> min_x <= (#[trigger] points[i]).x <= max_x && min_y <= points[i].y
                    <= max_y,
            exists|i: int| 0 <= i < k && points[i].x == min_x,
            exists|i: int| 0 <= i < k && points[i].x == max_x,
            exists|i: int| 0 <= i < k && points[i].y == min_y,
            exists|i: int| 0 <= i < k && points[i].y == max_y,
        decreases points.len() - k,
    {
        let p = points[k];
        if p.x < min_x {
            min_x = p.x;
        }
        if p.x > max_x {
            max_x = p.x;
        }
        if p.y < min_y {
            min_y = p.y;
        }
        if p.y > max_y {
            max_y = p.y;
        }
        k = k + 1;
    }
    Some((Point2 { x: min_x, y: min_y }, Point2 { x: max_x, y: max_y }))
}

/// The cross product of the directions of the lines `a1 a2` and `b1 b2`.
pub open spec fn line_denominator(a1: Point2, a2: Point2, b1: Point2, b2: Point2) -> int {
    (a2.x - a1.x) * (b2.y - b1.y) - (a2.y - a1.y) * (b2.x - b1.x)
}

/// The cross product of `b1 - a1` with the direction of the line `b1 b2`.
pub open spec fn line_numerator(a1: Point2, a2: Point2, b1: Point2, b2: Point2) -> int {
    (b1.x - a1.x) * (b2.y - b1.y) - (b1.y - a1.y) * (b2.x - b1.x)
}

/// `a / b` rounded to nearest for a divisor of either sign.
pub open spec fn signed_round_div(a: int, b: int) -> int {
    if b > 0 {
        round_div(a, b)
    } else {
        round_div(-a, -b)
    }
}

/// Two lines count as parallel when the cross product of their directions is
/// below [`AREA_EPS`] in magnitude.
pub open spec fn lines_parallel(a1: Point2, a2: Point2, b1: Point2, b2: Point2) -> bool {
    abs_int(line_denominator(a1, a2, b1, b2)) < AREA_EPS
}

/// The x coordinate of the point where the two lines meet.
pub open spec fn crossing_x(a1: Point2, a2: Point2, b1: Point2, b2: Point2) -> int {
    a1.x + signed_round_div(
        line_numerator(a1, a2, b1, b2) * (a2.x - a1.x),
        line_denominator(a1, a2, b1, b2),
    )
}

/// The y coordinate of the point where the two lines meet.
pub open spec fn crossing_y(a1: Point2, a2: Point2, b1: Point2, b2: Point2) -> int {
    a1.y + signed_round_div(
        line_numerator(a1, a2, b1, b2) * (a2.y - a1.y),
        line_denominator(a1, a2, b1, b2),
    )
}

/// The point where the infinite lines `a1 a2` and `b1 b2` meet, if they are
/// not parallel and the point lies inside the coordinate range.
pub open spec fn crossing(a1: Point2, a2: Point2, b1: Point2, b2: Point2) -> Option<Point2> {
    if lines_parallel(a1, a2, b1, b2) {
        None
    } else if coord_ok(crossing_x(a1, a2, b1, b2)) && coord_ok(crossing_y(a1, a2, b1, b2)) {
        Some(
            Point2 {
                x: crossing_x(a1, a2, b1, b2) as i64,
                y: crossing_y(a1, a2, b1, b2) as i64,
            },
        )
    } else {
        None
    }
}

/// One coordinate of the meeting point: `origin + num * dir / den`.
fn crossing_coordinate(origin: i64, num: i128, dir: i64, den: i128) -> (r: i128)
    requires
        abs_int(origin as int) <= WIDE_LIMIT,
        abs_int(num as int) <= 2 * VEC_SQ_LIMIT,
        abs_int(dir as int) <= VEC_LIMIT,
        abs_int(den as int) <= 2 * VEC_SQ_LIMIT,
        den != 0,
    ensures
        r == origin + signed_round_div(num * dir, den as int),
{
    let prod = mul_wide(num, dir as i128);
    let q = if den > 0 {
        div_round(prod, den)
    } else {
        div_round(-prod, -den)
    };
    proof {
        let m = abs_int(prod as int);
        let d = abs_int(den as int);
        assert((m + d / 2) / d <= m + d) by (nonlinear_arith)
            requires
                m >= 0,
                d > 0,
        ;
        assert((m + d / 2) / d >= 0) by (nonlinear_arith)
            requires
                m >= 0,
                d > 0,
        ;
    }
    origin as i128 + q
}

/// Intersects the infinite lines through `a1 a2` and through `b1 b2`.
/// Returns nothing when the lines are parallel or when the meeting point
/// lies outside the coordinate range.
pub fn lines_intersection(a1: Point2, a2: Point2, b1: Point2, b2: Point2) -> (r: Option<Point2>)
    requires
        a1.within(WIDE_LIMIT as int),
        a2.within(WIDE_LIMIT as int),
        b1.within(WIDE_LIMIT as int),
        b2.within(WIDE_LIMIT as int),
    ensures
        r == crossing(a1, a2, b1, b2),
{
    let r = a2.minus(&a1);
    let s = b2.minus(&b1);
    let rxs = r.cross(&s);
    if abs_i128(rxs) < AREA_EPS {
        return None;
    }
    let w = b1.minus(&a1);
    let num = w.cross(&s);
    let cx = crossing_coordinate(a1.x, num, r.x, rxs);
    let cy = crossing_coordinate(a1.y, num, r.y, rxs);
    if -(COORD_LIMIT as i128) <= cx && cx <= COORD_LIMIT as i128 && -(COORD_LIMIT as i128) <= cy
        && cy <= COORD_LIMIT as i128 {
        Some(Point2 { x: cx as i64, y: cy as i64 })
    } else {
        None
    }
}

/// The turn made at `q` on the way from `p` to `r`: zero when the three
/// points are collinear, of opposite signs for the two turning directions.
pub open spec fn turn(p: Point2, q: Point2, r: Point2) -> int {
    (q.y - p.y) * (r.x - q.x) - (q.x - p.x) * (r.y - q.y)
}

/// Whether `q` lies in the axis-aligned box spanned by `p` and `r`.
pub open spec fn in_box(p: Point2, q: Point2, r: Point2) -> bool {
    &&& q.x <= (if p.x >= r.x { p.x } else { r.x })
    &&& q.x >= (if p.x <= r.x { p.x } else { r.x })
    &&& q.y <= (if p.y >= r.y { p.y } else { r.y })
    &&& q.y >= (if p.y <= r.y { p.y } else { r.y })
}

/// Whether `a` and `b` are non-zero and of opposite signs.
pub open spec fn opposite_signs(a: int, b: int) -> bool {
    (a < 0 && b > 0) || (a > 0 && b < 0)
}

/// Whether the closed segments `a1 a2` and `b1 b2` touch or cross: either
/// each segment has its ends strictly on both sides of the other, or an end
/// of one is collinear with the other (within [`AREA_EPS`]) and inside its
/// box.
pub open spec fn segments_cross(a1: Point2, a2: Point2, b1: Point2, b2: Point2) -> bool {
    let o1 = turn(a1, a2, b1);
    let o2 = turn(a1, a2, b2);
    let o3 = turn(b1, b2, a1);
    let o4 = turn(b1, b2, a2);
    ||| (opposite_signs(o1, o2) && opposite_signs(o3, o4))
    ||| (abs_int(o1) < AREA_EPS && in_box(a1, b1, a2))
    ||| (abs_int(o2) < AREA_EPS && in_box(a1, b2, a2))
    ||| (abs_int(o3) < AREA_EPS && in_box(b1, a1, b2))
    ||| (abs_int(o4) < AREA_EPS && in_box(b1, a2, b2))
}

fn turn_of(p: Point2, q: Point2, r: Point2) -> (t: i128)
    requires
        p.within(WIDE_LIMIT as int),
        q.within(WIDE_LIMIT as int),
        r.within(WIDE_LIMIT as int),
    ensures
        t == turn(p, q, r),
        abs_int(t as int) <= 2 * VEC_SQ_LIMIT,
{
    proof {
        lemma_vec_product(q.y - p.y, r.x - q.x);
        lemma_vec_product(q.x - p.x, r.y - q.y);
    }
    mul_i64(q.y - p.y, r.x - q.x) - mul_i64(q.x - p.x, r.y - q.y)
}

fn box_holds(p: Point2, q: Point2, r: Point2) -> (b: bool)
    ensures
        b == in_box(p, q, r),
{
    let max_x = if p.x >= r.x { p.x } else { r.x };
    let min_x = if p.x <= r.x { p.x } else { r.x };
    let max_y = if p.y >= r.y { p.y } else { r.y };
    let min_y = if p.y <= r.y { p.y } else { r.y };
    q.x <= max_x && q.x >= min_x && q.y <= max_y && q.y >= min_y
}

/// Tests whether two closed segments touch or cross.
pub fn segments_intersect(a1: Point2, a2: Point2, b1: Point2, b2: Point2) -> (r: bool)
    requires
        a1.within(WIDE_LIMIT as int),
        a2.within(WIDE_LIMIT as int),
        b1.within(WIDE_LIMIT as int),
        b2.within(WIDE_LIMIT as int),
    ensures
        r == segments_cross(a1, a2, b1, b2),
{
    let o1 = turn_of(a1, a2, b1);
    let o2 = turn_of(a1, a2, b2);
    let o3 = turn_of(b1, b2, a1);
    let o4 = turn_of(b1, b2, a2);
    let opp12 = (o1 < 0 && o2 > 0) || (o1 > 0 && o2 < 0);
    let opp34 = (o3 < 0 && o4 > 0) || (o3 > 0 && o4 < 0);
    if opp12 && opp34 {
        return true;
    }
    if abs_i128(o1) < AREA_EPS && box_holds(a1, b1, a2) {
        return true;
    }
    if abs_i128(o2) < AREA_EPS && box_holds(a1, b2, a2) {
        return true;
    }
    if abs_i128(o3) < AREA_EPS && box_holds(b1, a1, b2) {
        return true;
    }
    if abs_i128(o4) < AREA_EPS && box_holds(b1, a2, b2) {
        return true;
    }
    false
}

/// Whether edges `i` and `j` of a closed polygon of `n` vertices are the same
/// edge or share a vertex.
pub open spec fn edges_adjacent(n: int, i: int, j: int) -> bool {
    j == i || j == (i + 1) % n || j == (i + n - 1) % n
}

/// Whether edges `i` and `j` of the closed polygon `s` are apart and touch
/// or cross.
pub open spec fn edge_pair_crosses(s: Seq<Point2>, i: int, j: int) -> bool {
    let n = s.len() as int;
    !edges_adjacent(n, i, j) && segments_cross(s[i], s[(i + 1) % n], s[j], s[(j + 1) % n])
}

/// Whether two edges of the closed polygon `s` that share no vertex touch or
/// cross. A polygon of fewer than four vertices has no such pair.
pub open spec fn self_intersects(s: Seq<Point2>) -> bool {
    s.len() >= 4 && exists|i: int, j: int|
        0 <= i < j < s.len() && #[trigger] edge_pair_crosses(s, i, j)
}

/// Tests a closed polygon for a pair of non-adjacent edges that touch or
/// cross.
pub fn polygon_self_intersections(points: &[Point2]) -> (r: bool)
    requires
        points_within(points@, WIDE_LIMIT as int),
        points.len() <= MAX_POINTS,
    ensures
        r == self_intersects(points@),
{
    let n = points.len();
    if n < 4 {
        return false;
    }
    let mut i: usize = 0;
    while i < n
        invariant
            n == points.len(),
            4 <= n <= MAX_POINTS,
            i <= n,
            points_within(points@, WIDE_LIMIT as int),
            forall|a: int, b: int| 0 <= a < i && a < b < n ==> !#[trigger] edge_pair_crosses(points@, a, b),
        decreases n - i,
    {
        let a1 = points[i];
        let a2 = points[(i + 1) % n];
        let mut j: usize = i + 1;
        while j < n
            invariant
                n == points.len(),
                4 <= n <= MAX_POINTS,
                i < n,
                i < j <= n,
                a1 == points@[i as int],
                a2 == points@[(i + 1) % (n as int)],
                points_within(points@, WIDE_LIMIT as int),
                forall|a: int, b: int|
                    0 <= a < i && a < b < n ==> !#[trigger] edge_pair_crosses(points@, a, b),
                forall|b: int| i < b < j ==> !#[trigger] edge_pair_crosses(points@, i as int, b),
            decreases n - j,
        {
            let b1 = points[j];
            let b2 = points[(j + 1) % n];
            let adjacent = j == i || j == (i + 1) % n || j == (i + n - 1) % n;
            if !adjacent && segments_intersect(a1, a2, b1, b2) {
                assert(edge_pair_crosses(points@, i as int, j as int));
                return true;
            }
            j = j + 1;
        }
        i = i + 1;
    }
    false
}

} // verus!
