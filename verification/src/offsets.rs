//! Signed polygon offsetting.
use vstd::prelude::*;
use crate::geometry::{
    doubled_area, edge_term, crossing, lines_intersection, lines_parallel, orientation_of,
    points_within, polygon_orientation, polygon_self_intersections, self_intersects, shoelace,
    Orientation, Point2, Vec2, MAX_POINTS,
};
use crate::units::{abs_i128, abs_int, AREA_EPS, COORD_LIMIT, UNITS_PER_MM};

verus! {

#[derive(Debug, Clone, Copy, PartialEq, Eq, Structural)]
pub enum OffsetSide {
    Inside,
    Outside,
}

#[derive(Debug, Clone, Copy, PartialEq, Eq, Structural)]
pub enum OffsetError {
    /// The polygon has fewer than three points.
    TooFewPoints,
    /// Two consecutive points of the polygon coincide.
    DegenerateEdge,
    /// Two edges of the offset polygon that share no vertex touch or cross.
    SelfIntersection,
    /// A coordinate of the polygon, the distance, the number of points or a
    /// vertex of the offset polygon lies outside the supported range.
    OutOfRange,
}

impl OffsetError {
    /// The text shown for the error.
    pub open spec fn message(self) -> Seq<char> {
        match self {
            OffsetError::TooFewPoints => "polygon has fewer than three points"@,
            OffsetError::DegenerateEdge => "degenerate edge encountered"@,
            OffsetError::SelfIntersection => "offset introduced self-intersection"@,
            OffsetError::OutOfRange => "offset leaves the coordinate range"@,
        }
    }

    /// The text shown for the error.
    pub fn to_string(&self) -> (s: String)
        ensures
            s@ == self.message(),
    {
        match self {
            OffsetError::TooFewPoints => String::from_str("polygon has fewer than three points"),
            OffsetError::DegenerateEdge => String::from_str("degenerate edge encountered"),
            OffsetError::SelfIntersection => String::from_str(
                "offset introduced self-intersection",
            ),
            OffsetError::OutOfRange => String::from_str("offset leaves the coordinate range"),
        }
    }
}

/// The signed distance by which edges move along their outward normal:
/// `distance` for [`OffsetSide::Outside`] on a counter-clockwise polygon and
/// for [`OffsetSide::Inside`] on a clockwise one, `-distance` for the other
/// two.
pub open spec fn signed_distance(o: Orientation, side: OffsetSide, distance: int) -> int {
    match (o, side) {
        (Orientation::Ccw, OffsetSide::Outside) => distance,
        (Orientation::Ccw, OffsetSide::Inside) => -distance,
        (Orientation::Cw, OffsetSide::Outside) => -distance,
        (Orientation::Cw, OffsetSide::Inside) => distance,
    }
}

/// The edge vector turned so that it points out of a polygon of orientation
/// `o`: a quarter turn clockwise for counter-clockwise polygons and the other
/// way for clockwise ones.
pub open spec fn outward(e: Vec2, o: Orientation) -> Vec2 {
    match o {
        Orientation::Ccw => Vec2 { x: e.y, y: (-e.x) as i64 },
        Orientation::Cw => Vec2 { x: (-e.y) as i64, y: e.x },
    }
}

/// The displacement of an edge: `s` along its outward normal.
pub open spec fn edge_shift(e: Vec2, o: Orientation, s: int) -> Vec2 {
    outward(e, o).spec_scaled_to(s)
}

/// The point `p` displaced by `d`.
pub open spec fn shifted(p: Point2, d: Vec2) -> Point2 {
    Point2 { x: (p.x + d.x) as i64, y: (p.y + d.y) as i64 }
}

/// The vector from `a` to `b`.
pub open spec fn between(a: Point2, b: Point2) -> Vec2 {
    Vec2 { x: (b.x - a.x) as i64, y: (b.y - a.y) as i64 }
}

/// The offset vertex at a straight junction, where the two displaced edges
/// are parallel: `curr` moved by `s` along the sum of the two unit normals,
/// or along the first normal when the sum vanishes.
pub open spec fn junction_point(e1: Vec2, e2: Vec2, curr: Point2, o: Orientation, s: int) -> Point2 {
    let n1 = edge_shift(e1, o, UNITS_PER_MM as int);
    let n2 = edge_shift(e2, o, UNITS_PER_MM as int);
    let sum = Vec2 { x: (n1.x + n2.x) as i64, y: (n1.y + n2.y) as i64 };
    let combined = if sum.x == 0 && sum.y == 0 {
        n1
    } else {
        sum
    };
    shifted(curr, combined.spec_scaled_to(s))
}

/// The offset vertex that belongs to vertex `i` of `points`: the meeting
/// point of the two adjacent edges, each moved by `s` along its outward
/// normal.
pub open spec fn offset_vertex(points: Seq<Point2>, i: int, s: int, o: Orientation) -> Result<
    Point2,
    OffsetError,
> {
    let n = points.len() as int;
    let prev = points[(i + n - 1) % n];
    let curr = points[i];
    let next = points[(i + 1) % n];
    let e1 = between(prev, curr);
    let e2 = between(curr, next);
    if (e1.x == 0 && e1.y == 0) || (e2.x == 0 && e2.y == 0) {
        Err(OffsetError::DegenerateEdge)
    } else {
        let d1 = edge_shift(e1, o, s);
        let d2 = edge_shift(e2, o, s);
        let a1 = shifted(prev, d1);
        let b1 = shifted(curr, d1);
        let a2 = shifted(curr, d2);
        let b2 = shifted(next, d2);
        if !lines_parallel(a1, b1, a2, b2) {
            match crossing(a1, b1, a2, b2) {
                Some(p) => Ok(p),
                None => Err(OffsetError::OutOfRange),
            }
        } else {
            let p = junction_point(e1, e2, curr, o, s);
            if p.in_range() {
                Ok(p)
            } else {
                Err(OffsetError::OutOfRange)
            }
        }
    }
}

/// The offset vertices of the first `k` vertices of `points`, or the error
/// of the first vertex that has none.
pub open spec fn offset_vertices(points: Seq<Point2>, s: int, o: Orientation, k: int) -> Result<
    Seq<Point2>,
    OffsetError,
>
    decreases k,
{
    if k <= 0 {
        Ok(Seq::empty())
    } else {
        match offset_vertices(points, s, o, k - 1) {
            Err(e) => Err(e),
            Ok(v) => match offset_vertex(points, k - 1, s, o) {
                Err(e) => Err(e),
                Ok(p) => Ok(v.push(p)),
            },
        }
    }
}

/// Whether polygon and distance lie inside the supported range.
pub open spec fn offset_input_ok(points: Seq<Point2>, distance: int) -> bool {
    &&& points.len() <= MAX_POINTS
    &&& points_within(points, COORD_LIMIT as int)
    &&& abs_int(distance) <= COORD_LIMIT
}

/// The polygon whose edges are those of `points` moved by the signed
/// distance along their outward normals, in the orientation of `points`, or
/// the reason why there is none.
pub open spec fn offset_outcome(points: Seq<Point2>, distance: int, side: OffsetSide) -> Result<
    Seq<Point2>,
    OffsetError,
> {
    if points.len() < 3 {
        Err(OffsetError::TooFewPoints)
    } else if !offset_input_ok(points, distance) {
        Err(OffsetError::OutOfRange)
    } else {
        let o = orientation_of(points);
        let s = signed_distance(o, side, distance);
        if s == 0 {
            Ok(points)
        } else {
            match offset_vertices(points, s, o, points.len() as int) {
                Err(e) => Err(e),
                Ok(raw) => if self_intersects(raw) {
                    Err(OffsetError::SelfIntersection)
                } else if orientation_of(raw) != o {
                    Ok(raw.reverse())
                } else {
                    Ok(raw)
                },
            }
        }
    }
}

/// Once a vertex has no offset vertex, no longer prefix has offset vertices.
pub proof fn lemma_offset_error_sticks(
    points: Seq<Point2>,
    s: int,
    o: Orientation,
    k: int,
    n: int,
)
    requires
        0 <= k <= n,
        offset_vertices(points, s, o, k) is Err,
    ensures
        offset_vertices(points, s, o, n) == offset_vertices(points, s, o, k),
    decreases n - k,
{
    if k < n {
        lemma_offset_error_sticks(points, s, o, k, n - 1);
    }
}

/// Reversing a polygon negates its shoelace sum.
pub proof fn lemma_reverse_negates_area(s: Seq<Point2>)
    ensures
        doubled_area(s.reverse()) == -doubled_area(s),
{
    let n = s.len() as int;
    let r = s.reverse();
    if n >= 3 {
        lemma_reverse_prefix(s, n - 1);
        assert(edge_term(r, n - 1) == -edge_term(s, n - 1)) by {
            assert(r[n - 1] == s[0]);
            assert(r[0] == s[n - 1]);
            vstd::arithmetic::div_mod::lemma_mod_self_0(n);
        }
    }
}

proof fn lemma_reverse_prefix(s: Seq<Point2>, k: int)
    requires
        s.len() >= 3,
        0 <= k <= s.len() - 1,
    ensures
        shoelace(s.reverse(), k) == -(shoelace(s, s.len() - 1) - shoelace(s, s.len() - 1 - k)),
    decreases k,
{
    let n = s.len() as int;
    let r = s.reverse();
    if k > 0 {
        lemma_reverse_prefix(s, k - 1);
        let i = k - 1;
        assert(edge_term(r, i) == -edge_term(s, n - 2 - i)) by {
            vstd::arithmetic::div_mod::lemma_small_mod((i + 1) as nat, n as nat);
            vstd::arithmetic::div_mod::lemma_small_mod((n - 1 - i) as nat, n as nat);
            assert(r[i] == s[n - 1 - i]);
            assert(r[i + 1] == s[n - 2 - i]);
        }
        assert(shoelace(s, n - k) == shoelace(s, n - 1 - k) + edge_term(s, n - 1 - k));
    }
}

/// Moves an edge vector's outward normal to length `s`.
fn shift_for_edge(e: Vec2, o: Orientation, s: i64) -> (d: Vec2)
    requires
        e.within(2 * COORD_LIMIT),
        abs_int(s as int) <= COORD_LIMIT,
    ensures
        d == edge_shift(e, o, s as int),
        d.within(abs_int(s as int)),
{
    let n = match o {
        Orientation::Ccw => e.perp_cw(),
        Orientation::Cw => e.perp_ccw(),
    };
    n.scaled_to(s)
}

/// The offset vertex at a straight junction.
fn junction(e1: Vec2, e2: Vec2, curr: Point2, o: Orientation, s: i64) -> (p: Point2)
    requires
        e1.within(2 * COORD_LIMIT),
        e2.within(2 * COORD_LIMIT),
        curr.in_range(),
        abs_int(s as int) <= COORD_LIMIT,
    ensures
        p == junction_point(e1, e2, curr, o, s as int),
{
    let n1 = shift_for_edge(e1, o, UNITS_PER_MM);
    let n2 = shift_for_edge(e2, o, UNITS_PER_MM);
    let sum = Vec2 { x: n1.x + n2.x, y: n1.y + n2.y };
    let combined = if sum.x == 0 && sum.y == 0 {
        n1
    } else {
        sum
    };
    let shift = combined.scaled_to(s);
    curr.offset_by(shift)
}

/// The meeting point of the edge `prev curr` moved by `d1` and the edge
/// `curr next` moved by `d2`, or the junction point when the two are
/// parallel.
fn meeting_point(
    prev: Point2,
    curr: Point2,
    next: Point2,
    d1: Vec2,
    d2: Vec2,
    o: Orientation,
    s: i64,
) -> (r: Result<Point2, OffsetError>)
    requires
        prev.in_range(),
        curr.in_range(),
        next.in_range(),
        abs_int(s as int) <= COORD_LIMIT,
        d1.within(COORD_LIMIT as int),
        d2.within(COORD_LIMIT as int),
    ensures
        r == (if !lines_parallel(
            shifted(prev, d1),
            shifted(curr, d1),
            shifted(curr, d2),
            shifted(next, d2),
        ) {
            match crossing(
                shifted(prev, d1),
                shifted(curr, d1),
                shifted(curr, d2),
                shifted(next, d2),
            ) {
                Some(p) => Ok::<Point2, OffsetError>(p),
                None => Err(OffsetError::OutOfRange),
            }
        } else {
            let p = junction_point(between(prev, curr), between(curr, next), curr, o, s as int);
            if p.in_range() {
                Ok(p)
            } else {
                Err(OffsetError::OutOfRange)
            }
        }),
        r matches Ok(p) ==> p.in_range(),
{
    let a1 = prev.offset_by(d1);
    let b1 = curr.offset_by(d1);
    let a2 = curr.offset_by(d2);
    let b2 = next.offset_by(d2);
    let r = b1.minus(&a1);
    let t = b2.minus(&a2);
    let den = r.cross(&t);
    if abs_i128(den) >= AREA_EPS {
        match lines_intersection(a1, b1, a2, b2) {
            Some(p) => Ok(p),
            None => Err(OffsetError::OutOfRange),
        }
    } else {
        let e1 = curr.minus(&prev);
        let e2 = next.minus(&curr);
        let p = junction(e1, e2, curr, o, s);
        if -COORD_LIMIT <= p.x && p.x <= COORD_LIMIT && -COORD_LIMIT <= p.y && p.y <= COORD_LIMIT {
            Ok(p)
        } else {
            Err(OffsetError::OutOfRange)
        }
    }
}

/// Computes the offset vertex that belongs to vertex `i`.
fn vertex_at(points: &[Point2], i: usize, s: i64, o: Orientation) -> (r: Result<
    Point2,
    OffsetError,
>)
    requires
        3 <= points.len() <= MAX_POINTS,
        i < points.len(),
        points_within(points@, COORD_LIMIT as int),
        abs_int(s as int) <= COORD_LIMIT,
    ensures
        r == offset_vertex(points@, i as int, s as int, o),
        r matches Ok(p) ==> p.in_range(),
{
    let n = points.len();
    let prev = points[(i + n - 1) % n];
    let curr = points[i];
    let next = points[(i + 1) % n];
    let e1 = curr.minus(&prev);
    let e2 = next.minus(&curr);
    if (e1.x == 0 && e1.y == 0) || (e2.x == 0 && e2.y == 0) {
        return Err(OffsetError::DegenerateEdge);
    }
    let d1 = shift_for_edge(e1, o, s);
    let d2 = shift_for_edge(e2, o, s);
    meeting_point(prev, curr, next, d1, d2, o, s)
}

/// Whether every point lies inside the coordinate range.
fn all_in_range(points: &[Point2]) -> (b: bool)
    ensures
        b == points_within(points@, COORD_LIMIT as int),
{
    let mut i: usize = 0;
    while i < points.len()
        invariant
            i <= points.len(),
            forall|k: int| 0 <= k < i ==> (#[trigger] points@[k]).within(COORD_LIMIT as int),
        decreases points.len() - i,
    {
        let p = points[i];
        if !(-COORD_LIMIT <= p.x && p.x <= COORD_LIMIT && -COORD_LIMIT <= p.y && p.y
            <= COORD_LIMIT) {
            return false;
        }
        i = i + 1;
    }
    true
}

/// The points in reverse order.
fn reversed(points: &Vec<Point2>) -> (r: Vec<Point2>)
    ensures
        r@ == points@.reverse(),
{
    let n = points.len();
    let mut out: Vec<Point2> = Vec::new();
    let mut i: usize = 0;
    while i < n
        invariant
            n == points.len(),
            i <= n,
            out.len() == i,
            forall|k: int| 0 <= k < i ==> out@[k] == points@[n - 1 - k],
        decreases n - i,
    {
        out.push(points[n - 1 - i]);
        i = i + 1;
    }
    assert(out@ =~= points@.reverse());
    out
}

/// Offsets the closed polygon `points` by `distance` to the given side.
///
/// Each edge moves along its outward normal by the signed distance that
/// [`signed_distance`] gives: on a counter-clockwise polygon outward for
/// [`OffsetSide::Outside`] and inward for [`OffsetSide::Inside`], on a
/// clockwise polygon the other way round. The offset vertices are the
/// meeting points of consecutive moved edges. The result has the
/// orientation of `points` unless its area vanishes.
pub fn offset_polygon(points: &[Point2], distance: i64, side: OffsetSide) -> (r: Result<
    Vec<Point2>,
    OffsetError,
>)
    ensures
        match r {
            Ok(v) => offset_outcome(points@, distance as int, side) == Ok::<
                Seq<Point2>,
                OffsetError,
            >(v@),
            Err(e) => offset_outcome(points@, distance as int, side) == Err::<
                Seq<Point2>,
                OffsetError,
            >(e),
        },
        r matches Ok(v) ==> {
            &&& v.len() == points.len()
            &&& 3 <= points.len() <= MAX_POINTS
            &&& points_within(v@, COORD_LIMIT as int)
            &&& (orientation_of(v@) == orientation_of(points@) || doubled_area(v@) == 0)
        },
{
    if points.len() < 3 {
        return Err(OffsetError::TooFewPoints);
    }
    if points.len() > MAX_POINTS || distance < -COORD_LIMIT || distance > COORD_LIMIT
        || !all_in_range(points) {
        return Err(OffsetError::OutOfRange);
    }
    let orientation = polygon_orientation(points);
    let signed: i64 = match (orientation, side) {
        (Orientation::Ccw, OffsetSide::Outside) => distance,
        (Orientation::Ccw, OffsetSide::Inside) => -distance,
        (Orientation::Cw, OffsetSide::Outside) => -distance,
        (Orientation::Cw, OffsetSide::Inside) => distance,
    };
    if signed == 0 {
        return Ok(vstd::slice::slice_to_vec(points));
    }
    let n = points.len();
    let mut result: Vec<Point2> = Vec::new();
    let mut i: usize = 0;
    while i < n
        invariant
            n == points.len(),
            3 <= n <= MAX_POINTS,
            i <= n,
            points_within(points@, COORD_LIMIT as int),
            abs_int(signed as int) <= COORD_LIMIT,
            abs_int(distance as int) <= COORD_LIMIT,
            orientation == orientation_of(points@),
            signed == signed_distance(orientation, side, distance as int),
            signed != 0,
            offset_vertices(points@, signed as int, orientation, i as int) == Ok::<
                Seq<Point2>,
                OffsetError,
            >(result@),
            result.len() == i,
            points_within(result@, COORD_LIMIT as int),
        decreases n - i,
    {
        match vertex_at(points, i, signed, orientation) {
            Ok(p) => {
                result.push(p);
            },
            Err(e) => {
                proof {
                    assert(offset_vertices(points@, signed as int, orientation, i + 1) == Err::<
                        Seq<Point2>,
                        OffsetError,
                    >(e));
                    lemma_offset_error_sticks(
                        points@,
                        signed as int,
                        orientation,
                        i + 1,
                        n as int,
                    );
                }
                return Err(e);
            },
        }
        i = i + 1;
    }
    if polygon_self_intersections(result.as_slice()) {
        return Err(OffsetError::SelfIntersection);
    }
    if polygon_orientation(result.as_slice()) != orientation {
        let flipped = reversed(&result);
        proof {
            lemma_reverse_negates_area(result@);
        }
        return Ok(flipped);
    }
    Ok(result)
}

} // verus!
