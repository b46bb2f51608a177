use camnest::geometry::{
    bounding_box, lines_intersection, polygon_area, polygon_orientation, polygon_self_intersections,
    polyline_length, segments_intersect, Orientation, Point2, Point3, Vec2, Vec3,
};
use camnest::offsets::{offset_polygon, OffsetError, OffsetSide};
use camnest::units::{div_floor, div_round, isqrt, rem_wrap};

fn mm(value: f64) -> i64 {
    (value * 1_000_000.0).round() as i64
}

fn p(x: f64, y: f64) -> Point2 {
    Point2::new(mm(x), mm(y))
}

#[test]
fn detects_self_intersection() {
    let bow_tie = vec![p(0.0, 0.0), p(1.0, 1.0), p(0.0, 1.0), p(1.0, 0.0)];
    assert!(polygon_self_intersections(&bow_tie));
}

#[test]
fn square_outside_offset() {
    let poly = vec![p(0.0, 0.0), p(40.0, 0.0), p(40.0, 40.0), p(0.0, 40.0)];
    let result = offset_polygon(&poly, mm(5.0), OffsetSide::Outside).unwrap();
    assert_eq!(result.len(), 4);
    assert_eq!(result, vec![p(-5.0, -5.0), p(45.0, -5.0), p(45.0, 45.0), p(-5.0, 45.0)]);
}

#[test]
fn offset_keeps_the_orientation() {
    let ccw = vec![p(0.0, 0.0), p(40.0, 0.0), p(40.0, 40.0), p(0.0, 40.0)];
    let cw: Vec<Point2> = ccw.iter().rev().copied().collect();
    assert_eq!(polygon_orientation(&ccw), Orientation::Ccw);
    assert_eq!(polygon_orientation(&cw), Orientation::Cw);
    for side in [OffsetSide::Inside, OffsetSide::Outside] {
        let out = offset_polygon(&ccw, mm(5.0), side).unwrap();
        assert_eq!(polygon_orientation(&out), Orientation::Ccw);
        let out = offset_polygon(&cw, mm(5.0), side).unwrap();
        assert_eq!(polygon_orientation(&out), Orientation::Cw);
    }
    let inside = offset_polygon(&ccw, mm(5.0), OffsetSide::Inside).unwrap();
    assert_eq!(inside, vec![p(5.0, 5.0), p(35.0, 5.0), p(35.0, 35.0), p(5.0, 35.0)]);
    let back = offset_polygon(&inside, mm(5.0), OffsetSide::Outside).unwrap();
    assert_eq!(back, ccw);
    assert_eq!(offset_polygon(&ccw, 0, OffsetSide::Inside).unwrap(), ccw);
    // on a clockwise polygon the signed distance has the other sign
    let moved = offset_polygon(&cw, mm(5.0), OffsetSide::Outside).unwrap();
    assert_eq!(moved, vec![p(5.0, 35.0), p(35.0, 35.0), p(35.0, 5.0), p(5.0, 5.0)]);
    let back = offset_polygon(&moved, mm(5.0), OffsetSide::Inside).unwrap();
    assert_eq!(back, cw);
}

#[test]
fn offset_of_a_slanted_triangle_is_within_a_micro_unit() {
    let tri = vec![p(0.0, 0.0), p(30.0, 0.0), p(0.0, 40.0)];
    let out = offset_polygon(&tri, mm(5.0), OffsetSide::Outside).unwrap();
    // the hypotenuse 4x + 3y = 120 moves to 4x + 3y = 145
    let wanted = [p(-5.0, -5.0), p(40.0, -5.0), p(-5.0, 55.0)];
    assert_eq!(out.len(), 3);
    for (a, b) in out.iter().zip(wanted.iter()) {
        assert!((a.x - b.x).abs() <= 1 && (a.y - b.y).abs() <= 1, "{a:?} {b:?}");
    }
    assert_eq!(out[0], p(-5.0, -5.0));
    // a triangle with sides that no coordinate axis is parallel to
    let tri = vec![p(0.0, 0.0), p(70.0, 10.0), p(20.0, 60.0)];
    let out = offset_polygon(&tri, mm(3.0), OffsetSide::Inside).unwrap();
    let back = offset_polygon(&out, mm(3.0), OffsetSide::Outside).unwrap();
    for (a, b) in back.iter().zip(tri.iter()) {
        assert!((a.x - b.x).abs() <= 20 && (a.y - b.y).abs() <= 20, "{a:?} {b:?}");
    }
}

#[test]
fn offset_errors() {
    assert_eq!(
        offset_polygon(&[p(0.0, 0.0), p(1.0, 0.0)], mm(1.0), OffsetSide::Inside),
        Err(OffsetError::TooFewPoints)
    );
    assert_eq!(
        offset_polygon(&[p(0.0, 0.0), p(1.0, 0.0), p(1.0, 0.0), p(0.0, 1.0)], mm(1.0), OffsetSide::Inside),
        Err(OffsetError::DegenerateEdge)
    );
    let square = vec![p(0.0, 0.0), p(10.0, 0.0), p(10.0, 10.0), p(0.0, 10.0)];
    // inset by far more than the half width: the loop turns inside out and still has four clean edges
    let bow_tie = vec![p(0.0, 0.0), p(10.0, 10.0), p(0.0, 10.0), p(10.0, 0.0)];
    assert_eq!(
        offset_polygon(&bow_tie, mm(1.0), OffsetSide::Outside),
        Err(OffsetError::SelfIntersection)
    );
    assert_eq!(
        offset_polygon(&square, i64::MAX, OffsetSide::Outside),
        Err(OffsetError::OutOfRange)
    );
    let far = vec![Point2::new(0, 0), Point2::new(i64::MAX, 0), Point2::new(0, 5)];
    assert_eq!(offset_polygon(&far, mm(1.0), OffsetSide::Outside), Err(OffsetError::OutOfRange));
    assert_eq!(OffsetError::TooFewPoints.to_string(), "polygon has fewer than three points");
    assert_eq!(OffsetError::DegenerateEdge.to_string(), "degenerate edge encountered");
    assert_eq!(OffsetError::SelfIntersection.to_string(), "offset introduced self-intersection");
    assert_eq!(OffsetError::OutOfRange.to_string(), "offset leaves the coordinate range");
}

#[test]
fn straight_junction_moves_along_the_normal() {
    // a vertex in the middle of the lower edge
    let poly = vec![p(0.0, 0.0), p(20.0, 0.0), p(40.0, 0.0), p(40.0, 40.0), p(0.0, 40.0)];
    let out = offset_polygon(&poly, mm(5.0), OffsetSide::Outside).unwrap();
    assert_eq!(out[1], p(20.0, -5.0));
    assert_eq!(out.len(), 5);
}

#[test]
fn areas_and_lengths() {
    let square = vec![p(0.0, 0.0), p(4.0, 0.0), p(4.0, 3.0), p(0.0, 3.0)];
    assert_eq!(polygon_area(&square), 12_000_000_000_000);
    let reversed: Vec<Point2> = square.iter().rev().copied().collect();
    assert_eq!(polygon_area(&reversed), -12_000_000_000_000);
    assert_eq!(polygon_area(&square[..2]), 0);
    assert_eq!(polygon_area(&[Point2::new(0, 0), Point2::new(1, 0), Point2::new(0, 1)]), 0);
    assert_eq!(polygon_area(&[Point2::new(0, 0), Point2::new(0, 1), Point2::new(1, 0)]), -1);
    assert_eq!(polyline_length(&square, false), 11_000_000);
    assert_eq!(polyline_length(&square, true), 14_000_000);
    assert_eq!(polyline_length(&[], true), 0);
    assert_eq!(polyline_length(&[p(0.0, 0.0), p(3.0, 4.0)], false), 5_000_000);
    assert_eq!(bounding_box(&[]), None);
    assert_eq!(
        bounding_box(&[p(1.0, 5.0), p(-2.0, 3.0), p(4.0, -1.0)]),
        Some((p(-2.0, -1.0), p(4.0, 5.0)))
    );
}

#[test]
fn points_and_vectors() {
    let a = p(0.0, 0.0);
    let b = p(3.0, 4.0);
    assert_eq!(a.distance(&b), 5_000_000);
    assert_eq!(Point2::new(0, 0).distance(&Point2::new(1, 1)), 1);
    assert_eq!(a.midpoint(&b), p(1.5, 2.0));
    assert_eq!(Point2::new(-1, 0).midpoint(&Point2::new(0, 0)), Point2::new(-1, 0));
    assert_eq!(b.minus(&a), Vec2::new(mm(3.0), mm(4.0)));
    assert_eq!(a.offset_by(Vec2::new(1, 2)), Point2::new(1, 2));
    let v = Vec2::new(mm(3.0), mm(4.0));
    assert_eq!(v.length(), 5_000_000);
    assert_eq!(v.normalize(), Vec2::new(600_000, 800_000));
    assert_eq!(Vec2::new(0, 0).normalize(), Vec2::new(0, 0));
    assert_eq!(Vec2::new(1, 1).normalize(), Vec2::new(707_107, 707_107));
    assert_eq!(v.scaled_to(mm(-10.0)), Vec2::new(mm(-6.0), mm(-8.0)));
    assert_eq!(v.dot(&Vec2::new(2, 1)), 10_000_000);
    assert_eq!(v.cross(&Vec2::new(2, 1)), -5_000_000);
    assert_eq!(v.perp_cw(), Vec2::new(mm(4.0), mm(-3.0)));
    assert_eq!(v.perp_ccw(), Vec2::new(mm(-4.0), mm(3.0)));
    assert_eq!(Vec3::new(2, 3, 6).length(), 7);
    assert_eq!(Point3::new(1, 2, 3).translate(Vec3::new(1, 1, 1)), Point3::new(2, 3, 4));
}

#[test]
fn lines_and_segments() {
    assert_eq!(
        lines_intersection(p(0.0, 0.0), p(10.0, 10.0), p(0.0, 10.0), p(10.0, 0.0)),
        Some(p(5.0, 5.0))
    );
    assert_eq!(lines_intersection(p(0.0, 0.0), p(10.0, 0.0), p(0.0, 1.0), p(10.0, 1.0)), None);
    assert_eq!(
        lines_intersection(p(0.0, 0.0), p(1.0, 0.0), p(5.0, 5.0), p(5.0, 6.0)),
        Some(p(5.0, 0.0))
    );
    assert!(segments_intersect(p(0.0, 0.0), p(10.0, 10.0), p(0.0, 10.0), p(10.0, 0.0)));
    assert!(!segments_intersect(p(0.0, 0.0), p(1.0, 1.0), p(5.0, 5.0), p(6.0, 5.0)));
    assert!(segments_intersect(p(0.0, 0.0), p(10.0, 0.0), p(5.0, 0.0), p(5.0, 5.0)));
    assert!(!polygon_self_intersections(&[p(0.0, 0.0), p(1.0, 0.0), p(1.0, 1.0), p(0.0, 1.0)]));
    assert!(!polygon_self_intersections(&[p(0.0, 0.0), p(1.0, 0.0), p(0.0, 0.0)]));
}

#[test]
fn integer_helpers() {
    assert_eq!(isqrt(0), 0);
    assert_eq!(isqrt(24), 4);
    assert_eq!(isqrt(25), 5);
    assert_eq!(isqrt(u128::MAX), u64::MAX);
    assert_eq!(div_round(7, 2), 4);
    assert_eq!(div_round(-7, 2), -4);
    assert_eq!(div_round(5, 3), 2);
    assert_eq!(div_round(4, 3), 1);
    assert_eq!(div_floor(-7, 2), -4);
    assert_eq!(div_floor(7, 2), 3);
    assert_eq!(div_floor(-8, 2), -4);
    assert_eq!(rem_wrap(-7, 5), 3);
    assert_eq!(rem_wrap(7, 5), 2);
    assert_eq!(rem_wrap(-10, 5), 0);
}

#[test]
fn a_clockwise_triangle_that_collapses_loses_its_orientation() {
    let cw = vec![p(0.0, 0.0), p(0.0, 6.0), p(8.0, 0.0)];
    assert_eq!(polygon_orientation(&cw), Orientation::Cw);
    let out = offset_polygon(&cw, mm(2.0), OffsetSide::Outside).unwrap();
    assert_eq!(out, vec![p(2.0, 2.0), p(2.0, 2.0), p(2.0, 2.0)]);
    assert_eq!(polygon_area(&out), 0);
    assert_eq!(polygon_orientation(&out), Orientation::Ccw);
}
