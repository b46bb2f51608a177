use camnest::geometry::{Point2, Point3};
use camnest::linking::{
    apply_linear_leads, entry_moves, exit_moves, rapid_to_safe, LeadStrategy, LinkingSettings,
    RampStrategy,
};
use camnest::tabs::{depth_with_tabs, Tab};
use camnest::toolpath::{ToolMotion, ToolState, Toolpath};

fn mm(value: f64) -> i64 {
    (value * 1_000_000.0).round() as i64
}

#[test]
fn last_position_skips_dwells() {
    let mut path = Toolpath::new("t", mm(5.0));
    assert!(path.is_empty());
    assert_eq!(path.last_position(), None);
    path.push(ToolMotion::Dwell { seconds: 1 });
    assert_eq!(path.last_position(), None);
    path.push(ToolMotion::Rapid { to: Point3::new(1, 2, 3) });
    path.push(ToolMotion::Dwell { seconds: 1 });
    assert_eq!(path.last_position(), Some(Point3::new(1, 2, 3)));
    assert_eq!(path.len(), 3);
    assert_eq!(path.get(1), Some(ToolMotion::Rapid { to: Point3::new(1, 2, 3) }));
    assert_eq!(path.get(3), None);
    assert_eq!(ToolMotion::Dwell { seconds: 1 }.end_position(), Point3::new(0, 0, 0));
    assert_eq!(
        ToolMotion::Feed { to: Point3::new(1, 2, 3), feed: 4 }.end_position(),
        Point3::new(1, 2, 3)
    );
    assert_eq!(ToolState::new(1, 2), ToolState { feed: 1, spindle_rpm: 2 });
}

#[test]
fn total_length_sums_the_moves() {
    let mut path = Toolpath::new("t", mm(5.0));
    assert_eq!(path.total_length(), 0);
    path.push(ToolMotion::Rapid { to: Point3::new(0, 0, mm(5.0)) });
    assert_eq!(path.total_length(), 0);
    path.push(ToolMotion::Feed { to: Point3::new(0, 0, mm(-1.0)), feed: 1 });
    path.push(ToolMotion::Dwell { seconds: 1 });
    path.push(ToolMotion::Feed { to: Point3::new(mm(3.0), mm(4.0), mm(-1.0)), feed: 1 });
    path.push(ToolMotion::Rapid { to: Point3::new(mm(5.0), mm(7.0), mm(5.0)) });
    assert_eq!(path.total_length(), mm(6.0) as i128 + mm(5.0) as i128 + mm(7.0) as i128);
}

#[test]
fn leads_extend_the_polyline() {
    let line = vec![Point2::new(0, 0), Point2::new(mm(10.0), 0), Point2::new(mm(10.0), mm(10.0))];
    let lead = LeadStrategy::Linear { length: mm(4.0) };
    let both = apply_linear_leads(&line, lead, lead);
    assert_eq!(
        both,
        vec![
            Point2::new(mm(-4.0), 0),
            Point2::new(0, 0),
            Point2::new(mm(10.0), 0),
            Point2::new(mm(10.0), mm(10.0)),
            Point2::new(mm(10.0), mm(14.0)),
        ]
    );
    assert_eq!(apply_linear_leads(&line, LeadStrategy::NoLead, LeadStrategy::NoLead), line);
    let tiny = LeadStrategy::Linear { length: 1 };
    assert_eq!(apply_linear_leads(&line, tiny, tiny), line);
    assert_eq!(apply_linear_leads(&line[..1], lead, lead), line[..1].to_vec());
}

#[test]
fn rapids_lift_before_they_travel() {
    let settings = LinkingSettings::new(mm(5.0), mm(10.0), mm(100.0));
    let mut path = Toolpath::new("t", mm(5.0));
    rapid_to_safe(&mut path, Point2::new(1, 2), &settings);
    assert_eq!(path.motions, vec![ToolMotion::Rapid { to: Point3::new(1, 2, mm(5.0)) }]);
    path.push(ToolMotion::Feed { to: Point3::new(1, 2, mm(-3.0)), feed: 1 });
    rapid_to_safe(&mut path, Point2::new(7, 8), &settings);
    assert_eq!(
        path.motions[2..],
        [
            ToolMotion::Rapid { to: Point3::new(1, 2, mm(5.0)) },
            ToolMotion::Rapid { to: Point3::new(7, 8, mm(5.0)) },
        ]
    );
    // one micro-unit off the safe height counts as on it
    path.push(ToolMotion::Feed { to: Point3::new(7, 8, mm(5.0) + 1), feed: 1 });
    rapid_to_safe(&mut path, Point2::new(9, 9), &settings);
    assert_eq!(path.motions.len(), 6);
    exit_moves(&mut path, Point2::new(3, 3), &settings);
    assert_eq!(
        path.motions[6],
        ToolMotion::Feed { to: Point3::new(3, 3, mm(5.0)), feed: mm(100.0) }
    );
}

#[test]
fn entries_by_ramp() {
    let mut settings = LinkingSettings::new(mm(5.0), mm(10.0), mm(100.0));
    let start = Point2::new(0, 0);
    let next = Point2::new(mm(10.0), 0);
    let mut path = Toolpath::new("t", mm(5.0));
    assert_eq!(entry_moves(&mut path, start, Some(next), mm(-2.0), mm(500.0), &settings), 0);
    assert_eq!(
        path.motions,
        vec![
            ToolMotion::Rapid { to: Point3::new(0, 0, mm(5.0)) },
            ToolMotion::Feed { to: Point3::new(0, 0, mm(-2.0)), feed: mm(100.0) },
        ]
    );
    settings.ramp = RampStrategy::Linear { length: mm(3.0) };
    let mut path = Toolpath::new("t", mm(5.0));
    assert_eq!(entry_moves(&mut path, start, Some(next), mm(-2.0), mm(500.0), &settings), 1);
    assert_eq!(
        path.motions[1],
        ToolMotion::Feed { to: Point3::new(mm(10.0), 0, mm(-2.0)), feed: mm(100.0) }
    );
    let mut path = Toolpath::new("t", mm(5.0));
    assert_eq!(entry_moves(&mut path, start, None, mm(-2.0), mm(500.0), &settings), 0);
    assert_eq!(
        path.motions[1],
        ToolMotion::Feed { to: Point3::new(0, 0, mm(-2.0)), feed: mm(100.0) }
    );
    settings.ramp = RampStrategy::Helical { radius: mm(1.0), revolutions: 2 };
    let mut path = Toolpath::new("t", mm(5.0));
    assert_eq!(entry_moves(&mut path, start, Some(next), mm(-2.0), mm(500.0), &settings), 0);
    assert_eq!(path.motions.len(), 1 + 73 + 1);
    assert_eq!(path.motions[0], ToolMotion::Rapid { to: Point3::new(mm(1.0), 0, mm(5.0)) });
    // half way: one full turn, half the descent
    assert_eq!(
        path.motions[37],
        ToolMotion::Feed { to: Point3::new(mm(1.0), 0, mm(1.5)), feed: mm(100.0) }
    );
    // a half turn
    assert_eq!(
        path.motions[19],
        ToolMotion::Feed { to: Point3::new(mm(-1.0), 0, mm(3.25)), feed: mm(100.0) }
    );
    assert_eq!(
        path.motions[74],
        ToolMotion::Feed { to: Point3::new(0, 0, mm(-2.0)), feed: mm(500.0) }
    );
}

#[test]
fn tabs_raise_the_cut() {
    let tabs = vec![Tab::new(mm(0.25), mm(6.0), mm(1.2)), Tab::new(mm(0.0), mm(4.0), mm(20.0))];
    let length = mm(100.0) as i128;
    let depth = mm(-8.0);
    // the first tab covers 22..28
    assert_eq!(depth_with_tabs(mm(25.0) as i128, length, depth, &tabs), mm(-6.8));
    assert_eq!(depth_with_tabs(mm(22.0) as i128, length, depth, &tabs), mm(-6.8));
    assert_eq!(depth_with_tabs(mm(22.0) as i128 - 1, length, depth, &tabs), mm(-6.8));
    assert_eq!(depth_with_tabs(mm(22.0) as i128 - 2, length, depth, &tabs), depth);
    assert_eq!(depth_with_tabs(mm(28.0) as i128 + 1, length, depth, &tabs), mm(-6.8));
    assert_eq!(depth_with_tabs(mm(28.0) as i128 + 2, length, depth, &tabs), depth);
    assert_eq!(depth_with_tabs(mm(125.0) as i128, length, depth, &tabs), mm(-6.8));
    assert_eq!(depth_with_tabs(mm(-75.0) as i128, length, depth, &tabs), mm(-6.8));
    // the second wraps round the origin, 98..2, and is capped at zero
    assert_eq!(depth_with_tabs(mm(99.0) as i128, length, depth, &tabs), 0);
    assert_eq!(depth_with_tabs(mm(1.0) as i128, length, depth, &tabs), 0);
    assert_eq!(depth_with_tabs(mm(50.0) as i128, length, depth, &tabs), depth);
    assert_eq!(depth_with_tabs(mm(25.0) as i128, 1, depth, &tabs), depth);
    assert_eq!(depth_with_tabs(mm(25.0) as i128, length, depth, &[]), depth);
}

#[test]
fn toolpath_listing() {
    let mut path = Toolpath::new("demo", mm(5.0));
    path.push(ToolMotion::Rapid { to: Point3::new(0, 0, mm(5.0)) });
    path.push(ToolMotion::Feed { to: Point3::new(mm(1.5), mm(-2.25), mm(-1.0005)), feed: mm(600.0) });
    path.push(ToolMotion::Dwell { seconds: mm(0.25) });
    path.push(ToolMotion::Rapid { to: Point3::new(-400, mm(12.3456), mm(-0.0015)) });
    assert_eq!(
        path.to_string(),
        "Toolpath: demo (safe Z = 5.000)\n  RAPID -> X0.000 Y0.000 Z5.000\n  FEED  -> X1.500 Y-2.250 Z-1.000 F600.0\n  DWELL 0.250s\n  RAPID -> X-0.000 Y12.346 Z-0.002\n"
    );
    let walked: Vec<ToolMotion> = path.iter().copied().collect();
    assert_eq!(walked, path.motions);
}
