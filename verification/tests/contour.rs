use camnest::geometry::{Point2, Point3};
use camnest::linking::{LeadStrategy, LinkingSettings, RampStrategy};
use camnest::ops::{ContourOperation, ContourSide, OperationSettings, Tool};
use camnest::tabs::Tab;
use camnest::toolpath::ToolMotion;

/// Millimetres (or any other base unit) as micro-units.
fn mm(value: f64) -> i64 {
    (value * 1_000_000.0).round() as i64
}

fn from_units(value: i64) -> f64 {
    value as f64 / 1_000_000.0
}

fn square(size: f64) -> Vec<Point2> {
    vec![
        Point2::new(mm(0.0), mm(0.0)),
        Point2::new(mm(size), mm(0.0)),
        Point2::new(mm(size), mm(size)),
        Point2::new(mm(0.0), mm(size)),
    ]
}

fn feed_xy_length(motions: &[ToolMotion]) -> f64 {
    let mut last: Option<Point3> = None;
    let mut length = 0.0;
    for motion in motions {
        if let ToolMotion::Feed { to, .. } = motion {
            if let Some(prev) = last {
                let dx = from_units(to.x) - from_units(prev.x);
                let dy = from_units(to.y) - from_units(prev.y);
                length += (dx * dx + dy * dy).sqrt();
            }
            last = Some(*to);
        }
    }
    length
}

#[test]
fn contour_outside_perimeter_matches_offset() {
    let tool = Tool::new(mm(10.0), mm(800.0), mm(200.0), mm(12000.0)).unwrap();
    let mut linking = LinkingSettings::new(mm(5.0), mm(10.0), tool.plunge_rate);
    linking.ramp = RampStrategy::Plunge;
    let settings = OperationSettings::new(tool.clone(), linking);

    let op = ContourOperation::new(
        "square",
        square(40.0),
        ContourSide::Outside,
        mm(0.0),
        mm(-5.0),
        mm(5.0),
        settings,
        vec![],
    )
    .unwrap();

    let path = op.plan().unwrap();

    let length = feed_xy_length(&path.motions);
    assert!((length - 200.0).abs() < 1e-4, "length={length}");
}

#[test]
fn contour_tabs_leave_material() {
    let tool = Tool::new(mm(6.0), mm(600.0), mm(180.0), mm(10000.0)).unwrap();
    let mut linking = LinkingSettings::new(mm(6.0), mm(12.0), tool.plunge_rate);
    linking.lead_in = LeadStrategy::Linear { length: mm(4.0) };
    linking.lead_out = LeadStrategy::Linear { length: mm(4.0) };
    linking.ramp = RampStrategy::Linear { length: mm(6.0) };
    let settings = OperationSettings::new(tool.clone(), linking);

    let tabs = vec![
        Tab::new(mm(0.25), mm(6.0), mm(1.2)),
        Tab::new(mm(0.75), mm(6.0), mm(1.2)),
    ];

    let op = ContourOperation::new(
        "panel",
        square(80.0),
        ContourSide::Inside,
        mm(0.0),
        mm(-8.0),
        mm(2.5),
        settings,
        tabs,
    )
    .unwrap();

    let a = op.plan().unwrap();
    let b = op.plan().unwrap();
    assert_eq!(a.motions, b.motions, "deterministic planning");

    let mut min_z = 0.0;
    let mut max_z = f64::NEG_INFINITY;
    for motion in &a.motions {
        if let ToolMotion::Feed { to, .. } = motion {
            let z = from_units(to.z);
            if z <= 0.0 {
                if z < min_z {
                    min_z = z;
                }
                if z > max_z {
                    max_z = z;
                }
            }
        }
    }
    assert!((min_z - -8.0).abs() < 1e-6);
    // Tabs should raise the cut slightly above final depth
    assert!(max_z > -7.0 && max_z < 0.1);
}

#[test]
fn contour_square_offsets_to_exact_corners() {
    let tool = Tool::new(mm(10.0), mm(800.0), mm(200.0), mm(12000.0)).unwrap();
    let linking = LinkingSettings::new(mm(5.0), mm(10.0), tool.plunge_rate);
    let settings = OperationSettings::new(tool, linking);
    let op = ContourOperation::new(
        "square",
        square(40.0),
        ContourSide::Outside,
        mm(0.0),
        mm(-5.0),
        mm(5.0),
        settings,
        vec![],
    )
    .unwrap();
    let path = op.plan().unwrap();
    assert_eq!(path.name, "square");
    assert_eq!(path.safe_z, mm(5.0));
    let expected = vec![
        ToolMotion::Rapid { to: Point3::new(mm(-5.0), mm(-5.0), mm(5.0)) },
        ToolMotion::Feed { to: Point3::new(mm(-5.0), mm(-5.0), mm(-5.0)), feed: mm(200.0) },
        ToolMotion::Feed { to: Point3::new(mm(45.0), mm(-5.0), mm(-5.0)), feed: mm(800.0) },
        ToolMotion::Feed { to: Point3::new(mm(45.0), mm(45.0), mm(-5.0)), feed: mm(800.0) },
        ToolMotion::Feed { to: Point3::new(mm(-5.0), mm(45.0), mm(-5.0)), feed: mm(800.0) },
        ToolMotion::Feed { to: Point3::new(mm(-5.0), mm(-5.0), mm(-5.0)), feed: mm(800.0) },
        ToolMotion::Feed { to: Point3::new(mm(-5.0), mm(-5.0), mm(5.0)), feed: mm(200.0) },
    ];
    assert_eq!(path.motions, expected);
}

#[test]
fn contour_steps_down_to_the_target() {
    let tool = Tool::new(mm(6.0), mm(600.0), mm(180.0), mm(10000.0)).unwrap();
    let linking = LinkingSettings::new(mm(6.0), mm(12.0), tool.plunge_rate);
    let settings = OperationSettings::new(tool, linking);
    let op = ContourOperation::new(
        "steps",
        square(80.0),
        ContourSide::Inside,
        mm(0.0),
        mm(-8.0),
        mm(2.5),
        settings,
        vec![],
    )
    .unwrap();
    let path = op.plan().unwrap();
    let plunges: Vec<i64> = path
        .motions
        .iter()
        .filter_map(|m| match m {
            ToolMotion::Feed { to, feed } if *feed == mm(180.0) && to.z < 0 => Some(to.z),
            _ => None,
        })
        .collect();
    assert_eq!(plunges, vec![mm(-2.5), mm(-5.0), mm(-7.5), mm(-8.0)]);
    for motion in &path.motions {
        match motion {
            ToolMotion::Rapid { to } => assert_eq!(to.z, mm(6.0)),
            ToolMotion::Feed { to, .. } => assert!(to.z >= mm(-8.0)),
            ToolMotion::Dwell { .. } => panic!("a contour has no dwell"),
        }
    }
}

#[test]
fn contour_rejects_bad_arguments() {
    let tool = Tool::new(mm(6.0), mm(600.0), mm(180.0), mm(10000.0)).unwrap();
    let linking = LinkingSettings::new(mm(6.0), mm(12.0), tool.plunge_rate);
    let settings = OperationSettings::new(tool, linking);
    let too_few = ContourOperation::new(
        "x",
        vec![Point2::new(0, 0), Point2::new(1, 0)],
        ContourSide::Inside,
        0,
        mm(-1.0),
        mm(1.0),
        settings,
        vec![],
    );
    assert_eq!(
        too_few.unwrap_err().to_string(),
        "invalid argument: contour boundary requires at least 3 points"
    );
    let no_step =
        ContourOperation::new("x", square(10.0), ContourSide::Inside, 0, mm(-1.0), 0, settings, vec![]);
    assert_eq!(no_step.unwrap_err().to_string(), "invalid argument: stepdown must be positive");
    let upside =
        ContourOperation::new("x", square(10.0), ContourSide::Inside, 0, 0, mm(1.0), settings, vec![]);
    assert_eq!(upside.unwrap_err().to_string(), "invalid argument: target Z must be below top Z");
    assert_eq!(
        Tool::new(0, 1, 1, 1).unwrap_err().to_string(),
        "invalid argument: tool diameter must be positive"
    );
    assert_eq!(
        Tool::new(1, 0, 1, 1).unwrap_err().to_string(),
        "invalid argument: feed rate must be positive"
    );
    assert_eq!(
        Tool::new(1, 1, 0, 1).unwrap_err().to_string(),
        "invalid argument: plunge rate must be positive"
    );
    assert_eq!(
        Tool::new(1, 1, 1, 0).unwrap_err().to_string(),
        "invalid argument: spindle RPM must be positive"
    );
}

#[test]
fn contour_passes_offset_errors_on() {
    let tool = Tool::new(mm(6.0), mm(600.0), mm(180.0), mm(10000.0)).unwrap();
    let linking = LinkingSettings::new(mm(6.0), mm(12.0), tool.plunge_rate);
    let settings = OperationSettings::new(tool, linking);
    let doubled = vec![
        Point2::new(mm(0.0), mm(0.0)),
        Point2::new(mm(10.0), mm(0.0)),
        Point2::new(mm(10.0), mm(0.0)),
        Point2::new(mm(0.0), mm(10.0)),
    ];
    let op = ContourOperation::new(
        "x",
        doubled,
        ContourSide::Inside,
        0,
        mm(-1.0),
        mm(1.0),
        settings,
        vec![],
    )
    .unwrap();
    assert_eq!(op.plan().unwrap_err().to_string(), "offset error: degenerate edge encountered");
    let mut far = settings;
    far.linking.lead_in = LeadStrategy::Linear { length: i64::MAX };
    let op = ContourOperation::new(
        "x",
        square(10.0),
        ContourSide::Outside,
        0,
        mm(-1.0),
        mm(1.0),
        far,
        vec![],
    )
    .unwrap();
    assert_eq!(op.plan().unwrap_err().to_string(), "invalid argument: lead length out of range");
    let mut wide = settings;
    wide.linking.ramp = RampStrategy::Helical { radius: i64::MAX, revolutions: 1 };
    let op = ContourOperation::new(
        "x",
        square(10.0),
        ContourSide::Outside,
        0,
        mm(-1.0),
        mm(1.0),
        wide,
        vec![],
    )
    .unwrap();
    assert_eq!(op.plan().unwrap_err().to_string(), "invalid argument: helical ramp out of range");
    let op = ContourOperation::new(
        "x",
        square(10.0),
        ContourSide::Outside,
        0,
        i64::MIN + 5,
        mm(1.0),
        settings,
        vec![Tab::new(0, 1, -10)],
    )
    .unwrap();
    assert_eq!(op.plan().unwrap_err().to_string(), "invalid argument: tab height out of range");
}

#[test]
fn helical_entry_spirals_down_to_the_target() {
    let tool = Tool::new(mm(6.0), mm(600.0), mm(180.0), mm(10000.0)).unwrap();
    let mut linking = LinkingSettings::new(mm(6.0), mm(12.0), tool.plunge_rate);
    linking.ramp = RampStrategy::Helical { radius: mm(2.0), revolutions: 0 };
    let settings = OperationSettings::new(tool, linking);
    let op = ContourOperation::new(
        "helix",
        square(80.0),
        ContourSide::Inside,
        mm(0.0),
        mm(-3.0),
        mm(3.0),
        settings,
        vec![],
    )
    .unwrap();
    let path = op.plan().unwrap();
    // rapid, 37 helix feeds, closing feed, 4 loop feeds, exit
    assert_eq!(path.motions.len(), 1 + 37 + 1 + 4 + 1);
    assert_eq!(path.motions[0], ToolMotion::Rapid { to: Point3::new(mm(5.0), mm(3.0), mm(6.0)) });
    assert_eq!(
        path.motions[1],
        ToolMotion::Feed { to: Point3::new(mm(5.0), mm(3.0), mm(6.0)), feed: mm(180.0) }
    );
    // a quarter turn: nine of thirty-six segments
    assert_eq!(
        path.motions[10],
        ToolMotion::Feed { to: Point3::new(mm(3.0), mm(5.0), mm(3.75)), feed: mm(180.0) }
    );
    // thirty degrees: cos = 0.866025404, sin = 0.5
    assert_eq!(
        path.motions[4],
        ToolMotion::Feed { to: Point3::new(3_000_000 + 1_732_051, mm(4.0), mm(5.25)), feed: mm(180.0) }
    );
    assert_eq!(
        path.motions[37],
        ToolMotion::Feed { to: Point3::new(mm(5.0), mm(3.0), mm(-3.0)), feed: mm(180.0) }
    );
    assert_eq!(
        path.motions[38],
        ToolMotion::Feed { to: Point3::new(mm(3.0), mm(3.0), mm(-3.0)), feed: mm(600.0) }
    );
}

#[test]
fn a_tab_above_a_raised_target_cuts_down_to_zero() {
    let tool = Tool::new(mm(6.0), mm(600.0), mm(180.0), mm(10000.0)).unwrap();
    let linking = LinkingSettings::new(mm(20.0), mm(25.0), tool.plunge_rate);
    let settings = OperationSettings::new(tool, linking);
    let op = ContourOperation::new(
        "raised",
        square(80.0),
        ContourSide::Inside,
        mm(10.0),
        mm(5.0),
        mm(5.0),
        settings,
        vec![Tab::new(mm(0.5), mm(400.0), mm(1.0))],
    )
    .unwrap();
    let path = op.plan().unwrap();
    let lowest = path
        .motions
        .iter()
        .filter_map(|m| match m {
            ToolMotion::Feed { to, .. } => Some(to.z),
            _ => None,
        })
        .min()
        .unwrap();
    // the top of a tab is never above zero, though the target is
    assert_eq!(lowest, 0);
}
