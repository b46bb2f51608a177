use camnest::geometry::{Point2, Point3};
use camnest::linking::LinkingSettings;
use camnest::ops::{DrillCycle, DrillOperation, OperationSettings, Tool};
use camnest::toolpath::ToolMotion;

fn mm(value: f64) -> i64 {
    (value * 1_000_000.0).round() as i64
}

#[test]
fn drill_peck_cycle_respects_retracts() {
    let tool = Tool::new(mm(5.0), mm(400.0), mm(180.0), mm(9000.0)).unwrap();
    let linking = LinkingSettings::new(mm(6.0), mm(10.0), tool.plunge_rate);
    let settings = OperationSettings::new(tool.clone(), linking);

    let op = DrillOperation::new(
        "holes",
        vec![Point2::new(mm(0.0), mm(0.0))],
        mm(0.0),
        mm(-10.0),
        mm(2.0),
        Some(mm(0.25)),
        DrillCycle::Peck { peck_depth: mm(3.0) },
        settings,
    )
    .unwrap();

    let path = op.plan().unwrap();

    // Expect alternating feed to depth and retract
    let feeds: Vec<_> = path
        .motions
        .iter()
        .filter_map(|m| match m {
            ToolMotion::Feed { to, .. } => Some(to.z),
            _ => None,
        })
        .collect();

    assert_eq!(feeds.first().copied().unwrap(), mm(-3.0));
    assert!(feeds.contains(&mm(-10.0)));
    assert!(feeds.iter().any(|z| *z == mm(2.0)));
}

#[test]
fn drill_simple_cycle_single_pass() {
    let tool = Tool::new(mm(6.0), mm(500.0), mm(150.0), mm(8000.0)).unwrap();
    let linking = LinkingSettings::new(mm(5.0), mm(8.0), tool.plunge_rate);
    let settings = OperationSettings::new(tool.clone(), linking);

    let op = DrillOperation::new(
        "single",
        vec![Point2::new(mm(5.0), mm(5.0))],
        mm(1.0),
        mm(-4.0),
        mm(2.0),
        None,
        DrillCycle::Simple,
        settings,
    )
    .unwrap();

    let path = op.plan().unwrap();

    let mut hits_target = false;
    let mut retracts_above_surface = true;
    for motion in &path.motions {
        match motion {
            ToolMotion::Feed { to, .. } => {
                if to.z == mm(-4.0) {
                    hits_target = true;
                }
                if to.z < mm(1.0) - 1 && to.z > 0 {
                    retracts_above_surface = false;
                }
            }
            ToolMotion::Rapid { to } => {
                assert!(to.z >= path.safe_z - 1);
            }
            _ => {}
        }
    }

    assert!(hits_target);
    assert!(retracts_above_surface);
}

#[test]
fn peck_drill_sequence_is_exact() {
    let tool = Tool::new(mm(5.0), mm(400.0), mm(180.0), mm(9000.0)).unwrap();
    let linking = LinkingSettings::new(mm(6.0), mm(10.0), tool.plunge_rate);
    let settings = OperationSettings::new(tool, linking);
    let op = DrillOperation::new(
        "holes",
        vec![Point2::new(0, 0)],
        mm(0.0),
        mm(-10.0),
        mm(2.0),
        Some(mm(0.25)),
        DrillCycle::Peck { peck_depth: mm(3.0) },
        settings,
    )
    .unwrap();
    let path = op.plan().unwrap();
    let feed = |z: f64| ToolMotion::Feed { to: Point3::new(0, 0, mm(z)), feed: mm(180.0) };
    let dwell = ToolMotion::Dwell { seconds: mm(0.25) };
    let expected = vec![
        ToolMotion::Rapid { to: Point3::new(0, 0, mm(6.0)) },
        feed(-3.0),
        dwell,
        feed(2.0),
        feed(-6.0),
        dwell,
        feed(2.0),
        feed(-9.0),
        dwell,
        feed(2.0),
        feed(-10.0),
        dwell,
        feed(2.0),
    ];
    assert_eq!(path.motions, expected);
}

#[test]
fn second_hole_starts_with_a_lift() {
    let tool = Tool::new(mm(5.0), mm(400.0), mm(180.0), mm(9000.0)).unwrap();
    let linking = LinkingSettings::new(mm(6.0), mm(10.0), tool.plunge_rate);
    let settings = OperationSettings::new(tool, linking);
    let op = DrillOperation::new(
        "two",
        vec![Point2::new(0, 0), Point2::new(mm(10.0), 0)],
        mm(0.0),
        mm(-1.0),
        mm(2.0),
        None,
        DrillCycle::Simple,
        settings,
    )
    .unwrap();
    let path = op.plan().unwrap();
    let expected = vec![
        ToolMotion::Rapid { to: Point3::new(0, 0, mm(6.0)) },
        ToolMotion::Feed { to: Point3::new(0, 0, mm(-1.0)), feed: mm(180.0) },
        ToolMotion::Feed { to: Point3::new(0, 0, mm(2.0)), feed: mm(180.0) },
        ToolMotion::Rapid { to: Point3::new(0, 0, mm(6.0)) },
        ToolMotion::Rapid { to: Point3::new(mm(10.0), 0, mm(6.0)) },
        ToolMotion::Feed { to: Point3::new(mm(10.0), 0, mm(-1.0)), feed: mm(180.0) },
        ToolMotion::Feed { to: Point3::new(mm(10.0), 0, mm(2.0)), feed: mm(180.0) },
    ];
    assert_eq!(path.motions, expected);
}

#[test]
fn drill_rejects_bad_arguments() {
    let tool = Tool::new(mm(5.0), mm(400.0), mm(180.0), mm(9000.0)).unwrap();
    let linking = LinkingSettings::new(mm(6.0), mm(10.0), tool.plunge_rate);
    let settings = OperationSettings::new(tool, linking);
    let one = || vec![Point2::new(0, 0)];
    let e = DrillOperation::new("d", vec![], 0, -1, 0, None, DrillCycle::Simple, settings);
    assert_eq!(
        e.unwrap_err().to_string(),
        "invalid argument: drill operation needs at least one point"
    );
    let e = DrillOperation::new("d", one(), 0, 0, 0, None, DrillCycle::Simple, settings);
    assert_eq!(e.unwrap_err().to_string(), "invalid argument: target Z must be below the surface");
    let e = DrillOperation::new("d", one(), 0, -1, -1, None, DrillCycle::Simple, settings);
    assert_eq!(e.unwrap_err().to_string(), "invalid argument: retract height must be above surface");
    let e =
        DrillOperation::new("d", one(), 0, -1, 0, None, DrillCycle::Peck { peck_depth: 0 }, settings);
    assert_eq!(e.unwrap_err().to_string(), "invalid argument: peck depth must be positive");
}
