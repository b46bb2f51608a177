use camnest::geometry::Point2;
use camnest::linking::{LinkingSettings, RampStrategy};
use camnest::ops::{OperationSettings, PocketOperation, Tool};
use camnest::toolpath::ToolMotion;

fn mm(value: f64) -> i64 {
    (value * 1_000_000.0).round() as i64
}

fn rectangle(width: f64, height: f64) -> Vec<Point2> {
    vec![
        Point2::new(mm(0.0), mm(0.0)),
        Point2::new(mm(width), mm(0.0)),
        Point2::new(mm(width), mm(height)),
        Point2::new(mm(0.0), mm(height)),
    ]
}

#[test]
fn pocket_clears_inside_boundary() {
    let tool = Tool::new(mm(8.0), mm(900.0), mm(250.0), mm(14000.0)).unwrap();
    let mut linking = LinkingSettings::new(mm(8.0), mm(16.0), tool.plunge_rate);
    linking.ramp = RampStrategy::Plunge;
    let settings = OperationSettings::new(tool.clone(), linking);

    let op = PocketOperation::new(
        "rect",
        rectangle(60.0, 40.0),
        mm(0.0),
        mm(-6.0),
        mm(3.0),
        mm(4.0),
        settings,
    )
    .unwrap();

    let path = op.plan().unwrap();
    assert!(!path.motions.is_empty());

    let mut min_x = i64::MAX;
    let mut max_x = i64::MIN;
    let mut min_y = i64::MAX;
    let mut max_y = i64::MIN;

    for motion in &path.motions {
        if let ToolMotion::Feed { to, .. } = motion {
            if to.z < 0 {
                min_x = min_x.min(to.x);
                max_x = max_x.max(to.x);
                min_y = min_y.min(to.y);
                max_y = max_y.max(to.y);
            }
        }
    }

    let radius = tool.radius();
    assert!(min_x >= radius - 1);
    assert!(min_y >= radius - 1);
    assert!(max_x <= mm(60.0) - radius + 1);
    assert!(max_y <= mm(40.0) - radius + 1);
}

#[test]
fn pocket_respects_safe_height() {
    let tool = Tool::new(mm(10.0), mm(700.0), mm(220.0), mm(12000.0)).unwrap();
    let mut linking = LinkingSettings::new(mm(12.0), mm(20.0), tool.plunge_rate);
    linking.ramp = RampStrategy::Linear { length: mm(5.0) };
    let settings = OperationSettings::new(tool.clone(), linking);

    let op = PocketOperation::new(
        "safety",
        rectangle(50.0, 30.0),
        mm(0.0),
        mm(-5.0),
        mm(2.0),
        mm(4.0),
        settings,
    )
    .unwrap();

    let path = op.plan().unwrap();
    for motion in &path.motions {
        if let ToolMotion::Rapid { to } = motion {
            assert!(to.z >= path.safe_z - 1);
        }
    }
}

#[test]
fn pocket_loops_shrink_by_the_stepover() {
    let loops = camnest::ops::pocket::generate_loops(&rectangle(60.0, 40.0), mm(4.0), mm(4.0)).unwrap();
    // 52 x 32, 44 x 24, 36 x 16, 28 x 8; the next step would collapse to zero height
    assert_eq!(loops.len(), 4);
    assert_eq!(
        loops[0],
        vec![
            Point2::new(mm(4.0), mm(4.0)),
            Point2::new(mm(56.0), mm(4.0)),
            Point2::new(mm(56.0), mm(36.0)),
            Point2::new(mm(4.0), mm(36.0)),
        ]
    );
    assert_eq!(
        loops[3],
        vec![
            Point2::new(mm(16.0), mm(16.0)),
            Point2::new(mm(44.0), mm(16.0)),
            Point2::new(mm(44.0), mm(24.0)),
            Point2::new(mm(16.0), mm(24.0)),
        ]
    );
}

#[test]
fn pocket_too_small_for_tool() {
    let triangle = vec![Point2::new(0, 0), Point2::new(mm(8.0), 0), Point2::new(0, mm(6.0))];
    let err = camnest::ops::pocket::generate_loops(&triangle, mm(2.0), mm(1.0)).unwrap_err();
    assert_eq!(err.to_string(), "invalid input: pocket too small for tool");
    // a square that collapses into a point has edges that touch
    let err = camnest::ops::pocket::generate_loops(&rectangle(8.0, 8.0), mm(4.0), mm(4.0)).unwrap_err();
    assert_eq!(err.to_string(), "offset error: offset introduced self-intersection");
}

#[test]
fn pocket_rejects_bad_arguments() {
    let tool = Tool::new(mm(8.0), mm(900.0), mm(250.0), mm(14000.0)).unwrap();
    let linking = LinkingSettings::new(mm(8.0), mm(16.0), tool.plunge_rate);
    let settings = OperationSettings::new(tool, linking);
    let e = PocketOperation::new("p", vec![], 0, -1, 1, 1, settings);
    assert_eq!(
        e.unwrap_err().to_string(),
        "invalid argument: pocket boundary requires at least three points"
    );
    let e = PocketOperation::new("p", rectangle(9.0, 9.0), 0, 0, 1, 1, settings);
    assert_eq!(e.unwrap_err().to_string(), "invalid argument: target Z must be below top Z");
    let e = PocketOperation::new("p", rectangle(9.0, 9.0), 0, -1, 0, 1, settings);
    assert_eq!(e.unwrap_err().to_string(), "invalid argument: stepdown must be positive");
    let e = PocketOperation::new("p", rectangle(9.0, 9.0), 0, -1, 1, 0, settings);
    assert_eq!(e.unwrap_err().to_string(), "invalid argument: stepover must be positive");
    let e = PocketOperation::new("p", rectangle(9.0, 9.0), 0, -1, 1, mm(8.0) + 1, settings);
    assert_eq!(e.unwrap_err().to_string(), "invalid argument: stepover must be <= tool diameter");
}
