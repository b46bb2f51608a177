use camnest::geometry::Point3;
use camnest::simulate::{simulate, Collision, CollisionReason, SimulationSettings};
use camnest::toolpath::{ToolMotion, Toolpath};

fn mm(value: f64) -> i64 {
    (value * 1_000_000.0).round() as i64
}

#[test]
fn simulator_flags_rapid_below_safe() {
    let mut path = Toolpath::new("safety", mm(5.0));
    path.push(ToolMotion::Rapid { to: Point3::new(mm(0.0), mm(0.0), mm(4.0)) });
    let report = simulate(&path, SimulationSettings::new(mm(5.0), mm(-10.0))).unwrap();
    assert!(!report.is_ok());
    assert_eq!(report.collisions[0].reason, CollisionReason::RapidBelowSafe);
    assert_eq!(report.collisions.len(), 1);
}

#[test]
fn simulator_detects_depth_violations() {
    let mut path = Toolpath::new("depth", mm(6.0));
    path.push(ToolMotion::Rapid { to: Point3::new(mm(0.0), mm(0.0), mm(6.0)) });
    path.push(ToolMotion::Feed { to: Point3::new(mm(0.0), mm(0.0), mm(-12.0)), feed: mm(400.0) });

    let report = simulate(&path, SimulationSettings::new(mm(6.0), mm(-10.0))).unwrap();
    assert!(!report.is_ok());
    assert_eq!(report.collisions[0].reason, CollisionReason::BelowMinimumZ);
}

#[test]
fn simulator_accepts_safe_toolpath() {
    let mut path = Toolpath::new("ok", mm(8.0));
    path.push(ToolMotion::Rapid { to: Point3::new(mm(0.0), mm(0.0), mm(8.0)) });
    path.push(ToolMotion::Feed { to: Point3::new(mm(0.0), mm(0.0), mm(-3.0)), feed: mm(500.0) });
    path.push(ToolMotion::Rapid { to: Point3::new(mm(0.0), mm(0.0), mm(8.0)) });

    let report = simulate(&path, SimulationSettings::new(mm(8.0), mm(-5.0))).unwrap();
    assert!(report.is_ok(), "collisions: {:?}", report.collisions);
}

#[test]
fn simulator_reports_feeds_that_begin_too_low() {
    let low = Point3::new(0, 0, mm(-12.0));
    let up = Point3::new(0, 0, mm(1.0));
    let mut path = Toolpath::new("deep", mm(6.0));
    path.push(ToolMotion::Feed { to: low, feed: mm(400.0) });
    path.push(ToolMotion::Dwell { seconds: mm(1.0) });
    path.push(ToolMotion::Feed { to: up, feed: mm(400.0) });
    path.push(ToolMotion::Rapid { to: up });
    let report = simulate(&path, SimulationSettings::new(mm(6.0), mm(-10.0))).unwrap();
    assert_eq!(
        report.collisions,
        vec![
            Collision { motion_index: 0, position: low, reason: CollisionReason::BelowMinimumZ },
            Collision { motion_index: 1, position: low, reason: CollisionReason::BelowMinimumZ },
            Collision { motion_index: 3, position: up, reason: CollisionReason::RapidBelowSafe },
        ]
    );
}

#[test]
fn simulator_tolerates_one_micro_unit() {
    let mut path = Toolpath::new("edge", mm(5.0));
    path.push(ToolMotion::Rapid { to: Point3::new(0, 0, mm(5.0) - 1) });
    path.push(ToolMotion::Feed { to: Point3::new(0, 0, mm(-10.0) - 1), feed: 1 });
    assert!(simulate(&path, SimulationSettings::new(mm(5.0), mm(-10.0))).unwrap().is_ok());
    let mut path = Toolpath::new("edge", mm(5.0));
    path.push(ToolMotion::Rapid { to: Point3::new(0, 0, mm(5.0) - 2) });
    assert!(!simulate(&path, SimulationSettings::new(mm(5.0), mm(-10.0))).unwrap().is_ok());
}

#[test]
fn simulator_reports_on_an_empty_toolpath() {
    let path = Toolpath::new("e", mm(5.0));
    let report = simulate(&path, SimulationSettings::new(mm(5.0), mm(-10.0))).unwrap();
    assert!(report.is_ok());
    assert!(report.collisions.is_empty());
}
