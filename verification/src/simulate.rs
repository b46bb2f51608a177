//! Screening of toolpaths against the safe height and the lowest allowed
//! height.
use vstd::prelude::*;
use crate::error::CamResult;
use crate::geometry::Point3;
use crate::toolpath::{last_position_of, ToolMotion, Toolpath};
use crate::units::POSITION_EPS;

verus! {

#[derive(Debug, Clone, Copy, PartialEq, Eq, Structural)]
pub struct SimulationSettings {
    /// The height at and above which rapids are safe.
    pub safe_z: i64,
    /// The lowest height that the tool may reach.
    pub min_z: i64,
}

impl SimulationSettings {
    pub fn new(safe_z: i64, min_z: i64) -> (s: Self)
        ensures
            s == (SimulationSettings { safe_z, min_z }),
    {
        SimulationSettings { safe_z, min_z }
    }
}

#[derive(Debug, Clone, Copy, PartialEq, Eq, Structural)]
pub enum CollisionReason {
    RapidBelowSafe,
    BelowMinimumZ,
}

#[derive(Debug, Clone, Copy, PartialEq, Eq, Structural)]
pub struct Collision {
    pub motion_index: usize,
    pub position: Point3,
    pub reason: CollisionReason,
}

#[derive(Debug, Clone)]
pub struct SimulationReport {
    pub collisions: Vec<Collision>,
}

impl SimulationReport {
    /// Whether the toolpath is free of collisions.
    pub fn is_ok(&self) -> (b: bool)
        ensures
            b == (self.collisions@.len() == 0),
    {
        self.collisions.len() == 0
    }
}

impl Default for SimulationReport {
    fn default() -> (r: Self)
        ensures
            r.collisions@ == Seq::<Collision>::empty(),
    {
        SimulationReport { collisions: Vec::new() }
    }
}

/// Whether height `z` lies below `limit` by more than the position
/// tolerance.
pub open spec fn below(z: i64, limit: i64) -> bool {
    z + POSITION_EPS < limit
}

/// Where the tool stands before motion `index`: at the end of the last
/// motion before it that is not a dwell, or above the origin at the safe
/// height.
pub open spec fn position_before(motions: Seq<ToolMotion>, index: int, safe_z: i64) -> Point3 {
    match last_position_of(motions.subrange(0, index)) {
        Some(p) => p,
        None => Point3 { x: 0, y: 0, z: safe_z },
    }
}

/// The index of the motion before `index`; zero for the first.
pub open spec fn prior_index(index: int) -> usize {
    if index > 0 {
        (index - 1) as usize
    } else {
        0
    }
}

/// The collisions of one motion: a rapid that ends below the safe height; a
/// feed that ends below the lowest height; and, at the motion before it, a
/// feed that begins below the lowest height.
pub open spec fn motion_collisions(
    motion: ToolMotion,
    index: int,
    position: Point3,
    settings: SimulationSettings,
) -> Seq<Collision> {
    match motion {
        ToolMotion::Rapid { to } => if below(to.z, settings.safe_z) {
            seq![
                Collision {
                    motion_index: index as usize,
                    position: to,
                    reason: CollisionReason::RapidBelowSafe,
                },
            ]
        } else {
            Seq::empty()
        },
        ToolMotion::Feed { to, .. } => {
            let end = if below(to.z, settings.min_z) {
                seq![
                    Collision {
                        motion_index: index as usize,
                        position: to,
                        reason: CollisionReason::BelowMinimumZ,
                    },
                ]
            } else {
                Seq::empty()
            };
            let start = if below(position.z, settings.min_z) {
                seq![
                    Collision {
                        motion_index: prior_index(index),
                        position,
                        reason: CollisionReason::BelowMinimumZ,
                    },
                ]
            } else {
                Seq::empty()
            };
            end + start
        },
        ToolMotion::Dwell { .. } => Seq::empty(),
    }
}

/// The collisions of the first `k` motions, in order.
pub open spec fn collisions_of(motions: Seq<ToolMotion>, k: int, settings: SimulationSettings) -> Seq<
    Collision,
>
    decreases k,
{
    if k <= 0 {
        Seq::empty()
    } else {
        collisions_of(motions, k - 1, settings) + motion_collisions(
            motions[k - 1],
            k - 1,
            position_before(motions, k - 1, settings.safe_z),
            settings,
        )
    }
}

fn is_below(z: i64, limit: i64) -> (b: bool)
    ensures
        b == below(z, limit),
{
    (z as i128) + (POSITION_EPS as i128) < limit as i128
}

/// Walks the toolpath from above the origin at the safe height and reports
/// every rapid that ends below the safe height and every feed that ends or
/// begins below the lowest height. It never fails: every toolpath, the
/// empty one too, gets its report.
pub fn simulate(toolpath: &Toolpath, settings: SimulationSettings) -> (r: CamResult<
    SimulationReport,
>)
    ensures
        r matches Ok(report) && report.collisions@ == collisions_of(
            toolpath.motions@,
            toolpath.motions@.len() as int,
            settings,
        ),
{
    let mut report = SimulationReport { collisions: Vec::new() };
    let mut position = Point3 { x: 0, y: 0, z: settings.safe_z };
    let mut index: usize = 0;
    let n = toolpath.motions.len();
    assert(toolpath.motions@.subrange(0, 0) =~= Seq::<ToolMotion>::empty());
    while index < n
        invariant
            n == toolpath.motions@.len(),
            index <= n,
            position == position_before(toolpath.motions@, index as int, settings.safe_z),
            report.collisions@ == collisions_of(toolpath.motions@, index as int, settings),
        decreases n - index,
    {
        let motion = toolpath.motions[index];
        let ghost found = report.collisions@;
        let ghost upto = toolpath.motions@.subrange(0, index + 1);
        assert(upto.last() == motion);
        assert(upto.drop_last() =~= toolpath.motions@.subrange(0, index as int));
        match motion {
            ToolMotion::Rapid { to } => {
                if is_below(to.z, settings.safe_z) {
                    report.collisions.push(
                        Collision {
                            motion_index: index,
                            position: to,
                            reason: CollisionReason::RapidBelowSafe,
                        },
                    );
                }
                position = to;
            },
            ToolMotion::Feed { to, .. } => {
                if is_below(to.z, settings.min_z) {
                    report.collisions.push(
                        Collision {
                            motion_index: index,
                            position: to,
                            reason: CollisionReason::BelowMinimumZ,
                        },
                    );
                }
                if is_below(position.z, settings.min_z) {
                    report.collisions.push(
                        Collision {
                            motion_index: if index > 0 {
                                index - 1
                            } else {
                                0
                            },
                            position,
                            reason: CollisionReason::BelowMinimumZ,
                        },
                    );
                }
                position = to;
            },
            ToolMotion::Dwell { .. } => {},
        }
        assert(report.collisions@ =~= found + motion_collisions(
            motion,
            index as int,
            position_before(toolpath.motions@, index as int, settings.safe_z),
            settings,
        ));
        index = index + 1;
    }
    Ok(report)
}

} // verus!
