//! The drill operation: simple and peck drilling of a list of holes.
use vstd::prelude::*;
use crate::error::{CamError, CamResult};
use crate::geometry::{Point2, Point3};
use crate::linking::{rapid_to_safe, rapid_to_safe_moves};
use crate::ops::contour::next_depth;
use crate::ops::types::OperationSettings;
use crate::toolpath::{last_position_of, ToolMotion, Toolpath};

verus! {

#[derive(Debug, Clone, Copy, PartialEq, Eq, Structural)]
pub enum DrillCycle {
    /// One feed down to the target.
    Simple,
    /// Feeds down in steps of `peck_depth`, with a retract after each but
    /// the last.
    Peck { peck_depth: i64 },
}

#[derive(Debug, Clone)]
pub struct DrillOperation {
    pub name: String,
    pub points: Vec<Point2>,
    pub top_z: i64,
    pub target_z: i64,
    pub retract_z: i64,
    pub dwell: Option<i64>,
    pub cycle: DrillCycle,
    pub settings: OperationSettings,
}

/// What every hole of a drill operation shares.
pub struct DrillJob {
    pub top_z: i64,
    pub target_z: i64,
    pub retract_z: i64,
    pub dwell: Option<i64>,
    pub cycle: DrillCycle,
    /// The feed rate of every feed: the tool's plunge rate.
    pub rate: i64,
    pub safe_z: i64,
}

/// The feed at `point` to height `z`.
pub open spec fn drill_feed(point: Point2, z: i64, rate: i64) -> ToolMotion {
    ToolMotion::Feed { to: Point3 { x: point.x, y: point.y, z }, feed: rate }
}

/// `acc` followed by the dwell, if there is one.
pub open spec fn with_dwell(acc: Seq<ToolMotion>, dwell: Option<i64>) -> Seq<ToolMotion> {
    match dwell {
        Some(seconds) => acc.push(ToolMotion::Dwell { seconds }),
        None => acc,
    }
}

/// `acc` followed by the pecks that lead from `current` down to the target:
/// each is a feed down by the peck depth, but not below the target, the
/// dwell, and, unless the target is reached, a retract.
pub open spec fn peck_moves(
    job: DrillJob,
    point: Point2,
    peck_depth: int,
    current: int,
    acc: Seq<ToolMotion>,
) -> Seq<ToolMotion>
    decreases current - job.target_z,
{
    if current <= job.target_z || peck_depth <= 0 {
        acc
    } else {
        let next = next_depth(current, job.target_z as int, peck_depth);
        let down = with_dwell(acc.push(drill_feed(point, next as i64, job.rate)), job.dwell);
        let up = if next > job.target_z {
            down.push(drill_feed(point, job.retract_z, job.rate))
        } else {
            down
        };
        peck_moves(job, point, peck_depth, next, up)
    }
}

/// The motions of one hole after the rapids that lead to it.
pub open spec fn cycle_moves(job: DrillJob, point: Point2) -> Seq<ToolMotion> {
    match job.cycle {
        DrillCycle::Simple => with_dwell(
            seq![drill_feed(point, job.target_z, job.rate)],
            job.dwell,
        ).push(drill_feed(point, job.retract_z, job.rate)),
        DrillCycle::Peck { peck_depth } => peck_moves(
            job,
            point,
            peck_depth as int,
            job.top_z as int,
            Seq::empty(),
        ).push(drill_feed(point, job.retract_z, job.rate)),
    }
}

/// The motions of the first `k` holes.
pub open spec fn drill_motions(job: DrillJob, points: Seq<Point2>, k: int) -> Seq<ToolMotion>
    decreases k,
{
    if k <= 0 {
        Seq::empty()
    } else {
        let before = drill_motions(job, points, k - 1);
        before + rapid_to_safe_moves(last_position_of(before), points[k - 1], job.safe_z)
            + cycle_moves(job, points[k - 1])
    }
}

/// Appends the dwell, if there is one.
fn push_dwell(path: &mut Toolpath, dwell: Option<i64>)
    ensures
        final(path).motions@ == with_dwell(old(path).motions@, dwell),
        final(path).name == old(path).name,
        final(path).safe_z == old(path).safe_z,
{
    match dwell {
        Some(seconds) => {
            path.push(ToolMotion::Dwell { seconds });
        },
        None => {},
    }
}

/// Appends `tail` to `acc` when `tail` is `with_dwell` of some sequence.
proof fn lemma_with_dwell_concat(a: Seq<ToolMotion>, b: Seq<ToolMotion>, dwell: Option<i64>)
    ensures
        a + with_dwell(b, dwell) == with_dwell(a + b, dwell),
{
    match dwell {
        Some(seconds) => {
            assert(a + b.push(ToolMotion::Dwell { seconds }) =~= (a + b).push(
                ToolMotion::Dwell { seconds },
            ));
        },
        None => {},
    }
}

/// Pecks prefixed by `a` are `a` followed by the pecks.
proof fn lemma_peck_moves_prefix(
    job: DrillJob,
    point: Point2,
    peck_depth: int,
    current: int,
    a: Seq<ToolMotion>,
    acc: Seq<ToolMotion>,
)
    ensures
        peck_moves(job, point, peck_depth, current, a + acc) == a + peck_moves(
            job,
            point,
            peck_depth,
            current,
            acc,
        ),
    decreases current - job.target_z,
{
    if current <= job.target_z || peck_depth <= 0 {
    } else {
        let next = next_depth(current, job.target_z as int, peck_depth);
        let f = drill_feed(point, next as i64, job.rate);
        assert((a + acc).push(f) =~= a + acc.push(f));
        lemma_with_dwell_concat(a, acc.push(f), job.dwell);
        let down = with_dwell(acc.push(f), job.dwell);
        let up = if next > job.target_z {
            down.push(drill_feed(point, job.retract_z, job.rate))
        } else {
            down
        };
        assert((a + down).push(drill_feed(point, job.retract_z, job.rate)) =~= a + down.push(
            drill_feed(point, job.retract_z, job.rate),
        ));
        lemma_peck_moves_prefix(job, point, peck_depth, next, a, up);
    }
}

impl DrillOperation {
    /// What [`DrillOperation::new`] checks.
    pub open spec fn valid(&self) -> bool {
        &&& self.points@.len() >= 1
        &&& self.target_z < self.top_z
        &&& self.retract_z >= self.top_z
        &&& (self.cycle matches DrillCycle::Peck { peck_depth } ==> peck_depth > 0)
    }

    /// Why the values do not describe a drill operation, if they do not.
    pub open spec fn fault(
        points: Seq<Point2>,
        top_z: i64,
        target_z: i64,
        retract_z: i64,
        cycle: DrillCycle,
    ) -> Option<Seq<char>> {
        if points.len() == 0 {
            Some("drill operation needs at least one point"@)
        } else if target_z >= top_z {
            Some("target Z must be below the surface"@)
        } else if retract_z < top_z {
            Some("retract height must be above surface"@)
        } else if cycle matches DrillCycle::Peck { peck_depth } && peck_depth <= 0 {
            Some("peck depth must be positive"@)
        } else {
            None
        }
    }

    /// What every hole shares.
    pub open spec fn job(&self) -> DrillJob {
        DrillJob {
            top_z: self.top_z,
            target_z: self.target_z,
            retract_z: self.retract_z,
            dwell: self.dwell,
            cycle: self.cycle,
            rate: self.settings.tool.plunge_rate,
            safe_z: self.settings.linking.safe_z,
        }
    }

    /// A drill operation at `points` from `top_z` down to `target_z`.
    pub fn new(
        name: &str,
        points: Vec<Point2>,
        top_z: i64,
        target_z: i64,
        retract_z: i64,
        dwell: Option<i64>,
        cycle: DrillCycle,
        settings: OperationSettings,
    ) -> (r: CamResult<Self>)
        ensures
            match r {
                Ok(op) => {
                    &&& Self::fault(points@, top_z, target_z, retract_z, cycle) is None
                    &&& op.valid()
                    &&& op.name@ == name@
                    &&& op.points == points
                    &&& op.top_z == top_z
                    &&& op.target_z == target_z
                    &&& op.retract_z == retract_z
                    &&& op.dwell == dwell
                    &&& op.cycle == cycle
                    &&& op.settings == settings
                },
                Err(e) => e@ is InvalidArgument && Self::fault(
                    points@,
                    top_z,
                    target_z,
                    retract_z,
                    cycle,
                ) == Some(e@->InvalidArgument_0),
            },
    {
        if points.len() == 0 {
            return Err(CamError::invalid_argument("drill operation needs at least one point"));
        }
        if target_z >= top_z {
            return Err(CamError::invalid_argument("target Z must be below the surface"));
        }
        if retract_z < top_z {
            return Err(CamError::invalid_argument("retract height must be above surface"));
        }
        match cycle {
            DrillCycle::Peck { peck_depth } => {
                if peck_depth <= 0 {
                    return Err(CamError::invalid_argument("peck depth must be positive"));
                }
            },
            DrillCycle::Simple => {},
        }
        Ok(
            DrillOperation {
                name: String::from_str(name),
                points,
                top_z,
                target_z,
                retract_z,
                dwell,
                cycle,
                settings,
            },
        )
    }

    /// Appends the pecks of one hole.
    fn peck(&self, path: &mut Toolpath, point: Point2, peck_depth: i64)
        requires
            self.valid(),
            peck_depth > 0,
        ensures
            final(path).motions@ == old(path).motions@ + peck_moves(
                self.job(),
                point,
                peck_depth as int,
                self.top_z as int,
                Seq::empty(),
            ),
            final(path).name == old(path).name,
            final(path).safe_z == old(path).safe_z,
    {
        let rate = self.settings.tool.plunge_rate;
        let ghost before = path.motions@;
        let ghost job = self.job();
        let mut current: i64 = self.top_z;
        proof {
            lemma_peck_moves_prefix(
                job,
                point,
                peck_depth as int,
                self.top_z as int,
                before,
                Seq::empty(),
            );
            assert(before + Seq::<ToolMotion>::empty() =~= before);
        }
        while current > self.target_z
            invariant
                self.valid(),
                peck_depth > 0,
                job == self.job(),
                rate == job.rate,
                self.target_z <= current <= self.top_z,
                path.name == old(path).name,
                path.safe_z == old(path).safe_z,
                before + peck_moves(
                    job,
                    point,
                    peck_depth as int,
                    self.top_z as int,
                    Seq::empty(),
                ) == peck_moves(job, point, peck_depth as int, current as int, path.motions@),
            decreases current - self.target_z,
        {
            let lowered: i128 = current as i128 - peck_depth as i128;
            let next: i64 = if lowered > self.target_z as i128 {
                lowered as i64
            } else {
                self.target_z
            };
            path.push(ToolMotion::Feed { to: Point3 { x: point.x, y: point.y, z: next }, feed: rate });
            push_dwell(path, self.dwell);
            current = next;
            if current > self.target_z {
                path.push(
                    ToolMotion::Feed {
                        to: Point3 { x: point.x, y: point.y, z: self.retract_z },
                        feed: rate,
                    },
                );
            }
        }
    }

    /// Plans the toolpath: for each hole the rapids that lead above it, and
    /// its drilling cycle. Every feed runs at the tool's plunge rate.
    pub fn plan(&self) -> (r: CamResult<Toolpath>)
        requires
            self.valid(),
        ensures
            r matches Ok(tp) && {
                &&& tp.motions@ == drill_motions(self.job(), self.points@, self.points@.len() as int)
                &&& tp.name@ == self.name@
                &&& tp.safe_z == self.settings.linking.safe_z
            },
    {
        let rate = self.settings.tool.plunge_rate;
        let linking = self.settings.linking;
        let mut path = Toolpath::new(self.name.as_str(), linking.safe_z);
        let ghost job = self.job();
        let mut k: usize = 0;
        while k < self.points.len()
            invariant
                self.valid(),
                k <= self.points.len(),
                job == self.job(),
                rate == job.rate,
                linking == self.settings.linking,
                path.name@ == self.name@,
                path.safe_z == linking.safe_z,
                path.motions@ == drill_motions(job, self.points@, k as int),
            decreases self.points.len() - k,
        {
            let point = self.points[k];
            rapid_to_safe(&mut path, point, &linking);
            let ghost arrived = path.motions@;
            match self.cycle {
                DrillCycle::Simple => {
                    path.push(
                        ToolMotion::Feed {
                            to: Point3 { x: point.x, y: point.y, z: self.target_z },
                            feed: rate,
                        },
                    );
                    push_dwell(&mut path, self.dwell);
                    path.push(
                        ToolMotion::Feed {
                            to: Point3 { x: point.x, y: point.y, z: self.retract_z },
                            feed: rate,
                        },
                    );
                    proof {
                        let f = drill_feed(point, self.target_z, rate);
                        assert(arrived.push(f) =~= arrived + seq![f]);
                        lemma_with_dwell_concat(arrived, seq![f], self.dwell);
                        assert(path.motions@ =~= arrived + cycle_moves(job, point));
                    }
                },
                DrillCycle::Peck { peck_depth } => {
                    self.peck(&mut path, point, peck_depth);
                    path.push(
                        ToolMotion::Feed {
                            to: Point3 { x: point.x, y: point.y, z: self.retract_z },
                            feed: rate,
                        },
                    );
                    assert(path.motions@ =~= arrived + cycle_moves(job, point));
                },
            }
            k = k + 1;
        }
        Ok(path)
    }
}

} // verus!
