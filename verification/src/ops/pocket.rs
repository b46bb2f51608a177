//! The pocket operation: clearing the inside of a boundary with concentric
//! loops in depth passes.
use vstd::prelude::*;
use crate::error::{CamError, CamErrorView, CamResult};
use crate::geometry::{area_of, points_within, polygon_area, Point2, MAX_POINTS};
use crate::linking::{with_leads, LinkingSettings};
use crate::offsets::{offset_outcome, offset_polygon, OffsetSide};
use crate::ops::contour::{
    check_linking, closed_loop, lemma_pass_rapids_safe, lemma_rapids_at_concat, linking_fault,
    loop_pass, next_depth, prepare_loop, run_pass, LoopJob,
};
use crate::ops::types::OperationSettings;
use crate::tabs::Tab;
use crate::toolpath::{last_position_of, rapids_at, ToolMotion, Toolpath};
use crate::units::{abs_i128, abs_int, COORD_LIMIT};

verus! {

/// The most inward steps that are tried before a pocket counts as not
/// converging.
pub const MAX_LOOPS: usize = 256;

/// The area below which the first loop is too small for the tool, and the
/// change of area below which two successive loops count as the same.
pub const AREA_STEP_EPS: i128 = 1_000_000;

/// The area below which a further loop is dropped.
pub const AREA_MIN: i128 = 100_000_000;

#[derive(Debug, Clone)]
pub struct PocketOperation {
    pub name: String,
    pub boundary: Vec<Point2>,
    pub top_z: i64,
    pub target_z: i64,
    pub stepdown: i64,
    pub stepover: i64,
    pub settings: OperationSettings,
}

/// The loops as sequences of points.
pub open spec fn loops_view(loops: Seq<Vec<Point2>>) -> Seq<Seq<Point2>> {
    loops.map_values(|v: Vec<Point2>| v@)
}

/// Whether every loop has between three and [`MAX_POINTS`] points inside
/// the coordinate range.
pub open spec fn loops_ok(loops: Seq<Seq<Point2>>) -> bool {
    forall|k: int|
        0 <= k < loops.len() ==> 3 <= (#[trigger] loops[k]).len() <= MAX_POINTS && points_within(
            loops[k],
            COORD_LIMIT as int,
        )
}

/// The loop that follows `current` on the way inward: `current` moved
/// inward by `stepover`. There is none when the step fails, gives a loop
/// with an area below [`AREA_MIN`], or changes the area by less than
/// [`AREA_STEP_EPS`].
pub open spec fn step_inward(current: Seq<Point2>, last_area: int, stepover: int) -> Option<
    Seq<Point2>,
> {
    match offset_outcome(current, stepover, OffsetSide::Inside) {
        Err(_) => None,
        Ok(next) => {
            let area = abs_int(area_of(next));
            if next.len() < 3 || area < AREA_MIN || abs_int(last_area - area) < AREA_STEP_EPS {
                None
            } else {
                Some(next)
            }
        },
    }
}

/// The loops `acc` followed by the loops that lie further inside than
/// `current`. It is an error if the sequence has not ended after
/// [`MAX_LOOPS`] steps.
pub open spec fn inward_loops(
    current: Seq<Point2>,
    last_area: int,
    stepover: int,
    iterations: int,
    acc: Seq<Seq<Point2>>,
) -> Result<Seq<Seq<Point2>>, CamErrorView>
    decreases MAX_LOOPS - iterations,
{
    if iterations >= MAX_LOOPS {
        Err(CamErrorView::InvalidInput("pocket offsets failed to converge"@))
    } else {
        match step_inward(current, last_area, stepover) {
            None => Ok(acc),
            Some(next) => inward_loops(
                next,
                abs_int(area_of(next)),
                stepover,
                iterations + 1,
                acc.push(next),
            ),
        }
    }
}

/// The concentric loops of a pocket: the boundary moved inward by `radius`,
/// and then again and again by `stepover`.
pub open spec fn pocket_loops(boundary: Seq<Point2>, radius: int, stepover: int) -> Result<
    Seq<Seq<Point2>>,
    CamErrorView,
> {
    match offset_outcome(boundary, radius, OffsetSide::Inside) {
        Err(e) => Err(CamErrorView::Offset(e)),
        Ok(first) => {
            let area = abs_int(area_of(first));
            if first.len() < 3 || area < AREA_STEP_EPS {
                Err(CamErrorView::InvalidInput("pocket too small for tool"@))
            } else {
                inward_loops(first, area, stepover, 0, seq![first])
            }
        },
    }
}

/// The largest area that a polygon of [`MAX_POINTS`] points can have.
pub const AREA_LIMIT: i128 = 0x2_0000_0000_0000_0000_0000_0000_0000;

/// The absolute area of a loop.
fn loop_area(points: &Vec<Point2>) -> (a: i128)
    requires
        points.len() <= MAX_POINTS,
        points_within(points@, COORD_LIMIT as int),
    ensures
        a == abs_int(area_of(points@)),
        0 <= a <= AREA_LIMIT,
{
    let a = polygon_area(points.as_slice());
    abs_i128(a)
}

/// Takes one step inward from `current`.
fn next_loop(current: &Vec<Point2>, last_area: i128, stepover: i64) -> (r: Option<
    (Vec<Point2>, i128),
>)
    requires
        0 <= last_area <= AREA_LIMIT,
    ensures
        match r {
            Some((next, area)) => {
                &&& step_inward(current@, last_area as int, stepover as int) == Some(next@)
                &&& area == abs_int(area_of(next@))
                &&& 0 <= area <= AREA_LIMIT
                &&& 3 <= next.len() <= MAX_POINTS
                &&& points_within(next@, COORD_LIMIT as int)
            },
            None => step_inward(current@, last_area as int, stepover as int) is None,
        },
{
    match offset_polygon(current.as_slice(), stepover, OffsetSide::Inside) {
        Ok(next) => {
            if next.len() < 3 {
                return None;
            }
            let area = loop_area(&next);
            if area < AREA_MIN {
                return None;
            }
            if abs_i128(last_area - area) < AREA_STEP_EPS {
                return None;
            }
            Some((next, area))
        },
        Err(_) => None,
    }
}

/// Generates the concentric loops of a pocket, from the outside in.
pub fn generate_loops(boundary: &[Point2], radius: i64, stepover: i64) -> (r: CamResult<
    Vec<Vec<Point2>>,
>)
    ensures
        match r {
            Ok(loops) => pocket_loops(boundary@, radius as int, stepover as int) == Ok::<
                Seq<Seq<Point2>>,
                CamErrorView,
            >(loops_view(loops@)) && loops_ok(loops_view(loops@)) && loops.len() >= 1,
            Err(e) => pocket_loops(boundary@, radius as int, stepover as int) == Err::<
                Seq<Seq<Point2>>,
                CamErrorView,
            >(e@),
        },
{
    let first = match offset_polygon(boundary, radius, OffsetSide::Inside) {
        Ok(v) => v,
        Err(e) => {
            return Err(CamError::Offset(e));
        },
    };
    let mut last_area = loop_area(&first);
    if first.len() < 3 || last_area < AREA_STEP_EPS {
        return Err(CamError::invalid_input("pocket too small for tool"));
    }
    let ghost first_view = first@;
    let ghost first_area = last_area as int;
    let ghost goal = inward_loops(first_view, first_area, stepover as int, 0, seq![first_view]);
    let mut loops: Vec<Vec<Point2>> = Vec::new();
    loops.push(first);
    assert(loops_view(loops@) =~= seq![first_view]);
    let mut iterations: usize = 0;
    let mut done = false;
    while !done
        invariant
            iterations <= MAX_LOOPS,
            loops.len() >= 1,
            loops_ok(loops_view(loops@)),
            0 <= last_area <= AREA_LIMIT,
            pocket_loops(boundary@, radius as int, stepover as int) == goal,
            done ==> goal == Ok::<Seq<Seq<Point2>>, CamErrorView>(loops_view(loops@)),
            !done ==> goal == inward_loops(
                loops@.last()@,
                last_area as int,
                stepover as int,
                iterations as int,
                loops_view(loops@),
            ),
        decreases MAX_LOOPS - iterations + (if done { 0int } else { 1int }),
    {
        if iterations >= MAX_LOOPS {
            return Err(CamError::invalid_input("pocket offsets failed to converge"));
        }
        let n = loops.len();
        match next_loop(&loops[n - 1], last_area, stepover) {
            Some((next, area)) => {
                let ghost before = loops_view(loops@);
                let ghost next_view = next@;
                loops.push(next);
                assert(loops_view(loops@) =~= before.push(next_view));
                last_area = area;
                iterations = iterations + 1;
            },
            None => {
                done = true;
            },
        }
    }
    Ok(loops)
}

/// What a pass along one pocket loop works on: the loop with its leads,
/// closed, and no tabs.
pub open spec fn pocket_job(points: Seq<Point2>, feed: i64, linking: LinkingSettings) -> LoopJob {
    LoopJob {
        points: closed_loop(with_leads(points, linking.lead_in, linking.lead_out)),
        feed,
        linking,
        tabs: Seq::empty(),
        length: 0,
    }
}

/// The motions `acc` followed by one pass at `depth` along each of the first
/// `k` loops.
pub open spec fn level_motions(
    loops: Seq<Seq<Point2>>,
    k: int,
    depth: i64,
    feed: i64,
    linking: LinkingSettings,
    acc: Seq<ToolMotion>,
) -> Seq<ToolMotion>
    decreases k,
{
    if k <= 0 {
        acc
    } else {
        let before = level_motions(loops, k - 1, depth, feed, linking, acc);
        before + loop_pass(
            pocket_job(loops[k - 1], feed, linking),
            depth,
            false,
            last_position_of(before),
        )
    }
}

/// The motions `acc` followed by the levels that lead from `depth` down to
/// `target`.
pub open spec fn pocket_motions(
    loops: Seq<Seq<Point2>>,
    depth: int,
    target: int,
    stepdown: int,
    feed: i64,
    linking: LinkingSettings,
    acc: Seq<ToolMotion>,
) -> Seq<ToolMotion>
    decreases depth - target,
{
    if depth <= target || stepdown <= 0 {
        acc
    } else {
        let d = next_depth(depth, target, stepdown);
        pocket_motions(
            loops,
            d,
            target,
            stepdown,
            feed,
            linking,
            level_motions(loops, loops.len() as int, d as i64, feed, linking, acc),
        )
    }
}

impl PocketOperation {
    /// What [`PocketOperation::new`] checks.
    pub open spec fn valid(&self) -> bool {
        &&& self.boundary@.len() >= 3
        &&& self.target_z < self.top_z
        &&& self.stepdown > 0
        &&& 0 < self.stepover <= self.settings.tool.diameter
    }

    /// Why the values do not describe a pocket operation, if they do not.
    pub open spec fn fault(
        boundary: Seq<Point2>,
        top_z: i64,
        target_z: i64,
        stepdown: i64,
        stepover: i64,
        settings: OperationSettings,
    ) -> Option<Seq<char>> {
        if boundary.len() < 3 {
            Some("pocket boundary requires at least three points"@)
        } else if target_z >= top_z {
            Some("target Z must be below top Z"@)
        } else if stepdown <= 0 {
            Some("stepdown must be positive"@)
        } else if stepover <= 0 {
            Some("stepover must be positive"@)
        } else if stepover > settings.tool.diameter {
            Some("stepover must be <= tool diameter"@)
        } else {
            None
        }
    }

    /// The motions of the plan, or the error that prevents it.
    pub open spec fn outcome(&self) -> Result<Seq<ToolMotion>, CamErrorView> {
        match linking_fault(self.settings.linking) {
            Some(m) => Err(CamErrorView::InvalidArgument(m)),
            None => match pocket_loops(
                self.boundary@,
                self.settings.tool.spec_radius(),
                self.stepover as int,
            ) {
                Err(e) => Err(e),
                Ok(loops) => Ok(
                    pocket_motions(
                        loops,
                        self.top_z as int,
                        self.target_z as int,
                        self.stepdown as int,
                        self.settings.tool.feed_rate,
                        self.settings.linking,
                        Seq::empty(),
                    ),
                ),
            },
        }
    }

    /// A pocket operation inside `boundary` from `top_z` down to `target_z`.
    pub fn new(
        name: &str,
        boundary: Vec<Point2>,
        top_z: i64,
        target_z: i64,
        stepdown: i64,
        stepover: i64,
        settings: OperationSettings,
    ) -> (r: CamResult<Self>)
        ensures
            match r {
                Ok(op) => {
                    &&& Self::fault(boundary@, top_z, target_z, stepdown, stepover, settings)
                        is None
                    &&& op.valid()
                    &&& op.name@ == name@
                    &&& op.boundary == boundary
                    &&& op.top_z == top_z
                    &&& op.target_z == target_z
                    &&& op.stepdown == stepdown
                    &&& op.stepover == stepover
                    &&& op.settings == settings
                },
                Err(e) => e@ is InvalidArgument && Self::fault(
                    boundary@,
                    top_z,
                    target_z,
                    stepdown,
                    stepover,
                    settings,
                ) == Some(e@->InvalidArgument_0),
            },
    {
        if boundary.len() < 3 {
            return Err(
                CamError::invalid_argument("pocket boundary requires at least three points"),
            );
        }
        if target_z >= top_z {
            return Err(CamError::invalid_argument("target Z must be below top Z"));
        }
        if stepdown <= 0 {
            return Err(CamError::invalid_argument("stepdown must be positive"));
        }
        if stepover <= 0 {
            return Err(CamError::invalid_argument("stepover must be positive"));
        }
        if stepover > settings.tool.diameter {
            return Err(CamError::invalid_argument("stepover must be <= tool diameter"));
        }
        Ok(
            PocketOperation {
                name: String::from_str(name),
                boundary,
                top_z,
                target_z,
                stepdown,
                stepover,
                settings,
            },
        )
    }

    /// Plans the toolpath: for each depth, from the top down to the target
    /// in steps of the stepdown, one pass along each concentric loop, from
    /// the outside in. No tabs are left.
    pub fn plan(&self) -> (r: CamResult<Toolpath>)
        requires
            self.valid(),
        ensures
            match r {
                Ok(tp) => {
                    &&& self.outcome() == Ok::<Seq<ToolMotion>, CamErrorView>(tp.motions@)
                    &&& tp.name@ == self.name@
                    &&& tp.safe_z == self.settings.linking.safe_z
                    &&& rapids_at(tp.motions@, self.settings.linking.safe_z as int)
                },
                Err(e) => self.outcome() == Err::<Seq<ToolMotion>, CamErrorView>(e@),
            },
    {
        let linking = self.settings.linking;
        match check_linking(&linking) {
            Err(e) => {
                return Err(e);
            },
            Ok(_) => {},
        }
        let loops = match generate_loops(
            self.boundary.as_slice(),
            self.settings.tool.radius(),
            self.stepover,
        ) {
            Ok(l) => l,
            Err(e) => {
                return Err(e);
            },
        };
        let feed = self.settings.tool.feed_rate;
        let no_tabs: Vec<Tab> = Vec::new();
        let mut toolpath = Toolpath::new(self.name.as_str(), linking.safe_z);
        let mut depth: i64 = self.top_z;
        let ghost shapes = loops_view(loops@);
        while depth > self.target_z
            invariant
                self.valid(),
                self.target_z <= depth <= self.top_z,
                linking == self.settings.linking,
                feed == self.settings.tool.feed_rate,
                linking_fault(linking) is None,
                shapes == loops_view(loops@),
                loops_ok(shapes),
                no_tabs@ == Seq::<Tab>::empty(),
                toolpath.name@ == self.name@,
                toolpath.safe_z == linking.safe_z,
                rapids_at(toolpath.motions@, linking.safe_z as int),
                pocket_motions(
                    shapes,
                    self.top_z as int,
                    self.target_z as int,
                    self.stepdown as int,
                    feed,
                    linking,
                    Seq::empty(),
                ) == pocket_motions(
                    shapes,
                    depth as int,
                    self.target_z as int,
                    self.stepdown as int,
                    feed,
                    linking,
                    toolpath.motions@,
                ),
            decreases depth - self.target_z,
        {
            let lowered: i128 = depth as i128 - self.stepdown as i128;
            let d: i64 = if lowered > self.target_z as i128 {
                lowered as i64
            } else {
                self.target_z
            };
            let ghost start = toolpath.motions@;
            let mut k: usize = 0;
            while k < loops.len()
                invariant
                    k <= loops.len(),
                    linking_fault(linking) is None,
                    shapes == loops_view(loops@),
                    loops_ok(shapes),
                    no_tabs@ == Seq::<Tab>::empty(),
                    toolpath.name@ == self.name@,
                    toolpath.safe_z == linking.safe_z,
                    rapids_at(toolpath.motions@, linking.safe_z as int),
                    toolpath.motions@ == level_motions(shapes, k as int, d, feed, linking, start),
                decreases loops.len() - k,
            {
                assert(shapes[k as int] == loops@[k as int]@);
                let loop_points = prepare_loop(&loops[k], &linking);
                proof {
                    let job = pocket_job(shapes[k as int], feed, linking);
                    let last = last_position_of(toolpath.motions@);
                    lemma_pass_rapids_safe(job, d, false, last);
                    lemma_rapids_at_concat(
                        toolpath.motions@,
                        loop_pass(job, d, false, last),
                        linking.safe_z as int,
                    );
                }
                run_pass(&mut toolpath, &loop_points, d, false, 0, feed, &linking, &no_tabs);
                k = k + 1;
            }
            depth = d;
        }
        Ok(toolpath)
    }
}

} // verus!
