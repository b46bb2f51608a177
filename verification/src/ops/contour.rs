//! The contour operation: cutting along a boundary in depth passes.
use vstd::prelude::*;
use crate::error::{CamError, CamErrorView, CamResult};
use crate::geometry::{
    open_length, path_length, points_within, polyline_length, Point2, Point3, MAX_POINTS,
};
use crate::linking::{
    apply_linear_leads, entry_index, entry_moves, entry_sequence, exit_motion, exit_moves,
    feeds_at_or_above, helix_feeds, lead_ok, lemma_entry_rapids_safe, lemma_helix_feeds_shape,
    lemma_helix_z_between, ramp_ok, some_feed_at, turns, with_leads, LeadStrategy, LinkingSettings,
    RampStrategy, MAX_REVOLUTIONS,
};
use crate::offsets::{offset_outcome, offset_polygon, OffsetSide};
use crate::ops::types::OperationSettings;
use crate::tabs::{depth_with_tabs, lemma_tab_depth_bounds, tab_depth, tabs_fit, Tab, LOOP_LIMIT};
use crate::toolpath::{last_position_of, rapids_at, ToolMotion, Toolpath};
use crate::units::{POSITION_EPS, COORD_LIMIT};

verus! {

#[derive(Debug, Clone, Copy, PartialEq, Eq, Structural)]
pub enum ContourSide {
    Inside,
    Outside,
}

#[derive(Debug, Clone)]
pub struct ContourOperation {
    pub name: String,
    pub boundary: Vec<Point2>,
    pub side: ContourSide,
    pub top_z: i64,
    pub target_z: i64,
    pub stepdown: i64,
    pub settings: OperationSettings,
    pub tabs: Vec<Tab>,
}

/// What a pass along a closed loop works on.
pub struct LoopJob {
    /// The loop; its last point equals its first.
    pub points: Seq<Point2>,
    /// The feed rate of the cut.
    pub feed: i64,
    pub linking: LinkingSettings,
    pub tabs: Seq<Tab>,
    /// The length of the loop.
    pub length: int,
}

/// `points` with its first point appended, unless it ends there already.
pub open spec fn closed_loop(points: Seq<Point2>) -> Seq<Point2> {
    if points.len() > 0 && points.first() != points.last() {
        points.push(points.first())
    } else {
        points
    }
}

/// The second point of a loop, if it has one.
pub open spec fn second_point(points: Seq<Point2>) -> Option<Point2> {
    if points.len() > 1 {
        Some(points[1])
    } else {
        None
    }
}

/// The depth of the cut at point `j` of the loop, when cutting began at
/// point `start_idx`: `depth`, or with tabs the depth that the tabs leave
/// after the distance travelled.
pub open spec fn cut_depth(job: LoopJob, start_idx: int, j: int, depth: int, with_tabs: bool) -> int {
    if with_tabs {
        tab_depth(
            open_length(job.points, j) - open_length(job.points, start_idx),
            job.length,
            depth,
            job.tabs,
        )
    } else {
        depth
    }
}

/// The feed to point `j` of the loop.
pub open spec fn loop_feed(job: LoopJob, start_idx: int, j: int, depth: int, with_tabs: bool) -> ToolMotion {
    ToolMotion::Feed {
        to: Point3 {
            x: job.points[j].x,
            y: job.points[j].y,
            z: cut_depth(job, start_idx, j, depth, with_tabs) as i64,
        },
        feed: job.feed,
    }
}

/// The feeds to the `k` points of the loop that follow point `start_idx`.
pub open spec fn loop_feeds(job: LoopJob, start_idx: int, k: int, depth: int, with_tabs: bool) -> Seq<
    ToolMotion,
>
    decreases k,
{
    if k <= 0 {
        Seq::empty()
    } else {
        loop_feeds(job, start_idx, k - 1, depth, with_tabs).push(
            loop_feed(job, start_idx, start_idx + k, depth, with_tabs),
        )
    }
}

/// One pass at `depth`: the entry at the loop's first point, the feeds around
/// the loop, and the exit above its last point. `last` is where the tool
/// stood before.
pub open spec fn loop_pass(job: LoopJob, depth: i64, with_tabs: bool, last: Option<Point3>) -> Seq<
    ToolMotion,
> {
    let next = second_point(job.points);
    let start_idx = entry_index(job.linking.ramp, next);
    (entry_sequence(last, job.points[0], next, depth, job.feed, job.linking) + loop_feeds(
        job,
        start_idx,
        job.points.len() - 1 - start_idx,
        depth as int,
        with_tabs,
    )).push(exit_motion(job.points.last(), job.linking))
}

/// The depth of the pass that follows a pass at `depth`: lower by
/// `stepdown`, but not below `target`.
pub open spec fn next_depth(depth: int, target: int, stepdown: int) -> int {
    if depth - stepdown > target {
        depth - stepdown
    } else {
        target
    }
}

/// The motions `acc` followed by the passes that lead from `depth` down to
/// `target`. Tabs are left on the pass at `target` only.
pub open spec fn contour_motions(
    job: LoopJob,
    depth: int,
    target: int,
    stepdown: int,
    acc: Seq<ToolMotion>,
) -> Seq<ToolMotion>
    decreases depth - target,
{
    if depth <= target || stepdown <= 0 {
        acc
    } else {
        let d = next_depth(depth, target, stepdown);
        contour_motions(
            job,
            d,
            target,
            stepdown,
            acc + loop_pass(job, d as i64, d == target, last_position_of(acc)),
        )
    }
}

/// The depth of pass `i`, counted from one, is `top - i * stepdown`, but not
/// below `target`.
pub open spec fn pass_depth(top: int, target: int, stepdown: int, i: nat) -> int
    decreases i,
{
    if i == 0 {
        top
    } else {
        next_depth(pass_depth(top, target, stepdown, (i - 1) as nat), target, stepdown)
    }
}

/// Stepping down pass by pass gives the closed form
/// `max(target, top - i * stepdown)`.
pub proof fn lemma_pass_depth_closed_form(top: int, target: int, stepdown: int, i: nat)
    requires
        target <= top,
        stepdown > 0,
    ensures
        pass_depth(top, target, stepdown, i) == (if top - i * stepdown > target {
            top - i * stepdown
        } else {
            target
        }),
    decreases i,
{
    if i > 0 {
        let j = (i - 1) as nat;
        lemma_pass_depth_closed_form(top, target, stepdown, j);
        let a = i * stepdown;
        let b = j * stepdown;
        assert(a == b + stepdown) by (nonlinear_arith)
            requires
                a == i * stepdown,
                b == j * stepdown,
                j == i - 1,
        ;
    } else {
        assert(i * stepdown == 0) by (nonlinear_arith)
            requires
                i == 0,
        ;
    }
}

/// The number of passes from `top` down to `target`: the depth divided by
/// the stepdown, rounded up.
pub open spec fn pass_count(top: int, target: int, stepdown: int) -> int {
    (top - target + stepdown - 1) / stepdown
}

/// The last of the passes, and no pass before it, is at the target.
pub proof fn lemma_pass_count(top: int, target: int, stepdown: int)
    requires
        target < top,
        stepdown > 0,
    ensures
        pass_count(top, target, stepdown) >= 1,
        pass_depth(top, target, stepdown, pass_count(top, target, stepdown) as nat) == target,
        pass_depth(top, target, stepdown, (pass_count(top, target, stepdown) - 1) as nat)
            > target,
{
    let d = top - target;
    let n = pass_count(top, target, stepdown);
    let r = (d + stepdown - 1) % stepdown;
    vstd::arithmetic::div_mod::lemma_fundamental_div_mod(d + stepdown - 1, stepdown);
    vstd::arithmetic::div_mod::lemma_mod_bound(d + stepdown - 1, stepdown);
    assert(d + stepdown - 1 == stepdown * n + r);
    assert(n >= 1) by (nonlinear_arith)
        requires
            d + stepdown - 1 == stepdown * n + r,
            0 <= r < stepdown,
            d > 0,
    ;
    let m = (n - 1) as nat;
    assert(n * stepdown == stepdown * n) by (nonlinear_arith);
    assert(m * stepdown == stepdown * n - stepdown) by (nonlinear_arith)
        requires
            m == n - 1,
    ;
    lemma_pass_depth_closed_form(top, target, stepdown, n as nat);
    lemma_pass_depth_closed_form(top, target, stepdown, m);
}

/// The first `k` passes, one after the other: pass `i`, counted from one,
/// is cut at the depth of pass `i`, and tabs are left on the pass at the
/// target.
pub open spec fn passes_upto(job: LoopJob, top: int, target: int, stepdown: int, k: nat) -> Seq<
    ToolMotion,
>
    decreases k,
{
    if k == 0 {
        Seq::empty()
    } else {
        let before = passes_upto(job, top, target, stepdown, (k - 1) as nat);
        let d = pass_depth(top, target, stepdown, k);
        before + loop_pass(job, d as i64, d == target, last_position_of(before))
    }
}

/// Before the last pass the depth lies above the target.
pub proof fn lemma_earlier_passes_above_target(top: int, target: int, stepdown: int, k: nat)
    requires
        target < top,
        stepdown > 0,
        k < pass_count(top, target, stepdown),
    ensures
        pass_depth(top, target, stepdown, k) > target,
{
    let d = top - target;
    let n = pass_count(top, target, stepdown);
    let r = (d + stepdown - 1) % stepdown;
    vstd::arithmetic::div_mod::lemma_fundamental_div_mod(d + stepdown - 1, stepdown);
    vstd::arithmetic::div_mod::lemma_mod_bound(d + stepdown - 1, stepdown);
    assert(k * stepdown < d) by (nonlinear_arith)
        requires
            d + stepdown - 1 == stepdown * n + r,
            0 <= r < stepdown,
            0 <= k <= n - 1,
            stepdown > 0,
    ;
    lemma_pass_depth_closed_form(top, target, stepdown, k);
}

/// The motions of a contour are its passes: as many as the depth divided by
/// the stepdown, rounded up, says, each at its depth.
pub proof fn lemma_contour_is_its_passes(job: LoopJob, top: int, target: int, stepdown: int)
    requires
        target < top,
        stepdown > 0,
    ensures
        contour_motions(job, top, target, stepdown, Seq::empty()) == passes_upto(
            job,
            top,
            target,
            stepdown,
            pass_count(top, target, stepdown) as nat,
        ),
{
    lemma_pass_count(top, target, stepdown);
    let n = pass_count(top, target, stepdown) as nat;
    lemma_passes_prefix(job, top, target, stepdown, n);
}

proof fn lemma_passes_prefix(job: LoopJob, top: int, target: int, stepdown: int, k: nat)
    requires
        target < top,
        stepdown > 0,
        k <= pass_count(top, target, stepdown),
    ensures
        contour_motions(job, top, target, stepdown, Seq::empty()) == contour_motions(
            job,
            pass_depth(top, target, stepdown, k),
            target,
            stepdown,
            passes_upto(job, top, target, stepdown, k),
        ),
    decreases k,
{
    if k > 0 {
        let j = (k - 1) as nat;
        lemma_passes_prefix(job, top, target, stepdown, j);
        lemma_earlier_passes_above_target(top, target, stepdown, j);
    }
}

/// Whether some feed ends at `target` and no feed ends below it.
pub open spec fn reaches_target(motions: Seq<ToolMotion>, target: int) -> bool {
    some_feed_at(motions, target) && feeds_at_or_above(motions, target)
}

/// The loop feeds are feeds, one to each point.
pub proof fn lemma_loop_feeds_shape(job: LoopJob, start_idx: int, k: int, depth: int, with_tabs: bool)
    requires
        k >= 0,
    ensures
        loop_feeds(job, start_idx, k, depth, with_tabs).len() == k,
        forall|i: int|
            0 <= i < k ==> #[trigger] loop_feeds(job, start_idx, k, depth, with_tabs)[i]
                == loop_feed(job, start_idx, start_idx + i + 1, depth, with_tabs),
    decreases k,
{
    if k > 0 {
        lemma_loop_feeds_shape(job, start_idx, k - 1, depth, with_tabs);
    }
}

/// Every rapid of a pass ends at the safe height.
pub proof fn lemma_pass_rapids_safe(job: LoopJob, depth: i64, with_tabs: bool, last: Option<Point3>)
    requires
        job.points.len() >= 2,
    ensures
        rapids_at(loop_pass(job, depth, with_tabs, last), job.linking.safe_z as int),
{
    let next = second_point(job.points);
    let start_idx = entry_index(job.linking.ramp, next);
    let entry = entry_sequence(last, job.points[0], next, depth, job.feed, job.linking);
    let k = job.points.len() - 1 - start_idx;
    let feeds = loop_feeds(job, start_idx, k, depth as int, with_tabs);
    let pass = loop_pass(job, depth, with_tabs, last);
    lemma_entry_rapids_safe(last, job.points[0], next, depth, job.feed, job.linking);
    lemma_loop_feeds_shape(job, start_idx, k, depth as int, with_tabs);
    assert forall|i: int| 0 <= i < pass.len() implies ((#[trigger] pass[i]) matches ToolMotion::Rapid {
        to,
    } ==> to.z == job.linking.safe_z) by {
        if i < entry.len() {
            assert(pass[i] == entry[i]);
        } else if i < entry.len() + feeds.len() {
            assert(pass[i] == feeds[i - entry.len()]);
        }
    }
}

/// Appending motions whose rapids end at `z` keeps that property.
pub proof fn lemma_rapids_at_concat(a: Seq<ToolMotion>, b: Seq<ToolMotion>, z: int)
    requires
        rapids_at(a, z),
        rapids_at(b, z),
    ensures
        rapids_at(a + b, z),
{
    assert forall|i: int| 0 <= i < (a + b).len() implies ((#[trigger] (a + b)[i]) matches ToolMotion::Rapid {
        to,
    } ==> to.z == z) by {
        if i < a.len() {
            assert((a + b)[i] == a[i]);
        } else {
            assert((a + b)[i] == b[i - a.len()]);
        }
    }
}

/// The pass at the target depth touches the target and does not go below
/// it, provided the safe height is not below the target and the tabs, if
/// there are any, rise from a target that is not above zero.
pub proof fn lemma_final_pass_reaches_target(job: LoopJob, target: i64, last: Option<Point3>)
    requires
        job.points.len() >= 2,
        job.linking.safe_z >= target,
        job.tabs.len() == 0 || (target <= 0 && forall|k: int|
            0 <= k < job.tabs.len() ==> (#[trigger] job.tabs[k]).height >= 0),
    ensures
        reaches_target(loop_pass(job, target, true, last), target as int),
{
    let next = second_point(job.points);
    let start_idx = entry_index(job.linking.ramp, next);
    let entry = entry_sequence(last, job.points[0], next, target, job.feed, job.linking);
    let k = job.points.len() - 1 - start_idx;
    let feeds = loop_feeds(job, start_idx, k, target as int, true);
    let pass = loop_pass(job, target, true, last);
    lemma_loop_feeds_shape(job, start_idx, k, target as int, true);
    lemma_entry_reaches_target(last, job.points[0], next, target, job.feed, job.linking);
    let w = choose|i: int|
        0 <= i < entry.len() && ((#[trigger] entry[i]) matches ToolMotion::Feed { to, .. } && to.z
            == target);
    assert(pass[w] == entry[w]);
    assert forall|i: int| 0 <= i < pass.len() implies ((#[trigger] pass[i]) matches ToolMotion::Feed {
        to,
        ..
    } ==> to.z >= target) by {
        if i < entry.len() {
            assert(pass[i] == entry[i]);
        } else if i < entry.len() + feeds.len() {
            let j = start_idx + (i - entry.len()) + 1;
            assert(pass[i] == feeds[i - entry.len()]);
            assert(feeds[i - entry.len()] == loop_feed(job, start_idx, j, target as int, true));
            let distance = open_length(job.points, j) - open_length(job.points, start_idx);
            if job.length > POSITION_EPS && job.tabs.len() > 0 {
                lemma_tab_depth_bounds(
                    distance % job.length,
                    job.length,
                    target as int,
                    job.tabs,
                    0,
                );
            }
        }
    }
}

/// An entry to `target_z` feeds to `target_z` and never below it when the
/// safe height is not below it.
pub proof fn lemma_entry_reaches_target(
    last: Option<Point3>,
    start: Point2,
    next: Option<Point2>,
    target_z: i64,
    feed: i64,
    settings: LinkingSettings,
)
    requires
        settings.safe_z >= target_z,
    ensures
        reaches_target(
            entry_sequence(last, start, next, target_z, feed, settings),
            target_z as int,
        ),
{
    let e = entry_sequence(last, start, next, target_z, feed, settings);
    match settings.ramp {
        RampStrategy::Helical { radius, revolutions } => {
            let n = turns(revolutions) * 36;
            let feeds = helix_feeds(
                start,
                radius as int,
                settings.safe_z as int,
                target_z as int,
                settings.plunge_feed,
                n,
                n + 1,
            );
            lemma_helix_feeds_shape(
                start,
                radius as int,
                settings.safe_z as int,
                target_z as int,
                settings.plunge_feed,
                n,
                n + 1,
            );
            assert(e.len() == n + 3);
            assert(e[n + 2] == (ToolMotion::Feed {
                to: Point3 { x: start.x, y: start.y, z: target_z },
                feed,
            }));
            assert forall|i: int| 0 <= i < e.len() implies ((#[trigger] e[i]) matches ToolMotion::Feed {
                to,
                ..
            } ==> to.z >= target_z) by {
                if 1 <= i && i < n + 2 {
                    assert(e[i] == feeds[i - 1]);
                    lemma_helix_z_between(settings.safe_z as int, target_z as int, i - 1, n);
                }
            }
        },
        _ => {
            assert(e.last() matches ToolMotion::Feed { to, .. } && to.z == target_z);
            assert(e[e.len() - 1] == e.last());
        },
    }
}

/// Whether no tab would lift the cut beyond what the scalar type holds.
fn tabs_fit_check(target_z: i64, tabs: &Vec<Tab>) -> (b: bool)
    ensures
        b == tabs_fit(target_z as int, tabs@),
{
    let mut i: usize = 0;
    while i < tabs.len()
        invariant
            i <= tabs.len(),
            forall|k: int| 0 <= k < i ==> target_z + (#[trigger] tabs@[k]).height >= i64::MIN,
        decreases tabs.len() - i,
    {
        if (target_z as i128) + (tabs[i].height as i128) < i64::MIN as i128 {
            return false;
        }
        i = i + 1;
    }
    true
}

/// Whether a lead can be applied to in-range points.
pub fn lead_in_range(lead: LeadStrategy) -> (b: bool)
    ensures
        b == lead_ok(lead),
{
    match lead {
        LeadStrategy::NoLead => true,
        LeadStrategy::Linear { length } => length <= COORD_LIMIT,
    }
}

/// Whether a ramp can be carried out.
pub fn ramp_in_range(ramp: RampStrategy) -> (b: bool)
    ensures
        b == ramp_ok(ramp),
{
    match ramp {
        RampStrategy::Helical { radius, revolutions } => -COORD_LIMIT <= radius && radius
            <= COORD_LIMIT && revolutions <= MAX_REVOLUTIONS,
        _ => true,
    }
}

/// Why the linking settings cannot be carried out, if they cannot.
pub open spec fn linking_fault(linking: LinkingSettings) -> Option<Seq<char>> {
    if !lead_ok(linking.lead_in) || !lead_ok(linking.lead_out) {
        Some("lead length out of range"@)
    } else if !ramp_ok(linking.ramp) {
        Some("helical ramp out of range"@)
    } else {
        None
    }
}

/// Checks that the linking settings can be carried out.
pub fn check_linking(linking: &LinkingSettings) -> (r: Result<(), CamError>)
    ensures
        match r {
            Ok(_) => linking_fault(*linking) is None,
            Err(e) => e@ is InvalidArgument && linking_fault(*linking) == Some(
                e@->InvalidArgument_0,
            ),
        },
{
    if !lead_in_range(linking.lead_in) || !lead_in_range(linking.lead_out) {
        return Err(CamError::invalid_argument("lead length out of range"));
    }
    if !ramp_in_range(linking.ramp) {
        return Err(CamError::invalid_argument("helical ramp out of range"));
    }
    Ok(())
}

/// Applies the leads to an offset loop and closes it.
pub fn prepare_loop(offset: &Vec<Point2>, linking: &LinkingSettings) -> (r: Vec<Point2>)
    requires
        3 <= offset.len() <= MAX_POINTS,
        points_within(offset@, COORD_LIMIT as int),
        lead_ok(linking.lead_in),
        lead_ok(linking.lead_out),
    ensures
        r@ == closed_loop(with_leads(offset@, linking.lead_in, linking.lead_out)),
        points_within(r@, 2 * COORD_LIMIT),
        3 <= r.len() <= MAX_POINTS + 3,
{
    let mut loop_points = apply_linear_leads(offset.as_slice(), linking.lead_in, linking.lead_out);
    let n = loop_points.len();
    let first = loop_points[0];
    if first != loop_points[n - 1] {
        let ghost before = loop_points@;
        loop_points.push(first);
        assert forall|k: int| 0 <= k < loop_points@.len() implies (#[trigger] loop_points@[k]).within(
            2 * COORD_LIMIT,
        ) by {
            if k < before.len() {
                assert(loop_points@[k] == before[k]);
            }
        }
    }
    loop_points
}

/// Cuts one pass along a closed loop: entry, feeds to every further point,
/// exit.
pub fn run_pass(
    path: &mut Toolpath,
    points: &Vec<Point2>,
    depth: i64,
    with_tabs: bool,
    total_length: i128,
    feed: i64,
    linking: &LinkingSettings,
    tabs: &Vec<Tab>,
)
    requires
        2 <= points.len() <= MAX_POINTS + 3,
        points_within(points@, 2 * COORD_LIMIT),
        ramp_ok(linking.ramp),
        0 <= total_length <= LOOP_LIMIT,
        with_tabs ==> tabs_fit(depth as int, tabs@),
    ensures
        final(path).motions@ == old(path).motions@ + loop_pass(
            LoopJob {
                points: points@,
                feed,
                linking: *linking,
                tabs: tabs@,
                length: total_length as int,
            },
            depth,
            with_tabs,
            last_position_of(old(path).motions@),
        ),
        final(path).name == old(path).name,
        final(path).safe_z == old(path).safe_z,
{
    let ghost job = LoopJob {
        points: points@,
        feed,
        linking: *linking,
        tabs: tabs@,
        length: total_length as int,
    };
    let ghost before = path.motions@;
    let ghost entry = entry_sequence(
        last_position_of(before),
        points@[0],
        second_point(points@),
        depth,
        feed,
        *linking,
    );
    let n = points.len();
    let start_idx = entry_moves(path, points[0], Some(points[1]), depth, feed, linking);
    let mut j: usize = start_idx + 1;
    let mut distance: i128 = 0;
    assert(path.motions@ =~= before + entry + Seq::<ToolMotion>::empty());
    while j < n
        invariant
            n == points.len(),
            2 <= n <= MAX_POINTS + 3,
            start_idx <= 1,
            start_idx + 1 <= j <= n,
            points_within(points@, 2 * COORD_LIMIT),
            0 <= total_length <= LOOP_LIMIT,
            with_tabs ==> tabs_fit(depth as int, tabs@),
            job == (LoopJob {
                points: points@,
                feed,
                linking: *linking,
                tabs: tabs@,
                length: total_length as int,
            }),
            distance == open_length(points@, j - 1) - open_length(points@, start_idx as int),
            0 <= distance <= (j - 1) * 4_398_046_511_104,
            path.name == old(path).name,
            path.safe_z == old(path).safe_z,
            path.motions@ == before + entry + loop_feeds(
                job,
                start_idx as int,
                j - 1 - start_idx,
                depth as int,
                with_tabs,
            ),
        decreases n - j,
    {
        let step = points[j - 1].distance(&points[j]);
        distance = distance + step as i128;
        let z = if with_tabs && tabs.len() > 0 {
            depth_with_tabs(distance, total_length, depth, tabs.as_slice())
        } else {
            depth
        };
        let ghost done = loop_feeds(job, start_idx as int, j - 1 - start_idx, depth as int, with_tabs);
        let ghost m = loop_feed(job, start_idx as int, j as int, depth as int, with_tabs);
        assert(z == cut_depth(job, start_idx as int, j as int, depth as int, with_tabs));
        path.push(ToolMotion::Feed { to: Point3 { x: points[j].x, y: points[j].y, z }, feed });
        assert(loop_feeds(job, start_idx as int, j - start_idx, depth as int, with_tabs)
            == done.push(m));
        assert((before + entry + done).push(m) =~= before + entry + done.push(m));
        j = j + 1;
    }
    exit_moves(path, points[n - 1], linking);
    let ghost feeds = loop_feeds(job, start_idx as int, n - 1 - start_idx, depth as int, with_tabs);
    assert((before + entry + feeds).push(exit_motion(points@[n - 1], *linking)) =~= before + (entry
        + feeds).push(exit_motion(points@.last(), *linking)));
}

impl ContourOperation {
    /// What [`ContourOperation::new`] checks: at least three boundary
    /// points, a positive stepdown, and a target below the top.
    pub open spec fn valid(&self) -> bool {
        &&& self.boundary@.len() >= 3
        &&& self.stepdown > 0
        &&& self.target_z < self.top_z
    }

    /// The side to which the boundary is offset.
    pub open spec fn offset_side(&self) -> OffsetSide {
        match self.side {
            ContourSide::Inside => OffsetSide::Inside,
            ContourSide::Outside => OffsetSide::Outside,
        }
    }

    /// Why the operation cannot be planned within the supported range, if it
    /// cannot.
    pub open spec fn range_fault(&self) -> Option<Seq<char>> {
        if linking_fault(self.settings.linking) is Some {
            linking_fault(self.settings.linking)
        } else if !tabs_fit(self.target_z as int, self.tabs@) {
            Some("tab height out of range"@)
        } else {
            None
        }
    }

    /// The loop that the passes follow, made from the offset boundary.
    pub open spec fn job(&self, offset: Seq<Point2>) -> LoopJob {
        let points = closed_loop(
            with_leads(offset, self.settings.linking.lead_in, self.settings.linking.lead_out),
        );
        LoopJob {
            points,
            feed: self.settings.tool.feed_rate,
            linking: self.settings.linking,
            tabs: self.tabs@,
            length: path_length(points, false),
        }
    }

    /// The motions of the plan, or the error that prevents it.
    pub open spec fn outcome(&self) -> Result<Seq<ToolMotion>, CamErrorView> {
        match self.range_fault() {
            Some(m) => Err(CamErrorView::InvalidArgument(m)),
            None => match offset_outcome(
                self.boundary@,
                self.settings.tool.spec_radius(),
                self.offset_side(),
            ) {
                Err(e) => Err(CamErrorView::Offset(e)),
                Ok(offset) => Ok(
                    contour_motions(
                        self.job(offset),
                        self.top_z as int,
                        self.target_z as int,
                        self.stepdown as int,
                        Seq::empty(),
                    ),
                ),
            },
        }
    }

    /// The pass at the target depth, begun from where the tool stood at
    /// `last`.
    pub open spec fn final_pass(&self, last: Option<Point3>) -> Seq<ToolMotion> {
        loop_pass(
            self.job(
                offset_outcome(
                    self.boundary@,
                    self.settings.tool.spec_radius(),
                    self.offset_side(),
                )->Ok_0,
            ),
            self.target_z,
            true,
            last,
        )
    }

    /// Whether `motions` ends with the pass at the target depth.
    pub open spec fn ends_with_final_pass(&self, motions: Seq<ToolMotion>) -> bool {
        exists|prefix: Seq<ToolMotion>|
            motions == prefix + #[trigger] self.final_pass(last_position_of(prefix))
    }

    /// The condition under which the pass at the target depth has its lowest
    /// feed exactly at the target: the safe height is not below the target,
    /// and tabs, if any, have no negative height and rise from a target that
    /// is not above zero.
    pub open spec fn final_pass_bottoms_out(&self) -> bool {
        &&& self.settings.linking.safe_z >= self.target_z
        &&& (self.tabs@.len() == 0 || (self.target_z <= 0 && forall|k: int|
            0 <= k < self.tabs@.len() ==> (#[trigger] self.tabs@[k]).height >= 0))
    }

    /// Why the values do not describe a contour operation, if they do not.
    pub open spec fn fault(boundary: Seq<Point2>, top_z: i64, target_z: i64, stepdown: i64) -> Option<
        Seq<char>,
    > {
        if boundary.len() < 3 {
            Some("contour boundary requires at least 3 points"@)
        } else if stepdown <= 0 {
            Some("stepdown must be positive"@)
        } else if target_z >= top_z {
            Some("target Z must be below top Z"@)
        } else {
            None
        }
    }

    /// A contour operation along `boundary` from `top_z` down to `target_z`.
    pub fn new(
        name: &str,
        boundary: Vec<Point2>,
        side: ContourSide,
        top_z: i64,
        target_z: i64,
        stepdown: i64,
        settings: OperationSettings,
        tabs: Vec<Tab>,
    ) -> (r: CamResult<Self>)
        ensures
            match r {
                Ok(op) => {
                    &&& Self::fault(boundary@, top_z, target_z, stepdown) is None
                    &&& op.valid()
                    &&& op.name@ == name@
                    &&& op.boundary == boundary
                    &&& op.side == side
                    &&& op.top_z == top_z
                    &&& op.target_z == target_z
                    &&& op.stepdown == stepdown
                    &&& op.settings == settings
                    &&& op.tabs == tabs
                },
                Err(e) => e@ is InvalidArgument && Self::fault(boundary@, top_z, target_z, stepdown)
                    == Some(e@->InvalidArgument_0),
            },
    {
        if boundary.len() < 3 {
            return Err(CamError::invalid_argument("contour boundary requires at least 3 points"));
        }
        if stepdown <= 0 {
            return Err(CamError::invalid_argument("stepdown must be positive"));
        }
        if target_z >= top_z {
            return Err(CamError::invalid_argument("target Z must be below top Z"));
        }
        Ok(
            ContourOperation {
                name: String::from_str(name),
                boundary,
                side,
                top_z,
                target_z,
                stepdown,
                settings,
                tabs,
            },
        )
    }

    /// Plans the toolpath: the boundary is offset by the tool's radius to
    /// the chosen side, extended by the leads and closed, and then followed
    /// once for each depth, from the top down to the target in steps of the
    /// stepdown. Tabs are left on the pass at the target depth.
    pub fn plan(&self) -> (r: CamResult<Toolpath>)
        requires
            self.valid(),
        ensures
            match r {
                Ok(tp) => {
                    &&& self.outcome() == Ok::<Seq<ToolMotion>, CamErrorView>(tp.motions@)
                    &&& tp.name@ == self.name@
                    &&& tp.safe_z == self.settings.linking.safe_z
                    &&& rapids_at(tp.motions@, self.settings.linking.safe_z as int)
                    &&& self.ends_with_final_pass(tp.motions@)
                    &&& self.final_pass_bottoms_out() ==> forall|last: Option<Point3>|
                        reaches_target(#[trigger] self.final_pass(last), self.target_z as int)
                },
                Err(e) => self.outcome() == Err::<Seq<ToolMotion>, CamErrorView>(e@),
            },
    {
        let linking = self.settings.linking;
        match check_linking(&linking) {
            Err(e) => {
                return Err(e);
            },
            Ok(_) => {},
        }
        if !tabs_fit_check(self.target_z, &self.tabs) {
            return Err(CamError::invalid_argument("tab height out of range"));
        }
        let side = match self.side {
            ContourSide::Inside => OffsetSide::Inside,
            ContourSide::Outside => OffsetSide::Outside,
        };
        let offset = match offset_polygon(
            self.boundary.as_slice(),
            self.settings.tool.radius(),
            side,
        ) {
            Ok(v) => v,
            Err(e) => {
                return Err(CamError::Offset(e));
            },
        };
        let loop_points = prepare_loop(&offset, &linking);
        let total_length = polyline_length(loop_points.as_slice(), false);
        let ghost job = self.job(offset@);
        let feed = self.settings.tool.feed_rate;
        let mut toolpath = Toolpath::new(self.name.as_str(), linking.safe_z);
        let mut depth: i64 = self.top_z;
        let ghost mut prefix: Seq<ToolMotion> = Seq::empty();
        while depth > self.target_z
            invariant
                self.valid(),
                self.target_z <= depth <= self.top_z,
                linking == self.settings.linking,
                feed == self.settings.tool.feed_rate,
                ramp_ok(linking.ramp),
                tabs_fit(self.target_z as int, self.tabs@),
                3 <= loop_points.len() <= MAX_POINTS + 3,
                points_within(loop_points@, 2 * COORD_LIMIT),
                0 <= total_length <= LOOP_LIMIT,
                job == self.job(offset@),
                job == (LoopJob {
                    points: loop_points@,
                    feed,
                    linking,
                    tabs: self.tabs@,
                    length: total_length as int,
                }),
                toolpath.name@ == self.name@,
                toolpath.safe_z == linking.safe_z,
                rapids_at(toolpath.motions@, linking.safe_z as int),
                contour_motions(
                    job,
                    self.top_z as int,
                    self.target_z as int,
                    self.stepdown as int,
                    Seq::empty(),
                ) == contour_motions(
                    job,
                    depth as int,
                    self.target_z as int,
                    self.stepdown as int,
                    toolpath.motions@,
                ),
                depth < self.top_z ==> depth == self.target_z ==> toolpath.motions@ == prefix
                    + loop_pass(job, self.target_z, true, last_position_of(prefix)),
            decreases depth - self.target_z,
        {
            let lowered: i128 = depth as i128 - self.stepdown as i128;
            let d: i64 = if lowered > self.target_z as i128 {
                lowered as i64
            } else {
                self.target_z
            };
            let last_pass = d == self.target_z;
            proof {
                prefix = toolpath.motions@;
                lemma_pass_rapids_safe(job, d, last_pass, last_position_of(prefix));
                lemma_rapids_at_concat(
                    prefix,
                    loop_pass(job, d, last_pass, last_position_of(prefix)),
                    linking.safe_z as int,
                );
            }
            run_pass(
                &mut toolpath,
                &loop_points,
                d,
                last_pass,
                total_length,
                feed,
                &linking,
                &self.tabs,
            );
            depth = d;
        }
        proof {
            assert(toolpath.motions@ == prefix + self.final_pass(last_position_of(prefix)));
            if self.final_pass_bottoms_out() {
                assert forall|last: Option<Point3>|
                    reaches_target(
                        #[trigger] self.final_pass(last),
                        self.target_z as int,
                    ) by {
                    lemma_final_pass_reaches_target(job, self.target_z, last);
                }
            }
        }
        Ok(toolpath)
    }
}

} // verus!
