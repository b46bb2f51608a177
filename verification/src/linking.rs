//! Moves that link cutting passes: lifts to the safe height, lead-in and
//! lead-out extensions, and the entries into the material.
use vstd::prelude::*;
use crate::geometry::{points_within, Point2, Point3, WIDE_LIMIT};
use crate::offsets::{between, shifted};
use crate::toolpath::{last_position_of, rapids_at, ToolMotion, Toolpath};
use crate::units::{abs_int, div_round, lemma_product_bound, round_div, COORD_LIMIT, POSITION_EPS};

verus! {

/// Segments of one revolution of a helical entry.
pub const SEGMENTS_PER_REVOLUTION: usize = 36;

/// Largest number of revolutions of a helical entry.
pub const MAX_REVOLUTIONS: usize = 1_000_000;

/// The scale of the cosine table: the value that stands for one.
pub const TRIG_SCALE: i64 = 1_000_000_000;

#[derive(Debug, Clone, Copy, PartialEq, Eq, Structural)]
pub enum LeadStrategy {
    NoLead,
    Linear { length: i64 },
}

#[derive(Debug, Clone, Copy, PartialEq, Eq, Structural)]
pub enum RampStrategy {
    Plunge,
    Linear { length: i64 },
    Helical { radius: i64, revolutions: usize },
}

#[derive(Debug, Clone, Copy, PartialEq, Eq, Structural)]
pub struct LinkingSettings {
    pub safe_z: i64,
    pub clearance_z: i64,
    pub lead_in: LeadStrategy,
    pub lead_out: LeadStrategy,
    pub ramp: RampStrategy,
    pub plunge_feed: i64,
}

impl LinkingSettings {
    /// Settings without leads and with a plunge entry.
    pub fn new(safe_z: i64, clearance_z: i64, plunge_feed: i64) -> (s: Self)
        ensures
            s == (LinkingSettings {
                safe_z,
                clearance_z,
                lead_in: LeadStrategy::NoLead,
                lead_out: LeadStrategy::NoLead,
                ramp: RampStrategy::Plunge,
                plunge_feed,
            }),
    {
        LinkingSettings {
            safe_z,
            clearance_z,
            lead_in: LeadStrategy::NoLead,
            lead_out: LeadStrategy::NoLead,
            ramp: RampStrategy::Plunge,
            plunge_feed,
        }
    }
}

/// Whether a lead adds a point: it is linear and longer than the position
/// tolerance.
pub open spec fn lead_active(lead: LeadStrategy) -> bool {
    lead matches LeadStrategy::Linear { length } && length > POSITION_EPS
}

/// The length of a lead; zero for none.
pub open spec fn lead_length(lead: LeadStrategy) -> int {
    match lead {
        LeadStrategy::NoLead => 0,
        LeadStrategy::Linear { length } => length as int,
    }
}

/// Whether a lead is short enough to be applied to in-range points.
pub open spec fn lead_ok(lead: LeadStrategy) -> bool {
    lead_active(lead) ==> lead_length(lead) <= COORD_LIMIT
}

/// The point `length` behind `first` on the line from `first` to `second`.
pub open spec fn lead_in_point(first: Point2, second: Point2, length: int) -> Point2 {
    let d = between(first, second).spec_scaled_to(length);
    Point2 { x: (first.x - d.x) as i64, y: (first.y - d.y) as i64 }
}

/// The point `length` beyond `last` on the line from `prev` to `last`.
pub open spec fn lead_out_point(prev: Point2, last: Point2, length: int) -> Point2 {
    shifted(last, between(prev, last).spec_scaled_to(length))
}

/// `points` with the lead-in point in front and the lead-out point behind,
/// where the leads are active; a sequence of fewer than two points is left
/// as it is.
pub open spec fn with_leads(points: Seq<Point2>, lead_in: LeadStrategy, lead_out: LeadStrategy) -> Seq<
    Point2,
> {
    if points.len() < 2 {
        points
    } else {
        let front = if lead_active(lead_in) {
            seq![lead_in_point(points[0], points[1], lead_length(lead_in))]
        } else {
            Seq::empty()
        };
        let back = if lead_active(lead_out) {
            seq![
                lead_out_point(
                    points[points.len() - 2],
                    points[points.len() - 1],
                    lead_length(lead_out),
                ),
            ]
        } else {
            Seq::empty()
        };
        front + points + back
    }
}

/// Adds the linear lead-in and lead-out points to a polyline.
pub fn apply_linear_leads(points: &[Point2], lead_in: LeadStrategy, lead_out: LeadStrategy) -> (r:
    Vec<Point2>)
    requires
        points_within(points@, COORD_LIMIT as int),
        lead_ok(lead_in),
        lead_ok(lead_out),
    ensures
        r@ == with_leads(points@, lead_in, lead_out),
        points_within(r@, 2 * COORD_LIMIT),
        r.len() >= points.len(),
        r.len() <= points.len() + 2,
{
    let n = points.len();
    let mut result: Vec<Point2> = Vec::new();
    if n >= 2 {
        match lead_in {
            LeadStrategy::Linear { length } => {
                if length > POSITION_EPS {
                    let d = points[1].minus(&points[0]).scaled_to(length);
                    result.push(Point2 { x: points[0].x - d.x, y: points[0].y - d.y });
                }
            },
            LeadStrategy::NoLead => {},
        }
    }
    let ghost front = result@;
    let mut i: usize = 0;
    while i < n
        invariant
            n == points.len(),
            i <= n,
            points_within(points@, COORD_LIMIT as int),
            points_within(front, 2 * COORD_LIMIT),
            result@ == front + points@.subrange(0, i as int),
        decreases n - i,
    {
        result.push(points[i]);
        assert(points@.subrange(0, i + 1) =~= points@.subrange(0, i as int).push(points@[i as int]));
        assert(result@ =~= front + points@.subrange(0, i + 1));
        i = i + 1;
    }
    assert(points@.subrange(0, n as int) =~= points@);
    assert(points_within(result@, 2 * COORD_LIMIT)) by {
        assert forall|k: int| 0 <= k < result@.len() implies (#[trigger] result@[k]).within(
            2 * COORD_LIMIT,
        ) by {
            if k < front.len() {
                assert(result@[k] == front[k]);
            } else {
                assert(result@[k] == points@[k - front.len()]);
            }
        }
    }
    if n >= 2 {
        match lead_out {
            LeadStrategy::Linear { length } => {
                if length > POSITION_EPS {
                    let last = points[n - 1];
                    let prev = points[n - 2];
                    let d = last.minus(&prev).scaled_to(length);
                    let ghost before = result@;
                    result.push(last.offset_by(d));
                    assert forall|k: int| 0 <= k < result@.len() implies (
                    #[trigger] result@[k]).within(2 * COORD_LIMIT) by {
                        if k < before.len() {
                            assert(result@[k] == before[k]);
                        }
                    }
                }
            },
            LeadStrategy::NoLead => {},
        }
        assert(result@ =~= with_leads(points@, lead_in, lead_out));
    } else {
        assert(result@ =~= points@);
    }
    result
}

/// The rapids that bring the tool above `target`: a lift to the safe height
/// where the tool stands, if it stands at another height, and the move to
/// `target` at the safe height.
pub open spec fn rapid_to_safe_moves(last: Option<Point3>, target: Point2, safe_z: i64) -> Seq<
    ToolMotion,
> {
    let lift = match last {
        Some(p) => if abs_int(p.z - safe_z) > POSITION_EPS {
            seq![ToolMotion::Rapid { to: Point3 { x: p.x, y: p.y, z: safe_z } }]
        } else {
            Seq::empty()
        },
        None => Seq::empty(),
    };
    lift.push(ToolMotion::Rapid { to: Point3 { x: target.x, y: target.y, z: safe_z } })
}

/// Lifts the tool to the safe height if needed and moves it above
/// `target_xy`.
pub fn rapid_to_safe(path: &mut Toolpath, target_xy: Point2, settings: &LinkingSettings)
    ensures
        final(path).motions@ == old(path).motions@ + rapid_to_safe_moves(
            last_position_of(old(path).motions@),
            target_xy,
            settings.safe_z,
        ),
        final(path).name == old(path).name,
        final(path).safe_z == old(path).safe_z,
{
    let ghost start = path.motions@;
    if let Some(last) = path.last_position() {
        let delta: i128 = last.z as i128 - settings.safe_z as i128;
        if delta > POSITION_EPS as i128 || delta < -(POSITION_EPS as i128) {
            path.push(ToolMotion::Rapid { to: Point3 { x: last.x, y: last.y, z: settings.safe_z } });
        }
    }
    path.push(
        ToolMotion::Rapid { to: Point3 { x: target_xy.x, y: target_xy.y, z: settings.safe_z } },
    );
    assert(path.motions@ =~= start + rapid_to_safe_moves(
        last_position_of(start),
        target_xy,
        settings.safe_z,
    ));
}

/// The cosine of `j` times ten degrees for the first quarter turn, in units
/// of [`TRIG_SCALE`].
pub open spec fn quarter_cos(j: int) -> int {
    if j <= 0 {
        1_000_000_000
    } else if j == 1 {
        984_807_753
    } else if j == 2 {
        939_692_621
    } else if j == 3 {
        866_025_404
    } else if j == 4 {
        766_044_443
    } else if j == 5 {
        642_787_610
    } else if j == 6 {
        500_000_000
    } else if j == 7 {
        342_020_143
    } else if j == 8 {
        173_648_178
    } else {
        0
    }
}

/// The cosine of `k` times ten degrees, `0 <= k < 36`, in units of
/// [`TRIG_SCALE`].
pub open spec fn cos_step(k: int) -> int {
    if k <= 9 {
        quarter_cos(k)
    } else if k <= 18 {
        -quarter_cos(18 - k)
    } else if k <= 27 {
        -quarter_cos(k - 18)
    } else {
        quarter_cos(36 - k)
    }
}

/// The sine of `k` times ten degrees, `0 <= k < 36`, in units of
/// [`TRIG_SCALE`].
pub open spec fn sin_step(k: int) -> int {
    cos_step((k + 27) % 36)
}

fn quarter_cos_of(j: usize) -> (c: i64)
    requires
        j <= 9,
    ensures
        c == quarter_cos(j as int),
        0 <= c <= TRIG_SCALE,
{
    if j == 0 {
        1_000_000_000
    } else if j == 1 {
        984_807_753
    } else if j == 2 {
        939_692_621
    } else if j == 3 {
        866_025_404
    } else if j == 4 {
        766_044_443
    } else if j == 5 {
        642_787_610
    } else if j == 6 {
        500_000_000
    } else if j == 7 {
        342_020_143
    } else if j == 8 {
        173_648_178
    } else {
        0
    }
}

fn cos_step_of(k: usize) -> (c: i64)
    requires
        k < 36,
    ensures
        c == cos_step(k as int),
        -TRIG_SCALE <= c <= TRIG_SCALE,
{
    if k <= 9 {
        quarter_cos_of(k)
    } else if k <= 18 {
        -quarter_cos_of(18 - k)
    } else if k <= 27 {
        -quarter_cos_of(k - 18)
    } else {
        quarter_cos_of(36 - k)
    }
}

/// `radius` times a table value, in micro-units.
pub open spec fn on_circle(radius: int, table: int) -> int {
    round_div(radius * table, TRIG_SCALE as int)
}

/// The height of helix point `i` of `n`: the share `i / n` of the way from
/// `safe_z` down to `target_z`.
pub open spec fn helix_z(safe_z: int, target_z: int, i: int, n: int) -> int {
    safe_z + round_div((target_z - safe_z) * i, n)
}

/// Helix point `i` of `n` around `center`.
pub open spec fn helix_point(
    center: Point2,
    radius: int,
    safe_z: int,
    target_z: int,
    i: int,
    n: int,
) -> Point3 {
    Point3 {
        x: (center.x + on_circle(radius, cos_step(i % 36))) as i64,
        y: (center.y + on_circle(radius, sin_step(i % 36))) as i64,
        z: helix_z(safe_z, target_z, i, n) as i64,
    }
}

/// The first `k` feeds of a helix of `n` segments.
pub open spec fn helix_feeds(
    center: Point2,
    radius: int,
    safe_z: int,
    target_z: int,
    plunge_feed: i64,
    n: int,
    k: int,
) -> Seq<ToolMotion>
    decreases k,
{
    if k <= 0 {
        Seq::empty()
    } else {
        helix_feeds(center, radius, safe_z, target_z, plunge_feed, n, k - 1).push(
            ToolMotion::Feed {
                to: helix_point(center, radius, safe_z, target_z, k - 1, n),
                feed: plunge_feed,
            },
        )
    }
}

/// The number of revolutions that a helical entry makes: at least one.
pub open spec fn turns(revolutions: usize) -> int {
    if revolutions < 1 {
        1
    } else {
        revolutions as int
    }
}

/// A helical entry: the rapid to the helix start on the safe height, the
/// helix feeds at the plunge feed, one every ten degrees, and the feed to the
/// centre at `target_z`.
pub open spec fn helix_sequence(
    center: Point2,
    target_z: i64,
    feed: i64,
    settings: LinkingSettings,
    radius: i64,
    revolutions: usize,
) -> Seq<ToolMotion> {
    let n = turns(revolutions) * 36;
    seq![
        ToolMotion::Rapid {
            to: Point3 { x: (center.x + radius) as i64, y: center.y, z: settings.safe_z },
        },
    ] + helix_feeds(
        center,
        radius as int,
        settings.safe_z as int,
        target_z as int,
        settings.plunge_feed,
        n,
        n + 1,
    ).push(ToolMotion::Feed { to: Point3 { x: center.x, y: center.y, z: target_z }, feed })
}

/// The moves that bring the tool from where it stands into the material at
/// `start`.
pub open spec fn entry_sequence(
    last: Option<Point3>,
    start: Point2,
    next: Option<Point2>,
    target_z: i64,
    feed: i64,
    settings: LinkingSettings,
) -> Seq<ToolMotion> {
    match settings.ramp {
        RampStrategy::Helical { radius, revolutions } => helix_sequence(
            start,
            target_z,
            feed,
            settings,
            radius,
            revolutions,
        ),
        RampStrategy::Linear { .. } => rapid_to_safe_moves(last, start, settings.safe_z).push(
            ToolMotion::Feed {
                to: match next {
                    Some(p) => Point3 { x: p.x, y: p.y, z: target_z },
                    None => Point3 { x: start.x, y: start.y, z: target_z },
                },
                feed: settings.plunge_feed,
            },
        ),
        RampStrategy::Plunge => rapid_to_safe_moves(last, start, settings.safe_z).push(
            ToolMotion::Feed {
                to: Point3 { x: start.x, y: start.y, z: target_z },
                feed: settings.plunge_feed,
            },
        ),
    }
}

/// The index in the loop from which cutting goes on after the entry: one
/// when a linear ramp has used up the second point, else zero.
pub open spec fn entry_index(ramp: RampStrategy, next: Option<Point2>) -> int {
    match ramp {
        RampStrategy::Linear { .. } => if next is Some {
            1
        } else {
            0
        },
        _ => 0,
    }
}

/// Whether a ramp can be carried out: a helix has a radius inside the
/// coordinate range and at most [`MAX_REVOLUTIONS`] revolutions.
pub open spec fn ramp_ok(ramp: RampStrategy) -> bool {
    ramp matches RampStrategy::Helical { radius, revolutions } ==> abs_int(radius as int)
        <= COORD_LIMIT && revolutions <= MAX_REVOLUTIONS
}

/// Whether every feed of `motions` ends at height `z` or above.
pub open spec fn feeds_at_or_above(motions: Seq<ToolMotion>, z: int) -> bool {
    forall|i: int|
        0 <= i < motions.len() ==> ((#[trigger] motions[i]) matches ToolMotion::Feed { to, .. }
            ==> to.z >= z)
}

/// Whether some feed of `motions` ends at height `z`.
pub open spec fn some_feed_at(motions: Seq<ToolMotion>, z: int) -> bool {
    exists|i: int|
        0 <= i < motions.len() && ((#[trigger] motions[i]) matches ToolMotion::Feed { to, .. }
            && to.z == z)
}

/// The height of a helix point lies between the safe height and the target.
pub proof fn lemma_helix_z_between(safe_z: int, target_z: int, i: int, n: int)
    requires
        0 <= i <= n,
        n > 0,
    ensures
        safe_z <= target_z ==> safe_z <= helix_z(safe_z, target_z, i, n) <= target_z,
        target_z <= safe_z ==> target_z <= helix_z(safe_z, target_z, i, n) <= safe_z,
{
    let delta = target_z - safe_z;
    let m = abs_int(delta) * i;
    assert(0 <= m <= abs_int(delta) * n) by (nonlinear_arith)
        requires
            m == abs_int(delta) * i,
            0 <= i <= n,
            abs_int(delta) >= 0,
    ;
    let a = abs_int(delta);
    assert(0 <= (m + n / 2) / n <= a) by (nonlinear_arith)
        requires
            0 <= m <= a * n,
            n > 0,
    ;
    if delta >= 0 {
        assert(delta * i == m);
    } else {
        assert(-(delta * i) == m) by (nonlinear_arith)
            requires
                m == (-delta) * i,
        ;
        if i == 0 {
            assert(delta * i == 0);
            assert((0 + n / 2) / n == 0) by (nonlinear_arith)
                requires
                    n > 0,
            ;
        } else {
            assert(delta * i < 0) by (nonlinear_arith)
                requires
                    delta < 0,
                    i > 0,
            ;
        }
    }
}

fn helix_point_at(center: Point2, radius: i64, safe_z: i64, target_z: i64, i: usize, n: usize) -> (p:
    Point3)
    requires
        center.within(WIDE_LIMIT as int),
        abs_int(radius as int) <= COORD_LIMIT,
        0 < n <= MAX_REVOLUTIONS * 36,
        i <= n,
    ensures
        p == helix_point(center, radius as int, safe_z as int, target_z as int, i as int, n as int),
{
    let k = i % 36;
    let c = cos_step_of(k);
    let s = cos_step_of((k + 27) % 36);
    proof {
        lemma_product_bound(radius as int, c as int, COORD_LIMIT as int, TRIG_SCALE as int);
        lemma_product_bound(radius as int, s as int, COORD_LIMIT as int, TRIG_SCALE as int);
        assert(COORD_LIMIT * TRIG_SCALE == 274_877_906_944_000_000_000int) by (nonlinear_arith);
    }
    let dx = div_round((radius as i128) * (c as i128), TRIG_SCALE as i128);
    let dy = div_round((radius as i128) * (s as i128), TRIG_SCALE as i128);
    let delta: i128 = target_z as i128 - safe_z as i128;
    proof {
        lemma_product_bound(
            delta as int,
            i as int,
            0x1_0000_0000_0000_0000,
            MAX_REVOLUTIONS as int * 36,
        );
        lemma_helix_z_between(safe_z as int, target_z as int, i as int, n as int);
    }
    let dz = div_round(delta * (i as i128), n as i128);
    Point3 {
        x: (center.x as i128 + dx) as i64,
        y: (center.y as i128 + dy) as i64,
        z: (safe_z as i128 + dz) as i64,
    }
}

/// Appends the helix feeds for the points `0..=total`.
fn helix_descent(
    path: &mut Toolpath,
    entry_center: Point2,
    target_z: i64,
    settings: &LinkingSettings,
    radius: i64,
    total: usize,
)
    requires
        entry_center.within(WIDE_LIMIT as int),
        abs_int(radius as int) <= COORD_LIMIT,
        0 < total <= MAX_REVOLUTIONS * 36,
    ensures
        final(path).motions@ == old(path).motions@ + helix_feeds(
            entry_center,
            radius as int,
            settings.safe_z as int,
            target_z as int,
            settings.plunge_feed,
            total as int,
            total + 1,
        ),
        final(path).name == old(path).name,
        final(path).safe_z == old(path).safe_z,
{
    let ghost before = path.motions@;
    let mut i: usize = 0;
    assert(path.motions@ =~= before + Seq::<ToolMotion>::empty());
    while i <= total
        invariant
            entry_center.within(WIDE_LIMIT as int),
            abs_int(radius as int) <= COORD_LIMIT,
            0 < total <= MAX_REVOLUTIONS * 36,
            i <= total + 1,
            path.name == old(path).name,
            path.safe_z == old(path).safe_z,
            path.motions@ == before + helix_feeds(
                entry_center,
                radius as int,
                settings.safe_z as int,
                target_z as int,
                settings.plunge_feed,
                total as int,
                i as int,
            ),
        decreases total + 1 - i,
    {
        let p = helix_point_at(entry_center, radius, settings.safe_z, target_z, i, total);
        let ghost done = helix_feeds(
            entry_center,
            radius as int,
            settings.safe_z as int,
            target_z as int,
            settings.plunge_feed,
            total as int,
            i as int,
        );
        let ghost m = ToolMotion::Feed { to: p, feed: settings.plunge_feed };
        path.push(ToolMotion::Feed { to: p, feed: settings.plunge_feed });
        assert(helix_feeds(
            entry_center,
            radius as int,
            settings.safe_z as int,
            target_z as int,
            settings.plunge_feed,
            total as int,
            i + 1,
        ) == done.push(m));
        assert((before + done).push(m) =~= before + done.push(m));
        i = i + 1;
    }
}

fn helical_entry(
    path: &mut Toolpath,
    entry_center: Point2,
    target_z: i64,
    feed: i64,
    settings: &LinkingSettings,
    radius: i64,
    revolutions: usize,
)
    requires
        entry_center.within(WIDE_LIMIT as int),
        abs_int(radius as int) <= COORD_LIMIT,
        revolutions <= MAX_REVOLUTIONS,
    ensures
        final(path).motions@ == old(path).motions@ + helix_sequence(
            entry_center,
            target_z,
            feed,
            *settings,
            radius,
            revolutions,
        ),
        final(path).name == old(path).name,
        final(path).safe_z == old(path).safe_z,
{
    let revs: usize = if revolutions < 1 {
        1
    } else {
        revolutions
    };
    let total: usize = revs * SEGMENTS_PER_REVOLUTION;
    let ghost before = path.motions@;
    let ghost first = ToolMotion::Rapid {
        to: Point3 {
            x: (entry_center.x + radius) as i64,
            y: entry_center.y,
            z: settings.safe_z,
        },
    };
    let ghost feeds = helix_feeds(
        entry_center,
        radius as int,
        settings.safe_z as int,
        target_z as int,
        settings.plunge_feed,
        total as int,
        total + 1,
    );
    let ghost closing = ToolMotion::Feed {
        to: Point3 { x: entry_center.x, y: entry_center.y, z: target_z },
        feed,
    };
    path.push(
        ToolMotion::Rapid {
            to: Point3 { x: entry_center.x + radius, y: entry_center.y, z: settings.safe_z },
        },
    );
    helix_descent(path, entry_center, target_z, settings, radius, total);
    path.push(
        ToolMotion::Feed {
            to: Point3 { x: entry_center.x, y: entry_center.y, z: target_z },
            feed,
        },
    );
    assert(total == turns(revolutions) * 36);
    assert(path.motions@ == (before.push(first) + feeds).push(closing));
    assert(helix_sequence(entry_center, target_z, feed, *settings, radius, revolutions) == seq![
        first,
    ] + feeds.push(closing));
    assert((before.push(first) + feeds).push(closing) =~= before + (seq![first] + feeds.push(
        closing,
    )));
}

/// Brings the tool into the material at `start_xy` by the ramp of
/// `settings`, and returns the index in the loop from which cutting goes on.
pub fn entry_moves(
    path: &mut Toolpath,
    start_xy: Point2,
    next_xy: Option<Point2>,
    target_z: i64,
    feed: i64,
    settings: &LinkingSettings,
) -> (start_idx: usize)
    requires
        ramp_ok(settings.ramp),
        start_xy.within(WIDE_LIMIT as int),
    ensures
        final(path).motions@ == old(path).motions@ + entry_sequence(
            last_position_of(old(path).motions@),
            start_xy,
            next_xy,
            target_z,
            feed,
            *settings,
        ),
        start_idx == entry_index(settings.ramp, next_xy),
        final(path).name == old(path).name,
        final(path).safe_z == old(path).safe_z,
{
    let ghost before = path.motions@;
    match settings.ramp {
        RampStrategy::Helical { radius, revolutions } => {
            helical_entry(path, start_xy, target_z, feed, settings, radius, revolutions);
            0
        },
        RampStrategy::Linear { .. } => {
            rapid_to_safe(path, start_xy, settings);
            match next_xy {
                Some(next) => {
                    path.push(
                        ToolMotion::Feed {
                            to: Point3 { x: next.x, y: next.y, z: target_z },
                            feed: settings.plunge_feed,
                        },
                    );
                    assert(path.motions@ =~= before + entry_sequence(
                        last_position_of(before),
                        start_xy,
                        next_xy,
                        target_z,
                        feed,
                        *settings,
                    ));
                    1
                },
                None => {
                    path.push(
                        ToolMotion::Feed {
                            to: Point3 { x: start_xy.x, y: start_xy.y, z: target_z },
                            feed: settings.plunge_feed,
                        },
                    );
                    assert(path.motions@ =~= before + entry_sequence(
                        last_position_of(before),
                        start_xy,
                        next_xy,
                        target_z,
                        feed,
                        *settings,
                    ));
                    0
                },
            }
        },
        RampStrategy::Plunge => {
            rapid_to_safe(path, start_xy, settings);
            path.push(
                ToolMotion::Feed {
                    to: Point3 { x: start_xy.x, y: start_xy.y, z: target_z },
                    feed: settings.plunge_feed,
                },
            );
            assert(path.motions@ =~= before + entry_sequence(
                last_position_of(before),
                start_xy,
                next_xy,
                target_z,
                feed,
                *settings,
            ));
            0
        },
    }
}

/// The feed that lifts the tool out of the material above `end_xy`.
pub open spec fn exit_motion(end_xy: Point2, settings: LinkingSettings) -> ToolMotion {
    ToolMotion::Feed {
        to: Point3 { x: end_xy.x, y: end_xy.y, z: settings.safe_z },
        feed: settings.plunge_feed,
    }
}

/// Feeds the tool up to the safe height above `end_xy` at the plunge feed.
pub fn exit_moves(path: &mut Toolpath, end_xy: Point2, settings: &LinkingSettings)
    ensures
        final(path).motions@ == old(path).motions@.push(exit_motion(end_xy, *settings)),
        final(path).name == old(path).name,
        final(path).safe_z == old(path).safe_z,
{
    path.push(
        ToolMotion::Feed {
            to: Point3 { x: end_xy.x, y: end_xy.y, z: settings.safe_z },
            feed: settings.plunge_feed,
        },
    );
}

/// Every rapid of an entry ends at the safe height.
pub proof fn lemma_entry_rapids_safe(
    last: Option<Point3>,
    start: Point2,
    next: Option<Point2>,
    target_z: i64,
    feed: i64,
    settings: LinkingSettings,
)
    ensures
        rapids_at(
            entry_sequence(last, start, next, target_z, feed, settings),
            settings.safe_z as int,
        ),
{
    let e = entry_sequence(last, start, next, target_z, feed, settings);
    match settings.ramp {
        RampStrategy::Helical { radius, revolutions } => {
            let n = turns(revolutions) * 36;
            let feeds = helix_feeds(
                start,
                radius as int,
                settings.safe_z as int,
                target_z as int,
                settings.plunge_feed,
                n,
                n + 1,
            );
            lemma_helix_feeds_shape(
                start,
                radius as int,
                settings.safe_z as int,
                target_z as int,
                settings.plunge_feed,
                n,
                n + 1,
            );
            assert forall|i: int| 0 <= i < e.len() implies ((#[trigger] e[i]) matches ToolMotion::Rapid {
                to,
            } ==> to.z == settings.safe_z) by {
                if 1 <= i && i < 1 + feeds.len() {
                    assert(e[i] == feeds[i - 1]);
                }
            }
        },
        _ => {},
    }
}

/// The helix feeds are feeds, one for each point.
pub proof fn lemma_helix_feeds_shape(
    center: Point2,
    radius: int,
    safe_z: int,
    target_z: int,
    plunge_feed: i64,
    n: int,
    k: int,
)
    requires
        k >= 0,
    ensures
        helix_feeds(center, radius, safe_z, target_z, plunge_feed, n, k).len() == k,
        forall|i: int|
            0 <= i < k ==> #[trigger] helix_feeds(
                center,
                radius,
                safe_z,
                target_z,
                plunge_feed,
                n,
                k,
            )[i] == (ToolMotion::Feed {
                to: helix_point(center, radius, safe_z, target_z, i, n),
                feed: plunge_feed,
            }),
    decreases k,
{
    if k > 0 {
        lemma_helix_feeds_shape(center, radius, safe_z, target_z, plunge_feed, n, k - 1);
    }
}

} // verus!
