//! Holding tabs: stretches of a closed loop that are cut less deep.
use vstd::prelude::*;
use crate::units::{div_floor, rem_wrap, POSITION_EPS, UNITS_PER_MM};

verus! {

/// Largest loop length and travelled distance that tab lookup accepts.
pub const LOOP_LIMIT: i128 = 0x1_0000_0000_0000_0000_0000;

#[derive(Debug, Clone, Copy, PartialEq, Eq, Structural)]
pub struct Tab {
    /// Where the tab's centre lies along the loop, in millionths of the
    /// loop's length.
    pub position: i64,
    /// The tab's length along the loop.
    pub width: i64,
    /// How far the tab rises above the final depth.
    pub height: i64,
}

impl Tab {
    pub fn new(position: i64, width: i64, height: i64) -> (t: Self)
        ensures
            t == (Tab { position, width, height }),
    {
        Tab { position, width, height }
    }

    /// Where the tab's centre lies on a loop of length `loop_length`.
    pub open spec fn center(self, loop_length: int) -> int {
        ((self.position as int % UNITS_PER_MM as int) * loop_length) / (UNITS_PER_MM as int)
    }

    /// Where the tab begins on a loop of length `loop_length`.
    pub open spec fn start(self, loop_length: int) -> int {
        (self.center(loop_length) - self.width as int / 2) % loop_length
    }

    /// Where the tab ends on a loop of length `loop_length`.
    pub open spec fn end(self, loop_length: int) -> int {
        (self.center(loop_length) + self.width as int / 2) % loop_length
    }

    /// Whether the loop position `wrapped` lies on the tab, within the
    /// position tolerance. A tab whose end lies before its start wraps round
    /// the loop's origin.
    pub open spec fn covers(self, wrapped: int, loop_length: int) -> bool {
        let start = self.start(loop_length);
        let end = self.end(loop_length);
        if start <= end {
            wrapped >= start - POSITION_EPS && wrapped <= end + POSITION_EPS
        } else {
            wrapped >= start - POSITION_EPS || wrapped <= end + POSITION_EPS
        }
    }
}

/// The smaller of zero and `depth`.
pub open spec fn capped(depth: int) -> int {
    if depth < 0 {
        depth
    } else {
        0
    }
}

/// The depth at loop position `wrapped`, decided by the first tab from index
/// `i` on that covers it.
pub open spec fn tab_depth_from(
    wrapped: int,
    loop_length: int,
    target_depth: int,
    tabs: Seq<Tab>,
    i: int,
) -> int
    decreases tabs.len() - i,
{
    if i < 0 || i >= tabs.len() {
        target_depth
    } else if tabs[i].covers(wrapped, loop_length) {
        capped(target_depth + tabs[i].height)
    } else {
        tab_depth_from(wrapped, loop_length, target_depth, tabs, i + 1)
    }
}

/// The cutting depth after `distance` along a loop of length `loop_length`:
/// `target_depth`, or on the first tab that covers the position the tab's
/// top, which never lies above zero.
pub open spec fn tab_depth(distance: int, loop_length: int, target_depth: int, tabs: Seq<Tab>) -> int {
    if loop_length <= POSITION_EPS || tabs.len() == 0 {
        target_depth
    } else {
        tab_depth_from(distance % loop_length, loop_length, target_depth, tabs, 0)
    }
}

/// Whether every tab's top, measured from `target_depth`, fits the scalar
/// type.
pub open spec fn tabs_fit(target_depth: int, tabs: Seq<Tab>) -> bool {
    forall|i: int| 0 <= i < tabs.len() ==> target_depth + (#[trigger] tabs[i]).height >= i64::MIN
}

/// The depth never lies below `target_depth` when no tab's height is
/// negative and the target does not lie above zero.
pub proof fn lemma_tab_depth_bounds(
    wrapped: int,
    loop_length: int,
    target_depth: int,
    tabs: Seq<Tab>,
    i: int,
)
    requires
        0 <= i,
        target_depth <= 0,
        forall|k: int| 0 <= k < tabs.len() ==> (#[trigger] tabs[k]).height >= 0,
    ensures
        target_depth <= tab_depth_from(wrapped, loop_length, target_depth, tabs, i) <= 0,
    decreases tabs.len() - i,
{
    if i < tabs.len() && !tabs[i].covers(wrapped, loop_length) {
        lemma_tab_depth_bounds(wrapped, loop_length, target_depth, tabs, i + 1);
    }
}

fn tab_covers(tab: &Tab, wrapped: i128, loop_length: i128) -> (b: bool)
    requires
        POSITION_EPS < loop_length <= LOOP_LIMIT,
        0 <= wrapped < loop_length,
    ensures
        b == tab.covers(wrapped as int, loop_length as int),
{
    let frac = rem_wrap(tab.position as i128, UNITS_PER_MM as i128);
    assert(frac * loop_length <= UNITS_PER_MM * LOOP_LIMIT) by (nonlinear_arith)
        requires
            0 <= frac < UNITS_PER_MM,
            0 < loop_length <= LOOP_LIMIT,
    ;
    assert(frac * loop_length >= 0) by (nonlinear_arith)
        requires
            0 <= frac,
            0 < loop_length,
    ;
    let center = div_floor(frac * loop_length, UNITS_PER_MM as i128);
    assert(0 <= center <= frac * loop_length) by (nonlinear_arith)
        requires
            center * UNITS_PER_MM <= frac * loop_length < center * UNITS_PER_MM + UNITS_PER_MM,
            frac * loop_length >= 0,
    ;
    let half = div_floor(tab.width as i128, 2);
    let start = rem_wrap(center - half, loop_length);
    let end = rem_wrap(center + half, loop_length);
    if start <= end {
        wrapped >= start - POSITION_EPS as i128 && wrapped <= end + POSITION_EPS as i128
    } else {
        wrapped >= start - POSITION_EPS as i128 || wrapped <= end + POSITION_EPS as i128
    }
}

/// Looks up the cutting depth after `distance` along a closed loop of length
/// `loop_length`: `target_depth`, raised to the top of the first tab that
/// covers the position, and never above zero there.
pub fn depth_with_tabs(distance: i128, loop_length: i128, target_depth: i64, tabs: &[Tab]) -> (d:
    i64)
    requires
        loop_length <= LOOP_LIMIT,
        -LOOP_LIMIT <= distance <= LOOP_LIMIT,
        tabs_fit(target_depth as int, tabs@),
    ensures
        d == tab_depth(distance as int, loop_length as int, target_depth as int, tabs@),
{
    if loop_length <= POSITION_EPS as i128 || tabs.len() == 0 {
        return target_depth;
    }
    let wrapped = rem_wrap(distance, loop_length);
    let mut i: usize = 0;
    while i < tabs.len()
        invariant
            i <= tabs.len(),
            POSITION_EPS < loop_length <= LOOP_LIMIT,
            0 <= wrapped < loop_length,
            wrapped as int == distance as int % loop_length as int,
            tabs.len() > 0,
            tabs_fit(target_depth as int, tabs@),
            tab_depth_from(wrapped as int, loop_length as int, target_depth as int, tabs@, 0)
                == tab_depth_from(
                wrapped as int,
                loop_length as int,
                target_depth as int,
                tabs@,
                i as int,
            ),
        decreases tabs.len() - i,
    {
        let tab = tabs[i];
        if tab_covers(&tab, wrapped, loop_length) {
            let top: i128 = target_depth as i128 + tab.height as i128;
            if top < 0 {
                return top as i64;
            } else {
                return 0;
            }
        }
        i = i + 1;
    }
    target_depth
}

} // verus!
