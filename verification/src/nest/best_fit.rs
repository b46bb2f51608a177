//! The best-fit packer: each piece goes into the free rectangle that it
//! fills best.
use vstd::prelude::*;
use crate::nest::error::{NestError, NestErrorView, NestResult};
use crate::nest::linear::NEST_LIMIT;
use crate::nest::metrics::{MetricKind, UtilizationBreakdown};
use crate::nest::order::{lemma_sorted_keys, sort_keys, sorted_keys, SortKey};
use crate::nest::planar::{
    all_placed_ok, check_planar, expand_parts, find_unused, first_unused, inst_keys, inst_ok,
    instances_of, insts_in_order, lemma_no_fault, name_placements, named, options, placed_area,
    placed_ok, planar_fault, rect_parts_view, sheet_key, sheet_ranks, sheets_ok, sheets_view,
    sum_area, trim_area, GrainDirection, Inst, OffcutRect, Orient, Placed, PlanarNestConfig,
    RectPart, RectPartView, SheetLayout, SheetLayoutView, SheetStock, SheetStockView, SortBy,
    AREA_MAX, MAX_PIECES,
};
use crate::units::{abs_int, lemma_product_bound, AREA_EPS};

verus! {

/// A free rectangle of a sheet.
#[derive(Debug, Clone, Copy, PartialEq, Eq, Structural)]
pub struct FreeRect {
    pub x: i64,
    pub y: i64,
    pub width: i64,
    pub height: i64,
}

/// Whether the rectangle is not empty and lies inside the supported range.
pub open spec fn rect_ok(r: FreeRect) -> bool {
    &&& 0 <= r.x
    &&& 0 <= r.y
    &&& 1 <= r.width
    &&& 1 <= r.height
    &&& r.x + r.width <= NEST_LIMIT
    &&& r.y + r.height <= NEST_LIMIT
}

/// Whether all rectangles are sound.
pub open spec fn rects_ok(rects: Seq<FreeRect>) -> bool {
    forall|k: int| 0 <= k < rects.len() ==> rect_ok(#[trigger] rects[k])
}

/// Whether the piece, lying as `o` says, fits into the rectangle.
pub open spec fn rect_fits(r: FreeRect, o: Orient) -> bool {
    o.width <= r.width && o.height <= r.height
}

/// The area of the rectangle that the piece leaves.
pub open spec fn waste(r: FreeRect, o: Orient) -> int {
    r.width * r.height - o.width * o.height
}

/// How far the piece is from the rectangle in width and in height.
pub open spec fn slack(r: FreeRect, o: Orient) -> int {
    abs_int(r.width - o.width) + abs_int(r.height - o.height)
}

/// A rectangle and how the piece lies in it.
pub struct Choice {
    pub rect: int,
    pub orient: Orient,
}

/// Whether a candidate beats the choice made so far: it leaves less area,
/// or as much area, within [`AREA_EPS`], and less slack.
pub open spec fn better(rects: Seq<FreeRect>, candidate: Choice, current: Choice) -> bool {
    let s0 = waste(rects[candidate.rect], candidate.orient);
    let c0 = waste(rects[current.rect], current.orient);
    s0 < c0 || (abs_int(s0 - c0) < AREA_EPS && slack(rects[candidate.rect], candidate.orient)
        < slack(rects[current.rect], current.orient))
}

/// The choice after one more candidate.
pub open spec fn consider(best: Option<Choice>, rects: Seq<FreeRect>, idx: int, o: Orient) -> Option<
    Choice,
> {
    if !rect_fits(rects[idx], o) {
        best
    } else {
        match best {
            None => Some(Choice { rect: idx, orient: o }),
            Some(c) => if better(rects, Choice { rect: idx, orient: o }, c) {
                Some(Choice { rect: idx, orient: o })
            } else {
                best
            },
        }
    }
}

/// The choice after the first `n` ways in which the piece may lie in
/// rectangle `idx`.
pub open spec fn consider_all(
    best: Option<Choice>,
    rects: Seq<FreeRect>,
    idx: int,
    opts: Seq<Orient>,
    n: int,
) -> Option<Choice>
    decreases n,
{
    if n <= 0 {
        best
    } else {
        consider(consider_all(best, rects, idx, opts, n - 1), rects, idx, opts[n - 1])
    }
}

/// The best choice among the first `k` rectangles.
pub open spec fn best_choice(rects: Seq<FreeRect>, k: int, opts: Seq<Orient>) -> Option<Choice>
    decreases k,
{
    if k <= 0 {
        None
    } else {
        consider_all(best_choice(rects, k - 1, opts), rects, k - 1, opts, opts.len() as int)
    }
}

/// The rectangles without the one at `idx`: the last takes its place.
pub open spec fn swap_removed(rects: Seq<FreeRect>, idx: int) -> Seq<FreeRect> {
    rects.update(idx, rects.last()).drop_last()
}

/// Whether `b` lies inside `a`.
pub open spec fn contains_rect(a: FreeRect, b: FreeRect) -> bool {
    &&& b.x >= a.x
    &&& b.y >= a.y
    &&& b.x + b.width <= a.x + a.width
    &&& b.y + b.height <= a.y + a.height
}

/// The rectangles without those that lie inside another: each rectangle
/// from `i` on is compared with those behind it from `j` on; the one that
/// lies inside the other goes, and the last rectangle takes the free place.
pub open spec fn pruned(rects: Seq<FreeRect>, i: int, j: int) -> Seq<FreeRect>
    decreases rects.len() - i, rects.len() - j,
{
    if i < 0 || j <= i || i >= rects.len() {
        rects
    } else if j >= rects.len() {
        pruned(rects, i + 1, i + 2)
    } else if contains_rect(rects[i], rects[j]) {
        pruned(swap_removed(rects, j), i, j)
    } else if contains_rect(rects[j], rects[i]) {
        pruned(swap_removed(rects.update(i, rects[j]), j), i, j)
    } else {
        pruned(rects, i, j + 1)
    }
}

/// The strip that is left beside the piece, over the full height of the
/// rectangle.
pub open spec fn right_strip(r: FreeRect, o: Orient, kerf: int) -> Seq<FreeRect> {
    if r.width - o.width - kerf > 0 {
        seq![
            FreeRect {
                x: (r.x + o.width + kerf) as i64,
                y: r.y,
                width: (r.width - o.width - kerf) as i64,
                height: r.height,
            },
        ]
    } else {
        Seq::empty()
    }
}

/// The strip that is left above the piece, as wide as piece and kerf.
pub open spec fn top_strip(r: FreeRect, o: Orient, kerf: int) -> Seq<FreeRect> {
    if r.height - o.height - kerf > 0 {
        seq![
            FreeRect {
                x: r.x,
                y: (r.y + o.height + kerf) as i64,
                width: (if o.width + kerf < r.width {
                    o.width + kerf
                } else {
                    r.width as int
                }) as i64,
                height: (r.height - o.height - kerf) as i64,
            },
        ]
    } else {
        Seq::empty()
    }
}

/// The free rectangles after the piece has been placed as chosen.
pub open spec fn free_after(free: Seq<FreeRect>, c: Choice, kerf: int) -> Seq<FreeRect> {
    pruned(
        swap_removed(free, c.rect) + right_strip(free[c.rect], c.orient, kerf) + top_strip(
            free[c.rect],
            c.orient,
            kerf,
        ),
        0,
        1,
    )
}

/// A sheet while it is filled.
pub struct SheetModel {
    /// The position of the sheet's kind in the list of stock.
    pub stock: int,
    /// The number of the sheet among those of its kind.
    pub index: usize,
    pub free: Seq<FreeRect>,
    pub placed: Seq<Placed>,
}

/// The sheet with the piece placed where it fits best, if it fits
/// anywhere: in the corner of the chosen rectangle.
pub open spec fn hosted(sheet: SheetModel, inst: Inst, kerf: int) -> Option<SheetModel> {
    match best_choice(sheet.free, sheet.free.len() as int, options(inst)) {
        None => None,
        Some(c) => Some(
            SheetModel {
                stock: sheet.stock,
                index: sheet.index,
                free: free_after(sheet.free, c, kerf),
                placed: sheet.placed.push(
                    Placed {
                        part: inst.part,
                        x: sheet.free[c.rect].x,
                        y: sheet.free[c.rect].y,
                        width: c.orient.width,
                        height: c.orient.height,
                        rotated: c.orient.rotated,
                    },
                ),
            },
        ),
    }
}

/// A fresh sheet: all inside the trims is free.
pub open spec fn fresh_sheet(s: int, index: usize, stock: Seq<SheetStockView>, trim: int) -> SheetModel {
    SheetModel {
        stock: s,
        index,
        free: seq![
            FreeRect {
                x: trim as i64,
                y: trim as i64,
                width: (stock[s].width - 2 * trim) as i64,
                height: (stock[s].height - 2 * trim) as i64,
            },
        ],
        placed: Seq::empty(),
    }
}

/// The position of the first sheet from `from` on that takes the piece, or
/// the number of sheets if there is none.
pub open spec fn first_host(sheets: Seq<SheetModel>, inst: Inst, kerf: int, from: int) -> int
    decreases sheets.len() - from,
{
    if from < 0 || from >= sheets.len() {
        sheets.len() as int
    } else if hosted(sheets[from], inst, kerf) is Some {
        from
    } else {
        first_host(sheets, inst, kerf, from + 1)
    }
}

/// The sheets in use and the number of sheets taken of each kind.
pub struct SheetPacking {
    pub sheets: Seq<SheetModel>,
    pub used: Seq<usize>,
}

/// Whether a sheet is too small for its trims.
pub open spec fn too_small(s: SheetStockView, trim: int) -> bool {
    s.width <= 2 * trim || s.height <= 2 * trim
}

/// The packing with one more piece: on the first sheet that takes it, or
/// else on a fresh sheet of the first kind that is left.
pub open spec fn place_inst(
    p: SheetPacking,
    inst: Inst,
    stock: Seq<SheetStockView>,
    config: PlanarNestConfig,
) -> Result<SheetPacking, NestErrorView> {
    let j = first_host(p.sheets, inst, config.kerf as int, 0);
    if j < p.sheets.len() {
        Ok(
            SheetPacking {
                sheets: p.sheets.update(j, hosted(p.sheets[j], inst, config.kerf as int)->Some_0),
                used: p.used,
            },
        )
    } else {
        let s = first_unused(p.used, stock, 0);
        if s >= stock.len() {
            Err(NestErrorView::InsufficientStock)
        } else if too_small(stock[s], config.trim as int) {
            Err(NestErrorView::InvalidDimension("sheet dimensions smaller than trim allowance"@))
        } else {
            match hosted(
                fresh_sheet(s, p.used[s], stock, config.trim as int),
                inst,
                config.kerf as int,
            ) {
                None => Err(NestErrorView::InsufficientStock),
                Some(sheet) => Ok(
                    SheetPacking {
                        sheets: p.sheets.push(sheet),
                        used: p.used.update(s, (p.used[s] + 1) as usize),
                    },
                ),
            }
        }
    }
}

/// The packing of the first `k` pieces.
pub open spec fn pack_sheets(
    insts: Seq<Inst>,
    k: int,
    stock: Seq<SheetStockView>,
    config: PlanarNestConfig,
) -> Result<SheetPacking, NestErrorView>
    decreases k,
{
    if k <= 0 {
        Ok(SheetPacking { sheets: Seq::empty(), used: Seq::new(stock.len(), |i: int| 0usize) })
    } else {
        match pack_sheets(insts, k - 1, stock, config) {
            Err(e) => Err(e),
            Ok(p) => place_inst(p, insts[k - 1], stock, config),
        }
    }
}

/// What the cuts round the first `k` placed pieces take: for each piece
/// half the kerf along its outline.
pub open spec fn placed_kerf(placed: Seq<Placed>, k: int, kerf: int) -> int
    decreases k,
{
    if k <= 0 {
        0
    } else {
        placed_kerf(placed, k - 1, kerf) + (placed[k - 1].width + placed[k - 1].height) * kerf
    }
}

/// `v`, or nothing if `v` is less than nothing.
pub open spec fn at_least_zero(v: int) -> int {
    if v > 0 {
        v
    } else {
        0
    }
}

/// How a sheet is used.
pub open spec fn sheet_metrics(
    sheet: SheetModel,
    stock: Seq<SheetStockView>,
    config: PlanarNestConfig,
) -> UtilizationBreakdown {
    let total = stock[sheet.stock].width * stock[sheet.stock].height;
    let trim = at_least_zero(
        trim_area(
            stock[sheet.stock].width as int,
            stock[sheet.stock].height as int,
            config.trim as int,
        ),
    );
    let kerf = placed_kerf(sheet.placed, sheet.placed.len() as int, config.kerf as int);
    let used = placed_area(sheet.placed, sheet.placed.len() as int);
    UtilizationBreakdown {
        kind: MetricKind::Area,
        utilized: used as i128,
        kerf_loss: kerf as i128,
        trim_loss: trim as i128,
        offcut_loss: at_least_zero(total - (used + kerf + trim)) as i128,
        stock_total: total as i128,
    }
}

/// The free rectangles as offcuts.
pub open spec fn as_offcuts(free: Seq<FreeRect>) -> Seq<OffcutRect> {
    free.map_values(|r: FreeRect| OffcutRect { x: r.x, y: r.y, width: r.width, height: r.height })
}

/// The sheet as it is handed out.
pub open spec fn finished_sheet(
    sheet: SheetModel,
    parts: Seq<RectPartView>,
    stock: Seq<SheetStockView>,
    config: PlanarNestConfig,
) -> SheetLayoutView {
    SheetLayoutView {
        stock_id: stock[sheet.stock].id,
        index: sheet.index,
        placements: named(sheet.placed, parts),
        offcuts: as_offcuts(pruned(sheet.free, 0, 1)),
        metrics: sheet_metrics(sheet, stock, config),
    }
}

/// The keys of the sheets.
pub open spec fn sheet_keys(sheets: Seq<SheetModel>, stock: Seq<SheetStockView>) -> Seq<SortKey> {
    Seq::new(sheets.len(), |i: int| sheet_key(sheets[i].stock, sheets[i].index, stock, i))
}

/// The sheets as they are handed out, in the order of the names of their
/// stock and of their numbers.
pub open spec fn sheets_out(
    sheets: Seq<SheetModel>,
    parts: Seq<RectPartView>,
    stock: Seq<SheetStockView>,
    config: PlanarNestConfig,
) -> Seq<SheetLayoutView> {
    sorted_keys(sheet_keys(sheets, stock)).map_values(
        |k: SortKey| finished_sheet(sheets[k.index as int], parts, stock, config),
    )
}

/// The layouts of the parts on the sheets, or the reason why there are
/// none.
pub open spec fn best_fit_layout(
    parts: Seq<RectPartView>,
    stock: Seq<SheetStockView>,
    config: PlanarNestConfig,
) -> Result<Seq<SheetLayoutView>, NestErrorView> {
    match planar_fault(parts, stock, config) {
        Some(e) => Err(e),
        None => {
            let insts = insts_in_order(
                instances_of(parts, parts.len() as int),
                parts,
                config.seed,
                SortBy::Area,
            );
            match pack_sheets(insts, insts.len() as int, stock, config) {
                Err(e) => Err(e),
                Ok(p) => Ok(sheets_out(p.sheets, parts, stock, config)),
            }
        },
    }
}

/// Whether a way to lie has dimensions inside the supported range.
pub open spec fn orient_ok(o: Orient) -> bool {
    0 < o.width <= NEST_LIMIT && 0 < o.height <= NEST_LIMIT
}

/// The ways in which a piece may lie.
pub fn orientations(inst: &Inst) -> (r: Vec<Orient>)
    requires
        0 < inst.width <= NEST_LIMIT,
        0 < inst.height <= NEST_LIMIT,
    ensures
        r@ == options(*inst),
        1 <= r.len() <= 2,
        forall|k: int| 0 <= k < r.len() ==> orient_ok(#[trigger] r@[k]),
{
    let mut out: Vec<Orient> = Vec::new();
    out.push(Orient { width: inst.width, height: inst.height, rotated: false });
    match inst.grain {
        GrainDirection::Either => {
            out.push(Orient { width: inst.height, height: inst.width, rotated: true });
        },
        _ => {},
    }
    assert(out@ =~= options(*inst));
    out
}

fn area_of(width: i64, height: i64) -> (a: i128)
    requires
        0 < width <= NEST_LIMIT,
        0 < height <= NEST_LIMIT,
    ensures
        a == width * height,
        0 < a <= AREA_MAX,
{
    proof {
        lemma_product_bound(width as int, height as int, NEST_LIMIT as int, NEST_LIMIT as int);
        assert(NEST_LIMIT * NEST_LIMIT == AREA_MAX) by (nonlinear_arith);
        assert(width * height > 0) by (nonlinear_arith)
            requires
                width > 0,
                height > 0,
        ;
    }
    (width as i128) * (height as i128)
}

fn waste_of(r: &FreeRect, o: &Orient) -> (w: i128)
    requires
        rect_ok(*r),
        orient_ok(*o),
    ensures
        w == waste(*r, *o),
        -AREA_MAX <= w <= AREA_MAX,
{
    area_of(r.width, r.height) - area_of(o.width, o.height)
}

fn slack_of(r: &FreeRect, o: &Orient) -> (s: i64)
    requires
        rect_ok(*r),
        orient_ok(*o),
    ensures
        s == slack(*r, *o),
{
    let dw = if r.width >= o.width {
        r.width - o.width
    } else {
        o.width - r.width
    };
    let dh = if r.height >= o.height {
        r.height - o.height
    } else {
        o.height - r.height
    };
    dw + dh
}

/// The choice as a position and a way to lie.
spec fn choice_of(best: Option<(usize, Orient)>) -> Option<Choice> {
    match best {
        Some((idx, o)) => Some(Choice { rect: idx as int, orient: o }),
        None => None,
    }
}

/// The choice after one more candidate.
fn consider_one(best: Option<(usize, Orient)>, rects: &Vec<FreeRect>, idx: usize, o: Orient) -> (r:
    Option<(usize, Orient)>)
    requires
        rects_ok(rects@),
        idx < rects.len(),
        orient_ok(o),
        best matches Some((b, bo)) ==> b < rects.len() && orient_ok(bo),
    ensures
        choice_of(r) == consider(choice_of(best), rects@, idx as int, o),
        r matches Some((b, bo)) ==> b < rects.len() && orient_ok(bo),
{
    let rect = rects[idx];
    if !(o.width <= rect.width && o.height <= rect.height) {
        return best;
    }
    match best {
        None => Some((idx, o)),
        Some((b, bo)) => {
            let s0 = waste_of(&rect, &o);
            let c0 = waste_of(&rects[b], &bo);
            let d = s0 - c0;
            let close = d < AREA_EPS && -d < AREA_EPS;
            if s0 < c0 || (close && slack_of(&rect, &o) < slack_of(&rects[b], &bo)) {
                Some((idx, o))
            } else {
                best
            }
        },
    }
}

/// The rectangle that the piece fills best, and how it lies there.
fn pick(rects: &Vec<FreeRect>, opts: &Vec<Orient>) -> (r: Option<(usize, Orient)>)
    requires
        rects_ok(rects@),
        forall|k: int| 0 <= k < opts.len() ==> orient_ok(#[trigger] opts@[k]),
    ensures
        choice_of(r) == best_choice(rects@, rects.len() as int, opts@),
        r matches Some((b, bo)) ==> b < rects.len() && orient_ok(bo),
{
    let mut best: Option<(usize, Orient)> = None;
    let mut idx: usize = 0;
    while idx < rects.len()
        invariant
            idx <= rects.len(),
            rects_ok(rects@),
            forall|k: int| 0 <= k < opts.len() ==> orient_ok(#[trigger] opts@[k]),
            choice_of(best) == best_choice(rects@, idx as int, opts@),
            best matches Some((b, bo)) ==> b < rects.len() && orient_ok(bo),
        decreases rects.len() - idx,
    {
        let mut n: usize = 0;
        let ghost start = choice_of(best);
        while n < opts.len()
            invariant
                n <= opts.len(),
                idx < rects.len(),
                rects_ok(rects@),
                forall|k: int| 0 <= k < opts.len() ==> orient_ok(#[trigger] opts@[k]),
                choice_of(best) == consider_all(start, rects@, idx as int, opts@, n as int),
                best matches Some((b, bo)) ==> b < rects.len() && orient_ok(bo),
            decreases opts.len() - n,
        {
            best = consider_one(best, rects, idx, opts[n]);
            n = n + 1;
        }
        idx = idx + 1;
    }
    best
}

/// Removes the rectangles that lie inside another.
fn prune(rects: &mut Vec<FreeRect>)
    requires
        rects_ok(old(rects)@),
    ensures
        final(rects)@ == pruned(old(rects)@, 0, 1),
        rects_ok(final(rects)@),
        final(rects).len() <= old(rects).len(),
{
    let mut i: usize = 0;
    while i < rects.len()
        invariant
            rects_ok(rects@),
            rects.len() <= old(rects).len(),
            pruned(old(rects)@, 0, 1) == pruned(rects@, i as int, i + 1),
        decreases rects.len() - i,
    {
        let mut j: usize = i + 1;
        let ghost len0 = rects.len();
        while j < rects.len()
            invariant
                i < j,
                i < rects.len(),
                rects.len() <= len0,
                rects_ok(rects@),
                rects.len() <= old(rects).len(),
                pruned(old(rects)@, 0, 1) == pruned(rects@, i as int, j as int),
            decreases rects.len() - j,
        {
            let a = rects[i];
            let b = rects[j];
            let ghost before = rects@;
            if b.x >= a.x && b.y >= a.y && b.x + b.width <= a.x + a.width && b.y + b.height <= a.y
                + a.height {
                rects.swap_remove(j);
                assert(rects@ == swap_removed(before, j as int));
            } else if a.x >= b.x && a.y >= b.y && a.x + a.width <= b.x + b.width && a.y + a.height
                <= b.y + b.height {
                rects[i] = b;
                rects.swap_remove(j);
                assert(rects@ == swap_removed(before.update(i as int, b), j as int));
            } else {
                j = j + 1;
            }
        }
        i = i + 1;
    }
}

/// A sheet while it is filled.
struct SheetState {
    stock: usize,
    index: usize,
    free_rects: Vec<FreeRect>,
    placements: Vec<Placed>,
}

impl SheetState {
    spec fn model(&self) -> SheetModel {
        SheetModel {
            stock: self.stock as int,
            index: self.index,
            free: self.free_rects@,
            placed: self.placements@,
        }
    }

    spec fn wf(&self, parts: int, sheets: int) -> bool {
        &&& self.stock < sheets
        &&& rects_ok(self.free_rects@)
        &&& all_placed_ok(self.placements@, parts)
    }

    /// Places the piece as chosen.
    fn commit(&mut self, idx: usize, inst: &Inst, o: Orient, kerf: i64, parts: Ghost<int>, sheets: Ghost<int>)
        requires
            old(self).wf(parts@, sheets@),
            old(self).placements.len() < MAX_PIECES,
            idx < old(self).free_rects.len(),
            rect_fits(old(self).free_rects@[idx as int], o),
            orient_ok(o),
            inst.part < parts@,
            0 <= kerf <= NEST_LIMIT,
        ensures
            final(self).wf(parts@, sheets@),
            final(self).placements.len() == old(self).placements.len() + 1,
            final(self).model() == (SheetModel {
                stock: old(self).stock as int,
                index: old(self).index,
                free: free_after(
                    old(self).free_rects@,
                    Choice { rect: idx as int, orient: o },
                    kerf as int,
                ),
                placed: old(self).placements@.push(
                    Placed {
                        part: inst.part,
                        x: old(self).free_rects@[idx as int].x,
                        y: old(self).free_rects@[idx as int].y,
                        width: o.width,
                        height: o.height,
                        rotated: o.rotated,
                    },
                ),
            }),
    {
        let ghost start = self.free_rects@;
        let rect = self.free_rects[idx];
        assert(rect_ok(rect));
        self.free_rects.swap_remove(idx);
        assert(self.free_rects@ == swap_removed(start, idx as int));
        let ghost placed_before = self.placements@;
        self.placements.push(
            Placed {
                part: inst.part,
                x: rect.x,
                y: rect.y,
                width: o.width,
                height: o.height,
                rotated: o.rotated,
            },
        );
        assert forall|k: int| 0 <= k < self.placements@.len() implies placed_ok(
            #[trigger] self.placements@[k],
            parts@,
        ) by {
            if k < placed_before.len() {
                assert(self.placements@[k] == placed_before[k]);
            }
        }
        let right_width = rect.width - o.width - kerf;
        if right_width > 0 {
            let ghost before = self.free_rects@;
            self.free_rects.push(
                FreeRect { x: rect.x + o.width + kerf, y: rect.y, width: right_width, height: rect.height },
            );
            assert forall|k: int| 0 <= k < self.free_rects@.len() implies rect_ok(
                #[trigger] self.free_rects@[k],
            ) by {
                if k < before.len() {
                    assert(self.free_rects@[k] == before[k]);
                }
            }
        }
        assert(self.free_rects@ =~= swap_removed(start, idx as int) + right_strip(
            rect,
            o,
            kerf as int,
        ));
        let top_height = rect.height - o.height - kerf;
        if top_height > 0 {
            let ghost before = self.free_rects@;
            let width = if o.width + kerf < rect.width {
                o.width + kerf
            } else {
                rect.width
            };
            self.free_rects.push(
                FreeRect { x: rect.x, y: rect.y + o.height + kerf, width, height: top_height },
            );
            assert forall|k: int| 0 <= k < self.free_rects@.len() implies rect_ok(
                #[trigger] self.free_rects@[k],
            ) by {
                if k < before.len() {
                    assert(self.free_rects@[k] == before[k]);
                }
            }
        }
        assert(self.free_rects@ =~= swap_removed(start, idx as int) + right_strip(
            rect,
            o,
            kerf as int,
        ) + top_strip(rect, o, kerf as int));
        prune(&mut self.free_rects);
    }

    /// Places the piece where it fits best, if it fits anywhere.
    fn host(&mut self, inst: &Inst, kerf: i64, parts: Ghost<int>, sheets: Ghost<int>) -> (r: bool)
        requires
            old(self).wf(parts@, sheets@),
            old(self).placements.len() < MAX_PIECES,
            inst_ok(*inst, parts@),
            0 <= kerf <= NEST_LIMIT,
        ensures
            final(self).wf(parts@, sheets@),
            r == (hosted(old(self).model(), *inst, kerf as int) is Some),
            r ==> final(self).model() == hosted(old(self).model(), *inst, kerf as int)->Some_0
                && final(self).placements.len() == old(self).placements.len() + 1,
            !r ==> *final(self) == *old(self),
    {
        let opts = orientations(inst);
        match pick(&self.free_rects, &opts) {
            None => false,
            Some((idx, o)) => {
                proof {
                    lemma_choice_fits(self.free_rects@, self.free_rects.len() as int, opts@);
                }
                self.commit(idx, inst, o, kerf, parts, sheets);
                true
            },
        }
    }
}

/// The choice made after one more candidate fits, if the choice before did.
proof fn lemma_consider_fits(best: Option<Choice>, rects: Seq<FreeRect>, idx: int, o: Orient)
    requires
        best matches Some(c) ==> 0 <= c.rect < rects.len() && rect_fits(rects[c.rect], c.orient),
        0 <= idx < rects.len(),
    ensures
        consider(best, rects, idx, o) matches Some(c) ==> 0 <= c.rect < rects.len() && rect_fits(
            rects[c.rect],
            c.orient,
        ),
{
}

proof fn lemma_consider_all_fits(
    best: Option<Choice>,
    rects: Seq<FreeRect>,
    idx: int,
    opts: Seq<Orient>,
    n: int,
)
    requires
        best matches Some(c) ==> 0 <= c.rect < rects.len() && rect_fits(rects[c.rect], c.orient),
        0 <= idx < rects.len(),
        0 <= n <= opts.len(),
    ensures
        consider_all(best, rects, idx, opts, n) matches Some(c) ==> 0 <= c.rect < rects.len()
            && rect_fits(rects[c.rect], c.orient),
    decreases n,
{
    if n > 0 {
        lemma_consider_all_fits(best, rects, idx, opts, n - 1);
        lemma_consider_fits(consider_all(best, rects, idx, opts, n - 1), rects, idx, opts[n - 1]);
    }
}

/// The best choice is a rectangle that the piece fits into.
proof fn lemma_choice_fits(rects: Seq<FreeRect>, k: int, opts: Seq<Orient>)
    requires
        0 <= k <= rects.len(),
    ensures
        best_choice(rects, k, opts) matches Some(c) ==> 0 <= c.rect < rects.len() && rect_fits(
            rects[c.rect],
            c.orient,
        ),
    decreases k,
{
    if k > 0 {
        lemma_choice_fits(rects, k - 1, opts);
        lemma_consider_all_fits(
            best_choice(rects, k - 1, opts),
            rects,
            k - 1,
            opts,
            opts.len() as int,
        );
    }
}

/// The models of the sheets.
spec fn sheet_models(sheets: Seq<SheetState>) -> Seq<SheetModel> {
    sheets.map_values(|s: SheetState| s.model())
}

/// Whether every sheet is sound and holds at most `most` pieces.
spec fn sheets_wf(sheets: Seq<SheetState>, parts: int, kinds: int, most: int) -> bool {
    forall|k: int|
        0 <= k < sheets.len() ==> (#[trigger] sheets[k]).wf(parts, kinds) && sheets[k].placements@.len()
            <= most
}

/// Places one piece.
fn place_one(
    sheets: &mut Vec<SheetState>,
    used: &mut Vec<usize>,
    inst: &Inst,
    stock: &[SheetStock],
    config: &PlanarNestConfig,
    parts: Ghost<int>,
    most: Ghost<int>,
) -> (r: Result<(), NestError>)
    requires
        sheets_wf(old(sheets)@, parts@, stock.len() as int, most@),
        0 <= most@ < MAX_PIECES,
        sheets_ok(sheets_view(stock@), *config),
        old(used).len() == stock.len(),
        inst_ok(*inst, parts@),
    ensures
        match r {
            Ok(_) => place_inst(
                SheetPacking { sheets: sheet_models(old(sheets)@), used: old(used)@ },
                *inst,
                sheets_view(stock@),
                *config,
            ) == Ok::<SheetPacking, NestErrorView>(
                SheetPacking { sheets: sheet_models(final(sheets)@), used: final(used)@ },
            ) && sheets_wf(final(sheets)@, parts@, stock.len() as int, most@ + 1)
                && final(used).len() == stock.len() && final(sheets).len() <= old(sheets).len() + 1,
            Err(e) => place_inst(
                SheetPacking { sheets: sheet_models(old(sheets)@), used: old(used)@ },
                *inst,
                sheets_view(stock@),
                *config,
            ) == Err::<SheetPacking, NestErrorView>(e@),
        },
{
    let ghost sv = sheets_view(stock@);
    let ghost start = sheet_models(sheets@);
    let ghost kerf = config.kerf as int;
    let mut j: usize = 0;
    let mut found = false;
    while j < sheets.len() && !found
        invariant
            j <= sheets.len(),
            sv == sheets_view(stock@),
            kerf == config.kerf as int,
            0 <= most@ < MAX_PIECES,
            0 <= config.kerf <= NEST_LIMIT,
            inst_ok(*inst, parts@),
            sheets.len() == old(sheets).len(),
            !found ==> sheets@ == old(sheets)@,
            !found ==> first_host(start, *inst, kerf, 0) == first_host(start, *inst, kerf, j as int),
            start == sheet_models(old(sheets)@),
            !found ==> sheets_wf(sheets@, parts@, stock.len() as int, most@),
            found ==> {
                &&& j < sheets.len()
                &&& first_host(start, *inst, kerf, 0) == j
                &&& sheet_models(sheets@) == start.update(
                    j as int,
                    hosted(start[j as int], *inst, kerf)->Some_0,
                )
                &&& sheets_wf(sheets@, parts@, stock.len() as int, most@ + 1)
            },
        decreases sheets.len() - j + (if found { 0int } else { 1int }),
    {
        let ghost before = sheets@;
        assert(before[j as int].wf(parts@, stock.len() as int));
        assert(start[j as int] == before[j as int].model());
        if sheets[j].host(inst, config.kerf, parts, Ghost(stock.len() as int)) {
            found = true;
            proof {
                assert forall|k: int| 0 <= k < sheets@.len() implies (#[trigger] sheets@[k]).wf(
                    parts@,
                    stock.len() as int,
                ) && sheets@[k].placements@.len() <= most@ + 1 by {
                    if k != j {
                        assert(sheets@[k] == before[k]);
                    }
                }
                assert(sheet_models(sheets@) =~= start.update(
                    j as int,
                    hosted(start[j as int], *inst, kerf)->Some_0,
                )) by {
                    assert forall|k: int| 0 <= k < sheets@.len() implies sheet_models(sheets@)[k]
                        == start.update(j as int, hosted(start[j as int], *inst, kerf)->Some_0)[k] by {
                        if k != j {
                            assert(sheets@[k] == before[k]);
                        }
                    }
                }
            }
        } else {
            assert(sheets@ =~= before);
            j = j + 1;
        }
    }
    if found {
        return Ok(());
    }
    assert(first_host(start, *inst, kerf, 0) == sheets@.len());
    let s = find_unused(used, stock);
    if s >= stock.len() {
        return Err(NestError::InsufficientStock);
    }
    assert(sv[s as int] == stock@[s as int]@);
    assert(sheet_in_range_and_positive(sv[s as int])) by {
        assert(crate::nest::planar::sheet_positive(sv[s as int]));
        assert(crate::nest::planar::sheet_in_range(sv[s as int]));
    }
    let width = stock[s].width;
    let height = stock[s].height;
    if width <= 2 * config.trim || height <= 2 * config.trim {
        return Err(NestError::InvalidDimension("sheet dimensions smaller than trim allowance"));
    }
    let mut free_rects: Vec<FreeRect> = Vec::new();
    free_rects.push(
        FreeRect {
            x: config.trim,
            y: config.trim,
            width: width - 2 * config.trim,
            height: height - 2 * config.trim,
        },
    );
    let mut sheet = SheetState { stock: s, index: used[s], free_rects, placements: Vec::new() };
    assert(sheet.model().free =~= fresh_sheet(s as int, used@[s as int], sv, config.trim as int).free);
    assert(sheet.model().placed =~= Seq::<Placed>::empty());
    assert(sheet.model() == fresh_sheet(s as int, used@[s as int], sv, config.trim as int));
    if !sheet.host(inst, config.kerf, parts, Ghost(stock.len() as int)) {
        return Err(NestError::InsufficientStock);
    }
    let taken = used[s] + 1;
    used[s] = taken;
    let ghost before = sheets@;
    sheets.push(sheet);
    proof {
        assert(sheet_models(sheets@) =~= start.push(
            hosted(
                fresh_sheet(s as int, old(used)@[s as int], sv, config.trim as int),
                *inst,
                kerf,
            )->Some_0,
        ));
        assert forall|k: int| 0 <= k < sheets@.len() implies (#[trigger] sheets@[k]).wf(
            parts@,
            stock.len() as int,
        ) && sheets@[k].placements@.len() <= most@ + 1 by {
            if k < before.len() {
                assert(sheets@[k] == before[k]);
            }
        }
    }
    Ok(())
}

/// Whether a kind of sheet has positive dimensions inside the supported
/// range.
spec fn sheet_in_range_and_positive(s: SheetStockView) -> bool {
    0 < s.width <= NEST_LIMIT && 0 < s.height <= NEST_LIMIT
}

/// Once a piece cannot be placed, no longer run of pieces can be packed.
proof fn lemma_pack_sticks(
    insts: Seq<Inst>,
    k: int,
    n: int,
    stock: Seq<SheetStockView>,
    config: PlanarNestConfig,
)
    requires
        0 <= k <= n,
        pack_sheets(insts, k, stock, config) is Err,
    ensures
        pack_sheets(insts, n, stock, config) == pack_sheets(insts, k, stock, config),
    decreases n - k,
{
    if k < n {
        lemma_pack_sticks(insts, k, n - 1, stock, config);
    }
}

/// Adds up what the cuts round the placed pieces take.
fn sum_kerf(placed: &Vec<Placed>, kerf: i64, parts: Ghost<int>) -> (a: i128)
    requires
        all_placed_ok(placed@, parts@),
        0 <= kerf <= NEST_LIMIT,
    ensures
        a == placed_kerf(placed@, placed.len() as int, kerf as int),
        0 <= a <= placed.len() * 0x2_0000_0000_0000_0000_0000,
{
    let mut sum: i128 = 0;
    let mut i: usize = 0;
    while i < placed.len()
        invariant
            i <= placed.len(),
            all_placed_ok(placed@, parts@),
            0 <= kerf <= NEST_LIMIT,
            sum == placed_kerf(placed@, i as int, kerf as int),
            0 <= sum <= i * 0x2_0000_0000_0000_0000_0000,
        decreases placed.len() - i,
    {
        let p = placed[i];
        assert(placed_ok(placed@[i as int], parts@));
        let around: i128 = p.width as i128 + p.height as i128;
        proof {
            lemma_product_bound(around as int, kerf as int, 2 * NEST_LIMIT, NEST_LIMIT as int);
            assert(2 * NEST_LIMIT * NEST_LIMIT == 0x2_0000_0000_0000_0000_0000) by (nonlinear_arith);
            assert(around * kerf >= 0) by (nonlinear_arith)
                requires
                    around > 0,
                    kerf >= 0,
            ;
        }
        sum = sum + around * (kerf as i128);
        i = i + 1;
    }
    sum
}

/// Computes the area that the trims take off a sheet.
pub fn trim_area_of(width: i64, height: i64, trim: i64) -> (a: i128)
    requires
        0 < width <= NEST_LIMIT,
        0 < height <= NEST_LIMIT,
        0 <= trim <= NEST_LIMIT,
    ensures
        a == trim_area(width as int, height as int, trim as int),
        -0x8_0000_0000_0000_0000_0000 <= a <= 0x8_0000_0000_0000_0000_0000,
{
    proof {
        lemma_product_bound(width as int, trim as int, NEST_LIMIT as int, NEST_LIMIT as int);
        lemma_product_bound(height as int, trim as int, NEST_LIMIT as int, NEST_LIMIT as int);
        lemma_product_bound(trim as int, trim as int, NEST_LIMIT as int, NEST_LIMIT as int);
        assert(NEST_LIMIT * NEST_LIMIT == AREA_MAX) by (nonlinear_arith);
    }
    let wt: i128 = (width as i128) * (trim as i128);
    let ht: i128 = (height as i128) * (trim as i128);
    let tt: i128 = (trim as i128) * (trim as i128);
    2 * wt + 2 * ht - 4 * tt
}

/// The sheet as it is handed out.
fn finalize(sheet: &SheetState, parts: &[RectPart], stock: &[SheetStock], config: &PlanarNestConfig) -> (r:
    SheetLayout)
    requires
        sheet.wf(parts.len() as int, stock.len() as int),
        sheets_ok(sheets_view(stock@), *config),
    ensures
        r@ == finished_sheet(
            sheet.model(),
            rect_parts_view(parts@),
            sheets_view(stock@),
            *config,
        ),
        crate::nest::planar::figures_ok(r.metrics),
{
    let ghost sv = sheets_view(stock@);
    assert(sv[sheet.stock as int] == stock@[sheet.stock as int]@);
    assert(crate::nest::planar::sheet_positive(sv[sheet.stock as int]));
    assert(crate::nest::planar::sheet_in_range(sv[sheet.stock as int]));
    let width = stock[sheet.stock].width;
    let height = stock[sheet.stock].height;
    let total = area_of(width, height);
    let trim_raw = trim_area_of(width, height, config.trim);
    let trim = if trim_raw > 0 {
        trim_raw
    } else {
        0
    };
    let kerf = sum_kerf(&sheet.placements, config.kerf, Ghost(parts.len() as int));
    let used = sum_area(&sheet.placements, Ghost(parts.len() as int));
    let rest = total - (used + kerf + trim);
    let left = if rest > 0 {
        rest
    } else {
        0
    };
    let metrics = UtilizationBreakdown {
        kind: MetricKind::Area,
        utilized: used,
        kerf_loss: kerf,
        trim_loss: trim,
        offcut_loss: left,
        stock_total: total,
    };
    let mut free: Vec<FreeRect> = Vec::new();
    let mut i: usize = 0;
    while i < sheet.free_rects.len()
        invariant
            i <= sheet.free_rects.len(),
            free@ == sheet.free_rects@.subrange(0, i as int),
        decreases sheet.free_rects.len() - i,
    {
        free.push(sheet.free_rects[i]);
        assert(free@ =~= sheet.free_rects@.subrange(0, i + 1));
        i = i + 1;
    }
    assert(free@ =~= sheet.free_rects@);
    prune(&mut free);
    let mut offcuts: Vec<OffcutRect> = Vec::new();
    let mut i: usize = 0;
    while i < free.len()
        invariant
            i <= free.len(),
            offcuts.len() == i,
            forall|k: int| 0 <= k < i ==> #[trigger] offcuts@[k] == as_offcuts(free@)[k],
        decreases free.len() - i,
    {
        let r = free[i];
        offcuts.push(OffcutRect { x: r.x, y: r.y, width: r.width, height: r.height });
        i = i + 1;
    }
    assert(offcuts@ =~= as_offcuts(free@));
    SheetLayout {
        stock_id: stock[sheet.stock].id.clone(),
        index: sheet.index,
        placements: name_placements(&sheet.placements, parts),
        offcuts,
        metrics,
    }
}

/// Hands the sheets out in their order.
fn finish_sheets(
    sheets: &Vec<SheetState>,
    parts: &[RectPart],
    stock: &[SheetStock],
    config: &PlanarNestConfig,
) -> (out: Vec<SheetLayout>)
    requires
        sheets_wf(sheets@, parts.len() as int, stock.len() as int, MAX_PIECES as int),
        sheets_ok(sheets_view(stock@), *config),
    ensures
        crate::nest::planar::layouts_view(out@) == sheets_out(
            sheet_models(sheets@),
            rect_parts_view(parts@),
            sheets_view(stock@),
            *config,
        ),
        forall|k: int|
            0 <= k < out.len() ==> crate::nest::planar::figures_ok((#[trigger] out@[k]).metrics),        out.len() == sheets.len(),
{
    let ghost sv = sheets_view(stock@);
    let ghost pv = rect_parts_view(parts@);
    let ghost ms = sheet_models(sheets@);
    let ranks = sheet_ranks(stock);
    let mut keys: Vec<SortKey> = Vec::new();
    let mut p: usize = 0;
    while p < sheets.len()
        invariant
            p <= sheets.len(),
            keys.len() == p,
            sv == sheets_view(stock@),
            ms == sheet_models(sheets@),
            sheets_wf(sheets@, parts.len() as int, stock.len() as int, MAX_PIECES as int),
            ranks.len() == stock.len(),
            forall|s: int|
                0 <= s < stock.len() ==> #[trigger] ranks@[s] == rank_among_sheets(sv, s),
            forall|k: int|
                0 <= k < p ==> #[trigger] keys@[k] == sheet_key(ms[k].stock, ms[k].index, sv, k),
        decreases sheets.len() - p,
    {
        assert(sheets@[p as int].wf(parts.len() as int, stock.len() as int));
        assert(ms[p as int] == sheets@[p as int].model());
        keys.push(
            SortKey { major: ranks[sheets[p].stock], minor: sheets[p].index as u64, index: p },
        );
        p = p + 1;
    }
    assert(keys@ =~= sheet_keys(ms, sv));
    let sorted = sort_keys(&keys);
    let ghost wanted = sheets_out(ms, pv, sv, *config);
    let mut out: Vec<SheetLayout> = Vec::new();
    let mut i: usize = 0;
    proof {
        lemma_sorted_keys(keys@);
    }
    while i < sorted.len()
        invariant
            i <= sorted.len(),
            out.len() == i,
            sv == sheets_view(stock@),
            pv == rect_parts_view(parts@),
            ms == sheet_models(sheets@),
            sheets_wf(sheets@, parts.len() as int, stock.len() as int, MAX_PIECES as int),
            sheets_ok(sv, *config),
            keys@ == sheet_keys(ms, sv),
            sorted@ == sorted_keys(keys@),
            sorted.len() == keys.len(),
            forall|k: int| 0 <= k < sorted.len() ==> keys@.contains(#[trigger] sorted@[k]),
            wanted == sheets_out(ms, pv, sv, *config),
            forall|k: int| 0 <= k < i ==> (#[trigger] out@[k])@ == wanted[k],
            forall|k: int|
                0 <= k < i ==> crate::nest::planar::figures_ok((#[trigger] out@[k]).metrics),
        decreases sorted.len() - i,
    {
        let key = sorted[i];
        proof {
            assert(keys@.contains(sorted@[i as int]));
            let w = choose|w: int| 0 <= w < keys@.len() && keys@[w] == key;
            assert(key.index == w);
        }
        assert(sheets@[key.index as int].wf(parts.len() as int, stock.len() as int));
        assert(ms[key.index as int] == sheets@[key.index as int].model());
        let layout = finalize(&sheets[key.index], parts, stock, config);
        assert(wanted[i as int] == finished_sheet(ms[key.index as int], pv, sv, *config));
        out.push(layout);
        i = i + 1;
    }
    assert(crate::nest::planar::layouts_view(out@) =~= wanted);
    out
}

/// The rank of the name of the sheet at position `s`.
spec fn rank_among_sheets(stock: Seq<SheetStockView>, s: int) -> int {
    crate::nest::order::rank_among(
        crate::nest::planar::sheet_names(stock),
        stock[s].id,
        stock.len() as int,
    )
}

/// Nests the parts on the sheets: each part as often as its quantity says,
/// the largest in area first, each on the first sheet that has a free
/// rectangle for it, a fresh sheet being taken from the first kind that is
/// left when none has. On a sheet the piece goes into the corner of the
/// free rectangle that it fills best, turned by a quarter turn if its grain
/// allows and it fills the rectangle better so. The sheets are handed out
/// in the order of the names of their stock and of their numbers.
pub fn best_fit_sheets(parts: &[RectPart], stock: &[SheetStock], config: &PlanarNestConfig) -> (r:
    NestResult<Vec<SheetLayout>>)
    ensures
        match r {
            Ok(layouts) => best_fit_layout(rect_parts_view(parts@), sheets_view(stock@), *config)
                == Ok::<Seq<SheetLayoutView>, NestErrorView>(
                crate::nest::planar::layouts_view(layouts@),
            ),
            Err(e) => best_fit_layout(rect_parts_view(parts@), sheets_view(stock@), *config)
                == Err::<Seq<SheetLayoutView>, NestErrorView>(e@),
        },
        r matches Ok(layouts) ==> layouts.len() <= MAX_PIECES && forall|k: int|
            0 <= k < layouts.len() ==> crate::nest::planar::figures_ok(
                (#[trigger] layouts@[k]).metrics,
            ),
{
    match check_planar(parts, stock, config) {
        Err(e) => {
            return Err(e);
        },
        Ok(_) => {},
    }
    let ghost pv = rect_parts_view(parts@);
    let ghost sv = sheets_view(stock@);
    proof {
        lemma_no_fault(pv, sv, *config);
    }
    let (insts, keys) = expand_parts(parts, config.seed, SortBy::Area);
    let sorted = sort_keys(&keys);
    let ghost ordered = insts_in_order(insts@, pv, config.seed, SortBy::Area);
    let mut sheets: Vec<SheetState> = Vec::new();
    let mut used: Vec<usize> = Vec::new();
    let mut s: usize = 0;
    while s < stock.len()
        invariant
            s <= stock.len(),
            used.len() == s,
            forall|k: int| 0 <= k < s ==> used@[k] == 0,
        decreases stock.len() - s,
    {
        used.push(0);
        s = s + 1;
    }
    assert(used@ =~= Seq::new(sv.len(), |i: int| 0usize));
    assert(sheet_models(sheets@) =~= Seq::<SheetModel>::empty());
    let mut i: usize = 0;
    while i < sorted.len()
        invariant
            i <= sorted.len(),
            pv == rect_parts_view(parts@),
            sv == sheets_view(stock@),
            planar_fault(pv, sv, *config) is None,
            sheets_ok(sv, *config),
            insts@ == instances_of(pv, parts.len() as int),
            ordered == insts_in_order(insts@, pv, config.seed, SortBy::Area),
            keys@ == inst_keys(insts@, pv, config.seed, SortBy::Area),
            sorted@ == sorted_keys(keys@),
            sorted.len() == keys.len(),
            keys.len() == insts.len(),
            insts.len() <= MAX_PIECES,
            forall|k: int| 0 <= k < insts.len() ==> inst_ok(#[trigger] insts@[k], parts.len() as int),
            forall|k: int| 0 <= k < sorted.len() ==> keys@.contains(#[trigger] sorted@[k]),
            used.len() == stock.len(),
            sheets.len() <= i,
            sheets_wf(sheets@, parts.len() as int, stock.len() as int, i as int),
            pack_sheets(ordered, i as int, sv, *config) == Ok::<SheetPacking, NestErrorView>(
                SheetPacking { sheets: sheet_models(sheets@), used: used@ },
            ),
        decreases sorted.len() - i,
    {
        let key = sorted[i];
        proof {
            assert(keys@.contains(sorted@[i as int]));
            let w = choose|w: int| 0 <= w < keys@.len() && keys@[w] == key;
            assert(key.index == w);
        }
        let inst = insts[key.index];
        assert(ordered[i as int] == inst);
        match place_one(
            &mut sheets,
            &mut used,
            &inst,
            stock,
            config,
            Ghost(parts.len() as int),
            Ghost(i as int),
        ) {
            Ok(_) => {},
            Err(e) => {
                proof {
                    lemma_pack_sticks(ordered, i + 1, ordered.len() as int, sv, *config);
                }
                return Err(e);
            },
        }
        i = i + 1;
    }
    Ok(finish_sheets(&sheets, parts, stock, config))
}

} // verus!
