//! The skyline packer: pieces stand side by side on shelves that are
//! stacked on the sheet.
use vstd::prelude::*;
use crate::nest::best_fit::{at_least_zero, orient_ok, orientations, too_small, trim_area_of};
use crate::nest::error::{NestError, NestErrorView, NestResult};
use crate::nest::linear::NEST_LIMIT;
use crate::nest::metrics::{MetricKind, UtilizationBreakdown};
use crate::nest::order::{lemma_sorted_keys, rank_among, sort_keys, sorted_keys, SortKey};
use crate::nest::planar::{
    all_placed_ok, check_planar, expand_parts, figures_ok, find_unused, first_unused, inst_keys,
    inst_ok, instances_of, insts_in_order, layouts_view, lemma_no_fault, name_placements, named,
    options, placed_area, placed_ok, planar_fault, rect_parts_view, sheet_in_range, sheet_key,
    sheet_names, sheet_positive, sheet_ranks, sheets_ok, sheets_view, sum_area, trim_area, Inst,
    OffcutRect, Orient, Placed, PlanarNestConfig, RectPart, RectPartView, SheetLayout,
    SheetLayoutView, SheetStock, SheetStockView, SortBy, AREA_MAX, MAX_PIECES,
};
use crate::units::lemma_product_bound;

verus! {

/// The area by which the figures of a sheet may exceed the sheet before the
/// offcuts are reckoned anew.
pub const OVERRUN_EPS: i128 = 1_000_000;

/// A shelf: a strip of the sheet on which pieces stand side by side.
#[derive(Debug, Clone, Copy, PartialEq, Eq, Structural)]
pub struct Shelf {
    /// Where the shelf begins.
    pub y: i64,
    /// The height of the piece that opened the shelf.
    pub height: i64,
    /// Where the next piece begins, but for the kerf.
    pub cursor_x: i64,
    /// What is left of the width of the shelf.
    pub width_remaining: i64,
}

/// A sheet while it is filled.
pub struct SkylineModel {
    /// The position of the sheet's kind in the list of stock.
    pub stock: int,
    /// The number of the sheet among those of its kind.
    pub index: usize,
    pub shelves: Seq<Shelf>,
    pub placed: Seq<Placed>,
}

/// The width that a piece takes on the shelf: its own and, behind another
/// piece, the kerf.
pub open spec fn needed_width(shelf: Shelf, o: Orient, config: PlanarNestConfig) -> int {
    if shelf.cursor_x > config.trim {
        o.width + config.kerf
    } else {
        o.width as int
    }
}

/// Whether the shelf takes the piece, lying as `o` says.
pub open spec fn shelf_takes(shelf: Shelf, o: Orient, config: PlanarNestConfig) -> bool {
    needed_width(shelf, o, config) <= shelf.width_remaining && o.height <= shelf.height
}

/// The width that is left on the shelf behind the piece.
pub open spec fn leftover(shelf: Shelf, o: Orient, config: PlanarNestConfig) -> int {
    shelf.width_remaining - needed_width(shelf, o, config)
}

/// A shelf and how the piece lies on it.
pub struct ShelfChoice {
    pub shelf: int,
    pub orient: Orient,
}

/// The choice after one more candidate: the candidate wins if it leaves
/// less width than the choice made so far.
pub open spec fn consider_shelf(
    best: Option<ShelfChoice>,
    shelves: Seq<Shelf>,
    idx: int,
    o: Orient,
    config: PlanarNestConfig,
) -> Option<ShelfChoice> {
    if !shelf_takes(shelves[idx], o, config) {
        best
    } else {
        match best {
            None => Some(ShelfChoice { shelf: idx, orient: o }),
            Some(c) => if leftover(shelves[idx], o, config) < leftover(
                shelves[c.shelf],
                c.orient,
                config,
            ) {
                Some(ShelfChoice { shelf: idx, orient: o })
            } else {
                best
            },
        }
    }
}

/// The choice after the first `n` ways in which the piece may lie on shelf
/// `idx`.
pub open spec fn consider_shelf_all(
    best: Option<ShelfChoice>,
    shelves: Seq<Shelf>,
    idx: int,
    opts: Seq<Orient>,
    n: int,
    config: PlanarNestConfig,
) -> Option<ShelfChoice>
    decreases n,
{
    if n <= 0 {
        best
    } else {
        consider_shelf(
            consider_shelf_all(best, shelves, idx, opts, n - 1, config),
            shelves,
            idx,
            opts[n - 1],
            config,
        )
    }
}

/// The best choice among the first `k` shelves.
pub open spec fn best_shelf(shelves: Seq<Shelf>, k: int, opts: Seq<Orient>, config: PlanarNestConfig) -> Option<
    ShelfChoice,
>
    decreases k,
{
    if k <= 0 {
        None
    } else {
        consider_shelf_all(
            best_shelf(shelves, k - 1, opts, config),
            shelves,
            k - 1,
            opts,
            opts.len() as int,
            config,
        )
    }
}

/// Whether `o` has the dimensions of `preferred`.
pub open spec fn same_size(o: Orient, preferred: Orient) -> bool {
    o.width == preferred.width && o.height == preferred.height
}

/// How the piece lies on the shelf after one more candidate: among
/// candidates that the shelf takes, one of the preferred size beats one of
/// another size, and else the one that leaves less width wins.
pub open spec fn consider_lie(
    best: Option<Orient>,
    shelf: Shelf,
    o: Orient,
    preferred: Orient,
    config: PlanarNestConfig,
) -> Option<Orient> {
    if !shelf_takes(shelf, o, config) {
        best
    } else {
        match best {
            None => Some(o),
            Some(prev) => {
                let take = if same_size(o, preferred) && !same_size(prev, preferred) {
                    true
                } else if same_size(prev, preferred) && !same_size(o, preferred) {
                    false
                } else {
                    leftover(shelf, o, config) < leftover(shelf, prev, config)
                };
                if take {
                    Some(o)
                } else {
                    best
                }
            },
        }
    }
}

/// How the piece lies on the shelf, decided among the first `n` ways.
pub open spec fn best_lie(
    shelf: Shelf,
    opts: Seq<Orient>,
    n: int,
    preferred: Orient,
    config: PlanarNestConfig,
) -> Option<Orient>
    decreases n,
{
    if n <= 0 {
        None
    } else {
        consider_lie(best_lie(shelf, opts, n - 1, preferred, config), shelf, opts[n - 1], preferred, config)
    }
}

/// Where a piece begins on the shelf: behind the kerf if it stands behind
/// another piece.
pub open spec fn shelf_start(shelf: Shelf, config: PlanarNestConfig) -> int {
    if shelf.cursor_x > config.trim {
        shelf.cursor_x + config.kerf
    } else {
        shelf.cursor_x as int
    }
}

/// The shelf with one more piece.
pub open spec fn shelf_with(shelf: Shelf, o: Orient, config: PlanarNestConfig) -> Shelf {
    Shelf {
        y: shelf.y,
        height: shelf.height,
        cursor_x: (shelf_start(shelf, config) + o.width) as i64,
        width_remaining: (shelf.width_remaining - needed_width(shelf, o, config)) as i64,
    }
}

/// The sheet with the piece on shelf `idx`, if the shelf takes it.
pub open spec fn on_shelf(
    sheet: SkylineModel,
    idx: int,
    inst: Inst,
    preferred: Orient,
    config: PlanarNestConfig,
) -> Option<SkylineModel> {
    let shelf = sheet.shelves[idx];
    match best_lie(shelf, options(inst), options(inst).len() as int, preferred, config) {
        None => None,
        Some(o) => Some(
            SkylineModel {
                stock: sheet.stock,
                index: sheet.index,
                shelves: sheet.shelves.update(idx, shelf_with(shelf, o, config)),
                placed: sheet.placed.push(
                    Placed {
                        part: inst.part,
                        x: shelf_start(shelf, config) as i64,
                        y: shelf.y,
                        width: o.width,
                        height: o.height,
                        rotated: o.rotated,
                    },
                ),
            },
        ),
    }
}

/// Where the next shelf begins: on the trim, or behind the last shelf and
/// the kerf.
pub open spec fn next_y(shelves: Seq<Shelf>, config: PlanarNestConfig) -> int {
    if shelves.len() == 0 {
        config.trim as int
    } else {
        shelves.last().y + shelves.last().height + config.kerf
    }
}

/// Whether a piece, lying as `o` says, can open a further shelf.
pub open spec fn opens(o: Orient, sheet: SheetStockView, shelves: Seq<Shelf>, config: PlanarNestConfig) -> bool {
    o.width <= sheet.width - 2 * config.trim && next_y(shelves, config) + o.height <= config.trim
        + (sheet.height - 2 * config.trim)
}

/// The position of the first way from `from` on in which the piece can open
/// a further shelf, or the number of ways if there is none.
pub open spec fn first_opening(
    opts: Seq<Orient>,
    sheet: SheetStockView,
    shelves: Seq<Shelf>,
    config: PlanarNestConfig,
    from: int,
) -> int
    decreases opts.len() - from,
{
    if from < 0 || from >= opts.len() {
        opts.len() as int
    } else if opens(opts[from], sheet, shelves, config) {
        from
    } else {
        first_opening(opts, sheet, shelves, config, from + 1)
    }
}

/// The shelf that a piece opens.
pub open spec fn opened_shelf(o: Orient, sheet: SheetStockView, shelves: Seq<Shelf>, config: PlanarNestConfig) -> Shelf {
    Shelf {
        y: next_y(shelves, config) as i64,
        height: o.height,
        cursor_x: config.trim,
        width_remaining: (sheet.width - 2 * config.trim) as i64,
    }
}

/// The sheet with the piece on a further shelf, if it can open one.
pub open spec fn on_new_shelf(
    sheet: SkylineModel,
    inst: Inst,
    stock: Seq<SheetStockView>,
    config: PlanarNestConfig,
) -> Option<SkylineModel> {
    let opts = options(inst);
    let n = first_opening(opts, stock[sheet.stock], sheet.shelves, config, 0);
    if n >= opts.len() {
        None
    } else {
        on_shelf(
            SkylineModel {
                stock: sheet.stock,
                index: sheet.index,
                shelves: sheet.shelves.push(
                    opened_shelf(opts[n], stock[sheet.stock], sheet.shelves, config),
                ),
                placed: sheet.placed,
            },
            sheet.shelves.len() as int,
            inst,
            opts[n],
            config,
        )
    }
}

/// The sheet with the piece on the shelf on which it leaves the least
/// width, or else on a further shelf, if it finds a place at all.
pub open spec fn shelved(
    sheet: SkylineModel,
    inst: Inst,
    stock: Seq<SheetStockView>,
    config: PlanarNestConfig,
) -> Option<SkylineModel> {
    match best_shelf(sheet.shelves, sheet.shelves.len() as int, options(inst), config) {
        Some(c) => on_shelf(sheet, c.shelf, inst, c.orient, config),
        None => on_new_shelf(sheet, inst, stock, config),
    }
}

/// The position of the first sheet from `from` on that takes the piece, or
/// the number of sheets if there is none.
pub open spec fn first_shelving(
    sheets: Seq<SkylineModel>,
    inst: Inst,
    stock: Seq<SheetStockView>,
    config: PlanarNestConfig,
    from: int,
) -> int
    decreases sheets.len() - from,
{
    if from < 0 || from >= sheets.len() {
        sheets.len() as int
    } else if shelved(sheets[from], inst, stock, config) is Some {
        from
    } else {
        first_shelving(sheets, inst, stock, config, from + 1)
    }
}

/// The sheets in use and the number of sheets taken of each kind.
pub struct SkylinePacking {
    pub sheets: Seq<SkylineModel>,
    pub used: Seq<usize>,
}

/// A fresh sheet.
pub open spec fn bare_sheet(s: int, index: usize) -> SkylineModel {
    SkylineModel { stock: s, index, shelves: Seq::empty(), placed: Seq::empty() }
}

/// The packing with one more piece: on the first sheet that takes it, or
/// else on a fresh sheet of the first kind that is left.
pub open spec fn shelve_inst(
    p: SkylinePacking,
    inst: Inst,
    stock: Seq<SheetStockView>,
    config: PlanarNestConfig,
) -> Result<SkylinePacking, NestErrorView> {
    let j = first_shelving(p.sheets, inst, stock, config, 0);
    if j < p.sheets.len() {
        Ok(
            SkylinePacking {
                sheets: p.sheets.update(j, shelved(p.sheets[j], inst, stock, config)->Some_0),
                used: p.used,
            },
        )
    } else {
        let s = first_unused(p.used, stock, 0);
        if s >= stock.len() {
            Err(NestErrorView::InsufficientStock)
        } else if too_small(stock[s], config.trim as int) {
            Err(NestErrorView::InvalidDimension("sheet dimensions smaller than trim allowance"@))
        } else {
            match shelved(bare_sheet(s, p.used[s]), inst, stock, config) {
                None => Err(NestErrorView::InsufficientStock),
                Some(sheet) => Ok(
                    SkylinePacking {
                        sheets: p.sheets.push(sheet),
                        used: p.used.update(s, (p.used[s] + 1) as usize),
                    },
                ),
            }
        }
    }
}

/// The packing of the first `k` pieces.
pub open spec fn shelve_all(
    insts: Seq<Inst>,
    k: int,
    stock: Seq<SheetStockView>,
    config: PlanarNestConfig,
) -> Result<SkylinePacking, NestErrorView>
    decreases k,
{
    if k <= 0 {
        Ok(SkylinePacking { sheets: Seq::empty(), used: Seq::new(stock.len(), |i: int| 0usize) })
    } else {
        match shelve_all(insts, k - 1, stock, config) {
            Err(e) => Err(e),
            Ok(p) => shelve_inst(p, insts[k - 1], stock, config),
        }
    }
}

/// What the cuts between the pieces of the first `k` shelves take: for each
/// shelf that holds a piece the kerf over the height of the shelf.
pub open spec fn shelf_kerf(shelves: Seq<Shelf>, k: int, config: PlanarNestConfig) -> int
    decreases k,
{
    if k <= 0 {
        0
    } else {
        shelf_kerf(shelves, k - 1, config) + if shelves[k - 1].cursor_x > config.trim {
            shelves[k - 1].height * config.kerf
        } else {
            0
        }
    }
}

/// The offcuts behind the pieces of the first `k` shelves.
pub open spec fn shelf_offcuts(shelves: Seq<Shelf>, k: int) -> Seq<OffcutRect>
    decreases k,
{
    if k <= 0 {
        Seq::empty()
    } else {
        let s = shelves[k - 1];
        if s.width_remaining > 0 {
            shelf_offcuts(shelves, k - 1).push(
                OffcutRect { x: s.cursor_x, y: s.y, width: s.width_remaining, height: s.height },
            )
        } else {
            shelf_offcuts(shelves, k - 1)
        }
    }
}

/// The height that the shelves take.
pub open spec fn used_height(shelves: Seq<Shelf>, config: PlanarNestConfig) -> int {
    if shelves.len() == 0 {
        0
    } else {
        shelves.last().y + shelves.last().height - config.trim
    }
}

/// The offcut above the last shelf.
pub open spec fn top_offcut(sheet: SheetStockView, shelves: Seq<Shelf>, config: PlanarNestConfig) -> Seq<
    OffcutRect,
> {
    let usable = sheet.height - 2 * config.trim;
    let used = used_height(shelves, config);
    if usable - used > 0 {
        seq![
            OffcutRect {
                x: config.trim,
                y: (config.trim + used) as i64,
                width: (sheet.width - 2 * config.trim) as i64,
                height: (usable - used) as i64,
            },
        ]
    } else {
        Seq::empty()
    }
}

/// The offcuts of a sheet: behind the pieces of each shelf and above the
/// last shelf.
pub open spec fn skyline_offcuts(
    sheet: SkylineModel,
    stock: Seq<SheetStockView>,
    config: PlanarNestConfig,
) -> Seq<OffcutRect> {
    shelf_offcuts(sheet.shelves, sheet.shelves.len() as int) + top_offcut(
        stock[sheet.stock],
        sheet.shelves,
        config,
    )
}

/// The summed area of the first `k` offcuts.
pub open spec fn offcut_area(offcuts: Seq<OffcutRect>, k: int) -> int
    decreases k,
{
    if k <= 0 {
        0
    } else {
        offcut_area(offcuts, k - 1) + offcuts[k - 1].width * offcuts[k - 1].height
    }
}

/// How a sheet is used. The offcuts count with their areas, unless the
/// figures would then exceed the sheet by more than [`OVERRUN_EPS`]: then
/// they count with what the other figures leave of the sheet.
pub open spec fn skyline_metrics(
    sheet: SkylineModel,
    stock: Seq<SheetStockView>,
    config: PlanarNestConfig,
) -> UtilizationBreakdown {
    let total = stock[sheet.stock].width * stock[sheet.stock].height;
    let used = placed_area(sheet.placed, sheet.placed.len() as int);
    let kerf = shelf_kerf(sheet.shelves, sheet.shelves.len() as int, config);
    let trim = trim_area(
        stock[sheet.stock].width as int,
        stock[sheet.stock].height as int,
        config.trim as int,
    );
    let offcuts = skyline_offcuts(sheet, stock, config);
    let left = offcut_area(offcuts, offcuts.len() as int);
    UtilizationBreakdown {
        kind: MetricKind::Area,
        utilized: used as i128,
        kerf_loss: kerf as i128,
        trim_loss: trim as i128,
        offcut_loss: (if used + kerf + trim + left > total + OVERRUN_EPS {
            at_least_zero(total - (used + kerf + trim))
        } else {
            left
        }) as i128,
        stock_total: total as i128,
    }
}

/// The sheet as it is handed out.
pub open spec fn finished_skyline(
    sheet: SkylineModel,
    parts: Seq<RectPartView>,
    stock: Seq<SheetStockView>,
    config: PlanarNestConfig,
) -> SheetLayoutView {
    SheetLayoutView {
        stock_id: stock[sheet.stock].id,
        index: sheet.index,
        placements: named(sheet.placed, parts),
        offcuts: skyline_offcuts(sheet, stock, config),
        metrics: skyline_metrics(sheet, stock, config),
    }
}

/// The keys of the sheets.
pub open spec fn skyline_keys(sheets: Seq<SkylineModel>, stock: Seq<SheetStockView>) -> Seq<SortKey> {
    Seq::new(sheets.len(), |i: int| sheet_key(sheets[i].stock, sheets[i].index, stock, i))
}

/// The sheets as they are handed out, in the order of the names of their
/// stock and of their numbers.
pub open spec fn skylines_out(
    sheets: Seq<SkylineModel>,
    parts: Seq<RectPartView>,
    stock: Seq<SheetStockView>,
    config: PlanarNestConfig,
) -> Seq<SheetLayoutView> {
    sorted_keys(skyline_keys(sheets, stock)).map_values(
        |k: SortKey| finished_skyline(sheets[k.index as int], parts, stock, config),
    )
}

/// The layouts of the parts on the sheets, or the reason why there are
/// none.
pub open spec fn skyline_layout(
    parts: Seq<RectPartView>,
    stock: Seq<SheetStockView>,
    config: PlanarNestConfig,
) -> Result<Seq<SheetLayoutView>, NestErrorView> {
    match planar_fault(parts, stock, config) {
        Some(e) => Err(e),
        None => {
            let insts = insts_in_order(
                instances_of(parts, parts.len() as int),
                parts,
                config.seed,
                SortBy::Height,
            );
            match shelve_all(insts, insts.len() as int, stock, config) {
                Err(e) => Err(e),
                Ok(p) => Ok(skylines_out(p.sheets, parts, stock, config)),
            }
        },
    }
}

/// Whether a shelf lies on its sheet between the trims.
pub open spec fn shelf_ok(s: Shelf, sheet: SheetStockView, config: PlanarNestConfig) -> bool {
    &&& config.trim <= s.y
    &&& 0 < s.height
    &&& s.y + s.height <= sheet.height - config.trim
    &&& config.trim <= s.cursor_x
    &&& 0 <= s.width_remaining
    &&& s.cursor_x + s.width_remaining == sheet.width - config.trim
}

/// Whether a sheet and the allowances lie inside the supported range.
pub open spec fn sheet_ready(sheet: SheetStockView, config: PlanarNestConfig) -> bool {
    &&& 0 < sheet.width <= NEST_LIMIT
    &&& 0 < sheet.height <= NEST_LIMIT
    &&& 0 <= config.kerf <= NEST_LIMIT
    &&& 0 <= config.trim <= NEST_LIMIT
}

fn takes(shelf: &Shelf, o: &Orient, config: &PlanarNestConfig, sheet: Ghost<SheetStockView>) -> (b: bool)
    requires
        shelf_ok(*shelf, sheet@, *config),
        sheet_ready(sheet@, *config),
        orient_ok(*o),
    ensures
        b == shelf_takes(*shelf, *o, *config),
{
    let needed = if shelf.cursor_x > config.trim {
        o.width + config.kerf
    } else {
        o.width
    };
    needed <= shelf.width_remaining && o.height <= shelf.height
}

fn leftover_of(shelf: &Shelf, o: &Orient, config: &PlanarNestConfig, sheet: Ghost<SheetStockView>) -> (w:
    i64)
    requires
        shelf_ok(*shelf, sheet@, *config),
        sheet_ready(sheet@, *config),
        orient_ok(*o),
    ensures
        w == leftover(*shelf, *o, *config),
{
    let needed = if shelf.cursor_x > config.trim {
        o.width + config.kerf
    } else {
        o.width
    };
    shelf.width_remaining - needed
}

/// Whether all shelves lie on their sheet.
pub open spec fn shelves_ok(shelves: Seq<Shelf>, sheet: SheetStockView, config: PlanarNestConfig) -> bool {
    forall|k: int| 0 <= k < shelves.len() ==> shelf_ok(#[trigger] shelves[k], sheet, config)
}

/// The choice as a position and a way to lie.
spec fn shelf_choice_of(best: Option<(usize, Orient)>) -> Option<ShelfChoice> {
    match best {
        Some((idx, o)) => Some(ShelfChoice { shelf: idx as int, orient: o }),
        None => None,
    }
}

/// The shelf on which the piece leaves the least width, and how it lies
/// there.
fn pick_shelf(
    shelves: &Vec<Shelf>,
    opts: &Vec<Orient>,
    config: &PlanarNestConfig,
    sheet: Ghost<SheetStockView>,
) -> (r: Option<(usize, Orient)>)
    requires
        shelves_ok(shelves@, sheet@, *config),
        sheet_ready(sheet@, *config),
        forall|k: int| 0 <= k < opts.len() ==> orient_ok(#[trigger] opts@[k]),
    ensures
        shelf_choice_of(r) == best_shelf(shelves@, shelves.len() as int, opts@, *config),
        r matches Some((b, bo)) ==> b < shelves.len() && orient_ok(bo),
{
    let mut best: Option<(usize, Orient)> = None;
    let mut idx: usize = 0;
    while idx < shelves.len()
        invariant
            idx <= shelves.len(),
            shelves_ok(shelves@, sheet@, *config),
            sheet_ready(sheet@, *config),
            forall|k: int| 0 <= k < opts.len() ==> orient_ok(#[trigger] opts@[k]),
            shelf_choice_of(best) == best_shelf(shelves@, idx as int, opts@, *config),
            best matches Some((b, bo)) ==> b < shelves.len() && orient_ok(bo),
        decreases shelves.len() - idx,
    {
        let mut n: usize = 0;
        let ghost start = shelf_choice_of(best);
        while n < opts.len()
            invariant
                n <= opts.len(),
                idx < shelves.len(),
                shelves_ok(shelves@, sheet@, *config),
                sheet_ready(sheet@, *config),
                forall|k: int| 0 <= k < opts.len() ==> orient_ok(#[trigger] opts@[k]),
                shelf_choice_of(best) == consider_shelf_all(
                    start,
                    shelves@,
                    idx as int,
                    opts@,
                    n as int,
                    *config,
                ),
                best matches Some((b, bo)) ==> b < shelves.len() && orient_ok(bo),
            decreases opts.len() - n,
        {
            let o = opts[n];
            let shelf = shelves[idx];
            assert(shelf_ok(shelves@[idx as int], sheet@, *config));
            if takes(&shelf, &o, config, sheet) {
                match best {
                    None => {
                        best = Some((idx, o));
                    },
                    Some((b, bo)) => {
                        assert(shelf_ok(shelves@[b as int], sheet@, *config));
                        if leftover_of(&shelf, &o, config, sheet) < leftover_of(
                            &shelves[b],
                            &bo,
                            config,
                            sheet,
                        ) {
                            best = Some((idx, o));
                        }
                    },
                }
            }
            n = n + 1;
        }
        idx = idx + 1;
    }
    best
}

/// How the piece lies on the shelf.
fn pick_lie(
    shelf: &Shelf,
    opts: &Vec<Orient>,
    preferred: Orient,
    config: &PlanarNestConfig,
    sheet: Ghost<SheetStockView>,
) -> (r: Option<Orient>)
    requires
        shelf_ok(*shelf, sheet@, *config),
        sheet_ready(sheet@, *config),
        forall|k: int| 0 <= k < opts.len() ==> orient_ok(#[trigger] opts@[k]),
    ensures
        r == best_lie(*shelf, opts@, opts.len() as int, preferred, *config),
        r matches Some(o) ==> orient_ok(o) && shelf_takes(*shelf, o, *config),
{
    let mut best: Option<Orient> = None;
    let mut n: usize = 0;
    while n < opts.len()
        invariant
            n <= opts.len(),
            shelf_ok(*shelf, sheet@, *config),
            sheet_ready(sheet@, *config),
            forall|k: int| 0 <= k < opts.len() ==> orient_ok(#[trigger] opts@[k]),
            best == best_lie(*shelf, opts@, n as int, preferred, *config),
            best matches Some(o) ==> orient_ok(o) && shelf_takes(*shelf, o, *config),
        decreases opts.len() - n,
    {
        let o = opts[n];
        if takes(shelf, &o, config, sheet) {
            match best {
                None => {
                    best = Some(o);
                },
                Some(prev) => {
                    let candidate_is_preferred = o.width == preferred.width && o.height
                        == preferred.height;
                    let prev_is_preferred = prev.width == preferred.width && prev.height
                        == preferred.height;
                    let take = if candidate_is_preferred && !prev_is_preferred {
                        true
                    } else if prev_is_preferred && !candidate_is_preferred {
                        false
                    } else {
                        leftover_of(shelf, &o, config, sheet) < leftover_of(
                            shelf,
                            &prev,
                            config,
                            sheet,
                        )
                    };
                    if take {
                        best = Some(o);
                    }
                },
            }
        }
        n = n + 1;
    }
    best
}

/// A shelf takes the piece in some way if it takes it in one of the ways.
proof fn lemma_lie_exists(
    shelf: Shelf,
    opts: Seq<Orient>,
    n: int,
    preferred: Orient,
    config: PlanarNestConfig,
    k: int,
)
    requires
        0 <= k < n <= opts.len(),
        shelf_takes(shelf, opts[k], config),
    ensures
        best_lie(shelf, opts, n, preferred, config) is Some,
    decreases n,
{
    if k < n - 1 {
        lemma_lie_exists(shelf, opts, n - 1, preferred, config, k);
    }
}

/// The best shelf takes the piece in the way chosen, which is one of the
/// ways in which the piece may lie.
proof fn lemma_best_shelf_takes(
    shelves: Seq<Shelf>,
    k: int,
    opts: Seq<Orient>,
    config: PlanarNestConfig,
)
    requires
        0 <= k <= shelves.len(),
    ensures
        best_shelf(shelves, k, opts, config) matches Some(c) ==> 0 <= c.shelf < shelves.len()
            && shelf_takes(shelves[c.shelf], c.orient, config) && exists|m: int|
            0 <= m < opts.len() && opts[m] == c.orient,
    decreases k,
{
    if k > 0 {
        lemma_best_shelf_takes(shelves, k - 1, opts, config);
        lemma_consider_shelf_takes(
            best_shelf(shelves, k - 1, opts, config),
            shelves,
            k - 1,
            opts,
            opts.len() as int,
            config,
        );
    }
}

proof fn lemma_consider_shelf_takes(
    best: Option<ShelfChoice>,
    shelves: Seq<Shelf>,
    idx: int,
    opts: Seq<Orient>,
    n: int,
    config: PlanarNestConfig,
)
    requires
        0 <= idx < shelves.len(),
        0 <= n <= opts.len(),
        best matches Some(c) ==> 0 <= c.shelf < shelves.len() && shelf_takes(
            shelves[c.shelf],
            c.orient,
            config,
        ) && exists|m: int| 0 <= m < opts.len() && opts[m] == c.orient,
    ensures
        consider_shelf_all(best, shelves, idx, opts, n, config) matches Some(c) ==> 0 <= c.shelf
            < shelves.len() && shelf_takes(shelves[c.shelf], c.orient, config) && exists|m: int|
            0 <= m < opts.len() && opts[m] == c.orient,
    decreases n,
{
    if n > 0 {
        lemma_consider_shelf_takes(best, shelves, idx, opts, n - 1, config);
        let before = consider_shelf_all(best, shelves, idx, opts, n - 1, config);
        let after = consider_shelf(before, shelves, idx, opts[n - 1], config);
        if after != before {
            assert(opts[n - 1] == after->Some_0.orient);
        }
    }
}

/// A sheet while it is filled.
struct SkylineState {
    stock: usize,
    index: usize,
    shelves: Vec<Shelf>,
    placements: Vec<Placed>,
}

impl SkylineState {
    spec fn model(&self) -> SkylineModel {
        SkylineModel {
            stock: self.stock as int,
            index: self.index,
            shelves: self.shelves@,
            placed: self.placements@,
        }
    }

    spec fn wf(&self, parts: int, stock: Seq<SheetStockView>, config: PlanarNestConfig) -> bool {
        &&& self.stock < stock.len()
        &&& sheet_ready(stock[self.stock as int], config)
        &&& !too_small(stock[self.stock as int], config.trim as int)
        &&& shelves_ok(self.shelves@, stock[self.stock as int], config)
        &&& all_placed_ok(self.placements@, parts)
        &&& self.shelves@.len() <= self.placements@.len()
    }

    /// Puts the piece on shelf `idx`, if the shelf takes it.
    fn place_on_shelf(
        &mut self,
        idx: usize,
        inst: &Inst,
        preferred: Orient,
        config: &PlanarNestConfig,
        parts: Ghost<int>,
        stock: Ghost<Seq<SheetStockView>>,
    ) -> (r: bool)
        requires
            old(self).stock < stock@.len(),
            sheet_ready(stock@[old(self).stock as int], *config),
            !too_small(stock@[old(self).stock as int], config.trim as int),
            shelves_ok(old(self).shelves@, stock@[old(self).stock as int], *config),
            all_placed_ok(old(self).placements@, parts@),
            old(self).placements.len() < MAX_PIECES,
            idx < old(self).shelves.len(),
            inst_ok(*inst, parts@),
        ensures
            r == (on_shelf(old(self).model(), idx as int, *inst, preferred, *config) is Some),
            r ==> final(self).model() == on_shelf(
                old(self).model(),
                idx as int,
                *inst,
                preferred,
                *config,
            )->Some_0,
            r ==> final(self).placements.len() == old(self).placements.len() + 1,
            r ==> shelves_ok(final(self).shelves@, stock@[old(self).stock as int], *config),
            r ==> all_placed_ok(final(self).placements@, parts@),
            !r ==> *final(self) == *old(self),
            final(self).stock == old(self).stock,
            final(self).shelves.len() == old(self).shelves.len(),
    {
        let ghost sheet = stock@[self.stock as int];
        let opts = orientations(inst);
        let shelf = self.shelves[idx];
        assert(shelf_ok(self.shelves@[idx as int], sheet, *config));
        match pick_lie(&shelf, &opts, preferred, config, Ghost(sheet)) {
            None => false,
            Some(o) => {
                let start = if shelf.cursor_x > config.trim {
                    shelf.cursor_x + config.kerf
                } else {
                    shelf.cursor_x
                };
                let needed = if shelf.cursor_x > config.trim {
                    o.width + config.kerf
                } else {
                    o.width
                };
                let ghost before = self.shelves@;
                let ghost placed_before = self.placements@;
                self.shelves[idx] = Shelf {
                    y: shelf.y,
                    height: shelf.height,
                    cursor_x: start + o.width,
                    width_remaining: shelf.width_remaining - needed,
                };
                self.placements.push(
                    Placed {
                        part: inst.part,
                        x: start,
                        y: shelf.y,
                        width: o.width,
                        height: o.height,
                        rotated: o.rotated,
                    },
                );
                proof {
                    assert forall|k: int| 0 <= k < self.shelves@.len() implies shelf_ok(
                        #[trigger] self.shelves@[k],
                        sheet,
                        *config,
                    ) by {
                        if k != idx {
                            assert(self.shelves@[k] == before[k]);
                        }
                    }
                    assert forall|k: int| 0 <= k < self.placements@.len() implies placed_ok(
                        #[trigger] self.placements@[k],
                        parts@,
                    ) by {
                        if k < placed_before.len() {
                            assert(self.placements@[k] == placed_before[k]);
                        }
                    }
                }
                true
            },
        }
    }

    /// Puts the piece on a further shelf, if it can open one.
    fn create_shelf(
        &mut self,
        inst: &Inst,
        width: i64,
        height: i64,
        config: &PlanarNestConfig,
        parts: Ghost<int>,
        stock: Ghost<Seq<SheetStockView>>,
    ) -> (r: bool)
        requires
            old(self).wf(parts@, stock@, *config),
            old(self).placements.len() < MAX_PIECES,
            inst_ok(*inst, parts@),
            width == stock@[old(self).stock as int].width,
            height == stock@[old(self).stock as int].height,
        ensures
            r == (on_new_shelf(old(self).model(), *inst, stock@, *config) is Some),
            r ==> final(self).model() == on_new_shelf(old(self).model(), *inst, stock@, *config)->Some_0,
            r ==> final(self).placements.len() == old(self).placements.len() + 1,
            r ==> final(self).wf(parts@, stock@, *config),
            !r ==> *final(self) == *old(self),
    {
        let ghost sheet = stock@[self.stock as int];
        let opts = orientations(inst);
        let usable_width = width - 2 * config.trim;
        let usable_height = height - 2 * config.trim;
        let count = self.shelves.len();
        let next = if count > 0 {
            assert(shelf_ok(self.shelves@[count - 1], sheet, *config));
            self.shelves[count - 1].y + self.shelves[count - 1].height + config.kerf
        } else {
            config.trim
        };
        assert(next == next_y(self.shelves@, *config));
        let mut n: usize = 0;
        while n < opts.len() && !(opts[n].width <= usable_width && next + opts[n].height
            <= config.trim + usable_height)
            invariant
                n <= opts.len(),
                sheet == stock@[self.stock as int],
                *self == *old(self),
                sheet_ready(sheet, *config),
                usable_width == sheet.width - 2 * config.trim,
                usable_height == sheet.height - 2 * config.trim,
                next == next_y(self.shelves@, *config),
                0 <= next <= 3 * NEST_LIMIT,
                forall|k: int| 0 <= k < opts.len() ==> orient_ok(#[trigger] opts@[k]),
                first_opening(opts@, sheet, self.shelves@, *config, 0) == first_opening(
                    opts@,
                    sheet,
                    self.shelves@,
                    *config,
                    n as int,
                ),
            decreases opts.len() - n,
        {
            n = n + 1;
        }
        if n >= opts.len() {
            return false;
        }
        let o = opts[n];
        assert(first_opening(opts@, sheet, self.shelves@, *config, 0) == n);
        assert(opens(o, sheet, self.shelves@, *config));
        let ghost before = self.shelves@;
        let opened = Shelf { y: next, height: o.height, cursor_x: config.trim, width_remaining: usable_width };
        self.shelves.push(opened);
        proof {
            assert(opened == opened_shelf(o, sheet, before, *config));
            assert forall|k: int| 0 <= k < self.shelves@.len() implies shelf_ok(
                #[trigger] self.shelves@[k],
                sheet,
                *config,
            ) by {
                if k < before.len() {
                    assert(self.shelves@[k] == before[k]);
                }
            }
            assert(shelf_takes(opened, o, *config));
            lemma_lie_exists(opened, opts@, opts@.len() as int, o, *config, n as int);
        }
        let placed = self.place_on_shelf(count, inst, o, config, parts, stock);
        assert(placed);
        placed
    }

    /// Puts the piece on the shelf on which it leaves the least width, or
    /// else on a further shelf.
    fn place(
        &mut self,
        inst: &Inst,
        width: i64,
        height: i64,
        config: &PlanarNestConfig,
        parts: Ghost<int>,
        stock: Ghost<Seq<SheetStockView>>,
    ) -> (r: bool)
        requires
            old(self).wf(parts@, stock@, *config),
            old(self).placements.len() < MAX_PIECES,
            inst_ok(*inst, parts@),
            width == stock@[old(self).stock as int].width,
            height == stock@[old(self).stock as int].height,
        ensures
            r == (shelved(old(self).model(), *inst, stock@, *config) is Some),
            r ==> final(self).model() == shelved(old(self).model(), *inst, stock@, *config)->Some_0,
            r ==> final(self).placements.len() == old(self).placements.len() + 1,
            r ==> final(self).wf(parts@, stock@, *config),
            !r ==> *final(self) == *old(self),
    {
        let ghost sheet = stock@[self.stock as int];
        let opts = orientations(inst);
        match pick_shelf(&self.shelves, &opts, config, Ghost(sheet)) {
            Some((idx, o)) => {
                proof {
                    lemma_best_shelf_takes(self.shelves@, self.shelves.len() as int, opts@, *config);
                    let m = choose|m: int| 0 <= m < opts@.len() && opts@[m] == o;
                    lemma_lie_exists(
                        self.shelves@[idx as int],
                        opts@,
                        opts@.len() as int,
                        o,
                        *config,
                        m,
                    );
                }
                let placed = self.place_on_shelf(idx, inst, o, config, parts, stock);
                assert(placed);
                placed
            },
            None => self.create_shelf(inst, width, height, config, parts, stock),
        }
    }
}

/// The models of the sheets.
spec fn skyline_models(sheets: Seq<SkylineState>) -> Seq<SkylineModel> {
    sheets.map_values(|s: SkylineState| s.model())
}

/// Whether every sheet is sound and holds at most `most` pieces.
spec fn skylines_wf(
    sheets: Seq<SkylineState>,
    parts: int,
    stock: Seq<SheetStockView>,
    config: PlanarNestConfig,
    most: int,
) -> bool {
    forall|k: int|
        0 <= k < sheets.len() ==> (#[trigger] sheets[k]).wf(parts, stock, config)
            && sheets[k].placements@.len() <= most
}

/// Places one piece.
fn shelve_one(
    sheets: &mut Vec<SkylineState>,
    used: &mut Vec<usize>,
    inst: &Inst,
    stock: &[SheetStock],
    config: &PlanarNestConfig,
    parts: Ghost<int>,
    most: Ghost<int>,
) -> (r: Result<(), NestError>)
    requires
        skylines_wf(old(sheets)@, parts@, sheets_view(stock@), *config, most@),
        0 <= most@ < MAX_PIECES,
        sheets_ok(sheets_view(stock@), *config),
        old(used).len() == stock.len(),
        inst_ok(*inst, parts@),
    ensures
        match r {
            Ok(_) => shelve_inst(
                SkylinePacking { sheets: skyline_models(old(sheets)@), used: old(used)@ },
                *inst,
                sheets_view(stock@),
                *config,
            ) == Ok::<SkylinePacking, NestErrorView>(
                SkylinePacking { sheets: skyline_models(final(sheets)@), used: final(used)@ },
            ) && skylines_wf(final(sheets)@, parts@, sheets_view(stock@), *config, most@ + 1)
                && final(used).len() == stock.len() && final(sheets).len() <= old(sheets).len() + 1,
            Err(e) => shelve_inst(
                SkylinePacking { sheets: skyline_models(old(sheets)@), used: old(used)@ },
                *inst,
                sheets_view(stock@),
                *config,
            ) == Err::<SkylinePacking, NestErrorView>(e@),
        },
{
    let ghost sv = sheets_view(stock@);
    let ghost start = skyline_models(sheets@);
    let mut j: usize = 0;
    let mut found = false;
    while j < sheets.len() && !found
        invariant
            j <= sheets.len(),
            sv == sheets_view(stock@),
            0 <= most@ < MAX_PIECES,
            sheets_ok(sv, *config),
            inst_ok(*inst, parts@),
            sheets.len() == old(sheets).len(),
            !found ==> sheets@ == old(sheets)@,
            !found ==> first_shelving(start, *inst, sv, *config, 0) == first_shelving(
                start,
                *inst,
                sv,
                *config,
                j as int,
            ),
            start == skyline_models(old(sheets)@),
            !found ==> skylines_wf(sheets@, parts@, sv, *config, most@),
            found ==> {
                &&& j < sheets.len()
                &&& first_shelving(start, *inst, sv, *config, 0) == j
                &&& skyline_models(sheets@) == start.update(
                    j as int,
                    shelved(start[j as int], *inst, sv, *config)->Some_0,
                )
                &&& skylines_wf(sheets@, parts@, sv, *config, most@ + 1)
            },
        decreases sheets.len() - j + (if found { 0int } else { 1int }),
    {
        let ghost before = sheets@;
        assert(before[j as int].wf(parts@, sv, *config));
        assert(start[j as int] == before[j as int].model());
        let kind = sheets[j].stock;
        assert(sv[kind as int] == stock@[kind as int]@);
        let width = stock[kind].width;
        let height = stock[kind].height;
        if sheets[j].place(inst, width, height, config, parts, Ghost(sv)) {
            found = true;
            proof {
                assert forall|k: int| 0 <= k < sheets@.len() implies (#[trigger] sheets@[k]).wf(
                    parts@,
                    sv,
                    *config,
                ) && sheets@[k].placements@.len() <= most@ + 1 by {
                    if k != j {
                        assert(sheets@[k] == before[k]);
                    }
                }
                assert(skyline_models(sheets@) =~= start.update(
                    j as int,
                    shelved(start[j as int], *inst, sv, *config)->Some_0,
                )) by {
                    assert forall|k: int| 0 <= k < sheets@.len() implies skyline_models(sheets@)[k]
                        == start.update(
                        j as int,
                        shelved(start[j as int], *inst, sv, *config)->Some_0,
                    )[k] by {
                        if k != j {
                            assert(sheets@[k] == before[k]);
                        }
                    }
                }
            }
        } else {
            assert(sheets@ =~= before);
            j = j + 1;
        }
    }
    if found {
        return Ok(());
    }
    assert(first_shelving(start, *inst, sv, *config, 0) == sheets@.len());
    let s = find_unused(used, stock);
    if s >= stock.len() {
        return Err(NestError::InsufficientStock);
    }
    assert(sv[s as int] == stock@[s as int]@);
    assert(sheet_positive(sv[s as int]) && sheet_in_range(sv[s as int]));
    let width = stock[s].width;
    let height = stock[s].height;
    if width <= 2 * config.trim || height <= 2 * config.trim {
        return Err(NestError::InvalidDimension("sheet dimensions smaller than trim allowance"));
    }
    let mut sheet = SkylineState { stock: s, index: used[s], shelves: Vec::new(), placements: Vec::new() };
    assert(sheet.model().shelves =~= Seq::<Shelf>::empty());
    assert(sheet.model().placed =~= Seq::<Placed>::empty());
    assert(sheet.model() == bare_sheet(s as int, used@[s as int]));
    if !sheet.place(inst, width, height, config, parts, Ghost(sv)) {
        return Err(NestError::InsufficientStock);
    }
    let taken = used[s] + 1;
    used[s] = taken;
    let ghost before = sheets@;
    sheets.push(sheet);
    proof {
        assert(skyline_models(sheets@) =~= start.push(
            shelved(bare_sheet(s as int, old(used)@[s as int]), *inst, sv, *config)->Some_0,
        ));
        assert forall|k: int| 0 <= k < sheets@.len() implies (#[trigger] sheets@[k]).wf(
            parts@,
            sv,
            *config,
        ) && sheets@[k].placements@.len() <= most@ + 1 by {
            if k < before.len() {
                assert(sheets@[k] == before[k]);
            }
        }
    }
    Ok(())
}

/// Once a piece cannot be placed, no longer run of pieces can be packed.
proof fn lemma_shelve_sticks(
    insts: Seq<Inst>,
    k: int,
    n: int,
    stock: Seq<SheetStockView>,
    config: PlanarNestConfig,
)
    requires
        0 <= k <= n,
        shelve_all(insts, k, stock, config) is Err,
    ensures
        shelve_all(insts, n, stock, config) == shelve_all(insts, k, stock, config),
    decreases n - k,
{
    if k < n {
        lemma_shelve_sticks(insts, k, n - 1, stock, config);
    }
}

/// Whether an offcut has dimensions inside the supported range.
spec fn offcut_ok(o: OffcutRect) -> bool {
    0 < o.width <= NEST_LIMIT && 0 < o.height <= NEST_LIMIT
}

/// Adds up the areas of the offcuts.
fn sum_offcuts(offcuts: &Vec<OffcutRect>) -> (a: i128)
    requires
        offcuts.len() <= MAX_PIECES + 1,
        forall|k: int| 0 <= k < offcuts.len() ==> offcut_ok(#[trigger] offcuts@[k]),
    ensures
        a == offcut_area(offcuts@, offcuts.len() as int),
        0 <= a <= offcuts.len() * 0x1_0000_0000_0000_0000_0000,
{
    let mut sum: i128 = 0;
    let mut i: usize = 0;
    while i < offcuts.len()
        invariant
            i <= offcuts.len(),
            offcuts.len() <= MAX_PIECES + 1,
            forall|k: int| 0 <= k < offcuts.len() ==> offcut_ok(#[trigger] offcuts@[k]),
            sum == offcut_area(offcuts@, i as int),
            0 <= sum <= i * 0x1_0000_0000_0000_0000_0000,
        decreases offcuts.len() - i,
    {
        let o = offcuts[i];
        assert(offcut_ok(offcuts@[i as int]));
        proof {
            lemma_product_bound(o.width as int, o.height as int, NEST_LIMIT as int, NEST_LIMIT as int);
            assert(NEST_LIMIT * NEST_LIMIT == AREA_MAX) by (nonlinear_arith);
            assert(o.width * o.height >= 0) by (nonlinear_arith)
                requires
                    o.width > 0,
                    o.height > 0,
            ;
        }
        sum = sum + (o.width as i128) * (o.height as i128);
        i = i + 1;
    }
    sum
}

/// The sheet as it is handed out.
fn finalize(
    sheet: &SkylineState,
    parts: &[RectPart],
    stock: &[SheetStock],
    config: &PlanarNestConfig,
) -> (r: SheetLayout)
    requires
        sheet.wf(parts.len() as int, sheets_view(stock@), *config),
    ensures
        r@ == finished_skyline(
            sheet.model(),
            rect_parts_view(parts@),
            sheets_view(stock@),
            *config,
        ),
        figures_ok(r.metrics),
{
    let ghost sv = sheets_view(stock@);
    let ghost kind = sv[sheet.stock as int];
    assert(kind == stock@[sheet.stock as int]@);
    let width = stock[sheet.stock].width;
    let height = stock[sheet.stock].height;
    proof {
        lemma_product_bound(width as int, height as int, NEST_LIMIT as int, NEST_LIMIT as int);
        assert(NEST_LIMIT * NEST_LIMIT == AREA_MAX) by (nonlinear_arith);
        assert(width * height > 0) by (nonlinear_arith)
            requires
                width > 0,
                height > 0,
        ;
    }
    let total: i128 = (width as i128) * (height as i128);
    let used = sum_area(&sheet.placements, Ghost(parts.len() as int));
    let trim = trim_area_of(width, height, config.trim);
    let mut kerf: i128 = 0;
    let mut offcuts: Vec<OffcutRect> = Vec::new();
    let mut i: usize = 0;
    while i < sheet.shelves.len()
        invariant
            i <= sheet.shelves.len(),
            sheet.shelves.len() <= MAX_PIECES,
            sheet_ready(kind, *config),
            shelves_ok(sheet.shelves@, kind, *config),
            kerf == shelf_kerf(sheet.shelves@, i as int, *config),
            0 <= kerf <= i * 0x1_0000_0000_0000_0000_0000,
            offcuts@ == shelf_offcuts(sheet.shelves@, i as int),
            offcuts.len() <= i,
            forall|k: int| 0 <= k < offcuts.len() ==> offcut_ok(#[trigger] offcuts@[k]),
        decreases sheet.shelves.len() - i,
    {
        let shelf = sheet.shelves[i];
        assert(shelf_ok(sheet.shelves@[i as int], kind, *config));
        if shelf.cursor_x > config.trim {
            proof {
                lemma_product_bound(
                    shelf.height as int,
                    config.kerf as int,
                    NEST_LIMIT as int,
                    NEST_LIMIT as int,
                );
                assert(NEST_LIMIT * NEST_LIMIT == AREA_MAX) by (nonlinear_arith);
                assert(shelf.height * config.kerf >= 0) by (nonlinear_arith)
                    requires
                        shelf.height > 0,
                        config.kerf >= 0,
                ;
            }
            kerf = kerf + (shelf.height as i128) * (config.kerf as i128);
        }
        if shelf.width_remaining > 0 {
            let ghost before = offcuts@;
            offcuts.push(
                OffcutRect {
                    x: shelf.cursor_x,
                    y: shelf.y,
                    width: shelf.width_remaining,
                    height: shelf.height,
                },
            );
            assert forall|k: int| 0 <= k < offcuts.len() implies offcut_ok(
                #[trigger] offcuts@[k],
            ) by {
                if k < before.len() {
                    assert(offcuts@[k] == before[k]);
                }
            }
        }
        i = i + 1;
    }
    let usable_height = height - 2 * config.trim;
    let count = sheet.shelves.len();
    let used_height = if count > 0 {
        assert(shelf_ok(sheet.shelves@[count - 1], kind, *config));
        sheet.shelves[count - 1].y + sheet.shelves[count - 1].height - config.trim
    } else {
        0
    };
    if usable_height - used_height > 0 {
        let ghost before = offcuts@;
        offcuts.push(
            OffcutRect {
                x: config.trim,
                y: config.trim + used_height,
                width: width - 2 * config.trim,
                height: usable_height - used_height,
            },
        );
        assert forall|k: int| 0 <= k < offcuts.len() implies offcut_ok(#[trigger] offcuts@[k]) by {
            if k < before.len() {
                assert(offcuts@[k] == before[k]);
            }
        }
    }
    assert(offcuts@ =~= skyline_offcuts(sheet.model(), sv, *config));
    let left = sum_offcuts(&offcuts);
    let occupied = used + kerf + trim + left;
    let offcut_loss = if occupied > total + OVERRUN_EPS {
        let rest = total - (used + kerf + trim);
        if rest > 0 {
            rest
        } else {
            0
        }
    } else {
        left
    };
    let metrics = UtilizationBreakdown {
        kind: MetricKind::Area,
        utilized: used,
        kerf_loss: kerf,
        trim_loss: trim,
        offcut_loss,
        stock_total: total,
    };
    SheetLayout {
        stock_id: stock[sheet.stock].id.clone(),
        index: sheet.index,
        placements: name_placements(&sheet.placements, parts),
        offcuts,
        metrics,
    }
}

/// The rank of the name of the sheet at position `s`.
spec fn rank_of_sheet(stock: Seq<SheetStockView>, s: int) -> int {
    rank_among(sheet_names(stock), stock[s].id, stock.len() as int)
}

/// Hands the sheets out in their order.
fn finish_sheets(
    sheets: &Vec<SkylineState>,
    parts: &[RectPart],
    stock: &[SheetStock],
    config: &PlanarNestConfig,
) -> (out: Vec<SheetLayout>)
    requires
        skylines_wf(
            sheets@,
            parts.len() as int,
            sheets_view(stock@),
            *config,
            MAX_PIECES as int,
        ),
    ensures
        layouts_view(out@) == skylines_out(
            skyline_models(sheets@),
            rect_parts_view(parts@),
            sheets_view(stock@),
            *config,
        ),
        forall|k: int| 0 <= k < out.len() ==> figures_ok((#[trigger] out@[k]).metrics),        out.len() == sheets.len(),
{
    let ghost sv = sheets_view(stock@);
    let ghost pv = rect_parts_view(parts@);
    let ghost ms = skyline_models(sheets@);
    let ranks = sheet_ranks(stock);
    let mut keys: Vec<SortKey> = Vec::new();
    let mut p: usize = 0;
    while p < sheets.len()
        invariant
            p <= sheets.len(),
            keys.len() == p,
            sv == sheets_view(stock@),
            ms == skyline_models(sheets@),
            skylines_wf(sheets@, parts.len() as int, sv, *config, MAX_PIECES as int),
            ranks.len() == stock.len(),
            forall|s: int| 0 <= s < stock.len() ==> #[trigger] ranks@[s] == rank_of_sheet(sv, s),
            forall|k: int|
                0 <= k < p ==> #[trigger] keys@[k] == sheet_key(ms[k].stock, ms[k].index, sv, k),
        decreases sheets.len() - p,
    {
        assert(sheets@[p as int].wf(parts.len() as int, sv, *config));
        assert(ms[p as int] == sheets@[p as int].model());
        keys.push(
            SortKey { major: ranks[sheets[p].stock], minor: sheets[p].index as u64, index: p },
        );
        p = p + 1;
    }
    assert(keys@ =~= skyline_keys(ms, sv));
    let sorted = sort_keys(&keys);
    let ghost wanted = skylines_out(ms, pv, sv, *config);
    let mut out: Vec<SheetLayout> = Vec::new();
    let mut i: usize = 0;
    proof {
        lemma_sorted_keys(keys@);
    }
    while i < sorted.len()
        invariant
            i <= sorted.len(),
            out.len() == i,
            sv == sheets_view(stock@),
            pv == rect_parts_view(parts@),
            ms == skyline_models(sheets@),
            skylines_wf(sheets@, parts.len() as int, sv, *config, MAX_PIECES as int),
            keys@ == skyline_keys(ms, sv),
            sorted@ == sorted_keys(keys@),
            sorted.len() == keys.len(),
            forall|k: int| 0 <= k < sorted.len() ==> keys@.contains(#[trigger] sorted@[k]),
            wanted == skylines_out(ms, pv, sv, *config),
            forall|k: int| 0 <= k < i ==> (#[trigger] out@[k])@ == wanted[k],
            forall|k: int| 0 <= k < i ==> figures_ok((#[trigger] out@[k]).metrics),
        decreases sorted.len() - i,
    {
        let key = sorted[i];
        proof {
            assert(keys@.contains(sorted@[i as int]));
            let w = choose|w: int| 0 <= w < keys@.len() && keys@[w] == key;
            assert(key.index == w);
        }
        assert(sheets@[key.index as int].wf(parts.len() as int, sv, *config));
        assert(ms[key.index as int] == sheets@[key.index as int].model());
        let layout = finalize(&sheets[key.index], parts, stock, config);
        assert(wanted[i as int] == finished_skyline(ms[key.index as int], pv, sv, *config));
        out.push(layout);
        i = i + 1;
    }
    assert(layouts_view(out@) =~= wanted);
    out
}

/// Nests the parts on the sheets: each part as often as its quantity says,
/// the highest first, each on the first sheet that takes it, a fresh sheet
/// being taken from the first kind that is left when none does. On a sheet
/// the piece goes on the shelf on which it leaves the least width, or else
/// opens a further shelf above the last. The sheets are handed out in the
/// order of the names of their stock and of their numbers.
pub fn skyline_sheets(parts: &[RectPart], stock: &[SheetStock], config: &PlanarNestConfig) -> (r:
    NestResult<Vec<SheetLayout>>)
    ensures
        match r {
            Ok(layouts) => skyline_layout(rect_parts_view(parts@), sheets_view(stock@), *config)
                == Ok::<Seq<SheetLayoutView>, NestErrorView>(layouts_view(layouts@)),
            Err(e) => skyline_layout(rect_parts_view(parts@), sheets_view(stock@), *config) == Err::<
                Seq<SheetLayoutView>,
                NestErrorView,
            >(e@),
        },
        r matches Ok(layouts) ==> layouts.len() <= MAX_PIECES && forall|k: int|
            0 <= k < layouts.len() ==> figures_ok((#[trigger] layouts@[k]).metrics),
{
    match check_planar(parts, stock, config) {
        Err(e) => {
            return Err(e);
        },
        Ok(_) => {},
    }
    let ghost pv = rect_parts_view(parts@);
    let ghost sv = sheets_view(stock@);
    proof {
        lemma_no_fault(pv, sv, *config);
    }
    let (insts, keys) = expand_parts(parts, config.seed, SortBy::Height);
    let sorted = sort_keys(&keys);
    let ghost ordered = insts_in_order(insts@, pv, config.seed, SortBy::Height);
    let mut sheets: Vec<SkylineState> = Vec::new();
    let mut used: Vec<usize> = Vec::new();
    let mut s: usize = 0;
    while s < stock.len()
        invariant
            s <= stock.len(),
            used.len() == s,
            forall|k: int| 0 <= k < s ==> used@[k] == 0,
        decreases stock.len() - s,
    {
        used.push(0);
        s = s + 1;
    }
    assert(used@ =~= Seq::new(sv.len(), |i: int| 0usize));
    assert(skyline_models(sheets@) =~= Seq::<SkylineModel>::empty());
    let mut i: usize = 0;
    while i < sorted.len()
        invariant
            i <= sorted.len(),
            pv == rect_parts_view(parts@),
            sv == sheets_view(stock@),
            planar_fault(pv, sv, *config) is None,
            sheets_ok(sv, *config),
            insts@ == instances_of(pv, parts.len() as int),
            ordered == insts_in_order(insts@, pv, config.seed, SortBy::Height),
            keys@ == inst_keys(insts@, pv, config.seed, SortBy::Height),
            sorted@ == sorted_keys(keys@),
            sorted.len() == keys.len(),
            keys.len() == insts.len(),
            insts.len() <= MAX_PIECES,
            forall|k: int| 0 <= k < insts.len() ==> inst_ok(#[trigger] insts@[k], parts.len() as int),
            forall|k: int| 0 <= k < sorted.len() ==> keys@.contains(#[trigger] sorted@[k]),
            used.len() == stock.len(),
            sheets.len() <= i,
            skylines_wf(sheets@, parts.len() as int, sv, *config, i as int),
            shelve_all(ordered, i as int, sv, *config) == Ok::<SkylinePacking, NestErrorView>(
                SkylinePacking { sheets: skyline_models(sheets@), used: used@ },
            ),
        decreases sorted.len() - i,
    {
        let key = sorted[i];
        proof {
            assert(keys@.contains(sorted@[i as int]));
            let w = choose|w: int| 0 <= w < keys@.len() && keys@[w] == key;
            assert(key.index == w);
        }
        let inst = insts[key.index];
        assert(ordered[i as int] == inst);
        match shelve_one(
            &mut sheets,
            &mut used,
            &inst,
            stock,
            config,
            Ghost(parts.len() as int),
            Ghost(i as int),
        ) {
            Ok(_) => {},
            Err(e) => {
                proof {
                    lemma_shelve_sticks(ordered, i + 1, ordered.len() as int, sv, *config);
                }
                return Err(e);
            },
        }
        i = i + 1;
    }
    Ok(finish_sheets(&sheets, parts, stock, config))
}

} // verus!
