//! Planar nesting: rectangular parts cut from sheets.
use vstd::prelude::*;
use crate::nest::error::{NestError, NestErrorView};
use crate::nest::linear::{no_metrics, NEST_LIMIT};
use crate::nest::metrics::{MetricKind, UtilizationBreakdown};
use crate::nest::order::{
    key_order, lemma_majors_fixed, lemma_sorted_keys, name_ranks, names_view, rank_among,
    sorted_keys, SortKey,
};
use crate::nest::util::{hash_with_seed, seeded_hash};
use crate::text::chars_of;
use crate::units::lemma_product_bound;

verus! {

/// The most pieces that one run of planar nesting takes.
pub const MAX_PIECES: usize = 1_000_000;

/// The largest area of a part or a sheet: the square of [`NEST_LIMIT`].
pub const AREA_MAX: i128 = 0x1_0000_0000_0000_0000_0000;

#[derive(Debug, Clone, Copy, PartialEq, Eq, Structural)]
pub enum GrainDirection {
    AlongX,
    AlongY,
    /// The part may be turned by a quarter turn.
    Either,
}

#[derive(Debug, Clone, PartialEq, Eq)]
pub struct RectPart {
    pub id: String,
    pub width: i64,
    pub height: i64,
    pub quantity: usize,
    pub grain: GrainDirection,
}

#[derive(Debug, Clone, PartialEq, Eq)]
pub struct SheetStock {
    pub id: String,
    pub width: i64,
    pub height: i64,
    pub quantity: usize,
}

#[derive(Debug, Clone, Copy, PartialEq, Eq, Structural)]
pub struct PlanarNestConfig {
    /// The width of a cut.
    pub kerf: i64,
    /// What is trimmed off each edge of a sheet.
    pub trim: i64,
    /// Decides the order of parts of equal size.
    pub seed: u64,
}

impl Default for PlanarNestConfig {
    fn default() -> (c: Self)
        ensures
            c == (PlanarNestConfig { kerf: 0, trim: 0, seed: 0 }),
    {
        PlanarNestConfig { kerf: 0, trim: 0, seed: 0 }
    }
}

#[derive(Debug, Clone, PartialEq, Eq)]
pub struct RectPlacement {
    pub part_id: String,
    pub x: i64,
    pub y: i64,
    pub width: i64,
    pub height: i64,
    pub rotated: bool,
}

#[derive(Debug, Clone, Copy, PartialEq, Eq, Structural)]
pub struct OffcutRect {
    pub x: i64,
    pub y: i64,
    pub width: i64,
    pub height: i64,
}

#[derive(Debug, Clone, PartialEq, Eq)]
pub struct SheetLayout {
    pub stock_id: String,
    pub index: usize,
    pub placements: Vec<RectPlacement>,
    pub offcuts: Vec<OffcutRect>,
    pub metrics: UtilizationBreakdown,
}

/// A part with its name as a sequence of characters.
pub struct RectPartView {
    pub id: Seq<char>,
    pub width: i64,
    pub height: i64,
    pub quantity: usize,
    pub grain: GrainDirection,
}

/// A kind of sheet with its name as a sequence of characters.
pub struct SheetStockView {
    pub id: Seq<char>,
    pub width: i64,
    pub height: i64,
    pub quantity: usize,
}

/// A placement with the name of its part as a sequence of characters.
pub struct PlacementView {
    pub part_id: Seq<char>,
    pub x: i64,
    pub y: i64,
    pub width: i64,
    pub height: i64,
    pub rotated: bool,
}

/// A sheet layout as sequences.
pub struct SheetLayoutView {
    pub stock_id: Seq<char>,
    pub index: usize,
    pub placements: Seq<PlacementView>,
    pub offcuts: Seq<OffcutRect>,
    pub metrics: UtilizationBreakdown,
}

impl View for RectPart {
    type V = RectPartView;

    open spec fn view(&self) -> RectPartView {
        RectPartView {
            id: self.id@,
            width: self.width,
            height: self.height,
            quantity: self.quantity,
            grain: self.grain,
        }
    }
}

impl View for SheetStock {
    type V = SheetStockView;

    open spec fn view(&self) -> SheetStockView {
        SheetStockView {
            id: self.id@,
            width: self.width,
            height: self.height,
            quantity: self.quantity,
        }
    }
}

impl View for RectPlacement {
    type V = PlacementView;

    open spec fn view(&self) -> PlacementView {
        PlacementView {
            part_id: self.part_id@,
            x: self.x,
            y: self.y,
            width: self.width,
            height: self.height,
            rotated: self.rotated,
        }
    }
}

/// The views of a sequence of placements.
pub open spec fn placements_view(placements: Seq<RectPlacement>) -> Seq<PlacementView> {
    placements.map_values(|p: RectPlacement| p@)
}

impl View for SheetLayout {
    type V = SheetLayoutView;

    open spec fn view(&self) -> SheetLayoutView {
        SheetLayoutView {
            stock_id: self.stock_id@,
            index: self.index,
            placements: placements_view(self.placements@),
            offcuts: self.offcuts@,
            metrics: self.metrics,
        }
    }
}

/// The views of a sequence of layouts.
pub open spec fn layouts_view(layouts: Seq<SheetLayout>) -> Seq<SheetLayoutView> {
    layouts.map_values(|l: SheetLayout| l@)
}

/// The views of a sequence of parts.
pub open spec fn rect_parts_view(parts: Seq<RectPart>) -> Seq<RectPartView> {
    parts.map_values(|p: RectPart| p@)
}

/// The views of a sequence of sheets.
pub open spec fn sheets_view(stock: Seq<SheetStock>) -> Seq<SheetStockView> {
    stock.map_values(|s: SheetStock| s@)
}

/// The number of pieces of the first `n` parts.
pub open spec fn piece_count(parts: Seq<RectPartView>, n: int) -> int
    decreases n,
{
    if n <= 0 {
        0
    } else {
        piece_count(parts, n - 1) + parts[n - 1].quantity
    }
}

/// Whether a part can be nested at all.
pub open spec fn part_positive(p: RectPartView) -> bool {
    p.width > 0 && p.height > 0 && p.quantity > 0
}

/// Whether a kind of sheet can be nested on at all.
pub open spec fn sheet_positive(s: SheetStockView) -> bool {
    s.width > 0 && s.height > 0 && s.quantity > 0
}

/// Whether a part lies inside the supported range.
pub open spec fn part_in_range(p: RectPartView) -> bool {
    p.width <= NEST_LIMIT && p.height <= NEST_LIMIT
}

/// Whether a kind of sheet lies inside the supported range.
pub open spec fn sheet_in_range(s: SheetStockView) -> bool {
    s.width <= NEST_LIMIT && s.height <= NEST_LIMIT
}

/// Why the input cannot be nested, if it cannot: a part or a kind of sheet
/// without positive dimensions and quantity, a dimension outside the
/// supported range, or more than [`MAX_PIECES`] pieces.
pub open spec fn planar_fault(
    parts: Seq<RectPartView>,
    stock: Seq<SheetStockView>,
    config: PlanarNestConfig,
) -> Option<NestErrorView> {
    if exists|i: int| 0 <= i < parts.len() && !part_positive(#[trigger] parts[i]) {
        Some(NestErrorView::InvalidDimension("part dimensions must be positive"@))
    } else if exists|i: int| 0 <= i < stock.len() && !sheet_positive(#[trigger] stock[i]) {
        Some(NestErrorView::InvalidDimension("stock dimensions must be positive"@))
    } else if (exists|i: int| 0 <= i < parts.len() && !part_in_range(#[trigger] parts[i])) || (
    exists|i: int| 0 <= i < stock.len() && !sheet_in_range(#[trigger] stock[i])) || !(0
        <= config.kerf <= NEST_LIMIT) || !(0 <= config.trim <= NEST_LIMIT) {
        Some(NestErrorView::InvalidDimension("dimension out of range"@))
    } else if piece_count(parts, parts.len() as int) > MAX_PIECES {
        Some(NestErrorView::InvalidDimension("too many parts"@))
    } else {
        None
    }
}

/// One piece to place: copy `seq` of the part at position `part`.
#[derive(Debug, Clone, Copy, PartialEq, Eq, Structural)]
pub struct Inst {
    pub part: usize,
    pub seq: usize,
    pub width: i64,
    pub height: i64,
    pub grain: GrainDirection,
}

/// The first `k` copies of the part at position `position`.
pub open spec fn inst_copies(part: RectPartView, position: int, k: int) -> Seq<Inst>
    decreases k,
{
    if k <= 0 {
        Seq::empty()
    } else {
        inst_copies(part, position, k - 1).push(
            Inst {
                part: position as usize,
                seq: (k - 1) as usize,
                width: part.width,
                height: part.height,
                grain: part.grain,
            },
        )
    }
}

/// The pieces of the first `n` parts.
pub open spec fn instances_of(parts: Seq<RectPartView>, n: int) -> Seq<Inst>
    decreases n,
{
    if n <= 0 {
        Seq::empty()
    } else {
        instances_of(parts, n - 1) + inst_copies(parts[n - 1], n - 1, parts[n - 1].quantity as int)
    }
}

/// What decides the order of pieces first.
#[derive(Debug, Clone, Copy, PartialEq, Eq, Structural)]
pub enum SortBy {
    /// The larger area comes first.
    Area,
    /// The larger height comes first.
    Height,
}

/// The size by which a piece is sorted.
pub open spec fn sort_size(inst: Inst, by: SortBy) -> int {
    match by {
        SortBy::Area => inst.width * inst.height,
        SortBy::Height => inst.height as int,
    }
}

/// What a piece is sorted by: the larger comes first; among pieces of equal
/// size the hash of name and copy under the seed decides, and then the
/// position.
pub open spec fn inst_key(
    inst: Inst,
    parts: Seq<RectPartView>,
    seed: u64,
    index: int,
    by: SortBy,
) -> SortKey {
    SortKey {
        major: (-sort_size(inst, by)) as i128,
        minor: seeded_hash(parts[inst.part as int].id, seed ^ (inst.seq as u64)),
        index: index as usize,
    }
}

/// The keys of the pieces.
pub open spec fn inst_keys(insts: Seq<Inst>, parts: Seq<RectPartView>, seed: u64, by: SortBy) -> Seq<
    SortKey,
> {
    Seq::new(insts.len(), |i: int| inst_key(insts[i], parts, seed, i, by))
}

/// The pieces in the order in which they are placed.
pub open spec fn insts_in_order(
    insts: Seq<Inst>,
    parts: Seq<RectPartView>,
    seed: u64,
    by: SortBy,
) -> Seq<Inst> {
    sorted_keys(inst_keys(insts, parts, seed, by)).map_values(|k: SortKey| insts[k.index as int])
}

/// A part as it lies on the sheet.
#[derive(Debug, Clone, Copy, PartialEq, Eq, Structural)]
pub struct Orient {
    pub width: i64,
    pub height: i64,
    pub rotated: bool,
}

/// How a piece may lie: as it is, and turned by a quarter turn if its grain
/// may run either way.
pub open spec fn options(inst: Inst) -> Seq<Orient> {
    let base = Orient { width: inst.width, height: inst.height, rotated: false };
    if inst.grain == GrainDirection::Either {
        seq![base, Orient { width: inst.height, height: inst.width, rotated: true }]
    } else {
        seq![base]
    }
}

/// A placed piece, by the position of its part.
#[derive(Debug, Clone, Copy, PartialEq, Eq, Structural)]
pub struct Placed {
    pub part: usize,
    pub x: i64,
    pub y: i64,
    pub width: i64,
    pub height: i64,
    pub rotated: bool,
}

/// Whether the inputs can be nested.
pub fn check_planar(parts: &[RectPart], stock: &[SheetStock], config: &PlanarNestConfig) -> (r: Result<
    (),
    NestError,
>)
    ensures
        match r {
            Ok(_) => planar_fault(rect_parts_view(parts@), sheets_view(stock@), *config) is None,
            Err(e) => planar_fault(rect_parts_view(parts@), sheets_view(stock@), *config) == Some(
                e@,
            ),
        },
{
    let ghost pv = rect_parts_view(parts@);
    let ghost sv = sheets_view(stock@);
    let mut i: usize = 0;
    while i < parts.len()
        invariant
            i <= parts.len(),
            pv == rect_parts_view(parts@),
            forall|k: int| 0 <= k < i ==> part_positive(#[trigger] pv[k]),
        decreases parts.len() - i,
    {
        if parts[i].width <= 0 || parts[i].height <= 0 || parts[i].quantity == 0 {
            assert(!part_positive(pv[i as int]));
            return Err(NestError::InvalidDimension("part dimensions must be positive"));
        }
        assert(part_positive(pv[i as int]));
        i = i + 1;
    }
    let mut i: usize = 0;
    while i < stock.len()
        invariant
            i <= stock.len(),
            pv == rect_parts_view(parts@),
            sv == sheets_view(stock@),
            forall|k: int| 0 <= k < parts.len() ==> part_positive(#[trigger] pv[k]),
            forall|k: int| 0 <= k < i ==> sheet_positive(#[trigger] sv[k]),
        decreases stock.len() - i,
    {
        if stock[i].width <= 0 || stock[i].height <= 0 || stock[i].quantity == 0 {
            assert(!sheet_positive(sv[i as int]));
            return Err(NestError::InvalidDimension("stock dimensions must be positive"));
        }
        assert(sheet_positive(sv[i as int]));
        i = i + 1;
    }
    let mut i: usize = 0;
    while i < parts.len()
        invariant
            i <= parts.len(),
            pv == rect_parts_view(parts@),
            sv == sheets_view(stock@),
            forall|k: int| 0 <= k < parts.len() ==> part_positive(#[trigger] pv[k]),
            forall|k: int| 0 <= k < stock.len() ==> sheet_positive(#[trigger] sv[k]),
            forall|k: int| 0 <= k < i ==> part_in_range(#[trigger] pv[k]),
        decreases parts.len() - i,
    {
        if parts[i].width > NEST_LIMIT || parts[i].height > NEST_LIMIT {
            assert(!part_in_range(pv[i as int]));
            return Err(NestError::InvalidDimension("dimension out of range"));
        }
        assert(part_in_range(pv[i as int]));
        i = i + 1;
    }
    let mut i: usize = 0;
    while i < stock.len()
        invariant
            i <= stock.len(),
            pv == rect_parts_view(parts@),
            sv == sheets_view(stock@),
            forall|k: int| 0 <= k < parts.len() ==> part_positive(#[trigger] pv[k]),
            forall|k: int| 0 <= k < stock.len() ==> sheet_positive(#[trigger] sv[k]),
            forall|k: int| 0 <= k < parts.len() ==> part_in_range(#[trigger] pv[k]),
            forall|k: int| 0 <= k < i ==> sheet_in_range(#[trigger] sv[k]),
        decreases stock.len() - i,
    {
        if stock[i].width > NEST_LIMIT || stock[i].height > NEST_LIMIT {
            assert(!sheet_in_range(sv[i as int]));
            return Err(NestError::InvalidDimension("dimension out of range"));
        }
        assert(sheet_in_range(sv[i as int]));
        i = i + 1;
    }
    if config.kerf < 0 || config.kerf > NEST_LIMIT || config.trim < 0 || config.trim > NEST_LIMIT {
        return Err(NestError::InvalidDimension("dimension out of range"));
    }
    let mut count: usize = 0;
    let mut i: usize = 0;
    while i < parts.len()
        invariant
            i <= parts.len(),
            pv == rect_parts_view(parts@),
            sv == sheets_view(stock@),
            forall|k: int| 0 <= k < parts.len() ==> part_positive(#[trigger] pv[k]),
            forall|k: int| 0 <= k < stock.len() ==> sheet_positive(#[trigger] sv[k]),
            forall|k: int| 0 <= k < parts.len() ==> part_in_range(#[trigger] pv[k]),
            forall|k: int| 0 <= k < stock.len() ==> sheet_in_range(#[trigger] sv[k]),
            0 <= config.kerf <= NEST_LIMIT,
            0 <= config.trim <= NEST_LIMIT,
            count == piece_count(pv, i as int),
            count <= MAX_PIECES,
        decreases parts.len() - i,
    {
        assert(pv[i as int].quantity == parts@[i as int].quantity);
        if parts[i].quantity > MAX_PIECES - count {
            proof {
                lemma_piece_count_grows(pv, i + 1, parts.len() as int);
            }
            return Err(NestError::InvalidDimension("too many parts"));
        }
        count = count + parts[i].quantity;
        i = i + 1;
    }
    Ok(())
}

/// The number of pieces grows with the number of parts.
proof fn lemma_piece_count_grows(parts: Seq<RectPartView>, k: int, n: int)
    requires
        0 <= k <= n,
    ensures
        piece_count(parts, k) <= piece_count(parts, n),
    decreases n - k,
{
    if k < n {
        lemma_piece_count_grows(parts, k, n - 1);
    }
}

/// Whether every part can be nested and lies inside the supported range.
pub open spec fn parts_ok(parts: Seq<RectPartView>) -> bool {
    &&& forall|k: int| 0 <= k < parts.len() ==> part_positive(#[trigger] parts[k])
    &&& forall|k: int| 0 <= k < parts.len() ==> part_in_range(#[trigger] parts[k])
    &&& piece_count(parts, parts.len() as int) <= MAX_PIECES
}

/// Whether a piece has dimensions inside the supported range and belongs
/// to one of `n` parts.
pub open spec fn inst_ok(inst: Inst, n: int) -> bool {
    &&& inst.part < n
    &&& 0 < inst.width <= NEST_LIMIT
    &&& 0 < inst.height <= NEST_LIMIT
}

/// The pieces of parts are as many as their quantities say.
proof fn lemma_instances_len(parts: Seq<RectPartView>, n: int)
    requires
        0 <= n <= parts.len(),
    ensures
        instances_of(parts, n).len() == piece_count(parts, n),
    decreases n,
{
    if n > 0 {
        lemma_instances_len(parts, n - 1);
        lemma_copies_len(parts[n - 1], n - 1, parts[n - 1].quantity as int);
    }
}

proof fn lemma_copies_len(part: RectPartView, position: int, k: int)
    requires
        k >= 0,
    ensures
        inst_copies(part, position, k).len() == k,
    decreases k,
{
    if k > 0 {
        lemma_copies_len(part, position, k - 1);
    }
}

/// Lists the pieces of all parts with their keys.
pub fn expand_parts(parts: &[RectPart], seed: u64, by: SortBy) -> (r: (Vec<Inst>, Vec<SortKey>))
    requires
        parts_ok(rect_parts_view(parts@)),
    ensures
        r.0@ == instances_of(rect_parts_view(parts@), parts.len() as int),
        r.1@ == inst_keys(r.0@, rect_parts_view(parts@), seed, by),
        forall|k: int| 0 <= k < r.0.len() ==> inst_ok(#[trigger] r.0@[k], parts.len() as int),
        r.0.len() <= MAX_PIECES,
{
    let ghost pv = rect_parts_view(parts@);
    let mut insts: Vec<Inst> = Vec::new();
    let mut keys: Vec<SortKey> = Vec::new();
    let mut i: usize = 0;
    assert(insts@ =~= instances_of(pv, 0));
    assert(keys@ =~= inst_keys(insts@, pv, seed, by));
    while i < parts.len()
        invariant
            i <= parts.len(),
            pv == rect_parts_view(parts@),
            parts_ok(pv),
            insts@ == instances_of(pv, i as int),
            keys@ == inst_keys(insts@, pv, seed, by),
            forall|k: int| 0 <= k < insts.len() ==> inst_ok(#[trigger] insts@[k], parts.len() as int),
        decreases parts.len() - i,
    {
        let quantity = parts[i].quantity;
        let width = parts[i].width;
        let height = parts[i].height;
        let grain = parts[i].grain;
        let ghost base = instances_of(pv, i as int);
        let ghost part = pv[i as int];
        assert(part_positive(part) && part_in_range(part));
        let mut j: usize = 0;
        assert(base + inst_copies(part, i as int, 0) =~= base);
        while j < quantity
            invariant
                j <= quantity,
                i < parts.len(),
                pv == rect_parts_view(parts@),
                part == pv[i as int],
                part.width == width,
                part.height == height,
                part.grain == grain,
                0 < width <= NEST_LIMIT,
                0 < height <= NEST_LIMIT,
                base == instances_of(pv, i as int),
                insts@ == base + inst_copies(part, i as int, j as int),
                keys@ == inst_keys(insts@, pv, seed, by),
                forall|k: int|
                    0 <= k < insts.len() ==> inst_ok(#[trigger] insts@[k], parts.len() as int),
            decreases quantity - j,
        {
            let hash = hash_with_seed(parts[i].id.as_str(), seed ^ (j as u64));
            let inst = Inst { part: i, seq: j, width, height, grain };
            proof {
                lemma_product_bound(
                    width as int,
                    height as int,
                    NEST_LIMIT as int,
                    NEST_LIMIT as int,
                );
                assert(NEST_LIMIT * NEST_LIMIT == AREA_MAX) by (nonlinear_arith);
            }
            let size: i128 = match by {
                SortBy::Area => (width as i128) * (height as i128),
                SortBy::Height => height as i128,
            };
            keys.push(SortKey { major: -size, minor: hash, index: insts.len() });
            insts.push(inst);
            proof {
                assert(inst_copies(part, i as int, j + 1) == inst_copies(part, i as int, j as int).push(
                    inst,
                ));
                assert(insts@ =~= base + inst_copies(part, i as int, j + 1));
                assert(keys@ =~= inst_keys(insts@, pv, seed, by));
            }
            j = j + 1;
        }
        assert(parts@[i as int]@.quantity == quantity);
        i = i + 1;
    }
    proof {
        lemma_instances_len(pv, parts.len() as int);
    }
    (insts, keys)
}

/// Whether every kind of sheet and the allowances lie inside the
/// supported range.
pub open spec fn sheets_ok(stock: Seq<SheetStockView>, config: PlanarNestConfig) -> bool {
    &&& forall|k: int| 0 <= k < stock.len() ==> sheet_positive(#[trigger] stock[k])
    &&& forall|k: int| 0 <= k < stock.len() ==> sheet_in_range(#[trigger] stock[k])
    &&& 0 <= config.kerf <= NEST_LIMIT
    &&& 0 <= config.trim <= NEST_LIMIT
}

/// Inputs without fault are parts and sheets that can be worked with.
pub proof fn lemma_no_fault(
    parts: Seq<RectPartView>,
    stock: Seq<SheetStockView>,
    config: PlanarNestConfig,
)
    requires
        planar_fault(parts, stock, config) is None,
    ensures
        parts_ok(parts),
        sheets_ok(stock, config),
{
}

/// The position of the first kind of sheet from `from` on of which one is
/// left, or the number of kinds if there is none.
pub open spec fn first_unused(used: Seq<usize>, stock: Seq<SheetStockView>, from: int) -> int
    decreases stock.len() - from,
{
    if from < 0 || from >= stock.len() {
        stock.len() as int
    } else if used[from] < stock[from].quantity {
        from
    } else {
        first_unused(used, stock, from + 1)
    }
}

/// Finds the first kind of sheet of which one is left.
pub fn find_unused(used: &Vec<usize>, stock: &[SheetStock]) -> (s: usize)
    requires
        used.len() == stock.len(),
    ensures
        s == first_unused(used@, sheets_view(stock@), 0),
        s <= stock.len(),
        s < stock.len() ==> used@[s as int] < stock@[s as int].quantity,
{
    let ghost sv = sheets_view(stock@);
    let mut s: usize = 0;
    while s < stock.len() && used[s] >= stock[s].quantity
        invariant
            s <= stock.len(),
            used.len() == stock.len(),
            sv == sheets_view(stock@),
            first_unused(used@, sv, 0) == first_unused(used@, sv, s as int),
        decreases stock.len() - s,
    {
        assert(sv[s as int].quantity == stock@[s as int].quantity);
        s = s + 1;
    }
    if s < stock.len() {
        assert(sv[s as int].quantity == stock@[s as int].quantity);
    }
    s
}

/// The area that the trims take off a sheet.
pub open spec fn trim_area(width: int, height: int, trim: int) -> int {
    2 * (width * trim) + 2 * (height * trim) - 4 * (trim * trim)
}

/// The summed area of the first `k` placed pieces.
pub open spec fn placed_area(placed: Seq<Placed>, k: int) -> int
    decreases k,
{
    if k <= 0 {
        0
    } else {
        placed_area(placed, k - 1) + placed[k - 1].width * placed[k - 1].height
    }
}

/// Whether a placed piece has dimensions inside the supported range and
/// belongs to one of `n` parts.
pub open spec fn placed_ok(p: Placed, n: int) -> bool {
    &&& p.part < n
    &&& 0 < p.width <= NEST_LIMIT
    &&& 0 < p.height <= NEST_LIMIT
}

/// Whether all placed pieces are sound and not more than [`MAX_PIECES`].
pub open spec fn all_placed_ok(placed: Seq<Placed>, n: int) -> bool {
    &&& placed.len() <= MAX_PIECES
    &&& forall|k: int| 0 <= k < placed.len() ==> placed_ok(#[trigger] placed[k], n)
}

/// Adds up the areas of the placed pieces.
pub(crate) fn sum_area(placed: &Vec<Placed>, parts: Ghost<int>) -> (a: i128)
    requires
        all_placed_ok(placed@, parts@),
    ensures
        a == placed_area(placed@, placed.len() as int),
        0 <= a <= placed.len() * 0x1_0000_0000_0000_0000_0000,
{
    let mut sum: i128 = 0;
    let mut i: usize = 0;
    while i < placed.len()
        invariant
            i <= placed.len(),
            all_placed_ok(placed@, parts@),
            sum == placed_area(placed@, i as int),
            0 <= sum <= i * 0x1_0000_0000_0000_0000_0000,
        decreases placed.len() - i,
    {
        let p = placed[i];
        assert(placed_ok(placed@[i as int], parts@));
        proof {
            lemma_product_bound(p.width as int, p.height as int, NEST_LIMIT as int, NEST_LIMIT as int);
            assert(NEST_LIMIT * NEST_LIMIT == AREA_MAX) by (nonlinear_arith);
            assert(p.width * p.height >= 0) by (nonlinear_arith)
                requires
                    p.width > 0,
                    p.height > 0,
            ;
        }
        sum = sum + (p.width as i128) * (p.height as i128);
        i = i + 1;
    }
    sum
}

/// The placements of a sheet, with the names of the parts.
pub open spec fn named(placed: Seq<Placed>, parts: Seq<RectPartView>) -> Seq<PlacementView> {
    placed.map_values(
        |p: Placed|
            PlacementView {
                part_id: parts[p.part as int].id,
                x: p.x,
                y: p.y,
                width: p.width,
                height: p.height,
                rotated: p.rotated,
            },
    )
}

/// Names the placed pieces.
pub fn name_placements(placed: &Vec<Placed>, parts: &[RectPart]) -> (r: Vec<RectPlacement>)
    requires
        all_placed_ok(placed@, parts.len() as int),
    ensures
        placements_view(r@) == named(placed@, rect_parts_view(parts@)),
{
    let ghost pv = rect_parts_view(parts@);
    let ghost wanted = named(placed@, pv);
    let mut out: Vec<RectPlacement> = Vec::new();
    let mut i: usize = 0;
    while i < placed.len()
        invariant
            i <= placed.len(),
            out.len() == i,
            pv == rect_parts_view(parts@),
            wanted == named(placed@, pv),
            all_placed_ok(placed@, parts.len() as int),
            forall|k: int| 0 <= k < i ==> (#[trigger] out@[k])@ == wanted[k],
        decreases placed.len() - i,
    {
        let p = placed[i];
        assert(placed_ok(placed@[i as int], parts.len() as int));
        assert(pv[p.part as int].id == parts@[p.part as int].id@);
        out.push(
            RectPlacement {
                part_id: parts[p.part].id.clone(),
                x: p.x,
                y: p.y,
                width: p.width,
                height: p.height,
                rotated: p.rotated,
            },
        );
        i = i + 1;
    }
    assert(placements_view(out@) =~= wanted);
    out
}

/// The ranks of the names of the sheets.
pub fn sheet_ranks(stock: &[SheetStock]) -> (ranks: Vec<i128>)
    ensures
        ranks.len() == stock.len(),
        forall|s: int|
            0 <= s < stock.len() ==> #[trigger] ranks@[s] == rank_among(
                sheet_names(sheets_view(stock@)),
                sheets_view(stock@)[s].id,
                stock.len() as int,
            ),
{
    let ghost sv = sheets_view(stock@);
    let ghost all = sheet_names(sv);
    let mut names: Vec<Vec<char>> = Vec::new();
    let mut i: usize = 0;
    while i < stock.len()
        invariant
            i <= stock.len(),
            names.len() == i,
            sv == sheets_view(stock@),
            all == sheet_names(sv),
            forall|k: int| 0 <= k < i ==> (#[trigger] names@[k])@ == all[k],
        decreases stock.len() - i,
    {
        let name = chars_of(stock[i].id.as_str());
        assert(name@ == all[i as int]);
        names.push(name);
        i = i + 1;
    }
    assert(names_view(names@) =~= all);
    name_ranks(&names)
}

/// The names of the sheets.
pub open spec fn sheet_names(stock: Seq<SheetStockView>) -> Seq<Seq<char>> {
    Seq::new(stock.len(), |i: int| stock[i].id)
}

/// What a sheet is sorted by: the name of its stock, then its number, then
/// the order in which the sheets were begun.
pub open spec fn sheet_key(stock_position: int, index: usize, stock: Seq<SheetStockView>, position: int) -> SortKey {
    SortKey {
        major: rank_among(sheet_names(stock), stock[stock_position].id, stock.len() as int) as i128,
        minor: index as u64,
        index: position as usize,
    }
}

/// The sum of two breakdowns.
pub open spec fn area_sum(a: UtilizationBreakdown, b: UtilizationBreakdown) -> UtilizationBreakdown {
    UtilizationBreakdown {
        kind: a.kind,
        utilized: (a.utilized + b.utilized) as i128,
        kerf_loss: (a.kerf_loss + b.kerf_loss) as i128,
        trim_loss: (a.trim_loss + b.trim_loss) as i128,
        offcut_loss: (a.offcut_loss + b.offcut_loss) as i128,
        stock_total: (a.stock_total + b.stock_total) as i128,
    }
}

/// The summed breakdown of the first `k` layouts.
pub open spec fn area_total(layouts: Seq<SheetLayoutView>, k: int) -> UtilizationBreakdown
    decreases k,
{
    if k <= 0 {
        no_metrics(MetricKind::Area)
    } else {
        area_sum(area_total(layouts, k - 1), layouts[k - 1].metrics)
    }
}

/// The largest magnitude of a figure of a breakdown that can be summed up.
pub const FIGURE_LIMIT: i128 = 0x40_0000_0000_0000_0000_0000_0000;

/// The most layouts that can be summed up.
pub const MAX_LAYOUTS: usize = 1_000_000;

/// Whether the figures of a breakdown can be summed up.
pub open spec fn figures_ok(m: UtilizationBreakdown) -> bool {
    &&& -FIGURE_LIMIT <= m.utilized <= FIGURE_LIMIT
    &&& -FIGURE_LIMIT <= m.kerf_loss <= FIGURE_LIMIT
    &&& -FIGURE_LIMIT <= m.trim_loss <= FIGURE_LIMIT
    &&& -FIGURE_LIMIT <= m.offcut_loss <= FIGURE_LIMIT
    &&& -FIGURE_LIMIT <= m.stock_total <= FIGURE_LIMIT
}

/// Adds up the breakdowns of sheet layouts.
pub fn summarize_sheet_layouts(layouts: &[SheetLayout]) -> (m: UtilizationBreakdown)
    requires
        layouts.len() <= MAX_LAYOUTS,
        forall|k: int| 0 <= k < layouts.len() ==> figures_ok((#[trigger] layouts@[k]).metrics),
    ensures
        m == area_total(layouts_view(layouts@), layouts.len() as int),
{
    let ghost views = layouts_view(layouts@);
    let mut agg = UtilizationBreakdown::new(MetricKind::Area);
    let mut i: usize = 0;
    while i < layouts.len()
        invariant
            i <= layouts.len(),
            layouts.len() <= MAX_LAYOUTS,
            views == layouts_view(layouts@),
            forall|k: int| 0 <= k < layouts.len() ==> figures_ok((#[trigger] layouts@[k]).metrics),
            agg == area_total(views, i as int),
            -(i * 0x40_0000_0000_0000_0000_0000_0000) <= agg.utilized <= i
                * 0x40_0000_0000_0000_0000_0000_0000,
            -(i * 0x40_0000_0000_0000_0000_0000_0000) <= agg.kerf_loss <= i
                * 0x40_0000_0000_0000_0000_0000_0000,
            -(i * 0x40_0000_0000_0000_0000_0000_0000) <= agg.trim_loss <= i
                * 0x40_0000_0000_0000_0000_0000_0000,
            -(i * 0x40_0000_0000_0000_0000_0000_0000) <= agg.offcut_loss <= i
                * 0x40_0000_0000_0000_0000_0000_0000,
            -(i * 0x40_0000_0000_0000_0000_0000_0000) <= agg.stock_total <= i
                * 0x40_0000_0000_0000_0000_0000_0000,
        decreases layouts.len() - i,
    {
        let m = layouts[i].metrics;
        assert(figures_ok(layouts@[i as int].metrics));
        assert(views[i as int].metrics == m);
        agg = UtilizationBreakdown {
            kind: agg.kind,
            utilized: agg.utilized + m.utilized,
            kerf_loss: agg.kerf_loss + m.kerf_loss,
            trim_loss: agg.trim_loss + m.trim_loss,
            offcut_loss: agg.offcut_loss + m.offcut_loss,
            stock_total: agg.stock_total + m.stock_total,
        };
        i = i + 1;
    }
    agg
}

/// The seed decides only among pieces of equal size: under any two seeds
/// the pieces are placed in the same order of sizes, the largest first.
pub proof fn lemma_seed_breaks_ties_only(
    insts: Seq<Inst>,
    parts: Seq<RectPartView>,
    a: u64,
    b: u64,
    by: SortBy,
)
    requires
        insts.len() <= usize::MAX,
        forall|k: int|
            0 <= k < insts.len() ==> 0 < (#[trigger] insts[k]).width <= NEST_LIMIT && 0
                < insts[k].height <= NEST_LIMIT,
    ensures
        insts_in_order(insts, parts, a, by).len() == insts.len(),
        insts_in_order(insts, parts, b, by).len() == insts.len(),
        forall|i: int|
            0 <= i < insts.len() ==> sort_size(#[trigger] insts_in_order(insts, parts, a, by)[i], by)
                == sort_size(insts_in_order(insts, parts, b, by)[i], by),
        forall|i: int, j: int|
            0 <= i < j < insts.len() ==> sort_size(
                #[trigger] insts_in_order(insts, parts, a, by)[i],
                by,
            ) >= sort_size(#[trigger] insts_in_order(insts, parts, a, by)[j], by),
{
    let ka = inst_keys(insts, parts, a, by);
    let kb = inst_keys(insts, parts, b, by);
    lemma_sorted_keys(ka);
    lemma_sorted_keys(kb);
    lemma_majors_fixed(ka, kb);
    let sa = sorted_keys(ka);
    let sb = sorted_keys(kb);
    assert forall|i: int| 0 <= i < insts.len() implies (#[trigger] sa[i]).major == -sort_size(
        insts[sa[i].index as int],
        by,
    ) && (#[trigger] sb[i]).major == -sort_size(insts[sb[i].index as int], by) by {
        assert(ka.contains(sa[i]));
        let w = choose|w: int| 0 <= w < ka.len() && ka[w] == sa[i];
        assert(ka[w] == inst_key(insts[w], parts, a, w, by));
        assert(sa[i].index == w);
        lemma_size_fits(insts[w], by);
        assert(kb.contains(sb[i]));
        let v = choose|v: int| 0 <= v < kb.len() && kb[v] == sb[i];
        assert(kb[v] == inst_key(insts[v], parts, b, v, by));
        assert(sb[i].index == v);
        lemma_size_fits(insts[v], by);
    }
    assert forall|i: int| 0 <= i < insts.len() implies sort_size(
        #[trigger] insts_in_order(insts, parts, a, by)[i],
        by,
    ) == sort_size(insts_in_order(insts, parts, b, by)[i], by) by {
        assert(sa[i].major == sb[i].major);
    }
    assert forall|i: int, j: int| 0 <= i < j < insts.len() implies sort_size(
        #[trigger] insts_in_order(insts, parts, a, by)[i],
        by,
    ) >= sort_size(#[trigger] insts_in_order(insts, parts, a, by)[j], by) by {
        assert(key_order()(sa[i], sa[j]));
        assert(sa[i].major == -sort_size(insts[sa[i].index as int], by));
        assert(sa[j].major == -sort_size(insts[sa[j].index as int], by));
    }
}

/// The size of a piece inside the supported range fits the key.
proof fn lemma_size_fits(inst: Inst, by: SortBy)
    requires
        0 < inst.width <= NEST_LIMIT,
        0 < inst.height <= NEST_LIMIT,
    ensures
        0 <= sort_size(inst, by) <= AREA_MAX,
{
    lemma_product_bound(inst.width as int, inst.height as int, NEST_LIMIT as int, NEST_LIMIT as int);
    assert(NEST_LIMIT * NEST_LIMIT == AREA_MAX) by (nonlinear_arith);
    assert(inst.width * inst.height >= 0) by (nonlinear_arith)
        requires
            inst.width > 0,
            inst.height > 0,
    ;
}

} // verus!
