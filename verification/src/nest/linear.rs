//! Linear nesting: parts of given lengths cut from boards, first fit
//! decreasing.
use vstd::prelude::*;
use crate::nest::error::{NestError, NestErrorView, NestResult};
use crate::nest::metrics::{MetricKind, UtilizationBreakdown};
use crate::nest::order::{
    lemma_majors_fixed, lemma_sorted_keys, name_ranks, names_view, rank_among, sort_keys,
    sorted_keys, SortKey,
};
use crate::nest::util::{hash_with_seed, seeded_hash};
use crate::text::chars_of;

verus! {

/// Largest length, kerf and trim that nesting accepts.
pub const NEST_LIMIT: i64 = 1_099_511_627_776;

#[derive(Debug, Clone, PartialEq, Eq)]
pub struct LinearPart {
    pub id: String,
    pub length: i64,
    pub quantity: usize,
}

#[derive(Debug, Clone, PartialEq, Eq)]
pub struct LinearStock {
    pub id: String,
    pub length: i64,
    pub quantity: usize,
}

#[derive(Debug, Clone, Copy, PartialEq, Eq, Structural)]
pub struct LinearNestConfig {
    /// The width of a cut.
    pub kerf: i64,
    /// What is trimmed off the front of each board.
    pub trim_leading: i64,
    /// What is trimmed off the end of each board.
    pub trim_trailing: i64,
    /// Decides the order of parts of equal length.
    pub seed: u64,
}

impl Default for LinearNestConfig {
    fn default() -> (c: Self)
        ensures
            c == (LinearNestConfig { kerf: 0, trim_leading: 0, trim_trailing: 0, seed: 0 }),
    {
        LinearNestConfig { kerf: 0, trim_leading: 0, trim_trailing: 0, seed: 0 }
    }
}

#[derive(Debug, Clone, PartialEq, Eq)]
pub struct LinearCut {
    pub part_id: String,
    pub start: i64,
    pub length: i64,
}

#[derive(Debug, Clone, Copy, PartialEq, Eq, Structural)]
pub struct LinearOffcut {
    pub start: i64,
    pub length: i64,
}

#[derive(Debug, Clone, PartialEq, Eq)]
pub struct LinearBoard {
    pub stock_id: String,
    pub index: usize,
    pub cuts: Vec<LinearCut>,
    pub offcuts: Vec<LinearOffcut>,
    pub metrics: UtilizationBreakdown,
}

#[derive(Debug, Clone)]
pub struct LinearNestResult {
    pub boards: Vec<LinearBoard>,
    pub metrics: UtilizationBreakdown,
}

/// A part with its name as a sequence of characters.
pub struct PartView {
    pub id: Seq<char>,
    pub length: i64,
    pub quantity: usize,
}

/// A kind of stock with its name as a sequence of characters.
pub struct StockView {
    pub id: Seq<char>,
    pub length: i64,
    pub quantity: usize,
}

/// A cut with the name of its part as a sequence of characters.
pub struct CutView {
    pub part_id: Seq<char>,
    pub start: i64,
    pub length: i64,
}

/// A board as sequences.
pub struct BoardView {
    pub stock_id: Seq<char>,
    pub index: usize,
    pub cuts: Seq<CutView>,
    pub offcuts: Seq<LinearOffcut>,
    pub metrics: UtilizationBreakdown,
}

/// A layout as sequences.
pub struct LayoutView {
    pub boards: Seq<BoardView>,
    pub metrics: UtilizationBreakdown,
}

impl View for LinearPart {
    type V = PartView;

    open spec fn view(&self) -> PartView {
        PartView { id: self.id@, length: self.length, quantity: self.quantity }
    }
}

impl View for LinearStock {
    type V = StockView;

    open spec fn view(&self) -> StockView {
        StockView { id: self.id@, length: self.length, quantity: self.quantity }
    }
}

impl View for LinearCut {
    type V = CutView;

    open spec fn view(&self) -> CutView {
        CutView { part_id: self.part_id@, start: self.start, length: self.length }
    }
}

/// The views of a sequence of cuts.
pub open spec fn cuts_view(cuts: Seq<LinearCut>) -> Seq<CutView> {
    cuts.map_values(|c: LinearCut| c@)
}

impl View for LinearBoard {
    type V = BoardView;

    open spec fn view(&self) -> BoardView {
        BoardView {
            stock_id: self.stock_id@,
            index: self.index,
            cuts: cuts_view(self.cuts@),
            offcuts: self.offcuts@,
            metrics: self.metrics,
        }
    }
}

impl View for LinearNestResult {
    type V = LayoutView;

    open spec fn view(&self) -> LayoutView {
        LayoutView { boards: self.boards@.map_values(|b: LinearBoard| b@), metrics: self.metrics }
    }
}

/// The views of a sequence of parts.
pub open spec fn parts_view(parts: Seq<LinearPart>) -> Seq<PartView> {
    parts.map_values(|p: LinearPart| p@)
}

/// The views of a sequence of stock.
pub open spec fn stock_view(stock: Seq<LinearStock>) -> Seq<StockView> {
    stock.map_values(|s: LinearStock| s@)
}

/// Whether `v` is a kerf or a trim that nesting accepts.
pub open spec fn allowance_ok(v: i64) -> bool {
    0 <= v <= NEST_LIMIT
}

/// Why the input cannot be nested, if it cannot: a part or a kind of stock
/// without a positive length, or a dimension outside the supported range.
pub open spec fn input_fault(
    parts: Seq<PartView>,
    stock: Seq<StockView>,
    config: LinearNestConfig,
) -> Option<NestErrorView> {
    if exists|i: int| 0 <= i < parts.len() && (#[trigger] parts[i]).length <= 0 {
        Some(NestErrorView::InvalidDimension("part length must be positive"@))
    } else if exists|i: int| 0 <= i < stock.len() && (#[trigger] stock[i]).length <= 0 {
        Some(NestErrorView::InvalidDimension("stock length must be positive"@))
    } else if (exists|i: int| 0 <= i < parts.len() && (#[trigger] parts[i]).length > NEST_LIMIT)
        || (exists|i: int| 0 <= i < stock.len() && (#[trigger] stock[i]).length > NEST_LIMIT)
        || !allowance_ok(config.kerf) || !allowance_ok(config.trim_leading) || !allowance_ok(
        config.trim_trailing,
    ) {
        Some(NestErrorView::InvalidDimension("dimension out of range"@))
    } else {
        None
    }
}

/// One piece to cut: copy `seq` of a part.
pub struct Piece {
    pub id: Seq<char>,
    pub length: i64,
    pub seq: usize,
}

/// The first `k` copies of a part.
pub open spec fn copies(part: PartView, k: int) -> Seq<Piece>
    decreases k,
{
    if k <= 0 {
        Seq::empty()
    } else {
        copies(part, k - 1).push(Piece { id: part.id, length: part.length, seq: (k - 1) as usize })
    }
}

/// The pieces of the first `n` parts: each part as often as its quantity
/// says.
pub open spec fn pieces_of(parts: Seq<PartView>, n: int) -> Seq<Piece>
    decreases n,
{
    if n <= 0 {
        Seq::empty()
    } else {
        pieces_of(parts, n - 1) + copies(parts[n - 1], parts[n - 1].quantity as int)
    }
}

/// What a piece is sorted by: the longer comes first; among pieces of equal
/// length the hash of name and copy under the seed decides, and then the
/// position.
pub open spec fn piece_key(piece: Piece, seed: u64, index: int) -> SortKey {
    SortKey {
        major: (-(piece.length as int)) as i128,
        minor: seeded_hash(piece.id, seed ^ (piece.seq as u64)),
        index: index as usize,
    }
}

/// The keys of the pieces.
pub open spec fn piece_keys(pieces: Seq<Piece>, seed: u64) -> Seq<SortKey> {
    Seq::new(pieces.len(), |i: int| piece_key(pieces[i], seed, i))
}

/// The pieces in the order in which they are placed.
pub open spec fn in_order(pieces: Seq<Piece>, seed: u64) -> Seq<Piece> {
    sorted_keys(piece_keys(pieces, seed)).map_values(|k: SortKey| pieces[k.index as int])
}

/// A board while it is filled.
pub struct BoardModel {
    /// The position of the board's kind of stock in the list of stock.
    pub stock: int,
    /// The number of the board among those of its kind.
    pub index: usize,
    /// Where the next cut begins, but for the kerf.
    pub cursor: int,
    pub cuts: Seq<CutView>,
}

/// What is left of a board for further cuts.
pub open spec fn available(b: BoardModel, stock: Seq<StockView>, config: LinearNestConfig) -> int {
    stock[b.stock].length - b.cursor - config.trim_trailing
}

/// Whether a piece of length `len` fits on the board: behind the kerf if
/// the board holds a cut already.
pub open spec fn fits(b: BoardModel, len: int, stock: Seq<StockView>, config: LinearNestConfig) -> bool {
    len > 0 && (if b.cuts.len() == 0 {
        len <= available(b, stock, config)
    } else {
        len + config.kerf <= available(b, stock, config)
    })
}

/// Where the next cut on the board begins.
pub open spec fn next_start(b: BoardModel, config: LinearNestConfig) -> int {
    if b.cuts.len() > 0 {
        b.cursor + config.kerf
    } else {
        b.cursor
    }
}

/// The board with one more cut.
pub open spec fn with_cut(b: BoardModel, piece: Piece, config: LinearNestConfig) -> BoardModel {
    BoardModel {
        stock: b.stock,
        index: b.index,
        cursor: next_start(b, config) + piece.length,
        cuts: b.cuts.push(
            CutView {
                part_id: piece.id,
                start: next_start(b, config) as i64,
                length: piece.length,
            },
        ),
    }
}

/// The position of the first board from `from` on that the piece fits on,
/// or the number of boards if there is none.
pub open spec fn first_fitting(
    boards: Seq<BoardModel>,
    len: int,
    stock: Seq<StockView>,
    config: LinearNestConfig,
    from: int,
) -> int
    decreases boards.len() - from,
{
    if from < 0 || from >= boards.len() {
        boards.len() as int
    } else if fits(boards[from], len, stock, config) {
        from
    } else {
        first_fitting(boards, len, stock, config, from + 1)
    }
}

/// The position of the first kind of stock from `from` on of which a board
/// is left, or the number of kinds if there is none.
pub open spec fn first_supply(used: Seq<usize>, stock: Seq<StockView>, from: int) -> int
    decreases stock.len() - from,
{
    if from < 0 || from >= stock.len() {
        stock.len() as int
    } else if used[from] < stock[from].quantity {
        from
    } else {
        first_supply(used, stock, from + 1)
    }
}

/// The boards in use and the number of boards taken of each kind of stock.
pub struct Packing {
    pub boards: Seq<BoardModel>,
    pub used: Seq<usize>,
}

/// A fresh board of kind `s`.
pub open spec fn fresh_board(s: int, index: usize, config: LinearNestConfig) -> BoardModel {
    BoardModel { stock: s, index, cursor: config.trim_leading as int, cuts: Seq::empty() }
}

/// The packing with one more piece: on the first board that it fits on, or
/// else on a fresh board of the first kind of stock that is left. It is an
/// error if no stock is left, if the stock is no longer than its trims, or
/// if the piece does not fit on the fresh board.
pub open spec fn place(
    p: Packing,
    piece: Piece,
    stock: Seq<StockView>,
    config: LinearNestConfig,
) -> Result<Packing, NestErrorView> {
    let j = first_fitting(p.boards, piece.length as int, stock, config, 0);
    if j < p.boards.len() {
        Ok(Packing { boards: p.boards.update(j, with_cut(p.boards[j], piece, config)), used: p.used })
    } else {
        let s = first_supply(p.used, stock, 0);
        if s >= stock.len() {
            Err(NestErrorView::InsufficientStock)
        } else if stock[s].length <= config.trim_leading + config.trim_trailing {
            Err(NestErrorView::InvalidDimension("stock length smaller than trim allowance"@))
        } else if !fits(fresh_board(s, p.used[s], config), piece.length as int, stock, config) {
            Err(NestErrorView::InsufficientStock)
        } else {
            Ok(
                Packing {
                    boards: p.boards.push(
                        with_cut(fresh_board(s, p.used[s], config), piece, config),
                    ),
                    used: p.used.update(s, (p.used[s] + 1) as usize),
                },
            )
        }
    }
}

/// The packing of the first `k` pieces.
pub open spec fn pack(pieces: Seq<Piece>, k: int, stock: Seq<StockView>, config: LinearNestConfig) -> Result<
    Packing,
    NestErrorView,
>
    decreases k,
{
    if k <= 0 {
        Ok(Packing { boards: Seq::empty(), used: Seq::new(stock.len(), |i: int| 0usize) })
    } else {
        match pack(pieces, k - 1, stock, config) {
            Err(e) => Err(e),
            Ok(p) => place(p, pieces[k - 1], stock, config),
        }
    }
}

/// The summed length of the cuts.
pub open spec fn cut_total(cuts: Seq<CutView>) -> int
    decreases cuts.len(),
{
    if cuts.len() == 0 {
        0
    } else {
        cut_total(cuts.drop_last()) + cuts.last().length
    }
}

/// What the kerfs between `n` cuts take.
pub open spec fn kerf_between(n: int, kerf: int) -> int {
    if n > 0 {
        (n - 1) * kerf
    } else {
        0
    }
}

/// What is left of the stock, or nothing if more than the stock is taken.
pub open spec fn remainder(total: int, taken: int) -> int {
    if total - taken > 0 {
        total - taken
    } else {
        0
    }
}

/// How a board is used.
pub open spec fn board_metrics(b: BoardModel, stock: Seq<StockView>, config: LinearNestConfig) -> UtilizationBreakdown {
    let total = stock[b.stock].length as int;
    let trim = config.trim_leading + config.trim_trailing;
    let kerf = kerf_between(b.cuts.len() as int, config.kerf as int);
    let used = cut_total(b.cuts);
    UtilizationBreakdown {
        kind: MetricKind::Linear,
        utilized: used as i128,
        kerf_loss: kerf as i128,
        trim_loss: trim as i128,
        offcut_loss: remainder(total, used + kerf + trim) as i128,
        stock_total: total as i128,
    }
}

/// The offcuts of a board: the leading trim, if there is one, and what is
/// left behind the last cut, or, on a board without cuts, all between the
/// trims.
pub open spec fn board_offcuts(b: BoardModel, stock: Seq<StockView>, config: LinearNestConfig) -> Seq<
    LinearOffcut,
> {
    let head = if config.trim_leading > 0 {
        seq![LinearOffcut { start: 0, length: config.trim_leading }]
    } else {
        Seq::empty()
    };
    let left = board_metrics(b, stock, config).offcut_loss;
    let usable = stock[b.stock].length - (config.trim_leading + config.trim_trailing);
    let tail = if b.cuts.len() > 0 {
        if left > 0 {
            seq![
                LinearOffcut {
                    start: (b.cuts.last().start + b.cuts.last().length) as i64,
                    length: left as i64,
                },
            ]
        } else {
            Seq::empty()
        }
    } else if usable > 0 {
        seq![LinearOffcut { start: config.trim_leading, length: usable as i64 }]
    } else {
        Seq::empty()
    };
    head + tail
}

/// The board as it is handed out.
pub open spec fn finished(b: BoardModel, stock: Seq<StockView>, config: LinearNestConfig) -> BoardView {
    BoardView {
        stock_id: stock[b.stock].id,
        index: b.index,
        cuts: b.cuts,
        offcuts: board_offcuts(b, stock, config),
        metrics: board_metrics(b, stock, config),
    }
}

/// The names of the stock.
pub open spec fn stock_names(stock: Seq<StockView>) -> Seq<Seq<char>> {
    Seq::new(stock.len(), |i: int| stock[i].id)
}

/// What a board is sorted by: the name of its stock, then its number, then
/// the order in which the boards were begun.
pub open spec fn board_key(b: BoardModel, stock: Seq<StockView>, position: int) -> SortKey {
    SortKey {
        major: rank_among(stock_names(stock), stock[b.stock].id, stock.len() as int) as i128,
        minor: b.index as u64,
        index: position as usize,
    }
}

/// The keys of the boards.
pub open spec fn board_keys(boards: Seq<BoardModel>, stock: Seq<StockView>) -> Seq<SortKey> {
    Seq::new(boards.len(), |i: int| board_key(boards[i], stock, i))
}

/// The boards as they are handed out, in their order.
pub open spec fn boards_out(boards: Seq<BoardModel>, stock: Seq<StockView>, config: LinearNestConfig) -> Seq<
    BoardView,
> {
    sorted_keys(board_keys(boards, stock)).map_values(
        |k: SortKey| finished(boards[k.index as int], stock, config),
    )
}

/// The sum of two breakdowns.
pub open spec fn metrics_sum(a: UtilizationBreakdown, b: UtilizationBreakdown) -> UtilizationBreakdown {
    UtilizationBreakdown {
        kind: a.kind,
        utilized: (a.utilized + b.utilized) as i128,
        kerf_loss: (a.kerf_loss + b.kerf_loss) as i128,
        trim_loss: (a.trim_loss + b.trim_loss) as i128,
        offcut_loss: (a.offcut_loss + b.offcut_loss) as i128,
        stock_total: (a.stock_total + b.stock_total) as i128,
    }
}

/// A breakdown of nothing.
pub open spec fn no_metrics(kind: MetricKind) -> UtilizationBreakdown {
    UtilizationBreakdown {
        kind,
        utilized: 0,
        kerf_loss: 0,
        trim_loss: 0,
        offcut_loss: 0,
        stock_total: 0,
    }
}

/// The summed breakdown of the first `k` boards.
pub open spec fn total_metrics(boards: Seq<BoardView>, k: int) -> UtilizationBreakdown
    decreases k,
{
    if k <= 0 {
        no_metrics(MetricKind::Linear)
    } else {
        metrics_sum(total_metrics(boards, k - 1), boards[k - 1].metrics)
    }
}

/// The layout of the parts on the stock, or the reason why there is none.
pub open spec fn linear_layout(
    parts: Seq<PartView>,
    stock: Seq<StockView>,
    config: LinearNestConfig,
) -> Result<LayoutView, NestErrorView> {
    match input_fault(parts, stock, config) {
        Some(e) => Err(e),
        None => {
            let pieces = in_order(pieces_of(parts, parts.len() as int), config.seed);
            match pack(pieces, pieces.len() as int, stock, config) {
                Err(e) => Err(e),
                Ok(p) => {
                    let boards = boards_out(p.boards, stock, config);
                    Ok(LayoutView { boards, metrics: total_metrics(boards, boards.len() as int) })
                },
            }
        },
    }
}

/// Whether a breakdown accounts for all of the stock.
pub open spec fn balanced(m: UtilizationBreakdown) -> bool {
    m.utilized + m.kerf_loss + m.trim_loss + m.offcut_loss == m.stock_total
}

/// Whether the inputs can be nested.
fn check_inputs(parts: &[LinearPart], stock: &[LinearStock], config: &LinearNestConfig) -> (r:
    Result<(), NestError>)
    ensures
        match r {
            Ok(_) => input_fault(parts_view(parts@), stock_view(stock@), *config) is None,
            Err(e) => input_fault(parts_view(parts@), stock_view(stock@), *config) == Some(e@),
        },
{
    let ghost pv = parts_view(parts@);
    let ghost sv = stock_view(stock@);
    let mut i: usize = 0;
    while i < parts.len()
        invariant
            i <= parts.len(),
            pv == parts_view(parts@),
            forall|k: int| 0 <= k < i ==> (#[trigger] pv[k]).length > 0,
        decreases parts.len() - i,
    {
        if parts[i].length <= 0 {
            assert(pv[i as int].length <= 0);
            return Err(NestError::InvalidDimension("part length must be positive"));
        }
        i = i + 1;
    }
    let mut i: usize = 0;
    while i < stock.len()
        invariant
            i <= stock.len(),
            pv == parts_view(parts@),
            sv == stock_view(stock@),
            forall|k: int| 0 <= k < parts.len() ==> (#[trigger] pv[k]).length > 0,
            forall|k: int| 0 <= k < i ==> (#[trigger] sv[k]).length > 0,
        decreases stock.len() - i,
    {
        if stock[i].length <= 0 {
            assert(sv[i as int].length <= 0);
            return Err(NestError::InvalidDimension("stock length must be positive"));
        }
        i = i + 1;
    }
    let mut i: usize = 0;
    while i < parts.len()
        invariant
            i <= parts.len(),
            pv == parts_view(parts@),
            sv == stock_view(stock@),
            forall|k: int| 0 <= k < parts.len() ==> (#[trigger] pv[k]).length > 0,
            forall|k: int| 0 <= k < stock.len() ==> (#[trigger] sv[k]).length > 0,
            forall|k: int| 0 <= k < i ==> (#[trigger] pv[k]).length <= NEST_LIMIT,
        decreases parts.len() - i,
    {
        if parts[i].length > NEST_LIMIT {
            assert(pv[i as int].length > NEST_LIMIT);
            return Err(NestError::InvalidDimension("dimension out of range"));
        }
        i = i + 1;
    }
    let mut i: usize = 0;
    while i < stock.len()
        invariant
            i <= stock.len(),
            pv == parts_view(parts@),
            sv == stock_view(stock@),
            forall|k: int| 0 <= k < parts.len() ==> (#[trigger] pv[k]).length > 0,
            forall|k: int| 0 <= k < stock.len() ==> (#[trigger] sv[k]).length > 0,
            forall|k: int| 0 <= k < parts.len() ==> (#[trigger] pv[k]).length <= NEST_LIMIT,
            forall|k: int| 0 <= k < i ==> (#[trigger] sv[k]).length <= NEST_LIMIT,
        decreases stock.len() - i,
    {
        if stock[i].length > NEST_LIMIT {
            assert(sv[i as int].length > NEST_LIMIT);
            return Err(NestError::InvalidDimension("dimension out of range"));
        }
        i = i + 1;
    }
    if config.kerf < 0 || config.kerf > NEST_LIMIT || config.trim_leading < 0 || config.trim_leading
        > NEST_LIMIT || config.trim_trailing < 0 || config.trim_trailing > NEST_LIMIT {
        return Err(NestError::InvalidDimension("dimension out of range"));
    }
    Ok(())
}

/// One piece to cut, by the position of its part.
#[derive(Clone, Copy)]
struct PieceRef {
    part: usize,
    seq: usize,
    length: i64,
}

/// The piece that a reference stands for.
spec fn piece_of(r: PieceRef, parts: Seq<PartView>) -> Piece {
    Piece { id: parts[r.part as int].id, length: r.length, seq: r.seq }
}

/// The pieces that references stand for.
spec fn pieces_view(refs: Seq<PieceRef>, parts: Seq<PartView>) -> Seq<Piece> {
    refs.map_values(|r: PieceRef| piece_of(r, parts))
}

/// Lists the pieces of all parts with their keys.
fn expand(parts: &[LinearPart], seed: u64) -> (r: (Vec<PieceRef>, Vec<SortKey>))
    requires
        forall|k: int| 0 <= k < parts.len() ==> 0 < (#[trigger] parts@[k]).length <= NEST_LIMIT,
    ensures
        pieces_view(r.0@, parts_view(parts@)) == pieces_of(
            parts_view(parts@),
            parts.len() as int,
        ),
        r.1@ == piece_keys(pieces_of(parts_view(parts@), parts.len() as int), seed),
        forall|k: int| 0 <= k < r.0.len() ==> (#[trigger] r.0@[k]).part < parts.len(),
        forall|k: int| 0 <= k < r.0.len() ==> 0 < (#[trigger] r.0@[k]).length <= NEST_LIMIT,
{
    let ghost pv = parts_view(parts@);
    let mut pieces: Vec<PieceRef> = Vec::new();
    let mut keys: Vec<SortKey> = Vec::new();
    let mut i: usize = 0;
    assert(pieces_view(pieces@, pv) =~= pieces_of(pv, 0));
    assert(keys@ =~= piece_keys(pieces_of(pv, 0), seed));
    while i < parts.len()
        invariant
            i <= parts.len(),
            pv == parts_view(parts@),
            forall|k: int| 0 <= k < parts.len() ==> 0 < (#[trigger] parts@[k]).length <= NEST_LIMIT,
            pieces_view(pieces@, pv) == pieces_of(pv, i as int),
            keys@ == piece_keys(pieces_of(pv, i as int), seed),
            forall|k: int| 0 <= k < pieces.len() ==> (#[trigger] pieces@[k]).part < parts.len(),
            forall|k: int| 0 <= k < pieces.len() ==> 0 < (#[trigger] pieces@[k]).length <= NEST_LIMIT,
        decreases parts.len() - i,
    {
        let quantity = parts[i].quantity;
        let length = parts[i].length;
        let ghost base = pieces_of(pv, i as int);
        let ghost part = pv[i as int];
        let mut j: usize = 0;
        assert(base + copies(part, 0) =~= base);
        while j < quantity
            invariant
                j <= quantity,
                i < parts.len(),
                pv == parts_view(parts@),
                part == pv[i as int],
                part.length == length,
                0 < length <= NEST_LIMIT,
                base == pieces_of(pv, i as int),
                pieces_view(pieces@, pv) == base + copies(part, j as int),
                keys@ == piece_keys(base + copies(part, j as int), seed),
                forall|k: int| 0 <= k < pieces.len() ==> (#[trigger] pieces@[k]).part < parts.len(),
                forall|k: int|
                    0 <= k < pieces.len() ==> 0 < (#[trigger] pieces@[k]).length <= NEST_LIMIT,
            decreases quantity - j,
        {
            let hash = hash_with_seed(parts[i].id.as_str(), seed ^ (j as u64));
            let ghost so_far = base + copies(part, j as int);
            let ghost piece = Piece { id: part.id, length, seq: j };
            let ghost old_pieces = pieces@;
            keys.push(SortKey { major: -(length as i128), minor: hash, index: pieces.len() });
            pieces.push(PieceRef { part: i, seq: j, length });
            proof {
                assert(copies(part, j + 1) == copies(part, j as int).push(piece));
                assert(base + copies(part, j + 1) =~= so_far.push(piece));
                assert(pieces_view(pieces@, pv) =~= so_far.push(piece));
                assert(old_pieces.len() == so_far.len());
                assert(keys@ =~= piece_keys(so_far.push(piece), seed));
            }
            j = j + 1;
        }
        assert(parts@[i as int]@.quantity == quantity);
        i = i + 1;
    }
    (pieces, keys)
}

/// A board while it is filled.
struct BoardState {
    stock: usize,
    index: usize,
    cursor: i64,
    utilized: i64,
    kerf_total: i64,
    cuts: Vec<LinearCut>,
}

impl BoardState {
    spec fn model(&self) -> BoardModel {
        BoardModel {
            stock: self.stock as int,
            index: self.index,
            cursor: self.cursor as int,
            cuts: cuts_view(self.cuts@),
        }
    }

    /// Whether the board's sums agree with its cuts and the board is not
    /// overfull.
    spec fn wf(&self, stock: Seq<StockView>, config: LinearNestConfig) -> bool {
        &&& self.stock < stock.len()
        &&& self.utilized == cut_total(cuts_view(self.cuts@))
        &&& self.kerf_total == kerf_between(self.cuts@.len() as int, config.kerf as int)
        &&& self.cursor == config.trim_leading + self.utilized + self.kerf_total
        &&& self.cursor + config.trim_trailing <= stock[self.stock as int].length
        &&& self.utilized >= 0
        &&& self.kerf_total >= 0
        &&& (self.cuts@.len() > 0 ==> cuts_view(self.cuts@).last().start + cuts_view(
            self.cuts@,
        ).last().length == self.cursor)
    }

    fn can_place(&self, len: i64, stock_length: i64, config: &LinearNestConfig) -> (b: bool)
        requires
            0 <= self.cursor <= NEST_LIMIT,
            0 < len <= NEST_LIMIT,
            0 < stock_length <= NEST_LIMIT,
            allowance_ok(config.kerf),
            allowance_ok(config.trim_trailing),
        ensures
            b == (len > 0 && (if self.cuts@.len() == 0 {
                len <= stock_length - self.cursor - config.trim_trailing
            } else {
                len + config.kerf <= stock_length - self.cursor - config.trim_trailing
            })),
    {
        let available = stock_length - self.cursor - config.trim_trailing;
        if self.cuts.len() == 0 {
            len <= available
        } else {
            len + config.kerf <= available
        }
    }

    /// Adds a cut that fits.
    fn place(
        &mut self,
        id: &str,
        len: i64,
        piece: Ghost<Piece>,
        stock: Ghost<Seq<StockView>>,
        config: &LinearNestConfig,
    )
        requires
            piece@.id == id@,
            piece@.length == len,
            old(self).wf(stock@, *config),
            fits(old(self).model(), len as int, stock@, *config),
            0 < len <= NEST_LIMIT,
            allowance_ok(config.kerf),
            allowance_ok(config.trim_leading),
            allowance_ok(config.trim_trailing),
            0 < stock@[old(self).stock as int].length <= NEST_LIMIT,
        ensures
            final(self).wf(stock@, *config),
            final(self).model() == with_cut(old(self).model(), piece@, *config),
            final(self).cuts@.len() == old(self).cuts@.len() + 1,
    {
        let ghost before = cuts_view(self.cuts@);
        let ghost n = self.cuts@.len() as int;
        if self.cuts.len() > 0 {
            proof {
                assert(kerf_between(n + 1, config.kerf as int) == kerf_between(
                    n,
                    config.kerf as int,
                ) + config.kerf) by (nonlinear_arith)
                    requires
                        n >= 1,
                ;
            }
            self.cursor = self.cursor + config.kerf;
            self.kerf_total = self.kerf_total + config.kerf;
        } else {
            assert(kerf_between(1, config.kerf as int) == 0) by (nonlinear_arith);
        }
        let start = self.cursor;
        self.cuts.push(LinearCut { part_id: String::from_str(id), start, length: len });
        self.cursor = self.cursor + len;
        self.utilized = self.utilized + len;
        proof {
            let after = cuts_view(self.cuts@);
            let cut = CutView { part_id: id@, start, length: len };
            assert(after =~= before.push(cut));
            assert(after.drop_last() =~= before);
        }
    }
}

/// The models of the boards.
spec fn models(boards: Seq<BoardState>) -> Seq<BoardModel> {
    boards.map_values(|b: BoardState| b.model())
}

/// Whether every board is sound and holds a cut.
spec fn boards_wf(boards: Seq<BoardState>, stock: Seq<StockView>, config: LinearNestConfig) -> bool {
    forall|k: int|
        0 <= k < boards.len() ==> (#[trigger] boards[k]).wf(stock, config) && boards[k].cuts@.len()
            >= 1
}

/// Whether the stock and the allowances lie inside the supported range.
spec fn ranges_ok(stock: Seq<StockView>, config: LinearNestConfig) -> bool {
    &&& forall|k: int| 0 <= k < stock.len() ==> 0 < (#[trigger] stock[k]).length <= NEST_LIMIT
    &&& allowance_ok(config.kerf)
    &&& allowance_ok(config.trim_leading)
    &&& allowance_ok(config.trim_trailing)
}

/// Places one piece.
fn place_piece(
    boards: &mut Vec<BoardState>,
    used: &mut Vec<usize>,
    id: &str,
    len: i64,
    the_piece: Ghost<Piece>,
    stock: &[LinearStock],
    config: &LinearNestConfig,
) -> (r: Result<(), NestError>)
    requires
        the_piece@.id == id@,
        the_piece@.length == len,
        boards_wf(old(boards)@, stock_view(stock@), *config),
        ranges_ok(stock_view(stock@), *config),
        old(used).len() == stock.len(),
        0 < len <= NEST_LIMIT,
    ensures
        match r {
            Ok(_) => place(
                Packing { boards: models(old(boards)@), used: old(used)@ },
                the_piece@,
                stock_view(stock@),
                *config,
            ) == Ok::<Packing, NestErrorView>(
                Packing { boards: models(final(boards)@), used: final(used)@ },
            ) && boards_wf(final(boards)@, stock_view(stock@), *config) && final(used).len()
                == stock.len(),
            Err(e) => place(
                Packing { boards: models(old(boards)@), used: old(used)@ },
                the_piece@,
                stock_view(stock@),
                *config,
            ) == Err::<Packing, NestErrorView>(e@),
        },
{
    let ghost sv = stock_view(stock@);
    let ghost start_models = models(boards@);
    let ghost piece = the_piece@;
    let mut j: usize = 0;
    let mut found = false;
    while j < boards.len() && !found
        invariant
            j <= boards.len(),
            found ==> j < boards.len() && fits(start_models[j as int], len as int, sv, *config),
            boards@ == old(boards)@,
            start_models == models(boards@),
            sv == stock_view(stock@),
            boards_wf(boards@, sv, *config),
            ranges_ok(sv, *config),
            0 < len <= NEST_LIMIT,
            piece.length == len,
            first_fitting(start_models, len as int, sv, *config, 0) == first_fitting(
                start_models,
                len as int,
                sv,
                *config,
                j as int,
            ),
        decreases boards.len() - j + (if found { 0int } else { 1int }),
    {
        assert(boards@[j as int].wf(sv, *config));
        assert(start_models[j as int] == boards@[j as int].model());
        let stock_length = stock[boards[j].stock].length;
        assert(sv[boards@[j as int].stock as int].length == stock_length);
        if boards[j].can_place(len, stock_length, config) {
            found = true;
        } else {
            j = j + 1;
        }
    }
    if j < boards.len() {
        assert(boards@[j as int].wf(sv, *config));
        assert(start_models[j as int] == boards@[j as int].model());
        assert(sv[boards@[j as int].stock as int].length == stock@[boards@[j as int].stock as int].length);
        assert(fits(start_models[j as int], len as int, sv, *config));
        assert(first_fitting(start_models, len as int, sv, *config, 0) == j);
        let ghost before = boards@;
        boards[j].place(id, len, Ghost(piece), Ghost(sv), config);
        proof {
            assert(boards@.len() == before.len());
            assert forall|k: int| 0 <= k < boards@.len() implies (#[trigger] boards@[k]).wf(
                sv,
                *config,
            ) && boards@[k].cuts@.len() >= 1 by {
                if k != j {
                    assert(boards@[k] == before[k]);
                }
            }
            assert(models(boards@) =~= start_models.update(
                j as int,
                with_cut(start_models[j as int], piece, *config),
            )) by {
                assert forall|k: int| 0 <= k < boards@.len() implies models(boards@)[k]
                    == start_models.update(
                    j as int,
                    with_cut(start_models[j as int], piece, *config),
                )[k] by {
                    if k != j {
                        assert(boards@[k] == before[k]);
                    }
                }
            }
        }
        return Ok(());
    }
    assert(first_fitting(start_models, len as int, sv, *config, 0) == boards@.len());
    let mut s: usize = 0;
    while s < stock.len() && used[s] >= stock[s].quantity
        invariant
            s <= stock.len(),
            used@ == old(used)@,
            used.len() == stock.len(),
            sv == stock_view(stock@),
            first_supply(used@, sv, 0) == first_supply(used@, sv, s as int),
        decreases stock.len() - s,
    {
        assert(sv[s as int].quantity == stock@[s as int].quantity);
        s = s + 1;
    }
    if s >= stock.len() {
        return Err(NestError::InsufficientStock);
    }
    assert(sv[s as int].quantity == stock@[s as int].quantity);
    assert(sv[s as int].length == stock@[s as int].length);
    assert(first_supply(used@, sv, 0) == s);
    let stock_length = stock[s].length;
    if stock_length <= config.trim_leading + config.trim_trailing {
        return Err(NestError::InvalidDimension("stock length smaller than trim allowance"));
    }
    let mut board = BoardState {
        stock: s,
        index: used[s],
        cursor: config.trim_leading,
        utilized: 0,
        kerf_total: 0,
        cuts: Vec::new(),
    };
    assert(cuts_view(board.cuts@) =~= Seq::<CutView>::empty());
    assert(board.model() == fresh_board(s as int, used@[s as int], *config));
    if !board.can_place(len, stock_length, config) {
        return Err(NestError::InsufficientStock);
    }
    board.place(id, len, Ghost(piece), Ghost(sv), config);
    let taken = used[s] + 1;
    used[s] = taken;
    let ghost before = boards@;
    boards.push(board);
    proof {
        assert(models(boards@) =~= start_models.push(
            with_cut(fresh_board(s as int, old(used)@[s as int], *config), piece, *config),
        ));
        assert forall|k: int| 0 <= k < boards@.len() implies (#[trigger] boards@[k]).wf(sv, *config)
            && boards@[k].cuts@.len() >= 1 by {
            if k < before.len() {
                assert(boards@[k] == before[k]);
            }
        }
    }
    Ok(())
}

/// The rank of each kind of stock: how many names of stock come before its
/// name.
fn stock_ranks(stock: &[LinearStock]) -> (ranks: Vec<i128>)
    ensures
        ranks.len() == stock.len(),
        forall|s: int|
            0 <= s < stock.len() ==> #[trigger] ranks@[s] == rank_among(
                stock_names(stock_view(stock@)),
                stock_view(stock@)[s].id,
                stock.len() as int,
            ),
{
    let ghost sv = stock_view(stock@);
    let ghost all = stock_names(sv);
    let mut names: Vec<Vec<char>> = Vec::new();
    let mut i: usize = 0;
    while i < stock.len()
        invariant
            i <= stock.len(),
            names.len() == i,
            sv == stock_view(stock@),
            all == stock_names(sv),
            forall|k: int| 0 <= k < i ==> (#[trigger] names@[k])@ == all[k],
        decreases stock.len() - i,
    {
        let name = chars_of(stock[i].id.as_str());
        assert(name@ == all[i as int]);
        names.push(name);
        i = i + 1;
    }
    assert(names_view(names@) =~= all);
    name_ranks(&names)
}

/// The cuts of a board, copied.
fn copy_cuts(cuts: &Vec<LinearCut>) -> (r: Vec<LinearCut>)
    ensures
        cuts_view(r@) == cuts_view(cuts@),
{
    let mut out: Vec<LinearCut> = Vec::new();
    let mut i: usize = 0;
    assert(cuts_view(out@) =~= cuts_view(cuts@).subrange(0, 0));
    while i < cuts.len()
        invariant
            i <= cuts.len(),
            cuts_view(out@) == cuts_view(cuts@).subrange(0, i as int),
        decreases cuts.len() - i,
    {
        let cut = LinearCut {
            part_id: cuts[i].part_id.clone(),
            start: cuts[i].start,
            length: cuts[i].length,
        };
        assert(cut@ == cuts@[i as int]@);
        let ghost before = out@;
        out.push(cut);
        assert(out@ == before.push(cut));
        assert(cuts_view(out@) =~= cuts_view(before).push(cut@));
        assert(cuts_view(cuts@).subrange(0, i + 1) =~= cuts_view(cuts@).subrange(0, i as int).push(
            cuts@[i as int]@,
        ));
        i = i + 1;
    }
    assert(cuts_view(cuts@).subrange(0, cuts.len() as int) =~= cuts_view(cuts@));
    out
}

/// The board as it is handed out.
fn finalize(board: &BoardState, stock: &[LinearStock], config: &LinearNestConfig) -> (r: LinearBoard)
    requires
        board.wf(stock_view(stock@), *config),
        board.cuts@.len() >= 1,
        ranges_ok(stock_view(stock@), *config),
    ensures
        r@ == finished(board.model(), stock_view(stock@), *config),
        balanced(r.metrics),
        r.metrics.kind == MetricKind::Linear,
        0 <= r.metrics.utilized <= NEST_LIMIT,
        0 <= r.metrics.kerf_loss <= NEST_LIMIT,
        0 <= r.metrics.trim_loss <= 2 * NEST_LIMIT,
        0 <= r.metrics.offcut_loss <= NEST_LIMIT,
        0 <= r.metrics.stock_total <= NEST_LIMIT,
{
    let ghost sv = stock_view(stock@);
    assert(sv[board.stock as int] == stock@[board.stock as int]@);
    let total = stock[board.stock].length;
    let trim = config.trim_leading + config.trim_trailing;
    let taken = board.utilized + board.kerf_total + trim;
    let left = if total - taken > 0 {
        total - taken
    } else {
        0
    };
    let metrics = UtilizationBreakdown {
        kind: MetricKind::Linear,
        utilized: board.utilized as i128,
        kerf_loss: board.kerf_total as i128,
        trim_loss: trim as i128,
        offcut_loss: left as i128,
        stock_total: total as i128,
    };
    let mut offcuts: Vec<LinearOffcut> = Vec::new();
    if config.trim_leading > 0 {
        offcuts.push(LinearOffcut { start: 0, length: config.trim_leading });
    }
    let n = board.cuts.len();
    let last = &board.cuts[n - 1];
    assert(cuts_view(board.cuts@).last() == last@);
    if left > 0 {
        offcuts.push(LinearOffcut { start: last.start + last.length, length: left });
    }
    assert(offcuts@ =~= board_offcuts(board.model(), sv, *config));
    LinearBoard {
        stock_id: stock[board.stock].id.clone(),
        index: board.index,
        cuts: copy_cuts(&board.cuts),
        offcuts,
        metrics,
    }
}

/// Once a piece cannot be placed, no longer run of pieces can be packed.
proof fn lemma_pack_sticks(
    pieces: Seq<Piece>,
    k: int,
    n: int,
    stock: Seq<StockView>,
    config: LinearNestConfig,
)
    requires
        0 <= k <= n,
        pack(pieces, k, stock, config) is Err,
    ensures
        pack(pieces, n, stock, config) == pack(pieces, k, stock, config),
    decreases n - k,
{
    if k < n {
        lemma_pack_sticks(pieces, k, n - 1, stock, config);
    }
}

/// Adds up the breakdowns of the boards.
fn sum_metrics(boards: &Vec<LinearBoard>) -> (m: UtilizationBreakdown)
    requires
        forall|k: int|
            0 <= k < boards.len() ==> {
                &&& (#[trigger] boards@[k]).metrics.kind == MetricKind::Linear
                &&& 0 <= boards@[k].metrics.utilized <= NEST_LIMIT
                &&& 0 <= boards@[k].metrics.kerf_loss <= NEST_LIMIT
                &&& 0 <= boards@[k].metrics.trim_loss <= 2 * NEST_LIMIT
                &&& 0 <= boards@[k].metrics.offcut_loss <= NEST_LIMIT
                &&& 0 <= boards@[k].metrics.stock_total <= NEST_LIMIT
            },
    ensures
        m == total_metrics(boards@.map_values(|b: LinearBoard| b@), boards.len() as int),
{
    let ghost views = boards@.map_values(|b: LinearBoard| b@);
    let mut agg = UtilizationBreakdown::new(MetricKind::Linear);
    let mut i: usize = 0;
    while i < boards.len()
        invariant
            i <= boards.len(),
            views == boards@.map_values(|b: LinearBoard| b@),
            forall|k: int|
                0 <= k < boards.len() ==> {
                    &&& (#[trigger] boards@[k]).metrics.kind == MetricKind::Linear
                    &&& 0 <= boards@[k].metrics.utilized <= NEST_LIMIT
                    &&& 0 <= boards@[k].metrics.kerf_loss <= NEST_LIMIT
                    &&& 0 <= boards@[k].metrics.trim_loss <= 2 * NEST_LIMIT
                    &&& 0 <= boards@[k].metrics.offcut_loss <= NEST_LIMIT
                    &&& 0 <= boards@[k].metrics.stock_total <= NEST_LIMIT
                },
            agg == total_metrics(views, i as int),
            0 <= agg.utilized <= i * 1_099_511_627_776,
            0 <= agg.kerf_loss <= i * 1_099_511_627_776,
            0 <= agg.trim_loss <= i * 2_199_023_255_552,
            0 <= agg.offcut_loss <= i * 1_099_511_627_776,
            0 <= agg.stock_total <= i * 1_099_511_627_776,
        decreases boards.len() - i,
    {
        let m = boards[i].metrics;
        assert(views[i as int].metrics == m);
        agg = UtilizationBreakdown {
            kind: agg.kind,
            utilized: agg.utilized + m.utilized,
            kerf_loss: agg.kerf_loss + m.kerf_loss,
            trim_loss: agg.trim_loss + m.trim_loss,
            offcut_loss: agg.offcut_loss + m.offcut_loss,
            stock_total: agg.stock_total + m.stock_total,
        };
        i = i + 1;
    }
    agg
}

/// Hands the boards out in their order.
fn finish_boards(boards: &Vec<BoardState>, stock: &[LinearStock], config: &LinearNestConfig) -> (out:
    Vec<LinearBoard>)
    requires
        boards_wf(boards@, stock_view(stock@), *config),
        ranges_ok(stock_view(stock@), *config),
    ensures
        out@.map_values(|b: LinearBoard| b@) == boards_out(
            models(boards@),
            stock_view(stock@),
            *config,
        ),
        forall|k: int|
            0 <= k < out.len() ==> {
                &&& balanced((#[trigger] out@[k]).metrics)
                &&& out@[k].metrics.kind == MetricKind::Linear
                &&& 0 <= out@[k].metrics.utilized <= NEST_LIMIT
                &&& 0 <= out@[k].metrics.kerf_loss <= NEST_LIMIT
                &&& 0 <= out@[k].metrics.trim_loss <= 2 * NEST_LIMIT
                &&& 0 <= out@[k].metrics.offcut_loss <= NEST_LIMIT
                &&& 0 <= out@[k].metrics.stock_total <= NEST_LIMIT
            },
{
    let ghost sv = stock_view(stock@);
    let ghost ms = models(boards@);
    let ranks = stock_ranks(stock);
    let mut keys: Vec<SortKey> = Vec::new();
    let mut p: usize = 0;
    while p < boards.len()
        invariant
            p <= boards.len(),
            keys.len() == p,
            sv == stock_view(stock@),
            ms == models(boards@),
            boards_wf(boards@, sv, *config),
            ranks.len() == stock.len(),
            forall|s: int|
                0 <= s < stock.len() ==> #[trigger] ranks@[s] == rank_among(
                    stock_names(sv),
                    sv[s].id,
                    stock.len() as int,
                ),
            forall|k: int| 0 <= k < p ==> #[trigger] keys@[k] == board_key(ms[k], sv, k),
        decreases boards.len() - p,
    {
        assert(boards@[p as int].wf(sv, *config));
        assert(ms[p as int] == boards@[p as int].model());
        keys.push(
            SortKey { major: ranks[boards[p].stock], minor: boards[p].index as u64, index: p },
        );
        p = p + 1;
    }
    assert(keys@ =~= board_keys(ms, sv));
    let sorted = sort_keys(&keys);
    let ghost wanted = boards_out(ms, sv, *config);
    let mut out: Vec<LinearBoard> = Vec::new();
    let mut i: usize = 0;
    proof {
        lemma_sorted_keys(keys@);
    }
    while i < sorted.len()
        invariant
            i <= sorted.len(),
            out.len() == i,
            sv == stock_view(stock@),
            ms == models(boards@),
            boards_wf(boards@, sv, *config),
            ranges_ok(sv, *config),
            keys@ == board_keys(ms, sv),
            sorted@ == sorted_keys(keys@),
            sorted.len() == keys.len(),
            forall|k: int| 0 <= k < sorted.len() ==> keys@.contains(#[trigger] sorted@[k]),
            wanted == boards_out(ms, sv, *config),
            forall|k: int| 0 <= k < i ==> (#[trigger] out@[k])@ == wanted[k],
            forall|k: int|
                0 <= k < i ==> {
                    &&& balanced((#[trigger] out@[k]).metrics)
                    &&& out@[k].metrics.kind == MetricKind::Linear
                    &&& 0 <= out@[k].metrics.utilized <= NEST_LIMIT
                    &&& 0 <= out@[k].metrics.kerf_loss <= NEST_LIMIT
                    &&& 0 <= out@[k].metrics.trim_loss <= 2 * NEST_LIMIT
                    &&& 0 <= out@[k].metrics.offcut_loss <= NEST_LIMIT
                    &&& 0 <= out@[k].metrics.stock_total <= NEST_LIMIT
                },
        decreases sorted.len() - i,
    {
        let key = sorted[i];
        proof {
            assert(keys@.contains(sorted@[i as int]));
            let w = choose|w: int| 0 <= w < keys@.len() && keys@[w] == key;
            assert(key.index == w);
        }
        assert(boards@[key.index as int].wf(sv, *config));
        assert(ms[key.index as int] == boards@[key.index as int].model());
        let board = finalize(&boards[key.index], stock, config);
        assert(wanted[i as int] == finished(ms[key.index as int], sv, *config));
        out.push(board);
        i = i + 1;
    }
    assert(out@.map_values(|b: LinearBoard| b@) =~= wanted);
    out
}

/// Nests the parts on the stock: each part as often as its quantity says,
/// the longest first, each on the first board that it fits on, a fresh
/// board being taken from the first kind of stock that is left when it fits
/// on none. The boards are handed out in the order of the names of their
/// stock and of their numbers. On every board the parts, the kerfs, the
/// trims and the offcut add up to the board.
pub fn first_fit_boards(parts: &[LinearPart], stock: &[LinearStock], config: &LinearNestConfig) -> (r:
    NestResult<LinearNestResult>)
    ensures
        match r {
            Ok(layout) => linear_layout(parts_view(parts@), stock_view(stock@), *config) == Ok::<
                LayoutView,
                NestErrorView,
            >(layout@),
            Err(e) => linear_layout(parts_view(parts@), stock_view(stock@), *config) == Err::<
                LayoutView,
                NestErrorView,
            >(e@),
        },
        r matches Ok(layout) ==> forall|i: int|
            0 <= i < layout.boards@.len() ==> balanced((#[trigger] layout.boards@[i]).metrics),
{
    match check_inputs(parts, stock, config) {
        Err(e) => {
            return Err(e);
        },
        Ok(_) => {},
    }
    let ghost pv = parts_view(parts@);
    let ghost sv = stock_view(stock@);
    proof {
        assert forall|k: int| 0 <= k < parts.len() implies 0 < (#[trigger] parts@[k]).length
            <= NEST_LIMIT by {
            assert(pv[k].length == parts@[k].length);
        }
        assert forall|k: int| 0 <= k < sv.len() implies 0 < (#[trigger] sv[k]).length
            <= NEST_LIMIT by {}
    }
    let (pieces, keys) = expand(parts, config.seed);
    let sorted = sort_keys(&keys);
    let ghost all = pieces_of(pv, parts.len() as int);
    let ghost ordered = in_order(all, config.seed);
    let mut boards: Vec<BoardState> = Vec::new();
    let mut used: Vec<usize> = Vec::new();
    let mut s: usize = 0;
    while s < stock.len()
        invariant
            s <= stock.len(),
            used.len() == s,
            forall|k: int| 0 <= k < s ==> used@[k] == 0,
        decreases stock.len() - s,
    {
        used.push(0);
        s = s + 1;
    }
    assert(used@ =~= Seq::new(sv.len(), |i: int| 0usize));
    assert(models(boards@) =~= Seq::<BoardModel>::empty());
    assert(pieces_view(pieces@, pv).len() == pieces@.len());
    let mut i: usize = 0;
    while i < sorted.len()
        invariant
            i <= sorted.len(),
            pv == parts_view(parts@),
            sv == stock_view(stock@),
            all == pieces_of(pv, parts.len() as int),
            ordered == in_order(all, config.seed),
            keys@ == piece_keys(all, config.seed),
            sorted@ == sorted_keys(keys@),
            sorted.len() == keys.len(),
            keys.len() == all.len(),
            pieces.len() == all.len(),
            pieces_view(pieces@, pv) == all,
            forall|k: int| 0 <= k < pieces.len() ==> (#[trigger] pieces@[k]).part < parts.len(),
            forall|k: int| 0 <= k < pieces.len() ==> 0 < (#[trigger] pieces@[k]).length <= NEST_LIMIT,
            forall|k: int| 0 <= k < sorted.len() ==> keys@.contains(#[trigger] sorted@[k]),
            ranges_ok(sv, *config),
            input_fault(pv, sv, *config) is None,
            used.len() == stock.len(),
            boards_wf(boards@, sv, *config),
            pack(ordered, i as int, sv, *config) == Ok::<Packing, NestErrorView>(
                Packing { boards: models(boards@), used: used@ },
            ),
        decreases sorted.len() - i,
    {
        let key = sorted[i];
        proof {
            assert(keys@.contains(sorted@[i as int]));
            let w = choose|w: int| 0 <= w < keys@.len() && keys@[w] == key;
            assert(key.index == w);
        }
        let piece = pieces[key.index];
        let id = parts[piece.part].id.as_str();
        proof {
            assert(ordered[i as int] == all[key.index as int]);
            assert(all[key.index as int] == piece_of(piece, pv));
            assert(pv[piece.part as int].id == id@);
        }
        match place_piece(
            &mut boards,
            &mut used,
            id,
            piece.length,
            Ghost(ordered[i as int]),
            stock,
            config,
        ) {
            Ok(_) => {},
            Err(e) => {
                proof {
                    lemma_pack_sticks(ordered, i + 1, ordered.len() as int, sv, *config);
                }
                return Err(e);
            },
        }
        i = i + 1;
    }
    let out = finish_boards(&boards, stock, config);
    let metrics = sum_metrics(&out);
    Ok(LinearNestResult { boards: out, metrics })
}

/// The seed decides only among pieces of equal length: under any two seeds
/// the pieces are placed in the same order of lengths, the longest first.
pub proof fn lemma_seed_breaks_ties_only(pieces: Seq<Piece>, a: u64, b: u64)
    requires
        pieces.len() <= usize::MAX,
    ensures
        in_order(pieces, a).len() == pieces.len(),
        in_order(pieces, b).len() == pieces.len(),
        forall|i: int|
            0 <= i < pieces.len() ==> (#[trigger] in_order(pieces, a)[i]).length == in_order(
                pieces,
                b,
            )[i].length,
        forall|i: int, j: int|
            0 <= i < j < pieces.len() ==> (#[trigger] in_order(pieces, a)[i]).length >= (
            #[trigger] in_order(pieces, a)[j]).length,
{
    let ka = piece_keys(pieces, a);
    let kb = piece_keys(pieces, b);
    lemma_sorted_keys(ka);
    lemma_sorted_keys(kb);
    lemma_majors_fixed(ka, kb);
    let sa = sorted_keys(ka);
    let sb = sorted_keys(kb);
    assert forall|i: int| 0 <= i < pieces.len() implies (#[trigger] sa[i]).major == -(pieces[sa[i].index as int].length as int)
        && (#[trigger] sb[i]).major == -(pieces[sb[i].index as int].length as int) by {
        assert(ka.contains(sa[i]));
        let w = choose|w: int| 0 <= w < ka.len() && ka[w] == sa[i];
        assert(ka[w] == piece_key(pieces[w], a, w));
        assert(sa[i].index == w);
        assert(kb.contains(sb[i]));
        let v = choose|v: int| 0 <= v < kb.len() && kb[v] == sb[i];
        assert(kb[v] == piece_key(pieces[v], b, v));
        assert(sb[i].index == v);
    }
    assert forall|i: int| 0 <= i < pieces.len() implies (#[trigger] in_order(pieces, a)[i]).length
        == in_order(pieces, b)[i].length by {
        assert(sa[i].major == sb[i].major);
    }
    assert forall|i: int, j: int| 0 <= i < j < pieces.len() implies (#[trigger] in_order(
        pieces,
        a,
    )[i]).length >= (#[trigger] in_order(pieces, a)[j]).length by {
        assert(crate::nest::order::key_order()(sa[i], sa[j]));
        assert(sa[i].major == -(pieces[sa[i].index as int].length as int));
        assert(sa[j].major == -(pieces[sa[j].index as int].length as int));
    }
}

/// Whether two runs of cuts lie in the same places: as many cuts, each with
/// the start and the length of its counterpart.
pub open spec fn same_places(x: Seq<CutView>, y: Seq<CutView>) -> bool {
    &&& x.len() == y.len()
    &&& forall|i: int|
        0 <= i < x.len() ==> (#[trigger] x[i]).start == y[i].start && x[i].length == y[i].length
}

/// Whether two boards that are being filled agree in all but the names on
/// their cuts.
pub open spec fn alike(x: BoardModel, y: BoardModel) -> bool {
    &&& x.stock == y.stock
    &&& x.index == y.index
    &&& x.cursor == y.cursor
    &&& same_places(x.cuts, y.cuts)
}

/// Whether two packings agree in all but the names on the cuts.
pub open spec fn packings_alike(p: Packing, q: Packing) -> bool {
    &&& p.used == q.used
    &&& p.boards.len() == q.boards.len()
    &&& forall|j: int| 0 <= j < p.boards.len() ==> alike(#[trigger] p.boards[j], q.boards[j])
}

/// Whether two outcomes of packing are the same error or packings that
/// agree in all but the names on the cuts.
pub open spec fn outcomes_alike(
    x: Result<Packing, NestErrorView>,
    y: Result<Packing, NestErrorView>,
) -> bool {
    match (x, y) {
        (Ok(p), Ok(q)) => packings_alike(p, q),
        (Err(e), Err(f)) => e == f,
        _ => false,
    }
}

/// Whether two configurations agree in all but the seed.
pub open spec fn same_but_seed(a: LinearNestConfig, b: LinearNestConfig) -> bool {
    a.kerf == b.kerf && a.trim_leading == b.trim_leading && a.trim_trailing == b.trim_trailing
}

/// Whether two boards agree in all but the names on their cuts.
pub open spec fn boards_alike(x: BoardView, y: BoardView) -> bool {
    &&& x.stock_id == y.stock_id
    &&& x.index == y.index
    &&& x.offcuts == y.offcuts
    &&& x.metrics == y.metrics
    &&& same_places(x.cuts, y.cuts)
}

/// Whether two outcomes of nesting are the same error or layouts with the
/// same figures and boards that agree in all but the names on their cuts.
pub open spec fn layouts_alike(
    x: Result<LayoutView, NestErrorView>,
    y: Result<LayoutView, NestErrorView>,
) -> bool {
    match (x, y) {
        (Ok(p), Ok(q)) => {
            &&& p.metrics == q.metrics
            &&& p.boards.len() == q.boards.len()
            &&& forall|k: int|
                0 <= k < p.boards.len() ==> boards_alike(#[trigger] p.boards[k], q.boards[k])
        },
        (Err(e), Err(f)) => e == f,
        _ => false,
    }
}

proof fn lemma_first_fitting_alike(
    x: Seq<BoardModel>,
    y: Seq<BoardModel>,
    len: int,
    stock: Seq<StockView>,
    a: LinearNestConfig,
    b: LinearNestConfig,
    from: int,
)
    requires
        same_but_seed(a, b),
        x.len() == y.len(),
        forall|j: int| 0 <= j < x.len() ==> alike(#[trigger] x[j], y[j]),
    ensures
        first_fitting(x, len, stock, a, from) == first_fitting(y, len, stock, b, from),
    decreases x.len() - from,
{
    if 0 <= from < x.len() {
        assert(alike(x[from], y[from]));
        if !fits(x[from], len, stock, a) {
            lemma_first_fitting_alike(x, y, len, stock, a, b, from + 1);
        }
    }
}

proof fn lemma_with_cut_alike(
    x: BoardModel,
    y: BoardModel,
    p: Piece,
    q: Piece,
    a: LinearNestConfig,
    b: LinearNestConfig,
)
    requires
        same_but_seed(a, b),
        alike(x, y),
        p.length == q.length,
    ensures
        alike(with_cut(x, p, a), with_cut(y, q, b)),
{
    let u = with_cut(x, p, a).cuts;
    let v = with_cut(y, q, b).cuts;
    assert forall|i: int| 0 <= i < u.len() implies (#[trigger] u[i]).start == v[i].start
        && u[i].length == v[i].length by {
        if i < x.cuts.len() {
            assert(u[i] == x.cuts[i]);
            assert(v[i] == y.cuts[i]);
        }
    }
}

proof fn lemma_place_alike(
    p: Packing,
    q: Packing,
    piece: Piece,
    other: Piece,
    stock: Seq<StockView>,
    a: LinearNestConfig,
    b: LinearNestConfig,
)
    requires
        same_but_seed(a, b),
        packings_alike(p, q),
        piece.length == other.length,
    ensures
        outcomes_alike(place(p, piece, stock, a), place(q, other, stock, b)),
{
    lemma_first_fitting_alike(p.boards, q.boards, piece.length as int, stock, a, b, 0);
    let j = first_fitting(p.boards, piece.length as int, stock, a, 0);
    if j < p.boards.len() {
        lemma_first_fitting_in_range(p.boards, piece.length as int, stock, a, 0);
        assert(alike(p.boards[j], q.boards[j]));
        lemma_with_cut_alike(p.boards[j], q.boards[j], piece, other, a, b);
        let x = p.boards.update(j, with_cut(p.boards[j], piece, a));
        let y = q.boards.update(j, with_cut(q.boards[j], other, b));
        assert forall|k: int| 0 <= k < x.len() implies alike(#[trigger] x[k], y[k]) by {
            if k != j {
                assert(alike(p.boards[k], q.boards[k]));
            }
        }
    } else {
        let s = first_supply(p.used, stock, 0);
        if s < stock.len() && stock[s].length > a.trim_leading + a.trim_trailing {
            let fx = fresh_board(s, p.used[s], a);
            let fy = fresh_board(s, q.used[s], b);
            assert(fx.cuts =~= fy.cuts);
            assert(alike(fx, fy));
            if fits(fx, piece.length as int, stock, a) {
                lemma_with_cut_alike(fx, fy, piece, other, a, b);
                let x = p.boards.push(with_cut(fx, piece, a));
                let y = q.boards.push(with_cut(fy, other, b));
                assert forall|k: int| 0 <= k < x.len() implies alike(#[trigger] x[k], y[k]) by {
                    if k < p.boards.len() {
                        assert(alike(p.boards[k], q.boards[k]));
                    }
                }
            }
        }
    }
}

/// The first board that a piece fits on is a board, if there is one.
proof fn lemma_first_fitting_in_range(
    boards: Seq<BoardModel>,
    len: int,
    stock: Seq<StockView>,
    config: LinearNestConfig,
    from: int,
)
    requires
        from >= 0,
    ensures
        from <= first_fitting(boards, len, stock, config, from) <= boards.len() || from
            > boards.len(),
    decreases boards.len() - from,
{
    if from < boards.len() && !fits(boards[from], len, stock, config) {
        lemma_first_fitting_in_range(boards, len, stock, config, from + 1);
    }
}

/// Pieces of the same lengths are packed alike.
pub proof fn lemma_pack_alike(
    x: Seq<Piece>,
    y: Seq<Piece>,
    k: int,
    stock: Seq<StockView>,
    a: LinearNestConfig,
    b: LinearNestConfig,
)
    requires
        same_but_seed(a, b),
        x.len() == y.len(),
        0 <= k <= x.len(),
        forall|i: int| 0 <= i < x.len() ==> (#[trigger] x[i]).length == y[i].length,
    ensures
        outcomes_alike(pack(x, k, stock, a), pack(y, k, stock, b)),
        pack(x, k, stock, a) matches Ok(p) ==> p.boards.len() <= k,
    decreases k,
{
    if k > 0 {
        lemma_pack_alike(x, y, k - 1, stock, a, b);
        match (pack(x, k - 1, stock, a), pack(y, k - 1, stock, b)) {
            (Ok(p), Ok(q)) => {
                assert(x[k - 1].length == y[k - 1].length);
                lemma_place_alike(p, q, x[k - 1], y[k - 1], stock, a, b);
                lemma_first_fitting_in_range(p.boards, x[k - 1].length as int, stock, a, 0);
            },
            _ => {},
        }
    }
}

proof fn lemma_cut_total_alike(x: Seq<CutView>, y: Seq<CutView>)
    requires
        same_places(x, y),
    ensures
        cut_total(x) == cut_total(y),
    decreases x.len(),
{
    if x.len() > 0 {
        let u = x.drop_last();
        let v = y.drop_last();
        assert forall|i: int| 0 <= i < u.len() implies (#[trigger] u[i]).start == v[i].start
            && u[i].length == v[i].length by {
            assert(u[i] == x[i]);
            assert(v[i] == y[i]);
        }
        lemma_cut_total_alike(u, v);
        assert(x[x.len() - 1].length == y[y.len() - 1].length);
    }
}

proof fn lemma_finished_alike(
    x: BoardModel,
    y: BoardModel,
    stock: Seq<StockView>,
    a: LinearNestConfig,
    b: LinearNestConfig,
)
    requires
        same_but_seed(a, b),
        alike(x, y),
    ensures
        boards_alike(finished(x, stock, a), finished(y, stock, b)),
{
    lemma_cut_total_alike(x.cuts, y.cuts);
    if x.cuts.len() > 0 {
        assert(x.cuts[x.cuts.len() - 1].start == y.cuts[y.cuts.len() - 1].start);
        assert(x.cuts[x.cuts.len() - 1].length == y.cuts[y.cuts.len() - 1].length);
    }
    assert(board_metrics(x, stock, a) == board_metrics(y, stock, b));
    assert(board_offcuts(x, stock, a) =~= board_offcuts(y, stock, b));
}

proof fn lemma_total_metrics_alike(x: Seq<BoardView>, y: Seq<BoardView>, k: int)
    requires
        x.len() == y.len(),
        0 <= k <= x.len(),
        forall|i: int| 0 <= i < x.len() ==> (#[trigger] x[i]).metrics == y[i].metrics,
    ensures
        total_metrics(x, k) == total_metrics(y, k),
    decreases k,
{
    if k > 0 {
        lemma_total_metrics_alike(x, y, k - 1);
        assert(x[k - 1].metrics == y[k - 1].metrics);
    }
}

/// The seed moves names only: under two configurations that differ in
/// nothing but the seed the parts are nested on the same boards, with the
/// same figures, the same offcuts and cuts in the same places. Only the
/// names on cuts of equal length may change places.
pub proof fn lemma_seed_moves_names_only(
    parts: Seq<PartView>,
    stock: Seq<StockView>,
    a: LinearNestConfig,
    b: LinearNestConfig,
)
    requires
        same_but_seed(a, b),
        pieces_of(parts, parts.len() as int).len() <= usize::MAX,
    ensures
        layouts_alike(linear_layout(parts, stock, a), linear_layout(parts, stock, b)),
{
    let pieces = pieces_of(parts, parts.len() as int);
    if input_fault(parts, stock, a) is None {
        assert(input_fault(parts, stock, b) is None);
        lemma_seed_breaks_ties_only(pieces, a.seed, b.seed);
        let x = in_order(pieces, a.seed);
        let y = in_order(pieces, b.seed);
        lemma_pack_alike(x, y, x.len() as int, stock, a, b);
        match (pack(x, x.len() as int, stock, a), pack(y, y.len() as int, stock, b)) {
            (Ok(p), Ok(q)) => {
                let kp = board_keys(p.boards, stock);
                let kq = board_keys(q.boards, stock);
                assert(kp =~= kq) by {
                    assert forall|i: int| 0 <= i < kp.len() implies kp[i] == kq[i] by {
                        assert(alike(p.boards[i], q.boards[i]));
                    }
                }
                lemma_sorted_keys(kp);
                let sorted = sorted_keys(kp);
                let u = boards_out(p.boards, stock, a);
                let v = boards_out(q.boards, stock, b);
                assert(u.len() == v.len());
                assert forall|k: int| 0 <= k < u.len() implies boards_alike(
                    #[trigger] u[k],
                    v[k],
                ) by {
                    assert(kp.contains(sorted[k]));
                    let w = choose|w: int| 0 <= w < kp.len() && kp[w] == sorted[k];
                    assert(kp[w] == board_key(p.boards[w], stock, w));
                    assert(sorted[k].index == w);
                    assert(alike(p.boards[w], q.boards[w]));
                    lemma_finished_alike(p.boards[w], q.boards[w], stock, a, b);
                }
                assert forall|k: int| 0 <= k < u.len() implies (#[trigger] u[k]).metrics
                    == v[k].metrics by {
                    assert(boards_alike(u[k], v[k]));
                }
                lemma_total_metrics_alike(u, v, u.len() as int);
            },
            _ => {},
        }
    } else {
        assert(input_fault(parts, stock, a) == input_fault(parts, stock, b));
    }
}

} // verus!
