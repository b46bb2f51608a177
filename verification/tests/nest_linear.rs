use camnest::nest::{
    first_fit_boards, LinearCut, LinearNestConfig, LinearNestResult, LinearOffcut, LinearPart,
    LinearStock, MetricKind, NestError,
};

fn mm(value: f64) -> i64 {
    (value * 1_000_000.0).round() as i64
}

fn part(id: &str, length: f64, quantity: usize) -> LinearPart {
    LinearPart { id: id.into(), length: mm(length), quantity }
}

fn stock(id: &str, length: f64, quantity: usize) -> LinearStock {
    LinearStock { id: id.into(), length: mm(length), quantity }
}

#[test]
fn places_parts_first_fit() {
    let parts = vec![part("A", 2.0, 2), part("B", 1.0, 1)];
    let stock = vec![stock("board", 5.3, 1)];
    let config = LinearNestConfig { kerf: mm(0.1), trim_leading: mm(0.0), trim_trailing: mm(0.0), seed: 42 };

    let result = first_fit_boards(&parts, &stock, &config).unwrap();
    assert_eq!(result.boards.len(), 1);
    let board = &result.boards[0];
    assert_eq!(board.cuts.len(), 3);
    assert!(board.metrics.utilized > mm(4.9) as i128);
    assert!(board.metrics.kerf_loss > 0);
}

#[test]
fn first_fit_accounts_for_kerf_and_trim() {
    let parts = vec![part("panel-a", 900.0, 2), part("panel-b", 450.0, 1), part("panel-c", 300.0, 2)];
    let stock = vec![stock("spruce-3m", 3000.0, 2)];
    let config =
        LinearNestConfig { kerf: mm(3.0), trim_leading: mm(10.0), trim_trailing: mm(12.0), seed: 11 };

    let result = first_fit_boards(&parts, &stock, &config).expect("nesting succeeds");
    assert_eq!(result.boards.len(), 1, "expected a single board to suffice");

    let first_board = &result.boards[0];
    let first_cut = &first_board.cuts[0];
    assert_eq!(first_cut.start, config.trim_leading);

    if first_board.cuts.len() >= 2 {
        let second_cut = &first_board.cuts[1];
        assert!(second_cut.start - (first_cut.start + first_cut.length) >= config.kerf - 1);
    }

    let efficiency = result.metrics.efficiency();
    assert!(efficiency > mm(0.8), "expected good utilization, got {efficiency}");

    let offcut_total: i64 = result
        .boards
        .iter()
        .flat_map(|board| board.offcuts.iter())
        .map(|offcut| offcut.length)
        .sum();
    assert!(offcut_total > 0);
}

#[test]
fn seed_controls_tie_breaks() {
    let parts = vec![part("shelf-a", 600.0, 1), part("shelf-b", 600.0, 1), part("shelf-c", 600.0, 1)];
    let stock = vec![stock("beam", 1205.0, 2)];

    let cfg_a = LinearNestConfig { kerf: mm(2.0), trim_leading: mm(0.0), trim_trailing: mm(0.0), seed: 1 };
    let cfg_b = LinearNestConfig { seed: 99, ..cfg_a.clone() };

    let result_a = first_fit_boards(&parts, &stock, &cfg_a).unwrap();
    let result_b = first_fit_boards(&parts, &stock, &cfg_b).unwrap();

    assert_eq!(result_a.boards.len(), result_b.boards.len());
    let collect_ids = |res: &LinearNestResult| {
        res.boards
            .iter()
            .flat_map(|board| board.cuts.iter().map(|c| c.part_id.clone()))
            .collect::<Vec<_>>()
    };
    assert_ne!(collect_ids(&result_a), collect_ids(&result_b));

    let result_a_repeat = first_fit_boards(&parts, &stock, &cfg_a).unwrap();
    assert_eq!(collect_ids(&result_a), collect_ids(&result_a_repeat));

    // the seed moves names only: where the cuts lie is the same
    let places = |res: &LinearNestResult| {
        res.boards
            .iter()
            .map(|b| b.cuts.iter().map(|c| (c.start, c.length)).collect::<Vec<_>>())
            .collect::<Vec<_>>()
    };
    assert_eq!(places(&result_a), places(&result_b));
}

#[test]
fn insufficient_stock_errors() {
    let parts = vec![part("rail", 1500.0, 3)];
    let stock = vec![stock("stick", 1000.0, 2)];
    let cfg = LinearNestConfig { kerf: mm(1.0), trim_leading: mm(0.0), trim_trailing: mm(0.0), seed: 0 };

    let err = first_fit_boards(&parts, &stock, &cfg).expect_err("should fail");
    assert!(matches!(err, NestError::InsufficientStock));
}

#[test]
fn linear_layout_is_exact() {
    let parts = vec![part("A", 900.0, 2), part("B", 450.0, 1), part("C", 300.0, 2)];
    let stock = vec![stock("S", 3000.0, 2)];
    let config =
        LinearNestConfig { kerf: mm(3.0), trim_leading: mm(10.0), trim_trailing: mm(12.0), seed: 11 };
    let result = first_fit_boards(&parts, &stock, &config).unwrap();
    assert_eq!(result.boards.len(), 1);
    let board = &result.boards[0];
    assert_eq!(board.stock_id, "S");
    assert_eq!(board.index, 0);
    let placed: Vec<(i64, i64)> = board.cuts.iter().map(|c| (c.start, c.length)).collect();
    assert_eq!(
        placed,
        vec![
            (mm(10.0), mm(900.0)),
            (mm(913.0), mm(900.0)),
            (mm(1816.0), mm(450.0)),
            (mm(2269.0), mm(300.0)),
            (mm(2572.0), mm(300.0)),
        ]
    );
    let m = board.metrics;
    assert_eq!(m.kind, MetricKind::Linear);
    assert_eq!(m.utilized, mm(2850.0) as i128);
    assert_eq!(m.kerf_loss, mm(12.0) as i128);
    assert_eq!(m.trim_loss, mm(22.0) as i128);
    assert_eq!(m.offcut_loss, mm(116.0) as i128);
    assert_eq!(m.stock_total, mm(3000.0) as i128);
    assert_eq!(m.utilized + m.kerf_loss + m.trim_loss + m.offcut_loss, m.stock_total);
    assert_eq!(
        board.offcuts,
        vec![
            LinearOffcut { start: 0, length: mm(10.0) },
            LinearOffcut { start: mm(2872.0), length: mm(116.0) },
        ]
    );
    assert_eq!(result.metrics, m);
    assert_eq!(result.metrics.efficiency(), 950_000);
}

#[test]
fn boards_come_in_the_order_of_their_names() {
    let parts = vec![part("P", 60.0, 3)];
    let stock = vec![stock("zeta", 100.0, 1), stock("alpha", 100.0, 2)];
    let config = LinearNestConfig::default();
    let result = first_fit_boards(&parts, &stock, &config).unwrap();
    let order: Vec<(String, usize)> =
        result.boards.iter().map(|b| (b.stock_id.clone(), b.index)).collect();
    assert_eq!(
        order,
        vec![("alpha".to_string(), 0), ("alpha".to_string(), 1), ("zeta".to_string(), 0)]
    );
    assert_eq!(result.metrics.stock_total, mm(300.0) as i128);
    assert_eq!(result.metrics.utilized, mm(180.0) as i128);
    assert_eq!(result.metrics.offcut_loss, mm(120.0) as i128);
    for board in &result.boards {
        let m = board.metrics;
        assert_eq!(m.utilized + m.kerf_loss + m.trim_loss + m.offcut_loss, m.stock_total);
        assert_eq!(board.cuts, vec![LinearCut { part_id: "P".into(), start: 0, length: mm(60.0) }]);
    }
}

#[test]
fn longest_parts_come_first() {
    let parts = vec![part("short", 10.0, 1), part("long", 30.0, 1), part("mid", 20.0, 1)];
    let stock = vec![stock("s", 100.0, 1)];
    let result = first_fit_boards(&parts, &stock, &LinearNestConfig::default()).unwrap();
    let ids: Vec<&str> = result.boards[0].cuts.iter().map(|c| c.part_id.as_str()).collect();
    assert_eq!(ids, vec!["long", "mid", "short"]);
}

#[test]
fn linear_input_faults() {
    let ok_stock = vec![stock("s", 100.0, 1)];
    let cfg = LinearNestConfig::default();
    let err = |r: Result<LinearNestResult, NestError>| r.unwrap_err().to_string();
    assert_eq!(
        err(first_fit_boards(&[part("p", 0.0, 1)], &ok_stock, &cfg)),
        "invalid dimensions: part length must be positive"
    );
    assert_eq!(
        err(first_fit_boards(&[part("p", 1.0, 1)], &[stock("s", -1.0, 1)], &cfg)),
        "invalid dimensions: stock length must be positive"
    );
    let negative = LinearNestConfig { kerf: -1, ..cfg };
    assert_eq!(
        err(first_fit_boards(&[part("p", 1.0, 1)], &ok_stock, &negative)),
        "invalid dimensions: dimension out of range"
    );
    let huge = LinearPart { id: "p".into(), length: i64::MAX, quantity: 1 };
    assert_eq!(
        err(first_fit_boards(&[huge], &ok_stock, &cfg)),
        "invalid dimensions: dimension out of range"
    );
    let trims = LinearNestConfig { trim_leading: mm(60.0), trim_trailing: mm(40.0), ..cfg };
    assert_eq!(
        err(first_fit_boards(&[part("p", 1.0, 1)], &ok_stock, &trims)),
        "invalid dimensions: stock length smaller than trim allowance"
    );
    assert_eq!(
        err(first_fit_boards(&[part("p", 101.0, 1)], &ok_stock, &cfg)),
        "insufficient stock to satisfy all parts"
    );
    let none = first_fit_boards(&[], &ok_stock, &cfg).unwrap();
    assert!(none.boards.is_empty());
    assert_eq!(none.metrics.efficiency(), 1_000_000);
}
