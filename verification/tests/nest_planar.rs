use camnest::nest::{
    best_fit_sheets, skyline_sheets, summarize_sheet_layouts, GrainDirection, MetricKind,
    OffcutRect, PlanarNestConfig, RectPart, RectPlacement, SheetLayout, SheetStock,
};

fn mm(value: f64) -> i64 {
    (value * 1_000_000.0).round() as i64
}

fn sheet_fixture() -> Vec<SheetStock> {
    vec![SheetStock { id: "sheet-96x48".into(), width: mm(2438.4), height: mm(1219.2), quantity: 2 }]
}

#[test]
fn respects_grain() {
    let parts = vec![RectPart {
        id: "panel".into(),
        width: mm(4.0),
        height: mm(1.0),
        quantity: 2,
        grain: GrainDirection::AlongX,
    }];
    let stock = vec![SheetStock { id: "sheet".into(), width: mm(5.0), height: mm(3.0), quantity: 1 }];
    let config = PlanarNestConfig { kerf: mm(0.1), trim: mm(0.0), seed: 7 };
    let layouts = best_fit_sheets(&parts, &stock, &config).unwrap();
    let placement = &layouts[0].placements[0];
    assert!(!placement.rotated);
}

#[test]
fn grain_constraints_prevent_rotation() {
    let parts = vec![RectPart {
        id: "panel".into(),
        width: mm(1000.0),
        height: mm(300.0),
        quantity: 2,
        grain: GrainDirection::AlongX,
    }];

    let layouts = best_fit_sheets(
        &parts,
        &sheet_fixture(),
        &PlanarNestConfig { kerf: mm(3.0), trim: mm(6.0), seed: 123 },
    )
    .expect("nest succeeds");

    assert!(!layouts[0].placements[0].rotated);
}

#[test]
fn skyline_allows_rotation_when_either() {
    let parts = vec![RectPart {
        id: "brace".into(),
        width: mm(300.0),
        height: mm(600.0),
        quantity: 4,
        grain: GrainDirection::Either,
    }];

    let layouts = skyline_sheets(
        &parts,
        &sheet_fixture(),
        &PlanarNestConfig { kerf: mm(2.0), trim: mm(10.0), seed: 99 },
    )
    .expect("nest succeeds");

    assert!(layouts.iter().any(|layout| layout.placements.iter().any(|p| p.rotated)));
}

#[test]
fn deterministic_with_seed() {
    let parts: Vec<RectPart> = (0..6)
        .map(|idx| RectPart {
            id: format!("tile-{idx}"),
            width: mm(400.0),
            height: mm(400.0),
            quantity: 1,
            grain: GrainDirection::Either,
        })
        .collect();

    let stock = sheet_fixture();

    let cfg_a = PlanarNestConfig { kerf: mm(1.5), trim: mm(5.0), seed: 4 };
    let cfg_b = PlanarNestConfig { seed: 10, ..cfg_a };

    let a_first = best_fit_sheets(&parts, &stock, &cfg_a).unwrap();
    let a_again = best_fit_sheets(&parts, &stock, &cfg_a).unwrap();
    let b_first = best_fit_sheets(&parts, &stock, &cfg_b).unwrap();

    assert_eq!(a_first, a_again, "same seed must maintain ordering");
    assert_ne!(a_first, b_first, "different seed should change tie-breaking");
}

#[test]
fn utilization_breakdown_reports_totals() {
    let parts = vec![RectPart {
        id: "panel".into(),
        width: mm(800.0),
        height: mm(400.0),
        quantity: 5,
        grain: GrainDirection::Either,
    }];
    let stock = sheet_fixture();
    let cfg = PlanarNestConfig { kerf: mm(1.0), trim: mm(8.0), seed: 7 };

    let layouts = best_fit_sheets(&parts, &stock, &cfg).unwrap();
    let summary = summarize_sheet_layouts(&layouts);

    assert!(summary.stock_total > 0);
    assert!(summary.utilized > 0);
    assert!(summary.efficiency() > mm(0.25));
    assert_eq!(summary.kind, MetricKind::Area);
    assert_eq!(summary.utilized, 5 * (mm(800.0) as i128) * (mm(400.0) as i128));
}

fn placed(id: &str, x: f64, y: f64, w: f64, h: f64, rotated: bool) -> RectPlacement {
    RectPlacement { part_id: id.into(), x: mm(x), y: mm(y), width: mm(w), height: mm(h), rotated }
}

fn offcut(x: f64, y: f64, w: f64, h: f64) -> OffcutRect {
    OffcutRect { x: mm(x), y: mm(y), width: mm(w), height: mm(h) }
}

#[test]
fn best_fit_layout_is_exact() {
    let parts = vec![
        RectPart { id: "big".into(), width: mm(60.0), height: mm(40.0), quantity: 1, grain: GrainDirection::AlongX },
        RectPart { id: "tall".into(), width: mm(20.0), height: mm(50.0), quantity: 1, grain: GrainDirection::Either },
    ];
    let stock = vec![SheetStock { id: "s".into(), width: mm(104.0), height: mm(64.0), quantity: 1 }];
    let config = PlanarNestConfig { kerf: mm(2.0), trim: mm(2.0), seed: 0 };
    let layouts = best_fit_sheets(&parts, &stock, &config).unwrap();
    assert_eq!(layouts.len(), 1);
    let layout = &layouts[0];
    // the usable rectangle is 100 x 60 at (2, 2); "big" takes its corner and leaves a strip of
    // 38 x 60 to the right and one of 62 x 18 above; "tall" fits the right strip only
    assert_eq!(
        layout.placements,
        vec![placed("big", 2.0, 2.0, 60.0, 40.0, false), placed("tall", 64.0, 2.0, 20.0, 50.0, false)]
    );
    assert_eq!(
        layout.offcuts,
        vec![offcut(2.0, 44.0, 62.0, 18.0), offcut(86.0, 2.0, 16.0, 60.0), offcut(64.0, 54.0, 22.0, 8.0)]
    );
    let m = layout.metrics;
    let sq = |v: f64| (v * 1e12).round() as i128;
    assert_eq!(m.stock_total, sq(104.0 * 64.0));
    assert_eq!(m.utilized, sq(2400.0 + 1000.0));
    assert_eq!(m.kerf_loss, sq((100.0 + 70.0) * 2.0));
    assert_eq!(m.trim_loss, sq(2.0 * 104.0 * 2.0 + 2.0 * 64.0 * 2.0 - 16.0));
    assert_eq!(m.offcut_loss, m.stock_total - m.utilized - m.kerf_loss - m.trim_loss);
}

#[test]
fn best_fit_turns_a_piece_that_fits_better_so() {
    let parts = vec![RectPart {
        id: "strip".into(),
        width: mm(10.0),
        height: mm(50.0),
        quantity: 1,
        grain: GrainDirection::Either,
    }];
    let stock = vec![SheetStock { id: "s".into(), width: mm(50.0), height: mm(12.0), quantity: 1 }];
    let layouts = best_fit_sheets(&parts, &stock, &PlanarNestConfig::default()).unwrap();
    assert_eq!(layouts[0].placements, vec![placed("strip", 0.0, 0.0, 50.0, 10.0, true)]);
    assert_eq!(layouts[0].offcuts, vec![offcut(0.0, 10.0, 50.0, 2.0)]);
    // a free rectangle inside another is dropped
    let parts = vec![RectPart {
        id: "sq".into(),
        width: mm(10.0),
        height: mm(10.0),
        quantity: 1,
        grain: GrainDirection::AlongX,
    }];
    let stock = vec![SheetStock { id: "s".into(), width: mm(30.0), height: mm(30.0), quantity: 1 }];
    let layouts = best_fit_sheets(&parts, &stock, &PlanarNestConfig::default()).unwrap();
    assert_eq!(
        layouts[0].offcuts,
        vec![offcut(10.0, 0.0, 20.0, 30.0), offcut(0.0, 10.0, 10.0, 20.0)]
    );
}

#[test]
fn skyline_layout_is_exact() {
    let parts = vec![
        RectPart { id: "a".into(), width: mm(60.0), height: mm(40.0), quantity: 1, grain: GrainDirection::AlongX },
        RectPart { id: "b".into(), width: mm(30.0), height: mm(30.0), quantity: 2, grain: GrainDirection::AlongX },
    ];
    let stock = vec![SheetStock { id: "s".into(), width: mm(104.0), height: mm(84.0), quantity: 1 }];
    let config = PlanarNestConfig { kerf: mm(2.0), trim: mm(2.0), seed: 0 };
    let layouts = skyline_sheets(&parts, &stock, &config).unwrap();
    assert_eq!(layouts.len(), 1);
    let layout = &layouts[0];
    // the first shelf is 40 high: "a" at 2, "b" behind the kerf at 64; the second "b" needs
    // 32 of the 8 that are left and opens a shelf at 2 + 40 + 2
    assert_eq!(
        layout.placements,
        vec![
            placed("a", 2.0, 2.0, 60.0, 40.0, false),
            placed("b", 64.0, 2.0, 30.0, 30.0, false),
            placed("b", 2.0, 44.0, 30.0, 30.0, false),
        ]
    );
    assert_eq!(
        layout.offcuts,
        vec![offcut(94.0, 2.0, 8.0, 40.0), offcut(32.0, 44.0, 70.0, 30.0), offcut(2.0, 74.0, 100.0, 8.0)]
    );
    let m = layout.metrics;
    let sq = |v: f64| (v * 1e12).round() as i128;
    assert_eq!(m.utilized, sq(2400.0 + 900.0 + 900.0));
    assert_eq!(m.kerf_loss, sq(40.0 * 2.0 + 30.0 * 2.0));
    assert_eq!(m.trim_loss, sq(2.0 * 104.0 * 2.0 + 2.0 * 84.0 * 2.0 - 16.0));
    assert_eq!(m.offcut_loss, sq(320.0 + 2100.0 + 800.0));
    assert_eq!(m.stock_total, sq(104.0 * 84.0));
}

fn planar_fault(r: Result<Vec<SheetLayout>, camnest::nest::NestError>) -> String {
    r.unwrap_err().to_string()
}

#[test]
fn planar_input_faults() {
    let part = |w: f64, h: f64, q: usize| RectPart {
        id: "p".into(),
        width: mm(w),
        height: mm(h),
        quantity: q,
        grain: GrainDirection::Either,
    };
    let sheet = |w: f64, h: f64, q: usize| SheetStock { id: "s".into(), width: mm(w), height: mm(h), quantity: q };
    let cfg = PlanarNestConfig::default();
    for nest in [best_fit_sheets, skyline_sheets] {
        assert_eq!(
            planar_fault(nest(&[part(0.0, 1.0, 1)], &[sheet(10.0, 10.0, 1)], &cfg)),
            "invalid dimensions: part dimensions must be positive"
        );
        assert_eq!(
            planar_fault(nest(&[part(1.0, 1.0, 0)], &[sheet(10.0, 10.0, 1)], &cfg)),
            "invalid dimensions: part dimensions must be positive"
        );
        assert_eq!(
            planar_fault(nest(&[part(1.0, 1.0, 1)], &[sheet(10.0, 10.0, 0)], &cfg)),
            "invalid dimensions: stock dimensions must be positive"
        );
        assert_eq!(
            planar_fault(nest(&[part(1.0, 1.0, 1)], &[sheet(10.0, 10.0, 1)], &PlanarNestConfig { trim: -1, ..cfg })),
            "invalid dimensions: dimension out of range"
        );
        assert_eq!(
            planar_fault(nest(&[part(1.0, 1.0, 1_000_001)], &[sheet(10.0, 10.0, 1)], &cfg)),
            "invalid dimensions: too many parts"
        );
        assert_eq!(
            planar_fault(nest(
                &[part(1.0, 1.0, 1)],
                &[sheet(10.0, 10.0, 1)],
                &PlanarNestConfig { trim: mm(5.0), ..cfg }
            )),
            "invalid dimensions: sheet dimensions smaller than trim allowance"
        );
        assert_eq!(
            planar_fault(nest(&[part(11.0, 12.0, 1)], &[sheet(10.0, 10.0, 1)], &cfg)),
            "insufficient stock to satisfy all parts"
        );
        assert_eq!(
            planar_fault(nest(&[part(6.0, 6.0, 3)], &[sheet(10.0, 10.0, 2)], &cfg)),
            "insufficient stock to satisfy all parts"
        );
        assert!(nest(&[], &[sheet(10.0, 10.0, 1)], &cfg).unwrap().is_empty());
    }
}

#[test]
fn sheets_come_in_the_order_of_their_names() {
    let parts = vec![RectPart {
        id: "p".into(),
        width: mm(6.0),
        height: mm(6.0),
        quantity: 3,
        grain: GrainDirection::AlongX,
    }];
    let stock = vec![
        SheetStock { id: "b".into(), width: mm(10.0), height: mm(10.0), quantity: 1 },
        SheetStock { id: "a".into(), width: mm(10.0), height: mm(10.0), quantity: 2 },
    ];
    for nest in [best_fit_sheets, skyline_sheets] {
        let layouts = nest(&parts, &stock, &PlanarNestConfig::default()).unwrap();
        let order: Vec<(String, usize)> = layouts.iter().map(|l| (l.stock_id.clone(), l.index)).collect();
        assert_eq!(order, vec![("a".to_string(), 0), ("a".to_string(), 1), ("b".to_string(), 0)]);
    }
}
