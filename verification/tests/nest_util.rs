use camnest::nest::util::hash_with_seed;
use camnest::nest::{MetricKind, NestError, UtilizationBreakdown};

#[test]
fn hashes_are_repeatable_and_depend_on_both_arguments() {
    let a = hash_with_seed("panel", 11);
    assert_eq!(a, hash_with_seed("panel", 11));
    assert_ne!(a, hash_with_seed("panel", 12));
    assert_ne!(a, hash_with_seed("pane", 11));
    assert_ne!(a, 11);
}

#[test]
fn efficiency_is_a_clamped_share() {
    let mut m = UtilizationBreakdown::new(MetricKind::Linear);
    assert_eq!(m.efficiency(), 1_000_000);
    m.stock_total = 3_000;
    assert_eq!(m.efficiency(), 0);
    m.utilized = 2_850;
    assert_eq!(m.efficiency(), 950_000);
    m.utilized = 1_000;
    assert_eq!(m.efficiency(), 333_333);
    m.utilized = 4_000;
    assert_eq!(m.efficiency(), 1_000_000);
    m.utilized = -5;
    assert_eq!(m.efficiency(), 0);
}

#[test]
fn nest_errors_have_texts() {
    assert_eq!(NestError::InsufficientStock.to_string(), "insufficient stock to satisfy all parts");
    assert_eq!(
        NestError::InvalidDimension("part length must be positive").to_string(),
        "invalid dimensions: part length must be positive"
    );
}
