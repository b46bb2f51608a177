use camnest::wood::delta_dim;

fn mm(value: f64) -> i64 {
    (value * 1_000_000.0).round() as i64
}

fn approx_eq(a: i64, b: i64) {
    assert!((a - b).abs() < 1, "expected {a} = {b} (diff {})", (a - b).abs());
}

#[test]
fn width_expands_with_higher_moisture() {
    let delta = delta_dim(mm(500.0), "Oak", "width", mm(10.0));
    approx_eq(delta, mm(1.9));
}

#[test]
fn radial_and_fractional_delta_are_supported() {
    let delta_fraction = delta_dim(mm(300.0), "Birch", "radial", mm(0.08));
    let delta_percent = delta_dim(mm(300.0), "Birch", "radial", mm(8.0));
    approx_eq(delta_fraction, delta_percent);
}

#[test]
fn unknown_species_or_orientation_returns_zero() {
    assert_eq!(delta_dim(mm(400.0), "mystery", "width", mm(5.0)), 0);
    assert_eq!(delta_dim(mm(400.0), "oak", "diagonal", mm(5.0)), 0);
}

#[test]
fn non_positive_length_returns_zero() {
    assert_eq!(delta_dim(mm(0.0), "oak", "width", mm(5.0)), 0);
    assert_eq!(delta_dim(mm(-10.0), "oak", "width", mm(5.0)), 0);
}

#[test]
fn shrinkage_is_rounded_to_thousandths() {
    // 300 * 0.00027 * 8 = 0.648
    assert_eq!(delta_dim(mm(300.0), "  BIRCH Plywood\t", " Thickness ", mm(8.0)), mm(0.648));
    // 123.4 * 0.00002 * 7 = 0.017276
    assert_eq!(delta_dim(mm(123.4), "walnut", "along_grain", mm(7.0)), mm(0.017));
    // 100 * 0.00043 * -1.5 = -0.0645, a tie that rounds away from zero
    assert_eq!(delta_dim(mm(100.0), "maple", "tangential", mm(-1.5)), mm(-0.065));
    assert_eq!(delta_dim(mm(100.0), "cherry", "across_grain", mm(1.0)), mm(3.6));
    assert_eq!(delta_dim(mm(100.0), "red oak", "longitudinal", mm(50.0)), mm(0.1));
    assert_eq!(delta_dim(mm(100.0), "white  oak", "length", mm(50.0)), 0);
}
