use bonding_curve::curve::{cap_base, y_sold_from_pool, CAP_TOKENS, LUT_DECIMALS};
use bonding_curve::table::{CurveTable, Rounding, TableError};

const FULL_CAP: u64 = 800_000_000_000_000_000;

fn two_interval_table() -> CurveTable {
    CurveTable::new(vec![0, 100, 300], vec![0, 101, 301], 1000, 9).unwrap()
}

#[test]
fn cap_base_scales_by_decimals() {
    assert_eq!(cap_base(0), CAP_TOKENS);
    assert_eq!(cap_base(LUT_DECIMALS), FULL_CAP);
    assert_eq!(cap_base(10), 8_000_000_000_000_000_000);
}

#[test]
fn y_sold_is_cap_minus_clamped_balance() {
    assert_eq!(y_sold_from_pool(0, 9), FULL_CAP);
    assert_eq!(y_sold_from_pool(FULL_CAP - 7, 9), 7);
    assert_eq!(y_sold_from_pool(FULL_CAP, 9), 0);
    assert_eq!(y_sold_from_pool(FULL_CAP + 5, 9), 0);
}

#[test]
fn table_rejects_invalid_parts() {
    assert!(CurveTable::new(vec![0, 1], vec![0, 1, 2], 10, 9).is_none());
    assert!(CurveTable::new(vec![0], vec![0], 10, 9).is_none());
    assert!(CurveTable::new(vec![0, 5, 4], vec![0, 5, 6], 10, 9).is_none());
    assert!(CurveTable::new(vec![0, 5, 6], vec![0, 7, 6], 10, 9).is_none());
    assert!(CurveTable::new(vec![0, 5, 7], vec![0, 4, 7], 10, 9).is_none());
    assert!(CurveTable::new(vec![0, 5], vec![0, FULL_CAP + 1], 10, 9).is_none());
    assert!(CurveTable::new(vec![0, 5], vec![0, 5], 0, 9).is_none());
    assert!(CurveTable::new(vec![0, 5], vec![0, 5], 10, 11).is_none());
    let t = CurveTable::new(vec![0, 5], vec![0, FULL_CAP], 10, 9).unwrap();
    assert_eq!(t.cap, FULL_CAP);
    assert_eq!(t.n_nodes(), 2);
    assert_eq!(t.n_intervals(), 1);
}

#[test]
fn interpolation_exact_values() {
    let t = two_interval_table();
    assert_eq!(t.y_at_x_floor(0), 0);
    assert_eq!(t.y_at_x_floor(250), 50);
    assert_eq!(t.y_at_x_ceil(250), 51);
    assert_eq!(t.y_at_x_floor(333), 66);
    assert_eq!(t.y_at_x_ceil(333), 68);
    assert_eq!(t.y_at_x_floor(500), 100);
    assert_eq!(t.y_at_x_ceil(500), 101);
    assert_eq!(t.y_at_x_floor(750), 200);
    assert_eq!(t.y_at_x_ceil(750), 201);
    assert_eq!(t.y_at_x_floor(1000), FULL_CAP);
    assert_eq!(t.y_at_x_ceil(5000), FULL_CAP);
    assert_eq!(t.interpolate(750, Rounding::Down), 200);
    assert_eq!(t.interpolate(750, Rounding::Up), 201);
}

#[test]
fn flat_interval_yields_lower_node() {
    let t = CurveTable::new(vec![0, 40, 40], vec![0, 40, 40], 100, 9).unwrap();
    assert_eq!(t.y_at_x_floor(75), 40);
    assert_eq!(t.y_at_x_ceil(75), 40);
}

#[test]
fn floor_never_above_ceil_and_both_monotone() {
    let t = two_interval_table();
    let mut prev_floor = 0;
    let mut prev_ceil = 0;
    for x in 0..=1100u64 {
        let f = t.y_at_x_floor(x);
        let c = t.y_at_x_ceil(x);
        assert!(f <= c);
        assert!(f >= prev_floor);
        assert!(c >= prev_ceil);
        prev_floor = f;
        prev_ceil = c;
    }
}

#[test]
fn inversion_exact_values() {
    let t = two_interval_table();
    assert_eq!(t.x_from_y_lut(0), 0);
    assert_eq!(t.x_from_y_lut(50), 250);
    assert_eq!(t.x_from_y_lut(200), 750);
    assert_eq!(t.x_from_y_lut(300), 1000);
    assert_eq!(t.x_from_y_lut(FULL_CAP), 1000);
    assert_eq!(t.x_from_y_lut(u64::MAX), 1000);
}

#[test]
fn inversion_of_floor_supply_stays_within_one_node() {
    let t = two_interval_table();
    let width = 1000 / 2;
    for x in 0..1000u64 {
        let back = t.x_from_y_lut(t.y_at_x_floor(x));
        assert!(back <= x);
        assert!(back <= x + width);
    }
}

#[test]
fn inversion_is_monotone() {
    let t = two_interval_table();
    let mut prev = 0;
    for y in 0..=400u64 {
        let x = t.x_from_y_lut(y);
        assert!(x >= prev);
        prev = x;
    }
}

#[test]
fn table_for_token_checks_decimals_first() {
    let ok = CurveTable::for_token(vec![0, 5], vec![0, 6], 10, 9, 9).unwrap();
    assert_eq!((ok.span, ok.decimals, ok.cap), (10, 9, FULL_CAP));
    assert_eq!(
        CurveTable::for_token(vec![0, 5], vec![0, 6], 10, 9, 6).err(),
        Some(TableError::DecimalsMismatch)
    );
    assert_eq!(
        CurveTable::for_token(vec![0, 5], vec![0, 4], 10, 9, 9).err(),
        Some(TableError::Malformed)
    );
    assert_eq!(
        CurveTable::for_token(vec![0, 5], vec![0, 4], 10, 9, 8).err(),
        Some(TableError::DecimalsMismatch)
    );
}

#[test]
fn inversion_is_near_the_largest_position_at_most_y() {
    let t = two_interval_table();
    let width = 1000 / 2;
    for y in 1..=400u64 {
        let pos = t.x_from_y_lut(y);
        if pos < 1000 {
            assert!(t.y_at_x_floor(pos) <= y);
        }
        let largest = (0..=1000u64).filter(|&x| t.y_at_x_floor(x) <= y).max().unwrap();
        assert!(largest <= pos + width + 1);
    }
    // A table whose last node stays below the cap ends at the domain's end.
    assert_eq!(t.x_from_y_lut(350), 1000);
}
