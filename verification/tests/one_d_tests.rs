use go_lookup_tables::Extrapolation;
use go_lookup_tables::Interpolation;
use go_lookup_tables::OneDLookup;

fn table(breakpoints: Vec<i64>, values: Vec<i64>) -> OneDLookup {
    OneDLookup::new(breakpoints, values).unwrap()
}

#[test]
fn extrapolation_linear_1d() {
    let lookup_table = table(vec![0, 5000], vec![0, 500]);
    let result1 = lookup_table.lookup(-1000, Extrapolation::Linear, Interpolation::Linear).unwrap();
    let result2 = lookup_table.lookup(6000, Extrapolation::Linear, Interpolation::Linear).unwrap();
    assert_eq!(result1, -100);
    assert_eq!(result2, 600);
}

#[test]
fn extrapolation_none_hold_1d() {
    let lookup_table = table(vec![0, 5000], vec![0, 500]);
    let result1 =
        lookup_table.lookup(-1000, Extrapolation::HoldExtreme, Interpolation::Linear).unwrap();
    let result2 =
        lookup_table.lookup(6000, Extrapolation::HoldExtreme, Interpolation::Linear).unwrap();
    assert_eq!(result1, 0);
    assert_eq!(result2, 500);
}

#[test]
fn extrapolation_none_error_1d() {
    let lookup_table = table(vec![0, 5000], vec![0, 500]);
    let result1 = lookup_table.lookup(-1000, Extrapolation::Error, Interpolation::Linear);
    let result2 = lookup_table.lookup(6000, Extrapolation::Error, Interpolation::Linear);
    let result3 = lookup_table.lookup(2500, Extrapolation::Error, Interpolation::Linear);
    assert!(result1.is_err());
    assert!(result2.is_err());
    assert!(result3.is_ok());
}

#[test]
fn interpolation_linear_1d() {
    let lookup_table = table(vec![0, 500, 4500, 5000], vec![0, 0, 500, 500]);
    let result =
        lookup_table.lookup(500, Extrapolation::HoldExtreme, Interpolation::Linear).unwrap();
    let result1 =
        lookup_table.lookup(505, Extrapolation::HoldExtreme, Interpolation::Linear).unwrap();
    let result2 =
        lookup_table.lookup(4495, Extrapolation::HoldExtreme, Interpolation::Linear).unwrap();
    let result3 =
        lookup_table.lookup(2500, Extrapolation::HoldExtreme, Interpolation::Linear).unwrap();
    assert_eq!(result, 0);
    assert_eq!(result1, 0);
    assert_eq!(result2, 499);
    assert_eq!(result3, 250);
}

#[test]
fn interpolation_closest_1d() {
    let lookup_table = table(vec![0, 1, 5, 6], vec![0, 1, 6, 8]);
    let result =
        lookup_table.lookup(3, Extrapolation::HoldExtreme, Interpolation::Closest).unwrap();
    let result1 =
        lookup_table.lookup(4, Extrapolation::HoldExtreme, Interpolation::Closest).unwrap();
    let result2 =
        lookup_table.lookup(2, Extrapolation::HoldExtreme, Interpolation::Closest).unwrap();
    assert_eq!(result, 6); // value is 3.5, round up to 6
    assert_eq!(result1, 6); // value is 4.75, round up to 6
    assert_eq!(result2, 1); // value is 2.25, round down to 1
}

#[test]
fn interpolation_floor_1d() {
    let lookup_table = table(vec![0, 2, 5, 6], vec![0, 1, 6, 8]);
    let result =
        lookup_table.lookup(0, Extrapolation::HoldExtreme, Interpolation::Floor).unwrap();
    let result1 =
        lookup_table.lookup(1, Extrapolation::HoldExtreme, Interpolation::Floor).unwrap();
    assert_eq!(result, 0);
    assert_eq!(result, result1);
}

#[test]
fn interpolation_ceiling_1d() {
    let lookup_table = table(vec![0, 2, 5, 6], vec![0, 1, 6, 8]);
    let result =
        lookup_table.lookup(3, Extrapolation::HoldExtreme, Interpolation::Ceiling).unwrap();
    let result1 =
        lookup_table.lookup(4, Extrapolation::HoldExtreme, Interpolation::Ceiling).unwrap();
    assert_eq!(result, 6);
    assert_eq!(result, result1);
}
