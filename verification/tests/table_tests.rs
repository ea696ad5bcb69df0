use go_lookup_tables::Extrapolation;
use go_lookup_tables::Interpolation;
use go_lookup_tables::OneDLookup;
use go_lookup_tables::TableError;
use go_lookup_tables::TwoDLookup;
use go_lookup_tables::MAX_MAGNITUDE;

const ALL_EXTRAPOLATIONS: [Extrapolation; 3] =
    [Extrapolation::Error, Extrapolation::HoldExtreme, Extrapolation::Linear];
const ALL_INTERPOLATIONS: [Interpolation; 4] =
    [Interpolation::Linear, Interpolation::Floor, Interpolation::Ceiling, Interpolation::Closest];

#[test]
fn exact_hit_ignores_policies_1d() {
    let table = OneDLookup::new(vec![0, 500, 4500, 5000], vec![0, 0, 500, 500]).unwrap();
    let breakpoints = [0, 500, 4500, 5000];
    let values = [0, 0, 500, 500];
    for i in 0..4 {
        for extrapolation in ALL_EXTRAPOLATIONS {
            for interpolation in ALL_INTERPOLATIONS {
                let result = table.lookup(breakpoints[i], extrapolation, interpolation).unwrap();
                assert_eq!(result, values[i]);
            }
        }
    }
}

#[test]
fn exact_hit_ignores_policy_2d() {
    let table = TwoDLookup::new(
        vec![0, 500, 1000],
        vec![0, 3, 6],
        vec![vec![30, 42, 55], vec![42, 50, 60], vec![50, 58, 65]],
    )
    .unwrap();
    let horizontal = [0, 500, 1000];
    let vertical = [0, 3, 6];
    let cells = [[30, 42, 55], [42, 50, 60], [50, 58, 65]];
    for j in 0..3 {
        for i in 0..3 {
            for interpolation in ALL_INTERPOLATIONS {
                let result = table.lookup(horizontal[i], vertical[j], interpolation);
                assert_eq!(result, cells[j][i]);
            }
        }
    }
}

#[test]
fn repeated_lookups_are_identical() {
    let table = OneDLookup::new(vec![0, 1, 5, 6], vec![0, 1, 6, 8]).unwrap();
    for extrapolation in ALL_EXTRAPOLATIONS {
        for interpolation in ALL_INTERPOLATIONS {
            for query in [-7, 0, 3, 6, 9] {
                let first = table.lookup(query, extrapolation, interpolation);
                let second = table.lookup(query, extrapolation, interpolation);
                assert_eq!(first, second);
            }
        }
    }
    let grid = TwoDLookup::new(
        vec![0, 500, 1000],
        vec![0, 3, 6],
        vec![vec![30, 42, 55], vec![42, 50, 60], vec![50, 58, 65]],
    )
    .unwrap();
    for interpolation in ALL_INTERPOLATIONS {
        for query_h in [-250, 0, 750, 1250] {
            for query_v in [-1, 2, 3, 7] {
                let first = grid.lookup(query_h, query_v, interpolation);
                let second = grid.lookup(query_h, query_v, interpolation);
                assert_eq!(first, second);
            }
        }
    }
}

#[test]
fn closest_tie_takes_upper_value() {
    // even segment: query at the exact midpoint of [0, 4]
    let table = OneDLookup::new(vec![0, 4], vec![10, 20]).unwrap();
    let at_tie = table.lookup(2, Extrapolation::Error, Interpolation::Closest).unwrap();
    assert_eq!(at_tie, 20);
    // odd segment: the midpoint of [0, 5] rounds down to 2
    let odd = OneDLookup::new(vec![0, 5], vec![10, 20]).unwrap();
    let below = odd.lookup(2, Extrapolation::Error, Interpolation::Closest).unwrap();
    let above = odd.lookup(3, Extrapolation::Error, Interpolation::Closest).unwrap();
    assert_eq!(below, 10);
    assert_eq!(above, 20);
}

#[test]
fn linear_blend_truncates_toward_zero() {
    // 3 * -15 / 10 is -4.5: truncation gives -4, where flooring would give -5
    let table = OneDLookup::new(vec![0, 10], vec![0, -15]).unwrap();
    let result = table.lookup(3, Extrapolation::Error, Interpolation::Linear).unwrap();
    assert_eq!(result, -4);
}

#[test]
fn linear_extrapolation_with_falling_values() {
    let table = OneDLookup::new(vec![0, 10], vec![100, 0]).unwrap();
    let below = table.lookup(-10, Extrapolation::Linear, Interpolation::Linear).unwrap();
    let above = table.lookup(20, Extrapolation::Linear, Interpolation::Linear).unwrap();
    assert_eq!(below, 200);
    assert_eq!(above, -100);
}

#[test]
fn construction_rejects_length_mismatch_1d() {
    let result = OneDLookup::new(vec![0, 1, 2], vec![0, 1]);
    assert!(matches!(result, Err(TableError::LengthMismatch)));
}

#[test]
fn construction_rejects_short_table_1d() {
    let result = OneDLookup::new(vec![0], vec![0]);
    assert!(matches!(result, Err(TableError::TooShort)));
    let empty = OneDLookup::new(vec![], vec![]);
    assert!(matches!(empty, Err(TableError::TooShort)));
}

#[test]
fn construction_rejects_oversized_entries_1d() {
    let big_breakpoint = OneDLookup::new(vec![0, MAX_MAGNITUDE + 1], vec![0, 1]);
    assert!(matches!(big_breakpoint, Err(TableError::OutOfRange)));
    let small_value = OneDLookup::new(vec![0, 1], vec![0, -MAX_MAGNITUDE - 1]);
    assert!(matches!(small_value, Err(TableError::OutOfRange)));
    let at_limit = OneDLookup::new(vec![-MAX_MAGNITUDE, MAX_MAGNITUDE], vec![0, 1]);
    assert!(at_limit.is_ok());
}

#[test]
fn construction_rejects_unsorted_breakpoints_1d() {
    let descending = OneDLookup::new(vec![3, 2, 1], vec![0, 1, 2]);
    assert!(matches!(descending, Err(TableError::NotAscending)));
    let duplicate = OneDLookup::new(vec![1, 1], vec![0, 1]);
    assert!(matches!(duplicate, Err(TableError::NotAscending)));
}

#[test]
fn construction_rejects_bad_shapes_2d() {
    let missing_row =
        TwoDLookup::new(vec![0, 1], vec![0, 1, 2], vec![vec![1, 2], vec![3, 4]]);
    assert!(matches!(missing_row, Err(TableError::LengthMismatch)));
    let ragged_row =
        TwoDLookup::new(vec![0, 1], vec![0, 1], vec![vec![1, 2], vec![3]]);
    assert!(matches!(ragged_row, Err(TableError::LengthMismatch)));
    let narrow =
        TwoDLookup::new(vec![0], vec![0, 1], vec![vec![1], vec![2]]);
    assert!(matches!(narrow, Err(TableError::TooShort)));
}

#[test]
fn construction_rejects_bad_entries_2d() {
    let oversized = TwoDLookup::new(
        vec![0, 1],
        vec![0, 1],
        vec![vec![1, 2], vec![3, MAX_MAGNITUDE + 1]],
    );
    assert!(matches!(oversized, Err(TableError::OutOfRange)));
    let unsorted = TwoDLookup::new(
        vec![0, 1],
        vec![1, 0],
        vec![vec![1, 2], vec![3, 4]],
    );
    assert!(matches!(unsorted, Err(TableError::NotAscending)));
}

#[test]
fn error_exactly_outside_range_1d() {
    let table = OneDLookup::new(vec![0, 5000], vec![0, 500]).unwrap();
    assert!(table.lookup(-1, Extrapolation::Error, Interpolation::Linear).is_err());
    assert!(table.lookup(0, Extrapolation::Error, Interpolation::Linear).is_ok());
    assert!(table.lookup(5000, Extrapolation::Error, Interpolation::Linear).is_ok());
    assert!(table.lookup(5001, Extrapolation::Error, Interpolation::Linear).is_err());
}
