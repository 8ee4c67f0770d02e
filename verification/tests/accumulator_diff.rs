//! Comparing columns of field elements.
use gate_air::accumulator_diff::{diff_secure_columns, report_accumulator_diff, AccumulatorDiff};
use gate_air::field::QM31;

#[test]
fn equal_columns() {
    let a = vec![QM31::one(), QM31::zero(), QM31::one()];
    assert_eq!(
        diff_secure_columns(&a, &a),
        AccumulatorDiff::Equal { rows: 3 }
    );
}

#[test]
fn first_diff_localized() {
    let a = vec![QM31::one(), QM31::one()];
    let b = vec![QM31::one(), QM31::zero()];
    match diff_secure_columns(&a, &b) {
        AccumulatorDiff::FirstDiff { row, .. } => assert_eq!(row, 1),
        other => panic!("expected FirstDiff, got {other:?}"),
    }
}

#[test]
fn len_mismatch() {
    let a = vec![QM31::one()];
    let b = vec![QM31::one(), QM31::one()];
    assert!(matches!(
        diff_secure_columns(&a, &b),
        AccumulatorDiff::LenMismatch { .. }
    ));
}

#[test]
fn difference_carries_both_values() {
    let a = vec![QM31::from_base(4), QM31::from_base(5)];
    let b = vec![QM31::from_base(4), QM31::from_base(6)];
    assert_eq!(
        diff_secure_columns(&a, &b),
        AccumulatorDiff::FirstDiff {
            row: 1,
            cpu: QM31::from_base(5),
            gpu: QM31::from_base(6),
        }
    );
    assert_eq!(
        diff_secure_columns(&a[..1], &b),
        AccumulatorDiff::LenMismatch {
            cpu_rows: 1,
            gpu_rows: 2
        }
    );
}

#[test]
fn report_says_whether_equal() {
    let a = vec![QM31::from_base(4), QM31::from_base(5)];
    let b = vec![QM31::from_base(4), QM31::from_base(6)];
    assert_eq!(
        report_accumulator_diff(&a, &a),
        (true, AccumulatorDiff::Equal { rows: 2 })
    );
    assert!(!report_accumulator_diff(&a, &b).0);
    assert!(!report_accumulator_diff(&a, &b[..1]).0);
    assert_eq!(
        report_accumulator_diff(&[], &[]),
        (true, AccumulatorDiff::Equal { rows: 0 })
    );
}
