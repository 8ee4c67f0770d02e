//! Comparing two columns of field elements: what the host accumulated and what a
//! device kernel accumulated.
use vstd::prelude::*;

use crate::field::QM31;

verus! {

/// How two columns compare.
#[derive(Clone, Copy, Debug, PartialEq, Eq, Structural)]
pub enum AccumulatorDiff {
    Equal { rows: usize },
    LenMismatch { cpu_rows: usize, gpu_rows: usize },
    /// The first row in which the columns differ, with both values.
    FirstDiff { row: usize, cpu: QM31, gpu: QM31 },
}

/// `d` says how the columns compare.
pub open spec fn compares(cpu: Seq<QM31>, gpu: Seq<QM31>, d: AccumulatorDiff) -> bool {
    match d {
        AccumulatorDiff::Equal { rows } => cpu == gpu && rows == cpu.len(),
        AccumulatorDiff::LenMismatch { cpu_rows, gpu_rows } => cpu.len() != gpu.len() && cpu_rows
            == cpu.len() && gpu_rows == gpu.len(),
        AccumulatorDiff::FirstDiff { row, cpu: c, gpu: g } => {
            &&& cpu.len() == gpu.len()
            &&& row < cpu.len()
            &&& c == cpu[row as int] && g == gpu[row as int] && c != g
            &&& forall|i: int| 0 <= i < row ==> #[trigger] cpu[i] == gpu[i]
        },
    }
}

/// Compares two columns row by row.
pub fn diff_secure_columns(cpu: &[QM31], gpu: &[QM31]) -> (r: AccumulatorDiff)
    ensures
        compares(cpu@, gpu@, r),
{
    if cpu.len() != gpu.len() {
        return AccumulatorDiff::LenMismatch { cpu_rows: cpu.len(), gpu_rows: gpu.len() };
    }
    let mut row: usize = 0;
    while row < cpu.len()
        invariant
            row <= cpu@.len() == gpu@.len(),
            forall|i: int| 0 <= i < row ==> #[trigger] cpu@[i] == gpu@[i],
        decreases cpu.len() - row,
    {
        if cpu[row] != gpu[row] {
            return AccumulatorDiff::FirstDiff { row, cpu: cpu[row], gpu: gpu[row] };
        }
        row += 1;
    }
    assert(cpu@ =~= gpu@);
    AccumulatorDiff::Equal { rows: cpu.len() }
}

/// Whether the columns are equal; what to say about it is the caller's.
pub fn report_accumulator_diff(cpu: &[QM31], gpu: &[QM31]) -> (r: (bool, AccumulatorDiff))
    ensures
        r.0 == (cpu@ == gpu@),
        compares(cpu@, gpu@, r.1),
{
    let d: AccumulatorDiff = diff_secure_columns(cpu, gpu);
    match d {
        AccumulatorDiff::Equal { rows } => (true, d),
        AccumulatorDiff::LenMismatch { cpu_rows, gpu_rows } => (false, d),
        AccumulatorDiff::FirstDiff { row, cpu: c, gpu: g } => (false, d),
    }
}

/// Two columns compare in one way only.
pub proof fn lemma_comparison_unique(cpu: Seq<QM31>, gpu: Seq<QM31>, a: AccumulatorDiff, b: AccumulatorDiff)
    requires
        compares(cpu, gpu, a),
        compares(cpu, gpu, b),
    ensures
        a == b,
{
    match (a, b) {
        (
            AccumulatorDiff::FirstDiff { row: i, cpu: _, gpu: _ },
            AccumulatorDiff::FirstDiff { row: j, cpu: _, gpu: _ },
        ) => {
            if i < j {
                assert(cpu[i as int] == gpu[i as int]);
            } else if j < i {
                assert(cpu[j as int] == gpu[j as int]);
            }
        },
        (AccumulatorDiff::Equal { .. }, AccumulatorDiff::FirstDiff { row, .. }) => {
            assert(cpu[row as int] == gpu[row as int]);
        },
        (AccumulatorDiff::FirstDiff { row, .. }, AccumulatorDiff::Equal { .. }) => {
            assert(cpu[row as int] == gpu[row as int]);
        },
        _ => {},
    }
}

} // verus!
