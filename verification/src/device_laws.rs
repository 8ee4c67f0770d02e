//! What a device is given and what its reports mean, word by word.
use vstd::prelude::*;

use crate::accumulator_diff::{compares, AccumulatorDiff};
use crate::circuit::{Gate, TestCase};
use crate::circuit_statement::interaction_width;
use crate::components::{gate_checks, gate_entries, row_cells};
use crate::device::{
    blocks_for, column_diffs, coord_steps, first_of, flat_gates, flat_states, hist_diffs,
    interaction_said, interaction_steps_of, pair_steps, prefix_sum_steps, scan_steps, trace_diffs,
    trace_said, CellDiff, DiffReport, IdentityError, Step,
};
use crate::field::{Ext, QM31};
use crate::hexes::hex_bytes;
use crate::kernel::{
    fnv, is_main_shape, main_name, staged_columns, stands_for, ColumnPlace, TreeSupply,
};
use crate::qubit_memory::Row;

verus! {

/// As few blocks of 256 threads as hold `n` threads.
pub proof fn lemma_fewest_blocks(n: int, m: int)
    requires
        n >= 0,
    ensures
        256 * blocks_for(n) >= n,
        256 * m >= n ==> m >= blocks_for(n),
{
}

/// The device takes four words of a gate: its opcode, target and controls.
pub proof fn lemma_gate_words(gates: Seq<Gate>, n: nat, i: int)
    requires
        0 <= i < n <= gates.len(),
    ensures
        flat_gates(gates, n).len() == 4 * n,
        flat_gates(gates, n)[4 * i] == gates[i].opcode,
        flat_gates(gates, n)[4 * i + 1] == gates[i].target,
        flat_gates(gates, n)[4 * i + 2] == gates[i].ctrl_a,
        flat_gates(gates, n)[4 * i + 3] == gates[i].ctrl_b,
    decreases n,
{
    let m = (n - 1) as nat;
    lemma_flat_gates_len(gates, m);
    if i < m {
        lemma_gate_words(gates, m, i);
    }
}

proof fn lemma_flat_gates_len(gates: Seq<Gate>, n: nat)
    ensures
        flat_gates(gates, n).len() == 4 * n,
    decreases n,
{
    if n > 0 {
        lemma_flat_gates_len(gates, (n - 1) as nat);
    }
}

/// The device takes 32 words of a shot: two bytes of its first state each, the low byte
/// first.
pub proof fn lemma_state_words(cases: Seq<TestCase>, n: nat, s: int, j: int)
    requires
        0 <= s < n <= cases.len(),
        0 <= j < 32,
    ensures
        flat_states(cases, n).len() == 32 * n,
        flat_states(cases, n)[32 * s + j] == hex_bytes(cases[s].x_hex@)[2 * j] + 256 * hex_bytes(
            cases[s].x_hex@,
        )[2 * j + 1],
    decreases n,
{
    let m = (n - 1) as nat;
    lemma_flat_states_len(cases, m);
    if s < m {
        lemma_state_words(cases, m, s, j);
    }
}

proof fn lemma_flat_states_len(cases: Seq<TestCase>, n: nat)
    ensures
        flat_states(cases, n).len() == 32 * n,
    decreases n,
{
    if n > 0 {
        lemma_flat_states_len(cases, (n - 1) as nat);
    }
}

/// The differences between a device trace and the host's rows: of the cells that are
/// looked at, exactly those that differ are listed, with both values, and row by row.
pub proof fn lemma_trace_differences(gpu: Seq<u32>, rows: Seq<Row>, padded: int, n: nat)
    requires
        rows.len() <= usize::MAX,
        n <= 19 * rows.len(),
    ensures
        forall|i: int|
            0 <= i < trace_diffs(gpu, rows, padded, n).len() ==> {
                let d = #[trigger] trace_diffs(gpu, rows, padded, n)[i];
                &&& 19 * d.row + d.col < n && d.col < 19
                &&& d.got == gpu[d.col * padded + d.row]
                &&& d.want == row_cells(rows[d.row as int])[d.col as int]
                &&& d.got != d.want
            },
        forall|r: int, c: int|
            #![trigger gpu[c * padded + r]]
            0 <= r && 0 <= c < 19 && 19 * r + c < n && gpu[c * padded + r] != row_cells(rows[r])[c]
                ==> trace_diffs(gpu, rows, padded, n).contains(
                CellDiff {
                    row: r as usize,
                    col: c as usize,
                    got: gpu[c * padded + r],
                    want: row_cells(rows[r])[c],
                },
            ),
        forall|i: int, j: int|
            0 <= i < j < trace_diffs(gpu, rows, padded, n).len() ==> {
                let d = #[trigger] trace_diffs(gpu, rows, padded, n)[i];
                let e = #[trigger] trace_diffs(gpu, rows, padded, n)[j];
                19 * d.row + d.col < 19 * e.row + e.col
            },
    decreases n,
{
    if n > 0 {
        let m = (n - 1) as nat;
        lemma_trace_differences(gpu, rows, padded, m);
        let rest = trace_diffs(gpu, rows, padded, m);
        let all = trace_diffs(gpu, rows, padded, n);
        let (r0, c0) = (m as int / 19, m as int % 19);
        let d0 = CellDiff {
            row: r0 as usize,
            col: c0 as usize,
            got: gpu[c0 * padded + r0],
            want: row_cells(rows[r0])[c0],
        };
        assert(all == rest || all == rest.push(d0));
        assert forall|r: int, c: int|
            #![trigger gpu[c * padded + r]]
            0 <= r && 0 <= c < 19 && 19 * r + c < n && gpu[c * padded + r] != row_cells(rows[r])[c] implies all.contains(
            CellDiff {
                row: r as usize,
                col: c as usize,
                got: gpu[c * padded + r],
                want: row_cells(rows[r])[c],
            },
        ) by {
            let d = CellDiff {
                row: r as usize,
                col: c as usize,
                got: gpu[c * padded + r],
                want: row_cells(rows[r])[c],
            };
            if 19 * r + c < m {
                assert(rest.contains(d));
                let i = choose|i: int| 0 <= i < rest.len() && rest[i] == d;
                assert(all[i] == d);
            } else {
                assert(r == r0 && c == c0);
                assert(all[all.len() - 1] == d);
            }
        }
    }
}

/// A device trace without differences is the host's, cell by cell.
pub proof fn lemma_equal_traces(gpu: Seq<u32>, rows: Seq<Row>, padded: int, r: int, c: int)
    requires
        rows.len() <= usize::MAX,
        0 <= r < rows.len(),
        0 <= c < 19,
        trace_diffs(gpu, rows, padded, 19 * rows.len()).len() == 0,
    ensures
        gpu[c * padded + r] == row_cells(rows[r])[c],
{
    lemma_trace_differences(gpu, rows, padded, 19 * rows.len());
}

/// The differences between a device's columns and the host's, likewise column by column.
pub proof fn lemma_column_differences(gpu: Seq<u32>, cpu: Seq<Vec<u32>>, padded: int, n: nat)
    requires
        padded > 0,
        n <= usize::MAX,
    ensures
        forall|i: int|
            0 <= i < column_diffs(gpu, cpu, padded, n).len() ==> {
                let d = #[trigger] column_diffs(gpu, cpu, padded, n)[i];
                &&& d.col * padded + d.row < n && d.row < padded
                &&& d.got == gpu[d.col * padded + d.row]
                &&& d.want == cpu[d.col as int]@[d.row as int]
                &&& d.got != d.want
            },
        forall|c: int, r: int|
            #![trigger cpu[c]@[r]]
            0 <= c && 0 <= r < padded && c * padded + r < n && gpu[c * padded + r] != cpu[c]@[r]
                ==> column_diffs(gpu, cpu, padded, n).contains(
                CellDiff {
                    row: r as usize,
                    col: c as usize,
                    got: gpu[c * padded + r],
                    want: cpu[c]@[r],
                },
            ),
    decreases n,
{
    if n > 0 {
        let m = (n - 1) as nat;
        lemma_column_differences(gpu, cpu, padded, m);
        let rest = column_diffs(gpu, cpu, padded, m);
        let all = column_diffs(gpu, cpu, padded, n);
        let (c0, r0) = (m as int / padded, m as int % padded);
        vstd::arithmetic::div_mod::lemma_fundamental_div_mod(m as int, padded);
        vstd::arithmetic::div_mod::lemma_mod_bound(m as int, padded);
        vstd::arithmetic::div_mod::lemma_div_pos_is_pos(m as int, padded);
        assert(c0 * padded + r0 == m) by (nonlinear_arith)
            requires
                m == padded * c0 + r0,
        ;
        assert(c0 <= m) by (nonlinear_arith)
            requires
                c0 * padded + r0 == m,
                padded >= 1,
                r0 >= 0,
                c0 >= 0,
        ;
        assert(0 <= c0 * padded) by (nonlinear_arith)
            requires
                c0 >= 0,
                padded > 0,
        ;
        let d0 = CellDiff {
            row: r0 as usize,
            col: c0 as usize,
            got: gpu[m as int],
            want: cpu[c0]@[r0],
        };
        assert(all == rest || all == rest.push(d0));
        assert forall|c: int, r: int|
            #![trigger cpu[c]@[r]]
            0 <= c && 0 <= r < padded && c * padded + r < n && gpu[c * padded + r] != cpu[c]@[r] implies all.contains(
            CellDiff {
                row: r as usize,
                col: c as usize,
                got: gpu[c * padded + r],
                want: cpu[c]@[r],
            },
        ) by {
            let d = CellDiff {
                row: r as usize,
                col: c as usize,
                got: gpu[c * padded + r],
                want: cpu[c]@[r],
            };
            if c * padded + r < m {
                assert(rest.contains(d));
                let i = choose|i: int| 0 <= i < rest.len() && rest[i] == d;
                assert(all[i] == d);
            } else {
                vstd::arithmetic::div_mod::lemma_fundamental_div_mod_converse(
                    m as int,
                    padded,
                    c,
                    r,
                );
                assert(all[all.len() - 1] == d);
            }
        }
    }
}

/// The count of differences between histograms is the number of places that differ.
pub proof fn lemma_histogram_differences(gpu: Seq<u32>, cpu: Seq<u32>, n: nat)
    ensures
        Set::new(|i: int| 0 <= i < n && gpu[i] != cpu[i]).finite(),
        hist_diffs(gpu, cpu, n) == Set::new(|i: int| 0 <= i < n && gpu[i] != cpu[i]).len(),
    decreases n,
{
    let all = Set::new(|i: int| 0 <= i < n && gpu[i] != cpu[i]);
    if n == 0 {
        assert(all =~= Set::<int>::empty());
    } else {
        let m = (n - 1) as nat;
        lemma_histogram_differences(gpu, cpu, m);
        let rest = Set::new(|i: int| 0 <= i < m && gpu[i] != cpu[i]);
        if gpu[n - 1] != cpu[n - 1] {
            assert(all =~= rest.insert(n - 1));
        } else {
            assert(all =~= rest);
        }
    }
}

/// A report shows the first differences, as many as it may.
pub proof fn lemma_first_differences(s: Seq<CellDiff>, n: int, i: int)
    requires
        n >= 0,
    ensures
        first_of(s, n).len() <= n,
        first_of(s, n).len() == s.len() || first_of(s, n).len() == n,
        first_of(s, n).len() <= s.len(),
        0 <= i < first_of(s, n).len() ==> first_of(s, n)[i] == s[i],
{
}

/// How many values are left after `d` levels of a scan: of each level one for 256.
pub open spec fn values_left(n: nat, d: nat) -> nat
    decreases d,
{
    if d == 0 {
        n
    } else {
        (values_left(n, (d - 1) as nat) + 255) / 256
    }
}

/// A scan goes down through the levels until 256 values or fewer are left, and adds the
/// offsets on the way up: the first steps are block scans of levels 0, 1 and so on, the
/// others add the offsets of the same levels but the last, from the last to the first.
pub proof fn lemma_scan_goes_down_and_up(level: u32, n: nat) -> (d: nat)
    requires
        n > 0,
        level + n <= u32::MAX,
    ensures
        d >= 1,
        values_left(n, (d - 1) as nat) <= 256,
        forall|i: nat| i + 1 < d ==> #[trigger] values_left(n, i) > 256,
        scan_steps(level, n).len() == 2 * d - 1,
        forall|i: nat|
            i < d ==> scan_steps(level, n)[i as int] == (Step::BlockScan {
                level: (level + i) as u32,
                n: #[trigger] values_left(n, i) as usize,
            }),
        forall|i: nat|
            i + 1 < d ==> scan_steps(level, n)[2 * d - 2 - i] == (Step::AddOffsets {
                level: (level + i) as u32,
                n: #[trigger] values_left(n, i) as usize,
            }),
    decreases n,
{
    let all = scan_steps(level, n);
    if n <= 256 {
        assert(values_left(n, 0) == n);
        1
    } else {
        let blocks = ((n + 255) / 256) as nat;
        assert(blocks_for(n as int) == blocks);
        let e = lemma_scan_goes_down_and_up((level + 1) as u32, blocks);
        let inner = scan_steps((level + 1) as u32, blocks);
        assert(all.len() == inner.len() + 2);
        assert forall|i: nat| #[trigger] values_left(n, i + 1) == values_left(blocks, i) by {
            lemma_values_left(n, i);
        }
        let d = e + 1;
        lemma_values_left(n, (e - 1) as nat);
        assert forall|i: nat| i + 1 < d implies #[trigger] values_left(n, i) > 256 by {
            if i > 0 {
                let j = (i - 1) as nat;
                assert(values_left(n, j + 1) == values_left(blocks, j));
            }
        }
        assert forall|i: nat| i < d implies all[i as int] == (Step::BlockScan {
            level: (level + i) as u32,
            n: #[trigger] values_left(n, i) as usize,
        }) by {
            if i > 0 {
                let j = (i - 1) as nat;
                assert(values_left(n, j + 1) == values_left(blocks, j));
                assert(all[i as int] == inner[j as int]);
                assert(level + 1 + j == level + i);
            }
        }
        assert forall|i: nat| i + 1 < d implies all[2 * d - 2 - i] == (Step::AddOffsets {
            level: (level + i) as u32,
            n: #[trigger] values_left(n, i) as usize,
        }) by {
            if i > 0 {
                let j = (i - 1) as nat;
                assert(values_left(n, j + 1) == values_left(blocks, j));
                assert(all[2 * d - 2 - i] == inner[2 * e - 2 - j]);
                assert(level + 1 + j == level + i);
            }
        }
        d
    }
}

proof fn lemma_values_left(n: nat, d: nat)
    ensures
        values_left(n, d + 1) == values_left(((n + 255) / 256) as nat, d),
    decreases d,
{
    if d > 0 {
        lemma_values_left(n, (d - 1) as nat);
    } else {
        assert(values_left(n, 0) == n);
    }
}

/// The interaction pipeline: five pairs of lookups, each generated and then finished; the
/// claimed sum and each row's share of it; and then the prefix sums of the four
/// coordinates of the last of the five columns, which stand behind sixteen others.
pub proof fn lemma_pipeline_steps(n: nat)
    requires
        0 < n <= 0x8000_0000,
    ensures
        ({
            let steps = interaction_steps_of(n);
            let c0 = prefix_sum_steps((16 * n) as u64, n);
            let c1 = prefix_sum_steps((17 * n) as u64, n);
            let c2 = prefix_sum_steps((18 * n) as u64, n);
            let c3 = prefix_sum_steps((19 * n) as u64, n);
            &&& forall|k: int|
                0 <= k < 5 ==> steps[2 * k] == (Step::ColGen { k: k as u32 }) && #[trigger] steps[2 * k
                    + 1] == (Step::FinalizeCol { k: k as u32 })
            &&& steps[10] == Step::CumsumReduce
            &&& steps[11] == Step::CumsumShift
            &&& steps.skip(12) == c0 + c1 + c2 + c3
        }),
{
    let steps = interaction_steps_of(n);
    reveal_with_fuel(pair_steps, 6);
    reveal_with_fuel(coord_steps, 5);
    let pairs = pair_steps(5);
    let coords = coord_steps(n, 4);
    assert(pairs.len() == 10);
    assert(steps =~= pairs + seq![Step::CumsumReduce, Step::CumsumShift] + coords);
    assert(steps.skip(12) =~= coords);
    let c0 = prefix_sum_steps((16 * n) as u64, n);
    let c1 = prefix_sum_steps((17 * n) as u64, n);
    let c2 = prefix_sum_steps((18 * n) as u64, n);
    let c3 = prefix_sum_steps((19 * n) as u64, n);
    assert(coords =~= c0 + c1 + c2 + c3);
    assert forall|k: int| 0 <= k < 5 implies steps[2 * k] == (Step::ColGen { k: k as u32 })
        && #[trigger] steps[2 * k + 1] == (Step::FinalizeCol { k: k as u32 }) by {
        assert(steps[2 * k] == pairs[2 * k] && steps[2 * k + 1] == pairs[2 * k + 1]);
        assert(k == 0 || k == 1 || k == 2 || k == 3 || k == 4);
    }
}

/// The prefix sums of a column: it is brought into the order of the domain, scanned, and
/// brought back.
pub proof fn lemma_prefix_sum_steps(offset: u64, n: nat)
    ensures
        ({
            let steps = prefix_sum_steps(offset, n);
            let m = scan_steps(0, n).len() as int;
            &&& steps.len() == m + 4
            &&& steps[0] == Step::BitReverse { offset }
            &&& steps[1] == Step::CircleToCoset { offset }
            &&& steps.subrange(2, 2 + m) == scan_steps(0, n)
            &&& steps[2 + m] == Step::CosetToCircle { offset }
            &&& steps[3 + m] == Step::BitReverse { offset }
        }),
{
    let steps = prefix_sum_steps(offset, n);
    let m = scan_steps(0, n).len() as int;
    assert(steps.subrange(2, 2 + m) =~= scan_steps(0, n));
}

/// The hash of a name: it begins at 2166136261, and each byte is mixed in by an exclusive
/// or, then a multiplication by 16777619, of which the low 32 bits are kept.
pub proof fn lemma_hash_of_longer_name(s: Seq<u8>, b: u8)
    ensures
        fnv(Seq::empty(), 0) == 2166136261,
        fnv(s.push(b), s.len() + 1) == ((fnv(s, s.len()) ^ (b as u32)) * 16777619) % 4294967296,
{
    lemma_hash_prefix(s, s.push(b), s.len());
}

proof fn lemma_hash_prefix(s: Seq<u8>, t: Seq<u8>, n: nat)
    requires
        n <= s.len(),
        n <= t.len(),
        forall|i: int| 0 <= i < n ==> s[i] == t[i],
    ensures
        fnv(s, n) == fnv(t, n),
    decreases n,
{
    if n > 0 {
        lemma_hash_prefix(s, t, (n - 1) as nat);
    }
}

/// The staged columns are those whose values were moved out, each once and in order.
pub proof fn lemma_staged_columns(cols: Seq<ColumnPlace>, n: nat)
    requires
        n <= cols.len(),
    ensures
        forall|i: int|
            0 <= i < staged_columns(cols, n).len() ==> {
                let c = #[trigger] staged_columns(cols, n)[i];
                0 <= c < n && cols[c].staged is Some
            },
        forall|i: int, j: int|
            0 <= i < j < staged_columns(cols, n).len() ==> #[trigger] staged_columns(cols, n)[i]
                < #[trigger] staged_columns(cols, n)[j],
        forall|c: int|
            0 <= c < n && (#[trigger] cols[c]).staged is Some ==> staged_columns(cols, n).contains(c),
    decreases n,
{
    if n > 0 {
        let m = (n - 1) as nat;
        lemma_staged_columns(cols, m);
        let rest = staged_columns(cols, m);
        let all = staged_columns(cols, n);
        assert forall|c: int| 0 <= c < n && (#[trigger] cols[c]).staged is Some implies all.contains(c) by {
            if c < m {
                assert(rest.contains(c));
                let i = choose|i: int| 0 <= i < rest.len() && rest[i] == c;
                assert(all[i] == c);
            } else {
                assert(all[all.len() - 1] == c);
            }
        }
    }
}

/// A report counts all differences and shows the first of them; one that counts none is
/// that of a device whose trace is the host's.
pub proof fn lemma_report_of_trace(
    report: &DiffReport,
    gpu: Seq<u32>,
    rows: Seq<Row>,
    padded: int,
    cap: int,
    r: int,
    c: int,
    i: int,
)
    requires
        rows.len() <= usize::MAX,
        cap >= 0,
        report.reports(trace_diffs(gpu, rows, padded, 19 * rows.len()), cap),
        0 <= r < rows.len(),
        0 <= c < 19,
    ensures
        report.mismatches == 0 ==> gpu[c * padded + r] == row_cells(rows[r])[c],
        report.samples@.len() <= report.mismatches && report.samples@.len() <= cap,
        report.samples@.len() == report.mismatches || report.samples@.len() == cap,
        0 <= i < report.samples@.len() ==> {
            let d = report.samples@[i];
            &&& d.row < rows.len() && d.col < 19 && d.got != d.want
            &&& d.got == gpu[d.col * padded + d.row]
            &&& d.want == row_cells(rows[d.row as int])[d.col as int]
        },
{
    let diffs = trace_diffs(gpu, rows, padded, 19 * rows.len());
    lemma_trace_differences(gpu, rows, padded, 19 * rows.len());
    lemma_first_differences(diffs, cap, i);
    if 0 <= i < report.samples@.len() {
        assert(report.samples@[i] == diffs[i]);
    }
    assert(19 * r + c < 19 * rows.len());
}

/// Where a tree's columns are read from. If all are brought back, each column whose values
/// were moved out is, and none is read from the host; else such columns are read from the
/// host, each at its address, and none is brought back.
pub proof fn lemma_tree_is_served(t: &TreeSupply, cols: Seq<ColumnPlace>, full: bool, c: int)
    requires
        t.serves(cols, full),
        0 <= c < cols.len(),
    ensures
        full ==> t.host is None && (cols[c].staged is Some <==> exists|i: int|
            0 <= i < t.rehydrate@.len() && #[trigger] t.rehydrate@[i] == c),
        full ==> t.rehydrate@.len() == t.n_staged,
        !full ==> t.rehydrate@.len() == 0,
        !full && cols[c].staged is Some ==> t.host is Some,
        t.host is Some ==> t.host->Some_0@.len() == cols.len() && t.host->Some_0@[c] == cols[c].staged,
        t.host is Some ==> t.n_staged > 0,
        cols[c].staged is Some ==> t.n_staged > 0,
{
    lemma_staged_columns(cols, cols.len());
    let staged = staged_columns(cols, cols.len());
    if cols[c].staged is Some {
        assert(staged.contains(c));
        let i = choose|i: int| 0 <= i < staged.len() && staged[i] == c;
        if full {
            assert(t.rehydrate@[i] == c);
        }
    } else if full {
        assert forall|i: int| 0 <= i < t.rehydrate@.len() implies #[trigger] t.rehydrate@[i] != c by {
            assert(t.rehydrate@[i] == staged[i]);
            assert(cols[staged[i]].staged is Some);
        }
    }
}

/// The main component is known by the letters `gate_air_main`.
pub proof fn lemma_name_of_main()
    ensures
        main_name() == seq![
            103u8,
            97u8,
            116u8,
            101u8,
            95u8,
            97u8,
            105u8,
            114u8,
            95u8,
            109u8,
            97u8,
            105u8,
            110u8,
        ],
{
    assert(main_name() =~= seq![
        103u8,
        97u8,
        116u8,
        101u8,
        95u8,
        97u8,
        105u8,
        114u8,
        95u8,
        109u8,
        97u8,
        105u8,
        110u8,
    ]);
}

/// Four words stand for a field element: its coordinates in order.
pub proof fn lemma_words_of_element(w: [u32; 4], x: Ext)
    ensures
        stands_for(w, x) <==> w@[0] == x.a && w@[1] == x.b && w@[2] == x.c && w@[3] == x.d,
{
}

/// Two columns compare as equal exactly if they are; else either the lengths differ, or the
/// first row is named in which the values do, with both of them.
pub proof fn lemma_comparison_says(cpu: Seq<QM31>, gpu: Seq<QM31>, d: AccumulatorDiff, i: int)
    requires
        compares(cpu, gpu, d),
        cpu.len() <= usize::MAX,
        gpu.len() <= usize::MAX,
    ensures
        d is Equal <==> cpu == gpu,
        d is LenMismatch <==> cpu.len() != gpu.len(),
        d matches AccumulatorDiff::Equal { rows } ==> rows == cpu.len(),
        d matches AccumulatorDiff::LenMismatch { cpu_rows, gpu_rows } ==> cpu_rows == cpu.len() && gpu_rows
            == gpu.len(),
        d matches AccumulatorDiff::FirstDiff { row, cpu: c, gpu: g } ==> {
            &&& c == cpu[row as int] && g == gpu[row as int] && c != g
            &&& 0 <= i < row ==> cpu[i] == gpu[i]
        },
{
    if let AccumulatorDiff::FirstDiff { row, cpu: c, gpu: g } = d {
        assert(cpu[row as int] != gpu[row as int]);
    }
}

/// A trace passes exactly if nothing in it differs, and one that does not pass is reported
/// with what differs.
pub proof fn lemma_verdicts(columns: usize, histogram: usize, gpu: Seq<u32>, cpu: Seq<u32>)
    requires
        gpu.len() == 4 && cpu.len() == 4,
    ensures
        trace_said(columns, histogram) is Ok <==> columns + histogram == 0,
        trace_said(columns, histogram) matches Err(e) ==> {
            e matches IdentityError::Trace { columns: c, histogram: h } && c == columns && h == histogram
        },
        interaction_said(columns, gpu, cpu) is Ok <==> columns == 0 && gpu[0] == cpu[0] && gpu[1] == cpu[1]
            && gpu[2] == cpu[2] && gpu[3] == cpu[3],
        interaction_said(columns, gpu, cpu) matches Err(e) ==> {
            e matches IdentityError::Interaction { columns: c, sum_ok } && c == columns && (sum_ok
                <==> gpu[0] == cpu[0] && gpu[1] == cpu[1] && gpu[2] == cpu[2] && gpu[3] == cpu[3])
        },
{
    if gpu[0] == cpu[0] && gpu[1] == cpu[1] && gpu[2] == cpu[2] && gpu[3] == cpu[3] {
        assert(gpu =~= cpu);
    }
}

/// The shape that is known as the main component's is the one that its constraints, its
/// lookups, two to a group of columns, and its row give, and there is no other.
pub proof fn lemma_main_shape(
    enabler: Ext,
    shot: Ext,
    pc: Ext,
    slot: Ext,
    t: Seq<Ext>,
    row: Row,
    shape: (int, int, int, int),
)
    ensures
        ({
            let checks = gate_checks(enabler, pc, t).len();
            let entries = gate_entries(enabler, shot, pc, slot, t).len();
            is_main_shape(shape.0, shape.1, shape.2, shape.3) <==> {
                &&& shape.0 == checks + entries / 2
                &&& shape.1 == row_cells(row).len()
                &&& shape.2 == interaction_width(entries)
                &&& shape.3 == 4
            }
        }),
{
}

} // verus!
