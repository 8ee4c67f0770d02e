//! Running the trace and interaction generators on a device: what is uploaded,
//! which kernels run on how many threads, and how their output is compared with
//! what the host computes.
use vstd::arithmetic::power2::pow2;
use vstd::prelude::*;

use crate::circuit::{byte_limbs, state_to_limbs, Gate, TestCase, N_LIMBS, STATE_BYTES};
use crate::components::{cell_at, row_cells, TRACE_COLUMNS};
use crate::hexes::{hex_bytes, hex_decode, is_hex};
use crate::qubit_memory::Row;
use crate::qubit_memory_lookups::{N_LOGUP_COLS, RC_LOG};
use crate::run::MAX_BASE_GPUS;
use crate::sizes::power_of_two;
use crate::whole_state_lookups::BadText;

verus! {

/// Columns of the interaction trace: four coordinates per pair of lookups.
pub const N_INTERACTION_COLS: usize = 20;

/// Threads of a block.
pub const BLOCK: usize = 256;

/// Blocks of a reduction at most.
pub const MAX_REDUCE_BLOCKS: u32 = 1024;

/// How many threads a kernel runs on.
#[derive(Clone, Copy, Debug, PartialEq, Eq, Structural)]
pub struct LaunchConfig {
    pub grid: u32,
    pub block: u32,
    pub shared_mem_bytes: u32,
}

/// As few blocks as hold `n` threads.
pub open spec fn blocks_for(n: int) -> int {
    (n + 255) / 256
}

fn block_count(n: usize) -> (r: usize)
    ensures
        r == blocks_for(n as int),
{
    if n % BLOCK == 0 {
        n / BLOCK
    } else {
        n / BLOCK + 1
    }
}

/// One thread per element.
pub fn elementwise_config(n: usize) -> (r: LaunchConfig)
    requires
        n <= u32::MAX,
    ensures
        r.block == 256,
        r.grid == blocks_for(n as int),
        r.shared_mem_bytes == 0,
        (r.grid - 1) * r.block < n <= r.grid * r.block,
{
    LaunchConfig { grid: block_count(n) as u32, block: 256, shared_mem_bytes: 0 }
}

/// A reduction of four coordinates: at most 1024 blocks, each of which shares one
/// word per thread and coordinate.
pub fn reduce_config(n: usize) -> (r: LaunchConfig)
    requires
        n <= u32::MAX,
    ensures
        r.block == 256,
        r.grid == (if blocks_for(n as int) < 1024 {
            blocks_for(n as int)
        } else {
            1024
        }),
        r.shared_mem_bytes == 4096,
{
    let grid: u32 = block_count(n) as u32;
    LaunchConfig {
        grid: if grid < MAX_REDUCE_BLOCKS {
            grid
        } else {
            MAX_REDUCE_BLOCKS
        },
        block: 256,
        shared_mem_bytes: 4096,
    }
}

/// One block of a scan shares one word per thread.
pub fn scan_config(n: usize) -> (r: LaunchConfig)
    requires
        n <= u32::MAX,
    ensures
        r.block == 256,
        r.grid == blocks_for(n as int),
        r.shared_mem_bytes == 1024,
{
    LaunchConfig { grid: block_count(n) as u32, block: 256, shared_mem_bytes: 1024 }
}

/// The words that the trace generator's buffers hold, and its launch: one thread
/// per run of the circuit.
#[derive(Clone, Copy, Debug, PartialEq, Eq, Structural)]
pub struct TraceLaunch {
    /// The states between runs.
    pub rep_words: usize,
    /// Nine words per gate on the previous accesses to its qubits.
    pub slot_words: usize,
    pub column_words: usize,
    /// One counter per value of the range table.
    pub histogram_words: usize,
    /// One thread per shot fills the states between runs.
    pub states: LaunchConfig,
    pub trace: LaunchConfig,
}

/// Sizes the trace generator for `n_shots` shots of `k` runs each.
pub fn trace_launch(n_shots: usize, k: usize, n_gates: usize, padded_rows: usize) -> (r: TraceLaunch)
    requires
        n_shots <= u32::MAX,
        n_shots * k <= u32::MAX,
        n_shots * k * 32 <= usize::MAX,
        n_gates * 9 <= usize::MAX,
        padded_rows * 19 <= usize::MAX,
    ensures
        r.rep_words == n_shots * k * 32,
        r.slot_words == n_gates * 9,
        r.column_words == padded_rows * 19,
        r.histogram_words == pow2(RC_LOG as nat),
        r.states.block == 256 && r.states.grid == blocks_for(n_shots as int),
        r.states.shared_mem_bytes == 0 && r.trace.shared_mem_bytes == 0,
        r.trace.block == 256 && r.trace.grid == blocks_for(n_shots * k),
{
    TraceLaunch {
        rep_words: n_shots * k * N_LIMBS,
        slot_words: n_gates * 9,
        column_words: padded_rows * TRACE_COLUMNS,
        histogram_words: power_of_two(RC_LOG),
        states: elementwise_config(n_shots),
        trace: elementwise_config(n_shots * k),
    }
}

/// A step of the interaction pipeline.
#[derive(Clone, Copy, Debug, PartialEq, Eq, Structural)]
pub enum Step {
    /// The numerators and denominators of pair `k` of all rows.
    ColGen { k: u32 },
    /// Their quotients, added to the previous pair's.
    FinalizeCol { k: u32 },
    /// The sum of the last column: the claimed sum.
    CumsumReduce,
    /// Takes each row's share of the claimed sum off the last column.
    CumsumShift,
    /// The column at `offset` into bit-reversed order, or back.
    BitReverse { offset: u64 },
    CircleToCoset { offset: u64 },
    /// Prefix sums within blocks of the `n` values of a scan's level.
    BlockScan { level: u32, n: usize },
    /// The sums of the blocks before it, added to every block of a level.
    AddOffsets { level: u32, n: usize },
    CosetToCircle { offset: u64 },
}

/// A scan of `n` values: within blocks, then, if there is more than one block,
/// over the blocks' sums in the same way, and those added to the blocks.
pub open spec fn scan_steps(level: u32, n: nat) -> Seq<Step>
    decreases n,
{
    let blocks = blocks_for(n as int);
    let here = seq![Step::BlockScan { level, n: n as usize }];
    if n <= 256 {
        here
    } else {
        here + scan_steps((level + 1) as u32, blocks as nat) + seq![
            Step::AddOffsets { level, n: n as usize },
        ]
    }
}

/// The prefix sums of one column, in the order in which the domain is walked.
pub open spec fn prefix_sum_steps(offset: u64, n: nat) -> Seq<Step> {
    seq![Step::BitReverse { offset }, Step::CircleToCoset { offset }] + scan_steps(0, n) + seq![
        Step::CosetToCircle { offset },
        Step::BitReverse { offset },
    ]
}

/// The pairs of lookups, one after the other: each adds to the previous one.
pub open spec fn pair_steps(k: nat) -> Seq<Step>
    decreases k,
{
    if k == 0 {
        Seq::empty()
    } else {
        pair_steps((k - 1) as nat) + seq![
            Step::ColGen { k: (k - 1) as u32 },
            Step::FinalizeCol { k: (k - 1) as u32 },
        ]
    }
}

/// The prefix sums of the first `j` coordinates of the last column.
pub open spec fn coord_steps(n: nat, j: nat) -> Seq<Step>
    decreases j,
{
    if j == 0 {
        Seq::empty()
    } else {
        coord_steps(n, (j - 1) as nat) + prefix_sum_steps(((16 + (j - 1)) * n) as u64, n)
    }
}

/// The interaction pipeline over `n` rows.
pub open spec fn interaction_steps_of(n: nat) -> Seq<Step> {
    pair_steps(N_LOGUP_COLS as nat) + seq![Step::CumsumReduce, Step::CumsumShift] + coord_steps(n, 4)
}

fn push_scan(steps: &mut Vec<Step>, level: u32, n: usize)
    requires
        0 < n <= u32::MAX,
        level + n <= u32::MAX,
    ensures
        final(steps)@ == old(steps)@ + scan_steps(level, n as nat),
    decreases n,
{
    steps.push(Step::BlockScan { level, n });
    if n > 256 {
        let blocks: usize = block_count(n);
        push_scan(steps, level + 1, blocks);
        steps.push(Step::AddOffsets { level, n });
        proof {
            let inner = scan_steps((level + 1) as u32, blocks as nat);
            assert(steps@ =~= (old(steps)@.push(Step::BlockScan { level, n }) + inner).push(
                Step::AddOffsets { level, n },
            ));
            assert(steps@ =~= old(steps)@ + (seq![Step::BlockScan { level, n }] + inner + seq![
                Step::AddOffsets { level, n },
            ]));
        }
    } else {
        assert(steps@ =~= old(steps)@ + seq![Step::BlockScan { level, n }]);
    }
}

fn push_prefix_sum(steps: &mut Vec<Step>, offset: u64, n: usize)
    requires
        0 < n <= u32::MAX,
    ensures
        final(steps)@ == old(steps)@ + prefix_sum_steps(offset, n as nat),
{
    steps.push(Step::BitReverse { offset });
    steps.push(Step::CircleToCoset { offset });
    push_scan(steps, 0, n);
    steps.push(Step::CosetToCircle { offset });
    steps.push(Step::BitReverse { offset });
    assert(steps@ =~= old(steps)@ + prefix_sum_steps(offset, n as nat));
}

/// The steps that generate the interaction columns of `padded_rows` rows. What a
/// kernel computes in its step is the device's own and is not stated; the columns
/// that come back are held against the host's.
pub fn interaction_steps(padded_rows: usize) -> (r: Vec<Step>)
    requires
        exists|log: nat| log <= 31 && padded_rows == #[trigger] pow2(log),
        0 < padded_rows <= 0x8000_0000,
    ensures
        r@ == interaction_steps_of(padded_rows as nat),
{
    let n: u64 = padded_rows as u64;
    let mut steps: Vec<Step> = Vec::new();
    let mut k: u32 = 0;
    while k < 5
        invariant
            k <= 5,
            steps@ == pair_steps(k as nat),
        decreases 5 - k,
    {
        steps.push(Step::ColGen { k });
        steps.push(Step::FinalizeCol { k });
        assert(steps@ =~= pair_steps(k as nat) + seq![Step::ColGen { k }, Step::FinalizeCol { k }]);
        k += 1;
    }
    steps.push(Step::CumsumReduce);
    steps.push(Step::CumsumShift);
    let ghost head = pair_steps(5) + seq![Step::CumsumReduce, Step::CumsumShift];
    assert(steps@ =~= head + coord_steps(padded_rows as nat, 0));
    let mut j: u64 = 0;
    while j < 4
        invariant
            j <= 4,
            n == padded_rows,
            0 < padded_rows <= 0x8000_0000,
            steps@ == head + coord_steps(padded_rows as nat, j as nat),
        decreases 4 - j,
    {
        assert((16 + j) * n <= 20 * 0x8000_0000) by (nonlinear_arith)
            requires
                j < 4,
                n <= 0x8000_0000,
        ;
        push_prefix_sum(&mut steps, (16 + j) * n, padded_rows);
        proof {
            assert(steps@ =~= head + (coord_steps(padded_rows as nat, j as nat) + prefix_sum_steps(
                ((16 + j) * n) as u64,
                padded_rows as nat,
            )));
        }
        j += 1;
    }
    steps
}

/// A gate as the device takes it.
pub open spec fn gate_words(g: Gate) -> Seq<u32> {
    seq![g.opcode as u32, g.target as u32, g.ctrl_a as u32, g.ctrl_b as u32]
}

pub open spec fn flat_gates(gates: Seq<Gate>, n: nat) -> Seq<u32>
    decreases n,
{
    if n == 0 {
        Seq::empty()
    } else {
        flat_gates(gates, (n - 1) as nat) + gate_words(gates[n - 1])
    }
}

/// The gates as the device takes them: four words each.
pub fn gates_flat(gates: &[Gate]) -> (r: Vec<u32>)
    ensures
        r@ == flat_gates(gates@, gates@.len()),
        r@.len() == 4 * gates@.len(),
{
    let mut r: Vec<u32> = Vec::new();
    let mut i: usize = 0;
    while i < gates.len()
        invariant
            i <= gates@.len(),
            r@ == flat_gates(gates@, i as nat),
            r@.len() == 4 * i,
        decreases gates.len() - i,
    {
        let g: Gate = gates[i];
        r.push(g.opcode as u32);
        r.push(g.target as u32);
        r.push(g.ctrl_a as u32);
        r.push(g.ctrl_b as u32);
        assert(r@ =~= flat_gates(gates@, i as nat) + gate_words(g));
        i += 1;
    }
    r
}

/// The limbs of the first states of `n` shots, one after the other.
pub open spec fn flat_states(cases: Seq<TestCase>, n: nat) -> Seq<u32>
    decreases n,
{
    if n == 0 {
        Seq::empty()
    } else {
        flat_states(cases, (n - 1) as nat) + byte_limbs(hex_bytes(cases[n - 1].x_hex@))
    }
}

/// The first states of all shots as the device takes them; fails at the first
/// one that is not hexadecimal.
pub fn x_states(cases: &[TestCase]) -> (r: Result<Vec<u32>, BadText>)
    requires
        forall|s: int|
            0 <= s < cases@.len() && is_hex((#[trigger] cases@[s]).x_hex@) ==> hex_bytes(
                cases@[s].x_hex@,
            ).len() == STATE_BYTES,
    ensures
        r is Ok <==> forall|s: int| 0 <= s < cases@.len() ==> is_hex((#[trigger] cases@[s]).x_hex@),
        r matches Ok(v) ==> v@ == flat_states(cases@, cases@.len()),
        r matches Err(e) ==> e.shot_id < cases@.len() && !is_hex(cases@[e.shot_id as int].x_hex@)
            && forall|s: int| 0 <= s < e.shot_id ==> is_hex((#[trigger] cases@[s]).x_hex@),
{
    let mut r: Vec<u32> = Vec::new();
    let mut s: usize = 0;
    while s < cases.len()
        invariant
            s <= cases@.len(),
            forall|s: int|
                0 <= s < cases@.len() && is_hex((#[trigger] cases@[s]).x_hex@) ==> hex_bytes(
                    cases@[s].x_hex@,
                ).len() == STATE_BYTES,
            forall|j: int| 0 <= j < s ==> is_hex((#[trigger] cases@[j]).x_hex@),
            r@ == flat_states(cases@, s as nat),
        decreases cases.len() - s,
    {
        let bytes = match hex_decode(cases[s].x_hex.as_str()) {
            Ok(b) => b,
            Err(_) => {
                assert(!is_hex(cases@[s as int].x_hex@));
                return Err(BadText { shot_id: s });
            },
        };
        assert(is_hex(cases@[s as int].x_hex@));
        let limbs: [u32; N_LIMBS] = state_to_limbs(bytes.as_slice());
        let ghost before = r@;
        let mut j: usize = 0;
        while j < N_LIMBS
            invariant
                j <= N_LIMBS,
                r@ == before + limbs@.take(j as int),
            decreases N_LIMBS - j,
        {
            r.push(limbs[j]);
            assert(before + limbs@.take(j + 1) =~= (before + limbs@.take(j as int)).push(
                limbs@[j as int],
            ));
            j += 1;
        }
        assert(limbs@.take(32) =~= limbs@);
        s += 1;
    }
    Ok(r)
}

/// A cell in which device and host disagree.
#[derive(Clone, Copy, Debug, PartialEq, Eq, Structural)]
pub struct CellDiff {
    pub row: usize,
    pub col: usize,
    pub got: u32,
    pub want: u32,
}

/// The number of differences and the first few of them.
pub struct DiffReport {
    pub mismatches: usize,
    pub samples: Vec<CellDiff>,
}

pub open spec fn first_of(s: Seq<CellDiff>, n: int) -> Seq<CellDiff> {
    if s.len() < n {
        s
    } else {
        s.take(n)
    }
}

impl DiffReport {
    /// The report of the given differences, with at most `cap` samples.
    pub open spec fn reports(&self, diffs: Seq<CellDiff>, cap: int) -> bool {
        &&& self.mismatches == diffs.len()
        &&& self.samples@ == first_of(diffs, cap)
    }

    fn note(&mut self, d: CellDiff, cap: usize, Ghost(diffs): Ghost<Seq<CellDiff>>)
        requires
            old(self).reports(diffs, cap as int),
            diffs.len() < usize::MAX,
        ensures
            final(self).reports(diffs.push(d), cap as int),
    {
        self.mismatches = self.mismatches + 1;
        if self.samples.len() < cap {
            self.samples.push(d);
            assert(diffs.len() < cap);
            assert(self.samples@ =~= first_of(diffs.push(d), cap as int));
        } else {
            assert(first_of(diffs.push(d), cap as int) =~= first_of(diffs, cap as int));
        }
    }
}

/// The differences in the first `n` cells, taken row by row, between a device
/// trace (column after column) and the host's rows.
pub open spec fn trace_diffs(gpu: Seq<u32>, rows: Seq<Row>, padded: int, n: nat) -> Seq<CellDiff>
    decreases n,
{
    if n == 0 {
        Seq::empty()
    } else {
        let t = n - 1;
        let (r, c) = (t / 19, t % 19);
        let (got, want) = (gpu[c * padded + r], row_cells(rows[r])[c]);
        let rest = trace_diffs(gpu, rows, padded, (n - 1) as nat);
        if got != want {
            rest.push(CellDiff { row: r as usize, col: c as usize, got, want })
        } else {
            rest
        }
    }
}

proof fn lemma_trace_diffs_bound(gpu: Seq<u32>, rows: Seq<Row>, padded: int, n: nat)
    ensures
        trace_diffs(gpu, rows, padded, n).len() <= n,
    decreases n,
{
    if n > 0 {
        lemma_trace_diffs_bound(gpu, rows, padded, (n - 1) as nat);
    }
}

/// Compares the device's main trace with the host's rows, cell by cell.
pub fn compare_trace(gpu: &[u32], rows: &[Row], padded_rows: usize) -> (r: DiffReport)
    requires
        gpu@.len() == TRACE_COLUMNS * padded_rows,
        rows@.len() <= padded_rows,
    ensures
        r.reports(trace_diffs(gpu@, rows@, padded_rows as int, 19 * rows@.len()), 10),
{
    let gpu_len: usize = gpu.len();
    let mut report = DiffReport { mismatches: 0, samples: Vec::new() };
    let mut r: usize = 0;
    assert(report.samples@ =~= first_of(Seq::empty(), 10));
    while r < rows.len()
        invariant
            r <= rows@.len() <= padded_rows,
            gpu@.len() == TRACE_COLUMNS * padded_rows,
            gpu@.len() == gpu_len,
            report.reports(trace_diffs(gpu@, rows@, padded_rows as int, (19 * r) as nat), 10),
        decreases rows.len() - r,
    {
        let mut c: usize = 0;
        while c < TRACE_COLUMNS
            invariant
                c <= TRACE_COLUMNS,
                r < rows@.len() <= padded_rows,
                gpu@.len() == TRACE_COLUMNS * padded_rows,
                gpu@.len() == gpu_len,
                report.reports(
                    trace_diffs(gpu@, rows@, padded_rows as int, (19 * r + c) as nat),
                    10,
                ),
            decreases TRACE_COLUMNS - c,
        {
            let ghost t = 19 * r + c;
            proof {
                assert(c * padded_rows + r < 19 * padded_rows) by (nonlinear_arith)
                    requires
                        c < 19,
                        r < padded_rows,
                ;
                assert(c * padded_rows <= 19 * padded_rows) by (nonlinear_arith)
                    requires
                        c < 19,
                ;
                assert(t / 19 == r && t % 19 == c);
                lemma_trace_diffs_bound(gpu@, rows@, padded_rows as int, t as nat);
            }
            let got: u32 = gpu[c * padded_rows + r];
            let want: u32 = cell_at(&rows[r], c);
            if got != want {
                report.note(
                    CellDiff { row: r, col: c, got, want },
                    10,
                    Ghost(trace_diffs(gpu@, rows@, padded_rows as int, t as nat)),
                );
            }
            c += 1;
        }
        r += 1;
    }
    report
}

/// The differences in the first `n` cells, taken column by column, between a
/// device's columns (one after the other) and the host's.
pub open spec fn column_diffs(gpu: Seq<u32>, cpu: Seq<Vec<u32>>, padded: int, n: nat) -> Seq<CellDiff>
    decreases n,
{
    if n == 0 {
        Seq::empty()
    } else {
        let t = n - 1;
        let (c, r) = (t / padded, t % padded);
        let (got, want) = (gpu[t], cpu[c]@[r]);
        let rest = column_diffs(gpu, cpu, padded, (n - 1) as nat);
        if got != want {
            rest.push(CellDiff { row: r as usize, col: c as usize, got, want })
        } else {
            rest
        }
    }
}

proof fn lemma_column_diffs_bound(gpu: Seq<u32>, cpu: Seq<Vec<u32>>, padded: int, n: nat)
    ensures
        column_diffs(gpu, cpu, padded, n).len() <= n,
    decreases n,
{
    if n > 0 {
        lemma_column_diffs_bound(gpu, cpu, padded, (n - 1) as nat);
    }
}

/// Compares the device's columns with the host's over all rows.
pub fn compare_columns(gpu: &[u32], cpu: &[Vec<u32>], padded_rows: usize) -> (r: DiffReport)
    requires
        padded_rows > 0,
        gpu@.len() == cpu@.len() * padded_rows,
        forall|c: int| 0 <= c < cpu@.len() ==> (#[trigger] cpu@[c])@.len() == padded_rows,
    ensures
        r.reports(column_diffs(gpu@, cpu@, padded_rows as int, gpu@.len()), 10),
{
    let gpu_len: usize = gpu.len();
    let mut report = DiffReport { mismatches: 0, samples: Vec::new() };
    assert(report.samples@ =~= first_of(Seq::empty(), 10));
    let mut c: usize = 0;
    let mut t: usize = 0;
    while c < cpu.len()
        invariant
            c <= cpu@.len(),
            padded_rows > 0,
            t == c * padded_rows,
            gpu@.len() == cpu@.len() * padded_rows,
            gpu@.len() == gpu_len,
            forall|c: int| 0 <= c < cpu@.len() ==> (#[trigger] cpu@[c])@.len() == padded_rows,
            report.reports(column_diffs(gpu@, cpu@, padded_rows as int, t as nat), 10),
        decreases cpu.len() - c,
    {
        let mut r: usize = 0;
        while r < padded_rows
            invariant
                r <= padded_rows,
                c < cpu@.len(),
                padded_rows > 0,
                t == c * padded_rows + r,
                gpu@.len() == cpu@.len() * padded_rows,
                gpu@.len() == gpu_len,
                forall|c: int| 0 <= c < cpu@.len() ==> (#[trigger] cpu@[c])@.len() == padded_rows,
                report.reports(column_diffs(gpu@, cpu@, padded_rows as int, t as nat), 10),
            decreases padded_rows - r,
        {
            proof {
                assert(t < gpu@.len()) by (nonlinear_arith)
                    requires
                        t == c * padded_rows + r,
                        r < padded_rows,
                        c < cpu@.len(),
                        gpu@.len() == cpu@.len() * padded_rows,
                ;
                vstd::arithmetic::div_mod::lemma_fundamental_div_mod_converse(
                    t as int,
                    padded_rows as int,
                    c as int,
                    r as int,
                );
                lemma_column_diffs_bound(gpu@, cpu@, padded_rows as int, t as nat);
            }
            let got: u32 = gpu[t];
            let want: u32 = cpu[c][r];
            if got != want {
                report.note(
                    CellDiff { row: r, col: c, got, want },
                    10,
                    Ghost(column_diffs(gpu@, cpu@, padded_rows as int, t as nat)),
                );
            }
            r += 1;
            t += 1;
        }
        c += 1;
        assert(t == c * padded_rows) by (nonlinear_arith)
            requires
                t == (c - 1) * padded_rows + padded_rows,
        ;
    }
    report
}

/// The places below `n` in which two histograms differ.
pub open spec fn hist_diffs(gpu: Seq<u32>, cpu: Seq<u32>, n: nat) -> nat
    decreases n,
{
    if n == 0 {
        0
    } else {
        hist_diffs(gpu, cpu, (n - 1) as nat) + (if gpu[n - 1] != cpu[n - 1] {
            1nat
        } else {
            0
        })
    }
}

proof fn lemma_hist_diffs_bound(gpu: Seq<u32>, cpu: Seq<u32>, n: nat)
    ensures
        hist_diffs(gpu, cpu, n) <= n,
    decreases n,
{
    if n > 0 {
        lemma_hist_diffs_bound(gpu, cpu, (n - 1) as nat);
    }
}

/// Counts the places in which the device's histogram differs from the host's.
pub fn compare_histogram(gpu: &[u32], cpu: &[u32]) -> (r: usize)
    requires
        cpu@.len() <= gpu@.len(),
    ensures
        r == hist_diffs(gpu@, cpu@, cpu@.len()),
{
    let mut n: usize = 0;
    let mut i: usize = 0;
    while i < cpu.len()
        invariant
            i <= cpu@.len() <= gpu@.len(),
            n == hist_diffs(gpu@, cpu@, i as nat),
            n <= i,
        decreases cpu.len() - i,
    {
        if gpu[i] != cpu[i] {
            n += 1;
        }
        i += 1;
    }
    n
}

/// A device whose output is not the host's.
#[derive(Clone, Copy, Debug, PartialEq, Eq, Structural)]
pub enum IdentityError {
    Trace { columns: usize, histogram: usize },
    Interaction { columns: usize, sum_ok: bool },
}

/// What is said of a main trace of which `columns` cells and `histogram` counts differ.
pub open spec fn trace_said(columns: usize, histogram: usize) -> Result<(), IdentityError> {
    if columns == 0 && histogram == 0 {
        Ok(())
    } else {
        Err(IdentityError::Trace { columns, histogram })
    }
}

/// What is said of an interaction trace of which `columns` cells differ.
pub open spec fn interaction_said(
    columns: usize,
    gpu_sum: Seq<u32>,
    cpu_sum: Seq<u32>,
) -> Result<(), IdentityError> {
    if columns == 0 && gpu_sum == cpu_sum {
        Ok(())
    } else {
        Err(IdentityError::Interaction { columns, sum_ok: gpu_sum == cpu_sum })
    }
}

/// The device's main trace passes if no cell and no count differs.
pub fn trace_verdict(columns: usize, histogram: usize) -> (r: Result<(), IdentityError>)
    ensures
        r == (if columns == 0 && histogram == 0 {
            Ok::<(), IdentityError>(())
        } else {
            Err(IdentityError::Trace { columns, histogram })
        }),
        r == trace_said(columns, histogram),
{
    if columns == 0 && histogram == 0 {
        Ok(())
    } else {
        Err(IdentityError::Trace { columns, histogram })
    }
}

/// The device's interaction trace passes if no cell differs and the claimed sums
/// are equal.
pub fn interaction_verdict(columns: usize, gpu_sum: [u32; 4], cpu_sum: [u32; 4]) -> (r: Result<
    (),
    IdentityError,
>)
    ensures
        r == (if columns == 0 && gpu_sum@ == cpu_sum@ {
            Ok::<(), IdentityError>(())
        } else {
            Err(IdentityError::Interaction { columns, sum_ok: gpu_sum@ == cpu_sum@ })
        }),
        r == interaction_said(columns, gpu_sum@, cpu_sum@),
{
    let sum_ok: bool = gpu_sum[0] == cpu_sum[0] && gpu_sum[1] == cpu_sum[1] && gpu_sum[2]
        == cpu_sum[2] && gpu_sum[3] == cpu_sum[3];
    assert(sum_ok == (gpu_sum@ =~= cpu_sum@));
    if columns == 0 && sum_ok {
        Ok(())
    } else {
        Err(IdentityError::Interaction { columns, sum_ok })
    }
}

/// Where a device's copy of the shared tables is kept: the first device uses the
/// tables that were built at the start, each other device a slot of its own.
pub fn device_slot(ordinal: usize) -> (r: Option<usize>)
    requires
        ordinal < MAX_BASE_GPUS,
    ensures
        r == (if ordinal == 0 {
            None::<usize>
        } else {
            Some(ordinal)
        }),
{
    if ordinal == 0 {
        None
    } else {
        Some(ordinal)
    }
}

} // verus!
