//! One shard: its shape, its columns, and the sums that it claims.
use vstd::arithmetic::power2::{lemma2_to64, lemma_pow2_strictly_increases, pow2};
use vstd::prelude::*;

use crate::circuit::{byte_limbs, state_to_limbs, Gate, TestCase, N_QUBITS, STATE_BYTES};
use crate::circuit_statement::{limbs_of_cases, ShotLimbs};
use crate::components::{generate_main_trace, row_cells, TRACE_COLUMNS};
use crate::field::Ext;
use crate::hexes::{hex_bytes, hex_decode};
use crate::leaf::leaf_pcs_config;
use crate::logup::{Fraction, Relation};
use crate::preprocessed::{
    column_listing, generate_enabler_preprocessed, generate_pc_in_prog_preprocessed,
    generate_pc_preprocessed, generate_prog_slot_preprocessed, generate_qubitmem_preprocessed,
    generate_rc_preprocessed, generate_shot_id_preprocessed, in_order, preprocessed_columns_sorted,
    tree0_max_log_size, ColumnId, SizedColumn, N_PREPROCESSED_COLS,
};
use crate::program::{build_program_table, program_log_size, ProgramTable};
use crate::qubit_memory::{
    all_runnable, build_rows, is_first_bad, padding_row, BoundaryTable, Row, RowsError,
};
use crate::qubit_memory_balance::{
    honest_trace, lemma_built_rows_honest, lemma_honest_rows_in_range,
    lemma_padding_claims_nothing, lemma_shard_claims_net,
};
use crate::qubit_memory_lookups::{
    boundary_claim, boundary_defined, boundary_dens_nonzero, boundary_fraction,
    boundary_public_value, build_rc_table, counts_rc, gen_boundary_interaction,
    gen_main_interaction, gen_program_interaction, gen_rc_interaction, main_defined, main_value,
    pair_den_nonzero, pair_fraction, program_defined, program_public_value, program_value,
    rc_defined, rc_seq, rc_value, rel_ok, row_small, slot_dens_nonzero, slot_fraction, RcTable,
    ShardClaims, N_LOGUP_COLS,
};
use crate::recursion_consts::{blowup_supported, pcs_of, PcsConfig};
use crate::sizes::{is_padded_log, lemma_padded_log_unique, padded_size, LOG_MIN_ROWS, LOG_N_LANES};
use crate::whole_state::{end_text, error_of, is_first_refused, shot_outcome};
use crate::whole_state_lookups::{case_is_hex, BadText};

verus! {

/// The blowup of a shard's proof, as an exponent.
pub const BASE_LOG_BLOWUP: u32 = 1;

/// The sizes of a shard's tables, and the parameters of its commitment.
#[derive(Clone, Copy, Debug, PartialEq, Eq, Structural)]
pub struct ShardShape {
    pub n_rows: usize,
    pub padded_rows: usize,
    pub log_n_rows: u32,
    pub program_log_size: u32,
    pub qubitmem_log_size: u32,
    pub rc_log: u32,
    pub max_log_size: u32,
    pub config: PcsConfig,
}

pub open spec fn max_of(a: u32, b: u32) -> u32 {
    if a < b {
        b
    } else {
        a
    }
}

impl ShardShape {
    /// The shape of `n_shots` shots of `k` runs of `n_gates` gates: one row per
    /// executed gate, one per gate of the program, and one per qubit of each
    /// shot, each padded to a power of two.
    pub open spec fn fits(&self, n_shots: nat, n_gates: nat, k: nat, log_blowup: u32) -> bool {
        &&& self.n_rows == n_shots * (k * n_gates)
        &&& is_padded_log(self.n_rows as nat, LOG_MIN_ROWS as nat, self.log_n_rows as nat)
        &&& self.padded_rows == pow2(self.log_n_rows as nat)
        &&& is_padded_log(n_gates, LOG_N_LANES as nat, self.program_log_size as nat)
        &&& is_padded_log(n_shots * N_QUBITS as nat, LOG_N_LANES as nat, self.qubitmem_log_size as nat)
        &&& self.max_log_size == max_of(
            max_of(max_of(self.log_n_rows, self.rc_log), self.program_log_size),
            self.qubitmem_log_size,
        )
        &&& self.config == pcs_of(self.max_log_size, log_blowup)
    }
}

/// The sizes that a shard's counts must stay below.
pub open spec fn countable(n_shots: nat, n_gates: nat, k: nat) -> bool {
    &&& k > 0
    &&& n_gates > 0
    &&& k * n_gates < u32::MAX
    &&& 3 * (n_shots * (k * n_gates)) <= u32::MAX
    &&& 3 * (n_shots * (k * n_gates)) <= usize::MAX
    &&& n_shots * k <= u32::MAX
    &&& n_shots * N_QUBITS <= u32::MAX
    &&& n_shots * N_QUBITS <= usize::MAX / 2 + 1
    &&& n_gates <= usize::MAX / 2 + 1
}

/// The gates of a circuit whose steps are countable are so themselves.
proof fn lemma_gates_countable(n_gates: nat, k: nat)
    requires
        k > 0,
    ensures
        n_gates <= k * n_gates,
{
    assert(n_gates <= k * n_gates) by (nonlinear_arith)
        requires
            k >= 1,
    ;
}

/// Whether everything that is counted in a shard fits its counter.
pub fn is_countable(n_shots: usize, n_gates: usize, k: usize) -> (r: bool)
    ensures
        r == countable(n_shots as nat, n_gates as nat, k as nat),
{
    if k == 0 || n_gates == 0 {
        return false;
    }
    proof {
        lemma_gates_countable(n_gates as nat, k as nat);
    }
    if n_gates > 0xffff_ffff {
        return false;
    }
    let (s, n, m): (u128, u128, u128) = (n_shots as u128, n_gates as u128, k as u128);
    let word: u128 = usize::MAX as u128;
    let count: u128 = u32::MAX as u128;
    assert(m * n <= u128::MAX && s * m <= u128::MAX) by (nonlinear_arith)
        requires
            0 <= m <= 0xffff_ffff_ffff_ffff,
            0 <= s <= 0xffff_ffff_ffff_ffff,
            0 <= n <= 0xffff_ffff,
    ;
    let steps: u128 = m * n;
    if steps >= count {
        return false;
    }
    assert(3 * (s * steps) <= u128::MAX && s * steps <= u128::MAX) by (nonlinear_arith)
        requires
            0 <= s <= 0xffff_ffff_ffff_ffff,
            0 <= steps <= 0xffff_ffff,
    ;
    let rows: u128 = s * steps;
    3 * rows <= count && 3 * rows <= word && s * m <= count && s * 512 <= count && s * 512 <= word
        / 2 + 1 && n <= word / 2 + 1
}

/// The shape of a shard.
pub fn shard_shape(n_shots: usize, n_gates: usize, k: usize, rc_log: u32, log_blowup: u32) -> (r:
    ShardShape)
    requires
        countable(n_shots as nat, n_gates as nat, k as nat),
        rc_log <= 30,
        blowup_supported(log_blowup),
    ensures
        r.fits(n_shots as nat, n_gates as nat, k as nat, log_blowup),
        r.rc_log == rc_log,
{
    let n_rows: usize = n_shots * (k * n_gates);
    let (padded_rows, log_n_rows) = padded_size(n_rows, LOG_MIN_ROWS);
    let program_log: u32 = program_log_size(n_gates);
    let (_, qubitmem_log) = padded_size(n_shots * N_QUBITS, LOG_N_LANES);
    proof {
        lemma2_to64();
        lemma_gates_countable(n_gates as nat, k as nat);
        lemma_log_small(n_rows as nat, LOG_MIN_ROWS as nat, log_n_rows as nat);
        lemma_log_small(n_gates as nat, LOG_N_LANES as nat, program_log as nat);
        lemma_log_small((n_shots * N_QUBITS) as nat, LOG_N_LANES as nat, qubitmem_log as nat);
    }
    let max_log_size: u32 = tree0_max_log_size(log_n_rows, rc_log, program_log, qubitmem_log);
    ShardShape {
        n_rows,
        padded_rows,
        log_n_rows,
        program_log_size: program_log,
        qubitmem_log_size: qubitmem_log,
        rc_log,
        max_log_size,
        config: leaf_pcs_config(max_log_size, log_blowup),
    }
}

/// A count of 32 bits pads to at most `2^32`.
proof fn lemma_log_small(n: nat, floor: nat, log: nat)
    requires
        n <= u32::MAX,
        floor <= 32,
        is_padded_log(n, floor, log),
    ensures
        log <= 32,
{
    lemma2_to64();
    if log > 33 {
        lemma_pow2_strictly_increases(32, (log - 1) as nat);
    }
}

/// For shots of at least 512 steps the main trace is the largest table, save
/// perhaps the range table: neither the program nor the boundary enlarges the
/// domain.
pub proof fn lemma_long_shots_set_the_domain(
    s: &ShardShape,
    n_shots: nat,
    n_gates: nat,
    k: nat,
    log_blowup: u32,
)
    requires
        s.fits(n_shots, n_gates, k, log_blowup),
        n_shots > 0,
        k > 0,
        k * n_gates >= 512,
    ensures
        s.max_log_size == max_of(s.log_n_rows, s.rc_log),
{
    let m = k * n_gates;
    assert(n_shots * m >= n_shots * 512) by (nonlinear_arith)
        requires
            m >= 512,
    ;
    assert(n_shots * m >= n_gates) by (nonlinear_arith)
        requires
            m == k * n_gates,
            n_shots >= 1,
            k >= 1,
    ;
    lemma_padded_log_mono(n_gates, s.n_rows as nat, s.program_log_size as nat, s.log_n_rows as nat);
    lemma_padded_log_mono(
        n_shots * 512,
        s.n_rows as nat,
        s.qubitmem_log_size as nat,
        s.log_n_rows as nat,
    );
}

/// A smaller table with a smaller floor is not padded to more.
proof fn lemma_padded_log_mono(n: nat, m: nat, a: nat, b: nat)
    requires
        n <= m,
        is_padded_log(n, LOG_N_LANES as nat, a),
        is_padded_log(m, LOG_MIN_ROWS as nat, b),
    ensures
        a <= b,
{
    if a > b {
        if a - 1 > b {
            lemma_pow2_strictly_increases(b, (a - 1) as nat);
        }
    }
}

/// What public column `id` holds in row `i`.
pub open spec fn public_value(
    id: ColumnId,
    n_rows: int,
    n_shots: int,
    k: int,
    n_gates: int,
    i: int,
) -> int {
    let real_row = i < n_rows;
    let real_qubit = i < n_shots * N_QUBITS;
    match id {
        ColumnId::ProgSlot => i,
        ColumnId::Enabler => if real_row {
            1
        } else {
            0
        },
        ColumnId::ShotId => if real_row {
            i / (k * n_gates)
        } else {
            0
        },
        ColumnId::Pc => if real_row {
            i % (k * n_gates)
        } else {
            0
        },
        ColumnId::PcInProg => if real_row {
            i % (k * n_gates) % n_gates
        } else {
            0
        },
        ColumnId::BndShot => if real_qubit {
            i / 512
        } else {
            0
        },
        ColumnId::BndAddr => if real_qubit {
            i % 512
        } else {
            0
        },
        ColumnId::BndEnabler => if real_qubit {
            1
        } else {
            0
        },
        ColumnId::RcVal => i,
    }
}

/// Column `id` is complete: it has `2^log` values, and they are the ones it must hold.
pub open spec fn public_column(
    c: SizedColumn,
    vals: Seq<u32>,
    n_rows: int,
    n_shots: int,
    k: int,
    n_gates: int,
) -> bool {
    &&& vals.len() == pow2(c.1 as nat)
    &&& forall|i: int|
        0 <= i < vals.len() ==> #[trigger] vals[i] == public_value(
            c.0,
            n_rows,
            n_shots,
            k,
            n_gates,
            i,
        )
}

/// The public columns of a shard of the given shape, in the order in which they are
/// committed.
pub open spec fn are_public_columns(
    r: Seq<(ColumnId, Vec<u32>)>,
    shape: &ShardShape,
    n_shots: int,
    k: int,
    n_gates: int,
) -> bool {
    &&& r.len() == N_PREPROCESSED_COLS
    &&& exists|s: Seq<SizedColumn>|
        #![trigger in_order(s)]
        in_order(s) && s.len() == r.len() && s.to_multiset() == column_listing(
            shape.log_n_rows,
            shape.program_log_size,
            shape.qubitmem_log_size,
            shape.rc_log,
        ).to_multiset() && forall|j: int|
            0 <= j < s.len() ==> (#[trigger] r[j]).0 == s[j].0 && public_column(
                s[j],
                r[j].1@,
                shape.n_rows as int,
                n_shots,
                k,
                n_gates,
            )
}

/// The public columns of a shard in the order in which they are committed:
/// smaller ones first. They depend on the shape alone, not on the program or
/// the shots. A column has at most `2^30` values: no larger domain exists in the
/// field.
pub fn build_tree0_columns(shape: &ShardShape, n_shots: usize, k: usize, n_gates: usize) -> (r: Vec<
    (ColumnId, Vec<u32>),
>)
    requires
        countable(n_shots as nat, n_gates as nat, k as nat),
        exists|b: u32| #[trigger] shape.fits(n_shots as nat, n_gates as nat, k as nat, b),
        shape.rc_log <= 30,
        shape.log_n_rows <= 30,
        shape.program_log_size <= 30,
        shape.qubitmem_log_size <= 30,
    ensures
        are_public_columns(r@, shape, n_shots as int, k as int, n_gates as int),
{
    let sorted: Vec<SizedColumn> = preprocessed_columns_sorted(
        shape.log_n_rows,
        shape.program_log_size,
        shape.qubitmem_log_size,
        shape.rc_log,
    );
    let ghost l = column_listing(
        shape.log_n_rows,
        shape.program_log_size,
        shape.qubitmem_log_size,
        shape.rc_log,
    );
    let mut r: Vec<(ColumnId, Vec<u32>)> = Vec::new();
    let mut j: usize = 0;
    while j < sorted.len()
        invariant
            j <= sorted@.len(),
            countable(n_shots as nat, n_gates as nat, k as nat),
            exists|b: u32| #[trigger] shape.fits(n_shots as nat, n_gates as nat, k as nat, b),
            shape.rc_log <= 30,
            shape.log_n_rows <= 30,
            shape.program_log_size <= 30,
            shape.qubitmem_log_size <= 30,
            l == column_listing(
                shape.log_n_rows,
                shape.program_log_size,
                shape.qubitmem_log_size,
                shape.rc_log,
            ),
            sorted@.to_multiset() == l.to_multiset(),
            r@.len() == j,
            forall|i: int|
                0 <= i < j ==> (#[trigger] r@[i]).0 == sorted@[i].0 && public_column(
                    sorted@[i],
                    r@[i].1@,
                    shape.n_rows as int,
                    n_shots as int,
                    k as int,
                    n_gates as int,
                ),
        decreases sorted.len() - j,
    {
        let c: SizedColumn = sorted[j];
        proof {
            sorted@.to_multiset_ensures();
            l.to_multiset_ensures();
            assert(sorted@.contains(c));
            assert(l.to_multiset().count(c) > 0);
            assert(l.contains(c));
            let at = choose|at: int| 0 <= at < l.len() && l[at] == c;
            assert(l[at] == c);
        }
        let vals: Vec<u32> = public_column_values(c.0, shape, n_shots, k, n_gates);
        r.push((c.0, vals));
        j += 1;
    }
    assert(in_order(sorted@));
    r
}

/// The size of a column's table.
pub open spec fn column_log(id: ColumnId, s: &ShardShape) -> u32 {
    match id {
        ColumnId::ProgSlot => s.program_log_size,
        ColumnId::Enabler => s.log_n_rows,
        ColumnId::ShotId => s.log_n_rows,
        ColumnId::Pc => s.log_n_rows,
        ColumnId::PcInProg => s.log_n_rows,
        ColumnId::BndShot => s.qubitmem_log_size,
        ColumnId::BndAddr => s.qubitmem_log_size,
        ColumnId::BndEnabler => s.qubitmem_log_size,
        ColumnId::RcVal => s.rc_log,
    }
}

fn public_column_values(id: ColumnId, shape: &ShardShape, n_shots: usize, k: usize, n_gates: usize) -> (r:
    Vec<u32>)
    requires
        countable(n_shots as nat, n_gates as nat, k as nat),
        exists|b: u32| #[trigger] shape.fits(n_shots as nat, n_gates as nat, k as nat, b),
        shape.rc_log <= 30,
        shape.log_n_rows <= 30,
        shape.program_log_size <= 30,
        shape.qubitmem_log_size <= 30,
    ensures
        public_column(
            (id, column_log(id, shape)),
            r@,
            shape.n_rows as int,
            n_shots as int,
            k as int,
            n_gates as int,
        ),
{
    let (n, p) = (shape.n_rows, shape.padded_rows);
    proof {
        lemma_gates_countable(n_gates as nat, k as nat);
        assert(0 < k * n_gates) by (nonlinear_arith)
            requires
                k > 0,
                n_gates > 0,
        ;
    }
    match id {
        ColumnId::ProgSlot => generate_prog_slot_preprocessed(shape.program_log_size),
        ColumnId::Enabler => generate_enabler_preprocessed(n, p),
        ColumnId::ShotId => generate_shot_id_preprocessed(n, p, k, n_gates),
        ColumnId::Pc => generate_pc_preprocessed(n, p, k, n_gates),
        ColumnId::PcInProg => generate_pc_in_prog_preprocessed(n, p, k, n_gates),
        ColumnId::BndShot => {
            let mut cols: Vec<Vec<u32>> = generate_qubitmem_preprocessed(
                n_shots,
                shape.qubitmem_log_size,
            );
            cols.swap_remove(0)
        },
        ColumnId::BndAddr => {
            let mut cols: Vec<Vec<u32>> = generate_qubitmem_preprocessed(
                n_shots,
                shape.qubitmem_log_size,
            );
            cols.swap_remove(1)
        },
        ColumnId::BndEnabler => {
            let mut cols: Vec<Vec<u32>> = generate_qubitmem_preprocessed(
                n_shots,
                shape.qubitmem_log_size,
            );
            cols.swap_remove(2)
        },
        ColumnId::RcVal => generate_rc_preprocessed(shape.rc_log),
    }
}

/// A copy of a column.
pub(crate) fn copy_of(v: &Vec<u32>) -> (r: Vec<u32>)
    ensures
        r@ == v@,
{
    let mut r: Vec<u32> = Vec::new();
    let mut i: usize = 0;
    while i < v.len()
        invariant
            i <= v@.len(),
            r@ == v@.take(i as int),
        decreases v.len() - i,
    {
        r.push(v[i]);
        assert(v@.take(i + 1) =~= v@.take(i as int).push(v@[i as int]));
        i += 1;
    }
    assert(v@.take(v@.len() as int) =~= v@);
    r
}

/// The hidden columns of the program table: opcode, target, the two controls and
/// the multiplicity.
pub fn generate_program_witness(p: &ProgramTable) -> (r: Vec<Vec<u32>>)
    ensures
        r@.len() == 5,
        r@[0]@ == p.opcode_scalar@,
        r@[1]@ == p.target@,
        r@[2]@ == p.ctrl_a@,
        r@[3]@ == p.ctrl_b@,
        r@[4]@ == p.multiplicity@,
{
    vec![
        copy_of(&p.opcode_scalar),
        copy_of(&p.target),
        copy_of(&p.ctrl_a),
        copy_of(&p.ctrl_b),
        copy_of(&p.multiplicity),
    ]
}

/// The hidden columns of the boundary table: first value, last value, last access.
pub fn generate_boundary_witness(t: &BoundaryTable) -> (r: Vec<Vec<u32>>)
    ensures
        r@.len() == 3,
        r@[0]@ == Seq::new(t.rows@.len(), |i: int| t.rows@[i].x),
        r@[1]@ == Seq::new(t.rows@.len(), |i: int| t.rows@[i].y),
        r@[2]@ == Seq::new(t.rows@.len(), |i: int| t.rows@[i].ts_last),
{
    let mut x: Vec<u32> = Vec::new();
    let mut y: Vec<u32> = Vec::new();
    let mut ts: Vec<u32> = Vec::new();
    let mut i: usize = 0;
    while i < t.rows.len()
        invariant
            i <= t.rows@.len(),
            x@.len() == i,
            y@.len() == i,
            ts@.len() == i,
            forall|j: int| 0 <= j < i ==> #[trigger] x@[j] == t.rows@[j].x,
            forall|j: int| 0 <= j < i ==> #[trigger] y@[j] == t.rows@[j].y,
            forall|j: int| 0 <= j < i ==> #[trigger] ts@[j] == t.rows@[j].ts_last,
        decreases t.rows.len() - i,
    {
        x.push(t.rows[i].x);
        y.push(t.rows[i].y);
        ts.push(t.rows[i].ts_last);
        i += 1;
    }
    assert(x@ =~= Seq::new(t.rows@.len(), |i: int| t.rows@[i].x));
    assert(y@ =~= Seq::new(t.rows@.len(), |i: int| t.rows@[i].y));
    assert(ts@ =~= Seq::new(t.rows@.len(), |i: int| t.rows@[i].ts_last));
    vec![x, y, ts]
}

/// The hidden column of the range table: how often each value is looked up.
pub fn generate_rc_witness(t: &RcTable) -> (r: Vec<Vec<u32>>)
    ensures
        r@.len() == 1,
        r@[0]@ == t.multiplicity@,
{
    vec![copy_of(&t.multiplicity)]
}

/// The limbs of the first and last state of each shot; fails at the first test
/// vector that is not hexadecimal.
pub fn boundary_pairs(cases: &[TestCase]) -> (r: Result<Vec<ShotLimbs>, BadText>)
    requires
        forall|s: int|
            0 <= s < cases@.len() && case_is_hex(#[trigger] cases@[s]) ==> hex_bytes(
                cases@[s].x_hex@,
            ).len() == STATE_BYTES && hex_bytes(cases@[s].y_hex@).len() == STATE_BYTES,
    ensures
        r is Ok <==> forall|s: int| 0 <= s < cases@.len() ==> case_is_hex(#[trigger] cases@[s]),
        r matches Ok(v) ==> limbs_of_cases(v@, cases@),
        r matches Err(e) ==> e.shot_id < cases@.len() && !case_is_hex(cases@[e.shot_id as int])
            && forall|s: int| 0 <= s < e.shot_id ==> case_is_hex(#[trigger] cases@[s]),
{
    let mut v: Vec<ShotLimbs> = Vec::new();
    let mut s: usize = 0;
    while s < cases.len()
        invariant
            s <= cases@.len(),
            forall|s: int|
                0 <= s < cases@.len() && case_is_hex(#[trigger] cases@[s]) ==> hex_bytes(
                    cases@[s].x_hex@,
                ).len() == STATE_BYTES && hex_bytes(cases@[s].y_hex@).len() == STATE_BYTES,
            v@.len() == s,
            forall|j: int| 0 <= j < s ==> case_is_hex(#[trigger] cases@[j]),
            forall|j: int|
                0 <= j < s ==> (#[trigger] v@[j]).0@ == byte_limbs(hex_bytes(cases@[j].x_hex@)),
            forall|j: int|
                0 <= j < s ==> (#[trigger] v@[j]).1@ == byte_limbs(hex_bytes(cases@[j].y_hex@)),
        decreases cases.len() - s,
    {
        let x = match hex_decode(cases[s].x_hex.as_str()) {
            Ok(b) => b,
            Err(_) => {
                assert(!case_is_hex(cases@[s as int]));
                return Err(BadText { shot_id: s });
            },
        };
        let y = match hex_decode(cases[s].y_hex.as_str()) {
            Ok(b) => b,
            Err(_) => {
                assert(!case_is_hex(cases@[s as int]));
                return Err(BadText { shot_id: s });
            },
        };
        assert(case_is_hex(cases@[s as int]));
        v.push((state_to_limbs(x.as_slice()), state_to_limbs(y.as_slice())));
        s += 1;
    }
    Ok(v)
}

/// Everything about a shard that is fixed before the challenges are drawn.
pub struct ShardWitness {
    pub shape: ShardShape,
    /// The rows of the main trace, padding included.
    pub rows: Vec<Row>,
    pub boundary: BoundaryTable,
    pub program: ProgramTable,
    pub rc_table: RcTable,
    /// The steps of a shot.
    pub total_pc: u32,
}

/// What `ShardWitness::build` promises: the witness of the shots, or the first gate that
/// cannot be run, or the first test vector that is refused.
pub open spec fn witness_outcome(
    gates: Seq<Gate>,
    cases: Seq<TestCase>,
    k: nat,
    rc_log: u32,
    log_blowup: u32,
    r: Result<ShardWitness, RowsError>,
) -> bool {
    match r {
        Ok(w) => w.shape.rc_log == rc_log && w.of(gates, cases, k, log_blowup) && w.honest(gates.len())
            && all_runnable(gates)
            && forall|s: int| !#[trigger] is_first_refused(gates, k, cases, s),
        Err(RowsError::BadGate { index, opcode }) => is_first_bad(gates, index as int)
            && opcode == gates[index as int].opcode,
        Err(RowsError::Shot { shot_id, error }) => all_runnable(gates) && is_first_refused(
            gates,
            k,
            cases,
            shot_id as int,
        ) && error_of(
            shot_outcome(
                gates,
                k,
                cases[shot_id as int].x_hex@,
                cases[shot_id as int].y_hex@,
            ),
            error,
            shot_id as int,
            end_text(gates, k, cases[shot_id as int].x_hex@),
        ),
    }
}

impl ShardWitness {
    /// The rows of the executed gates.
    pub open spec fn real_rows(&self) -> Seq<Row> {
        self.rows@.take(self.shape.n_rows as int)
    }

    /// The rows of padding.
    pub open spec fn pad_rows(&self) -> Seq<Row> {
        self.rows@.skip(self.shape.n_rows as int)
    }

    /// The witness of the given shots of the given circuit.
    pub open spec fn of(&self, gates: Seq<Gate>, cases: Seq<TestCase>, k: nat, log_blowup: u32) -> bool {
        &&& self.shape.fits(cases.len(), gates.len(), k, log_blowup)
        &&& self.shape.rc_log <= 30
        &&& self.shape.program_log_size == self.program.log_size
        &&& self.shape.qubitmem_log_size == self.boundary.log_size
        &&& self.rows@.len() == self.shape.padded_rows
        &&& self.shape.n_rows <= self.rows@.len()
        &&& honest_trace(self.real_rows(), &self.boundary, gates, cases, k)
        &&& forall|i: int|
            0 <= i < self.pad_rows().len() ==> #[trigger] self.pad_rows()[i] == padding_row()
        &&& self.program.describes(gates, (cases.len() * k) as u32)
        &&& self.rc_table.sized()
        &&& self.rc_table.log_size == self.shape.rc_log
        &&& counts_rc(&self.rc_table, self.real_rows(), self.real_rows().len())
        &&& self.total_pc == k * gates.len()
    }

    /// The witness of some shots of some circuit of `n_gates` gates.
    pub open spec fn honest(&self, n_gates: nat) -> bool {
        exists|gates: Seq<Gate>, cases: Seq<TestCase>, k: nat, log_blowup: u32| #[trigger]
            self.of(gates, cases, k, log_blowup) && gates.len() == n_gates && k * gates.len()
                <= pow2(self.shape.rc_log as nat) && countable(cases.len(), gates.len(), k)
    }

    /// Runs the shots and fills all tables. Fails where the circuit cannot be
    /// run, or where a shot does not end in its expected state.
    pub fn build(
        gates: &[Gate],
        cases: &[TestCase],
        k: usize,
        rc_log: u32,
        log_blowup: u32,
    ) -> (r: Result<ShardWitness, RowsError>)
        requires
            countable(cases@.len(), gates@.len(), k as nat),
            rc_log <= 30,
            k * gates@.len() <= pow2(rc_log as nat),
            blowup_supported(log_blowup),
        ensures
            witness_outcome(gates@, cases@, k as nat, rc_log, log_blowup, r),
    {
        let (real_rows, boundary) = match build_rows(gates, cases, k) {
            Ok(v) => v,
            Err(e) => {
                return Err(e);
            },
        };
        let shape: ShardShape = shard_shape(cases.len(), gates.len(), k, rc_log, log_blowup);
        proof {
            lemma_gates_countable(gates@.len(), k as nat);
        }
        let program: ProgramTable = build_program_table(gates, cases.len(), k);
        let ghost built = real_rows@;
        proof {
            lemma_built_rows_honest(built, &boundary, gates@, cases@, k as nat);
            lemma_honest_rows_in_range(
                built,
                &boundary,
                gates@,
                cases@,
                k as nat,
                pow2(rc_log as nat),
            );
            lemma_padded_log_unique(
                gates@.len(),
                LOG_N_LANES as nat,
                shape.program_log_size as nat,
                program.log_size as nat,
            );
            lemma_padded_log_unique(
                (cases@.len() * N_QUBITS) as nat,
                LOG_N_LANES as nat,
                shape.qubitmem_log_size as nat,
                boundary.log_size as nat,
            );
        }
        let rc_table: RcTable = build_rc_table(real_rows.as_slice(), rc_log);
        let mut rows: Vec<Row> = real_rows;
        while rows.len() < shape.padded_rows
            invariant
                built.len() == shape.n_rows <= rows@.len() <= shape.padded_rows,
                rows@.take(built.len() as int) == built,
                forall|i: int| built.len() <= i < rows@.len() ==> #[trigger] rows@[i] == padding_row(),
            decreases shape.padded_rows - rows.len(),
        {
            let ghost before = rows@;
            rows.push(Row::padding());
            assert(rows@.take(built.len() as int) =~= before.take(built.len() as int));
        }
        let total_pc: u32 = (k * gates.len()) as u32;
        let w = ShardWitness { shape, rows, boundary, program, rc_table, total_pc };
        assert(w.real_rows() == built);
        assert(w.of(gates@, cases@, k as nat, log_blowup));
        assert(k as nat * gates@.len() <= pow2(rc_log as nat));
        Ok(w)
    }

    /// The hidden columns in the order in which they are committed.
    pub open spec fn are_hidden_columns(&self, r: Seq<Vec<u32>>) -> bool {
        &&& r.len() == TRACE_COLUMNS + 9
        &&& forall|c: int|
            0 <= c < TRACE_COLUMNS ==> (#[trigger] r[c])@ == Seq::new(
                self.rows@.len(),
                |i: int| row_cells(self.rows@[i])[c],
            )
        &&& r[19]@ == self.program.opcode_scalar@
        &&& r[20]@ == self.program.target@
        &&& r[21]@ == self.program.ctrl_a@
        &&& r[22]@ == self.program.ctrl_b@
        &&& r[23]@ == self.program.multiplicity@
        &&& r[24]@ == Seq::new(self.boundary.rows@.len(), |i: int| self.boundary.rows@[i].x)
        &&& r[25]@ == Seq::new(self.boundary.rows@.len(), |i: int| self.boundary.rows@[i].y)
        &&& r[26]@ == Seq::new(self.boundary.rows@.len(), |i: int| self.boundary.rows@[i].ts_last)
        &&& r[27]@ == self.rc_table.multiplicity@
    }

    /// The hidden columns in the order in which they are committed: those of the
    /// main trace, the program, the boundary and the range table.
    pub fn tree1_columns(&self) -> (r: Vec<Vec<u32>>)
        requires
            self.rows@.len() == self.shape.padded_rows,
        ensures
            self.are_hidden_columns(r@),
    {
        let mut cols: Vec<Vec<u32>> = generate_main_trace(
            self.rows.as_slice(),
            self.shape.padded_rows,
        );
        proof {
            assert forall|c: int| 0 <= c < TRACE_COLUMNS implies (#[trigger] cols@[c])@ == Seq::new(
                self.rows@.len(),
                |i: int| row_cells(self.rows@[i])[c],
            ) by {
                assert forall|i: int| 0 <= i < self.rows@.len() implies #[trigger] cols@[c]@[i]
                    == row_cells(self.rows@[i])[c] by {}
                assert(cols@[c]@ =~= Seq::new(
                    self.rows@.len(),
                    |i: int| row_cells(self.rows@[i])[c],
                ));
            }
        }
        let mut program: Vec<Vec<u32>> = generate_program_witness(&self.program);
        let mut boundary: Vec<Vec<u32>> = generate_boundary_witness(&self.boundary);
        let mut rc: Vec<Vec<u32>> = generate_rc_witness(&self.rc_table);
        cols.append(&mut program);
        cols.append(&mut boundary);
        cols.append(&mut rc);
        cols
    }

    /// The challenges leave no denominator zero.
    pub open spec fn dens_nonzero(&self, rel: &Relation, n_gates: int) -> bool {
        &&& forall|i: int, b: int|
            0 <= i < self.rows@.len() && 0 <= b < N_LOGUP_COLS ==> #[trigger] pair_den_nonzero(
                rel,
                self.rows@[i],
                n_gates,
                b,
            )
        &&& forall|i: int|
            0 <= i < self.program.slot@.len() ==> #[trigger] slot_dens_nonzero(
                rel,
                &self.program,
                i,
            )
        &&& forall|i: int|
            0 <= i < self.boundary.rows@.len() ==> #[trigger] boundary_dens_nonzero(
                rel,
                &self.boundary,
                i,
            )
        &&& forall|i: int|
            0 <= i < self.rc_table.val@.len() ==> rel.den(rc_seq(#[trigger] self.rc_table.val@[i]))
                != Ext::zero()
    }

    /// The sums in the rows' tuples stay in range.
    proof fn lemma_rows_small(&self, n_gates: nat)
        requires
            self.honest(n_gates),
        ensures
            n_gates > 0,
            forall|i: int| 0 <= i < self.rows@.len() ==> row_small(#[trigger] self.rows@[i]),
    {
        let (gates, cases, k, log_blowup) = choose|
            gates: Seq<Gate>,
            cases: Seq<TestCase>,
            k: nat,
            log_blowup: u32,
        | #[trigger]
            self.of(gates, cases, k, log_blowup) && gates.len() == n_gates && k * gates.len()
                <= pow2(self.shape.rc_log as nat) && countable(cases.len(), gates.len(), k);
        lemma_honest_rows_in_range(
            self.real_rows(),
            &self.boundary,
            gates,
            cases,
            k,
            pow2(self.shape.rc_log as nat),
        );
        assert forall|i: int| 0 <= i < self.rows@.len() implies row_small(
            #[trigger] self.rows@[i],
        ) by {
            if i < self.shape.n_rows {
                assert(self.real_rows()[i] == self.rows@[i]);
            } else {
                assert(self.pad_rows()[i - self.shape.n_rows] == self.rows@[i]);
            }
        }
    }

    /// Whether the challenges leave no denominator zero.
    pub fn defined_under(&self, n_gates: u32, rel: &Relation) -> (r: bool)
        requires
            rel_ok(rel),
            self.honest(n_gates as nat),
        ensures
            r == self.dens_nonzero(rel, n_gates as int),
    {
        proof {
            self.lemma_rows_small(n_gates as nat);
        }
        main_defined(rel, self.rows.as_slice(), n_gates) && program_defined(&self.program, rel)
            && boundary_defined(&self.boundary, rel) && rc_defined(&self.rc_table, rel)
    }

    /// The interaction columns under the drawn challenges and the sums that they
    /// claim, which net to the public terms.
    pub fn interact(&self, n_gates: u32, rel: &Relation) -> (r: ShardInteraction)
        requires
            rel_ok(rel),
            self.honest(n_gates as nat),
            self.dens_nonzero(rel, n_gates as int),
        ensures
            r.fills(self, rel, n_gates as int),
            r.claims.main.wf(),
            r.claims.main@ == main_value(rel, self.real_rows(), n_gates as int),
            r.claims.program@ == program_value(rel, &self.program),
            r.claims.boundary@ == boundary_claim(rel, &self.boundary),
            r.claims.rc@ == rc_value(rel, &self.rc_table),
            r.claims.total() == boundary_public_value(rel, &self.boundary) + program_public_value(
                rel,
                &self.program,
            ),
    {
        let ghost (gates, cases, k, log_blowup) = choose|
            gates: Seq<Gate>,
            cases: Seq<TestCase>,
            k: nat,
            log_blowup: u32,
        | #[trigger]
            self.of(gates, cases, k, log_blowup) && gates.len() == n_gates && k * gates.len()
                <= pow2(self.shape.rc_log as nat) && countable(cases.len(), gates.len(), k);
        proof {
            self.lemma_rows_small(n_gates as nat);
            lemma_honest_rows_in_range(
                self.real_rows(),
                &self.boundary,
                gates,
                cases,
                k,
                pow2(self.shape.rc_log as nat),
            );
        }
        let (main, main_sum) = gen_main_interaction(
            rel,
            self.rows.as_slice(),
            n_gates,
        );
        let (program, program_sum) = gen_program_interaction(&self.program, rel);
        let (boundary, boundary_sum) = gen_boundary_interaction(&self.boundary, rel);
        let (rc, rc_sum) = gen_rc_interaction(&self.rc_table, rel);
        proof {
            assert(self.rows@ =~= self.real_rows() + self.pad_rows());
            lemma_padding_claims_nothing(rel, self.real_rows(), self.pad_rows(), n_gates as int);
            lemma_shard_claims_net(
                rel,
                self.real_rows(),
                &self.boundary,
                gates,
                cases,
                k,
                &self.program,
                (cases.len() * k) as u32,
                &self.rc_table,
            );
        }
        ShardInteraction {
            main,
            program,
            boundary,
            rc,
            claims: ShardClaims {
                main: main_sum,
                program: program_sum,
                boundary: boundary_sum,
                rc: rc_sum,
            },
        }
    }
}

/// The interaction columns of a shard, as fractions, and its claims.
pub struct ShardInteraction {
    pub main: Vec<Vec<Fraction>>,
    pub program: Vec<Fraction>,
    pub boundary: Vec<Fraction>,
    pub rc: Vec<Fraction>,
    pub claims: ShardClaims,
}

impl ShardInteraction {
    /// The columns hold the lookups of the shard's tables.
    pub open spec fn fills(&self, w: &ShardWitness, rel: &Relation, n_gates: int) -> bool {
        &&& self.main@.len() == N_LOGUP_COLS
        &&& forall|b: int|
            0 <= b < N_LOGUP_COLS ==> (#[trigger] self.main@[b])@.len() == w.rows@.len()
        &&& forall|b: int, i: int|
            0 <= b < N_LOGUP_COLS && 0 <= i < w.rows@.len() ==> pair_fraction(
                rel,
                w.rows@[i],
                n_gates,
                b,
                #[trigger] self.main@[b]@[i],
            )
        &&& self.program@.len() == w.program.slot@.len()
        &&& forall|i: int|
            0 <= i < w.program.slot@.len() ==> slot_fraction(
                rel,
                &w.program,
                i,
                #[trigger] self.program@[i],
            )
        &&& self.boundary@.len() == w.boundary.rows@.len()
        &&& forall|i: int|
            0 <= i < w.boundary.rows@.len() ==> boundary_fraction(
                rel,
                &w.boundary,
                i,
                #[trigger] self.boundary@[i],
            )
        &&& self.rc@.len() == w.rc_table.val@.len()
        &&& forall|i: int|
            0 <= i < w.rc_table.val@.len() ==> (#[trigger] self.rc@[i]).num@ == Ext::base(
                -w.rc_table.multiplicity@[i],
            ) && self.rc@[i].den@ == rel.den(rc_seq(w.rc_table.val@[i]))
    }
}

} // verus!
