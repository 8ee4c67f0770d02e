//! What the rows and tables of the whole-state encoding say about an execution.
use vstd::arithmetic::power2::{lemma2_to64, lemma_pow2_pos, lemma_pow2_unfold, pow2};
use vstd::prelude::*;

use crate::acceptance_laws::{is_digits, state_in};
use crate::circuit::{
    is_first_unknown, lemma_high_part, lemma_limb_state_injective, lemma_mask, lemma_split,
    limb_state, limbs_wf, run, state_limbs, Gate, TestCase,
};
use crate::field::Ext;
use crate::gate_laws::{
    lemma_qubit_in_text, lemma_run_step_by_step, lemma_text_is_digits, new_bit, state_at,
};
use crate::logup::tuple_at;
use crate::lookup_laws::bit;
use crate::sums::sum;
use crate::whole_state::{
    block_lists, block_start, hi_bounds, lo_bounds, shot_outcome, shot_result, text_state,
    LookupCounts, Outcome, RcIndex, ReadCols, Row, SimError,
};
use crate::whole_state_air::{padded_cell, row_cells, row_checks};
use crate::whole_state_balance::{program_cols, rc_cols};
use crate::whole_state_lookups::{boundary_value, row_uses, LookupElements};
use crate::whole_state_run::{qdecode_cols, TraceWitness};

verus! {

/// 32 limbs of 16 bits hold a state: bit `q % 16` of limb `q / 16` is qubit `q`.
pub open spec fn hold(limbs: Seq<u32>, s: Seq<bool>) -> bool {
    &&& limbs.len() == 32
    &&& forall|j: int| 0 <= j < 32 ==> #[trigger] limbs[j] < 65536
    &&& forall|q: int|
        0 <= q < 512 ==> (limbs[q / 16] as int / pow2((q % 16) as nat) as int % 2 == 1 <==> #[trigger] s[q])
}

/// Limbs that hold a state are the only ones.
pub proof fn lemma_limbs_hold_one_state(a: Seq<u32>, b: Seq<u32>, s: Seq<bool>)
    requires
        hold(a, s),
        hold(b, s),
        s.len() == 512,
    ensures
        a == b,
{
    assert forall|q: int| 0 <= q < 512 implies limb_state(a)[q] == limb_state(b)[q] by {
        lemma_split(a[q / 16], (q % 16) as u32);
        lemma_split(b[q / 16], (q % 16) as u32);
        let v = pow2((q % 16) as nat) as int;
        assert(a[q / 16] as int / v % 2 == 1 <==> s[q]);
        assert(b[q / 16] as int / v % 2 == 1 <==> s[q]);
    }
    assert(limb_state(a) =~= limb_state(b));
    lemma_limb_state_injective(a, b);
}

proof fn lemma_hold(limbs: Seq<u32>, s: Seq<bool>)
    requires
        limbs_wf(limbs),
        limb_state(limbs) == s,
    ensures
        hold(limbs, s),
{
    assert forall|q: int| 0 <= q < 512 implies (limbs[q / 16] as int / pow2((q % 16) as nat) as int % 2 == 1
        <==> #[trigger] s[q]) by {
        lemma_split(limbs[q / 16], (q % 16) as u32);
        assert(limb_state(limbs)[q] == s[q]);
    }
}

/// A read of qubit `q`, which is `b`: it names the qubit, its limb and its place there,
/// and takes the limb apart into what lies below the qubit, the qubit, and what lies above.
pub open spec fn is_read(r: ReadCols, limbs: Seq<u32>, q: int, b: bool) -> bool {
    &&& r.active == 1
    &&& r.q == q
    &&& 16 * r.limb_idx + r.bit_pos == q
    &&& r.bit_pos < 16
    &&& r.mask == pow2(r.bit_pos as nat)
    &&& forall|j: int| 0 <= j < 32 ==> #[trigger] r.lsel@[j] == (if j == r.limb_idx { 1int } else { 0int })
    &&& r.bit == bit(b)
    &&& r.lo < r.mask
    &&& r.hi < pow2((15 - r.bit_pos) as nat)
    &&& limbs[r.limb_idx as int] == r.lo + r.mask * r.bit + 2 * (r.mask * r.hi)
}

/// A read that is not made is all zero, but for its weight, which is one.
pub open spec fn is_no_read(r: ReadCols) -> bool {
    &&& r.active == 0 && r.q == 0 && r.limb_idx == 0 && r.bit_pos == 0 && r.mask == 1
    &&& r.lo == 0 && r.hi == 0 && r.bit == 0
    &&& forall|j: int| 0 <= j < 32 ==> #[trigger] r.lsel@[j] == 0
}

proof fn lemma_reads(r: ReadCols, limbs: Seq<u32>, q: int, s: Seq<bool>)
    requires
        limbs_wf(limbs),
        limb_state(limbs) == s,
        0 <= q < 512,
        r.reads(limbs, q),
    ensures
        is_read(r, limbs, q, s[q]),
{
    let l = limbs[q / 16];
    let p = (q % 16) as u32;
    lemma_split(l, p);
    lemma_high_part(l, p);
    lemma_mask(p);
    lemma_pow2_pos(p as nat);
    assert(limb_state(limbs)[q] == s[q]);
    let (m, h, b) = (r.mask as int, r.hi as int, r.bit as int);
    assert(h * (2 * m) + b * m == m * b + 2 * (m * h)) by (nonlinear_arith);
}

/// A row says which gate ran at which step of which shot, holds the states before and
/// after, and takes apart the limbs of the qubits that were read.
pub open spec fn row_says(row: Row, gates: Seq<Gate>, start: Seq<bool>, shot: int, pc: int) -> bool {
    let g = gates[pc % gates.len() as int];
    let s = state_at(gates, start, pc as nat);
    let t = state_at(gates, start, pc as nat + 1);
    &&& row.enabler == 1
    &&& row.shot_id == shot
    &&& row.pc == pc
    &&& row.is_nop + row.is_not + row.is_cnot + row.is_toffoli == 1
    &&& row.is_not + 2 * row.is_cnot + 3 * row.is_toffoli == g.opcode
    &&& hold(row.in_limb@, s)
    &&& hold(row.out_limb@, t)
    &&& is_read(row.target, row.in_limb@, g.target as int, s[g.target as int])
    &&& if g.opcode == 2 || g.opcode == 3 {
        is_read(row.ctrl_a, row.in_limb@, g.ctrl_a as int, s[g.ctrl_a as int])
    } else {
        is_no_read(row.ctrl_a)
    }
    &&& if g.opcode == 3 {
        is_read(row.ctrl_b, row.in_limb@, g.ctrl_b as int, s[g.ctrl_b as int])
    } else {
        is_no_read(row.ctrl_b)
    }
    &&& row.ab == row.ctrl_a.bit * row.ctrl_b.bit
    &&& row.fire == (if s[g.target as int] != t[g.target as int] { 1int } else { 0int })
    &&& (row.target.bit + row.delta) % 0x7fff_ffff == (if t[g.target as int] { 1int } else { 0int })
    &&& row.delta < 0x7fff_ffff
}

/// Step `j` of shot `s` is row `s * m + j`, where `m` is `k` times the number of gates, and
/// it says what happened there. The rows after the last shot are padding: all zero, but for
/// the weights of their reads. There are at least 64 rows, and no more than needed.
pub proof fn lemma_rows_say_what_happened(
    w: &TraceWitness,
    gates: Seq<Gate>,
    cases: Seq<TestCase>,
    k: nat,
    s: int,
    j: int,
)
    requires
        w.of(gates, cases, k),
        0 <= s < cases.len(),
        0 <= j < k * gates.len(),
        is_digits(cases[s].x_hex@) && cases[s].x_hex@.len() == 128,
    ensures
        0 <= s * (k * gates.len()) + j < w.n_rows,
        w.n_rows == cases.len() * (k * gates.len()),
        w.rows@.len() >= 64 && w.rows@.len() >= w.n_rows,
        w.rows@.len() == 64 || w.rows@.len() < 2 * w.n_rows,
        row_says(w.rows@[s * (k * gates.len()) + j], gates, state_in(cases[s].x_hex@), s, j),
{
    let m = (k * gates.len()) as int;
    let i = s * m + j;
    let x = cases[s].x_hex@;
    crate::whole_state::lemma_flat_index(s, cases.len() as int, m, j);
    lemma_start(x);
    lemma2_to64();
    if w.log_n_rows > 6 {
        lemma_pow2_unfold(w.log_n_rows as nat);
        vstd::arithmetic::power2::lemma_pow2_strictly_increases(6, w.log_n_rows as nat);
    }
    assert(w.real_rows()[i] == w.rows@[i]);
    let start = state_in(x);
    assert forall|l: int| 0 <= l < gates.len() implies (#[trigger] gates[l]).target < 512 by {
        assert(gates[l].operands_ok());
    }
    lemma_run_step_by_step(gates, start, j as nat);
    lemma_run_step_by_step(gates, start, j as nat + 1);
    vstd::arithmetic::div_mod::lemma_mod_bound(j, gates.len() as int);
    let g = gates[j % gates.len() as int];
    assert(g.known() && g.operands_ok());
    let st = state_at(gates, start, j as nat);
    assert(i < w.real_rows().len());
    assert(w.real_rows()[i].steps(
        gates[(i % m) % gates.len() as int],
        run(gates, text_state(cases[i / m].x_hex@), (i % m) as nat),
        i / m,
        i % m,
    ));
    assert(w.rows@[i].steps(g, st, s, j));
    crate::circuit::lemma_run_step(gates, start, j as nat);
    assert(state_at(gates, start, j as nat + 1) == g.apply(st));
    lemma_row_says(w.rows@[i], gates, start, s, j);
}

/// A shot fills the rows of the steps that it takes: row `j` says what happened at step `j`,
/// whether the shot then ends in the right state, in a wrong one, or at a later gate of none
/// of the four kinds.
pub proof fn lemma_shot_fills_rows(
    gates: Seq<Gate>,
    k: nat,
    shot: int,
    c: TestCase,
    before: Seq<Row>,
    after: Seq<Row>,
    r: Result<LookupCounts, SimError>,
    lo: &RcIndex,
    hi: &RcIndex,
    j: int,
)
    requires
        shot_result(gates, k, shot, c.x_hex@, c.y_hex@, before, after, r, lo, hi),
        is_digits(c.x_hex@) && c.x_hex@.len() == 128,
        is_digits(c.y_hex@) && c.y_hex@.len() == 128,
        0 <= j < k * gates.len(),
        forall|i: int| 0 <= i < gates.len() ==> (#[trigger] gates[i]).target < 512,
        forall|i: int|
            0 <= i < gates.len() && i <= j ==> (#[trigger] gates[i]).opcode <= 3 && (gates[i].opcode >= 2
                ==> gates[i].ctrl_a < 512) && (gates[i].opcode == 3 ==> gates[i].ctrl_b < 512),
    ensures
        after.len() == before.len(),
        row_says(after[j], gates, state_in(c.x_hex@), shot, j),
{
    let start = state_in(c.x_hex@);
    lemma_start(c.x_hex@);
    lemma_text_is_digits(c.x_hex@);
    lemma_text_is_digits(c.y_hex@);
    if gates.len() == 0 {
        assert(k * gates.len() == 0) by (nonlinear_arith)
            requires
                gates.len() == 0,
        ;
    }
    if k == 0 {
        assert(k * gates.len() == 0) by (nonlinear_arith)
            requires
                k == 0,
        ;
    }
    lemma_run_step_by_step(gates, start, j as nat);
    lemma_run_step_by_step(gates, start, j as nat + 1);
    crate::circuit::lemma_run_step(gates, start, j as nat);
    vstd::arithmetic::div_mod::lemma_mod_bound(j, gates.len() as int);
    vstd::arithmetic::div_mod::lemma_mod_decreases(j as nat, gates.len());
    let g = gates[j % gates.len() as int];
    assert(g.opcode <= 3);
    assert(g.known() && g.operands_ok());
    if let Outcome::UnknownOpcode(op) = shot_outcome(gates, k, c.x_hex@, c.y_hex@) {
        let u = choose|u: int| is_first_unknown(gates, u);
        assert(is_first_unknown(gates, u));
        assert(u > j);
    }
    assert(after[j].steps(g, run(gates, text_state(c.x_hex@), j as nat), shot, j));
    lemma_row_says(after[j], gates, start, shot, j);
}

proof fn lemma_start(x: Seq<char>)
    requires
        is_digits(x),
        x.len() == 128,
    ensures
        text_state(x) == state_in(x),
        state_in(x).len() == 512,
{
    lemma_text_is_digits(x);
    assert forall|q: int| 0 <= q < 512 implies text_state(x)[q] == state_in(x)[q] by {
        lemma_qubit_in_text(x, q);
    }
    lemma_qubit_in_text(x, 0);
    assert(text_state(x) =~= state_in(x));
}

proof fn lemma_row_says(row: Row, gates: Seq<Gate>, start: Seq<bool>, shot: int, pc: int)
    requires
        gates.len() > 0,
        0 <= pc,
        gates[pc % gates.len() as int].known(),
        gates[pc % gates.len() as int].operands_ok(),
        row.steps(gates[pc % gates.len() as int], state_at(gates, start, pc as nat), shot, pc),
        state_at(gates, start, pc as nat + 1) == gates[pc % gates.len() as int].apply(
            state_at(gates, start, pc as nat),
        ),
        state_at(gates, start, pc as nat).len() == 512,
    ensures
        row_says(row, gates, start, shot, pc),
{
    let g = gates[pc % gates.len() as int];
    let s = state_at(gates, start, pc as nat);
    let t = state_at(gates, start, pc as nat + 1);
    lemma_hold(row.in_limb@, s);
    lemma_hold(row.out_limb@, t);
    lemma_reads(row.target, row.in_limb@, g.target as int, s);
    if g.opcode == 2 || g.opcode == 3 {
        lemma_reads(row.ctrl_a, row.in_limb@, g.ctrl_a as int, s);
    }
    if g.opcode == 3 {
        lemma_reads(row.ctrl_b, row.in_limb@, g.ctrl_b as int, s);
    }
    lemma_new_target(g, s);
}

proof fn lemma_new_target(g: Gate, s: Seq<bool>)
    requires
        g.known(),
        g.operands_ok(),
        s.len() == 512,
    ensures
        ({
            let t = new_bit(g.opcode, s[g.target as int], s[g.ctrl_a as int], s[g.ctrl_b as int]);
            &&& g.fires(s) <==> s[g.target as int] != t
            &&& g.apply(s)[g.target as int] == t
        }),
{
}

/// The lookups of a row that says what happened at step `pc` of a shot: the state before it
/// is taken and the state after it is left, one step later; each qubit that is read is
/// looked up with its limb, place and weight, and so is what lies below and above it there;
/// and its own gate.
pub proof fn lemma_step_lookups(row: Row, gates: Seq<Gate>, start: Seq<bool>, shot: u32, pc: u32)
    requires
        0 < gates.len() <= u32::MAX,
        pc < u32::MAX,
        row_says(row, gates, start, shot as int, pc as int),
    ensures
        ({
            let n = gates.len() as int;
            let g = gates[pc as int % n];
            let reads_a = if g.opcode == 2 || g.opcode == 3 { 1int } else { 0int };
            let reads_b = if g.opcode == 3 { 1int } else { 0int };
            let u = row_uses(row, n);
            let qubit = |r: ReadCols| seq![r.q, r.limb_idx, r.bit_pos, r.mask];
            &&& u.len() == 12
            &&& u[0].id is State && u[0].mult == 1
            &&& u[0].tuple.len() == 34 && u[0].tuple[0] == shot && u[0].tuple[1] == pc
            &&& hold(u[0].tuple.skip(2), state_at(gates, start, pc as nat))
            &&& u[1].id is State && u[1].mult == -1
            &&& u[1].tuple.len() == 34 && u[1].tuple[0] == shot && u[1].tuple[1] == pc + 1
            &&& hold(u[1].tuple.skip(2), state_at(gates, start, pc as nat + 1))
            &&& u[2].id is QDecode && u[2].mult == 1 && u[2].tuple == qubit(row.target)
            &&& u[3].id is QDecode && u[3].mult == reads_a && u[3].tuple == qubit(row.ctrl_a)
            &&& u[4].id is QDecode && u[4].mult == reads_b && u[4].tuple == qubit(row.ctrl_b)
            &&& u[5].id is RcLo && u[5].mult == 1 && u[5].tuple == seq![row.target.bit_pos, row.target.lo]
            &&& u[6].id is RcHi && u[6].mult == 1 && u[6].tuple == seq![row.target.bit_pos, row.target.hi]
            &&& u[7].id is RcLo && u[7].mult == reads_a && u[7].tuple == seq![
                row.ctrl_a.bit_pos,
                row.ctrl_a.lo,
            ]
            &&& u[8].id is RcHi && u[8].mult == reads_a && u[8].tuple == seq![
                row.ctrl_a.bit_pos,
                row.ctrl_a.hi,
            ]
            &&& u[9].id is RcLo && u[9].mult == reads_b && u[9].tuple == seq![
                row.ctrl_b.bit_pos,
                row.ctrl_b.lo,
            ]
            &&& u[10].id is RcHi && u[10].mult == reads_b && u[10].tuple == seq![
                row.ctrl_b.bit_pos,
                row.ctrl_b.hi,
            ]
            &&& u[11].id is Program && u[11].mult == 1 && u[11].tuple == seq![
                (pc as int % n) as u32,
                g.opcode as u32,
                g.target as u32,
                if reads_a == 1 { g.ctrl_a as u32 } else { 0 },
                if reads_b == 1 { g.ctrl_b as u32 } else { 0 },
            ]
        }),
{
    let u = row_uses(row, gates.len() as int);
    assert(u[0].tuple.skip(2) =~= row.in_limb@);
    assert(u[1].tuple.skip(2) =~= row.out_limb@);
}

/// The columns of a row, one by one: seven of the step, the limbs before and after, three
/// reads of 39 columns each, and three of what its gate did.
pub proof fn lemma_columns_of_row(row: Row, j: int)
    ensures
        ({
            let c = row_cells(row);
            &&& c.len() == 191
            &&& c[0] == row.enabler && c[1] == row.is_nop && c[2] == row.is_not && c[3] == row.is_cnot
            &&& c[4] == row.is_toffoli && c[5] == row.shot_id && c[6] == row.pc
            &&& 0 <= j < 32 ==> c[7 + j] == row.in_limb@[j] && c[39 + j] == row.out_limb@[j]
            &&& read_stands(c, 71, row.target, j)
            &&& read_stands(c, 110, row.ctrl_a, j)
            &&& read_stands(c, 149, row.ctrl_b, j)
            &&& c[188] == row.ab && c[189] == row.fire && c[190] == row.delta
        }),
{
    let c = row_cells(row);
    let head = seq![
        row.enabler,
        row.is_nop,
        row.is_not,
        row.is_cnot,
        row.is_toffoli,
        row.shot_id,
        row.pc,
    ];
    assert(head.len() == 7);
    assert(row.in_limb@.len() == 32 && row.out_limb@.len() == 32);
}

/// The 39 columns of a read from column `o` on.
pub open spec fn read_stands(c: Seq<u32>, o: int, r: ReadCols, j: int) -> bool {
    &&& c[o] == r.q && c[o + 1] == r.limb_idx && c[o + 2] == r.bit_pos && c[o + 3] == r.mask
    &&& 0 <= j < 32 ==> c[o + 4 + j] == r.lsel@[j]
    &&& c[o + 36] == r.lo && c[o + 37] == r.hi && c[o + 38] == r.bit
}

/// Padding columns are zero, but for the three weights, which are one.
pub proof fn lemma_padding_columns(rows: Seq<Row>, i: int, c: int)
    requires
        0 <= c < 191,
    ensures
        0 <= i < rows.len() ==> padded_cell(rows, i, c) == row_cells(rows[i])[c],
        i >= rows.len() ==> padded_cell(rows, i, c) == (if c == 74 || c == 113 || c == 152 {
            1int
        } else {
            0int
        }),
{
}

proof fn lemma_lo_start(p: int)
    requires
        0 <= p <= 16,
    ensures
        block_start(lo_bounds(), p) == pow2(p as nat) - 1,
    decreases p,
{
    lemma2_to64();
    if p > 0 {
        lemma_lo_start(p - 1);
        lemma_pow2_unfold(p as nat);
        lemma_mask((p - 1) as u32);
    }
}

proof fn lemma_hi_start(p: int)
    requires
        0 <= p <= 16,
    ensures
        block_start(hi_bounds(), p) == 65536 - pow2((16 - p) as nat),
    decreases p,
{
    lemma2_to64();
    if p > 0 {
        lemma_hi_start(p - 1);
        lemma_pow2_unfold((17 - p) as nat);
        lemma_mask((16 - p) as u32);
    }
}

/// The tables that are looked up. Row `q` of the first takes qubit `q` apart. What may lie
/// below place `p` of a limb stands in the second from row `2^p - 1` on, and what may lie
/// above it in the third from row `2^16 - 2^(16 - p)` on. A gate stands in its slot.
pub proof fn lemma_tables_list(w: &TraceWitness, gates: Seq<Gate>, cases: Seq<TestCase>, k: nat, q: int, p: int, v: int, i: int)
    requires
        w.of(gates, cases, k),
        0 <= q < 512,
        0 <= p < 16,
        0 <= v,
        0 <= i < gates.len(),
    ensures
        tuple_at(qdecode_cols(&w.qdecode), q) == seq![
            q as u32,
            (q / 16) as u32,
            (q % 16) as u32,
            pow2((q % 16) as nat) as u32,
        ],
        w.rc_lo.pos_col@.len() == 65536 && w.rc_hi.pos_col@.len() == 65536,
        v < pow2(p as nat) ==> tuple_at(rc_cols(&w.rc_lo), pow2(p as nat) - 1 + v) == seq![
            p as u32,
            v as u32,
        ],
        v < pow2((15 - p) as nat) ==> tuple_at(
            rc_cols(&w.rc_hi),
            65536 - pow2((16 - p) as nat) + v,
        ) == seq![p as u32, v as u32],
        tuple_at(program_cols(&w.program), i) == seq![
            w.program.slot@[i],
            w.program.opcode_scalar@[i],
            w.program.target@[i],
            w.program.ctrl_a@[i],
            w.program.ctrl_b@[i],
        ],
{
    lemma2_to64();
    lemma_lo_start(p);
    lemma_lo_start(p + 1);
    lemma_hi_start(p);
    lemma_hi_start(p + 1);
    lemma_pow2_unfold((p + 1) as nat);
    lemma_pow2_unfold((16 - p) as nat);
    lemma_mask(p as u32);
    lemma_mask((15 - p) as u32);
    assert(block_lists(w.rc_lo.pos_col@, w.rc_lo.val_col@, lo_bounds(), p));
    assert(block_lists(w.rc_hi.pos_col@, w.rc_hi.val_col@, hi_bounds(), p));
    if v < pow2(p as nat) {
        let at = pow2(p as nat) - 1 + v;
        assert(w.rc_lo.pos_col@[at] == p);
        assert(tuple_at(rc_cols(&w.rc_lo), at) =~= seq![p as u32, v as u32]);
    }
    if v < pow2((15 - p) as nat) {
        let at = 65536 - pow2((16 - p) as nat) + v;
        assert(w.rc_hi.pos_col@[at] == p);
        assert(tuple_at(rc_cols(&w.rc_hi), at) =~= seq![p as u32, v as u32]);
    }
    lemma_mask((q % 16) as u32);
    assert(tuple_at(program_cols(&w.program), i) =~= seq![
        w.program.slot@[i],
        w.program.opcode_scalar@[i],
        w.program.target@[i],
        w.program.ctrl_a@[i],
        w.program.ctrl_b@[i],
    ]);
}

/// What the test vectors say: one more shot adds its first state at step zero and takes off
/// its last state at the last step, each with the number of the shot.
pub proof fn lemma_one_more_shot(el: &LookupElements, cases: Seq<TestCase>, c: TestCase, total: int)
    requires
        is_digits(c.x_hex@) && c.x_hex@.len() == 128,
        is_digits(c.y_hex@) && c.y_hex@.len() == 128,
    ensures
        ({
            let x = state_limbs(text_state(c.x_hex@));
            let y = state_limbs(text_state(c.y_hex@));
            &&& hold(x, state_in(c.x_hex@))
            &&& hold(y, state_in(c.y_hex@))
            &&& boundary_value(el, cases.push(c), total) == boundary_value(el, cases, total) + (
            crate::lookup_laws::worth(&el.state, 1, seq![cases.len() as u32, 0u32] + x)
                - crate::lookup_laws::worth(
                &el.state,
                1,
                seq![cases.len() as u32, total as u32] + y,
            ))
        }),
{
    lemma_start(c.x_hex@);
    lemma_start(c.y_hex@);
    crate::circuit::lemma_state_limbs(crate::circuit::byte_limbs(crate::hexes::hex_bytes(c.x_hex@)));
    crate::circuit::lemma_state_limbs(crate::circuit::byte_limbs(crate::hexes::hex_bytes(c.y_hex@)));
    lemma_hold(state_limbs(text_state(c.x_hex@)), state_in(c.x_hex@));
    lemma_hold(state_limbs(text_state(c.y_hex@)), state_in(c.y_hex@));
    let f = |s: int|
        crate::whole_state_lookups::state_value(
            el,
            s,
            0,
            state_limbs(text_state(cases.push(c)[s].x_hex@)),
        ) - crate::whole_state_lookups::state_value(
            el,
            s,
            total,
            state_limbs(text_state(cases.push(c)[s].y_hex@)),
        );
    let g = |s: int|
        crate::whole_state_lookups::state_value(
            el,
            s,
            0,
            state_limbs(text_state(cases[s].x_hex@)),
        ) - crate::whole_state_lookups::state_value(
            el,
            s,
            total,
            state_limbs(text_state(cases[s].y_hex@)),
        );
    crate::sums::lemma_sum_ext(cases.len(), f, g);
}

/// The committed columns of a witness. Beside a row stands the slot that holds its gate; the
/// decoding table and the range tables follow, then the slots. Hidden are the 191 columns of
/// the rows, how often each row of the three tables is looked up, and the program.
pub proof fn lemma_committed_columns(
    w: &TraceWitness,
    gates: Seq<Gate>,
    cases: Seq<TestCase>,
    k: nat,
    public: Seq<Vec<u32>>,
    hidden: Seq<Vec<u32>>,
    s: int,
    j: int,
    c: int,
    q: int,
)
    requires
        w.of(gates, cases, k),
        gates.len() <= u32::MAX,
        w.are_public_columns(public, gates.len() as int),
        w.are_hidden_columns(hidden),
        0 <= s < cases.len(),
        0 <= j < k * gates.len(),
        is_digits(cases[s].x_hex@) && cases[s].x_hex@.len() == 128,
        0 <= c < 191,
        0 <= q < 512,
    ensures
        ({
            let i = s * (k * gates.len()) + j;
            let row = w.rows@[i];
            let slot = public[0]@[i] as int;
            &&& public.len() == 10 && hidden.len() == 199
            &&& public[0]@.len() == w.rows@.len() && hidden[c]@.len() == w.rows@.len()
            &&& slot < gates.len()
            &&& gates[slot].opcode == row.is_not + 2 * row.is_cnot + 3 * row.is_toffoli
            &&& gates[slot].target == row.target.q
            &&& row.is_cnot + row.is_toffoli == 1 ==> gates[slot].ctrl_a == row.ctrl_a.q
            &&& row.is_toffoli == 1 ==> gates[slot].ctrl_b == row.ctrl_b.q
            &&& public[1]@[q] == q && public[2]@[q] == q / 16 && public[3]@[q] == q % 16
            &&& public[4]@[q] == pow2((q % 16) as nat)
            &&& public[5]@ == w.rc_lo.pos_col@ && public[6]@ == w.rc_lo.val_col@
            &&& public[7]@ == w.rc_hi.pos_col@ && public[8]@ == w.rc_hi.val_col@
            &&& public[9]@ == w.program.slot@
            &&& hidden[c]@[i] == row_cells(row)[c]
            &&& hidden[191]@ == w.counts.qdecode@ && hidden[192]@ == w.counts.rc_lo@ && hidden[193]@
                == w.counts.rc_hi@
            &&& hidden[194]@ == w.program.opcode_scalar@ && hidden[195]@ == w.program.target@
            &&& hidden[196]@ == w.program.ctrl_a@ && hidden[197]@ == w.program.ctrl_b@
            &&& hidden[198]@ == w.program.multiplicity@
        }),
{
    lemma_rows_say_what_happened(w, gates, cases, k, s, j);
    vstd::arithmetic::div_mod::lemma_mod_bound(j, gates.len() as int);
    lemma_tables_list(w, gates, cases, k, q, 0, 0, 0);
    let t = tuple_at(qdecode_cols(&w.qdecode), q);
    assert(t[0] == q && t[1] == q / 16 && t[2] == q % 16);
    lemma_mask((q % 16) as u32);
    assert(t[3] == pow2((q % 16) as nat));
    assert(public[0int + 1]@ == w.qdecode@[0]@);
    assert(public[1int + 1]@ == w.qdecode@[1]@);
    assert(public[2int + 1]@ == w.qdecode@[2]@);
    assert(public[3int + 1]@ == w.qdecode@[3]@);
    assert(hidden[c]@ == Seq::new(w.rows@.len(), |i: int| row_cells(w.rows@[i])[c]));
}

/// The constraints of a row, in order: its four flags and their sum; of each of its three
/// reads the 32 selectors, their sum, where they point, how the limb splits, and that the
/// qubit is a bit, and zero where it is not read; the product, the firing and the change;
/// and how each limb changes.
pub proof fn lemma_constraints_in_order(t: Seq<Ext>, j: int)
    requires
        0 <= j < 32,
    ensures
        ({
            let c = row_checks(t);
            let one = Ext { a: 1, b: 0, c: 0, d: 0 };
            let two = Ext::base(2);
            &&& c.len() == 151
            &&& c[0] == t[1] * (t[1] - one) && c[1] == t[2] * (t[2] - one)
            &&& c[2] == t[3] * (t[3] - one) && c[3] == t[4] * (t[4] - one)
            &&& c[4] == (((t[0] - t[1]) - t[2]) - t[3]) - t[4]
            &&& read_constrained(c, 5, t, 71, t[0], j)
            &&& read_constrained(c, 42, t, 110, t[3] + t[4], j)
            &&& read_constrained(c, 79, t, 149, t[4], j)
            &&& c[116] == t[188] - t[148] * t[187]
            &&& c[117] == ((t[189] - t[2]) - t[3] * t[148]) - t[4] * t[188]
            &&& c[118] == (t[190] - t[189]) + (t[109] * t[189]) * two
            &&& c[119 + j] == (t[39 + j] - t[7 + j]) - (t[75 + j] * t[190]) * t[74]
        }),
{
    let c = row_checks(t);
    let r0 = crate::whole_state_air::read_checks(t, 71, t[0]);
    let r1 = crate::whole_state_air::read_checks(t, 110, t[3] + t[4]);
    let r2 = crate::whole_state_air::read_checks(t, 149, t[4]);
    assert(r0.len() == 37 && r1.len() == 37 && r2.len() == 37);
    assert(c[5 + j] == r0[j] && c[42 + j] == r1[j] && c[79 + j] == r2[j]);
    assert(71 + 4 + j == 75 + j);
    assert(c[119 + j] == (t[39 + j] - t[7 + j]) - (t[71 + 4 + j] * t[190]) * t[74]);
}

/// The 37 constraints of a read from constraint `k` on, whose columns are those from `o` on.
pub open spec fn read_constrained(c: Seq<Ext>, k: int, t: Seq<Ext>, o: int, active: Ext, j: int) -> bool {
    let one = Ext { a: 1, b: 0, c: 0, d: 0 };
    let (mask, lo, hi, b) = (t[o + 3], t[o + 36], t[o + 37], t[o + 38]);
    &&& c[k + j] == t[o + 4 + j] * (t[o + 4 + j] - one)
    &&& c[k + 32] == sum(32, |i: int| t[o + 4 + i]) - active
    &&& c[k + 33] == sum(32, |i: int| t[o + 4 + i] * Ext::base(i)) - t[o + 1]
    &&& c[k + 34] == ((sum(32, |i: int| t[o + 4 + i] * t[7 + i]) - (hi * mask) * Ext::base(2)) - b * mask)
        - lo
    &&& c[k + 35] == b * (b - one)
    &&& c[k + 36] == (one - active) * b
}

} // verus!
