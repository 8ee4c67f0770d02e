//! What is committed satisfies the constraints: every row of every trace that is
//! built, padding included, against the public columns of its position.
use vstd::arithmetic::div_mod::lemma_mod_bound;
use vstd::prelude::*;

use crate::circuit::{run, Gate, TestCase};
use crate::circuit_statement::PublicRow;
use crate::components::{
    all_zero, bool_check, gate_checks, lemma_gate_row_satisfies, lemma_padding_satisfies, row_cells,
};
use crate::field::{
    lemma_add_zero, lemma_base_add, lemma_base_mul, lemma_mul_comm, lemma_mul_zero, Ext, QM31,
};
use crate::iadd::{IaddCase, RangeCheckMode};
use crate::iadd_run::IaddTrace;
use crate::logup::{embed, views};
use crate::preprocessed::ColumnId;
use crate::qubit_memory::{
    all_rows_of, are_built, all_runnable, last_access, lemma_last_access, padding_row,
    BoundaryTable, Row,
};
use crate::shard::{public_value, ShardWitness};
use crate::whole_state::text_state;
use crate::whole_state_run::TraceWitness;

verus! {

/// The constraints of a row, weighted by the powers of a coefficient: what a
/// verifier accumulates of them.
pub open spec fn accumulated(coeff: Ext, constraints: Seq<Ext>) -> Ext
    decreases constraints.len(),
{
    if constraints.len() == 0 {
        Ext::zero()
    } else {
        accumulated(coeff, constraints.drop_last()) * coeff + constraints.last()
    }
}

/// Constraints that hold add up to zero under every coefficient.
proof fn lemma_nothing_accumulates(coeff: Ext, constraints: Seq<Ext>)
    requires
        all_zero(constraints),
    ensures
        accumulated(coeff, constraints) == Ext::zero(),
    decreases constraints.len(),
{
    if constraints.len() > 0 {
        assert(all_zero(constraints.drop_last()));
        lemma_nothing_accumulates(coeff, constraints.drop_last());
        lemma_mul_comm(Ext::zero(), coeff);
        lemma_mul_zero(coeff);
        lemma_add_zero(Ext::zero());
        assert(constraints[constraints.len() - 1] == Ext::zero());
    }
}

/// The public values of a row are those that the row itself holds.
pub open spec fn public_row_of(public: &PublicRow, row: Row, n_gates: int) -> bool {
    &&& public.at(ColumnId::Enabler) == Ext::base(row.enabler as int)
    &&& public.at(ColumnId::ShotId) == Ext::base(row.shot_id as int)
    &&& public.at(ColumnId::Pc) == Ext::base(row.pc as int)
    &&& public.at(ColumnId::PcInProg) == Ext::base(row.pc as int % n_gates)
}

/// On every row that running a circuit gives, every constraint of the main component
/// is zero, and so is what a verifier accumulates of them, whatever its coefficient.
pub proof fn lemma_built_rows_satisfy(
    rows: Seq<Row>,
    boundary: &BoundaryTable,
    gates: Seq<Gate>,
    cases: Seq<TestCase>,
    k: nat,
    i: int,
    public: &PublicRow,
    cols: Seq<QM31>,
    constraints: Seq<QM31>,
    coeff: Ext,
)
    requires
        are_built(rows, boundary, gates, cases, k),
        0 <= i < rows.len(),
        public_row_of(public, rows[i], gates.len() as int),
        views(cols) == embed(row_cells(rows[i])),
        views(constraints) == gate_checks(
            public.at(ColumnId::Enabler),
            public.at(ColumnId::Pc),
            views(cols),
        ),
    ensures
        all_zero(views(constraints)),
        accumulated(coeff, views(constraints)) == Ext::zero(),
{
    lemma_run_row_satisfies(rows, gates, cases, k, i);
    lemma_base_add(0, 1);
    lemma_nothing_accumulates(coeff, views(constraints));
}

proof fn lemma_run_row_satisfies(rows: Seq<Row>, gates: Seq<Gate>, cases: Seq<TestCase>, k: nat, i: int)
    requires
        k > 0,
        gates.len() > 0,
        k * gates.len() < u32::MAX,
        all_runnable(gates),
        all_rows_of(rows, gates, cases, (k * gates.len()) as int),
        0 <= i < rows.len(),
    ensures
        all_zero(
            gate_checks(
                Ext::one(),
                Ext::base(i % (k * gates.len()) as int),
                embed(row_cells(rows[i])),
            ),
        ),
        rows[i].enabler == 1,
        rows[i].pc == i % (k * gates.len()) as int,
{
    let m = (k * gates.len()) as int;
    assert(m > 0) by (nonlinear_arith)
        requires
            k > 0,
            gates.len() > 0,
            m == k * gates.len(),
    ;
    lemma_mod_bound(i, m);
    let pc = i % m;
    lemma_mod_bound(pc, gates.len() as int);
    let g = gates[pc % gates.len() as int];
    assert(g.runnable());
    lemma_last_access(gates, pc as nat);
    lemma_gate_row_satisfies(
        g,
        run(gates, text_state(cases[i / m].x_hex@), pc as nat),
        last_access(gates, pc as nat),
        i / m,
        pc,
    );
}

/// The public value at position `i` of a shard's column.
pub open spec fn public_at(w: &ShardWitness, id: ColumnId, n_shots: int, k: int, n_gates: int, i: int) -> int {
    public_value(id, w.shape.n_rows as int, n_shots, k, n_gates, i)
}

/// Every row of a shard's main trace satisfies the constraints of its component,
/// given the public columns of its position, which hold what the row stands for.
pub proof fn lemma_shard_rows_satisfy(
    w: &ShardWitness,
    gates: Seq<Gate>,
    cases: Seq<TestCase>,
    k: nat,
    log_blowup: u32,
    i: int,
)
    requires
        w.of(gates, cases, k, log_blowup),
        0 <= i < w.rows@.len(),
    ensures
        ({
            let (s, n) = (cases.len() as int, gates.len() as int);
            let row = w.rows@[i];
            &&& all_zero(
                gate_checks(
                    Ext::base(public_at(w, ColumnId::Enabler, s, k as int, n, i)),
                    Ext::base(public_at(w, ColumnId::Pc, s, k as int, n, i)),
                    embed(row_cells(row)),
                ),
            )
            &&& row.enabler == public_at(w, ColumnId::Enabler, s, k as int, n, i)
            &&& row.pc == public_at(w, ColumnId::Pc, s, k as int, n, i)
            &&& row.shot_id == public_at(w, ColumnId::ShotId, s, k as int, n, i) as u32
        }),
{
    lemma_base_add(0, 1);
    lemma_base_add(0, 0);
    if i < w.shape.n_rows {
        assert(w.real_rows()[i] == w.rows@[i]);
        lemma_run_row_satisfies(w.real_rows(), gates, cases, k, i);
    } else {
        assert(w.pad_rows()[i - w.shape.n_rows] == w.rows@[i]);
        assert(w.rows@[i] == padding_row());
        lemma_padding_satisfies();
    }
}

/// A bit passes the check for bits.
proof fn lemma_bit_passes(v: int)
    requires
        v == 0 || v == 1,
    ensures
        bool_check(Ext::base(v)) == Ext::zero(),
{
    lemma_base_add(v, 1);
    lemma_base_mul(v, v - 1);
    assert(v * (v - 1) == 0) by (nonlinear_arith)
        requires
            v == 0 || v == 1,
    ;
    lemma_base_add(0, 0);
}

/// Every row of a shard's boundary satisfies the constraints of its component.
pub proof fn lemma_boundary_rows_satisfy(
    w: &ShardWitness,
    gates: Seq<Gate>,
    cases: Seq<TestCase>,
    k: nat,
    log_blowup: u32,
    i: int,
)
    requires
        w.of(gates, cases, k, log_blowup),
        0 <= i < w.boundary.rows@.len(),
    ensures
        bool_check(Ext::base(w.boundary.rows@[i].x as int)) == Ext::zero(),
        bool_check(Ext::base(w.boundary.rows@[i].y as int)) == Ext::zero(),
{
    let row = w.boundary.rows@[i];
    assert(row.x <= 1 && row.y <= 1);
    lemma_bit_passes(row.x as int);
    lemma_bit_passes(row.y as int);
}

/// Every row of a whole-state trace satisfies the constraints.
pub proof fn lemma_whole_state_rows_satisfy(
    w: &TraceWitness,
    gates: Seq<Gate>,
    cases: Seq<TestCase>,
    k: nat,
    i: int,
)
    requires
        w.of(gates, cases, k),
        0 <= i < w.rows@.len(),
    ensures
        all_zero(
            crate::whole_state_air::row_checks(
                embed(crate::whole_state_air::row_cells(w.rows@[i])),
            ),
        ),
{
    let m = (k * gates.len()) as int;
    assert(m > 0) by (nonlinear_arith)
        requires
            k > 0,
            gates.len() > 0,
            m == k * gates.len(),
    ;
    if i < w.n_rows {
        assert(w.real_rows()[i] == w.rows@[i]);
        lemma_mod_bound(i, m);
        lemma_mod_bound(i % m, gates.len() as int);
        crate::whole_state_air::lemma_gate_row_satisfies(
            w.rows@[i],
            gates[(i % m) % gates.len() as int],
            run(
                gates,
                text_state(cases[i / m].x_hex@),
                (i % m) as nat,
            ),
            i / m,
            i % m,
        );
    } else {
        assert(w.pad_rows()[i - w.n_rows] == w.rows@[i]);
        crate::whole_state_air::lemma_padding_satisfies(w.rows@[i]);
    }
}

/// Every row of a trace of additions satisfies the constraints.
pub proof fn lemma_iadd_rows_satisfy(
    t: &IaddTrace,
    cases: Seq<IaddCase>,
    k: nat,
    mode: RangeCheckMode,
    i: int,
)
    requires
        0 < k,
        t.of(cases, k, mode),
        0 <= i < t.rows@.len(),
    ensures
        all_zero(
            crate::iadd_air::row_checks(
                embed(crate::iadd_rows::row_cells(t.rows@[i], mode)),
                mode,
            ),
        ),
{
    if i < t.n_rows {
        lemma_mod_bound(i, k as int);
        assert(t.real_rows()[i] == t.rows@[i]);
        assert(t.real_rows()[i].adds(cases[i / k as int], i / k as int, i % k as int));
        crate::iadd_laws::lemma_addition_satisfies(
            t.rows@[i],
            cases[i / k as int],
            i / k as int,
            i % k as int,
            mode,
        );
    } else {
        assert(t.rows@[i].is_zero());
        crate::iadd_laws::lemma_padding_satisfies(t.rows@[i], mode);
    }
}

} // verus!
