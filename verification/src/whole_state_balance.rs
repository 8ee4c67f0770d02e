//! Why the claimed sums of an honest whole-state trace balance.
use vstd::prelude::*;

use crate::circuit::{
    is_first_unknown, lemma_run_step, lemma_state_limbs, operands_valid, run, state_limbs, weight,
    Gate, TestCase, N_QUBITS,
};
use crate::field::{
    lemma_add_assoc, lemma_add_comm, lemma_add_zero, lemma_base_add, lemma_mul_zero, lemma_neg_mul,
    lemma_ops_wf, lemma_sub_is_add_neg, lemma_sub_self, Ext,
};
use crate::logup::{table_value, tuple_at, Relation};
use crate::program::ProgramTable;
use crate::sums::{
    lemma_sum_add, lemma_sum_blocks, lemma_sum_const, lemma_sum_ext, lemma_sum_neg,
    lemma_sum_single, lemma_sum_split, lemma_sum_telescope, lemma_sum_wf, lemma_sum_zero,
    lemma_weighted_bump, lemma_weighted_ext, sum, weighted,
};
use crate::whole_state::{
    all_rows_step, counts_hits, hi_bounds, is_first_refused, lemma_flat_index,
    lemma_read_in_tables, lo_bounds, shot_outcome, text_state, LookupCounts, RcIndex, ReadCols,
    Row, Table, RC_SIZE,
};
use crate::whole_state_lookups::{
    boundary_value, hi_seq, lo_seq, main_value, program_seq, qdecode_seq, row_uses, row_value, state_seq, state_value, use_value,
    LookupElements, RelationId,
};

verus! {

/// The part of lookup `j` of a row that falls to one relation.
pub open spec fn part(el: &LookupElements, row: Row, n: int, id: RelationId, j: int) -> Ext {
    if row_uses(row, n)[j].id == id {
        use_value(el, row, n, j)
    } else {
        Ext::zero()
    }
}

/// What a row's lookups in one relation amount to.
pub open spec fn row_part(el: &LookupElements, row: Row, n: int, id: RelationId) -> Ext {
    sum(12, |j: int| part(el, row, n, id, j))
}

/// What all rows' lookups in one relation amount to.
pub open spec fn total_part(el: &LookupElements, rows: Seq<Row>, n: int, id: RelationId) -> Ext {
    sum(rows.len(), |i: int| row_part(el, rows[i], n, id))
}

/// Five parts, added up.
pub open spec fn five(s: Ext, q: Ext, l: Ext, h: Ext, p: Ext) -> Ext {
    s + (q + (l + (h + p)))
}

proof fn lemma_use_wf(el: &LookupElements, row: Row, n: int, j: int)
    ensures
        use_value(el, row, n, j).wf(),
{
    let u = row_uses(row, n)[j];
    lemma_ops_wf(Ext::base(u.mult), el.den(u.id, u.tuple).inv());
}

proof fn lemma_part_split(el: &LookupElements, row: Row, n: int, j: int)
    requires
        0 <= j < 12,
    ensures
        use_value(el, row, n, j) == five(
            part(el, row, n, RelationId::State, j),
            part(el, row, n, RelationId::QDecode, j),
            part(el, row, n, RelationId::RcLo, j),
            part(el, row, n, RelationId::RcHi, j),
            part(el, row, n, RelationId::Program, j),
        ),
{
    lemma_use_wf(el, row, n, j);
    lemma_add_zero(use_value(el, row, n, j));
    lemma_add_zero(Ext::zero());
}

/// Splits a sum of five-part summands into five sums.
proof fn lemma_five_sums(
    m: nat,
    f: spec_fn(int) -> Ext,
    s: spec_fn(int) -> Ext,
    q: spec_fn(int) -> Ext,
    l: spec_fn(int) -> Ext,
    h: spec_fn(int) -> Ext,
    p: spec_fn(int) -> Ext,
)
    requires
        forall|i: int| 0 <= i < m ==> #[trigger] f(i) == five(s(i), q(i), l(i), h(i), p(i)),
    ensures
        sum(m, f) == five(sum(m, s), sum(m, q), sum(m, l), sum(m, h), sum(m, p)),
{
    let hp = |i: int| h(i) + p(i);
    let lhp = |i: int| l(i) + hp(i);
    let qlhp = |i: int| q(i) + lhp(i);
    lemma_sum_add(m, h, p, hp);
    lemma_sum_add(m, l, hp, lhp);
    lemma_sum_add(m, q, lhp, qlhp);
    assert forall|i: int| 0 <= i < m implies #[trigger] f(i) == s(i) + qlhp(i) by {}
    lemma_sum_add(m, s, qlhp, f);
}

/// The main trace's claim falls apart into its five relations.
proof fn lemma_main_parts(el: &LookupElements, rows: Seq<Row>, n: int)
    ensures
        main_value(el, rows, n) == five(
            total_part(el, rows, n, RelationId::State),
            total_part(el, rows, n, RelationId::QDecode),
            total_part(el, rows, n, RelationId::RcLo),
            total_part(el, rows, n, RelationId::RcHi),
            total_part(el, rows, n, RelationId::Program),
        ),
{
    let f = |i: int| row_value(el, rows[i], n);
    let s = |i: int| row_part(el, rows[i], n, RelationId::State);
    let q = |i: int| row_part(el, rows[i], n, RelationId::QDecode);
    let l = |i: int| row_part(el, rows[i], n, RelationId::RcLo);
    let h = |i: int| row_part(el, rows[i], n, RelationId::RcHi);
    let p = |i: int| row_part(el, rows[i], n, RelationId::Program);
    assert forall|i: int| 0 <= i < rows.len() implies #[trigger] f(i) == five(
        s(i),
        q(i),
        l(i),
        h(i),
        p(i),
    ) by {
        let row = rows[i];
        let g = |j: int| use_value(el, row, n, j);
        assert forall|j: int| 0 <= j < 12 implies #[trigger] g(j) == five(
            part(el, row, n, RelationId::State, j),
            part(el, row, n, RelationId::QDecode, j),
            part(el, row, n, RelationId::RcLo, j),
            part(el, row, n, RelationId::RcHi, j),
            part(el, row, n, RelationId::Program, j),
        ) by {
            lemma_part_split(el, row, n, j);
        }
        lemma_five_sums(
            12,
            g,
            |j: int| part(el, row, n, RelationId::State, j),
            |j: int| part(el, row, n, RelationId::QDecode, j),
            |j: int| part(el, row, n, RelationId::RcLo, j),
            |j: int| part(el, row, n, RelationId::RcHi, j),
            |j: int| part(el, row, n, RelationId::Program, j),
        );
    }
    lemma_five_sums(rows.len(), f, s, q, l, h, p);
}

/// A sum over twelve indices with at most three summands that differ from zero.
proof fn lemma_sum_three(f: spec_fn(int) -> Ext, a: int, b: int, c: int)
    requires
        0 <= a < b < c < 12,
        f(a).wf(),
        f(b).wf(),
        f(c).wf(),
        forall|j: int| 0 <= j < 12 && j != a && j != b && j != c ==> #[trigger] f(j) == Ext::zero(),
    ensures
        sum(12, f) == (f(a) + f(b)) + f(c),
{
    let fa = |j: int| if j == a { f(a) } else { Ext::zero() };
    let fb = |j: int| if j == b { f(b) } else { Ext::zero() };
    let fc = |j: int| if j == c { f(c) } else { Ext::zero() };
    let fab = |j: int| fa(j) + fb(j);
    lemma_sum_single(12, a, fa);
    lemma_sum_single(12, b, fb);
    lemma_sum_single(12, c, fc);
    lemma_sum_add(12, fa, fb, fab);
    lemma_add_zero(f(a));
    lemma_add_zero(f(b));
    lemma_add_zero(f(c));
    lemma_add_zero(Ext::zero());
    assert forall|j: int| 0 <= j < 12 implies #[trigger] f(j) == fab(j) + fc(j) by {}
    lemma_sum_add(12, fab, fc, f);
}

/// The relation of a lookup table.
pub open spec fn table_relation(t: Table) -> RelationId {
    match t {
        Table::QDecode => RelationId::QDecode,
        Table::Lo(_) => RelationId::RcLo,
        Table::Hi(_) => RelationId::RcHi,
    }
}

pub open spec fn read_seq(t: Table, r: ReadCols) -> Seq<u32> {
    match t {
        Table::QDecode => qdecode_seq(r),
        Table::Lo(_) => lo_seq(r),
        Table::Hi(_) => hi_seq(r),
    }
}

/// The inverse denominators of a table's rows.
pub open spec fn supply(rel: &Relation, cols: Seq<&Vec<u32>>) -> spec_fn(int) -> Ext {
    |i: int| rel.den(tuple_at(cols, i)).inv()
}

/// A read that is made finds its tuple in the table, in the row it looks up.
pub open spec fn read_found(t: Table, r: ReadCols, cols: Seq<&Vec<u32>>, len: nat) -> bool {
    r.active != 0 ==> 0 <= t.slot(r) < len && tuple_at(cols, t.slot(r)) == read_seq(t, r)
}

/// The reads of a row are flagged as the row's opcode says, and are found.
pub open spec fn row_found(t: Table, row: Row, cols: Seq<&Vec<u32>>, len: nat) -> bool {
    &&& row.target.active == row.enabler
    &&& row.ctrl_a.active == row.is_cnot + row.is_toffoli
    &&& row.ctrl_b.active == row.is_toffoli
    &&& row.target.active <= 1
    &&& row.ctrl_a.active <= 1
    &&& row.ctrl_b.active <= 1
    &&& read_found(t, row.target, cols, len)
    &&& read_found(t, row.ctrl_a, cols, len)
    &&& read_found(t, row.ctrl_b, cols, len)
}

/// One read's contribution.
pub open spec fn read_value(rel: &Relation, t: Table, r: ReadCols) -> Ext {
    Ext::base(r.active as int) * rel.den(read_seq(t, r)).inv()
}

pub open spec fn el_rel(el: &LookupElements, t: Table) -> Relation {
    match t {
        Table::QDecode => el.qdecode,
        Table::Lo(_) => el.rc_lo,
        Table::Hi(_) => el.rc_hi,
    }
}

/// A row's lookups in a table are those of its three reads.
proof fn lemma_row_part_reads(el: &LookupElements, row: Row, n: int, t: Table, cols: Seq<&Vec<u32>>, len: nat)
    requires
        row_found(t, row, cols, len),
    ensures
        row_part(el, row, n, table_relation(t)) == (read_value(&el_rel(el, t), t, row.target)
            + read_value(&el_rel(el, t), t, row.ctrl_a)) + read_value(&el_rel(el, t), t, row.ctrl_b),
{
    let id = table_relation(t);
    let f = |j: int| part(el, row, n, id, j);
    let (a, b, c) = match t {
        Table::QDecode => (2int, 3int, 4int),
        Table::Lo(_) => (5int, 7int, 9int),
        Table::Hi(_) => (6int, 8int, 10int),
    };
    lemma_use_wf(el, row, n, a);
    lemma_use_wf(el, row, n, b);
    lemma_use_wf(el, row, n, c);
    lemma_sum_three(f, a, b, c);
}

/// Counting one read adds what the read contributes.
proof fn lemma_count_read_value(
    rel: &Relation,
    t: Table,
    r: ReadCols,
    cols: Seq<&Vec<u32>>,
    len: nat,
    h: spec_fn(int) -> int,
    h2: spec_fn(int) -> int,
)
    requires
        read_found(t, r, cols, len),
        r.active <= 1,
        forall|i: int| 0 <= i < len ==> #[trigger] h2(i) == h(i) + t.hit(r, i),
    ensures
        sum(len, weighted(h2, supply(rel, cols))) == sum(len, weighted(h, supply(rel, cols)))
            + read_value(rel, t, r),
{
    let x = supply(rel, cols);
    if r.active != 0 {
        lemma_weighted_bump(len, t.slot(r), h, h2, x);
    } else {
        lemma_weighted_ext(len, h, h2, x);
        lemma_base_add(0, 0);
        lemma_mul_zero(rel.den(read_seq(t, r)).inv());
        lemma_sum_wf(len, weighted(h, x));
        lemma_add_zero(sum(len, weighted(h, x)));
    }
}

/// What rows use of a table is what their hits weigh.
proof fn lemma_uses_are_hits(
    el: &LookupElements,
    rows: Seq<Row>,
    n: int,
    t: Table,
    cols: Seq<&Vec<u32>>,
    len: nat,
    m: nat,
)
    requires
        m <= rows.len(),
        forall|i: int| 0 <= i < m ==> row_found(t, #[trigger] rows[i], cols, len),
    ensures
        sum(m, |i: int| row_part(el, rows[i], n, table_relation(t))) == sum(
            len,
            weighted(|i: int| t.hits(rows, m, i) as int, supply(&el_rel(el, t), cols)),
        ),
    decreases m,
{
    let rel = el_rel(el, t);
    let x = supply(&rel, cols);
    let f = |i: int| row_part(el, rows[i], n, table_relation(t));
    if m == 0 {
        let w = weighted(|i: int| t.hits(rows, m, i) as int, x);
        assert forall|i: int| 0 <= i < len implies #[trigger] w(i) == Ext::zero() by {
            lemma_base_add(0, 0);
            lemma_mul_zero(x(i));
        }
        lemma_sum_zero(len, w);
    } else {
        let k = (m - 1) as nat;
        lemma_uses_are_hits(el, rows, n, t, cols, len, k);
        let row = rows[m - 1];
        assert(row_found(t, row, cols, len));
        let h0 = |i: int| t.hits(rows, k, i) as int;
        let h1 = |i: int| h0(i) + t.hit(row.target, i);
        let h2 = |i: int| h1(i) + t.hit(row.ctrl_a, i);
        let h3 = |i: int| h2(i) + t.hit(row.ctrl_b, i);
        let h = |i: int| t.hits(rows, m, i) as int;
        lemma_count_read_value(&rel, t, row.target, cols, len, h0, h1);
        lemma_count_read_value(&rel, t, row.ctrl_a, cols, len, h1, h2);
        lemma_count_read_value(&rel, t, row.ctrl_b, cols, len, h2, h3);
        assert forall|i: int| 0 <= i < len implies #[trigger] h(i) == h3(i) by {}
        lemma_weighted_ext(len, h3, h, x);
        lemma_row_part_reads(el, row, n, t, cols, len);
        let (s0, a, b, c) = (
            sum(len, weighted(h0, x)),
            read_value(&rel, t, row.target),
            read_value(&rel, t, row.ctrl_a),
            read_value(&rel, t, row.ctrl_b),
        );
        lemma_add_assoc(s0, a, b);
        lemma_add_assoc(s0, a + b, c);
        assert(f(m - 1) == (a + b) + c);
    }
}

/// What a table supplies cancels what the rows use of it.
proof fn lemma_table_cancels(
    el: &LookupElements,
    rows: Seq<Row>,
    n: int,
    t: Table,
    cols: Seq<&Vec<u32>>,
    counts: Seq<u32>,
)
    requires
        forall|i: int| 0 <= i < rows.len() ==> row_found(t, #[trigger] rows[i], cols, counts.len()),
        counts_hits(counts, t, rows, rows.len()),
    ensures
        table_value(&el_rel(el, t), counts, cols) == -total_part(el, rows, n, table_relation(t)),
{
    let rel = el_rel(el, t);
    let x = supply(&rel, cols);
    lemma_uses_are_hits(el, rows, n, t, cols, counts.len(), rows.len());
    let w = weighted(|i: int| t.hits(rows, rows.len(), i) as int, x);
    let s = |i: int| Ext::base(-counts[i]) * rel.den(tuple_at(cols, i)).inv();
    assert forall|i: int| 0 <= i < counts.len() implies #[trigger] s(i) == -w(i) by {
        assert(counts[i] == t.hits(rows, rows.len(), i));
        lemma_base_add(counts[i] as int, 0);
        lemma_neg_mul(Ext::base(counts[i] as int), x(i));
    }
    lemma_sum_neg(counts.len(), w, s);
}

/// Rows of several shots, each of which ran to its expected end.
pub open spec fn honest_rows(rows: Seq<Row>, gates: Seq<Gate>, cases: Seq<TestCase>, k: nat) -> bool {
    &&& k > 0
    &&& gates.len() > 0
    &&& rows.len() == cases.len() * (k * gates.len())
    &&& rows.len() < u32::MAX
    &&& all_rows_step(rows, gates, cases, (k * gates.len()) as int, rows.len() as int)
    &&& forall|i: int| 0 <= i < gates.len() ==> (#[trigger] gates[i]).known() && gates[i].operands_ok()
    &&& forall|s: int|
        0 <= s < cases.len() ==> run(gates, text_state((#[trigger] cases[s]).x_hex@), k * gates.len())
            == text_state(cases[s].y_hex@)
}

/// A row of shot `s` at step `j` uses the state before it and supplies the
/// state after it.
proof fn lemma_state_row(
    el: &LookupElements,
    row: Row,
    n: int,
    g: Gate,
    s0: Seq<bool>,
    shot: int,
    pc: int,
)
    requires
        row.steps(g, s0, shot, pc),
        pc < u32::MAX,
    ensures
        row_part(el, row, n, RelationId::State) == state_value(el, shot, pc, state_limbs(s0))
            - state_value(el, shot, pc + 1, state_limbs(g.apply(s0))),
{
    let f = |j: int| part(el, row, n, RelationId::State, j);
    lemma_use_wf(el, row, n, 0);
    lemma_use_wf(el, row, n, 1);
    lemma_sum_three(f, 0, 1, 2);
    lemma_state_limbs(row.in_limb@);
    lemma_state_limbs(row.out_limb@);
    let x = el.den(RelationId::State, state_seq(shot as u32, (pc + 1) as u32, row.out_limb@)).inv();
    lemma_base_add(1, 0);
    lemma_neg_mul(Ext::base(1), x);
    lemma_ops_wf(f(0), f(1));
    lemma_add_zero(f(0) + f(1));
    lemma_sub_is_add_neg(f(0), Ext::base(1) * x);
}

/// The state lookups of all rows leave the states before and after each shot.
proof fn lemma_state_total(
    el: &LookupElements,
    rows: Seq<Row>,
    gates: Seq<Gate>,
    cases: Seq<TestCase>,
    k: nat,
)
    requires
        honest_rows(rows, gates, cases, k),
    ensures
        total_part(el, rows, gates.len() as int, RelationId::State) == boundary_value(
            el,
            cases,
            (k * gates.len()) as int,
        ),
{
    let n = gates.len() as int;
    let m = k * gates.len();
    let f = |i: int| row_part(el, rows[i], n, RelationId::State);
    let block = |s: int| sum(m, |j: int| f(s * m + j));
    let ends = |s: int|
        state_value(el, s, 0, state_limbs(text_state(cases[s].x_hex@))) - state_value(
            el,
            s,
            m as int,
            state_limbs(text_state(cases[s].y_hex@)),
        );
    lemma_sum_blocks(cases.len(), m, f, block);
    assert forall|s: int| 0 <= s < cases.len() implies #[trigger] block(s) == ends(s) by {
        let x = text_state(cases[s].x_hex@);
        let chain = |j: int| state_value(el, s, j, state_limbs(run(gates, x, j as nat)));
        let h = |j: int| f(s * m + j);
        assert forall|j: int| 0 <= j < m implies #[trigger] h(j) == chain(j) - chain(j + 1) by {
            lemma_flat_index(s, cases.len() as int, m as int, j);
            let i = s * m + j;
            assert(rows[i].steps(gates[j % n], run(gates, x, j as nat), s, j));
            lemma_run_step(gates, x, j as nat);
            lemma_state_row(el, rows[i], n, gates[j % n], run(gates, x, j as nat), s, j);
        }
        lemma_sum_telescope(m, chain, h);
        assert(run(gates, x, m) == text_state(cases[s].y_hex@));
    }
    lemma_sum_ext(cases.len(), block, ends);
}

/// The columns of the program table, in the order of a program tuple.
pub open spec fn program_cols(p: &ProgramTable) -> Seq<&Vec<u32>> {
    seq![&p.slot, &p.opcode_scalar, &p.target, &p.ctrl_a, &p.ctrl_b]
}

/// A gate's row asks for the slot that holds it.
proof fn lemma_program_row(
    el: &LookupElements,
    row: Row,
    p: &ProgramTable,
    gates: Seq<Gate>,
    mult: u32,
    s0: Seq<bool>,
    shot: int,
    pc: int,
)
    requires
        p.describes(gates, mult),
        gates.len() > 0,
        0 <= pc < u32::MAX,
        gates[pc % gates.len() as int].known(),
        gates[pc % gates.len() as int].operands_ok(),
        row.steps(gates[pc % gates.len() as int], s0, shot, pc),
    ensures
        row_part(el, row, gates.len() as int, RelationId::Program) == Ext::base(1) * supply(
            &el.program,
            program_cols(p),
        )(pc % gates.len() as int),
{
    let n = gates.len() as int;
    let g = gates[pc % n];
    let f = |j: int| part(el, row, n, RelationId::Program, j);
    lemma_use_wf(el, row, n, 11);
    lemma_sum_single(12, 11, f);
    assert(p.holds(pc % n, g, mult));
    assert(p.slot@[pc % n] == pc % n);
    assert(program_seq(row, n) =~= tuple_at(program_cols(p), pc % n));
}

/// The program's supply cancels what the rows ask of it.
proof fn lemma_program_cancels(
    el: &LookupElements,
    rows: Seq<Row>,
    gates: Seq<Gate>,
    cases: Seq<TestCase>,
    k: nat,
    p: &ProgramTable,
    mult: u32,
)
    requires
        honest_rows(rows, gates, cases, k),
        p.describes(gates, mult),
        mult == cases.len() * k,
    ensures
        table_value(&el.program, p.multiplicity@, program_cols(p)) == -total_part(
            el,
            rows,
            gates.len() as int,
            RelationId::Program,
        ),
{
    let n = gates.len();
    let m = k * n;
    let reps = cases.len() * k;
    let x = supply(&el.program, program_cols(p));
    let once = |g: int| Ext::base(1) * x(g);
    let f = |i: int| row_part(el, rows[i], n as int, RelationId::Program);
    // Every repetition of the circuit asks for each slot once.
    assert(rows.len() == reps * n) by (nonlinear_arith)
        requires
            rows.len() == cases.len() * (k * n),
            reps == cases.len() * k,
    ;
    let block = |r: int| sum(n, |g: int| f(r * n + g));
    lemma_sum_blocks(reps, n, f, block);
    assert forall|r: int| 0 <= r < reps implies #[trigger] block(r) == sum(n, once) by {
        let h = |g: int| f(r * n + g);
        assert forall|g: int| 0 <= g < n implies #[trigger] h(g) == once(g) by {
            lemma_flat_index(r, reps as int, n as int, g);
            let i = r * n + g;
            vstd::arithmetic::div_mod::lemma_mod_mod(i, n as int, k as int);
            assert(n * k == m) by (nonlinear_arith)
                requires
                    m == k * n,
            ;
            vstd::arithmetic::div_mod::lemma_mod_bound(i, m as int);
            vstd::arithmetic::div_mod::lemma_mod_decreases(i as nat, m);
            let pc = i % (m as int);
            assert(pc % (n as int) == g);
            assert(rows[i].steps(
                gates[g],
                run(gates, text_state(cases[i / (m as int)].x_hex@), pc as nat),
                i / (m as int),
                pc,
            ));
            assert(gates[g].known());
            lemma_program_row(
                el,
                rows[i],
                p,
                gates,
                mult,
                run(gates, text_state(cases[i / (m as int)].x_hex@), pc as nat),
                i / (m as int),
                pc,
            );
        }
        lemma_sum_ext(n, h, once);
    }
    lemma_sum_const(reps, sum(n, once), block);
    // The table supplies each slot that often, negated, and nothing for padding.
    let len = p.multiplicity@.len();
    let s = |i: int| Ext::base(-p.multiplicity@[i]) * el.program.den(tuple_at(program_cols(p), i)).inv();
    let pads = |i: int| s(n + i);
    assert(n <= len);
    lemma_sum_split(n, (len - n) as nat, s, pads);
    assert forall|i: int| 0 <= i < len - n implies #[trigger] pads(i) == Ext::zero() by {
        assert(p.pads(n + i));
        lemma_base_add(0, 0);
        lemma_mul_zero(x(n + i));
    }
    lemma_sum_zero((len - n) as nat, pads);
    lemma_sum_wf(n, s);
    lemma_add_zero(sum(n, s));
    let scaled = |i: int| Ext::base(reps as int) * once(i);
    crate::sums::lemma_sum_scale(n, Ext::base(reps as int), once, scaled);
    assert forall|i: int| 0 <= i < n implies #[trigger] s(i) == -scaled(i) by {
        assert(p.holds(i, gates[i], mult));
        lemma_base_add(reps as int, 0);
        lemma_neg_mul(Ext::base(reps as int), x(i));
        crate::field::lemma_mul_assoc(Ext::base(reps as int), Ext::base(1), x(i));
        crate::field::lemma_base_mul(reps as int, 1);
    }
    lemma_sum_neg(n, scaled, s);
}

/// The columns of the table that decodes a qubit.
pub open spec fn is_qdecode_table(cols: Seq<&Vec<u32>>) -> bool {
    &&& cols.len() == 4
    &&& forall|q: int|
        0 <= q < N_QUBITS ==> #[trigger] tuple_at(cols, q) == seq![
            q as u32,
            (q / 16) as u32,
            (q % 16) as u32,
            weight((q % 16) as u32) as u32,
        ]
}

/// The columns of a range table.
pub open spec fn rc_cols(idx: &RcIndex) -> Seq<&Vec<u32>> {
    seq![&idx.pos_col, &idx.val_col]
}

/// The tables that the lookups of an honest trace go to.
pub open spec fn tables_ok(qdecode: Seq<&Vec<u32>>, lo: &RcIndex, hi: &RcIndex) -> bool {
    &&& is_qdecode_table(qdecode)
    &&& lo.lists(lo_bounds())
    &&& hi.lists(hi_bounds())
}

proof fn lemma_read_found(r: ReadCols, limbs: Seq<u32>, q: int, qdecode: Seq<&Vec<u32>>, lo: &RcIndex, hi: &RcIndex)
    requires
        tables_ok(qdecode, lo, hi),
        crate::circuit::limbs_wf(limbs),
        0 <= q < N_QUBITS,
        r.reads(limbs, q),
    ensures
        read_found(Table::QDecode, r, qdecode, N_QUBITS as nat),
        read_found(Table::Lo(lo.offset@), r, rc_cols(lo), RC_SIZE as nat),
        read_found(Table::Hi(hi.offset@), r, rc_cols(hi), RC_SIZE as nat),
{
    lemma_read_in_tables(r, limbs, q, lo, hi);
    assert(tuple_at(qdecode, q) =~= qdecode_seq(r));
    assert(tuple_at(rc_cols(lo), lo.at(r.bit_pos as int, r.lo as int)) =~= lo_seq(r));
    assert(tuple_at(rc_cols(hi), hi.at(r.bit_pos as int, r.hi as int)) =~= hi_seq(r));
}

/// The rows of an honest trace find all their reads.
proof fn lemma_rows_found(
    rows: Seq<Row>,
    gates: Seq<Gate>,
    cases: Seq<TestCase>,
    k: nat,
    qdecode: Seq<&Vec<u32>>,
    lo: &RcIndex,
    hi: &RcIndex,
)
    requires
        honest_rows(rows, gates, cases, k),
        tables_ok(qdecode, lo, hi),
    ensures
        forall|i: int|
            0 <= i < rows.len() ==> row_found(Table::QDecode, #[trigger] rows[i], qdecode, N_QUBITS as nat)
                && row_found(Table::Lo(lo.offset@), rows[i], rc_cols(lo), RC_SIZE as nat) && row_found(
                Table::Hi(hi.offset@),
                rows[i],
                rc_cols(hi),
                RC_SIZE as nat,
            ),
{
    assert forall|i: int| 0 <= i < rows.len() implies row_found(
        Table::QDecode,
        #[trigger] rows[i],
        qdecode,
        N_QUBITS as nat,
    ) && row_found(Table::Lo(lo.offset@), rows[i], rc_cols(lo), RC_SIZE as nat) && row_found(
        Table::Hi(hi.offset@),
        rows[i],
        rc_cols(hi),
        RC_SIZE as nat,
    ) by {
        let m = (k * gates.len()) as int;
        assert(m > 0) by (nonlinear_arith)
            requires
                k > 0,
                gates.len() > 0,
                m == k * gates.len(),
        ;
        vstd::arithmetic::div_mod::lemma_mod_bound(i, m);
        let j = (i % m) % gates.len() as int;
        let g = gates[j];
        vstd::arithmetic::div_mod::lemma_mod_bound(i % m, gates.len() as int);
        assert(g.known() && g.operands_ok());
        let row = rows[i];
        lemma_read_found(row.target, row.in_limb@, g.target as int, qdecode, lo, hi);
        if g.a_active() {
            lemma_read_found(row.ctrl_a, row.in_limb@, g.ctrl_a as int, qdecode, lo, hi);
        }
        if g.b_active() {
            lemma_read_found(row.ctrl_b, row.in_limb@, g.ctrl_b as int, qdecode, lo, hi);
        }
    }
}

/// `x + (-x) == 0`, five times.
proof fn lemma_five_cancel(s: Ext, q: Ext, l: Ext, h: Ext, p: Ext)
    requires
        s.wf(),
        q.wf(),
        l.wf(),
        h.wf(),
        p.wf(),
    ensures
        (((five(s, q, l, h, p) + (-q)) + (-l)) + (-h)) + (-p) == s,
{
    // Each step takes one part out of the front of the nested sum.
    lemma_drop(s, q, l + (h + p));
    lemma_drop(s, l, h + p);
    lemma_drop(s, h, p);
    lemma_add_assoc(s, p, -p);
    lemma_sub_self(p);
    lemma_add_zero(s);
}

/// `(s + (q + r)) + (-q) == s + r`.
proof fn lemma_drop(s: Ext, q: Ext, r: Ext)
    ensures
        (s + (q + r)) + (-q) == s + r,
{
    lemma_add_assoc(s, q + r, -q);
    lemma_add_comm(q, r);
    lemma_add_assoc(r, q, -q);
    lemma_sub_self(q);
    lemma_add_zero_any(s, r);
}

/// Adding zero inside a sum changes nothing.
proof fn lemma_add_zero_any(s: Ext, r: Ext)
    ensures
        s + (r + Ext::zero()) == s + r,
{
    lemma_add_assoc(s, r, Ext::zero());
    lemma_ops_wf(s, r);
    lemma_add_zero(s + r);
}

/// The sums claimed by an honest trace balance: the main trace's claim and the
/// four tables' claims together leave exactly what the test vectors say.
pub proof fn lemma_claims_balance(
    el: &LookupElements,
    rows: Seq<Row>,
    gates: Seq<Gate>,
    cases: Seq<TestCase>,
    k: nat,
    counts: &LookupCounts,
    qdecode: Seq<&Vec<u32>>,
    lo: &RcIndex,
    hi: &RcIndex,
    p: &ProgramTable,
    mult: u32,
)
    requires
        honest_rows(rows, gates, cases, k),
        tables_ok(qdecode, lo, hi),
        counts.counts(rows, rows.len(), lo, hi),
        p.describes(gates, mult),
        mult == cases.len() * k,
    ensures
        (((main_value(el, rows, gates.len() as int) + table_value(
            &el.qdecode,
            counts.qdecode@,
            qdecode,
        )) + table_value(&el.rc_lo, counts.rc_lo@, rc_cols(lo))) + table_value(
            &el.rc_hi,
            counts.rc_hi@,
            rc_cols(hi),
        )) + table_value(&el.program, p.multiplicity@, program_cols(p)) == boundary_value(
            el,
            cases,
            (k * gates.len()) as int,
        ),
{
    let n = gates.len() as int;
    lemma_main_parts(el, rows, n);
    lemma_rows_found(rows, gates, cases, k, qdecode, lo, hi);
    lemma_table_cancels(el, rows, n, Table::QDecode, qdecode, counts.qdecode@);
    lemma_table_cancels(el, rows, n, Table::Lo(lo.offset@), rc_cols(lo), counts.rc_lo@);
    lemma_table_cancels(el, rows, n, Table::Hi(hi.offset@), rc_cols(hi), counts.rc_hi@);
    lemma_program_cancels(el, rows, gates, cases, k, p, mult);
    lemma_state_total(el, rows, gates, cases, k);
    lemma_sum_wf(rows.len(), |i: int| row_part(el, rows[i], n, RelationId::State));
    lemma_sum_wf(rows.len(), |i: int| row_part(el, rows[i], n, RelationId::QDecode));
    lemma_sum_wf(rows.len(), |i: int| row_part(el, rows[i], n, RelationId::RcLo));
    lemma_sum_wf(rows.len(), |i: int| row_part(el, rows[i], n, RelationId::RcHi));
    lemma_sum_wf(rows.len(), |i: int| row_part(el, rows[i], n, RelationId::Program));
    lemma_five_cancel(
        total_part(el, rows, n, RelationId::State),
        total_part(el, rows, n, RelationId::QDecode),
        total_part(el, rows, n, RelationId::RcLo),
        total_part(el, rows, n, RelationId::RcHi),
        total_part(el, rows, n, RelationId::Program),
    );
}

/// Rows of padding look nothing up: they leave the main trace's claim as it is.
pub proof fn lemma_padding_claims_nothing(el: &LookupElements, rows: Seq<Row>, pads: Seq<Row>, n: int)
    requires
        forall|i: int| 0 <= i < pads.len() ==> (#[trigger] pads[i]).is_padding(),
    ensures
        main_value(el, rows + pads, n) == main_value(el, rows, n),
{
    let all = rows + pads;
    let f = |i: int| row_value(el, all[i], n);
    let g = |i: int| row_value(el, pads[i], n);
    let h = |i: int| row_value(el, rows[i], n);
    assert forall|i: int| 0 <= i < pads.len() implies #[trigger] g(i) == f(rows.len() + i) by {}
    lemma_sum_split(rows.len(), pads.len(), f, g);
    assert forall|i: int| 0 <= i < pads.len() implies #[trigger] g(i) == Ext::zero() by {
        let row = pads[i];
        assert(row.is_padding());
        let u = |j: int| use_value(el, row, n, j);
        assert forall|j: int| 0 <= j < 12 implies #[trigger] u(j) == Ext::zero() by {
            let w = row_uses(row, n)[j];
            assert(w.mult == 0);
            lemma_base_add(0, 0);
            lemma_mul_zero(el.den(w.id, w.tuple).inv());
        }
        lemma_sum_zero(12, u);
    }
    lemma_sum_zero(pads.len(), g);
    assert forall|i: int| 0 <= i < rows.len() implies #[trigger] f(i) == h(i) by {}
    lemma_sum_ext(rows.len(), f, h);
    lemma_sum_wf(rows.len(), h);
    lemma_add_zero(sum(rows.len(), h));
}

/// No first refused shot, no refused shot.
pub proof fn lemma_all_accepted(gates: Seq<Gate>, k: nat, cases: Seq<TestCase>, m: int)
    requires
        0 <= m <= cases.len(),
        forall|s: int| !#[trigger] is_first_refused(gates, k, cases, s),
    ensures
        forall|s: int|
            0 <= s < m ==> shot_outcome(gates, k, (#[trigger] cases[s]).x_hex@, cases[s].y_hex@) is Accepted,
    decreases m,
{
    if m > 0 {
        lemma_all_accepted(gates, k, cases, m - 1);
        assert(!is_first_refused(gates, k, cases, m - 1));
    }
}

/// No first unknown gate, no unknown gate.
proof fn lemma_all_known(gates: Seq<Gate>, m: int)
    requires
        0 <= m <= gates.len(),
        forall|u: int| !#[trigger] is_first_unknown(gates, u),
    ensures
        forall|i: int| 0 <= i < m ==> (#[trigger] gates[i]).known(),
    decreases m,
{
    if m > 0 {
        lemma_all_known(gates, m - 1);
        assert(!is_first_unknown(gates, m - 1));
    }
}

/// Rows that were built without an error are those of an honest run.
pub proof fn lemma_built_rows_honest(rows: Seq<Row>, gates: Seq<Gate>, cases: Seq<TestCase>, k: nat)
    requires
        k > 0,
        gates.len() > 0,
        cases.len() > 0,
        operands_valid(gates),
        rows.len() == cases.len() * (k * gates.len()),
        rows.len() < u32::MAX,
        all_rows_step(rows, gates, cases, (k * gates.len()) as int, rows.len() as int),
        forall|s: int| !#[trigger] is_first_refused(gates, k, cases, s),
    ensures
        honest_rows(rows, gates, cases, k),
{
    lemma_all_accepted(gates, k, cases, cases.len() as int);
    assert(shot_outcome(gates, k, cases[0].x_hex@, cases[0].y_hex@) is Accepted);
    lemma_all_known(gates, gates.len() as int);
}

} // verus!
