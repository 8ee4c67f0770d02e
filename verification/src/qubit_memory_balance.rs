//! Why the claimed sums of an honest qubit-memory trace net to its public terms.
use vstd::arithmetic::power2::pow2;
use vstd::prelude::*;

use crate::circuit::{lemma_run_step, run, Gate, TestCase};
use crate::field::{
    lemma_add_assoc, lemma_add_comm, lemma_add_sub, lemma_add_zero, lemma_base_add, lemma_base_mul,
    lemma_mul_assoc, lemma_mul_zero, lemma_neg_mul, lemma_ops_wf, lemma_sub_is_add_neg,
    lemma_sub_join, lemma_sub_self, Ext,
};
use crate::logup::Relation;
use crate::program::ProgramTable;
use crate::qubit_memory::{
    all_rows_of, all_runnable, is_boundary, last_access, lemma_last_access, padding_row, row_of,
    BoundaryTable, Row,
};
use crate::qubit_memory_lookups::{
    boundary_claim, boundary_public_value, boundary_row_value, counts_rc, ctrl_a_made, ctrl_b_made,
    end_seq, final_seq, first_seq, main_value, mem_seq, program_public_value, program_value,
    rc_hit, rc_hits, rc_seq, rc_value, row_in_range, row_small, row_uses, slot_seq, slot_value,
    target_made, tuple_value, use_value, v_after, RcTable, TAG_PROGRAM, TAG_PROGRAM_PUB,
};
use crate::sums::{
    lemma_sum_add, lemma_sum_blocks, lemma_sum_cyclic, lemma_sum_ext, lemma_sum_neg,
    lemma_sum_pairs, lemma_sum_scale, lemma_sum_split, lemma_sum_sub, lemma_sum_telescope,
    lemma_sum_update, lemma_sum_wf, lemma_sum_zero, lemma_weighted_bump, lemma_weighted_ext, sum,
    weighted,
};
use crate::whole_state::{flag, is_first_refused, lemma_flat_index, shot_outcome, text_state};
use crate::whole_state_balance::lemma_all_accepted;

verus! {

/// Rows and boundary of shots that each ran to their expected end.
pub open spec fn honest_trace(
    rows: Seq<Row>,
    boundary: &BoundaryTable,
    gates: Seq<Gate>,
    cases: Seq<TestCase>,
    k: nat,
) -> bool {
    &&& k > 0
    &&& gates.len() > 0
    &&& all_runnable(gates)
    &&& k * gates.len() < u32::MAX
    &&& rows.len() == cases.len() * (k * gates.len())
    &&& all_rows_of(rows, gates, cases, (k * gates.len()) as int)
    &&& is_boundary(*boundary, gates, cases, k * gates.len())
    &&& forall|s: int|
        0 <= s < cases.len() ==> run(gates, text_state((#[trigger] cases[s]).x_hex@), k * gates.len())
            == text_state(cases[s].y_hex@)
}

/// The lookups of a row in the qubit memory, in the range table, and in the program.
pub open spec fn mem_part(rel: &Relation, row: Row, n: int) -> Ext {
    sum(6, |j: int| use_value(rel, row, n, j))
}

pub open spec fn rc_part(rel: &Relation, row: Row, n: int) -> Ext {
    sum(3, |j: int| use_value(rel, row, n, 6 + j))
}

pub open spec fn prog_part(rel: &Relation, row: Row, n: int) -> Ext {
    use_value(rel, row, n, 9)
}

proof fn lemma_main_parts(rel: &Relation, rows: Seq<Row>, n: int)
    ensures
        main_value(rel, rows, n) == sum(rows.len(), |i: int| mem_part(rel, rows[i], n)) + (sum(
            rows.len(),
            |i: int| rc_part(rel, rows[i], n),
        ) + sum(rows.len(), |i: int| prog_part(rel, rows[i], n))),
{
    let f = |i: int| sum(10, |j: int| use_value(rel, rows[i], n, j));
    let m = |i: int| mem_part(rel, rows[i], n);
    let r = |i: int| rc_part(rel, rows[i], n);
    let p = |i: int| prog_part(rel, rows[i], n);
    let rp = |i: int| r(i) + p(i);
    assert forall|i: int| 0 <= i < rows.len() implies #[trigger] f(i) == m(i) + rp(i) by {
        let g = |j: int| use_value(rel, rows[i], n, j);
        let h = |j: int| use_value(rel, rows[i], n, 6 + j);
        lemma_sum_split(6, 4, g, h);
        assert(sum(4, h) == sum(3, h) + h(3));
    }
    lemma_sum_add(rows.len(), r, p, rp);
    lemma_sum_add(rows.len(), m, rp, f);
}

/// What qubit `a` of a shot holds, as left at time `ts`.
pub open spec fn node(rel: &Relation, shot: int, a: int, ts: u32, v: bool) -> Ext {
    tuple_value(rel, 1, mem_seq(shot as u32, a as u32, ts, flag(v)))
}

/// What all qubits of a shot hold.
pub open spec fn memory(rel: &Relation, shot: int, last: Seq<u32>, s: Seq<bool>) -> Ext {
    sum(512, |a: int| node(rel, shot, a, last[a], s[a]))
}

/// One access: the qubit's node is taken out and put back at a new time.
proof fn lemma_touch(rel: &Relation, shot: int, last: Seq<u32>, s: Seq<bool>, a: int, ts: u32, v: bool)
    requires
        last.len() == 512,
        s.len() == 512,
        0 <= a < 512,
    ensures
        memory(rel, shot, last, s) - memory(rel, shot, last.update(a, ts), s.update(a, v)) == node(
            rel,
            shot,
            a,
            last[a],
            s[a],
        ) - node(rel, shot, a, ts, v),
{
    let (l2, s2) = (last.update(a, ts), s.update(a, v));
    let f = |q: int| node(rel, shot, q, last[q], s[q]);
    let g = |q: int| node(rel, shot, q, l2[q], s2[q]);
    lemma_sum_update(512, a, f, g);
    // sum(g) + f(a) == sum(f) + g(a)
    let (sf, sg, fa, ga) = (sum(512, f), sum(512, g), f(a), g(a));
    lemma_sum_wf(512, f);
    lemma_sum_wf(512, g);
    lemma_ops_wf(Ext::base(1), rel.den(mem_seq(shot as u32, a as u32, last[a], flag(s[a]))).inv());
    lemma_ops_wf(Ext::base(1), rel.den(mem_seq(shot as u32, a as u32, ts, flag(v))).inv());
    lemma_cross_sub(sf, sg, fa, ga);
}

/// From `y + p == x + q` to `x - y == p - q`.
proof fn lemma_cross_sub(x: Ext, y: Ext, p: Ext, q: Ext)
    requires
        x.wf(),
        p.wf(),
        y + p == x + q,
    ensures
        x - y == p - q,
{
    // x == (x + q) - q == (y + p) - q
    lemma_add_sub(x, q);
    lemma_add_comm(y, p);
    crate::field::lemma_sub_swap(p, y, q);
    // x - y == ((p - q) + y) - y
    lemma_ops_wf(p, q);
    lemma_add_sub(p - q, y);
}

/// A lookup with multiplicity zero is worth nothing.
proof fn lemma_zero_use(rel: &Relation, t: Seq<u32>)
    ensures
        tuple_value(rel, 0, t) == Ext::zero(),
{
    lemma_base_add(0, 0);
    lemma_mul_zero(rel.den(t).inv());
}

/// A lookup with multiplicity minus one.
proof fn lemma_neg_use(rel: &Relation, t: Seq<u32>)
    ensures
        tuple_value(rel, -1, t) == -tuple_value(rel, 1, t),
{
    lemma_base_add(1, 0);
    lemma_neg_mul(Ext::base(1), rel.den(t).inv());
}

/// A row's memory lookups are the change of the memory that its gate makes.
proof fn lemma_mem_row(rel: &Relation, n: int, g: Gate, s: Seq<bool>, last: Seq<u32>, shot: int, pc: int)
    requires
        g.runnable(),
        s.len() == 512,
        last.len() == 512,
        0 <= pc < u32::MAX,
        0 <= shot <= u32::MAX,
    ensures
        mem_part(rel, row_of(g, s, last, shot, pc), n) == memory(rel, shot, last, s) - memory(
            rel,
            shot,
            g.touch(last, (pc + 1) as u32),
            g.apply(s),
        ),
{
    let row = row_of(g, s, last, shot, pc);
    let ts = (pc + 1) as u32;
    let f = |j: int| use_value(rel, row, n, j);
    let p = |b: int| f(2 * b) + f(2 * b + 1);
    lemma_sum_pairs(3, f, p);
    let t = g.target as int;
    let fire = g.fires(s);
    let (l1, s1) = (last.update(t, ts), s.update(t, s[t] != fire));
    assert(v_after(row) == flag(s[t] != fire));
    lemma_touch(rel, shot, last, s, t, ts, s[t] != fire);
    lemma_neg_use(rel, row_uses(row, n)[1].tuple);
    lemma_sub_is_add_neg(f(0), node(rel, shot, t, ts, s[t] != fire));
    let m0 = memory(rel, shot, last, s);
    let m1 = memory(rel, shot, l1, s1);
    assert(p(0) == m0 - m1);
    // First control.
    let a = g.ctrl_a as int;
    let l2 = if g.a_active() {
        l1.update(a, ts)
    } else {
        l1
    };
    let m2 = memory(rel, shot, l2, s1);
    if g.a_active() {
        lemma_touch(rel, shot, l1, s1, a, ts, s1[a]);
        assert(s1.update(a, s1[a]) =~= s1);
        lemma_neg_use(rel, row_uses(row, n)[3].tuple);
        lemma_sub_is_add_neg(f(2), node(rel, shot, a, ts, s1[a]));
    } else {
        lemma_zero_use(rel, row_uses(row, n)[2].tuple);
        lemma_zero_use(rel, row_uses(row, n)[3].tuple);
        lemma_add_zero(Ext::zero());
        lemma_sub_self(m1);
    }
    assert(p(1) == m1 - m2);
    // Second control.
    let b = g.ctrl_b as int;
    let l3 = if g.b_active() {
        l2.update(b, ts)
    } else {
        l2
    };
    let m3 = memory(rel, shot, l3, s1);
    if g.b_active() {
        lemma_touch(rel, shot, l2, s1, b, ts, s1[b]);
        assert(s1.update(b, s1[b]) =~= s1);
        lemma_neg_use(rel, row_uses(row, n)[5].tuple);
        lemma_sub_is_add_neg(f(4), node(rel, shot, b, ts, s1[b]));
    } else {
        lemma_zero_use(rel, row_uses(row, n)[4].tuple);
        lemma_zero_use(rel, row_uses(row, n)[5].tuple);
        lemma_add_zero(Ext::zero());
        lemma_sub_self(m2);
    }
    assert(p(2) == m2 - m3);
    let chain = |j: int|
        if j == 0 {
            m0
        } else if j == 1 {
            m1
        } else if j == 2 {
            m2
        } else {
            m3
        };
    assert forall|j: int| 0 <= j < 3 implies #[trigger] p(j) == chain(j) - chain(j + 1) by {
        if j == 0 {
        } else if j == 1 {
        } else {
            assert(j == 2);
        }
    }
    lemma_sum_telescope(3, chain, p);
    assert(l3 == g.touch(last, ts));
    assert(s1 == g.apply(s));
}

/// The memory lookups of all rows leave each shot's memory before minus after.
proof fn lemma_mem_total(
    rel: &Relation,
    rows: Seq<Row>,
    boundary: &BoundaryTable,
    gates: Seq<Gate>,
    cases: Seq<TestCase>,
    k: nat,
)
    requires
        honest_trace(rows, boundary, gates, cases, k),
    ensures
        sum(rows.len(), |i: int| mem_part(rel, rows[i], gates.len() as int)) == sum(
            (cases.len() * 512) as nat,
            |i: int|
                tuple_value(rel, 1, first_seq(boundary.rows@[i])) - tuple_value(
                    rel,
                    1,
                    end_seq(boundary.rows@[i]),
                ),
        ),
{
    let n = gates.len() as int;
    let m = k * gates.len();
    let f = |i: int| mem_part(rel, rows[i], n);
    let block = |s: int| sum(m, |j: int| f(s * m + j));
    let e = |i: int|
        tuple_value(rel, 1, first_seq(boundary.rows@[i])) - tuple_value(
            rel,
            1,
            end_seq(boundary.rows@[i]),
        );
    let eblock = |s: int| sum(512, |a: int| e(s * 512 + a));
    lemma_sum_blocks(cases.len(), m, f, block);
    lemma_sum_blocks(cases.len(), 512, e, eblock);
    lemma_last_access(gates, m);
    assert forall|s: int| 0 <= s < cases.len() implies #[trigger] block(s) == eblock(s) by {
        let x = text_state(cases[s].x_hex@);
        let y = text_state(cases[s].y_hex@);
        let chain = |j: int|
            memory(rel, s, last_access(gates, j as nat), run(gates, x, j as nat));
        let h = |j: int| f(s * m + j);
        assert forall|j: int| 0 <= j < m implies #[trigger] h(j) == chain(j) - chain(j + 1) by {
            lemma_flat_index(s, cases.len() as int, m as int, j);
            let i = s * m + j;
            let g = gates[j % n];
            assert(rows[i] == row_of(g, run(gates, x, j as nat), last_access(gates, j as nat), s, j));
            lemma_run_step(gates, x, j as nat);
            lemma_last_access(gates, j as nat);
            lemma_run_len(gates, x, j as nat);
            assert(gates[j % n].runnable());
            lemma_mem_row(rel, n, g, run(gates, x, j as nat), last_access(gates, j as nat), s, j);
        }
        lemma_sum_telescope(m, chain, h);
        let before = |a: int| node(rel, s, a, last_access(gates, 0)[a], x[a]);
        let after = |a: int| node(rel, s, a, last_access(gates, m)[a], y[a]);
        let diff = |a: int| e(s * 512 + a);
        assert forall|a: int| 0 <= a < 512 implies #[trigger] diff(a) == before(a) - after(a) by {
            let i = s * 512 + a;
            assert(i / 512 == s && i % 512 == a);
            assert(boundary.rows@[i] == crate::qubit_memory::boundary_of(gates, cases, m, s, a));
        }
        lemma_sum_sub(512, before, after, diff);
        assert(run(gates, x, m) == y);
        assert(chain(0) == sum(512, before));
        assert(chain(m as int) == sum(512, after));
    }
    lemma_sum_ext(cases.len(), block, eblock);
}

/// Running keeps the number of qubits.
proof fn lemma_run_len(gates: Seq<Gate>, s: Seq<bool>, n: nat)
    requires
        s.len() == 512,
        gates.len() > 0,
        all_runnable(gates),
    ensures
        run(gates, s, n).len() == 512,
    decreases n,
{
    if n > 0 {
        lemma_run_len(gates, s, (n - 1) as nat);
        vstd::arithmetic::div_mod::lemma_mod_bound(n - 1, gates.len() as int);
        assert(gates[(n - 1) % gates.len() as int].runnable());
    }
}

/// Memory and boundary together leave what the shots show to the outside.
proof fn lemma_mem_and_boundary(
    rel: &Relation,
    rows: Seq<Row>,
    boundary: &BoundaryTable,
    gates: Seq<Gate>,
    cases: Seq<TestCase>,
    k: nat,
)
    requires
        honest_trace(rows, boundary, gates, cases, k),
    ensures
        sum(rows.len(), |i: int| mem_part(rel, rows[i], gates.len() as int)) + boundary_claim(
            rel,
            boundary,
        ) == boundary_public_value(rel, boundary),
{
    lemma_mem_total(rel, rows, boundary, gates, cases, k);
    let n_real = (cases.len() * 512) as nat;
    let len = boundary.rows@.len();
    assert(n_real <= len);
    let first = |i: int| tuple_value(rel, 1, first_seq(boundary.rows@[i]));
    let end = |i: int| tuple_value(rel, 1, end_seq(boundary.rows@[i]));
    let fin = |i: int| tuple_value(rel, 1, final_seq(boundary.rows@[i]));
    let fe = |i: int| first(i) - end(i);
    let fz = |i: int| first(i) - fin(i);
    let b = |i: int| boundary_row_value(rel, boundary, i);
    let pads = |i: int| b(n_real + i);
    lemma_sum_split(n_real, (len - n_real) as nat, b, pads);
    assert forall|i: int| 0 <= i < len - n_real implies #[trigger] pads(i) == Ext::zero() by {
        lemma_zero_use(rel, end_seq(boundary.rows@[n_real + i]));
        lemma_zero_use(rel, final_seq(boundary.rows@[n_real + i]));
        lemma_add_zero(Ext::zero());
    }
    lemma_sum_zero((len - n_real) as nat, pads);
    lemma_sum_wf(n_real, b);
    lemma_add_zero(sum(n_real, b));
    assert forall|i: int| 0 <= i < n_real implies #[trigger] fz(i) == fe(i) + b(i) by {
        lemma_neg_use(rel, final_seq(boundary.rows@[i]));
        lemma_sub_is_add_neg(end(i), fin(i));
        lemma_sub_join(first(i), end(i), fin(i));
    }
    lemma_sum_add(n_real, fe, b, fz);
    lemma_sum_ext(
        n_real,
        fe,
        |i: int|
            tuple_value(rel, 1, first_seq(boundary.rows@[i])) - tuple_value(
                rel,
                1,
                end_seq(boundary.rows@[i]),
            ),
    );
    lemma_sum_ext(
        n_real,
        fz,
        |i: int|
            tuple_value(rel, 1, first_seq(boundary.rows@[i])) - tuple_value(
                rel,
                1,
                final_seq(boundary.rows@[i]),
            ),
    );
}

/// The inverse denominators of the range table's values.
pub open spec fn rc_supply(rel: &Relation) -> spec_fn(int) -> Ext {
    |i: int| rel.den(rc_seq(i as u32)).inv()
}

/// Counting one access adds its lookup's value.
proof fn lemma_rc_access(
    rel: &Relation,
    made: bool,
    a: crate::qubit_memory::AccessCols,
    len: nat,
    h: spec_fn(int) -> int,
    h2: spec_fn(int) -> int,
)
    requires
        made ==> a.d < len,
        forall|i: int| 0 <= i < len ==> #[trigger] h2(i) == h(i) + rc_hit(made, a, i),
    ensures
        sum(len, weighted(h2, rc_supply(rel))) == sum(len, weighted(h, rc_supply(rel)))
            + tuple_value(rel, flag(made) as int, rc_seq(a.d)),
{
    let x = rc_supply(rel);
    if made {
        lemma_weighted_bump(len, a.d as int, h, h2, x);
    } else {
        lemma_weighted_ext(len, h, h2, x);
        lemma_zero_use(rel, rc_seq(a.d));
        lemma_sum_wf(len, weighted(h, x));
        lemma_add_zero(sum(len, weighted(h, x)));
    }
}

/// The flags of a row agree with the accesses it makes.
pub open spec fn row_flags_ok(row: Row) -> bool {
    &&& row.enabler == flag(target_made(row))
    &&& row.is_cnot + row.is_toffoli == flag(ctrl_a_made(row))
    &&& row.is_toffoli == flag(ctrl_b_made(row))
}

/// What the rows use of the range table is what their hits weigh.
proof fn lemma_rc_uses(rel: &Relation, rows: Seq<Row>, n: int, len: nat, m: nat)
    requires
        m <= rows.len(),
        forall|i: int|
            0 <= i < m ==> row_in_range(#[trigger] rows[i], len) && row_flags_ok(rows[i]),
    ensures
        sum(m, |i: int| rc_part(rel, rows[i], n)) == sum(
            len,
            weighted(|i: int| rc_hits(rows, m, i) as int, rc_supply(rel)),
        ),
    decreases m,
{
    let x = rc_supply(rel);
    let f = |i: int| rc_part(rel, rows[i], n);
    if m == 0 {
        let w = weighted(|i: int| rc_hits(rows, m, i) as int, x);
        assert forall|i: int| 0 <= i < len implies #[trigger] w(i) == Ext::zero() by {
            lemma_base_add(0, 0);
            lemma_mul_zero(x(i));
        }
        lemma_sum_zero(len, w);
    } else {
        let k = (m - 1) as nat;
        lemma_rc_uses(rel, rows, n, len, k);
        let row = rows[m - 1];
        assert(row_in_range(row, len) && row_flags_ok(row));
        let (ma, mb, mt) = (ctrl_a_made(row), ctrl_b_made(row), target_made(row));
        let h0 = |i: int| rc_hits(rows, k, i) as int;
        let h1 = |i: int| h0(i) + rc_hit(mt, row.target, i);
        let h2 = |i: int| h1(i) + rc_hit(ma, row.ctrl_a, i);
        let h3 = |i: int| h2(i) + rc_hit(mb, row.ctrl_b, i);
        let h = |i: int| rc_hits(rows, m, i) as int;
        lemma_rc_access(rel, mt, row.target, len, h0, h1);
        lemma_rc_access(rel, ma, row.ctrl_a, len, h1, h2);
        lemma_rc_access(rel, mb, row.ctrl_b, len, h2, h3);
        assert forall|i: int| 0 <= i < len implies #[trigger] h(i) == h3(i) by {}
        lemma_weighted_ext(len, h3, h, x);
        let u = |j: int| use_value(rel, row, n, 6 + j);
        let s0 = sum(len, weighted(h0, x));
        let (a, b, c) = (u(0), u(1), u(2));
        assert(sum(3, u) == ((Ext::zero() + a) + b) + c) by {
            assert(sum(1, u) == sum(0, u) + u(0));
            assert(sum(2, u) == sum(1, u) + u(1));
            assert(sum(3, u) == sum(2, u) + u(2));
        }
        lemma_ops_wf(Ext::base(row.enabler as int), rel.den(rc_seq(row.target.d)).inv());
        lemma_add_zero(a);
        lemma_add_assoc(s0, a, b);
        lemma_add_assoc(s0, a + b, c);
        assert(f(m - 1) == (a + b) + c);
    }
}

/// The range table cancels the rows' range checks.
proof fn lemma_rc_cancels(rel: &Relation, rows: Seq<Row>, n: int, t: &RcTable)
    requires
        t.sized(),
        counts_rc(t, rows, rows.len()),
        forall|i: int|
            0 <= i < rows.len() ==> row_in_range(#[trigger] rows[i], t.val@.len()) && row_flags_ok(
                rows[i],
            ),
    ensures
        rc_value(rel, t) == -sum(rows.len(), |i: int| rc_part(rel, rows[i], n)),
{
    let len = t.val@.len();
    lemma_rc_uses(rel, rows, n, len, rows.len());
    let x = rc_supply(rel);
    let w = weighted(|i: int| rc_hits(rows, rows.len(), i) as int, x);
    let s = |i: int| tuple_value(rel, -t.multiplicity@[i], rc_seq(t.val@[i]));
    assert forall|i: int| 0 <= i < len implies #[trigger] s(i) == -w(i) by {
        assert(t.multiplicity@[i] == rc_hits(rows, rows.len(), i));
        assert(t.val@[i] == i);
        lemma_base_add(t.multiplicity@[i] as int, 0);
        lemma_neg_mul(Ext::base(t.multiplicity@[i] as int), x(i));
    }
    lemma_sum_neg(len, w, s);
}

/// A gate's row asks for the slot that holds it.
proof fn lemma_prog_row(
    rel: &Relation,
    p: &ProgramTable,
    gates: Seq<Gate>,
    mult: u32,
    s: Seq<bool>,
    last: Seq<u32>,
    shot: int,
    pc: int,
)
    requires
        p.describes(gates, mult),
        gates.len() > 0,
        0 <= pc < u32::MAX,
        gates[pc % gates.len() as int].runnable(),
    ensures
        prog_part(
            rel,
            row_of(gates[pc % gates.len() as int], s, last, shot, pc),
            gates.len() as int,
        ) == tuple_value(rel, 1, slot_seq(p, TAG_PROGRAM, pc % gates.len() as int)),
{
    let n = gates.len() as int;
    let g = gates[pc % n];
    let row = row_of(g, s, last, shot, pc);
    vstd::arithmetic::div_mod::lemma_mod_bound(pc, n);
    assert(p.holds(pc % n, g, mult));
    assert(p.slot@[pc % n] == pc % n);
    assert(row_uses(row, n)[9].tuple =~= slot_seq(p, TAG_PROGRAM, pc % n));
}

/// The program table supplies what the rows ask for, and shows the program.
proof fn lemma_program_nets(
    rel: &Relation,
    rows: Seq<Row>,
    boundary: &BoundaryTable,
    gates: Seq<Gate>,
    cases: Seq<TestCase>,
    k: nat,
    p: &ProgramTable,
    mult: u32,
)
    requires
        honest_trace(rows, boundary, gates, cases, k),
        p.describes(gates, mult),
        mult == cases.len() * k,
    ensures
        program_value(rel, p) == (-sum(
            rows.len(),
            |i: int| prog_part(rel, rows[i], gates.len() as int),
        )) + program_public_value(rel, p),
{
    let n = gates.len();
    let m = k * n;
    let reps = cases.len() * k;
    let once = |g: int| tuple_value(rel, 1, slot_seq(p, TAG_PROGRAM, g));
    let f = |i: int| prog_part(rel, rows[i], n as int);
    assert(rows.len() == reps * n) by (nonlinear_arith)
        requires
            rows.len() == cases.len() * (k * n),
            reps == cases.len() * k,
    ;
    assert forall|r: int, g: int| 0 <= r < reps && 0 <= g < n implies #[trigger] f(r * n + g) == once(
        g,
    ) by {
        lemma_flat_index(r, reps as int, n as int, g);
        let i = r * n + g;
        assert(n * k == m) by (nonlinear_arith)
            requires
                m == k * n,
        ;
        vstd::arithmetic::div_mod::lemma_mod_mod(i, n as int, k as int);
        vstd::arithmetic::div_mod::lemma_mod_bound(i, m as int);
        let pc = i % (m as int);
        assert(pc % (n as int) == g);
        let x = text_state(cases[i / (m as int)].x_hex@);
        assert(rows[i] == row_of(
            gates[g],
            run(gates, x, pc as nat),
            last_access(gates, pc as nat),
            i / (m as int),
            pc,
        ));
        assert(gates[g].runnable());
        lemma_prog_row(
            rel,
            p,
            gates,
            mult,
            run(gates, x, pc as nat),
            last_access(gates, pc as nat),
            i / (m as int),
            pc,
        );
    }
    lemma_sum_cyclic(reps, n, f, once);
    let len = p.slot@.len();
    let inner = |i: int| tuple_value(rel, -p.multiplicity@[i], slot_seq(p, TAG_PROGRAM, i));
    let public = |i: int|
        tuple_value(rel, p.multiplicity@[i] as int, slot_seq(p, TAG_PROGRAM_PUB, i));
    let both = |i: int| slot_value(rel, p, i);
    lemma_sum_add(len, inner, public, both);
    // The internal side: minus the repetitions on each slot, nothing on padding.
    let pads = |i: int| inner(n + i);
    assert(n <= len);
    lemma_sum_split(n, (len - n) as nat, inner, pads);
    assert forall|i: int| 0 <= i < len - n implies #[trigger] pads(i) == Ext::zero() by {
        assert(p.pads(n + i));
        lemma_zero_use(rel, slot_seq(p, TAG_PROGRAM, n + i));
    }
    lemma_sum_zero((len - n) as nat, pads);
    lemma_sum_wf(n, inner);
    lemma_add_zero(sum(n, inner));
    let scaled = |i: int| Ext::base(reps as int) * once(i);
    lemma_sum_scale(n, Ext::base(reps as int), once, scaled);
    assert forall|i: int| 0 <= i < n implies #[trigger] inner(i) == -scaled(i) by {
        assert(p.holds(i, gates[i], mult));
        let x = rel.den(slot_seq(p, TAG_PROGRAM, i)).inv();
        lemma_base_add(reps as int, 0);
        lemma_neg_mul(Ext::base(reps as int), x);
        lemma_mul_assoc(Ext::base(reps as int), Ext::base(1), x);
        lemma_base_mul(reps as int, 1);
    }
    lemma_sum_neg(n, scaled, inner);
}

/// The rows of an honest trace are flagged as their gates say, and their time
/// differences are below the number of steps.
pub proof fn lemma_honest_rows_in_range(
    rows: Seq<Row>,
    boundary: &BoundaryTable,
    gates: Seq<Gate>,
    cases: Seq<TestCase>,
    k: nat,
    len: nat,
)
    requires
        honest_trace(rows, boundary, gates, cases, k),
        k * gates.len() <= len,
    ensures
        forall|i: int|
            0 <= i < rows.len() ==> row_in_range(#[trigger] rows[i], len) && row_flags_ok(rows[i])
                && row_small(rows[i]),
{
    let m = (k * gates.len()) as int;
    assert(m > 0) by (nonlinear_arith)
        requires
            k > 0,
            gates.len() > 0,
            m == k * gates.len(),
    ;
    assert forall|i: int| 0 <= i < rows.len() implies row_in_range(#[trigger] rows[i], len)
        && row_flags_ok(rows[i]) && row_small(rows[i]) by {
        vstd::arithmetic::div_mod::lemma_mod_bound(i, m);
        let pc = i % m;
        vstd::arithmetic::div_mod::lemma_mod_bound(pc, gates.len() as int);
        let g = gates[pc % gates.len() as int];
        assert(g.runnable());
        lemma_last_access(gates, pc as nat);
        let last = last_access(gates, pc as nat);
        assert(last[g.target as int] <= pc);
        if g.a_active() {
            assert(last[g.ctrl_a as int] <= pc);
        }
        if g.b_active() {
            assert(last[g.ctrl_b as int] <= pc);
        }
    }
}

/// `((m + (r + p)) + ((-p) + q) + b) + (-r) == (m + b) + q`.
proof fn lemma_net(m: Ext, r: Ext, p: Ext, q: Ext, b: Ext)
    ensures
        (((m + (r + p)) + ((-p) + q)) + b) + (-r) == (m + b) + q,
{
    let x = m + r;
    // (m + (r + p)) + ((-p) + q) == x + q
    lemma_add_assoc(m, r, p);
    lemma_add_assoc(x, p, (-p) + q);
    lemma_add_assoc(p, -p, q);
    lemma_sub_self(p);
    lemma_add_assoc(x, Ext::zero(), q);
    lemma_ops_wf(m, r);
    lemma_add_zero(x);
    // ((x + q) + b) + (-r) == (m + b) + q
    lemma_add_assoc(x + q, b, -r);
    lemma_add_comm(b, -r);
    lemma_add_assoc(x + q, -r, b);
    lemma_add_assoc(x, q, -r);
    lemma_add_comm(q, -r);
    lemma_add_assoc(x, -r, q);
    lemma_add_assoc(m, r, -r);
    lemma_sub_self(r);
    // ((m + 0) + q) + b
    lemma_add_assoc(m, Ext::zero(), q);
    lemma_add_assoc(m + Ext::zero(), q, b);
    lemma_add_comm(q, b);
    lemma_add_assoc(m + Ext::zero(), b, q);
    lemma_add_assoc(m, Ext::zero(), b);
    lemma_zero_plus(m, b);
}

/// `m + (0 + b) == m + b`.
proof fn lemma_zero_plus(m: Ext, b: Ext)
    ensures
        m + (Ext::zero() + b) == m + b,
{
    lemma_add_comm(Ext::zero(), b);
    lemma_add_assoc(m, b, Ext::zero());
    lemma_ops_wf(m, b);
    lemma_add_zero(m + b);
}

/// The sums claimed by an honest shard net to its public terms: what the shots
/// show of their first and last values, and what the program table shows of
/// the program.
pub proof fn lemma_shard_claims_net(
    rel: &Relation,
    rows: Seq<Row>,
    boundary: &BoundaryTable,
    gates: Seq<Gate>,
    cases: Seq<TestCase>,
    k: nat,
    p: &ProgramTable,
    mult: u32,
    t: &RcTable,
)
    requires
        honest_trace(rows, boundary, gates, cases, k),
        p.describes(gates, mult),
        mult == cases.len() * k,
        t.sized(),
        k * gates.len() <= pow2(t.log_size as nat),
        counts_rc(t, rows, rows.len()),
    ensures
        ((main_value(rel, rows, gates.len() as int) + program_value(rel, p)) + boundary_claim(
            rel,
            boundary,
        )) + rc_value(rel, t) == boundary_public_value(rel, boundary) + program_public_value(rel, p),
{
    let n = gates.len() as int;
    lemma_main_parts(rel, rows, n);
    lemma_mem_and_boundary(rel, rows, boundary, gates, cases, k);
    lemma_honest_rows_in_range(rows, boundary, gates, cases, k, t.val@.len());
    lemma_rc_cancels(rel, rows, n, t);
    lemma_program_nets(rel, rows, boundary, gates, cases, k, p, mult);
    lemma_net(
        sum(rows.len(), |i: int| mem_part(rel, rows[i], n)),
        sum(rows.len(), |i: int| rc_part(rel, rows[i], n)),
        sum(rows.len(), |i: int| prog_part(rel, rows[i], n)),
        program_public_value(rel, p),
        boundary_claim(rel, boundary),
    );
}

/// Rows of padding look nothing up: they leave the main trace's claim as it is.
pub proof fn lemma_padding_claims_nothing(rel: &Relation, rows: Seq<Row>, pads: Seq<Row>, n: int)
    requires
        forall|i: int| 0 <= i < pads.len() ==> #[trigger] pads[i] == padding_row(),
    ensures
        main_value(rel, rows + pads, n) == main_value(rel, rows, n),
{
    let all = rows + pads;
    let f = |i: int| sum(10, |j: int| use_value(rel, all[i], n, j));
    let g = |i: int| sum(10, |j: int| use_value(rel, pads[i], n, j));
    let h = |i: int| sum(10, |j: int| use_value(rel, rows[i], n, j));
    assert forall|i: int| 0 <= i < pads.len() implies #[trigger] g(i) == f(rows.len() + i) by {
        assert(all[rows.len() + i] == pads[i]);
    }
    lemma_sum_split(rows.len(), pads.len(), f, g);
    assert forall|i: int| 0 <= i < pads.len() implies #[trigger] g(i) == Ext::zero() by {
        let row = pads[i];
        assert(row == padding_row());
        let u = |j: int| use_value(rel, row, n, j);
        assert forall|j: int| 0 <= j < 10 implies #[trigger] u(j) == Ext::zero() by {
            let w = row_uses(row, n)[j];
            assert(w.mult == 0);
            lemma_base_add(0, 0);
            lemma_mul_zero(rel.den(w.tuple).inv());
        }
        lemma_sum_zero(10, u);
    }
    lemma_sum_zero(pads.len(), g);
    assert forall|i: int| 0 <= i < rows.len() implies #[trigger] f(i) == h(i) by {
        assert(all[i] == rows[i]);
    }
    lemma_sum_ext(rows.len(), f, h);
    lemma_sum_wf(rows.len(), h);
    lemma_add_zero(sum(rows.len(), h));
}

/// Rows that were built without an error are those of an honest run.
pub proof fn lemma_built_rows_honest(
    rows: Seq<Row>,
    boundary: &BoundaryTable,
    gates: Seq<Gate>,
    cases: Seq<TestCase>,
    k: nat,
)
    requires
        k > 0,
        gates.len() > 0,
        k * gates.len() < u32::MAX,
        all_runnable(gates),
        rows.len() == cases.len() * (k * gates.len()),
        all_rows_of(rows, gates, cases, (k * gates.len()) as int),
        is_boundary(*boundary, gates, cases, k * gates.len()),
        forall|s: int| !#[trigger] is_first_refused(gates, k, cases, s),
    ensures
        honest_trace(rows, boundary, gates, cases, k),
{
    lemma_all_accepted(gates, k, cases, cases.len() as int);
    assert forall|s: int| 0 <= s < cases.len() implies run(
        gates,
        text_state((#[trigger] cases[s]).x_hex@),
        k * gates.len(),
    ) == text_state(cases[s].y_hex@) by {
        assert(shot_outcome(gates, k, cases[s].x_hex@, cases[s].y_hex@) is Accepted);
    }
}

/// The main claim that a verifier derives from the public terms and the tables'
/// claims is the one that the main trace makes.
pub proof fn lemma_derived_main_claim(m: Ext, p: Ext, b: Ext, t: Ext, public: Ext)
    requires
        m.wf(),
        ((m + p) + b) + t == public,
    ensures
        ((public - p) - b) - t == m,
{
    // ((((m + p) + b) + t) - p) - b) - t, one table after the other.
    lemma_add_assoc(m, p, b);
    lemma_add_assoc(m, p + b, t);
    lemma_add_comm(p, b);
    let u = (m + b) + t;
    assert(public == u + p) by {
        lemma_add_assoc(m, b, p);
        lemma_add_assoc(m + b, p, t);
        lemma_add_comm(p, t);
        lemma_add_assoc(m + b, t, p);
    }
    lemma_ops_wf(m + b, t);
    lemma_add_sub(u, p);
    let w = m + t;
    assert(u == w + b) by {
        lemma_add_assoc(m, b, t);
        lemma_add_comm(b, t);
        lemma_add_assoc(m, t, b);
    }
    lemma_ops_wf(m, t);
    lemma_add_sub(w, b);
    lemma_add_sub(m, t);
}

} // verus!
