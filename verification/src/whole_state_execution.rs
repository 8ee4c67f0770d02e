//! What a whole-state trace proves: where its enabled rows satisfy the
//! constraints, their lookups are in the tables, and the states that they pass on
//! balance, every shot's last state is what the circuit makes of its first.
use vstd::prelude::*;
use vstd::relations::injective_on;
use vstd::set_lib::{lemma_int_range, lemma_len_subset, lemma_map_size, set_int_range};

use crate::chains::{
    all_at, block_left, block_taken, lemma_chains_pass_on, lemma_left_is_taken, passed_on,
};
use crate::circuit::{
    lemma_high_part, lemma_split, lemma_state_limbs, limb_state,
    limbs_wf, run, state_limbs, weight, Gate, TestCase, N_QUBITS,
};
use crate::components::all_zero;
use crate::field::P;
use crate::logup::embed;
use crate::whole_state::{lemma_row_bits, text_state, ReadCols, Row};
use crate::whole_state_air::{
    lemma_gate_row_satisfies, read_cells, row_cells, row_checks, CTRL_A_OFF, CTRL_B_OFF, TARGET_OFF,
    TRACE_COLUMNS,
};
use crate::whole_state_laws::{
    gate_in, lemma_checks_pin_step, limbs_after, limbs_before, read_listed,
};
use crate::whole_state_run::TraceWitness;

verus! {

/// A state: the shot, the step, and the limbs.
pub type State = (int, int, Seq<u32>);

/// The state that a row takes.
pub open spec fn state_before(c: Seq<u32>) -> State {
    (c[5] as int, c[6] as int, limbs_before(c))
}

/// The state that a row leaves.
pub open spec fn state_after(c: Seq<u32>) -> State {
    (c[5] as int, (c[6] + 1) % (P as int), limbs_after(c))
}

/// The states that rows take and leave.
pub open spec fn states_taken(rows: Seq<Seq<u32>>) -> Seq<State> {
    rows.map_values(|c: Seq<u32>| state_before(c))
}

pub open spec fn states_left(rows: Seq<Seq<u32>>) -> Seq<State> {
    rows.map_values(|c: Seq<u32>| state_after(c))
}

/// An enabled row that satisfies its constraints, whose reads are in the tables,
/// and whose program tuple is that of the step's slot.
pub open spec fn row_accepted(c: Seq<u32>, gates: Seq<Gate>) -> bool {
    let g = gates[c[6] as int % gates.len() as int];
    &&& c.len() == TRACE_COLUMNS
    &&& forall|i: int| 0 <= i < c.len() ==> #[trigger] c[i] < P
    &&& c[0] == 1
    &&& all_zero(row_checks(embed(c)))
    &&& read_listed(c, TARGET_OFF as int)
    &&& c[3] + c[4] == 1 ==> read_listed(c, CTRL_A_OFF as int)
    &&& c[4] == 1 ==> read_listed(c, CTRL_B_OFF as int)
    &&& (c[2] + 2 * c[3] + 3 * c[4]) % (P as int) == g.scalar()
    &&& c[TARGET_OFF as int] == g.target
    &&& c[CTRL_A_OFF as int] == g.a_operand()
    &&& c[CTRL_B_OFF as int] == g.b_operand()
}

/// The gates are of the four kinds.
pub open spec fn all_known(gates: Seq<Gate>) -> bool {
    forall|i: int| 0 <= i < gates.len() ==> (#[trigger] gates[i]).known()
}

/// A row applies what its step's slot holds, where its state is in 16-bit limbs.
proof fn lemma_row_steps(c: Seq<u32>, gates: Seq<Gate>)
    requires
        gates.len() > 0,
        all_known(gates),
        row_accepted(c, gates),
        limbs_wf(limbs_before(c)),
    ensures
        limbs_wf(limbs_after(c)),
        limb_state(limbs_after(c)) == gates[c[6] as int % gates.len() as int].apply(
            limb_state(limbs_before(c)),
        ),
{
    lemma_checks_pin_step(c);
    vstd::arithmetic::div_mod::lemma_mod_bound(c[6] as int, gates.len() as int);
    let g = gates[c[6] as int % gates.len() as int];
    let h = gate_in(c);
    assert(g.known());
    assert(c[2] + 2 * c[3] + 3 * c[4] <= 3);
    assert(h.opcode == g.opcode);
    let s = limb_state(limbs_before(c));
    assert(h.fires(s) == g.fires(s));
    assert(h.target == g.target);
}

/// The state of a shot after `j` steps.
spec fn nth(gates: Seq<Gate>, start: State, j: nat) -> State {
    (start.0, j as int, state_limbs(run(gates, limb_state(start.2), j)))
}

/// A state in limbs of sixteen bits.
spec fn in_limbs(s: Seq<bool>) -> bool {
    limbs_wf(state_limbs(s)) && limb_state(state_limbs(s)) == s
}

/// A row that takes the state after `j` steps leaves the state after one more.
proof fn lemma_step(c: Seq<u32>, gates: Seq<Gate>, start: State, j: nat)
    requires
        gates.len() > 0,
        all_known(gates),
        row_accepted(c, gates),
        j + 1 < P,
        in_limbs(run(gates, limb_state(start.2), j)),
        state_before(c) == nth(gates, start, j),
    ensures
        state_after(c) == nth(gates, start, j + 1),
        in_limbs(run(gates, limb_state(start.2), j + 1)),
{
    lemma_row_steps(c, gates);
    vstd::arithmetic::div_mod::lemma_small_mod(j + 1, P as nat);
    lemma_state_limbs(limbs_after(c));
}

/// Row `i` belongs to a shot and takes a state of step `j`.
spec fn takes(rows: Seq<Seq<u32>>, shot: int, i: int, j: int) -> bool {
    0 <= i < rows.len() && rows[i][5] == shot && rows[i][6] == j % (P as int)
}

/// What is asked of a trace between the starts and the ends of its shots.
pub open spec fn trace_accepted(
    rows: Seq<Seq<u32>>,
    gates: Seq<Gate>,
    starts: Seq<State>,
    ends: Seq<State>,
    total: nat,
) -> bool {
    &&& forall|i: int| 0 <= i < rows.len() ==> row_accepted(#[trigger] rows[i], gates)
    &&& starts.len() == ends.len()
    &&& forall|q: int|
        0 <= q < ends.len() ==> (#[trigger] ends[q]).0 == q && ends[q].1 == total
    &&& forall|q: int|
        0 <= q < starts.len() ==> (#[trigger] starts[q]).0 == q && starts[q].1 == 0 && limbs_wf(
            starts[q].2,
        )
    &&& passed_on(states_taken(rows), ends, states_left(rows), starts)
}

/// Up to the last step, the state of a shot is reached.
proof fn lemma_reached(
    rows: Seq<Seq<u32>>,
    gates: Seq<Gate>,
    starts: Seq<State>,
    ends: Seq<State>,
    total: nat,
    s: int,
    j: nat,
)
    requires
        gates.len() > 0,
        all_known(gates),
        0 < total < P,
        trace_accepted(rows, gates, starts, ends, total),
        0 <= s < starts.len(),
        j <= total,
    ensures
        in_limbs(run(gates, limb_state(starts[s].2), j)),
        states_left(rows).contains(nth(gates, starts[s], j)) || starts.contains(
            nth(gates, starts[s], j),
        ),
    decreases j,
{
    let start = starts[s];
    if j == 0 {
        lemma_state_limbs(start.2);
        assert(nth(gates, start, 0) == start);
        assert(starts.contains(start));
    } else {
        let m = (j - 1) as nat;
        lemma_reached(rows, gates, starts, ends, total, s, m);
        let t = nth(gates, start, m);
        lemma_left_is_taken(states_taken(rows), ends, states_left(rows), starts, t);
        assert(!ends.contains(t)) by {
            if ends.contains(t) {
                let q = choose|q: int| 0 <= q < ends.len() && ends[q] == t;
                assert(ends[q].1 == total);
            }
        }
        let i = choose|i: int| 0 <= i < states_taken(rows).len() && states_taken(rows)[i] == t;
        assert(state_before(rows[i]) == t);
        lemma_step(rows[i], gates, start, m);
        assert(states_left(rows)[i] == nth(gates, start, j));
    }
}

/// Unless a shot ends as it should, each further step has a row.
proof fn lemma_goes_on(
    rows: Seq<Seq<u32>>,
    gates: Seq<Gate>,
    starts: Seq<State>,
    ends: Seq<State>,
    total: nat,
    s: int,
    j: nat,
)
    requires
        gates.len() > 0,
        all_known(gates),
        0 < total < P,
        rows.len() < P,
        trace_accepted(rows, gates, starts, ends, total),
        0 <= s < starts.len(),
        ends[s] != nth(gates, starts[s], total),
        total <= j <= total + rows.len(),
    ensures
        exists|i: int| #[trigger] takes(rows, s, i, j as int),
    decreases j,
{
    let p = P as int;
    let t: State = if j == total {
        lemma_reached(rows, gates, starts, ends, total, s, total);
        vstd::arithmetic::div_mod::lemma_small_mod(total, P as nat);
        nth(gates, starts[s], total)
    } else {
        let m = (j - 1) as nat;
        lemma_goes_on(rows, gates, starts, ends, total, s, m);
        let i = choose|i: int| #[trigger] takes(rows, s, i, m as int);
        assert(states_left(rows)[i] == state_after(rows[i]));
        vstd::arithmetic::div_mod::lemma_add_mod_noop(m as int, 1, p);
        vstd::arithmetic::div_mod::lemma_small_mod(1, P as nat);
        state_after(rows[i])
    };
    assert(t.0 == s && t.1 == j as int % p);
    lemma_left_is_taken(states_taken(rows), ends, states_left(rows), starts, t);
    assert(!ends.contains(t)) by {
        if ends.contains(t) {
            let q = choose|q: int| 0 <= q < ends.len() && ends[q] == t;
            assert(q == s);
            if j < P {
                vstd::arithmetic::div_mod::lemma_small_mod(j, P as nat);
            } else {
                vstd::arithmetic::div_mod::lemma_mod_multiples_vanish(1, j - P, p);
                vstd::arithmetic::div_mod::lemma_small_mod((j - P) as nat, P as nat);
            }
            assert(j == total);
            assert(false);
        }
    }
    let i = choose|i: int| 0 <= i < states_taken(rows).len() && states_taken(rows)[i] == t;
    assert(takes(rows, s, i, j as int));
}

/// The trace proves the executions. Let every enabled row satisfy the constraints,
/// with reads that the tables list and with the program's tuple of its step; let
/// the states balance between the shots' first states and their last states after
/// `total` steps. Then the last state of every shot is what the circuit, run over
/// and over for `total` steps, makes of its first.
pub proof fn lemma_trace_proves_executions(
    rows: Seq<Seq<u32>>,
    gates: Seq<Gate>,
    starts: Seq<State>,
    ends: Seq<State>,
    total: nat,
    s: int,
)
    requires
        gates.len() > 0,
        all_known(gates),
        0 < total < P,
        rows.len() < P,
        trace_accepted(rows, gates, starts, ends, total),
        0 <= s < starts.len(),
    ensures
        limbs_wf(ends[s].2),
        limb_state(ends[s].2) == run(gates, limb_state(starts[s].2), total),
{
    let start = starts[s];
    if ends[s] != nth(gates, start, total) {
        // One row more than there are would have to take a state.
        let n = rows.len();
        let f = |j: int| choose|i: int| #[trigger] takes(rows, s, i, j);
        let from = set_int_range(total as int, (total + n + 1) as int);
        let to = set_int_range(0, n as int);
        let image = from.map(f);
        lemma_int_range(total as int, (total + n + 1) as int);
        lemma_int_range(0, n as int);
        assert forall|j: int| from.contains(j) implies takes(rows, s, #[trigger] f(j), j) by {
            lemma_goes_on(rows, gates, starts, ends, total, s, j as nat);
        }
        assert(injective_on(f, from)) by {
            assert forall|a: int, b: int|
                from.contains(a) && from.contains(b) && #[trigger] f(a) == #[trigger] f(b) implies a
                == b by {
                assert(takes(rows, s, f(a), a) && takes(rows, s, f(b), b));
                assert(a % (P as int) == b % (P as int));
                if a < b {
                    vstd::arithmetic::div_mod::lemma_mod_equivalence(b, a, P as int);
                    vstd::arithmetic::div_mod::lemma_small_mod((b - a) as nat, P as nat);
                } else if b < a {
                    vstd::arithmetic::div_mod::lemma_mod_equivalence(a, b, P as int);
                    vstd::arithmetic::div_mod::lemma_small_mod((a - b) as nat, P as nat);
                }
            }
        }
        lemma_map_size(from, image, f);
        assert forall|i: int| image.contains(i) implies to.contains(i) by {
            let j = choose|j: int| from.contains(j) && f(j) == i;
            assert(takes(rows, s, f(j), j));
        }
        lemma_len_subset(image, to);
        assert(false);
    }
    lemma_reached(rows, gates, starts, ends, total, s, total);
}

/// The cells of a read that is made are listed in the tables, and are field
/// elements.
proof fn lemma_read_is_listed(c: Seq<u32>, o: int, r: ReadCols, limbs: Seq<u32>, q: int)
    requires
        0 <= o,
        o + 39 <= c.len(),
        forall|j: int| 0 <= j < 39 ==> c[o + j] == #[trigger] read_cells(r)[j],
        limbs_wf(limbs),
        0 <= q < N_QUBITS,
        r.reads(limbs, q),
    ensures
        read_listed(c, o),
        forall|j: int| 0 <= j < 39 ==> #[trigger] read_cells(r)[j] < 0x1_0000,
{
    let v = read_cells(r);
    assert(c[o] == v[0] && c[o + 1] == v[1] && c[o + 2] == v[2] && c[o + 3] == v[3]);
    assert(c[o + 36] == v[36] && c[o + 37] == v[37] && c[o + 38] == v[38]);
    let l = limbs[q / 16];
    assert(l < 0x1_0000);
    lemma_split(l, r.bit_pos);
    lemma_high_part(l, r.bit_pos);
    crate::circuit::lemma_mask(r.bit_pos);
    assert(weight(r.bit_pos) <= 0x8000);
    crate::circuit::lemma_mask((15 - r.bit_pos) as u32);
    assert(weight((15 - r.bit_pos) as u32) <= 0x8000);
    assert forall|j: int| 0 <= j < 39 implies #[trigger] v[j] < 0x1_0000 by {
        if 4 <= j < 36 {
            assert(v[j] == r.lsel@[j - 4]);
        }
    }
}

proof fn lemma_idle_is_small(r: ReadCols)
    requires
        r.is_inactive(),
    ensures
        forall|j: int| 0 <= j < 39 ==> #[trigger] read_cells(r)[j] < 0x1_0000,
{
    let v = read_cells(r);
    assert forall|j: int| 0 <= j < 39 implies #[trigger] v[j] < 0x1_0000 by {
        if 4 <= j < 36 {
            assert(v[j] == r.lsel@[j - 4]);
        }
    }
}

/// The row of a step is accepted, and passes its state on.
proof fn lemma_honest_row_accepted(
    row: Row,
    gates: Seq<Gate>,
    s: Seq<bool>,
    shot: int,
    pc: int,
)
    requires
        gates.len() > 0,
        0 <= shot < P,
        0 <= pc && pc + 1 < P,
        gates[pc % gates.len() as int].known(),
        gates[pc % gates.len() as int].operands_ok(),
        row.steps(gates[pc % gates.len() as int], s, shot, pc),
    ensures
        row_accepted(row_cells(row), gates),
        state_before(row_cells(row)) == (shot, pc, state_limbs(s)),
        state_after(row_cells(row)) == (
            shot,
            pc + 1,
            state_limbs(gates[pc % gates.len() as int].apply(s)),
        ),
{
    let c = row_cells(row);
    let g = gates[pc % gates.len() as int];
    lemma_gate_row_satisfies(row, g, s, shot, pc);
    lemma_row_bits(row, g, s, shot, pc);
    assert(limbs_before(c) =~= row.in_limb@);
    assert(limbs_after(c) =~= row.out_limb@);
    lemma_state_limbs(row.in_limb@);
    lemma_state_limbs(row.out_limb@);
    vstd::arithmetic::div_mod::lemma_small_mod((pc + 1) as nat, P as nat);
    let (t, a, b) = (TARGET_OFF as int, CTRL_A_OFF as int, CTRL_B_OFF as int);
    assert forall|j: int| 0 <= j < 39 implies c[t + j] == #[trigger] read_cells(row.target)[j] by {}
    assert forall|j: int| 0 <= j < 39 implies c[a + j] == #[trigger] read_cells(row.ctrl_a)[j] by {}
    assert forall|j: int| 0 <= j < 39 implies c[b + j] == #[trigger] read_cells(row.ctrl_b)[j] by {}
    lemma_read_is_listed(c, t, row.target, row.in_limb@, g.target as int);
    if g.a_active() {
        lemma_read_is_listed(c, a, row.ctrl_a, row.in_limb@, g.ctrl_a as int);
    } else {
        lemma_idle_is_small(row.ctrl_a);
    }
    if g.b_active() {
        lemma_read_is_listed(c, b, row.ctrl_b, row.in_limb@, g.ctrl_b as int);
    } else {
        lemma_idle_is_small(row.ctrl_b);
    }
    assert(read_cells(row.target)[0] == row.target.q);
    assert(read_cells(row.ctrl_a)[0] == row.ctrl_a.q);
    assert(read_cells(row.ctrl_b)[0] == row.ctrl_b.q);
    assert(c[t] == g.target && c[a] == g.a_operand() && c[b] == g.b_operand());
    assert(row.ab <= 1) by (nonlinear_arith)
        requires
            row.ab == row.ctrl_a.bit * row.ctrl_b.bit,
            row.ctrl_a.bit <= 1,
            row.ctrl_b.bit <= 1,
    ;
    assert forall|i: int| 0 <= i < c.len() implies #[trigger] c[i] < P by {
        if i < 7 {
        } else if i < 39 {
            assert(c[i] == row.in_limb@[i - 7]);
        } else if i < 71 {
            assert(c[i] == row.out_limb@[i - 39]);
        } else if i < 110 {
            assert(c[i] == read_cells(row.target)[i - 71]);
        } else if i < 149 {
            assert(c[i] == read_cells(row.ctrl_a)[i - 110]);
        } else if i < 188 {
            assert(c[i] == read_cells(row.ctrl_b)[i - 149]);
        }
    }
}

/// The state of shot `s` after `j` steps.
pub open spec fn state_of(gates: Seq<Gate>, cases: Seq<TestCase>, s: int, j: int) -> State {
    (s, j, state_limbs(run(gates, text_state(cases[s].x_hex@), j as nat)))
}

/// The enabled rows of a trace, as columns.
pub open spec fn real_cells(w: &TraceWitness) -> Seq<Seq<u32>> {
    Seq::new(w.n_rows as nat, |i: int| row_cells(w.rows@[i]))
}

/// What is asked of a trace is met by the traces that are built.
pub proof fn lemma_built_trace_accepted(
    w: &TraceWitness,
    gates: Seq<Gate>,
    cases: Seq<TestCase>,
    k: nat,
)
    requires
        w.of(gates, cases, k),
        0 < cases.len(),
        cases.len() * (k * gates.len()) < P,
    ensures
        trace_accepted(
            real_cells(w),
            gates,
            Seq::new(cases.len(), |s: int| state_of(gates, cases, s, 0)),
            Seq::new(cases.len(), |s: int| state_of(gates, cases, s, (k * gates.len()) as int)),
            k * gates.len(),
        ),
{
    let m = k * gates.len();
    assert(m > 0) by (nonlinear_arith)
        requires
            k > 0,
            gates.len() > 0,
            m == k * gates.len(),
    ;
    let rows = real_cells(w);
    let n = cases.len();
    assert(m <= n * m && n <= n * m) by (nonlinear_arith)
        requires
            n > 0,
            m > 0,
    ;
    let f = |s: int, j: int| state_of(gates, cases, s, j);
    assert forall|i: int| 0 <= i < rows.len() implies row_accepted(#[trigger] rows[i], gates)
        && state_before(rows[i]) == f(i / m as int, i % m as int) && state_after(rows[i]) == f(
        i / m as int,
        i % m as int + 1,
    ) by {
        let (s, j) = (i / m as int, i % m as int);
        vstd::arithmetic::div_mod::lemma_fundamental_div_mod(i, m as int);
        vstd::arithmetic::div_mod::lemma_mod_bound(i, m as int);
        assert(0 <= s < n) by (nonlinear_arith)
            requires
                0 <= i < n * m,
                i == m * s + j,
                0 <= j < m,
        ;
        vstd::arithmetic::div_mod::lemma_mod_bound(j, gates.len() as int);
        let x = run(gates, text_state(cases[s].x_hex@), j as nat);
        assert(w.real_rows()[i] == w.rows@[i]);
        lemma_honest_row_accepted(w.rows@[i], gates, x, s, j);
    }
    lemma_chains_pass_on(f, n, m);
    let starts = Seq::new(n, |s: int| state_of(gates, cases, s, 0));
    let ends = Seq::new(n, |s: int| state_of(gates, cases, s, m as int));
    assert(states_taken(rows) =~= block_taken(f, n, m));
    assert(states_left(rows) =~= block_left(f, n, m));
    assert(all_at(f, n, 0) =~= starts);
    assert(all_at(f, n, m as int) =~= ends);
    assert forall|q: int| 0 <= q < n implies limbs_wf((#[trigger] starts[q]).2) by {
        let i = (q * m) as int;
        assert(0 <= i < n * m) by (nonlinear_arith)
            requires
                0 <= q < n,
                m > 0,
                i == q * m,
        ;
        assert(m * q == i) by (nonlinear_arith)
            requires
                i == q * m,
        ;
        vstd::arithmetic::div_mod::lemma_fundamental_div_mod_converse(i, m as int, q, 0);
        assert(w.real_rows()[i] == w.rows@[i]);
        lemma_state_limbs(w.rows@[i].in_limb@);
    }
}

} // verus!
