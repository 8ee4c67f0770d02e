//! What a shard's trace proves: where every row of a shot satisfies the
//! constraints, its lookups are in their tables, and the tuples of every qubit
//! balance, the shot's last state is what the circuit makes of its first.
use vstd::arithmetic::power2::{lemma2_to64, pow2};
use vstd::prelude::*;

use crate::circuit::{run, Gate, TestCase, N_QUBITS, OP_CNOT, OP_NOT, OP_TOFFOLI};
use crate::components::{
    all_zero, gate_checks, lemma_checks_order_accesses, lemma_checks_pin_gate,
    lemma_gate_row_satisfies, row_cells, TRACE_COLUMNS,
};
use crate::field::{lemma_base_add, Ext, P};
use crate::logup::embed;
use crate::qubit_memory::{all_runnable, boundary_of, last_access, lemma_last_access, row_of};
use crate::qubit_memory_lookups::{RC_LOG, TS_FINAL};
use crate::shard::ShardWitness;
use crate::whole_state::{flag, text_state};

verus! {

/// A moment and the value that a qubit has from then on.
pub type Moment = (int, int);

/// Tuples that are taken and tuples that are left, in order of time. If they are
/// the same tuples, every moment is another, and each is taken before the next one
/// is left, then each takes what the one before it left.
pub proof fn lemma_chain(taken: Seq<Moment>, left: Seq<Moment>)
    requires
        taken.len() == left.len(),
        taken.to_multiset() == left.to_multiset(),
        forall|i: int, j: int| 0 <= i < j < left.len() ==> (#[trigger] left[i]).0 < (#[trigger] left[j]).0,
        forall|j: int|
            0 <= j && j + 1 < left.len() ==> (#[trigger] taken[j]).0 < left[j + 1].0,
    ensures
        taken == left,
    decreases left.len(),
{
    if left.len() == 0 {
        assert(taken =~= left);
    } else {
        let n = left.len() - 1;
        let last = left[n];
        // The latest tuple can only be taken last.
        left.to_multiset_ensures();
        taken.to_multiset_ensures();
        assert(left.contains(last));
        assert(left.to_multiset().count(last) > 0);
        assert(taken.contains(last));
        let k = choose|k: int| 0 <= k < taken.len() && taken[k] == last;
        if k < n {
            assert(taken[k].0 < left[k + 1].0);
            if k + 1 < n {
                assert(left[k + 1].0 < left[n].0);
            }
        }
        assert(taken[n] == last);
        let (t, l) = (taken.drop_last(), left.drop_last());
        assert(taken =~= t.push(last));
        assert(left =~= l.push(last));
        vstd::seq_lib::to_multiset_build(t, last);
        vstd::seq_lib::to_multiset_build(l, last);
        assert(t.to_multiset() =~= t.to_multiset().insert(last).remove(last));
        assert(l.to_multiset() =~= l.to_multiset().insert(last).remove(last));
        lemma_chain(t, l);
    }
}

/// What a row does to qubit `a`, if it touches it: the tuple that it takes, and
/// the value that it leaves.
pub open spec fn access_at(c: Seq<u32>, a: int) -> Option<(Moment, int)> {
    if c[4] == a {
        Some(((c[5] as int, c[6] as int), (c[6] + c[18]) % (P as int)))
    } else if c[2] + c[3] == 1 && c[8] == a {
        Some(((c[9] as int, c[10] as int), c[10] as int))
    } else if c[3] == 1 && c[12] == a {
        Some(((c[13] as int, c[14] as int), c[14] as int))
    } else {
        None
    }
}

/// The tuples of qubit `a` that the first `n` rows of a shot take, in order.
pub open spec fn taken(rows: Seq<Seq<u32>>, a: int, n: nat) -> Seq<Moment>
    decreases n,
{
    if n == 0 {
        Seq::empty()
    } else {
        let before = taken(rows, a, (n - 1) as nat);
        match access_at(rows[n - 1], a) {
            Some(t) => before.push(t.0),
            None => before,
        }
    }
}

/// The tuples of qubit `a` that the first `n` rows of a shot leave, in order: the
/// row of step `i` leaves its value at time `i + 1`.
pub open spec fn left(rows: Seq<Seq<u32>>, a: int, n: nat) -> Seq<Moment>
    decreases n,
{
    if n == 0 {
        Seq::empty()
    } else {
        let before = left(rows, a, (n - 1) as nat);
        match access_at(rows[n - 1], a) {
            Some(t) => before.push((n as int, t.1)),
            None => before,
        }
    }
}

/// The tuples of qubit `a` balance over a shot: what the rows and the end take is
/// what the start and the rows leave.
pub open spec fn balanced(rows: Seq<Seq<u32>>, a: int, x: int, end: Moment) -> bool {
    taken(rows, a, rows.len()).push(end).to_multiset() == (seq![(0int, x)] + left(
        rows,
        a,
        rows.len(),
    )).to_multiset()
}

/// The row of step `pc` satisfies the constraints, its program tuple is that of
/// gate `g`, and the differences that it looks up are in the range table.
pub open spec fn row_accepted(c: Seq<u32>, g: Gate, pc: int) -> bool {
    &&& c.len() == TRACE_COLUMNS
    &&& forall|i: int| 0 <= i < 19 ==> #[trigger] c[i] < P
    &&& all_zero(gate_checks(Ext::base(1), Ext::base(pc), embed(c)))
    &&& (c[1] + 2 * c[2] + 3 * c[3]) % (P as int) == g.scalar()
    &&& c[4] == g.target
    &&& c[8] == g.a_operand()
    &&& c[12] == g.b_operand()
    &&& c[7] < pow2(RC_LOG as nat)
    &&& c[2] + c[3] == 1 ==> c[11] < pow2(RC_LOG as nat)
    &&& c[3] == 1 ==> c[15] < pow2(RC_LOG as nat)
}

/// The lists grow together, and the times at which values are left rise.
proof fn lemma_lists(rows: Seq<Seq<u32>>, a: int, n: nat)
    ensures
        taken(rows, a, n).len() == left(rows, a, n).len(),
        forall|j: int| 0 <= j < left(rows, a, n).len() ==> 0 < (#[trigger] left(rows, a, n)[j]).0 <= n,
        forall|i: int, j: int|
            0 <= i < j < left(rows, a, n).len() ==> (#[trigger] left(rows, a, n)[i]).0 < (
            #[trigger] left(rows, a, n)[j]).0,
    decreases n,
{
    if n > 0 {
        lemma_lists(rows, a, (n - 1) as nat);
    }
}

/// The lists of fewer rows are beginnings of those of more rows.
proof fn lemma_prefix(rows: Seq<Seq<u32>>, a: int, m: nat, n: nat)
    requires
        m <= n,
    ensures
        taken(rows, a, m).len() <= taken(rows, a, n).len(),
        left(rows, a, m).len() <= left(rows, a, n).len(),
        forall|j: int|
            0 <= j < taken(rows, a, m).len() ==> #[trigger] taken(rows, a, n)[j] == taken(rows, a, m)[j],
        forall|j: int|
            0 <= j < left(rows, a, m).len() ==> #[trigger] left(rows, a, n)[j] == left(rows, a, m)[j],
    decreases n,
{
    if m < n {
        lemma_prefix(rows, a, m, (n - 1) as nat);
    }
}

/// What is pinned of an accepted row.
proof fn lemma_row(c: Seq<u32>, g: Gate, pc: int)
    requires
        row_accepted(c, g, pc),
        g.runnable(),
        0 <= pc < TS_FINAL,
    ensures
        c[0] <= 1 && c[1] <= 1 && c[2] <= 1 && c[3] <= 1,
        c[6] <= 1 && c[10] <= 1 && c[14] <= 1,
        c[1] == flag(g.opcode == OP_NOT),
        c[2] == flag(g.opcode == OP_CNOT),
        c[3] == flag(g.opcode == OP_TOFFOLI),
        c[17] == flag(
            g.opcode == OP_NOT || (g.opcode == OP_CNOT && c[10] == 1) || (g.opcode == OP_TOFFOLI
                && c[10] == 1 && c[14] == 1),
        ),
        (c[6] + c[18]) % (P as int) == (if c[17] == 1 { 1 - c[6] } else { c[6] as int }),
        c[5] < TS_FINAL ==> c[5] <= pc,
        g.a_active() && c[9] < TS_FINAL ==> c[9] <= pc,
        g.b_active() && c[13] < TS_FINAL ==> c[13] <= pc,
{
    lemma_checks_pin_gate(1, pc, c);
    lemma_checks_order_accesses(1, pc, c);
}

/// What a row takes was left before it, where what it takes was left at all.
proof fn lemma_taken_earlier(rows: Seq<Seq<u32>>, gates: Seq<Gate>, a: int, n: nat)
    requires
        gates.len() > 0,
        all_runnable(gates),
        n <= rows.len() < TS_FINAL,
        0 <= a < N_QUBITS,
        forall|i: int|
            0 <= i < rows.len() ==> row_accepted(#[trigger] rows[i], gates[i % gates.len() as int], i),
        forall|j: int| 0 <= j < taken(rows, a, n).len() ==> (#[trigger] taken(rows, a, n)[j]).0 < TS_FINAL,
    ensures
        taken(rows, a, n).len() == left(rows, a, n).len(),
        forall|j: int|
            0 <= j < taken(rows, a, n).len() ==> (#[trigger] taken(rows, a, n)[j]).0 < left(rows, a, n)[j].0,
    decreases n,
{
    if n > 0 {
        let m = (n - 1) as nat;
        lemma_prefix(rows, a, m, n);
        assert forall|j: int| 0 <= j < taken(rows, a, m).len() implies (#[trigger] taken(
            rows,
            a,
            m,
        )[j]).0 < TS_FINAL by {
            assert(taken(rows, a, n)[j] == taken(rows, a, m)[j]);
        }
        lemma_taken_earlier(rows, gates, a, m);
        vstd::arithmetic::div_mod::lemma_mod_bound(m as int, gates.len() as int);
        let g = gates[m as int % gates.len() as int];
        let c = rows[m as int];
        assert(g.runnable());
        assert(row_accepted(c, g, m as int));
        lemma_row(c, g, m as int);
        if access_at(c, a) is Some {
            let t = access_at(c, a)->Some_0;
            let last = taken(rows, a, n).len() - 1;
            assert(taken(rows, a, n)[last] == t.0);
            assert(t.0.0 < TS_FINAL);
            assert(left(rows, a, n)[last] == (n as int, t.1));
        }
    }
}

/// A qubit's tuples are taken in the order in which they were left.
proof fn lemma_taken_in_order(rows: Seq<Seq<u32>>, gates: Seq<Gate>, a: int, x: int, end: Moment)
    requires
        gates.len() > 0,
        all_runnable(gates),
        rows.len() < TS_FINAL,
        0 <= a < N_QUBITS,
        forall|i: int|
            0 <= i < rows.len() ==> row_accepted(#[trigger] rows[i], gates[i % gates.len() as int], i),
        balanced(rows, a, x, end),
    ensures
        taken(rows, a, rows.len()).push(end) == seq![(0int, x)] + left(rows, a, rows.len()),
{
    let n = rows.len();
    let t = taken(rows, a, n).push(end);
    let l = seq![(0int, x)] + left(rows, a, n);
    lemma_lists(rows, a, n);
    t.to_multiset_ensures();
    l.to_multiset_ensures();
    assert forall|j: int| 0 <= j < taken(rows, a, n).len() implies (#[trigger] taken(rows, a, n)[j]).0
        < TS_FINAL by {
        assert(t[j] == taken(rows, a, n)[j]);
        assert(t.contains(t[j]));
        assert(t.to_multiset().count(t[j]) > 0);
        assert(l.contains(t[j]));
        let i = choose|i: int| 0 <= i < l.len() && l[i] == t[j];
        if i > 0 {
            assert(l[i] == left(rows, a, n)[i - 1]);
        }
    }
    lemma_taken_earlier(rows, gates, a, n);
    assert forall|i: int, j: int| 0 <= i < j < l.len() implies (#[trigger] l[i]).0 < (#[trigger] l[j]).0 by {
        assert(l[j] == left(rows, a, n)[j - 1]);
        if i > 0 {
            assert(l[i] == left(rows, a, n)[i - 1]);
        }
    }
    assert forall|j: int| 0 <= j && j + 1 < l.len() implies (#[trigger] t[j]).0 < l[j + 1].0 by {
        assert(t[j] == taken(rows, a, n)[j]);
        assert(l[j + 1] == left(rows, a, n)[j]);
    }
    lemma_chain(t, l);
}

/// The value of a qubit after `n` rows: what was left last.
spec fn value_after(rows: Seq<Seq<u32>>, a: int, x: int, n: nat) -> int {
    (seq![(0int, x)] + left(rows, a, n)).last().1
}

/// A row that touches a qubit takes the value that the qubit has.
proof fn lemma_takes_value(
    rows: Seq<Seq<u32>>,
    gates: Seq<Gate>,
    a: int,
    x: int,
    end: Moment,
    n: nat,
)
    requires
        gates.len() > 0,
        all_runnable(gates),
        n < rows.len() < TS_FINAL,
        0 <= a < N_QUBITS,
        forall|i: int|
            0 <= i < rows.len() ==> row_accepted(#[trigger] rows[i], gates[i % gates.len() as int], i),
        balanced(rows, a, x, end),
    ensures
        access_at(rows[n as int], a) matches Some(t) ==> t.0.1 == value_after(rows, a, x, n)
            && value_after(rows, a, x, n + 1) == t.1,
        access_at(rows[n as int], a) is None ==> value_after(rows, a, x, n + 1) == value_after(
            rows,
            a,
            x,
            n,
        ),
{
    if access_at(rows[n as int], a) is Some {
        let t = access_at(rows[n as int], a)->Some_0;
        let total = rows.len();
        lemma_taken_in_order(rows, gates, a, x, end);
        lemma_lists(rows, a, n);
        lemma_lists(rows, a, total);
        lemma_prefix(rows, a, n, total);
        lemma_prefix(rows, a, n + 1, total);
        let all_t = taken(rows, a, total).push(end);
        let all_l = seq![(0int, x)] + left(rows, a, total);
        let j = taken(rows, a, n).len() as int;
        assert(taken(rows, a, n + 1) == taken(rows, a, n).push(t.0));
        assert(taken(rows, a, n + 1)[j] == t.0);
        assert(taken(rows, a, total)[j] == taken(rows, a, n + 1)[j]);
        assert(all_t[j] == t.0);
        assert(all_l[j] == t.0);
        let here = seq![(0int, x)] + left(rows, a, n);
        assert(here.len() == j + 1);
        if j > 0 {
            assert(all_l[j] == left(rows, a, total)[j - 1]);
            assert(left(rows, a, total)[j - 1] == left(rows, a, n)[j - 1]);
            assert(here[j] == left(rows, a, n)[j - 1]);
        }
        assert(here.last() == t.0);
    }
}

/// The values after `n` rows are the bits of the state after `n` steps.
proof fn lemma_states(
    rows: Seq<Seq<u32>>,
    gates: Seq<Gate>,
    x: Seq<bool>,
    ends: Seq<Moment>,
    n: nat,
)
    requires
        gates.len() > 0,
        all_runnable(gates),
        n <= rows.len() < TS_FINAL,
        x.len() == N_QUBITS,
        forall|i: int|
            0 <= i < rows.len() ==> row_accepted(#[trigger] rows[i], gates[i % gates.len() as int], i),
        forall|a: int| 0 <= a < N_QUBITS ==> balanced(rows, a, flag(x[a]) as int, #[trigger] ends[a]),
    ensures
        run(gates, x, n).len() == N_QUBITS,
        forall|a: int|
            0 <= a < N_QUBITS ==> value_after(rows, a, flag(x[a]) as int, n) == flag(
                #[trigger] run(gates, x, n)[a],
            ),
    decreases n,
{
    if n == 0 {
        assert forall|a: int| 0 <= a < N_QUBITS implies value_after(rows, a, flag(x[a]) as int, n)
            == flag(#[trigger] run(gates, x, n)[a]) by {
            assert((seq![(0int, flag(x[a]) as int)] + left(rows, a, 0)) =~= seq![
                (0int, flag(x[a]) as int),
            ]);
        }
    } else {
        let m = (n - 1) as nat;
        lemma_states(rows, gates, x, ends, m);
        vstd::arithmetic::div_mod::lemma_mod_bound(m as int, gates.len() as int);
        let g = gates[m as int % gates.len() as int];
        let c = rows[m as int];
        let s = run(gates, x, m);
        assert(g.runnable());
        assert(row_accepted(c, g, m as int));
        lemma_row(c, g, m as int);
        // What the row reads is the state before it.
        let t = g.target as int;
        assert(balanced(rows, t, flag(x[t]) as int, ends[t]));
        lemma_takes_value(rows, gates, t, flag(x[t]) as int, ends[t], m);
        assert(access_at(c, t) is Some);
        assert(c[6] == flag(s[t]));
        if g.a_active() {
            let a = g.ctrl_a as int;
            assert(balanced(rows, a, flag(x[a]) as int, ends[a]));
            lemma_takes_value(rows, gates, a, flag(x[a]) as int, ends[a], m);
            assert(access_at(c, a) == Some(((c[9] as int, c[10] as int), c[10] as int)));
            assert(c[10] == flag(s[a]));
        }
        if g.b_active() {
            let b = g.ctrl_b as int;
            assert(balanced(rows, b, flag(x[b]) as int, ends[b]));
            lemma_takes_value(rows, gates, b, flag(x[b]) as int, ends[b], m);
            assert(access_at(c, b) == Some(((c[13] as int, c[14] as int), c[14] as int)));
            assert(c[14] == flag(s[b]));
        }
        assert(c[17] == flag(g.fires(s)));
        assert(run(gates, x, n) == g.apply(s));
        assert forall|a: int| 0 <= a < N_QUBITS implies value_after(rows, a, flag(x[a]) as int, n)
            == flag(#[trigger] run(gates, x, n)[a]) by {
            assert(balanced(rows, a, flag(x[a]) as int, ends[a]));
            lemma_takes_value(rows, gates, a, flag(x[a]) as int, ends[a], m);
            assert(value_after(rows, a, flag(x[a]) as int, m) == flag(s[a]));
            if a == t {
                assert(access_at(c, a)->Some_0.1 == (c[6] + c[18]) % (P as int));
            }
        }
    }
}

/// The trace of a shot proves its execution. Let every row satisfy the
/// constraints of its step, look up its step in the program, and look
/// up its differences in the range table; let the tuples of every qubit balance
/// from the first state `x` to the last state `y`. Then `y` is what the circuit,
/// run over and over for as many steps as there are rows, makes of `x`.
pub proof fn lemma_trace_proves_execution(
    rows: Seq<Seq<u32>>,
    gates: Seq<Gate>,
    x: Seq<bool>,
    y: Seq<bool>,
    last_times: Seq<int>,
)
    requires
        gates.len() > 0,
        all_runnable(gates),
        rows.len() < TS_FINAL,
        x.len() == N_QUBITS,
        y.len() == N_QUBITS,
        forall|i: int|
            0 <= i < rows.len() ==> row_accepted(#[trigger] rows[i], gates[i % gates.len() as int], i),
        forall|a: int|
            0 <= a < N_QUBITS ==> balanced(
                rows,
                a,
                flag(x[a]) as int,
                (#[trigger] last_times[a], flag(y[a]) as int),
            ),
    ensures
        y == run(gates, x, rows.len()),
{
    let n = rows.len();
    let ends = Seq::new(N_QUBITS as nat, |a: int| (last_times[a], flag(y[a]) as int));
    assert forall|a: int| 0 <= a < N_QUBITS implies balanced(
        rows,
        a,
        flag(x[a]) as int,
        #[trigger] ends[a],
    ) by {
        assert(ends[a] == (last_times[a], flag(y[a]) as int));
    }
    lemma_states(rows, gates, x, ends, n);
    assert forall|a: int| 0 <= a < N_QUBITS implies y[a] == run(gates, x, n)[a] by {
        assert(balanced(rows, a, flag(x[a]) as int, ends[a]));
        lemma_taken_in_order(rows, gates, a, flag(x[a]) as int, ends[a]);
        lemma_lists(rows, a, n);
        let t = taken(rows, a, n).push(ends[a]);
        let l = seq![(0int, flag(x[a]) as int)] + left(rows, a, n);
        assert(t.last() == ends[a]);
        assert(l.last().1 == value_after(rows, a, flag(x[a]) as int, n));
        assert(flag(y[a]) == flag(run(gates, x, n)[a]));
    }
    assert(y =~= run(gates, x, n));
}

/// The row of step `i` of a shot that starts in state `x`.
pub open spec fn honest_row(gates: Seq<Gate>, x: Seq<bool>, shot: int, i: int) -> Seq<u32> {
    row_cells(
        row_of(
            gates[i % gates.len() as int],
            run(gates, x, i as nat),
            last_access(gates, i as nat),
            shot,
            i,
        ),
    )
}

proof fn lemma_run_len(gates: Seq<Gate>, x: Seq<bool>, n: nat)
    requires
        gates.len() > 0,
        all_runnable(gates),
        x.len() == N_QUBITS,
    ensures
        run(gates, x, n).len() == N_QUBITS,
    decreases n,
{
    if n > 0 {
        lemma_run_len(gates, x, (n - 1) as nat);
        vstd::arithmetic::div_mod::lemma_mod_bound(n - 1, gates.len() as int);
        assert(gates[(n - 1) % gates.len() as int].runnable());
    }
}

/// The row of a step is accepted.
proof fn lemma_honest_row_accepted(gates: Seq<Gate>, x: Seq<bool>, shot: int, i: int)
    requires
        gates.len() > 0,
        all_runnable(gates),
        x.len() == N_QUBITS,
        0 <= i < pow2(RC_LOG as nat),
    ensures
        row_accepted(honest_row(gates, x, shot, i), gates[i % gates.len() as int], i),
{
    lemma2_to64();
    vstd::arithmetic::div_mod::lemma_mod_bound(i, gates.len() as int);
    let g = gates[i % gates.len() as int];
    let (s, last) = (run(gates, x, i as nat), last_access(gates, i as nat));
    assert(g.runnable());
    lemma_run_len(gates, x, i as nat);
    lemma_last_access(gates, i as nat);
    lemma_gate_row_satisfies(g, s, last, shot, i);
    lemma_base_add(1, 0);
    let c = honest_row(gates, x, shot, i);
    let row = row_of(g, s, last, shot, i);
    assert(row.delta < P);
}

/// A shot's own rows take each tuple as soon as it is left.
proof fn lemma_honest_chain(
    rows: Seq<Seq<u32>>,
    gates: Seq<Gate>,
    x: Seq<bool>,
    shot: int,
    a: int,
    n: nat,
)
    requires
        gates.len() > 0,
        all_runnable(gates),
        x.len() == N_QUBITS,
        0 <= a < N_QUBITS,
        n <= rows.len() <= pow2(RC_LOG as nat),
        forall|i: int| 0 <= i < rows.len() ==> #[trigger] rows[i] == honest_row(gates, x, shot, i),
    ensures
        taken(rows, a, n).push((last_access(gates, n)[a] as int, flag(run(gates, x, n)[a]) as int))
            == seq![(0int, flag(x[a]) as int)] + left(rows, a, n),
    decreases n,
{
    lemma2_to64();
    let start = seq![(0int, flag(x[a]) as int)];
    if n == 0 {
        assert(taken(rows, a, 0).push((0int, flag(x[a]) as int)) =~= start + left(rows, a, 0));
    } else {
        let m = (n - 1) as nat;
        lemma_honest_chain(rows, gates, x, shot, a, m);
        vstd::arithmetic::div_mod::lemma_mod_bound(m as int, gates.len() as int);
        let g = gates[m as int % gates.len() as int];
        let (s, last) = (run(gates, x, m), last_access(gates, m));
        assert(g.runnable());
        lemma_run_len(gates, x, m);
        lemma_last_access(gates, m);
        let c = rows[m as int];
        assert(c == honest_row(gates, x, shot, m as int));
        assert(row_accepted(c, g, m as int)) by {
            lemma_honest_row_accepted(gates, x, shot, m as int);
        }
        lemma_row(c, g, m as int);
        let here = (last[a] as int, flag(s[a]) as int);
        let next = (last_access(gates, n)[a] as int, flag(run(gates, x, n)[a]) as int);
        assert(run(gates, x, n) == g.apply(s));
        assert(last_access(gates, n) == g.touch(last, n as u32));
        match access_at(c, a) {
            Some(t) => {
                assert(t.0 == here);
                assert(c[17] == flag(g.fires(s)));
                assert(next == (n as int, t.1));
                assert(taken(rows, a, n) == taken(rows, a, m).push(here));
                assert(left(rows, a, n) == left(rows, a, m).push(next));
                assert(start + left(rows, a, m).push(next) =~= (start + left(rows, a, m)).push(
                    next,
                ));
            },
            None => {
                assert(next == here);
            },
        }
    }
}

/// What is asked of a trace is met by the traces that are built: the rows of a
/// shot are accepted, and the tuples of each of its qubits balance.
pub proof fn lemma_honest_trace_accepted(
    rows: Seq<Seq<u32>>,
    gates: Seq<Gate>,
    x: Seq<bool>,
    shot: int,
)
    requires
        gates.len() > 0,
        all_runnable(gates),
        x.len() == N_QUBITS,
        rows.len() <= pow2(RC_LOG as nat),
        forall|i: int| 0 <= i < rows.len() ==> #[trigger] rows[i] == honest_row(gates, x, shot, i),
    ensures
        forall|i: int|
            0 <= i < rows.len() ==> row_accepted(#[trigger] rows[i], gates[i % gates.len() as int], i),
        forall|a: int|
            0 <= a < N_QUBITS ==> balanced(
                rows,
                a,
                flag(x[a]) as int,
                (
                    #[trigger] last_access(gates, rows.len())[a] as int,
                    flag(run(gates, x, rows.len())[a]) as int,
                ),
            ),
{
    assert forall|i: int| 0 <= i < rows.len() implies row_accepted(
        #[trigger] rows[i],
        gates[i % gates.len() as int],
        i,
    ) by {
        lemma_honest_row_accepted(gates, x, shot, i);
    }
    assert forall|a: int| 0 <= a < N_QUBITS implies balanced(
        rows,
        a,
        flag(x[a]) as int,
        (
            #[trigger] last_access(gates, rows.len())[a] as int,
            flag(run(gates, x, rows.len())[a]) as int,
        ),
    ) by {
        lemma_honest_chain(rows, gates, x, shot, a, rows.len());
    }
}

/// The rows of shot `s` of a shard, as columns.
pub open spec fn shot_rows(w: &ShardWitness, s: int) -> Seq<Seq<u32>> {
    Seq::new(w.total_pc as nat, |i: int| row_cells(w.rows@[s * w.total_pc + i]))
}

/// Every shot of a shard that is built is accepted: its rows, and the tuples of
/// its qubits from the first values to the last that its boundary holds.
pub proof fn lemma_shard_shot_accepted(
    w: &ShardWitness,
    gates: Seq<Gate>,
    cases: Seq<TestCase>,
    k: nat,
    log_blowup: u32,
    s: int,
)
    requires
        w.of(gates, cases, k, log_blowup),
        k * gates.len() <= pow2(RC_LOG as nat),
        0 <= s < cases.len(),
    ensures
        forall|i: int|
            0 <= i < w.total_pc ==> row_accepted(
                #[trigger] shot_rows(w, s)[i],
                gates[i % gates.len() as int],
                i,
            ),
        forall|a: int|
            0 <= a < N_QUBITS ==> balanced(
                shot_rows(w, s),
                a,
                (#[trigger] w.boundary.rows@[512 * s + a]).x as int,
                (
                    w.boundary.rows@[512 * s + a].ts_last as int,
                    w.boundary.rows@[512 * s + a].y as int,
                ),
            ),
{
    let m = (k * gates.len()) as int;
    assert(m > 0) by (nonlinear_arith)
        requires
            k > 0,
            gates.len() > 0,
            m == k * gates.len(),
    ;
    let x = text_state(cases[s].x_hex@);
    let rows = shot_rows(w, s);
    assert forall|i: int| 0 <= i < rows.len() implies #[trigger] rows[i] == honest_row(
        gates,
        x,
        s,
        i,
    ) by {
        let j = s * m + i;
        assert(0 <= j < cases.len() * m) by (nonlinear_arith)
            requires
                0 <= s < cases.len(),
                0 <= i < m,
                j == s * m + i,
        ;
        vstd::arithmetic::div_mod::lemma_fundamental_div_mod_converse(j, m, s, i);
        assert(m * s + i == j) by (nonlinear_arith)
            requires
                j == s * m + i,
        ;
        assert(w.real_rows()[j] == w.rows@[j]);
    }
    lemma_honest_trace_accepted(rows, gates, x, s);
    assert forall|a: int| 0 <= a < N_QUBITS implies balanced(
        rows,
        a,
        (#[trigger] w.boundary.rows@[512 * s + a]).x as int,
        (w.boundary.rows@[512 * s + a].ts_last as int, w.boundary.rows@[512 * s + a].y as int),
    ) by {
        let j = 512 * s + a;
        assert(j / 512 == s && j % 512 == a);
        assert(0 <= j < cases.len() * N_QUBITS);
        assert(w.boundary.rows@[j] == boundary_of(gates, cases, m as nat, s, a));
        assert(last_access(gates, rows.len())[a] as int == w.boundary.rows@[j].ts_last as int);
        assert(run(gates, x, m as nat) == text_state(cases[s].y_hex@));
    }
}

} // verus!
