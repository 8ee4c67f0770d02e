//! What a lookup is: the polynomial that a tuple stands for, the tuples that the rows and
//! tables of the qubit-memory encoding look up, and what each constraint of a row asks.
use vstd::prelude::*;

use crate::circuit::Gate;
use crate::circuit_statement::interaction_width;
use crate::components::{
    bases, boundary_entries, gate_checks, int_checks, lemma_checks_are_int_checks, program_entries,
    rc_entry,
};
use crate::field::{lemma_base_add, Ext};
use crate::gate_laws::state_at;
use crate::logup::{embed, Relation};
use crate::program::ProgramTable;
use crate::qubit_memory::{BoundaryRow, BoundaryTable, Row};
use crate::qubit_memory_lookups::{
    boundary_row_value, end_seq, final_seq, first_seq, rc_seq, row_uses, slot_value,
};
use crate::row_laws::row_says;
use crate::sums::sum;

verus! {

/// A power of a field element.
pub open spec fn power(x: Ext, n: nat) -> Ext
    decreases n,
{
    if n == 0 {
        Ext { a: 1, b: 0, c: 0, d: 0 }
    } else {
        power(x, (n - 1) as nat) * x
    }
}

/// The value at `x` of the polynomial with the given coefficients, the constant one first.
pub open spec fn polynomial(coefficients: Seq<Ext>, x: Ext) -> Ext
    decreases coefficients.len(),
{
    if coefficients.len() == 0 {
        Ext { a: 0, b: 0, c: 0, d: 0 }
    } else {
        polynomial(coefficients.drop_last(), x) + power(x, (coefficients.len() - 1) as nat)
            * coefficients.last()
    }
}

proof fn lemma_powers(rel: &Relation, i: int)
    requires
        rel.wf(),
        0 <= i < rel.width(),
    ensures
        rel.alpha_powers@[i]@ == power(rel.alpha@, i as nat),
    decreases i,
{
    if i > 0 {
        lemma_powers(rel, i - 1);
        assert(rel.alpha_powers@[i]@ == rel.alpha_powers@[i - 1]@ * rel.alpha@);
    }
}

proof fn lemma_partial_sum(rel: &Relation, values: Seq<Ext>, n: nat)
    requires
        rel.wf(),
        n <= values.len() <= rel.width(),
    ensures
        sum(n, |i: int| rel.alpha_powers@[i]@ * values[i]) == polynomial(values.take(n as int), rel.alpha@),
    decreases n,
{
    let f = |i: int| rel.alpha_powers@[i]@ * values[i];
    if n > 0 {
        lemma_partial_sum(rel, values, (n - 1) as nat);
        lemma_powers(rel, n - 1);
        assert(values.take(n as int).drop_last() =~= values.take(n - 1));
        assert(values.take(n as int).last() == values[n - 1]);
        assert(f(n - 1) == power(rel.alpha@, (n - 1) as nat) * values[n - 1]);
    }
}

/// A tuple is combined to the value at `alpha` of the polynomial whose coefficients it
/// holds, less `z`.
pub proof fn lemma_combined_is_polynomial(rel: &Relation, values: Seq<Ext>)
    requires
        rel.wf(),
        values.len() <= rel.width(),
    ensures
        rel.combined(values) == polynomial(values, rel.alpha@) - rel.z@,
{
    lemma_partial_sum(rel, values, values.len());
    assert(values.take(values.len() as int) =~= values);
}

/// A tuple of integers is combined by their remainders modulo `2^31 - 1`.
pub proof fn lemma_denominator_is_polynomial(rel: &Relation, t: Seq<u32>)
    requires
        rel.wf(),
        t.len() <= rel.width(),
    ensures
        rel.den(t) == polynomial(
            Seq::new(t.len(), |i: int| Ext { a: t[i] as int % 0x7fff_ffff, b: 0, c: 0, d: 0 }),
            rel.alpha@,
        ) - rel.z@,
{
    lemma_combined_is_polynomial(rel, embed(t));
    assert(embed(t) =~= Seq::new(
        t.len(),
        |i: int| Ext { a: t[i] as int % 0x7fff_ffff, b: 0, c: 0, d: 0 },
    ));
}

/// The lookups of a row that says what happened at step `pc` of a shot. Under tag 1 each
/// qubit that is touched gives up the time and value that it had and gets a new time,
/// `pc + 1`, and its value after the step; under tag 2 the steps since it was last touched;
/// under tag 5 its own gate. A control that this gate does not read is looked up no times.
pub proof fn lemma_step_lookups(
    row: Row,
    gates: Seq<Gate>,
    start: Seq<bool>,
    shot: u32,
    pc: u32,
)
    requires
        0 < gates.len() <= u32::MAX,
        pc < u32::MAX,
        row_says(row, gates, start, shot as int, pc as int),
    ensures
        ({
            let n = gates.len() as int;
            let g = gates[pc as int % n];
            let before = state_at(gates, start, pc as nat);
            let after = state_at(gates, start, pc as nat + 1);
            let reads_a = if g.opcode == 2 || g.opcode == 3 { 1int } else { 0int };
            let reads_b = if g.opcode == 3 { 1int } else { 0int };
            let u = row_uses(row, n);
            let now = (pc + 1) as u32;
            let (t, a, b) = (row.target, row.ctrl_a, row.ctrl_b);
            &&& u.len() == 10
            &&& u[0].mult == 1 && u[0].tuple == seq![
                1u32,
                shot,
                g.target as u32,
                t.prev_ts,
                bit(before[g.target as int]),
            ]
            &&& u[1].mult == -1 && u[1].tuple == seq![
                1u32,
                shot,
                g.target as u32,
                now,
                bit(after[g.target as int]),
            ]
            &&& u[2].mult == reads_a && u[3].mult == -reads_a && u[7].mult == reads_a
            &&& reads_a == 1 ==> {
                &&& u[2].tuple == seq![1u32, shot, g.ctrl_a as u32, a.prev_ts, bit(before[g.ctrl_a as int])]
                &&& u[3].tuple == seq![1u32, shot, g.ctrl_a as u32, now, bit(before[g.ctrl_a as int])]
                &&& u[7].tuple == seq![2u32, (pc - a.prev_ts) as u32]
            }
            &&& u[4].mult == reads_b && u[5].mult == -reads_b && u[8].mult == reads_b
            &&& reads_b == 1 ==> {
                &&& u[4].tuple == seq![1u32, shot, g.ctrl_b as u32, b.prev_ts, bit(before[g.ctrl_b as int])]
                &&& u[5].tuple == seq![1u32, shot, g.ctrl_b as u32, now, bit(before[g.ctrl_b as int])]
                &&& u[8].tuple == seq![2u32, (pc - b.prev_ts) as u32]
            }
            &&& u[6].mult == 1 && u[6].tuple == seq![2u32, (pc - t.prev_ts) as u32]
            &&& u[9].mult == 1 && u[9].tuple == seq![
                5u32,
                (pc as int % n) as u32,
                g.opcode as u32,
                g.target as u32,
                if reads_a == 1 { g.ctrl_a as u32 } else { 0 },
                if reads_b == 1 { g.ctrl_b as u32 } else { 0 },
            ]
        }),
{
}

/// One for a set bit.
pub open spec fn bit(b: bool) -> u32 {
    if b {
        1
    } else {
        0
    }
}

/// What a tuple is worth that is looked up `m` times.
pub open spec fn worth(rel: &Relation, m: int, t: Seq<u32>) -> Ext {
    Ext::base(m) * rel.den(t).inv()
}

/// What the tables claim: a slot of the program supplies its gate under tag 5 and shows it
/// under tag 6, as often as it runs; a boundary row of a shot takes what the last access
/// to its qubit left and shows the last value at time `2^30`; a value of the range table
/// is supplied under tag 2. A shot shows its first values at time zero.
pub proof fn lemma_table_lookups(
    rel: &Relation,
    p: &ProgramTable,
    b: &BoundaryTable,
    r: BoundaryRow,
    d: u32,
    i: int,
)
    ensures
        ({
            let m = p.multiplicity@[i] as int;
            let gate = |tag: u32|
                seq![tag, p.slot@[i], p.opcode_scalar@[i], p.target@[i], p.ctrl_a@[i], p.ctrl_b@[i]];
            slot_value(rel, p, i) == worth(rel, -m, gate(5)) + worth(rel, m, gate(6))
        }),
        ({
            let row = b.rows@[i];
            let on = if i < 512 * b.n_shots { 1int } else { 0int };
            boundary_row_value(rel, b, i) == worth(
                rel,
                on,
                seq![1u32, row.shot_id, row.addr, row.ts_last, row.y],
            ) + worth(rel, -on, seq![1u32, row.shot_id, row.addr, 1073741824u32, row.y])
        }),
        first_seq(r) == seq![1u32, r.shot_id, r.addr, 0u32, r.x],
        end_seq(r) == seq![1u32, r.shot_id, r.addr, r.ts_last, r.y],
        final_seq(r) == seq![1u32, r.shot_id, r.addr, 1073741824u32, r.y],
        rc_seq(d) == seq![2u32, d],
{
}

/// The components of the tables emit on their columns the lookups that the tables claim:
/// first what is supplied or taken, then what is shown.
pub proof fn lemma_table_entries(
    slot: u32,
    gate: Seq<u32>,
    m: u32,
    shot: u32,
    addr: u32,
    on: u32,
    ends: Seq<u32>,
    v: u32,
)
    requires
        gate.len() == 4,
        ends.len() == 3,
    ensures
        ({
            let e = program_entries(Ext::base(slot as int), embed(gate.push(m)));
            &&& e.len() == 2
            &&& e[0].multiplicity == Ext::base(-m)
            &&& e[0].values == embed(seq![5u32, slot] + gate)
            &&& e[1].multiplicity == Ext::base(m as int)
            &&& e[1].values == embed(seq![6u32, slot] + gate)
        }),
        ({
            let e = boundary_entries(
                Ext::base(shot as int),
                Ext::base(addr as int),
                Ext::base(on as int),
                embed(ends),
            );
            &&& e.len() == 2
            &&& e[0].multiplicity == Ext::base(on as int)
            &&& e[0].values == embed(seq![1u32, shot, addr, ends[2], ends[1]])
            &&& e[1].multiplicity == Ext::base(-on)
            &&& e[1].values == embed(seq![1u32, shot, addr, 1073741824u32, ends[1]])
        }),
        rc_entry(-Ext::base(m as int), Ext::base(v as int)).multiplicity == Ext::base(-m),
        rc_entry(-Ext::base(m as int), Ext::base(v as int)).values == embed(seq![2u32, v]),
{
    lemma_base_add(m as int, 0);
    lemma_base_add(on as int, 0);
    let e = program_entries(Ext::base(slot as int), embed(gate.push(m)));
    assert(e[0].values =~= embed(seq![5u32, slot] + gate));
    assert(e[1].values =~= embed(seq![6u32, slot] + gate));
    let f = boundary_entries(
        Ext::base(shot as int),
        Ext::base(addr as int),
        Ext::base(on as int),
        embed(ends),
    );
    assert(f[0].values =~= embed(seq![1u32, shot, addr, ends[2], ends[1]]));
    assert(f[1].values =~= embed(seq![1u32, shot, addr, 1073741824u32, ends[1]]));
    assert(rc_entry(-Ext::base(m as int), Ext::base(v as int)).values =~= embed(seq![2u32, v]));
}

/// Congruence modulo `2^31 - 1`.
pub open spec fn same(x: int, y: int) -> bool {
    (x - y) % 0x7fff_ffff == 0
}

/// What each constraint of a row asks of its nineteen columns, in order: that the four
/// flags are bits and add up to the enabler, that the values of the qubits are bits before
/// and after, that the product, the firing and the change are right, and that each access
/// that is made counts the steps since the one before it.
pub proof fn lemma_constraints_ask(en: int, pc: int, c: Seq<u32>)
    requires
        c.len() == 19,
    ensures
        ({
            let zero = Ext { a: 0, b: 0, c: 0, d: 0 };
            let asks = gate_checks(Ext::base(en), Ext::base(pc), embed(c));
            let is_bit = |x: int| same(x, 0) || same(x, 1);
            &&& asks.len() == 15
            &&& asks[0] == zero <==> is_bit(c[0] as int)
            &&& asks[1] == zero <==> is_bit(c[1] as int)
            &&& asks[2] == zero <==> is_bit(c[2] as int)
            &&& asks[3] == zero <==> is_bit(c[3] as int)
            &&& asks[4] == zero <==> same(c[0] + c[1] + c[2] + c[3], en)
            &&& asks[5] == zero <==> is_bit(c[6] as int)
            &&& asks[6] == zero <==> is_bit(c[6] + c[18])
            &&& asks[7] == zero <==> is_bit(c[10] as int)
            &&& asks[8] == zero <==> is_bit(c[14] as int)
            &&& asks[9] == zero <==> same(c[16] as int, c[10] * c[14])
            &&& asks[10] == zero <==> same(c[17] as int, c[1] + c[2] * c[10] + c[3] * c[16])
            &&& asks[11] == zero <==> same(c[18] as int, c[17] - 2 * (c[6] * c[17]))
            &&& en == 1 ==> (asks[12] == zero <==> same(c[5] + c[7], pc))
            &&& c[2] + c[3] == 1 ==> (asks[13] == zero <==> same(c[9] + c[11], pc))
            &&& c[3] == 1 ==> (asks[14] == zero <==> same(c[13] + c[15], pc))
            &&& en == 0 ==> asks[12] == zero
            &&& c[2] + c[3] == 0 ==> asks[13] == zero
            &&& c[3] == 0 ==> asks[14] == zero
        }),
{
    lemma_checks_are_int_checks(en, pc, c);
    let v = int_checks(en, pc, c);
    let asks = gate_checks(Ext::base(en), Ext::base(pc), embed(c));
    assert(asks == bases(v));
    assert forall|i: int| 0 <= i < 15 implies (#[trigger] asks[i] == (Ext { a: 0, b: 0, c: 0, d: 0 }) <==> v[i]
        % 0x7fff_ffff == 0) by {}
    lemma_bit_asked(c[0] as int);
    lemma_bit_asked(c[1] as int);
    lemma_bit_asked(c[2] as int);
    lemma_bit_asked(c[3] as int);
    lemma_bit_asked(c[6] as int);
    lemma_bit_asked(c[6] + c[18]);
    lemma_bit_asked(c[10] as int);
    lemma_bit_asked(c[14] as int);
    lemma_opposite(en - c[0] - c[1] - c[2] - c[3]);
    let (x, y) = (c[6] as int, c[17] as int);
    assert(x * y * 2 == 2 * (x * y)) by (nonlinear_arith);
    lemma_opposite(pc - c[5] - c[7]);
    lemma_opposite(pc - c[9] - c[11]);
    lemma_opposite(pc - c[13] - c[15]);
    if en == 0 || en == 1 {
        lemma_active(en, pc - c[5] - c[7]);
    }
    if c[2] + c[3] == 0 || c[2] + c[3] == 1 {
        lemma_active(c[2] + c[3], pc - c[9] - c[11]);
    }
    if c[3] == 0 || c[3] == 1 {
        lemma_active(c[3] as int, pc - c[13] - c[15]);
    }
}

proof fn lemma_opposite(x: int)
    ensures
        x % 0x7fff_ffff == 0 <==> (-x) % 0x7fff_ffff == 0,
{
}

proof fn lemma_active(on: int, x: int)
    requires
        on == 0 || on == 1,
    ensures
        on * x == (if on == 1 { x } else { 0 }),
{
    assert(on * x == (if on == 1 { x } else { 0 })) by (nonlinear_arith)
        requires
            on == 0 || on == 1,
    ;
}

/// `x * (x - 1)` is divisible by `2^31 - 1` exactly if `x` leaves remainder zero or one.
proof fn lemma_bit_asked(x: int)
    ensures
        (x * (x - 1)) % 0x7fff_ffff == 0 <==> same(x, 0) || same(x, 1),
{
    let p = 0x7fff_ffffint;
    if same(x, 0) || same(x, 1) {
        let y = if same(x, 0) { x - 1 } else { x };
        let z = if same(x, 0) { x } else { x - 1 };
        let q = z / p;
        assert(z == p * q);
        assert(x * (x - 1) == p * (q * y)) by (nonlinear_arith)
            requires
                z == p * q,
                x * (x - 1) == z * y || x * (x - 1) == y * z,
        ;
        vstd::arithmetic::div_mod::lemma_mod_multiples_basic(q * y, p);
        assert((q * y) * p == p * (q * y)) by (nonlinear_arith);
    }
    if (x * (x - 1)) % p == 0 {
        crate::prime::lemma_no_zero_divisors(x, x - 1);
    }
}

/// Interaction columns come four at a time, one group for two lookups: none without a
/// lookup, four for one alone, and four more for each two more.
pub proof fn lemma_columns_for_lookups(n: nat)
    ensures
        interaction_width(0) == 0,
        interaction_width(1) == 4,
        interaction_width(n + 2) == interaction_width(n) + 4,
{
}

} // verus!
