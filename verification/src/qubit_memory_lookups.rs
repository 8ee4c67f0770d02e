//! The lookups of the qubit-memory encoding: chains of accesses, the range
//! check on the time between accesses, and the program table.
//!
//! All tuples share one relation; their first value says which table they
//! belong to.
use vstd::arithmetic::power2::{lemma2_to64, lemma_pow2_strictly_increases, pow2};
use vstd::prelude::*;

use crate::circuit::N_QUBITS;
use crate::field::{
    lemma_base_add, lemma_factor_invertible, lemma_mul_one, Ext, P, QM31,
};
use crate::logup::{claimed_sum, lemma_pair_value, Fraction, Relation};
use crate::program::ProgramTable;
use crate::qubit_memory::{AccessCols, BoundaryRow, BoundaryTable, Row};
use crate::sums::{lemma_rows_by_pairs, lemma_sum_ext, sum};

verus! {

/// The relation of all tuples: a tag and up to five values.
pub const GATE_REL_WIDTH: usize = 6;

pub const TAG_QUBITMEM: u32 = 1;

pub const TAG_RC: u32 = 2;

pub const TAG_PROGRAM: u32 = 5;

pub const TAG_PROGRAM_PUB: u32 = 6;

/// The time that stands for the end of a shot: later than any step.
pub const TS_FINAL: u32 = 0x4000_0000;

/// The size of the range table, as an exponent.
pub const RC_LOG: u32 = 25;

pub const TS_RC_BITS: usize = 25;

pub const INTERACTION_POW_BITS: u32 = 8;

/// Pairs of lookups that a row of the main trace makes.
pub const N_LOGUP_COLS: usize = 5;

pub open spec fn mem_seq(shot: u32, addr: u32, ts: u32, v: u32) -> Seq<u32> {
    seq![TAG_QUBITMEM, shot, addr, ts, v]
}

pub open spec fn rc_seq(d: u32) -> Seq<u32> {
    seq![TAG_RC, d]
}

pub open spec fn prog_seq(tag: u32, slot: u32, op: u32, t: u32, a: u32, b: u32) -> Seq<u32> {
    seq![tag, slot, op, t, a, b]
}

/// `mult` over the denominator of a tuple.
pub open spec fn tuple_value(rel: &Relation, mult: int, t: Seq<u32>) -> Ext {
    Ext::base(mult) * rel.den(t).inv()
}

/// The value that the target holds after the row's gate.
pub open spec fn v_after(row: Row) -> u32 {
    ((row.target.v + row.delta) % P as int) as u32
}

/// One lookup.
pub ghost struct Use {
    pub mult: int,
    pub tuple: Seq<u32>,
}

/// The ten lookups of a row, in order: each access consumes what the previous
/// access to its qubit left and leaves what it wrote; each access's time
/// difference is range-checked; its gate is looked up in the program.
pub open spec fn row_uses(row: Row, n_gates: int) -> Seq<Use> {
    let en = row.enabler as int;
    let a = row.is_cnot + row.is_toffoli;
    let b = row.is_toffoli as int;
    let ts = (row.pc + 1) as u32;
    let (t, ca, cb) = (row.target, row.ctrl_a, row.ctrl_b);
    seq![
        Use { mult: en, tuple: mem_seq(row.shot_id, t.addr, t.prev_ts, t.v) },
        Use { mult: -en, tuple: mem_seq(row.shot_id, t.addr, ts, v_after(row)) },
        Use { mult: a, tuple: mem_seq(row.shot_id, ca.addr, ca.prev_ts, ca.v) },
        Use { mult: -a, tuple: mem_seq(row.shot_id, ca.addr, ts, ca.v) },
        Use { mult: b, tuple: mem_seq(row.shot_id, cb.addr, cb.prev_ts, cb.v) },
        Use { mult: -b, tuple: mem_seq(row.shot_id, cb.addr, ts, cb.v) },
        Use { mult: en, tuple: rc_seq(t.d) },
        Use { mult: a, tuple: rc_seq(ca.d) },
        Use { mult: b, tuple: rc_seq(cb.d) },
        Use {
            mult: en,
            tuple: prog_seq(
                TAG_PROGRAM,
                (row.pc as int % n_gates) as u32,
                (row.is_not + 2 * row.is_cnot + 3 * row.is_toffoli) as u32,
                t.addr,
                ca.addr,
                cb.addr,
            ),
        },
    ]
}

pub open spec fn use_den(rel: &Relation, row: Row, n_gates: int, j: int) -> Ext {
    rel.den(row_uses(row, n_gates)[j].tuple)
}

pub open spec fn use_value(rel: &Relation, row: Row, n_gates: int, j: int) -> Ext {
    let u = row_uses(row, n_gates)[j];
    tuple_value(rel, u.mult, u.tuple)
}

/// What the main trace claims: all lookups of all rows.
pub open spec fn main_value(rel: &Relation, rows: Seq<Row>, n_gates: int) -> Ext {
    sum(rows.len(), |i: int| sum(10, |j: int| use_value(rel, rows[i], n_gates, j)))
}

/// The sums in a row's tuples stay in range.
pub open spec fn row_small(row: Row) -> bool {
    &&& row.enabler <= 1
    &&& row.is_not <= 1
    &&& row.is_cnot <= 1
    &&& row.is_toffoli <= 1
    &&& row.pc < u32::MAX
}

pub open spec fn rel_ok(rel: &Relation) -> bool {
    rel.wf() && rel.width() == GATE_REL_WIDTH
}

/// The tag at its head keeps every tuple apart from those of the other tables, and
/// the public tuples of the program apart from its hidden ones.
pub proof fn lemma_tags_apart(m: [u32; 4], d: u32, slot: u32, op: u32, t: u32, a: u32, b: u32)
    ensures
        mem_seq(m[0], m[1], m[2], m[3]) != rc_seq(d),
        mem_seq(m[0], m[1], m[2], m[3]) != prog_seq(TAG_PROGRAM, slot, op, t, a, b),
        mem_seq(m[0], m[1], m[2], m[3]) != prog_seq(TAG_PROGRAM_PUB, slot, op, t, a, b),
        rc_seq(d) != prog_seq(TAG_PROGRAM, slot, op, t, a, b),
        rc_seq(d) != prog_seq(TAG_PROGRAM_PUB, slot, op, t, a, b),
        prog_seq(TAG_PROGRAM, slot, op, t, a, b) != prog_seq(TAG_PROGRAM_PUB, slot, op, t, a, b),
{
    assert(mem_seq(m[0], m[1], m[2], m[3])[0] == TAG_QUBITMEM);
    assert(rc_seq(d)[0] == TAG_RC);
    assert(prog_seq(TAG_PROGRAM, slot, op, t, a, b)[0] == TAG_PROGRAM);
    assert(prog_seq(TAG_PROGRAM_PUB, slot, op, t, a, b)[0] == TAG_PROGRAM_PUB);
}

/// The time of the public last values lies after every time of a shot whose
/// differences the range table holds, and all of them are field elements.
pub proof fn lemma_last_time_apart(steps: nat)
    requires
        steps <= pow2(RC_LOG as nat),
    ensures
        steps < TS_FINAL,
        TS_FINAL < P,
{
    lemma2_to64();
}

fn mem_den(rel: &Relation, shot: u32, addr: u32, ts: u32, v: u32) -> (d: QM31)
    requires
        rel_ok(rel),
    ensures
        d.wf(),
        d@ == rel.den(mem_seq(shot, addr, ts, v)),
{
    let t: Vec<u32> = vec![TAG_QUBITMEM, shot, addr, ts, v];
    assert(t@ =~= mem_seq(shot, addr, ts, v));
    rel.combine_base(t.as_slice())
}

fn rc_den(rel: &Relation, d: u32) -> (r: QM31)
    requires
        rel_ok(rel),
    ensures
        r.wf(),
        r@ == rel.den(rc_seq(d)),
{
    let t: Vec<u32> = vec![TAG_RC, d];
    assert(t@ =~= rc_seq(d));
    rel.combine_base(t.as_slice())
}

fn prog_den(rel: &Relation, tag: u32, slot: u32, op: u32, t: u32, a: u32, b: u32) -> (r: QM31)
    requires
        rel_ok(rel),
    ensures
        r.wf(),
        r@ == rel.den(prog_seq(tag, slot, op, t, a, b)),
{
    let v: Vec<u32> = vec![tag, slot, op, t, a, b];
    assert(v@ =~= prog_seq(tag, slot, op, t, a, b));
    rel.combine_base(v.as_slice())
}

/// Numerator and denominator of lookup `j` of a row.
fn row_use(rel: &Relation, row: &Row, n_gates: u32, j: usize) -> (r: (QM31, QM31))
    requires
        rel_ok(rel),
        row_small(*row),
        n_gates > 0,
        j < 10,
    ensures
        r.0.wf(),
        r.1.wf(),
        r.0@ == Ext::base(row_uses(*row, n_gates as int)[j as int].mult),
        r.1@ == use_den(rel, *row, n_gates as int, j as int),
{
    let en: QM31 = QM31::from_base(row.enabler);
    let a: QM31 = QM31::from_base(row.is_cnot + row.is_toffoli);
    let b: QM31 = QM31::from_base(row.is_toffoli);
    let ts: u32 = row.pc + 1;
    proof {
        lemma_base_add(row.enabler as int, 0);
        lemma_base_add(row.is_cnot + row.is_toffoli, 0);
        lemma_base_add(row.is_toffoli as int, 0);
    }
    let (t, ca, cb) = (row.target, row.ctrl_a, row.ctrl_b);
    if j == 0 {
        (en, mem_den(rel, row.shot_id, t.addr, t.prev_ts, t.v))
    } else if j == 1 {
        let after: u32 = ((t.v as u64 + row.delta as u64) % (P as u64)) as u32;
        (en.negate(), mem_den(rel, row.shot_id, t.addr, ts, after))
    } else if j == 2 {
        (a, mem_den(rel, row.shot_id, ca.addr, ca.prev_ts, ca.v))
    } else if j == 3 {
        (a.negate(), mem_den(rel, row.shot_id, ca.addr, ts, ca.v))
    } else if j == 4 {
        (b, mem_den(rel, row.shot_id, cb.addr, cb.prev_ts, cb.v))
    } else if j == 5 {
        (b.negate(), mem_den(rel, row.shot_id, cb.addr, ts, cb.v))
    } else if j == 6 {
        (en, rc_den(rel, t.d))
    } else if j == 7 {
        (a, rc_den(rel, ca.d))
    } else if j == 8 {
        (b, rc_den(rel, cb.d))
    } else {
        (
            en,
            prog_den(
                rel,
                TAG_PROGRAM,
                row.pc % n_gates,
                row.is_not + 2 * row.is_cnot + 3 * row.is_toffoli,
                t.addr,
                ca.addr,
                cb.addr,
            ),
        )
    }
}

/// Two neighbouring lookups of a row as one fraction.
pub open spec fn pair_fraction(rel: &Relation, row: Row, n: int, b: int, f: Fraction) -> bool {
    let u = row_uses(row, n);
    let (d0, d1) = (use_den(rel, row, n, 2 * b), use_den(rel, row, n, 2 * b + 1));
    &&& f.wf()
    &&& f.num@ == Ext::base(u[2 * b].mult) * d1 + Ext::base(u[2 * b + 1].mult) * d0
    &&& f.den@ == d0 * d1
}

/// Pair `b` of a row's lookups has a denominator that is not zero.
pub open spec fn pair_den_nonzero(rel: &Relation, row: Row, n: int, b: int) -> bool {
    use_den(rel, row, n, 2 * b) * use_den(rel, row, n, 2 * b + 1) != Ext::zero()
}

/// Column `b` of the main interaction trace.
fn main_pair_column(rel: &Relation, rows: &[Row], n_gates: u32, b: usize) -> (col: Vec<Fraction>)
    requires
        rel_ok(rel),
        n_gates > 0,
        b < N_LOGUP_COLS,
        forall|i: int| 0 <= i < rows@.len() ==> row_small(#[trigger] rows@[i]),
    ensures
        col@.len() == rows@.len(),
        forall|i: int|
            0 <= i < rows@.len() ==> pair_fraction(
                rel,
                rows@[i],
                n_gates as int,
                b as int,
                #[trigger] col@[i],
            ),
{
    let mut col: Vec<Fraction> = Vec::new();
    let mut i: usize = 0;
    while i < rows.len()
        invariant
            i <= rows@.len(),
            rel_ok(rel),
            n_gates > 0,
            b < N_LOGUP_COLS,
            forall|i: int| 0 <= i < rows@.len() ==> row_small(#[trigger] rows@[i]),
            col@.len() == i,
            forall|k: int|
                0 <= k < i ==> pair_fraction(
                    rel,
                    rows@[k],
                    n_gates as int,
                    b as int,
                    #[trigger] col@[k],
                ),
        decreases rows.len() - i,
    {
        let (m0, d0) = row_use(rel, &rows[i], n_gates, 2 * b);
        let (m1, d1) = row_use(rel, &rows[i], n_gates, 2 * b + 1);
        col.push(Fraction::pair(m0, d0, m1, d1));
        i += 1;
    }
    col
}

/// A pair's value is the sum of its two lookups' values.
proof fn lemma_pair_fraction_value(rel: &Relation, row: Row, n: int, b: int, f: Fraction)
    requires
        pair_fraction(rel, row, n, b, f),
        f.den@.invertible(),
    ensures
        f.value() == use_value(rel, row, n, 2 * b) + use_value(rel, row, n, 2 * b + 1),
{
    let (d0, d1) = (use_den(rel, row, n, 2 * b), use_den(rel, row, n, 2 * b + 1));
    let u = row_uses(row, n);
    lemma_factor_invertible(d0, d1);
    lemma_pair_value(Ext::base(u[2 * b].mult), d0, Ext::base(u[2 * b + 1].mult), d1);
}

/// The interaction columns of the main trace and the sum that they claim. The
/// rows given include the padding.
pub fn gen_main_interaction(rel: &Relation, rows: &[Row], n_gates: u32) -> (r: (
    Vec<Vec<Fraction>>,
    QM31,
))
    requires
        rel_ok(rel),
        n_gates > 0,
        forall|i: int| 0 <= i < rows@.len() ==> row_small(#[trigger] rows@[i]),
        forall|i: int, b: int|
            0 <= i < rows@.len() && 0 <= b < N_LOGUP_COLS ==> #[trigger] pair_den_nonzero(
                rel,
                rows@[i],
                n_gates as int,
                b,
            ),
    ensures
        r.0@.len() == N_LOGUP_COLS,
        forall|b: int| 0 <= b < N_LOGUP_COLS ==> (#[trigger] r.0@[b])@.len() == rows@.len(),
        forall|b: int, i: int|
            0 <= b < N_LOGUP_COLS && 0 <= i < rows@.len() ==> pair_fraction(
                rel,
                rows@[i],
                n_gates as int,
                b,
                #[trigger] r.0@[b]@[i],
            ),
        r.1.wf(),
        r.1@ == main_value(rel, rows@, n_gates as int),
{
    let ghost n = n_gates as int;
    let ghost v = |i: int, j: int| use_value(rel, rows@[i], n, j);
    let ghost g = |b: int| sum(rows@.len(), |i: int| v(i, 2 * b) + v(i, 2 * b + 1));
    let mut cols: Vec<Vec<Fraction>> = Vec::new();
    let mut acc: QM31 = QM31::zero();
    let mut b: usize = 0;
    while b < N_LOGUP_COLS
        invariant
            b <= N_LOGUP_COLS,
            rel_ok(rel),
            n_gates > 0,
            n == n_gates,
            forall|i: int| 0 <= i < rows@.len() ==> row_small(#[trigger] rows@[i]),
            forall|i: int, b: int|
                0 <= i < rows@.len() && 0 <= b < N_LOGUP_COLS ==> #[trigger] pair_den_nonzero(
                    rel,
                    rows@[i],
                    n_gates as int,
                    b,
                ),
            cols@.len() == b,
            forall|c: int| 0 <= c < b ==> (#[trigger] cols@[c])@.len() == rows@.len(),
            forall|c: int, i: int|
                0 <= c < b && 0 <= i < rows@.len() ==> pair_fraction(
                    rel,
                    rows@[i],
                    n,
                    c,
                    #[trigger] cols@[c]@[i],
                ),
            v == (|i: int, j: int| use_value(rel, rows@[i], n, j)),
            g == (|b: int| sum(rows@.len(), |i: int| v(i, 2 * b) + v(i, 2 * b + 1))),
            acc.wf(),
            acc@ == sum(b as nat, g),
        decreases N_LOGUP_COLS - b,
    {
        let col: Vec<Fraction> = main_pair_column(rel, rows, n_gates, b);
        proof {
            assert forall|i: int| 0 <= i < col@.len() implies (#[trigger] col@[i]).den.wf()
                && col@[i].den@ != Ext::zero() by {
                assert(pair_fraction(rel, rows@[i], n, b as int, col@[i]));
                assert(pair_den_nonzero(rel, rows@[i], n, b as int));
            }
        }
        let s: QM31 = claimed_sum(col.as_slice());
        proof {
            let f = |i: int| col@[i].value();
            let h = |i: int| v(i, 2 * b as int) + v(i, 2 * b + 1);
            assert forall|i: int| 0 <= i < rows@.len() implies #[trigger] f(i) == h(i) by {
                assert(pair_fraction(rel, rows@[i], n, b as int, col@[i]));
                lemma_pair_fraction_value(rel, rows@[i], n, b as int, col@[i]);
            }
            lemma_sum_ext(rows@.len(), f, h);
            assert(s@ == g(b as int));
        }
        acc = acc.plus(s);
        cols.push(col);
        b += 1;
    }
    proof {
        let by_row = |i: int| sum(10, |j: int| use_value(rel, rows@[i], n, j));
        assert forall|i: int| 0 <= i < rows@.len() implies #[trigger] by_row(i) == sum(
            10,
            |j: int| v(i, j),
        ) by {
            lemma_sum_ext(10, |j: int| use_value(rel, rows@[i], n, j), |j: int| v(i, j));
        }
        lemma_rows_by_pairs(5, rows@.len(), v, g, by_row);
    }
    (cols, acc)
}

/// The range table: row `i` holds the value `i` and how often it is looked up.
pub struct RcTable {
    pub log_size: u32,
    pub val: Vec<u32>,
    pub multiplicity: Vec<u32>,
}

impl RcTable {
    pub open spec fn sized(&self) -> bool {
        &&& self.log_size <= 30
        &&& self.val@.len() == pow2(self.log_size as nat)
        &&& self.multiplicity@.len() == self.val@.len()
        &&& forall|i: int| 0 <= i < self.val@.len() ==> #[trigger] self.val@[i] == i
    }

    /// The table of the values below `2^rc_log`, with nothing looked up yet.
    pub fn new(rc_log: u32) -> (t: RcTable)
        requires
            rc_log <= 30,
        ensures
            t.sized(),
            t.log_size == rc_log,
            forall|i: int| 0 <= i < t.multiplicity@.len() ==> #[trigger] t.multiplicity@[i] == 0,
    {
        let size: usize = crate::sizes::power_of_two(rc_log);
        proof {
            lemma2_to64();
            if rc_log < 30 {
                lemma_pow2_strictly_increases(rc_log as nat, 30);
            }
        }
        let mut val: Vec<u32> = Vec::new();
        let mut i: usize = 0;
        while i < size
            invariant
                i <= size <= 0x4000_0000,
                val@.len() == i,
                forall|j: int| 0 <= j < i ==> #[trigger] val@[j] == j,
            decreases size - i,
        {
            val.push(i as u32);
            i += 1;
        }
        RcTable { log_size: rc_log, val, multiplicity: vec![0u32; size] }
    }

    /// Counts the lookup of one access.
    pub fn count_access(&mut self, a: &AccessCols)
        requires
            a.d < old(self).multiplicity@.len(),
            old(self).multiplicity@[a.d as int] < u32::MAX,
        ensures
            final(self).val == old(self).val,
            final(self).log_size == old(self).log_size,
            final(self).multiplicity@ == old(self).multiplicity@.update(
                a.d as int,
                (old(self).multiplicity@[a.d as int] + 1) as u32,
            ),
    {
        let m: u32 = self.multiplicity[a.d as usize];
        self.multiplicity.set(a.d as usize, m + 1);
    }
}

/// The accesses that a row makes.
pub open spec fn target_made(row: Row) -> bool {
    row.enabler != 0
}

pub open spec fn ctrl_a_made(row: Row) -> bool {
    row.enabler != 0 && row.is_cnot + row.is_toffoli == 1
}

pub open spec fn ctrl_b_made(row: Row) -> bool {
    row.enabler != 0 && row.is_toffoli == 1
}

pub open spec fn rc_hit(made: bool, a: AccessCols, i: int) -> nat {
    if made && a.d == i {
        1
    } else {
        0
    }
}

/// How many accesses of a row look up the value `i`.
pub open spec fn row_rc_hits(row: Row, i: int) -> nat {
    rc_hit(target_made(row), row.target, i) + rc_hit(ctrl_a_made(row), row.ctrl_a, i) + rc_hit(
        ctrl_b_made(row),
        row.ctrl_b,
        i,
    )
}

/// How many accesses of the first `n` rows look up the value `i`.
pub open spec fn rc_hits(rows: Seq<Row>, n: nat, i: int) -> nat
    decreases n,
{
    if n == 0 {
        0
    } else {
        rc_hits(rows, (n - 1) as nat, i) + row_rc_hits(rows[n - 1], i)
    }
}

proof fn lemma_rc_hits_bound(rows: Seq<Row>, n: nat, i: int)
    ensures
        rc_hits(rows, n, i) <= 3 * n,
    decreases n,
{
    if n > 0 {
        lemma_rc_hits_bound(rows, (n - 1) as nat, i);
    }
}

/// The time differences of a row's accesses are below `len`.
pub open spec fn row_in_range(row: Row, len: nat) -> bool {
    &&& target_made(row) ==> row.target.d < len
    &&& ctrl_a_made(row) ==> row.ctrl_a.d < len
    &&& ctrl_b_made(row) ==> row.ctrl_b.d < len
}

pub open spec fn counts_rc(t: &RcTable, rows: Seq<Row>, n: nat) -> bool {
    forall|i: int|
        0 <= i < t.multiplicity@.len() ==> #[trigger] t.multiplicity@[i] == rc_hits(rows, n, i)
}

/// The range table with the lookups of all rows counted.
pub fn build_rc_table(rows: &[Row], rc_log: u32) -> (t: RcTable)
    requires
        rc_log <= 30,
        3 * rows@.len() <= u32::MAX,
        forall|i: int|
            0 <= i < rows@.len() ==> row_small(#[trigger] rows@[i]) && row_in_range(
                rows@[i],
                pow2(rc_log as nat),
            ),
    ensures
        t.sized(),
        t.log_size == rc_log,
        counts_rc(&t, rows@, rows@.len()),
{
    let mut t: RcTable = RcTable::new(rc_log);
    let mut n: usize = 0;
    while n < rows.len()
        invariant
            n <= rows@.len(),
            3 * rows@.len() <= u32::MAX,
            forall|i: int|
                0 <= i < rows@.len() ==> row_small(#[trigger] rows@[i]) && row_in_range(
                    rows@[i],
                    pow2(rc_log as nat),
                ),
            t.sized(),
            t.log_size == rc_log,
            counts_rc(&t, rows@, n as nat),
        decreases rows.len() - n,
    {
        let r: Row = rows[n];
        let ghost t0 = t;
        proof {
            assert forall|i: int| 0 <= i < t.multiplicity@.len() implies #[trigger] t.multiplicity@[i]
                + 2 < u32::MAX by {
                lemma_rc_hits_bound(rows@, n as nat, i);
            }
            assert(row_small(rows@[n as int]));
        }
        if r.enabler != 0 {
            assert(t.multiplicity@[r.target.d as int] + 2 < u32::MAX);
            t.count_access(&r.target);
            let ghost t1 = t;
            if r.is_cnot + r.is_toffoli == 1 {
                assert(t0.multiplicity@[r.ctrl_a.d as int] + 2 < u32::MAX);
                t.count_access(&r.ctrl_a);
            }
            if r.is_toffoli == 1 {
                assert(t0.multiplicity@[r.ctrl_b.d as int] + 2 < u32::MAX);
                t.count_access(&r.ctrl_b);
            }
        }
        proof {
            assert forall|i: int| 0 <= i < t.multiplicity@.len() implies #[trigger] t.multiplicity@[i]
                == rc_hits(rows@, (n + 1) as nat, i) by {
                assert(t0.multiplicity@[i] == rc_hits(rows@, n as nat, i));
            }
        }
        n += 1;
    }
    t
}

/// The values of one program slot in the two program tuples.
pub open spec fn slot_seq(p: &ProgramTable, tag: u32, i: int) -> Seq<u32> {
    prog_seq(
        tag,
        p.slot@[i],
        p.opcode_scalar@[i],
        p.target@[i],
        p.ctrl_a@[i],
        p.ctrl_b@[i],
    )
}

/// What a slot claims: it supplies the main trace's lookups, and shows the
/// program to the outside.
pub open spec fn slot_value(rel: &Relation, p: &ProgramTable, i: int) -> Ext {
    let m = p.multiplicity@[i] as int;
    tuple_value(rel, -m, slot_seq(p, TAG_PROGRAM, i)) + tuple_value(
        rel,
        m,
        slot_seq(p, TAG_PROGRAM_PUB, i),
    )
}

pub open spec fn program_value(rel: &Relation, p: &ProgramTable) -> Ext {
    sum(p.slot@.len(), |i: int| slot_value(rel, p, i))
}

/// The public side of the program's claim.
pub open spec fn program_public_value(rel: &Relation, p: &ProgramTable) -> Ext {
    sum(
        p.slot@.len(),
        |i: int| tuple_value(rel, p.multiplicity@[i] as int, slot_seq(p, TAG_PROGRAM_PUB, i)),
    )
}

pub open spec fn slot_fraction(rel: &Relation, p: &ProgramTable, i: int, f: Fraction) -> bool {
    let m = p.multiplicity@[i] as int;
    let (d0, d1) = (
        rel.den(slot_seq(p, TAG_PROGRAM, i)),
        rel.den(slot_seq(p, TAG_PROGRAM_PUB, i)),
    );
    &&& f.wf()
    &&& f.num@ == Ext::base(-m) * d1 + Ext::base(m) * d0
    &&& f.den@ == d0 * d1
}

pub open spec fn slot_dens_nonzero(rel: &Relation, p: &ProgramTable, i: int) -> bool {
    rel.den(slot_seq(p, TAG_PROGRAM, i)) * rel.den(slot_seq(p, TAG_PROGRAM_PUB, i)) != Ext::zero()
}

fn slot_den(rel: &Relation, p: &ProgramTable, tag: u32, i: usize) -> (d: QM31)
    requires
        rel_ok(rel),
        p.sized(),
        i < p.slot@.len(),
    ensures
        d.wf(),
        d@ == rel.den(slot_seq(p, tag, i as int)),
{
    prog_den(rel, tag, p.slot[i], p.opcode_scalar[i], p.target[i], p.ctrl_a[i], p.ctrl_b[i])
}

/// The interaction column of the program table, and its sum.
pub fn gen_program_interaction(p: &ProgramTable, rel: &Relation) -> (r: (Vec<Fraction>, QM31))
    requires
        rel_ok(rel),
        p.sized(),
        forall|i: int| 0 <= i < p.slot@.len() ==> #[trigger] slot_dens_nonzero(rel, p, i),
    ensures
        r.0@.len() == p.slot@.len(),
        forall|i: int|
            0 <= i < p.slot@.len() ==> slot_fraction(rel, p, i, #[trigger] r.0@[i]),
        r.1.wf(),
        r.1@ == program_value(rel, p),
{
    let mut col: Vec<Fraction> = Vec::new();
    let mut i: usize = 0;
    while i < p.slot.len()
        invariant
            i <= p.slot@.len(),
            rel_ok(rel),
            p.sized(),
            col@.len() == i,
            forall|j: int| 0 <= j < i ==> slot_fraction(rel, p, j, #[trigger] col@[j]),
        decreases p.slot.len() - i,
    {
        let m: QM31 = QM31::from_base(p.multiplicity[i]);
        proof {
            lemma_base_add(p.multiplicity@[i as int] as int, 0);
        }
        let d0: QM31 = slot_den(rel, p, TAG_PROGRAM, i);
        let d1: QM31 = slot_den(rel, p, TAG_PROGRAM_PUB, i);
        col.push(Fraction::pair(m.negate(), d0, m, d1));
        i += 1;
    }
    proof {
        assert forall|i: int| 0 <= i < col@.len() implies (#[trigger] col@[i]).den.wf()
            && col@[i].den@ != Ext::zero() by {
            assert(slot_fraction(rel, p, i, col@[i]));
            assert(slot_dens_nonzero(rel, p, i));
        }
    }
    let s: QM31 = claimed_sum(col.as_slice());
    proof {
        let f = |i: int| col@[i].value();
        let h = |i: int| slot_value(rel, p, i);
        assert forall|i: int| 0 <= i < col@.len() implies #[trigger] f(i) == h(i) by {
            assert(slot_fraction(rel, p, i, col@[i]));
            let (d0, d1) = (
                rel.den(slot_seq(p, TAG_PROGRAM, i)),
                rel.den(slot_seq(p, TAG_PROGRAM_PUB, i)),
            );
            let m = p.multiplicity@[i] as int;
            lemma_factor_invertible(d0, d1);
            lemma_pair_value(Ext::base(-m), d0, Ext::base(m), d1);
        }
        lemma_sum_ext(col@.len(), f, h);
    }
    (col, s)
}

/// The public side of the program's claim, slot by slot.
pub fn program_public_term(p: &ProgramTable, rel: &Relation) -> (r: QM31)
    requires
        rel_ok(rel),
        p.sized(),
        forall|i: int|
            0 <= i < p.slot@.len() ==> rel.den(#[trigger] slot_seq(p, TAG_PROGRAM_PUB, i))
                != Ext::zero(),
    ensures
        r.wf(),
        r@ == program_public_value(rel, p),
{
    let ghost f = |i: int|
        tuple_value(rel, p.multiplicity@[i] as int, slot_seq(p, TAG_PROGRAM_PUB, i));
    let mut acc: QM31 = QM31::zero();
    let mut i: usize = 0;
    while i < p.slot.len()
        invariant
            i <= p.slot@.len(),
            rel_ok(rel),
            p.sized(),
            forall|i: int|
                0 <= i < p.slot@.len() ==> rel.den(#[trigger] slot_seq(p, TAG_PROGRAM_PUB, i))
                    != Ext::zero(),
            f == (|i: int|
                tuple_value(rel, p.multiplicity@[i] as int, slot_seq(p, TAG_PROGRAM_PUB, i))),
            acc.wf(),
            acc@ == sum(i as nat, f),
        decreases p.slot.len() - i,
    {
        let m: QM31 = QM31::from_base(p.multiplicity[i]);
        let d: QM31 = slot_den(rel, p, TAG_PROGRAM_PUB, i);
        assert(rel.den(slot_seq(p, TAG_PROGRAM_PUB, i as int)) != Ext::zero());
        acc = acc.plus(m.times(d.inverse()));
        i += 1;
    }
    acc
}

/// A qubit's last value where its last access left it, and at the end of time.
pub open spec fn end_seq(r: BoundaryRow) -> Seq<u32> {
    mem_seq(r.shot_id, r.addr, r.ts_last, r.y)
}

pub open spec fn final_seq(r: BoundaryRow) -> Seq<u32> {
    mem_seq(r.shot_id, r.addr, TS_FINAL, r.y)
}

/// A qubit's first value, before time begins.
pub open spec fn first_seq(r: BoundaryRow) -> Seq<u32> {
    mem_seq(r.shot_id, r.addr, 0, r.x)
}

/// One on the rows of a shot, zero on padding.
pub open spec fn boundary_enabler(t: &BoundaryTable, i: int) -> int {
    if i < t.n_shots * N_QUBITS {
        1
    } else {
        0
    }
}

/// What a boundary row claims: it consumes the last access of its qubit, and
/// shows the last value to the outside.
pub open spec fn boundary_row_value(rel: &Relation, t: &BoundaryTable, i: int) -> Ext {
    let en = boundary_enabler(t, i);
    tuple_value(rel, en, end_seq(t.rows@[i])) + tuple_value(rel, -en, final_seq(t.rows@[i]))
}

pub open spec fn boundary_claim(rel: &Relation, t: &BoundaryTable) -> Ext {
    sum(t.rows@.len(), |i: int| boundary_row_value(rel, t, i))
}

/// What all shots show to the outside: per qubit its first value minus its last.
pub open spec fn boundary_public_value(rel: &Relation, t: &BoundaryTable) -> Ext {
    sum(
        (t.n_shots * N_QUBITS) as nat,
        |i: int|
            tuple_value(rel, 1, first_seq(t.rows@[i])) - tuple_value(rel, 1, final_seq(t.rows@[i])),
    )
}

pub open spec fn boundary_fraction(rel: &Relation, t: &BoundaryTable, i: int, f: Fraction) -> bool {
    let en = boundary_enabler(t, i);
    let (d0, d1) = (rel.den(end_seq(t.rows@[i])), rel.den(final_seq(t.rows@[i])));
    &&& f.wf()
    &&& f.num@ == Ext::base(en) * d1 + Ext::base(-en) * d0
    &&& f.den@ == d0 * d1
}

pub open spec fn boundary_dens_nonzero(rel: &Relation, t: &BoundaryTable, i: int) -> bool {
    rel.den(end_seq(t.rows@[i])) * rel.den(final_seq(t.rows@[i])) != Ext::zero()
}

/// The interaction column of the boundary table, and its sum.
pub fn gen_boundary_interaction(t: &BoundaryTable, rel: &Relation) -> (r: (Vec<Fraction>, QM31))
    requires
        rel_ok(rel),
        t.sized(),
        forall|i: int| 0 <= i < t.rows@.len() ==> #[trigger] boundary_dens_nonzero(rel, t, i),
    ensures
        r.0@.len() == t.rows@.len(),
        forall|i: int|
            0 <= i < t.rows@.len() ==> boundary_fraction(rel, t, i, #[trigger] r.0@[i]),
        r.1.wf(),
        r.1@ == boundary_claim(rel, t),
{
    let n_real: usize = t.n_shots * N_QUBITS;
    let mut col: Vec<Fraction> = Vec::new();
    let mut i: usize = 0;
    while i < t.rows.len()
        invariant
            i <= t.rows@.len(),
            n_real == t.n_shots * N_QUBITS,
            rel_ok(rel),
            col@.len() == i,
            forall|j: int| 0 <= j < i ==> boundary_fraction(rel, t, j, #[trigger] col@[j]),
        decreases t.rows.len() - i,
    {
        let r: BoundaryRow = t.rows[i];
        let en: QM31 = QM31::from_base(if i < n_real { 1 } else { 0 });
        proof {
            lemma_base_add(boundary_enabler(t, i as int), 0);
        }
        let d0: QM31 = mem_den(rel, r.shot_id, r.addr, r.ts_last, r.y);
        let d1: QM31 = mem_den(rel, r.shot_id, r.addr, TS_FINAL, r.y);
        col.push(Fraction::pair(en, d0, en.negate(), d1));
        i += 1;
    }
    proof {
        assert forall|i: int| 0 <= i < col@.len() implies (#[trigger] col@[i]).den.wf()
            && col@[i].den@ != Ext::zero() by {
            assert(boundary_fraction(rel, t, i, col@[i]));
            assert(boundary_dens_nonzero(rel, t, i));
        }
    }
    let s: QM31 = claimed_sum(col.as_slice());
    proof {
        let f = |i: int| col@[i].value();
        let h = |i: int| boundary_row_value(rel, t, i);
        assert forall|i: int| 0 <= i < col@.len() implies #[trigger] f(i) == h(i) by {
            assert(boundary_fraction(rel, t, i, col@[i]));
            let (d0, d1) = (rel.den(end_seq(t.rows@[i])), rel.den(final_seq(t.rows@[i])));
            let en = boundary_enabler(t, i);
            lemma_factor_invertible(d0, d1);
            lemma_pair_value(Ext::base(en), d0, Ext::base(-en), d1);
        }
        lemma_sum_ext(col@.len(), f, h);
    }
    (col, s)
}

pub open spec fn public_dens_nonzero(rel: &Relation, r: BoundaryRow) -> bool {
    rel.den(first_seq(r)) != Ext::zero() && rel.den(final_seq(r)) != Ext::zero()
}

/// The first values minus the last values of all shots' qubits.
pub fn qubitmem_public_term(t: &BoundaryTable, rel: &Relation) -> (r: QM31)
    requires
        rel_ok(rel),
        t.sized(),
        forall|i: int|
            0 <= i < t.n_shots * N_QUBITS ==> public_dens_nonzero(rel, #[trigger] t.rows@[i]),
    ensures
        r.wf(),
        r@ == boundary_public_value(rel, t),
{
    let n_real: usize = t.n_shots * N_QUBITS;
    let ghost f = |i: int|
        tuple_value(rel, 1, first_seq(t.rows@[i])) - tuple_value(rel, 1, final_seq(t.rows@[i]));
    let mut acc: QM31 = QM31::zero();
    let mut i: usize = 0;
    while i < n_real
        invariant
            i <= n_real <= t.rows@.len(),
            n_real == t.n_shots * N_QUBITS,
            rel_ok(rel),
            forall|i: int| 0 <= i < n_real ==> public_dens_nonzero(rel, #[trigger] t.rows@[i]),
            f == (|i: int|
                tuple_value(rel, 1, first_seq(t.rows@[i])) - tuple_value(
                    rel,
                    1,
                    final_seq(t.rows@[i]),
                )),
            acc.wf(),
            acc@ == sum(i as nat, f),
        decreases n_real - i,
    {
        let r: BoundaryRow = t.rows[i];
        assert(public_dens_nonzero(rel, t.rows@[i as int]));
        let d0: QM31 = mem_den(rel, r.shot_id, r.addr, 0, r.x).inverse();
        let d1: QM31 = mem_den(rel, r.shot_id, r.addr, TS_FINAL, r.y).inverse();
        proof {
            lemma_base_add(1, 0);
            lemma_mul_one(d0@);
            lemma_mul_one(d1@);
        }
        acc = acc.plus(d0.minus(d1));
        i += 1;
    }
    acc
}

/// What the range table claims.
pub open spec fn rc_value(rel: &Relation, t: &RcTable) -> Ext {
    sum(t.val@.len(), |i: int| tuple_value(rel, -t.multiplicity@[i], rc_seq(t.val@[i])))
}

/// The interaction column of the range table, and its sum.
pub fn gen_rc_interaction(t: &RcTable, rel: &Relation) -> (r: (Vec<Fraction>, QM31))
    requires
        rel_ok(rel),
        t.sized(),
        forall|i: int| 0 <= i < t.val@.len() ==> rel.den(rc_seq(#[trigger] t.val@[i])) != Ext::zero(),
    ensures
        r.0@.len() == t.val@.len(),
        forall|i: int|
            0 <= i < t.val@.len() ==> (#[trigger] r.0@[i]).num@ == Ext::base(-t.multiplicity@[i])
                && r.0@[i].den@ == rel.den(rc_seq(t.val@[i])) && r.0@[i].wf(),
        r.1.wf(),
        r.1@ == rc_value(rel, t),
{
    let mut col: Vec<Fraction> = Vec::new();
    let mut i: usize = 0;
    while i < t.val.len()
        invariant
            i <= t.val@.len(),
            rel_ok(rel),
            t.sized(),
            col@.len() == i,
            forall|j: int|
                0 <= j < i ==> (#[trigger] col@[j]).num@ == Ext::base(-t.multiplicity@[j])
                    && col@[j].den@ == rel.den(rc_seq(t.val@[j])) && col@[j].wf(),
        decreases t.val.len() - i,
    {
        let m: QM31 = QM31::from_base(t.multiplicity[i]).negate();
        proof {
            lemma_base_add(t.multiplicity@[i as int] as int, 0);
        }
        col.push(Fraction { num: m, den: rc_den(rel, t.val[i]) });
        i += 1;
    }
    proof {
        assert forall|i: int| 0 <= i < col@.len() implies (#[trigger] col@[i]).den.wf()
            && col@[i].den@ != Ext::zero() by {
            assert(rel.den(rc_seq(t.val@[i])) != Ext::zero());
        }
    }
    let s: QM31 = claimed_sum(col.as_slice());
    proof {
        let f = |i: int| col@[i].value();
        let h = |i: int| tuple_value(rel, -t.multiplicity@[i], rc_seq(t.val@[i]));
        assert forall|i: int| 0 <= i < col@.len() implies #[trigger] f(i) == h(i) by {
            assert(col@[i].num@ == Ext::base(-t.multiplicity@[i]));
        }
        lemma_sum_ext(col@.len(), f, h);
    }
    (col, s)
}

/// The program table's claim, recomputed slot by slot.
pub fn program_claimed_sum(p: &ProgramTable, rel: &Relation) -> (r: QM31)
    requires
        rel_ok(rel),
        p.sized(),
        forall|i: int|
            0 <= i < p.slot@.len() ==> rel.den(#[trigger] slot_seq(p, TAG_PROGRAM, i))
                != Ext::zero(),
        forall|i: int|
            0 <= i < p.slot@.len() ==> rel.den(#[trigger] slot_seq(p, TAG_PROGRAM_PUB, i))
                != Ext::zero(),
    ensures
        r.wf(),
        r@ == program_value(rel, p),
{
    let ghost f = |i: int| slot_value(rel, p, i);
    let mut acc: QM31 = QM31::zero();
    let mut i: usize = 0;
    while i < p.slot.len()
        invariant
            i <= p.slot@.len(),
            rel_ok(rel),
            p.sized(),
            forall|i: int|
                0 <= i < p.slot@.len() ==> rel.den(#[trigger] slot_seq(p, TAG_PROGRAM, i))
                    != Ext::zero(),
            forall|i: int|
                0 <= i < p.slot@.len() ==> rel.den(#[trigger] slot_seq(p, TAG_PROGRAM_PUB, i))
                    != Ext::zero(),
            f == (|i: int| slot_value(rel, p, i)),
            acc.wf(),
            acc@ == sum(i as nat, f),
        decreases p.slot.len() - i,
    {
        let m: QM31 = QM31::from_base(p.multiplicity[i]);
        assert(rel.den(slot_seq(p, TAG_PROGRAM, i as int)) != Ext::zero());
        assert(rel.den(slot_seq(p, TAG_PROGRAM_PUB, i as int)) != Ext::zero());
        let d0: QM31 = slot_den(rel, p, TAG_PROGRAM, i).inverse();
        let d1: QM31 = slot_den(rel, p, TAG_PROGRAM_PUB, i).inverse();
        proof {
            lemma_base_add(p.multiplicity@[i as int] as int, 0);
        }
        acc = acc.plus(m.negate().times(d0).plus(m.times(d1)));
        i += 1;
    }
    acc
}

/// The boundary table's claim, recomputed row by row.
pub fn boundary_public_sum(t: &BoundaryTable, rel: &Relation) -> (r: QM31)
    requires
        rel_ok(rel),
        t.sized(),
        forall|i: int|
            0 <= i < t.rows@.len() ==> rel.den(end_seq(#[trigger] t.rows@[i])) != Ext::zero()
                && rel.den(final_seq(t.rows@[i])) != Ext::zero(),
    ensures
        r.wf(),
        r@ == boundary_claim(rel, t),
{
    let n_real: usize = t.n_shots * N_QUBITS;
    let ghost f = |i: int| boundary_row_value(rel, t, i);
    let mut acc: QM31 = QM31::zero();
    let mut i: usize = 0;
    while i < t.rows.len()
        invariant
            i <= t.rows@.len(),
            n_real == t.n_shots * N_QUBITS,
            rel_ok(rel),
            forall|i: int|
                0 <= i < t.rows@.len() ==> rel.den(end_seq(#[trigger] t.rows@[i])) != Ext::zero()
                    && rel.den(final_seq(t.rows@[i])) != Ext::zero(),
            f == (|i: int| boundary_row_value(rel, t, i)),
            acc.wf(),
            acc@ == sum(i as nat, f),
        decreases t.rows.len() - i,
    {
        let r: BoundaryRow = t.rows[i];
        let en: QM31 = QM31::from_base(if i < n_real { 1 } else { 0 });
        assert(rel.den(end_seq(t.rows@[i as int])) != Ext::zero());
        let d0: QM31 = mem_den(rel, r.shot_id, r.addr, r.ts_last, r.y).inverse();
        let d1: QM31 = mem_den(rel, r.shot_id, r.addr, TS_FINAL, r.y).inverse();
        proof {
            lemma_base_add(boundary_enabler(t, i as int), 0);
        }
        acc = acc.plus(en.times(d0).plus(en.negate().times(d1)));
        i += 1;
    }
    acc
}

/// The range table's claim, recomputed value by value.
pub fn rc_claimed_sum(t: &RcTable, rel: &Relation) -> (r: QM31)
    requires
        rel_ok(rel),
        t.sized(),
        forall|i: int| 0 <= i < t.val@.len() ==> rel.den(rc_seq(#[trigger] t.val@[i])) != Ext::zero(),
    ensures
        r.wf(),
        r@ == rc_value(rel, t),
{
    let ghost f = |i: int| tuple_value(rel, -t.multiplicity@[i], rc_seq(t.val@[i]));
    let mut acc: QM31 = QM31::zero();
    let mut i: usize = 0;
    while i < t.val.len()
        invariant
            i <= t.val@.len(),
            rel_ok(rel),
            t.sized(),
            forall|i: int|
                0 <= i < t.val@.len() ==> rel.den(rc_seq(#[trigger] t.val@[i])) != Ext::zero(),
            f == (|i: int| tuple_value(rel, -t.multiplicity@[i], rc_seq(t.val@[i]))),
            acc.wf(),
            acc@ == sum(i as nat, f),
        decreases t.val.len() - i,
    {
        let m: QM31 = QM31::from_base(t.multiplicity[i]).negate();
        assert(rel.den(rc_seq(t.val@[i as int])) != Ext::zero());
        let d: QM31 = rc_den(rel, t.val[i]).inverse();
        proof {
            lemma_base_add(t.multiplicity@[i as int] as int, 0);
        }
        acc = acc.plus(m.times(d));
        i += 1;
    }
    acc
}

/// Whether no row of the main trace looks up a tuple whose denominator is zero.
pub fn main_defined(rel: &Relation, rows: &[Row], n_gates: u32) -> (r: bool)
    requires
        rel_ok(rel),
        n_gates > 0,
        forall|i: int| 0 <= i < rows@.len() ==> row_small(#[trigger] rows@[i]),
    ensures
        r <==> forall|i: int, b: int|
            0 <= i < rows@.len() && 0 <= b < N_LOGUP_COLS ==> #[trigger] pair_den_nonzero(
                rel,
                rows@[i],
                n_gates as int,
                b,
            ),
{
    let ghost n = n_gates as int;
    let mut i: usize = 0;
    while i < rows.len()
        invariant
            i <= rows@.len(),
            rel_ok(rel),
            n_gates > 0,
            n == n_gates,
            forall|j: int| 0 <= j < rows@.len() ==> row_small(#[trigger] rows@[j]),
            forall|j: int, b: int|
                0 <= j < i && 0 <= b < N_LOGUP_COLS ==> #[trigger] pair_den_nonzero(
                    rel,
                    rows@[j],
                    n,
                    b,
                ),
        decreases rows.len() - i,
    {
        let mut b: usize = 0;
        while b < N_LOGUP_COLS
            invariant
                b <= N_LOGUP_COLS,
                i < rows@.len(),
                rel_ok(rel),
                n_gates > 0,
                n == n_gates,
                row_small(rows@[i as int]),
                forall|c: int|
                    0 <= c < b ==> #[trigger] pair_den_nonzero(rel, rows@[i as int], n, c),
            decreases N_LOGUP_COLS - b,
        {
            let d0: QM31 = row_use(rel, &rows[i], n_gates, 2 * b).1;
            let d1: QM31 = row_use(rel, &rows[i], n_gates, 2 * b + 1).1;
            if d0.times(d1).is_zero() {
                assert(!pair_den_nonzero(rel, rows@[i as int], n, b as int));
                return false;
            }
            b += 1;
        }
        i += 1;
    }
    true
}

/// Whether no slot of the program has a tuple whose denominator is zero.
pub fn program_defined(p: &ProgramTable, rel: &Relation) -> (r: bool)
    requires
        rel_ok(rel),
        p.sized(),
    ensures
        r <==> forall|i: int| 0 <= i < p.slot@.len() ==> #[trigger] slot_dens_nonzero(rel, p, i),
{
    let mut i: usize = 0;
    while i < p.slot.len()
        invariant
            i <= p.slot@.len(),
            rel_ok(rel),
            p.sized(),
            forall|j: int| 0 <= j < i ==> #[trigger] slot_dens_nonzero(rel, p, j),
        decreases p.slot.len() - i,
    {
        let d0: QM31 = slot_den(rel, p, TAG_PROGRAM, i);
        let d1: QM31 = slot_den(rel, p, TAG_PROGRAM_PUB, i);
        if d0.times(d1).is_zero() {
            assert(!slot_dens_nonzero(rel, p, i as int));
            return false;
        }
        i += 1;
    }
    true
}

/// Whether no row of the boundary has a tuple whose denominator is zero.
pub fn boundary_defined(t: &BoundaryTable, rel: &Relation) -> (r: bool)
    requires
        rel_ok(rel),
    ensures
        r <==> forall|i: int|
            0 <= i < t.rows@.len() ==> #[trigger] boundary_dens_nonzero(rel, t, i),
{
    let mut i: usize = 0;
    while i < t.rows.len()
        invariant
            i <= t.rows@.len(),
            rel_ok(rel),
            forall|j: int| 0 <= j < i ==> #[trigger] boundary_dens_nonzero(rel, t, j),
        decreases t.rows.len() - i,
    {
        let row: BoundaryRow = t.rows[i];
        let d0: QM31 = mem_den(rel, row.shot_id, row.addr, row.ts_last, row.y);
        let d1: QM31 = mem_den(rel, row.shot_id, row.addr, TS_FINAL, row.y);
        if d0.times(d1).is_zero() {
            assert(!boundary_dens_nonzero(rel, t, i as int));
            return false;
        }
        i += 1;
    }
    true
}

/// Whether no public tuple of the boundary has a denominator that is zero.
pub fn public_defined(t: &BoundaryTable, rel: &Relation) -> (r: bool)
    requires
        rel_ok(rel),
        t.sized(),
    ensures
        r <==> forall|i: int|
            0 <= i < t.n_shots * N_QUBITS ==> public_dens_nonzero(rel, #[trigger] t.rows@[i]),
{
    let n_real: usize = t.n_shots * N_QUBITS;
    let mut i: usize = 0;
    while i < n_real
        invariant
            i <= n_real == t.n_shots * N_QUBITS,
            n_real <= t.rows@.len(),
            rel_ok(rel),
            forall|j: int| 0 <= j < i ==> public_dens_nonzero(rel, #[trigger] t.rows@[j]),
        decreases n_real - i,
    {
        let row: BoundaryRow = t.rows[i];
        if mem_den(rel, row.shot_id, row.addr, 0, row.x).is_zero() || mem_den(
            rel,
            row.shot_id,
            row.addr,
            TS_FINAL,
            row.y,
        ).is_zero() {
            assert(!public_dens_nonzero(rel, t.rows@[i as int]));
            return false;
        }
        i += 1;
    }
    true
}

/// Whether no value of the range table has a tuple whose denominator is zero.
pub fn rc_defined(t: &RcTable, rel: &Relation) -> (r: bool)
    requires
        rel_ok(rel),
    ensures
        r <==> forall|i: int|
            0 <= i < t.val@.len() ==> rel.den(rc_seq(#[trigger] t.val@[i])) != Ext::zero(),
{
    let mut i: usize = 0;
    while i < t.val.len()
        invariant
            i <= t.val@.len(),
            rel_ok(rel),
            forall|j: int|
                0 <= j < i ==> rel.den(rc_seq(#[trigger] t.val@[j])) != Ext::zero(),
        decreases t.val.len() - i,
    {
        if rc_den(rel, t.val[i]).is_zero() {
            assert(rel.den(rc_seq(t.val@[i as int])) == Ext::zero());
            return false;
        }
        i += 1;
    }
    true
}

/// A claimed sum that is not what it must be.
#[derive(Clone, Copy, Debug, PartialEq, Eq, Structural)]
pub enum ClaimMismatch {
    /// The claims do not net to the public terms.
    Net,
    Program,
    Boundary,
    Rc,
}

/// The four sums that a shard claims, in the order of its components.
#[derive(Clone, Copy, Debug, PartialEq, Eq, Structural)]
pub struct ShardClaims {
    pub main: QM31,
    pub program: QM31,
    pub boundary: QM31,
    pub rc: QM31,
}

impl ShardClaims {
    pub open spec fn total(&self) -> Ext {
        ((self.main@ + self.program@) + self.boundary@) + self.rc@
    }

    /// The claims net to the two public terms.
    pub fn nets_to(&self, b_public: QM31, p_pub: QM31) -> (r: bool)
        ensures
            r == (self.total() == b_public@ + p_pub@),
    {
        let total: QM31 = self.main.plus(self.program).plus(self.boundary).plus(self.rc);
        let public: QM31 = b_public.plus(p_pub);
        total == public
    }

    /// Compares the claims with the public terms and with the tables' recomputed
    /// claims, and names the first that is off.
    pub fn check(&self, b_public: QM31, p_pub: QM31, program: QM31, boundary: QM31, rc: QM31) -> (r:
        Option<ClaimMismatch>)
        ensures
            r == (if self.total() != b_public@ + p_pub@ {
                Some(ClaimMismatch::Net)
            } else if self.program != program {
                Some(ClaimMismatch::Program)
            } else if self.boundary != boundary {
                Some(ClaimMismatch::Boundary)
            } else if self.rc != rc {
                Some(ClaimMismatch::Rc)
            } else {
                None
            }),
    {
        if !self.nets_to(b_public, p_pub) {
            Some(ClaimMismatch::Net)
        } else if self.program != program {
            Some(ClaimMismatch::Program)
        } else if self.boundary != boundary {
            Some(ClaimMismatch::Boundary)
        } else if self.rc != rc {
            Some(ClaimMismatch::Rc)
        } else {
            None
        }
    }

    /// The main claim as a verifier derives it: the public terms without the
    /// tables' claims.
    pub fn derived_main(b_public: QM31, p_pub: QM31, program: QM31, boundary: QM31, rc: QM31) -> (r:
        QM31)
        ensures
            r.wf(),
            r@ == (((b_public@ + p_pub@) - program@) - boundary@) - rc@,
    {
        b_public.plus(p_pub).minus(program).minus(boundary).minus(rc)
    }

    /// The claims in the order in which they enter the transcript.
    pub fn in_order(&self) -> (r: Vec<QM31>)
        ensures
            r@ == seq![self.main, self.program, self.boundary, self.rc],
    {
        let v: Vec<QM31> = vec![self.main, self.program, self.boundary, self.rc];
        assert(v@ =~= seq![self.main, self.program, self.boundary, self.rc]);
        v
    }
}

} // verus!
