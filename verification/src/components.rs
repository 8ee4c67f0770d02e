//! The four components of the qubit-memory encoding: their constraints and
//! lookups, evaluated on column values of a row or at any point.
use vstd::arithmetic::power2::pow2;
use vstd::prelude::*;

use crate::circuit::Gate;
use crate::field::{lemma_base_add, lemma_base_mul, Ext, P, QM31};
use crate::logup::{embed, views};
use crate::prime::lemma_bit;
use crate::qubit_memory::{padding_row, row_of, AccessCols, Row};
use crate::qubit_memory_lookups::{
    RC_LOG, TAG_PROGRAM, TAG_PROGRAM_PUB, TAG_QUBITMEM, TAG_RC, TS_FINAL,
};
use crate::whole_state::flag;

verus! {

/// The columns of the main trace: four opcode flags, three accesses of four
/// columns, and three columns of gate logic.
pub const TRACE_COLUMNS: usize = 19;

pub const ACCESS_COLS: usize = 3;

pub const ACCESS_BLOCK: usize = 4;

/// One lookup: its multiplicity and its tuple.
pub struct Entry {
    pub multiplicity: QM31,
    pub values: Vec<QM31>,
}

/// The model of an [`Entry`].
#[verifier::ext_equal]
pub ghost struct EntryView {
    pub multiplicity: Ext,
    pub values: Seq<Ext>,
}

impl View for Entry {
    type V = EntryView;

    open spec fn view(&self) -> EntryView {
        EntryView { multiplicity: self.multiplicity@, values: views(self.values@) }
    }
}

pub open spec fn entry_views(s: Seq<Entry>) -> Seq<EntryView> {
    Seq::new(s.len(), |i: int| s[i]@)
}

/// What evaluating a row yields: the constraints' values and the lookups.
pub struct Evaluation {
    pub constraints: Vec<QM31>,
    pub entries: Vec<Entry>,
}

/// `v * (v - 1)`: zero where `v` is a bit.
pub open spec fn bool_check(v: Ext) -> Ext {
    v * (v - Ext::one())
}

/// `active * (ts - prev_ts - 1 - d)`: zero where `d` is the time since the
/// previous access.
pub open spec fn ts_check(t: Seq<Ext>, off: int, ts: Ext, active: Ext) -> Ext {
    active * (((ts - t[off + 1]) - Ext::one()) - t[off + 3])
}

/// The constraints of a row of the main trace, in order.
pub open spec fn gate_checks(enabler: Ext, pc: Ext, t: Seq<Ext>) -> Seq<Ext> {
    let (nop, not, cnot, tof) = (t[0], t[1], t[2], t[3]);
    let (tv, av, bv) = (t[6], t[10], t[14]);
    let (ab, fire, delta) = (t[16], t[17], t[18]);
    let ts = pc + Ext::one();
    seq![
        bool_check(nop),
        bool_check(not),
        bool_check(cnot),
        bool_check(tof),
        (((enabler - nop) - not) - cnot) - tof,
        bool_check(tv),
        bool_check(tv + delta),
        bool_check(av),
        bool_check(bv),
        ab - av * bv,
        ((fire - not) - cnot * av) - tof * ab,
        (delta - fire) + (tv * fire) * Ext::base(2),
        ts_check(t, 4, ts, enabler),
        ts_check(t, 8, ts, cnot + tof),
        ts_check(t, 12, ts, tof),
    ]
}

pub open spec fn mem_entry(m: Ext, shot: Ext, addr: Ext, ts: Ext, v: Ext) -> EntryView {
    EntryView {
        multiplicity: m,
        values: seq![Ext::base(TAG_QUBITMEM as int), shot, addr, ts, v],
    }
}

pub open spec fn rc_entry(m: Ext, d: Ext) -> EntryView {
    EntryView { multiplicity: m, values: seq![Ext::base(TAG_RC as int), d] }
}

pub open spec fn prog_entry(m: Ext, tag: u32, slot: Ext, op: Ext, t: Ext, a: Ext, b: Ext) -> EntryView {
    EntryView { multiplicity: m, values: seq![Ext::base(tag as int), slot, op, t, a, b] }
}

/// The lookups of a row of the main trace, in order.
pub open spec fn gate_entries(enabler: Ext, shot: Ext, pc: Ext, slot: Ext, t: Seq<Ext>) -> Seq<EntryView> {
    let (not, cnot, tof) = (t[1], t[2], t[3]);
    let a = cnot + tof;
    let ts = pc + Ext::one();
    seq![
        mem_entry(enabler, shot, t[4], t[5], t[6]),
        mem_entry(-enabler, shot, t[4], ts, t[6] + t[18]),
        mem_entry(a, shot, t[8], t[9], t[10]),
        mem_entry(-a, shot, t[8], ts, t[10]),
        mem_entry(tof, shot, t[12], t[13], t[14]),
        mem_entry(-tof, shot, t[12], ts, t[14]),
        rc_entry(enabler, t[7]),
        rc_entry(a, t[11]),
        rc_entry(tof, t[15]),
        prog_entry(
            enabler,
            TAG_PROGRAM,
            slot,
            (not + cnot * Ext::base(2)) + tof * Ext::base(3),
            t[4],
            t[8],
            t[12],
        ),
    ]
}

fn exec_bool_check(v: QM31) -> (r: QM31)
    ensures
        r@ == bool_check(v@),
{
    v.times(v.minus(QM31::one()))
}

fn exec_ts_check(t: &[QM31], off: usize, ts: QM31, active: QM31) -> (r: QM31)
    requires
        off + 3 < t@.len(),
        off <= 100,
    ensures
        r@ == ts_check(views(t@), off as int, ts@, active@),
{
    active.times(ts.minus(t[off + 1]).minus(QM31::one()).minus(t[off + 3]))
}

fn make_mem(m: QM31, shot: QM31, addr: QM31, ts: QM31, v: QM31) -> (e: Entry)
    ensures
        e@ == mem_entry(m@, shot@, addr@, ts@, v@),
{
    let values: Vec<QM31> = vec![QM31::from_base(TAG_QUBITMEM), shot, addr, ts, v];
    assert(views(values@) =~= mem_entry(m@, shot@, addr@, ts@, v@).values);
    Entry { multiplicity: m, values }
}

fn make_rc(m: QM31, d: QM31) -> (e: Entry)
    ensures
        e@ == rc_entry(m@, d@),
{
    let values: Vec<QM31> = vec![QM31::from_base(TAG_RC), d];
    assert(views(values@) =~= rc_entry(m@, d@).values);
    Entry { multiplicity: m, values }
}

fn make_prog(m: QM31, tag: u32, slot: QM31, op: QM31, t: QM31, a: QM31, b: QM31) -> (e: Entry)
    ensures
        e@ == prog_entry(m@, tag, slot@, op@, t@, a@, b@),
{
    let values: Vec<QM31> = vec![QM31::from_base(tag), slot, op, t, a, b];
    assert(views(values@) =~= prog_entry(m@, tag, slot@, op@, t@, a@, b@).values);
    Entry { multiplicity: m, values }
}

/// The main component: one row per gate.
#[derive(Clone, Copy, Debug)]
pub struct GateEval {
    pub log_n_rows: u32,
}

impl GateEval {
    pub fn log_size(&self) -> (r: u32)
        ensures
            r == self.log_n_rows,
    {
        self.log_n_rows
    }

    pub fn max_constraint_log_degree_bound(&self) -> (r: u32)
        requires
            self.log_n_rows < u32::MAX,
        ensures
            r == self.log_n_rows + 1,
    {
        self.log_n_rows + 1
    }

    /// Evaluates the constraints and lookups on the four public columns and the
    /// 19 trace columns.
    pub fn evaluate(enabler: QM31, shot_id: QM31, pc: QM31, pc_in_prog: QM31, t: &[QM31]) -> (r:
        Evaluation)
        requires
            t@.len() == TRACE_COLUMNS,
        ensures
            views(r.constraints@) == gate_checks(enabler@, pc@, views(t@)),
            entry_views(r.entries@) == gate_entries(
                enabler@,
                shot_id@,
                pc@,
                pc_in_prog@,
                views(t@),
            ),
    {
        let (nop, not, cnot, tof) = (t[0], t[1], t[2], t[3]);
        let (tv, av, bv) = (t[6], t[10], t[14]);
        let (ab, fire, delta) = (t[16], t[17], t[18]);
        let two: QM31 = QM31::from_base(2);
        let ts: QM31 = pc.plus(QM31::one());
        let a_active: QM31 = cnot.plus(tof);
        let after: QM31 = tv.plus(delta);
        let constraints: Vec<QM31> = vec![
            exec_bool_check(nop),
            exec_bool_check(not),
            exec_bool_check(cnot),
            exec_bool_check(tof),
            enabler.minus(nop).minus(not).minus(cnot).minus(tof),
            exec_bool_check(tv),
            exec_bool_check(after),
            exec_bool_check(av),
            exec_bool_check(bv),
            ab.minus(av.times(bv)),
            fire.minus(not).minus(cnot.times(av)).minus(tof.times(ab)),
            delta.minus(fire).plus(tv.times(fire).times(two)),
            exec_ts_check(t, 4, ts, enabler),
            exec_ts_check(t, 8, ts, a_active),
            exec_ts_check(t, 12, ts, tof),
        ];
        assert(views(constraints@) =~= gate_checks(enabler@, pc@, views(t@)));
        let op: QM31 = not.plus(cnot.times(two)).plus(tof.times(QM31::from_base(3)));
        let entries: Vec<Entry> = vec![
            make_mem(enabler, shot_id, t[4], t[5], tv),
            make_mem(enabler.negate(), shot_id, t[4], ts, after),
            make_mem(a_active, shot_id, t[8], t[9], av),
            make_mem(a_active.negate(), shot_id, t[8], ts, av),
            make_mem(tof, shot_id, t[12], t[13], bv),
            make_mem(tof.negate(), shot_id, t[12], ts, bv),
            make_rc(enabler, t[7]),
            make_rc(a_active, t[11]),
            make_rc(tof, t[15]),
            make_prog(enabler, TAG_PROGRAM, pc_in_prog, op, t[4], t[8], t[12]),
        ];
        assert(entry_views(entries@) =~= gate_entries(
            enabler@,
            shot_id@,
            pc@,
            pc_in_prog@,
            views(t@),
        ));
        Evaluation { constraints, entries }
    }
}

/// The program component: one row per slot.
#[derive(Clone, Copy, Debug)]
pub struct ProgramEval {
    pub log_size: u32,
}

/// The two lookups of a program slot: the supply, and the public copy.
pub open spec fn program_entries(slot: Ext, t: Seq<Ext>) -> Seq<EntryView> {
    seq![
        prog_entry(-t[4], TAG_PROGRAM, slot, t[0], t[1], t[2], t[3]),
        prog_entry(t[4], TAG_PROGRAM_PUB, slot, t[0], t[1], t[2], t[3]),
    ]
}

impl ProgramEval {
    pub fn log_size(&self) -> (r: u32)
        ensures
            r == self.log_size,
    {
        self.log_size
    }

    pub fn max_constraint_log_degree_bound(&self) -> (r: u32)
        requires
            self.log_size < u32::MAX,
        ensures
            r == self.log_size + 1,
    {
        self.log_size + 1
    }

    /// Evaluates on the slot and the five trace columns.
    pub fn evaluate(slot: QM31, t: &[QM31]) -> (r: Evaluation)
        requires
            t@.len() == 5,
        ensures
            r.constraints@.len() == 0,
            entry_views(r.entries@) == program_entries(slot@, views(t@)),
    {
        let m: QM31 = t[4];
        let entries: Vec<Entry> = vec![
            make_prog(m.negate(), TAG_PROGRAM, slot, t[0], t[1], t[2], t[3]),
            make_prog(m, TAG_PROGRAM_PUB, slot, t[0], t[1], t[2], t[3]),
        ];
        assert(entry_views(entries@) =~= program_entries(slot@, views(t@)));
        Evaluation { constraints: Vec::new(), entries }
    }
}

/// The boundary component: one row per qubit of each shot.
#[derive(Clone, Copy, Debug)]
pub struct QubitMemEval {
    pub log_size: u32,
}

/// The two lookups of a boundary row: the last access, and the public last value.
pub open spec fn boundary_entries(shot: Ext, addr: Ext, enabler: Ext, t: Seq<Ext>) -> Seq<EntryView> {
    seq![
        mem_entry(enabler, shot, addr, t[2], t[1]),
        mem_entry(-enabler, shot, addr, Ext::base(TS_FINAL as int), t[1]),
    ]
}

impl QubitMemEval {
    pub fn log_size(&self) -> (r: u32)
        ensures
            r == self.log_size,
    {
        self.log_size
    }

    pub fn max_constraint_log_degree_bound(&self) -> (r: u32)
        requires
            self.log_size < u32::MAX,
        ensures
            r == self.log_size + 1,
    {
        self.log_size + 1
    }

    /// Evaluates on the three public columns and on `x`, `y` and the last access.
    pub fn evaluate(shot: QM31, addr: QM31, enabler: QM31, t: &[QM31]) -> (r: Evaluation)
        requires
            t@.len() == 3,
        ensures
            views(r.constraints@) == seq![bool_check(t@[0]@), bool_check(t@[1]@)],
            entry_views(r.entries@) == boundary_entries(shot@, addr@, enabler@, views(t@)),
    {
        let (x, y, ts_last) = (t[0], t[1], t[2]);
        let constraints: Vec<QM31> = vec![exec_bool_check(x), exec_bool_check(y)];
        assert(views(constraints@) =~= seq![bool_check(t@[0]@), bool_check(t@[1]@)]);
        let entries: Vec<Entry> = vec![
            make_mem(enabler, shot, addr, ts_last, y),
            make_mem(enabler.negate(), shot, addr, QM31::from_base(TS_FINAL), y),
        ];
        assert(entry_views(entries@) =~= boundary_entries(shot@, addr@, enabler@, views(t@)));
        Evaluation { constraints, entries }
    }
}

/// The range-check component: one row per value.
#[derive(Clone, Copy, Debug)]
pub struct RangeCheckEval {
    pub log_size: u32,
}

impl RangeCheckEval {
    pub fn log_size(&self) -> (r: u32)
        ensures
            r == self.log_size,
    {
        self.log_size
    }

    pub fn max_constraint_log_degree_bound(&self) -> (r: u32)
        requires
            self.log_size < u32::MAX,
        ensures
            r == self.log_size + 1,
    {
        self.log_size + 1
    }

    /// Evaluates on a value and its multiplicity.
    pub fn evaluate(val: QM31, multiplicity: QM31) -> (r: Evaluation)
        ensures
            r.constraints@.len() == 0,
            entry_views(r.entries@) == seq![rc_entry(-multiplicity@, val@)],
    {
        let entries: Vec<Entry> = vec![make_rc(multiplicity.negate(), val)];
        assert(entry_views(entries@) =~= seq![rc_entry(-multiplicity@, val@)]);
        Evaluation { constraints: Vec::new(), entries }
    }
}

pub open spec fn access_cells(a: AccessCols) -> Seq<u32> {
    seq![a.addr, a.prev_ts, a.v, a.d]
}

/// The cells of a row, in column order.
pub open spec fn row_cells(row: Row) -> Seq<u32> {
    seq![row.is_nop, row.is_not, row.is_cnot, row.is_toffoli] + access_cells(row.target)
        + access_cells(row.ctrl_a) + access_cells(row.ctrl_b) + seq![row.ab, row.fire, row.delta]
}

fn access_cell(a: &AccessCols, c: usize) -> (v: u32)
    requires
        c < ACCESS_BLOCK,
    ensures
        v == access_cells(*a)[c as int],
{
    if c == 0 {
        a.addr
    } else if c == 1 {
        a.prev_ts
    } else if c == 2 {
        a.v
    } else {
        a.d
    }
}

/// One cell of a row.
pub fn cell_at(row: &Row, col: usize) -> (v: u32)
    requires
        col < TRACE_COLUMNS,
    ensures
        v == row_cells(*row)[col as int],
{
    if col == 0 {
        row.is_nop
    } else if col == 1 {
        row.is_not
    } else if col == 2 {
        row.is_cnot
    } else if col == 3 {
        row.is_toffoli
    } else if col < 8 {
        access_cell(&row.target, col - 4)
    } else if col < 12 {
        access_cell(&row.ctrl_a, col - 8)
    } else if col < 16 {
        access_cell(&row.ctrl_b, col - 12)
    } else if col == 16 {
        row.ab
    } else if col == 17 {
        row.fire
    } else {
        row.delta
    }
}

/// The main trace, column by column, padded with empty rows.
pub fn generate_main_trace(rows: &[Row], padded_rows: usize) -> (cols: Vec<Vec<u32>>)
    ensures
        cols@.len() == TRACE_COLUMNS,
        forall|c: int| 0 <= c < TRACE_COLUMNS ==> (#[trigger] cols@[c])@.len() == padded_rows,
        forall|c: int, i: int|
            0 <= c < TRACE_COLUMNS && 0 <= i < padded_rows ==> #[trigger] cols@[c]@[i] == (if i
                < rows@.len() {
                row_cells(rows@[i])[c]
            } else {
                0
            }),
{
    let pad: Row = Row::padding();
    let mut cols: Vec<Vec<u32>> = Vec::new();
    let mut c: usize = 0;
    while c < TRACE_COLUMNS
        invariant
            c <= TRACE_COLUMNS,
            pad == padding_row(),
            cols@.len() == c,
            forall|d: int| 0 <= d < c ==> (#[trigger] cols@[d])@.len() == padded_rows,
            forall|d: int, i: int|
                0 <= d < c && 0 <= i < padded_rows ==> #[trigger] cols@[d]@[i] == (if i
                    < rows@.len() {
                    row_cells(rows@[i])[d]
                } else {
                    0
                }),
        decreases TRACE_COLUMNS - c,
    {
        let mut col: Vec<u32> = Vec::new();
        let mut i: usize = 0;
        while i < padded_rows
            invariant
                i <= padded_rows,
                c < TRACE_COLUMNS,
                pad == padding_row(),
                col@.len() == i,
                forall|j: int|
                    0 <= j < i ==> #[trigger] col@[j] == (if j < rows@.len() {
                        row_cells(rows@[j])[c as int]
                    } else {
                        0
                    }),
            decreases padded_rows - i,
        {
            let v: u32 = if i < rows.len() { cell_at(&rows[i], c) } else { cell_at(&pad, c) };
            assert(row_cells(padding_row())[c as int] == 0);
            col.push(v);
            i += 1;
        }
        cols.push(col);
        c += 1;
    }
    cols
}

/// Every constraint is zero.
pub open spec fn all_zero(s: Seq<Ext>) -> bool {
    forall|i: int| 0 <= i < s.len() ==> #[trigger] s[i] == Ext::zero()
}

proof fn lemma_bool_check_int(v: int)
    ensures
        bool_check(Ext::base(v)) == Ext::base(v * (v - 1)),
{
    lemma_base_add(v, 1);
    lemma_base_mul(v, v - 1);
}

/// The values of all constraints on base-field columns.
pub open spec fn int_checks(
    en: int,
    pc: int,
    c: Seq<u32>,
) -> Seq<int> {
    let (nop, not, cnot, tof) = (c[0] as int, c[1] as int, c[2] as int, c[3] as int);
    let (tv, av, bv) = (c[6] as int, c[10] as int, c[14] as int);
    let (ab, fire, delta) = (c[16] as int, c[17] as int, c[18] as int);
    seq![
        nop * (nop - 1),
        not * (not - 1),
        cnot * (cnot - 1),
        tof * (tof - 1),
        en - nop - not - cnot - tof,
        tv * (tv - 1),
        (tv + delta) * (tv + delta - 1),
        av * (av - 1),
        bv * (bv - 1),
        ab - av * bv,
        fire - not - cnot * av - tof * ab,
        delta - fire + tv * fire * 2,
        en * (pc + 1 - c[5] - 1 - c[7]),
        (cnot + tof) * (pc + 1 - c[9] - 1 - c[11]),
        tof * (pc + 1 - c[13] - 1 - c[15]),
    ]
}

/// Integers as base-field elements.
pub open spec fn bases(s: Seq<int>) -> Seq<Ext> {
    Seq::new(s.len(), |i: int| Ext::base(s[i]))
}

proof fn lemma_ts_check_int(t: Seq<Ext>, off: int, prev: int, d: int, ts: int, active: int)
    requires
        t[off + 1] == Ext::base(prev),
        t[off + 3] == Ext::base(d),
    ensures
        ts_check(t, off, Ext::base(ts), Ext::base(active)) == Ext::base(
            active * (ts - prev - 1 - d),
        ),
{
    lemma_base_add(ts, prev);
    lemma_base_add(ts - prev, 1);
    lemma_base_add(ts - prev - 1, d);
    lemma_base_mul(active, ts - prev - 1 - d);
}

/// On base-field columns the constraints are what they are over the integers.
pub proof fn lemma_checks_are_int_checks(en: int, pc: int, c: Seq<u32>)
    requires
        c.len() == TRACE_COLUMNS,
    ensures
        gate_checks(Ext::base(en), Ext::base(pc), embed(c)) == bases(int_checks(en, pc, c)),
{
    let t = embed(c);
    let (nop, not, cnot, tof) = (c[0] as int, c[1] as int, c[2] as int, c[3] as int);
    let (tv, av, bv) = (c[6] as int, c[10] as int, c[14] as int);
    let (ab, fire, delta) = (c[16] as int, c[17] as int, c[18] as int);
    lemma_bool_check_int(nop);
    lemma_bool_check_int(not);
    lemma_bool_check_int(cnot);
    lemma_bool_check_int(tof);
    lemma_base_add(en, nop);
    lemma_base_add(en - nop, not);
    lemma_base_add(en - nop - not, cnot);
    lemma_base_add(en - nop - not - cnot, tof);
    lemma_bool_check_int(tv);
    lemma_base_add(tv, delta);
    lemma_bool_check_int(tv + delta);
    lemma_bool_check_int(av);
    lemma_bool_check_int(bv);
    lemma_base_mul(av, bv);
    lemma_base_add(ab, av * bv);
    lemma_base_mul(cnot, av);
    lemma_base_mul(tof, ab);
    lemma_base_add(fire, not);
    lemma_base_add(fire - not, cnot * av);
    lemma_base_add(fire - not - cnot * av, tof * ab);
    lemma_base_mul(tv, fire);
    lemma_base_mul(tv * fire, 2);
    lemma_base_add(delta, fire);
    lemma_base_add(delta - fire, tv * fire * 2);
    lemma_base_add(pc, 1);
    lemma_base_add(cnot, tof);
    lemma_ts_check_int(t, 4, c[5] as int, c[7] as int, pc + 1, en);
    lemma_ts_check_int(t, 8, c[9] as int, c[11] as int, pc + 1, cnot + tof);
    lemma_ts_check_int(t, 12, c[13] as int, c[15] as int, pc + 1, tof);
    assert(gate_checks(Ext::base(en), Ext::base(pc), t) =~= bases(int_checks(en, pc, c)));
}

/// Honest rows meet every constraint of the main component.
pub proof fn lemma_gate_row_satisfies(g: Gate, s: Seq<bool>, last: Seq<u32>, shot: int, pc: int)
    requires
        g.runnable(),
        0 <= pc < u32::MAX,
        last[g.target as int] <= pc,
        g.a_active() ==> last[g.ctrl_a as int] <= pc,
        g.b_active() ==> last[g.ctrl_b as int] <= pc,
    ensures
        all_zero(
            gate_checks(
                Ext::one(),
                Ext::base(pc),
                embed(row_cells(row_of(g, s, last, shot, pc))),
            ),
        ),
{
    let row = row_of(g, s, last, shot, pc);
    let c = row_cells(row);
    lemma_base_add(0, 1);
    lemma_checks_are_int_checks(1, pc, c);
    let v = int_checks(1, pc, c);
    let (not, cnot, tof) = (row.is_not as int, row.is_cnot as int, row.is_toffoli as int);
    let (tv, av, bv) = (row.target.v as int, row.ctrl_a.v as int, row.ctrl_b.v as int);
    let (ab, fire, delta) = (row.ab as int, row.fire as int, row.delta as int);
    lemma_small_products(not, cnot, tof, tv, av, bv, ab, fire, delta);
    assert(av * bv == ab) by (nonlinear_arith)
        requires
            av == 0 || av == 1,
            bv == 0 || bv == 1,
            ab == (if av == 1 && bv == 1 { 1int } else { 0int }),
    ;
    assert forall|i: int| 0 <= i < 15 implies #[trigger] bases(v)[i]
        == Ext::zero() by {
        lemma_base_multiple(v[i]);
        assert(v[i] % (P as int) == 0) by {
            if i == 6 {
                assert((tv + delta) * (tv + delta - 1) % (P as int) == 0);
            } else if i == 11 {
                assert((delta - fire + tv * fire * 2) % (P as int) == 0);
            } else if i == 12 {
                assert(v[12] == 0);
            } else if i == 13 {
                assert(v[13] == 0) by {
                    if !g.a_active() {
                        assert((cnot + tof) * (pc + 1 - c[9] - 1 - c[11]) == 0) by (nonlinear_arith)
                            requires
                                cnot + tof == 0,
                        ;
                    }
                }
            } else if i == 14 {
                assert(v[14] == 0) by {
                    if !g.b_active() {
                        assert(tof * (pc + 1 - c[13] - 1 - c[15]) == 0) by (nonlinear_arith)
                            requires
                                tof == 0,
                        ;
                    }
                }
            }
        }
    }
}

/// `base(v)` is zero where the prime divides `v`.
proof fn lemma_base_multiple(v: int)
    ensures
        v % (P as int) == 0 ==> Ext::base(v) == Ext::zero(),
{
}

/// The products of a gate's flags and bits.
proof fn lemma_small_products(
    not: int,
    cnot: int,
    tof: int,
    tv: int,
    av: int,
    bv: int,
    ab: int,
    fire: int,
    delta: int,
)
    requires
        not == 0 || not == 1,
        cnot == 0 || cnot == 1,
        tof == 0 || tof == 1,
        tv == 0 || tv == 1,
        av == 0 || av == 1,
        bv == 0 || bv == 1,
        ab == 0 || ab == 1,
        fire == 0 || fire == 1,
        delta == (if fire == 0 {
            0
        } else if tv == 1 {
            P - 1
        } else {
            1
        }),
    ensures
        not * (not - 1) == 0,
        cnot * (cnot - 1) == 0,
        tof * (tof - 1) == 0,
        tv * (tv - 1) == 0,
        av * (av - 1) == 0,
        bv * (bv - 1) == 0,
        cnot * av == (if cnot == 1 { av } else { 0 }),
        tof * ab == (if tof == 1 { ab } else { 0 }),
        (tv + delta) * (tv + delta - 1) % (P as int) == 0,
        (delta - fire + tv * fire * 2) % (P as int) == 0,
{
    assert(cnot * av == (if cnot == 1 { av } else { 0 })) by (nonlinear_arith)
        requires
            cnot == 0 || cnot == 1,
    ;
    assert(tof * ab == (if tof == 1 { ab } else { 0 })) by (nonlinear_arith)
        requires
            tof == 0 || tof == 1,
    ;
    assert(tv * fire == (if tv == 1 { fire } else { 0 })) by (nonlinear_arith)
        requires
            tv == 0 || tv == 1,
    ;
    assert(not * (not - 1) == 0) by (nonlinear_arith)
        requires
            not == 0 || not == 1,
    ;
    assert(cnot * (cnot - 1) == 0) by (nonlinear_arith)
        requires
            cnot == 0 || cnot == 1,
    ;
    assert(tof * (tof - 1) == 0) by (nonlinear_arith)
        requires
            tof == 0 || tof == 1,
    ;
    assert(tv * (tv - 1) == 0) by (nonlinear_arith)
        requires
            tv == 0 || tv == 1,
    ;
    assert(av * (av - 1) == 0) by (nonlinear_arith)
        requires
            av == 0 || av == 1,
    ;
    assert(bv * (bv - 1) == 0) by (nonlinear_arith)
        requires
            bv == 0 || bv == 1,
    ;
    let w = tv + delta;
    if w == P {
        vstd::arithmetic::div_mod::lemma_mod_multiples_basic(w - 1, P as int);
        assert(w * (w - 1) == (w - 1) * P) by (nonlinear_arith)
            requires
                w == P,
        ;
    } else {
        assert(w == 0 || w == 1);
        assert(w * (w - 1) == 0) by (nonlinear_arith)
            requires
                w == 0 || w == 1,
        ;
    }
}

/// Padding meets every constraint of the main component.
pub proof fn lemma_padding_satisfies()
    ensures
        all_zero(gate_checks(Ext::zero(), Ext::zero(), embed(row_cells(padding_row())))),
{
    let c = row_cells(padding_row());
    lemma_base_add(0, 0);
    lemma_checks_are_int_checks(0, 0, c);
    let v = int_checks(0, 0, c);
    assert forall|i: int| 0 <= i < 15 implies #[trigger] bases(v)[i]
        == Ext::zero() by {
        assert(v[i] == 0);
    }
}

/// The constraints pin down what a row's gate did: the opcode flags and the
/// values are bits, exactly one flag is set (none on padding), the row fires
/// exactly as its opcode says, and the target's value is flipped exactly where it
/// fires.
pub proof fn lemma_checks_pin_gate(en: int, pc: int, c: Seq<u32>)
    requires
        c.len() == TRACE_COLUMNS,
        en == 0 || en == 1,
        forall|i: int| 0 <= i < 19 ==> #[trigger] c[i] < P,
        all_zero(gate_checks(Ext::base(en), Ext::base(pc), embed(c))),
    ensures
        c[0] <= 1 && c[1] <= 1 && c[2] <= 1 && c[3] <= 1,
        c[6] <= 1 && c[10] <= 1 && c[14] <= 1,
        c[0] + c[1] + c[2] + c[3] == en,
        c[16] == flag(c[10] == 1 && c[14] == 1),
        c[17] == flag(c[1] == 1 || (c[2] == 1 && c[10] == 1) || (c[3] == 1 && c[16] == 1)),
        (c[6] + c[18]) % (P as int) == (if c[17] == 1 { 1 - c[6] } else { c[6] as int }),
{
    lemma_checks_are_int_checks(en, pc, c);
    let v = int_checks(en, pc, c);
    let w = bases(v);
    let (nop, not, cnot, tof) = (c[0] as int, c[1] as int, c[2] as int, c[3] as int);
    let (tv, av, bv) = (c[6] as int, c[10] as int, c[14] as int);
    let (ab, fire, delta) = (c[16] as int, c[17] as int, c[18] as int);
    assert(c[0] < P && c[1] < P && c[2] < P && c[3] < P && c[6] < P && c[10] < P && c[14] < P);
    assert(c[16] < P && c[17] < P && c[18] < P);
    assert forall|i: int| 0 <= i < 15 implies #[trigger] v[i] % (P as int) == 0 by {
        assert(w[i] == Ext::zero());
    }
    assert(v[0] % (P as int) == 0 && v[1] % (P as int) == 0 && v[2] % (P as int) == 0 && v[3] % (
    P as int) == 0);
    assert(v[5] % (P as int) == 0 && v[7] % (P as int) == 0 && v[8] % (P as int) == 0);
    lemma_bit(nop);
    lemma_bit(not);
    lemma_bit(cnot);
    lemma_bit(tof);
    lemma_bit(tv);
    lemma_bit(av);
    lemma_bit(bv);
    assert(v[4] % (P as int) == 0);
    assert(v[9] % (P as int) == 0);
    assert(v[10] % (P as int) == 0);
    assert(v[11] % (P as int) == 0);
    assert(av * bv == (if av == 1 && bv == 1 { 1int } else { 0int })) by (nonlinear_arith)
        requires
            av == 0 || av == 1,
            bv == 0 || bv == 1,
    ;
    assert(en - nop - not - cnot - tof == 0);
    assert(ab == av * bv);
    assert(cnot * av == (if cnot == 1 { av } else { 0 })) by (nonlinear_arith)
        requires
            cnot == 0 || cnot == 1,
    ;
    assert(tof * ab == (if tof == 1 { ab } else { 0 })) by (nonlinear_arith)
        requires
            tof == 0 || tof == 1,
    ;
    assert(fire == 0 || fire == 1);
    assert(tv * fire == (if tv == 1 { fire } else { 0 })) by (nonlinear_arith)
        requires
            tv == 0 || tv == 1,
    ;
}

/// The constraints order the accesses: an access that is made, whose difference
/// is in the range table and whose previous time is that of an access or of the
/// start, comes after that previous time, by exactly its difference.
pub proof fn lemma_checks_order_accesses(en: int, pc: int, c: Seq<u32>)
    requires
        c.len() == TRACE_COLUMNS,
        en == 0 || en == 1,
        forall|i: int| 0 <= i < 19 ==> #[trigger] c[i] < P,
        0 <= pc < TS_FINAL,
        all_zero(gate_checks(Ext::base(en), Ext::base(pc), embed(c))),
    ensures
        en == 1 && c[5] < TS_FINAL && c[7] < pow2(RC_LOG as nat) ==> c[5] + c[7] == pc,
        c[2] + c[3] == 1 && c[9] < TS_FINAL && c[11] < pow2(RC_LOG as nat) ==> c[9] + c[11] == pc,
        c[3] == 1 && c[13] < TS_FINAL && c[15] < pow2(RC_LOG as nat) ==> c[13] + c[15] == pc,
{
    lemma_checks_pin_gate(en, pc, c);
    lemma_checks_are_int_checks(en, pc, c);
    vstd::arithmetic::power2::lemma2_to64();
    let v = int_checks(en, pc, c);
    let w = bases(v);
    assert(w[12] == Ext::zero() && w[13] == Ext::zero() && w[14] == Ext::zero());
    assert(v[12] % (P as int) == 0 && v[13] % (P as int) == 0 && v[14] % (P as int) == 0);
    if en == 1 {
        assert(v[12] == pc - c[5] - c[7]);
    }
    if c[2] + c[3] == 1 {
        assert((c[2] as int + c[3] as int) * (pc + 1 - c[9] - 1 - c[11]) == pc - c[9] - c[11])
            by (nonlinear_arith)
            requires
                c[2] + c[3] == 1,
        ;
        assert(v[13] == pc - c[9] - c[11]);
    }
    if c[3] == 1 {
        assert(c[3] as int * (pc + 1 - c[13] - 1 - c[15]) == pc - c[13] - c[15])
            by (nonlinear_arith)
            requires
                c[3] == 1,
        ;
        assert(v[14] == pc - c[13] - c[15]);
    }
}

} // verus!
