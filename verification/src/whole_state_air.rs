//! The constraints of the whole-state encoding, and its trace as columns.
use vstd::prelude::*;

use crate::circuit::{lemma_split, weight, Gate, N_LIMBS, N_QUBITS};
use crate::circuit::qubit_decode;
use crate::components::{all_zero, bool_check};
use crate::field::{
    lemma_add_zero, lemma_base_add, lemma_base_mul, lemma_mul_one, lemma_mul_zero, Ext, P, QM31,
};
use crate::logup::{embed, views};
use crate::sums::{lemma_sum_single, lemma_sum_zero, sum};
use crate::whole_state::{flag, ReadCols, Row};
use crate::whole_state_lookups::RelationId;

verus! {

/// The columns of one read.
pub const READ_COLS: usize = 39;

pub const TRACE_COLUMNS: usize = 191;

/// Where the reads of the target and of the two controls begin, and the last
/// three columns.
pub const TARGET_OFF: usize = 71;

pub const CTRL_A_OFF: usize = 110;

pub const CTRL_B_OFF: usize = 149;

pub const TAIL_OFF: usize = 188;

/// The cells of a read, in column order.
pub open spec fn read_cells(r: ReadCols) -> Seq<u32> {
    seq![r.q, r.limb_idx, r.bit_pos, r.mask] + r.lsel@ + seq![r.lo, r.hi, r.bit]
}

/// The cells of a row, in column order.
pub open spec fn row_cells(row: Row) -> Seq<u32> {
    seq![
        row.enabler,
        row.is_nop,
        row.is_not,
        row.is_cnot,
        row.is_toffoli,
        row.shot_id,
        row.pc,
    ] + row.in_limb@ + row.out_limb@ + read_cells(row.target) + read_cells(row.ctrl_a)
        + read_cells(row.ctrl_b) + seq![row.ab, row.fire, row.delta]
}

fn read_cell(r: &ReadCols, c: usize) -> (v: u32)
    requires
        c < READ_COLS,
    ensures
        v == read_cells(*r)[c as int],
{
    if c == 0 {
        r.q
    } else if c == 1 {
        r.limb_idx
    } else if c == 2 {
        r.bit_pos
    } else if c == 3 {
        r.mask
    } else if c < 4 + N_LIMBS {
        r.lsel[c - 4]
    } else if c == 36 {
        r.lo
    } else if c == 37 {
        r.hi
    } else {
        r.bit
    }
}

/// One cell of a row.
pub fn cell_at(row: &Row, col: usize) -> (v: u32)
    requires
        col < TRACE_COLUMNS,
    ensures
        v == row_cells(*row)[col as int],
{
    if col == 0 {
        row.enabler
    } else if col == 1 {
        row.is_nop
    } else if col == 2 {
        row.is_not
    } else if col == 3 {
        row.is_cnot
    } else if col == 4 {
        row.is_toffoli
    } else if col == 5 {
        row.shot_id
    } else if col == 6 {
        row.pc
    } else if col < 7 + N_LIMBS {
        row.in_limb[col - 7]
    } else if col < TARGET_OFF {
        row.out_limb[col - 39]
    } else if col < CTRL_A_OFF {
        read_cell(&row.target, col - TARGET_OFF)
    } else if col < CTRL_B_OFF {
        read_cell(&row.ctrl_a, col - CTRL_A_OFF)
    } else if col < TAIL_OFF {
        read_cell(&row.ctrl_b, col - CTRL_B_OFF)
    } else if col == 188 {
        row.ab
    } else if col == 189 {
        row.fire
    } else {
        row.delta
    }
}

/// The cells of row `i` of the padded trace: those of a row, or of padding.
pub open spec fn padded_cell(rows: Seq<Row>, i: int, c: int) -> u32 {
    if i < rows.len() {
        row_cells(rows[i])[c]
    } else if c == TARGET_OFF + 3 || c == CTRL_A_OFF + 3 || c == CTRL_B_OFF + 3 {
        1
    } else {
        0
    }
}

proof fn lemma_padding_cells(row: Row, c: int)
    requires
        row.is_padding(),
        0 <= c < TRACE_COLUMNS,
    ensures
        row_cells(row)[c] == (if c == TARGET_OFF + 3 || c == CTRL_A_OFF + 3 || c == CTRL_B_OFF + 3 {
            1u32
        } else {
            0u32
        }),
{
}

/// The main trace, column by column.
pub fn generate_main_trace(rows: &[Row], padded_rows: usize) -> (cols: Vec<Vec<u32>>)
    ensures
        cols@.len() == TRACE_COLUMNS,
        forall|c: int| 0 <= c < TRACE_COLUMNS ==> (#[trigger] cols@[c])@.len() == padded_rows,
        forall|c: int, i: int|
            0 <= c < TRACE_COLUMNS && 0 <= i < padded_rows ==> #[trigger] cols@[c]@[i]
                == padded_cell(rows@, i, c),
{
    let pad: Row = Row::padding();
    let mut cols: Vec<Vec<u32>> = Vec::new();
    let mut c: usize = 0;
    while c < TRACE_COLUMNS
        invariant
            c <= TRACE_COLUMNS,
            pad.is_padding(),
            cols@.len() == c,
            forall|d: int| 0 <= d < c ==> (#[trigger] cols@[d])@.len() == padded_rows,
            forall|d: int, i: int|
                0 <= d < c && 0 <= i < padded_rows ==> #[trigger] cols@[d]@[i] == padded_cell(
                    rows@,
                    i,
                    d,
                ),
        decreases TRACE_COLUMNS - c,
    {
        let mut col: Vec<u32> = Vec::new();
        let mut i: usize = 0;
        while i < padded_rows
            invariant
                i <= padded_rows,
                c < TRACE_COLUMNS,
                pad.is_padding(),
                col@.len() == i,
                forall|j: int| 0 <= j < i ==> #[trigger] col@[j] == padded_cell(rows@, j, c as int),
            decreases padded_rows - i,
        {
            proof {
                lemma_padding_cells(pad, c as int);
            }
            let v: u32 = if i < rows.len() { cell_at(&rows[i], c) } else { cell_at(&pad, c) };
            col.push(v);
            i += 1;
        }
        cols.push(col);
        c += 1;
    }
    cols
}

/// The four columns of the qubit-decoding table: qubit, limb, bit position, weight.
pub fn generate_qdecode_preprocessed() -> (cols: Vec<Vec<u32>>)
    ensures
        cols@.len() == 4,
        forall|c: int| 0 <= c < 4 ==> (#[trigger] cols@[c])@.len() == N_QUBITS,
        forall|q: int| 0 <= q < N_QUBITS ==> #[trigger] cols@[0]@[q] == q,
        forall|q: int| 0 <= q < N_QUBITS ==> #[trigger] cols@[1]@[q] == q / 16,
        forall|q: int| 0 <= q < N_QUBITS ==> #[trigger] cols@[2]@[q] == q % 16,
        forall|q: int| 0 <= q < N_QUBITS ==> #[trigger] cols@[3]@[q] == weight((q % 16) as u32),
{
    let mut q: Vec<u32> = Vec::new();
    let mut limb: Vec<u32> = Vec::new();
    let mut pos: Vec<u32> = Vec::new();
    let mut mask: Vec<u32> = Vec::new();
    let mut i: u16 = 0;
    while i < 512
        invariant
            i <= 512,
            q@.len() == i,
            limb@.len() == i,
            pos@.len() == i,
            mask@.len() == i,
            forall|j: int| 0 <= j < i ==> #[trigger] q@[j] == j,
            forall|j: int| 0 <= j < i ==> #[trigger] limb@[j] == j / 16,
            forall|j: int| 0 <= j < i ==> #[trigger] pos@[j] == j % 16,
            forall|j: int| 0 <= j < i ==> #[trigger] mask@[j] == weight((j % 16) as u32),
        decreases 512 - i,
    {
        let (l, p, m) = qubit_decode(i);
        q.push(i as u32);
        limb.push(l);
        pos.push(p);
        mask.push(m);
        i += 1;
    }
    vec![q, limb, pos, mask]
}

/// The program slot of each row: its step modulo the program's length, zero on padding.
pub fn generate_pc_in_prog_preprocessed(rows: &[Row], padded_rows: usize, n_gates: usize) -> (vals: Vec<
    u32,
>)
    requires
        0 < n_gates <= u32::MAX,
        rows@.len() <= padded_rows,
    ensures
        vals@.len() == padded_rows,
        forall|i: int|
            0 <= i < padded_rows ==> #[trigger] vals@[i] == (if i < rows@.len() {
                rows@[i].pc as int % n_gates as int
            } else {
                0
            }),
{
    let ng: u32 = n_gates as u32;
    let mut vals: Vec<u32> = Vec::new();
    let mut i: usize = 0;
    while i < padded_rows
        invariant
            i <= padded_rows,
            0 < ng == n_gates,
            vals@.len() == i,
            forall|j: int|
                0 <= j < i ==> #[trigger] vals@[j] == (if j < rows@.len() {
                    rows@[j].pc as int % n_gates as int
                } else {
                    0
                }),
        decreases padded_rows - i,
    {
        vals.push(if i < rows.len() { rows[i].pc % ng } else { 0 });
        i += 1;
    }
    vals
}

/// The limb that a read's selectors pick.
pub open spec fn selected_limb(t: Seq<Ext>, o: int) -> Ext {
    sum(32, |j: int| t[o + 4 + j] * t[7 + j])
}

/// The constraints of the read at `o`: the selectors are bits, they sum to
/// `active` and point at the read's limb; the selected limb splits into its
/// parts; the qubit is a bit, and zero where the read is not made.
pub open spec fn read_checks(t: Seq<Ext>, o: int, active: Ext) -> Seq<Ext> {
    let (mask, lo, hi, bit) = (t[o + 3], t[o + 36], t[o + 37], t[o + 38]);
    Seq::new(32, |j: int| bool_check(t[o + 4 + j])) + seq![
        sum(32, |j: int| t[o + 4 + j]) - active,
        sum(32, |j: int| t[o + 4 + j] * Ext::base(j)) - t[o + 1],
        ((selected_limb(t, o) - (hi * mask) * Ext::base(2)) - bit * mask) - lo,
        bool_check(bit),
        (Ext::one() - active) * bit,
    ]
}

/// All constraints of a row, in order.
pub open spec fn row_checks(t: Seq<Ext>) -> Seq<Ext> {
    let (en, nop, not, cnot, tof) = (t[0], t[1], t[2], t[3], t[4]);
    let (a_bit, b_bit, t_bit) = (t[CTRL_A_OFF + 38], t[CTRL_B_OFF + 38], t[TARGET_OFF + 38]);
    let (ab, fire, delta) = (t[188], t[189], t[190]);
    seq![
        bool_check(nop),
        bool_check(not),
        bool_check(cnot),
        bool_check(tof),
        (((en - nop) - not) - cnot) - tof,
    ] + read_checks(t, TARGET_OFF as int, en) + read_checks(t, CTRL_A_OFF as int, cnot + tof)
        + read_checks(t, CTRL_B_OFF as int, tof) + seq![
        ab - a_bit * b_bit,
        ((fire - not) - cnot * a_bit) - tof * ab,
        (delta - fire) + (t_bit * fire) * Ext::base(2),
    ] + Seq::new(
        32,
        |j: int| (t[39 + j] - t[7 + j]) - (t[TARGET_OFF + 4 + j] * delta) * t[TARGET_OFF + 3],
    )
}

fn exec_bool_check(v: QM31) -> (r: QM31)
    ensures
        r.wf(),
        r@ == bool_check(v@),
{
    v.times(v.minus(QM31::one()))
}

/// The constraints of the read at `o`.
fn read_constraints(t: &[QM31], o: usize, active: QM31) -> (out: Vec<QM31>)
    requires
        t@.len() == TRACE_COLUMNS,
        o == TARGET_OFF || o == CTRL_A_OFF || o == CTRL_B_OFF,
    ensures
        views(out@) == read_checks(views(t@), o as int, active@),
{
    let ghost v = views(t@);
    let ghost fs = |j: int| v[o + 4 + j];
    let ghost fw = |j: int| v[o + 4 + j] * Ext::base(j);
    let ghost fl = |j: int| v[o + 4 + j] * v[7 + j];
    let mut out: Vec<QM31> = Vec::new();
    let mut total: QM31 = QM31::zero();
    let mut weighted: QM31 = QM31::zero();
    let mut l: QM31 = QM31::zero();
    let mut j: usize = 0;
    while j < N_LIMBS
        invariant
            j <= N_LIMBS,
            t@.len() == TRACE_COLUMNS,
            o == TARGET_OFF || o == CTRL_A_OFF || o == CTRL_B_OFF,
            v == views(t@),
            out@.len() == j,
            forall|i: int| 0 <= i < j ==> (#[trigger] out@[i])@ == bool_check(v[o + 4 + i]),
            fs == (|j: int| v[o + 4 + j]),
            fw == (|j: int| v[o + 4 + j] * Ext::base(j)),
            fl == (|j: int| v[o + 4 + j] * v[7 + j]),
            total@ == sum(j as nat, fs),
            weighted@ == sum(j as nat, fw),
            l@ == sum(j as nat, fl),
        decreases N_LIMBS - j,
    {
        let s: QM31 = t[o + 4 + j];
        out.push(exec_bool_check(s));
        total = total.plus(s);
        weighted = weighted.plus(s.times(QM31::from_base(j as u32)));
        l = l.plus(s.times(t[7 + j]));
        j += 1;
    }
    let (mask, lo, hi, bit) = (t[o + 3], t[o + 36], t[o + 37], t[o + 38]);
    out.push(total.minus(active));
    out.push(weighted.minus(t[o + 1]));
    out.push(
        l.minus(hi.times(mask).times(QM31::from_base(2))).minus(bit.times(mask)).minus(lo),
    );
    out.push(exec_bool_check(bit));
    out.push(QM31::one().minus(active).times(bit));
    assert(views(out@) =~= read_checks(v, o as int, active@));
    out
}

/// One lookup of a row: its relation, its multiplicity and its tuple.
pub struct Entry {
    pub id: RelationId,
    pub multiplicity: QM31,
    pub values: Vec<QM31>,
}

/// The model of an [`Entry`].
#[verifier::ext_equal]
pub ghost struct EntryView {
    pub id: RelationId,
    pub multiplicity: Ext,
    pub values: Seq<Ext>,
}

impl View for Entry {
    type V = EntryView;

    open spec fn view(&self) -> EntryView {
        EntryView { id: self.id, multiplicity: self.multiplicity@, values: views(self.values@) }
    }
}

pub open spec fn entry_views(s: Seq<Entry>) -> Seq<EntryView> {
    Seq::new(s.len(), |i: int| s[i]@)
}

pub open spec fn qdecode_entry(t: Seq<Ext>, o: int, m: Ext) -> EntryView {
    EntryView {
        id: RelationId::QDecode,
        multiplicity: m,
        values: seq![t[o], t[o + 1], t[o + 2], t[o + 3]],
    }
}

pub open spec fn lo_entry(t: Seq<Ext>, o: int, m: Ext) -> EntryView {
    EntryView { id: RelationId::RcLo, multiplicity: m, values: seq![t[o + 2], t[o + 36]] }
}

pub open spec fn hi_entry(t: Seq<Ext>, o: int, m: Ext) -> EntryView {
    EntryView { id: RelationId::RcHi, multiplicity: m, values: seq![t[o + 2], t[o + 37]] }
}

/// The twelve lookups of a row, from its columns and its program slot.
pub open spec fn row_entries(slot: Ext, t: Seq<Ext>) -> Seq<EntryView> {
    let (en, a, b) = (t[0], t[3] + t[4], t[4]);
    let (ot, oa, ob) = (TARGET_OFF as int, CTRL_A_OFF as int, CTRL_B_OFF as int);
    seq![
        EntryView {
            id: RelationId::State,
            multiplicity: en,
            values: seq![t[5], t[6]] + t.subrange(7, 39),
        },
        EntryView {
            id: RelationId::State,
            multiplicity: -en,
            values: seq![t[5], t[6] + Ext::one()] + t.subrange(39, 71),
        },
        qdecode_entry(t, ot, en),
        qdecode_entry(t, oa, a),
        qdecode_entry(t, ob, b),
        lo_entry(t, ot, en),
        hi_entry(t, ot, en),
        lo_entry(t, oa, a),
        hi_entry(t, oa, a),
        lo_entry(t, ob, b),
        hi_entry(t, ob, b),
        EntryView {
            id: RelationId::Program,
            multiplicity: en,
            values: seq![
                slot,
                (t[2] + t[3] * Ext::base(2)) + t[4] * Ext::base(3),
                t[ot],
                t[oa],
                t[ob],
            ],
        },
    ]
}

/// Two leading values and the columns `[from, from + 32)`.
fn state_values(t: &[QM31], first: QM31, second: QM31, from: usize) -> (r: Vec<QM31>)
    requires
        t@.len() == TRACE_COLUMNS,
        from == 7 || from == 39,
    ensures
        views(r@) == seq![first@, second@] + views(t@).subrange(from as int, from + 32),
{
    let mut r: Vec<QM31> = vec![first, second];
    let mut j: usize = 0;
    while j < N_LIMBS
        invariant
            j <= N_LIMBS,
            t@.len() == TRACE_COLUMNS,
            from == 7 || from == 39,
            r@.len() == 2 + j,
            r@[0] == first,
            r@[1] == second,
            forall|i: int| 2 <= i < 2 + j ==> #[trigger] r@[i] == t@[from + i - 2],
        decreases N_LIMBS - j,
    {
        r.push(t[from + j]);
        j += 1;
    }
    assert(views(r@) =~= seq![first@, second@] + views(t@).subrange(from as int, from + 32));
    r
}

fn push_entry(out: &mut Vec<Entry>, id: RelationId, multiplicity: QM31, values: Vec<QM31>)
    ensures
        entry_views(final(out)@) == entry_views(old(out)@).push(
            EntryView { id, multiplicity: multiplicity@, values: views(values@) },
        ),
{
    out.push(Entry { id, multiplicity, values });
    assert(entry_views(out@) =~= entry_views(old(out)@).push(
        EntryView { id, multiplicity: multiplicity@, values: views(values@) },
    ));
}

fn push_qdecode(out: &mut Vec<Entry>, t: &[QM31], o: usize, m: QM31)
    requires
        t@.len() == TRACE_COLUMNS,
        o <= CTRL_B_OFF,
    ensures
        entry_views(final(out)@) == entry_views(old(out)@).push(
            qdecode_entry(views(t@), o as int, m@),
        ),
{
    let values: Vec<QM31> = vec![t[o], t[o + 1], t[o + 2], t[o + 3]];
    assert(views(values@) =~= qdecode_entry(views(t@), o as int, m@).values);
    push_entry(out, RelationId::QDecode, m, values);
}

fn push_rc(out: &mut Vec<Entry>, t: &[QM31], o: usize, m: QM31)
    requires
        t@.len() == TRACE_COLUMNS,
        o <= CTRL_B_OFF,
    ensures
        entry_views(final(out)@) == entry_views(old(out)@).push(
            lo_entry(views(t@), o as int, m@),
        ).push(hi_entry(views(t@), o as int, m@)),
{
    let lo: Vec<QM31> = vec![t[o + 2], t[o + 36]];
    assert(views(lo@) =~= lo_entry(views(t@), o as int, m@).values);
    push_entry(out, RelationId::RcLo, m, lo);
    let hi: Vec<QM31> = vec![t[o + 2], t[o + 37]];
    assert(views(hi@) =~= hi_entry(views(t@), o as int, m@).values);
    push_entry(out, RelationId::RcHi, m, hi);
}

/// What evaluating a row yields: the constraints' values and the lookups.
pub struct Evaluation {
    pub constraints: Vec<QM31>,
    pub entries: Vec<Entry>,
}

/// Evaluates the constraints and lookups of the main trace on the columns of a
/// row, or on their values at any point.
pub fn evaluate(slot: QM31, t: &[QM31]) -> (r: Evaluation)
    requires
        t@.len() == TRACE_COLUMNS,
    ensures
        views(r.constraints@) == row_checks(views(t@)),
        entry_views(r.entries@) == row_entries(slot@, views(t@)),
{
    let ghost v = views(t@);
    let (en, nop, not, cnot, tof) = (t[0], t[1], t[2], t[3], t[4]);
    let a_active: QM31 = cnot.plus(tof);
    let (a_bit, b_bit, t_bit) = (t[148], t[187], t[109]);
    let (ab, fire, delta) = (t[188], t[189], t[190]);
    let two: QM31 = QM31::from_base(2);

    let mut constraints: Vec<QM31> = vec![
        exec_bool_check(nop),
        exec_bool_check(not),
        exec_bool_check(cnot),
        exec_bool_check(tof),
        en.minus(nop).minus(not).minus(cnot).minus(tof),
    ];
    let mut rt: Vec<QM31> = read_constraints(t, TARGET_OFF, en);
    let mut ra: Vec<QM31> = read_constraints(t, CTRL_A_OFF, a_active);
    let mut rb: Vec<QM31> = read_constraints(t, CTRL_B_OFF, tof);
    let ghost (ht, ha, hb) = (rt@, ra@, rb@);
    let ghost head = constraints@;
    constraints.append(&mut rt);
    constraints.append(&mut ra);
    constraints.append(&mut rb);
    let mut gate: Vec<QM31> = vec![
        ab.minus(a_bit.times(b_bit)),
        fire.minus(not).minus(cnot.times(a_bit)).minus(tof.times(ab)),
        delta.minus(fire).plus(t_bit.times(fire).times(two)),
    ];
    let ghost hg = gate@;
    constraints.append(&mut gate);
    let ghost before = constraints@;
    let mut j: usize = 0;
    while j < N_LIMBS
        invariant
            j <= N_LIMBS,
            t@.len() == TRACE_COLUMNS,
            v == views(t@),
            delta@ == v[190],
            constraints@.len() == before.len() + j,
            forall|i: int| 0 <= i < before.len() ==> #[trigger] constraints@[i] == before[i],
            forall|i: int|
                before.len() <= i < before.len() + j ==> (#[trigger] constraints@[i])@ == (v[39 + i
                    - before.len()] - v[7 + i - before.len()]) - (v[75 + i - before.len()] * v[190])
                    * v[74],
        decreases N_LIMBS - j,
    {
        constraints.push(
            t[39 + j].minus(t[7 + j]).minus(t[75 + j].times(delta).times(t[74])),
        );
        j += 1;
    }
    proof {
        lemma_views_add(head, ht);
        lemma_views_add(head + ht, ha);
        lemma_views_add(head + ht + ha, hb);
        lemma_views_add(head + ht + ha + hb, hg);
        let tail = Seq::new(
            32,
            |j: int| (v[39 + j] - v[7 + j]) - (v[TARGET_OFF + 4 + j] * v[190]) * v[TARGET_OFF + 3],
        );
        assert(views(constraints@) =~= views(before) + tail);
        assert(views(head) =~= seq![
            bool_check(v[1]),
            bool_check(v[2]),
            bool_check(v[3]),
            bool_check(v[4]),
            (((v[0] - v[1]) - v[2]) - v[3]) - v[4],
        ]);
        assert(views(hg) =~= seq![
            v[188] - v[148] * v[187],
            ((v[189] - v[2]) - v[3] * v[148]) - v[4] * v[188],
            (v[190] - v[189]) + (v[109] * v[189]) * Ext::base(2),
        ]);
        assert(views(constraints@) == row_checks(v));
    }

    let mut entries: Vec<Entry> = Vec::new();
    assert(entry_views(entries@) =~= Seq::<EntryView>::empty());
    push_entry(&mut entries, RelationId::State, en, state_values(t, t[5], t[6], 7));
    push_entry(
        &mut entries,
        RelationId::State,
        en.negate(),
        state_values(t, t[5], t[6].plus(QM31::one()), 39),
    );
    push_qdecode(&mut entries, t, TARGET_OFF, en);
    push_qdecode(&mut entries, t, CTRL_A_OFF, a_active);
    push_qdecode(&mut entries, t, CTRL_B_OFF, tof);
    push_rc(&mut entries, t, TARGET_OFF, en);
    push_rc(&mut entries, t, CTRL_A_OFF, a_active);
    push_rc(&mut entries, t, CTRL_B_OFF, tof);
    let prog: Vec<QM31> = vec![
        slot,
        not.plus(cnot.times(two)).plus(tof.times(QM31::from_base(3))),
        t[71],
        t[110],
        t[149],
    ];
    assert(views(prog@) =~= row_entries(slot@, v)[11].values);
    push_entry(&mut entries, RelationId::Program, en, prog);
    assert(entry_views(entries@) =~= row_entries(slot@, v));
    Evaluation { constraints, entries }
}

pub proof fn lemma_views_add(a: Seq<QM31>, b: Seq<QM31>)
    ensures
        views(a + b) == views(a) + views(b),
{
    assert(views(a + b) =~= views(a) + views(b));
}

proof fn lemma_all_zero_add(a: Seq<Ext>, b: Seq<Ext>)
    requires
        all_zero(a),
        all_zero(b),
    ensures
        all_zero(a + b),
{
    assert forall|i: int| 0 <= i < (a + b).len() implies #[trigger] (a + b)[i] == Ext::zero() by {
        if i < a.len() {
            assert((a + b)[i] == a[i]);
        } else {
            assert((a + b)[i] == b[i - a.len()]);
        }
    }
}

proof fn lemma_bool_check_bit(v: int)
    requires
        v == 0 || v == 1,
    ensures
        bool_check(Ext::base(v)) == Ext::zero(),
{
    lemma_base_add(v, 1);
    lemma_base_mul(v, v - 1);
    assert(v * (v - 1) == 0) by (nonlinear_arith)
        requires
            v == 0 || v == 1,
    ;
}

/// A sum over selectors that are one at `k` and zero elsewhere picks the `k`-th value.
proof fn lemma_one_hot_sum(sel: spec_fn(int) -> Ext, y: spec_fn(int) -> Ext, f: spec_fn(int) -> Ext, k: int)
    requires
        0 <= k < 32,
        y(k).wf(),
        forall|j: int|
            0 <= j < 32 ==> #[trigger] sel(j) == (if j == k { Ext::one() } else { Ext::zero() }),
        forall|j: int| 0 <= j < 32 ==> #[trigger] f(j) == sel(j) * y(j),
    ensures
        sum(32, f) == y(k),
{
    lemma_mul_one(y(k));
    assert(f(k) == sel(k) * y(k));
    assert forall|j: int| 0 <= j < 32 && j != k implies #[trigger] f(j) == Ext::zero() by {
        assert(f(j) == sel(j) * y(j));
        lemma_mul_zero(y(j));
    }
    lemma_sum_single(32, k, f);
}

/// The cells of the read at `o` are those of `r`.
pub open spec fn read_at(t: Seq<Ext>, o: int, r: ReadCols) -> bool {
    &&& t[o] == Ext::base(r.q as int)
    &&& t[o + 1] == Ext::base(r.limb_idx as int)
    &&& t[o + 2] == Ext::base(r.bit_pos as int)
    &&& t[o + 3] == Ext::base(r.mask as int)
    &&& forall|j: int| 0 <= j < 32 ==> #[trigger] t[o + 4 + j] == Ext::base(r.lsel@[j] as int)
    &&& t[o + 36] == Ext::base(r.lo as int)
    &&& t[o + 37] == Ext::base(r.hi as int)
    &&& t[o + 38] == Ext::base(r.bit as int)
}

/// A read that is made meets its constraints.
proof fn lemma_live_read(t: Seq<Ext>, o: int, r: ReadCols, limbs: Seq<u32>, q: int)
    requires
        read_at(t, o, r),
        r.reads(limbs, q),
        0 <= q < N_QUBITS,
        limbs.len() == 32,
        forall|j: int| 0 <= j < 32 ==> #[trigger] t[7 + j] == Ext::base(limbs[j] as int),
    ensures
        all_zero(read_checks(t, o, Ext::one())),
{
    let k = q / 16;
    let l = limbs[k] as int;
    let sel = |j: int| t[o + 4 + j];
    lemma_base_add(0, 1);
    assert forall|j: int| 0 <= j < 32 implies #[trigger] sel(j) == (if j == k {
        Ext::one()
    } else {
        Ext::zero()
    }) by {
        assert(t[o + 4 + j] == Ext::base(r.lsel@[j] as int));
        assert(r.lsel@[j] == (if j == k { 1u32 } else { 0u32 }));
    }
    let ones = |j: int| Ext::one();
    let idx = |j: int| Ext::base(j);
    let lim = |j: int| t[7 + j];
    let fs = |j: int| t[o + 4 + j];
    let fw = |j: int| t[o + 4 + j] * Ext::base(j);
    let fl = |j: int| t[o + 4 + j] * t[7 + j];
    assert forall|j: int| 0 <= j < 32 implies #[trigger] fs(j) == sel(j) * ones(j) by {
        assert(sel(j) == (if j == k { Ext::one() } else { Ext::zero() }));
        lemma_mul_one(sel(j));
    }
    lemma_one_hot_sum(sel, ones, fs, k);
    lemma_one_hot_sum(sel, idx, fw, k);
    assert(t[7 + k] == Ext::base(l));
    lemma_one_hot_sum(sel, lim, fl, k);
    let (m, lo, hi, bit) = (r.mask as int, r.lo as int, r.hi as int, r.bit as int);
    lemma_split(limbs[k], r.bit_pos);
    // l == hi * 2 * m + bit * m + lo
    assert(hi * (2 * m) == (hi * m) * 2) by (nonlinear_arith);
    lemma_base_mul(hi, m);
    lemma_base_mul(hi * m, 2);
    lemma_base_mul(bit, m);
    lemma_base_add(l, hi * m * 2);
    lemma_base_add(l - hi * m * 2, bit * m);
    lemma_base_add(l - hi * m * 2 - bit * m, lo);
    crate::field::lemma_sub_self(Ext::one());
    crate::field::lemma_sub_self(Ext::base(k));
    lemma_bool_check_bit(bit);
    lemma_mul_zero(Ext::base(bit));
    let c = read_checks(t, o, Ext::one());
    assert forall|i: int| 0 <= i < c.len() implies #[trigger] c[i] == Ext::zero() by {
        if i < 32 {
            assert(sel(i) == (if i == k { Ext::one() } else { Ext::zero() }));
            lemma_bool_check_bit(0);
            lemma_bool_check_bit(1);
        }
    }
}

/// A read that is not made meets its constraints.
proof fn lemma_idle_read(t: Seq<Ext>, o: int, r: ReadCols)
    requires
        read_at(t, o, r),
        r.is_inactive(),
    ensures
        all_zero(read_checks(t, o, Ext::zero())),
{
    lemma_base_add(0, 0);
    let fs = |j: int| t[o + 4 + j];
    let fw = |j: int| t[o + 4 + j] * Ext::base(j);
    let fl = |j: int| t[o + 4 + j] * t[7 + j];
    assert forall|j: int| 0 <= j < 32 implies #[trigger] t[o + 4 + j] == Ext::zero() by {
        assert(r.lsel@[j] == 0);
    }
    assert forall|j: int| 0 <= j < 32 implies #[trigger] fw(j) == Ext::zero() by {
        assert(t[o + 4 + j] == Ext::zero());
        lemma_mul_zero(Ext::base(j));
    }
    assert forall|j: int| 0 <= j < 32 implies #[trigger] fl(j) == Ext::zero() by {
        assert(t[o + 4 + j] == Ext::zero());
        lemma_mul_zero(t[7 + j]);
    }
    lemma_sum_zero(32, fs);
    lemma_sum_zero(32, fw);
    lemma_sum_zero(32, fl);
    lemma_mul_zero(Ext::base(1));
    lemma_mul_zero(Ext::base(2));
    lemma_mul_zero(Ext::one() - Ext::zero());
    crate::field::lemma_sub_self(Ext::zero());
    lemma_bool_check_bit(0);
    let c = read_checks(t, o, Ext::zero());
    assert forall|i: int| 0 <= i < c.len() implies #[trigger] c[i] == Ext::zero() by {
        if i < 32 {
            assert(t[o + 4 + i] == Ext::zero());
        }
    }
}

/// The columns of a row, seen through its cells.
proof fn lemma_cells(row: Row, t: Seq<Ext>)
    requires
        t == embed(row_cells(row)),
    ensures
        t[0] == Ext::base(row.enabler as int),
        t[1] == Ext::base(row.is_nop as int),
        t[2] == Ext::base(row.is_not as int),
        t[3] == Ext::base(row.is_cnot as int),
        t[4] == Ext::base(row.is_toffoli as int),
        t[5] == Ext::base(row.shot_id as int),
        t[6] == Ext::base(row.pc as int),
        forall|j: int| 0 <= j < 32 ==> #[trigger] t[7 + j] == Ext::base(row.in_limb@[j] as int),
        forall|j: int| 0 <= j < 32 ==> #[trigger] t[39 + j] == Ext::base(row.out_limb@[j] as int),
        read_at(t, TARGET_OFF as int, row.target),
        read_at(t, CTRL_A_OFF as int, row.ctrl_a),
        read_at(t, CTRL_B_OFF as int, row.ctrl_b),
        t[188] == Ext::base(row.ab as int),
        t[189] == Ext::base(row.fire as int),
        t[190] == Ext::base(row.delta as int),
{
    let c = row_cells(row);
    lemma_read_cells(c, TARGET_OFF as int, row.target);
    lemma_read_cells(c, CTRL_A_OFF as int, row.ctrl_a);
    lemma_read_cells(c, CTRL_B_OFF as int, row.ctrl_b);
    assert forall|j: int| 0 <= j < 32 implies #[trigger] t[7 + j] == Ext::base(
        row.in_limb@[j] as int,
    ) by {
        assert(c[7 + j] == row.in_limb@[j]);
    }
    assert forall|j: int| 0 <= j < 32 implies #[trigger] t[39 + j] == Ext::base(
        row.out_limb@[j] as int,
    ) by {
        assert(c[39 + j] == row.out_limb@[j]);
    }
}

proof fn lemma_read_cells(c: Seq<u32>, o: int, r: ReadCols)
    requires
        0 <= o,
        o + 39 <= c.len(),
        forall|j: int| 0 <= j < 39 ==> c[o + j] == #[trigger] read_cells(r)[j],
    ensures
        read_at(embed(c), o, r),
{
    let v = read_cells(r);
    assert(c[o] == v[0] && c[o + 1] == v[1] && c[o + 2] == v[2] && c[o + 3] == v[3]);
    assert(c[o + 36] == v[36] && c[o + 37] == v[37] && c[o + 38] == v[38]);
    assert forall|j: int| 0 <= j < 32 implies #[trigger] embed(c)[o + 4 + j] == Ext::base(
        r.lsel@[j] as int,
    ) by {
        assert(c[o + (4 + j)] == v[4 + j]);
    }
}

/// The opcode and gate-logic constraints of a row, over small integers.
proof fn lemma_gate_checks(en: int, nop: int, not: int, cnot: int, tof: int, a: int, b: int, tb: int, ab: int, fire: int, delta: int)
    requires
        en == nop + not + cnot + tof,
        nop == 0 || nop == 1,
        not == 0 || not == 1,
        cnot == 0 || cnot == 1,
        tof == 0 || tof == 1,
        ab == a * b,
        fire == not + cnot * a + tof * ab,
        delta == fire - 2 * (tb * fire),
    ensures
        bool_check(Ext::base(nop)) == Ext::zero(),
        bool_check(Ext::base(not)) == Ext::zero(),
        bool_check(Ext::base(cnot)) == Ext::zero(),
        bool_check(Ext::base(tof)) == Ext::zero(),
        (((Ext::base(en) - Ext::base(nop)) - Ext::base(not)) - Ext::base(cnot)) - Ext::base(tof)
            == Ext::zero(),
        Ext::base(ab) - Ext::base(a) * Ext::base(b) == Ext::zero(),
        ((Ext::base(fire) - Ext::base(not)) - Ext::base(cnot) * Ext::base(a)) - Ext::base(tof)
            * Ext::base(ab) == Ext::zero(),
        (Ext::base(delta) - Ext::base(fire)) + (Ext::base(tb) * Ext::base(fire)) * Ext::base(2)
            == Ext::zero(),
{
    lemma_bool_check_bit(nop);
    lemma_bool_check_bit(not);
    lemma_bool_check_bit(cnot);
    lemma_bool_check_bit(tof);
    lemma_base_add(en, nop);
    lemma_base_add(en - nop, not);
    lemma_base_add(en - nop - not, cnot);
    lemma_base_add(en - nop - not - cnot, tof);
    lemma_base_mul(a, b);
    lemma_base_add(ab, a * b);
    lemma_base_mul(cnot, a);
    lemma_base_mul(tof, ab);
    lemma_base_add(fire, not);
    lemma_base_add(fire - not, cnot * a);
    lemma_base_add(fire - not - cnot * a, tof * ab);
    lemma_base_mul(tb, fire);
    lemma_base_mul(tb * fire, 2);
    lemma_base_add(delta, fire);
    lemma_base_add(delta - fire, tb * fire * 2);
}

/// A flipped bit's difference, as the base field holds it.
proof fn lemma_delta_base(bit: bool, fire: bool)
    ensures
        Ext::base(crate::whole_state::flip_delta(bit, fire) as int) == Ext::base(
            flag(fire) - 2 * (flag(bit) * flag(fire)),
        ),
{
    assert(flag(bit) * flag(fire) == (if bit && fire { 1int } else { 0int })) by (nonlinear_arith)
        requires
            flag(bit) == (if bit { 1u32 } else { 0u32 }),
            flag(fire) == (if fire { 1u32 } else { 0u32 }),
    ;
    assert((P - 1) % (P as int) == (-1int) % (P as int)) by (nonlinear_arith);
}

/// Honest rows meet every constraint: the row of a gate that is run in some
/// state evaluates to zero throughout.
pub proof fn lemma_gate_row_satisfies(row: Row, g: Gate, s: Seq<bool>, shot: int, pc: int)
    requires
        row.steps(g, s, shot, pc),
        g.known(),
        g.operands_ok(),
    ensures
        all_zero(row_checks(embed(row_cells(row)))),
{
    let t = embed(row_cells(row));
    lemma_cells(row, t);
    lemma_base_add(0, 1);
    let (en, nop, not, cnot, tof) = (
        row.enabler as int,
        row.is_nop as int,
        row.is_not as int,
        row.is_cnot as int,
        row.is_toffoli as int,
    );
    lemma_base_add(cnot, tof);
    lemma_live_read(t, TARGET_OFF as int, row.target, row.in_limb@, g.target as int);
    if g.a_active() {
        lemma_live_read(t, CTRL_A_OFF as int, row.ctrl_a, row.in_limb@, g.ctrl_a as int);
    } else {
        lemma_idle_read(t, CTRL_A_OFF as int, row.ctrl_a);
    }
    if g.b_active() {
        lemma_live_read(t, CTRL_B_OFF as int, row.ctrl_b, row.in_limb@, g.ctrl_b as int);
    } else {
        lemma_idle_read(t, CTRL_B_OFF as int, row.ctrl_b);
    }
    crate::whole_state::lemma_row_bits(row, g, s, shot, pc);
    let fires = g.fires(s);
    let tb = s[g.target as int];
    let (a, b) = (row.ctrl_a.bit as int, row.ctrl_b.bit as int);
    let ab = row.ab as int;
    let d = flag(fires) - 2 * (flag(tb) * flag(fires));
    assert(row.fire == not + cnot * a + tof * ab) by {
        if not == 1 {
            assert(cnot * a == 0 && tof * ab == 0) by (nonlinear_arith)
                requires
                    cnot == 0,
                    tof == 0,
            ;
        } else if cnot == 1 {
            assert(cnot * a == a && tof * ab == 0) by (nonlinear_arith)
                requires
                    cnot == 1,
                    tof == 0,
            ;
        } else if tof == 1 {
            assert(cnot * a == 0 && tof * ab == ab) by (nonlinear_arith)
                requires
                    cnot == 0,
                    tof == 1,
            ;
            assert(a * b == (if a == 1 && b == 1 { 1int } else { 0int })) by (nonlinear_arith)
                requires
                    a == 0 || a == 1,
                    b == 0 || b == 1,
            ;
        } else {
            assert(cnot * a == 0 && tof * ab == 0) by (nonlinear_arith)
                requires
                    cnot == 0,
                    tof == 0,
            ;
        }
    }
    lemma_delta_base(tb, fires);
    lemma_gate_checks(en, nop, not, cnot, tof, a, b, row.target.bit as int, ab, row.fire as int, d);
    let head = seq![
        bool_check(t[1]),
        bool_check(t[2]),
        bool_check(t[3]),
        bool_check(t[4]),
        (((t[0] - t[1]) - t[2]) - t[3]) - t[4],
    ];
    let gate = seq![
        t[188] - t[CTRL_A_OFF + 38] * t[CTRL_B_OFF + 38],
        ((t[189] - t[2]) - t[3] * t[CTRL_A_OFF + 38]) - t[4] * t[188],
        (t[190] - t[189]) + (t[TARGET_OFF + 38] * t[189]) * Ext::base(2),
    ];
    let tail = Seq::new(
        32,
        |j: int| (t[39 + j] - t[7 + j]) - (t[TARGET_OFF + 4 + j] * t[190]) * t[TARGET_OFF + 3],
    );
    assert(all_zero(head));
    assert(all_zero(gate));
    assert forall|j: int| 0 <= j < 32 implies #[trigger] tail[j] == Ext::zero() by {
        assert(t[39 + j] == Ext::base(row.out_limb@[j] as int));
        assert(t[7 + j] == Ext::base(row.in_limb@[j] as int));
        assert(t[TARGET_OFF + 4 + j] == Ext::base(row.target.lsel@[j] as int));
        lemma_write_check(row, g, s, shot, pc, j, d);
    }
    lemma_all_zero_add(head, read_checks(t, TARGET_OFF as int, t[0]));
    let c1 = head + read_checks(t, TARGET_OFF as int, t[0]);
    lemma_all_zero_add(c1, read_checks(t, CTRL_A_OFF as int, t[3] + t[4]));
    let c2 = c1 + read_checks(t, CTRL_A_OFF as int, t[3] + t[4]);
    lemma_all_zero_add(c2, read_checks(t, CTRL_B_OFF as int, t[4]));
    let c3 = c2 + read_checks(t, CTRL_B_OFF as int, t[4]);
    lemma_all_zero_add(c3, gate);
    lemma_all_zero_add(c3 + gate, tail);
    assert(row_checks(t) == c3 + gate + tail);
}

/// The limb written and the limbs kept.
proof fn lemma_write_check(row: Row, g: Gate, s: Seq<bool>, shot: int, pc: int, j: int, d: int)
    requires
        row.steps(g, s, shot, pc),
        g.operands_ok(),
        0 <= j < 32,
        d == flag(g.fires(s)) - 2 * (flag(s[g.target as int]) * flag(g.fires(s))),
    ensures
        (Ext::base(row.out_limb@[j] as int) - Ext::base(row.in_limb@[j] as int)) - (Ext::base(
            row.target.lsel@[j] as int,
        ) * Ext::base(d)) * Ext::base(row.target.mask as int) == Ext::zero(),
{
    let (o, i, sel, m) = (
        row.out_limb@[j] as int,
        row.in_limb@[j] as int,
        row.target.lsel@[j] as int,
        row.target.mask as int,
    );
    crate::whole_state::lemma_row_bits(row, g, s, shot, pc);
    assert(sel == (if j == g.target as int / 16 { 1int } else { 0int }));
    lemma_delta_base(s[g.target as int], g.fires(s));
    assert(o - i == (sel * d) * m) by {
        assert(flag(s[g.target as int]) * flag(g.fires(s)) == (if s[g.target as int] && g.fires(s) {
            1int
        } else {
            0int
        })) by (nonlinear_arith)
            requires
                flag(s[g.target as int]) == 0 || flag(s[g.target as int]) == 1,
                flag(g.fires(s)) == 0 || flag(g.fires(s)) == 1,
                flag(s[g.target as int]) == (if s[g.target as int] { 1u32 } else { 0u32 }),
                flag(g.fires(s)) == (if g.fires(s) { 1u32 } else { 0u32 }),
        ;
        assert((sel * d) * m == (if sel == 0 || d == 0 {
            0
        } else if d == 1 {
            m
        } else {
            -m
        })) by (nonlinear_arith)
            requires
                sel == 0 || sel == 1,
                d == 0 || d == 1 || d == -1,
        ;
    }
    lemma_base_mul(sel, d);
    lemma_base_mul(sel * d, m);
    lemma_base_add(o, i);
    lemma_base_add(o - i, sel * d * m);
    lemma_base_add(0, 0);
}

/// Padding meets every constraint.
pub proof fn lemma_padding_satisfies(row: Row)
    requires
        row.is_padding(),
    ensures
        all_zero(row_checks(embed(row_cells(row)))),
{
    let t = embed(row_cells(row));
    lemma_cells(row, t);
    lemma_base_add(0, 0);
    lemma_idle_read(t, TARGET_OFF as int, row.target);
    lemma_idle_read(t, CTRL_A_OFF as int, row.ctrl_a);
    lemma_idle_read(t, CTRL_B_OFF as int, row.ctrl_b);
    lemma_gate_checks(0, 0, 0, 0, 0, 0, 0, 0, 0, 0, 0);
    lemma_add_zero(Ext::zero());
    let head = seq![
        bool_check(t[1]),
        bool_check(t[2]),
        bool_check(t[3]),
        bool_check(t[4]),
        (((t[0] - t[1]) - t[2]) - t[3]) - t[4],
    ];
    let gate = seq![
        t[188] - t[CTRL_A_OFF + 38] * t[CTRL_B_OFF + 38],
        ((t[189] - t[2]) - t[3] * t[CTRL_A_OFF + 38]) - t[4] * t[188],
        (t[190] - t[189]) + (t[TARGET_OFF + 38] * t[189]) * Ext::base(2),
    ];
    let tail = Seq::new(
        32,
        |j: int| (t[39 + j] - t[7 + j]) - (t[TARGET_OFF + 4 + j] * t[190]) * t[TARGET_OFF + 3],
    );
    assert(all_zero(head));
    assert(all_zero(gate));
    assert forall|j: int| 0 <= j < 32 implies #[trigger] tail[j] == Ext::zero() by {
        assert(t[39 + j] == Ext::base(row.out_limb@[j] as int));
        assert(t[7 + j] == Ext::base(row.in_limb@[j] as int));
        assert(t[TARGET_OFF + 4 + j] == Ext::base(row.target.lsel@[j] as int));
        lemma_mul_zero(Ext::zero());
        lemma_mul_zero(t[TARGET_OFF + 3]);
        crate::field::lemma_sub_self(Ext::zero());
    }
    lemma_all_zero_add(head, read_checks(t, TARGET_OFF as int, t[0]));
    let c1 = head + read_checks(t, TARGET_OFF as int, t[0]);
    lemma_all_zero_add(c1, read_checks(t, CTRL_A_OFF as int, t[3] + t[4]));
    let c2 = c1 + read_checks(t, CTRL_A_OFF as int, t[3] + t[4]);
    lemma_all_zero_add(c2, read_checks(t, CTRL_B_OFF as int, t[4]));
    let c3 = c2 + read_checks(t, CTRL_B_OFF as int, t[4]);
    lemma_all_zero_add(c3, gate);
    lemma_all_zero_add(c3 + gate, tail);
    assert(row_checks(t) == c3 + gate + tail);
}

} // verus!
