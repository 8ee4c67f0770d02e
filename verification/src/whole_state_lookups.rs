//! The lookups of the whole-state encoding: what each row of the trace uses,
//! what the tables supply, and the sums that both sides claim.
use vstd::prelude::*;

use crate::circuit::{
    byte_limbs, lemma_state_limbs, state_limbs, state_to_limbs, TestCase, N_LIMBS, STATE_BYTES,
};
use crate::field::{
    lemma_add_sub, lemma_base_add, lemma_factor_invertible, lemma_mul_one, lemma_sub_swap, Ext, QM31,
};
use crate::hexes::{hex_bytes, hex_decode, is_hex};
use crate::logup::{Fraction, Relation};
use crate::transcript::{felts_drawn, Transcript};
use crate::sums::{lemma_sum_ext, lemma_sum_pairs, lemma_sum_swap, sum};
use crate::whole_state::{text_state, ReadCols, Row};

verus! {

/// A state tuple: the shot, the step, and the 32 limbs.
pub const STATE_WIDTH: usize = 34;

/// The columns of two fractions each that the main trace's lookups make.
pub const N_MAIN_PAIRS: usize = 6;

#[derive(Clone, Copy, Debug, PartialEq, Eq, Structural)]
pub enum RelationId {
    /// `(shot, step, limbs...)`.
    State,
    /// `(qubit, limb, bit position, weight)`.
    QDecode,
    /// `(bit position, low part)` and `(bit position, high part)`.
    RcLo,
    RcHi,
    /// `(slot, opcode, target, first control, second control)`.
    Program,
}

/// The challenges of the five relations.
pub struct LookupElements {
    pub state: Relation,
    pub qdecode: Relation,
    pub rc_lo: Relation,
    pub rc_hi: Relation,
    pub program: Relation,
}

impl LookupElements {
    pub open spec fn wf(&self) -> bool {
        &&& self.state.wf() && self.state.width() == STATE_WIDTH
        &&& self.qdecode.wf() && self.qdecode.width() == 4
        &&& self.rc_lo.wf() && self.rc_lo.width() == 2
        &&& self.rc_hi.wf() && self.rc_hi.width() == 2
        &&& self.program.wf() && self.program.width() == 5
    }

    /// The challenges are consecutive pairs of the first ten drawn elements.
    pub open spec fn drawn(&self, digest: Seq<u8>) -> bool {
        let f = felts_drawn(digest, 10);
        &&& self.state.z@ == f[0] && self.state.alpha@ == f[1]
        &&& self.qdecode.z@ == f[2] && self.qdecode.alpha@ == f[3]
        &&& self.rc_lo.z@ == f[4] && self.rc_lo.alpha@ == f[5]
        &&& self.rc_hi.z@ == f[6] && self.rc_hi.alpha@ == f[7]
        &&& self.program.z@ == f[8] && self.program.alpha@ == f[9]
    }

    /// Draws the challenges of the five relations, in order.
    pub fn draw(t: &Transcript) -> (r: LookupElements)
        ensures
            r.wf(),
            r.drawn(t.digest@),
    {
        let widths: Vec<usize> = vec![STATE_WIDTH, 4, 2, 2, 5];
        let mut rels: Vec<Relation> = t.draw_relations(widths.as_slice());
        proof {
            assert(rels@[0].wf() && rels@[1].wf() && rels@[2].wf() && rels@[3].wf()
                && rels@[4].wf());
        }
        let program: Relation = rels.swap_remove(4);
        let rc_hi: Relation = rels.swap_remove(3);
        let rc_lo: Relation = rels.swap_remove(2);
        let qdecode: Relation = rels.swap_remove(1);
        let state: Relation = rels.swap_remove(0);
        LookupElements { state, qdecode, rc_lo, rc_hi, program }
    }

    /// The denominator of a tuple in one of the relations.
    pub open spec fn den(&self, id: RelationId, t: Seq<u32>) -> Ext {
        match id {
            RelationId::State => self.state.den(t),
            RelationId::QDecode => self.qdecode.den(t),
            RelationId::RcLo => self.rc_lo.den(t),
            RelationId::RcHi => self.rc_hi.den(t),
            RelationId::Program => self.program.den(t),
        }
    }

    /// `mult` over the denominator of a tuple.
    pub open spec fn value(&self, id: RelationId, mult: int, t: Seq<u32>) -> Ext {
        Ext::base(mult) * self.den(id, t).inv()
    }
}

/// One lookup: a multiplicity and the tuple it is of.
pub ghost struct Use {
    pub id: RelationId,
    pub mult: int,
    pub tuple: Seq<u32>,
}

pub open spec fn state_seq(shot: u32, pc: u32, limbs: Seq<u32>) -> Seq<u32> {
    seq![shot, pc] + limbs
}

pub open spec fn qdecode_seq(r: ReadCols) -> Seq<u32> {
    seq![r.q, r.limb_idx, r.bit_pos, r.mask]
}

pub open spec fn lo_seq(r: ReadCols) -> Seq<u32> {
    seq![r.bit_pos, r.lo]
}

pub open spec fn hi_seq(r: ReadCols) -> Seq<u32> {
    seq![r.bit_pos, r.hi]
}

/// The program tuple that a row asks for.
pub open spec fn program_seq(row: Row, n_gates: int) -> Seq<u32> {
    seq![
        (row.pc as int % n_gates) as u32,
        (row.is_not + 2 * row.is_cnot + 3 * row.is_toffoli) as u32,
        row.target.q,
        row.ctrl_a.q,
        row.ctrl_b.q,
    ]
}

/// The twelve lookups of a row, in order.
pub open spec fn row_uses(row: Row, n_gates: int) -> Seq<Use> {
    let en = row.enabler as int;
    let a = row.is_cnot + row.is_toffoli;
    let b = row.is_toffoli as int;
    seq![
        Use { id: RelationId::State, mult: en, tuple: state_seq(row.shot_id, row.pc, row.in_limb@) },
        Use {
            id: RelationId::State,
            mult: -en,
            tuple: state_seq(row.shot_id, (row.pc + 1) as u32, row.out_limb@),
        },
        Use { id: RelationId::QDecode, mult: en, tuple: qdecode_seq(row.target) },
        Use { id: RelationId::QDecode, mult: a, tuple: qdecode_seq(row.ctrl_a) },
        Use { id: RelationId::QDecode, mult: b, tuple: qdecode_seq(row.ctrl_b) },
        Use { id: RelationId::RcLo, mult: en, tuple: lo_seq(row.target) },
        Use { id: RelationId::RcHi, mult: en, tuple: hi_seq(row.target) },
        Use { id: RelationId::RcLo, mult: a, tuple: lo_seq(row.ctrl_a) },
        Use { id: RelationId::RcHi, mult: a, tuple: hi_seq(row.ctrl_a) },
        Use { id: RelationId::RcLo, mult: b, tuple: lo_seq(row.ctrl_b) },
        Use { id: RelationId::RcHi, mult: b, tuple: hi_seq(row.ctrl_b) },
        Use { id: RelationId::Program, mult: en, tuple: program_seq(row, n_gates) },
    ]
}

/// The value of lookup `j` of a row.
pub open spec fn use_value(el: &LookupElements, row: Row, n_gates: int, j: int) -> Ext {
    let u = row_uses(row, n_gates)[j];
    el.value(u.id, u.mult, u.tuple)
}

pub open spec fn use_den(el: &LookupElements, row: Row, n_gates: int, j: int) -> Ext {
    let u = row_uses(row, n_gates)[j];
    el.den(u.id, u.tuple)
}

/// What all lookups of a row amount to.
pub open spec fn row_value(el: &LookupElements, row: Row, n_gates: int) -> Ext {
    sum(12, |j: int| use_value(el, row, n_gates, j))
}

/// What the main trace claims: all lookups of all rows.
pub open spec fn main_value(el: &LookupElements, rows: Seq<Row>, n_gates: int) -> Ext {
    sum(rows.len(), |i: int| row_value(el, rows[i], n_gates))
}

/// The sums in a row's tuples stay in range.
pub open spec fn row_small(row: Row) -> bool {
    &&& row.enabler <= 1
    &&& row.is_not <= 1
    &&& row.is_cnot <= 1
    &&& row.is_toffoli <= 1
    &&& row.pc < u32::MAX
}

/// Pair `b` of a row's lookups has a denominator that is not zero.
pub open spec fn pair_den_nonzero(el: &LookupElements, row: Row, n_gates: int, b: int) -> bool {
    use_den(el, row, n_gates, 2 * b) * use_den(el, row, n_gates, 2 * b + 1) != Ext::zero()
}

/// The tuple of a state.
pub fn state_tuple(shot_id: u32, pc: u32, limbs: &[u32; N_LIMBS]) -> (r: Vec<u32>)
    ensures
        r@ == state_seq(shot_id, pc, limbs@),
{
    let mut v: Vec<u32> = Vec::new();
    v.push(shot_id);
    v.push(pc);
    let mut j: usize = 0;
    while j < N_LIMBS
        invariant
            j <= N_LIMBS,
            limbs@.len() == N_LIMBS,
            v@ == seq![shot_id, pc] + limbs@.take(j as int),
        decreases N_LIMBS - j,
    {
        v.push(limbs[j]);
        assert(limbs@.take(j + 1) =~= limbs@.take(j as int).push(limbs@[j as int]));
        j += 1;
    }
    assert(limbs@.take(N_LIMBS as int) =~= limbs@);
    v
}

fn qdecode_den(el: &LookupElements, r: &ReadCols) -> (d: QM31)
    requires
        el.wf(),
    ensures
        d.wf(),
        d@ == el.den(RelationId::QDecode, qdecode_seq(*r)),
{
    let t: Vec<u32> = vec![r.q, r.limb_idx, r.bit_pos, r.mask];
    assert(t@ =~= qdecode_seq(*r));
    el.qdecode.combine_base(t.as_slice())
}

fn lo_den(el: &LookupElements, r: &ReadCols) -> (d: QM31)
    requires
        el.wf(),
    ensures
        d.wf(),
        d@ == el.den(RelationId::RcLo, lo_seq(*r)),
{
    let t: Vec<u32> = vec![r.bit_pos, r.lo];
    assert(t@ =~= lo_seq(*r));
    el.rc_lo.combine_base(t.as_slice())
}

fn hi_den(el: &LookupElements, r: &ReadCols) -> (d: QM31)
    requires
        el.wf(),
    ensures
        d.wf(),
        d@ == el.den(RelationId::RcHi, hi_seq(*r)),
{
    let t: Vec<u32> = vec![r.bit_pos, r.hi];
    assert(t@ =~= hi_seq(*r));
    el.rc_hi.combine_base(t.as_slice())
}

/// Numerator and denominator of lookup `j` of a row.
fn row_use(el: &LookupElements, row: &Row, n_gates: u32, j: usize) -> (r: (QM31, QM31))
    requires
        el.wf(),
        row_small(*row),
        n_gates > 0,
        j < 12,
    ensures
        r.0.wf(),
        r.1.wf(),
        r.0@ == Ext::base(row_uses(*row, n_gates as int)[j as int].mult),
        r.1@ == use_den(el, *row, n_gates as int, j as int),
{
    let en: QM31 = QM31::from_base(row.enabler);
    let a: QM31 = QM31::from_base(row.is_cnot + row.is_toffoli);
    let b: QM31 = QM31::from_base(row.is_toffoli);
    proof {
        lemma_base_add(row.enabler as int, 0);
    }
    if j == 0 {
        (en, el.state.combine_base(state_tuple(row.shot_id, row.pc, &row.in_limb).as_slice()))
    } else if j == 1 {
        (
            en.negate(),
            el.state.combine_base(state_tuple(row.shot_id, row.pc + 1, &row.out_limb).as_slice()),
        )
    } else if j == 2 {
        (en, qdecode_den(el, &row.target))
    } else if j == 3 {
        (a, qdecode_den(el, &row.ctrl_a))
    } else if j == 4 {
        (b, qdecode_den(el, &row.ctrl_b))
    } else if j == 5 {
        (en, lo_den(el, &row.target))
    } else if j == 6 {
        (en, hi_den(el, &row.target))
    } else if j == 7 {
        (a, lo_den(el, &row.ctrl_a))
    } else if j == 8 {
        (a, hi_den(el, &row.ctrl_a))
    } else if j == 9 {
        (b, lo_den(el, &row.ctrl_b))
    } else if j == 10 {
        (b, hi_den(el, &row.ctrl_b))
    } else {
        let t: Vec<u32> = vec![
            row.pc % n_gates,
            row.is_not + 2 * row.is_cnot + 3 * row.is_toffoli,
            row.target.q,
            row.ctrl_a.q,
            row.ctrl_b.q,
        ];
        assert(t@ =~= program_seq(*row, n_gates as int));
        (en, el.program.combine_base(t.as_slice()))
    }
}

/// Two neighbouring lookups of a row as one fraction.
pub open spec fn pair_fraction(
    el: &LookupElements,
    row: Row,
    n_gates: int,
    b: int,
    f: Fraction,
) -> bool {
    let u = row_uses(row, n_gates);
    let (d0, d1) = (use_den(el, row, n_gates, 2 * b), use_den(el, row, n_gates, 2 * b + 1));
    &&& f.wf()
    &&& f.num@ == Ext::base(u[2 * b].mult) * d1 + Ext::base(u[2 * b + 1].mult) * d0
    &&& f.den@ == d0 * d1
}

/// Column `b` of the main interaction trace, and what it sums to.
fn main_pair_column(el: &LookupElements, rows: &[Row], n_gates: u32, b: usize) -> (r: (
    Vec<Fraction>,
    QM31,
))
    requires
        el.wf(),
        n_gates > 0,
        b < N_MAIN_PAIRS,
        forall|i: int| 0 <= i < rows@.len() ==> row_small(#[trigger] rows@[i]),
        forall|i: int|
            0 <= i < rows@.len() ==> pair_den_nonzero(
                el,
                #[trigger] rows@[i],
                n_gates as int,
                b as int,
            ),
    ensures
        r.0@.len() == rows@.len(),
        forall|i: int|
            0 <= i < rows@.len() ==> pair_fraction(
                el,
                rows@[i],
                n_gates as int,
                b as int,
                #[trigger] r.0@[i],
            ),
        r.1.wf(),
        r.1@ == sum(
            rows@.len(),
            |i: int|
                use_value(el, rows@[i], n_gates as int, 2 * b as int) + use_value(
                    el,
                    rows@[i],
                    n_gates as int,
                    2 * b + 1,
                ),
        ),
{
    let ghost f = |i: int|
        use_value(el, rows@[i], n_gates as int, 2 * b as int) + use_value(
            el,
            rows@[i],
            n_gates as int,
            2 * b + 1,
        );
    let mut col: Vec<Fraction> = Vec::new();
    let mut acc: QM31 = QM31::zero();
    let mut i: usize = 0;
    while i < rows.len()
        invariant
            i <= rows@.len(),
            el.wf(),
            n_gates > 0,
            b < N_MAIN_PAIRS,
            forall|i: int| 0 <= i < rows@.len() ==> row_small(#[trigger] rows@[i]),
            forall|i: int|
                0 <= i < rows@.len() ==> pair_den_nonzero(
                    el,
                    #[trigger] rows@[i],
                    n_gates as int,
                    b as int,
                ),
            col@.len() == i,
            forall|k: int|
                0 <= k < i ==> pair_fraction(
                    el,
                    rows@[k],
                    n_gates as int,
                    b as int,
                    #[trigger] col@[k],
                ),
            f == (|i: int|
                use_value(el, rows@[i], n_gates as int, 2 * b as int) + use_value(
                    el,
                    rows@[i],
                    n_gates as int,
                    2 * b + 1,
                )),
            acc.wf(),
            acc@ == sum(i as nat, f),
        decreases rows.len() - i,
    {
        let (m0, d0) = row_use(el, &rows[i], n_gates, 2 * b);
        let (m1, d1) = row_use(el, &rows[i], n_gates, 2 * b + 1);
        let frac: Fraction = Fraction::pair(m0, d0, m1, d1);
        assert(pair_den_nonzero(el, rows@[i as int], n_gates as int, b as int));
        let inv: QM31 = frac.den.inverse();
        proof {
            lemma_factor_invertible(d0@, d1@);
            assert(f(i as int) == frac.value());
        }
        acc = acc.plus(frac.num.times(inv));
        col.push(frac);
        i += 1;
    }
    (col, acc)
}

/// Whether no row of the main trace looks up a tuple whose denominator is zero.
pub fn main_defined(el: &LookupElements, rows: &[Row], n_gates: u32) -> (r: bool)
    requires
        el.wf(),
        n_gates > 0,
        forall|i: int| 0 <= i < rows@.len() ==> row_small(#[trigger] rows@[i]),
    ensures
        r <==> forall|i: int, b: int|
            0 <= i < rows@.len() && 0 <= b < N_MAIN_PAIRS ==> #[trigger] pair_den_nonzero(
                el,
                rows@[i],
                n_gates as int,
                b,
            ),
{
    let ghost n = n_gates as int;
    let mut i: usize = 0;
    while i < rows.len()
        invariant
            i <= rows@.len(),
            el.wf(),
            n_gates > 0,
            n == n_gates,
            forall|j: int| 0 <= j < rows@.len() ==> row_small(#[trigger] rows@[j]),
            forall|j: int, b: int|
                0 <= j < i && 0 <= b < N_MAIN_PAIRS ==> #[trigger] pair_den_nonzero(
                    el,
                    rows@[j],
                    n,
                    b,
                ),
        decreases rows.len() - i,
    {
        let mut b: usize = 0;
        while b < N_MAIN_PAIRS
            invariant
                b <= N_MAIN_PAIRS,
                i < rows@.len(),
                el.wf(),
                n_gates > 0,
                n == n_gates,
                row_small(rows@[i as int]),
                forall|c: int|
                    0 <= c < b ==> #[trigger] pair_den_nonzero(el, rows@[i as int], n, c),
            decreases N_MAIN_PAIRS - b,
        {
            let d0: QM31 = row_use(el, &rows[i], n_gates, 2 * b).1;
            let d1: QM31 = row_use(el, &rows[i], n_gates, 2 * b + 1).1;
            if d0.times(d1).is_zero() {
                assert(!pair_den_nonzero(el, rows@[i as int], n, b as int));
                return false;
            }
            b += 1;
        }
        i += 1;
    }
    true
}

/// The fractions of all pairs of lookups, pair by pair, and what they sum to.
pub open spec fn is_main_interaction(
    el: &LookupElements,
    rows: Seq<Row>,
    n_gates: int,
    r: (Vec<Vec<Fraction>>, QM31),
) -> bool {
    &&& r.0@.len() == N_MAIN_PAIRS
    &&& forall|b: int| 0 <= b < N_MAIN_PAIRS ==> (#[trigger] r.0@[b])@.len() == rows.len()
    &&& forall|b: int, i: int|
        0 <= b < N_MAIN_PAIRS && 0 <= i < rows.len() ==> pair_fraction(
            el,
            rows[i],
            n_gates,
            b,
            #[trigger] r.0@[b]@[i],
        )
    &&& r.1.wf()
    &&& r.1@ == main_value(el, rows, n_gates)
}

/// The interaction columns of the main trace and the sum that they claim. The
/// rows given include the padding.
pub fn gen_main_interaction(el: &LookupElements, rows: &[Row], n_gates: u32) -> (r: (
    Vec<Vec<Fraction>>,
    QM31,
))
    requires
        el.wf(),
        n_gates > 0,
        forall|i: int| 0 <= i < rows@.len() ==> row_small(#[trigger] rows@[i]),
        forall|i: int, b: int|
            0 <= i < rows@.len() && 0 <= b < N_MAIN_PAIRS ==> #[trigger] pair_den_nonzero(
                el,
                rows@[i],
                n_gates as int,
                b,
            ),
    ensures
        is_main_interaction(el, rows@, n_gates as int, r),
{
    let ghost n = n_gates as int;
    let ghost g = |b: int|
        sum(
            rows@.len(),
            |i: int| use_value(el, rows@[i], n, 2 * b) + use_value(el, rows@[i], n, 2 * b + 1),
        );
    let mut cols: Vec<Vec<Fraction>> = Vec::new();
    let mut acc: QM31 = QM31::zero();
    let mut b: usize = 0;
    while b < N_MAIN_PAIRS
        invariant
            b <= N_MAIN_PAIRS,
            el.wf(),
            n_gates > 0,
            n == n_gates,
            forall|i: int| 0 <= i < rows@.len() ==> row_small(#[trigger] rows@[i]),
            forall|i: int, b: int|
                0 <= i < rows@.len() && 0 <= b < N_MAIN_PAIRS ==> #[trigger] pair_den_nonzero(
                    el,
                    rows@[i],
                    n_gates as int,
                    b,
                ),
            cols@.len() == b,
            forall|c: int| 0 <= c < b ==> (#[trigger] cols@[c])@.len() == rows@.len(),
            forall|c: int, i: int|
                0 <= c < b && 0 <= i < rows@.len() ==> pair_fraction(
                    el,
                    rows@[i],
                    n,
                    c,
                    #[trigger] cols@[c]@[i],
                ),
            g == (|b: int|
                sum(
                    rows@.len(),
                    |i: int|
                        use_value(el, rows@[i], n, 2 * b) + use_value(el, rows@[i], n, 2 * b + 1),
                )),
            acc.wf(),
            acc@ == sum(b as nat, g),
        decreases N_MAIN_PAIRS - b,
    {
        let (col, s) = main_pair_column(el, rows, n_gates, b);
        proof {
            lemma_sum_ext(
                rows@.len(),
                |i: int|
                    use_value(el, rows@[i], n_gates as int, 2 * b as int) + use_value(
                        el,
                        rows@[i],
                        n_gates as int,
                        2 * b + 1,
                    ),
                |i: int|
                    use_value(el, rows@[i], n, 2 * b as int) + use_value(el, rows@[i], n, 2 * b + 1),
            );
            assert(s@ == g(b as int));
        }
        acc = acc.plus(s);
        cols.push(col);
        b += 1;
    }
    proof {
        lemma_main_by_pairs(el, rows@, n);
    }
    (cols, acc)
}

/// Summing the lookups pair by pair, or row by row, gives the same.
proof fn lemma_main_by_pairs(el: &LookupElements, rows: Seq<Row>, n: int)
    ensures
        sum(
            6,
            |b: int|
                sum(
                    rows.len(),
                    |i: int| use_value(el, rows[i], n, 2 * b) + use_value(el, rows[i], n, 2 * b + 1),
                ),
        ) == main_value(el, rows, n),
{
    let p = |b: int, i: int| use_value(el, rows[i], n, 2 * b) + use_value(el, rows[i], n, 2 * b + 1);
    let g = |b: int|
        sum(
            rows.len(),
            |i: int| use_value(el, rows[i], n, 2 * b) + use_value(el, rows[i], n, 2 * b + 1),
        );
    let by_pair = |b: int| sum(rows.len(), |i: int| p(b, i));
    let by_row = |i: int| sum(6, |b: int| p(b, i));
    let r = |i: int| row_value(el, rows[i], n);
    assert forall|b: int| 0 <= b < 6 implies #[trigger] g(b) == by_pair(b) by {
        lemma_sum_ext(
            rows.len(),
            |i: int| use_value(el, rows[i], n, 2 * b) + use_value(el, rows[i], n, 2 * b + 1),
            |i: int| p(b, i),
        );
    }
    lemma_sum_ext(6, g, by_pair);
    lemma_sum_swap(6, rows.len(), p);
    assert forall|i: int| 0 <= i < rows.len() implies #[trigger] by_row(i) == r(i) by {
        let f = |j: int| use_value(el, rows[i], n, j);
        let q = |b: int| p(b, i);
        assert forall|b: int| 0 <= b < 6 implies #[trigger] q(b) == f(2 * b) + f(2 * b + 1) by {}
        lemma_sum_pairs(6, f, q);
    }
    lemma_sum_ext(rows.len(), by_row, r);
}

/// The value of one state, looked up once.
pub open spec fn state_value(el: &LookupElements, shot: int, pc: int, limbs: Seq<u32>) -> Ext {
    el.value(RelationId::State, 1, state_seq(shot as u32, pc as u32, limbs))
}

/// What the test vectors say: per shot, the state before the first step minus
/// the state after the last.
pub open spec fn boundary_value(el: &LookupElements, cases: Seq<TestCase>, total: int) -> Ext {
    sum(
        cases.len(),
        |s: int|
            state_value(el, s, 0, state_limbs(text_state(cases[s].x_hex@))) - state_value(
                el,
                s,
                total,
                state_limbs(text_state(cases[s].y_hex@)),
            ),
    )
}

/// A test vector whose text is not hexadecimal.
#[derive(Clone, Copy, Debug, PartialEq, Eq, Structural)]
pub struct BadText {
    pub shot_id: usize,
}

pub open spec fn case_is_hex(c: TestCase) -> bool {
    is_hex(c.x_hex@) && is_hex(c.y_hex@)
}

/// The states of a test vector have 64 bytes, and their denominators are not zero.
pub open spec fn boundary_ready(el: &LookupElements, c: TestCase, s: int, total: int) -> bool {
    case_is_hex(c) ==> {
        &&& hex_bytes(c.x_hex@).len() == STATE_BYTES
        &&& hex_bytes(c.y_hex@).len() == STATE_BYTES
        &&& el.state.den(state_seq(s as u32, 0, byte_limbs(hex_bytes(c.x_hex@)))) != Ext::zero()
        &&& el.state.den(state_seq(s as u32, total as u32, byte_limbs(hex_bytes(c.y_hex@))))
            != Ext::zero()
    }
}

/// Whether every test vector that can be read has states of the right length,
/// whose denominators are not zero.
pub fn boundary_defined(cases: &[TestCase], n_gates: usize, k: usize, el: &LookupElements) -> (r:
    bool)
    requires
        el.wf(),
        n_gates * k <= u32::MAX,
        cases@.len() <= u32::MAX,
    ensures
        r <==> forall|s: int|
            0 <= s < cases@.len() ==> boundary_ready(el, #[trigger] cases@[s], s, n_gates * k),
{
    let total_pc: u32 = (n_gates * k) as u32;
    let mut s: usize = 0;
    while s < cases.len()
        invariant
            s <= cases@.len() <= u32::MAX,
            el.wf(),
            total_pc == n_gates * k,
            forall|j: int|
                0 <= j < s ==> boundary_ready(el, #[trigger] cases@[j], j, n_gates * k),
        decreases cases.len() - s,
    {
        let x = hex_decode(cases[s].x_hex.as_str());
        let y = hex_decode(cases[s].y_hex.as_str());
        if let (Ok(x), Ok(y)) = (x, y) {
            assert(case_is_hex(cases@[s as int]));
            if x.len() != STATE_BYTES || y.len() != STATE_BYTES {
                assert(!boundary_ready(el, cases@[s as int], s as int, n_gates * k));
                return false;
            }
            let x_limbs: [u32; N_LIMBS] = state_to_limbs(x.as_slice());
            let y_limbs: [u32; N_LIMBS] = state_to_limbs(y.as_slice());
            let first: Vec<u32> = state_tuple(s as u32, 0, &x_limbs);
            let last: Vec<u32> = state_tuple(s as u32, total_pc, &y_limbs);
            if el.state.combine_base(first.as_slice()).is_zero() || el.state.combine_base(
                last.as_slice(),
            ).is_zero() {
                assert(!boundary_ready(el, cases@[s as int], s as int, n_gates * k));
                return false;
            }
        }
        s += 1;
    }
    true
}

/// The state before each shot minus the state after it, summed up.
pub fn public_boundary_sum(
    cases: &[TestCase],
    n_gates: usize,
    k: usize,
    el: &LookupElements,
) -> (r: Result<QM31, BadText>)
    requires
        el.wf(),
        n_gates * k <= u32::MAX,
        cases@.len() <= u32::MAX,
        forall|s: int|
            0 <= s < cases@.len() ==> boundary_ready(el, #[trigger] cases@[s], s, n_gates * k),
    ensures
        r is Ok <==> forall|s: int| 0 <= s < cases@.len() ==> case_is_hex(#[trigger] cases@[s]),
        r matches Ok(v) ==> v.wf() && v@ == boundary_value(el, cases@, n_gates * k),
        r matches Err(e) ==> e.shot_id < cases@.len() && !case_is_hex(cases@[e.shot_id as int]) && forall|
            s: int,
        |
            0 <= s < e.shot_id ==> case_is_hex(#[trigger] cases@[s]),
{
    let total_pc: u32 = (n_gates * k) as u32;
    let ghost f = |s: int|
        state_value(el, s, 0, state_limbs(text_state(cases@[s].x_hex@))) - state_value(
            el,
            s,
            total_pc as int,
            state_limbs(text_state(cases@[s].y_hex@)),
        );
    let mut acc: QM31 = QM31::zero();
    let mut s: usize = 0;
    while s < cases.len()
        invariant
            s <= cases@.len() <= u32::MAX,
            el.wf(),
            total_pc == n_gates * k,
            forall|s: int|
                0 <= s < cases@.len() ==> boundary_ready(el, #[trigger] cases@[s], s, n_gates * k),
            forall|j: int| 0 <= j < s ==> case_is_hex(#[trigger] cases@[j]),
            f == (|s: int|
                state_value(el, s, 0, state_limbs(text_state(cases@[s].x_hex@))) - state_value(
                    el,
                    s,
                    total_pc as int,
                    state_limbs(text_state(cases@[s].y_hex@)),
                )),
            acc.wf(),
            acc@ == sum(s as nat, f),
        decreases cases.len() - s,
    {
        let x = match hex_decode(cases[s].x_hex.as_str()) {
            Ok(v) => v,
            Err(_) => {
                assert(!case_is_hex(cases@[s as int]));
                return Err(BadText { shot_id: s });
            },
        };
        let y = match hex_decode(cases[s].y_hex.as_str()) {
            Ok(v) => v,
            Err(_) => {
                assert(!case_is_hex(cases@[s as int]));
                return Err(BadText { shot_id: s });
            },
        };
        assert(case_is_hex(cases@[s as int]));
        assert(boundary_ready(el, cases@[s as int], s as int, n_gates * k));
        let x_limbs: [u32; N_LIMBS] = state_to_limbs(x.as_slice());
        let y_limbs: [u32; N_LIMBS] = state_to_limbs(y.as_slice());
        let ci: QM31 = el.state.combine_base(state_tuple(s as u32, 0, &x_limbs).as_slice()).inverse();
        let cf: QM31 = el.state.combine_base(
            state_tuple(s as u32, total_pc, &y_limbs).as_slice(),
        ).inverse();
        proof {
            lemma_state_limbs(x_limbs@);
            lemma_state_limbs(y_limbs@);
            lemma_base_add(1, 0);
            lemma_mul_one(ci@);
            lemma_mul_one(cf@);
            assert(f(s as int) == ci@ - cf@);
        }
        acc = acc.plus(ci.minus(cf));
        s += 1;
    }
    proof {
        lemma_sum_ext(
            cases@.len(),
            f,
            |s: int|
                state_value(el, s, 0, state_limbs(text_state(cases@[s].x_hex@))) - state_value(
                    el,
                    s,
                    n_gates * k,
                    state_limbs(text_state(cases@[s].y_hex@)),
                ),
        );
    }
    Ok(acc)
}

/// A claim that does not hold.
#[derive(Clone, Copy, Debug, PartialEq, Eq, Structural)]
pub enum ClaimError {
    /// The claims together do not leave the boundary.
    Boundary,
    QDecode,
    RcLo,
    RcHi,
    Program,
}

/// The five sums that a trace claims.
#[derive(Clone, Copy, Debug, PartialEq, Eq, Structural)]
pub struct Claims {
    pub main: QM31,
    pub qdecode: QM31,
    pub rc_lo: QM31,
    pub rc_hi: QM31,
    pub program: QM31,
}

impl Claims {
    pub open spec fn wf(&self) -> bool {
        &&& self.main.wf()
        &&& self.qdecode.wf()
        &&& self.rc_lo.wf()
        &&& self.rc_hi.wf()
        &&& self.program.wf()
    }

    pub open spec fn total(&self) -> Ext {
        (((self.main@ + self.qdecode@) + self.rc_lo@) + self.rc_hi@) + self.program@
    }

    /// Holds the claims against the boundary and against the tables' own sums,
    /// in this order.
    pub fn check(&self, boundary: QM31, expected: &Claims) -> (r: Option<ClaimError>)
        requires
            self.wf(),
            expected.wf(),
            boundary.wf(),
        ensures
            r == (if self.total() != boundary@ {
                Some(ClaimError::Boundary)
            } else if self.qdecode@ != expected.qdecode@ {
                Some(ClaimError::QDecode)
            } else if self.rc_lo@ != expected.rc_lo@ {
                Some(ClaimError::RcLo)
            } else if self.rc_hi@ != expected.rc_hi@ {
                Some(ClaimError::RcHi)
            } else if self.program@ != expected.program@ {
                Some(ClaimError::Program)
            } else {
                None
            }),
    {
        let total: QM31 = self.main.plus(self.qdecode).plus(self.rc_lo).plus(self.rc_hi).plus(
            self.program,
        );
        if total != boundary {
            Some(ClaimError::Boundary)
        } else if self.qdecode != expected.qdecode {
            Some(ClaimError::QDecode)
        } else if self.rc_lo != expected.rc_lo {
            Some(ClaimError::RcLo)
        } else if self.rc_hi != expected.rc_hi {
            Some(ClaimError::RcHi)
        } else if self.program != expected.program {
            Some(ClaimError::Program)
        } else {
            None
        }
    }

    /// The claims in the order in which they enter the transcript.
    pub fn in_order(&self) -> (r: Vec<QM31>)
        ensures
            r@ == seq![self.main, self.qdecode, self.rc_lo, self.rc_hi, self.program],
    {
        let v: Vec<QM31> = vec![self.main, self.qdecode, self.rc_lo, self.rc_hi, self.program];
        assert(v@ =~= seq![self.main, self.qdecode, self.rc_lo, self.rc_hi, self.program]);
        v
    }
}

/// The main claim as a verifier derives it: the boundary without the tables' sums.
pub fn derived_main_claim(
    boundary: QM31,
    qdecode: QM31,
    rc_lo: QM31,
    rc_hi: QM31,
    program: QM31,
) -> (r: QM31)
    ensures
        r.wf(),
        r@ == (((boundary@ - qdecode@) - rc_lo@) - rc_hi@) - program@,
{
    boundary.minus(qdecode).minus(rc_lo).minus(rc_hi).minus(program)
}

/// Where the claims balance, a verifier derives the main claim that was made.
pub proof fn lemma_derived_main_claim(m: Ext, q: Ext, l: Ext, h: Ext, p: Ext, boundary: Ext)
    requires
        m.wf(),
        (((m + q) + l) + h) + p == boundary,
    ensures
        (((boundary - q) - l) - h) - p == m,
{
    lemma_sub_swap(((m + q) + l) + h, p, q);
    lemma_sub_swap((m + q) + l, h, q);
    lemma_sub_swap(m + q, l, q);
    lemma_add_sub(m, q);
    lemma_sub_swap((m + l) + h, p, l);
    lemma_sub_swap(m + l, h, l);
    lemma_add_sub(m, l);
    lemma_sub_swap(m + h, p, h);
    lemma_add_sub(m, h);
    lemma_add_sub(m, p);
}

} // verus!
