//! The lookups of repeated addition: the chain of numbers, and the range tables.
use vstd::arithmetic::power2::lemma2_to64;
use vstd::prelude::*;

use crate::field::{
    lemma_add_zero, lemma_base_add, lemma_factor_invertible, lemma_mul_one, lemma_mul_zero,
    lemma_neg_mul, Ext, QM31,
};
use crate::iadd::{
    biguint_to_limbs, low_register, low_register_from_state_hex, IaddCase, RangeCheckMode,
    StateError,
};
use crate::iadd_limbs::{limbs_of, split_lookup_chunks, LIMBS};
use crate::iadd_rows::{part, LookupCounts, Row, SeqTable};
use crate::logup::{claimed_sum, lemma_pair_value, Fraction, Relation};
use crate::sums::{lemma_sum_ext, lemma_sum_neg, lemma_sum_wf, sum};
use crate::transcript::{felts_drawn, Transcript};

verus! {

pub const IADD_STATE_WIDTH: usize = 20;

pub const LOOKUP_MAIN_BATCHES: usize = 10;

/// The challenges of the range tables.
pub struct RangeLookupElements {
    pub seq18: Relation,
    pub seq11: Relation,
    pub seq6: Relation,
}

impl RangeLookupElements {
    pub open spec fn wf(&self) -> bool {
        &&& self.seq18.wf()
        &&& self.seq11.wf()
        &&& self.seq6.wf()
    }

    pub open spec fn of(&self, t: SeqTable) -> &Relation {
        match t {
            SeqTable::Low => &self.seq18,
            SeqTable::High => &self.seq11,
            SeqTable::Top => &self.seq6,
        }
    }
}

/// The challenges of all relations; without range lookups only the first.
pub struct IaddElements {
    pub state: Relation,
    pub ranges: Option<RangeLookupElements>,
}

impl IaddElements {
    pub open spec fn wf(&self) -> bool {
        &&& self.state.wf()
        &&& self.state.width() == IADD_STATE_WIDTH
        &&& self.ranges matches Some(r) ==> r.wf()
    }

    /// Draws the challenges that a mode needs: consecutive pairs of elements.
    pub fn draw(t: &Transcript, mode: RangeCheckMode) -> (r: IaddElements)
        ensures
            r.wf(),
            r.ranges is Some <==> mode is Lookup,
            !(mode is Lookup) ==> r.state.z@ == felts_drawn(t.digest@, 2)[0] && r.state.alpha@
                == felts_drawn(t.digest@, 2)[1],
            mode is Lookup ==> {
                let f = felts_drawn(t.digest@, 8);
                let g = r.ranges->Some_0;
                &&& r.state.z@ == f[0] && r.state.alpha@ == f[1]
                &&& g.seq18.z@ == f[2] && g.seq18.alpha@ == f[3]
                &&& g.seq11.z@ == f[4] && g.seq11.alpha@ == f[5]
                &&& g.seq6.z@ == f[6] && g.seq6.alpha@ == f[7]
            },
    {
        if mode == RangeCheckMode::Lookup {
            let widths: Vec<usize> = vec![IADD_STATE_WIDTH, 1, 1, 1];
            let mut rels: Vec<Relation> = t.draw_relations(widths.as_slice());
            assert(rels@[0].wf() && rels@[1].wf() && rels@[2].wf() && rels@[3].wf());
            let seq6: Relation = rels.swap_remove(3);
            let seq11: Relation = rels.swap_remove(2);
            let seq18: Relation = rels.swap_remove(1);
            let state: Relation = rels.swap_remove(0);
            IaddElements { state, ranges: Some(RangeLookupElements { seq18, seq11, seq6 }) }
        } else {
            let widths: Vec<usize> = vec![IADD_STATE_WIDTH];
            let mut rels: Vec<Relation> = t.draw_relations(widths.as_slice());
            assert(rels@[0].wf());
            IaddElements { state: rels.swap_remove(0), ranges: None }
        }
    }
}

/// The tuple of a state.
pub open spec fn state_seq(sample: u32, rep: u32, number: Seq<u32>, addend: Seq<u32>) -> Seq<u32> {
    seq![sample, rep] + number + addend
}

/// The tuple of a state.
pub fn state_from_limbs(sample: u32, rep: u32, acc: &[u32; LIMBS], addend: &[u32; LIMBS]) -> (r: Vec<
    u32,
>)
    ensures
        r@ == state_seq(sample, rep, acc@, addend@),
{
    let mut r: Vec<u32> = Vec::new();
    r.push(sample);
    r.push(rep);
    let mut i: usize = 0;
    while i < LIMBS
        invariant
            i <= LIMBS,
            r@ == seq![sample, rep] + acc@.take(i as int),
        decreases LIMBS - i,
    {
        r.push(acc[i]);
        assert(r@ =~= seq![sample, rep] + acc@.take(i + 1));
        i += 1;
    }
    assert(acc@.take(9) =~= acc@);
    i = 0;
    while i < LIMBS
        invariant
            i <= LIMBS,
            r@ == seq![sample, rep] + acc@ + addend@.take(i as int),
        decreases LIMBS - i,
    {
        r.push(addend[i]);
        assert(r@ =~= seq![sample, rep] + acc@ + addend@.take(i + 1));
        i += 1;
    }
    assert(addend@.take(9) =~= addend@);
    r
}

/// The states before and after a row's addition.
pub open spec fn state_in(row: Row) -> Seq<u32> {
    state_seq(row.sample_id, row.rep_idx, row.acc@, row.addend@)
}

pub open spec fn state_out(row: Row) -> Seq<u32> {
    state_seq(row.sample_id, (row.rep_idx + 1) as u32, row.next@, row.addend@)
}

/// The table that limb `i`'s high part is looked up in.
pub open spec fn high_table(i: int) -> SeqTable {
    if i == 8 {
        SeqTable::Top
    } else {
        SeqTable::High
    }
}

/// A value in a range table.
pub open spec fn part_den(g: &RangeLookupElements, t: SeqTable, v: int) -> Ext {
    g.of(t).den(seq![v as u32])
}

/// The two multiplicities and denominators of batch `b` of a row: the two states,
/// or the two parts of limb `b - 1`.
pub open spec fn batch_dens(el: &IaddElements, row: Row, b: int) -> (Ext, Ext) {
    if b == 0 {
        (el.state.den(state_in(row)), el.state.den(state_out(row)))
    } else {
        let g = el.ranges->Some_0;
        (
            part_den(&g, SeqTable::Low, part(row.next@, b - 1, false)),
            part_den(&g, high_table(b - 1), part(row.next@, b - 1, true)),
        )
    }
}

pub open spec fn batch_second(row: Row, b: int) -> int {
    if b == 0 {
        -row.is_real
    } else {
        row.is_real as int
    }
}

/// What a batch of a row is worth.
pub open spec fn batch_value(el: &IaddElements, row: Row, b: int) -> Ext {
    let (d0, d1) = batch_dens(el, row, b);
    Ext::base(row.is_real as int) * d0.inv() + Ext::base(batch_second(row, b)) * d1.inv()
}

/// The batches of a mode.
pub open spec fn batches(mode: RangeCheckMode) -> nat {
    if mode is Lookup {
        10
    } else {
        1
    }
}

/// The number of interaction batches.
pub fn main_interaction_batches(mode: RangeCheckMode) -> (r: usize)
    ensures
        r == batches(mode),
{
    match mode {
        RangeCheckMode::Off => 1,
        RangeCheckMode::Bits => 1,
        RangeCheckMode::Lookup => LOOKUP_MAIN_BATCHES,
    }
}

/// What batch `b` of all rows claims.
pub open spec fn column_value(el: &IaddElements, rows: Seq<Row>, b: int) -> Ext {
    sum(rows.len(), |i: int| batch_value(el, rows[i], b))
}

/// What the main trace claims.
pub open spec fn main_value(el: &IaddElements, rows: Seq<Row>, mode: RangeCheckMode) -> Ext {
    sum(batches(mode), |b: int| column_value(el, rows, b))
}

/// The fraction of batch `b` of a row.
pub open spec fn batch_fraction(el: &IaddElements, row: Row, b: int, f: Fraction) -> bool {
    let (d0, d1) = batch_dens(el, row, b);
    &&& f.wf()
    &&& f.num@ == Ext::base(row.is_real as int) * d1 + Ext::base(batch_second(row, b)) * d0
    &&& f.den@ == d0 * d1
}

pub open spec fn batch_den_nonzero(el: &IaddElements, row: Row, b: int) -> bool {
    batch_dens(el, row, b).0 * batch_dens(el, row, b).1 != Ext::zero()
}

/// The sums in a row's tuples stay in range.
pub open spec fn row_small(row: Row) -> bool {
    row.rep_idx < u32::MAX
}

/// The chain of a row: it takes the state before and leaves the state after.
pub fn state_transition_fraction(row: &Row, el: &IaddElements) -> (f: Fraction)
    requires
        el.wf(),
        row_small(*row),
    ensures
        batch_fraction(el, *row, 0, f),
{
    let m: QM31 = QM31::from_base(row.is_real);
    let input: Vec<u32> = state_from_limbs(row.sample_id, row.rep_idx, &row.acc, &row.addend);
    let output: Vec<u32> = state_from_limbs(row.sample_id, row.rep_idx + 1, &row.next, &row.addend);
    let d0: QM31 = el.state.combine_base(input.as_slice());
    let d1: QM31 = el.state.combine_base(output.as_slice());
    proof {
        lemma_base_add(row.is_real as int, 0);
    }
    Fraction::pair(m, d0, m.negate(), d1)
}

fn value_den(rel: &Relation, v: u32) -> (d: QM31)
    requires
        rel.wf(),
    ensures
        d.wf(),
        d@ == rel.den(seq![v]),
{
    let t: Vec<u32> = vec![v];
    assert(t@ =~= seq![v]);
    rel.combine_base(t.as_slice())
}

/// The two parts of a limb of the sum.
pub fn lookup_range_fraction(limb_idx: usize, row: &Row, el: &IaddElements) -> (f: Fraction)
    requires
        el.wf(),
        el.ranges is Some,
        limb_idx < LIMBS,
    ensures
        batch_fraction(el, *row, limb_idx + 1, f),
{
    let m: QM31 = QM31::from_base(row.is_real);
    let (lo, hi) = split_lookup_chunks(limb_idx, row.next[limb_idx]);
    match &el.ranges {
        Some(g) => {
            let d0: QM31 = value_den(&g.seq18, lo);
            let d1: QM31 = if limb_idx + 1 == LIMBS {
                value_den(&g.seq6, hi)
            } else {
                value_den(&g.seq11, hi)
            };
            Fraction::pair(m, d0, m, d1)
        },
        None => Fraction { num: m, den: m },
    }
}

/// The fraction of batch `b` of a row.
pub fn main_batched_fraction(b: usize, row: &Row, el: &IaddElements) -> (f: Fraction)
    requires
        el.wf(),
        row_small(*row),
        b > 0 ==> el.ranges is Some,
        b <= 9,
    ensures
        batch_fraction(el, *row, b as int, f),
{
    if b == 0 {
        state_transition_fraction(row, el)
    } else {
        lookup_range_fraction(b - 1, row, el)
    }
}

/// A batch's fraction is worth the batch.
proof fn lemma_batch_value(el: &IaddElements, row: Row, b: int, f: Fraction)
    requires
        batch_fraction(el, row, b, f),
        f.den@.invertible(),
    ensures
        f.value() == batch_value(el, row, b),
{
    let (d0, d1) = batch_dens(el, row, b);
    lemma_factor_invertible(d0, d1);
    lemma_pair_value(Ext::base(row.is_real as int), d0, Ext::base(batch_second(row, b)), d1);
}

/// Whether no row looks up a tuple whose denominator is zero.
pub fn main_defined(rows: &[Row], el: &IaddElements, mode: RangeCheckMode) -> (r: bool)
    requires
        el.wf(),
        mode is Lookup ==> el.ranges is Some,
        forall|i: int| 0 <= i < rows@.len() ==> row_small(#[trigger] rows@[i]),
    ensures
        r <==> forall|i: int, b: int|
            0 <= i < rows@.len() && 0 <= b < batches(mode) ==> #[trigger] batch_den_nonzero(
                el,
                rows@[i],
                b,
            ),
{
    let n_batches: usize = main_interaction_batches(mode);
    let mut i: usize = 0;
    while i < rows.len()
        invariant
            i <= rows@.len(),
            n_batches == batches(mode),
            el.wf(),
            mode is Lookup ==> el.ranges is Some,
            forall|j: int| 0 <= j < rows@.len() ==> row_small(#[trigger] rows@[j]),
            forall|j: int, b: int|
                0 <= j < i && 0 <= b < batches(mode) ==> #[trigger] batch_den_nonzero(
                    el,
                    rows@[j],
                    b,
                ),
        decreases rows.len() - i,
    {
        let mut b: usize = 0;
        while b < n_batches
            invariant
                b <= n_batches == batches(mode),
                i < rows@.len(),
                el.wf(),
                mode is Lookup ==> el.ranges is Some,
                row_small(rows@[i as int]),
                forall|c: int|
                    0 <= c < b ==> #[trigger] batch_den_nonzero(el, rows@[i as int], c),
            decreases n_batches - b,
        {
            let f: Fraction = main_batched_fraction(b, &rows[i], el);
            if f.den.is_zero() {
                assert(!batch_den_nonzero(el, rows@[i as int], b as int));
                return false;
            }
            b += 1;
        }
        i += 1;
    }
    true
}

/// The interaction columns of the main trace and the sum that they claim. The
/// rows given include the padding.
pub fn gen_main_interaction_trace(rows: &[Row], el: &IaddElements, mode: RangeCheckMode) -> (r: (
    Vec<Vec<Fraction>>,
    QM31,
))
    requires
        el.wf(),
        mode is Lookup ==> el.ranges is Some,
        forall|i: int| 0 <= i < rows@.len() ==> row_small(#[trigger] rows@[i]),
        forall|i: int, b: int|
            0 <= i < rows@.len() && 0 <= b < batches(mode) ==> #[trigger] batch_den_nonzero(
                el,
                rows@[i],
                b,
            ),
    ensures
        r.0@.len() == batches(mode),
        forall|b: int| 0 <= b < batches(mode) ==> (#[trigger] r.0@[b])@.len() == rows@.len(),
        forall|b: int, i: int|
            0 <= b < batches(mode) && 0 <= i < rows@.len() ==> batch_fraction(
                el,
                rows@[i],
                b,
                #[trigger] r.0@[b]@[i],
            ),
        r.1.wf(),
        r.1@ == main_value(el, rows@, mode),
{
    let n_batches: usize = main_interaction_batches(mode);
    let ghost g = |b: int| column_value(el, rows@, b);
    let mut cols: Vec<Vec<Fraction>> = Vec::new();
    let mut acc: QM31 = QM31::zero();
    let mut b: usize = 0;
    while b < n_batches
        invariant
            b <= n_batches == batches(mode),
            el.wf(),
            mode is Lookup ==> el.ranges is Some,
            forall|i: int| 0 <= i < rows@.len() ==> row_small(#[trigger] rows@[i]),
            forall|i: int, b: int|
                0 <= i < rows@.len() && 0 <= b < batches(mode) ==> #[trigger] batch_den_nonzero(
                    el,
                    rows@[i],
                    b,
                ),
            cols@.len() == b,
            forall|c: int| 0 <= c < b ==> (#[trigger] cols@[c])@.len() == rows@.len(),
            forall|c: int, i: int|
                0 <= c < b && 0 <= i < rows@.len() ==> batch_fraction(
                    el,
                    rows@[i],
                    c,
                    #[trigger] cols@[c]@[i],
                ),
            g == (|b: int| column_value(el, rows@, b)),
            acc.wf(),
            acc@ == sum(b as nat, g),
        decreases n_batches - b,
    {
        let mut col: Vec<Fraction> = Vec::new();
        let mut i: usize = 0;
        while i < rows.len()
            invariant
                i <= rows@.len(),
                b < n_batches == batches(mode),
                el.wf(),
                mode is Lookup ==> el.ranges is Some,
                forall|i: int| 0 <= i < rows@.len() ==> row_small(#[trigger] rows@[i]),
                col@.len() == i,
                forall|j: int|
                    0 <= j < i ==> batch_fraction(el, rows@[j], b as int, #[trigger] col@[j]),
            decreases rows.len() - i,
        {
            col.push(main_batched_fraction(b, &rows[i], el));
            i += 1;
        }
        proof {
            assert forall|i: int| 0 <= i < col@.len() implies (#[trigger] col@[i]).den.wf()
                && col@[i].den@ != Ext::zero() by {
                assert(batch_fraction(el, rows@[i], b as int, col@[i]));
                assert(batch_den_nonzero(el, rows@[i], b as int));
            }
        }
        let s: QM31 = claimed_sum(col.as_slice());
        proof {
            let f = |i: int| col@[i].value();
            let h = |i: int| batch_value(el, rows@[i], b as int);
            assert forall|i: int| 0 <= i < col@.len() implies #[trigger] f(i) == h(i) by {
                assert(batch_fraction(el, rows@[i], b as int, col@[i]));
                lemma_batch_value(el, rows@[i], b as int, col@[i]);
            }
            lemma_sum_ext(rows@.len(), f, h);
            assert(s@ == g(b as int));
        }
        acc = acc.plus(s);
        cols.push(col);
        b += 1;
    }
    (cols, acc)
}

/// What a state is worth.
pub open spec fn state_value(el: &IaddElements, s: int, j: int, number: Seq<u32>, addend: Seq<u32>) -> Ext {
    Ext::base(1) * el.state.den(state_seq(s as u32, j as u32, number, addend)).inv()
}

/// The first and the last state of a test vector.
pub open spec fn ends_value(el: &IaddElements, c: IaddCase, s: int, k: int) -> Ext {
    state_value(el, s, 0, limbs_of(c.r0() as int), limbs_of(c.r1() as int)) - state_value(
        el,
        s,
        k,
        limbs_of(low_register(c.y_hex@)->Ok_0 as int),
        limbs_of(c.r1() as int),
    )
}

/// What the test vectors show: of each its first state minus its last.
pub open spec fn boundary_value(el: &IaddElements, cases: Seq<IaddCase>, k: int) -> Ext {
    sum(cases.len(), |s: int| ends_value(el, cases[s], s, k))
}

/// The denominators of a test vector's ends are not zero, if its final state can be read.
pub open spec fn ends_ready(el: &IaddElements, c: IaddCase, s: int, k: int) -> bool {
    low_register(c.y_hex@) is Ok ==> {
        &&& el.state.den(
            state_seq(s as u32, 0, limbs_of(c.r0() as int), limbs_of(c.r1() as int)),
        ) != Ext::zero()
        &&& el.state.den(
            state_seq(
                s as u32,
                k as u32,
                limbs_of(low_register(c.y_hex@)->Ok_0 as int),
                limbs_of(c.r1() as int),
            ),
        ) != Ext::zero()
    }
}

/// A test vector whose final state cannot be read.
#[derive(Clone, Copy, Debug, PartialEq, Eq, Structural)]
pub struct BadState {
    pub case: usize,
    pub error: StateError,
}

/// Whether every test vector that can be read has ends whose denominators are not
/// zero.
pub fn ends_defined(cases: &[IaddCase], repetitions: u32, el: &IaddElements) -> (r: bool)
    requires
        el.wf(),
        cases@.len() <= u32::MAX,
    ensures
        r <==> forall|s: int|
            0 <= s < cases@.len() ==> ends_ready(el, #[trigger] cases@[s], s, repetitions as int),
{
    let mut s: usize = 0;
    while s < cases.len()
        invariant
            s <= cases@.len() <= u32::MAX,
            el.wf(),
            forall|j: int|
                0 <= j < s ==> ends_ready(el, #[trigger] cases@[j], j, repetitions as int),
        decreases cases.len() - s,
    {
        let c: &IaddCase = &cases[s];
        if let Ok(digits) = low_register_from_state_hex(c.y_hex.as_str()) {
            let addend: [u32; LIMBS] = biguint_to_limbs(c.r1_in.as_slice());
            let first: [u32; LIMBS] = biguint_to_limbs(c.r0_in.as_slice());
            let last: [u32; LIMBS] = biguint_to_limbs(digits.as_slice());
            let initial: Vec<u32> = state_from_limbs(s as u32, 0, &first, &addend);
            let end: Vec<u32> = state_from_limbs(s as u32, repetitions, &last, &addend);
            if el.state.combine_base(initial.as_slice()).is_zero() || el.state.combine_base(
                end.as_slice(),
            ).is_zero() {
                assert(!ends_ready(el, cases@[s as int], s as int, repetitions as int));
                return false;
            }
        }
        s += 1;
    }
    true
}

/// What the test vectors show; fails at the first whose final state cannot be read.
pub fn public_boundary_sum(cases: &[IaddCase], repetitions: u32, el: &IaddElements) -> (r: Result<
    QM31,
    BadState,
>)
    requires
        el.wf(),
        cases@.len() <= u32::MAX,
        forall|s: int|
            0 <= s < cases@.len() ==> ends_ready(el, #[trigger] cases@[s], s, repetitions as int),
    ensures
        r is Ok <==> forall|s: int|
            0 <= s < cases@.len() ==> low_register((#[trigger] cases@[s]).y_hex@) is Ok,
        r matches Ok(v) ==> v.wf() && v@ == boundary_value(el, cases@, repetitions as int),
        r matches Err(e) ==> e.case < cases@.len() && low_register(cases@[e.case as int].y_hex@)
            == Err::<nat, StateError>(e.error) && forall|s: int|
            0 <= s < e.case ==> low_register((#[trigger] cases@[s]).y_hex@) is Ok,
{
    let ghost f = |s: int| ends_value(el, cases@[s], s, repetitions as int);
    let mut acc: QM31 = QM31::zero();
    let mut s: usize = 0;
    while s < cases.len()
        invariant
            s <= cases@.len(),
            el.wf(),
            cases@.len() <= u32::MAX,
            forall|s: int|
                0 <= s < cases@.len() ==> ends_ready(
                    el,
                    #[trigger] cases@[s],
                    s,
                    repetitions as int,
                ),
            forall|j: int| 0 <= j < s ==> low_register((#[trigger] cases@[j]).y_hex@) is Ok,
            f == (|s: int| ends_value(el, cases@[s], s, repetitions as int)),
            acc.wf(),
            acc@ == sum(s as nat, f),
        decreases cases.len() - s,
    {
        let c: &IaddCase = &cases[s];
        let addend: [u32; LIMBS] = biguint_to_limbs(c.r1_in.as_slice());
        let first: [u32; LIMBS] = biguint_to_limbs(c.r0_in.as_slice());
        let digits: Vec<u32> = match low_register_from_state_hex(c.y_hex.as_str()) {
            Ok(d) => d,
            Err(error) => {
                assert(low_register(cases@[s as int].y_hex@) is Err);
                return Err(BadState { case: s, error });
            },
        };
        let last: [u32; LIMBS] = biguint_to_limbs(digits.as_slice());
        assert(ends_ready(el, cases@[s as int], s as int, repetitions as int));
        let initial: Vec<u32> = state_from_limbs(s as u32, 0, &first, &addend);
        let end: Vec<u32> = state_from_limbs(s as u32, repetitions, &last, &addend);
        let d0: QM31 = el.state.combine_base(initial.as_slice()).inverse();
        let d1: QM31 = el.state.combine_base(end.as_slice()).inverse();
        proof {
            lemma_base_add(1, 0);
            lemma_mul_one(d0@);
            lemma_mul_one(d1@);
        }
        acc = acc.plus(d0.minus(d1));
        s += 1;
    }
    Ok(acc)
}

/// What the lookups of a range table are worth.
pub open spec fn seq_value(rel: &Relation, counts: Seq<u32>) -> Ext {
    sum(counts.len(), |v: int| Ext::base(counts[v] as int) * rel.den(seq![v as u32]).inv())
}

/// What the lookups of a range table are worth, without the values that nothing
/// looks up.
pub fn seq_lookup_public_sum(rel: &Relation, counts: &[u32]) -> (r: QM31)
    requires
        rel.wf(),
        counts@.len() <= u32::MAX,
        forall|v: int|
            0 <= v < counts@.len() && counts@[v] != 0 ==> #[trigger] value_den_nonzero(rel, v),
    ensures
        r.wf(),
        r@ == seq_value(rel, counts@),
{
    let ghost f = |v: int| Ext::base(counts@[v] as int) * rel.den(seq![v as u32]).inv();
    let mut acc: QM31 = QM31::zero();
    let mut v: usize = 0;
    while v < counts.len()
        invariant
            v <= counts@.len(),
            rel.wf(),
            counts@.len() <= u32::MAX,
            forall|v: int|
                0 <= v < counts@.len() && counts@[v] != 0 ==> #[trigger] value_den_nonzero(rel, v),
            f == (|v: int| Ext::base(counts@[v] as int) * rel.den(seq![v as u32]).inv()),
            acc.wf(),
            acc@ == sum(v as nat, f),
        decreases counts.len() - v,
    {
        let count: u32 = counts[v];
        if count != 0 {
            let d: QM31 = value_den(rel, v as u32);
            assert(value_den_nonzero(rel, v as int));
            acc = acc.plus(QM31::from_base(count).times(d.inverse()));
        } else {
            proof {
                lemma_base_add(0, 0);
                lemma_mul_zero(rel.den(seq![v as u32]).inv());
                lemma_sum_wf(v as nat, f);
                lemma_add_zero(sum(v as nat, f));
            }
        }
        v += 1;
    }
    acc
}

/// What all range lookups are worth.
pub open spec fn lookup_value(g: &RangeLookupElements, counts: &LookupCounts) -> Ext {
    (seq_value(&g.seq18, counts.seq18@) + seq_value(&g.seq11, counts.seq11@)) + seq_value(
        &g.seq6,
        counts.seq6@,
    )
}

pub open spec fn value_den_nonzero(rel: &Relation, v: int) -> bool {
    rel.den(seq![v as u32]) != Ext::zero()
}

/// A table's values have denominators that are not zero.
pub open spec fn seq_dens_nonzero(rel: &Relation, counts: Seq<u32>) -> bool {
    forall|v: int| 0 <= v < counts.len() ==> #[trigger] value_den_nonzero(rel, v)
}

/// The values of a table that are looked up have denominators that are not zero.
pub open spec fn counted_dens_nonzero(rel: &Relation, counts: Seq<u32>) -> bool {
    forall|v: int|
        0 <= v < counts.len() && counts[v] != 0 ==> #[trigger] value_den_nonzero(rel, v)
}

/// What all range lookups are worth.
pub fn lookup_public_sum(counts: &LookupCounts, g: &RangeLookupElements) -> (r: QM31)
    requires
        g.wf(),
        counts.sized(),
        counted_dens_nonzero(&g.seq18, counts.seq18@),
        counted_dens_nonzero(&g.seq11, counts.seq11@),
        counted_dens_nonzero(&g.seq6, counts.seq6@),
    ensures
        r.wf(),
        r@ == lookup_value(g, counts),
{
    proof {
        lemma2_to64();
    }
    seq_lookup_public_sum(&g.seq18, counts.seq18.as_slice()).plus(
        seq_lookup_public_sum(&g.seq11, counts.seq11.as_slice()),
    ).plus(seq_lookup_public_sum(&g.seq6, counts.seq6.as_slice()))
}

/// Whether no value of a table has a denominator that is zero.
pub fn seq_defined(rel: &Relation, counts: &[u32]) -> (r: bool)
    requires
        rel.wf(),
        counts@.len() <= u32::MAX,
    ensures
        r == seq_dens_nonzero(rel, counts@),
{
    let mut v: usize = 0;
    while v < counts.len()
        invariant
            v <= counts@.len() <= u32::MAX,
            rel.wf(),
            forall|w: int| 0 <= w < v ==> #[trigger] value_den_nonzero(rel, w),
        decreases counts.len() - v,
    {
        if value_den(rel, v as u32).is_zero() {
            assert(!value_den_nonzero(rel, v as int));
            return false;
        }
        v += 1;
    }
    true
}

/// The interaction column of a range table, and its sum: minus what its lookups
/// are worth.
pub fn gen_seq_lookup_interaction_trace(rel: &Relation, counts: &[u32]) -> (r: (Vec<Fraction>, QM31))
    requires
        rel.wf(),
        counts@.len() <= u32::MAX,
        seq_dens_nonzero(rel, counts@),
    ensures
        r.0@.len() == counts@.len(),
        forall|v: int|
            0 <= v < counts@.len() ==> (#[trigger] r.0@[v]).num@ == Ext::base(-counts@[v])
                && r.0@[v].den@ == rel.den(seq![v as u32]) && r.0@[v].wf(),
        r.1.wf(),
        r.1@ == -seq_value(rel, counts@),
{
    let mut col: Vec<Fraction> = Vec::new();
    let mut v: usize = 0;
    while v < counts.len()
        invariant
            v <= counts@.len(),
            rel.wf(),
            counts@.len() <= u32::MAX,
            col@.len() == v,
            forall|j: int|
                0 <= j < v ==> (#[trigger] col@[j]).num@ == Ext::base(-counts@[j]) && col@[j].den@
                    == rel.den(seq![j as u32]) && col@[j].wf(),
        decreases counts.len() - v,
    {
        proof {
            lemma_base_add(counts@[v as int] as int, 0);
        }
        col.push(Fraction { num: QM31::from_base(counts[v]).negate(), den: value_den(rel, v as u32) });
        v += 1;
    }
    proof {
        assert forall|i: int| 0 <= i < col@.len() implies (#[trigger] col@[i]).den.wf()
            && col@[i].den@ != Ext::zero() by {
            assert(value_den_nonzero(rel, i));
        }
    }
    let s: QM31 = claimed_sum(col.as_slice());
    proof {
        let f = |v: int| Ext::base(counts@[v] as int) * rel.den(seq![v as u32]).inv();
        let h = |v: int| col@[v].value();
        assert forall|v: int| 0 <= v < counts@.len() implies #[trigger] h(v) == -f(v) by {
            assert(col@[v].num@ == Ext::base(-counts@[v]));
            lemma_base_add(counts@[v] as int, 0);
            lemma_neg_mul(Ext::base(counts@[v] as int), rel.den(seq![v as u32]).inv());
        }
        lemma_sum_neg(counts@.len(), f, h);
    }
    (col, s)
}

/// A claimed sum that is not what it must be.
#[derive(Clone, Copy, Debug, PartialEq, Eq, Structural)]
pub enum ClaimError {
    Main,
    Seq18,
    Seq11,
    Seq6,
}

/// The sums of the range tables.
#[derive(Clone, Copy, Debug, PartialEq, Eq, Structural)]
pub struct RangeClaims {
    pub seq18: QM31,
    pub seq11: QM31,
    pub seq6: QM31,
}

/// Holds the claims against what they must be: the main claim against the
/// boundary and the lookups, then each table's claim against minus its lookups.
pub fn check_claims(
    main: QM31,
    boundary: QM31,
    lookups: QM31,
    claimed: &RangeClaims,
    expected: &RangeClaims,
) -> (r: Option<ClaimError>)
    ensures
        r == (if main@ != boundary@ + lookups@ {
            Some(ClaimError::Main)
        } else if claimed.seq18 != expected.seq18 {
            Some(ClaimError::Seq18)
        } else if claimed.seq11 != expected.seq11 {
            Some(ClaimError::Seq11)
        } else if claimed.seq6 != expected.seq6 {
            Some(ClaimError::Seq6)
        } else {
            None
        }),
{
    if main != boundary.plus(lookups) {
        Some(ClaimError::Main)
    } else if claimed.seq18 != expected.seq18 {
        Some(ClaimError::Seq18)
    } else if claimed.seq11 != expected.seq11 {
        Some(ClaimError::Seq11)
    } else if claimed.seq6 != expected.seq6 {
        Some(ClaimError::Seq6)
    } else {
        None
    }
}

/// The claims in the order in which they enter the transcript.
pub fn claimed_sums(main: QM31, ranges: Option<RangeClaims>) -> (r: Vec<QM31>)
    ensures
        r@ == (match ranges {
            Some(c) => seq![main, c.seq18, c.seq11, c.seq6],
            None => seq![main],
        }),
{
    match ranges {
        Some(c) => {
            let v: Vec<QM31> = vec![main, c.seq18, c.seq11, c.seq6];
            assert(v@ =~= seq![main, c.seq18, c.seq11, c.seq6]);
            v
        },
        None => {
            let v: Vec<QM31> = vec![main];
            assert(v@ =~= seq![main]);
            v
        },
    }
}

} // verus!
