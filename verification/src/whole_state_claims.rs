//! What a trace that was built claims under its challenges, however much it is padded.
use vstd::prelude::*;

use crate::circuit::{Gate, TestCase};
use crate::circuit_statement::interaction_width;
use crate::field::{lemma_add_zero, lemma_base_add, lemma_mul_zero, Ext, QM31};
use crate::logup::{table_value, tuple_at, Fraction, Relation};
use crate::program::ProgramTable;
use crate::sums::lemma_sum_zero;
use crate::whole_state::{rows_result, LookupCounts, RcIndex, Row, SimError, Table};
use crate::whole_state_balance::{
    is_qdecode_table, lemma_built_rows_honest, lemma_claims_balance, lemma_padding_claims_nothing,
    program_cols, rc_cols,
};
use crate::whole_state_lookups::{
    boundary_value, is_main_interaction, main_value, row_uses, LookupElements,
};

verus! {

/// The rows, and rows of padding behind them.
pub open spec fn is_padded_by(rows: Seq<Row>, padded: Seq<Row>) -> bool {
    &&& rows.len() <= padded.len()
    &&& padded.take(rows.len() as int) == rows
    &&& forall|i: int| rows.len() <= i < padded.len() ==> (#[trigger] padded[i]).is_padding()
}

proof fn lemma_padded_claim(el: &LookupElements, rows: Seq<Row>, padded: Seq<Row>, n: int)
    requires
        is_padded_by(rows, padded),
    ensures
        main_value(el, padded, n) == main_value(el, rows, n),
{
    let pads = padded.skip(rows.len() as int);
    assert(padded =~= rows + pads);
    lemma_padding_claims_nothing(el, rows, pads, n);
}

/// A table in which nothing is looked up claims nothing.
proof fn lemma_unused_table(rel: &Relation, counts: Seq<u32>, cols: Seq<&Vec<u32>>)
    requires
        forall|i: int| 0 <= i < counts.len() ==> #[trigger] counts[i] == 0,
    ensures
        table_value(rel, counts, cols) == Ext::zero(),
{
    let f = |i: int| Ext::base(-counts[i]) * rel.den(tuple_at(cols, i)).inv();
    assert forall|i: int| 0 <= i < counts.len() implies #[trigger] f(i) == Ext::zero() by {
        assert(counts[i] == 0);
        lemma_base_add(0, 0);
        lemma_mul_zero(rel.den(tuple_at(cols, i)).inv());
    }
    lemma_sum_zero(counts.len(), f);
}

/// The rows that were built, padded in two ways, claim the same; there are
/// twenty-four columns of running sums, four for each pair of lookups; and the claim
/// and those of the four tables together leave exactly what the test vectors say.
pub proof fn lemma_built_claims_balance(
    el: &LookupElements,
    gates: Seq<Gate>,
    cases: Seq<TestCase>,
    k: nat,
    rows: Vec<Row>,
    counts: LookupCounts,
    lo: &RcIndex,
    hi: &RcIndex,
    qdecode: Seq<&Vec<u32>>,
    p: &ProgramTable,
    a: Seq<Row>,
    b: Seq<Row>,
    of_a: (Vec<Vec<Fraction>>, QM31),
    of_b: (Vec<Vec<Fraction>>, QM31),
)
    requires
        rows_result(gates, k, cases, Ok::<(Vec<Row>, LookupCounts), SimError>((rows, counts)), lo, hi),
        is_qdecode_table(qdecode),
        p.describes(gates, (cases.len() * k) as u32),
        is_padded_by(rows@, a),
        is_padded_by(rows@, b),
        is_main_interaction(el, a, gates.len() as int, of_a),
        is_main_interaction(el, b, gates.len() as int, of_b),
    ensures
        of_a.1 == of_b.1,
        4 * of_a.0@.len() == 24,
        forall|row: Row| #[trigger] interaction_width(row_uses(row, gates.len() as int).len()) == 24,
        (((of_a.1@ + table_value(&el.qdecode, counts.qdecode@, qdecode)) + table_value(
            &el.rc_lo,
            counts.rc_lo@,
            rc_cols(lo),
        )) + table_value(&el.rc_hi, counts.rc_hi@, rc_cols(hi))) + table_value(
            &el.program,
            p.multiplicity@,
            program_cols(p),
        ) == boundary_value(el, cases, (k * gates.len()) as int),
{
    let n = gates.len() as int;
    assert(cases.len() * k <= cases.len() * (k * gates.len())) by (nonlinear_arith)
        requires
            gates.len() >= 1,
    ;
    lemma_padded_claim(el, rows@, a, n);
    lemma_padded_claim(el, rows@, b, n);
    if cases.len() > 0 {
        lemma_built_rows_honest(rows@, gates, cases, k);
        lemma_claims_balance(
            el,
            rows@,
            gates,
            cases,
            k,
            &counts,
            qdecode,
            lo,
            hi,
            p,
            (cases.len() * k) as u32,
        );
    } else {
        assert(rows@.len() == 0) by {
            assert(0 * (k * gates.len()) == 0);
        }
        assert((cases.len() * k) as u32 == 0) by {
            assert(0 * k == 0);
        }
        assert forall|i: int| 0 <= i < counts.qdecode@.len() implies #[trigger] counts.qdecode@[i] == 0 by {
            assert(counts.qdecode@[i] == Table::QDecode.hits(rows@, 0, i));
        }
        assert forall|i: int| 0 <= i < counts.rc_lo@.len() implies #[trigger] counts.rc_lo@[i] == 0 by {
            assert(counts.rc_lo@[i] == Table::Lo(lo.offset@).hits(rows@, 0, i));
        }
        assert forall|i: int| 0 <= i < counts.rc_hi@.len() implies #[trigger] counts.rc_hi@[i] == 0 by {
            assert(counts.rc_hi@[i] == Table::Hi(hi.offset@).hits(rows@, 0, i));
        }
        assert forall|i: int| 0 <= i < p.multiplicity@.len() implies #[trigger] p.multiplicity@[i] == 0 by {
            if i < gates.len() {
                assert(p.holds(i, gates[i], 0));
            } else {
                assert(p.pads(i));
            }
        }
        lemma_unused_table(&el.qdecode, counts.qdecode@, qdecode);
        lemma_unused_table(&el.rc_lo, counts.rc_lo@, rc_cols(lo));
        lemma_unused_table(&el.rc_hi, counts.rc_hi@, rc_cols(hi));
        lemma_unused_table(&el.program, p.multiplicity@, program_cols(p));
        lemma_add_zero(Ext::zero());
        assert(main_value(el, rows@, n) == Ext::zero());
        assert(boundary_value(el, cases, (k * gates.len()) as int) == Ext::zero());
    }
}

} // verus!
