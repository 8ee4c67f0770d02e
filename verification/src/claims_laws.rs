//! When claims are accepted and when challenges can be answered: what is compared, in which
//! order, and which denominators must not vanish.
use vstd::arithmetic::power2::{lemma2_to64, lemma_pow2_strictly_increases, pow2};
use vstd::prelude::*;

use crate::acceptance_laws::{is_digits, state_in};
use crate::circuit::{byte_limbs, TestCase};
use crate::extension::{lemma_invertible, lemma_product_nonzero};
use crate::field::{
    lemma_mul_assoc, lemma_mul_comm, lemma_mul_one, lemma_mul_zero, lemma_ops_wf, Ext, QM31,
};
use crate::gate_laws::{lemma_qubit_in_text, lemma_text_is_digits};
use crate::hexes::hex_bytes;
use crate::iadd::{low_register, IaddCase, RangeCheckMode};
use crate::iadd_limbs::limbs_of;
use crate::iadd_lookups::{batch_den_nonzero, batch_dens, ends_ready, IaddElements, RangeClaims};
use crate::iadd_proof::DerivedSums;
use crate::iadd_run::{IaddInteraction, IaddTrace};
use crate::kernel::shift_of;
use crate::logup::{fraction_sum, lemma_pair_value, tuple_at, Fraction, Relation};
use crate::lookup_laws::worth;
use crate::numbers::digits_value;
use crate::qubit_memory_lookups::{
    boundary_claim, boundary_public_value, pair_den_nonzero, program_public_value, program_value,
    rc_value, row_uses, ClaimMismatch, ShardClaims,
};
use crate::shard::{ShardInteraction, ShardWitness};
use crate::shard_proof::ShardOutput;
use crate::sums::lemma_sum_ext;
use crate::transcript::{felts_drawn, relations_drawn};
use crate::whole_state_balance::{program_cols, rc_cols};
use crate::whole_state_lookups::{
    boundary_ready, case_is_hex, Claims, LookupElements, RelationId,
};
use crate::whole_state_row_laws::hold;
use crate::whole_state_run::{qdecode_cols, supply_entry, TraceInteraction, TraceWitness};
use crate::{
    iadd_lookups, iadd_proof, qubit_memory, shard_proof, whole_state, whole_state_lookups,
    whole_state_proof,
};

verus! {

/// A product vanishes exactly where a factor does.
proof fn lemma_product(x: Ext, y: Ext)
    requires
        x.wf(),
        y.wf(),
    ensures
        x * y != Ext::zero() <==> x != Ext::zero() && y != Ext::zero(),
{
    if x * y == Ext::zero() {
        lemma_product_nonzero(x, y);
    }
    lemma_mul_zero(x);
    lemma_mul_zero(y);
    lemma_mul_comm(x, y);
}

proof fn lemma_den_wf(rel: &Relation, t: Seq<u32>)
    ensures
        rel.den(t).wf(),
{
    let values = crate::logup::embed(t);
    lemma_ops_wf(
        crate::sums::sum(values.len(), |i: int| rel.alpha_powers@[i]@ * values[i]),
        rel.z@,
    );
}

/// No denominator of a row's ten lookups vanishes.
pub open spec fn row_defined(rel: &Relation, row: qubit_memory::Row, n: int) -> bool {
    forall|j: int| 0 <= j < 10 ==> rel.den((#[trigger] row_uses(row, n)[j]).tuple) != Ext::zero()
}

/// The pairs of a row's lookups are defined exactly if every lookup is.
pub proof fn lemma_pairs_defined(rel: &Relation, row: qubit_memory::Row, n: int)
    ensures
        (forall|b: int| 0 <= b < 5 ==> #[trigger] pair_den_nonzero(rel, row, n, b)) <==> row_defined(
            rel,
            row,
            n,
        ),
{
    let u = row_uses(row, n);
    assert forall|b: int| 0 <= b < 5 implies (#[trigger] pair_den_nonzero(rel, row, n, b) <==> rel.den(
        u[2 * b].tuple,
    ) != Ext::zero() && rel.den(u[2 * b + 1].tuple) != Ext::zero()) by {
        lemma_den_wf(rel, u[2 * b].tuple);
        lemma_den_wf(rel, u[2 * b + 1].tuple);
        lemma_product(rel.den(u[2 * b].tuple), rel.den(u[2 * b + 1].tuple));
    }
    if forall|b: int| 0 <= b < 5 ==> #[trigger] pair_den_nonzero(rel, row, n, b) {
        assert forall|j: int| 0 <= j < 10 implies rel.den((#[trigger] u[j]).tuple) != Ext::zero() by {
            assert(pair_den_nonzero(rel, row, n, j / 2));
            assert(j == 2 * (j / 2) || j == 2 * (j / 2) + 1);
        }
    }
}

/// No denominator of a shard's tables vanishes: those of a slot's gate under both tags,
/// those of a boundary row at its last access and at the end, and those of the range values.
pub open spec fn tables_defined(w: &ShardWitness, rel: &Relation) -> bool {
    &&& forall|i: int|
        0 <= i < w.program.slot@.len() ==> rel.den(gate_tuple(w, 5, #[trigger] w.program.slot@[i], i))
            != Ext::zero() && rel.den(gate_tuple(w, 6, w.program.slot@[i], i)) != Ext::zero()
    &&& forall|i: int|
        0 <= i < w.boundary.rows@.len() ==> {
            let r = #[trigger] w.boundary.rows@[i];
            &&& rel.den(seq![1u32, r.shot_id, r.addr, r.ts_last, r.y]) != Ext::zero()
            &&& rel.den(seq![1u32, r.shot_id, r.addr, 1073741824u32, r.y]) != Ext::zero()
        }
    &&& forall|i: int|
        0 <= i < w.rc_table.val@.len() ==> rel.den(seq![2u32, #[trigger] w.rc_table.val@[i]])
            != Ext::zero()
}

pub open spec fn gate_tuple(w: &ShardWitness, tag: u32, slot: u32, i: int) -> Seq<u32> {
    seq![
        tag,
        slot,
        w.program.opcode_scalar@[i],
        w.program.target@[i],
        w.program.ctrl_a@[i],
        w.program.ctrl_b@[i],
    ]
}

/// A shard's challenges can be answered exactly if no denominator vanishes under them: none
/// of a row's lookups, and none of the tables'.
pub proof fn lemma_shard_answers_where_defined(w: &ShardWitness, rel: &Relation, n: int)
    ensures
        w.dens_nonzero(rel, n) <==> tables_defined(w, rel) && forall|i: int|
            0 <= i < w.rows@.len() ==> row_defined(rel, #[trigger] w.rows@[i], n),
{
    let p = &w.program;
    let t = &w.boundary;
    assert forall|i: int| 0 <= i < w.rows@.len() implies ((forall|b: int|
        0 <= b < 5 ==> #[trigger] pair_den_nonzero(rel, #[trigger] w.rows@[i], n, b)) <==> row_defined(
        rel,
        w.rows@[i],
        n,
    )) by {
        lemma_pairs_defined(rel, w.rows@[i], n);
    }
    assert forall|i: int|
        0 <= i < p.slot@.len() implies (crate::qubit_memory_lookups::slot_dens_nonzero(rel, p, i) <==> rel.den(
        gate_tuple(w, 5, #[trigger] p.slot@[i], i),
    ) != Ext::zero() && rel.den(gate_tuple(w, 6, p.slot@[i], i)) != Ext::zero()) by {
        lemma_den_wf(rel, gate_tuple(w, 5, p.slot@[i], i));
        lemma_den_wf(rel, gate_tuple(w, 6, p.slot@[i], i));
        lemma_product(
            rel.den(gate_tuple(w, 5, p.slot@[i], i)),
            rel.den(gate_tuple(w, 6, p.slot@[i], i)),
        );
    }
    assert forall|i: int|
        0 <= i < t.rows@.len() implies (crate::qubit_memory_lookups::boundary_dens_nonzero(rel, t, i) <==> ({
        let r = #[trigger] t.rows@[i];
        &&& rel.den(seq![1u32, r.shot_id, r.addr, r.ts_last, r.y]) != Ext::zero()
        &&& rel.den(seq![1u32, r.shot_id, r.addr, 1073741824u32, r.y]) != Ext::zero()
    })) by {
        let r = t.rows@[i];
        let (a, b) = (
            seq![1u32, r.shot_id, r.addr, r.ts_last, r.y],
            seq![1u32, r.shot_id, r.addr, 1073741824u32, r.y],
        );
        lemma_den_wf(rel, a);
        lemma_den_wf(rel, b);
        lemma_product(rel.den(a), rel.den(b));
    }
    lemma_dens_direction(w, rel, n);
}

proof fn lemma_dens_direction(w: &ShardWitness, rel: &Relation, n: int)
    requires
        forall|i: int|
            0 <= i < w.rows@.len() ==> ((forall|b: int|
                0 <= b < 5 ==> #[trigger] pair_den_nonzero(rel, #[trigger] w.rows@[i], n, b))
                <==> row_defined(rel, w.rows@[i], n)),
        forall|i: int|
            0 <= i < w.program.slot@.len() ==> (crate::qubit_memory_lookups::slot_dens_nonzero(
                rel,
                &w.program,
                i,
            ) <==> rel.den(gate_tuple(w, 5, #[trigger] w.program.slot@[i], i)) != Ext::zero() && rel.den(
                gate_tuple(w, 6, w.program.slot@[i], i),
            ) != Ext::zero()),
        forall|i: int|
            0 <= i < w.boundary.rows@.len() ==> (crate::qubit_memory_lookups::boundary_dens_nonzero(
                rel,
                &w.boundary,
                i,
            ) <==> ({
                let r = #[trigger] w.boundary.rows@[i];
                &&& rel.den(seq![1u32, r.shot_id, r.addr, r.ts_last, r.y]) != Ext::zero()
                &&& rel.den(seq![1u32, r.shot_id, r.addr, 1073741824u32, r.y]) != Ext::zero()
            })),
    ensures
        w.dens_nonzero(rel, n) <==> tables_defined(w, rel) && forall|i: int|
            0 <= i < w.rows@.len() ==> row_defined(rel, #[trigger] w.rows@[i], n),
{
    let all_rows = forall|i: int| 0 <= i < w.rows@.len() ==> row_defined(rel, #[trigger] w.rows@[i], n);
    if w.dens_nonzero(rel, n) {
        assert forall|i: int| 0 <= i < w.rows@.len() implies row_defined(rel, #[trigger] w.rows@[i], n) by {
            assert forall|b: int| 0 <= b < 5 implies #[trigger] pair_den_nonzero(rel, w.rows@[i], n, b) by {}
        }
        assert forall|i: int|
            0 <= i < w.program.slot@.len() implies rel.den(
            gate_tuple(w, 5, #[trigger] w.program.slot@[i], i),
        ) != Ext::zero() && rel.den(gate_tuple(w, 6, w.program.slot@[i], i)) != Ext::zero() by {
            assert(crate::qubit_memory_lookups::slot_dens_nonzero(rel, &w.program, i));
        }
        assert forall|i: int| 0 <= i < w.boundary.rows@.len() implies ({
            let r = #[trigger] w.boundary.rows@[i];
            &&& rel.den(seq![1u32, r.shot_id, r.addr, r.ts_last, r.y]) != Ext::zero()
            &&& rel.den(seq![1u32, r.shot_id, r.addr, 1073741824u32, r.y]) != Ext::zero()
        }) by {
            assert(crate::qubit_memory_lookups::boundary_dens_nonzero(rel, &w.boundary, i));
        }
        assert forall|i: int|
            0 <= i < w.rc_table.val@.len() implies rel.den(seq![2u32, #[trigger] w.rc_table.val@[i]])
            != Ext::zero() by {
            assert(crate::qubit_memory_lookups::rc_seq(w.rc_table.val@[i]) =~= seq![
                2u32,
                w.rc_table.val@[i],
            ]);
        }
    }
    if tables_defined(w, rel) && all_rows {
        assert forall|i: int, b: int|
            0 <= i < w.rows@.len() && 0 <= b < 5 implies #[trigger] pair_den_nonzero(
            rel,
            w.rows@[i],
            n,
            b,
        ) by {
            assert(row_defined(rel, w.rows@[i], n));
        }
        assert forall|i: int| 0 <= i < w.program.slot@.len() implies #[trigger] crate::qubit_memory_lookups::slot_dens_nonzero(
            rel,
            &w.program,
            i,
        ) by {
            assert(w.program.slot@[i] == w.program.slot@[i]);
        }
        assert forall|i: int| 0 <= i < w.boundary.rows@.len() implies #[trigger] crate::qubit_memory_lookups::boundary_dens_nonzero(
            rel,
            &w.boundary,
            i,
        ) by {
            let r = w.boundary.rows@[i];
        }
        assert forall|i: int| 0 <= i < w.rc_table.val@.len() implies rel.den(
            crate::qubit_memory_lookups::rc_seq(#[trigger] w.rc_table.val@[i]),
        ) != Ext::zero() by {
            assert(crate::qubit_memory_lookups::rc_seq(w.rc_table.val@[i]) =~= seq![
                2u32,
                w.rc_table.val@[i],
            ]);
        }
    }
}

/// A pair of lookups of a whole-state row is defined exactly if both are.
pub proof fn lemma_whole_state_pair_defined(el: &LookupElements, row: whole_state::Row, n: int, b: int)
    requires
        0 <= b < 6,
    ensures
        ({
            let u = whole_state_lookups::row_uses(row, n);
            whole_state_lookups::pair_den_nonzero(el, row, n, b) <==> el.den(u[2 * b].id, u[2 * b].tuple)
                != Ext::zero() && el.den(u[2 * b + 1].id, u[2 * b + 1].tuple) != Ext::zero()
        }),
{
    let u = whole_state_lookups::row_uses(row, n);
    lemma_element_wf(el, u[2 * b].id, u[2 * b].tuple);
    lemma_element_wf(el, u[2 * b + 1].id, u[2 * b + 1].tuple);
    lemma_product(el.den(u[2 * b].id, u[2 * b].tuple), el.den(u[2 * b + 1].id, u[2 * b + 1].tuple));
}

proof fn lemma_element_wf(el: &LookupElements, id: whole_state_lookups::RelationId, t: Seq<u32>)
    ensures
        el.den(id, t).wf(),
{
    lemma_den_wf(&el.state, t);
    lemma_den_wf(&el.qdecode, t);
    lemma_den_wf(&el.rc_lo, t);
    lemma_den_wf(&el.rc_hi, t);
    lemma_den_wf(&el.program, t);
}

/// The relations under which tuples are looked up.
pub proof fn lemma_relation_of_lookup(el: &LookupElements, t: Seq<u32>)
    ensures
        el.den(whole_state_lookups::RelationId::State, t) == el.state.den(t),
        el.den(whole_state_lookups::RelationId::QDecode, t) == el.qdecode.den(t),
        el.den(whole_state_lookups::RelationId::RcLo, t) == el.rc_lo.den(t),
        el.den(whole_state_lookups::RelationId::RcHi, t) == el.rc_hi.den(t),
        el.den(whole_state_lookups::RelationId::Program, t) == el.program.den(t),
{
}

/// A batch of lookups of an addition is defined exactly if both are.
pub proof fn lemma_batch_defined(el: &IaddElements, row: crate::iadd_rows::Row, b: int)
    requires
        0 <= b < 10,
        b > 0 ==> el.ranges is Some,
    ensures
        batch_den_nonzero(el, row, b) <==> batch_dens(el, row, b).0 != Ext::zero() && batch_dens(el, row, b).1
            != Ext::zero(),
{
    let (d0, d1) = batch_dens(el, row, b);
    if b == 0 {
        lemma_den_wf(&el.state, iadd_lookups::state_in(row));
        lemma_den_wf(&el.state, iadd_lookups::state_out(row));
    } else {
        let g = el.ranges->Some_0;
        let lo = crate::iadd_rows::part(row.next@, b - 1, false);
        let hi = crate::iadd_rows::part(row.next@, b - 1, true);
        lemma_den_wf(&g.seq18, seq![lo as u32]);
        lemma_den_wf(&g.seq11, seq![hi as u32]);
        lemma_den_wf(&g.seq6, seq![hi as u32]);
    }
    lemma_product(d0, d1);
}

/// The claims of a shard pass exactly if they net to the public terms and those of the
/// program, the boundary and the range table are the tables' sums. They are looked at in
/// this order.
pub proof fn lemma_shard_claims_compared(w: &ShardWitness, rel: &Relation, c: &ShardClaims)
    ensures
        ({
            let net = ((c.main@ + c.program@) + c.boundary@) + c.rc@ == boundary_public_value(rel, &w.boundary)
                + program_public_value(rel, &w.program);
            let program = c.program@ == program_value(rel, &w.program);
            let boundary = c.boundary@ == boundary_claim(rel, &w.boundary);
            let rc = c.rc@ == rc_value(rel, &w.rc_table);
            let m = shard_proof::mismatch_of(w, rel, c);
            &&& m is None <==> net && program && boundary && rc
            &&& m == Some(ClaimMismatch::Net) <==> !net
            &&& m == Some(ClaimMismatch::Program) <==> net && !program
            &&& m == Some(ClaimMismatch::Boundary) <==> net && program && !boundary
            &&& m == Some(ClaimMismatch::Rc) <==> net && program && boundary && !rc
        }),
{
}

/// The claims of a whole-state proof pass exactly if they leave the boundary and those of the
/// tables are the tables' sums.
pub proof fn lemma_whole_state_claims_compared(
    w: &TraceWitness,
    el: &LookupElements,
    c: &Claims,
    derived: &Claims,
    boundary: Ext,
)
    requires
        whole_state_proof::tables_claimed(w, el, derived),
    ensures
        ({
            let net = (((c.main@ + c.qdecode@) + c.rc_lo@) + c.rc_hi@) + c.program@ == boundary;
            let m = whole_state_proof::mismatch_of(w, el, c, boundary);
            let (q, l, h, p) = (
                c.qdecode@ == derived.qdecode@,
                c.rc_lo@ == derived.rc_lo@,
                c.rc_hi@ == derived.rc_hi@,
                c.program@ == derived.program@,
            );
            &&& m is None <==> net && q && l && h && p
            &&& m == Some(whole_state_lookups::ClaimError::Boundary) <==> !net
            &&& m == Some(whole_state_lookups::ClaimError::QDecode) <==> net && !q
            &&& m == Some(whole_state_lookups::ClaimError::RcLo) <==> net && q && !l
            &&& m == Some(whole_state_lookups::ClaimError::RcHi) <==> net && q && l && !h
            &&& m == Some(whole_state_lookups::ClaimError::Program) <==> net && q && l && h && !p
        }),
{
}

/// The claims of an addition proof pass exactly if they are those that a verifier derives.
pub proof fn lemma_addition_claims_compared(main: QM31, ranges: RangeClaims, d: &DerivedSums)
    requires
        d.ranges is Some,
    ensures
        ({
            let e = d.ranges->Some_0;
            let m = iadd_proof::mismatch_of(main, Some(ranges), d);
            &&& m is None <==> main@ == d.main@ && ranges == e
            &&& m == Some(iadd_lookups::ClaimError::Main) <==> main@ != d.main@
            &&& m == Some(iadd_lookups::ClaimError::Seq18) <==> main@ == d.main@ && ranges.seq18 != e.seq18
            &&& m == Some(iadd_lookups::ClaimError::Seq11) <==> main@ == d.main@ && ranges.seq18 == e.seq18
                && ranges.seq11 != e.seq11
            &&& m == Some(iadd_lookups::ClaimError::Seq6) <==> main@ == d.main@ && ranges.seq18 == e.seq18
                && ranges.seq11 == e.seq11 && ranges.seq6 != e.seq6
        }),
{
}

/// The challenges of relations are drawn in pairs: relation `i` of `n` has the drawn elements
/// `2 * i` and `2 * i + 1` of `2 * n`.
pub proof fn lemma_relations_in_pairs(digest: Seq<u8>, widths: Seq<usize>, r: Seq<Relation>, i: int)
    requires
        relations_drawn(digest, widths, r),
        0 <= i < widths.len(),
    ensures
        r.len() == widths.len(),
        r[i].width() == widths[i],
        r[i].z@ == felts_drawn(digest, 2 * widths.len())[2 * i],
        r[i].alpha@ == felts_drawn(digest, 2 * widths.len())[2 * i + 1],
{
}

/// The relations in the order in which their challenges are drawn: of a shard its one, of a
/// whole-state proof those of the states, the decoding table, the two range tables and the
/// program, of an addition proof those of the states and, with lookups, of the range tables
/// from the widest to the narrowest.
pub proof fn lemma_challenges_in_order(
    digest: Seq<u8>,
    shard: &Relation,
    whole: &LookupElements,
    mode: RangeCheckMode,
    el: &IaddElements,
    i: int,
)
    requires
        shard_proof::is_drawn(digest, shard),
        whole.wf(),
        whole.drawn(digest),
        iadd_proof::is_drawn(digest, mode, el),
    ensures
        shard.z@ == felts_drawn(digest, 2)[0] && shard.alpha@ == felts_drawn(digest, 2)[1],
        shard.width() == 6,
        ({
            let all = seq![&whole.state, &whole.qdecode, &whole.rc_lo, &whole.rc_hi, &whole.program];
            let widths = seq![34nat, 4, 2, 2, 5];
            0 <= i < 5 ==> all[i].width() == widths[i] && all[i].z@ == felts_drawn(digest, 10)[2 * i]
                && all[i].alpha@ == felts_drawn(digest, 10)[2 * i + 1]
        }),
        el.state.width() == 20,
        !(mode is Lookup) ==> el.ranges is None && el.state.z@ == felts_drawn(digest, 2)[0]
            && el.state.alpha@ == felts_drawn(digest, 2)[1],
        mode is Lookup ==> el.ranges is Some && ({
            let g = el.ranges->Some_0;
            let all = seq![&el.state, &g.seq18, &g.seq11, &g.seq6];
            0 <= i < 4 ==> all[i].z@ == felts_drawn(digest, 8)[2 * i] && all[i].alpha@ == felts_drawn(
                digest,
                8,
            )[2 * i + 1]
        }),
{
    assert(0 <= i < 5 ==> i == 0 || i == 1 || i == 2 || i == 3 || i == 4);
}

/// What a shard hands on: its four claims with the main trace's first, its nonce, a salt of
/// zero, its sizes, and the limbs that hold the first and the last state of each shot.
pub proof fn lemma_shard_hands_on(
    o: &ShardOutput,
    w: &ShardWitness,
    cases: Seq<TestCase>,
    claims: &ShardClaims,
    nonce: u64,
    s: int,
)
    requires
        o.carries(w, cases, claims, nonce),
        0 <= s < cases.len(),
        is_digits(cases[s].x_hex@) && cases[s].x_hex@.len() == 128,
        is_digits(cases[s].y_hex@) && cases[s].y_hex@.len() == 128,
    ensures
        o.claim@.len() == 4,
        o.claim@[0] == claims.main && o.claim@[1] == claims.program && o.claim@[2] == claims.boundary
            && o.claim@[3] == claims.rc,
        o.nonce == nonce && o.salt == 0,
        o.log_n_rows == w.shape.log_n_rows && o.program_log_size == w.program.log_size,
        o.total_pc == w.total_pc,
        o.boundary@.len() == cases.len(),
        hold(o.boundary@[s].0@, state_in(cases[s].x_hex@)),
        hold(o.boundary@[s].1@, state_in(cases[s].y_hex@)),
{
    lemma_limbs_of_text(cases[s].x_hex@);
    lemma_limbs_of_text(cases[s].y_hex@);
    assert(o.boundary@[s].0@ == crate::circuit::byte_limbs(crate::hexes::hex_bytes(cases[s].x_hex@)));
}

proof fn lemma_limbs_of_text(x: Seq<char>)
    requires
        is_digits(x),
        x.len() == 128,
    ensures
        hold(crate::circuit::byte_limbs(crate::hexes::hex_bytes(x)), state_in(x)),
{
    let l = crate::circuit::byte_limbs(crate::hexes::hex_bytes(x));
    lemma_text_is_digits(x);
    assert forall|q: int| 0 <= q < 512 implies (l[q / 16] as int / vstd::arithmetic::power2::pow2(
        (q % 16) as nat,
    ) as int % 2 == 1 <==> #[trigger] state_in(x)[q]) by {
        lemma_qubit_in_text(x, q);
        crate::circuit::lemma_split(l[q / 16], (q % 16) as u32);
        assert(crate::circuit::limb_state(l)[q] == state_in(x)[q]);
    }
}

/// The texts of a test vector are hexadecimal exactly if both are an even number of digits.
pub proof fn lemma_texts_are_digits(c: TestCase)
    ensures
        case_is_hex(c) <==> is_digits(c.x_hex@) && is_digits(c.y_hex@),
{
    lemma_text_is_digits(c.x_hex@);
    lemma_text_is_digits(c.y_hex@);
}

/// The ends of a shot are ready exactly if its texts cannot be read, or are 128 digits each
/// and neither denominator vanishes: that of its first state at step zero, and that of its
/// last at the last step.
pub proof fn lemma_ends_are_ready(el: &LookupElements, c: TestCase, s: int, total: int)
    ensures
        boundary_ready(el, c, s, total) <==> (is_digits(c.x_hex@) && is_digits(c.y_hex@) ==> {
            &&& c.x_hex@.len() == 128 && c.y_hex@.len() == 128
            &&& el.state.den(seq![s as u32, 0u32] + byte_limbs(hex_bytes(c.x_hex@))) != Ext::zero()
            &&& el.state.den(seq![s as u32, total as u32] + byte_limbs(hex_bytes(c.y_hex@))) != Ext::zero()
        }),
{
    lemma_text_is_digits(c.x_hex@);
    lemma_text_is_digits(c.y_hex@);
}

/// The ends of a test vector of additions are ready exactly if its final state cannot be
/// read, or neither denominator vanishes.
pub proof fn lemma_addition_ends_are_ready(el: &IaddElements, c: IaddCase, s: int, k: int)
    ensures
        ends_ready(el, c, s, k) <==> (low_register(c.y_hex@) is Ok ==> {
            let (x, y) = (limbs_of(digits_value(c.r0_in@) as int), limbs_of(digits_value(c.r1_in@) as int));
            let z = limbs_of(low_register(c.y_hex@)->Ok_0 as int);
            &&& el.state.den(seq![s as u32, 0u32] + x + y) != Ext::zero()
            &&& el.state.den(seq![s as u32, k as u32] + z + y) != Ext::zero()
        }),
{
}

/// A column claims the sum of its fractions: one more adds its numerator over its
/// denominator.
pub proof fn lemma_one_more_fraction(s: Seq<Fraction>, f: Fraction)
    ensures
        fraction_sum(s.push(f), s.len() + 1) == fraction_sum(s, s.len()) + f.num@ * f.den@.inv(),
        fraction_sum(Seq::<Fraction>::empty(), 0) == Ext::zero(),
{
    let t = s.push(f);
    lemma_sum_ext(s.len(), |i: int| t[i].value(), |i: int| s[i].value());
}

/// A table's row is looked up minus as often as it is counted.
pub proof fn lemma_supplied(id: RelationId, m: Ext, values: Seq<Ext>)
    ensures
        supply_entry(id, m, values).id == id,
        supply_entry(id, m, values).multiplicity == -m,
        supply_entry(id, m, values).values == values,
{
}

/// A row's share of a claimed sum, taken as often as there are rows, is the sum.
pub proof fn lemma_shares_of_sum(claimed: Ext, log_n_rows: u32)
    requires
        log_n_rows <= 30,
        claimed.wf(),
    ensures
        shift_of(claimed, log_n_rows) * Ext::base(pow2(log_n_rows as nat) as int) == claimed,
{
    let n = pow2(log_n_rows as nat) as int;
    let x = Ext::base(n);
    lemma2_to64();
    if log_n_rows < 30 {
        lemma_pow2_strictly_increases(log_n_rows as nat, 30);
    }
    if log_n_rows > 0 {
        lemma_pow2_strictly_increases(0, log_n_rows as nat);
    }
    assert(0 < n < 0x7fff_ffff);
    assert(x.a == n);
    lemma_invertible(x);
    lemma_mul_assoc(claimed, x.inv(), x);
    lemma_mul_comm(x.inv(), x);
    lemma_mul_one(claimed);
}

/// No denominator of a whole-state row's twelve lookups vanishes.
pub open spec fn whole_row_defined(el: &LookupElements, row: whole_state::Row, n: int) -> bool {
    forall|j: int|
        0 <= j < 12 ==> {
            let u = #[trigger] whole_state_lookups::row_uses(row, n)[j];
            el.den(u.id, u.tuple) != Ext::zero()
        }
}

/// Row `i` of each table is defined, as far as the table has one.
pub open spec fn whole_tables_defined(w: &TraceWitness, el: &LookupElements, i: int) -> bool {
    &&& 0 <= i < 512 ==> el.qdecode.den(tuple_at(qdecode_cols(&w.qdecode), i)) != Ext::zero()
    &&& 0 <= i < 65536 ==> el.rc_lo.den(tuple_at(rc_cols(&w.rc_lo), i)) != Ext::zero()
    &&& 0 <= i < 65536 ==> el.rc_hi.den(tuple_at(rc_cols(&w.rc_hi), i)) != Ext::zero()
    &&& 0 <= i < w.program.slot@.len() ==> el.program.den(tuple_at(program_cols(&w.program), i))
        != Ext::zero()
}

/// The challenges of a whole-state proof can be answered exactly if no denominator vanishes
/// under them: none of a row's lookups, and none of the four tables'.
pub proof fn lemma_whole_state_answers_where_defined(w: &TraceWitness, el: &LookupElements, n: int)
    ensures
        w.dens_nonzero(el, n) <==> (forall|i: int|
            0 <= i < w.rows@.len() ==> whole_row_defined(el, #[trigger] w.rows@[i], n)) && (forall|i: int|
            #[trigger] whole_tables_defined(w, el, i)),
{
    let rows = forall|i: int| 0 <= i < w.rows@.len() ==> whole_row_defined(el, #[trigger] w.rows@[i], n);
    let tables = forall|i: int| #[trigger] whole_tables_defined(w, el, i);
    if w.dens_nonzero(el, n) {
        assert forall|i: int| 0 <= i < w.rows@.len() implies whole_row_defined(el, #[trigger] w.rows@[i], n) by {
            lemma_whole_row_defined(el, w.rows@[i], n);
            assert forall|b: int| 0 <= b < 6 implies #[trigger] whole_state_lookups::pair_den_nonzero(
                el,
                w.rows@[i],
                n,
                b,
            ) by {}
        }
        assert forall|i: int| #[trigger] whole_tables_defined(w, el, i) by {}
    }
    if rows && tables {
        assert forall|i: int, b: int|
            0 <= i < w.rows@.len() && 0 <= b < 6 implies #[trigger] whole_state_lookups::pair_den_nonzero(
            el,
            w.rows@[i],
            n,
            b,
        ) by {
            assert(whole_row_defined(el, w.rows@[i], n));
            lemma_whole_row_defined(el, w.rows@[i], n);
        }
        assert forall|i: int| 0 <= i < 512 implies el.qdecode.den(
            #[trigger] tuple_at(qdecode_cols(&w.qdecode), i),
        ) != Ext::zero() by {
            assert(whole_tables_defined(w, el, i));
        }
        assert forall|i: int| 0 <= i < 65536 implies el.rc_lo.den(
            #[trigger] tuple_at(rc_cols(&w.rc_lo), i),
        ) != Ext::zero() by {
            assert(whole_tables_defined(w, el, i));
        }
        assert forall|i: int| 0 <= i < 65536 implies el.rc_hi.den(
            #[trigger] tuple_at(rc_cols(&w.rc_hi), i),
        ) != Ext::zero() by {
            assert(whole_tables_defined(w, el, i));
        }
        assert forall|i: int| 0 <= i < w.program.slot@.len() implies el.program.den(
            #[trigger] tuple_at(program_cols(&w.program), i),
        ) != Ext::zero() by {
            assert(whole_tables_defined(w, el, i));
        }
    }
}

proof fn lemma_whole_row_defined(el: &LookupElements, row: whole_state::Row, n: int)
    ensures
        (forall|b: int| 0 <= b < 6 ==> #[trigger] whole_state_lookups::pair_den_nonzero(el, row, n, b))
            <==> whole_row_defined(el, row, n),
{
    let u = whole_state_lookups::row_uses(row, n);
    assert forall|b: int| 0 <= b < 6 implies (#[trigger] whole_state_lookups::pair_den_nonzero(el, row, n, b)
        <==> el.den(u[2 * b].id, u[2 * b].tuple) != Ext::zero() && el.den(
        u[2 * b + 1].id,
        u[2 * b + 1].tuple,
    ) != Ext::zero()) by {
        lemma_whole_state_pair_defined(el, row, n, b);
    }
    if forall|b: int| 0 <= b < 6 ==> #[trigger] whole_state_lookups::pair_den_nonzero(el, row, n, b) {
        assert forall|j: int| 0 <= j < 12 implies ({
            let v = #[trigger] u[j];
            el.den(v.id, v.tuple) != Ext::zero()
        }) by {
            assert(whole_state_lookups::pair_den_nonzero(el, row, n, j / 2));
            assert(j == 2 * (j / 2) || j == 2 * (j / 2) + 1);
        }
    }
}

/// Neither denominator of the first `n` pairs of an addition's lookups vanishes.
pub open spec fn addition_row_defined(el: &IaddElements, row: crate::iadd_rows::Row, n: int) -> bool {
    forall|b: int|
        0 <= b < n ==> (#[trigger] batch_dens(el, row, b)).0 != Ext::zero() && batch_dens(el, row, b).1
            != Ext::zero()
}

/// No value below `n` has a denominator that vanishes.
pub open spec fn values_defined(rel: &Relation, n: int) -> bool {
    forall|v: u32| v < n ==> rel.den(#[trigger] seq![v]) != Ext::zero()
}

/// The challenges of an addition proof can be answered exactly if no denominator vanishes
/// under them: none of a row's lookups, and, with lookups, none of the range tables' values.
pub proof fn lemma_addition_answers_where_defined(
    t: &IaddTrace,
    cases: Seq<IaddCase>,
    k: nat,
    mode: RangeCheckMode,
    el: &IaddElements,
)
    requires
        t.of(cases, k, mode),
        mode is Lookup ==> el.ranges is Some,
    ensures
        ({
            let pairs = if mode is Lookup { 10int } else { 1 };
            let g = el.ranges->Some_0;
            t.dens_nonzero(mode, el) <==> (forall|i: int|
                0 <= i < t.rows@.len() ==> addition_row_defined(el, #[trigger] t.rows@[i], pairs)) && (mode
                is Lookup ==> values_defined(&g.seq18, 262144) && values_defined(&g.seq11, 2048)
                && values_defined(&g.seq6, 64))
        }),
{
    let pairs = if mode is Lookup { 10int } else { 1 };
    lemma2_to64();
    assert forall|i: int, b: int| 0 <= i < t.rows@.len() && 0 <= b < pairs implies (
    #[trigger] batch_den_nonzero(el, t.rows@[i], b) <==> batch_dens(el, t.rows@[i], b).0 != Ext::zero()
        && batch_dens(el, t.rows@[i], b).1 != Ext::zero()) by {
        lemma_batch_defined(el, t.rows@[i], b);
    }
    let rows = forall|i: int|
        0 <= i < t.rows@.len() ==> addition_row_defined(el, #[trigger] t.rows@[i], pairs);
    if t.dens_nonzero(mode, el) {
        assert forall|i: int| 0 <= i < t.rows@.len() implies addition_row_defined(
            el,
            #[trigger] t.rows@[i],
            pairs,
        ) by {
            assert forall|b: int| 0 <= b < pairs implies (#[trigger] batch_dens(el, t.rows@[i], b)).0
                != Ext::zero() && batch_dens(el, t.rows@[i], b).1 != Ext::zero() by {
                assert(batch_den_nonzero(el, t.rows@[i], b));
            }
        }
    }
    if rows {
        assert forall|i: int, b: int|
            0 <= i < t.rows@.len() && 0 <= b < pairs implies #[trigger] batch_den_nonzero(el, t.rows@[i], b) by {
            assert(addition_row_defined(el, t.rows@[i], pairs));
            assert(batch_dens(el, t.rows@[i], b).0 != Ext::zero());
        }
    }
    if mode is Lookup {
        let (g, n) = (el.ranges->Some_0, t.counts->Some_0);
        lemma_values_defined(&g.seq18, n.seq18@, 262144);
        lemma_values_defined(&g.seq11, n.seq11@, 2048);
        lemma_values_defined(&g.seq6, n.seq6@, 64);
    }
}

proof fn lemma_values_defined(rel: &Relation, counts: Seq<u32>, n: int)
    requires
        counts.len() == n,
        n <= u32::MAX,
    ensures
        iadd_lookups::seq_dens_nonzero(rel, counts) <==> values_defined(rel, n),
{
    if iadd_lookups::seq_dens_nonzero(rel, counts) {
        assert forall|v: u32| v < n implies rel.den(#[trigger] seq![v]) != Ext::zero() by {
            assert(iadd_lookups::value_den_nonzero(rel, v as int));
        }
    }
    if values_defined(rel, n) {
        assert forall|v: int| 0 <= v < n implies #[trigger] iadd_lookups::value_den_nonzero(rel, v) by {
            let x = v as u32;
            assert(rel.den(seq![x]) != Ext::zero());
        }
    }
}

/// Two lookups as one fraction.
proof fn lemma_two_lookups(m0: int, d0: Ext, m1: int, d1: Ext, f: Fraction)
    requires
        d0.wf() && d1.wf(),
        d0 != Ext::zero() && d1 != Ext::zero(),
        f.num@ == Ext::base(m0) * d1 + Ext::base(m1) * d0,
        f.den@ == d0 * d1,
    ensures
        f.num@ * f.den@.inv() == Ext::base(m0) * d0.inv() + Ext::base(m1) * d1.inv(),
{
    lemma_invertible(d0);
    lemma_invertible(d1);
    lemma_pair_value(Ext::base(m0), d0, Ext::base(m1), d1);
}

/// Column `b` of a shard's interaction holds, in row `i`, what lookups `2 * b` and
/// `2 * b + 1` of that row are worth.
pub proof fn lemma_column_of_step(
    t: &ShardInteraction,
    w: &ShardWitness,
    rel: &Relation,
    n: int,
    b: int,
    i: int,
)
    requires
        t.fills(w, rel, n),
        0 <= b < 5,
        0 <= i < w.rows@.len(),
        row_defined(rel, w.rows@[i], n),
    ensures
        t.main@.len() == 5 && t.main@[b]@.len() == w.rows@.len(),
        ({
            let f = t.main@[b]@[i];
            let u = row_uses(w.rows@[i], n);
            f.num@ * f.den@.inv() == worth(rel, u[2 * b].mult, u[2 * b].tuple) + worth(
                rel,
                u[2 * b + 1].mult,
                u[2 * b + 1].tuple,
            )
        }),
{
    let f = t.main@[b]@[i];
    let u = row_uses(w.rows@[i], n);
    assert(rel.den(u[2 * b].tuple) != Ext::zero() && rel.den(u[2 * b + 1].tuple) != Ext::zero());
    lemma_den_wf(rel, u[2 * b].tuple);
    lemma_den_wf(rel, u[2 * b + 1].tuple);
    lemma_two_lookups(
        u[2 * b].mult,
        rel.den(u[2 * b].tuple),
        u[2 * b + 1].mult,
        rel.den(u[2 * b + 1].tuple),
        f,
    );
}

/// The program column of a shard's interaction holds, slot by slot, what the slot supplies
/// and shows.
pub proof fn lemma_column_of_slots(
    t: &ShardInteraction,
    w: &ShardWitness,
    rel: &Relation,
    n: int,
    i: int,
)
    requires
        t.fills(w, rel, n),
        tables_defined(w, rel),
        0 <= i < w.program.slot@.len(),
    ensures
        t.program@.len() == w.program.slot@.len(),
        ({
            let f = t.program@[i];
            let m = w.program.multiplicity@[i] as int;
            let s = w.program.slot@[i];
            f.num@ * f.den@.inv() == worth(rel, -m, gate_tuple(w, 5, s, i)) + worth(
                rel,
                m,
                gate_tuple(w, 6, s, i),
            )
        }),
{
    let m = w.program.multiplicity@[i] as int;
    let s = w.program.slot@[i];
    let (a, b) = (gate_tuple(w, 5, s, i), gate_tuple(w, 6, s, i));
    lemma_den_wf(rel, a);
    lemma_den_wf(rel, b);
    lemma_two_lookups(-m, rel.den(a), m, rel.den(b), t.program@[i]);
}

/// The boundary column of a shard's interaction holds, row by row, what the end of the
/// row's qubit takes and shows; the range column holds minus what each value supplies.
pub proof fn lemma_columns_of_ends(
    t: &ShardInteraction,
    w: &ShardWitness,
    rel: &Relation,
    n: int,
    i: int,
    j: int,
)
    requires
        t.fills(w, rel, n),
        tables_defined(w, rel),
        0 <= i < w.boundary.rows@.len(),
        0 <= j < w.rc_table.val@.len(),
    ensures
        t.boundary@.len() == w.boundary.rows@.len(),
        t.rc@.len() == w.rc_table.val@.len(),
        t.rc@[j].num@ * t.rc@[j].den@.inv() == worth(
            rel,
            -w.rc_table.multiplicity@[j],
            seq![2u32, w.rc_table.val@[j]],
        ),
        ({
            let g = t.boundary@[i];
            let r = w.boundary.rows@[i];
            let on = if i < 512 * w.boundary.n_shots { 1int } else { 0 };
            g.num@ * g.den@.inv() == worth(rel, on, seq![1u32, r.shot_id, r.addr, r.ts_last, r.y]) + worth(
                rel,
                -on,
                seq![1u32, r.shot_id, r.addr, 1073741824u32, r.y],
            )
        }),
{
    let r = w.boundary.rows@[i];
    let on = if i < 512 * w.boundary.n_shots { 1int } else { 0 };
    let (c, d) = (
        seq![1u32, r.shot_id, r.addr, r.ts_last, r.y],
        seq![1u32, r.shot_id, r.addr, 1073741824u32, r.y],
    );
    lemma_den_wf(rel, c);
    lemma_den_wf(rel, d);
    lemma_two_lookups(on, rel.den(c), -on, rel.den(d), t.boundary@[i]);
}

/// Column `b` of a whole-state interaction holds, in row `i`, lookups `2 * b` and
/// `2 * b + 1` of that row.
pub proof fn lemma_column_of_whole_state_step(
    t: &TraceInteraction,
    w: &TraceWitness,
    el: &LookupElements,
    n: int,
    b: int,
    i: int,
)
    requires
        t.fills(w, el, n),
        0 <= b < 6,
        0 <= i < w.rows@.len(),
        whole_row_defined(el, w.rows@[i], n),
    ensures
        t.main@.len() == 6 && t.main@[b]@.len() == w.rows@.len(),
        ({
            let f = t.main@[b]@[i];
            let u = whole_state_lookups::row_uses(w.rows@[i], n);
            f.num@ * f.den@.inv() == Ext::base(u[2 * b].mult) * el.den(
                u[2 * b].id,
                u[2 * b].tuple,
            ).inv() + Ext::base(u[2 * b + 1].mult) * el.den(
                u[2 * b + 1].id,
                u[2 * b + 1].tuple,
            ).inv()
        }),
{
    let u = whole_state_lookups::row_uses(w.rows@[i], n);
    let (u0, u1) = (u[2 * b], u[2 * b + 1]);
    let (d0, d1) = (el.den(u0.id, u0.tuple), el.den(u1.id, u1.tuple));
    assert(d0 != Ext::zero() && d1 != Ext::zero());
    lemma_element_wf(el, u0.id, u0.tuple);
    lemma_element_wf(el, u1.id, u1.tuple);
    lemma_two_lookups(u0.mult, d0, u1.mult, d1, t.main@[b]@[i]);
}

/// The tables of a whole-state interaction hold, row by row, minus what the row supplies:
/// a gate's places and bits, a value below its bound, a gate of the program.
pub proof fn lemma_columns_of_whole_state_tables(
    t: &TraceInteraction,
    w: &TraceWitness,
    el: &LookupElements,
    n: int,
    i: int,
)
    requires
        t.fills(w, el, n),
    ensures
        0 <= i < w.counts.qdecode@.len() ==> t.qdecode@[i].num@ * t.qdecode@[i].den@.inv() == worth(
            &el.qdecode,
            -w.counts.qdecode@[i],
            tuple_at(qdecode_cols(&w.qdecode), i),
        ),
        0 <= i < w.counts.rc_lo@.len() ==> t.rc_lo@[i].num@ * t.rc_lo@[i].den@.inv() == worth(
            &el.rc_lo,
            -w.counts.rc_lo@[i],
            tuple_at(rc_cols(&w.rc_lo), i),
        ),
        0 <= i < w.counts.rc_hi@.len() ==> t.rc_hi@[i].num@ * t.rc_hi@[i].den@.inv() == worth(
            &el.rc_hi,
            -w.counts.rc_hi@[i],
            tuple_at(rc_cols(&w.rc_hi), i),
        ),
        0 <= i < w.program.multiplicity@.len() ==> t.program@[i].num@ * t.program@[i].den@.inv()
            == worth(
            &el.program,
            -w.program.multiplicity@[i],
            tuple_at(program_cols(&w.program), i),
        ),
{
}

/// Column `b` of an addition's interaction holds, in row `i`, pair `b` of the row's lookups:
/// the first of them as often as the row is real, the second as often, or, for the states,
/// minus as often.
pub proof fn lemma_column_of_addition(
    c: &IaddInteraction,
    t: &IaddTrace,
    mode: RangeCheckMode,
    el: &IaddElements,
    b: int,
    i: int,
)
    requires
        c.fills(t, mode, el),
        mode is Lookup ==> el.ranges is Some,
        0 <= b < (if mode is Lookup { 10int } else { 1 }),
        0 <= i < t.rows@.len(),
        batch_dens(el, t.rows@[i], b).0 != Ext::zero(),
        batch_dens(el, t.rows@[i], b).1 != Ext::zero(),
    ensures
        c.main@.len() == (if mode is Lookup { 10int } else { 1 }),
        c.main@[b]@.len() == t.rows@.len(),
        ({
            let f = c.main@[b]@[i];
            let (d0, d1) = batch_dens(el, t.rows@[i], b);
            let m = t.rows@[i].is_real as int;
            f.num@ * f.den@.inv() == Ext::base(m) * d0.inv() + Ext::base(
                if b == 0 {
                    -m
                } else {
                    m
                },
            ) * d1.inv()
        }),
{
    let row = t.rows@[i];
    let m = row.is_real as int;
    let (d0, d1) = batch_dens(el, row, b);
    if b == 0 {
        lemma_den_wf(&el.state, iadd_lookups::state_in(row));
        lemma_den_wf(&el.state, iadd_lookups::state_out(row));
    } else {
        let g = el.ranges->Some_0;
        let lo = crate::iadd_rows::part(row.next@, b - 1, false);
        let hi = crate::iadd_rows::part(row.next@, b - 1, true);
        lemma_den_wf(&g.seq18, seq![lo as u32]);
        lemma_den_wf(&g.seq11, seq![hi as u32]);
        lemma_den_wf(&g.seq6, seq![hi as u32]);
    }
    let m1 = if b == 0 {
        -m
    } else {
        m
    };
    lemma_two_lookups(m, d0, m1, d1, c.main@[b]@[i]);
}

/// The range columns of an addition's interaction hold, for the tables of 18, 11 and 6 bits
/// in that order, minus what each value supplies.
pub proof fn lemma_columns_of_ranges(
    c: &IaddInteraction,
    t: &IaddTrace,
    el: &IaddElements,
    v: int,
)
    requires
        c.fills(t, RangeCheckMode::Lookup, el),
        el.ranges is Some,
        t.counts is Some,
    ensures
        c.ranges@.len() == 3,
        ({
            let (g, n) = (el.ranges->Some_0, t.counts->Some_0);
            let r = c.ranges@;
            &&& 0 <= v < n.seq18@.len() ==> r[0]@[v].num@ * r[0]@[v].den@.inv() == worth(
                &g.seq18,
                -n.seq18@[v],
                seq![v as u32],
            )
            &&& 0 <= v < n.seq11@.len() ==> r[1]@[v].num@ * r[1]@[v].den@.inv() == worth(
                &g.seq11,
                -n.seq11@[v],
                seq![v as u32],
            )
            &&& 0 <= v < n.seq6@.len() ==> r[2]@[v].num@ * r[2]@[v].den@.inv() == worth(
                &g.seq6,
                -n.seq6@[v],
                seq![v as u32],
            )
        }),
{
}

} // verus!
