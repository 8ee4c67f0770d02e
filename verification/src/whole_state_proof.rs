//! A stand-alone proof in the whole-state encoding, step by step: the challenges
//! that follow the commitments, the answer to them, and the sums that a verifier
//! derives on its own.
use vstd::prelude::*;

use crate::circuit::{Gate, TestCase};
use crate::field::{Ext, QM31};
use crate::logup::{table_public_sum, table_value, tuple_at, views};
use crate::recursion_consts::PcsConfig;
use crate::transcript::{
    felts_mixed, plain_digest, plain_transcript, root_mixed, Transcript,
};
use crate::whole_state_balance::{program_cols, rc_cols};
use crate::whole_state_lookups::{
    boundary_ready, boundary_value, case_is_hex, derived_main_claim, lemma_derived_main_claim,
    public_boundary_sum, BadText, ClaimError, Claims, LookupElements,
};
use crate::whole_state_run::{qdecode_cols, TraceInteraction, TraceWitness};

verus! {

/// The answer to the challenges of a proof.
pub struct TraceAnswer {
    pub elements: LookupElements,
    pub interaction: TraceInteraction,
    /// The transcript from which the challenges were drawn.
    pub transcript: Transcript,
}

/// Draws the challenges of a proof whose public and hidden columns have the given
/// roots, and answers them. Where a denominator is zero under the challenges
/// there is no answer, and the challenges come back alone.
pub fn answer_challenge(
    w: &TraceWitness,
    gates: &[Gate],
    cases: &[TestCase],
    k: usize,
    config: &PcsConfig,
    root0: &[u8; 32],
    root1: &[u8; 32],
) -> (r: Result<TraceAnswer, LookupElements>)
    requires
        w.of(gates@, cases@, k as nat),
        gates@.len() <= u32::MAX,
        cases@.len() * k <= u32::MAX,
        config.fri_config.n_queries <= u32::MAX,
    ensures
        match r {
            Ok(a) => {
                &&& a.transcript.digest@ == plain_digest(config, root0@, root1@)
                &&& a.elements.wf() && a.elements.drawn(a.transcript.digest@)
                &&& w.dens_nonzero(&a.elements, gates@.len() as int)
                &&& a.interaction.fills(w, &a.elements, gates@.len() as int)
                &&& a.interaction.claims.wf()
                &&& tables_claimed(w, &a.elements, &a.interaction.claims)
                &&& a.interaction.claims.total() == boundary_value(
                    &a.elements,
                    cases@,
                    k * gates@.len(),
                )
            },
            Err(el) => {
                &&& el.wf() && el.drawn(plain_digest(config, root0@, root1@))
                &&& !w.dens_nonzero(&el, gates@.len() as int)
            },
        },
{
    let transcript: Transcript = plain_transcript(config, root0, root1);
    let elements: LookupElements = LookupElements::draw(&transcript);
    if !w.defined_under(gates, cases, k, &elements) {
        return Err(elements);
    }
    let interaction: TraceInteraction = w.interact(gates, cases, k, &elements);
    Ok(TraceAnswer { elements, interaction, transcript })
}

/// The tables claim minus what is looked up in them.
pub open spec fn tables_claimed(w: &TraceWitness, el: &LookupElements, c: &Claims) -> bool {
    &&& c.qdecode@ == table_value(&el.qdecode, w.counts.qdecode@, qdecode_cols(&w.qdecode))
    &&& c.rc_lo@ == table_value(&el.rc_lo, w.counts.rc_lo@, rc_cols(&w.rc_lo))
    &&& c.rc_hi@ == table_value(&el.rc_hi, w.counts.rc_hi@, rc_cols(&w.rc_hi))
    &&& c.program@ == table_value(&el.program, w.program.multiplicity@, program_cols(&w.program))
}

/// The rows of the tables that are looked up have denominators that are not zero.
pub open spec fn counted_nonzero(w: &TraceWitness, el: &LookupElements) -> bool {
    &&& forall|i: int|
        0 <= i < w.counts.qdecode@.len() && w.counts.qdecode@[i] != 0 ==> el.qdecode.den(
            #[trigger] tuple_at(qdecode_cols(&w.qdecode), i),
        ) != Ext::zero()
    &&& forall|i: int|
        0 <= i < w.counts.rc_lo@.len() && w.counts.rc_lo@[i] != 0 ==> el.rc_lo.den(
            #[trigger] tuple_at(rc_cols(&w.rc_lo), i),
        ) != Ext::zero()
    &&& forall|i: int|
        0 <= i < w.counts.rc_hi@.len() && w.counts.rc_hi@[i] != 0 ==> el.rc_hi.den(
            #[trigger] tuple_at(rc_cols(&w.rc_hi), i),
        ) != Ext::zero()
    &&& forall|i: int|
        0 <= i < w.program.multiplicity@.len() && w.program.multiplicity@[i] != 0
            ==> el.program.den(#[trigger] tuple_at(program_cols(&w.program), i)) != Ext::zero()
}

/// The claims as a verifier derives them: the tables' sums, and what they leave of the
/// boundary.
pub open spec fn are_derived(w: &TraceWitness, el: &LookupElements, boundary: Ext, c: &Claims) -> bool {
    &&& tables_claimed(w, el, c)
    &&& c.main@ == (((boundary - c.qdecode@) - c.rc_lo@) - c.rc_hi@) - c.program@
}

/// The boundary and the claims as a verifier derives them, without the main
/// trace: what the tables leave of the boundary is the main trace's.
pub fn verifier_claims(
    w: &TraceWitness,
    gates: &[Gate],
    cases: &[TestCase],
    k: usize,
    el: &LookupElements,
) -> (r: Result<(QM31, Claims), BadText>)
    requires
        el.wf(),
        w.of(gates@, cases@, k as nat),
        gates@.len() * k <= u32::MAX,
        cases@.len() <= u32::MAX,
        counted_nonzero(w, el),
        forall|s: int|
            0 <= s < cases@.len() ==> boundary_ready(el, #[trigger] cases@[s], s, gates@.len() * k),
    ensures
        r is Ok <==> forall|s: int| 0 <= s < cases@.len() ==> case_is_hex(#[trigger] cases@[s]),
        r matches Ok(v) ==> {
            &&& v.0.wf() && v.0@ == boundary_value(el, cases@, gates@.len() * k)
            &&& v.1.wf()
            &&& are_derived(w, el, v.0@, &v.1)
        },
        r matches Err(e) ==> e.shot_id < cases@.len() && !case_is_hex(cases@[e.shot_id as int])
            && forall|s: int| 0 <= s < e.shot_id ==> case_is_hex(#[trigger] cases@[s]),
{
    let boundary: QM31 = match public_boundary_sum(cases, gates.len(), k, el) {
        Ok(b) => b,
        Err(e) => {
            return Err(e);
        },
    };
    let qd: Vec<&Vec<u32>> = vec![&w.qdecode[0], &w.qdecode[1], &w.qdecode[2], &w.qdecode[3]];
    assert(qd@ =~= qdecode_cols(&w.qdecode));
    let qdecode: QM31 = table_public_sum(&el.qdecode, w.counts.qdecode.as_slice(), qd.as_slice());
    let lo: Vec<&Vec<u32>> = vec![&w.rc_lo.pos_col, &w.rc_lo.val_col];
    assert(lo@ =~= rc_cols(&w.rc_lo));
    let rc_lo: QM31 = table_public_sum(&el.rc_lo, w.counts.rc_lo.as_slice(), lo.as_slice());
    let hi: Vec<&Vec<u32>> = vec![&w.rc_hi.pos_col, &w.rc_hi.val_col];
    assert(hi@ =~= rc_cols(&w.rc_hi));
    let rc_hi: QM31 = table_public_sum(&el.rc_hi, w.counts.rc_hi.as_slice(), hi.as_slice());
    let p = &w.program;
    let pc: Vec<&Vec<u32>> = vec![&p.slot, &p.opcode_scalar, &p.target, &p.ctrl_a, &p.ctrl_b];
    assert(pc@ =~= program_cols(&w.program));
    let program: QM31 = table_public_sum(&el.program, p.multiplicity.as_slice(), pc.as_slice());
    let main: QM31 = derived_main_claim(boundary, qdecode, rc_lo, rc_hi, program);
    Ok((boundary, Claims { main, qdecode, rc_lo, rc_hi, program }))
}

/// The first claim that is off, if there is one.
pub open spec fn mismatch_of(w: &TraceWitness, el: &LookupElements, c: &Claims, boundary: Ext) -> Option<
    ClaimError,
> {
    if c.total() != boundary {
        Some(ClaimError::Boundary)
    } else if c.qdecode@ != table_value(
        &el.qdecode,
        w.counts.qdecode@,
        qdecode_cols(&w.qdecode),
    ) {
        Some(ClaimError::QDecode)
    } else if c.rc_lo@ != table_value(&el.rc_lo, w.counts.rc_lo@, rc_cols(&w.rc_lo)) {
        Some(ClaimError::RcLo)
    } else if c.rc_hi@ != table_value(&el.rc_hi, w.counts.rc_hi@, rc_cols(&w.rc_hi)) {
        Some(ClaimError::RcHi)
    } else if c.program@ != table_value(
        &el.program,
        w.program.multiplicity@,
        program_cols(&w.program),
    ) {
        Some(ClaimError::Program)
    } else {
        None
    }
}

/// Compares the claims of an answer with those that a verifier derives.
pub fn cross_check(
    w: &TraceWitness,
    gates: &[Gate],
    cases: &[TestCase],
    k: usize,
    el: &LookupElements,
    claims: &Claims,
) -> (r: Result<Option<ClaimError>, BadText>)
    requires
        el.wf(),
        claims.wf(),
        w.of(gates@, cases@, k as nat),
        gates@.len() * k <= u32::MAX,
        cases@.len() <= u32::MAX,
        counted_nonzero(w, el),
        forall|s: int|
            0 <= s < cases@.len() ==> boundary_ready(el, #[trigger] cases@[s], s, gates@.len() * k),
    ensures
        r is Ok <==> forall|s: int| 0 <= s < cases@.len() ==> case_is_hex(#[trigger] cases@[s]),
        r matches Ok(m) ==> m == mismatch_of(
            w,
            el,
            claims,
            boundary_value(el, cases@, gates@.len() * k),
        ),
        r matches Err(e) ==> e.shot_id < cases@.len() && !case_is_hex(cases@[e.shot_id as int])
            && forall|s: int| 0 <= s < e.shot_id ==> case_is_hex(#[trigger] cases@[s]),
{
    match verifier_claims(w, gates, cases, k, el) {
        Ok(v) => Ok(claims.check(v.0, &v.1)),
        Err(e) => Err(e),
    }
}

/// The digest after the claims and the root of the interaction columns.
pub open spec fn closed_digest(digest: Seq<u8>, c: &Claims, root2: Seq<u8>) -> Seq<u8> {
    root_mixed(
        felts_mixed(digest, seq![c.main@, c.qdecode@, c.rc_lo@, c.rc_hi@, c.program@]),
        root2,
    )
}

/// Absorbs the claims, in the order of the components, and the root of the
/// interaction columns.
pub fn close_transcript(t: &mut Transcript, claims: &Claims, root2: &[u8; 32])
    ensures
        final(t).digest@ == closed_digest(old(t).digest@, claims, root2@),
{
    let felts: Vec<QM31> = claims.in_order();
    assert(views(felts@) =~= seq![
        claims.main@,
        claims.qdecode@,
        claims.rc_lo@,
        claims.rc_hi@,
        claims.program@,
    ]);
    crate::transcript::close_plain_transcript(t, felts.as_slice(), root2);
}

/// The claims of an answer pass the cross-check, and a verifier derives exactly
/// these claims, so that both go on with the same transcript.
pub proof fn lemma_verifier_claims_agree(
    w: &TraceWitness,
    el: &LookupElements,
    made: &Claims,
    derived: &Claims,
    boundary: Ext,
    digest: Seq<u8>,
    root2: Seq<u8>,
)
    requires
        made.wf(),
        tables_claimed(w, el, made),
        made.total() == boundary,
        are_derived(w, el, boundary, derived),
    ensures
        mismatch_of(w, el, made, boundary) is None,
        *made == *derived,
        closed_digest(digest, made, root2) == closed_digest(digest, derived, root2),
{
    lemma_derived_main_claim(
        made.main@,
        made.qdecode@,
        made.rc_lo@,
        made.rc_hi@,
        made.program@,
        boundary,
    );
}

} // verus!
