//! A proof of repeated addition, step by step: the challenges that follow the
//! commitments, the answer to them, and the sums that a verifier derives on its
//! own.
use vstd::arithmetic::power2::lemma2_to64;
use vstd::prelude::*;

use crate::field::{Ext, QM31};
use crate::iadd::{low_register, IaddCase, RangeCheckMode, StateError};
use crate::iadd_balance::expected_main;
use crate::iadd_lookups::{
    boundary_value, check_claims, claimed_sums, counted_dens_nonzero, ends_ready, lookup_public_sum,
    lookup_value, public_boundary_sum, seq_lookup_public_sum, seq_value, BadState, ClaimError,
    IaddElements, RangeClaims,
};
use crate::iadd_rows::LookupCounts;
use crate::iadd_run::{IaddInteraction, IaddTrace};
use crate::logup::views;
use crate::recursion_consts::PcsConfig;
use crate::transcript::{
    close_plain_transcript, felts_drawn, felts_mixed, plain_digest, plain_transcript, root_mixed,
    Transcript,
};

verus! {

/// The challenges are the ones that a digest gives: consecutive pairs of elements.
pub open spec fn is_drawn(digest: Seq<u8>, mode: RangeCheckMode, el: &IaddElements) -> bool {
    &&& el.wf()
    &&& el.ranges is Some <==> mode is Lookup
    &&& if mode is Lookup {
        let f = felts_drawn(digest, 8);
        let g = el.ranges->Some_0;
        &&& el.state.z@ == f[0] && el.state.alpha@ == f[1]
        &&& g.seq18.z@ == f[2] && g.seq18.alpha@ == f[3]
        &&& g.seq11.z@ == f[4] && g.seq11.alpha@ == f[5]
        &&& g.seq6.z@ == f[6] && g.seq6.alpha@ == f[7]
    } else {
        el.state.z@ == felts_drawn(digest, 2)[0] && el.state.alpha@ == felts_drawn(digest, 2)[1]
    }
}

/// Each range table claims minus the lookups of its values.
pub open spec fn ranges_claimed(
    el: &IaddElements,
    counts: Option<LookupCounts>,
    claims: Option<RangeClaims>,
) -> bool {
    &&& claims is Some <==> counts is Some
    &&& claims matches Some(c) ==> {
        let g = el.ranges->Some_0;
        let n = counts->Some_0;
        &&& c.seq18@ == -seq_value(&g.seq18, n.seq18@)
        &&& c.seq11@ == -seq_value(&g.seq11, n.seq11@)
        &&& c.seq6@ == -seq_value(&g.seq6, n.seq6@)
    }
}

/// The answer to the challenges of a proof.
pub struct IaddAnswer {
    pub elements: IaddElements,
    pub interaction: IaddInteraction,
    /// The transcript from which the challenges were drawn.
    pub transcript: Transcript,
}

/// Draws the challenges of a proof whose public and hidden columns have the given
/// roots, and answers them. Where a denominator is zero under the challenges
/// there is no answer, and the challenges come back alone.
pub fn answer_challenge(
    t: &IaddTrace,
    cases: &[IaddCase],
    repetitions: usize,
    mode: RangeCheckMode,
    config: &PcsConfig,
    root0: &[u8; 32],
    root1: &[u8; 32],
) -> (r: Result<IaddAnswer, IaddElements>)
    requires
        0 < repetitions < u32::MAX,
        t.of(cases@, repetitions as nat, mode),
        forall|s: int|
            0 <= s < cases@.len() ==> low_register((#[trigger] cases@[s]).y_hex@) == Ok::<
                nat,
                StateError,
            >(cases@[s].after(repetitions as int) as nat),
        config.fri_config.n_queries <= u32::MAX,
    ensures
        match r {
            Ok(a) => {
                &&& a.transcript.digest@ == plain_digest(config, root0@, root1@)
                &&& is_drawn(a.transcript.digest@, mode, &a.elements)
                &&& t.dens_nonzero(mode, &a.elements)
                &&& a.interaction.fills(t, mode, &a.elements)
                &&& a.interaction.main_claim.wf()
                &&& a.interaction.main_claim@ == expected_main(
                    &a.elements,
                    cases@,
                    repetitions as int,
                    mode,
                    t.counts,
                )
                &&& ranges_claimed(&a.elements, t.counts, a.interaction.range_claims)
            },
            Err(el) => {
                &&& is_drawn(plain_digest(config, root0@, root1@), mode, &el)
                &&& !t.dens_nonzero(mode, &el)
            },
        },
{
    let transcript: Transcript = plain_transcript(config, root0, root1);
    let elements: IaddElements = IaddElements::draw(&transcript, mode);
    if !t.defined_under(cases, repetitions, mode, &elements) {
        return Err(elements);
    }
    let interaction: IaddInteraction = t.interact(cases, repetitions, mode, &elements);
    Ok(IaddAnswer { elements, interaction, transcript })
}

/// The sums that a verifier derives: the boundary, what the range lookups are
/// worth, and what the range tables claim.
pub struct DerivedSums {
    pub boundary: QM31,
    pub lookups: QM31,
    pub main: QM31,
    pub ranges: Option<RangeClaims>,
}

/// The claims as a verifier derives them from the test vectors and the counts,
/// without the main trace.
pub fn verifier_claims(
    cases: &[IaddCase],
    repetitions: u32,
    mode: RangeCheckMode,
    counts: &Option<LookupCounts>,
    el: &IaddElements,
) -> (r: Result<DerivedSums, BadState>)
    requires
        el.wf(),
        cases@.len() <= u32::MAX,
        el.ranges is Some <==> mode is Lookup,
        counts is Some <==> mode is Lookup,
        forall|s: int|
            0 <= s < cases@.len() ==> ends_ready(el, #[trigger] cases@[s], s, repetitions as int),
        mode is Lookup ==> {
            &&& counts->Some_0.sized()
            &&& counted_dens_nonzero(&el.ranges->Some_0.seq18, counts->Some_0.seq18@)
            &&& counted_dens_nonzero(&el.ranges->Some_0.seq11, counts->Some_0.seq11@)
            &&& counted_dens_nonzero(&el.ranges->Some_0.seq6, counts->Some_0.seq6@)
        },
    ensures
        r is Ok <==> forall|s: int|
            0 <= s < cases@.len() ==> low_register((#[trigger] cases@[s]).y_hex@) is Ok,
        r matches Ok(v) ==> {
            &&& v.boundary@ == boundary_value(el, cases@, repetitions as int)
            &&& mode is Lookup ==> v.lookups@ == lookup_value(
                &el.ranges->Some_0,
                &counts->Some_0,
            )
            &&& !(mode is Lookup) ==> v.lookups@ == Ext::zero()
            &&& v.main.wf()
            &&& v.main@ == expected_main(el, cases@, repetitions as int, mode, *counts)
            &&& ranges_claimed(el, *counts, v.ranges)
        },
        r matches Err(e) ==> e.case < cases@.len() && low_register(cases@[e.case as int].y_hex@)
            == Err::<nat, StateError>(e.error) && forall|s: int|
            0 <= s < e.case ==> low_register((#[trigger] cases@[s]).y_hex@) is Ok,
{
    let boundary: QM31 = match public_boundary_sum(cases, repetitions, el) {
        Ok(b) => b,
        Err(e) => {
            return Err(e);
        },
    };
    match (counts, &el.ranges) {
        (Some(n), Some(g)) => {
            proof {
                lemma2_to64();
            }
            let lookups: QM31 = lookup_public_sum(n, g);
            let ranges = RangeClaims {
                seq18: seq_lookup_public_sum(&g.seq18, n.seq18.as_slice()).negate(),
                seq11: seq_lookup_public_sum(&g.seq11, n.seq11.as_slice()).negate(),
                seq6: seq_lookup_public_sum(&g.seq6, n.seq6.as_slice()).negate(),
            };
            Ok(
                DerivedSums {
                    boundary,
                    lookups,
                    main: boundary.plus(lookups),
                    ranges: Some(ranges),
                },
            )
        },
        _ => Ok(DerivedSums { boundary, lookups: QM31::zero(), main: boundary, ranges: None }),
    }
}

/// The first claim that is off, if there is one.
pub open spec fn mismatch_of(
    main: QM31,
    ranges: Option<RangeClaims>,
    derived: &DerivedSums,
) -> Option<ClaimError> {
    if main@ != derived.main@ {
        Some(ClaimError::Main)
    } else {
        match (ranges, derived.ranges) {
            (Some(c), Some(d)) => if c.seq18 != d.seq18 {
                Some(ClaimError::Seq18)
            } else if c.seq11 != d.seq11 {
                Some(ClaimError::Seq11)
            } else if c.seq6 != d.seq6 {
                Some(ClaimError::Seq6)
            } else {
                None
            },
            _ => None,
        }
    }
}

/// Compares claims with those that a verifier derives.
pub fn cross_check(main: QM31, ranges: &Option<RangeClaims>, derived: &DerivedSums) -> (r: Option<
    ClaimError,
>)
    requires
        derived.ranges is Some ==> derived.main@ == derived.boundary@ + derived.lookups@,
    ensures
        r == mismatch_of(main, *ranges, derived),
{
    match (ranges, &derived.ranges) {
        (Some(c), Some(d)) => check_claims(main, derived.boundary, derived.lookups, c, d),
        _ => if main != derived.main {
            Some(ClaimError::Main)
        } else {
            None
        },
    }
}

/// The claims in the order in which they enter the transcript.
pub open spec fn claim_felts(main: QM31, ranges: Option<RangeClaims>) -> Seq<QM31> {
    match ranges {
        Some(c) => seq![main, c.seq18, c.seq11, c.seq6],
        None => seq![main],
    }
}

/// The digest after the claims and the root of the interaction columns.
pub open spec fn closed_digest(
    digest: Seq<u8>,
    main: QM31,
    ranges: Option<RangeClaims>,
    root2: Seq<u8>,
) -> Seq<u8> {
    root_mixed(felts_mixed(digest, views(claim_felts(main, ranges))), root2)
}

/// Absorbs the claims and the root of the interaction columns.
pub fn close_transcript(
    t: &mut Transcript,
    main: QM31,
    ranges: Option<RangeClaims>,
    root2: &[u8; 32],
)
    ensures
        final(t).digest@ == closed_digest(old(t).digest@, main, ranges, root2@),
{
    let felts: Vec<QM31> = claimed_sums(main, ranges);
    close_plain_transcript(t, felts.as_slice(), root2);
}

/// The claims of an answer pass the cross-check, and a verifier derives exactly
/// these claims, so that both go on with the same transcript.
pub proof fn lemma_verifier_claims_agree(
    el: &IaddElements,
    cases: Seq<IaddCase>,
    k: int,
    mode: RangeCheckMode,
    counts: Option<LookupCounts>,
    main: QM31,
    ranges: Option<RangeClaims>,
    derived: &DerivedSums,
    digest: Seq<u8>,
    root2: Seq<u8>,
)
    requires
        main@ == expected_main(el, cases, k, mode, counts),
        ranges_claimed(el, counts, ranges),
        derived.main@ == expected_main(el, cases, k, mode, counts),
        ranges_claimed(el, counts, derived.ranges),
    ensures
        mismatch_of(main, ranges, derived) is None,
        main == derived.main && ranges == derived.ranges,
        closed_digest(digest, main, ranges, root2) == closed_digest(
            digest,
            derived.main,
            derived.ranges,
            root2,
        ),
{
}

} // verus!
