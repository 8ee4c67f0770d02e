//! The proof of one shard, step by step: once its columns are committed, the
//! challenges are drawn, the interaction columns answer them, and what the
//! recursion needs to know is handed on.
use vstd::prelude::*;

use crate::circuit::{TestCase, N_QUBITS, STATE_BYTES};
use crate::circuit_statement::{limbs_of_cases, ShotLimbs};
use crate::field::{lemma_mul_comm, lemma_mul_zero, Ext, QM31};
use crate::hexes::hex_bytes;
use crate::logup::{views, Relation};
use crate::qubit_memory_balance::lemma_derived_main_claim;
use crate::qubit_memory_lookups::{
    boundary_claim, boundary_defined, boundary_dens_nonzero, boundary_public_sum, boundary_public_value, end_seq,
    final_seq, main_value, program_claimed_sum, program_defined, program_public_term, program_public_value, program_value,
    public_defined, public_dens_nonzero, qubitmem_public_term, rc_claimed_sum, rc_defined, rc_seq, rc_value, rel_ok,
    slot_dens_nonzero, slot_seq, ClaimMismatch, ShardClaims, TAG_PROGRAM, TAG_PROGRAM_PUB,
};
use crate::shard::{boundary_pairs, ShardInteraction, ShardWitness};
use crate::transcript::{
    close_shard_transcript, draw_shard_relation, felts_drawn, felts_mixed, root_mixed,
    shard_digest, shard_transcript, Transcript,
};
use crate::whole_state_lookups::{case_is_hex, BadText};

verus! {

/// What every shard's transcript begins with.
pub const CHANNEL_SALT: u32 = 0;

/// The relation is the one that a digest gives.
pub open spec fn is_drawn(digest: Seq<u8>, rel: &Relation) -> bool {
    &&& rel_ok(rel)
    &&& rel.z@ == felts_drawn(digest, 2)[0]
    &&& rel.alpha@ == felts_drawn(digest, 2)[1]
}

/// The digest from which a shard's challenges are drawn. Its public claim is
/// empty: what is public of a shard is bound by the sums that it claims.
pub open spec fn challenge_digest(w: &ShardWitness, root0: Seq<u8>, root1: Seq<u8>, nonce: u64) -> Seq<
    u8,
> {
    shard_digest(CHANNEL_SALT, &w.shape.config, root0, Seq::empty(), root1, nonce)
}

/// The answer to a shard's challenges.
pub struct ShardAnswer {
    pub relation: Relation,
    pub interaction: ShardInteraction,
    /// The transcript from which the challenges were drawn.
    pub transcript: Transcript,
}

impl ShardAnswer {
    /// The challenges are those that the commitments give, no denominator is zero
    /// under them, the columns hold the shard's lookups, and the claims are their
    /// sums, which net to the public terms.
    pub open spec fn answers(
        &self,
        w: &ShardWitness,
        n_gates: int,
        root0: Seq<u8>,
        root1: Seq<u8>,
        nonce: u64,
    ) -> bool {
        let (rel, claims) = (&self.relation, &self.interaction.claims);
        &&& self.transcript.digest@ == challenge_digest(w, root0, root1, nonce)
        &&& is_drawn(self.transcript.digest@, rel)
        &&& w.dens_nonzero(rel, n_gates)
        &&& self.interaction.fills(w, rel, n_gates)
        &&& claims.main.wf()
        &&& claims.main@ == main_value(rel, w.real_rows(), n_gates)
        &&& claims.program@ == program_value(rel, &w.program)
        &&& claims.boundary@ == boundary_claim(rel, &w.boundary)
        &&& claims.rc@ == rc_value(rel, &w.rc_table)
        &&& claims.total() == boundary_public_value(rel, &w.boundary) + program_public_value(
            rel,
            &w.program,
        )
    }
}

/// Draws the challenges of a shard whose public and hidden columns have the given
/// roots, and answers them. Where a denominator is zero under the challenges
/// there is no answer, and the relation comes back alone.
pub fn answer_challenge(
    w: &ShardWitness,
    n_gates: u32,
    root0: &[u8; 32],
    root1: &[u8; 32],
    nonce: u64,
) -> (r: Result<ShardAnswer, Relation>)
    requires
        w.honest(n_gates as nat),
    ensures
        match r {
            Ok(a) => a.answers(w, n_gates as int, root0@, root1@, nonce),
            Err(rel) => {
                &&& is_drawn(challenge_digest(w, root0@, root1@, nonce), &rel)
                &&& !w.dens_nonzero(&rel, n_gates as int)
            },
        },
{
    let claim: Vec<QM31> = Vec::new();
    assert(views(claim@) =~= Seq::empty());
    let transcript: Transcript = shard_transcript(
        CHANNEL_SALT,
        &w.shape.config,
        root0,
        claim.as_slice(),
        root1,
        nonce,
    );
    let relation: Relation = draw_shard_relation(&transcript);
    if !w.defined_under(n_gates, &relation) {
        return Err(relation);
    }
    let interaction: ShardInteraction = w.interact(n_gates, &relation);
    Ok(ShardAnswer { relation, interaction, transcript })
}

/// The tables that a verifier recomputes have no denominator that is zero.
pub open spec fn tables_defined(w: &ShardWitness, rel: &Relation) -> bool {
    &&& w.program.sized() && w.boundary.sized() && w.rc_table.sized()
    &&& forall|i: int|
        0 <= i < w.program.slot@.len() ==> #[trigger] slot_dens_nonzero(rel, &w.program, i)
    &&& forall|i: int|
        0 <= i < w.boundary.rows@.len() ==> #[trigger] boundary_dens_nonzero(rel, &w.boundary, i)
    &&& forall|i: int|
        0 <= i < w.rc_table.val@.len() ==> rel.den(rc_seq(#[trigger] w.rc_table.val@[i]))
            != Ext::zero()
    &&& forall|i: int|
        0 <= i < w.boundary.n_shots * N_QUBITS ==> public_dens_nonzero(
            rel,
            #[trigger] w.boundary.rows@[i],
        )
}

/// Whether the tables have no denominator that is zero.
pub fn tables_defined_under(w: &ShardWitness, rel: &Relation) -> (r: bool)
    requires
        rel_ok(rel),
        w.program.sized(),
        w.boundary.sized(),
        w.rc_table.sized(),
    ensures
        r == tables_defined(w, rel),
{
    program_defined(&w.program, rel) && boundary_defined(&w.boundary, rel) && rc_defined(
        &w.rc_table,
        rel,
    ) && public_defined(&w.boundary, rel)
}

/// Where a product is not zero, neither factor is.
proof fn lemma_factors_nonzero(x: Ext, y: Ext)
    requires
        x * y != Ext::zero(),
    ensures
        x != Ext::zero(),
        y != Ext::zero(),
{
    lemma_mul_zero(x);
    lemma_mul_zero(y);
    lemma_mul_comm(x, y);
}

/// A shard's public terms, those of the boundary and of the program, and its
/// tables' sums, computed from the tables alone.
pub struct TableSums {
    pub b_public: QM31,
    pub p_pub: QM31,
    pub program: QM31,
    pub boundary: QM31,
    pub rc: QM31,
}

/// Recomputes the tables' sums.
pub fn table_sums(w: &ShardWitness, rel: &Relation) -> (r: TableSums)
    requires
        rel_ok(rel),
        tables_defined(w, rel),
    ensures
        r.b_public@ == boundary_public_value(rel, &w.boundary),
        r.p_pub@ == program_public_value(rel, &w.program),
        r.program@ == program_value(rel, &w.program),
        r.boundary@ == boundary_claim(rel, &w.boundary),
        r.rc@ == rc_value(rel, &w.rc_table),
{
    proof {
        let p = &w.program;
        assert forall|i: int| 0 <= i < p.slot@.len() implies rel.den(
            #[trigger] slot_seq(p, TAG_PROGRAM, i),
        ) != Ext::zero() by {
            assert(slot_dens_nonzero(rel, p, i));
            lemma_factors_nonzero(
                rel.den(slot_seq(p, TAG_PROGRAM, i)),
                rel.den(slot_seq(p, TAG_PROGRAM_PUB, i)),
            );
        }
        assert forall|i: int| 0 <= i < p.slot@.len() implies rel.den(
            #[trigger] slot_seq(p, TAG_PROGRAM_PUB, i),
        ) != Ext::zero() by {
            assert(slot_dens_nonzero(rel, p, i));
            lemma_factors_nonzero(
                rel.den(slot_seq(p, TAG_PROGRAM, i)),
                rel.den(slot_seq(p, TAG_PROGRAM_PUB, i)),
            );
        }
        let t = &w.boundary;
        assert forall|i: int| 0 <= i < t.rows@.len() implies rel.den(
            end_seq(#[trigger] t.rows@[i]),
        ) != Ext::zero() && rel.den(final_seq(t.rows@[i])) != Ext::zero() by {
            assert(boundary_dens_nonzero(rel, t, i));
            lemma_factors_nonzero(rel.den(end_seq(t.rows@[i])), rel.den(final_seq(t.rows@[i])));
        }
    }
    TableSums {
        b_public: qubitmem_public_term(&w.boundary, rel),
        p_pub: program_public_term(&w.program, rel),
        program: program_claimed_sum(&w.program, rel),
        boundary: boundary_public_sum(&w.boundary, rel),
        rc: rc_claimed_sum(&w.rc_table, rel),
    }
}

/// The first claim that is off, if there is one.
pub open spec fn mismatch_of(w: &ShardWitness, rel: &Relation, claims: &ShardClaims) -> Option<
    ClaimMismatch,
> {
    if claims.total() != boundary_public_value(rel, &w.boundary) + program_public_value(
        rel,
        &w.program,
    ) {
        Some(ClaimMismatch::Net)
    } else if claims.program@ != program_value(rel, &w.program) {
        Some(ClaimMismatch::Program)
    } else if claims.boundary@ != boundary_claim(rel, &w.boundary) {
        Some(ClaimMismatch::Boundary)
    } else if claims.rc@ != rc_value(rel, &w.rc_table) {
        Some(ClaimMismatch::Rc)
    } else {
        None
    }
}

/// Compares the claims that a shard makes with the sums of its tables.
pub fn cross_check(w: &ShardWitness, rel: &Relation, claims: &ShardClaims) -> (r: Option<
    ClaimMismatch,
>)
    requires
        rel_ok(rel),
        tables_defined(w, rel),
    ensures
        r == mismatch_of(w, rel, claims),
{
    let s: TableSums = table_sums(w, rel);
    claims.check(s.b_public, s.p_pub, s.program, s.boundary, s.rc)
}

/// The claims as a verifier derives them: the tables' sums, and what they leave of the
/// public terms.
pub open spec fn are_derived(w: &ShardWitness, rel: &Relation, c: &ShardClaims) -> bool {
    &&& c.program@ == program_value(rel, &w.program)
    &&& c.boundary@ == boundary_claim(rel, &w.boundary)
    &&& c.rc@ == rc_value(rel, &w.rc_table)
    &&& c.main@ == (((boundary_public_value(rel, &w.boundary) + program_public_value(
        rel,
        &w.program,
    )) - program_value(rel, &w.program)) - boundary_claim(rel, &w.boundary)) - rc_value(
        rel,
        &w.rc_table,
    )
}

/// The claims as a verifier derives them, without the main trace: what the tables
/// leave of the public terms is the main trace's.
pub fn verifier_claims(w: &ShardWitness, rel: &Relation) -> (r: ShardClaims)
    requires
        rel_ok(rel),
        tables_defined(w, rel),
    ensures
        are_derived(w, rel, &r),
{
    let s: TableSums = table_sums(w, rel);
    ShardClaims {
        main: ShardClaims::derived_main(s.b_public, s.p_pub, s.program, s.boundary, s.rc),
        program: s.program,
        boundary: s.boundary,
        rc: s.rc,
    }
}

/// The claims of an answer pass the cross-check, and a verifier derives exactly
/// these claims, so that both go on with the same transcript.
pub proof fn lemma_verifier_claims_agree(
    w: &ShardWitness,
    rel: &Relation,
    made: &ShardClaims,
    derived: &ShardClaims,
    digest: Seq<u8>,
    root2: Seq<u8>,
)
    requires
        made.main.wf(),
        made.program@ == program_value(rel, &w.program),
        made.boundary@ == boundary_claim(rel, &w.boundary),
        made.rc@ == rc_value(rel, &w.rc_table),
        made.total() == boundary_public_value(rel, &w.boundary) + program_public_value(
            rel,
            &w.program,
        ),
        are_derived(w, rel, derived),
    ensures
        mismatch_of(w, rel, made) is None,
        *made == *derived,
        closed_digest(digest, made, root2) == closed_digest(digest, derived, root2),
{
    lemma_derived_main_claim(
        made.main@,
        made.program@,
        made.boundary@,
        made.rc@,
        boundary_public_value(rel, &w.boundary) + program_public_value(rel, &w.program),
    );
}

/// The digest after the claims and the root of the interaction columns.
pub open spec fn closed_digest(digest: Seq<u8>, claims: &ShardClaims, root2: Seq<u8>) -> Seq<u8> {
    root_mixed(
        felts_mixed(digest, seq![claims.main@, claims.program@, claims.boundary@, claims.rc@]),
        root2,
    )
}

/// What a shard's proof carries besides the proof itself.
pub struct ShardOutput {
    /// The claimed sums in the order of the components.
    pub claim: Vec<QM31>,
    pub nonce: u64,
    pub salt: u32,
    pub log_n_rows: u32,
    pub program_log_size: u32,
    /// The states before and after each shot.
    pub boundary: Vec<ShotLimbs>,
    pub total_pc: u32,
}

impl ShardOutput {
    /// The claims and the sizes of a shard, and the states of its shots.
    pub open spec fn carries(
        &self,
        w: &ShardWitness,
        cases: Seq<TestCase>,
        claims: &ShardClaims,
        nonce: u64,
    ) -> bool {
        &&& self.claim@ == seq![claims.main, claims.program, claims.boundary, claims.rc]
        &&& self.nonce == nonce && self.salt == CHANNEL_SALT
        &&& self.log_n_rows == w.shape.log_n_rows
        &&& self.program_log_size == w.program.log_size
        &&& limbs_of_cases(self.boundary@, cases)
        &&& self.total_pc == w.total_pc
    }
}

/// Closes the transcript with the claims and the root of the interaction
/// columns, and collects what the shard hands on.
pub fn finish_shard(
    w: &ShardWitness,
    cases: &[TestCase],
    t: &mut Transcript,
    claims: &ShardClaims,
    root2: &[u8; 32],
    nonce: u64,
) -> (r: Result<ShardOutput, BadText>)
    requires
        forall|s: int|
            0 <= s < cases@.len() && case_is_hex(#[trigger] cases@[s]) ==> hex_bytes(
                cases@[s].x_hex@,
            ).len() == STATE_BYTES && hex_bytes(cases@[s].y_hex@).len() == STATE_BYTES,
    ensures
        final(t).digest@ == closed_digest(old(t).digest@, claims, root2@),
        r is Ok <==> forall|s: int| 0 <= s < cases@.len() ==> case_is_hex(#[trigger] cases@[s]),
        r matches Ok(o) ==> o.carries(w, cases@, claims, nonce),
        r matches Err(e) ==> e.shot_id < cases@.len() && !case_is_hex(cases@[e.shot_id as int])
            && forall|s: int| 0 <= s < e.shot_id ==> case_is_hex(#[trigger] cases@[s]),
{
    close_shard_transcript(t, claims, root2);
    let boundary: Vec<ShotLimbs> = match boundary_pairs(cases) {
        Ok(b) => b,
        Err(e) => {
            return Err(e);
        },
    };
    Ok(
        ShardOutput {
            claim: claims.in_order(),
            nonce,
            salt: CHANNEL_SALT,
            log_n_rows: w.shape.log_n_rows,
            program_log_size: w.program.log_size,
            boundary,
            total_pc: w.total_pc,
        },
    )
}

} // verus!
