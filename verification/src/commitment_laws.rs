//! What commitments are made to: the words of a leaf's output one by one, and the
//! messages that a transcript has absorbed when its challenges are drawn.
use vstd::prelude::*;

use crate::circuit_statement::{GateAirStatement, ProgramVars, ShotLimbs, Wire};
use crate::field::{Ext, QM31};
use crate::iadd_lookups::RangeClaims;
use crate::leaf::{flat_limbs, ProgramRows};
use crate::program::ProgramTable;
use crate::qubit_memory_lookups::ShardClaims;
use crate::recursion_consts::PcsConfig;
use crate::transcript::{
    committed_digest, felts_mixed, plain_digest, root_mixed, shard_digest, u64_mixed,
};
use crate::whole_state_lookups::Claims;
use crate::{iadd_proof, shard_proof, whole_state_proof};

verus! {

/// The limbs of the first `n` shots stand at fixed places: 64 words for each shot, the
/// first half of them its first state, the second half its last state.
proof fn lemma_limb_places(b: Seq<ShotLimbs>, n: nat)
    requires
        n <= b.len(),
    ensures
        flat_limbs(b, n).len() == 64 * n,
        forall|s: int, j: int|
            #![trigger b[s].0@[j]]
            0 <= s < n && 0 <= j < 32 ==> flat_limbs(b, n)[64 * s + j] == b[s].0@[j],
        forall|s: int, j: int|
            #![trigger b[s].1@[j]]
            0 <= s < n && 0 <= j < 32 ==> flat_limbs(b, n)[64 * s + 32 + j] == b[s].1@[j],
    decreases n,
{
    if n > 0 {
        let m = (n - 1) as nat;
        lemma_limb_places(b, m);
        let before = flat_limbs(b, m);
        assert forall|s: int, j: int|
            #![trigger b[s].0@[j]]
            0 <= s < n && 0 <= j < 32 implies flat_limbs(b, n)[64 * s + j] == b[s].0@[j] by {
            if s < m {
                assert(flat_limbs(b, n)[64 * s + j] == before[64 * s + j]);
            }
        }
        assert forall|s: int, j: int|
            #![trigger b[s].1@[j]]
            0 <= s < n && 0 <= j < 32 implies flat_limbs(b, n)[64 * s + 32 + j] == b[s].1@[j] by {
            if s < m {
                assert(flat_limbs(b, n)[64 * s + 32 + j] == before[64 * s + 32 + j]);
            }
        }
    }
}

/// The words behind a leaf's output, one by one: 8 words of the commitment to the
/// program, and for shot `s` the 32 limbs of its first state from word `8 + 64 * s` and
/// the 32 limbs of its last state from word `8 + 64 * s + 32`.
pub proof fn lemma_output_words(h_p: Seq<u32>, boundary: Seq<ShotLimbs>, s: int, j: int)
    requires
        h_p.len() == 8,
    ensures
        ({
            let words = h_p + flat_limbs(boundary, boundary.len());
            &&& words.len() == 8 + 64 * boundary.len()
            &&& 0 <= j < 8 ==> words[j] == h_p[j]
            &&& 0 <= s < boundary.len() && 0 <= j < 32 ==> words[8 + 64 * s + j] == boundary[s].0@[j]
                && words[8 + 64 * s + 32 + j] == boundary[s].1@[j]
        }),
{
    lemma_limb_places(boundary, boundary.len());
    let words = h_p + flat_limbs(boundary, boundary.len());
    if 0 <= s < boundary.len() && 0 <= j < 32 {
        let limbs = flat_limbs(boundary, boundary.len());
        assert(limbs[64 * s + j] == boundary[s].0@[j]);
        assert(limbs[64 * s + 32 + j] == boundary[s].1@[j]);
        assert(words[8 + (64 * s + j)] == limbs[64 * s + j]);
        assert(words[8 + (64 * s + 32 + j)] == limbs[64 * s + 32 + j]);
    }
}

/// The words behind a leaf's output tell commitments to different programs apart, and
/// shots that begin or end in different states.
pub proof fn lemma_output_words_tell_apart(
    h_p1: Seq<u32>,
    boundary1: Seq<ShotLimbs>,
    h_p2: Seq<u32>,
    boundary2: Seq<ShotLimbs>,
)
    requires
        h_p1.len() == 8,
        h_p2.len() == 8,
        h_p1 + flat_limbs(boundary1, boundary1.len()) == h_p2 + flat_limbs(
            boundary2,
            boundary2.len(),
        ),
    ensures
        h_p1 == h_p2,
        boundary1.len() == boundary2.len(),
        forall|s: int|
            0 <= s < boundary1.len() ==> (#[trigger] boundary1[s]).0@ == boundary2[s].0@
                && boundary1[s].1@ == boundary2[s].1@,
{
    lemma_output_words(h_p1, boundary1, -1, -1);
    lemma_output_words(h_p2, boundary2, -1, -1);
    assert forall|j: int| 0 <= j < 8 implies h_p1[j] == h_p2[j] by {
        lemma_output_words(h_p1, boundary1, -1, j);
        lemma_output_words(h_p2, boundary2, -1, j);
    }
    assert(h_p1 =~= h_p2);
    assert forall|s: int| 0 <= s < boundary1.len() implies (#[trigger] boundary1[s]).0@ == boundary2[s].0@
        && boundary1[s].1@ == boundary2[s].1@ by {
        assert forall|j: int| 0 <= j < 32 implies boundary1[s].0@[j] == boundary2[s].0@[j]
            && boundary1[s].1@[j] == boundary2[s].1@[j] by {
            lemma_output_words(h_p1, boundary1, s, j);
            lemma_output_words(h_p2, boundary2, s, j);
        }
        assert(boundary1[s].0@ =~= boundary2[s].0@);
        assert(boundary1[s].1@ =~= boundary2[s].1@);
    }
}

/// One message to a transcript.
pub ghost enum Message {
    Felts(Seq<Ext>),
    Root(Seq<u8>),
    Number(u64),
}

/// The digest after the messages, the first of them absorbed first.
pub open spec fn absorbed(start: Seq<u8>, messages: Seq<Message>) -> Seq<u8>
    decreases messages.len(),
{
    if messages.len() == 0 {
        start
    } else {
        let before = absorbed(start, messages.drop_last());
        match messages.last() {
            Message::Felts(f) => felts_mixed(before, f),
            Message::Root(r) => root_mixed(before, r),
            Message::Number(n) => u64_mixed(before, n),
        }
    }
}

/// The digest in which nothing was absorbed: 32 zero bytes.
pub open spec fn untouched() -> Seq<u8> {
    Seq::new(32, |i: int| 0u8)
}

/// The commitment parameters as a message: eight coordinates, of which the last two are
/// not used.
pub open spec fn parameters(c: &PcsConfig) -> Message {
    let lifting = match c.lifting_log_size {
        Some(l) => l as int,
        None => 0,
    };
    Message::Felts(
        seq![
            Ext {
                a: c.pow_bits as int,
                b: c.fri_config.log_blowup_factor as int,
                c: c.fri_config.n_queries as int,
                d: c.fri_config.log_last_layer_degree_bound as int,
            },
            Ext { a: c.fri_config.fold_step as int, b: lifting, c: 0, d: 0 },
        ],
    )
}

proof fn lemma_absorbed_one_more(start: Seq<u8>, messages: Seq<Message>, m: Message)
    ensures
        absorbed(start, messages.push(m)) == (match m {
            Message::Felts(f) => felts_mixed(absorbed(start, messages), f),
            Message::Root(r) => root_mixed(absorbed(start, messages), r),
            Message::Number(n) => u64_mixed(absorbed(start, messages), n),
        }),
{
    assert(messages.push(m).drop_last() =~= messages);
}

/// The messages of a stand-alone proof before its challenges are drawn.
pub open spec fn plain_messages(config: &PcsConfig, root0: Seq<u8>, root1: Seq<u8>) -> Seq<
    Message,
> {
    seq![parameters(config), Message::Root(root0), Message::Root(root1)]
}

/// The challenges of a stand-alone proof are drawn when three messages have been absorbed,
/// each once and in this order: the parameters, the root of the public columns and the
/// root of the hidden columns.
pub proof fn lemma_plain_transcript_absorbs(config: &PcsConfig, root0: Seq<u8>, root1: Seq<u8>)
    requires
        config.fri_config.n_queries <= u32::MAX,
    ensures
        plain_digest(config, root0, root1) == absorbed(
            untouched(),
            plain_messages(config, root0, root1),
        ),
{
    let empty = Seq::<Message>::empty();
    let one = empty.push(parameters(config));
    let two = one.push(Message::Root(root0));
    lemma_absorbed_one_more(untouched(), empty, parameters(config));
    lemma_absorbed_one_more(untouched(), one, Message::Root(root0));
    lemma_absorbed_one_more(untouched(), two, Message::Root(root1));
    assert(two.push(Message::Root(root1)) =~= plain_messages(config, root0, root1));
    assert(crate::transcript::config_felts(config) =~= parameters(config)->Felts_0);
}

/// Stand-alone proofs with the same messages have the same parameters and the same roots.
/// Where the parameters name no lifting size, the message says zero.
pub proof fn lemma_plain_messages_tell_apart(
    c1: &PcsConfig,
    root0: Seq<u8>,
    root1: Seq<u8>,
    c2: &PcsConfig,
    other0: Seq<u8>,
    other1: Seq<u8>,
)
    requires
        plain_messages(c1, root0, root1) == plain_messages(c2, other0, other1),
    ensures
        root0 == other0 && root1 == other1,
        c1.pow_bits == c2.pow_bits,
        c1.fri_config.log_blowup_factor == c2.fri_config.log_blowup_factor,
        c1.fri_config.n_queries == c2.fri_config.n_queries,
        c1.fri_config.log_last_layer_degree_bound == c2.fri_config.log_last_layer_degree_bound,
        c1.fri_config.fold_step == c2.fri_config.fold_step,
        (c1.lifting_log_size matches Some(l) && l > 0) ==> c1.lifting_log_size
            == c2.lifting_log_size,
{
    let p = plain_messages(c1, root0, root1);
    let q = plain_messages(c2, other0, other1);
    assert(p[0] == q[0] && p[1] == q[1] && p[2] == q[2]);
    let f = parameters(c1)->Felts_0;
    let g = parameters(c2)->Felts_0;
    assert(f[0] == g[0] && f[1] == g[1]);
}

/// The messages of a shard before its proof of work.
pub open spec fn committed_messages(
    salt: u32,
    config: &PcsConfig,
    root0: Seq<u8>,
    public_claim: Seq<Ext>,
    root1: Seq<u8>,
) -> Seq<Message> {
    seq![
        Message::Felts(seq![Ext { a: salt as int, b: 0, c: 0, d: 0 }]),
        parameters(config),
        Message::Root(root0),
        Message::Felts(public_claim),
        Message::Root(root1),
    ]
}

/// A shard works on the digest of five messages: the salt, the parameters, the root of the
/// public columns, the public claim and the root of the hidden columns. Its challenges are
/// drawn when the nonce has been absorbed as a sixth.
pub proof fn lemma_shard_transcript_absorbs(
    salt: u32,
    config: &PcsConfig,
    root0: Seq<u8>,
    public_claim: Seq<Ext>,
    root1: Seq<u8>,
    nonce: u64,
)
    requires
        config.fri_config.n_queries <= u32::MAX,
    ensures
        ({
            let messages = committed_messages(salt, config, root0, public_claim, root1);
            &&& committed_digest(salt, config, root0, public_claim, root1) == absorbed(
                untouched(),
                messages,
            )
            &&& shard_digest(salt, config, root0, public_claim, root1, nonce) == absorbed(
                untouched(),
                messages.push(Message::Number(nonce)),
            )
        }),
{
    let empty = Seq::<Message>::empty();
    let salted = Message::Felts(seq![Ext { a: salt as int, b: 0, c: 0, d: 0 }]);
    let one = empty.push(salted);
    let two = one.push(parameters(config));
    let three = two.push(Message::Root(root0));
    let four = three.push(Message::Felts(public_claim));
    let five = four.push(Message::Root(root1));
    lemma_absorbed_one_more(untouched(), empty, salted);
    lemma_absorbed_one_more(untouched(), one, parameters(config));
    lemma_absorbed_one_more(untouched(), two, Message::Root(root0));
    lemma_absorbed_one_more(untouched(), three, Message::Felts(public_claim));
    lemma_absorbed_one_more(untouched(), four, Message::Root(root1));
    lemma_absorbed_one_more(untouched(), five, Message::Number(nonce));
    assert(five =~= committed_messages(salt, config, root0, public_claim, root1));
    assert(crate::transcript::config_felts(config) =~= parameters(config)->Felts_0);
}

/// The challenges of a shard: its salt is zero and its public claim is empty.
pub proof fn lemma_shard_challenges_follow(
    w: &crate::shard::ShardWitness,
    root0: Seq<u8>,
    root1: Seq<u8>,
    nonce: u64,
)
    requires
        w.shape.config.fri_config.n_queries <= u32::MAX,
    ensures
        shard_proof::challenge_digest(w, root0, root1, nonce) == absorbed(
            untouched(),
            seq![
                Message::Felts(seq![Ext { a: 0, b: 0, c: 0, d: 0 }]),
                parameters(&w.shape.config),
                Message::Root(root0),
                Message::Felts(Seq::empty()),
                Message::Root(root1),
                Message::Number(nonce),
            ],
        ),
{
    lemma_shard_transcript_absorbs(0, &w.shape.config, root0, Seq::empty(), root1, nonce);
    assert(committed_messages(0, &w.shape.config, root0, Seq::empty(), root1).push(
        Message::Number(nonce),
    ) =~= seq![
        Message::Felts(seq![Ext { a: 0, b: 0, c: 0, d: 0 }]),
        parameters(&w.shape.config),
        Message::Root(root0),
        Message::Felts(Seq::empty()),
        Message::Root(root1),
        Message::Number(nonce),
    ]);
}

/// The sums that a proof of repeated addition claims: the main trace's, and those of the
/// range tables from the widest to the narrowest.
pub open spec fn addition_sums(main: QM31, ranges: Option<RangeClaims>) -> Seq<Ext> {
    match ranges {
        Some(c) => seq![main@, c.seq18@, c.seq11@, c.seq6@],
        None => seq![main@],
    }
}

/// Two messages close a transcript: all claimed sums, the main trace's first, and then the
/// root of the interaction columns.
pub proof fn lemma_closing_absorbs(
    digest: Seq<u8>,
    shard: &ShardClaims,
    whole: &Claims,
    main: QM31,
    ranges: Option<RangeClaims>,
    root2: Seq<u8>,
)
    ensures
        shard_proof::closed_digest(digest, shard, root2) == absorbed(
            digest,
            seq![
                Message::Felts(seq![shard.main@, shard.program@, shard.boundary@, shard.rc@]),
                Message::Root(root2),
            ],
        ),
        whole_state_proof::closed_digest(digest, whole, root2) == absorbed(
            digest,
            seq![
                Message::Felts(
                    seq![whole.main@, whole.qdecode@, whole.rc_lo@, whole.rc_hi@, whole.program@],
                ),
                Message::Root(root2),
            ],
        ),
        iadd_proof::closed_digest(digest, main, ranges, root2) == absorbed(
            digest,
            seq![
                Message::Felts(addition_sums(main, ranges)),
                Message::Root(root2),
            ],
        ),
{
    lemma_closed(digest, seq![shard.main@, shard.program@, shard.boundary@, shard.rc@], root2);
    lemma_closed(
        digest,
        seq![whole.main@, whole.qdecode@, whole.rc_lo@, whole.rc_hi@, whole.program@],
        root2,
    );
    let sums = addition_sums(main, ranges);
    assert(crate::logup::views(iadd_proof::claim_felts(main, ranges)) =~= sums);
    lemma_closed(digest, sums, root2);
}

proof fn lemma_closed(digest: Seq<u8>, sums: Seq<Ext>, root2: Seq<u8>)
    ensures
        root_mixed(felts_mixed(digest, sums), root2) == absorbed(
            digest,
            seq![Message::Felts(sums), Message::Root(root2)],
        ),
{
    let empty = Seq::<Message>::empty();
    let one = empty.push(Message::Felts(sums));
    lemma_absorbed_one_more(digest, empty, Message::Felts(sums));
    lemma_absorbed_one_more(digest, one, Message::Root(root2));
    assert(one.push(Message::Root(root2)) =~= seq![Message::Felts(sums), Message::Root(root2)]);
}

/// The words of the program's commitment, one by one: six for each slot, in the order
/// slot, opcode, target, controls and multiplicity.
pub proof fn lemma_program_wires(p: &ProgramVars, n: nat, i: int)
    requires
        0 <= i < n,
    ensures
        p.wires(n).len() == 6 * n,
        p.wires(n)[6 * i] == p.slot@[i],
        p.wires(n)[6 * i + 1] == p.opcode_scalar@[i],
        p.wires(n)[6 * i + 2] == p.target@[i],
        p.wires(n)[6 * i + 3] == p.ctrl_a@[i],
        p.wires(n)[6 * i + 4] == p.ctrl_b@[i],
        p.wires(n)[6 * i + 5] == p.multiplicity@[i],
    decreases n,
{
    let m = (n - 1) as nat;
    lemma_wires_len(p, m);
    if i < m {
        lemma_program_wires(p, m, i);
        assert forall|j: int| 0 <= j < 6 * m implies p.wires(n)[j] == p.wires(m)[j] by {}
    }
}

proof fn lemma_wires_len(p: &ProgramVars, n: nat)
    ensures
        p.wires(n).len() == 6 * n,
    decreases n,
{
    if n > 0 {
        lemma_wires_len(p, (n - 1) as nat);
    }
}

/// What a prover may choose of the program: the slot numbers and the multiplicities are
/// fixed, and so is every word of a slot that is not executed; the words of an executed
/// slot are hidden. Each wire carries the word of its own column.
pub proof fn lemma_program_is_bound(p: &ProgramVars, rows: &ProgramRows, i: int)
    requires
        p.binds(rows),
        rows.wf(),
        0 <= i < rows.slot@.len(),
    ensures
        p.slot@[i] == Wire::Pinned(rows.slot@[i]),
        p.multiplicity@[i] == Wire::Pinned(rows.multiplicity@[i]),
        rows.multiplicity@[i] == 0 ==> p.opcode_scalar@[i] == Wire::Pinned(rows.opcode_scalar@[i])
            && p.target@[i] == Wire::Pinned(rows.target@[i]) && p.ctrl_a@[i] == Wire::Pinned(
            rows.ctrl_a@[i],
        ) && p.ctrl_b@[i] == Wire::Pinned(rows.ctrl_b@[i]),
        rows.multiplicity@[i] != 0 ==> p.opcode_scalar@[i] == Wire::Guessed(rows.opcode_scalar@[i])
            && p.target@[i] == Wire::Guessed(rows.target@[i]) && p.ctrl_a@[i] == Wire::Guessed(
            rows.ctrl_a@[i],
        ) && p.ctrl_b@[i] == Wire::Guessed(rows.ctrl_b@[i]),
{
}

/// The words behind the commitment to a program, one by one: six wires for each slot, and
/// after the last slot the two words of the nonce, which the prover supplies.
pub proof fn lemma_words_of_program(st: &GateAirStatement, i: int)
    requires
        st.wf(),
        0 <= i < st.program.slot@.len(),
    ensures
        ({
            let w = st.h_p_words();
            let n = st.program.slot@.len() as int;
            &&& w.len() == 6 * n + 2
            &&& w[6 * i] == st.program.slot@[i]
            &&& w[6 * i + 1] == st.program.opcode_scalar@[i]
            &&& w[6 * i + 2] == st.program.target@[i]
            &&& w[6 * i + 3] == st.program.ctrl_a@[i]
            &&& w[6 * i + 4] == st.program.ctrl_b@[i]
            &&& w[6 * i + 5] == st.program.multiplicity@[i]
            &&& w[6 * n] == Wire::Guessed(st.nonce@[0])
            &&& w[6 * n + 1] == Wire::Guessed(st.nonce@[1])
        }),
{
    lemma_program_wires(&st.program, st.program.slot@.len(), i);
}

/// What a statement says of a shard: the sizes of the main trace, the program, the boundary
/// and the range table, in this order; the root of its public columns; the states of its
/// shots; how many steps a shot has; its program; and the nonce.
pub proof fn lemma_statement_says(
    st: &GateAirStatement,
    main: u32,
    program: u32,
    boundary: u32,
    rc: u32,
    root: [u32; 8],
    shots: Vec<ShotLimbs>,
    total_pc: u32,
    rows: &ProgramRows,
    nonce: [u32; 2],
    i: int,
)
    requires
        st.sized(main, program, boundary, rc),
        st.shows(root, shots, total_pc, rows, nonce),
        rows.wf(),
        0 <= i < rows.slot@.len(),
    ensures
        st.component_log_sizes@.len() == 4,
        st.component_log_sizes@[0] == main && st.component_log_sizes@[1] == program,
        st.component_log_sizes@[2] == boundary && st.component_log_sizes@[3] == rc,
        st.preprocessed_root@ == root@ && st.nonce@ == nonce@ && st.total_pc == total_pc,
        st.boundary@ == shots@,
        st.program.slot@[i].val() == rows.slot@[i],
        st.program.opcode_scalar@[i].val() == rows.opcode_scalar@[i],
        st.program.target@[i].val() == rows.target@[i],
        st.program.ctrl_a@[i].val() == rows.ctrl_a@[i],
        st.program.ctrl_b@[i].val() == rows.ctrl_b@[i],
        st.program.multiplicity@[i].val() == rows.multiplicity@[i],
{
    lemma_program_is_bound(&st.program, rows, i);
}

/// The rows of the program are those of the table, column by column.
pub proof fn lemma_program_rows_of_table(r: &ProgramRows, t: &ProgramTable, i: int)
    requires
        r.of_table(t),
        t.sized(),
        0 <= i < t.slot@.len(),
    ensures
        r.slot@.len() == t.slot@.len(),
        r.slot@[i] == t.slot@[i] && r.opcode_scalar@[i] == t.opcode_scalar@[i] && r.target@[i] == t.target@[i],
        r.ctrl_a@[i] == t.ctrl_a@[i] && r.ctrl_b@[i] == t.ctrl_b@[i] && r.multiplicity@[i]
            == t.multiplicity@[i],
{
}

} // verus!
