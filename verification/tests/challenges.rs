//! Field arithmetic, transcripts and digests against the crates they rest on.
use gate_air::field::{P, QM31};
use gate_air::fingerprint::{
    base_proof_fingerprint, proof_fingerprint, recursion_fingerprint, sha256_hex, NodePart,
    ShardPart,
};
use gate_air::iadd::RangeCheckMode;
use gate_air::iadd_lookups::IaddElements;
use gate_air::leaf::leaf_pcs_config;
use gate_air::logup::{claimed_sum, gen_table_interaction, table_public_sum, Fraction, Relation};
use gate_air::qubit_memory_lookups::ShardClaims;
use gate_air::transcript::{
    close_plain_transcript, close_shard_transcript, draw_shard_relation, plain_transcript,
    shard_transcript, Transcript,
};
use gate_air::whole_state_lookups::LookupElements;
use sha2::Digest;

fn theirs(x: QM31) -> stwo::core::fields::qm31::SecureField {
    stwo::core::fields::qm31::SecureField::from_u32_unchecked(x.a, x.b, x.c, x.d)
}

fn ours(x: stwo::core::fields::qm31::SecureField) -> QM31 {
    let m = x.to_m31_array();
    QM31::from_u32_unchecked(m[0].0, m[1].0, m[2].0, m[3].0)
}

fn values() -> Vec<QM31> {
    vec![
        QM31::one(),
        QM31::from_base(2),
        QM31::from_u32_unchecked(P - 1, 0, 0, 0),
        QM31::from_u32_unchecked(0, 1, 0, 0),
        QM31::from_u32_unchecked(0, 0, 0, 5),
        QM31::from_u32_unchecked(123_456_789, 987_654_321, 1_111_111_111, 2_000_000_000),
        QM31::from_u32_unchecked(P - 1, P - 2, P - 3, P - 4),
    ]
}

#[test]
fn arithmetic_is_stwos() {
    for x in values() {
        assert_eq!(theirs(x.negate()), -theirs(x));
        assert_eq!(theirs(x.inverse()), stwo::core::fields::FieldExpOps::inverse(&theirs(x)));
        assert_eq!(x.times(x.inverse()), QM31::one());
        for y in values() {
            assert_eq!(theirs(x.plus(y)), theirs(x) + theirs(y));
            assert_eq!(theirs(x.minus(y)), theirs(x) - theirs(y));
            assert_eq!(theirs(x.times(y)), theirs(x) * theirs(y));
        }
    }
    assert!(QM31::zero().is_zero());
    assert!(!QM31::one().is_zero());
    assert_eq!(
        QM31::from_base(2).inverse(),
        QM31::from_base(1_073_741_824)
    );
}

#[test]
fn denominators_of_tuples() {
    let rel = Relation::new(QM31::from_base(10), QM31::from_base(3), 4);
    assert_eq!(rel.combine_base(&[1, 2, 3]), QM31::from_base(1 + 6 + 27 - 10));
    assert_eq!(
        rel.combine(&[QM31::from_base(1), QM31::from_base(2)]),
        QM31::from_base(P - 3)
    );
    let (z, powers) = rel.extract_z_alpha();
    assert_eq!(z, QM31::from_base(10));
    assert_eq!(
        powers,
        vec![
            QM31::one(),
            QM31::from_base(3),
            QM31::from_base(9),
            QM31::from_base(27)
        ]
    );
    let dummy = Relation::dummy(2);
    assert_eq!(dummy.z, QM31::from_u32_unchecked(1, 2, 3, 4));
    assert_eq!(dummy.alpha, QM31::from_u32_unchecked(4, 3, 2, 1));
}

#[test]
fn sums_of_fractions() {
    let b = QM31::from_base;
    let f = Fraction::pair(b(1), b(2), b(3), b(4));
    assert_eq!((f.num, f.den), (b(10), b(8)));
    let want = b(2).inverse().plus(b(3).times(b(4).inverse()));
    assert_eq!(claimed_sum(&[f]), want);
    assert_eq!(claimed_sum(&[]), QM31::zero());
    let rel = Relation::new(b(10), b(3), 2);
    let (col0, col1) = (vec![1, 2], vec![7, 8]);
    let cols = [&col0, &col1];
    let (fracs, sum) = gen_table_interaction(&rel, &[2, 0], &cols);
    assert_eq!(fracs.len(), 2);
    let want = b(2).negate().times(b(12).inverse());
    assert_eq!(sum, want);
    assert_eq!(table_public_sum(&rel, &[2, 0], &cols), want);
}

#[test]
fn transcripts_are_stwos() {
    let mut t = Transcript::new();
    let mut c = stwo::core::channel::Blake2sM31Channel::default();
    t.mix_u64(0x1234_5678_9abc_def0);
    stwo::core::channel::Channel::mix_u64(&mut c, 0x1234_5678_9abc_def0);
    assert_eq!(t.digest, c.digest().0);
    t.mix_felts(&values());
    let felts: Vec<stwo::core::fields::qm31::SecureField> = values().into_iter().map(theirs).collect();
    stwo::core::channel::Channel::mix_felts(&mut c, &felts);
    assert_eq!(t.digest, c.digest().0);
    t.mix_root(&[9; 32]);
    <stwo::core::vcs_lifted::blake2_merkle::Blake2sM31MerkleChannel as stwo::core::channel::MerkleChannel>::mix_root(
        &mut c,
        stwo::core::vcs::blake2_hash::Blake2sHash([9; 32]),
    );
    assert_eq!(t.digest, c.digest().0);
    let rels = t.draw_relations(&[3, 1]);
    let felts = stwo::core::channel::Channel::draw_secure_felts(&mut c, 4);
    assert_eq!(rels[0].z, ours(felts[0]));
    assert_eq!(rels[0].alpha, ours(felts[1]));
    assert_eq!(rels[1].z, ours(felts[2]));
    assert_eq!(rels[1].alpha, ours(felts[3]));
    assert_eq!(rels[0].alpha_powers.len(), 3);
}

#[test]
fn parameters_are_absorbed_as_stwo_does() {
    let config = leaf_pcs_config(20, 1);
    let mut t = Transcript::new();
    t.mix_config(&config);
    let their_config = stwo::core::pcs::PcsConfig {
        pow_bits: config.pow_bits,
        fri_config: stwo::core::fri::FriConfig::new(
            config.fri_config.log_last_layer_degree_bound,
            config.fri_config.log_blowup_factor,
            config.fri_config.n_queries,
            config.fri_config.fold_step,
        ),
        lifting_log_size: config.lifting_log_size,
    };
    let mut c = stwo::core::channel::Blake2sM31Channel::default();
    their_config.mix_into(&mut c);
    assert_eq!(t.digest, c.digest().0);
}

/// Relations are drawn one after the other from a single channel.
#[test]
fn consecutive_draws() {
    let t = plain_transcript(&leaf_pcs_config(9, 1), &[1; 32], &[2; 32]);
    let mut c = stwo::core::channel::Blake2sM31Channel::default();
    c.update_digest(stwo::core::vcs::blake2_hash::Blake2sHash(t.digest));
    let el = LookupElements::draw(&t);
    for rel in [&el.state, &el.qdecode, &el.rc_lo, &el.rc_hi, &el.program] {
        let felts = stwo::core::channel::Channel::draw_secure_felts(&mut c, 2);
        assert_eq!((rel.z, rel.alpha), (ours(felts[0]), ours(felts[1])));
    }
    let mut c = stwo::core::channel::Blake2sM31Channel::default();
    c.update_digest(stwo::core::vcs::blake2_hash::Blake2sHash(t.digest));
    let el = IaddElements::draw(&t, RangeCheckMode::Lookup);
    let g = match &el.ranges {
        Some(g) => g,
        None => panic!("lookups have range tables"),
    };
    for rel in [&el.state, &g.seq18, &g.seq11, &g.seq6] {
        let felts = stwo::core::channel::Channel::draw_secure_felts(&mut c, 2);
        assert_eq!((rel.z, rel.alpha), (ours(felts[0]), ours(felts[1])));
    }
    assert!(IaddElements::draw(&t, RangeCheckMode::Bits).ranges.is_none());
}

#[test]
fn transcript_of_a_shard() {
    let config = leaf_pcs_config(12, 1);
    let claim = [QM31::from_base(4)];
    let mut t = shard_transcript(6, &config, &[1; 32], &claim, &[2; 32], 77);
    let mut by_hand = Transcript::new();
    by_hand.mix_felts(&[QM31::from_base(6)]);
    by_hand.mix_config(&config);
    by_hand.mix_root(&[1; 32]);
    by_hand.mix_felts(&claim);
    by_hand.mix_root(&[2; 32]);
    by_hand.mix_u64(77);
    assert_eq!(t, by_hand);
    let rel = draw_shard_relation(&t);
    assert_eq!(rel.z, by_hand.draw_relations(&[1])[0].z);
    let claims = ShardClaims {
        main: QM31::from_base(1),
        program: QM31::from_base(2),
        boundary: QM31::from_base(3),
        rc: QM31::from_base(4),
    };
    close_shard_transcript(&mut t, &claims, &[3; 32]);
    close_plain_transcript(&mut by_hand, &claims.in_order(), &[3; 32]);
    assert_eq!(t, by_hand);
    assert_ne!(t, shard_transcript(6, &config, &[1; 32], &claim, &[2; 32], 77));
}

fn sha(message: &str) -> String {
    let mut text = String::new();
    for b in sha2::Sha256::digest(message.as_bytes()) {
        text.push_str(&format!("{b:02x}"));
    }
    text
}

#[test]
fn digests_of_proofs() {
    assert_eq!(
        sha("abc"),
        "ba7816bf8f01cfea414140de5dae2223b00361a396177a9cb410ff61f20015ad"
    );
    assert_eq!(sha256_hex(b"abc"), sha("abc"));
    assert_eq!(
        proof_fingerprint(Some(b"xyz"), b"q"),
        sha("gate-air/stark-proof/serde/v1xyz")
    );
    assert_eq!(
        proof_fingerprint(None, b"q"),
        sha("gate-air/stark-proof/debug/v1q")
    );
    let part = |p: &str, c: &str, nonce: u64| ShardPart {
        proof: p.as_bytes().to_vec(),
        claim_text: c.as_bytes().to_vec(),
        nonce,
    };
    assert_eq!(
        base_proof_fingerprint(&[part("P", "C", 0), part("Q", "D", 120)]),
        sha("gate-air/base-shard-proofs/serde/v1n_shards=2\
             shard[0].proof=Pshard[0].claim=Cshard[0].nonce=0\
             shard[1].proof=Qshard[1].claim=Dshard[1].nonce=120")
    );
    let node = |p: &str| NodePart {
        proof: p.as_bytes().to_vec(),
        pp_root: b"R".to_vec(),
        outs: b"O".to_vec(),
    };
    assert_eq!(
        recursion_fingerprint(&[node("A")], 3, &node("B"), b"F", b"L"),
        sha("gate-air/recursion-proofs/debug/v1n_base_nodes=1 n_levels=3\
             base_node[0].proof=Abase_node[0].pp_root=Rbase_node[0].outs=O\
             root.proof=Broot.pp_root=Rroot.outs=Orv.proof=Frv.leaf_outputs=L")
    );
}
