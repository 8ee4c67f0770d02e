//! The transcript that turns a prover's messages into challenges.
use vstd::prelude::*;

use crate::field::{Ext, QM31};
use crate::logup::{views, Relation};
use crate::qubit_memory_lookups::{ShardClaims, GATE_REL_WIDTH};
use crate::recursion_consts::PcsConfig;

verus! {

/// The digest of a channel after it absorbed field elements.
pub uninterp spec fn felts_mixed(digest: Seq<u8>, felts: Seq<Ext>) -> Seq<u8>;

/// The digest of a channel after it absorbed a 64-bit number.
pub uninterp spec fn u64_mixed(digest: Seq<u8>, value: u64) -> Seq<u8>;

/// The digest of a channel after it absorbed the root of a commitment.
pub uninterp spec fn root_mixed(digest: Seq<u8>, root: Seq<u8>) -> Seq<u8>;

/// The first `n` field elements that are drawn from a channel.
pub uninterp spec fn felts_drawn(digest: Seq<u8>, n: nat) -> Seq<Ext>;

/// `Channel::mix_felts` of stwo's `Blake2sM31Channel`: the new digest is a
/// function of the old digest and of the elements, in order.
#[verifier::external_body]
fn channel_mix_felts(digest: &[u8; 32], felts: &[QM31]) -> (r: [u8; 32])
    ensures
        r@ == felts_mixed(digest@, views(felts@)),
{
    let mut channel = stwo::core::channel::Blake2sM31Channel::default();
    channel.update_digest(stwo::core::vcs::blake2_hash::Blake2sHash(*digest));
    let values: Vec<stwo::core::fields::qm31::SecureField> = felts
        .iter()
        .map(|f| stwo::core::fields::qm31::SecureField::from_u32_unchecked(f.a, f.b, f.c, f.d))
        .collect();
    stwo::core::channel::Channel::mix_felts(&mut channel, &values);
    channel.digest().0
}

/// `Channel::mix_u64` of stwo's `Blake2sM31Channel`: the new digest is a
/// function of the old digest and of the number.
#[verifier::external_body]
fn channel_mix_u64(digest: &[u8; 32], value: u64) -> (r: [u8; 32])
    ensures
        r@ == u64_mixed(digest@, value),
{
    let mut channel = stwo::core::channel::Blake2sM31Channel::default();
    channel.update_digest(stwo::core::vcs::blake2_hash::Blake2sHash(*digest));
    stwo::core::channel::Channel::mix_u64(&mut channel, value);
    channel.digest().0
}

/// `MerkleChannel::mix_root` of stwo's `Blake2sM31MerkleChannel`: the new digest
/// is a function of the old digest and of the root.
#[verifier::external_body]
fn channel_mix_root(digest: &[u8; 32], root: &[u8; 32]) -> (r: [u8; 32])
    ensures
        r@ == root_mixed(digest@, root@),
{
    let mut channel = stwo::core::channel::Blake2sM31Channel::default();
    channel.update_digest(stwo::core::vcs::blake2_hash::Blake2sHash(*digest));
    let root = stwo::core::vcs::blake2_hash::Blake2sHash(*root);
    <stwo::core::vcs_lifted::blake2_merkle::Blake2sM31MerkleChannel as stwo::core::channel::MerkleChannel>::mix_root(
        &mut channel,
        root,
    );
    channel.digest().0
}

/// `Channel::draw_secure_felts` of stwo's `Blake2sM31Channel`, on a channel from
/// which nothing was drawn since it last absorbed something: `n` field elements,
/// which are a function of the digest and of `n`.
#[verifier::external_body]
fn channel_draw(digest: &[u8; 32], n: usize) -> (r: Vec<QM31>)
    ensures
        r@.len() == n,
        views(r@) == felts_drawn(digest@, n as nat),
        forall|i: int| 0 <= i < n ==> (#[trigger] r@[i]).wf(),
{
    let mut channel = stwo::core::channel::Blake2sM31Channel::default();
    channel.update_digest(stwo::core::vcs::blake2_hash::Blake2sHash(*digest));
    stwo::core::channel::Channel::draw_secure_felts(&mut channel, n)
        .into_iter()
        .map(|f| f.to_m31_array())
        .map(|f| QM31 { a: f[0].0, b: f[1].0, c: f[2].0, d: f[3].0 })
        .collect()
}

/// What has been absorbed so far.
#[derive(Clone, Copy, Debug, PartialEq, Eq)]
pub struct Transcript {
    pub digest: [u8; 32],
}

/// The commitment parameters as the two field elements that are absorbed.
pub open spec fn config_felts(c: &PcsConfig) -> Seq<Ext> {
    seq![
        Ext {
            a: c.pow_bits as int,
            b: c.fri_config.log_blowup_factor as int,
            c: (c.fri_config.n_queries as u32) as int,
            d: c.fri_config.log_last_layer_degree_bound as int,
        },
        Ext {
            a: c.fri_config.fold_step as int,
            b: match c.lifting_log_size {
                Some(l) => l as int,
                None => 0,
            },
            c: 0,
            d: 0,
        },
    ]
}

/// The relations whose challenges are consecutive pairs of drawn elements.
pub open spec fn relations_drawn(digest: Seq<u8>, widths: Seq<usize>, r: Seq<Relation>) -> bool {
    &&& r.len() == widths.len()
    &&& forall|i: int|
        0 <= i < r.len() ==> {
            &&& (#[trigger] r[i]).wf()
            &&& r[i].width() == widths[i]
            &&& r[i].z@ == felts_drawn(digest, 2 * widths.len())[2 * i]
            &&& r[i].alpha@ == felts_drawn(digest, 2 * widths.len())[2 * i + 1]
        }
}

impl Transcript {
    /// The transcript in which nothing has been absorbed.
    pub fn new() -> (r: Transcript)
        ensures
            r.digest@ == Seq::new(32, |i: int| 0u8),
    {
        let digest: [u8; 32] = [0u8; 32];
        assert(digest@ =~= Seq::new(32, |i: int| 0u8));
        Transcript { digest }
    }

    pub fn mix_felts(&mut self, felts: &[QM31])
        ensures
            final(self).digest@ == felts_mixed(old(self).digest@, views(felts@)),
    {
        self.digest = channel_mix_felts(&self.digest, felts);
    }

    pub fn mix_u64(&mut self, value: u64)
        ensures
            final(self).digest@ == u64_mixed(old(self).digest@, value),
    {
        self.digest = channel_mix_u64(&self.digest, value);
    }

    pub fn mix_root(&mut self, root: &[u8; 32])
        ensures
            final(self).digest@ == root_mixed(old(self).digest@, root@),
    {
        self.digest = channel_mix_root(&self.digest, root);
    }

    /// Absorbs the commitment parameters.
    pub fn mix_config(&mut self, config: &PcsConfig)
        requires
            config.fri_config.n_queries <= u32::MAX,
        ensures
            final(self).digest@ == felts_mixed(old(self).digest@, config_felts(config)),
    {
        let lifting: u32 = match config.lifting_log_size {
            Some(l) => l,
            None => 0,
        };
        let felts: Vec<QM31> = vec![
            QM31 {
                a: config.pow_bits,
                b: config.fri_config.log_blowup_factor,
                c: config.fri_config.n_queries as u32,
                d: config.fri_config.log_last_layer_degree_bound,
            },
            QM31 { a: config.fri_config.fold_step, b: lifting, c: 0, d: 0 },
        ];
        assert(views(felts@) =~= config_felts(config));
        self.mix_felts(felts.as_slice());
    }

    /// Draws the challenges of relations of the given widths, in order.
    pub fn draw_relations(&self, widths: &[usize]) -> (r: Vec<Relation>)
        requires
            2 * widths@.len() <= usize::MAX,
            forall|i: int| 0 <= i < widths@.len() ==> #[trigger] widths@[i] > 0,
        ensures
            relations_drawn(self.digest@, widths@, r@),
    {
        let felts: Vec<QM31> = channel_draw(&self.digest, 2 * widths.len());
        let mut r: Vec<Relation> = Vec::new();
        let mut i: usize = 0;
        while i < widths.len()
            invariant
                i <= widths@.len(),
                2 * widths@.len() <= usize::MAX,
                forall|i: int| 0 <= i < widths@.len() ==> #[trigger] widths@[i] > 0,
                felts@.len() == 2 * widths@.len(),
                views(felts@) == felts_drawn(self.digest@, 2 * widths@.len()),
                forall|j: int| 0 <= j < felts@.len() ==> (#[trigger] felts@[j]).wf(),
                r@.len() == i,
                forall|j: int|
                    0 <= j < i ==> {
                        &&& (#[trigger] r@[j]).wf()
                        &&& r@[j].width() == widths@[j]
                        &&& r@[j].z@ == views(felts@)[2 * j]
                        &&& r@[j].alpha@ == views(felts@)[2 * j + 1]
                    },
            decreases widths.len() - i,
        {
            r.push(Relation::new(felts[2 * i], felts[2 * i + 1], widths[i]));
            i += 1;
        }
        r
    }
}

/// The digest for which a shard's proof of work is done: the salt, the commitment
/// parameters, the root of the public columns, the public claim and the root of the
/// hidden columns, in this order.
pub open spec fn committed_digest(
    salt: u32,
    config: &PcsConfig,
    root0: Seq<u8>,
    public_claim: Seq<Ext>,
    root1: Seq<u8>,
) -> Seq<u8> {
    let start = Seq::new(32, |i: int| 0u8);
    let salted = felts_mixed(start, seq![Ext { a: salt as int, b: 0, c: 0, d: 0 }]);
    let configured = felts_mixed(salted, config_felts(config));
    let public = felts_mixed(root_mixed(configured, root0), public_claim);
    root_mixed(public, root1)
}

/// The digest from which a shard's challenges are drawn: that of its commitments,
/// then the proof-of-work nonce.
pub open spec fn shard_digest(
    salt: u32,
    config: &PcsConfig,
    root0: Seq<u8>,
    public_claim: Seq<Ext>,
    root1: Seq<u8>,
    nonce: u64,
) -> Seq<u8> {
    u64_mixed(committed_digest(salt, config, root0, public_claim, root1), nonce)
}

/// The transcript of a shard up to its challenges. Prover and verifier both
/// follow it, so they draw the same challenges from the same messages.
pub fn shard_transcript(
    salt: u32,
    config: &PcsConfig,
    root0: &[u8; 32],
    public_claim: &[QM31],
    root1: &[u8; 32],
    nonce: u64,
) -> (r: Transcript)
    requires
        config.fri_config.n_queries <= u32::MAX,
    ensures
        r.digest@ == shard_digest(salt, config, root0@, views(public_claim@), root1@, nonce),
{
    let mut t: Transcript = Transcript::new();
    let salt_felt: Vec<QM31> = vec![QM31 { a: salt, b: 0, c: 0, d: 0 }];
    assert(views(salt_felt@) =~= seq![Ext { a: salt as int, b: 0, c: 0, d: 0 }]);
    t.mix_felts(salt_felt.as_slice());
    t.mix_config(config);
    t.mix_root(root0);
    t.mix_felts(public_claim);
    t.mix_root(root1);
    t.mix_u64(nonce);
    t
}

/// The one relation of a shard. Its tables share it; the tag in each tuple keeps
/// them apart.
pub fn draw_shard_relation(t: &Transcript) -> (r: Relation)
    ensures
        r.wf(),
        r.width() == GATE_REL_WIDTH,
        r.z@ == felts_drawn(t.digest@, 2)[0],
        r.alpha@ == felts_drawn(t.digest@, 2)[1],
{
    let widths: Vec<usize> = vec![GATE_REL_WIDTH];
    let mut rels: Vec<Relation> = t.draw_relations(widths.as_slice());
    assert(rels@[0].wf());
    rels.swap_remove(0)
}

/// Absorbs the sums that a shard claims, in the order of its components, and the
/// root of its interaction columns.
pub fn close_shard_transcript(t: &mut Transcript, claims: &ShardClaims, root2: &[u8; 32])
    ensures
        final(t).digest@ == root_mixed(
            felts_mixed(
                old(t).digest@,
                seq![claims.main@, claims.program@, claims.boundary@, claims.rc@],
            ),
            root2@,
        ),
{
    let felts: Vec<QM31> = claims.in_order();
    assert(views(felts@) =~= seq![claims.main@, claims.program@, claims.boundary@, claims.rc@]);
    t.mix_felts(felts.as_slice());
    t.mix_root(root2);
}

/// The digest from which the challenges of a stand-alone proof are drawn: the
/// commitment parameters and the roots of the public and the hidden columns.
pub open spec fn plain_digest(config: &PcsConfig, root0: Seq<u8>, root1: Seq<u8>) -> Seq<u8> {
    let start = Seq::new(32, |i: int| 0u8);
    root_mixed(root_mixed(felts_mixed(start, config_felts(config)), root0), root1)
}

/// The transcript of a stand-alone proof up to its challenges.
pub fn plain_transcript(config: &PcsConfig, root0: &[u8; 32], root1: &[u8; 32]) -> (r: Transcript)
    requires
        config.fri_config.n_queries <= u32::MAX,
    ensures
        r.digest@ == plain_digest(config, root0@, root1@),
{
    let mut t: Transcript = Transcript::new();
    t.mix_config(config);
    t.mix_root(root0);
    t.mix_root(root1);
    t
}

/// Absorbs the claimed sums and the root of the interaction columns.
pub fn close_plain_transcript(t: &mut Transcript, claims: &[QM31], root2: &[u8; 32])
    ensures
        final(t).digest@ == root_mixed(felts_mixed(old(t).digest@, views(claims@)), root2@),
{
    t.mix_felts(claims);
    t.mix_root(root2);
}

} // verus!
