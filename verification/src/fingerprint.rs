//! Fingerprints of proofs: digests over labelled parts, for telling whether two
//! runs produced the same bytes.
use vstd::prelude::*;
use vstd::string::StringSliceAdditionalSpecFns;

use crate::hexes::{hex_encode, hex_text};

verus! {

/// The SHA-256 digest of a message.
pub uninterp spec fn sha256(message: Seq<u8>) -> Seq<u8>;

/// `Digest::digest` of sha2's `Sha256`: the digest of a message, which is a
/// function of the message alone.
#[verifier::external_body]
fn sha256_digest(message: &[u8]) -> (r: [u8; 32])
    ensures
        r@ == sha256(message@),
{
    <sha2::Sha256 as sha2::Digest>::digest(message).into()
}

/// A number in decimal digits.
pub open spec fn decimal(n: nat) -> Seq<u8>
    decreases n,
{
    if n < 10 {
        seq![(48 + n) as u8]
    } else {
        decimal(n / 10).push((48 + n % 10) as u8)
    }
}

/// Appends bytes to a message.
fn put(message: &mut Vec<u8>, bytes: &[u8])
    ensures
        final(message)@ == old(message)@ + bytes@,
{
    let mut i: usize = 0;
    while i < bytes.len()
        invariant
            i <= bytes@.len(),
            message@ == old(message)@ + bytes@.take(i as int),
        decreases bytes.len() - i,
    {
        message.push(bytes[i]);
        assert(old(message)@ + bytes@.take(i + 1) =~= (old(message)@ + bytes@.take(i as int)).push(
            bytes@[i as int],
        ));
        i += 1;
    }
    assert(bytes@.take(bytes@.len() as int) =~= bytes@);
}

/// Appends a number in decimal digits to a message.
fn put_decimal(message: &mut Vec<u8>, n: u64)
    ensures
        final(message)@ == old(message)@ + decimal(n as nat),
    decreases n,
{
    if n < 10 {
        message.push(48 + n as u8);
        assert(message@ =~= old(message)@ + decimal(n as nat));
    } else {
        put_decimal(message, n / 10);
        message.push(48 + (n % 10) as u8);
        assert(message@ =~= old(message)@ + decimal(n as nat));
    }
}

/// The text of a digest.
pub open spec fn fingerprint_of(message: Seq<u8>) -> Seq<char> {
    hex_text(sha256(message))
}

/// The fingerprint of a message, in hexadecimal.
pub fn sha256_hex(message: &[u8]) -> (r: String)
    ensures
        r@ == fingerprint_of(message@),
{
    let digest: [u8; 32] = sha256_digest(message);
    hex_encode(digest.as_slice())
}

/// What the fingerprint of a proof is taken over: its serialised bytes, else its debug
/// text, behind a prefix that tells them apart.
pub open spec fn proof_message(serialised: Option<Seq<u8>>, debug_text: Seq<u8>) -> Seq<u8> {
    match serialised {
        Some(b) => "gate-air/stark-proof/serde/v1".spec_bytes() + b,
        None => "gate-air/stark-proof/debug/v1".spec_bytes() + debug_text,
    }
}

/// The fingerprint of one proof: over its serialised bytes, or, where it could not
/// be serialised, over its debug text. The two are told apart by their prefix.
pub fn proof_fingerprint(serialised: Option<&[u8]>, debug_text: &[u8]) -> (r: String)
    ensures
        r@ == fingerprint_of(
            proof_message(
                match serialised {
                    Some(b) => Some(b@),
                    None => None,
                },
                debug_text@,
            ),
        ),
{
    let mut message: Vec<u8> = Vec::new();
    match serialised {
        Some(b) => {
            put(&mut message, "gate-air/stark-proof/serde/v1".as_bytes());
            put(&mut message, b);
            assert(message@ =~= "gate-air/stark-proof/serde/v1".spec_bytes() + b@);
        },
        None => {
            put(&mut message, "gate-air/stark-proof/debug/v1".as_bytes());
            put(&mut message, debug_text);
            assert(message@ =~= "gate-air/stark-proof/debug/v1".spec_bytes() + debug_text@);
        },
    }
    sha256_hex(message.as_slice())
}

/// What a shard's proof contributes: its serialised bytes, the text of its
/// claimed sums, and its nonce.
pub struct ShardPart {
    pub proof: Vec<u8>,
    pub claim_text: Vec<u8>,
    pub nonce: u64,
}

/// `shard[s].`
pub open spec fn shard_label(s: nat) -> Seq<u8> {
    "shard[".spec_bytes() + decimal(s) + "].".spec_bytes()
}

/// The message of one shard.
pub open spec fn shard_message(s: nat, p: ShardPart) -> Seq<u8> {
    shard_label(s) + "proof=".spec_bytes() + p.proof@ + shard_label(s) + "claim=".spec_bytes()
        + p.claim_text@ + shard_label(s) + "nonce=".spec_bytes() + decimal(p.nonce as nat)
}

/// The messages of the first `n` shards.
pub open spec fn shard_messages(parts: Seq<ShardPart>, n: nat) -> Seq<u8>
    decreases n,
{
    if n == 0 {
        Seq::empty()
    } else {
        shard_messages(parts, (n - 1) as nat) + shard_message((n - 1) as nat, parts[n - 1])
    }
}

/// What the fingerprint of a run's shards is taken over.
pub open spec fn base_message(parts: Seq<ShardPart>) -> Seq<u8> {
    "gate-air/base-shard-proofs/serde/v1".spec_bytes() + "n_shards=".spec_bytes() + decimal(
        parts.len(),
    ) + shard_messages(parts, parts.len())
}

fn put_shard_label(message: &mut Vec<u8>, s: usize)
    ensures
        final(message)@ == old(message)@ + shard_label(s as nat),
{
    put(message, "shard[".as_bytes());
    put_decimal(message, s as u64);
    put(message, "].".as_bytes());
    assert(message@ =~= old(message)@ + shard_label(s as nat));
}

fn put_shard(message: &mut Vec<u8>, s: usize, p: &ShardPart)
    ensures
        final(message)@ == old(message)@ + shard_message(s as nat, *p),
{
    put_shard_label(message, s);
    put(message, "proof=".as_bytes());
    put(message, p.proof.as_slice());
    put_shard_label(message, s);
    put(message, "claim=".as_bytes());
    put(message, p.claim_text.as_slice());
    put_shard_label(message, s);
    put(message, "nonce=".as_bytes());
    put_decimal(message, p.nonce);
    assert(message@ =~= old(message)@ + shard_message(s as nat, *p));
}

/// The fingerprint of all shards' proofs, in shard order.
pub fn base_proof_fingerprint(parts: &[ShardPart]) -> (r: String)
    ensures
        r@ == fingerprint_of(base_message(parts@)),
{
    let mut message: Vec<u8> = Vec::new();
    put(&mut message, "gate-air/base-shard-proofs/serde/v1".as_bytes());
    put(&mut message, "n_shards=".as_bytes());
    put_decimal(&mut message, parts.len() as u64);
    let ghost head = "gate-air/base-shard-proofs/serde/v1".spec_bytes() + "n_shards=".spec_bytes()
        + decimal(parts@.len());
    assert(message@ =~= head + shard_messages(parts@, 0));
    let mut s: usize = 0;
    while s < parts.len()
        invariant
            s <= parts@.len(),
            message@ == head + shard_messages(parts@, s as nat),
        decreases parts.len() - s,
    {
        put_shard(&mut message, s, &parts[s]);
        assert(message@ =~= head + (shard_messages(parts@, s as nat) + shard_message(
            s as nat,
            parts@[s as int],
        )));
        s += 1;
    }
    sha256_hex(message.as_slice())
}

/// What a node of the recursion contributes: the texts of its proof, its public
/// root and its outputs.
pub struct NodePart {
    pub proof: Vec<u8>,
    pub pp_root: Vec<u8>,
    pub outs: Vec<u8>,
}

/// The message of a node under a label.
pub open spec fn node_message(label: Seq<u8>, p: NodePart) -> Seq<u8> {
    label + "proof=".spec_bytes() + p.proof@ + label + "pp_root=".spec_bytes() + p.pp_root@ + label
        + "outs=".spec_bytes() + p.outs@
}

/// `base_node[i].`
pub open spec fn node_label(i: nat) -> Seq<u8> {
    "base_node[".spec_bytes() + decimal(i) + "].".spec_bytes()
}

pub open spec fn node_messages(nodes: Seq<NodePart>, n: nat) -> Seq<u8>
    decreases n,
{
    if n == 0 {
        Seq::empty()
    } else {
        node_messages(nodes, (n - 1) as nat) + node_message(node_label((n - 1) as nat), nodes[n - 1])
    }
}

/// What the fingerprint of a recursion is taken over: the leaves, the root, the
/// final proof and the outputs that it shows.
pub open spec fn recursion_message(
    nodes: Seq<NodePart>,
    n_levels: nat,
    root: NodePart,
    final_proof: Seq<u8>,
    leaf_outputs: Seq<u8>,
) -> Seq<u8> {
    "gate-air/recursion-proofs/debug/v1".spec_bytes() + "n_base_nodes=".spec_bytes() + decimal(
        nodes.len(),
    ) + " n_levels=".spec_bytes() + decimal(n_levels) + node_messages(nodes, nodes.len())
        + node_message("root.".spec_bytes(), root) + "rv.proof=".spec_bytes() + final_proof
        + "rv.leaf_outputs=".spec_bytes() + leaf_outputs
}

fn put_node(message: &mut Vec<u8>, label: &[u8], p: &NodePart)
    ensures
        final(message)@ == old(message)@ + node_message(label@, *p),
{
    put(message, label);
    put(message, "proof=".as_bytes());
    put(message, p.proof.as_slice());
    put(message, label);
    put(message, "pp_root=".as_bytes());
    put(message, p.pp_root.as_slice());
    put(message, label);
    put(message, "outs=".as_bytes());
    put(message, p.outs.as_slice());
    assert(message@ =~= old(message)@ + node_message(label@, *p));
}

/// The fingerprint of a whole recursion.
pub fn recursion_fingerprint(
    nodes: &[NodePart],
    n_levels: usize,
    root: &NodePart,
    final_proof: &[u8],
    leaf_outputs: &[u8],
) -> (r: String)
    ensures
        r@ == fingerprint_of(
            recursion_message(nodes@, n_levels as nat, *root, final_proof@, leaf_outputs@),
        ),
{
    let mut message: Vec<u8> = Vec::new();
    put(&mut message, "gate-air/recursion-proofs/debug/v1".as_bytes());
    put(&mut message, "n_base_nodes=".as_bytes());
    put_decimal(&mut message, nodes.len() as u64);
    put(&mut message, " n_levels=".as_bytes());
    put_decimal(&mut message, n_levels as u64);
    let ghost head = "gate-air/recursion-proofs/debug/v1".spec_bytes()
        + "n_base_nodes=".spec_bytes() + decimal(nodes@.len()) + " n_levels=".spec_bytes() + decimal(
        n_levels as nat,
    );
    assert(message@ =~= head + node_messages(nodes@, 0));
    let mut i: usize = 0;
    while i < nodes.len()
        invariant
            i <= nodes@.len(),
            message@ == head + node_messages(nodes@, i as nat),
        decreases nodes.len() - i,
    {
        let mut label: Vec<u8> = Vec::new();
        put(&mut label, "base_node[".as_bytes());
        put_decimal(&mut label, i as u64);
        put(&mut label, "].".as_bytes());
        assert(label@ =~= node_label(i as nat));
        put_node(&mut message, label.as_slice(), &nodes[i]);
        assert(message@ =~= head + (node_messages(nodes@, i as nat) + node_message(
            node_label(i as nat),
            nodes@[i as int],
        )));
        i += 1;
    }
    put_node(&mut message, "root.".as_bytes(), root);
    put(&mut message, "rv.proof=".as_bytes());
    put(&mut message, final_proof);
    put(&mut message, "rv.leaf_outputs=".as_bytes());
    put(&mut message, leaf_outputs);
    assert(message@ =~= recursion_message(
        nodes@,
        n_levels as nat,
        *root,
        final_proof@,
        leaf_outputs@,
    ));
    sha256_hex(message.as_slice())
}

} // verus!
