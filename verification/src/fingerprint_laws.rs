//! What fingerprints are taken over, piece by piece.
use vstd::prelude::*;
use vstd::string::StringSliceAdditionalSpecFns;

use crate::fingerprint::{
    base_message, decimal, fingerprint_of, node_message, node_messages, proof_message, recursion_message, sha256, shard_message,
    shard_messages, NodePart, ShardPart,
};
use crate::gate_laws::nibble;
use crate::iadd_run::{le_bytes, seed_of};

verus! {

/// The number that decimal digits stand for, the highest digit first.
pub open spec fn read_decimal(s: Seq<u8>) -> int
    decreases s.len(),
{
    if s.len() == 0 {
        0
    } else {
        10 * read_decimal(s.drop_last()) + (s.last() - 48)
    }
}

/// A number is written in decimal digits that read back as it, without leading zeros.
pub proof fn lemma_decimal_reads_back(n: nat)
    ensures
        decimal(n).len() > 0,
        forall|i: int| 0 <= i < decimal(n).len() ==> 48 <= #[trigger] decimal(n)[i] <= 57,
        read_decimal(decimal(n)) == n,
        n > 0 ==> decimal(n)[0] != 48,
    decreases n,
{
    if n >= 10 {
        lemma_decimal_reads_back(n / 10);
        assert(decimal(n).drop_last() =~= decimal(n / 10));
    } else {
        let s = decimal(n);
        assert(s.drop_last() =~= Seq::<u8>::empty());
        assert(read_decimal(s.drop_last()) == 0);
    }
}

/// Pieces, one after the other.
pub open spec fn joined(pieces: Seq<Seq<u8>>) -> Seq<u8>
    decreases pieces.len(),
{
    if pieces.len() == 0 {
        Seq::empty()
    } else {
        joined(pieces.drop_last()) + pieces.last()
    }
}

proof fn lemma_join_one_more(pieces: Seq<Seq<u8>>, p: Seq<u8>)
    ensures
        joined(pieces.push(p)) == joined(pieces) + p,
{
    assert(pieces.push(p).drop_last() =~= pieces);
}

/// The pieces under a label: what they are called and what they are, each behind the label.
pub open spec fn labelled(label: Seq<u8>, names: Seq<Seq<u8>>, values: Seq<Seq<u8>>) -> Seq<Seq<u8>> {
    seq![label, names[0], values[0], label, names[1], values[1], label, names[2], values[2]]
}

proof fn lemma_labelled(label: Seq<u8>, n: Seq<Seq<u8>>, v: Seq<Seq<u8>>)
    ensures
        joined(labelled(label, n, v)) == label + n[0] + v[0] + label + n[1] + v[1] + label + n[2] + v[2],
{
    let p0 = Seq::<Seq<u8>>::empty();
    let p1 = p0.push(label);
    let p2 = p1.push(n[0]);
    let p3 = p2.push(v[0]);
    let p4 = p3.push(label);
    let p5 = p4.push(n[1]);
    let p6 = p5.push(v[1]);
    let p7 = p6.push(label);
    let p8 = p7.push(n[2]);
    let p9 = p8.push(v[2]);
    lemma_join_one_more(p0, label);
    lemma_join_one_more(p1, n[0]);
    lemma_join_one_more(p2, v[0]);
    lemma_join_one_more(p3, label);
    lemma_join_one_more(p4, n[1]);
    lemma_join_one_more(p5, v[1]);
    lemma_join_one_more(p6, label);
    lemma_join_one_more(p7, n[2]);
    lemma_join_one_more(p8, v[2]);
    assert(p9 =~= labelled(label, n, v));
    assert(joined(p0) + label =~= label);
}

/// What a shard contributes: under the label of its number its proof, the text of its claim
/// and its nonce.
pub proof fn lemma_shard_pieces(s: nat, p: ShardPart)
    ensures
        shard_message(s, p) == joined(
            labelled(
                joined(seq!["shard[".spec_bytes(), decimal(s), "].".spec_bytes()]),
                seq!["proof=".spec_bytes(), "claim=".spec_bytes(), "nonce=".spec_bytes()],
                seq![p.proof@, p.claim_text@, decimal(p.nonce as nat)],
            ),
        ),
{
    lemma_three("shard[".spec_bytes(), decimal(s), "].".spec_bytes());
    lemma_labelled(
        joined(seq!["shard[".spec_bytes(), decimal(s), "].".spec_bytes()]),
        seq!["proof=".spec_bytes(), "claim=".spec_bytes(), "nonce=".spec_bytes()],
        seq![p.proof@, p.claim_text@, decimal(p.nonce as nat)],
    );
}

proof fn lemma_three(x: Seq<u8>, y: Seq<u8>, z: Seq<u8>)
    ensures
        joined(seq![x, y, z]) == x + y + z,
{
    let p0 = Seq::<Seq<u8>>::empty();
    let p1 = p0.push(x);
    let p2 = p1.push(y);
    lemma_join_one_more(p0, x);
    lemma_join_one_more(p1, y);
    lemma_join_one_more(p2, z);
    assert(p2.push(z) =~= seq![x, y, z]);
    assert(joined(p0) + x =~= x);
}

/// The messages of all shards, in order, behind what the message is and how many there are.
pub proof fn lemma_base_pieces(parts: Seq<ShardPart>)
    ensures
        base_message(parts) == joined(
            seq![
                "gate-air/base-shard-proofs/serde/v1".spec_bytes(),
                "n_shards=".spec_bytes(),
                decimal(parts.len()),
            ] + Seq::new(parts.len(), |s: int| shard_message(s as nat, parts[s])),
        ),
{
    let head = seq![
        "gate-air/base-shard-proofs/serde/v1".spec_bytes(),
        "n_shards=".spec_bytes(),
        decimal(parts.len()),
    ];
    lemma_three(head[0], head[1], head[2]);
    assert(seq![head[0], head[1], head[2]] =~= head);
    let tail = Seq::new(parts.len(), |s: int| shard_message(s as nat, parts[s]));
    lemma_shards_joined(head, parts, tail, parts.len());
    assert(tail.take(parts.len() as int) =~= tail);
}

proof fn lemma_shards_joined(head: Seq<Seq<u8>>, parts: Seq<ShardPart>, tail: Seq<Seq<u8>>, n: nat)
    requires
        n <= parts.len(),
        tail == Seq::new(parts.len(), |s: int| shard_message(s as nat, parts[s])),
    ensures
        joined(head + tail.take(n as int)) == joined(head) + shard_messages(parts, n),
    decreases n,
{
    if n == 0 {
        assert(head + tail.take(0) =~= head);
        assert(joined(head) + shard_messages(parts, 0) =~= joined(head));
    } else {
        let m = (n - 1) as nat;
        lemma_shards_joined(head, parts, tail, m);
        lemma_join_one_more(head + tail.take(m as int), tail[m as int]);
        assert((head + tail.take(m as int)).push(tail[m as int]) =~= head + tail.take(n as int));
        assert(joined(head) + (shard_messages(parts, m) + shard_message(m, parts[m as int]))
            =~= joined(head) + shard_messages(parts, m) + shard_message(m, parts[m as int]));
    }
}

/// What a node contributes under its label: its proof, its public root and its outputs.
pub proof fn lemma_node_pieces(label: Seq<u8>, p: NodePart)
    ensures
        node_message(label, p) == joined(
            labelled(
                label,
                seq!["proof=".spec_bytes(), "pp_root=".spec_bytes(), "outs=".spec_bytes()],
                seq![p.proof@, p.pp_root@, p.outs@],
            ),
        ),
{
    lemma_labelled(
        label,
        seq!["proof=".spec_bytes(), "pp_root=".spec_bytes(), "outs=".spec_bytes()],
        seq![p.proof@, p.pp_root@, p.outs@],
    );
}

/// The label of a node: its number.
pub open spec fn numbered(i: nat) -> Seq<u8> {
    "base_node[".spec_bytes() + decimal(i) + "].".spec_bytes()
}

/// The message of a recursion: how many nodes and levels there are, the nodes in order,
/// the root, the final proof and the outputs that it shows.
pub proof fn lemma_recursion_pieces(
    nodes: Seq<NodePart>,
    n_levels: nat,
    root: NodePart,
    final_proof: Seq<u8>,
    leaf_outputs: Seq<u8>,
)
    ensures
        recursion_message(nodes, n_levels, root, final_proof, leaf_outputs) == joined(
            seq![
                "gate-air/recursion-proofs/debug/v1".spec_bytes(),
                "n_base_nodes=".spec_bytes(),
                decimal(nodes.len()),
                " n_levels=".spec_bytes(),
                decimal(n_levels),
            ] + Seq::new(nodes.len(), |i: int| node_message(numbered(i as nat), nodes[i])),
        ) + joined(
            seq![
                node_message("root.".spec_bytes(), root),
                "rv.proof=".spec_bytes(),
                final_proof,
                "rv.leaf_outputs=".spec_bytes(),
                leaf_outputs,
            ],
        ),
{
    let head = seq![
        "gate-air/recursion-proofs/debug/v1".spec_bytes(),
        "n_base_nodes=".spec_bytes(),
        decimal(nodes.len()),
        " n_levels=".spec_bytes(),
        decimal(n_levels),
    ];
    let tail = Seq::new(nodes.len(), |i: int| node_message(numbered(i as nat), nodes[i]));
    lemma_five(head[0], head[1], head[2], head[3], head[4]);
    assert(seq![head[0], head[1], head[2], head[3], head[4]] =~= head);
    lemma_nodes_joined(head, nodes, tail, nodes.len());
    assert(tail.take(nodes.len() as int) =~= tail);
    let r = node_message("root.".spec_bytes(), root);
    lemma_five(r, "rv.proof=".spec_bytes(), final_proof, "rv.leaf_outputs=".spec_bytes(), leaf_outputs);
    assert(recursion_message(nodes, n_levels, root, final_proof, leaf_outputs) =~= (joined(head)
        + node_messages(nodes, nodes.len())) + (r + "rv.proof=".spec_bytes() + final_proof
        + "rv.leaf_outputs=".spec_bytes() + leaf_outputs));
}

proof fn lemma_five(v: Seq<u8>, w: Seq<u8>, x: Seq<u8>, y: Seq<u8>, z: Seq<u8>)
    ensures
        joined(seq![v, w, x, y, z]) == v + w + x + y + z,
{
    lemma_three(v, w, x);
    let p3 = seq![v, w, x];
    let p4 = p3.push(y);
    lemma_join_one_more(p3, y);
    lemma_join_one_more(p4, z);
    assert(p4.push(z) =~= seq![v, w, x, y, z]);
}

proof fn lemma_nodes_joined(head: Seq<Seq<u8>>, nodes: Seq<NodePart>, tail: Seq<Seq<u8>>, n: nat)
    requires
        n <= nodes.len(),
        tail == Seq::new(nodes.len(), |i: int| node_message(numbered(i as nat), nodes[i])),
    ensures
        joined(head + tail.take(n as int)) == joined(head) + node_messages(nodes, n),
    decreases n,
{
    if n == 0 {
        assert(head + tail.take(0) =~= head);
        assert(joined(head) + node_messages(nodes, 0) =~= joined(head));
    } else {
        let m = (n - 1) as nat;
        lemma_nodes_joined(head, nodes, tail, m);
        lemma_join_one_more(head + tail.take(m as int), tail[m as int]);
        assert((head + tail.take(m as int)).push(tail[m as int]) =~= head + tail.take(n as int));
        assert(joined(head) + (node_messages(nodes, m) + tail[m as int]) =~= joined(head) + node_messages(
            nodes,
            m,
        ) + tail[m as int]);
    }
}

/// A fingerprint is the text of the digest: two digits for each of its bytes, the high half
/// first, in lower case.
pub proof fn lemma_fingerprint_text(message: Seq<u8>, i: int)
    requires
        0 <= i < sha256(message).len(),
    ensures
        fingerprint_of(message).len() == 2 * sha256(message).len(),
        16 * nibble(fingerprint_of(message)[2 * i]) + nibble(fingerprint_of(message)[2 * i + 1]) == sha256(
            message,
        )[i],
        fingerprint_of(message)[2 * i] as int <= 57 || fingerprint_of(message)[2 * i] as int >= 97,
{
    crate::gate_laws::lemma_text_round_trip(sha256(message));
    crate::gate_laws::lemma_text_is_digits(fingerprint_of(message));
    assert(crate::hexes::hex_bytes(fingerprint_of(message))[i] == sha256(message)[i]);
}

/// What the fingerprint of a proof is taken over: a prefix and its serialised bytes, or
/// another prefix and its debug text.
pub proof fn lemma_proof_pieces(serialised: Seq<u8>, debug_text: Seq<u8>)
    ensures
        proof_message(Some(serialised), debug_text) == joined(
            seq!["gate-air/stark-proof/serde/v1".spec_bytes(), serialised],
        ),
        proof_message(None, debug_text) == joined(
            seq!["gate-air/stark-proof/debug/v1".spec_bytes(), debug_text],
        ),
{
    lemma_two("gate-air/stark-proof/serde/v1".spec_bytes(), serialised);
    lemma_two("gate-air/stark-proof/debug/v1".spec_bytes(), debug_text);
}

proof fn lemma_two(x: Seq<u8>, y: Seq<u8>)
    ensures
        joined(seq![x, y]) == x + y,
{
    let p0 = Seq::<Seq<u8>>::empty();
    let p1 = p0.push(x);
    lemma_join_one_more(p0, x);
    lemma_join_one_more(p1, y);
    assert(p1.push(y) =~= seq![x, y]);
    assert(joined(p0) + x =~= x);
}

/// The seed of a circuit's randomness: a label, and eight bytes each of the sample and of the
/// number of runs.
pub proof fn lemma_seed_pieces(sample: u64, repetitions: u64)
    ensures
        seed_of(sample, repetitions) == joined(
            seq![
                "native-iadd-air kmx equivalence".spec_bytes(),
                le_bytes(sample),
                le_bytes(repetitions),
            ],
        ),
{
    lemma_three("native-iadd-air kmx equivalence".spec_bytes(), le_bytes(sample), le_bytes(repetitions));
}

} // verus!
