//! What the pinned parameters of the recursion amount to.
use vstd::prelude::*;

use crate::recursion_consts::{
    blowup_supported, pcs_of, OperatingPoint,
};

verus! {

/// The parameters of a commitment give 96 bits: as many queries as leave at least 26 bits to
/// the proof of work, which has the rest. The layers are folded by four bits each, down to
/// a constant, and the domain is the trace's, blown up.
pub proof fn lemma_parameters_give_96_bits(trace_log_size: u32, log_blowup: u32)
    requires
        blowup_supported(log_blowup),
        trace_log_size + log_blowup <= u32::MAX,
    ensures
        ({
            let c = pcs_of(trace_log_size, log_blowup);
            let q = c.fri_config.n_queries as int;
            &&& c.fri_config.log_blowup_factor == log_blowup
            &&& log_blowup * q <= 96 - 26 < log_blowup * (q + 1)
            &&& c.pow_bits == 96 - log_blowup * q
            &&& c.fri_config.fold_step == 4
            &&& c.fri_config.log_last_layer_degree_bound == 0
            &&& c.lifting_log_size matches Some(l) && l == trace_log_size + log_blowup
        }),
{
    assert(log_blowup == 1 || log_blowup == 2 || log_blowup == 3);
}

/// The blowups that can be asked for.
pub proof fn lemma_blowups(log_blowup: u32)
    ensures
        blowup_supported(log_blowup) <==> log_blowup == 1 || log_blowup == 2 || log_blowup == 3,
{
}

/// The operating points: all have shards of 26000 runs, and as many shards as 9024 samples
/// take.
pub proof fn lemma_operating_points(p: OperatingPoint, k: int, shots: int)
    ensures
        p.runs() * p.shots() == 26000,
        9024 <= p.shards() * p.shots() < 9024 + p.shots(),
        OperatingPoint::supported(k, shots) <==> (k == 500 || k == 1000 || k == 2000) && k * shots == 26000,
        p.runs() == 500 || p.runs() == 1000 || p.runs() == 2000,
        OperatingPoint::supported(p.runs(), p.shots()),
{
    if k == 500 || k == 1000 || k == 2000 {
        assert(k * shots == 26000 <==> (k == 500 && shots == 52) || (k == 1000 && shots == 26) || (k == 2000 && shots == 13)) by (nonlinear_arith)
            requires
                k == 500 || k == 1000 || k == 2000,
        ;
    }
}

/// Runs of one kind have one operating point.
pub proof fn lemma_operating_point_unique(p: OperatingPoint, q: OperatingPoint)
    requires
        p.runs() == q.runs() || p.shots() == q.shots() || p.shards() == q.shards(),
    ensures
        p == q,
{
}

/// The first words of the roots of an operating point: of a leaf, of nodes over two to eight
/// leaves, of nodes over two to eight nodes, and of the unpacker.
pub open spec fn first_words(p: OperatingPoint) -> (u32, Seq<u32>, Seq<u32>, u32) {
    match p {
        OperatingPoint::K500N174 => (
            793966613,
            seq![3913237992u32, 794020276u32, 3981184752u32, 1772291197u32, 2933855741u32, 3714377982u32, 348310115u32],
            seq![2035091519u32, 1205184393u32, 697049043u32, 3815544182u32, 4078638528u32, 1954138946u32, 821842364u32],
            1458995347,
        ),
        OperatingPoint::K1000N348 => (
            1850900959,
            seq![3913237992u32, 794020276u32, 3981184752u32, 1772291197u32, 2933855741u32, 3714377982u32, 348310115u32],
            seq![2035091519u32, 1205184393u32, 697049043u32, 3815544182u32, 4078638528u32, 1954138946u32, 821842364u32],
            3728195187,
        ),
        OperatingPoint::K2000N695 => (
            1671726266,
            seq![1990614252u32, 1350136369u32, 2826914180u32, 3535923161u32, 2048057097u32, 3560555931u32, 1066398071u32],
            seq![2035091519u32, 1205184393u32, 697049043u32, 3815544182u32, 4078638528u32, 1954138946u32, 821842364u32],
            3703613476,
        ),
    }
}

/// Every circuit of an operating point has the root that begins with its word: which root it
/// is depends on the point, on the kind of circuit and on the number of children.
pub proof fn lemma_roots_by_first_word(p: OperatingPoint, arity: int)
    requires
        2 <= arity <= 8,
    ensures
        ({
            let (leaf, level1, fold, unpacker) = first_words(p);
            &&& p.pinned_leaf_root()@[0] == leaf
            &&& p.level1_roots().len() == 7 && p.level1_roots()[arity - 2]@[0] == level1[arity - 2]
            &&& p.fold_roots().len() == 7 && p.fold_roots()[arity - 2]@[0] == fold[arity - 2]
            &&& p.pinned_unpacker_root()@[0] == unpacker
        }),
{
    assert(arity == 2 || arity == 3 || arity == 4 || arity == 5 || arity == 6 || arity == 7 || arity == 8);
}

/// The sizes of the public columns of a leaf and of the unpacker: two columns of a leaf are
/// smaller where shots are longest, and eleven of the unpacker's larger.
pub proof fn lemma_column_sizes(p: OperatingPoint, i: int)
    requires
        0 <= i < 45,
    ensures
        p.leaf_columns().len() == 45 && p.unpacker_columns().len() == 45,
        ({
            let long = p.runs() == 2000;
            &&& p.leaf_columns()[i].1 == (if i < 3 {
                8int
            } else if i < 6 {
                14
            } else if i < 10 || (long && i < 12) {
                16
            } else if i < 12 {
                17
            } else if i < 20 {
                18
            } else if i < 23 {
                19
            } else if i < 26 {
                20
            } else {
                21
            })
            &&& p.unpacker_columns()[i].1 == (if i < 3 {
                8int
            } else if i < 8 {
                14
            } else if i < 17 {
                16
            } else if i < 20 {
                17
            } else if i < 23 {
                18
            } else if i < 31 || (!long && i < 42) {
                19
            } else {
                20
            })
        }),
{
}

} // verus!
