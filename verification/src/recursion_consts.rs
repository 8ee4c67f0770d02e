//! The pinned shapes of the recursion: for each supported operating point the
//! columns, roots and commitment parameters that every layer is verified against.
//!
//! Nothing here is derived when a proof is made or checked: the values are fixed
//! per operating point, and any other point is unsupported.
use vstd::arithmetic::power2::{lemma2_to64, pow2};
use vstd::prelude::*;

verus! {

/// The most children that a node of the recursion verifies.
pub const FOLD_ARITY: usize = 8;

/// The blowup of leaves and nodes, as an exponent.
pub const RECURSION_LOG_BLOWUP: u32 = 3;

/// The words that every circuit of the recursion outputs: one digest.
pub const N_RESERVED: usize = 8;

/// The number of test vectors of a full run.
pub const SAMPLES: usize = 9024;

/// Columns of a recursion circuit's public trace.
pub const N_CIRCUIT_COLUMNS: usize = 45;

/// The parameters of the low-degree test.
#[derive(Clone, Copy, Debug, PartialEq, Eq, Structural)]
pub struct FriConfig {
    pub log_blowup_factor: u32,
    pub log_last_layer_degree_bound: u32,
    pub n_queries: usize,
    pub fold_step: u32,
}

/// The parameters of the polynomial commitment.
#[derive(Clone, Copy, Debug, PartialEq, Eq, Structural)]
pub struct PcsConfig {
    pub pow_bits: u32,
    pub fri_config: FriConfig,
    /// The exponent of the domain that all columns are lifted to.
    pub lifting_log_size: Option<u32>,
}

/// The rows of the components of a recursion node.
#[derive(Clone, Copy, Debug, PartialEq, Eq, Structural)]
pub struct ComponentSizes {
    pub eq: usize,
    pub qm31_ops: usize,
    pub m31_to_u32: usize,
    pub triple_xor: usize,
    pub blake_g_gate: usize,
}

/// What a circuit of the recursion is verified against.
pub struct CircuitConfig {
    pub config: PcsConfig,
    pub n_outputs: usize,
    /// The public columns and the exponents of their lengths, in committed order.
    pub preprocessed_column_log_sizes: Vec<(&'static str, u32)>,
    pub preprocessed_root: [u32; 8],
}

/// The columns of a leaf of the two smaller points.
pub const LEAF_COLUMNS: [(&'static str, u32); 45] = [
    ("bitwise_xor_4_0", 8),
    ("bitwise_xor_4_1", 8),
    ("bitwise_xor_4_2", 8),
    ("bitwise_xor_7_0", 14),
    ("bitwise_xor_7_1", 14),
    ("bitwise_xor_7_2", 14),
    ("seq_16", 16),
    ("bitwise_xor_8_0", 16),
    ("bitwise_xor_8_1", 16),
    ("bitwise_xor_8_2", 16),
    ("eq_in0_address", 17),
    ("eq_in1_address", 17),
    ("triple_xor_input_addr_0", 18),
    ("triple_xor_input_addr_1", 18),
    ("triple_xor_input_addr_2", 18),
    ("triple_xor_output_addr", 18),
    ("triple_xor_multiplicity", 18),
    ("bitwise_xor_9_0", 18),
    ("bitwise_xor_9_1", 18),
    ("bitwise_xor_9_2", 18),
    ("m31_to_u32_input_addr", 19),
    ("m31_to_u32_output_addr", 19),
    ("m31_to_u32_multiplicity", 19),
    ("bitwise_xor_10_0", 20),
    ("bitwise_xor_10_1", 20),
    ("bitwise_xor_10_2", 20),
    ("qm31_ops_add_flag", 21),
    ("qm31_ops_sub_flag", 21),
    ("qm31_ops_mul_flag", 21),
    ("qm31_ops_pointwise_mul_flag", 21),
    ("qm31_ops_in0_address", 21),
    ("qm31_ops_in1_address", 21),
    ("qm31_ops_out_address", 21),
    ("qm31_ops_mults", 21),
    ("blake_g_gate_input_addr_a", 21),
    ("blake_g_gate_input_addr_b", 21),
    ("blake_g_gate_input_addr_c", 21),
    ("blake_g_gate_input_addr_d", 21),
    ("blake_g_gate_input_addr_f0", 21),
    ("blake_g_gate_input_addr_f1", 21),
    ("blake_g_gate_output_addr_a", 21),
    ("blake_g_gate_output_addr_b", 21),
    ("blake_g_gate_output_addr_c", 21),
    ("blake_g_gate_output_addr_d", 21),
    ("blake_g_gate_multiplicity", 21),
];

/// The columns of a leaf of the largest point.
pub const LEAF_COLUMNS_K2000: [(&'static str, u32); 45] = [
    ("bitwise_xor_4_0", 8),
    ("bitwise_xor_4_1", 8),
    ("bitwise_xor_4_2", 8),
    ("bitwise_xor_7_0", 14),
    ("bitwise_xor_7_1", 14),
    ("bitwise_xor_7_2", 14),
    ("eq_in0_address", 16),
    ("eq_in1_address", 16),
    ("seq_16", 16),
    ("bitwise_xor_8_0", 16),
    ("bitwise_xor_8_1", 16),
    ("bitwise_xor_8_2", 16),
    ("triple_xor_input_addr_0", 18),
    ("triple_xor_input_addr_1", 18),
    ("triple_xor_input_addr_2", 18),
    ("triple_xor_output_addr", 18),
    ("triple_xor_multiplicity", 18),
    ("bitwise_xor_9_0", 18),
    ("bitwise_xor_9_1", 18),
    ("bitwise_xor_9_2", 18),
    ("m31_to_u32_input_addr", 19),
    ("m31_to_u32_output_addr", 19),
    ("m31_to_u32_multiplicity", 19),
    ("bitwise_xor_10_0", 20),
    ("bitwise_xor_10_1", 20),
    ("bitwise_xor_10_2", 20),
    ("qm31_ops_add_flag", 21),
    ("qm31_ops_sub_flag", 21),
    ("qm31_ops_mul_flag", 21),
    ("qm31_ops_pointwise_mul_flag", 21),
    ("qm31_ops_in0_address", 21),
    ("qm31_ops_in1_address", 21),
    ("qm31_ops_out_address", 21),
    ("qm31_ops_mults", 21),
    ("blake_g_gate_input_addr_a", 21),
    ("blake_g_gate_input_addr_b", 21),
    ("blake_g_gate_input_addr_c", 21),
    ("blake_g_gate_input_addr_d", 21),
    ("blake_g_gate_input_addr_f0", 21),
    ("blake_g_gate_input_addr_f1", 21),
    ("blake_g_gate_output_addr_a", 21),
    ("blake_g_gate_output_addr_b", 21),
    ("blake_g_gate_output_addr_c", 21),
    ("blake_g_gate_output_addr_d", 21),
    ("blake_g_gate_multiplicity", 21),
];

/// The columns of a node.
pub const NODE_COLUMNS: [(&'static str, u32); 45] = [
    ("bitwise_xor_4_0", 8),
    ("bitwise_xor_4_1", 8),
    ("bitwise_xor_4_2", 8),
    ("bitwise_xor_7_0", 14),
    ("bitwise_xor_7_1", 14),
    ("bitwise_xor_7_2", 14),
    ("seq_16", 16),
    ("bitwise_xor_8_0", 16),
    ("bitwise_xor_8_1", 16),
    ("bitwise_xor_8_2", 16),
    ("eq_in0_address", 17),
    ("eq_in1_address", 17),
    ("bitwise_xor_9_0", 18),
    ("bitwise_xor_9_1", 18),
    ("bitwise_xor_9_2", 18),
    ("triple_xor_input_addr_0", 19),
    ("triple_xor_input_addr_1", 19),
    ("triple_xor_input_addr_2", 19),
    ("triple_xor_output_addr", 19),
    ("triple_xor_multiplicity", 19),
    ("m31_to_u32_input_addr", 20),
    ("m31_to_u32_output_addr", 20),
    ("m31_to_u32_multiplicity", 20),
    ("bitwise_xor_10_0", 20),
    ("bitwise_xor_10_1", 20),
    ("bitwise_xor_10_2", 20),
    ("qm31_ops_add_flag", 22),
    ("qm31_ops_sub_flag", 22),
    ("qm31_ops_mul_flag", 22),
    ("qm31_ops_pointwise_mul_flag", 22),
    ("qm31_ops_in0_address", 22),
    ("qm31_ops_in1_address", 22),
    ("qm31_ops_out_address", 22),
    ("qm31_ops_mults", 22),
    ("blake_g_gate_input_addr_a", 22),
    ("blake_g_gate_input_addr_b", 22),
    ("blake_g_gate_input_addr_c", 22),
    ("blake_g_gate_input_addr_d", 22),
    ("blake_g_gate_input_addr_f0", 22),
    ("blake_g_gate_input_addr_f1", 22),
    ("blake_g_gate_output_addr_a", 22),
    ("blake_g_gate_output_addr_b", 22),
    ("blake_g_gate_output_addr_c", 22),
    ("blake_g_gate_output_addr_d", 22),
    ("blake_g_gate_multiplicity", 22),
];

/// The columns of the unpacker of the two smaller points.
pub const UNPACKER_COLUMNS: [(&'static str, u32); 45] = [
    ("bitwise_xor_4_0", 8),
    ("bitwise_xor_4_1", 8),
    ("bitwise_xor_4_2", 8),
    ("eq_in0_address", 14),
    ("eq_in1_address", 14),
    ("bitwise_xor_7_0", 14),
    ("bitwise_xor_7_1", 14),
    ("bitwise_xor_7_2", 14),
    ("triple_xor_input_addr_0", 16),
    ("triple_xor_input_addr_1", 16),
    ("triple_xor_input_addr_2", 16),
    ("triple_xor_output_addr", 16),
    ("triple_xor_multiplicity", 16),
    ("seq_16", 16),
    ("bitwise_xor_8_0", 16),
    ("bitwise_xor_8_1", 16),
    ("bitwise_xor_8_2", 16),
    ("m31_to_u32_input_addr", 17),
    ("m31_to_u32_output_addr", 17),
    ("m31_to_u32_multiplicity", 17),
    ("bitwise_xor_9_0", 18),
    ("bitwise_xor_9_1", 18),
    ("bitwise_xor_9_2", 18),
    ("qm31_ops_add_flag", 19),
    ("qm31_ops_sub_flag", 19),
    ("qm31_ops_mul_flag", 19),
    ("qm31_ops_pointwise_mul_flag", 19),
    ("qm31_ops_in0_address", 19),
    ("qm31_ops_in1_address", 19),
    ("qm31_ops_out_address", 19),
    ("qm31_ops_mults", 19),
    ("blake_g_gate_input_addr_a", 19),
    ("blake_g_gate_input_addr_b", 19),
    ("blake_g_gate_input_addr_c", 19),
    ("blake_g_gate_input_addr_d", 19),
    ("blake_g_gate_input_addr_f0", 19),
    ("blake_g_gate_input_addr_f1", 19),
    ("blake_g_gate_output_addr_a", 19),
    ("blake_g_gate_output_addr_b", 19),
    ("blake_g_gate_output_addr_c", 19),
    ("blake_g_gate_output_addr_d", 19),
    ("blake_g_gate_multiplicity", 19),
    ("bitwise_xor_10_0", 20),
    ("bitwise_xor_10_1", 20),
    ("bitwise_xor_10_2", 20),
];

/// The columns of the unpacker of the largest point.
pub const UNPACKER_COLUMNS_K2000: [(&'static str, u32); 45] = [
    ("bitwise_xor_4_0", 8),
    ("bitwise_xor_4_1", 8),
    ("bitwise_xor_4_2", 8),
    ("eq_in0_address", 14),
    ("eq_in1_address", 14),
    ("bitwise_xor_7_0", 14),
    ("bitwise_xor_7_1", 14),
    ("bitwise_xor_7_2", 14),
    ("triple_xor_input_addr_0", 16),
    ("triple_xor_input_addr_1", 16),
    ("triple_xor_input_addr_2", 16),
    ("triple_xor_output_addr", 16),
    ("triple_xor_multiplicity", 16),
    ("seq_16", 16),
    ("bitwise_xor_8_0", 16),
    ("bitwise_xor_8_1", 16),
    ("bitwise_xor_8_2", 16),
    ("m31_to_u32_input_addr", 17),
    ("m31_to_u32_output_addr", 17),
    ("m31_to_u32_multiplicity", 17),
    ("bitwise_xor_9_0", 18),
    ("bitwise_xor_9_1", 18),
    ("bitwise_xor_9_2", 18),
    ("qm31_ops_add_flag", 19),
    ("qm31_ops_sub_flag", 19),
    ("qm31_ops_mul_flag", 19),
    ("qm31_ops_pointwise_mul_flag", 19),
    ("qm31_ops_in0_address", 19),
    ("qm31_ops_in1_address", 19),
    ("qm31_ops_out_address", 19),
    ("qm31_ops_mults", 19),
    ("blake_g_gate_input_addr_a", 20),
    ("blake_g_gate_input_addr_b", 20),
    ("blake_g_gate_input_addr_c", 20),
    ("blake_g_gate_input_addr_d", 20),
    ("blake_g_gate_input_addr_f0", 20),
    ("blake_g_gate_input_addr_f1", 20),
    ("blake_g_gate_output_addr_a", 20),
    ("blake_g_gate_output_addr_b", 20),
    ("blake_g_gate_output_addr_c", 20),
    ("blake_g_gate_output_addr_d", 20),
    ("blake_g_gate_multiplicity", 20),
    ("bitwise_xor_10_0", 20),
    ("bitwise_xor_10_1", 20),
    ("bitwise_xor_10_2", 20),
];

pub const K500_LEAF_ROOT: [u32; 8] = [
    793966613, 3148827868, 371244120, 1131643778, 2398270055,
    3940816135, 3922883541, 3837070059,
];

/// Indexed by arity minus two.
pub const K500_LEVEL1_ROOTS: [[u32; 8]; 7] = [
    [
        3913237992, 1328931292, 3600783642, 4160425405, 2292402306,
        1372795367, 3344825380, 3307260737,
    ],
    [
        794020276, 1138354557, 2342314457, 2738058620, 836541475,
        572545005, 2133473276, 3732366911,
    ],
    [
        3981184752, 2869148245, 4050452879, 1549695810, 1413560986,
        1526183906, 3280509150, 3056814724,
    ],
    [
        1772291197, 3779180227, 1829603982, 1960869279, 572129748,
        4004918105, 3172614091, 1985563048,
    ],
    [
        2933855741, 1000136023, 76643639, 3340313634, 2460463927,
        2514012950, 2141552836, 3742645957,
    ],
    [
        3714377982, 4143563905, 2695071820, 3749142775, 1753261140,
        1751655539, 1139804928, 3047062049,
    ],
    [
        348310115, 2823893169, 3301704946, 2792065221, 3585730242,
        3904259419, 3672672604, 3724957741,
    ],
];

/// Indexed by arity minus two.
pub const K500_FOLD_ROOTS: [[u32; 8]; 7] = [
    [
        2035091519, 501705985, 166047172, 1123045752, 3568305265,
        815574077, 3278034143, 243510273,
    ],
    [
        1205184393, 1768923835, 1951434286, 589634634, 1735120075,
        2299869867, 1464856437, 2015570009,
    ],
    [
        697049043, 4174700279, 879818794, 100854944, 3626372037,
        2285919184, 1035665903, 640249968,
    ],
    [
        3815544182, 1429541617, 1568851281, 503105286, 4267192809,
        4058400151, 1111718947, 579912664,
    ],
    [
        4078638528, 3540322400, 1438635665, 1114065282, 1562653426,
        1810740466, 1059032829, 4099962379,
    ],
    [
        1954138946, 1856729758, 1748132318, 875692421, 2985527280,
        2727902775, 397876993, 3419958345,
    ],
    [
        821842364, 2771518357, 3999513413, 3904203972, 436240095,
        516791821, 817970496, 1661073348,
    ],
];

pub const K500_UNPACKER_ROOT: [u32; 8] = [
    1458995347, 1562440200, 1202961514, 2987559716, 1526432770,
    3682326847, 1943084383, 2712873628,
];

pub const K1000_LEAF_ROOT: [u32; 8] = [
    1850900959, 3293234304, 2928656745, 3090560660, 3612317591,
    3430403496, 233314597, 2442885335,
];

/// Indexed by arity minus two.
pub const K1000_LEVEL1_ROOTS: [[u32; 8]; 7] = [
    [
        3913237992, 1328931292, 3600783642, 4160425405, 2292402306,
        1372795367, 3344825380, 3307260737,
    ],
    [
        794020276, 1138354557, 2342314457, 2738058620, 836541475,
        572545005, 2133473276, 3732366911,
    ],
    [
        3981184752, 2869148245, 4050452879, 1549695810, 1413560986,
        1526183906, 3280509150, 3056814724,
    ],
    [
        1772291197, 3779180227, 1829603982, 1960869279, 572129748,
        4004918105, 3172614091, 1985563048,
    ],
    [
        2933855741, 1000136023, 76643639, 3340313634, 2460463927,
        2514012950, 2141552836, 3742645957,
    ],
    [
        3714377982, 4143563905, 2695071820, 3749142775, 1753261140,
        1751655539, 1139804928, 3047062049,
    ],
    [
        348310115, 2823893169, 3301704946, 2792065221, 3585730242,
        3904259419, 3672672604, 3724957741,
    ],
];

/// Indexed by arity minus two.
pub const K1000_FOLD_ROOTS: [[u32; 8]; 7] = [
    [
        2035091519, 501705985, 166047172, 1123045752, 3568305265,
        815574077, 3278034143, 243510273,
    ],
    [
        1205184393, 1768923835, 1951434286, 589634634, 1735120075,
        2299869867, 1464856437, 2015570009,
    ],
    [
        697049043, 4174700279, 879818794, 100854944, 3626372037,
        2285919184, 1035665903, 640249968,
    ],
    [
        3815544182, 1429541617, 1568851281, 503105286, 4267192809,
        4058400151, 1111718947, 579912664,
    ],
    [
        4078638528, 3540322400, 1438635665, 1114065282, 1562653426,
        1810740466, 1059032829, 4099962379,
    ],
    [
        1954138946, 1856729758, 1748132318, 875692421, 2985527280,
        2727902775, 397876993, 3419958345,
    ],
    [
        821842364, 2771518357, 3999513413, 3904203972, 436240095,
        516791821, 817970496, 1661073348,
    ],
];

pub const K1000_UNPACKER_ROOT: [u32; 8] = [
    3728195187, 1170503658, 3767219659, 4041647410, 1441671135,
    3615336523, 211715135, 2181328451,
];

pub const K2000_LEAF_ROOT: [u32; 8] = [
    1671726266, 3079719153, 3369376636, 2214560819, 1590190948,
    784830243, 1338047948, 4269289402,
];

/// Indexed by arity minus two.
pub const K2000_LEVEL1_ROOTS: [[u32; 8]; 7] = [
    [
        1990614252, 494231903, 872668398, 1645072460, 3559864537,
        1840174976, 1840493561, 460461879,
    ],
    [
        1350136369, 613818072, 2389158623, 623563511, 762762034,
        2941096340, 1306234309, 781402198,
    ],
    [
        2826914180, 4169723737, 2593954969, 618739703, 3531112443,
        1652306850, 3697541633, 1374203952,
    ],
    [
        3535923161, 4048113930, 1160487281, 3545319893, 1011023218,
        3048918468, 1762680830, 1350636447,
    ],
    [
        2048057097, 2473932466, 1545952202, 94647821, 2688644939,
        385238271, 686837108, 3861452986,
    ],
    [
        3560555931, 2113360241, 2576210057, 3620827623, 2396287476,
        2033049081, 3307246211, 2834975683,
    ],
    [
        1066398071, 957931730, 2617037336, 4031838851, 626823415,
        1208599359, 3889888060, 3816771445,
    ],
];

/// Indexed by arity minus two.
pub const K2000_FOLD_ROOTS: [[u32; 8]; 7] = [
    [
        2035091519, 501705985, 166047172, 1123045752, 3568305265,
        815574077, 3278034143, 243510273,
    ],
    [
        1205184393, 1768923835, 1951434286, 589634634, 1735120075,
        2299869867, 1464856437, 2015570009,
    ],
    [
        697049043, 4174700279, 879818794, 100854944, 3626372037,
        2285919184, 1035665903, 640249968,
    ],
    [
        3815544182, 1429541617, 1568851281, 503105286, 4267192809,
        4058400151, 1111718947, 579912664,
    ],
    [
        4078638528, 3540322400, 1438635665, 1114065282, 1562653426,
        1810740466, 1059032829, 4099962379,
    ],
    [
        1954138946, 1856729758, 1748132318, 875692421, 2985527280,
        2727902775, 397876993, 3419958345,
    ],
    [
        821842364, 2771518357, 3999513413, 3904203972, 436240095,
        516791821, 817970496, 1661073348,
    ],
];

pub const K2000_UNPACKER_ROOT: [u32; 8] = [
    3703613476, 3482821825, 2797341073, 3706339720, 760043064,
    2712616523, 1917170430, 2259292315,
];

/// The supported operating points.
#[derive(Clone, Copy, Debug, PartialEq, Eq, Structural)]
pub enum OperatingPoint {
    /// 500 runs of the circuit per shot, 52 shots per shard, 174 shards.
    K500N174,
    /// 1000 runs of the circuit per shot, 26 shots per shard, 348 shards.
    K1000N348,
    /// 2000 runs of the circuit per shot, 13 shots per shard, 695 shards.
    K2000N695,
}

/// The commitment parameters for a trace of exponent `trace_log_size`: proof of
/// work and queries follow from the blowup.
pub open spec fn pcs_of(trace_log_size: u32, log_blowup_factor: u32) -> PcsConfig {
    PcsConfig {
        pow_bits: if log_blowup_factor == 3 {
            27
        } else {
            26
        },
        fri_config: FriConfig {
            log_blowup_factor,
            log_last_layer_degree_bound: 0,
            n_queries: if log_blowup_factor == 1 {
                70
            } else if log_blowup_factor == 2 {
                35
            } else {
                23
            },
            fold_step: 4,
        },
        lifting_log_size: Some((trace_log_size + log_blowup_factor) as u32),
    }
}

/// Blowups with pinned parameters.
pub open spec fn blowup_supported(log_blowup_factor: u32) -> bool {
    1 <= log_blowup_factor <= 3
}

/// Every supported blowup gives 96 bits: the proof of work plus `log_blowup`
/// bits per query.
pub proof fn lemma_pcs_security(trace_log_size: u32, log_blowup_factor: u32)
    requires
        blowup_supported(log_blowup_factor),
    ensures
        pcs_of(trace_log_size, log_blowup_factor).pow_bits + log_blowup_factor * pcs_of(
            trace_log_size,
            log_blowup_factor,
        ).fri_config.n_queries == 96,
{
    if log_blowup_factor == 1 {
    } else if log_blowup_factor == 2 {
    } else {
        assert(log_blowup_factor == 3);
    }
}

/// The commitment parameters for a blowup of one, two or three bits.
pub fn pcs_for_blowup(trace_log_size: u32, log_blowup_factor: u32) -> (r: PcsConfig)
    requires
        blowup_supported(log_blowup_factor),
        trace_log_size + log_blowup_factor <= u32::MAX,
    ensures
        r == pcs_of(trace_log_size, log_blowup_factor),
{
    let pow_bits: u32;
    let n_queries: usize;
    if log_blowup_factor == 1 {
        pow_bits = 26;
        n_queries = 70;
    } else if log_blowup_factor == 2 {
        pow_bits = 26;
        n_queries = 35;
    } else {
        pow_bits = 27;
        n_queries = 23;
    }
    PcsConfig {
        pow_bits,
        fri_config: FriConfig {
            log_blowup_factor,
            log_last_layer_degree_bound: 0,
            n_queries,
            fold_step: 4,
        },
        lifting_log_size: Some(trace_log_size + log_blowup_factor),
    }
}

/// The commitment parameters of a leaf.
pub fn leaf_pcs(trace_log_size: u32) -> (r: PcsConfig)
    requires
        trace_log_size + RECURSION_LOG_BLOWUP <= u32::MAX,
    ensures
        r == pcs_of(trace_log_size, RECURSION_LOG_BLOWUP),
{
    pcs_for_blowup(trace_log_size, RECURSION_LOG_BLOWUP)
}

/// The commitment parameters of a node.
pub fn node_pcs(trace_log_size: u32) -> (r: PcsConfig)
    requires
        trace_log_size + RECURSION_LOG_BLOWUP <= u32::MAX,
    ensures
        r == pcs_of(trace_log_size, RECURSION_LOG_BLOWUP),
{
    pcs_for_blowup(trace_log_size, RECURSION_LOG_BLOWUP)
}

/// The place of an arity in the tables of roots.
pub fn arity_slot(arity: usize) -> (r: usize)
    requires
        2 <= arity <= FOLD_ARITY,
    ensures
        r == arity - 2,
{
    arity - 2
}

/// A list of columns, in order.
pub fn cols(pairs: &[(&'static str, u32)]) -> (r: Vec<(&'static str, u32)>)
    ensures
        r@ == pairs@,
{
    let mut r: Vec<(&'static str, u32)> = Vec::new();
    let mut i: usize = 0;
    while i < pairs.len()
        invariant
            i <= pairs@.len(),
            r@ == pairs@.take(i as int),
        decreases pairs.len() - i,
    {
        r.push(pairs[i]);
        assert(pairs@.take(i + 1) =~= pairs@.take(i as int).push(pairs@[i as int]));
        i += 1;
    }
    assert(pairs@.take(pairs@.len() as int) =~= pairs@);
    r
}

/// The configuration of a leaf or node circuit.
pub fn circuit_config(pcs: PcsConfig, columns: &[(&'static str, u32)], root: [u32; 8]) -> (r:
    CircuitConfig)
    ensures
        r.config == pcs,
        r.n_outputs == N_RESERVED,
        r.preprocessed_column_log_sizes@ == columns@,
        r.preprocessed_root == root,
{
    CircuitConfig {
        config: pcs,
        n_outputs: N_RESERVED,
        preprocessed_column_log_sizes: cols(columns),
        preprocessed_root: root,
    }
}

impl OperatingPoint {
    /// The runs of the circuit per shot.
    pub open spec fn runs(self) -> int {
        match self {
            OperatingPoint::K500N174 => 500,
            OperatingPoint::K1000N348 => 1000,
            OperatingPoint::K2000N695 => 2000,
        }
    }

    /// The shots per shard.
    pub open spec fn shots(self) -> int {
        match self {
            OperatingPoint::K500N174 => 52,
            OperatingPoint::K1000N348 => 26,
            OperatingPoint::K2000N695 => 13,
        }
    }

    /// The number of shards.
    pub open spec fn shards(self) -> int {
        match self {
            OperatingPoint::K500N174 => 174,
            OperatingPoint::K1000N348 => 348,
            OperatingPoint::K2000N695 => 695,
        }
    }

    pub open spec fn supported(k: int, shots_per_shard: int) -> bool {
        (k == 500 && shots_per_shard == 52) || (k == 1000 && shots_per_shard == 26) || (k == 2000
            && shots_per_shard == 13)
    }

    /// The operating point of a run, which must be a supported one.
    pub fn from_params(k: usize, shots_per_shard: usize) -> (r: OperatingPoint)
        requires
            OperatingPoint::supported(k as int, shots_per_shard as int),
        ensures
            r.runs() == k,
            r.shots() == shots_per_shard,
    {
        if k == 500 {
            OperatingPoint::K500N174
        } else if k == 1000 {
            OperatingPoint::K1000N348
        } else {
            OperatingPoint::K2000N695
        }
    }

    /// The number of shards of a full run.
    pub fn n(self) -> (r: usize)
        ensures
            r == self.shards(),
    {
        match self {
            OperatingPoint::K500N174 => 174,
            OperatingPoint::K1000N348 => 348,
            OperatingPoint::K2000N695 => 695,
        }
    }

    pub open spec fn leaf_columns(self) -> Seq<(&'static str, u32)> {
        match self {
            OperatingPoint::K500N174 => LEAF_COLUMNS@,
            OperatingPoint::K1000N348 => LEAF_COLUMNS@,
            OperatingPoint::K2000N695 => LEAF_COLUMNS_K2000@,
        }
    }

    pub open spec fn unpacker_columns(self) -> Seq<(&'static str, u32)> {
        match self {
            OperatingPoint::K500N174 => UNPACKER_COLUMNS@,
            OperatingPoint::K1000N348 => UNPACKER_COLUMNS@,
            OperatingPoint::K2000N695 => UNPACKER_COLUMNS_K2000@,
        }
    }

    pub open spec fn pinned_leaf_root(self) -> [u32; 8] {
        match self {
            OperatingPoint::K500N174 => K500_LEAF_ROOT,
            OperatingPoint::K1000N348 => K1000_LEAF_ROOT,
            OperatingPoint::K2000N695 => K2000_LEAF_ROOT,
        }
    }

    pub open spec fn level1_roots(self) -> Seq<[u32; 8]> {
        match self {
            OperatingPoint::K500N174 => K500_LEVEL1_ROOTS@,
            OperatingPoint::K1000N348 => K1000_LEVEL1_ROOTS@,
            OperatingPoint::K2000N695 => K2000_LEVEL1_ROOTS@,
        }
    }

    pub open spec fn fold_roots(self) -> Seq<[u32; 8]> {
        match self {
            OperatingPoint::K500N174 => K500_FOLD_ROOTS@,
            OperatingPoint::K1000N348 => K1000_FOLD_ROOTS@,
            OperatingPoint::K2000N695 => K2000_FOLD_ROOTS@,
        }
    }

    pub open spec fn pinned_unpacker_root(self) -> [u32; 8] {
        match self {
            OperatingPoint::K500N174 => K500_UNPACKER_ROOT,
            OperatingPoint::K1000N348 => K1000_UNPACKER_ROOT,
            OperatingPoint::K2000N695 => K2000_UNPACKER_ROOT,
        }
    }

    /// What the leaves are verified against.
    pub fn leaf_config(self) -> (r: CircuitConfig)
        ensures
            r.config == pcs_of(21, RECURSION_LOG_BLOWUP),
            r.n_outputs == N_RESERVED,
            r.preprocessed_column_log_sizes@ == self.leaf_columns(),
            r.preprocessed_root == self.pinned_leaf_root(),
    {
        let pcs: PcsConfig = leaf_pcs(21);
        match self {
            OperatingPoint::K500N174 => circuit_config(pcs, &LEAF_COLUMNS, self.leaf_root()),
            OperatingPoint::K1000N348 => circuit_config(pcs, &LEAF_COLUMNS, self.leaf_root()),
            OperatingPoint::K2000N695 => circuit_config(pcs, &LEAF_COLUMNS_K2000, self.leaf_root()),
        }
    }

    /// What a node over `arity` leaves is verified against.
    pub fn level1_config(self, arity: usize) -> (r: CircuitConfig)
        requires
            2 <= arity <= FOLD_ARITY,
        ensures
            r.config == pcs_of(22, RECURSION_LOG_BLOWUP),
            r.n_outputs == N_RESERVED,
            r.preprocessed_column_log_sizes@ == NODE_COLUMNS@,
            r.preprocessed_root == self.level1_roots()[arity - 2],
    {
        circuit_config(node_pcs(22), &NODE_COLUMNS, self.level1_root(arity))
    }

    /// What a node over `arity` nodes is verified against.
    pub fn fold_config(self, arity: usize) -> (r: CircuitConfig)
        requires
            2 <= arity <= FOLD_ARITY,
        ensures
            r.config == pcs_of(22, RECURSION_LOG_BLOWUP),
            r.n_outputs == N_RESERVED,
            r.preprocessed_column_log_sizes@ == NODE_COLUMNS@,
            r.preprocessed_root == self.fold_roots()[arity - 2],
    {
        circuit_config(node_pcs(22), &NODE_COLUMNS, self.fold_root(arity))
    }

    /// The sizes that every node is padded to, so that all nodes have one shape.
    pub fn node_target(self) -> (r: ComponentSizes)
        ensures
            r == (ComponentSizes {
                eq: 131072,
                qm31_ops: 4194304,
                m31_to_u32: 1048576,
                triple_xor: 524288,
                blake_g_gate: 4194304,
            }),
    {
        ComponentSizes {
            eq: 131072,
            qm31_ops: 4194304,
            m31_to_u32: 1048576,
            triple_xor: 524288,
            blake_g_gate: 4194304,
        }
    }

    pub fn leaf_root(self) -> (r: [u32; 8])
        ensures
            r == self.pinned_leaf_root(),
    {
        match self {
            OperatingPoint::K500N174 => K500_LEAF_ROOT,
            OperatingPoint::K1000N348 => K1000_LEAF_ROOT,
            OperatingPoint::K2000N695 => K2000_LEAF_ROOT,
        }
    }

    pub fn level1_root(self, arity: usize) -> (r: [u32; 8])
        requires
            2 <= arity <= FOLD_ARITY,
        ensures
            r == self.level1_roots()[arity - 2],
    {
        let slot: usize = arity_slot(arity);
        match self {
            OperatingPoint::K500N174 => K500_LEVEL1_ROOTS[slot],
            OperatingPoint::K1000N348 => K1000_LEVEL1_ROOTS[slot],
            OperatingPoint::K2000N695 => K2000_LEVEL1_ROOTS[slot],
        }
    }

    pub fn fold_root(self, arity: usize) -> (r: [u32; 8])
        requires
            2 <= arity <= FOLD_ARITY,
        ensures
            r == self.fold_roots()[arity - 2],
    {
        let slot: usize = arity_slot(arity);
        match self {
            OperatingPoint::K500N174 => K500_FOLD_ROOTS[slot],
            OperatingPoint::K1000N348 => K1000_FOLD_ROOTS[slot],
            OperatingPoint::K2000N695 => K2000_FOLD_ROOTS[slot],
        }
    }

    /// What the unpacker of all `n` leaves is verified against.
    pub fn unpacker_config(self, n: usize) -> (r: CircuitConfig)
        requires
            n == self.shards(),
        ensures
            r.config == pcs_of(20, RECURSION_LOG_BLOWUP),
            r.n_outputs == n * N_RESERVED,
            r.preprocessed_column_log_sizes@ == self.unpacker_columns(),
            r.preprocessed_root == self.pinned_unpacker_root(),
    {
        let pcs: PcsConfig = PcsConfig {
            pow_bits: 27,
            fri_config: FriConfig {
                log_blowup_factor: 3,
                log_last_layer_degree_bound: 0,
                n_queries: 23,
                fold_step: 4,
            },
            lifting_log_size: Some(23),
        };
        match self {
            OperatingPoint::K500N174 => CircuitConfig {
                config: pcs,
                n_outputs: 1392,
                preprocessed_column_log_sizes: cols(&UNPACKER_COLUMNS),
                preprocessed_root: K500_UNPACKER_ROOT,
            },
            OperatingPoint::K1000N348 => CircuitConfig {
                config: pcs,
                n_outputs: 2784,
                preprocessed_column_log_sizes: cols(&UNPACKER_COLUMNS),
                preprocessed_root: K1000_UNPACKER_ROOT,
            },
            OperatingPoint::K2000N695 => CircuitConfig {
                config: pcs,
                n_outputs: 5560,
                preprocessed_column_log_sizes: cols(&UNPACKER_COLUMNS_K2000),
                preprocessed_root: K2000_UNPACKER_ROOT,
            },
        }
    }
}

/// The number of shards is that of all samples cut into shards: the last shard
/// is begun, and not more than filled.
pub proof fn lemma_shards_cover_samples(p: OperatingPoint)
    ensures
        (p.shards() - 1) * p.shots() < SAMPLES <= p.shards() * p.shots(),
{
    match p {
        OperatingPoint::K500N174 => {},
        OperatingPoint::K1000N348 => {},
        OperatingPoint::K2000N695 => {},
    }
}

/// Columns in ascending order of size.
pub open spec fn ascending(s: Seq<(&'static str, u32)>) -> bool {
    forall|i: int, j: int| 0 <= i <= j < s.len() ==> (#[trigger] s[i]).1 <= (#[trigger] s[j]).1
}

/// All pinned columns are committed in ascending order of size, none larger
/// than the trace.
pub proof fn lemma_columns_ascending(p: OperatingPoint)
    ensures
        ascending(p.leaf_columns()) && p.leaf_columns().last().1 == 21,
        ascending(NODE_COLUMNS@) && NODE_COLUMNS@.last().1 == 22,
        ascending(p.unpacker_columns()) && p.unpacker_columns().last().1 == 20,
{
}

/// The pinned node columns are as long as the sizes that nodes are padded to.
pub proof fn lemma_node_columns_padded()
    ensures
        forall|i: int|
            0 <= i < 45 ==> {
                let c = #[trigger] NODE_COLUMNS@[i];
                &&& 10 <= i < 12 ==> pow2(c.1 as nat) == 131072
                &&& 15 <= i < 20 ==> pow2(c.1 as nat) == 524288
                &&& 20 <= i < 23 ==> pow2(c.1 as nat) == 1048576
                &&& 26 <= i < 45 ==> pow2(c.1 as nat) == 4194304
            },
{
    lemma2_to64();
}

} // verus!
