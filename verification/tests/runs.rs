//! Planning a run: shards, producers, pools and pinned configurations.
use gate_air::circuit::{ParseError, TestCase};
use gate_air::field::QM31;
use gate_air::leaf::leaf_pcs_config;
use gate_air::recursion_consts::{
    leaf_pcs, node_pcs, pcs_for_blowup, OperatingPoint, K1000_LEVEL1_ROOTS, K2000_LEAF_ROOT,
    K500_FOLD_ROOTS, K500_UNPACKER_ROOT, N_RESERVED, SAMPLES,
};
use gate_air::run::{
    base_gpus, collect_start, collect_step, env_flag_default_on, oversized_build, pinned_unpacker_config,
    pipeline_asked, pipelined, plan_run, plan_shards, pool_plan, producer_shards, producers, root_output_values,
    row_sizes, shard_case_sets, shots_per_shard_knob, zk_blinding, Arrival, Collect, Fixture,
    NeedsPipeline, RunError,
};
use gate_air::shard::{is_countable, shard_shape};

fn test_case(i: usize) -> TestCase {
    TestCase {
        x_hex: format!("{i:02x}"),
        y_hex: String::new(),
    }
}

fn fixture() -> Fixture {
    Fixture {
        version: String::from("v0.3-iadd"),
        repetitions: 4,
        n_samples: 3,
        num_qubits: 512,
        circuit_byte_serialisation_hex: String::from("47545631010000000100050000000000"),
        test_cases: vec![test_case(0), test_case(1), test_case(2), test_case(3)],
    }
}

#[test]
fn run_of_a_fixture() {
    let p = match plan_run(&fixture(), 16, None) {
        Ok(p) => p,
        Err(_) => panic!("the fixture is right"),
    };
    assert_eq!((p.gates.len(), p.k, p.samples), (1, 4, 3));
    let p = match plan_run(&fixture(), 2, Some(9)) {
        Ok(p) => p,
        Err(_) => panic!("the fixture is right"),
    };
    assert_eq!((p.k, p.samples), (9, 2));
}

#[test]
fn fixtures_that_are_refused() {
    let refusal = |f: &Fixture, samples: usize, k: Option<usize>| match plan_run(f, samples, k) {
        Ok(_) => panic!("the fixture is wrong"),
        Err(e) => e,
    };
    assert_eq!(refusal(&fixture(), 0, None), RunError::Empty);
    assert_eq!(refusal(&fixture(), 1, Some(0)), RunError::Empty);
    let mut f = fixture();
    f.circuit_byte_serialisation_hex = String::from("4754");
    assert_eq!(
        refusal(&f, 1, None),
        RunError::Circuit(ParseError::BadMagic)
    );
    f.num_qubits = 511;
    assert_eq!(refusal(&f, 1, None), RunError::Qubits { got: 511 });
    f.version = String::from("v0.4-iadd");
    assert_eq!(refusal(&f, 1, None), RunError::Version);
}

#[test]
fn rows_of_a_run() {
    assert_eq!(row_sizes(2, 3, 5), (30, 64, 6));
    assert_eq!(row_sizes(2, 100, 5), (1000, 1024, 10));
    assert_eq!(oversized_build(1 << 20, 100), None);
    assert_eq!(oversized_build(1 << 30, 64), None);
    assert_eq!(oversized_build(1 << 30, 65), Some(65));
}

#[test]
fn switches_are_on_by_default() {
    assert!(env_flag_default_on(None));
    assert!(env_flag_default_on(Some("1")));
    assert!(env_flag_default_on(Some("")));
    assert!(!env_flag_default_on(Some("0")));
    assert!(!env_flag_default_on(Some("false")));
    assert!(!env_flag_default_on(Some("FALSE")));
    assert!(env_flag_default_on(Some("False")));
    assert!(!pipeline_asked(None));
    assert!(pipeline_asked(Some("1")));
    assert!(pipeline_asked(Some("")));
    assert!(!pipeline_asked(Some("0")));
    assert!(!pipeline_asked(Some("false")));
    assert!(!pipeline_asked(Some("FALSE")));
}

#[test]
fn shards_cover_the_samples() {
    assert_eq!(shots_per_shard_knob(None), 2);
    assert_eq!(shots_per_shard_knob(Some(0)), 2);
    assert_eq!(shots_per_shard_knob(Some(7)), 7);
    let plan = plan_shards(5, 2);
    assert_eq!((plan.shots_per_shard, plan.n_shards), (2, 3));
    let cases: Vec<TestCase> = (0..5).map(test_case).collect();
    let sets = shard_case_sets(&cases, &plan);
    let names: Vec<Vec<&str>> = sets
        .iter()
        .map(|s| s.iter().map(|c| c.x_hex.as_str()).collect())
        .collect();
    assert_eq!(
        names,
        vec![vec!["00", "01"], vec!["02", "03"], vec!["04", "04"]]
    );
    let plan = plan_shards(5, 20);
    assert_eq!((plan.shots_per_shard, plan.n_shards), (5, 1));
}

#[test]
fn every_shard_has_one_producer() {
    assert!(pipelined(true, 2));
    assert!(!pipelined(true, 1));
    assert!(!pipelined(false, 2));
    assert!(matches!(base_gpus(None, true, 1, true), Ok(1)));
    assert!(matches!(base_gpus(Some(0), true, 1, false), Ok(1)));
    assert!(matches!(base_gpus(Some(4), true, 8, true), Ok(4)));
    assert!(matches!(base_gpus(Some(4), false, 0, false), Ok(1)));
    assert!(matches!(
        base_gpus(Some(4), true, 8, false),
        Err(NeedsPipeline { base_gpus: 4 })
    ));
    assert_eq!(producers(4, 3), 3);
    assert_eq!(producers(4, 0), 1);
    assert_eq!(producers(2, 9), 2);
    assert_eq!(producer_shards(7, 3, 0), vec![0, 3, 6]);
    assert_eq!(producer_shards(7, 3, 2), vec![2, 5]);
    let mut all: Vec<usize> = (0..3).flat_map(|g| producer_shards(7, 3, g)).collect();
    all.sort();
    assert_eq!(all, (0..7).collect::<Vec<usize>>());
}

#[test]
fn collecting_shards() {
    assert_eq!(collect_start(0), Collect::Join);
    assert_eq!(collect_start(2), Collect::Wait { left: 2 });
    assert_eq!(
        collect_step(2, Arrival::Forwarded),
        Collect::Wait { left: 1 }
    );
    assert_eq!(collect_step(1, Arrival::Forwarded), Collect::Join);
    assert_eq!(collect_step(2, Arrival::Dropped), Collect::Join);
    assert_eq!(collect_step(2, Arrival::Failed), Collect::Fail);
}

#[test]
fn pools_share_the_cores() {
    assert_eq!(pool_plan(24, 8), (1, 8));
    assert_eq!(pool_plan(24, 30), (1, 24));
    assert_eq!(pool_plan(24, 96), (4, 24));
}

#[test]
fn commitment_parameters() {
    let c = pcs_for_blowup(20, 1);
    assert_eq!((c.pow_bits, c.fri_config.n_queries), (26, 70));
    assert_eq!(c.lifting_log_size, Some(21));
    let c = leaf_pcs_config(20, 2);
    assert_eq!((c.pow_bits, c.fri_config.n_queries), (26, 35));
    let c = leaf_pcs(19);
    assert_eq!((c.pow_bits, c.fri_config.n_queries), (27, 23));
    assert_eq!(c.lifting_log_size, Some(22));
    assert_eq!(node_pcs(22).lifting_log_size, Some(25));
    assert_eq!(c.fri_config.fold_step, 4);
    let shape = shard_shape(2, 100, 1000, 25, 1);
    assert_eq!(shape.max_log_size, 25);
    assert_eq!(shape.config.lifting_log_size, Some(26));
}

#[test]
fn operating_points() {
    let p = OperatingPoint::from_params(500, 52);
    assert_eq!(p, OperatingPoint::K500N174);
    assert_eq!(p.n(), 174);
    assert_eq!(p.fold_root(2), K500_FOLD_ROOTS[0]);
    assert_eq!(p.fold_root(8), K500_FOLD_ROOTS[6]);
    assert_eq!(
        OperatingPoint::from_params(1000, 26).level1_root(3),
        K1000_LEVEL1_ROOTS[1]
    );
    let q = OperatingPoint::from_params(2000, 13);
    assert_eq!(q.n(), 695);
    assert_eq!(q.leaf_root(), K2000_LEAF_ROOT);
    assert!((q.n() - 1) * 13 < SAMPLES && SAMPLES <= q.n() * 13);
    let leaf = q.leaf_config();
    assert_eq!(leaf.preprocessed_root, K2000_LEAF_ROOT);
    assert_eq!(leaf.n_outputs, N_RESERVED);
    assert_eq!(leaf.preprocessed_column_log_sizes.len(), 45);
    let u = p.unpacker_config(174);
    assert_eq!(u.preprocessed_root, K500_UNPACKER_ROOT);
    assert_eq!(u.n_outputs, 174 * N_RESERVED);
    assert_eq!(pinned_unpacker_config(p, 174).n_outputs, u.n_outputs);
    let target = p.node_target();
    let columns = p.level1_config(4).preprocessed_column_log_sizes;
    let size = |name: &str| columns.iter().find(|c| c.0 == name).map(|c| c.1);
    assert_eq!(size("eq_in0_address"), Some(target.eq.trailing_zeros()));
    assert_eq!(
        p.fold_config(4).preprocessed_column_log_sizes.len(),
        columns.len()
    );
}

#[test]
fn root_lists_the_leaves_outputs() {
    let b = QM31::from_base;
    let leaves = vec![vec![b(1), b(2)], vec![], vec![b(3)]];
    assert_eq!(root_output_values(&leaves), vec![b(1), b(2), b(3)]);
    let (seed, n) = zk_blinding(&node_pcs(22));
    assert_eq!((seed, n), ([7u8; 32], 23));
}

#[test]
fn shards_that_can_be_counted() {
    assert!(is_countable(2, 100, 1000));
    assert!(!is_countable(2, 0, 1000));
    assert!(!is_countable(2, 100, 0));
    assert!(!is_countable(1 << 20, 1 << 10, 1 << 10));
    assert!(!is_countable(usize::MAX, 1, 1));
    assert!(!is_countable(1, 1 << 20, usize::MAX));
}
