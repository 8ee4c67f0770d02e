//! What a device is told to compute, and how its answers are compared.
use gate_air::circuit::{Gate, TestCase};
use gate_air::components::cell_at;
use gate_air::device::{
    compare_columns, compare_histogram, compare_trace, device_slot, elementwise_config,
    gates_flat, interaction_steps, interaction_verdict, reduce_config, scan_config, trace_launch,
    trace_verdict, x_states, IdentityError, LaunchConfig, Step,
};
use gate_air::field::QM31;
use gate_air::kernel::{
    fnv1a, gate_air_cumsum_shift, gate_air_eval_id, gate_air_gpu_kernel, gate_air_relation_m31x4,
    is_gate_air_main, prepare_dispatch, secure_to_m31x4, set_gate_air_relation, supply_tree,
    ColumnPlace, GateAirEvalFfi, RelationSlot,
};
use gate_air::logup::Relation;
use gate_air::qubit_memory::Row;
use gate_air::whole_state_lookups::BadText;

#[test]
fn launches_cover_the_rows() {
    assert_eq!(
        elementwise_config(257),
        LaunchConfig {
            grid: 2,
            block: 256,
            shared_mem_bytes: 0
        }
    );
    assert_eq!(reduce_config(1 << 20).grid, 1024);
    assert_eq!(reduce_config(512).grid, 2);
    assert_eq!(reduce_config(512).shared_mem_bytes, 4096);
    assert_eq!(scan_config(1 << 20).grid, 4096);
    assert_eq!(scan_config(1).shared_mem_bytes, 1024);
    let l = trace_launch(3, 100, 5, 2048);
    assert_eq!((l.rep_words, l.slot_words, l.column_words), (9600, 45, 38912));
    assert_eq!(l.histogram_words, 1 << 25);
    assert_eq!((l.states.grid, l.trace.grid), (1, 2));
}

#[test]
fn steps_of_an_interaction_trace() {
    let steps = interaction_steps(1024);
    assert_eq!(steps.len(), 10 + 2 + 4 * 7);
    assert_eq!(steps[0], Step::ColGen { k: 0 });
    assert_eq!(steps[9], Step::FinalizeCol { k: 4 });
    assert_eq!((steps[10], steps[11]), (Step::CumsumReduce, Step::CumsumShift));
    assert_eq!(
        &steps[12..19],
        &[
            Step::BitReverse { offset: 16 * 1024 },
            Step::CircleToCoset { offset: 16 * 1024 },
            Step::BlockScan { level: 0, n: 1024 },
            Step::BlockScan { level: 1, n: 4 },
            Step::AddOffsets { level: 0, n: 1024 },
            Step::CosetToCircle { offset: 16 * 1024 },
            Step::BitReverse { offset: 16 * 1024 },
        ]
    );
    assert_eq!(interaction_steps(64).len(), 10 + 2 + 4 * 5);
}

#[test]
fn inputs_of_the_device() {
    let g = Gate {
        opcode: 3,
        target: 7,
        ctrl_a: 1,
        ctrl_b: 2,
    };
    assert_eq!(gates_flat(&[g, g]), vec![3, 7, 1, 2, 3, 7, 1, 2]);
    let case = |x: String| TestCase {
        x_hex: x,
        y_hex: String::new(),
    };
    let good = case(format!("0102{}", "00".repeat(62)));
    let states = x_states(&[good]);
    match states {
        Ok(v) => {
            assert_eq!(v.len(), 32);
            assert_eq!((v[0], v[1]), (0x0201, 0));
        }
        Err(_) => panic!("the state is hex"),
    }
    let bad = [case("00".repeat(64)), case(String::from("0"))];
    assert!(matches!(x_states(&bad), Err(BadText { shot_id: 1 })));
    assert_eq!(device_slot(0), None);
    assert_eq!(device_slot(3), Some(3));
}

#[test]
fn answers_are_compared_cell_by_cell() {
    let mut row = Row::padding();
    row.is_not = 1;
    row.target.addr = 9;
    let rows = [row, Row::padding()];
    let mut gpu = vec![0u32; 19 * 4];
    for c in 0..19 {
        for r in 0..2 {
            gpu[c * 4 + r] = cell_at(&rows[r], c);
        }
    }
    assert_eq!(compare_trace(&gpu, &rows, 4).mismatches, 0);
    gpu[2 * 4 + 1] = 5;
    gpu[3 * 4 + 3] = 6;
    let d = compare_trace(&gpu, &rows, 4);
    assert_eq!(d.mismatches, 1);
    assert_eq!(
        (d.samples[0].row, d.samples[0].col, d.samples[0].got, d.samples[0].want),
        (1, 2, 5, 0)
    );
    let cpu = vec![vec![1, 2], vec![3, 4]];
    assert_eq!(compare_columns(&[1, 2, 3, 4], &cpu, 2).mismatches, 0);
    let d = compare_columns(&[1, 2, 9, 4], &cpu, 2);
    assert_eq!((d.mismatches, d.samples.len()), (1, 1));
    assert_eq!((d.samples[0].row, d.samples[0].col), (0, 1));
    let many = compare_columns(&[7; 40], &[vec![0; 40]], 40);
    assert_eq!((many.mismatches, many.samples.len()), (40, 10));
    assert_eq!(compare_histogram(&[1, 2, 3], &[1, 5]), 1);
    assert_eq!(trace_verdict(0, 0), Ok(()));
    assert_eq!(
        trace_verdict(1, 0),
        Err(IdentityError::Trace {
            columns: 1,
            histogram: 0
        })
    );
    assert_eq!(interaction_verdict(0, [1, 2, 3, 4], [1, 2, 3, 4]), Ok(()));
    assert_eq!(
        interaction_verdict(0, [1, 2, 3, 4], [1, 2, 3, 5]),
        Err(IdentityError::Interaction {
            columns: 0,
            sum_ok: false
        })
    );
}

#[test]
fn kernel_is_known_by_name_and_shape() {
    assert_eq!(fnv1a(b""), 0x811c_9dc5);
    assert_eq!(fnv1a(b"a"), 0xe40c_292c);
    assert_eq!(fnv1a(b"foobar"), 0xbf9c_f968);
    assert_eq!(gate_air_eval_id(), fnv1a(b"gate_air_main"));
    assert!(is_gate_air_main(20, 19, 20, 4));
    assert!(!is_gate_air_main(20, 19, 20, 5));
}

#[test]
fn relation_is_installed_once_drawn() {
    let rel = Relation::dummy(6);
    let (z, powers) = gate_air_relation_m31x4(&rel);
    assert_eq!(z, [1, 2, 3, 4]);
    assert_eq!((powers[0], powers[1]), ([1, 0, 0, 0], [4, 3, 2, 1]));
    assert_eq!(secure_to_m31x4(rel.alpha), [4, 3, 2, 1]);
    let mut slot = RelationSlot::new();
    assert!(prepare_dispatch(&slot, 9, &[], &[], &[], false).is_none());
    set_gate_air_relation(&mut slot, z, &powers);
    let on = ColumnPlace {
        device: 100,
        staged: None,
    };
    let off = ColumnPlace {
        device: 200,
        staged: Some(7),
    };
    let d = match prepare_dispatch(&slot, 9, &[on], &[on, off], &[off], false) {
        Some(d) => d,
        None => panic!("the relation is installed"),
    };
    assert_eq!((d.number_of_columns, d.logup_counts), (4, 10));
    assert_eq!(d.eval.z, z);
    assert_eq!(d.eval.alpha, [4, 3, 2, 1]);
    assert_eq!(d.eval.log_n_rows, 9);
    assert_eq!(d.tree0.host, None);
    assert_eq!(d.tree1.host, Some(vec![None, Some(7)]));
    let full = supply_tree(&[on, off, off], true);
    assert_eq!((full.rehydrate, full.host), (vec![1, 2], None));
    let eval = GateAirEvalFfi::new_with_relation(3, z, [[5; 4]; 6]);
    assert_eq!((eval.eval_id, eval.alpha), (gate_air_eval_id(), [5; 4]));
}

#[test]
fn kernel_plan() {
    let claim = QM31::from_u32_unchecked(8, 16, 24, 32);
    assert_eq!(
        gate_air_cumsum_shift(claim, 3),
        QM31::from_u32_unchecked(1, 2, 3, 4)
    );
    let powers = [QM31::from_base(1), QM31::from_base(2), QM31::from_base(4)];
    let p = match gate_air_gpu_kernel(20, 19, 20, 4, claim, 3, &powers) {
        Some(p) => p,
        None => panic!("this is the main component"),
    };
    assert_eq!(p.cumsum_shift, QM31::from_u32_unchecked(1, 2, 3, 4));
    assert_eq!(
        p.random_coeff_powers,
        vec![QM31::from_base(4), QM31::from_base(2), QM31::from_base(1)]
    );
    assert!(p.should_accumulate && !p.use_assert_evaluator);
    assert!(gate_air_gpu_kernel(2, 5, 4, 1, claim, 3, &powers).is_none());
}
