//! The per-qubit memory encoding: rows, constraints, lookups and claims.
use gate_air::circuit::{Gate, TestCase, NO_CTRL, OP_CNOT, OP_NOP, OP_NOT, OP_TOFFOLI};
use gate_air::circuit_statement::{
    gate_air_components, program_field_var, BoundaryTable as BoundaryComponent,
    Component, GateAirStatement, MainGate, ProgramTable as ProgramComponent, PublicRow,
    RcTable as RcComponent, Wire,
};
use gate_air::components::{
    cell_at, generate_main_trace, GateEval, ProgramEval, QubitMemEval, RangeCheckEval,
    TRACE_COLUMNS,
};
use gate_air::field::{P, QM31};
use gate_air::leaf::{
    hiding_nonce, leaf_pcs_config, output_preimage, program_rows_from_table, GateAirLeafParams,
};
use gate_air::logup::{claimed_sum, Relation};
use gate_air::preprocessed::{
    generate_pc_in_prog_preprocessed, generate_pc_preprocessed, generate_qubitmem_preprocessed,
    generate_shot_id_preprocessed, preprocessed_column_ids, preprocessed_columns_sorted,
    tree0_max_log_size, ColumnId, N_PREPROCESSED_COLS,
};
use gate_air::program::{build_program_table, ProgramTable};
use gate_air::qubit_memory::{
    build_rows, case_bits, first_bad_gate, run_shot, BoundaryTable, Row, RowsError,
};
use gate_air::qubit_memory_lookups::{
    boundary_defined, boundary_public_sum, build_rc_table, gen_boundary_interaction, gen_main_interaction,
    gen_program_interaction, gen_rc_interaction, main_defined, program_claimed_sum,
    program_defined, program_public_term,
    public_defined, qubitmem_public_term, rc_claimed_sum, rc_defined, ClaimMismatch, RcTable, ShardClaims, GATE_REL_WIDTH, RC_LOG,
    TS_FINAL,
};
use gate_air::shard::{
    boundary_pairs, build_tree0_columns, generate_boundary_witness, generate_program_witness,
    generate_rc_witness, shard_shape, ShardWitness,
};
use gate_air::shard_proof::{
    answer_challenge, cross_check, finish_shard, table_sums, tables_defined_under, verifier_claims,
    CHANNEL_SALT,
};
use gate_air::transcript::{close_shard_transcript, draw_shard_relation, shard_transcript};
use gate_air::whole_state::SimError;

const K: usize = 3;

fn gate(opcode: u8, target: u16, ctrl_a: u16, ctrl_b: u16) -> Gate {
    Gate {
        opcode,
        target,
        ctrl_a,
        ctrl_b,
    }
}

/// A circuit of every kind of gate.
fn circuit() -> Vec<Gate> {
    vec![
        gate(OP_NOT, 17, NO_CTRL, NO_CTRL),
        gate(OP_CNOT, 40, 17, NO_CTRL),
        gate(OP_TOFFOLI, 511, 17, 40),
        gate(OP_NOP, 3, NO_CTRL, NO_CTRL),
        gate(OP_TOFFOLI, 0, 511, 2),
    ]
}

fn state_hex(bits: &[bool]) -> String {
    let mut text = String::new();
    for i in 0..64 {
        let mut byte = 0u8;
        for j in 0..8 {
            if bits[8 * i + j] {
                byte |= 1 << j;
            }
        }
        text.push_str(&format!("{byte:02x}"));
    }
    text
}

/// A test vector whose final state is computed gate by gate.
fn case(gates: &[Gate], k: usize, ones: &[usize]) -> TestCase {
    let mut bits = vec![false; 512];
    for q in ones {
        bits[*q] = true;
    }
    let x_hex = state_hex(&bits);
    for _ in 0..k {
        for g in gates {
            let fire = match g.opcode {
                1 => true,
                2 => bits[g.ctrl_a as usize],
                3 => bits[g.ctrl_a as usize] && bits[g.ctrl_b as usize],
                _ => false,
            };
            if fire {
                bits[g.target as usize] = !bits[g.target as usize];
            }
        }
    }
    TestCase {
        x_hex,
        y_hex: state_hex(&bits),
    }
}

fn cases() -> Vec<TestCase> {
    let gates = circuit();
    vec![case(&gates, K, &[2, 3]), case(&gates, K, &[40, 511])]
}

fn built() -> (Vec<Row>, BoundaryTable) {
    match build_rows(&circuit(), &cases(), K) {
        Ok(r) => r,
        Err(_) => panic!("the shots are right"),
    }
}

fn relation() -> Relation {
    let config = leaf_pcs_config(10, 1);
    let t = shard_transcript(0, &config, &[1; 32], &[QM31::from_base(5)], &[2; 32], 9);
    draw_shard_relation(&t)
}

fn base(v: u32) -> QM31 {
    QM31::from_base(v)
}

fn cells(row: &Row) -> Vec<QM31> {
    (0..TRACE_COLUMNS).map(|c| base(cell_at(row, c))).collect()
}

fn public_row(row: &Row, n_gates: u32) -> PublicRow {
    let mut values = [QM31::zero(); N_PREPROCESSED_COLS];
    values[1] = base(row.enabler);
    values[2] = base(row.shot_id);
    values[3] = base(row.pc);
    values[4] = base(row.pc % n_gates);
    PublicRow { values }
}

#[test]
fn main_explicit_constraints_zero_on_valid_rows() {
    let gates = circuit();
    let n_gates = gates.len() as u32;
    let cases = [case(&gates, 16, &[2, 3])];
    let (rows, _boundary) = build_rows(&gates, &cases, 16).unwrap();
    assert_eq!(rows.len(), 80);
    for (ri, row) in rows.iter().enumerate() {
        let pc = row.pc;
        let e = MainGate.evaluate(&public_row(row, n_gates), &cells(row));
        let mut acc = QM31::zero();
        for c in &e.constraints {
            acc = acc.times(QM31::from_u32_unchecked(7, 11, 13, 17)).plus(*c);
        }
        assert_eq!(acc, QM31::zero());
        for c in &e.constraints {
            assert_eq!(
                *c,
                QM31::zero(),
                "MainGate explicit constraints nonzero at row {ri} (pc={pc})"
            );
        }
    }
}

#[test]
fn both_evaluations_agree() {
    let (rows, _) = built();
    for row in &rows {
        let t = cells(row);
        let a = MainGate.evaluate(&public_row(row, 5), &t);
        let b = GateEval::evaluate(
            base(row.enabler),
            base(row.shot_id),
            base(row.pc),
            base(row.pc % 5),
            &t,
        );
        assert_eq!(a.constraints, b.constraints);
        assert_eq!(a.entries.len(), 10);
        for (x, y) in a.entries.iter().zip(&b.entries) {
            assert_eq!(x.multiplicity, y.multiplicity);
            assert_eq!(x.values, y.values);
        }
    }
}

#[test]
fn padding_satisfies_and_a_wrong_row_does_not() {
    let pad = Row::padding();
    let e = GateEval::evaluate(base(0), base(0), base(0), base(0), &cells(&pad));
    assert!(e.constraints.iter().all(|c| c.is_zero()));
    assert!(e.entries.iter().all(|x| x.multiplicity.is_zero()));
    let (rows, _) = built();
    for c in 0..4 {
        let mut t = cells(&rows[2]);
        t[c] = base(2);
        let e = GateEval::evaluate(base(1), base(0), base(2), base(2), &t);
        assert!(!e.constraints.iter().all(|x| x.is_zero()));
    }
    let mut t = cells(&rows[0]);
    t[18] = t[18].negate();
    let e = GateEval::evaluate(base(1), base(0), base(0), base(0), &t);
    assert!(!e.constraints.iter().all(|x| x.is_zero()));
}

#[test]
fn entries_sum_to_the_rows_claim() {
    let (rows, _) = built();
    let rel = relation();
    for row in &rows {
        let e = GateEval::evaluate(
            base(row.enabler),
            base(row.shot_id),
            base(row.pc),
            base(row.pc % 5),
            &cells(row),
        );
        let mut sum = QM31::zero();
        for x in &e.entries {
            sum = sum.plus(x.multiplicity.times(rel.combine(&x.values).inverse()));
        }
        let (_, claim) = gen_main_interaction(&rel, std::slice::from_ref(row), 5);
        assert_eq!(claim, sum);
    }
}

#[test]
fn accesses_form_chains() {
    let gates = circuit();
    let (rows, boundary) = built();
    assert_eq!(rows.len(), 30);
    let first = &rows[0];
    assert_eq!((first.is_not, first.target.addr, first.fire), (1, 17, 1));
    assert_eq!((first.target.prev_ts, first.target.d), (0, 0));
    let second = &rows[1];
    assert_eq!((second.ctrl_a.addr, second.ctrl_a.prev_ts), (17, 1));
    assert_eq!(second.ctrl_a.v, 1);
    let again = &rows[5];
    assert_eq!((again.target.addr, again.target.prev_ts, again.target.d), (17, 3, 2));
    assert_eq!(boundary.n_shots, 2);
    assert_eq!(boundary.log_size, 10);
    let end = &boundary.rows[17];
    assert_eq!((end.shot_id, end.addr, end.x, end.y), (0, 17, 0, 1));
    assert_eq!(end.ts_last, 13);
    let untouched = &boundary.rows[512 + 100];
    assert_eq!(
        (untouched.shot_id, untouched.addr, untouched.ts_last),
        (1, 100, 0)
    );
    let (bits_in, bits_out) = match case_bits(&cases()[0]) {
        Ok(b) => b,
        Err(_) => panic!("the states are hex"),
    };
    let (one_shot, end_bits, last) = run_shot(&gates, K, 0, &bits_in);
    assert_eq!(one_shot.len(), 15);
    assert_eq!(end_bits, bits_out);
    assert_eq!(last[17], 13);
}

#[test]
fn shots_that_are_refused() {
    let gates = circuit();
    let mut bad = circuit();
    bad[2].ctrl_b = 17;
    assert_eq!(first_bad_gate(&gates), None);
    assert_eq!(first_bad_gate(&bad), Some(2));
    assert!(matches!(
        build_rows(&bad, &cases(), K),
        Err(RowsError::BadGate {
            index: 2,
            opcode: 3
        })
    ));
    bad[1].opcode = 4;
    assert!(matches!(
        build_rows(&bad, &cases(), K),
        Err(RowsError::BadGate {
            index: 1,
            opcode: 4
        })
    ));
    let mut wrong = cases();
    wrong[1].y_hex = wrong[1].x_hex.clone();
    assert!(matches!(
        build_rows(&gates, &wrong, K),
        Err(RowsError::Shot {
            shot_id: 1,
            error: SimError::FinalState { shot_id: 1, .. }
        })
    ));
    wrong[0].x_hex = String::from("xy");
    assert!(matches!(
        build_rows(&gates, &wrong, K),
        Err(RowsError::Shot {
            shot_id: 0,
            error: SimError::XHex
        })
    ));
    wrong[0].x_hex = String::from("00");
    assert!(matches!(
        case_bits(&wrong[0]),
        Err(SimError::StateLength)
    ));
}

#[test]
fn fresh_boundary_table() {
    let mut t = BoundaryTable::new(3);
    assert_eq!((t.n_shots, t.log_size, t.rows.len()), (3, 11, 2048));
    let block = t.per_shot_mut(2);
    assert_eq!(block.len(), 512);
    block[5].y = 1;
    assert_eq!(t.rows[2 * 512 + 5].y, 1);
}

#[test]
fn range_table_counts_differences() {
    let (rows, _) = built();
    let t = build_rc_table(&rows, 5);
    assert_eq!(t.val, (0..32).collect::<Vec<u32>>());
    let mut want = vec![0u32; 32];
    for r in &rows {
        want[r.target.d as usize] += 1;
        if r.is_cnot + r.is_toffoli == 1 {
            want[r.ctrl_a.d as usize] += 1;
        }
        if r.is_toffoli == 1 {
            want[r.ctrl_b.d as usize] += 1;
        }
    }
    assert_eq!(t.multiplicity, want);
    let mut fresh = RcTable::new(5);
    assert_eq!(fresh.multiplicity, vec![0; 32]);
    fresh.count_access(&rows[5].target);
    assert_eq!(fresh.multiplicity[2], 1);
    assert_eq!(generate_rc_witness(&t), vec![want]);
}

fn program() -> ProgramTable {
    build_program_table(&circuit(), 2, K)
}

#[test]
fn claims_of_a_shard_net_to_the_public_terms() {
    let (rows, boundary) = built();
    let program = program();
    let rc = build_rc_table(&rows, 6);
    let rel = relation();
    let (_, main_sum) = gen_main_interaction(&rel, &rows, 5);
    let (program_fracs, program_sum) = gen_program_interaction(&program, &rel);
    let (_, boundary_sum) = gen_boundary_interaction(&boundary, &rel);
    let (_, rc_sum) = gen_rc_interaction(&rc, &rel);
    assert_eq!(claimed_sum(&program_fracs), program_sum);
    let b = qubitmem_public_term(&boundary, &rel);
    let p = program_public_term(&program, &rel);
    let claims = ShardClaims {
        main: main_sum,
        program: program_sum,
        boundary: boundary_sum,
        rc: rc_sum,
    };
    assert!(claims.nets_to(b, p));
    assert_eq!(
        claims.check(
            b,
            p,
            program_claimed_sum(&program, &rel),
            boundary_public_sum(&boundary, &rel),
            rc_claimed_sum(&rc, &rel),
        ),
        None
    );
    assert_eq!(
        ShardClaims::derived_main(b, p, program_sum, boundary_sum, rc_sum),
        main_sum
    );
    assert_eq!(
        claims.in_order(),
        vec![main_sum, program_sum, boundary_sum, rc_sum]
    );
    let mut padded = rows;
    padded.push(Row::padding());
    assert_eq!(gen_main_interaction(&rel, &padded, 5).1, main_sum);
}

#[test]
fn claims_that_do_not_match() {
    let c = |m: u32, p: u32, b: u32, r: u32| ShardClaims {
        main: base(m),
        program: base(p),
        boundary: base(b),
        rc: base(r),
    };
    let check = |x: ShardClaims| x.check(base(6), base(4), base(2), base(3), base(4));
    assert_eq!(check(c(1, 2, 3, 4)), None);
    assert_eq!(check(c(2, 2, 3, 4)), Some(ClaimMismatch::Net));
    assert_eq!(check(c(0, 3, 3, 4)), Some(ClaimMismatch::Program));
    assert_eq!(check(c(0, 2, 4, 4)), Some(ClaimMismatch::Boundary));
    assert_eq!(check(c(0, 2, 3, 5)), Some(ClaimMismatch::Rc));
}

#[test]
fn table_components_of_the_statement() {
    let mut values = [QM31::zero(); N_PREPROCESSED_COLS];
    for i in 0..N_PREPROCESSED_COLS {
        values[i] = base(100 + i as u32);
    }
    let public = PublicRow { values };
    assert_eq!(public.get(ColumnId::ProgSlot), base(100));
    assert_eq!(public.get(ColumnId::RcVal), base(108));

    let t = [base(2), base(17), base(4), base(0), base(6)];
    let e = ProgramComponent.evaluate(&public, &t);
    let f = ProgramEval::evaluate(base(100), &t);
    assert_eq!(e.entries.len(), 2);
    assert_eq!(e.entries[0].values, f.entries[0].values);
    assert_eq!(
        e.entries[0].values,
        vec![base(5), base(100), base(2), base(17), base(4), base(0)]
    );
    assert_eq!(e.entries[0].multiplicity, base(P - 6));
    assert_eq!(e.entries[1].values[0], base(6));
    assert_eq!(e.entries[1].multiplicity, f.entries[1].multiplicity);

    let t = [base(1), base(0), base(9)];
    let e = BoundaryComponent.evaluate(&public, &t);
    let f = QubitMemEval::evaluate(base(105), base(106), base(107), &t);
    assert_eq!(e.constraints, f.constraints);
    assert_eq!(e.entries[0].values, f.entries[0].values);
    assert_eq!(
        e.entries[1].values,
        vec![base(1), base(105), base(106), base(TS_FINAL), base(0)]
    );
    let bad = BoundaryComponent.evaluate(&public, &[base(2), base(0), base(9)]);
    assert!(!bad.constraints.iter().all(|c| c.is_zero()));

    let e = RcComponent.evaluate(&public, &[base(3)]);
    let f = RangeCheckEval::evaluate(base(108), base(3));
    assert_eq!(e.entries[0].values, vec![base(2), base(108)]);
    assert_eq!(e.entries[0].multiplicity, base(P - 3));
    assert_eq!(e.entries[0].multiplicity, f.entries[0].multiplicity);
}

#[test]
fn components_in_order() {
    let keys: Vec<&str> = gate_air_components().iter().map(|c| c.key()).collect();
    assert_eq!(keys.len(), 4);
    assert_eq!(keys[0], Component::Main.key());
    assert_eq!(keys[3], Component::Rc.key());
    assert_eq!(MainGate.trace_columns(), 19);
    assert_eq!(MainGate.interaction_columns(), 20);
    assert_eq!(ProgramComponent.trace_columns(), 5);
    assert_eq!(BoundaryComponent.trace_columns(), 3);
    assert_eq!(RcComponent.interaction_columns(), 4);
    let uses: usize = MainGate.relation_uses_per_row().iter().map(|u| u.uses).sum();
    assert_eq!(uses, 7);
    assert_eq!(MainGate.log_size(), None);
}

fn params() -> GateAirLeafParams {
    let program = program();
    GateAirLeafParams {
        main_log_size: 6,
        program_log_size: program.log_size,
        qubitmem_log_size: 10,
        rc_log: 6,
        preprocessed_root: [1, 2, 3, 4, 5, 6, 7, 8],
        qubitmem: boundary_pairs(&cases()).unwrap_or_default(),
        total_pc: 15,
        program: program_rows_from_table(&program),
        nonce: hiding_nonce(),
    }
}

fn statement() -> GateAirStatement {
    params().statement()
}

#[test]
fn statement_publishes_its_inputs() {
    let s = statement();
    assert_eq!(s.get_component_log_sizes(), &[6, 4, 10, 6]);
    let root = [1, 2, 3, 4, 5, 6, 7, 8].map(Wire::Guessed);
    assert_eq!(s.get_preprocessed_root(), root);
    assert_eq!(s.preprocessed_root_vars(), root);
    assert_eq!(s.boundary_vars().len(), 2);
    assert_eq!(s.boundary_vars()[0].0[0], Wire::Guessed(0b1100));
    for (limbs, wires) in s.boundary.iter().zip(s.boundary_vars()) {
        assert_eq!(wires.0, limbs.0.map(Wire::Guessed));
        assert_eq!(wires.1, limbs.1.map(Wire::Guessed));
    }
    assert_eq!(s.nonce_vars(), hiding_nonce().map(Wire::Guessed));
    assert_eq!(s.component_log_size_vars(), [6, 4, 10, 6].map(Wire::Guessed));
    assert_eq!(s.get_components().len(), 4);
    assert_eq!(
        s.get_preprocessed_column_ids(),
        preprocessed_column_ids(6, 4, 10, 6)
    );
    assert_eq!(s.claims_to_mix().len(), 1);
    assert_eq!(s.claims_to_mix()[0].len(), 0);
}

#[test]
fn program_columns_pin_their_padding() {
    assert_eq!(program_field_var(true, 0), Wire::Pinned(0));
    assert_eq!(program_field_var(false, 7), Wire::Guessed(7));
    let s = statement();
    let wires = s.compute_h_p_preimage();
    assert_eq!(wires.len(), 6 * 16 + 2);
    assert_eq!(wires[96], Wire::Guessed(0x1234_5678));
    assert_eq!(wires[97], Wire::Guessed(0x1abc_def1));
    assert_eq!(wires[95], Wire::Pinned(0));
    assert_eq!(Wire::Pinned(3).value(), 3);
}

#[test]
fn statement_sum_is_the_public_term() {
    let s = statement();
    let (_, boundary) = built();
    let rel = relation();
    let r = s.public_logup_sum(&rel);
    assert!(r.satisfied);
    let want = qubitmem_public_term(&boundary, &rel).plus(program_public_term(&program(), &rel));
    assert_eq!(r.sum, want.negate());
}

#[test]
fn leaf_output_is_hash_and_states() {
    let s = statement();
    let out = output_preimage(&[9; 8], &s.boundary);
    assert_eq!(out.len(), 8 + 2 * 64);
    assert_eq!(&out[..9], &[9, 9, 9, 9, 9, 9, 9, 9, 0b1100]);
}

#[test]
fn public_columns_by_size_and_name() {
    let cols = preprocessed_columns_sorted(6, 4, 10, 5);
    let names: Vec<&str> = cols.iter().map(|c| c.0.id()).collect();
    let sizes: Vec<u32> = cols.iter().map(|c| c.1).collect();
    assert_eq!(sizes, vec![4, 5, 6, 6, 6, 6, 10, 10, 10]);
    assert_eq!(names[0], ColumnId::ProgSlot.id());
    assert_eq!(names[1], ColumnId::RcVal.id());
    assert_eq!(tree0_max_log_size(6, 5, 4, 10), 10);
}

#[test]
fn public_columns_of_a_shard() {
    let shots = generate_shot_id_preprocessed(30, 64, K, 5);
    let pcs = generate_pc_preprocessed(30, 64, K, 5);
    let slots = generate_pc_in_prog_preprocessed(30, 64, K, 5);
    assert_eq!((shots[14], shots[15], shots[29]), (0, 1, 1));
    assert_eq!((pcs[14], pcs[15], pcs[29]), (14, 0, 14));
    assert_eq!((slots[14], slots[15], slots[29]), (4, 0, 4));
    let bnd = generate_qubitmem_preprocessed(2, 11);
    assert_eq!((bnd[0][600], bnd[1][600], bnd[2][600]), (1, 88, 1));
    assert_eq!(bnd[2][1024], 0);
}

#[test]
fn columns_of_a_shard() {
    let shape = shard_shape(2, 5, K, 6, 1);
    assert_eq!((shape.n_rows, shape.padded_rows, shape.log_n_rows), (30, 64, 6));
    assert_eq!((shape.program_log_size, shape.qubitmem_log_size), (4, 10));
    assert_eq!(shape.max_log_size, 10);
    let cols = build_tree0_columns(&shape, 2, K, 5);
    let ids: Vec<ColumnId> = cols.iter().map(|c| c.0).collect();
    assert_eq!(ids, preprocessed_column_ids(6, 4, 10, 6));
    for (id, col) in &cols {
        match id {
            ColumnId::Enabler => assert_eq!((col[29], col[30]), (1, 0)),
            ColumnId::RcVal => assert_eq!(col[63], 63),
            ColumnId::ProgSlot => assert_eq!(col.len(), 16),
            _ => {}
        }
    }
    let (rows, boundary) = built();
    let main = generate_main_trace(&rows, 64);
    assert_eq!(main.len(), 19);
    assert_eq!(main[2][1], 1);
    let prog = generate_program_witness(&program());
    assert_eq!(prog.len(), 5);
    assert_eq!(&prog[4][..6], &[6, 6, 6, 6, 6, 0]);
    let bnd = generate_boundary_witness(&boundary);
    assert_eq!((bnd[0][17], bnd[1][17], bnd[2][17]), (0, 1, 13));
}

#[test]
fn witness_of_a_shard() {
    let gates = circuit();
    let w = match ShardWitness::build(&gates, &cases(), K, RC_LOG, 1) {
        Ok(w) => w,
        Err(_) => panic!("the shots are right"),
    };
    assert_eq!(w.rows.len(), w.shape.padded_rows);
    assert_eq!(w.total_pc, 15);
    assert_eq!(w.shape.rc_log, 25);
    assert_eq!(w.shape.log_n_rows, 6);
    let (rows, _) = built();
    for c in 0..TRACE_COLUMNS {
        assert_eq!(cell_at(&w.rows[7], c), cell_at(&rows[7], c));
    }
    let mut bad = circuit();
    bad[0].target = 600;
    assert!(matches!(
        ShardWitness::build(&bad, &cases(), K, RC_LOG, 1),
        Err(RowsError::BadGate { index: 0, .. })
    ));
    assert_eq!(relation().alpha_powers.len(), GATE_REL_WIDTH);
}

#[test]
fn zero_denominators_are_found() {
    let (rows, boundary) = built();
    let rc = build_rc_table(&rows, 6);
    let program = program();
    let rel = relation();
    assert!(main_defined(&rel, &rows, 5));
    assert!(program_defined(&program, &rel));
    assert!(boundary_defined(&boundary, &rel));
    assert!(public_defined(&boundary, &rel));
    assert!(rc_defined(&rc, &rel));
    // With alpha zero a tuple's denominator is its tag minus z.
    let mem = Relation::new(base(1), base(0), GATE_REL_WIDTH);
    assert!(!main_defined(&mem, &rows, 5));
    assert!(program_defined(&program, &mem));
    assert!(!boundary_defined(&boundary, &mem));
    assert!(!public_defined(&boundary, &mem));
    assert!(rc_defined(&rc, &mem));
    assert!(!rc_defined(&rc, &Relation::new(base(2), base(0), GATE_REL_WIDTH)));
    let pub_only = Relation::new(base(6), base(0), GATE_REL_WIDTH);
    assert!(main_defined(&pub_only, &rows, 5));
    assert!(!program_defined(&program, &pub_only));
}

#[test]
fn proof_of_a_shard() {
    let gates = circuit();
    let cases = cases();
    let w = match ShardWitness::build(&gates, &cases, K, 6, 1) {
        Ok(w) => w,
        Err(_) => panic!("the shots are right"),
    };
    let hidden = w.tree1_columns();
    assert_eq!(hidden.len(), 28);
    assert_eq!((hidden[0].len(), hidden[19].len()), (64, 16));
    assert_eq!((hidden[24].len(), hidden[27].len()), (1024, 64));
    assert_eq!(&hidden[23][..6], &[6, 6, 6, 6, 6, 0]);
    let answer = match answer_challenge(&w, 5, &[1; 32], &[2; 32], 9) {
        Ok(a) => a,
        Err(_) => panic!("no denominator is zero"),
    };
    let t = shard_transcript(CHANNEL_SALT, &w.shape.config, &[1; 32], &[], &[2; 32], 9);
    assert_eq!(answer.transcript, t);
    assert_eq!(answer.relation.z, draw_shard_relation(&t).z);
    let claims = answer.interaction.claims;
    assert!(tables_defined_under(&w, &answer.relation));
    let sums = table_sums(&w, &answer.relation);
    assert!(claims.nets_to(sums.b_public, sums.p_pub));
    assert_eq!(cross_check(&w, &answer.relation, &claims), None);
    assert_eq!(verifier_claims(&w, &answer.relation), claims);
    let mut prover = answer.transcript;
    let out = match finish_shard(&w, &cases, &mut prover, &claims, &[3; 32], 9) {
        Ok(o) => o,
        Err(_) => panic!("the states are hex"),
    };
    let mut verifier = t;
    close_shard_transcript(&mut verifier, &claims, &[3; 32]);
    assert_eq!(prover, verifier);
    assert_eq!(out.claim, claims.in_order());
    assert_eq!((out.nonce, out.salt, out.total_pc), (9, 0, 15));
    assert_eq!((out.log_n_rows, out.program_log_size), (6, 4));
    assert_eq!(out.boundary.len(), 2);
    assert_eq!(out.boundary[0].0[0], 0b1100);
}

/// The public columns do not depend on the shots, so one tree serves all shards; a
/// shard that is proved twice makes the same claims and hands on the same.
#[test]
fn shards_share_their_public_columns() {
    let gates = circuit();
    let first = [case(&gates, K, &[1]), case(&gates, K, &[7, 40])];
    let other = cases();
    let build = |shots: &[TestCase]| match ShardWitness::build(&gates, shots, K, 6, 1) {
        Ok(w) => w,
        Err(_) => panic!("the shots are right"),
    };
    let (a, b, c) = (build(&first), build(&other), build(&other));
    assert_eq!(
        build_tree0_columns(&a.shape, 2, K, 5),
        build_tree0_columns(&b.shape, 2, K, 5)
    );
    assert_eq!(a.program.multiplicity, b.program.multiplicity);
    assert_ne!(a.tree1_columns(), b.tree1_columns());
    assert_eq!(b.tree1_columns(), c.tree1_columns());
    let answer = |w: &ShardWitness| match answer_challenge(w, 5, &[1; 32], &[2; 32], 9) {
        Ok(a) => a.interaction.claims,
        Err(_) => panic!("no denominator is zero"),
    };
    assert_eq!(answer(&b), answer(&c));
}

/// What is taken of a qubit is what was left of it, from its first value to its last.
#[test]
fn tuples_of_every_qubit_balance() {
    let (rows, boundary) = built();
    for shot in 0..2u32 {
        for addr in 0..512u32 {
            let end = &boundary.rows[(512 * shot + addr) as usize];
            let mut taken = vec![(end.ts_last, end.y)];
            let mut left = vec![(0, end.x)];
            for r in rows.iter().filter(|r| r.shot_id == shot) {
                let after = (r.target.v + r.delta) % P;
                let mut accesses = vec![(&r.target, after)];
                if r.is_cnot + r.is_toffoli == 1 {
                    accesses.push((&r.ctrl_a, r.ctrl_a.v));
                }
                if r.is_toffoli == 1 {
                    accesses.push((&r.ctrl_b, r.ctrl_b.v));
                }
                for (a, v) in accesses {
                    if a.addr == addr {
                        assert_eq!(a.prev_ts + a.d, r.pc);
                        taken.push((a.prev_ts, a.v));
                        left.push((r.pc + 1, v));
                    }
                }
            }
            taken.sort();
            left.sort();
            assert_eq!(taken, left);
        }
    }
}
