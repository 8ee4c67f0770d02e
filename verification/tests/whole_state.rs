//! The whole-state encoding: rows, constraints, lookups and claims.
use gate_air::circuit::{operands_exist, Gate, TestCase, NO_CTRL, OP_CNOT, OP_NOP, OP_NOT, OP_TOFFOLI};
use gate_air::field::{P, QM31};
use gate_air::logup::{claimed_sum, table_defined, table_public_sum, Relation};
use gate_air::transcript::Transcript;
use gate_air::whole_state::{
    build_rc_hi, build_rc_lo, build_rows, count_read, delta_to_m31, gate_row, simulate_shot,
    LookupCounts, ReadCols, Row, SimError, RC_SIZE,
};
use gate_air::whole_state_air::{
    cell_at, evaluate, generate_main_trace, generate_pc_in_prog_preprocessed,
    generate_qdecode_preprocessed, TRACE_COLUMNS,
};
use gate_air::whole_state_lookups::{
    boundary_defined, derived_main_claim, gen_main_interaction, main_defined, public_boundary_sum, state_tuple, BadText,
    ClaimError, Claims, LookupElements, RelationId, STATE_WIDTH,
};
use gate_air::leaf::leaf_pcs_config;
use gate_air::whole_state_proof::{
    answer_challenge, close_transcript, cross_check, verifier_claims,
};
use gate_air::whole_state_run::{
    preprocessed_column_ids, timeline_fits, ProgramTableEval, QDecodeTableEval, RcHiTableEval,
    RcLoTableEval, TraceWitness,
};

fn gate(opcode: u8, target: u16, ctrl_a: u16, ctrl_b: u16) -> Gate {
    Gate {
        opcode,
        target,
        ctrl_a,
        ctrl_b,
    }
}

/// A circuit of every kind of gate.
fn circuit() -> Vec<Gate> {
    vec![
        gate(OP_NOT, 17, NO_CTRL, NO_CTRL),
        gate(OP_CNOT, 40, 17, NO_CTRL),
        gate(OP_TOFFOLI, 511, 17, 40),
        gate(OP_NOP, 3, NO_CTRL, NO_CTRL),
        gate(OP_TOFFOLI, 0, 511, 2),
    ]
}

fn state_hex(bits: &[bool]) -> String {
    let mut text = String::new();
    for i in 0..64 {
        let mut byte = 0u8;
        for j in 0..8 {
            if bits[8 * i + j] {
                byte |= 1 << j;
            }
        }
        text.push_str(&format!("{byte:02x}"));
    }
    text
}

/// A test vector whose final state is computed gate by gate.
fn case(gates: &[Gate], k: usize, ones: &[usize]) -> TestCase {
    let mut bits = vec![false; 512];
    for q in ones {
        bits[*q] = true;
    }
    let x_hex = state_hex(&bits);
    for _ in 0..k {
        for g in gates {
            let fire = match g.opcode {
                1 => true,
                2 => bits[g.ctrl_a as usize],
                3 => bits[g.ctrl_a as usize] && bits[g.ctrl_b as usize],
                _ => false,
            };
            if fire {
                bits[g.target as usize] = !bits[g.target as usize];
            }
        }
    }
    TestCase {
        x_hex,
        y_hex: state_hex(&bits),
    }
}

fn elements() -> LookupElements {
    let mut t = Transcript::new();
    t.mix_u64(77);
    LookupElements::draw(&t)
}

fn base(v: u32) -> QM31 {
    QM31::from_base(v)
}

#[test]
fn reads_of_a_limb() {
    let mut limbs = [0u32; 32];
    limbs[2] = 0b1011_0110;
    let r = ReadCols::live(&limbs, 36);
    assert_eq!((r.active, r.q, r.limb_idx, r.bit_pos, r.mask), (1, 36, 2, 4, 16));
    assert_eq!((r.lo, r.hi, r.bit), (0b0110, 0b101, 1));
    assert_eq!(r.lsel[2], 1);
    assert_eq!(r.lsel.iter().sum::<u32>(), 1);
    let off = ReadCols::inactive();
    assert_eq!((off.active, off.bit, off.mask), (0, 0, 1));
}

#[test]
fn deltas_in_the_field() {
    assert_eq!(delta_to_m31(1), 1);
    assert_eq!(delta_to_m31(0), 0);
    assert_eq!(delta_to_m31(-1), P - 1);
}

#[test]
fn row_of_a_toffoli() {
    let mut limbs = [0u32; 32];
    limbs[0] = 0b0111;
    let row = gate_row(&gate(OP_TOFFOLI, 0, 1, 2), &limbs, 3, 9);
    assert_eq!((row.enabler, row.is_toffoli, row.shot_id, row.pc), (1, 1, 3, 9));
    assert_eq!((row.ab, row.fire, row.delta), (1, 1, P - 1));
    assert_eq!(row.out_limb[0], 0b0110);
    assert_eq!(row.in_limb, limbs);
}

#[test]
fn gate_applied_twice_is_undone() {
    let g = gate(OP_CNOT, 20, 4, NO_CTRL);
    let mut limbs = [0u32; 32];
    limbs[0] = 1 << 4;
    let once = gate_row(&g, &limbs, 0, 0);
    assert_eq!(once.out_limb[1], 1 << 4);
    let twice = gate_row(&g, &once.out_limb, 0, 1);
    assert_eq!(twice.out_limb, limbs);
}

#[test]
fn split_tables_list_every_pair_once() {
    let lo = build_rc_lo();
    let hi = build_rc_hi();
    assert_eq!(lo.pos_col.len(), RC_SIZE);
    for (pos, value) in [(0u32, 0u32), (4, 15), (15, 32767)] {
        let row = lo.row(pos, value);
        assert_eq!((lo.pos_col[row], lo.val_col[row]), (pos, value));
    }
    for (pos, value) in [(0u32, 32767u32), (4, 2047), (15, 0)] {
        let row = hi.row(pos, value);
        assert_eq!((hi.pos_col[row], hi.val_col[row]), (pos, value));
    }
}

#[test]
fn counting_a_read() {
    let lo = build_rc_lo();
    let hi = build_rc_hi();
    let mut limbs = [0u32; 32];
    limbs[2] = 0b1011_0110;
    let mut counts = LookupCounts::new();
    count_read(&mut counts, &ReadCols::live(&limbs, 36), &lo, &hi);
    count_read(&mut counts, &ReadCols::inactive(), &lo, &hi);
    assert_eq!(counts.qdecode.iter().sum::<u32>(), 1);
    assert_eq!(counts.qdecode[36], 1);
    assert_eq!(counts.rc_lo[lo.row(4, 0b0110)], 1);
    assert_eq!(counts.rc_hi[hi.row(4, 0b101)], 1);
    let mut total = LookupCounts::new();
    total.add_assign(&counts);
    total.add_assign(&counts);
    assert_eq!(total.qdecode[36], 2);
    assert_eq!(total.rc_lo.iter().sum::<u32>(), 2);
}

#[test]
fn rows_of_two_shots() {
    let gates = circuit();
    let cases = vec![case(&gates, 3, &[2, 3]), case(&gates, 3, &[40])];
    let (rows, counts) = build_rows(&gates, &cases, 3, &build_rc_lo(), &build_rc_hi()).unwrap();
    assert_eq!(rows.len(), 30);
    assert_eq!((rows[17].shot_id, rows[17].pc), (1, 2));
    for i in 0..29 {
        if i != 14 {
            assert_eq!(rows[i].out_limb, rows[i + 1].in_limb);
        }
    }
    let reads: u32 = rows
        .iter()
        .map(|r| r.target.active + r.ctrl_a.active + r.ctrl_b.active)
        .sum();
    assert_eq!(counts.qdecode.iter().sum::<u32>(), reads);
    assert_eq!(counts.qdecode[511], 12);
}

fn cells(rows: &[Row]) -> Vec<Vec<u32>> {
    rows.iter()
        .map(|r| (0..TRACE_COLUMNS).map(|c| cell_at(r, c)).collect())
        .collect()
}

/// The rows of each shot are those of the shot run alone, and its counts are part of
/// the whole; rows behind a shot's own stay as they are.
#[test]
fn shots_stand_alone() {
    let gates = circuit();
    let cases = vec![case(&gates, 3, &[2, 3]), case(&gates, 3, &[40])];
    let (lo, hi) = (build_rc_lo(), build_rc_hi());
    let (rows, counts) = build_rows(&gates, &cases, 3, &lo, &hi).unwrap();
    let mut total = LookupCounts::new();
    for (s, c) in cases.iter().enumerate() {
        let mut block = vec![Row::padding(); 17];
        block[16].shot_id = 99;
        let own = simulate_shot(&gates, 3, s, c, &mut block, &lo, &hi).unwrap();
        assert_eq!(cells(&rows[15 * s..15 * s + 15]), cells(&block[..15]));
        assert_eq!((block[15].enabler, block[15].shot_id, block[16].shot_id), (0, 0, 99));
        total.add_assign(&own);
    }
    assert_eq!(counts.qdecode, total.qdecode);
    assert_eq!(counts.rc_lo, total.rc_lo);
    assert_eq!(counts.rc_hi, total.rc_hi);
}

/// The claim of a trace is the same however far it is padded, and balances.
#[test]
fn padding_leaves_the_claim_as_it_is() {
    let gates = circuit();
    let cases = vec![case(&gates, 1, &[2, 3]), case(&gates, 1, &[40])];
    let (rows, _) = build_rows(&gates, &cases, 1, &build_rc_lo(), &build_rc_hi()).unwrap();
    let el = elements();
    let mut claims = Vec::new();
    for padded in [16, 32, 64] {
        let mut all = rows.clone();
        all.resize(padded, Row::padding());
        let (cols, claim) = gen_main_interaction(&el, &all, 5);
        assert_eq!((cols.len(), cols[0].len()), (6, padded));
        claims.push(claim);
    }
    assert_eq!((claims[0], claims[0]), (claims[1], claims[2]));
    assert_eq!(claims[0], gen_main_interaction(&el, &rows, 5).1);
}

#[test]
fn shot_with_wrong_final_state() {
    let gates = circuit();
    let good = case(&gates, 1, &[2]);
    let bad = TestCase {
        x_hex: good.x_hex.clone(),
        y_hex: good.x_hex.clone(),
    };
    let want = good.y_hex.clone();
    match build_rows(&gates, &[good, bad], 1, &build_rc_lo(), &build_rc_hi()) {
        Err(SimError::FinalState { shot_id, got }) => {
            assert_eq!(shot_id, 1);
            assert_eq!(got, want);
        }
        _ => panic!("the final state is wrong"),
    }
}

#[test]
fn shots_that_cannot_be_read() {
    let gates = circuit();
    let (lo, hi) = (build_rc_lo(), build_rc_hi());
    let good = case(&gates, 1, &[2]);
    let mut block = vec![Row::padding(); 5];
    let x = TestCase {
        x_hex: String::from("zz"),
        y_hex: good.y_hex.clone(),
    };
    assert!(matches!(
        simulate_shot(&gates, 1, 0, &x, &mut block, &lo, &hi),
        Err(SimError::XHex)
    ));
    let y = TestCase {
        x_hex: good.x_hex.clone(),
        y_hex: String::from("123"),
    };
    assert!(matches!(
        simulate_shot(&gates, 1, 0, &y, &mut block, &lo, &hi),
        Err(SimError::YHex)
    ));
    let short = TestCase {
        x_hex: String::from("00"),
        y_hex: good.y_hex.clone(),
    };
    assert!(matches!(
        simulate_shot(&gates, 1, 0, &short, &mut block, &lo, &hi),
        Err(SimError::StateLength)
    ));
    let mut unknown = circuit();
    unknown[3].opcode = 9;
    assert!(matches!(
        simulate_shot(&unknown, 1, 0, &good, &mut block, &lo, &hi),
        Err(SimError::UnknownOpcode(9))
    ));
    assert!(simulate_shot(&gates, 1, 0, &good, &mut block, &lo, &hi).is_ok());
}

#[test]
fn constraints_vanish_on_gate_rows_and_padding() {
    let gates = circuit();
    let cases = vec![case(&gates, 2, &[2, 17])];
    let (rows, _) = build_rows(&gates, &cases, 2, &build_rc_lo(), &build_rc_hi()).unwrap();
    for row in rows.iter().chain(std::iter::once(&Row::padding())) {
        let t: Vec<QM31> = (0..TRACE_COLUMNS).map(|c| base(cell_at(row, c))).collect();
        let e = evaluate(base(row.pc % 5), &t);
        assert!(e.constraints.iter().all(|c| c.is_zero()));
    }
    let mut wrong: Vec<QM31> = (0..TRACE_COLUMNS)
        .map(|c| base(cell_at(&rows[0], c)))
        .collect();
    wrong[TRACE_COLUMNS - 1] = base(7);
    let e = evaluate(base(0), &wrong);
    assert!(!e.constraints.iter().all(|c| c.is_zero()));
}

#[test]
fn entries_are_the_uses_of_a_row() {
    let gates = circuit();
    let cases = vec![case(&gates, 1, &[2, 17])];
    let (rows, _) = build_rows(&gates, &cases, 1, &build_rc_lo(), &build_rc_hi()).unwrap();
    let el = elements();
    for row in &rows {
        let t: Vec<QM31> = (0..TRACE_COLUMNS).map(|c| base(cell_at(row, c))).collect();
        let e = evaluate(base(row.pc % 5), &t);
        let mut sum = QM31::zero();
        for entry in &e.entries {
            let rel = match entry.id {
                RelationId::State => &el.state,
                RelationId::QDecode => &el.qdecode,
                RelationId::RcLo => &el.rc_lo,
                RelationId::RcHi => &el.rc_hi,
                RelationId::Program => &el.program,
            };
            sum = sum.plus(entry.multiplicity.times(rel.combine(&entry.values).inverse()));
        }
        let (_, claim) = gen_main_interaction(&el, std::slice::from_ref(row), 5);
        assert_eq!(claim, sum);
    }
}

#[test]
fn traces_and_public_columns() {
    let gates = circuit();
    let cases = vec![case(&gates, 2, &[2])];
    let (rows, _) = build_rows(&gates, &cases, 2, &build_rc_lo(), &build_rc_hi()).unwrap();
    let cols = generate_main_trace(&rows, 64);
    assert_eq!(cols.len(), TRACE_COLUMNS);
    for (c, col) in cols.iter().enumerate() {
        assert_eq!(col.len(), 64);
        assert_eq!(col[7], cell_at(&rows[7], c));
        assert_eq!(col[63], cell_at(&Row::padding(), c));
    }
    let slots = generate_pc_in_prog_preprocessed(&rows, 64, 5);
    assert_eq!(&slots[..11], &[0, 1, 2, 3, 4, 0, 1, 2, 3, 4, 0]);
    let decode = generate_qdecode_preprocessed();
    assert_eq!(decode.len(), 4);
    assert_eq!(
        (decode[0][37], decode[1][37], decode[2][37], decode[3][37]),
        (37, 2, 5, 32)
    );
    let names: Vec<&str> = preprocessed_column_ids().iter().map(|c| c.id()).collect();
    assert_eq!(names.len(), 10);
    assert_eq!(names[0], "gate_pc_in_prog");
    assert_eq!(names[9], "gate_prog_slot");
}

#[test]
fn table_components() {
    assert_eq!(QDecodeTableEval.log_size(), 9);
    assert_eq!(RcLoTableEval.log_size(), 16);
    assert_eq!(RcHiTableEval.max_constraint_log_degree_bound(), 17);
    let e = QDecodeTableEval.evaluate(base(37), base(2), base(5), base(32), base(4));
    assert_eq!(e.constraints.len(), 0);
    assert_eq!(e.entries.len(), 1);
    assert_eq!(e.entries[0].id, RelationId::QDecode);
    assert_eq!(e.entries[0].multiplicity, base(P - 4));
    assert_eq!(
        e.entries[0].values,
        vec![base(37), base(2), base(5), base(32)]
    );
    let p = ProgramTableEval { log_size: 5 };
    assert_eq!(p.log_size(), 5);
    let e = p.evaluate(
        base(3),
        &[base(2), base(17), base(4), base(0), base(6)],
    );
    assert_eq!(e.entries[0].id, RelationId::Program);
    assert_eq!(e.entries[0].multiplicity, base(P - 6));
    assert_eq!(
        e.entries[0].values,
        vec![base(3), base(2), base(17), base(4), base(0)]
    );
}

#[test]
fn boundary_of_one_shot() {
    let gates = circuit();
    let cases = vec![case(&gates, 2, &[2])];
    let el = elements();
    let limbs = |text: &str| {
        let mut l = [0u32; 32];
        for i in 0..32 {
            let lo = u32::from_str_radix(&text[4 * i..4 * i + 2], 16).unwrap();
            let hi = u32::from_str_radix(&text[4 * i + 2..4 * i + 4], 16).unwrap();
            l[i] = lo + 256 * hi;
        }
        l
    };
    let first = state_tuple(0, 0, &limbs(&cases[0].x_hex));
    let last = state_tuple(0, 10, &limbs(&cases[0].y_hex));
    assert_eq!(first.len(), STATE_WIDTH);
    let want = el
        .state
        .combine_base(&first)
        .inverse()
        .minus(el.state.combine_base(&last).inverse());
    let got = public_boundary_sum(&cases, 5, 2, &el);
    assert!(matches!(got, Ok(v) if v == want));
}

#[test]
fn boundary_that_cannot_be_read() {
    let gates = circuit();
    let bad = TestCase {
        x_hex: String::from("q0"),
        y_hex: String::new(),
    };
    let cases = vec![case(&gates, 2, &[2]), bad];
    assert!(matches!(
        public_boundary_sum(&cases, 5, 2, &elements()),
        Err(BadText { shot_id: 1 })
    ));
}

#[test]
fn claims_of_a_run_balance() {
    let gates = circuit();
    let cases = vec![case(&gates, 2, &[2, 3]), case(&gates, 2, &[40])];
    let el = elements();
    let w = match TraceWitness::build(&gates, &cases, 2) {
        Ok(w) => w,
        Err(_) => panic!("the shots are right"),
    };
    assert_eq!((w.n_rows, w.log_n_rows, w.rows.len()), (20, 6, 64));
    let r = w.interact(&gates, &cases, 2, &el);
    let boundary = match public_boundary_sum(&cases, 5, 2, &el) {
        Ok(v) => v,
        Err(_) => panic!("the states are hex"),
    };
    let c = &r.claims;
    let net = c
        .main
        .plus(c.qdecode)
        .plus(c.rc_lo)
        .plus(c.rc_hi)
        .plus(c.program);
    assert_eq!(net, boundary);
    assert_eq!(
        derived_main_claim(boundary, c.qdecode, c.rc_lo, c.rc_hi, c.program),
        c.main
    );
    assert_eq!(claimed_sum(&r.qdecode), c.qdecode);
    assert_eq!(claimed_sum(&r.program), c.program);
    assert_eq!(r.main.len(), 6);
    assert_eq!(
        c.in_order(),
        vec![c.main, c.qdecode, c.rc_lo, c.rc_hi, c.program]
    );
    let cols: Vec<&Vec<u32>> = w.qdecode.iter().collect();
    assert_eq!(
        table_public_sum(&el.qdecode, &w.counts.qdecode, &cols),
        c.qdecode
    );
}

#[test]
fn padding_claims_nothing() {
    let el = elements();
    let (_, claim) = gen_main_interaction(&el, &[Row::padding(), Row::padding()], 5);
    assert_eq!(claim, QM31::zero());
}

#[test]
fn claims_are_checked_in_order() {
    let c = |m: u32, q: u32, l: u32, h: u32, p: u32| Claims {
        main: base(m),
        qdecode: base(q),
        rc_lo: base(l),
        rc_hi: base(h),
        program: base(p),
    };
    let want = c(0, 2, 3, 4, 5);
    assert_eq!(c(1, 2, 3, 4, 5).check(base(15), &want), None);
    assert_eq!(
        c(1, 2, 3, 4, 5).check(base(16), &want),
        Some(ClaimError::Boundary)
    );
    assert_eq!(
        c(0, 3, 3, 4, 5).check(base(15), &want),
        Some(ClaimError::QDecode)
    );
    assert_eq!(
        c(0, 2, 4, 4, 5).check(base(15), &want),
        Some(ClaimError::RcLo)
    );
    assert_eq!(
        c(0, 2, 3, 5, 5).check(base(15), &want),
        Some(ClaimError::RcHi)
    );
    assert_eq!(
        c(0, 2, 3, 4, 6).check(base(15), &want),
        Some(ClaimError::Program)
    );
}

#[test]
fn timelines_that_fit() {
    assert!(timeline_fits(2, 3, 5));
    assert!(!timeline_fits(1, 0x4000_0000, 4));
    let rel = Relation::dummy(STATE_WIDTH);
    assert_eq!(rel.alpha_powers.len(), STATE_WIDTH);
}

#[test]
fn proof_of_a_run() {
    let gates = circuit();
    let cases = vec![case(&gates, 2, &[2, 3]), case(&gates, 2, &[40])];
    let w = match TraceWitness::build(&gates, &cases, 2) {
        Ok(w) => w,
        Err(_) => panic!("the shots are right"),
    };
    let config = leaf_pcs_config(16, 1);
    let answer = match answer_challenge(&w, &gates, &cases, 2, &config, &[1; 32], &[2; 32]) {
        Ok(a) => a,
        Err(_) => panic!("no denominator is zero"),
    };
    let el = &answer.elements;
    let claims = answer.interaction.claims;
    assert!(boundary_defined(&cases, 5, 2, el));
    assert!(matches!(
        cross_check(&w, &gates, &cases, 2, el, &claims),
        Ok(None)
    ));
    let (boundary, derived) = match verifier_claims(&w, &gates, &cases, 2, el) {
        Ok(v) => v,
        Err(_) => panic!("the states are hex"),
    };
    assert_eq!(derived, claims);
    assert!(matches!(
        public_boundary_sum(&cases, 5, 2, el),
        Ok(b) if b == boundary
    ));
    let mut off = claims;
    off.rc_lo = off.rc_lo.plus(base(1));
    off.main = off.main.minus(base(1));
    assert!(matches!(
        cross_check(&w, &gates, &cases, 2, el, &off),
        Ok(Some(ClaimError::RcLo))
    ));
    let (mut a, mut b) = (answer.transcript, answer.transcript);
    close_transcript(&mut a, &claims, &[3; 32]);
    close_transcript(&mut b, &derived, &[3; 32]);
    assert_eq!(a, b);
    assert_ne!(a, answer.transcript);
}

#[test]
fn zero_denominators_of_a_run() {
    let rows = [Row::padding()];
    let mut el = elements();
    assert!(main_defined(&el, &rows, 5));
    // With alpha zero a tuple's denominator is its first value minus z.
    el.rc_lo = Relation::new(QM31::zero(), QM31::zero(), 2);
    assert!(!main_defined(&el, &rows, 5));
    let (col0, col1) = (vec![1, 2], vec![7, 8]);
    let cols = [&col0, &col1];
    let one = Relation::new(base(2), QM31::zero(), 2);
    let other = Relation::new(base(3), QM31::zero(), 2);
    assert!(!table_defined(&one, &[1, 1], &cols));
    assert!(table_defined(&other, &[1, 1], &cols));
    let gates = circuit();
    let cases = vec![case(&gates, 2, &[2])];
    el.state = Relation::new(QM31::zero(), QM31::zero(), STATE_WIDTH);
    assert!(!boundary_defined(&cases, 5, 2, &el));
    let short = TestCase {
        x_hex: String::from("00"),
        y_hex: String::from("00"),
    };
    assert!(!boundary_defined(&[short], 5, 2, &elements()));
}

#[test]
fn columns_of_a_run() {
    let gates = circuit();
    let cases = vec![case(&gates, 2, &[2, 3])];
    let w = match TraceWitness::build(&gates, &cases, 2) {
        Ok(w) => w,
        Err(_) => panic!("the shots are right"),
    };
    assert_eq!(w.max_log_size(), 16);
    let public = w.tree0_columns(gates.len());
    assert_eq!(public.len(), 10);
    assert_eq!(public[0][..11], [0, 1, 2, 3, 4, 0, 1, 2, 3, 4, 0]);
    assert_eq!((public[2][37], public[9].len()), (2, 16));
    let hidden = w.tree1_columns();
    assert_eq!(hidden.len(), 199);
    assert_eq!(hidden[191], w.counts.qdecode);
    assert_eq!(hidden[6][9], 9);
    assert_eq!(hidden[198][..6], [2, 2, 2, 2, 2, 0]);
}

#[test]
fn operands_in_range() {
    let mut gates = circuit();
    assert!(operands_exist(&gates));
    gates[1].ctrl_a = 512;
    assert!(!operands_exist(&gates));
    gates[0].opcode = 7;
    assert!(operands_exist(&gates));
}

/// The states that rows and ends take are those that rows and starts leave.
#[test]
fn states_of_shots_balance() {
    let gates = circuit();
    let cases = vec![case(&gates, 2, &[2, 3]), case(&gates, 2, &[40])];
    let (rows, _) = build_rows(&gates, &cases, 2, &build_rc_lo(), &build_rc_hi()).unwrap();
    let mut taken: Vec<Vec<u32>> = Vec::new();
    let mut left: Vec<Vec<u32>> = Vec::new();
    for r in &rows {
        taken.push(state_tuple(r.shot_id, r.pc, &r.in_limb));
        left.push(state_tuple(r.shot_id, r.pc + 1, &r.out_limb));
    }
    for s in 0..2 {
        left.push(state_tuple(s, 0, &rows[10 * s as usize].in_limb));
        taken.push(state_tuple(s, 10, &rows[10 * s as usize + 9].out_limb));
    }
    taken.sort();
    left.sort();
    assert_eq!(taken, left);
}
