//! Repeated 256-bit addition: limbs, rows, constraints, lookups and claims.
use gate_air::field::{P, QM31};
use gate_air::iadd::{
    biguint_to_limbs, check_fixture_outputs, low_register_from_state_hex, plan_iadd, IaddCase,
    IaddError, IaddFixture, OutputError, RangeCheckMode, StateError,
};
use gate_air::iadd_air::{
    lookup_preprocessed_columns, NativeIaddEval, RelationId, SeqLookupEval,
};
use gate_air::iadd_limbs::{
    add_limbs, limb_base, limb_bits, lookup_high_bits, split_lookup_chunks, LIMBS,
};
use gate_air::iadd_lookups::{
    check_claims, claimed_sums, ends_defined, gen_main_interaction_trace, lookup_public_sum,
    main_defined, main_interaction_batches, public_boundary_sum, seq_defined, seq_lookup_public_sum, state_from_limbs,
    BadState, ClaimError, IaddElements, RangeClaims,
};
use gate_air::iadd_proof::{answer_challenge, close_transcript, cross_check, verifier_claims};
use gate_air::iadd_rows::{
    build_rows, cell_at, count_rows, generate_main_trace, pad_rows, range_bit_columns,
    trace_columns, LookupCounts, Row,
};
use gate_air::iadd_run::{
    check_kmx_once, check_kmx_registers, check_kmx_repeated, kmx_checks, kmx_seed, max_log_size,
    trace_size, tree0_columns, IaddTrace, KmxError,
};
use gate_air::leaf::leaf_pcs_config;
use gate_air::logup::Relation;
use gate_air::numbers::{digits_of_u64, low_digit, parse_number};
use gate_air::transcript::Transcript;

const MODES: [RangeCheckMode; 3] = [
    RangeCheckMode::Off,
    RangeCheckMode::Bits,
    RangeCheckMode::Lookup,
];

fn number(text: &str) -> Vec<u32> {
    match parse_number(text.as_bytes()) {
        Some(d) => d,
        None => panic!("a number"),
    }
}

fn hex_of_u64(n: u64) -> String {
    let mut text = String::new();
    for b in n.to_le_bytes() {
        text.push_str(&format!("{b:02x}"));
    }
    text.push_str(&"0".repeat(112));
    text
}

/// `r0 + k * r1`, which fits 64 bits.
fn case(r0: u64, r1: u64, k: u64) -> IaddCase {
    IaddCase {
        r0_in: digits_of_u64(r0),
        r1_in: digits_of_u64(r1),
        y_hex: hex_of_u64(r0 + k * r1),
    }
}

/// A sum that wraps round: all ones plus one, twice.
fn wrapping_case() -> IaddCase {
    let top =
        "115792089237316195423570985008687907853269984665640564039457584007913129639935";
    IaddCase {
        r0_in: number(top),
        r1_in: number("1"),
        y_hex: hex_of_u64(1),
    }
}

fn cases() -> Vec<IaddCase> {
    vec![case(0xffff_ffff_0000, 0x1_2345_6789, 2), wrapping_case()]
}

fn base(v: u32) -> QM31 {
    QM31::from_base(v)
}

fn elements(mode: RangeCheckMode) -> IaddElements {
    let mut t = Transcript::new();
    t.mix_u64(5);
    IaddElements::draw(&t, mode)
}

#[test]
fn limbs_and_bases() {
    assert_eq!((limb_bits(0), limb_bits(7), limb_bits(8)), (29, 29, 24));
    assert_eq!((limb_base(0), limb_base(8)), (1 << 29, 1 << 24));
    assert_eq!((lookup_high_bits(0), lookup_high_bits(8)), (11, 6));
    assert_eq!(split_lookup_chunks(0, 0x1fff_ffff), (0x3_ffff, 0x7ff));
    assert_eq!(split_lookup_chunks(8, 0xff_ffff), (0x3_ffff, 0x3f));
    assert_eq!(split_lookup_chunks(3, 5), (5, 0));
    assert_eq!(RangeCheckMode::Off.as_str(), "off");
    assert_eq!(RangeCheckMode::Bits.as_str(), "bits");
    assert_eq!(RangeCheckMode::Lookup.as_str(), "lookup");
}

#[test]
fn numbers_as_digits() {
    assert_eq!(number("0"), Vec::<u32>::new());
    assert_eq!(number("4294967296"), vec![0, 1]);
    assert_eq!(parse_number(b"12a"), None);
    assert_eq!(parse_number(b""), None);
    assert_eq!(parse_number(b"+"), None);
    assert_eq!(parse_number(b"++7"), None);
    assert_eq!(parse_number(b"-7"), None);
    assert_eq!(parse_number(b"_7"), None);
    assert_eq!(parse_number(b"+_7"), None);
    assert_eq!(parse_number(&[0x37, 0xff]), None);
    assert_eq!(number("+7"), vec![7]);
    assert_eq!(number("1_000_"), vec![1000]);
    assert_eq!(number("007"), vec![7]);
    assert_eq!(low_digit(&number("4294967301")), 5);
    assert_eq!(low_digit(&[]), 0);
    assert_eq!(digits_of_u64(0x1_0000_0002), vec![2, 1]);
}

#[test]
fn limbs_of_a_number() {
    let mut want = [0u32; LIMBS];
    want[0] = 0x1fff_ffff;
    want[1] = 0x7;
    assert_eq!(biguint_to_limbs(&digits_of_u64(0xffff_ffff)), want);
    let all = biguint_to_limbs(&wrapping_case().r0_in);
    for i in 0..LIMBS {
        assert_eq!(all[i], limb_base(i) - 1);
    }
}

#[test]
fn addition_wraps_round() {
    let all = biguint_to_limbs(&wrapping_case().r0_in);
    let one = biguint_to_limbs(&[1]);
    let (sum, carry) = add_limbs(all, one);
    assert_eq!(sum, [0; LIMBS]);
    assert_eq!(carry, [1; LIMBS]);
    let (sum, carry) = add_limbs(one, one);
    assert_eq!(sum, biguint_to_limbs(&[2]));
    assert_eq!(carry, [0; LIMBS]);
}

#[test]
fn low_registers() {
    assert_eq!(
        low_register_from_state_hex(&hex_of_u64(0x0102_0304_0506)),
        Ok(vec![0x0304_0506, 0x0102])
    );
    let long = format!("{}ff77", "00".repeat(31));
    assert_eq!(
        low_register_from_state_hex(&long),
        Ok(vec![0, 0, 0, 0, 0, 0, 0, 0xff00_0000])
    );
    assert_eq!(low_register_from_state_hex("0g"), Err(StateError::Hex));
    assert_eq!(
        low_register_from_state_hex("0102"),
        Err(StateError::TooShort { got: 2 })
    );
}

#[test]
fn outputs_of_a_fixture() {
    assert_eq!(check_fixture_outputs(&cases(), 2), Ok(()));
    assert_eq!(
        check_fixture_outputs(&cases(), 3),
        Err(OutputError::Mismatch { case: 0 })
    );
    let mut bad = cases();
    bad[1].y_hex = String::from("00");
    assert_eq!(
        check_fixture_outputs(&bad, 2),
        Err(OutputError::State {
            case: 1,
            error: StateError::TooShort { got: 1 }
        })
    );
}

fn fixture() -> IaddFixture {
    IaddFixture {
        version: String::from("v0.3-iadd"),
        repetitions: 2,
        n_samples: 2,
        register_width: 256,
        test_cases: cases(),
    }
}

#[test]
fn plans_of_a_fixture() {
    let f = fixture();
    let p = plan_iadd(&f, None, None).unwrap();
    assert_eq!((p.samples, p.repetitions, p.n_rows), (2, 2, 4));
    assert_eq!((p.padded_rows, p.log_n_rows), (64, 6));
    let p = plan_iadd(&f, Some(1), None).unwrap();
    assert_eq!((p.samples, p.n_rows), (1, 2));
    assert_eq!(plan_iadd(&f, Some(0), None), Err(IaddError::Empty));
    assert_eq!(plan_iadd(&f, None, Some(0)), Err(IaddError::Empty));
    assert_eq!(
        plan_iadd(&f, None, Some(0x7fff_ffff)),
        Err(IaddError::TooMany)
    );
    assert_eq!(
        plan_iadd(&f, None, Some(3)),
        Err(IaddError::Output(OutputError::Mismatch { case: 0 }))
    );
    let mut g = fixture();
    g.register_width = 128;
    assert_eq!(plan_iadd(&g, None, None), Err(IaddError::Width));
    g.version = String::from("v0.2");
    assert_eq!(plan_iadd(&g, None, None), Err(IaddError::Version));
}

#[test]
fn rows_of_additions() {
    let rows = build_rows(&cases(), 2);
    assert_eq!(rows.len(), 4);
    assert_eq!((rows[1].sample_id, rows[1].rep_idx), (0, 1));
    assert_eq!((rows[2].sample_id, rows[2].rep_idx), (1, 0));
    assert_eq!(rows[0].next, rows[1].acc);
    assert_eq!(rows[2].carry, [1; LIMBS]);
    assert_eq!(rows[3].next, biguint_to_limbs(&[1]));
    let padded = pad_rows(rows, 64);
    assert_eq!(padded.len(), 64);
    assert_eq!(padded[63], Row::zero());
}

#[test]
fn columns_by_mode() {
    assert_eq!(range_bit_columns(), 3 * 256);
    assert_eq!(trace_columns(RangeCheckMode::Off), 39);
    assert_eq!(trace_columns(RangeCheckMode::Bits), 39 + 768);
    assert_eq!(trace_columns(RangeCheckMode::Lookup), 57);
    let rows = build_rows(&cases(), 2);
    for mode in MODES {
        let cols = generate_main_trace(&rows, mode);
        assert_eq!(cols.len(), trace_columns(mode));
        for (c, col) in cols.iter().enumerate() {
            for (i, row) in rows.iter().enumerate() {
                assert_eq!(col[i], cell_at(row, mode, c));
            }
        }
    }
    assert_eq!(cell_at(&rows[1], RangeCheckMode::Off, 0), 1);
    assert_eq!(max_log_size(6, RangeCheckMode::Lookup), 18);
    assert_eq!(max_log_size(6, RangeCheckMode::Bits), 6);
    assert_eq!(trace_size(64, 57), (3648, 14592));
}

#[test]
fn additions_and_padding_satisfy() {
    let rows = pad_rows(build_rows(&cases(), 2), 5);
    for mode in MODES {
        let eval = NativeIaddEval {
            log_n_rows: 6,
            range_check: mode,
        };
        assert_eq!((eval.log_size(), eval.max_constraint_log_degree_bound()), (6, 7));
        for row in &rows {
            let t: Vec<QM31> = (0..trace_columns(mode))
                .map(|c| base(cell_at(row, mode, c)))
                .collect();
            assert!(eval.evaluate(&t).constraints.iter().all(|c| c.is_zero()));
        }
        let mut wrong = rows[0];
        wrong.next[0] += 1;
        let t: Vec<QM31> = (0..trace_columns(mode))
            .map(|c| base(cell_at(&wrong, mode, c)))
            .collect();
        assert!(!eval.evaluate(&t).constraints.iter().all(|c| c.is_zero()));
    }
}

#[test]
fn entries_sum_to_the_batches() {
    for mode in MODES {
        let el = elements(mode);
        let eval = NativeIaddEval {
            log_n_rows: 6,
            range_check: mode,
        };
        for row in &build_rows(&cases(), 2) {
            let t: Vec<QM31> = (0..trace_columns(mode))
                .map(|c| base(cell_at(row, mode, c)))
                .collect();
            let mut sum = QM31::zero();
            for x in &eval.evaluate(&t).entries {
                let rel = match (x.id, &el.ranges) {
                    (RelationId::State, _) => &el.state,
                    (RelationId::Seq18, Some(g)) => &g.seq18,
                    (RelationId::Seq11, Some(g)) => &g.seq11,
                    (RelationId::Seq6, Some(g)) => &g.seq6,
                    _ => panic!("no range tables in this mode"),
                };
                sum = sum.plus(x.multiplicity.times(rel.combine(&x.values).inverse()));
            }
            let (cols, claim) = gen_main_interaction_trace(std::slice::from_ref(row), &el, mode);
            assert_eq!(cols.len(), main_interaction_batches(mode));
            assert_eq!(claim, sum);
        }
    }
}

#[test]
fn sequence_tables() {
    let ids = lookup_preprocessed_columns();
    assert_eq!(ids, vec![RelationId::Seq18, RelationId::Seq11, RelationId::Seq6]);
    let e = SeqLookupEval::new(RelationId::Seq11);
    assert_eq!((e.log_size(), e.max_constraint_log_degree_bound()), (11, 12));
    assert_eq!(e.column_id(), "native_iadd_range_seq11");
    let v = e.evaluate(base(9), base(4));
    assert_eq!(v.entries.len(), 1);
    assert_eq!(v.entries[0].id, RelationId::Seq11);
    assert_eq!(v.entries[0].multiplicity, base(P - 4));
    assert_eq!(v.entries[0].values, vec![base(9)]);
}

#[test]
fn range_counts() {
    let rows = build_rows(&cases(), 2);
    let c = count_rows(&rows).unwrap();
    assert_eq!(c.seq18.len(), 1 << 18);
    assert_eq!(c.seq11.len(), 1 << 11);
    assert_eq!(c.seq6.len(), 1 << 6);
    assert_eq!(c.seq18.iter().sum::<u32>(), 36);
    assert_eq!(c.seq11.iter().sum::<u32>(), 32);
    assert_eq!(c.seq6.iter().sum::<u32>(), 4);
    assert_eq!(c.seq6[0], 4);
    let mut one = LookupCounts::new();
    one.add_next_limbs(&rows[3].next);
    assert_eq!((one.seq18[1], one.seq18[0]), (1, 8));
}

/// Each sum adds nine low parts, eight high parts and one top part.
#[test]
fn counts_add_up() {
    let rows = build_rows(&cases(), 2);
    let mut counts = LookupCounts::new();
    for (c, row) in rows.iter().enumerate() {
        let c = c as u32;
        assert_eq!(counts.seq18.iter().sum::<u32>(), 9 * c);
        assert_eq!(counts.seq11.iter().sum::<u32>(), 8 * c);
        assert_eq!(counts.seq6.iter().sum::<u32>(), c);
        counts.add_next_limbs(&row.next);
    }
    assert_eq!((counts.seq18.len(), counts.seq11.len(), counts.seq6.len()), (1 << 18, 1 << 11, 64));
}

#[test]
fn counters_that_are_full() {
    let mut next = [0u32; 9];
    next[1] = 5;
    next[3] = 5;
    next[8] = 7 << 18;
    let mut counts = LookupCounts::new();
    assert!(counts.has_room(&next));
    // Two of the low parts are five, and the others zero.
    counts.seq18[5] = u32::MAX - 2;
    counts.seq18[0] = u32::MAX - 7;
    counts.seq11[0] = u32::MAX - 8;
    counts.seq6[7] = u32::MAX - 1;
    counts.seq6[6] = u32::MAX;
    assert!(counts.has_room(&next));
    counts.add_next_limbs(&next);
    assert_eq!((counts.seq18[5], counts.seq18[0]), (u32::MAX, u32::MAX));
    assert_eq!((counts.seq11[0], counts.seq6[7]), (u32::MAX, u32::MAX));
    assert!(!counts.has_room(&next));
    let mut low = LookupCounts::new();
    low.seq18[5] = u32::MAX - 1;
    assert!(!low.has_room(&next));
    let mut high = LookupCounts::new();
    high.seq11[0] = u32::MAX - 7;
    assert!(!high.has_room(&next));
    let mut top = LookupCounts::new();
    top.seq6[7] = u32::MAX;
    assert!(!top.has_room(&next));
}

#[test]
fn claims_match_the_boundary() {
    for mode in MODES {
        let el = elements(mode);
        let t = IaddTrace::build(&cases(), 2, 64, mode).unwrap();
        assert_eq!((t.rows.len(), t.n_rows), (64, 4));
        let r = t.interact(&cases(), 2, mode, &el);
        let boundary = public_boundary_sum(&cases(), 2, &el).unwrap();
        let lookups = match (&t.counts, &el.ranges) {
            (Some(c), Some(g)) => lookup_public_sum(c, g),
            _ => QM31::zero(),
        };
        assert_eq!(r.main_claim, boundary.plus(lookups));
        match (&r.range_claims, &t.counts, &el.ranges) {
            (Some(claims), Some(c), Some(g)) => {
                let expected = RangeClaims {
                    seq18: seq_lookup_public_sum(&g.seq18, &c.seq18).negate(),
                    seq11: seq_lookup_public_sum(&g.seq11, &c.seq11).negate(),
                    seq6: seq_lookup_public_sum(&g.seq6, &c.seq6).negate(),
                };
                assert_eq!(
                    check_claims(r.main_claim, boundary, lookups, claims, &expected),
                    None
                );
                assert_eq!(claimed_sums(r.main_claim, Some(*claims)).len(), 4);
            }
            (None, None, None) => {
                assert_eq!(claimed_sums(r.main_claim, None), vec![r.main_claim]);
            }
            _ => panic!("ranges only with lookups"),
        }
    }
}

#[test]
fn boundary_of_one_case() {
    let el = elements(RangeCheckMode::Off);
    let one = vec![case(3, 4, 2)];
    let first = state_from_limbs(0, 0, &biguint_to_limbs(&[3]), &biguint_to_limbs(&[4]));
    let last = state_from_limbs(0, 2, &biguint_to_limbs(&[11]), &biguint_to_limbs(&[4]));
    assert_eq!(first.len(), 20);
    let want = el
        .state
        .combine_base(&first)
        .inverse()
        .minus(el.state.combine_base(&last).inverse());
    assert_eq!(public_boundary_sum(&one, 2, &el), Ok(want));
    let bad = vec![IaddCase {
        r0_in: vec![],
        r1_in: vec![],
        y_hex: String::from("?"),
    }];
    assert_eq!(
        public_boundary_sum(&bad, 2, &el),
        Err(BadState {
            case: 0,
            error: StateError::Hex
        })
    );
}

#[test]
fn claims_that_do_not_match_iadd() {
    let r = |a: u32, b: u32, c: u32| RangeClaims {
        seq18: base(a),
        seq11: base(b),
        seq6: base(c),
    };
    let want = r(1, 2, 3);
    let check = |main: u32, x: RangeClaims| check_claims(base(main), base(4), base(5), &x, &want);
    assert_eq!(check(9, r(1, 2, 3)), None);
    assert_eq!(check(8, r(1, 2, 3)), Some(ClaimError::Main));
    assert_eq!(check(9, r(0, 2, 3)), Some(ClaimError::Seq18));
    assert_eq!(check(9, r(1, 0, 3)), Some(ClaimError::Seq11));
    assert_eq!(check(9, r(1, 2, 0)), Some(ClaimError::Seq6));
}

#[test]
fn simulated_circuits_are_compared() {
    assert_eq!(check_kmx_registers(&[256, 256, 9]), Ok(()));
    assert_eq!(
        check_kmx_registers(&[256]),
        Err(KmxError::Registers { got: 1 })
    );
    assert_eq!(
        check_kmx_registers(&[256, 255]),
        Err(KmxError::Widths { r0: 256, r1: 255 })
    );
    assert_eq!(kmx_checks(4, 2, 16), (2, 2));
    assert_eq!(kmx_checks(1, 2, 17), (1, 0));
    let c = case(3, 4, 2);
    assert_eq!(check_kmx_once(&c, 7, &[7], &[4]), Ok(()));
    assert_eq!(check_kmx_once(&c, 7, &[7, 0], &[4, 0]), Ok(()));
    assert_eq!(
        check_kmx_once(&c, 7, &[8], &[4]),
        Err(KmxError::OneStep { sample: 7 })
    );
    assert_eq!(
        check_kmx_once(&c, 7, &[7], &[5]),
        Err(KmxError::OneStepAddend { sample: 7 })
    );
    assert_eq!(check_kmx_repeated(&c, 7, &[11], &[4]), Ok(()));
    assert_eq!(
        check_kmx_repeated(&c, 7, &[7], &[4]),
        Err(KmxError::Repeated { sample: 7 })
    );
    assert_eq!(
        check_kmx_repeated(&c, 7, &[11], &[7]),
        Err(KmxError::RepeatedAddend { sample: 7 })
    );
    let mut bad = case(3, 4, 2);
    bad.y_hex = String::from("g0");
    assert_eq!(
        check_kmx_repeated(&bad, 7, &[11], &[4]),
        Err(KmxError::State {
            sample: 7,
            error: StateError::Hex
        })
    );
}

#[test]
fn seeds_hold_sample_and_repetitions() {
    let seed = kmx_seed(1, 258);
    let text = b"native-iadd-air kmx equivalence";
    assert_eq!(&seed[..text.len()], text);
    assert_eq!(&seed[text.len()..], &[1, 0, 0, 0, 0, 0, 0, 0, 2, 1, 0, 0, 0, 0, 0, 0]);
}

#[test]
fn proof_of_additions() {
    for mode in MODES {
        let t = IaddTrace::build(&cases(), 2, 64, mode).unwrap();
        let config = leaf_pcs_config(18, 1);
        let answer =
            match answer_challenge(&t, &cases(), 2, mode, &config, &[1; 32], &[2; 32]) {
                Ok(a) => a,
                Err(_) => panic!("no denominator is zero"),
            };
        assert!(ends_defined(&cases(), 2, &answer.elements));
        let derived = match verifier_claims(&cases(), 2, mode, &t.counts, &answer.elements) {
            Ok(d) => d,
            Err(_) => panic!("the states are hex"),
        };
        let r = &answer.interaction;
        assert_eq!(r.main_claim, derived.main);
        assert_eq!(r.range_claims, derived.ranges);
        assert_eq!(cross_check(r.main_claim, &r.range_claims, &derived), None);
        assert_eq!(
            cross_check(r.main_claim.plus(base(1)), &r.range_claims, &derived),
            Some(ClaimError::Main)
        );
        let (mut a, mut b) = (answer.transcript, answer.transcript);
        close_transcript(&mut a, r.main_claim, r.range_claims, &[3; 32]);
        close_transcript(&mut b, derived.main, derived.ranges, &[3; 32]);
        assert_eq!(a, b);
        assert_eq!(r.ranges.len(), if mode == RangeCheckMode::Lookup { 3 } else { 0 });
    }
}

#[test]
fn zero_denominators_of_additions() {
    let rows = build_rows(&cases(), 2);
    let mut el = elements(RangeCheckMode::Off);
    assert!(main_defined(&rows, &el, RangeCheckMode::Off));
    assert!(ends_defined(&cases(), 2, &el));
    // With alpha zero a tuple's denominator is its first value minus z.
    el.state = Relation::new(base(1), base(0), 20);
    assert!(!main_defined(&rows, &el, RangeCheckMode::Off));
    assert!(main_defined(&rows[..2], &el, RangeCheckMode::Off));
    assert!(!ends_defined(&cases(), 2, &el));
    let rel = Relation::new(base(5), base(0), 1);
    assert!(seq_defined(&rel, &[1; 5]));
    assert!(!seq_defined(&rel, &[1; 6]));
}

/// The states that rows and ends take are those that rows and starts leave.
#[test]
fn states_of_additions_balance() {
    let cases = cases();
    let rows = build_rows(&cases, 2);
    let mut taken: Vec<Vec<u32>> = Vec::new();
    let mut left: Vec<Vec<u32>> = Vec::new();
    for r in &rows {
        taken.push(state_from_limbs(r.sample_id, r.rep_idx, &r.acc, &r.addend));
        left.push(state_from_limbs(r.sample_id, r.rep_idx + 1, &r.next, &r.addend));
    }
    for (s, c) in cases.iter().enumerate() {
        let addend = biguint_to_limbs(&c.r1_in);
        let end = low_register_from_state_hex(&c.y_hex).unwrap();
        left.push(state_from_limbs(s as u32, 0, &biguint_to_limbs(&c.r0_in), &addend));
        taken.push(state_from_limbs(s as u32, 2, &biguint_to_limbs(&end), &addend));
    }
    taken.sort();
    left.sort();
    assert_eq!(taken, left);
}

#[test]
fn columns_of_a_proof_of_additions() {
    for mode in MODES {
        let t = IaddTrace::build(&cases(), 2, 64, mode).unwrap();
        let (public, hidden) = (tree0_columns(mode), t.tree1_columns(mode));
        if mode == RangeCheckMode::Lookup {
            assert_eq!(public.len(), 3);
            assert_eq!((public[0].len(), public[1].len(), public[2].len()), (1 << 18, 1 << 11, 64));
            assert_eq!(public[1][2000], 2000);
            assert_eq!(hidden.len(), 60);
            assert_eq!(hidden[59].iter().sum::<u32>(), 4);
        } else {
            assert!(public.is_empty());
            assert_eq!(hidden.len(), trace_columns(mode));
        }
        assert_eq!(hidden[0][..5], [1, 1, 1, 1, 0]);
    }
}
