//! Reading circuits and states.
use gate_air::circuit::{
    bits_to_limbs, limbs_to_bits, limbs_to_state, parse_gtv1, parse_gtv1_bytes, qubit_decode,
    state_to_limbs, Gate, ParseError, NO_CTRL, N_LIMBS, N_QUBITS, OP_CNOT, OP_NOT, OP_TOFFOLI,
    STATE_BYTES,
};
use gate_air::program::{build_program_table, program_log_size};
use gate_air::sizes::{padded_size, power_of_two};

fn same_gate(g: &Gate, opcode: u8, target: u16, ctrl_a: u16, ctrl_b: u16) -> bool {
    g.opcode == opcode && g.target == target && g.ctrl_a == ctrl_a && g.ctrl_b == ctrl_b
}

#[test]
fn circuit_of_two_gates() {
    let text = "47545631020000000300050001000200010007010000ffff";
    let gates = parse_gtv1(text).unwrap();
    assert_eq!(gates.len(), 2);
    assert!(same_gate(&gates[0], OP_TOFFOLI, 5, 1, 2));
    assert!(same_gate(&gates[1], OP_NOT, 0x0107, 0, NO_CTRL));
}

#[test]
fn circuit_in_upper_case() {
    let gates = parse_gtv1("47545631010000000200FF0101000000").unwrap();
    assert_eq!(gates.len(), 1);
    assert!(same_gate(&gates[0], OP_CNOT, 511, 1, 0));
}

#[test]
fn empty_circuit_is_read() {
    assert_eq!(parse_gtv1("4754563100000000").unwrap().len(), 0);
}

#[test]
fn text_that_is_no_hex() {
    assert!(matches!(parse_gtv1("4754563"), Err(ParseError::Hex)));
    assert!(matches!(
        parse_gtv1("475456310000000g"),
        Err(ParseError::Hex)
    ));
}

#[test]
fn circuit_without_magic() {
    assert!(matches!(
        parse_gtv1("4754563200000000"),
        Err(ParseError::BadMagic)
    ));
    assert!(matches!(parse_gtv1("47545631"), Err(ParseError::BadMagic)));
    assert!(matches!(parse_gtv1_bytes(&[]), Err(ParseError::BadMagic)));
}

#[test]
fn circuit_with_wrong_length() {
    assert!(matches!(
        parse_gtv1("47545631020000000300050001000200"),
        Err(ParseError::LengthMismatch {
            got: 16,
            expected: 24
        })
    ));
    assert!(matches!(
        parse_gtv1_bytes(&[0x47, 0x54, 0x56, 0x31, 0xff, 0xff, 0xff, 0xff]),
        Err(ParseError::LengthMismatch {
            got: 8,
            expected: 34_359_738_368
        })
    ));
}

#[test]
fn state_round_trip() {
    let mut bytes = vec![0u8; STATE_BYTES];
    for i in 0..STATE_BYTES {
        bytes[i] = (37 * i + 11) as u8;
    }
    let limbs = state_to_limbs(&bytes);
    assert_eq!(limbs[0], 11 + 256 * 48);
    assert_eq!(limbs_to_state(&limbs).to_vec(), bytes);
    let bits = limbs_to_bits(&limbs);
    assert_eq!(bits.len(), N_QUBITS);
    for q in 0..N_QUBITS {
        assert_eq!(bits[q], (bytes[q / 8] >> (q % 8)) & 1 == 1);
    }
    assert_eq!(bits_to_limbs(&bits), limbs);
}

#[test]
fn one_qubit_one_bit() {
    let mut limbs = [0u32; N_LIMBS];
    limbs[3] = 0x8001;
    let bits = limbs_to_bits(&limbs);
    let set: Vec<usize> = (0..N_QUBITS).filter(|q| bits[*q]).collect();
    assert_eq!(set, vec![48, 63]);
    assert_eq!(qubit_decode(48), (3, 0, 1));
    assert_eq!(qubit_decode(63), (3, 15, 0x8000));
    assert_eq!(qubit_decode(511), (31, 15, 0x8000));
}

#[test]
fn sizes_are_powers_of_two() {
    assert_eq!(padded_size(0, 6), (64, 6));
    assert_eq!(padded_size(64, 6), (64, 6));
    assert_eq!(padded_size(65, 6), (128, 7));
    assert_eq!(padded_size(1000, 4), (1024, 10));
    assert_eq!(power_of_two(0), 1);
    assert_eq!(power_of_two(25), 33_554_432);
}

#[test]
fn program_table_of_three_gates() {
    let gates = vec![
        Gate {
            opcode: OP_TOFFOLI,
            target: 5,
            ctrl_a: 1,
            ctrl_b: 2,
        },
        Gate {
            opcode: OP_CNOT,
            target: 6,
            ctrl_a: 3,
            ctrl_b: NO_CTRL,
        },
        Gate {
            opcode: OP_NOT,
            target: 7,
            ctrl_a: NO_CTRL,
            ctrl_b: NO_CTRL,
        },
    ];
    let t = build_program_table(&gates, 4, 5);
    let log = program_log_size(3);
    assert_eq!(t.log_size, log);
    assert_eq!(t.slot.len(), 1 << log);
    assert_eq!(&t.opcode_scalar[..3], &[3, 2, 1]);
    assert_eq!(&t.target[..3], &[5, 6, 7]);
    assert_eq!(&t.ctrl_a[..3], &[1, 3, 0]);
    assert_eq!(&t.ctrl_b[..3], &[2, 0, 0]);
    assert_eq!(&t.multiplicity[..3], &[20, 20, 20]);
    for i in 3..t.slot.len() {
        assert_eq!(t.multiplicity[i], 0);
        assert_eq!(t.slot[i], i as u32);
    }
}
