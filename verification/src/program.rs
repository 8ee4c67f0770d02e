//! The program table: one row per gate of the circuit, padded to a power of two.
use vstd::arithmetic::power2::{lemma2_to64, lemma_pow2_strictly_increases, pow2};
use vstd::prelude::*;

use crate::circuit::{Gate, OP_CNOT, OP_TOFFOLI};
use crate::sizes::{is_padded_log, padded_size, LOG_N_LANES};

verus! {

impl Gate {
    /// The opcode as the tables hold it: a gate of no known kind counts as one that does nothing.
    pub open spec fn scalar(self) -> u32 {
        if self.known() {
            self.opcode as u32
        } else {
            0
        }
    }

    /// The operands as the tables hold them: zero for a control that is not read.
    pub open spec fn a_operand(self) -> u32 {
        if self.a_active() {
            self.ctrl_a as u32
        } else {
            0
        }
    }

    pub open spec fn b_operand(self) -> u32 {
        if self.b_active() {
            self.ctrl_b as u32
        } else {
            0
        }
    }
}

/// The columns of the program table.
pub struct ProgramTable {
    pub log_size: u32,
    pub slot: Vec<u32>,
    pub opcode_scalar: Vec<u32>,
    pub target: Vec<u32>,
    pub ctrl_a: Vec<u32>,
    pub ctrl_b: Vec<u32>,
    /// How often a slot is executed; zero on padding.
    pub multiplicity: Vec<u32>,
}

impl ProgramTable {
    pub open spec fn sized(&self) -> bool {
        let len = pow2(self.log_size as nat);
        &&& self.slot@.len() == len
        &&& self.opcode_scalar@.len() == len
        &&& self.target@.len() == len
        &&& self.ctrl_a@.len() == len
        &&& self.ctrl_b@.len() == len
        &&& self.multiplicity@.len() == len
    }

    /// Slot `i` holds gate `g`, executed `mult` times.
    pub open spec fn holds(&self, i: int, g: Gate, mult: u32) -> bool {
        &&& self.opcode_scalar@[i] == g.scalar()
        &&& self.target@[i] == g.target
        &&& self.ctrl_a@[i] == g.a_operand()
        &&& self.ctrl_b@[i] == g.b_operand()
        &&& self.multiplicity@[i] == mult
    }

    /// Slot `i` is padding.
    pub open spec fn pads(&self, i: int) -> bool {
        &&& self.opcode_scalar@[i] == 0
        &&& self.target@[i] == 0
        &&& self.ctrl_a@[i] == 0
        &&& self.ctrl_b@[i] == 0
        &&& self.multiplicity@[i] == 0
    }

    /// The table of a circuit each of whose gates is executed `mult` times.
    pub open spec fn describes(&self, gates: Seq<Gate>, mult: u32) -> bool {
        &&& self.sized()
        &&& is_padded_log(gates.len(), LOG_N_LANES as nat, self.log_size as nat)
        &&& forall|i: int| 0 <= i < self.slot@.len() ==> #[trigger] self.slot@[i] == i
        &&& forall|i: int| 0 <= i < gates.len() ==> self.holds(i, #[trigger] gates[i], mult)
        &&& forall|i: int| gates.len() <= i < self.slot@.len() ==> #[trigger] self.pads(i)
    }
}

/// The exponent of the program table's size.
pub fn program_log_size(n_gates: usize) -> (log: u32)
    requires
        n_gates <= usize::MAX / 2 + 1,
    ensures
        is_padded_log(n_gates as nat, LOG_N_LANES as nat, log as nat),
{
    padded_size(n_gates, LOG_N_LANES).1
}

/// The program table of a circuit that runs `k` times on each of `samples` inputs.
pub fn build_program_table(gates: &[Gate], samples: usize, k: usize) -> (t: ProgramTable)
    requires
        gates@.len() <= 0x1_0000_0000,
        gates@.len() <= usize::MAX / 2 + 1,
        samples * k <= u32::MAX,
    ensures
        t.describes(gates@, (samples * k) as u32),
{
    let n_gates: usize = gates.len();
    let (padded, log_size) = padded_size(n_gates, LOG_N_LANES);
    proof {
        lemma2_to64();
        if log_size > 32 {
            if log_size > 33 {
                lemma_pow2_strictly_increases(32, (log_size - 1) as nat);
            }
        } else if log_size < 32 {
            lemma_pow2_strictly_increases(log_size as nat, 32);
        }
        assert(padded <= 0x1_0000_0000);
    }
    let mult: u32 = (samples * k) as u32;
    let mut t = ProgramTable {
        log_size,
        slot: Vec::new(),
        opcode_scalar: Vec::new(),
        target: Vec::new(),
        ctrl_a: Vec::new(),
        ctrl_b: Vec::new(),
        multiplicity: Vec::new(),
    };
    let mut i: usize = 0;
    while i < padded
        invariant
            i <= padded <= 0x1_0000_0000,
            n_gates == gates@.len() <= padded,
            t.log_size == log_size,
            t.slot@.len() == i,
            t.opcode_scalar@.len() == i,
            t.target@.len() == i,
            t.ctrl_a@.len() == i,
            t.ctrl_b@.len() == i,
            t.multiplicity@.len() == i,
            forall|j: int| 0 <= j < i ==> #[trigger] t.slot@[j] == j,
            forall|j: int| 0 <= j < i && j < n_gates ==> t.holds(j, #[trigger] gates@[j], mult),
            forall|j: int| n_gates <= j < i ==> #[trigger] t.pads(j),
        decreases padded - i,
    {
        let ghost t0 = t;
        t.slot.push(i as u32);
        if i < n_gates {
            let g: Gate = gates[i];
            let a_active: bool = g.opcode == OP_CNOT || g.opcode == OP_TOFFOLI;
            let b_active: bool = g.opcode == OP_TOFFOLI;
            t.opcode_scalar.push(if g.opcode <= OP_TOFFOLI { g.opcode as u32 } else { 0 });
            t.target.push(g.target as u32);
            t.ctrl_a.push(if a_active { g.ctrl_a as u32 } else { 0 });
            t.ctrl_b.push(if b_active { g.ctrl_b as u32 } else { 0 });
            t.multiplicity.push(mult);
        } else {
            t.opcode_scalar.push(0);
            t.target.push(0);
            t.ctrl_a.push(0);
            t.ctrl_b.push(0);
            t.multiplicity.push(0);
        }
        proof {
            assert forall|j: int| n_gates <= j < i + 1 implies #[trigger] t.pads(j) by {
                if j < i {
                    assert(t0.pads(j));
                }
            }
        }
        i += 1;
    }
    t
}

} // verus!
