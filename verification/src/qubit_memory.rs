//! The qubit-memory encoding: one trace row per gate, each row holding the
//! accesses that its gate makes to single qubits.
//!
//! An access names the qubit, the time of the previous access to it, the value
//! found, and the time that passed since. Step `pc` happens at time `pc + 1`;
//! time zero is the state before the first step.
use vstd::arithmetic::power2::pow2;
use vstd::prelude::*;

use crate::circuit::{
    bits_to_limbs, is_first_unknown, lemma_run_step, lemma_state_limbs, limb_bytes,
    limbs_to_bits, limbs_to_state, run, state_limbs, state_to_limbs, Gate, TestCase, N_LIMBS,
    N_QUBITS, OP_CNOT, OP_NOP, OP_NOT, OP_TOFFOLI, STATE_BYTES,
};
use crate::hexes::{hex_bytes, hex_decode, hex_encode, hex_text, is_hex};
use crate::sizes::{is_padded_log, padded_size, LOG_N_LANES};
use crate::whole_state::{
    end_text, error_of, flag, flip_delta, is_first_refused, lemma_flat_index, shot_outcome, text_state, Outcome,
    SimError,
};

verus! {

/// One access to one qubit; all zero where a gate does not make it.
#[derive(Clone, Copy, Debug, PartialEq, Eq, Structural)]
pub struct AccessCols {
    pub addr: u32,
    /// When the qubit was last accessed, or zero.
    pub prev_ts: u32,
    /// The value found.
    pub v: u32,
    /// `pc - prev_ts`.
    pub d: u32,
}

/// One row of the main trace.
#[derive(Clone, Copy, Debug, PartialEq, Eq, Structural)]
pub struct Row {
    pub enabler: u32,
    pub is_nop: u32,
    pub is_not: u32,
    pub is_cnot: u32,
    pub is_toffoli: u32,
    pub shot_id: u32,
    pub pc: u32,
    pub target: AccessCols,
    pub ctrl_a: AccessCols,
    pub ctrl_b: AccessCols,
    pub ab: u32,
    pub fire: u32,
    /// The change of the target bit, as a base-field element.
    pub delta: u32,
}

pub open spec fn no_access() -> AccessCols {
    AccessCols { addr: 0, prev_ts: 0, v: 0, d: 0 }
}

pub open spec fn padding_row() -> Row {
    Row {
        enabler: 0,
        is_nop: 0,
        is_not: 0,
        is_cnot: 0,
        is_toffoli: 0,
        shot_id: 0,
        pc: 0,
        target: no_access(),
        ctrl_a: no_access(),
        ctrl_b: no_access(),
        ab: 0,
        fire: 0,
        delta: 0,
    }
}

impl AccessCols {
    pub fn inactive() -> (r: AccessCols)
        ensures
            r == no_access(),
    {
        AccessCols { addr: 0, prev_ts: 0, v: 0, d: 0 }
    }
}

impl Row {
    pub fn padding() -> (r: Row)
        ensures
            r == padding_row(),
    {
        Row {
            enabler: 0,
            is_nop: 0,
            is_not: 0,
            is_cnot: 0,
            is_toffoli: 0,
            shot_id: 0,
            pc: 0,
            target: AccessCols::inactive(),
            ctrl_a: AccessCols::inactive(),
            ctrl_b: AccessCols::inactive(),
            ab: 0,
            fire: 0,
            delta: 0,
        }
    }
}

impl Gate {
    /// This gate can be run in this encoding: it is known, its qubits exist, and
    /// it does not access a qubit twice.
    pub open spec fn runnable(self) -> bool {
        &&& self.known()
        &&& self.operands_ok()
        &&& self.a_active() ==> self.ctrl_a != self.target
        &&& self.b_active() ==> self.ctrl_b != self.target && self.ctrl_b != self.ctrl_a
    }

    /// The times of last access after this gate's accesses at time `ts`.
    pub open spec fn touch(self, last: Seq<u32>, ts: u32) -> Seq<u32> {
        let l1 = last.update(self.target as int, ts);
        let l2 = if self.a_active() {
            l1.update(self.ctrl_a as int, ts)
        } else {
            l1
        };
        if self.b_active() {
            l2.update(self.ctrl_b as int, ts)
        } else {
            l2
        }
    }
}

/// The access to `addr` at step `pc`.
pub open spec fn access_of(addr: u16, s: Seq<bool>, last: Seq<u32>, pc: int) -> AccessCols {
    AccessCols {
        addr: addr as u32,
        prev_ts: last[addr as int],
        v: flag(s[addr as int]),
        d: (pc - last[addr as int]) as u32,
    }
}

/// The row of gate `g` at step `pc` of shot `shot`, in state `s`, with the
/// qubits last accessed at `last`.
pub open spec fn row_of(g: Gate, s: Seq<bool>, last: Seq<u32>, shot: int, pc: int) -> Row {
    let a = if g.a_active() {
        access_of(g.ctrl_a, s, last, pc)
    } else {
        no_access()
    };
    let b = if g.b_active() {
        access_of(g.ctrl_b, s, last, pc)
    } else {
        no_access()
    };
    Row {
        enabler: 1,
        is_nop: flag(g.opcode == OP_NOP),
        is_not: flag(g.opcode == OP_NOT),
        is_cnot: flag(g.opcode == OP_CNOT),
        is_toffoli: flag(g.opcode == OP_TOFFOLI),
        shot_id: shot as u32,
        pc: pc as u32,
        target: access_of(g.target, s, last, pc),
        ctrl_a: a,
        ctrl_b: b,
        ab: flag(a.v == 1 && b.v == 1),
        fire: flag(g.fires(s)),
        delta: flip_delta(s[g.target as int], g.fires(s)),
    }
}

/// When each qubit was last accessed, after `n` steps.
pub open spec fn last_access(gates: Seq<Gate>, n: nat) -> Seq<u32>
    decreases n,
{
    if n == 0 {
        Seq::new(N_QUBITS as nat, |q: int| 0u32)
    } else {
        gates[(n - 1) % gates.len() as int].touch(last_access(gates, (n - 1) as nat), n as u32)
    }
}

/// The rows of the first `n` steps from state `s`.
pub open spec fn rows_of(rows: Seq<Row>, gates: Seq<Gate>, s: Seq<bool>, shot: int, n: nat) -> bool {
    forall|j: int|
        0 <= j < n ==> #[trigger] rows[j] == row_of(
            gates[j % gates.len() as int],
            run(gates, s, j as nat),
            last_access(gates, j as nat),
            shot,
            j,
        )
}

pub open spec fn all_runnable(gates: Seq<Gate>) -> bool {
    forall|i: int| 0 <= i < gates.len() ==> (#[trigger] gates[i]).runnable()
}

fn access(addr: u16, bits: &Vec<bool>, last: &Vec<u32>, pc: u32) -> (r: AccessCols)
    requires
        addr < N_QUBITS,
        bits@.len() == N_QUBITS,
        last@.len() == N_QUBITS,
        last@[addr as int] <= pc,
    ensures
        r == access_of(addr, bits@, last@, pc as int),
{
    let a: usize = addr as usize;
    AccessCols {
        addr: addr as u32,
        prev_ts: last[a],
        v: if bits[a] { 1 } else { 0 },
        d: pc - last[a],
    }
}

/// Makes the row of one gate and performs its accesses.
fn step(gate: &Gate, bits: &mut Vec<bool>, last: &mut Vec<u32>, shot_id: u32, pc: u32) -> (row: Row)
    requires
        gate.runnable(),
        old(bits)@.len() == N_QUBITS,
        old(last)@.len() == N_QUBITS,
        forall|q: int| 0 <= q < N_QUBITS ==> #[trigger] old(last)@[q] <= pc,
        pc < u32::MAX,
    ensures
        row == row_of(*gate, old(bits)@, old(last)@, shot_id as int, pc as int),
        final(bits)@ == gate.apply(old(bits)@),
        final(last)@ == gate.touch(old(last)@, (pc + 1) as u32),
{
    let a_active: bool = gate.opcode == OP_CNOT || gate.opcode == OP_TOFFOLI;
    let b_active: bool = gate.opcode == OP_TOFFOLI;
    let target: AccessCols = access(gate.target, bits, last, pc);
    let ctrl_a: AccessCols = if a_active {
        access(gate.ctrl_a, bits, last, pc)
    } else {
        AccessCols::inactive()
    };
    let ctrl_b: AccessCols = if b_active {
        access(gate.ctrl_b, bits, last, pc)
    } else {
        AccessCols::inactive()
    };
    let ab: u32 = if ctrl_a.v == 1 && ctrl_b.v == 1 { 1 } else { 0 };
    let fire: bool = gate.opcode == OP_NOT || (gate.opcode == OP_CNOT && ctrl_a.v == 1) || (b_active
        && ab == 1);
    let t: usize = gate.target as usize;
    let bit: bool = bits[t];
    let delta: u32 = if !fire {
        0
    } else if bit {
        crate::field::P - 1
    } else {
        1
    };
    bits.set(t, bit != fire);
    last.set(t, pc + 1);
    if a_active {
        last.set(gate.ctrl_a as usize, pc + 1);
    }
    if b_active {
        last.set(gate.ctrl_b as usize, pc + 1);
    }
    Row {
        enabler: 1,
        is_nop: if gate.opcode == OP_NOP { 1 } else { 0 },
        is_not: if gate.opcode == OP_NOT { 1 } else { 0 },
        is_cnot: if gate.opcode == OP_CNOT { 1 } else { 0 },
        is_toffoli: if gate.opcode == OP_TOFFOLI { 1 } else { 0 },
        shot_id,
        pc,
        target,
        ctrl_a,
        ctrl_b,
        ab,
        fire: if fire { 1 } else { 0 },
        delta,
    }
}

/// Accesses happen no later than the steps made.
pub proof fn lemma_last_access(gates: Seq<Gate>, n: nat)
    requires
        gates.len() > 0,
        all_runnable(gates),
        n <= u32::MAX,
    ensures
        last_access(gates, n).len() == N_QUBITS,
        forall|q: int| 0 <= q < N_QUBITS ==> #[trigger] last_access(gates, n)[q] <= n,
    decreases n,
{
    if n > 0 {
        lemma_last_access(gates, (n - 1) as nat);
        let prev = last_access(gates, (n - 1) as nat);
        let i = (n - 1) % gates.len() as int;
        vstd::arithmetic::div_mod::lemma_mod_bound(n - 1, gates.len() as int);
        assert(gates[i].runnable());
        assert forall|q: int| 0 <= q < N_QUBITS implies #[trigger] last_access(gates, n)[q] <= n by {
            assert(prev[q] <= n - 1);
        }
    }
}

/// Runs the circuit `k` times from the state in `bits`, and returns the rows,
/// the last state, and when each qubit was last accessed.
pub fn run_shot(gates: &[Gate], k: usize, shot_id: u32, start: &Vec<bool>) -> (r: (
    Vec<Row>,
    Vec<bool>,
    Vec<u32>,
))
    requires
        all_runnable(gates@),
        start@.len() == N_QUBITS,
        k * gates@.len() < u32::MAX,
    ensures
        r.0@.len() == k * gates@.len(),
        rows_of(r.0@, gates@, start@, shot_id as int, r.0@.len()),
        r.1@ == run(gates@, start@, r.0@.len()),
        r.1@.len() == N_QUBITS,
        r.2@ == last_access(gates@, r.0@.len()),
{
    let n_gates: usize = gates.len();
    let mut rows: Vec<Row> = Vec::new();
    let mut bits: Vec<bool> = Vec::new();
    let mut i: usize = 0;
    while i < N_QUBITS
        invariant
            i <= N_QUBITS == start@.len(),
            bits@.len() == i,
            forall|j: int| 0 <= j < i ==> #[trigger] bits@[j] == start@[j],
        decreases N_QUBITS - i,
    {
        bits.push(start[i]);
        i += 1;
    }
    assert(bits@ =~= start@);
    let mut last: Vec<u32> = vec![0u32; N_QUBITS];
    assert(last@ =~= last_access(gates@, 0));
    let mut rep: usize = 0;
    assert(0 * n_gates == 0) by (nonlinear_arith);
    while rep < k
        invariant
            rep <= k,
            n_gates == gates@.len(),
            all_runnable(gates@),
            k * n_gates < u32::MAX,
            start@.len() == N_QUBITS,
            rows@.len() == rep * n_gates,
            rows_of(rows@, gates@, start@, shot_id as int, rows@.len()),
            bits@ == run(gates@, start@, rows@.len()),
            bits@.len() == N_QUBITS,
            last@ == last_access(gates@, rows@.len()),
        decreases k - rep,
    {
        let mut gi: usize = 0;
        while gi < n_gates
            invariant
                rep < k,
                gi <= n_gates,
                n_gates == gates@.len(),
                all_runnable(gates@),
                k * n_gates < u32::MAX,
                start@.len() == N_QUBITS,
                rows@.len() == rep * n_gates + gi,
                rows_of(rows@, gates@, start@, shot_id as int, rows@.len()),
                bits@ == run(gates@, start@, rows@.len()),
                bits@.len() == N_QUBITS,
                last@ == last_access(gates@, rows@.len()),
            decreases n_gates - gi,
        {
            proof {
                lemma_flat_index(rep as int, k as int, n_gates as int, gi as int);
                lemma_run_step(gates@, start@, rows@.len());
                lemma_last_access(gates@, rows@.len());
                assert(gates@[gi as int].runnable());
            }
            let pc: u32 = rows.len() as u32;
            let row: Row = step(&gates[gi], &mut bits, &mut last, shot_id, pc);
            rows.push(row);
            gi += 1;
        }
        proof {
            assert(rep * n_gates + n_gates == (rep + 1) * n_gates) by (nonlinear_arith);
        }
        rep += 1;
    }
    (rows, bits, last)
}

/// One qubit of one shot: its first and last value, and its last access.
#[derive(Clone, Copy, Debug, PartialEq, Eq, Structural)]
pub struct BoundaryRow {
    pub shot_id: u32,
    pub addr: u32,
    pub x: u32,
    pub y: u32,
    pub ts_last: u32,
}

pub open spec fn blank_boundary() -> BoundaryRow {
    BoundaryRow { shot_id: 0, addr: 0, x: 0, y: 0, ts_last: 0 }
}

/// The boundary rows of all shots, padded to a power of two.
pub struct BoundaryTable {
    pub rows: Vec<BoundaryRow>,
    pub log_size: u32,
    pub n_shots: usize,
}

impl BoundaryTable {
    pub open spec fn sized(&self) -> bool {
        &&& self.rows@.len() == pow2(self.log_size as nat)
        &&& self.n_shots * N_QUBITS <= u32::MAX
        &&& is_padded_log((self.n_shots * N_QUBITS) as nat, LOG_N_LANES as nat, self.log_size as nat)
    }

    /// The rows of `n_shots` shots with nothing known of their values yet.
    pub fn new(n_shots: usize) -> (t: BoundaryTable)
        requires
            n_shots * N_QUBITS <= u32::MAX,
            n_shots * N_QUBITS <= usize::MAX / 2 + 1,
        ensures
            t.sized(),
            t.n_shots == n_shots,
            forall|i: int|
                0 <= i < t.rows@.len() ==> #[trigger] t.rows@[i] == (if i < n_shots * N_QUBITS {
                    BoundaryRow {
                        shot_id: (i / 512) as u32,
                        addr: (i % 512) as u32,
                        x: 0,
                        y: 0,
                        ts_last: 0,
                    }
                } else {
                    blank_boundary()
                }),
    {
        let n_real: usize = n_shots * N_QUBITS;
        let (padded, log_size) = padded_size(n_real, LOG_N_LANES);
        let mut rows: Vec<BoundaryRow> = Vec::new();
        let mut i: usize = 0;
        while i < padded
            invariant
                i <= padded,
                n_real == n_shots * N_QUBITS <= u32::MAX,
                rows@.len() == i,
                forall|j: int|
                    0 <= j < i ==> #[trigger] rows@[j] == (if j < n_real {
                        BoundaryRow {
                            shot_id: (j / 512) as u32,
                            addr: (j % 512) as u32,
                            x: 0,
                            y: 0,
                            ts_last: 0,
                        }
                    } else {
                        blank_boundary()
                    }),
            decreases padded - i,
        {
            if i < n_real {
                rows.push(
                    BoundaryRow {
                        shot_id: (i / N_QUBITS) as u32,
                        addr: (i % N_QUBITS) as u32,
                        x: 0,
                        y: 0,
                        ts_last: 0,
                    },
                );
            } else {
                rows.push(BoundaryRow { shot_id: 0, addr: 0, x: 0, y: 0, ts_last: 0 });
            }
            i += 1;
        }
        BoundaryTable { rows, log_size, n_shots }
    }

    /// The 512 rows of one shot, to be filled.
    pub fn per_shot_mut(&mut self, shot: usize) -> (r: &mut [BoundaryRow])
        requires
            old(self).sized(),
            shot < old(self).n_shots,
        ensures
            r@ == old(self).rows@.subrange(shot * 512, shot * 512 + 512),
            final(r)@.len() == 512 ==> final(self).rows@ == old(self).rows@.take(shot * 512)
                + final(r)@ + old(self).rows@.skip(shot * 512 + 512),
            final(self).log_size == old(self).log_size,
            final(self).n_shots == old(self).n_shots,
    {
        proof {
            assert(shot * 512 + 512 <= self.n_shots * 512);
        }
        let (_, rest) = self.rows.as_mut_slice().split_at_mut(shot * N_QUBITS);
        let (block, _) = rest.split_at_mut(N_QUBITS);
        block
    }
}

/// Why no rows could be built.
#[derive(Debug)]
pub enum RowsError {
    /// The first gate that cannot be run.
    BadGate { index: usize, opcode: u8 },
    /// The first test vector that is refused, and why.
    Shot { shot_id: usize, error: SimError },
}

/// `u` is the first gate that cannot be run.
pub open spec fn is_first_bad(gates: Seq<Gate>, u: int) -> bool {
    &&& 0 <= u < gates.len()
    &&& !gates[u].runnable()
    &&& forall|j: int| 0 <= j < u ==> (#[trigger] gates[j]).runnable()
}

/// The first gate that cannot be run, if there is one.
pub fn first_bad_gate(gates: &[Gate]) -> (r: Option<usize>)
    ensures
        match r {
            Some(u) => is_first_bad(gates@, u as int),
            None => all_runnable(gates@),
        },
{
    let mut i: usize = 0;
    while i < gates.len()
        invariant
            i <= gates@.len(),
            forall|j: int| 0 <= j < i ==> (#[trigger] gates@[j]).runnable(),
        decreases gates.len() - i,
    {
        let g: Gate = gates[i];
        let a_active: bool = g.opcode == OP_CNOT || g.opcode == OP_TOFFOLI;
        let b_active: bool = g.opcode == OP_TOFFOLI;
        let n: u16 = 512;
        if g.opcode > OP_TOFFOLI || g.target >= n || (a_active && (g.ctrl_a >= n || g.ctrl_a
            == g.target)) || (b_active && (g.ctrl_b >= n || g.ctrl_b == g.target || g.ctrl_b
            == g.ctrl_a)) {
            return Some(i);
        }
        i += 1;
    }
    None
}

/// The boundary row of qubit `q` of shot `s`.
pub open spec fn boundary_of(gates: Seq<Gate>, cases: Seq<TestCase>, m: nat, s: int, q: int) -> BoundaryRow {
    BoundaryRow {
        shot_id: s as u32,
        addr: q as u32,
        x: flag(text_state(cases[s].x_hex@)[q]),
        y: flag(text_state(cases[s].y_hex@)[q]),
        ts_last: last_access(gates, m)[q],
    }
}

/// The boundary table of shots that ran `m` steps each.
pub open spec fn is_boundary(t: BoundaryTable, gates: Seq<Gate>, cases: Seq<TestCase>, m: nat) -> bool {
    &&& t.sized()
    &&& t.n_shots == cases.len()
    &&& forall|i: int|
        0 <= i < cases.len() * N_QUBITS ==> #[trigger] t.rows@[i] == boundary_of(
            gates,
            cases,
            m,
            i / 512,
            i % 512,
        )
    &&& forall|i: int|
        cases.len() * N_QUBITS <= i < t.rows@.len() ==> #[trigger] t.rows@[i] == blank_boundary()
}

/// Row `i` is step `i % m` of shot `i / m`.
pub open spec fn all_rows_of(rows: Seq<Row>, gates: Seq<Gate>, cases: Seq<TestCase>, m: int) -> bool {
    forall|i: int|
        0 <= i < rows.len() ==> #[trigger] rows[i] == row_of(
            gates[(i % m) % gates.len() as int],
            run(gates, text_state(cases[i / m].x_hex@), (i % m) as nat),
            last_access(gates, (i % m) as nat),
            i / m,
            i % m,
        )
}

/// A test vector that is refused before any gate is run.
pub open spec fn text_outcome(x: Seq<char>, y: Seq<char>) -> Outcome {
    if !is_hex(x) {
        Outcome::XHex
    } else if !is_hex(y) {
        Outcome::YHex
    } else if hex_bytes(x).len() != STATE_BYTES || hex_bytes(y).len() != STATE_BYTES {
        Outcome::StateLength
    } else {
        Outcome::Accepted
    }
}

/// The states of a test vector, as bits.
pub fn case_bits(case: &TestCase) -> (r: Result<(Vec<bool>, Vec<bool>), SimError>)
    ensures
        r is Ok <==> text_outcome(case.x_hex@, case.y_hex@) is Accepted,
        r matches Ok((x, y)) ==> x@ == text_state(case.x_hex@) && y@ == text_state(case.y_hex@),
        r matches Err(e) ==> error_of(
            text_outcome(case.x_hex@, case.y_hex@),
            e,
            0,
            Seq::empty(),
        ),
{
    let x = match hex_decode(case.x_hex.as_str()) {
        Ok(v) => v,
        Err(_) => {
            return Err(SimError::XHex);
        },
    };
    let y = match hex_decode(case.y_hex.as_str()) {
        Ok(v) => v,
        Err(_) => {
            return Err(SimError::YHex);
        },
    };
    if x.len() != STATE_BYTES || y.len() != STATE_BYTES {
        return Err(SimError::StateLength);
    }
    Ok(
        (
            limbs_to_bits(&state_to_limbs(x.as_slice())),
            limbs_to_bits(&state_to_limbs(y.as_slice())),
        ),
    )
}

fn bits_equal(a: &Vec<bool>, b: &Vec<bool>) -> (r: bool)
    requires
        a@.len() == b@.len(),
    ensures
        r == (a@ == b@),
{
    let mut i: usize = 0;
    while i < a.len()
        invariant
            i <= a@.len() == b@.len(),
            forall|j: int| 0 <= j < i ==> #[trigger] a@[j] == b@[j],
        decreases a.len() - i,
    {
        if a[i] != b[i] {
            return false;
        }
        i += 1;
    }
    assert(a@ =~= b@);
    true
}

/// The text of a state.
fn bits_text(bits: &Vec<bool>) -> (r: String)
    requires
        bits@.len() == N_QUBITS,
    ensures
        r@ == hex_text(limb_bytes(state_limbs(bits@))),
{
    let limbs: [u32; N_LIMBS] = bits_to_limbs(bits);
    proof {
        lemma_state_limbs(limbs@);
    }
    hex_encode(limbs_to_state(&limbs).as_slice())
}

/// Writes the boundary rows of one shot.
fn fill_boundary(
    block: &mut [BoundaryRow],
    shot_id: u32,
    x: &Vec<bool>,
    y: &Vec<bool>,
    last: &Vec<u32>,
)
    requires
        old(block)@.len() == 512,
        x@.len() == 512,
        y@.len() == 512,
        last@.len() == 512,
    ensures
        final(block)@.len() == 512,
        forall|q: int|
            0 <= q < 512 ==> #[trigger] final(block)@[q] == (BoundaryRow {
                shot_id,
                addr: q as u32,
                x: flag(x@[q]),
                y: flag(y@[q]),
                ts_last: last@[q],
            }),
{
    let mut q: usize = 0;
    while q < 512
        invariant
            q <= 512,
            block@.len() == 512,
            x@.len() == 512,
            y@.len() == 512,
            last@.len() == 512,
            forall|j: int|
                0 <= j < q ==> #[trigger] block@[j] == (BoundaryRow {
                    shot_id,
                    addr: j as u32,
                    x: flag(x@[j]),
                    y: flag(y@[j]),
                    ts_last: last@[j],
                }),
        decreases 512 - q,
    {
        block[q] = BoundaryRow {
            shot_id,
            addr: q as u32,
            x: if x[q] { 1 } else { 0 },
            y: if y[q] { 1 } else { 0 },
            ts_last: last[q],
        };
        q += 1;
    }
}

/// The rows and the boundary of a circuit that is run `k` times on each test vector,
/// all of which end in their expected states. The steps of a shot fit a word.
pub open spec fn are_built(
    rows: Seq<Row>,
    boundary: &BoundaryTable,
    gates: Seq<Gate>,
    cases: Seq<TestCase>,
    k: nat,
) -> bool {
    &&& k > 0
    &&& gates.len() > 0
    &&& k * gates.len() < u32::MAX
    &&& all_runnable(gates)
    &&& forall|s: int| !#[trigger] is_first_refused(gates, k, cases, s)
    &&& rows.len() == cases.len() * (k * gates.len())
    &&& all_rows_of(rows, gates, cases, (k * gates.len()) as int)
    &&& is_boundary(*boundary, gates, cases, k * gates.len())
}

/// What `build_rows` promises: the rows, or the first gate that cannot be run, or the
/// first test vector that is refused.
pub open spec fn rows_outcome(
    gates: Seq<Gate>,
    cases: Seq<TestCase>,
    k: nat,
    r: Result<(Vec<Row>, BoundaryTable), RowsError>,
) -> bool {
    match r {
        Ok((rows, boundary)) => are_built(rows@, &boundary, gates, cases, k),
        Err(RowsError::BadGate { index, opcode }) => is_first_bad(gates, index as int)
            && opcode == gates[index as int].opcode,
        Err(RowsError::Shot { shot_id, error }) => all_runnable(gates) && is_first_refused(
            gates,
            k,
            cases,
            shot_id as int,
        ) && error_of(
            shot_outcome(
                gates,
                k,
                cases[shot_id as int].x_hex@,
                cases[shot_id as int].y_hex@,
            ),
            error,
            shot_id as int,
            end_text(gates, k, cases[shot_id as int].x_hex@),
        ),
    }
}

/// Builds the rows and the boundary of all shots: runs the circuit `k` times on
/// each test vector and compares where it ends with the expected state.
pub fn build_rows(gates: &[Gate], cases: &[TestCase], k: usize) -> (r: Result<
    (Vec<Row>, BoundaryTable),
    RowsError,
>)
    requires
        k > 0,
        gates@.len() > 0,
        k * gates@.len() < u32::MAX,
        cases@.len() * (k * gates@.len()) <= usize::MAX,
        cases@.len() * N_QUBITS <= u32::MAX,
        cases@.len() * N_QUBITS <= usize::MAX / 2 + 1,
    ensures
        rows_outcome(gates@, cases@, k as nat, r),
{
    match first_bad_gate(gates) {
        Some(index) => {
            return Err(RowsError::BadGate { index, opcode: gates[index].opcode });
        },
        None => {},
    }
    let ghost m = k * gates@.len();
    proof {
        assert(m > 0) by (nonlinear_arith)
            requires
                k > 0,
                gates@.len() > 0,
                m == k * gates@.len(),
        ;
        assert forall|u: int| !#[trigger] is_first_unknown(gates@, u) by {
            if is_first_unknown(gates@, u) {
                assert(gates@[u].runnable());
            }
        }
    }
    let mut rows: Vec<Row> = Vec::new();
    let mut boundary: BoundaryTable = BoundaryTable::new(cases.len());
    let mut s: usize = 0;
    while s < cases.len()
        invariant
            s <= cases@.len(),
            k > 0,
            gates@.len() > 0,
            m == k * gates@.len(),
            0 < m < u32::MAX,
            cases@.len() * m <= usize::MAX,
            cases@.len() * N_QUBITS <= u32::MAX,
            all_runnable(gates@),
            forall|u: int| !#[trigger] is_first_unknown(gates@, u),
            forall|j: int|
                0 <= j < s ==> shot_outcome(
                    gates@,
                    k as nat,
                    (#[trigger] cases@[j]).x_hex@,
                    cases@[j].y_hex@,
                ) is Accepted,
            rows@.len() == s * m,
            all_rows_of(rows@, gates@, cases@, m),
            boundary.sized(),
            boundary.n_shots == cases@.len(),
            forall|i: int|
                0 <= i < s * 512 ==> #[trigger] boundary.rows@[i] == boundary_of(
                    gates@,
                    cases@,
                    m as nat,
                    i / 512,
                    i % 512,
                ),
            forall|i: int|
                cases@.len() * 512 <= i < boundary.rows@.len() ==> #[trigger] boundary.rows@[i]
                    == blank_boundary(),
        decreases cases.len() - s,
    {
        proof {
            assert((s + 1) * m <= cases@.len() * m && (s + 1) * m == s * m + m) by (nonlinear_arith)
                requires
                    0 <= s < cases@.len(),
                    m > 0,
            ;
        }
        let (x, y) = match case_bits(&cases[s]) {
            Ok(v) => v,
            Err(error) => {
                assert(is_first_refused(gates@, k as nat, cases@, s as int));
                return Err(RowsError::Shot { shot_id: s, error });
            },
        };
        let (mut shot_rows, end, last) = run_shot(gates, k, s as u32, &x);
        proof {
            lemma_last_access(gates@, m as nat);
        }
        if !bits_equal(&end, &y) {
            assert(is_first_refused(gates@, k as nat, cases@, s as int));
            return Err(
                RowsError::Shot {
                    shot_id: s,
                    error: SimError::FinalState { shot_id: s, got: bits_text(&end) },
                },
            );
        }
        let ghost r0 = rows@;
        let ghost b = shot_rows@;
        rows.append(&mut shot_rows);
        proof {
            assert forall|i: int| 0 <= i < rows@.len() implies #[trigger] rows@[i] == row_of(
                gates@[(i % m) % gates@.len() as int],
                run(gates@, text_state(cases@[i / m].x_hex@), (i % m) as nat),
                last_access(gates@, (i % m) as nat),
                i / m,
                i % m,
            ) by {
                if i < r0.len() {
                    assert(rows@[i] == r0[i]);
                } else {
                    let j = i - s * m;
                    lemma_flat_index(s as int, s + 1, m, j);
                    assert(rows@[i] == b[j]);
                }
            }
        }
        let ghost t0 = boundary.rows@;
        let block = boundary.per_shot_mut(s);
        fill_boundary(block, s as u32, &x, &y, &last);
        proof {
            assert forall|i: int| 0 <= i < (s + 1) * 512 implies #[trigger] boundary.rows@[i]
                == boundary_of(gates@, cases@, m as nat, i / 512, i % 512) by {
                if i < s * 512 {
                    assert(boundary.rows@[i] == t0[i]);
                } else {
                    assert(i / 512 == s && i % 512 == i - s * 512);
                }
            }
            assert forall|i: int|
                cases@.len() * 512 <= i < boundary.rows@.len() implies #[trigger] boundary.rows@[i]
                == blank_boundary() by {
                assert(boundary.rows@[i] == t0[i]);
            }
        }
        s += 1;
    }
    proof {
        assert forall|j: int| !#[trigger] is_first_refused(gates@, k as nat, cases@, j) by {
            if 0 <= j < cases@.len() {
                assert(shot_outcome(gates@, k as nat, cases@[j].x_hex@, cases@[j].y_hex@) is Accepted);
            }
        }
    }
    Ok((rows, boundary))
}

} // verus!
