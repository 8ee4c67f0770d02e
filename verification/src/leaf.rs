//! A leaf of the recursion: the parameters of the shard that it verifies and
//! the values that it commits to.
use vstd::prelude::*;

use crate::circuit_statement::{GateAirStatement, ShotLimbs};
use crate::field::P;
use crate::program::ProgramTable;
use crate::recursion_consts::{blowup_supported, pcs_for_blowup, pcs_of, PcsConfig};
use crate::shard::copy_of;

verus! {

/// The rows of the program table, column by column, one entry per slot.
pub struct ProgramRows {
    pub slot: Vec<u32>,
    pub opcode_scalar: Vec<u32>,
    pub target: Vec<u32>,
    pub ctrl_a: Vec<u32>,
    pub ctrl_b: Vec<u32>,
    /// How often a slot is executed; zero on padding.
    pub multiplicity: Vec<u32>,
}

impl ProgramRows {
    /// All columns are of one length.
    pub open spec fn wf(&self) -> bool {
        let n = self.slot@.len();
        &&& self.opcode_scalar@.len() == n
        &&& self.target@.len() == n
        &&& self.ctrl_a@.len() == n
        &&& self.ctrl_b@.len() == n
        &&& self.multiplicity@.len() == n
    }

    /// The rows of a program table.
    pub open spec fn of_table(&self, t: &ProgramTable) -> bool {
        &&& self.slot@ == t.slot@
        &&& self.opcode_scalar@ == t.opcode_scalar@
        &&& self.target@ == t.target@
        &&& self.ctrl_a@ == t.ctrl_a@
        &&& self.ctrl_b@ == t.ctrl_b@
        &&& self.multiplicity@ == t.multiplicity@
    }
}

/// The rows of a program table, for the leaf.
pub fn program_rows_from_table(t: &ProgramTable) -> (r: ProgramRows)
    ensures
        r.of_table(t),
{
    ProgramRows {
        slot: copy_of(&t.slot),
        opcode_scalar: copy_of(&t.opcode_scalar),
        target: copy_of(&t.target),
        ctrl_a: copy_of(&t.ctrl_a),
        ctrl_b: copy_of(&t.ctrl_b),
        multiplicity: copy_of(&t.multiplicity),
    }
}

/// The commitment parameters of a proof whose largest column has exponent
/// `trace_log_size`.
pub fn leaf_pcs_config(trace_log_size: u32, log_blowup_factor: u32) -> (r: PcsConfig)
    requires
        blowup_supported(log_blowup_factor),
        trace_log_size + log_blowup_factor <= u32::MAX,
    ensures
        r == pcs_of(trace_log_size, log_blowup_factor),
{
    pcs_for_blowup(trace_log_size, log_blowup_factor)
}

/// The nonce that blinds the commitment to the program: two field elements. All
/// leaves of a run share it, so that they commit to the program alike.
pub fn hiding_nonce() -> (r: [u32; 2])
    ensures
        r@ == seq![0x1234_5678u32, 0x1abc_def1u32],
        r@[0] < P && r@[1] < P,
{
    let r: [u32; 2] = [0x1234_5678, 0x1abc_def1];
    assert(r@ =~= seq![0x1234_5678u32, 0x1abc_def1u32]);
    r
}

/// The public parameters of the shard that a leaf verifies.
pub struct GateAirLeafParams {
    pub main_log_size: u32,
    pub program_log_size: u32,
    pub qubitmem_log_size: u32,
    /// The size of the range table: a trusted choice, never read from a proof.
    pub rc_log: u32,
    pub preprocessed_root: [u32; 8],
    pub qubitmem: Vec<ShotLimbs>,
    pub total_pc: u32,
    pub program: ProgramRows,
    pub nonce: [u32; 2],
}

impl GateAirLeafParams {
    /// The statement that the leaf proves.
    pub fn statement(self) -> (r: GateAirStatement)
        requires
            self.rc_log <= 30,
            self.program.wf(),
            self.qubitmem@.len() <= u32::MAX,
        ensures
            r.wf(),
            r.sized(self.main_log_size, self.program_log_size, self.qubitmem_log_size, self.rc_log),
            r.shows(self.preprocessed_root, self.qubitmem, self.total_pc, &self.program, self.nonce),
    {
        GateAirStatement::new(
            self.main_log_size,
            self.program_log_size,
            self.qubitmem_log_size,
            self.rc_log,
            self.preprocessed_root,
            self.qubitmem,
            self.total_pc,
            &self.program,
            self.nonce,
        )
    }
}

/// The limbs of the first `n` shots: of each its first state, then its last.
pub open spec fn flat_limbs(b: Seq<ShotLimbs>, n: nat) -> Seq<u32>
    decreases n,
{
    if n == 0 {
        Seq::empty()
    } else {
        flat_limbs(b, (n - 1) as nat) + b[n - 1].0@ + b[n - 1].1@
    }
}

/// Appends the limbs of one state.
fn push_limbs(v: &mut Vec<u32>, limbs: &[u32; 32])
    ensures
        final(v)@ == old(v)@ + limbs@,
{
    let mut i: usize = 0;
    while i < 32
        invariant
            i <= 32,
            v@ == old(v)@ + limbs@.take(i as int),
        decreases 32 - i,
    {
        v.push(limbs[i]);
        assert(limbs@.take(i + 1) =~= limbs@.take(i as int).push(limbs@[i as int]));
        assert(old(v)@ + limbs@.take(i + 1) =~= (old(v)@ + limbs@.take(i as int)).push(
            limbs@[i as int],
        ));
        i += 1;
    }
    assert(limbs@.take(32) =~= limbs@);
}

/// The values that are hashed into the leaf's output: the commitment to the
/// program, then the first and last state of every shot.
pub fn output_preimage(h_p: &[u32; 8], boundary: &[ShotLimbs]) -> (r: Vec<u32>)
    ensures
        r@ == h_p@ + flat_limbs(boundary@, boundary@.len()),
{
    let mut r: Vec<u32> = Vec::new();
    let mut i: usize = 0;
    while i < 8
        invariant
            i <= 8,
            r@ == h_p@.take(i as int),
        decreases 8 - i,
    {
        r.push(h_p[i]);
        assert(h_p@.take(i + 1) =~= h_p@.take(i as int).push(h_p@[i as int]));
        i += 1;
    }
    assert(h_p@.take(8) =~= h_p@);
    let mut s: usize = 0;
    assert(h_p@ + flat_limbs(boundary@, 0) =~= h_p@);
    while s < boundary.len()
        invariant
            s <= boundary@.len(),
            r@ == h_p@ + flat_limbs(boundary@, s as nat),
        decreases boundary.len() - s,
    {
        push_limbs(&mut r, &boundary[s].0);
        push_limbs(&mut r, &boundary[s].1);
        assert(r@ =~= h_p@ + (flat_limbs(boundary@, s as nat) + boundary@[s as int].0@
            + boundary@[s as int].1@));
        s += 1;
    }
    r
}

} // verus!
