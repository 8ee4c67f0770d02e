//! The whole-state encoding: one trace row per gate, each row holding the
//! complete state before and after its gate.
//!
//! A row reads up to three qubits. A read splits the limb that holds its qubit
//! into the bits below, the bit itself and the bits above, and looks those
//! parts up in fixed tables.
use vstd::arithmetic::power2::{lemma2_to64, lemma_pow2_unfold};
use vstd::prelude::*;

use crate::circuit::{
    byte_limbs, is_first_unknown, lemma_clear_bit, lemma_high_part, lemma_mask, lemma_run_step,
    lemma_set_bit, lemma_split, lemma_state_bytes_equal, lemma_state_limbs, limb_bytes, limb_state,
    limbs_to_state, limbs_wf, operands_valid, qubit_decode, run, state_limbs, state_to_limbs,
    weight, Gate, TestCase, LIMB_BITS, N_LIMBS, N_QUBITS, OP_CNOT, OP_NOP, OP_NOT, OP_TOFFOLI,
    STATE_BYTES,
};
use crate::field::P;
use crate::hexes::{hex_bytes, hex_decode, hex_encode, hex_text, is_hex};

verus! {

/// Both range tables have `2^16` rows.
pub const RC_LOG_SIZE: u32 = 16;

pub const RC_SIZE: usize = 0x1_0000;

/// The decoded read of one qubit.
#[derive(Clone, Copy)]
pub struct ReadCols {
    /// One where a row makes this read, else zero.
    pub active: u32,
    pub q: u32,
    pub limb_idx: u32,
    pub bit_pos: u32,
    /// `2^bit_pos`.
    pub mask: u32,
    /// One at the selected limb, zero elsewhere.
    pub lsel: [u32; N_LIMBS],
    /// The bits below the qubit, the bits above it, and the qubit itself.
    pub lo: u32,
    pub hi: u32,
    pub bit: u32,
}

impl ReadCols {
    /// The columns of a read that is not made.
    pub open spec fn is_inactive(self) -> bool {
        &&& self.active == 0
        &&& self.q == 0
        &&& self.limb_idx == 0
        &&& self.bit_pos == 0
        &&& self.mask == 1
        &&& forall|j: int| 0 <= j < N_LIMBS ==> #[trigger] self.lsel@[j] == 0
        &&& self.lo == 0
        &&& self.hi == 0
        &&& self.bit == 0
    }

    /// The columns of reading qubit `q` of `limbs`.
    pub open spec fn reads(self, limbs: Seq<u32>, q: int) -> bool {
        let l = limbs[q / 16];
        &&& self.active == 1
        &&& self.q == q
        &&& self.limb_idx == q / 16
        &&& self.bit_pos == q % 16
        &&& self.mask == weight(self.bit_pos)
        &&& forall|j: int|
            0 <= j < N_LIMBS ==> #[trigger] self.lsel@[j] == (if j == q / 16 { 1u32 } else { 0u32 })
        &&& self.lo == l as int % self.mask as int
        &&& self.bit == l as int / self.mask as int % 2
        &&& self.hi == l as int / (2 * self.mask)
    }

    pub fn inactive() -> (r: ReadCols)
        ensures
            r.is_inactive(),
    {
        ReadCols {
            active: 0,
            q: 0,
            limb_idx: 0,
            bit_pos: 0,
            mask: 1,
            lsel: [0u32; N_LIMBS],
            lo: 0,
            hi: 0,
            bit: 0,
        }
    }

    pub fn live(limbs: &[u32; N_LIMBS], q: u16) -> (r: ReadCols)
        requires
            q < N_QUBITS,
        ensures
            r.reads(limbs@, q as int),
    {
        let (limb_idx, bit_pos, mask) = qubit_decode(q);
        let l: u32 = limbs[limb_idx as usize];
        proof {
            lemma_mask(bit_pos);
            lemma_split(l, bit_pos);
        }
        let lo: u32 = l & (mask - 1);
        let bit: u32 = (l >> bit_pos) & 1;
        let hi: u32 = l >> (bit_pos + 1);
        let mut lsel: [u32; N_LIMBS] = [0u32; N_LIMBS];
        lsel[limb_idx as usize] = 1;
        ReadCols { active: 1, q: q as u32, limb_idx, bit_pos, mask, lsel, lo, hi, bit }
    }
}

/// One row of the main trace.
#[derive(Clone, Copy)]
pub struct Row {
    /// One on a gate's row, zero on padding.
    pub enabler: u32,
    pub is_nop: u32,
    pub is_not: u32,
    pub is_cnot: u32,
    pub is_toffoli: u32,
    pub shot_id: u32,
    pub pc: u32,
    pub in_limb: [u32; N_LIMBS],
    pub out_limb: [u32; N_LIMBS],
    pub target: ReadCols,
    pub ctrl_a: ReadCols,
    pub ctrl_b: ReadCols,
    pub ab: u32,
    pub fire: u32,
    /// The change of the target bit, as a base-field element.
    pub delta: u32,
}

pub open spec fn flag(b: bool) -> u32 {
    if b {
        1
    } else {
        0
    }
}

/// The change that flipping a bit makes, as a base-field element: one, or minus one.
pub open spec fn flip_delta(bit: bool, fire: bool) -> u32 {
    if !fire {
        0
    } else if bit {
        (P - 1) as u32
    } else {
        1
    }
}

impl Row {
    pub open spec fn is_padding(self) -> bool {
        &&& self.enabler == 0
        &&& self.is_nop == 0
        &&& self.is_not == 0
        &&& self.is_cnot == 0
        &&& self.is_toffoli == 0
        &&& self.shot_id == 0
        &&& self.pc == 0
        &&& forall|j: int| 0 <= j < N_LIMBS ==> #[trigger] self.in_limb@[j] == 0
        &&& forall|j: int| 0 <= j < N_LIMBS ==> #[trigger] self.out_limb@[j] == 0
        &&& self.target.is_inactive()
        &&& self.ctrl_a.is_inactive()
        &&& self.ctrl_b.is_inactive()
        &&& self.ab == 0
        &&& self.fire == 0
        &&& self.delta == 0
    }

    /// The row of gate `g` in state `s`, as step `pc` of shot `shot`.
    pub open spec fn steps(self, g: Gate, s: Seq<bool>, shot: int, pc: int) -> bool {
        &&& self.enabler == 1
        &&& self.is_nop == flag(g.opcode == OP_NOP)
        &&& self.is_not == flag(g.opcode == OP_NOT)
        &&& self.is_cnot == flag(g.opcode == OP_CNOT)
        &&& self.is_toffoli == flag(g.opcode == OP_TOFFOLI)
        &&& self.shot_id == shot
        &&& self.pc == pc
        &&& limbs_wf(self.in_limb@)
        &&& limb_state(self.in_limb@) == s
        &&& limbs_wf(self.out_limb@)
        &&& limb_state(self.out_limb@) == g.apply(s)
        &&& self.target.reads(self.in_limb@, g.target as int)
        &&& if g.a_active() {
            self.ctrl_a.reads(self.in_limb@, g.ctrl_a as int)
        } else {
            self.ctrl_a.is_inactive()
        }
        &&& if g.b_active() {
            self.ctrl_b.reads(self.in_limb@, g.ctrl_b as int)
        } else {
            self.ctrl_b.is_inactive()
        }
        &&& self.ab == self.ctrl_a.bit * self.ctrl_b.bit
        &&& self.fire == flag(g.fires(s))
        &&& self.delta == flip_delta(s[g.target as int], g.fires(s))
        &&& self.out_limb@ == self.in_limb@.update(
            g.target as int / 16,
            written_limb(self.in_limb@[g.target as int / 16], self.target.mask, self.delta),
        )
    }

    pub fn padding() -> (r: Row)
        ensures
            r.is_padding(),
    {
        Row {
            enabler: 0,
            is_nop: 0,
            is_not: 0,
            is_cnot: 0,
            is_toffoli: 0,
            shot_id: 0,
            pc: 0,
            in_limb: [0u32; N_LIMBS],
            out_limb: [0u32; N_LIMBS],
            target: ReadCols::inactive(),
            ctrl_a: ReadCols::inactive(),
            ctrl_b: ReadCols::inactive(),
            ab: 0,
            fire: 0,
            delta: 0,
        }
    }
}

/// The limb after its bit of weight `mask` changed by `delta`.
pub open spec fn written_limb(l: u32, mask: u32, delta: u32) -> u32 {
    if delta == 0 {
        l
    } else if delta == 1 {
        (l + mask) as u32
    } else {
        (l - mask) as u32
    }
}

/// A difference of two bits as a base-field element.
pub fn delta_to_m31(delta: i64) -> (r: u32)
    requires
        -1 <= delta <= 1,
    ensures
        r == (if delta < 0 { P + delta } else { delta as int }),
{
    if delta >= 0 {
        delta as u32
    } else {
        (P as i64 + delta) as u32
    }
}

/// What reading a qubit says of it.
proof fn lemma_read_bit(r: ReadCols, limbs: Seq<u32>, q: int)
    requires
        limbs_wf(limbs),
        0 <= q < N_QUBITS,
        r.reads(limbs, q),
    ensures
        r.bit == flag(limb_state(limbs)[q]),
        r.bit == (limbs[q / 16] >> r.bit_pos) & 1,
        r.mask == 1u32 << r.bit_pos,
        1 <= r.mask <= 0x8000,
{
    lemma_split(limbs[q / 16], r.bit_pos);
    lemma_mask(r.bit_pos);
}

/// The bits that a gate's row holds.
pub proof fn lemma_row_bits(row: Row, g: Gate, s: Seq<bool>, shot: int, pc: int)
    requires
        row.steps(g, s, shot, pc),
        g.operands_ok(),
    ensures
        row.target.bit == flag(s[g.target as int]),
        row.ctrl_a.bit == flag(g.a_active() && s[g.ctrl_a as int]),
        row.ctrl_b.bit == flag(g.b_active() && s[g.ctrl_b as int]),
        1 <= row.target.mask <= 0x8000,
        s[g.target as int] ==> row.in_limb@[g.target as int / 16] >= row.target.mask,
        !s[g.target as int] ==> row.in_limb@[g.target as int / 16] + row.target.mask < 0x1_0000,
{
    lemma_read_bit(row.target, row.in_limb@, g.target as int);
    if g.a_active() {
        lemma_read_bit(row.ctrl_a, row.in_limb@, g.ctrl_a as int);
    }
    if g.b_active() {
        lemma_read_bit(row.ctrl_b, row.in_limb@, g.ctrl_b as int);
    }
    let l = row.in_limb@[g.target as int / 16];
    if s[g.target as int] {
        lemma_clear_bit(l, row.target.bit_pos, row.target.bit_pos);
    } else {
        lemma_set_bit(l, row.target.bit_pos, row.target.bit_pos);
    }
}

/// Changing the target's limb changes the state's target bit alone.
proof fn lemma_write(limbs: Seq<u32>, out: Seq<u32>, r: ReadCols, q: int, fire: bool)
    requires
        limbs_wf(limbs),
        0 <= q < N_QUBITS,
        r.reads(limbs, q),
        out == limbs.update(
            q / 16,
            written_limb(limbs[q / 16], r.mask, flip_delta(limb_state(limbs)[q], fire)),
        ),
    ensures
        limbs_wf(out),
        limb_state(out) == limb_state(limbs).update(q, limb_state(limbs)[q] != fire),
        !limb_state(limbs)[q] ==> limbs[q / 16] + r.mask < 0x1_0000,
        limb_state(limbs)[q] ==> limbs[q / 16] >= r.mask,
{
    lemma_read_bit(r, limbs, q);
    let l = limbs[q / 16];
    let p = r.bit_pos;
    let s = limb_state(limbs);
    if s[q] {
        lemma_clear_bit(l, p, p);
    } else {
        lemma_set_bit(l, p, p);
    }
    assert forall|i: int| 0 <= i < N_QUBITS implies #[trigger] limb_state(out)[i] == s.update(
        q,
        s[q] != fire,
    )[i] by {
        let b = (i % 16) as u32;
        if i / 16 == q / 16 && fire {
            if s[q] {
                lemma_clear_bit(l, p, b);
            } else {
                lemma_set_bit(l, p, b);
            }
            if b == p {
                assert(i == q);
            }
        }
    }
    assert(limb_state(out) =~= s.update(q, s[q] != fire));
}

/// The row of one gate in the state held by `limbs`.
pub fn gate_row(gate: &Gate, limbs: &[u32; N_LIMBS], shot_id: u32, pc: u32) -> (row: Row)
    requires
        gate.known(),
        gate.operands_ok(),
        limbs_wf(limbs@),
    ensures
        row.steps(*gate, limb_state(limbs@), shot_id as int, pc as int),
        row.in_limb@ == limbs@,
{
    let ghost s = limb_state(limbs@);
    let in_limb: [u32; N_LIMBS] = *limbs;
    let is_nop: u32 = if gate.opcode == OP_NOP { 1 } else { 0 };
    let is_not: u32 = if gate.opcode == OP_NOT { 1 } else { 0 };
    let is_cnot: u32 = if gate.opcode == OP_CNOT { 1 } else { 0 };
    let is_toffoli: u32 = if gate.opcode == OP_TOFFOLI { 1 } else { 0 };

    let target = ReadCols::live(&in_limb, gate.target);
    let ctrl_a = if is_cnot + is_toffoli == 1 {
        ReadCols::live(&in_limb, gate.ctrl_a)
    } else {
        ReadCols::inactive()
    };
    let ctrl_b = if is_toffoli == 1 {
        ReadCols::live(&in_limb, gate.ctrl_b)
    } else {
        ReadCols::inactive()
    };
    proof {
        lemma_read_bit(target, limbs@, gate.target as int);
        if gate.a_active() {
            lemma_read_bit(ctrl_a, limbs@, gate.ctrl_a as int);
        }
        if gate.b_active() {
            lemma_read_bit(ctrl_b, limbs@, gate.ctrl_b as int);
        }
        assert(ctrl_a.bit * ctrl_b.bit == (if ctrl_a.bit == 1 { ctrl_b.bit } else { 0 }))
            by (nonlinear_arith)
            requires
                ctrl_a.bit == 0 || ctrl_a.bit == 1,
        ;
    }
    let a_bit: u32 = ctrl_a.bit;
    let b_bit: u32 = ctrl_b.bit;
    let t_bit: u32 = target.bit;
    let ab: u32 = a_bit * b_bit;
    let fire: u32 = if is_not == 1 {
        1
    } else if is_cnot == 1 {
        a_bit
    } else if is_toffoli == 1 {
        ab
    } else {
        0
    };
    assert(fire == flag(gate.fires(s)));
    let new_t: u32 = if fire == 1 { 1 - t_bit } else { t_bit };
    let delta_signed: i64 = new_t as i64 - t_bit as i64;

    let mut out_limb: [u32; N_LIMBS] = in_limb;
    let tl: usize = target.limb_idx as usize;
    let delta: u32 = delta_to_m31(delta_signed);
    proof {
        lemma_write(
            limbs@,
            limbs@.update(
                tl as int,
                written_limb(limbs@[tl as int], target.mask, flip_delta(s[gate.target as int], gate.fires(s))),
            ),
            target,
            gate.target as int,
            gate.fires(s),
        );
    }
    if delta_signed > 0 {
        out_limb[tl] = out_limb[tl] + target.mask;
    } else if delta_signed < 0 {
        out_limb[tl] = out_limb[tl] - target.mask;
    }
    assert(out_limb@ =~= limbs@.update(tl as int, written_limb(limbs@[tl as int], target.mask, delta)));
    Row {
        enabler: 1,
        is_nop,
        is_not,
        is_cnot,
        is_toffoli,
        shot_id,
        pc,
        in_limb,
        out_limb,
        target,
        ctrl_a,
        ctrl_b,
        ab,
        fire,
        delta,
    }
}

/// A range table: for each bit position a block of rows that lists the values
/// below that position's bound. Rows after the last block repeat `(0, 0)`.
pub struct RcIndex {
    pub pos_col: Vec<u32>,
    pub val_col: Vec<u32>,
    /// The first row of each position's block, and the first row after all blocks.
    pub offset: [usize; 17],
}

/// The rows before position `pos`: the sum of the earlier bounds.
pub open spec fn block_start(bounds: Seq<u32>, pos: int) -> int
    decreases pos,
{
    if pos <= 0 {
        0
    } else {
        block_start(bounds, pos - 1) + bounds[pos - 1]
    }
}

pub proof fn lemma_block_start_mono(bounds: Seq<u32>, p: int, q: int)
    requires
        0 <= p <= q,
    ensures
        block_start(bounds, p) <= block_start(bounds, q),
        0 <= block_start(bounds, p),
    decreases q,
{
    if p < q {
        lemma_block_start_mono(bounds, p, q - 1);
    } else if p > 0 {
        lemma_block_start_mono(bounds, p - 1, p - 1);
    }
}

/// The block of position `p` pairs `p` with the values `0, 1, 2, ...`.
pub open spec fn block_lists(pos_col: Seq<u32>, val_col: Seq<u32>, bounds: Seq<u32>, p: int) -> bool {
    forall|i: int|
        block_start(bounds, p) <= i < block_start(bounds, p + 1) ==> (#[trigger] pos_col[i]) == p
            && val_col[i] == i - block_start(bounds, p)
}

impl RcIndex {
    /// The table lists, per position, exactly the values below its bound.
    pub open spec fn lists(&self, bounds: Seq<u32>) -> bool {
        &&& self.pos_col@.len() == RC_SIZE
        &&& self.val_col@.len() == RC_SIZE
        &&& forall|p: int| 0 <= p <= LIMB_BITS ==> #[trigger] self.offset@[p] == block_start(bounds, p)
        &&& block_start(bounds, LIMB_BITS as int) <= RC_SIZE
        &&& forall|p: int|
            0 <= p < LIMB_BITS ==> #[trigger] block_lists(self.pos_col@, self.val_col@, bounds, p)
        &&& forall|i: int|
            block_start(bounds, LIMB_BITS as int) <= i < RC_SIZE ==> (#[trigger] self.pos_col@[i]) == 0
                && self.val_col@[i] == 0
    }

    /// The row of `(pos, value)`.
    pub open spec fn at(&self, pos: int, value: int) -> int {
        self.offset@[pos] + value
    }

    /// Lays the blocks out one after the other.
    pub fn build(bounds: &[u32; LIMB_BITS]) -> (r: RcIndex)
        requires
            block_start(bounds@, LIMB_BITS as int) <= RC_SIZE,
        ensures
            r.lists(bounds@),
    {
        let mut pos_col: Vec<u32> = vec![0u32; RC_SIZE];
        let mut val_col: Vec<u32> = vec![0u32; RC_SIZE];
        let mut offset: [usize; 17] = [0usize; 17];
        let mut row: usize = 0;
        let mut pos: usize = 0;
        while pos < LIMB_BITS
            invariant
                pos <= LIMB_BITS,
                block_start(bounds@, LIMB_BITS as int) <= RC_SIZE,
                row == block_start(bounds@, pos as int),
                pos_col@.len() == RC_SIZE,
                val_col@.len() == RC_SIZE,
                offset@.len() == 17,
                forall|p: int| 0 <= p < pos ==> #[trigger] offset@[p] == block_start(bounds@, p),
                forall|p: int| 0 <= p < pos ==> #[trigger] block_lists(pos_col@, val_col@, bounds@, p),
                forall|i: int| row <= i < RC_SIZE ==> #[trigger] pos_col@[i] == 0,
                forall|i: int| row <= i < RC_SIZE ==> #[trigger] val_col@[i] == 0,
            decreases LIMB_BITS - pos,
        {
            offset[pos] = row;
            let b: u32 = bounds[pos];
            let ghost start = row as int;
            proof {
                lemma_block_start_mono(bounds@, pos + 1, LIMB_BITS as int);
                lemma_block_start_mono(bounds@, pos as int, pos as int);
            }
            let mut v: u32 = 0;
            while v < b
                invariant
                    pos < LIMB_BITS,
                    b == bounds@[pos as int],
                    v <= b,
                    0 <= start == block_start(bounds@, pos as int),
                    row == start + v,
                    start + b <= RC_SIZE,
                    pos_col@.len() == RC_SIZE,
                    val_col@.len() == RC_SIZE,
                    forall|p: int|
                        0 <= p < pos ==> #[trigger] block_lists(pos_col@, val_col@, bounds@, p),
                    forall|i: int| start <= i < row ==> #[trigger] pos_col@[i] == pos,
                    forall|i: int| start <= i < row ==> #[trigger] val_col@[i] == i - start,
                    forall|i: int| row <= i < RC_SIZE ==> #[trigger] pos_col@[i] == 0,
                    forall|i: int| row <= i < RC_SIZE ==> #[trigger] val_col@[i] == 0,
                decreases b - v,
            {
                let ghost pc0 = pos_col@;
                let ghost vc0 = val_col@;
                pos_col.set(row, pos as u32);
                val_col.set(row, v);
                proof {
                    assert forall|p: int| 0 <= p < pos implies #[trigger] block_lists(
                        pos_col@,
                        val_col@,
                        bounds@,
                        p,
                    ) by {
                        assert(block_lists(pc0, vc0, bounds@, p));
                        lemma_block_start_mono(bounds@, p + 1, pos as int);
                        lemma_block_start_mono(bounds@, p, p);
                        assert forall|i: int|
                            block_start(bounds@, p) <= i < block_start(bounds@, p + 1) implies (
                        #[trigger] pos_col@[i]) == p && val_col@[i] == i - block_start(bounds@, p) by {
                            assert(pc0[i] == p);
                        }
                    }
                }
                row += 1;
                v += 1;
            }
            pos += 1;
        }
        offset[LIMB_BITS] = row;
        RcIndex { pos_col, val_col, offset }
    }

    /// The row index of `(pos, value)`.
    pub fn row(&self, pos: u32, value: u32) -> (r: usize)
        requires
            pos <= LIMB_BITS,
            self.offset@[pos as int] + value <= usize::MAX,
        ensures
            r == self.at(pos as int, value as int),
    {
        self.offset[pos as usize] + value as usize
    }
}

/// What the table holds in the row of `(pos, value)`.
pub proof fn lemma_rc_row(idx: &RcIndex, bounds: Seq<u32>, pos: int, value: int)
    requires
        idx.lists(bounds),
        0 <= pos < LIMB_BITS,
        0 <= value < bounds[pos],
    ensures
        0 <= idx.at(pos, value) < RC_SIZE,
        idx.pos_col@[idx.at(pos, value)] == pos,
        idx.val_col@[idx.at(pos, value)] == value,
{
    lemma_block_start_mono(bounds, pos, pos);
    lemma_block_start_mono(bounds, pos + 1, LIMB_BITS as int);
    assert(block_lists(idx.pos_col@, idx.val_col@, bounds, pos));
    assert(idx.offset@[pos] == block_start(bounds, pos));
}

/// The bounds of the low table: `2^pos`.
pub open spec fn lo_bounds() -> Seq<u32> {
    Seq::new(LIMB_BITS as nat, |p: int| weight(p as u32) as u32)
}

/// The bounds of the high table: `2^(15 - pos)`.
pub open spec fn hi_bounds() -> Seq<u32> {
    Seq::new(LIMB_BITS as nat, |p: int| weight((15 - p) as u32) as u32)
}

proof fn lemma_lo_start(p: int)
    requires
        0 <= p <= 16,
    ensures
        block_start(lo_bounds(), p) == weight(p as u32) - 1,
    decreases p,
{
    lemma2_to64();
    if p > 0 {
        lemma_lo_start(p - 1);
        lemma_pow2_unfold(p as nat);
        lemma_mask((p - 1) as u32);
    }
}

proof fn lemma_hi_start(p: int)
    requires
        0 <= p <= 16,
    ensures
        block_start(hi_bounds(), p) == 0x1_0000 - weight((16 - p) as u32),
    decreases p,
{
    lemma2_to64();
    if p > 0 {
        lemma_hi_start(p - 1);
        lemma_pow2_unfold((17 - p) as nat);
        lemma_mask((16 - p) as u32);
    }
}

/// The table of the parts below a qubit: position `p` admits `[0, 2^p)`.
pub fn build_rc_lo() -> (r: RcIndex)
    ensures
        r.lists(lo_bounds()),
{
    let mut bounds: [u32; LIMB_BITS] = [0u32; LIMB_BITS];
    let mut p: u32 = 0;
    while p < 16
        invariant
            p <= 16,
            bounds@.len() == 16,
            forall|i: int| 0 <= i < p ==> #[trigger] bounds@[i] == weight(i as u32),
        decreases 16 - p,
    {
        proof {
            lemma_mask(p);
        }
        bounds[p as usize] = 1u32 << p;
        p += 1;
    }
    proof {
        assert(bounds@ =~= lo_bounds());
        lemma_lo_start(16);
        lemma2_to64();
    }
    RcIndex::build(&bounds)
}

/// The table of the parts above a qubit: position `p` admits `[0, 2^(15 - p))`.
pub fn build_rc_hi() -> (r: RcIndex)
    ensures
        r.lists(hi_bounds()),
{
    let mut bounds: [u32; LIMB_BITS] = [0u32; LIMB_BITS];
    let mut p: u32 = 0;
    while p < 16
        invariant
            p <= 16,
            bounds@.len() == 16,
            forall|i: int| 0 <= i < p ==> #[trigger] bounds@[i] == weight((15 - i) as u32),
        decreases 16 - p,
    {
        proof {
            lemma_mask((15 - p) as u32);
        }
        bounds[p as usize] = 1u32 << (15 - p);
        p += 1;
    }
    proof {
        assert(bounds@ =~= hi_bounds());
        lemma_hi_start(16);
        lemma2_to64();
    }
    RcIndex::build(&bounds)
}

/// How often each row of the three lookup tables is used.
pub struct LookupCounts {
    pub qdecode: Vec<u32>,
    pub rc_lo: Vec<u32>,
    pub rc_hi: Vec<u32>,
}

/// One of the three lookup tables; the range tables with their block starts.
pub ghost enum Table {
    QDecode,
    Lo(Seq<usize>),
    Hi(Seq<usize>),
}

impl Table {
    /// The row that a read looks up.
    pub open spec fn slot(self, r: ReadCols) -> int {
        match self {
            Table::QDecode => r.q as int,
            Table::Lo(offset) => offset[r.bit_pos as int] + r.lo,
            Table::Hi(offset) => offset[r.bit_pos as int] + r.hi,
        }
    }

    /// One if the read is made and looks up row `i`.
    pub open spec fn hit(self, r: ReadCols, i: int) -> nat {
        if r.active != 0 && self.slot(r) == i {
            1
        } else {
            0
        }
    }

    /// How many reads of one row look up row `i`.
    pub open spec fn row_hits(self, r: Row, i: int) -> nat {
        self.hit(r.target, i) + self.hit(r.ctrl_a, i) + self.hit(r.ctrl_b, i)
    }

    /// How many reads of the first `n` rows look up row `i`.
    pub open spec fn hits(self, rows: Seq<Row>, n: nat, i: int) -> nat
        decreases n,
    {
        if n == 0 {
            0
        } else {
            self.hits(rows, (n - 1) as nat, i) + self.row_hits(rows[n - 1], i)
        }
    }
}

/// `counts` holds the hits of the first `n` rows.
pub open spec fn counts_hits(counts: Seq<u32>, t: Table, rows: Seq<Row>, n: nat) -> bool {
    forall|i: int| 0 <= i < counts.len() ==> #[trigger] counts[i] == t.hits(rows, n, i)
}

proof fn lemma_hits_bound(t: Table, rows: Seq<Row>, n: nat, i: int)
    ensures
        t.hits(rows, n, i) <= 3 * n,
    decreases n,
{
    if n > 0 {
        lemma_hits_bound(t, rows, (n - 1) as nat, i);
    }
}

/// Only the first `n` rows matter for their hits.
pub proof fn lemma_hits_prefix(t: Table, a: Seq<Row>, b: Seq<Row>, n: nat, i: int)
    requires
        n <= a.len(),
        n <= b.len(),
        forall|j: int| 0 <= j < n ==> #[trigger] a[j] == b[j],
    ensures
        t.hits(a, n, i) == t.hits(b, n, i),
    decreases n,
{
    if n > 0 {
        lemma_hits_prefix(t, a, b, (n - 1) as nat, i);
    }
}

/// The hits of two stretches of rows add up.
pub proof fn lemma_hits_append(t: Table, a: Seq<Row>, b: Seq<Row>, m: nat, i: int)
    requires
        m <= b.len(),
    ensures
        t.hits(a + b, a.len() + m, i) == t.hits(a, a.len(), i) + t.hits(b, m, i),
    decreases m,
{
    if m == 0 {
        lemma_hits_prefix(t, a + b, a, a.len(), i);
    } else {
        lemma_hits_append(t, a, b, (m - 1) as nat, i);
        assert((a + b)[a.len() + m - 1] == b[m - 1]);
    }
}

impl LookupCounts {
    pub open spec fn sized(&self) -> bool {
        &&& self.qdecode@.len() == N_QUBITS
        &&& self.rc_lo@.len() == RC_SIZE
        &&& self.rc_hi@.len() == RC_SIZE
    }

    /// All three columns hold the hits of the first `n` rows.
    pub open spec fn counts(&self, rows: Seq<Row>, n: nat, lo: &RcIndex, hi: &RcIndex) -> bool {
        &&& self.sized()
        &&& counts_hits(self.qdecode@, Table::QDecode, rows, n)
        &&& counts_hits(self.rc_lo@, Table::Lo(lo.offset@), rows, n)
        &&& counts_hits(self.rc_hi@, Table::Hi(hi.offset@), rows, n)
    }

    pub fn new() -> (r: LookupCounts)
        ensures
            r.sized(),
            forall|i: int| 0 <= i < N_QUBITS ==> #[trigger] r.qdecode@[i] == 0,
            forall|i: int| 0 <= i < RC_SIZE ==> #[trigger] r.rc_lo@[i] == 0,
            forall|i: int| 0 <= i < RC_SIZE ==> #[trigger] r.rc_hi@[i] == 0,
    {
        LookupCounts {
            qdecode: vec![0u32; N_QUBITS],
            rc_lo: vec![0u32; RC_SIZE],
            rc_hi: vec![0u32; RC_SIZE],
        }
    }

    /// Adds another set of counts, row by row.
    pub fn add_assign(&mut self, other: &LookupCounts)
        requires
            old(self).sized(),
            other.sized(),
            forall|i: int|
                0 <= i < N_QUBITS ==> #[trigger] old(self).qdecode@[i] + other.qdecode@[i] <= u32::MAX,
            forall|i: int|
                0 <= i < RC_SIZE ==> #[trigger] old(self).rc_lo@[i] + other.rc_lo@[i] <= u32::MAX,
            forall|i: int|
                0 <= i < RC_SIZE ==> #[trigger] old(self).rc_hi@[i] + other.rc_hi@[i] <= u32::MAX,
        ensures
            final(self).sized(),
            forall|i: int|
                0 <= i < N_QUBITS ==> #[trigger] final(self).qdecode@[i] == old(self).qdecode@[i]
                    + other.qdecode@[i],
            forall|i: int|
                0 <= i < RC_SIZE ==> #[trigger] final(self).rc_lo@[i] == old(self).rc_lo@[i]
                    + other.rc_lo@[i],
            forall|i: int|
                0 <= i < RC_SIZE ==> #[trigger] final(self).rc_hi@[i] == old(self).rc_hi@[i]
                    + other.rc_hi@[i],
    {
        add_columns(&mut self.qdecode, &other.qdecode);
        add_columns(&mut self.rc_lo, &other.rc_lo);
        add_columns(&mut self.rc_hi, &other.rc_hi);
    }
}

/// Adds `b` to `a` entry by entry.
fn add_columns(a: &mut Vec<u32>, b: &Vec<u32>)
    requires
        old(a)@.len() == b@.len(),
        forall|i: int| 0 <= i < b@.len() ==> #[trigger] old(a)@[i] + b@[i] <= u32::MAX,
    ensures
        final(a)@.len() == old(a)@.len(),
        forall|i: int| 0 <= i < b@.len() ==> #[trigger] final(a)@[i] == old(a)@[i] + b@[i],
{
    let n: usize = a.len();
    let mut i: usize = 0;
    while i < n
        invariant
            i <= n == a@.len(),
            n == b@.len() == old(a)@.len(),
            forall|j: int| 0 <= j < n ==> #[trigger] old(a)@[j] + b@[j] <= u32::MAX,
            forall|j: int| 0 <= j < i ==> #[trigger] a@[j] == old(a)@[j] + b@[j],
            forall|j: int| i <= j < n ==> #[trigger] a@[j] == old(a)@[j],
        decreases n - i,
    {
        let v: u32 = a[i];
        assert(a@[i as int] == old(a)@[i as int]);
        assert(old(a)@[i as int] + b@[i as int] <= u32::MAX);
        a.set(i, v + b[i]);
        i += 1;
    }
}

/// Adds one at `i`.
fn bump(a: &mut Vec<u32>, i: usize)
    requires
        i < old(a)@.len(),
        old(a)@[i as int] < u32::MAX,
    ensures
        final(a)@ == old(a)@.update(i as int, (old(a)@[i as int] + 1) as u32),
{
    let v: u32 = a[i];
    a.set(i, v + 1);
}

/// The lookups of a read fall inside of their tables.
pub open spec fn read_in_tables(r: ReadCols, lo: &RcIndex, hi: &RcIndex) -> bool {
    r.active != 0 ==> {
        &&& r.q < N_QUBITS
        &&& r.bit_pos < LIMB_BITS
        &&& lo.at(r.bit_pos as int, r.lo as int) < RC_SIZE
        &&& hi.at(r.bit_pos as int, r.hi as int) < RC_SIZE
    }
}

/// `after` counts one read more than `before`.
pub open spec fn counted(before: Seq<u32>, after: Seq<u32>, t: Table, r: ReadCols) -> bool {
    &&& after.len() == before.len()
    &&& forall|i: int| 0 <= i < before.len() ==> #[trigger] after[i] == before[i] + t.hit(r, i)
}

/// Counts the three lookups of a read that is made.
pub fn count_read(counts: &mut LookupCounts, read: &ReadCols, lo_idx: &RcIndex, hi_idx: &RcIndex)
    requires
        old(counts).sized(),
        read_in_tables(*read, lo_idx, hi_idx),
        forall|i: int| 0 <= i < N_QUBITS ==> #[trigger] old(counts).qdecode@[i] < u32::MAX,
        forall|i: int| 0 <= i < RC_SIZE ==> #[trigger] old(counts).rc_lo@[i] < u32::MAX,
        forall|i: int| 0 <= i < RC_SIZE ==> #[trigger] old(counts).rc_hi@[i] < u32::MAX,
    ensures
        final(counts).sized(),
        counted(old(counts).qdecode@, final(counts).qdecode@, Table::QDecode, *read),
        counted(old(counts).rc_lo@, final(counts).rc_lo@, Table::Lo(lo_idx.offset@), *read),
        counted(old(counts).rc_hi@, final(counts).rc_hi@, Table::Hi(hi_idx.offset@), *read),
{
    if read.active == 0 {
        return ;
    }
    bump(&mut counts.qdecode, read.q as usize);
    bump(&mut counts.rc_lo, lo_idx.row(read.bit_pos, read.lo));
    bump(&mut counts.rc_hi, hi_idx.row(read.bit_pos, read.hi));
}

/// A read of an existing qubit looks up existing rows.
pub proof fn lemma_read_in_tables(r: ReadCols, limbs: Seq<u32>, q: int, lo: &RcIndex, hi: &RcIndex)
    requires
        limbs_wf(limbs),
        0 <= q < N_QUBITS,
        r.reads(limbs, q),
        lo.lists(lo_bounds()),
        hi.lists(hi_bounds()),
    ensures
        read_in_tables(r, lo, hi),
        lo.pos_col@[lo.at(r.bit_pos as int, r.lo as int)] == r.bit_pos,
        lo.val_col@[lo.at(r.bit_pos as int, r.lo as int)] == r.lo,
        hi.pos_col@[hi.at(r.bit_pos as int, r.hi as int)] == r.bit_pos,
        hi.val_col@[hi.at(r.bit_pos as int, r.hi as int)] == r.hi,
{
    let l = limbs[q / 16];
    lemma_split(l, r.bit_pos);
    lemma_high_part(l, r.bit_pos);
    lemma_mask(r.bit_pos);
    lemma_mask((15 - r.bit_pos) as u32);
    lemma_rc_row(lo, lo_bounds(), r.bit_pos as int, r.lo as int);
    lemma_rc_row(hi, hi_bounds(), r.bit_pos as int, r.hi as int);
}

proof fn lemma_count_step(
    c0: Seq<u32>,
    c1: Seq<u32>,
    c2: Seq<u32>,
    c3: Seq<u32>,
    t: Table,
    rows: Seq<Row>,
    n: nat,
)
    requires
        n < rows.len(),
        counts_hits(c0, t, rows, n),
        counted(c0, c1, t, rows[n as int].target),
        counted(c1, c2, t, rows[n as int].ctrl_a),
        counted(c2, c3, t, rows[n as int].ctrl_b),
    ensures
        counts_hits(c3, t, rows, n + 1),
{
    assert forall|i: int| 0 <= i < c3.len() implies #[trigger] c3[i] == t.hits(rows, n + 1, i) by {
        assert(c2[i] == c1[i] + t.hit(rows[n as int].ctrl_a, i));
        assert(c1[i] == c0[i] + t.hit(rows[n as int].target, i));
        assert(c0[i] == t.hits(rows, n, i));
    }
}

proof fn lemma_counts_small(c: Seq<u32>, t: Table, rows: Seq<Row>, n: nat, extra: nat)
    requires
        counts_hits(c, t, rows, n),
        3 * n + extra < u32::MAX,
    ensures
        forall|i: int| 0 <= i < c.len() ==> #[trigger] c[i] + extra < u32::MAX,
{
    assert forall|i: int| 0 <= i < c.len() implies #[trigger] c[i] + extra < u32::MAX by {
        lemma_hits_bound(t, rows, n, i);
    }
}

/// Counts the reads of row `n`.
fn count_row(
    counts: &mut LookupCounts,
    rows: &[Row],
    n: usize,
    lo_idx: &RcIndex,
    hi_idx: &RcIndex,
)
    requires
        n < rows@.len(),
        3 * (n + 1) <= u32::MAX,
        old(counts).counts(rows@, n as nat, lo_idx, hi_idx),
        read_in_tables(rows@[n as int].target, lo_idx, hi_idx),
        read_in_tables(rows@[n as int].ctrl_a, lo_idx, hi_idx),
        read_in_tables(rows@[n as int].ctrl_b, lo_idx, hi_idx),
    ensures
        final(counts).counts(rows@, n as nat + 1, lo_idx, hi_idx),
{
    let ghost c0 = *counts;
    let ghost (tq, tl, th) = (
        Table::QDecode,
        Table::Lo(lo_idx.offset@),
        Table::Hi(hi_idx.offset@),
    );
    proof {
        lemma_counts_small(c0.qdecode@, tq, rows@, n as nat, 2);
        lemma_counts_small(c0.rc_lo@, tl, rows@, n as nat, 2);
        lemma_counts_small(c0.rc_hi@, th, rows@, n as nat, 2);
    }
    count_read(counts, &rows[n].target, lo_idx, hi_idx);
    let ghost c1 = *counts;
    proof {
        assert forall|i: int| 0 <= i < N_QUBITS implies #[trigger] c1.qdecode@[i] + 1 < u32::MAX by {
            assert(c0.qdecode@[i] + 2 < u32::MAX);
        }
        assert forall|i: int| 0 <= i < RC_SIZE implies #[trigger] c1.rc_lo@[i] + 1 < u32::MAX by {
            assert(c0.rc_lo@[i] + 2 < u32::MAX);
        }
        assert forall|i: int| 0 <= i < RC_SIZE implies #[trigger] c1.rc_hi@[i] + 1 < u32::MAX by {
            assert(c0.rc_hi@[i] + 2 < u32::MAX);
        }
    }
    count_read(counts, &rows[n].ctrl_a, lo_idx, hi_idx);
    let ghost c2 = *counts;
    proof {
        assert forall|i: int| 0 <= i < N_QUBITS implies #[trigger] c2.qdecode@[i] < u32::MAX by {
            assert(c1.qdecode@[i] + 1 < u32::MAX);
        }
        assert forall|i: int| 0 <= i < RC_SIZE implies #[trigger] c2.rc_lo@[i] < u32::MAX by {
            assert(c1.rc_lo@[i] + 1 < u32::MAX);
        }
        assert forall|i: int| 0 <= i < RC_SIZE implies #[trigger] c2.rc_hi@[i] < u32::MAX by {
            assert(c1.rc_hi@[i] + 1 < u32::MAX);
        }
    }
    count_read(counts, &rows[n].ctrl_b, lo_idx, hi_idx);
    proof {
        lemma_count_step(c0.qdecode@, c1.qdecode@, c2.qdecode@, counts.qdecode@, tq, rows@, n as nat);
        lemma_count_step(c0.rc_lo@, c1.rc_lo@, c2.rc_lo@, counts.rc_lo@, tl, rows@, n as nat);
        lemma_count_step(c0.rc_hi@, c1.rc_hi@, c2.rc_hi@, counts.rc_hi@, th, rows@, n as nat);
    }
}

/// Why a shot is refused.
#[derive(Debug)]
pub enum SimError {
    /// The state before, or the state after, is not hexadecimal.
    XHex,
    YHex,
    /// A state does not have 64 bytes.
    StateLength,
    UnknownOpcode(u8),
    /// The run does not end in the expected state; `got` is where it ends.
    FinalState { shot_id: usize, got: String },
}

pub ghost enum Outcome {
    XHex,
    YHex,
    StateLength,
    UnknownOpcode(u8),
    FinalState,
    Accepted,
}

/// The state that a test vector's text stands for.
pub open spec fn text_state(s: Seq<char>) -> Seq<bool> {
    limb_state(byte_limbs(hex_bytes(s)))
}

/// The text of the state in which `k` runs of the circuit end.
pub open spec fn end_text(gates: Seq<Gate>, k: nat, x: Seq<char>) -> Seq<char> {
    hex_text(limb_bytes(state_limbs(run(gates, text_state(x), k * gates.len()))))
}

/// What becomes of running the circuit `k` times on a test vector.
pub open spec fn shot_outcome(gates: Seq<Gate>, k: nat, x: Seq<char>, y: Seq<char>) -> Outcome {
    if !is_hex(x) {
        Outcome::XHex
    } else if !is_hex(y) {
        Outcome::YHex
    } else if hex_bytes(x).len() != STATE_BYTES || hex_bytes(y).len() != STATE_BYTES {
        Outcome::StateLength
    } else if k > 0 && exists|u: int| is_first_unknown(gates, u) {
        Outcome::UnknownOpcode(gates[choose|u: int| is_first_unknown(gates, u)].opcode)
    } else if run(gates, text_state(x), k * gates.len()) != text_state(y) {
        Outcome::FinalState
    } else {
        Outcome::Accepted
    }
}

/// `rows[0..n]` are the rows of the first `n` steps from state `s`.
pub open spec fn rows_step(rows: Seq<Row>, gates: Seq<Gate>, s: Seq<bool>, shot: int, n: nat) -> bool {
    forall|j: int|
        0 <= j < n ==> (#[trigger] rows[j]).steps(
            gates[j % gates.len() as int],
            run(gates, s, j as nat),
            shot,
            j,
        )
}

proof fn lemma_row_in_tables(row: Row, g: Gate, s: Seq<bool>, shot: int, pc: int, lo: &RcIndex, hi: &RcIndex)
    requires
        row.steps(g, s, shot, pc),
        g.operands_ok(),
        lo.lists(lo_bounds()),
        hi.lists(hi_bounds()),
    ensures
        read_in_tables(row.target, lo, hi),
        read_in_tables(row.ctrl_a, lo, hi),
        read_in_tables(row.ctrl_b, lo, hi),
{
    lemma_read_in_tables(row.target, row.in_limb@, g.target as int, lo, hi);
    if g.a_active() {
        lemma_read_in_tables(row.ctrl_a, row.in_limb@, g.ctrl_a as int, lo, hi);
    }
    if g.b_active() {
        lemma_read_in_tables(row.ctrl_b, row.in_limb@, g.ctrl_b as int, lo, hi);
    }
}

/// The rows from `from` on are left as they were.
pub open spec fn unchanged_from(before: Seq<Row>, after: Seq<Row>, from: int) -> bool {
    &&& after.len() == before.len()
    &&& forall|j: int| from <= j < after.len() ==> #[trigger] after[j] == before[j]
}

/// What `simulate_shot` promises of its result and of the rows it filled.
pub open spec fn shot_result(
    gates: Seq<Gate>,
    k: nat,
    shot_id: int,
    x: Seq<char>,
    y: Seq<char>,
    before: Seq<Row>,
    after: Seq<Row>,
    r: Result<LookupCounts, SimError>,
    lo: &RcIndex,
    hi: &RcIndex,
) -> bool {
    match shot_outcome(gates, k, x, y) {
        Outcome::XHex => r is Err && r->Err_0 is XHex && after == before,
        Outcome::YHex => r is Err && r->Err_0 is YHex && after == before,
        Outcome::StateLength => r is Err && r->Err_0 is StateLength && after == before,
        Outcome::UnknownOpcode(op) => {
            &&& r matches Err(SimError::UnknownOpcode(o)) && o == op
            &&& forall|u: int|
                #[trigger] is_first_unknown(gates, u) ==> rows_step(after, gates, text_state(x), shot_id, u as nat)
                    && unchanged_from(before, after, u)
        },
        Outcome::FinalState => {
            &&& r matches Err(SimError::FinalState { shot_id: i, got }) && i == shot_id && got@
                == end_text(gates, k, x)
            &&& rows_step(after, gates, text_state(x), shot_id, k * gates.len())
            &&& unchanged_from(before, after, (k * gates.len()) as int)
        },
        Outcome::Accepted => {
            &&& r is Ok
            &&& r->Ok_0.counts(after, k * gates.len(), lo, hi)
            &&& rows_step(after, gates, text_state(x), shot_id, k * gates.len())
            &&& unchanged_from(before, after, (k * gates.len()) as int)
        },
    }
}

fn bytes_equal(a: &[u8], b: &[u8]) -> (r: bool)
    ensures
        r == (a@ == b@),
{
    if a.len() != b.len() {
        return false;
    }
    let mut i: usize = 0;
    while i < a.len()
        invariant
            i <= a@.len() == b@.len(),
            forall|j: int| 0 <= j < i ==> #[trigger] a@[j] == b@[j],
        decreases a.len() - i,
    {
        if a[i] != b[i] {
            return false;
        }
        i += 1;
    }
    assert(a@ =~= b@);
    true
}

/// The first gate that cannot be run is `u`.
proof fn lemma_first_unknown_is(gates: Seq<Gate>, u: int)
    requires
        is_first_unknown(gates, u),
    ensures
        forall|v: int| #[trigger] is_first_unknown(gates, v) ==> v == u,
{
    assert forall|v: int| #[trigger] is_first_unknown(gates, v) implies v == u by {
        if v < u {
            assert(gates[v].known());
        }
        if u < v {
            assert(gates[u].known());
        }
    }
}

/// Runs the circuit `k` times from the state in `start`, filling the rows and
/// counting their lookups; returns the counts and the last state, or the first
/// opcode that is not one of the four.
pub fn run_shot(
    gates: &[Gate],
    k: usize,
    shot_id: usize,
    start: &[u32; N_LIMBS],
    block: &mut [Row],
    rc_lo_index: &RcIndex,
    rc_hi_index: &RcIndex,
) -> (r: Result<(LookupCounts, [u32; N_LIMBS]), u8>)
    requires
        old(block)@.len() >= k * gates@.len(),
        3 * (k * gates@.len()) <= u32::MAX,
        shot_id <= u32::MAX,
        k > 0 ==> operands_valid(gates@),
        limbs_wf(start@),
        rc_lo_index.lists(lo_bounds()),
        rc_hi_index.lists(hi_bounds()),
    ensures
        final(block)@.len() == old(block)@.len(),
        r is Err <==> k > 0 && exists|u: int| is_first_unknown(gates@, u),
        r matches Err(op) ==> exists|u: int| #[trigger]
            is_first_unknown(gates@, u) && op == gates@[u].opcode && rows_step(
                final(block)@,
                gates@,
                limb_state(start@),
                shot_id as int,
                u as nat,
            ) && unchanged_from(old(block)@, final(block)@, u),
        r matches Ok((counts, limbs)) ==> {
            &&& rows_step(
                final(block)@,
                gates@,
                limb_state(start@),
                shot_id as int,
                k as nat * gates@.len(),
            )
            &&& unchanged_from(old(block)@, final(block)@, k * gates@.len())
            &&& counts.counts(final(block)@, k as nat * gates@.len(), rc_lo_index, rc_hi_index)
            &&& limbs_wf(limbs@)
            &&& limb_state(limbs@) == run(gates@, limb_state(start@), k as nat * gates@.len())
        },
{
    let n_gates: usize = gates.len();
    let mut counts: LookupCounts = LookupCounts::new();
    let mut limbs: [u32; N_LIMBS] = *start;
    let ghost s0 = limb_state(start@);
    let ghost total = (k * gates@.len()) as nat;
    let mut row_idx: usize = 0;
    let mut rep: usize = 0;
    assert(0 * n_gates == 0) by (nonlinear_arith);
    while rep < k
        invariant
            rep <= k,
            n_gates == gates@.len(),
            total == k * gates@.len(),
            3 * total <= u32::MAX,
            row_idx == rep * n_gates,
            shot_id <= u32::MAX,
            block@.len() == old(block)@.len() >= total,
            operands_valid(gates@) || k == 0,
            rc_lo_index.lists(lo_bounds()),
            rc_hi_index.lists(hi_bounds()),
            s0 == limb_state(start@),
            limbs_wf(limbs@),
            limb_state(limbs@) == run(gates@, s0, row_idx as nat),
            rows_step(block@, gates@, s0, shot_id as int, row_idx as nat),
            unchanged_from(old(block)@, block@, row_idx as int),
            counts.counts(block@, row_idx as nat, rc_lo_index, rc_hi_index),
            rep > 0 ==> forall|j: int| 0 <= j < n_gates ==> (#[trigger] gates@[j]).known(),
        decreases k - rep,
    {
        let mut gi: usize = 0;
        while gi < n_gates
            invariant
                rep < k,
                gi <= n_gates,
                n_gates == gates@.len(),
                total == k * gates@.len(),
                3 * total <= u32::MAX,
                row_idx == rep * n_gates + gi,
                shot_id <= u32::MAX,
                block@.len() == old(block)@.len() >= total,
                operands_valid(gates@),
                rc_lo_index.lists(lo_bounds()),
                rc_hi_index.lists(hi_bounds()),
                s0 == limb_state(start@),
                limbs_wf(limbs@),
                limb_state(limbs@) == run(gates@, s0, row_idx as nat),
                rows_step(block@, gates@, s0, shot_id as int, row_idx as nat),
                unchanged_from(old(block)@, block@, row_idx as int),
                counts.counts(block@, row_idx as nat, rc_lo_index, rc_hi_index),
                rep > 0 ==> forall|j: int| 0 <= j < n_gates ==> (#[trigger] gates@[j]).known(),
                forall|j: int| 0 <= j < gi ==> (#[trigger] gates@[j]).known(),
            decreases n_gates - gi,
        {
            let gate: Gate = gates[gi];
            if gate.opcode > OP_TOFFOLI {
                proof {
                    if rep > 0 {
                        assert(gates@[gi as int].known());
                    }
                    assert(0 * n_gates == 0) by (nonlinear_arith);
                    assert(is_first_unknown(gates@, gi as int));
                }
                return Err(gate.opcode);
            }
            proof {
                lemma_flat_index(rep as int, k as int, n_gates as int, gi as int);
                lemma_run_step(gates@, s0, row_idx as nat);
                assert(gates@[gi as int].known());
            }
            put_row(
                &mut counts,
                block,
                row_idx,
                &gate,
                &limbs,
                shot_id as u32,
                rc_lo_index,
                rc_hi_index,
            );
            limbs = block[row_idx].out_limb;
            row_idx += 1;
            gi += 1;
        }
        proof {
            assert(rep * n_gates + n_gates == (rep + 1) * n_gates) by (nonlinear_arith);
        }
        rep += 1;
    }
    proof {
        if k > 0 {
            assert forall|u: int| !#[trigger] is_first_unknown(gates@, u) by {
                if is_first_unknown(gates@, u) {
                    assert(gates@[u].known());
                }
            }
        }
    }
    Ok((counts, limbs))
}

/// Writes one gate's row and counts its lookups.
fn put_row(
    counts: &mut LookupCounts,
    block: &mut [Row],
    row_idx: usize,
    gate: &Gate,
    limbs: &[u32; N_LIMBS],
    shot_id: u32,
    lo_idx: &RcIndex,
    hi_idx: &RcIndex,
)
    requires
        row_idx < old(block)@.len(),
        3 * (row_idx + 1) <= u32::MAX,
        gate.known(),
        gate.operands_ok(),
        limbs_wf(limbs@),
        lo_idx.lists(lo_bounds()),
        hi_idx.lists(hi_bounds()),
        old(counts).counts(old(block)@, row_idx as nat, lo_idx, hi_idx),
    ensures
        final(block)@.len() == old(block)@.len(),
        forall|j: int|
            0 <= j < final(block)@.len() && j != row_idx ==> #[trigger] final(block)@[j]
                == old(block)@[j],
        final(block)@[row_idx as int].steps(
            *gate,
            limb_state(limbs@),
            shot_id as int,
            row_idx as int,
        ),
        final(counts).counts(final(block)@, row_idx as nat + 1, lo_idx, hi_idx),
{
    let row: Row = gate_row(gate, limbs, shot_id, row_idx as u32);
    block[row_idx] = row;
    proof {
        lemma_row_in_tables(
            row,
            *gate,
            limb_state(limbs@),
            shot_id as int,
            row_idx as int,
            lo_idx,
            hi_idx,
        );
        lemma_counts_prefix(counts, old(block)@, block@, row_idx as nat, lo_idx, hi_idx);
    }
    count_row(counts, block, row_idx, lo_idx, hi_idx);
}

/// Runs the circuit `k` times on one test vector, filling the shot's rows in
/// order and counting their lookups, and compares where it ends with the
/// expected state. Rows of the block behind the shot's own stay as they are.
pub fn simulate_shot(
    gates: &[Gate],
    k: usize,
    shot_id: usize,
    case: &TestCase,
    block: &mut [Row],
    rc_lo_index: &RcIndex,
    rc_hi_index: &RcIndex,
) -> (r: Result<LookupCounts, SimError>)
    requires
        old(block)@.len() >= k * gates@.len(),
        3 * (k * gates@.len()) <= u32::MAX,
        shot_id <= u32::MAX,
        k > 0 ==> operands_valid(gates@),
        rc_lo_index.lists(lo_bounds()),
        rc_hi_index.lists(hi_bounds()),
    ensures
        final(block)@.len() == old(block)@.len(),
        shot_result(
            gates@,
            k as nat,
            shot_id as int,
            case.x_hex@,
            case.y_hex@,
            old(block)@,
            final(block)@,
            r,
            rc_lo_index,
            rc_hi_index,
        ),
{
    let x = match hex_decode(case.x_hex.as_str()) {
        Ok(v) => v,
        Err(_) => {
            return Err(SimError::XHex);
        },
    };
    let y = match hex_decode(case.y_hex.as_str()) {
        Ok(v) => v,
        Err(_) => {
            return Err(SimError::YHex);
        },
    };
    if x.len() != STATE_BYTES || y.len() != STATE_BYTES {
        return Err(SimError::StateLength);
    }
    let start: [u32; N_LIMBS] = state_to_limbs(x.as_slice());
    let (counts, limbs) = match run_shot(gates, k, shot_id, &start, block, rc_lo_index, rc_hi_index) {
        Ok(v) => v,
        Err(op) => {
            proof {
                let u = choose|u: int| #[trigger] is_first_unknown(gates@, u);
                lemma_first_unknown_is(gates@, u);
            }
            return Err(SimError::UnknownOpcode(op));
        },
    };
    proof {
        lemma_state_bytes_equal(limbs@, y@);
        lemma_state_limbs(limbs@);
    }
    let final_bytes: [u8; STATE_BYTES] = limbs_to_state(&limbs);
    if !bytes_equal(final_bytes.as_slice(), y.as_slice()) {
        return Err(SimError::FinalState { shot_id, got: hex_encode(final_bytes.as_slice()) });
    }
    Ok(counts)
}

/// Row `rep * n + g` is step `g` of repetition `rep`.
pub proof fn lemma_flat_index(rep: int, k: int, n: int, g: int)
    requires
        0 <= rep < k,
        0 <= g < n,
    ensures
        (rep * n + g) % n == g,
        (rep * n + g) / n == rep,
        0 <= rep * n + g < k * n,
{
    vstd::arithmetic::div_mod::lemma_fundamental_div_mod_converse(rep * n + g, n, rep, g);
    assert(rep * n + g < k * n) by (nonlinear_arith)
        requires
            0 <= rep < k,
            0 <= g < n,
    ;
    assert(0 <= rep * n) by (nonlinear_arith)
        requires
            0 <= rep,
            0 < n,
    ;
}

proof fn lemma_counts_prefix(
    counts: &LookupCounts,
    a: Seq<Row>,
    b: Seq<Row>,
    n: nat,
    lo: &RcIndex,
    hi: &RcIndex,
)
    requires
        counts.counts(a, n, lo, hi),
        n <= a.len() == b.len(),
        forall|j: int| 0 <= j < n ==> #[trigger] a[j] == b[j],
    ensures
        counts.counts(b, n, lo, hi),
{
    assert forall|i: int| 0 <= i < N_QUBITS implies #[trigger] counts.qdecode@[i]
        == Table::QDecode.hits(b, n, i) by {
        lemma_hits_prefix(Table::QDecode, a, b, n, i);
    }
    assert forall|i: int| 0 <= i < RC_SIZE implies #[trigger] counts.rc_lo@[i] == Table::Lo(
        lo.offset@,
    ).hits(b, n, i) by {
        lemma_hits_prefix(Table::Lo(lo.offset@), a, b, n, i);
    }
    assert forall|i: int| 0 <= i < RC_SIZE implies #[trigger] counts.rc_hi@[i] == Table::Hi(
        hi.offset@,
    ).hits(b, n, i) by {
        lemma_hits_prefix(Table::Hi(hi.offset@), a, b, n, i);
    }
}

/// Row `i` of several shots of `m` rows each is step `i % m` of shot `i / m`.
pub open spec fn all_rows_step(rows: Seq<Row>, gates: Seq<Gate>, cases: Seq<TestCase>, m: int, n: int) -> bool {
    forall|i: int|
        0 <= i < n ==> (#[trigger] rows[i]).steps(
            gates[(i % m) % gates.len() as int],
            run(gates, text_state(cases[i / m].x_hex@), (i % m) as nat),
            i / m,
            i % m,
        )
}

/// The first shot that is not accepted.
pub open spec fn is_first_refused(gates: Seq<Gate>, k: nat, cases: Seq<TestCase>, s: int) -> bool {
    &&& 0 <= s < cases.len()
    &&& !(shot_outcome(gates, k, cases[s].x_hex@, cases[s].y_hex@) is Accepted)
    &&& forall|j: int|
        0 <= j < s ==> shot_outcome(gates, k, (#[trigger] cases[j]).x_hex@, cases[j].y_hex@)
            is Accepted
}

/// The error of an outcome; `end` is the text of the state in which the run ends.
pub open spec fn error_of(o: Outcome, e: SimError, shot: int, end: Seq<char>) -> bool {
    match o {
        Outcome::XHex => e is XHex,
        Outcome::YHex => e is YHex,
        Outcome::StateLength => e is StateLength,
        Outcome::UnknownOpcode(op) => e matches SimError::UnknownOpcode(p) && p == op,
        Outcome::FinalState => e matches SimError::FinalState { shot_id, got } && shot_id == shot
            && got@ == end,
        Outcome::Accepted => false,
    }
}

/// What `build_rows` promises: the rows of all shots and their counts, which fit their
/// counters, or the error of the first shot that is refused.
pub open spec fn rows_result(
    gates: Seq<Gate>,
    k: nat,
    cases: Seq<TestCase>,
    r: Result<(Vec<Row>, LookupCounts), SimError>,
    lo: &RcIndex,
    hi: &RcIndex,
) -> bool {
    &&& r is Ok <==> forall|s: int| !#[trigger] is_first_refused(gates, k, cases, s)
    &&& r matches Ok((rows, counts)) ==> {
        &&& k > 0 && gates.len() > 0 && operands_valid(gates)
        &&& 3 * (cases.len() * (k * gates.len())) <= u32::MAX
        &&& lo.lists(lo_bounds()) && hi.lists(hi_bounds())
        &&& rows@.len() == cases.len() * (k * gates.len())
        &&& all_rows_step(rows@, gates, cases, (k * gates.len()) as int, rows@.len() as int)
        &&& counts.counts(rows@, rows@.len(), lo, hi)
    }
    &&& r matches Err(e) ==> exists|s: int| #[trigger]
        is_first_refused(gates, k, cases, s) && error_of(
            shot_outcome(gates, k, cases[s].x_hex@, cases[s].y_hex@),
            e,
            s,
            end_text(gates, k, cases[s].x_hex@),
        )
}

/// Builds the rows of all shots and counts their lookups; fails with the error
/// of the first shot that is refused.
pub fn build_rows(
    gates: &[Gate],
    cases: &[TestCase],
    k: usize,
    rc_lo_index: &RcIndex,
    rc_hi_index: &RcIndex,
) -> (r: Result<(Vec<Row>, LookupCounts), SimError>)
    requires
        k > 0,
        gates@.len() > 0,
        3 * (cases@.len() * (k * gates@.len())) <= u32::MAX,
        operands_valid(gates@),
        rc_lo_index.lists(lo_bounds()),
        rc_hi_index.lists(hi_bounds()),
    ensures
        rows_result(gates@, k as nat, cases@, r, rc_lo_index, rc_hi_index),
{
    let n_gates: usize = gates.len();
    let ghost m = k * gates@.len();
    proof {
        assert(m > 0) by (nonlinear_arith)
            requires
                k > 0,
                gates@.len() > 0,
                m == k * gates@.len(),
        ;
        assert(cases@.len() == 0 || m <= cases@.len() * m) by (nonlinear_arith)
            requires
                m > 0,
        ;
    }
    let mut rows: Vec<Row> = Vec::new();
    let mut counts: LookupCounts = LookupCounts::new();
    let mut shot_id: usize = 0;
    while shot_id < cases.len()
        invariant
            shot_id <= cases@.len(),
            n_gates == gates@.len(),
            k > 0,
            n_gates > 0,
            m == k * gates@.len(),
            m > 0,
            3 * (cases@.len() * m) <= u32::MAX,
            operands_valid(gates@),
            rc_lo_index.lists(lo_bounds()),
            rc_hi_index.lists(hi_bounds()),
            rows@.len() == shot_id * m,
            all_rows_step(rows@, gates@, cases@, m, rows@.len() as int),
            counts.counts(rows@, rows@.len(), rc_lo_index, rc_hi_index),
            forall|j: int|
                0 <= j < shot_id ==> shot_outcome(
                    gates@,
                    k as nat,
                    (#[trigger] cases@[j]).x_hex@,
                    cases@[j].y_hex@,
                ) is Accepted,
        decreases cases.len() - shot_id,
    {
        proof {
            assert((shot_id + 1) * m <= cases@.len() * m && shot_id <= shot_id * m && (shot_id + 1) * m
                == shot_id * m + m) by (nonlinear_arith)
                requires
                    0 <= shot_id < cases@.len(),
                    m > 0,
            ;
        }
        let mut block: Vec<Row> = vec![Row::padding(); k * n_gates];
        let result = simulate_shot(
            gates,
            k,
            shot_id,
            &cases[shot_id],
            block.as_mut_slice(),
            rc_lo_index,
            rc_hi_index,
        );
        let local: LookupCounts = match result {
            Ok(c) => c,
            Err(e) => {
                assert(is_first_refused(gates@, k as nat, cases@, shot_id as int));
                return Err(e);
            },
        };
        let ghost r0 = rows@;
        let ghost b = block@;
        let ghost c0 = counts;
        proof {
            lemma_merged_counts(&c0, &local, r0, b, rc_lo_index, rc_hi_index);
        }
        counts.add_assign(&local);
        rows.append(&mut block);
        proof {
            assert(rows@ == r0 + b);
            lemma_merged_counts_after(&c0, &local, &counts, r0, b, rc_lo_index, rc_hi_index);
            assert forall|i: int| 0 <= i < rows@.len() implies (#[trigger] rows@[i]).steps(
                gates@[(i % m) % gates@.len() as int],
                run(gates@, text_state(cases@[i / m].x_hex@), (i % m) as nat),
                i / m,
                i % m,
            ) by {
                if i < r0.len() {
                    assert(rows@[i] == r0[i]);
                } else {
                    let j = i - shot_id * m;
                    lemma_flat_index(shot_id as int, shot_id + 1, m, j);
                    assert(rows@[i] == b[j]);
                }
            }
        }
        shot_id += 1;
    }
    proof {
        assert forall|s: int| !#[trigger] is_first_refused(gates@, k as nat, cases@, s) by {
            if 0 <= s < cases@.len() {
                assert(shot_outcome(gates@, k as nat, cases@[s].x_hex@, cases@[s].y_hex@) is Accepted);
            }
        }
    }
    Ok((rows, counts))
}

/// The counts of two stretches of rows fit together.
proof fn lemma_merged_counts(
    c: &LookupCounts,
    l: &LookupCounts,
    a: Seq<Row>,
    b: Seq<Row>,
    lo: &RcIndex,
    hi: &RcIndex,
)
    requires
        c.counts(a, a.len(), lo, hi),
        l.counts(b, b.len(), lo, hi),
        3 * (a.len() + b.len()) <= u32::MAX,
    ensures
        forall|i: int| 0 <= i < N_QUBITS ==> #[trigger] c.qdecode@[i] + l.qdecode@[i] <= u32::MAX,
        forall|i: int| 0 <= i < RC_SIZE ==> #[trigger] c.rc_lo@[i] + l.rc_lo@[i] <= u32::MAX,
        forall|i: int| 0 <= i < RC_SIZE ==> #[trigger] c.rc_hi@[i] + l.rc_hi@[i] <= u32::MAX,
{
    let (tq, tl, th) = (Table::QDecode, Table::Lo(lo.offset@), Table::Hi(hi.offset@));
    assert forall|i: int| 0 <= i < N_QUBITS implies #[trigger] c.qdecode@[i] + l.qdecode@[i]
        <= u32::MAX by {
        lemma_hits_bound(tq, a, a.len(), i);
        lemma_hits_bound(tq, b, b.len(), i);
        assert(l.qdecode@[i] == tq.hits(b, b.len(), i));
    }
    assert forall|i: int| 0 <= i < RC_SIZE implies #[trigger] c.rc_lo@[i] + l.rc_lo@[i]
        <= u32::MAX by {
        lemma_hits_bound(tl, a, a.len(), i);
        lemma_hits_bound(tl, b, b.len(), i);
        assert(l.rc_lo@[i] == tl.hits(b, b.len(), i));
    }
    assert forall|i: int| 0 <= i < RC_SIZE implies #[trigger] c.rc_hi@[i] + l.rc_hi@[i]
        <= u32::MAX by {
        lemma_hits_bound(th, a, a.len(), i);
        lemma_hits_bound(th, b, b.len(), i);
        assert(l.rc_hi@[i] == th.hits(b, b.len(), i));
    }
}

proof fn lemma_merged_counts_after(
    c: &LookupCounts,
    l: &LookupCounts,
    s: &LookupCounts,
    a: Seq<Row>,
    b: Seq<Row>,
    lo: &RcIndex,
    hi: &RcIndex,
)
    requires
        c.counts(a, a.len(), lo, hi),
        l.counts(b, b.len(), lo, hi),
        s.sized(),
        forall|i: int| 0 <= i < N_QUBITS ==> #[trigger] s.qdecode@[i] == c.qdecode@[i] + l.qdecode@[i],
        forall|i: int| 0 <= i < RC_SIZE ==> #[trigger] s.rc_lo@[i] == c.rc_lo@[i] + l.rc_lo@[i],
        forall|i: int| 0 <= i < RC_SIZE ==> #[trigger] s.rc_hi@[i] == c.rc_hi@[i] + l.rc_hi@[i],
    ensures
        s.counts(a + b, (a + b).len(), lo, hi),
{
    let (tq, tl, th) = (Table::QDecode, Table::Lo(lo.offset@), Table::Hi(hi.offset@));
    let n = (a + b).len();
    assert forall|i: int| 0 <= i < N_QUBITS implies #[trigger] s.qdecode@[i] == tq.hits(a + b, n, i) by {
        lemma_hits_append(tq, a, b, b.len(), i);
        assert(c.qdecode@[i] == tq.hits(a, a.len(), i));
        assert(l.qdecode@[i] == tq.hits(b, b.len(), i));
    }
    assert forall|i: int| 0 <= i < RC_SIZE implies #[trigger] s.rc_lo@[i] == tl.hits(a + b, n, i) by {
        lemma_hits_append(tl, a, b, b.len(), i);
        assert(c.rc_lo@[i] == tl.hits(a, a.len(), i));
        assert(l.rc_lo@[i] == tl.hits(b, b.len(), i));
    }
    assert forall|i: int| 0 <= i < RC_SIZE implies #[trigger] s.rc_hi@[i] == th.hits(a + b, n, i) by {
        lemma_hits_append(th, a, b, b.len(), i);
        assert(c.rc_hi@[i] == th.hits(a, a.len(), i));
        assert(l.rc_hi@[i] == th.hits(b, b.len(), i));
    }
}

} // verus!
