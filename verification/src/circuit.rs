//! Circuits of reversible gates on 512 qubits, and the states they act on.
//!
//! A state is modelled as the sequence of its 512 bits; it is held as 64 bytes
//! or as 32 limbs of 16 bits, least significant first.
use vstd::arithmetic::power2::{
    lemma2_to64, lemma_pow2_pos, lemma_pow2_strictly_increases, lemma_pow2_unfold, pow2,
};
use vstd::prelude::*;

use crate::hexes::{hex_bytes, hex_decode, is_hex};

verus! {

pub const N_QUBITS: usize = 512;

pub const LIMB_BITS: usize = 16;

pub const N_LIMBS: usize = 32;

pub const STATE_BYTES: usize = 64;

/// The operand of a control that a gate does not have.
pub const NO_CTRL: u16 = 0xFFFF;

pub const OP_NOP: u8 = 0;

pub const OP_NOT: u8 = 1;

pub const OP_CNOT: u8 = 2;

pub const OP_TOFFOLI: u8 = 3;

/// One gate: what it does, the qubit it writes, and the qubits it reads.
#[derive(Clone, Copy, Debug, PartialEq, Eq, Structural)]
pub struct Gate {
    pub opcode: u8,
    pub target: u16,
    pub ctrl_a: u16,
    pub ctrl_b: u16,
}

impl Gate {
    pub open spec fn known(self) -> bool {
        self.opcode <= OP_TOFFOLI
    }

    /// This gate reads its first control.
    pub open spec fn a_active(self) -> bool {
        self.opcode == OP_CNOT || self.opcode == OP_TOFFOLI
    }

    /// This gate reads its second control.
    pub open spec fn b_active(self) -> bool {
        self.opcode == OP_TOFFOLI
    }

    /// The qubits that this gate touches exist.
    pub open spec fn operands_ok(self) -> bool {
        &&& self.target < N_QUBITS
        &&& self.a_active() ==> self.ctrl_a < N_QUBITS
        &&& self.b_active() ==> self.ctrl_b < N_QUBITS
    }

    /// This gate flips its target in state `s`.
    pub open spec fn fires(self, s: Seq<bool>) -> bool {
        if self.opcode == OP_NOT {
            true
        } else if self.opcode == OP_CNOT {
            s[self.ctrl_a as int]
        } else if self.opcode == OP_TOFFOLI {
            s[self.ctrl_a as int] && s[self.ctrl_b as int]
        } else {
            false
        }
    }

    /// The state after this gate: the target flipped where this gate fires.
    pub open spec fn apply(self, s: Seq<bool>) -> Seq<bool> {
        s.update(self.target as int, s[self.target as int] != self.fires(s))
    }
}

/// The state after `n` steps of a program that is run over and over.
pub open spec fn run(gates: Seq<Gate>, s: Seq<bool>, n: nat) -> Seq<bool>
    decreases n,
{
    if n == 0 {
        s
    } else {
        gates[(n - 1) % (gates.len() as int)].apply(run(gates, s, (n - 1) as nat))
    }
}

/// `u` is the first gate whose opcode is not one of the four.
pub open spec fn is_first_unknown(gates: Seq<Gate>, u: int) -> bool {
    &&& 0 <= u < gates.len()
    &&& !gates[u].known()
    &&& forall|j: int| 0 <= j < u ==> (#[trigger] gates[j]).known()
}

/// Every gate that is reached has operands that exist.
pub open spec fn operands_valid(gates: Seq<Gate>) -> bool {
    forall|i: int|
        0 <= i < gates.len() && (forall|j: int| 0 <= j <= i ==> (#[trigger] gates[j]).known())
            ==> (#[trigger] gates[i]).operands_ok()
}

/// Bit `p` of a limb.
pub open spec fn limb_bit(l: u32, p: u32) -> bool {
    (l >> p) & 1 == 1
}

/// The bits of 32 limbs.
pub open spec fn limb_state(limbs: Seq<u32>) -> Seq<bool> {
    Seq::new(
        N_QUBITS as nat,
        |q: int| limb_bit(limbs[q / LIMB_BITS as int], (q % LIMB_BITS as int) as u32),
    )
}

/// 32 limbs of at most 16 bits each.
pub open spec fn limbs_wf(limbs: Seq<u32>) -> bool {
    limbs.len() == N_LIMBS && forall|j: int| 0 <= j < N_LIMBS ==> #[trigger] limbs[j] < 0x1_0000
}

/// The limbs of a state given as bytes: limb `j` is bytes `2j` and `2j + 1`.
pub open spec fn byte_limbs(bytes: Seq<u8>) -> Seq<u32> {
    Seq::new(N_LIMBS as nat, |j: int| (bytes[2 * j] + 256 * bytes[2 * j + 1]) as u32)
}

/// The bytes of 32 limbs, low byte first.
pub open spec fn limb_bytes(limbs: Seq<u32>) -> Seq<u8> {
    Seq::new(
        STATE_BYTES as nat,
        |i: int|
            if i % 2 == 0 {
                (limbs[i / 2] as int % 256) as u8
            } else {
                (limbs[i / 2] as int / 256 % 256) as u8
            },
    )
}

/// The limbs of a state of 64 bytes.
pub fn state_to_limbs(bytes: &[u8]) -> (limbs: [u32; N_LIMBS])
    requires
        bytes@.len() == STATE_BYTES,
    ensures
        limbs@ == byte_limbs(bytes@),
        limbs_wf(limbs@),
{
    let mut limbs: [u32; N_LIMBS] = [0u32; N_LIMBS];
    let mut j: usize = 0;
    while j < N_LIMBS
        invariant
            j <= N_LIMBS,
            bytes@.len() == STATE_BYTES,
            limbs@.len() == N_LIMBS,
            forall|i: int| 0 <= i < j ==> #[trigger] limbs@[i] == bytes@[2 * i] + 256 * bytes@[2 * i + 1],
        decreases N_LIMBS - j,
    {
        let lo: u32 = bytes[2 * j] as u32;
        let hi: u32 = bytes[2 * j + 1] as u32;
        assert(lo | (hi << 8) == lo + 256 * hi) by (bit_vector)
            requires
                lo < 256,
                hi < 256,
        ;
        limbs[j] = lo | (hi << 8);
        j += 1;
    }
    assert(limbs@ =~= byte_limbs(bytes@));
    limbs
}

/// The 64 bytes of a state's limbs.
pub fn limbs_to_state(limbs: &[u32; N_LIMBS]) -> (out: [u8; STATE_BYTES])
    ensures
        out@ == limb_bytes(limbs@),
{
    let mut out: [u8; STATE_BYTES] = [0u8; STATE_BYTES];
    let mut j: usize = 0;
    while j < N_LIMBS
        invariant
            j <= N_LIMBS,
            out@.len() == STATE_BYTES,
            limbs@.len() == N_LIMBS,
            forall|i: int| 0 <= i < 2 * j ==> #[trigger] out@[i] == limb_bytes(limbs@)[i],
        decreases N_LIMBS - j,
    {
        let l: u32 = limbs[j];
        assert((l & 0xff) == l % 256 && ((l >> 8) & 0xff) == l / 256 % 256) by (bit_vector);
        out[2 * j] = (l & 0xff) as u8;
        out[2 * j + 1] = ((l >> 8) & 0xff) as u8;
        j += 1;
    }
    assert(out@ =~= limb_bytes(limbs@));
    out
}

/// Bytes turned into limbs and back are unchanged.
pub proof fn lemma_bytes_round_trip(bytes: Seq<u8>)
    requires
        bytes.len() == STATE_BYTES,
    ensures
        limb_bytes(byte_limbs(bytes)) == bytes,
{
    assert(limb_bytes(byte_limbs(bytes)) =~= bytes);
}

/// Limbs of 16 bits turned into bytes and back are unchanged.
pub proof fn lemma_limbs_round_trip(limbs: Seq<u32>)
    requires
        limbs_wf(limbs),
    ensures
        byte_limbs(limb_bytes(limbs)) == limbs,
{
    assert(byte_limbs(limb_bytes(limbs)) =~= limbs);
}

/// A gate that does not read the qubit it writes undoes itself.
pub proof fn lemma_gate_self_inverse(g: Gate, s: Seq<bool>)
    requires
        s.len() == N_QUBITS,
        g.operands_ok(),
        g.a_active() ==> g.ctrl_a != g.target,
        g.b_active() ==> g.ctrl_b != g.target,
    ensures
        g.apply(g.apply(s)) == s,
{
    assert(g.apply(g.apply(s)) =~= s);
}

/// The position of a qubit: its limb, its bit in the limb, and that bit's weight.
pub fn qubit_decode(q: u16) -> (r: (u32, u32, u32))
    ensures
        r.0 == q / 16,
        r.1 == q % 16,
        r.2 == 1u32 << r.1,
        r.2 == pow2(r.1 as nat),
{
    let limb_idx: u32 = (q as u32) / LIMB_BITS as u32;
    let bit_pos: u32 = (q as u32) % LIMB_BITS as u32;
    let mask: u32 = 1u32 << bit_pos;
    proof {
        lemma_mask(bit_pos);
    }
    (limb_idx, bit_pos, mask)
}

/// The weight of bit `p` of a limb is the `p`-th power of two.
pub proof fn lemma_mask(p: u32)
    requires
        p < 16,
    ensures
        1u32 << p == pow2(p as nat),
        1 <= 1u32 << p <= 0x8000,
{
    lemma2_to64();
    lemma_pow2_pos(p as nat);
    if p < 15 {
        lemma_pow2_strictly_increases(p as nat, 15);
    }
    vstd::bits::lemma_u32_shl_is_mul(1u32, p);
}

/// Setting a clear bit of a limb changes that bit alone.
pub proof fn lemma_set_bit(l: u32, p: u32, r: u32)
    by (bit_vector)
    requires
        l < 0x1_0000,
        p < 16,
        r < 16,
        (l >> p) & 1 == 0,
    ensures
        l + (1u32 << p) < 0x1_0000,
        (((l + (1u32 << p)) as u32) >> r) & 1 == (if r == p { 1u32 } else { (l >> r) & 1 }),
{
}

/// Clearing a set bit of a limb changes that bit alone.
pub proof fn lemma_clear_bit(l: u32, p: u32, r: u32)
    by (bit_vector)
    requires
        l < 0x1_0000,
        p < 16,
        r < 16,
        (l >> p) & 1 == 1,
    ensures
        l >= (1u32 << p),
        (((l - (1u32 << p)) as u32) >> r) & 1 == (if r == p { 0u32 } else { (l >> r) & 1 }),
{
}

/// Sixteen equal bits make two limbs equal.
proof fn lemma_limb_ext(a: u32, b: u32)
    by (bit_vector)
    requires
        a < 0x1_0000,
        b < 0x1_0000,
        (a >> 0u32) & 1 == (b >> 0u32) & 1,
        (a >> 1u32) & 1 == (b >> 1u32) & 1,
        (a >> 2u32) & 1 == (b >> 2u32) & 1,
        (a >> 3u32) & 1 == (b >> 3u32) & 1,
        (a >> 4u32) & 1 == (b >> 4u32) & 1,
        (a >> 5u32) & 1 == (b >> 5u32) & 1,
        (a >> 6u32) & 1 == (b >> 6u32) & 1,
        (a >> 7u32) & 1 == (b >> 7u32) & 1,
        (a >> 8u32) & 1 == (b >> 8u32) & 1,
        (a >> 9u32) & 1 == (b >> 9u32) & 1,
        (a >> 10u32) & 1 == (b >> 10u32) & 1,
        (a >> 11u32) & 1 == (b >> 11u32) & 1,
        (a >> 12u32) & 1 == (b >> 12u32) & 1,
        (a >> 13u32) & 1 == (b >> 13u32) & 1,
        (a >> 14u32) & 1 == (b >> 14u32) & 1,
        (a >> 15u32) & 1 == (b >> 15u32) & 1,
    ensures
        a == b,
{
}

proof fn lemma_bit_range(l: u32, p: u32)
    by (bit_vector)
    ensures
        (l >> p) & 1 == 0 || (l >> p) & 1 == 1,
        (l >> p) & 1 == (l >> p) % 2,
{
}

proof fn lemma_same_bit(a: Seq<u32>, b: Seq<u32>, j: int, p: u32)
    requires
        limb_state(a) == limb_state(b),
        0 <= j < N_LIMBS,
        p < 16,
    ensures
        (a[j] >> p) & 1 == (b[j] >> p) & 1,
{
    let q = 16 * j + p;
    assert(q / 16 == j && (q % 16) as u32 == p);
    assert(limb_state(a)[q] == limb_bit(a[j], p));
    assert(limb_state(b)[q] == limb_bit(b[j], p));
    lemma_bit_range(a[j], p);
    lemma_bit_range(b[j], p);
}

/// The bits determine the limbs.
pub proof fn lemma_limb_state_injective(a: Seq<u32>, b: Seq<u32>)
    requires
        limbs_wf(a),
        limbs_wf(b),
        limb_state(a) == limb_state(b),
    ensures
        a == b,
{
    assert forall|j: int| 0 <= j < N_LIMBS implies a[j] == b[j] by {
        lemma_same_bit(a, b, j, 0);
        lemma_same_bit(a, b, j, 1);
        lemma_same_bit(a, b, j, 2);
        lemma_same_bit(a, b, j, 3);
        lemma_same_bit(a, b, j, 4);
        lemma_same_bit(a, b, j, 5);
        lemma_same_bit(a, b, j, 6);
        lemma_same_bit(a, b, j, 7);
        lemma_same_bit(a, b, j, 8);
        lemma_same_bit(a, b, j, 9);
        lemma_same_bit(a, b, j, 10);
        lemma_same_bit(a, b, j, 11);
        lemma_same_bit(a, b, j, 12);
        lemma_same_bit(a, b, j, 13);
        lemma_same_bit(a, b, j, 14);
        lemma_same_bit(a, b, j, 15);
        lemma_limb_ext(a[j], b[j]);
    }
    assert(a =~= b);
}

/// The limbs that hold the bits of a state.
pub open spec fn state_limbs(s: Seq<bool>) -> Seq<u32> {
    choose|l: Seq<u32>| limbs_wf(l) && #[trigger] limb_state(l) == s
}

pub proof fn lemma_state_limbs(limbs: Seq<u32>)
    requires
        limbs_wf(limbs),
    ensures
        state_limbs(limb_state(limbs)) == limbs,
{
    lemma_limb_state_injective(state_limbs(limb_state(limbs)), limbs);
}

/// Two states are equal exactly if their bytes are.
pub proof fn lemma_state_bytes_equal(limbs: Seq<u32>, bytes: Seq<u8>)
    requires
        limbs_wf(limbs),
        bytes.len() == STATE_BYTES,
    ensures
        limb_bytes(limbs) == bytes <==> limb_state(limbs) == limb_state(byte_limbs(bytes)),
{
    lemma_bytes_round_trip(bytes);
    lemma_limbs_round_trip(limbs);
    assert(limbs_wf(byte_limbs(bytes)));
    if limb_state(limbs) == limb_state(byte_limbs(bytes)) {
        lemma_limb_state_injective(limbs, byte_limbs(bytes));
    }
}

/// One more step of a run.
pub proof fn lemma_run_step(gates: Seq<Gate>, s: Seq<bool>, n: nat)
    ensures
        run(gates, s, n + 1) == gates[n as int % gates.len() as int].apply(run(gates, s, n)),
{
}

/// The weight of bit `p`.
pub open spec fn weight(p: u32) -> int {
    pow2(p as nat) as int
}

/// A limb is its bits above `p`, bit `p`, and its bits below `p`.
pub proof fn lemma_split(l: u32, p: u32)
    requires
        p < 16,
    ensures
        l & (((1u32 << p) - 1) as u32) == l as int % weight(p),
        (l >> p) & 1 == l as int / weight(p) % 2,
        l >> ((p + 1) as u32) == l as int / (2 * weight(p)),
        0 <= l as int % weight(p),
        l as int % weight(p) < weight(p),
        l == l as int / (2 * weight(p)) * (2 * weight(p)) + (l as int / weight(p) % 2) * weight(p)
            + l as int % weight(p),
{
    lemma_mask(p);
    let m = weight(p);
    lemma_pow2_pos(p as nat);
    vstd::bits::lemma_u32_low_bits_mask_is_mod(l, p as nat);
    vstd::bits::lemma_u32_shr_is_div(l, p);
    vstd::bits::lemma_u32_shr_is_div(l, (p + 1) as u32);
    lemma_pow2_unfold((p + 1) as nat);
    lemma_bit_range(l, p);
    let x = l as int;
    vstd::arithmetic::div_mod::lemma_div_denominator(x, m, 2);
    vstd::arithmetic::div_mod::lemma_fundamental_div_mod(x, m);
    vstd::arithmetic::div_mod::lemma_fundamental_div_mod(x / m, 2);
    vstd::arithmetic::div_mod::lemma_mod_bound(x, m);
    let h = x / m / 2;
    let b = x / m % 2;
    assert(m * (2 * h + b) == h * (2 * m) + b * m) by (nonlinear_arith);
    assert(2 * m == m * 2);
}

/// The bits above `p` of a 16-bit limb.
pub proof fn lemma_high_part(l: u32, p: u32)
    requires
        p < 16,
        l < 0x1_0000,
    ensures
        l as int / (2 * weight(p)) < weight((15 - p) as u32),
{
    lemma2_to64();
    vstd::arithmetic::power2::lemma_pow2_adds((p + 1) as nat, (15 - p) as nat);
    lemma_pow2_unfold((p + 1) as nat);
    lemma_pow2_pos(p as nat);
    let d = 2 * weight(p);
    let e = weight((15 - p) as u32);
    let x = l as int;
    vstd::arithmetic::div_mod::lemma_fundamental_div_mod(x, d);
    vstd::arithmetic::div_mod::lemma_mod_bound(x, d);
    if x / d >= e {
        assert(d * (x / d) >= d * e) by (nonlinear_arith)
            requires
                x / d >= e,
                d > 0,
        ;
    }
}

/// The bits of 32 limbs.
pub fn limbs_to_bits(limbs: &[u32; N_LIMBS]) -> (bits: Vec<bool>)
    ensures
        bits@ == limb_state(limbs@),
{
    let mut bits: Vec<bool> = Vec::new();
    let mut q: usize = 0;
    while q < N_QUBITS
        invariant
            q <= N_QUBITS,
            limbs@.len() == N_LIMBS,
            bits@.len() == q,
            forall|i: int| 0 <= i < q ==> #[trigger] bits@[i] == limb_state(limbs@)[i],
        decreases N_QUBITS - q,
    {
        let p: u32 = (q % LIMB_BITS) as u32;
        bits.push((limbs[q / LIMB_BITS] >> p) & 1 == 1);
        q += 1;
    }
    assert(bits@ =~= limb_state(limbs@));
    bits
}

proof fn lemma_zero_bits(p: u32)
    by (bit_vector)
    ensures
        (0u32 >> p) & 1 == 0,
{
}

/// The limbs that hold the given bits.
pub fn bits_to_limbs(bits: &Vec<bool>) -> (limbs: [u32; N_LIMBS])
    requires
        bits@.len() == N_QUBITS,
    ensures
        limbs_wf(limbs@),
        limb_state(limbs@) == bits@,
{
    let mut limbs: [u32; N_LIMBS] = [0u32; N_LIMBS];
    let mut j: usize = 0;
    while j < N_LIMBS
        invariant
            j <= N_LIMBS,
            bits@.len() == N_QUBITS,
            limbs@.len() == N_LIMBS,
            forall|i: int| 0 <= i < j ==> #[trigger] limbs@[i] < 0x1_0000,
            forall|q: int|
                0 <= q < 16 * j ==> limb_bit(limbs@[q / 16], (q % 16) as u32) == #[trigger] bits@[q],
        decreases N_LIMBS - j,
    {
        let mut l: u32 = 0;
        let mut p: u32 = 0;
        proof {
            assert forall|r: u32| r < 16 implies !#[trigger] limb_bit(0u32, r) by {
                lemma_zero_bits(r);
            }
        }
        while p < 16
            invariant
                p <= 16,
                j < N_LIMBS,
                l < 0x1_0000,
                bits@.len() == N_QUBITS,
                forall|r: u32|
                    r < 16 ==> #[trigger] limb_bit(l, r) == (r < p && bits@[16 * j + r]),
            decreases 16 - p,
        {
            let ghost l0 = l;
            if bits[16 * j + p as usize] {
                proof {
                    assert(!limb_bit(l, p));
                    lemma_bit_range(l, p);
                    lemma_set_bit(l, p, p);
                }
                l = l + (1u32 << p);
                proof {
                    assert forall|r: u32| r < 16 implies #[trigger] limb_bit(l, r) == (r < p + 1
                        && bits@[16 * j + r]) by {
                        lemma_set_bit(l0, p, r);
                        lemma_bit_range(l0, r);
                        assert(limb_bit(l0, r) == (r < p && bits@[16 * j + r]));
                    }
                }
            }
            p += 1;
        }
        let ghost before = limbs@;
        limbs[j] = l;
        proof {
            assert forall|q: int| 0 <= q < 16 * (j + 1) implies limb_bit(
                limbs@[q / 16],
                (q % 16) as u32,
            ) == #[trigger] bits@[q] by {
                if q < 16 * j {
                    assert(limbs@[q / 16] == before[q / 16]);
                } else {
                    let r = (q % 16) as u32;
                    assert(q / 16 == j);
                    assert(limb_bit(l, r) == bits@[16 * j + r]);
                }
            }
        }
        j += 1;
    }
    assert(limb_state(limbs@) =~= bits@);
    limbs
}

/// A test vector: the state before and the state after the whole run, as text.
#[derive(Debug)]
pub struct TestCase {
    pub x_hex: String,
    pub y_hex: String,
}

/// Whether every gate that is reached has operands that exist.
pub fn operands_exist(gates: &[Gate]) -> (r: bool)
    ensures
        r == operands_valid(gates@),
{
    let mut i: usize = 0;
    while i < gates.len()
        invariant
            i <= gates@.len(),
            forall|j: int| 0 <= j < i ==> (#[trigger] gates@[j]).known() && gates@[j].operands_ok(),
        decreases gates.len() - i,
    {
        let g: Gate = gates[i];
        if g.opcode > OP_TOFFOLI {
            assert forall|n: int|
                0 <= n < gates@.len() && (forall|j: int|
                    0 <= j <= n ==> (#[trigger] gates@[j]).known()) implies (
            #[trigger] gates@[n]).operands_ok() by {
                if n >= i {
                    assert(gates@[i as int].known());
                }
            }
            return true;
        }
        let n: u16 = 512;
        let a_active: bool = g.opcode == OP_CNOT || g.opcode == OP_TOFFOLI;
        let b_active: bool = g.opcode == OP_TOFFOLI;
        if g.target >= n || (a_active && g.ctrl_a >= n) || (b_active && g.ctrl_b >= n) {
            assert(!gates@[i as int].operands_ok());
            return false;
        }
        i += 1;
    }
    true
}

/// What a text that is no circuit gets.
#[derive(Clone, Copy, Debug, PartialEq, Eq, Structural)]
pub enum ParseError {
    /// Not hexadecimal.
    Hex,
    /// Too short, or without the four leading bytes `GTV1`.
    BadMagic,
    /// The count of gates and the number of bytes disagree.
    LengthMismatch { got: usize, expected: u64 },
}

pub open spec fn le16(lo: u8, hi: u8) -> int {
    lo + 256 * hi
}

pub open spec fn le32(b: Seq<u8>, i: int) -> int {
    b[i] + 256 * b[i + 1] + 65536 * b[i + 2] + 16777216 * b[i + 3]
}

/// At least eight bytes that begin with `GTV1`.
pub open spec fn has_magic(b: Seq<u8>) -> bool {
    b.len() >= 8 && b[0] == 0x47 && b[1] == 0x54 && b[2] == 0x56 && b[3] == 0x31
}

/// One gate, in the eight bytes at `off`: opcode, a byte of padding, then the
/// three operands, low byte first.
pub open spec fn gate_at(b: Seq<u8>, off: int) -> Gate {
    Gate {
        opcode: b[off],
        target: le16(b[off + 2], b[off + 3]) as u16,
        ctrl_a: le16(b[off + 4], b[off + 5]) as u16,
        ctrl_b: le16(b[off + 6], b[off + 7]) as u16,
    }
}

/// The circuit that a sequence of bytes holds.
pub open spec fn circuit_of(b: Seq<u8>) -> Result<Seq<Gate>, ParseError> {
    if !has_magic(b) {
        Err(ParseError::BadMagic)
    } else if b.len() != 8 + 8 * le32(b, 4) {
        Err(
            ParseError::LengthMismatch {
                got: b.len() as usize,
                expected: (8 + 8 * le32(b, 4)) as u64,
            },
        )
    } else {
        Ok(Seq::new(le32(b, 4) as nat, |i: int| gate_at(b, 8 + 8 * i)))
    }
}

fn u16_le(lo: u8, hi: u8) -> (r: u16)
    ensures
        r == le16(lo, hi),
{
    lo as u16 + 256 * (hi as u16)
}

/// Reads a circuit from its bytes.
pub fn parse_gtv1_bytes(bytes: &[u8]) -> (r: Result<Vec<Gate>, ParseError>)
    ensures
        match circuit_of(bytes@) {
            Ok(gates) => r is Ok && r->Ok_0@ == gates,
            Err(e) => r == Err::<Vec<Gate>, ParseError>(e),
        },
{
    if bytes.len() < 8 || bytes[0] != 0x47 || bytes[1] != 0x54 || bytes[2] != 0x56 || bytes[3]
        != 0x31 {
        return Err(ParseError::BadMagic);
    }
    let n_gates: u64 = bytes[4] as u64 + 256 * (bytes[5] as u64) + 65536 * (bytes[6] as u64)
        + 16777216 * (bytes[7] as u64);
    let expected: u64 = 8 + 8 * n_gates;
    if bytes.len() as u64 != expected {
        return Err(ParseError::LengthMismatch { got: bytes.len(), expected });
    }
    let mut gates: Vec<Gate> = Vec::new();
    let mut off: usize = 8;
    while off < bytes.len()
        invariant
            bytes@.len() == 8 + 8 * n_gates,
            off == 8 + 8 * gates@.len(),
            gates@.len() <= n_gates,
            forall|i: int| 0 <= i < gates@.len() ==> #[trigger] gates@[i] == gate_at(bytes@, 8 + 8 * i),
        decreases bytes.len() - off,
    {
        gates.push(
            Gate {
                opcode: bytes[off],
                target: u16_le(bytes[off + 2], bytes[off + 3]),
                ctrl_a: u16_le(bytes[off + 4], bytes[off + 5]),
                ctrl_b: u16_le(bytes[off + 6], bytes[off + 7]),
            },
        );
        off += 8;
    }
    assert(gates@ =~= circuit_of(bytes@)->Ok_0);
    Ok(gates)
}

/// Reads a circuit from hexadecimal text.
pub fn parse_gtv1(hex_str: &str) -> (r: Result<Vec<Gate>, ParseError>)
    ensures
        !is_hex(hex_str@) ==> r == Err::<Vec<Gate>, ParseError>(ParseError::Hex),
        is_hex(hex_str@) ==> match circuit_of(hex_bytes(hex_str@)) {
            Ok(gates) => r is Ok && r->Ok_0@ == gates,
            Err(e) => r == Err::<Vec<Gate>, ParseError>(e),
        },
{
    match hex_decode(hex_str) {
        Ok(bytes) => parse_gtv1_bytes(bytes.as_slice()),
        Err(_) => Err(ParseError::Hex),
    }
}

} // verus!
