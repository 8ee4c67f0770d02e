//! What gates, programs and states mean, bit by bit.
use vstd::arithmetic::power2::{lemma2_to64, pow2};
use vstd::prelude::*;

use crate::circuit::{
    byte_limbs, lemma_limbs_round_trip, lemma_state_limbs, limb_bytes, limb_state, limbs_wf, run, state_limbs,
    Gate,
};
use crate::hexes::{digit, hex_bytes, hex_text, is_hex, lower_digit};
use crate::whole_state::text_state;

verus! {

/// The value of the target after a gate on the bits `t`, `a` and `b` of its target
/// and its two controls: opcode 1 flips, opcode 2 flips where `a` is set, opcode 3
/// where both are, and every other opcode leaves the bit as it is.
pub open spec fn new_bit(opcode: u8, t: bool, a: bool, b: bool) -> bool {
    match opcode {
        1 => !t,
        2 => t != a,
        3 => t != (a && b),
        _ => t,
    }
}

/// A gate writes its target, as its opcode and its controls say, and no other qubit.
pub proof fn lemma_gate_acts(g: Gate, s: Seq<bool>)
    requires
        g.target < s.len(),
    ensures
        g.apply(s).len() == s.len(),
        forall|q: int| 0 <= q < s.len() && q != g.target ==> #[trigger] g.apply(s)[q] == s[q],
        g.apply(s)[g.target as int] == new_bit(
            g.opcode,
            s[g.target as int],
            s[g.ctrl_a as int],
            s[g.ctrl_b as int],
        ),
{
}

/// `p` renames the 512 qubits: it is a permutation of their numbers.
pub open spec fn renames(p: spec_fn(u16) -> u16) -> bool {
    &&& forall|q: u16| q < 512 ==> #[trigger] p(q) < 512
    &&& forall|q: u16, r: u16| q < 512 && r < 512 && q != r ==> #[trigger] p(q) != #[trigger] p(r)
}

/// A gate on renamed qubits. What stands for a control that is not there is kept.
pub open spec fn renamed_operand(p: spec_fn(u16) -> u16, q: u16) -> u16 {
    if q < 512 {
        p(q)
    } else {
        q
    }
}

pub open spec fn renamed_gate(p: spec_fn(u16) -> u16, g: Gate) -> Gate {
    Gate {
        opcode: g.opcode,
        target: renamed_operand(p, g.target),
        ctrl_a: renamed_operand(p, g.ctrl_a),
        ctrl_b: renamed_operand(p, g.ctrl_b),
    }
}

/// `t` is the state `s` on renamed qubits.
pub open spec fn is_renamed(p: spec_fn(u16) -> u16, s: Seq<bool>, t: Seq<bool>) -> bool {
    &&& s.len() == 512 && t.len() == 512
    &&& forall|q: u16| q < 512 ==> t[#[trigger] p(q) as int] == s[q as int]
}

/// A gate does the same whatever its qubits are called.
pub proof fn lemma_gate_renamed(p: spec_fn(u16) -> u16, g: Gate, s: Seq<bool>, t: Seq<bool>)
    requires
        renames(p),
        is_renamed(p, s, t),
        g.target < 512,
        g.opcode == 2 || g.opcode == 3 ==> g.ctrl_a < 512,
        g.opcode == 3 ==> g.ctrl_b < 512,
    ensures
        is_renamed(p, g.apply(s), renamed_gate(p, g).apply(t)),
{
    let h = renamed_gate(p, g);
    assert(h.target == p(g.target));
    assert forall|q: u16| q < 512 implies h.apply(t)[#[trigger] p(q) as int] == g.apply(s)[q as int] by {
        if q != g.target {
            assert(p(q) != p(g.target));
        }
        if g.opcode == 2 || g.opcode == 3 {
            assert(t[p(g.ctrl_a) as int] == s[g.ctrl_a as int]);
        }
        if g.opcode == 3 {
            assert(t[p(g.ctrl_b) as int] == s[g.ctrl_b as int]);
        }
        assert(t[p(g.target) as int] == s[g.target as int]);
    }
}

/// The state after the gates, the first of them first.
pub open spec fn after(gates: Seq<Gate>, s: Seq<bool>) -> Seq<bool>
    decreases gates.len(),
{
    if gates.len() == 0 {
        s
    } else {
        let g = gates[0];
        let bit = new_bit(g.opcode, s[g.target as int], s[g.ctrl_a as int], s[g.ctrl_b as int]);
        after(gates.drop_first(), s.update(g.target as int, bit))
    }
}

/// The state after the whole program was run `k` times.
pub open spec fn after_runs(gates: Seq<Gate>, s: Seq<bool>, k: nat) -> Seq<bool>
    decreases k,
{
    if k == 0 {
        s
    } else {
        after_runs(gates, after(gates, s), (k - 1) as nat)
    }
}

/// The gates write qubits that exist.
pub open spec fn targets_exist(gates: Seq<Gate>) -> bool {
    forall|i: int| 0 <= i < gates.len() ==> (#[trigger] gates[i]).target < 512
}

proof fn lemma_run_len(gates: Seq<Gate>, s: Seq<bool>, n: nat)
    requires
        gates.len() > 0,
        targets_exist(gates),
        s.len() == 512,
    ensures
        run(gates, s, n).len() == 512,
    decreases n,
{
    if n > 0 {
        lemma_run_len(gates, s, (n - 1) as nat);
    }
}

proof fn lemma_after_push(gates: Seq<Gate>, g: Gate, s: Seq<bool>)
    requires
        targets_exist(gates),
        g.target < 512,
        s.len() == 512,
    ensures
        after(gates, s).len() == 512,
        after(gates.push(g), s) == g.apply(after(gates, s)),
    decreases gates.len(),
{
    let all = gates.push(g);
    if gates.len() == 0 {
        assert(all.drop_first() =~= Seq::empty());
        let bit = new_bit(g.opcode, s[g.target as int], s[g.ctrl_a as int], s[g.ctrl_b as int]);
        assert(after(all.drop_first(), s.update(g.target as int, bit)) == s.update(g.target as int, bit));
        lemma_gate_acts(g, s);
        assert(g.apply(s) =~= s.update(g.target as int, bit));
    } else {
        let f = gates[0];
        let bit = new_bit(f.opcode, s[f.target as int], s[f.ctrl_a as int], s[f.ctrl_b as int]);
        assert(all.drop_first() =~= gates.drop_first().push(g));
        assert(all[0] == f);
        lemma_after_push(gates.drop_first(), g, s.update(f.target as int, bit));
    }
}

/// The first steps of a run are the first gates of the program.
proof fn lemma_run_prefix(gates: Seq<Gate>, s: Seq<bool>, n: nat)
    requires
        targets_exist(gates),
        s.len() == 512,
        n <= gates.len(),
    ensures
        run(gates, s, n) == after(gates.take(n as int), s),
    decreases n,
{
    if n > 0 {
        lemma_run_prefix(gates, s, (n - 1) as nat);
        let p = gates.take(n - 1);
        assert(gates.take(n as int) =~= p.push(gates[n - 1]));
        lemma_after_push(p, gates[n - 1], s);
        vstd::arithmetic::div_mod::lemma_small_mod((n - 1) as nat, gates.len());
    } else {
        assert(gates.take(0) =~= Seq::empty());
    }
}

/// A run goes on from where one run of the program ended as if it began there.
proof fn lemma_run_goes_on(gates: Seq<Gate>, s: Seq<bool>, n: nat)
    requires
        gates.len() > 0,
    ensures
        run(gates, s, gates.len() + n) == run(gates, run(gates, s, gates.len()), n),
    decreases n,
{
    if n > 0 {
        lemma_run_goes_on(gates, s, (n - 1) as nat);
        let l = gates.len() as int;
        vstd::arithmetic::div_mod::lemma_mod_add_multiples_vanish(n - 1, l);
        assert((l + n - 1) % l == (n - 1) % l);
    }
}

/// A run of `k` times as many steps as there are gates is the program run `k` times
/// over, gate by gate.
pub proof fn lemma_run_repeats_program(gates: Seq<Gate>, s: Seq<bool>, k: nat)
    requires
        gates.len() > 0,
        targets_exist(gates),
        s.len() == 512,
    ensures
        run(gates, s, k * gates.len()) == after_runs(gates, s, k),
    decreases k,
{
    if k > 0 {
        let l = gates.len();
        lemma_run_prefix(gates, s, l);
        assert(gates.take(l as int) =~= gates);
        lemma_run_len(gates, s, l);
        lemma_run_repeats_program(gates, after(gates, s), (k - 1) as nat);
        assert(k * l == l + (k - 1) * l) by (nonlinear_arith)
            requires
                k > 0,
        ;
        lemma_run_goes_on(gates, s, ((k - 1) * l) as nat);
    } else {
        assert(0 * gates.len() == 0);
    }
}

/// The state after `n` steps, each of which is one gate of the program, again and again.
pub open spec fn state_at(gates: Seq<Gate>, s: Seq<bool>, n: nat) -> Seq<bool>
    decreases n,
{
    if n == 0 {
        s
    } else {
        let t = state_at(gates, s, (n - 1) as nat);
        let g = gates[(n - 1) % gates.len() as int];
        t.update(
            g.target as int,
            new_bit(g.opcode, t[g.target as int], t[g.ctrl_a as int], t[g.ctrl_b as int]),
        )
    }
}

/// Step by step, a run writes the target of its gate and nothing else.
pub proof fn lemma_run_step_by_step(gates: Seq<Gate>, s: Seq<bool>, n: nat)
    requires
        gates.len() > 0,
        targets_exist(gates),
        s.len() == 512,
    ensures
        run(gates, s, n) == state_at(gates, s, n),
        state_at(gates, s, n).len() == 512,
    decreases n,
{
    if n > 0 {
        let m = (n - 1) as nat;
        lemma_run_step_by_step(gates, s, m);
        let t = run(gates, s, m);
        let g = gates[(n - 1) % gates.len() as int];
        vstd::arithmetic::div_mod::lemma_mod_bound(n - 1, gates.len() as int);
        assert(g.target < 512);
        lemma_gate_acts(g, t);
        assert(run(gates, s, n) =~= state_at(gates, s, n));
    }
}

/// A program does the same whatever its qubits are called.
pub proof fn lemma_run_renamed(p: spec_fn(u16) -> u16, gates: Seq<Gate>, s: Seq<bool>, t: Seq<bool>, n: nat)
    requires
        renames(p),
        is_renamed(p, s, t),
        gates.len() > 0,
        forall|i: int|
            0 <= i < gates.len() ==> {
                let g = #[trigger] gates[i];
                &&& g.target < 512
                &&& g.opcode == 2 || g.opcode == 3 ==> g.ctrl_a < 512
                &&& g.opcode == 3 ==> g.ctrl_b < 512
            },
    ensures
        is_renamed(p, run(gates, s, n), run(gates.map_values(|g: Gate| renamed_gate(p, g)), t, n)),
    decreases n,
{
    if n > 0 {
        let m = (n - 1) as nat;
        lemma_run_renamed(p, gates, s, t, m);
        let other = gates.map_values(|g: Gate| renamed_gate(p, g));
        let i = (n - 1) % gates.len() as int;
        vstd::arithmetic::div_mod::lemma_mod_bound(n - 1, gates.len() as int);
        assert(other[i] == renamed_gate(p, gates[i]));
        lemma_gate_renamed(p, gates[i], run(gates, s, m), run(other, t, m));
    }
}

/// Bit `q % 8` of byte `q / 8`.
pub open spec fn bit_of(bytes: Seq<u8>, q: int) -> bool {
    bytes[q / 8] as int / pow2((q % 8) as nat) as int % 2 == 1
}

proof fn lemma_byte_bit(lo: u32, hi: u32, l: u32, p: u32)
    by (bit_vector)
    requires
        lo < 256,
        hi < 256,
        l == lo + 256 * hi,
        p < 8,
    ensures
        ((l >> p) & 1) == ((lo >> p) & 1),
        ((l >> ((p + 8) as u32)) & 1) == ((hi >> p) & 1),
{
}

proof fn lemma_shift_bit(v: u32, p: u32)
    requires
        v < 256,
        p < 8,
    ensures
        ((v >> p) & 1 == 1) == (v as int / pow2(p as nat) as int % 2 == 1),
{
    lemma2_to64();
    assert(v >> 0 == v / 1 && v >> 1 == v / 2 && v >> 2 == v / 4 && v >> 3 == v / 8 && v >> 4 == v / 16
        && v >> 5 == v / 32 && v >> 6 == v / 64 && v >> 7 == v / 128) by (bit_vector);
    let w = v >> p;
    assert(w & 1 == w % 2) by (bit_vector);
    assert(p == 0 || p == 1 || p == 2 || p == 3 || p == 4 || p == 5 || p == 6 || p == 7);
}

/// Qubit `q` of a state of 64 bytes is bit `q % 8` of byte `q / 8`.
pub proof fn lemma_qubit_in_bytes(bytes: Seq<u8>, q: int)
    requires
        bytes.len() == 64,
        0 <= q < 512,
    ensures
        limb_state(byte_limbs(bytes)).len() == 512,
        limb_state(byte_limbs(bytes))[q] == bit_of(bytes, q),
{
    let j = q / 16;
    let (lo, hi) = (bytes[2 * j] as u32, bytes[2 * j + 1] as u32);
    let l = byte_limbs(bytes)[j];
    assert(l == lo + 256 * hi);
    let p = (q % 8) as u32;
    lemma_byte_bit(lo, hi, l, p);
    if q % 16 < 8 {
        assert(q / 8 == 2 * j && q % 16 == p);
        lemma_shift_bit(lo, p);
    } else {
        assert(q / 8 == 2 * j + 1 && q % 16 == p + 8);
        lemma_shift_bit(hi, p);
    }
}

/// The value of a hexadecimal digit by its code, or a negative number.
pub open spec fn nibble(c: char) -> int {
    let n = c as int;
    if 48 <= n <= 57 {
        n - 48
    } else if 97 <= n <= 102 {
        n - 87
    } else if 65 <= n <= 70 {
        n - 55
    } else {
        -1
    }
}

/// Text is read as bytes where it is an even number of digits, and byte `i` is the
/// two digits at `2 * i`, the more significant one first.
pub proof fn lemma_text_is_digits(x: Seq<char>)
    ensures
        is_hex(x) <==> x.len() % 2 == 0 && forall|i: int| 0 <= i < x.len() ==> nibble(#[trigger] x[i]) >= 0,
        is_hex(x) ==> 2 * hex_bytes(x).len() == x.len() && forall|i: int|
            0 <= i < hex_bytes(x).len() ==> #[trigger] hex_bytes(x)[i] == 16 * nibble(x[2 * i]) + nibble(
                x[2 * i + 1],
            ),
{
    assert forall|c: char| (#[trigger] digit(c)) is Some <==> nibble(c) >= 0 by {}
    if is_hex(x) {
        assert forall|i: int| 0 <= i < hex_bytes(x).len() implies #[trigger] hex_bytes(x)[i] == 16 * nibble(
            x[2 * i],
        ) + nibble(x[2 * i + 1]) by {
            assert(digit(x[2 * i]) is Some && digit(x[2 * i + 1]) is Some);
        }
    } else if x.len() % 2 == 0 && forall|i: int| 0 <= i < x.len() ==> nibble(#[trigger] x[i]) >= 0 {
        assert forall|i: int| 0 <= i < x.len() implies digit(#[trigger] x[i]) is Some by {
            assert(nibble(x[i]) >= 0);
        }
    }
}

/// Bytes written as text are read back as they were, and the text is in lower case.
pub proof fn lemma_text_round_trip(bytes: Seq<u8>)
    ensures
        is_hex(hex_text(bytes)),
        hex_bytes(hex_text(bytes)) == bytes,
        forall|i: int|
            0 <= i < hex_text(bytes).len() ==> !(65 <= (#[trigger] hex_text(bytes)[i]) as int <= 90),
{
    let x = hex_text(bytes);
    assert forall|v: int| 0 <= v < 16 implies nibble(#[trigger] lower_digit(v)) == v && !(65 <= lower_digit(
        v,
    ) as int <= 90) by {
        assert(v == 0 || v == 1 || v == 2 || v == 3 || v == 4 || v == 5 || v == 6 || v == 7 || v == 8 || v == 9
            || v == 10 || v == 11 || v == 12 || v == 13 || v == 14 || v == 15);
    }
    assert forall|i: int| 0 <= i < x.len() implies nibble(#[trigger] x[i]) >= 0 by {
        let b = bytes[i / 2] as int;
        assert(x[i] == lower_digit(if i % 2 == 0 { b / 16 } else { b % 16 }));
    }
    lemma_text_is_digits(x);
    assert forall|i: int| 0 <= i < bytes.len() implies hex_bytes(x)[i] == bytes[i] by {
        let b = bytes[i] as int;
        assert(x[2 * i] == lower_digit(b / 16));
        assert(x[2 * i + 1] == lower_digit(b % 16));
    }
    assert(hex_bytes(x) =~= bytes);
}

/// Qubit `q` in a text of 128 digits: a bit of the second digit of byte `q / 8` for
/// its four lower qubits, and of the first digit for the others.
pub open spec fn bit_in_text(x: Seq<char>, q: int) -> bool {
    let c = x[2 * (q / 8) + (if q % 8 < 4 { 1int } else { 0int })];
    nibble(c) / pow2((q % 4) as nat) as int % 2 == 1
}

proof fn lemma_nibble_bit(b: int, hi: int, lo: int, r: int)
    requires
        0 <= hi < 16,
        0 <= lo < 16,
        b == 16 * hi + lo,
        0 <= r < 8,
    ensures
        (b / pow2(r as nat) as int) % 2 == (if r < 4 {
            lo / pow2((r % 4) as nat) as int % 2
        } else {
            hi / pow2((r % 4) as nat) as int % 2
        }),
{
    lemma2_to64();
    assert(pow2(0) == 1 && pow2(1) == 2 && pow2(2) == 4 && pow2(3) == 8 && pow2(4) == 16 && pow2(5) == 32 && pow2(6)
        == 64 && pow2(7) == 128);
    if r == 0 {
        assert(b / 1 == b && lo / 1 == lo);
    } else if r == 1 {
        assert(b / 2 == 8 * hi + lo / 2);
    } else if r == 2 {
        assert(b / 4 == 4 * hi + lo / 4);
    } else if r == 3 {
        assert(b / 8 == 2 * hi + lo / 8);
    } else if r == 4 {
        assert(b / 16 == hi && hi / 1 == hi && (r % 4) as nat == 0);
    } else if r == 5 {
        assert(b / 32 == hi / 2 && (r % 4) as nat == 1);
    } else if r == 6 {
        assert(b / 64 == hi / 4 && (r % 4) as nat == 2);
    } else {
        assert(b / 128 == hi / 8 && (r % 4) as nat == 3);
    }
}

/// The state that a text of 128 digits holds, digit by digit.
pub proof fn lemma_qubit_in_text(x: Seq<char>, q: int)
    requires
        is_hex(x),
        x.len() == 128,
        0 <= q < 512,
    ensures
        text_state(x).len() == 512,
        text_state(x)[q] == bit_in_text(x, q),
{
    lemma_text_is_digits(x);
    let bytes = hex_bytes(x);
    lemma_qubit_in_bytes(bytes, q);
    let i = q / 8;
    assert(nibble(x[2 * i]) >= 0 && nibble(x[2 * i + 1]) >= 0);
    assert(q % 8 % 4 == q % 4);
    lemma_nibble_bit(bytes[i] as int, nibble(x[2 * i]), nibble(x[2 * i + 1]), q % 8);
}

/// The text of a state, read again, is that state.
pub proof fn lemma_state_text_round_trip(limbs: Seq<u32>)
    requires
        limbs_wf(limbs),
    ensures
        text_state(hex_text(limb_bytes(state_limbs(limb_state(limbs))))) == limb_state(limbs),
        hex_text(limb_bytes(limbs)).len() == 128,
{
    lemma_state_limbs(limbs);
    lemma_text_round_trip(limb_bytes(limbs));
    lemma_limbs_round_trip(limbs);
}

} // verus!
