//! The constraints of the whole-state encoding pin down the execution: a row that
//! satisfies them, and whose lookups are in their tables, applies its gate.
use vstd::arithmetic::power2::{lemma2_to64, lemma_pow2_adds, lemma_pow2_pos};
use vstd::prelude::*;

use crate::circuit::{
    lemma_clear_bit, lemma_mask, lemma_set_bit, lemma_split, limb_bit, limb_state, limbs_wf, weight,
    Gate, N_QUBITS,
};
use crate::components::{all_zero, bool_check};
use crate::field::{lemma_base_add, lemma_base_mul, Ext, P};
use crate::logup::embed;
use crate::prime::lemma_bit;
use crate::sums::sum;
use crate::whole_state::flag;
use crate::whole_state_air::{
    read_checks, row_checks, CTRL_A_OFF, CTRL_B_OFF, TARGET_OFF,
    TRACE_COLUMNS,
};

verus! {

/// The limbs of the state before and after a row.
pub open spec fn limbs_before(c: Seq<u32>) -> Seq<u32> {
    c.subrange(7, 39)
}

pub open spec fn limbs_after(c: Seq<u32>) -> Seq<u32> {
    c.subrange(39, 71)
}

/// The read at `o` is in the tables: its qubit is taken apart rightly, and the
/// two parts of its limb have as many bits as there are below and above the
/// qubit.
pub open spec fn read_listed(c: Seq<u32>, o: int) -> bool {
    &&& c[o] < N_QUBITS
    &&& c[o + 1] == c[o] as int / 16
    &&& c[o + 2] == c[o] as int % 16
    &&& c[o + 3] == weight(c[o + 2])
    &&& c[o + 36] < weight(c[o + 2])
    &&& c[o + 37] < weight((15 - c[o + 2]) as u32)
}

/// A row as a gate: its opcode flags and its operands.
pub open spec fn gate_in(c: Seq<u32>) -> Gate {
    Gate {
        opcode: (c[2] + 2 * c[3] + 3 * c[4]) as u8,
        target: c[TARGET_OFF as int] as u16,
        ctrl_a: c[CTRL_A_OFF as int] as u16,
        ctrl_b: c[CTRL_B_OFF as int] as u16,
    }
}

/// How many of the first `n` selectors of the read at `o` are set.
spec fn count(c: Seq<u32>, o: int, n: nat) -> int
    decreases n,
{
    if n == 0 {
        0
    } else {
        count(c, o, (n - 1) as nat) + c[o + 4 + (n - 1)]
    }
}

/// The positions of the selectors that are set, summed up.
spec fn positions(c: Seq<u32>, o: int, n: nat) -> int
    decreases n,
{
    if n == 0 {
        0
    } else {
        positions(c, o, (n - 1) as nat) + c[o + 4 + (n - 1)] * (n - 1)
    }
}

/// The limbs that the selectors pick, summed up.
spec fn picked(c: Seq<u32>, o: int, n: nat) -> int
    decreases n,
{
    if n == 0 {
        0
    } else {
        picked(c, o, (n - 1) as nat) + c[o + 4 + (n - 1)] * c[7 + (n - 1)]
    }
}

/// The sums over the selectors are sums of integers.
proof fn lemma_selector_sums(
    c: Seq<u32>,
    o: int,
    n: nat,
    fs: spec_fn(int) -> Ext,
    fw: spec_fn(int) -> Ext,
    fl: spec_fn(int) -> Ext,
)
    requires
        n <= 32,
        0 <= o,
        o + 36 <= c.len(),
        39 <= c.len(),
        forall|j: int| 0 <= j < n ==> #[trigger] fs(j) == Ext::base(c[o + 4 + j] as int),
        forall|j: int|
            0 <= j < n ==> #[trigger] fw(j) == Ext::base(c[o + 4 + j] as int) * Ext::base(j),
        forall|j: int|
            0 <= j < n ==> #[trigger] fl(j) == Ext::base(c[o + 4 + j] as int) * Ext::base(
                c[7 + j] as int,
            ),
    ensures
        sum(n, fs) == Ext::base(count(c, o, n)),
        sum(n, fw) == Ext::base(positions(c, o, n)),
        sum(n, fl) == Ext::base(picked(c, o, n)),
    decreases n,
{
    if n == 0 {
        lemma_base_add(0, 0);
    } else {
        let k = n - 1;
        lemma_selector_sums(c, o, k as nat, fs, fw, fl);
        let (s, l) = (c[o + 4 + k] as int, c[7 + k] as int);
        assert(fs(k) == Ext::base(s));
        assert(fw(k) == Ext::base(s) * Ext::base(k));
        assert(fl(k) == Ext::base(s) * Ext::base(l));
        lemma_base_mul(s, k);
        lemma_base_mul(s, l);
        lemma_base_add(count(c, o, k as nat), s);
        lemma_base_add(positions(c, o, k as nat), s * k);
        lemma_base_add(picked(c, o, k as nat), s * l);
    }
}

/// Bits that sum to at most one: none of them is set, or one of them, which is
/// the one whose position and limb are summed up.
proof fn lemma_one_hot(c: Seq<u32>, o: int, n: nat)
    requires
        n <= 32,
        0 <= o,
        o + 36 <= c.len(),
        39 <= c.len(),
        forall|j: int| 0 <= j < n ==> #[trigger] c[o + 4 + j] <= 1,
    ensures
        0 <= count(c, o, n) <= n,
        0 <= positions(c, o, n) <= 31 * n,
        count(c, o, n) == 0 ==> positions(c, o, n) == 0 && picked(c, o, n) == 0 && forall|j: int|
            0 <= j < n ==> #[trigger] c[o + 4 + j] == 0,
        count(c, o, n) == 1 ==> 0 <= positions(c, o, n) < n && picked(c, o, n) == c[7 + positions(
            c,
            o,
            n,
        )] && forall|j: int|
            0 <= j < n ==> #[trigger] c[o + 4 + j] == (if j == positions(c, o, n) {
                1int
            } else {
                0
            }),
    decreases n,
{
    if n > 0 {
        let k = n - 1;
        lemma_one_hot(c, o, k as nat);
        assert(c[o + 4 + k] <= 1);
        let (s, l) = (c[o + 4 + k] as int, c[7 + k] as int);
        assert(s * k == (if s == 1 { k } else { 0 })) by (nonlinear_arith)
            requires
                s == 0 || s == 1,
        ;
        assert(s * l == (if s == 1 { l } else { 0 })) by (nonlinear_arith)
            requires
                s == 0 || s == 1,
        ;
    }
}

/// A limb that is put together from its parts has the bit that was put in.
proof fn lemma_joined_bit(l: u32, p: u32, lo: int, bit: int, hi: int)
    requires
        p < 16,
        0 <= lo < weight(p),
        bit == 0 || bit == 1,
        0 <= hi,
        l == hi * (2 * weight(p)) + bit * weight(p) + lo,
    ensures
        limb_bit(l, p) == (bit == 1),
{
    lemma_split(l, p);
    let m = weight(p);
    lemma_pow2_pos(p as nat);
    assert(l as int == m * (2 * hi + bit) + lo) by (nonlinear_arith)
        requires
            l == hi * (2 * m) + bit * m + lo,
    ;
    vstd::arithmetic::div_mod::lemma_fundamental_div_mod_converse(
        l as int,
        m,
        2 * hi + bit,
        lo,
    );
}

/// What the constraints say of the read at `o`.
proof fn lemma_read_pinned(c: Seq<u32>, o: int, active: int)
    requires
        c.len() == TRACE_COLUMNS,
        o == TARGET_OFF || o == CTRL_A_OFF || o == CTRL_B_OFF,
        forall|i: int| 0 <= i < c.len() ==> #[trigger] c[i] < P,
        limbs_wf(limbs_before(c)),
        active == 0 || active == 1,
        active == 1 ==> read_listed(c, o),
        all_zero(read_checks(embed(c), o, Ext::base(active))),
    ensures
        c[o + 38] <= 1,
        active == 0 ==> c[o + 38] == 0,
        active == 1 ==> c[o + 38] == flag(limb_state(limbs_before(c))[c[o] as int]),
        active == 1 ==> forall|j: int|
            0 <= j < 32 ==> #[trigger] c[o + 4 + j] == (if j == c[o] as int / 16 {
                1int
            } else {
                0
            }),
{
    let t = embed(c);
    let p = P as int;
    let checks = read_checks(t, o, Ext::base(active));
    let (mask, lo, hi, bit) = (
        c[o + 3] as int,
        c[o + 36] as int,
        c[o + 37] as int,
        c[o + 38] as int,
    );
    assert forall|j: int| 0 <= j < 32 implies #[trigger] c[o + 4 + j] <= 1 by {
        assert(c[o + 4 + j] < P);
        assert(checks[j] == bool_check(t[o + 4 + j]));
        let v = c[o + 4 + j] as int;
        lemma_base_add(v, 1);
        lemma_base_mul(v, v - 1);
        assert(v * (v - 1) % p == 0);
        lemma_bit(v);
    }
    lemma_one_hot(c, o, 32);
    let fs = |j: int| t[o + 4 + j];
    let fw = |j: int| t[o + 4 + j] * Ext::base(j);
    let fl = |j: int| t[o + 4 + j] * t[7 + j];
    lemma_selector_sums(c, o, 32, fs, fw, fl);
    let (n, w, l) = (count(c, o, 32), positions(c, o, 32), picked(c, o, 32));
    assert(checks[32] == Ext::base(n) - Ext::base(active));
    assert(checks[32] == Ext::zero());
    lemma_base_add(n, active);
    assert((n - active) % p == 0);
    assert(n == active);
    assert(checks[35] == bool_check(t[o + 38]));
    assert(checks[35] == Ext::zero());
    assert(c[o + 38] < P);
    lemma_base_add(bit, 1);
    lemma_base_mul(bit, bit - 1);
    assert(bit * (bit - 1) % p == 0);
    lemma_bit(bit);
    if active == 0 {
        assert(checks[36] == (Ext::one() - Ext::base(0)) * t[o + 38]);
        assert(checks[36] == Ext::zero());
        lemma_base_add(1, 0);
        lemma_base_mul(1, bit);
        assert((1 * bit) % p == 0);
        assert(bit == 0);
    } else {
        assert(checks[33] == Ext::base(w) - t[o + 1]);
        assert(checks[33] == Ext::zero());
        lemma_base_add(w, c[o + 1] as int);
        assert((w - c[o + 1]) % p == 0);
        assert(w == c[o + 1]);
        assert(l == c[7 + w]);
        assert(c[7 + w] == limbs_before(c)[w]);
        assert(limbs_before(c)[w] < 0x1_0000);
        assert(checks[34] == ((Ext::base(l) - (t[o + 37] * t[o + 3]) * Ext::base(2)) - t[o + 38]
            * t[o + 3]) - t[o + 36]);
        assert(checks[34] == Ext::zero());
        lemma_base_mul(hi, mask);
        lemma_base_mul(hi * mask, 2);
        lemma_base_mul(bit, mask);
        lemma_base_add(l, hi * mask * 2);
        lemma_base_add(l - hi * mask * 2, bit * mask);
        lemma_base_add(l - hi * mask * 2 - bit * mask, lo);
        let rest = hi * mask * 2 + bit * mask + lo;
        assert((l - rest) % p == 0);
        // The parts make up at most sixteen bits.
        let pos = c[o + 2];
        lemma_pow2_pos(pos as nat);
        lemma_pow2_adds(pos as nat, (15 - pos) as nat);
        lemma2_to64();
        let top = weight((15 - pos) as u32);
        assert(0 <= rest < 0x1_0000) by (nonlinear_arith)
            requires
                rest == hi * mask * 2 + bit * mask + lo,
                0 <= hi <= top - 1,
                mask * top == 0x8000,
                mask > 0,
                0 <= bit <= 1,
                0 <= lo < mask,
        ;
        assert(l == rest);
        assert(hi * (2 * mask) == hi * mask * 2) by (nonlinear_arith);
        lemma_joined_bit(c[7 + w], pos, lo, bit, hi);
        assert(limb_state(limbs_before(c))[c[o] as int] == limb_bit(
            limbs_before(c)[c[o] as int / 16],
            (c[o] as int % 16) as u32,
        ));
    }
}

/// Flipping one bit of one limb.
proof fn lemma_flip(a: Seq<u32>, b: Seq<u32>, q: int, fire: bool)
    requires
        limbs_wf(a),
        b.len() == 32,
        0 <= q < N_QUBITS,
        forall|j: int| 0 <= j < 32 && j != q / 16 ==> #[trigger] b[j] == a[j],
        b[q / 16] == a[q / 16] + (if !fire {
            0
        } else if limb_state(a)[q] {
            -weight((q % 16) as u32)
        } else {
            weight((q % 16) as u32)
        }),
    ensures
        limbs_wf(b),
        limb_state(b) == limb_state(a).update(q, limb_state(a)[q] != fire),
{
    let (k, p) = (q / 16, (q % 16) as u32);
    lemma_mask(p);
    assert(limb_state(a)[q] == limb_bit(a[k], p));
    assert(a[k] < 0x1_0000);
    assert(b[k] < 0x1_0000) by {
        crate::circuit::lemma_split(a[k], p);
        if limb_bit(a[k], p) {
            lemma_clear_bit(a[k], p, p);
        } else {
            lemma_set_bit(a[k], p, p);
        }
    }
    assert(limbs_wf(b));
    assert forall|i: int| 0 <= i < N_QUBITS implies limb_state(b)[i] == limb_state(a).update(
        q,
        limb_state(a)[q] != fire,
    )[i] by {
        let (j, r) = (i / 16, (i % 16) as u32);
        if j == k {
            crate::circuit::lemma_split(a[k], p);
            crate::circuit::lemma_split(a[k], r);
            if fire {
                if limb_bit(a[k], p) {
                    lemma_clear_bit(a[k], p, r);
                } else {
                    lemma_set_bit(a[k], p, r);
                }
            }
        } else {
            assert(b[j] == a[j]);
        }
    }
    assert(limb_state(b) =~= limb_state(a).update(q, limb_state(a)[q] != fire));
}

/// The parts of a row's constraints, one after the other.
proof fn lemma_parts(c: Seq<u32>)
    requires
        c.len() == TRACE_COLUMNS,
        all_zero(row_checks(embed(c))),
    ensures
        ({
            let t = embed(c);
            &&& bool_check(t[1]) == Ext::zero()
            &&& bool_check(t[2]) == Ext::zero()
            &&& bool_check(t[3]) == Ext::zero()
            &&& bool_check(t[4]) == Ext::zero()
            &&& (((t[0] - t[1]) - t[2]) - t[3]) - t[4] == Ext::zero()
            &&& all_zero(read_checks(t, TARGET_OFF as int, t[0]))
            &&& all_zero(read_checks(t, CTRL_A_OFF as int, t[3] + t[4]))
            &&& all_zero(read_checks(t, CTRL_B_OFF as int, t[4]))
            &&& t[188] - t[CTRL_A_OFF + 38] * t[CTRL_B_OFF + 38] == Ext::zero()
            &&& ((t[189] - t[2]) - t[3] * t[CTRL_A_OFF + 38]) - t[4] * t[188] == Ext::zero()
            &&& (t[190] - t[189]) + (t[TARGET_OFF + 38] * t[189]) * Ext::base(2) == Ext::zero()
            &&& forall|j: int|
                0 <= j < 32 ==> (#[trigger] t[39 + j] - t[7 + j]) - (t[TARGET_OFF + 4 + j] * t[190])
                    * t[TARGET_OFF + 3] == Ext::zero()
        }),
{
    let t = embed(c);
    let all = row_checks(t);
    let (rt, ra, rb) = (
        read_checks(t, TARGET_OFF as int, t[0]),
        read_checks(t, CTRL_A_OFF as int, t[3] + t[4]),
        read_checks(t, CTRL_B_OFF as int, t[4]),
    );
    assert(rt.len() == 37 && ra.len() == 37 && rb.len() == 37);
    assert(all[0] == bool_check(t[1]) && all[1] == bool_check(t[2]));
    assert(all[2] == bool_check(t[3]) && all[3] == bool_check(t[4]));
    assert(all[4] == (((t[0] - t[1]) - t[2]) - t[3]) - t[4]);
    assert forall|i: int| 0 <= i < 37 implies #[trigger] rt[i] == Ext::zero() by {
        assert(all[5 + i] == rt[i]);
    }
    assert forall|i: int| 0 <= i < 37 implies #[trigger] ra[i] == Ext::zero() by {
        assert(all[42 + i] == ra[i]);
    }
    assert forall|i: int| 0 <= i < 37 implies #[trigger] rb[i] == Ext::zero() by {
        assert(all[79 + i] == rb[i]);
    }
    assert(all[116] == t[188] - t[CTRL_A_OFF + 38] * t[CTRL_B_OFF + 38]);
    assert(all[117] == ((t[189] - t[2]) - t[3] * t[CTRL_A_OFF + 38]) - t[4] * t[188]);
    assert(all[118] == (t[190] - t[189]) + (t[TARGET_OFF + 38] * t[189]) * Ext::base(2));
    assert forall|j: int| 0 <= j < 32 implies (#[trigger] t[39 + j] - t[7 + j]) - (t[TARGET_OFF + 4
        + j] * t[190]) * t[TARGET_OFF + 3] == Ext::zero() by {
        assert(all[119 + j] == (t[39 + j] - t[7 + j]) - (t[TARGET_OFF + 4 + j] * t[190])
            * t[TARGET_OFF + 3]);
    }
}

proof fn lemma_flag_bit(v: u32)
    requires
        v < P,
        bool_check(Ext::base(v as int)) == Ext::zero(),
    ensures
        v <= 1,
{
    let x = v as int;
    lemma_base_add(x, 1);
    lemma_base_mul(x, x - 1);
    assert(x * (x - 1) % (P as int) == 0);
    lemma_bit(x);
}

/// The constraints pin down the execution: on any columns of field elements, an
/// enabled row that satisfies them, whose state is in 16-bit limbs and whose
/// reads are in the tables, holds a gate of one of the four kinds, with operands
/// that exist, and its state afterwards is what that gate makes of its state
/// before.
pub proof fn lemma_checks_pin_step(c: Seq<u32>)
    requires
        c.len() == TRACE_COLUMNS,
        forall|i: int| 0 <= i < c.len() ==> #[trigger] c[i] < P,
        c[0] == 1,
        limbs_wf(limbs_before(c)),
        read_listed(c, TARGET_OFF as int),
        c[3] + c[4] == 1 ==> read_listed(c, CTRL_A_OFF as int),
        c[4] == 1 ==> read_listed(c, CTRL_B_OFF as int),
        all_zero(row_checks(embed(c))),
    ensures
        c[1] + c[2] + c[3] + c[4] == 1,
        gate_in(c).known(),
        gate_in(c).operands_ok(),
        limbs_wf(limbs_after(c)),
        limb_state(limbs_after(c)) == gate_in(c).apply(limb_state(limbs_before(c))),
{
    let t = embed(c);
    let p = P as int;
    lemma_parts(c);
    let (nop, not, cnot, tof) = (c[1] as int, c[2] as int, c[3] as int, c[4] as int);
    assert(c[1] < P && c[2] < P && c[3] < P && c[4] < P);
    lemma_flag_bit(c[1]);
    lemma_flag_bit(c[2]);
    lemma_flag_bit(c[3]);
    lemma_flag_bit(c[4]);
    lemma_base_add(1, nop);
    lemma_base_add(1 - nop, not);
    lemma_base_add(1 - nop - not, cnot);
    lemma_base_add(1 - nop - not - cnot, tof);
    assert((1 - nop - not - cnot - tof) % p == 0);
    assert(nop + not + cnot + tof == 1);
    lemma_base_add(cnot, tof);
    lemma_read_pinned(c, TARGET_OFF as int, 1);
    lemma_read_pinned(c, CTRL_A_OFF as int, cnot + tof);
    lemma_read_pinned(c, CTRL_B_OFF as int, tof);
    let (a, b, tb) = (
        c[CTRL_A_OFF + 38] as int,
        c[CTRL_B_OFF + 38] as int,
        c[TARGET_OFF + 38] as int,
    );
    let (ab, fire, delta) = (c[188] as int, c[189] as int, c[190] as int);
    assert(c[188] < P && c[189] < P && c[190] < P);
    lemma_base_mul(a, b);
    lemma_base_add(ab, a * b);
    assert((ab - a * b) % p == 0);
    assert(a * b == (if a == 1 && b == 1 { 1int } else { 0int })) by (nonlinear_arith)
        requires
            a == 0 || a == 1,
            b == 0 || b == 1,
    ;
    assert(ab == a * b);
    lemma_base_mul(cnot, a);
    lemma_base_mul(tof, ab);
    lemma_base_add(fire, not);
    lemma_base_add(fire - not, cnot * a);
    lemma_base_add(fire - not - cnot * a, tof * ab);
    assert((fire - not - cnot * a - tof * ab) % p == 0);
    assert(cnot * a == (if cnot == 1 { a } else { 0 })) by (nonlinear_arith)
        requires
            cnot == 0 || cnot == 1,
    ;
    assert(tof * ab == (if tof == 1 { ab } else { 0 })) by (nonlinear_arith)
        requires
            tof == 0 || tof == 1,
    ;
    assert(fire == not + cnot * a + tof * ab);
    assert(fire == 0 || fire == 1);
    lemma_base_mul(tb, fire);
    lemma_base_mul(tb * fire, 2);
    lemma_base_add(delta, fire);
    lemma_base_add(delta - fire, tb * fire * 2);
    assert((delta - fire + tb * fire * 2) % p == 0);
    assert(tb * fire == (if tb == 1 { fire } else { 0 })) by (nonlinear_arith)
        requires
            tb == 0 || tb == 1,
    ;
    let d = if fire == 0 {
        0int
    } else if tb == 1 {
        -1int
    } else {
        1int
    };
    assert(delta % p == d % p);
    let (before, after) = (limbs_before(c), limbs_after(c));
    let s = limb_state(before);
    let g = gate_in(c);
    let q = c[TARGET_OFF as int] as int;
    let mask = c[TARGET_OFF + 3] as int;
    assert(g.opcode == not + 2 * cnot + 3 * tof);
    assert(g.target == q);
    assert(g.fires(s) == (fire == 1));
    lemma_mask((q % 16) as u32);
    assert forall|j: int| 0 <= j < 32 implies #[trigger] after[j] == before[j] + (if j == q / 16 {
        d * mask
    } else {
        0
    }) by {
        let (o, i, sel) = (c[39 + j] as int, c[7 + j] as int, c[TARGET_OFF + 4 + j] as int);
        assert(after[j] == c[39 + j] && before[j] == c[7 + j]);
        assert(before[j] < 0x1_0000);
        assert(c[39 + j] < P);
        assert(t[39 + j] == Ext::base(o));
        assert(sel == (if j == q / 16 { 1int } else { 0int }));
        lemma_base_mul(sel, delta);
        lemma_base_mul(sel * delta, mask);
        lemma_base_add(o, i);
        lemma_base_add(o - i, sel * delta * mask);
        assert((o - i - sel * delta * mask) % p == 0);
        if j == q / 16 {
            assert(sel * delta * mask == delta * mask) by (nonlinear_arith)
                requires
                    sel == 1,
            ;
            lemma_written(o, i, delta, d, mask, before[j], (q % 16) as u32, tb);
        } else {
            assert(sel * delta * mask == 0) by (nonlinear_arith)
                requires
                    sel == 0,
            ;
            assert(o == i);
        }
    }
    assert(d * mask == (if fire != 1 {
        0
    } else if s[q] {
        -mask
    } else {
        mask
    })) by {
        assert(tb == flag(s[q]));
    }
    assert(after[q / 16] == before[q / 16] + d * mask);
    lemma_flip(before, after, q, fire == 1);
}

/// The limb that is written: its difference is small, so that it is what it is
/// over the integers.
proof fn lemma_written(o: int, i: int, delta: int, d: int, mask: int, l: u32, pos: u32, tb: int)
    requires
        0 <= o < P,
        l == i,
        l < 0x1_0000,
        pos < 16,
        mask == weight(pos),
        d == 0 || (d == 1 && tb == 0) || (d == -1 && tb == 1),
        tb == flag(limb_bit(l, pos)),
        delta % (P as int) == d % (P as int),
        (o - i - delta * mask) % (P as int) == 0,
    ensures
        o == i + d * mask,
{
    let p = P as int;
    lemma_mask(pos);
    lemma_split(l, pos);
    vstd::arithmetic::div_mod::lemma_mul_mod_noop_left(delta, mask, p);
    vstd::arithmetic::div_mod::lemma_mul_mod_noop_left(d, mask, p);
    assert((delta * mask) % p == (d * mask) % p);
    vstd::arithmetic::div_mod::lemma_sub_mod_noop(o - i, delta * mask, p);
    vstd::arithmetic::div_mod::lemma_sub_mod_noop(o - i, d * mask, p);
    assert((o - i - d * mask) % p == 0);
    assert(d * mask == (if d == 0 {
        0
    } else if d == 1 {
        mask
    } else {
        -mask
    }));
    if d == -1 {
        lemma_clear_bit(l, pos, pos);
    }
    assert(0 <= i + d * mask <= 0x2_0000);
}

} // verus!
