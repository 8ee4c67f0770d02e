//! The constraints of repeated addition hold on every row that is built, and on
//! no row that adds wrongly.
use vstd::arithmetic::power2::{lemma2_to64, lemma_pow2_pos, lemma_pow2_unfold, pow2};
use vstd::prelude::*;

use crate::components::all_zero;
use crate::field::{
    lemma_base_add, lemma_base_mul, lemma_mul_zero, Ext, P,
};
use crate::iadd::{IaddCase, RangeCheckMode};
use crate::iadd_air::{
    bit_check, chunk_checks, limb_bit_checks, limb_check, number_checks, recon, row_checks,
    sum_checks,
};
use crate::iadd_limbs::{
    base_of, bits_of, canonical, is_limb_sum, lemma_limb_sum, lemma_limbs_of, lemma_place, modulus,
    offset, total_at, value,
};
use crate::iadd_rows::{bit_cells, chunk_cells, row_cells, Row};
use crate::logup::embed;
use crate::prime::lemma_bit;

verus! {

/// `m * v * (v - 1)` over the integers.
proof fn lemma_bit_check_int(m: int, v: int)
    ensures
        bit_check(Ext::base(m), Ext::base(v)) == Ext::base(m * v * (v - 1)),
{
    lemma_base_mul(m, v);
    lemma_base_add(v, 1);
    lemma_base_mul(m * v, v - 1);
}

/// `m * (acc + addend + carry_in - next - carry * base)` over the integers.
proof fn lemma_limb_check_int(c: Seq<u32>, i: int)
    requires
        c.len() >= 39,
        0 <= i < 9,
    ensures
        limb_check(embed(c), i) == Ext::base(
            c[0] * (c[3 + i] + c[12 + i] + (if i == 0 {
                0
            } else {
                c[30 + i - 1] as int
            }) - c[21 + i] - c[30 + i] * base_of(i)),
        ),
{
    let cin = if i == 0 {
        0
    } else {
        c[30 + i - 1] as int
    };
    let (a, b, n, k) = (c[3 + i] as int, c[12 + i] as int, c[21 + i] as int, c[30 + i] as int);
    lemma_base_add(0, 0);
    lemma_base_add(a, b);
    lemma_base_add(a + b, cin);
    lemma_base_add(a + b + cin, n);
    lemma_base_mul(k, base_of(i));
    lemma_base_add(a + b + cin - n, k * base_of(i));
    lemma_base_mul(c[0] as int, a + b + cin - n - k * base_of(i));
}

/// The low `n` bits of a limb make up the limb's low part.
proof fn lemma_recon(t: Seq<Ext>, at: int, l: u32, n: nat)
    requires
        forall|b: int|
            0 <= b < n ==> #[trigger] t[at + b] == Ext::base(l as int / pow2(b as nat) as int % 2),
    ensures
        recon(t, at, n) == Ext::base(l as int % pow2(n) as int),
    decreases n,
{
    if n == 0 {
        lemma2_to64();
        lemma_base_add(0, 0);
    } else {
        let k = (n - 1) as nat;
        lemma_recon(t, at, l, k);
        let (x, w) = (l as int, pow2(k) as int);
        lemma_pow2_pos(k);
        lemma_pow2_unfold(n);
        vstd::arithmetic::div_mod::lemma_mod_breakdown(x, w, 2);
        let bit = x / w % 2;
        assert(t[at + k] == Ext::base(bit));
        lemma_base_mul(bit, w);
        lemma_base_add(x % w, bit * w);
        assert(w * bit == bit * w) by (nonlinear_arith);
        assert(w * 2 == pow2(n));
    }
}

/// Zero times anything is zero, and so is anything times zero.
proof fn lemma_zero_product(x: Ext)
    ensures
        Ext::base(0) * x == Ext::zero(),
{
    lemma_base_add(0, 0);
    lemma_mul_zero(x);
}

/// On padding every constraint is zero: each has the row's flag as a factor.
proof fn lemma_padding_factor(t: Seq<Ext>, mode: RangeCheckMode)
    requires
        t[0] == Ext::base(0),
    ensures
        all_zero(row_checks(t, mode)),
{
    assert(all_zero(sum_checks(t))) by {
        assert forall|i: int| 0 <= i < 19 implies #[trigger] sum_checks(t)[i] == Ext::zero() by {
            if i == 0 {
                lemma_zero_product(t[0] - Ext::one());
            } else if i < 10 {
                lemma_padding_bit(t, 30 + (i - 1));
            } else {
                let k = i - 10;
                let cin = if k == 0 {
                    Ext::zero()
                } else {
                    t[30 + k - 1]
                };
                lemma_zero_product(
                    (((t[3 + k] + t[12 + k]) + cin) - t[21 + k]) - t[30 + k] * Ext::base(
                        base_of(k),
                    ),
                );
            }
        }
    }
    if mode is Bits {
        lemma_padding_number(t, 3, 39, 9);
        lemma_padding_number(t, 12, 295, 9);
        lemma_padding_number(t, 21, 551, 9);
    } else if mode is Lookup {
        assert forall|i: int| 0 <= i < 9 implies #[trigger] chunk_checks(t, 9)[i] == Ext::zero() by {
            lemma_zero_product(
                (t[21 + i] - t[39 + 2 * i]) - t[40 + 2 * i] * Ext::base(0x4_0000),
            );
        }
    }
}

proof fn lemma_padding_bit(t: Seq<Ext>, c: int)
    requires
        t[0] == Ext::base(0),
    ensures
        bit_check(t[0], t[c]) == Ext::zero(),
{
    lemma_zero_product(t[c]);
    lemma_base_add(0, 0);
    lemma_zero_product(t[c] - Ext::one());
}

proof fn lemma_padding_number(t: Seq<Ext>, limbs: int, at: int, n: nat)
    requires
        t[0] == Ext::base(0),
    ensures
        all_zero(number_checks(t, limbs, at, n)),
    decreases n,
{
    if n > 0 {
        let i = n - 1;
        lemma_padding_number(t, limbs, at, i as nat);
        let (o, w) = (at + offset(i), bits_of(i));
        let here = limb_bit_checks(t, t[limbs + i], o, w);
        assert forall|b: int| 0 <= b < here.len() implies #[trigger] here[b] == Ext::zero() by {
            if b < w {
                lemma_padding_bit(t, o + b);
            } else {
                lemma_zero_product(t[limbs + i] - recon(t, o, w));
            }
        }
    }
}

/// Padding satisfies every constraint.
pub proof fn lemma_padding_satisfies(row: Row, mode: RangeCheckMode)
    requires
        row.is_zero(),
    ensures
        all_zero(row_checks(embed(row_cells(row, mode)), mode)),
{
    assert(row_cells(row, mode)[0] == 0);
    lemma_padding_factor(embed(row_cells(row, mode)), mode);
}

/// The columns of a row, read by place.
proof fn lemma_compact(row: Row, mode: RangeCheckMode)
    ensures
        ({
            let c = row_cells(row, mode);
            &&& c.len() >= 39
            &&& c[0] == row.is_real
            &&& c[1] == row.sample_id
            &&& c[2] == row.rep_idx
            &&& forall|i: int| 0 <= i < 9 ==> c[3 + i] == #[trigger] row.acc@[i]
            &&& forall|i: int| 0 <= i < 9 ==> c[12 + i] == #[trigger] row.addend@[i]
            &&& forall|i: int| 0 <= i < 9 ==> c[21 + i] == #[trigger] row.next@[i]
            &&& forall|i: int| 0 <= i < 9 ==> c[30 + i] == #[trigger] row.carry@[i]
        }),
{
}

/// The constraints that every mode has are zero on a row that adds canonical limbs.
proof fn lemma_sum_checks_zero(row: Row, mode: RangeCheckMode)
    requires
        row.is_real == 1,
        canonical(row.acc@),
        canonical(row.addend@),
        is_limb_sum(row.acc@, row.addend@, row.next@, row.carry@),
    ensures
        all_zero(sum_checks(embed(row_cells(row, mode)))),
{
    let c = row_cells(row, mode);
    let t = embed(c);
    lemma_compact(row, mode);
    lemma_limb_sum(row.acc@, row.addend@, row.next@, row.carry@);
    assert forall|i: int| 0 <= i < 19 implies #[trigger] sum_checks(t)[i] == Ext::zero() by {
        if i == 0 {
            lemma_base_add(1, 1);
            lemma_base_mul(1, 0);
        } else if i < 10 {
            let k = row.carry@[i - 1] as int;
            assert(row.carry@[i - 1] <= 1);
            lemma_bit_check_int(1, k);
            assert(1 * k * (k - 1) == 0) by (nonlinear_arith)
                requires
                    k == 0 || k == 1,
            ;
        } else {
            let k = i - 10;
            lemma_limb_check_int(c, k);
            assert(total_at(row.acc@, row.addend@, row.carry@, k) == row.next@[k] + row.carry@[k]
                * base_of(k));
            if k > 0 {
                assert(c[30 + k - 1] == row.carry@[k - 1]);
            }
        }
    }
}

/// The bits of a canonical number satisfy the bit constraints.
proof fn lemma_number_checks_zero(t: Seq<Ext>, l: Seq<u32>, limbs: int, at: int, n: nat)
    requires
        n <= 9,
        t[0] == Ext::base(1),
        canonical(l),
        forall|i: int| 0 <= i < 9 ==> #[trigger] t[limbs + i] == Ext::base(l[i] as int),
        forall|b: int| 0 <= b < 256 ==> #[trigger] t[at + b] == Ext::base(bit_cells(l)[b] as int),
    ensures
        all_zero(number_checks(t, limbs, at, n)),
    decreases n,
{
    if n > 0 {
        let i = n - 1;
        lemma_number_checks_zero(t, l, limbs, at, i as nat);
        let (o, w) = (at + offset(i), bits_of(i));
        let here = limb_bit_checks(t, t[limbs + i], o, w);
        assert forall|b: int| 0 <= b < w implies #[trigger] t[o + b] == Ext::base(
            l[i] as int / pow2(b as nat) as int % 2,
        ) by {
            let p = offset(i) + b;
            assert(p / 29 == i && p % 29 == b);
            assert(t[at + p] == Ext::base(bit_cells(l)[p] as int));
            lemma_pow2_pos(b as nat);
        }
        assert(l[i] < base_of(i));
        lemma_recon(t, o, l[i], w);
        vstd::arithmetic::div_mod::lemma_small_mod(l[i] as nat, pow2(w));
        assert(t[limbs + i] == Ext::base(l[i] as int));
        assert forall|b: int| 0 <= b < here.len() implies #[trigger] here[b] == Ext::zero() by {
            if b < w {
                let v = l[i] as int / pow2(b as nat) as int % 2;
                assert(t[o + b] == Ext::base(v));
                lemma_bit_check_int(1, v);
                assert(1 * v * (v - 1) == 0) by (nonlinear_arith)
                    requires
                        v == 0 || v == 1,
                ;
            } else {
                lemma_base_add(l[i] as int, l[i] as int);
                lemma_base_mul(1, 0);
            }
        }
    }
}

/// The parts of a sum's limbs satisfy the constraints that join them.
proof fn lemma_chunk_checks_zero(row: Row)
    requires
        row.is_real == 1,
    ensures
        all_zero(chunk_checks(embed(row_cells(row, RangeCheckMode::Lookup)), 9)),
{
    let c = row_cells(row, RangeCheckMode::Lookup);
    let t = embed(c);
    lemma_compact(row, RangeCheckMode::Lookup);
    assert forall|i: int| 0 <= i < 9 implies #[trigger] chunk_checks(t, 9)[i] == Ext::zero() by {
        let l = row.next@[i] as int;
        let (lo, hi) = (l % 0x4_0000, l / 0x4_0000);
        assert(c[39 + 2 * i] == chunk_cells(row.next@)[2 * i]);
        assert(c[40 + 2 * i] == chunk_cells(row.next@)[2 * i + 1]);
        assert(c[39 + 2 * i] == lo && c[40 + 2 * i] == hi);
        assert(c[21 + i] == l);
        lemma_base_add(l, lo);
        lemma_base_mul(hi, 0x4_0000);
        lemma_base_add(l - lo, hi * 0x4_0000);
        lemma_base_mul(1, 0);
    }
}

/// A row that adds satisfies every constraint, whatever the mode.
pub proof fn lemma_addition_satisfies(row: Row, c: IaddCase, s: int, j: int, mode: RangeCheckMode)
    requires
        0 <= j,
        row.adds(c, s, j),
    ensures
        all_zero(row_checks(embed(row_cells(row, mode)), mode)),
{
    lemma_pow2_pos(256);
    vstd::arithmetic::div_mod::lemma_mod_bound(c.r0() + j * c.r1(), modulus());
    vstd::arithmetic::div_mod::lemma_mod_bound(c.r0() + (j + 1) * c.r1(), modulus());
    lemma_limbs_of(c.after(j));
    lemma_limbs_of(c.after(j + 1));
    lemma_limbs_of(c.r1() as int);
    lemma_sum_checks_zero(row, mode);
    let cells = row_cells(row, mode);
    let t = embed(cells);
    lemma_compact(row, mode);
    if mode is Bits {
        assert forall|i: int| 0 <= i < 9 implies #[trigger] t[3 + i] == Ext::base(
            row.acc@[i] as int,
        ) by {
            assert(cells[3 + i] == row.acc@[i]);
        }
        assert forall|i: int| 0 <= i < 9 implies #[trigger] t[12 + i] == Ext::base(
            row.addend@[i] as int,
        ) by {
            assert(cells[12 + i] == row.addend@[i]);
        }
        assert forall|i: int| 0 <= i < 9 implies #[trigger] t[21 + i] == Ext::base(
            row.next@[i] as int,
        ) by {
            assert(cells[21 + i] == row.next@[i]);
        }
        lemma_number_checks_zero(t, row.acc@, 3, 39, 9);
        lemma_number_checks_zero(t, row.addend@, 12, 295, 9);
        lemma_number_checks_zero(t, row.next@, 21, 551, 9);
    } else if mode is Lookup {
        lemma_chunk_checks_zero(row);
    }
}

/// The nine columns from `at`.
pub open spec fn limbs_at(c: Seq<u32>, at: int) -> Seq<u32> {
    c.subrange(at, at + 9)
}

/// The constraints pin the sum: on any columns of field elements whose limbs are
/// canonical, a real row that satisfies them holds the sum of its two numbers.
pub proof fn lemma_checks_pin_addition(c: Seq<u32>)
    requires
        c.len() >= 39,
        forall|i: int| 0 <= i < c.len() ==> #[trigger] c[i] < P,
        c[0] == 1,
        canonical(limbs_at(c, 3)),
        canonical(limbs_at(c, 12)),
        canonical(limbs_at(c, 21)),
        all_zero(sum_checks(embed(c))),
    ensures
        value(limbs_at(c, 21)) == (value(limbs_at(c, 3)) + value(limbs_at(c, 12))) % modulus(),
        forall|i: int| 0 <= i < 9 ==> #[trigger] limbs_at(c, 30)[i] <= 1,
{
    let t = embed(c);
    let (acc, addend, next, carry) = (
        limbs_at(c, 3),
        limbs_at(c, 12),
        limbs_at(c, 21),
        limbs_at(c, 30),
    );
    assert forall|i: int| 0 <= i < 9 implies #[trigger] carry[i] <= 1 by {
        let k = c[30 + i] as int;
        assert(c[30 + i] < P);
        lemma_bit_check_int(1, k);
        assert(sum_checks(t)[i + 1] == Ext::zero());
        assert(1 * k * (k - 1) == k * (k - 1));
        assert((k * (k - 1)) % (P as int) == 0);
        lemma_bit(k);
    }
    assert forall|i: int| 0 <= i < 9 implies total_at(acc, addend, carry, i) == #[trigger] next[i]
        + carry[i] * base_of(i) by {
        lemma_place(i);
        lemma_limb_check_int(c, i);
        assert(sum_checks(t)[i + 10] == Ext::zero());
        if i > 0 {
            assert(carry[i - 1] <= 1);
            assert(carry[i - 1] == c[30 + i - 1]);
        }
        assert(carry[i] <= 1);
        let (k, b) = (carry[i] as int, base_of(i));
        assert(acc[i] < b && addend[i] < b && next[i] < b);
        assert(0 <= k * b <= b) by (nonlinear_arith)
            requires
                k == 0 || k == 1,
                b > 0,
        ;
        let x = total_at(acc, addend, carry, i) - next[i] - k * b;
        assert(-0x4000_0000 <= x <= 0x4000_0000);
        assert(x % (P as int) == 0);
        assert(x == 0);
    }
    assert(is_limb_sum(acc, addend, next, carry)) by {
        assert forall|i: int| 0 <= i < 9 implies #[trigger] next[i] == total_at(
            acc,
            addend,
            carry,
            i,
        ) % base_of(i) by {
            lemma_sum_split(acc, addend, next, carry, i);
        }
        assert forall|i: int| 0 <= i < 9 implies #[trigger] carry[i] == total_at(
            acc,
            addend,
            carry,
            i,
        ) / base_of(i) by {
            lemma_sum_split(acc, addend, next, carry, i);
        }
    }
    lemma_limb_sum(acc, addend, next, carry);
}

proof fn lemma_sum_split(acc: Seq<u32>, addend: Seq<u32>, next: Seq<u32>, carry: Seq<u32>, i: int)
    requires
        0 <= i < 9,
        canonical(next),
        total_at(acc, addend, carry, i) == next[i] + carry[i] * base_of(i),
    ensures
        next[i] == total_at(acc, addend, carry, i) % base_of(i),
        carry[i] == total_at(acc, addend, carry, i) / base_of(i),
{
    lemma_place(i);
    let (n, k, b) = (next[i] as int, carry[i] as int, base_of(i));
    assert(next[i] < base_of(i));
    assert(n + k * b == b * k + n) by (nonlinear_arith);
    vstd::arithmetic::div_mod::lemma_fundamental_div_mod_converse(
        total_at(acc, addend, carry, i),
        b,
        k,
        n,
    );
}

/// Bits in columns make up a number of as many bits.
proof fn lemma_recon_bits(c: Seq<u32>, at: int, n: nat) -> (r: int)
    requires
        0 <= at,
        at + n <= c.len(),
        n <= 29,
        forall|b: int| 0 <= b < n ==> #[trigger] c[at + b] <= 1,
    ensures
        recon(embed(c), at, n) == Ext::base(r),
        0 <= r < pow2(n),
    decreases n,
{
    if n == 0 {
        lemma2_to64();
        lemma_base_add(0, 0);
        0
    } else {
        let k = (n - 1) as nat;
        let below = lemma_recon_bits(c, at, k);
        assert(c[at + k] <= 1);
        let (bit, w) = (c[at + k] as int, pow2(k) as int);
        lemma_pow2_unfold(n);
        lemma_base_mul(bit, w);
        lemma_base_add(below, bit * w);
        assert(0 <= bit * w <= w) by (nonlinear_arith)
            requires
                bit == 0 || bit == 1,
                w >= 0,
        ;
        below + bit * w
    }
}

/// The bit constraints of a number pin its limbs to their ranges.
proof fn lemma_number_pinned(c: Seq<u32>, limbs: int, at: int, n: nat)
    requires
        n <= 9,
        0 <= limbs,
        limbs + 9 <= c.len(),
        0 <= at,
        at + 256 <= c.len(),
        forall|i: int| 0 <= i < c.len() ==> #[trigger] c[i] < P,
        c[0] == 1,
        all_zero(number_checks(embed(c), limbs, at, n)),
    ensures
        forall|i: int| 0 <= i < n ==> #[trigger] limbs_at(c, limbs)[i] < base_of(i),
    decreases n,
{
    if n > 0 {
        let t = embed(c);
        let i = n - 1;
        let all = number_checks(t, limbs, at, n);
        let before = number_checks(t, limbs, at, i as nat);
        let (o, w) = (at + offset(i), bits_of(i));
        let here = limb_bit_checks(t, t[limbs + i], o, w);
        assert(all == before + here);
        assert(all_zero(before)) by {
            assert forall|j: int| 0 <= j < before.len() implies #[trigger] before[j]
                == Ext::zero() by {
                assert(all[j] == before[j]);
            }
        }
        assert forall|j: int| 0 <= j < here.len() implies #[trigger] here[j] == Ext::zero() by {
            assert(all[before.len() + j] == here[j]);
        }
        lemma_number_pinned(c, limbs, at, i as nat);
        assert forall|b: int| 0 <= b < w implies #[trigger] c[o + b] <= 1 by {
            let k = c[o + b] as int;
            assert(c[o + b] < P);
            assert(here[b] == Ext::zero());
            lemma_bit_check_int(1, k);
            assert(1 * k * (k - 1) == k * (k - 1));
            assert((k * (k - 1)) % (P as int) == 0);
            lemma_bit(k);
        }
        let r = lemma_recon_bits(c, o, w);
        assert(here[w as int] == Ext::zero());
        let l = c[limbs + i] as int;
        assert(c[limbs + i] < P);
        lemma_base_add(l, r);
        lemma_base_mul(1, l - r);
        lemma_place(i);
        assert((1 * (l - r)) % (P as int) == 0);
        assert(l == r);
        assert(limbs_at(c, limbs)[i] == c[limbs + i]);
    }
}

/// With bits as range checks the constraints alone pin the addition: on any
/// columns of field elements, a real row that satisfies them holds three numbers
/// in canonical limbs, the third the sum of the other two.
pub proof fn lemma_bits_pin_addition(c: Seq<u32>)
    requires
        c.len() == 807,
        forall|i: int| 0 <= i < c.len() ==> #[trigger] c[i] < P,
        c[0] == 1,
        all_zero(row_checks(embed(c), RangeCheckMode::Bits)),
    ensures
        canonical(limbs_at(c, 3)),
        canonical(limbs_at(c, 12)),
        canonical(limbs_at(c, 21)),
        value(limbs_at(c, 21)) == (value(limbs_at(c, 3)) + value(limbs_at(c, 12))) % modulus(),
{
    let t = embed(c);
    let all = row_checks(t, RangeCheckMode::Bits);
    let (s, x, y, z) = (
        sum_checks(t),
        number_checks(t, 3, 39, 9),
        number_checks(t, 12, 295, 9),
        number_checks(t, 21, 551, 9),
    );
    assert(all == s + x + y + z);
    assert forall|j: int| 0 <= j < s.len() implies #[trigger] s[j] == Ext::zero() by {
        assert(all[j] == s[j]);
    }
    assert forall|j: int| 0 <= j < x.len() implies #[trigger] x[j] == Ext::zero() by {
        assert(all[s.len() + j] == x[j]);
    }
    assert forall|j: int| 0 <= j < y.len() implies #[trigger] y[j] == Ext::zero() by {
        assert(all[s.len() + x.len() + j] == y[j]);
    }
    assert forall|j: int| 0 <= j < z.len() implies #[trigger] z[j] == Ext::zero() by {
        assert(all[s.len() + x.len() + y.len() + j] == z[j]);
    }
    lemma_number_pinned(c, 3, 39, 9);
    lemma_number_pinned(c, 12, 295, 9);
    lemma_number_pinned(c, 21, 551, 9);
    lemma_checks_pin_addition(c);
}

/// The parts of the sum's limbs are in the range tables.
pub open spec fn parts_in_range(c: Seq<u32>) -> bool {
    forall|j: int|
        0 <= j < 18 ==> #[trigger] c[39 + j] < (if j % 2 == 0 {
            0x4_0000int
        } else if j == 17 {
            0x40
        } else {
            0x800
        })
}

/// With lookups as range checks the constraints pin the addition too: on any
/// columns of field elements, a real row that satisfies them, whose parts are in
/// the range tables, takes canonical limbs to the canonical limbs of the sum.
pub proof fn lemma_lookups_pin_addition(c: Seq<u32>)
    requires
        c.len() == 57,
        forall|i: int| 0 <= i < c.len() ==> #[trigger] c[i] < P,
        c[0] == 1,
        canonical(limbs_at(c, 3)),
        canonical(limbs_at(c, 12)),
        parts_in_range(c),
        all_zero(row_checks(embed(c), RangeCheckMode::Lookup)),
    ensures
        canonical(limbs_at(c, 21)),
        value(limbs_at(c, 21)) == (value(limbs_at(c, 3)) + value(limbs_at(c, 12))) % modulus(),
{
    let t = embed(c);
    let all = row_checks(t, RangeCheckMode::Lookup);
    let (s, x) = (sum_checks(t), chunk_checks(t, 9));
    assert(all == s + x);
    assert forall|j: int| 0 <= j < s.len() implies #[trigger] s[j] == Ext::zero() by {
        assert(all[j] == s[j]);
    }
    assert forall|i: int| 0 <= i < 9 implies #[trigger] limbs_at(c, 21)[i] < base_of(i) by {
        assert(all[s.len() + i] == x[i]);
        assert(x[i] == Ext::zero());
        let (l, lo, hi) = (c[21 + i] as int, c[39 + 2 * i] as int, c[40 + 2 * i] as int);
        assert(c[21 + i] < P);
        assert(c[39 + 2 * i] < 0x4_0000);
        assert(c[39 + (2 * i + 1)] < (if i == 8 {
            0x40int
        } else {
            0x800
        }));
        lemma_base_add(l, lo);
        lemma_base_mul(hi, 0x4_0000);
        lemma_base_add(l - lo, hi * 0x4_0000);
        lemma_base_mul(1, l - lo - hi * 0x4_0000);
        lemma_place(i);
        assert((1 * (l - lo - hi * 0x4_0000)) % (P as int) == 0);
        assert(l == lo + hi * 0x4_0000);
    }
    lemma_checks_pin_addition(c);
}

} // verus!
