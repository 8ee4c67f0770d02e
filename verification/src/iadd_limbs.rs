//! 256-bit numbers as nine limbs: eight of 29 bits and a top limb of 24.
use vstd::arithmetic::power2::{lemma2_to64, lemma_pow2_adds, lemma_pow2_pos, pow2};
use vstd::prelude::*;

verus! {

pub const LIMBS: usize = 9;

pub const LIMB_BITS: usize = 29;

pub const TOP_LIMB_BITS: usize = 24;

/// The bits of limb `i`.
pub open spec fn bits_of(i: int) -> nat {
    if i == 8 {
        24
    } else {
        29
    }
}

/// The bits below limb `i`.
pub open spec fn offset(i: int) -> nat {
    if i >= 9 {
        256
    } else {
        (29 * i) as nat
    }
}

/// The weight of limb `i`.
pub open spec fn place(i: int) -> int {
    pow2(offset(i)) as int
}

/// One more than the greatest value of limb `i`.
pub open spec fn base_of(i: int) -> int {
    pow2(bits_of(i)) as int
}

/// What the first `n` limbs are worth.
pub open spec fn prefix(l: Seq<u32>, n: nat) -> int
    decreases n,
{
    if n == 0 {
        0
    } else {
        prefix(l, (n - 1) as nat) + l[n - 1] * place(n - 1)
    }
}

/// The number that nine limbs stand for.
pub open spec fn value(l: Seq<u32>) -> int {
    prefix(l, 9)
}

/// Two to the 256th.
pub open spec fn modulus() -> int {
    pow2(256) as int
}

/// Nine limbs, each within its bits.
pub open spec fn canonical(l: Seq<u32>) -> bool {
    l.len() == 9 && forall|i: int| 0 <= i < 9 ==> #[trigger] l[i] < base_of(i)
}

/// The limbs of a number, of which only the low 256 bits count.
pub open spec fn limbs_of(x: int) -> Seq<u32> {
    Seq::new(9, |i: int| (x / place(i) % base_of(i)) as u32)
}

pub proof fn lemma_place(i: int)
    requires
        0 <= i < 9,
    ensures
        place(i + 1) == place(i) * base_of(i),
        place(i) > 0,
        base_of(i) > 0,
        place(0) == 1,
        place(9) == modulus(),
        base_of(i) <= 0x2000_0000,
        base_of(i) == (if i == 8 {
            0x100_0000int
        } else {
            0x2000_0000
        }),
{
    lemma2_to64();
    lemma_pow2_adds(offset(i), bits_of(i));
    lemma_pow2_pos(offset(i));
    lemma_pow2_pos(bits_of(i));
}

/// The limbs of a number have that number's low 256 bits as their value.
pub proof fn lemma_limbs_of(x: int)
    requires
        0 <= x,
    ensures
        canonical(limbs_of(x)),
        value(limbs_of(x)) == x % modulus(),
{
    let l = limbs_of(x);
    assert forall|i: int| 0 <= i < 9 implies #[trigger] l[i] < base_of(i) by {
        lemma_place(i);
        vstd::arithmetic::div_mod::lemma_mod_bound(x / place(i), base_of(i));
    }
    lemma_prefix_of(x, 9);
    lemma_place(0);
}

proof fn lemma_prefix_of(x: int, n: nat)
    requires
        0 <= x,
        n <= 9,
    ensures
        prefix(limbs_of(x), n) == x % place(n as int),
    decreases n,
{
    if n == 0 {
        lemma_place(0);
    } else {
        let i = n - 1;
        lemma_prefix_of(x, i as nat);
        lemma_place(i);
        vstd::arithmetic::div_mod::lemma_mod_bound(x / place(i), base_of(i));
        vstd::arithmetic::div_mod::lemma_mod_breakdown(x, place(i), base_of(i));
        assert(limbs_of(x)[i] == x / place(i) % base_of(i));
        assert(place(i) * (x / place(i) % base_of(i)) == (x / place(i) % base_of(i)) * place(i))
            by (nonlinear_arith);
    }
}

/// Canonical limbs are worth less than the next limb's weight.
pub proof fn lemma_prefix_bound(l: Seq<u32>, n: nat)
    requires
        canonical(l),
        n <= 9,
    ensures
        0 <= prefix(l, n) < place(n as int),
    decreases n,
{
    if n == 0 {
        lemma_place(0);
    } else {
        let i = n - 1;
        lemma_prefix_bound(l, i as nat);
        lemma_place(i);
        let (p, b, d) = (place(i), base_of(i), l[i] as int);
        assert(l[i] < base_of(i));
        assert(prefix(l, i as nat) + d * p < p * b) by (nonlinear_arith)
            requires
                prefix(l, i as nat) < p,
                0 <= d <= b - 1,
                p > 0,
        ;
        assert(d * p >= 0) by (nonlinear_arith)
            requires
                d >= 0,
                p > 0,
        ;
    }
}

/// What the limbs from `i` on are worth, in units of limb `i`.
spec fn suffix(l: Seq<u32>, i: int) -> int
    decreases 9 - i,
{
    if i >= 9 || i < 0 {
        0
    } else {
        l[i] + base_of(i) * suffix(l, i + 1)
    }
}

proof fn lemma_split_at(l: Seq<u32>, i: nat)
    requires
        l.len() == 9,
        i <= 9,
    ensures
        prefix(l, 9) == prefix(l, i) + place(i as int) * suffix(l, i as int),
    decreases 9 - i,
{
    if i < 9 {
        lemma_split_at(l, (i + 1) as nat);
        lemma_place(i as int);
        let (p, b, d, s) = (place(i as int), base_of(i as int), l[i as int] as int, suffix(l, i as int + 1));
        assert(d * p + (p * b) * s == p * (d + b * s)) by (nonlinear_arith);
    } else {
        assert(place(9) * 0 == 0);
    }
}

/// Canonical limbs are the limbs of their value: there are no others.
pub proof fn lemma_canonical(l: Seq<u32>)
    requires
        canonical(l),
    ensures
        limbs_of(value(l)) == l,
        0 <= value(l) < modulus(),
{
    lemma_prefix_bound(l, 9);
    lemma_place(0);
    assert forall|i: int| 0 <= i < 9 implies #[trigger] limbs_of(value(l))[i] == l[i] by {
        lemma_place(i);
        lemma_split_at(l, i as nat);
        lemma_prefix_bound(l, i as nat);
        let (p, b) = (place(i), base_of(i));
        let s = suffix(l, i);
        vstd::arithmetic::div_mod::lemma_fundamental_div_mod_converse(
            value(l),
            p,
            s,
            prefix(l, i as nat),
        );
        assert(s == l[i] + b * suffix(l, i + 1));
        assert(l[i] < b);
        vstd::arithmetic::div_mod::lemma_fundamental_div_mod_converse(
            s,
            b,
            suffix(l, i + 1),
            l[i] as int,
        );
    }
    assert(limbs_of(value(l)) =~= l);
}

/// The bits of limb `i`.
pub fn limb_bits(i: usize) -> (r: usize)
    requires
        i < usize::MAX,
    ensures
        r == bits_of(i as int),
{
    if i + 1 == LIMBS {
        TOP_LIMB_BITS
    } else {
        LIMB_BITS
    }
}

/// One more than the greatest value of limb `i`.
pub fn limb_base(i: usize) -> (r: u32)
    requires
        i < usize::MAX,
    ensures
        r == base_of(i as int),
{
    proof {
        lemma2_to64();
    }
    if limb_bits(i) == TOP_LIMB_BITS {
        0x100_0000
    } else {
        0x2000_0000
    }
}

/// The sum that limb `i` of an addition has to hold.
pub open spec fn total_at(a: Seq<u32>, b: Seq<u32>, carry: Seq<u32>, i: int) -> int {
    a[i] + b[i] + (if i == 0 {
        0
    } else {
        carry[i - 1] as int
    })
}

/// `out` and `carry` are the limb-wise sum of `a` and `b`: each limb keeps what
/// fits in its bits and carries the rest into the next.
pub open spec fn is_limb_sum(a: Seq<u32>, b: Seq<u32>, out: Seq<u32>, carry: Seq<u32>) -> bool {
    &&& out.len() == 9
    &&& carry.len() == 9
    &&& forall|i: int|
        0 <= i < 9 ==> #[trigger] out[i] == total_at(a, b, carry, i) % base_of(i)
    &&& forall|i: int|
        0 <= i < 9 ==> #[trigger] carry[i] == total_at(a, b, carry, i) / base_of(i)
}

/// Adds limb by limb; returns the sum's limbs and the carry out of each limb.
pub fn add_limbs(a: [u32; LIMBS], b: [u32; LIMBS]) -> (r: ([u32; LIMBS], [u32; LIMBS]))
    ensures
        is_limb_sum(a@, b@, r.0@, r.1@),
        canonical(a@) && canonical(b@) ==> canonical(r.0@) && value(r.0@) == (value(a@) + value(b@))
            % modulus(),
{
    let mut out: [u32; LIMBS] = [0u32; LIMBS];
    let mut carry: [u32; LIMBS] = [0u32; LIMBS];
    let mut carry_in: u32 = 0;
    let mut i: usize = 0;
    while i < LIMBS
        invariant
            i <= LIMBS,
            out@.len() == 9,
            carry@.len() == 9,
            carry_in == (if i == 0 {
                0u32
            } else {
                carry@[i - 1]
            }),
            carry_in <= 16 * 64,
            forall|j: int|
                0 <= j < i ==> #[trigger] out@[j] == total_at(a@, b@, carry@, j) % base_of(j),
            forall|j: int|
                0 <= j < i ==> #[trigger] carry@[j] == total_at(a@, b@, carry@, j) / base_of(j),
        decreases LIMBS - i,
    {
        let total: u64 = a[i] as u64 + b[i] as u64 + carry_in as u64;
        let base: u64 = limb_base(i) as u64;
        proof {
            lemma_place(i as int);
        }
        let ghost before = carry@;
        out[i] = (total % base) as u32;
        carry[i] = (total / base) as u32;
        carry_in = carry[i];
        proof {
            assert forall|j: int| 0 <= j <= i implies total_at(a@, b@, carry@, j) == total_at(
                a@,
                b@,
                before,
                j,
            ) by {}
        }
        i += 1;
    }
    proof {
        if canonical(a@) && canonical(b@) {
            lemma_limb_sum(a@, b@, out@, carry@);
        }
    }
    (out, carry)
}

/// The sum of canonical limbs is the sum of their values modulo two to the
/// 256th, in canonical limbs; a limb carries at most one.
pub proof fn lemma_limb_sum(a: Seq<u32>, b: Seq<u32>, out: Seq<u32>, carry: Seq<u32>)
    requires
        canonical(a),
        canonical(b),
        is_limb_sum(a, b, out, carry),
    ensures
        canonical(out),
        forall|i: int| 0 <= i < 9 ==> #[trigger] carry[i] <= 1,
        forall|i: int|
            0 <= i < 9 ==> #[trigger] total_at(a, b, carry, i) == out[i] + carry[i] * base_of(i),
        value(out) == (value(a) + value(b)) % modulus(),
        value(out) + carry[8] * modulus() == value(a) + value(b),
{
    assert forall|i: int| 0 <= i < 9 implies #[trigger] out[i] < base_of(i) by {
        lemma_place(i);
        vstd::arithmetic::div_mod::lemma_mod_bound(total_at(a, b, carry, i), base_of(i));
    }
    lemma_sum_prefix(a, b, out, carry, 9);
    lemma_prefix_bound(out, 9);
    lemma_place(0);
    let m = modulus();
    vstd::arithmetic::div_mod::lemma_fundamental_div_mod_converse(
        value(a) + value(b),
        m,
        carry[8] as int,
        value(out),
    );
}

proof fn lemma_sum_prefix(a: Seq<u32>, b: Seq<u32>, out: Seq<u32>, carry: Seq<u32>, n: nat)
    requires
        canonical(a),
        canonical(b),
        is_limb_sum(a, b, out, carry),
        n <= 9,
    ensures
        forall|i: int| 0 <= i < n ==> #[trigger] carry[i] <= 1,
        forall|i: int|
            0 <= i < n ==> #[trigger] total_at(a, b, carry, i) == out[i] + carry[i] * base_of(i),
        n > 0 ==> prefix(out, n) + place(n as int) * carry[n - 1] == prefix(a, n) + prefix(b, n),
        n == 0 ==> prefix(out, n) == prefix(a, n) + prefix(b, n),
    decreases n,
{
    if n > 0 {
        let i = n - 1;
        lemma_sum_prefix(a, b, out, carry, i as nat);
        lemma_place(i);
        let (p, d) = (place(i), base_of(i));
        let t = total_at(a, b, carry, i);
        assert(out[i] == t % d && carry[i] == t / d);
        vstd::arithmetic::div_mod::lemma_fundamental_div_mod(t, d);
        assert(a[i] < d && b[i] < d);
        assert(0 <= t < 2 * d);
        assert(carry[i] <= 1) by (nonlinear_arith)
            requires
                t == d * (t / d) + t % d,
                t % d >= 0,
                t < 2 * d,
                d > 0,
                carry[i] == t / d,
        ;
        assert(d * (t / d) == carry[i] * d) by (nonlinear_arith)
            requires
                carry[i] == t / d,
        ;
        let cin = if i == 0 {
            0int
        } else {
            carry[i - 1] as int
        };
        let (x, y, o, c) = (a[i] as int, b[i] as int, out[i] as int, carry[i] as int);
        assert(o * p + (p * d) * c == x * p + y * p + p * cin) by (nonlinear_arith)
            requires
                x + y + cin == o + c * d,
        ;
        assert(p * 0 == 0);
    }
}

/// The low eighteen bits of a limb and the bits above them.
pub fn split_lookup_chunks(limb_idx: usize, value: u32) -> (r: (u32, u32))
    requires
        limb_idx < LIMBS,
    ensures
        r.0 == value as int % 0x4_0000,
        r.1 == value as int / 0x4_0000,
        value == r.0 + 0x4_0000 * r.1,
        value < base_of(limb_idx as int) ==> r.1 < pow2((bits_of(limb_idx as int) - 18) as nat),
{
    proof {
        lemma2_to64();
    }
    (value % 0x4_0000, value / 0x4_0000)
}

/// The bits of a limb above the low eighteen.
pub fn lookup_high_bits(limb_idx: usize) -> (r: usize)
    requires
        limb_idx < usize::MAX,
    ensures
        r == bits_of(limb_idx as int) - 18,
{
    limb_bits(limb_idx) - 18
}

} // verus!
