//! The extension is a field: every element but zero has an inverse, and a product
//! is zero only where a factor is.
use vstd::arithmetic::div_mod::{
    lemma_add_mod_noop, lemma_mod_bound, lemma_mul_mod_noop, lemma_mul_mod_noop_left,
    lemma_mul_mod_noop_right, lemma_small_mod, lemma_sub_mod_noop,
};
use vstd::prelude::*;

use crate::field::{
    lemma_base_mul, lemma_mul_assoc, lemma_mul_comm, lemma_mul_one, lemma_mul_reduced,
    lemma_mul_zero, lemma_ops_wf, red, Ext, P,
};
use crate::prime::{
    lemma_five_no_square, lemma_minus_one_no_square, lemma_no_zero_divisors, lemma_residue_inverse,
};

verus! {

/// A multiple of a multiple of the modulus.
proof fn lemma_zero_times(x: int, k: int)
    requires
        red(x) == 0,
    ensures
        red(x * k) == 0,
        red(k * x) == 0,
{
    lemma_mul_mod_noop_left(x, k, P as int);
    assert(0 * k == 0);
    lemma_small_mod(0, P as nat);
    assert(k * x == x * k) by (nonlinear_arith);
}

/// Two squares sum to zero only where both are zero.
proof fn lemma_sum_of_squares(a: int, b: int)
    requires
        red(a * a + b * b) == 0,
    ensures
        red(a) == 0,
        red(b) == 0,
{
    let p = P as int;
    if red(b) != 0 {
        let k = lemma_residue_inverse(b);
        let y = a * k;
        let w = b * k;
        // y^2 + w^2 is a multiple of the sum, and w is one.
        lemma_zero_times(a * a + b * b, k * k);
        assert((a * a + b * b) * (k * k) == y * y + w * w) by (nonlinear_arith)
            requires
                y == a * k,
                w == b * k,
        ;
        lemma_mul_mod_noop(w, w, p);
        assert(w * w % p == 1) by {
            lemma_small_mod(1, P as nat);
        }
        lemma_add_mod_noop(y * y, w * w, p);
        lemma_mod_bound(y * y, p);
        assert(y * y % p == P - 1);
        lemma_minus_one_no_square(y);
    }
    lemma_zero_times(b, b);
    lemma_add_mod_noop(a * a, b * b, p);
    lemma_mod_bound(a * a, p);
    lemma_small_mod(red(a * a) as nat, P as nat);
    assert(red(a * a) == 0);
    lemma_no_zero_divisors(a, a);
}

/// A square is five times a square only where both are zero.
proof fn lemma_five_squares(m: int, n: int)
    requires
        red(m * m) == red(5 * (n * n)),
    ensures
        red(m) == 0,
        red(n) == 0,
{
    let p = P as int;
    if red(n) != 0 {
        let k = lemma_residue_inverse(n);
        let y = m * k;
        let w = n * k;
        lemma_mul_mod_noop_left(m * m, k * k, p);
        lemma_mul_mod_noop_left(5 * (n * n), k * k, p);
        assert((m * m) * (k * k) == y * y) by (nonlinear_arith)
            requires
                y == m * k,
        ;
        assert((5 * (n * n)) * (k * k) == 5 * (w * w)) by (nonlinear_arith)
            requires
                w == n * k,
        ;
        lemma_mul_mod_noop(w, w, p);
        assert(w * w % p == 1) by {
            lemma_small_mod(1, P as nat);
        }
        lemma_mul_mod_noop_right(5, w * w, p);
        lemma_five_no_square(y);
    }
    lemma_zero_times(n, n);
    lemma_zero_times(n * n, 5);
    lemma_no_zero_divisors(m, m);
}

/// The conjugate: `(a + b*i) - (c + d*i)*u`.
spec fn conjugate(x: Ext) -> Ext {
    Ext::of(x.a, x.b, -x.c, -x.d)
}

/// The two coordinates of an element times its conjugate.
spec fn norm_a(x: Ext) -> int {
    (x.a * x.a - x.b * x.b) - 2 * (x.c * x.c - x.d * x.d) + 2 * (x.c * x.d)
}

spec fn norm_b(x: Ext) -> int {
    2 * (x.a * x.b) - 4 * (x.c * x.d) - (x.c * x.c - x.d * x.d)
}

/// An element times its conjugate has no part in `u`.
proof fn lemma_conjugate(x: Ext)
    ensures
        x * conjugate(x) == Ext::of(norm_a(x), norm_b(x), 0, 0),
{
    let y = Ext { a: x.a, b: x.b, c: -x.c, d: -x.d };
    assert(conjugate(x) == y.reduced());
    lemma_mul_comm(x, conjugate(x));
    lemma_mul_comm(x, y);
    lemma_mul_reduced(y, x);
    let r = x.raw_mul(y);
    let (a, b, c, d) = (x.a, x.b, x.c, x.d);
    assert(a * a - b * b + 2 * (c * (-c) - d * (-d)) - (c * (-d) + d * (-c)) == norm_a(x))
        by (nonlinear_arith)
        requires
            norm_a(x) == (a * a - b * b) - 2 * (c * c - d * d) + 2 * (c * d),
    ;
    assert(a * b + b * a + 2 * (c * (-d) + d * (-c)) + (c * (-c) - d * (-d)) == norm_b(x))
        by (nonlinear_arith)
        requires
            norm_b(x) == 2 * (a * b) - 4 * (c * d) - (c * c - d * d),
    ;
    assert(a * (-c) - b * (-d) + c * a - d * b == 0) by (nonlinear_arith);
    assert(a * (-d) + b * (-c) + c * b + d * a == 0) by (nonlinear_arith);
    assert(x * y == r.reduced()) by {
        reveal(Ext::spec_mul);
    }
}

/// The norm of an element that is not zero is not zero.
proof fn lemma_norm_nonzero(x: Ext)
    requires
        x.wf(),
        x != Ext::zero(),
    ensures
        red(norm_a(x) * norm_a(x) + norm_b(x) * norm_b(x)) != 0,
{
    let p = P as int;
    let (a, b, c, d) = (x.a, x.b, x.c, x.d);
    let (na, nb) = (norm_a(x), norm_b(x));
    if red(na * na + nb * nb) == 0 {
        lemma_sum_of_squares(na, nb);
        // The first part's square equals the second part's square times 2 + i.
        let (s1, t1) = (a * a - b * b, 2 * (a * b));
        let (s2, t2) = (
            2 * (c * c - d * d) - 2 * (c * d),
            4 * (c * d) + (c * c - d * d),
        );
        assert(na == s1 - s2 && nb == t1 - t2);
        lemma_sub_mod_noop(s1, s2, p);
        lemma_sub_mod_noop(t1, t2, p);
        lemma_equal_residues(s1, s2);
        lemma_equal_residues(t1, t2);
        lemma_mul_mod_noop(s1, s1, p);
        lemma_mul_mod_noop(s2, s2, p);
        lemma_mul_mod_noop(t1, t1, p);
        lemma_mul_mod_noop(t2, t2, p);
        lemma_add_mod_noop(s1 * s1, t1 * t1, p);
        lemma_add_mod_noop(s2 * s2, t2 * t2, p);
        let m = a * a + b * b;
        let n = c * c + d * d;
        assert(s1 * s1 + t1 * t1 == m * m) by (nonlinear_arith)
            requires
                s1 == a * a - b * b,
                t1 == 2 * (a * b),
                m == a * a + b * b,
        ;
        lemma_norm_of_square(c, d);
        assert(s2 * s2 + t2 * t2 == 5 * (n * n));
        lemma_five_squares(m, n);
        lemma_sum_of_squares(a, b);
        lemma_sum_of_squares(c, d);
        lemma_small_mod(a as nat, P as nat);
        lemma_small_mod(b as nat, P as nat);
        lemma_small_mod(c as nat, P as nat);
        lemma_small_mod(d as nat, P as nat);
    }
}

/// `|(2 + i) * (c + d*i)^2|^2 == 5 * (c^2 + d^2)^2`.
proof fn lemma_norm_of_square(c: int, d: int)
    ensures
        ({
            let s = 2 * (c * c - d * d) - 2 * (c * d);
            let t = 4 * (c * d) + (c * c - d * d);
            let n = c * c + d * d;
            s * s + t * t == 5 * (n * n)
        }),
{
    let (u, v) = (c * c - d * d, 2 * (c * d));
    let n = c * c + d * d;
    let (s, t) = (2 * u - v, 2 * v + u);
    assert(u * u + v * v == n * n) by (nonlinear_arith)
        requires
            u == c * c - d * d,
            v == 2 * (c * d),
            n == c * c + d * d,
    ;
    assert(s * s + t * t == 5 * (u * u + v * v)) by (nonlinear_arith)
        requires
            s == 2 * u - v,
            t == 2 * v + u,
    ;
}

/// Where a difference is zero, the residues are equal.
proof fn lemma_equal_residues(x: int, y: int)
    requires
        red(x - y) == 0,
    ensures
        red(x) == red(y),
{
    vstd::arithmetic::div_mod::lemma_mod_equivalence(x, y, P as int);
}

/// Every element but zero has an inverse.
pub proof fn lemma_invertible(x: Ext)
    requires
        x.wf(),
        x != Ext::zero(),
    ensures
        x.invertible(),
{
    let (na, nb) = (norm_a(x), norm_b(x));
    let m = na * na + nb * nb;
    lemma_norm_nonzero(x);
    let k = lemma_residue_inverse(m);
    let n = Ext::of(na, nb, 0, 0);
    let nbar = Ext::of(na, -nb, 0, 0);
    lemma_conjugate(x);
    // n times its own conjugate is the base-field element m.
    assert(n * nbar == Ext::base(m)) by {
        let (r, s) = (Ext { a: na, b: nb, c: 0, d: 0 }, Ext { a: na, b: -nb, c: 0, d: 0 });
        assert(n == r.reduced() && nbar == s.reduced());
        lemma_mul_reduced(r, nbar);
        lemma_mul_comm(r, nbar);
        lemma_mul_reduced(s, r);
        lemma_mul_comm(s, r);
        assert(na * na - nb * (-nb) == m) by (nonlinear_arith)
            requires
                m == na * na + nb * nb,
        ;
        assert(na * (-nb) + nb * na == 0) by (nonlinear_arith);
        assert(r * s == Ext::base(m)) by {
            reveal(Ext::spec_mul);
        }
    }
    lemma_base_mul(m, k);
    assert(Ext::base(m) * Ext::base(k) == Ext::one()) by {
        lemma_small_mod(1, P as nat);
        lemma_small_mod(0, P as nat);
    }
    let y = conjugate(x) * (nbar * Ext::base(k));
    lemma_mul_assoc(x, conjugate(x), nbar * Ext::base(k));
    lemma_mul_assoc(n, nbar, Ext::base(k));
    assert(x * y == Ext::one());
    lemma_ops_wf(conjugate(x), nbar * Ext::base(k));
    crate::field::lemma_inv_unique(x, y);
}

/// A product is zero only where a factor is.
pub proof fn lemma_product_nonzero(x: Ext, y: Ext)
    requires
        x.wf(),
        y.wf(),
        x * y == Ext::zero(),
    ensures
        x == Ext::zero() || y == Ext::zero(),
{
    if x != Ext::zero() {
        lemma_invertible(x);
        let z = x.inv();
        assert(z.wf() && x * z == Ext::one());
        lemma_mul_assoc(z, x, y);
        lemma_mul_comm(z, x);
        lemma_mul_one(y);
        lemma_mul_zero(z);
        lemma_mul_comm(z, Ext::zero());
    }
}

/// The only elements that are their own squares are zero and one.
pub proof fn lemma_idempotent(b: Ext)
    requires
        b.wf(),
        b * b == b,
    ensures
        b == Ext::zero() || b == Ext::one(),
{
    if b != Ext::zero() {
        lemma_invertible(b);
        let z = b.inv();
        assert(z.wf() && b * z == Ext::one());
        lemma_mul_assoc(b, b, z);
        lemma_mul_one(b);
        lemma_mul_comm(b, Ext::one());
    }
}

} // verus!
