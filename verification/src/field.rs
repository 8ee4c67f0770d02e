//! The prime field of order `2^31 - 1` and its degree-four extension.
//!
//! An extension element is `(a + b*i) + (c + d*i)*u` with `i^2 = -1` and
//! `u^2 = 2 + i`; its mathematical model is [`Ext`], four integers that the
//! operations keep reduced.
use vstd::prelude::*;

verus! {

/// The base field's modulus.
pub const P: u32 = 0x7fff_ffff;

/// An extension element as four integers.
#[verifier::ext_equal]
pub ghost struct Ext {
    pub a: int,
    pub b: int,
    pub c: int,
    pub d: int,
}

/// `x` brought into `[0, P)`.
pub open spec fn red(x: int) -> int {
    x % (P as int)
}

impl Ext {
    /// All four coordinates lie in `[0, P)`.
    pub open spec fn wf(self) -> bool {
        &&& 0 <= self.a < P
        &&& 0 <= self.b < P
        &&& 0 <= self.c < P
        &&& 0 <= self.d < P
    }

    /// The element whose coordinates are the given integers modulo `P`.
    pub open spec fn of(a: int, b: int, c: int, d: int) -> Ext {
        Ext { a: red(a), b: red(b), c: red(c), d: red(d) }
    }

    /// The base-field element `v`.
    pub open spec fn base(v: int) -> Ext {
        Ext::of(v, 0, 0, 0)
    }

    pub open spec fn zero() -> Ext {
        Ext { a: 0, b: 0, c: 0, d: 0 }
    }

    pub open spec fn one() -> Ext {
        Ext { a: 1, b: 0, c: 0, d: 0 }
    }

    #[verifier::opaque]
    pub open spec fn spec_add(self, o: Ext) -> Ext {
        Ext::of(self.a + o.a, self.b + o.b, self.c + o.c, self.d + o.d)
    }

    #[verifier::opaque]
    pub open spec fn spec_sub(self, o: Ext) -> Ext {
        Ext::of(self.a - o.a, self.b - o.b, self.c - o.c, self.d - o.d)
    }

    #[verifier::opaque]
    pub open spec fn spec_neg(self) -> Ext {
        Ext::of(-self.a, -self.b, -self.c, -self.d)
    }

    /// `((a + b*i) + (c + d*i)*u) * ((e + f*i) + (g + h*i)*u)` over the integers.
    pub open spec fn raw_mul(self, o: Ext) -> Ext {
        Ext {
            a: self.a * o.a - self.b * o.b + 2 * (self.c * o.c - self.d * o.d) - (self.c * o.d
                + self.d * o.c),
            b: self.a * o.b + self.b * o.a + 2 * (self.c * o.d + self.d * o.c) + (self.c * o.c
                - self.d * o.d),
            c: self.a * o.c - self.b * o.d + self.c * o.a - self.d * o.b,
            d: self.a * o.d + self.b * o.c + self.c * o.b + self.d * o.a,
        }
    }

    /// The coordinates of `self` modulo `P`.
    pub open spec fn reduced(self) -> Ext {
        Ext::of(self.a, self.b, self.c, self.d)
    }

    #[verifier::opaque]
    pub open spec fn spec_mul(self, o: Ext) -> Ext {
        self.raw_mul(o).reduced()
    }
}

proof fn lemma_red_cong(x: int, y: int, k: int)
    requires
        x - y == P * k,
    ensures
        red(x) == red(y),
{
    vstd::arithmetic::div_mod::lemma_mod_multiples_vanish(k, y, P as int);
}

/// Distributes a product over the signed sum that makes up one coordinate.
proof fn lemma_dist6(p: int, q: int, r: int, s: int, t: int, w: int, z: int)
    by (nonlinear_arith)
    ensures
        (p - q + 2 * (r - s) - (t + w)) * z == p * z - q * z + 2 * (r * z - s * z) - (t * z + w * z),
        (p + q + 2 * (r + s) + (t - w)) * z == p * z + q * z + 2 * (r * z + s * z) + (t * z - w * z),
{
}

proof fn lemma_dist4(p: int, q: int, r: int, s: int, z: int)
    by (nonlinear_arith)
    ensures
        (p - q + r - s) * z == p * z - q * z + r * z - s * z,
        (p + q + r + s) * z == p * z + q * z + r * z + s * z,
{
}

proof fn lemma_assoc3(x: int, y: int, z: int)
    by (nonlinear_arith)
    ensures
        (x * y) * z == (y * z) * x,
{
}

proof fn lemma_assoc_all(x: int, y: Ext, z: Ext)
    ensures
        (x * y.a) * z.a == (y.a * z.a) * x,
        (x * y.a) * z.b == (y.a * z.b) * x,
        (x * y.a) * z.c == (y.a * z.c) * x,
        (x * y.a) * z.d == (y.a * z.d) * x,
        (x * y.b) * z.a == (y.b * z.a) * x,
        (x * y.b) * z.b == (y.b * z.b) * x,
        (x * y.b) * z.c == (y.b * z.c) * x,
        (x * y.b) * z.d == (y.b * z.d) * x,
        (x * y.c) * z.a == (y.c * z.a) * x,
        (x * y.c) * z.b == (y.c * z.b) * x,
        (x * y.c) * z.c == (y.c * z.c) * x,
        (x * y.c) * z.d == (y.c * z.d) * x,
        (x * y.d) * z.a == (y.d * z.a) * x,
        (x * y.d) * z.b == (y.d * z.b) * x,
        (x * y.d) * z.c == (y.d * z.c) * x,
        (x * y.d) * z.d == (y.d * z.d) * x,
{
    lemma_assoc3(x, y.a, z.a);
    lemma_assoc3(x, y.a, z.b);
    lemma_assoc3(x, y.a, z.c);
    lemma_assoc3(x, y.a, z.d);
    lemma_assoc3(x, y.b, z.a);
    lemma_assoc3(x, y.b, z.b);
    lemma_assoc3(x, y.b, z.c);
    lemma_assoc3(x, y.b, z.d);
    lemma_assoc3(x, y.c, z.a);
    lemma_assoc3(x, y.c, z.b);
    lemma_assoc3(x, y.c, z.c);
    lemma_assoc3(x, y.c, z.d);
    lemma_assoc3(x, y.d, z.a);
    lemma_assoc3(x, y.d, z.b);
    lemma_assoc3(x, y.d, z.c);
    lemma_assoc3(x, y.d, z.d);
}

/// Multiplication over the integers is associative, stated so that both sides
/// multiply a product from the right.
proof fn lemma_raw_assoc(x: Ext, y: Ext, z: Ext)
    ensures
        x.raw_mul(y).raw_mul(z) == y.raw_mul(z).raw_mul(x),
{
    lemma_assoc_all(x.a, y, z);
    lemma_assoc_all(x.b, y, z);
    lemma_assoc_all(x.c, y, z);
    lemma_assoc_all(x.d, y, z);
    lemma_scale_raw(x, y, z.a);
    lemma_scale_raw(x, y, z.b);
    lemma_scale_raw(x, y, z.c);
    lemma_scale_raw(x, y, z.d);
    lemma_scale_raw(y, z, x.a);
    lemma_scale_raw(y, z, x.b);
    lemma_scale_raw(y, z, x.c);
    lemma_scale_raw(y, z, x.d);
}

/// Every coordinate of an integer product, scaled by `k`.
proof fn lemma_scale_raw(x: Ext, y: Ext, k: int)
    ensures
        x.raw_mul(y).a * k == (x.a * y.a) * k - (x.b * y.b) * k + 2 * ((x.c * y.c) * k - (x.d * y.d)
            * k) - ((x.c * y.d) * k + (x.d * y.c) * k),
        x.raw_mul(y).b * k == (x.a * y.b) * k + (x.b * y.a) * k + 2 * ((x.c * y.d) * k + (x.d * y.c)
            * k) + ((x.c * y.c) * k - (x.d * y.d) * k),
        x.raw_mul(y).c * k == (x.a * y.c) * k - (x.b * y.d) * k + (x.c * y.a) * k - (x.d * y.b) * k,
        x.raw_mul(y).d * k == (x.a * y.d) * k + (x.b * y.c) * k + (x.c * y.b) * k + (x.d * y.a) * k,
{
    lemma_dist6(x.a * y.a, x.b * y.b, x.c * y.c, x.d * y.d, x.c * y.d, x.d * y.c, k);
    lemma_dist6(x.a * y.b, x.b * y.a, x.c * y.d, x.d * y.c, x.c * y.c, x.d * y.d, k);
    lemma_dist4(x.a * y.c, x.b * y.d, x.c * y.a, x.d * y.b, k);
    lemma_dist4(x.a * y.d, x.b * y.c, x.c * y.b, x.d * y.a, k);
}

proof fn lemma_scale_shift(r: int, q: int, y: int)
    by (nonlinear_arith)
    ensures
        (r + P * q) * y == r * y + P * (q * y),
{
}

/// Reducing the left factor first does not change a product.
pub proof fn lemma_mul_reduced(x: Ext, y: Ext)
    ensures
        x.reduced() * y == x * y,
{
    reveal(Ext::spec_mul);
    let p = P as int;
    let r = x.reduced();
    let q = Ext { a: x.a / p, b: x.b / p, c: x.c / p, d: x.d / p };
    vstd::arithmetic::div_mod::lemma_fundamental_div_mod(x.a, p);
    vstd::arithmetic::div_mod::lemma_fundamental_div_mod(x.b, p);
    vstd::arithmetic::div_mod::lemma_fundamental_div_mod(x.c, p);
    vstd::arithmetic::div_mod::lemma_fundamental_div_mod(x.d, p);
    lemma_shift_all(r.a, q.a, y);
    lemma_shift_all(r.b, q.b, y);
    lemma_shift_all(r.c, q.c, y);
    lemma_shift_all(r.d, q.d, y);
    let m = q.raw_mul(y);
    let u = x.raw_mul(y);
    let v = r.raw_mul(y);
    lemma_red_cong(u.a, v.a, m.a);
    lemma_red_cong(u.b, v.b, m.b);
    lemma_red_cong(u.c, v.c, m.c);
    lemma_red_cong(u.d, v.d, m.d);
}

proof fn lemma_shift_all(r: int, q: int, y: Ext)
    ensures
        (r + P * q) * y.a == r * y.a + P * (q * y.a),
        (r + P * q) * y.b == r * y.b + P * (q * y.b),
        (r + P * q) * y.c == r * y.c + P * (q * y.c),
        (r + P * q) * y.d == r * y.d + P * (q * y.d),
{
    lemma_scale_shift(r, q, y.a);
    lemma_scale_shift(r, q, y.b);
    lemma_scale_shift(r, q, y.c);
    lemma_scale_shift(r, q, y.d);
}

/// Results of the operations are reduced.
pub proof fn lemma_ops_wf(x: Ext, y: Ext)
    ensures
        (x + y).wf(),
        (x - y).wf(),
        (x * y).wf(),
        (-x).wf(),
{
    reveal(Ext::spec_add);
    reveal(Ext::spec_sub);
    reveal(Ext::spec_neg);
    reveal(Ext::spec_mul);
}

pub proof fn lemma_add_comm(x: Ext, y: Ext)
    ensures
        x + y == y + x,
{
    reveal(Ext::spec_add);
}

proof fn lemma_red_sum(u: int, v: int)
    ensures
        red(red(u) + red(v)) == red(u + v),
        red(red(u) + v) == red(u + v),
{
    vstd::arithmetic::div_mod::lemma_add_mod_noop(u, v, P as int);
    vstd::arithmetic::div_mod::lemma_add_mod_noop(red(u), v, P as int);
    vstd::arithmetic::div_mod::lemma_mod_twice(u, P as int);
}

pub proof fn lemma_red_twice(u: int, v: int)
    ensures
        red(u + red(v)) == red(u + v),
{
    lemma_red_sum(v, u);
}

pub proof fn lemma_add_assoc(x: Ext, y: Ext, z: Ext)
    ensures
        (x + y) + z == x + (y + z),
{
    reveal(Ext::spec_add);
    lemma_red_sum(x.a + y.a, z.a);
    lemma_red_sum(x.b + y.b, z.b);
    lemma_red_sum(x.c + y.c, z.c);
    lemma_red_sum(x.d + y.d, z.d);
    lemma_red_sum(y.a + z.a, x.a);
    lemma_red_sum(y.b + z.b, x.b);
    lemma_red_sum(y.c + z.c, x.c);
    lemma_red_sum(y.d + z.d, x.d);
}

pub proof fn lemma_add_zero(x: Ext)
    requires
        x.wf(),
    ensures
        x + Ext::zero() == x,
        Ext::zero() + x == x,
{
    reveal(Ext::spec_add);
}

pub proof fn lemma_sub_is_add_neg(x: Ext, y: Ext)
    ensures
        x - y == x + (-y),
{
    reveal(Ext::spec_add);
    reveal(Ext::spec_sub);
    reveal(Ext::spec_neg);
}

pub proof fn lemma_sub_self(x: Ext)
    ensures
        x - x == Ext::zero(),
        x + (-x) == Ext::zero(),
{
    reveal(Ext::spec_add);
    reveal(Ext::spec_sub);
    reveal(Ext::spec_neg);
}

/// `(x - y) + (y - z) == x - z`: neighbouring differences join up.
pub proof fn lemma_sub_join(x: Ext, y: Ext, z: Ext)
    ensures
        (x - y) + (y - z) == x - z,
{
    reveal(Ext::spec_add);
    reveal(Ext::spec_sub);
    lemma_red_sum(x.a - y.a, y.a - z.a);
    lemma_red_sum(x.b - y.b, y.b - z.b);
    lemma_red_sum(x.c - y.c, y.c - z.c);
    lemma_red_sum(x.d - y.d, y.d - z.d);
}

/// `(x + y) - y == x`.
pub proof fn lemma_add_sub(x: Ext, y: Ext)
    requires
        x.wf(),
    ensures
        (x + y) - y == x,
{
    lemma_sub_is_add_neg(x + y, y);
    lemma_add_assoc(x, y, -y);
    lemma_sub_self(y);
    lemma_add_zero(x);
}

/// `(x + y) - z == (x - z) + y`.
pub proof fn lemma_sub_swap(x: Ext, y: Ext, z: Ext)
    ensures
        (x + y) - z == (x - z) + y,
{
    lemma_sub_is_add_neg(x + y, z);
    lemma_sub_is_add_neg(x, z);
    lemma_add_assoc(x, y, -z);
    lemma_add_comm(y, -z);
    lemma_add_assoc(x, -z, y);
}

pub proof fn lemma_mul_comm(x: Ext, y: Ext)
    ensures
        x * y == y * x,
{
    reveal(Ext::spec_mul);
    lemma_comm4(x.a, y);
    lemma_comm4(x.b, y);
    lemma_comm4(x.c, y);
    lemma_comm4(x.d, y);
}

proof fn lemma_comm4(x: int, y: Ext)
    by (nonlinear_arith)
    ensures
        x * y.a == y.a * x,
        x * y.b == y.b * x,
        x * y.c == y.c * x,
        x * y.d == y.d * x,
{
}

pub proof fn lemma_mul_assoc(x: Ext, y: Ext, z: Ext)
    ensures
        (x * y) * z == x * (y * z),
{
    lemma_raw_assoc(x, y, z);
    lemma_mul_comm(x, y * z);
    lemma_mul_reduced(x.raw_mul(y), z);
    lemma_mul_reduced(y.raw_mul(z), x);
    reveal(Ext::spec_mul);
}

pub proof fn lemma_mul_one(x: Ext)
    requires
        x.wf(),
    ensures
        x * Ext::one() == x,
        Ext::one() * x == x,
{
    lemma_mul_comm(x, Ext::one());
    reveal(Ext::spec_mul);
}

pub proof fn lemma_mul_zero(x: Ext)
    ensures
        x * Ext::zero() == Ext::zero(),
        Ext::zero() * x == Ext::zero(),
{
    lemma_mul_comm(x, Ext::zero());
    reveal(Ext::spec_mul);
}

proof fn lemma_dist2(p: int, q: int, z: Ext)
    by (nonlinear_arith)
    ensures
        (p + q) * z.a == p * z.a + q * z.a,
        (p + q) * z.b == p * z.b + q * z.b,
        (p + q) * z.c == p * z.c + q * z.c,
        (p + q) * z.d == p * z.d + q * z.d,
{
}

proof fn lemma_raw_dist(x: Ext, y: Ext, s: Ext, z: Ext)
    requires
        s == (Ext { a: x.a + y.a, b: x.b + y.b, c: x.c + y.c, d: x.d + y.d }),
    ensures
        s.raw_mul(z).a == x.raw_mul(z).a + y.raw_mul(z).a,
        s.raw_mul(z).b == x.raw_mul(z).b + y.raw_mul(z).b,
        s.raw_mul(z).c == x.raw_mul(z).c + y.raw_mul(z).c,
        s.raw_mul(z).d == x.raw_mul(z).d + y.raw_mul(z).d,
{
    lemma_dist2(x.a, y.a, z);
    lemma_dist2(x.b, y.b, z);
    lemma_dist2(x.c, y.c, z);
    lemma_dist2(x.d, y.d, z);
}

pub proof fn lemma_mul_dist(x: Ext, y: Ext, z: Ext)
    ensures
        (x + y) * z == x * z + y * z,
        z * (x + y) == z * x + z * y,
{
    let s = Ext { a: x.a + y.a, b: x.b + y.b, c: x.c + y.c, d: x.d + y.d };
    lemma_raw_dist(x, y, s, z);
    lemma_mul_reduced(s, z);
    let (u, v, w) = (x.raw_mul(z), y.raw_mul(z), s.raw_mul(z));
    lemma_red_sum(u.a, v.a);
    lemma_red_sum(u.b, v.b);
    lemma_red_sum(u.c, v.c);
    lemma_red_sum(u.d, v.d);
    assert(u.reduced() + v.reduced() == w.reduced()) by {
        reveal(Ext::spec_add);
    }
    assert(x + y == s.reduced()) by {
        reveal(Ext::spec_add);
    }
    assert(x * z == u.reduced() && y * z == v.reduced() && s * z == w.reduced()) by {
        reveal(Ext::spec_mul);
    }
    lemma_mul_comm(z, x + y);
    lemma_mul_comm(z, x);
    lemma_mul_comm(z, y);
}

proof fn lemma_neg_unique(n: Ext, m: Ext)
    requires
        n.wf(),
        m.wf(),
        n + m == Ext::zero(),
    ensures
        n == -m,
{
    reveal(Ext::spec_add);
    reveal(Ext::spec_neg);
    lemma_neg_unique_int(n.a, m.a);
    lemma_neg_unique_int(n.b, m.b);
    lemma_neg_unique_int(n.c, m.c);
    lemma_neg_unique_int(n.d, m.d);
}

proof fn lemma_neg_unique_int(n: int, m: int)
    requires
        0 <= n < P,
        0 <= m < P,
        red(n + m) == 0,
    ensures
        n == red(-m),
{
}

pub proof fn lemma_neg_mul(x: Ext, y: Ext)
    ensures
        (-x) * y == -(x * y),
{
    // ((-x) + x) * y == 0, so (-x) * y is the negative of x * y.
    lemma_mul_dist(-x, x, y);
    lemma_sub_self(x);
    lemma_add_comm(-x, x);
    lemma_mul_zero(y);
    lemma_ops_wf(-x, y);
    lemma_ops_wf(x, y);
    lemma_neg_unique((-x) * y, x * y);
}

/// The base field embeds: sums of integers go to sums of elements.
pub proof fn lemma_base_add(j: int, k: int)
    ensures
        Ext::base(j) + Ext::base(k) == Ext::base(j + k),
        Ext::base(j) - Ext::base(k) == Ext::base(j - k),
        -Ext::base(j) == Ext::base(-j),
        Ext::base(0) == Ext::zero(),
        Ext::base(1) == Ext::one(),
{
    let p = P as int;
    vstd::arithmetic::div_mod::lemma_add_mod_noop(j, k, p);
    vstd::arithmetic::div_mod::lemma_sub_mod_noop(j, k, p);
    vstd::arithmetic::div_mod::lemma_sub_mod_noop(0, j, p);
    assert(red(red(j) + red(k)) == red(j + k));
    assert(red(red(j) - red(k)) == red(j - k));
    assert(red(-red(j)) == red(-j));
    assert(red(0) == 0 && red(1) == 1);
    assert(Ext::base(j) + Ext::base(k) == Ext::base(j + k)) by {
        reveal(Ext::spec_add);
    }
    assert(Ext::base(j) - Ext::base(k) == Ext::base(j - k)) by {
        reveal(Ext::spec_sub);
    }
    assert(-Ext::base(j) == Ext::base(-j)) by {
        reveal(Ext::spec_neg);
    }
}

pub proof fn lemma_base_mul(j: int, k: int)
    ensures
        Ext::base(j) * Ext::base(k) == Ext::base(j * k),
{
    let x = Ext { a: j, b: 0, c: 0, d: 0 };
    let y = Ext { a: k, b: 0, c: 0, d: 0 };
    assert(x.reduced() == Ext::base(j));
    assert(y.reduced() == Ext::base(k));
    lemma_mul_reduced(x, y.reduced());
    lemma_mul_comm(x, y.reduced());
    lemma_mul_reduced(y, x);
    lemma_mul_comm(y, x);
    reveal(Ext::spec_mul);
}

impl Ext {
    /// Some element times `self` is one.
    pub open spec fn invertible(self) -> bool {
        exists|y: Ext| y.wf() && #[trigger] (self * y) == Ext::one()
    }

    /// The inverse of an invertible element.
    pub open spec fn inv(self) -> Ext {
        choose|y: Ext| y.wf() && #[trigger] (self * y) == Ext::one()
    }
}

pub proof fn lemma_inv_unique(x: Ext, y: Ext)
    requires
        y.wf(),
        x * y == Ext::one(),
    ensures
        x.invertible(),
        x.inv() == y,
{
    let z = x.inv();
    assert(z.wf() && x * z == Ext::one());
    lemma_mul_assoc(y, x, z);
    lemma_mul_comm(y, x);
    lemma_mul_one(y);
    lemma_mul_one(z);
}

/// A factor of an invertible product is invertible.
pub proof fn lemma_factor_invertible(x: Ext, y: Ext)
    requires
        (x * y).invertible(),
    ensures
        x.invertible(),
        y.invertible(),
{
    let i = (x * y).inv();
    assert(i.wf() && (x * y) * i == Ext::one());
    lemma_mul_assoc(x, y, i);
    lemma_ops_wf(y, i);
    lemma_ops_wf(x, i);
    assert(x * (y * i) == Ext::one());
    lemma_mul_comm(x, y);
    lemma_mul_assoc(y, x, i);
    assert(y * (x * i) == Ext::one());
}

pub proof fn lemma_inv_mul(x: Ext, y: Ext)
    requires
        x.invertible(),
        y.invertible(),
    ensures
        (x * y).invertible(),
        (x * y).inv() == x.inv() * y.inv(),
{
    let (p, q) = (x.inv(), y.inv());
    // (x * y) * (p * q) == x * (y * (p * q)) == x * (p * (y * q)) == x * p == 1.
    lemma_mul_assoc(x, y, p * q);
    lemma_mul_assoc(y, p, q);
    lemma_mul_comm(y, p);
    lemma_mul_assoc(p, y, q);
    lemma_mul_one(p);
    lemma_ops_wf(p, q);
    lemma_inv_unique(x * y, p * q);
}

/// An extension-field element: `(a + b*i) + (c + d*i)*u`.
#[derive(Clone, Copy, Debug, PartialEq, Eq, Structural)]
pub struct QM31 {
    pub a: u32,
    pub b: u32,
    pub c: u32,
    pub d: u32,
}

impl View for QM31 {
    type V = Ext;

    open spec fn view(&self) -> Ext {
        Ext { a: self.a as int, b: self.b as int, c: self.c as int, d: self.d as int }
    }
}

/// `x * y` modulo the base-field prime.
fn m31_mul(x: u32, y: u32) -> (r: u64)
    ensures
        r == red(x * y),
{
    assert(0 <= x * y <= 0xffff_ffff * 0xffff_ffff) by (nonlinear_arith)
        requires
            0 <= x <= 0xffff_ffff,
            0 <= y <= 0xffff_ffff,
    ;
    (x as u64 * y as u64) % (P as u64)
}

impl QM31 {
    /// All four coordinates are below the prime.
    pub open spec fn wf(&self) -> bool {
        self@.wf()
    }

    /// The element with the given coordinates, taken as they are.
    pub fn from_u32_unchecked(a: u32, b: u32, c: u32, d: u32) -> (r: QM31)
        ensures
            r == (QM31 { a, b, c, d }),
    {
        QM31 { a, b, c, d }
    }

    /// The base-field element `v`, taken modulo the prime.
    pub fn from_base(v: u32) -> (r: QM31)
        ensures
            r@ == Ext::base(v as int),
            r.wf(),
    {
        QM31 { a: v % P, b: 0, c: 0, d: 0 }
    }

    pub fn zero() -> (r: QM31)
        ensures
            r@ == Ext::zero(),
            r.wf(),
    {
        QM31 { a: 0, b: 0, c: 0, d: 0 }
    }

    pub fn one() -> (r: QM31)
        ensures
            r@ == Ext::one(),
            r.wf(),
    {
        QM31 { a: 1, b: 0, c: 0, d: 0 }
    }

    pub fn plus(self, o: QM31) -> (r: QM31)
        ensures
            r@ == self@ + o@,
            r.wf(),
    {
        reveal(Ext::spec_add);
        let p: u64 = P as u64;
        QM31 {
            a: ((self.a as u64 + o.a as u64) % p) as u32,
            b: ((self.b as u64 + o.b as u64) % p) as u32,
            c: ((self.c as u64 + o.c as u64) % p) as u32,
            d: ((self.d as u64 + o.d as u64) % p) as u32,
        }
    }

    pub fn minus(self, o: QM31) -> (r: QM31)
        ensures
            r@ == self@ - o@,
            r.wf(),
    {
        reveal(Ext::spec_sub);
        proof {
            lemma_red_cong(self.a + 3 * P - o.a, self.a - o.a, 3);
            lemma_red_cong(self.b + 3 * P - o.b, self.b - o.b, 3);
            lemma_red_cong(self.c + 3 * P - o.c, self.c - o.c, 3);
            lemma_red_cong(self.d + 3 * P - o.d, self.d - o.d, 3);
        }
        let p: u64 = P as u64;
        QM31 {
            a: ((self.a as u64 + 3 * p - o.a as u64) % p) as u32,
            b: ((self.b as u64 + 3 * p - o.b as u64) % p) as u32,
            c: ((self.c as u64 + 3 * p - o.c as u64) % p) as u32,
            d: ((self.d as u64 + 3 * p - o.d as u64) % p) as u32,
        }
    }

    pub fn negate(self) -> (r: QM31)
        ensures
            r@ == -self@,
            r.wf(),
    {
        proof {
            reveal(Ext::spec_sub);
            reveal(Ext::spec_neg);
        }
        QM31::zero().minus(self)
    }

    pub fn times(self, o: QM31) -> (r: QM31)
        ensures
            r@ == self@ * o@,
            r.wf(),
    {
        let p: u64 = P as u64;
        let (aa, bb, cc, dd) = (
            m31_mul(self.a, o.a),
            m31_mul(self.b, o.b),
            m31_mul(self.c, o.c),
            m31_mul(self.d, o.d),
        );
        let (cd, dc) = (m31_mul(self.c, o.d), m31_mul(self.d, o.c));
        let (ab, ba) = (m31_mul(self.a, o.b), m31_mul(self.b, o.a));
        let (ac, bd, ca, db) = (
            m31_mul(self.a, o.c),
            m31_mul(self.b, o.d),
            m31_mul(self.c, o.a),
            m31_mul(self.d, o.b),
        );
        let (ad, bc, cb, da) = (
            m31_mul(self.a, o.d),
            m31_mul(self.b, o.c),
            m31_mul(self.c, o.b),
            m31_mul(self.d, o.a),
        );
        let a: u64 = aa + (p - bb) + 2 * (cc + (p - dd)) + (p - cd) + (p - dc);
        let b: u64 = ab + ba + 2 * (cd + dc) + cc + (p - dd);
        let c: u64 = ac + (p - bd) + ca + (p - db);
        let d: u64 = ad + bc + cb + da;
        proof {
            lemma_mul_coords(self@, o@, a as int, b as int, c as int, d as int);
        }
        QM31 {
            a: (a % p) as u32,
            b: (b % p) as u32,
            c: (c % p) as u32,
            d: (d % p) as u32,
        }
    }
}

/// Coordinates assembled from reduced products are congruent to the product.
proof fn lemma_mul_coords(x: Ext, y: Ext, a: int, b: int, c: int, d: int)
    requires
        a == red(x.a * y.a) + (P - red(x.b * y.b)) + 2 * (red(x.c * y.c) + (P - red(x.d * y.d))) + (
        P - red(x.c * y.d)) + (P - red(x.d * y.c)),
        b == red(x.a * y.b) + red(x.b * y.a) + 2 * (red(x.c * y.d) + red(x.d * y.c)) + red(
            x.c * y.c,
        ) + (P - red(x.d * y.d)),
        c == red(x.a * y.c) + (P - red(x.b * y.d)) + red(x.c * y.a) + (P - red(x.d * y.b)),
        d == red(x.a * y.d) + red(x.b * y.c) + red(x.c * y.b) + red(x.d * y.a),
    ensures
        x * y == Ext::of(a, b, c, d),
{
    reveal(Ext::spec_mul);
    let p = P as int;
    let m = x.raw_mul(y);
    let q = |u: int| u / p;
    lemma_div_red(x.a * y.a);
    lemma_div_red(x.b * y.b);
    lemma_div_red(x.c * y.c);
    lemma_div_red(x.d * y.d);
    lemma_div_red(x.c * y.d);
    lemma_div_red(x.d * y.c);
    lemma_div_red(x.a * y.b);
    lemma_div_red(x.b * y.a);
    lemma_div_red(x.a * y.c);
    lemma_div_red(x.b * y.d);
    lemma_div_red(x.c * y.a);
    lemma_div_red(x.d * y.b);
    lemma_div_red(x.a * y.d);
    lemma_div_red(x.b * y.c);
    lemma_div_red(x.c * y.b);
    lemma_div_red(x.d * y.a);
    lemma_red_cong(
        m.a,
        a,
        q(x.a * y.a) - q(x.b * y.b) + 2 * (q(x.c * y.c) - q(x.d * y.d)) - (q(x.c * y.d) + q(
            x.d * y.c,
        )) - 5,
    );
    lemma_red_cong(
        m.b,
        b,
        q(x.a * y.b) + q(x.b * y.a) + 2 * (q(x.c * y.d) + q(x.d * y.c)) + (q(x.c * y.c) - q(
            x.d * y.d,
        )) - 1,
    );
    lemma_red_cong(
        m.c,
        c,
        q(x.a * y.c) - q(x.b * y.d) + q(x.c * y.a) - q(x.d * y.b) - 2,
    );
    lemma_red_cong(
        m.d,
        d,
        q(x.a * y.d) + q(x.b * y.c) + q(x.c * y.b) + q(x.d * y.a),
    );
}

proof fn lemma_div_red(u: int)
    ensures
        u == P * (u / (P as int)) + red(u),
{
    vstd::arithmetic::div_mod::lemma_fundamental_div_mod(u, P as int);
}

/// `stwo`'s `SecureField::inverse`: for a nonzero element it returns the element
/// whose product with the argument is one, with reduced coordinates. The call
/// asserts that the argument is not zero.
#[verifier::external_body]
fn stwo_inverse(x: QM31) -> (r: QM31)
    requires
        x.wf(),
        x@ != Ext::zero(),
    ensures
        r.wf(),
        x@ * r@ == Ext::one(),
{
    let v = stwo::core::fields::qm31::SecureField::from_u32_unchecked(x.a, x.b, x.c, x.d);
    let m = stwo::core::fields::FieldExpOps::inverse(&v).to_m31_array();
    QM31 { a: m[0].0, b: m[1].0, c: m[2].0, d: m[3].0 }
}

impl QM31 {
    /// The inverse of a nonzero element.
    pub fn inverse(self) -> (r: QM31)
        requires
            self.wf(),
            self@ != Ext::zero(),
        ensures
            r.wf(),
            self@.invertible(),
            r@ == self@.inv(),
            self@ * r@ == Ext::one(),
    {
        let r = stwo_inverse(self);
        proof {
            lemma_inv_unique(self@, r@);
        }
        r
    }

    pub fn is_zero(self) -> (r: bool)
        ensures
            r == (self@ == Ext::zero()),
    {
        self.a == 0 && self.b == 0 && self.c == 0 && self.d == 0
    }
}

} // verus!
