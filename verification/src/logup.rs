//! Logarithmic-derivative lookups: relation challenges, combined tuples and
//! sums of fractions.
use vstd::prelude::*;

use crate::field::{lemma_add_comm, lemma_add_zero, lemma_inv_mul, lemma_mul_assoc, lemma_mul_comm};
use crate::field::{lemma_base_add, lemma_mul_dist, lemma_neg_mul, lemma_mul_one, lemma_mul_zero};
use crate::field::{Ext, QM31};
use crate::sums::{lemma_neg_add, lemma_sum_wf, sum};

verus! {

/// A tuple of integers as base-field elements.
pub open spec fn embed(t: Seq<u32>) -> Seq<Ext> {
    Seq::new(t.len(), |i: int| Ext::base(t[i] as int))
}

/// The elements that a vector of field values stands for.
pub open spec fn views(t: Seq<QM31>) -> Seq<Ext> {
    Seq::new(t.len(), |i: int| t[i]@)
}

/// The challenges of one relation: `z` and the powers of `alpha`.
pub struct Relation {
    pub z: QM31,
    pub alpha: QM31,
    pub alpha_powers: Vec<QM31>,
}

impl Relation {
    /// The powers start at one and each is the previous one times `alpha`.
    pub open spec fn wf(&self) -> bool {
        &&& self.z.wf()
        &&& self.alpha.wf()
        &&& self.alpha_powers@.len() > 0
        &&& forall|i: int| 0 <= i < self.alpha_powers@.len() ==> (#[trigger] self.alpha_powers@[i]).wf()
        &&& self.alpha_powers@[0]@ == Ext::one()
        &&& forall|i: int|
            0 < i < self.alpha_powers@.len() ==> (#[trigger] self.alpha_powers@[i])@
                == self.alpha_powers@[i - 1]@ * self.alpha@
    }

    /// The number of values that a tuple of the relation may hold.
    pub open spec fn width(&self) -> nat {
        self.alpha_powers@.len()
    }

    /// `values[0] + alpha * values[1] + alpha^2 * values[2] + ... - z`.
    pub open spec fn combined(&self, values: Seq<Ext>) -> Ext {
        sum(values.len(), |i: int| self.alpha_powers@[i]@ * values[i]) - self.z@
    }

    /// The denominator of a tuple of integers.
    pub open spec fn den(&self, t: Seq<u32>) -> Ext {
        self.combined(embed(t))
    }

    /// The relation with challenges `z` and `alpha` for tuples of up to `width` values.
    pub fn new(z: QM31, alpha: QM31, width: usize) -> (r: Relation)
        requires
            z.wf(),
            alpha.wf(),
            width > 0,
        ensures
            r.wf(),
            r.z == z,
            r.alpha == alpha,
            r.width() == width,
    {
        let mut alpha_powers: Vec<QM31> = Vec::new();
        alpha_powers.push(QM31::one());
        while alpha_powers.len() < width
            invariant
                0 < alpha_powers@.len() <= width,
                forall|i: int| 0 <= i < alpha_powers@.len() ==> (#[trigger] alpha_powers@[i]).wf(),
                alpha_powers@[0]@ == Ext::one(),
                forall|i: int|
                    0 < i < alpha_powers@.len() ==> (#[trigger] alpha_powers@[i])@
                        == alpha_powers@[i - 1]@ * alpha@,
            decreases width - alpha_powers.len(),
        {
            let last: QM31 = alpha_powers[alpha_powers.len() - 1];
            alpha_powers.push(last.times(alpha));
        }
        Relation { z, alpha, alpha_powers }
    }

    /// Fixed challenges, for comparing two computations of the same trace.
    pub fn dummy(width: usize) -> (r: Relation)
        requires
            width > 0,
        ensures
            r.wf(),
            r.z == (QM31 { a: 1, b: 2, c: 3, d: 4 }),
            r.alpha == (QM31 { a: 4, b: 3, c: 2, d: 1 }),
            r.width() == width,
    {
        Relation::new(
            QM31::from_u32_unchecked(1, 2, 3, 4),
            QM31::from_u32_unchecked(4, 3, 2, 1),
            width,
        )
    }

    /// The combined value of a tuple of field elements.
    pub fn combine(&self, values: &[QM31]) -> (r: QM31)
        requires
            values@.len() <= self.width(),
        ensures
            r.wf(),
            r@ == self.combined(views(values@)),
    {
        let ghost f = |i: int| self.alpha_powers@[i]@ * views(values@)[i];
        let mut acc: QM31 = QM31::zero();
        let mut i: usize = 0;
        while i < values.len()
            invariant
                i <= values@.len() <= self.width(),
                f == (|i: int| self.alpha_powers@[i]@ * views(values@)[i]),
                acc.wf(),
                acc@ == sum(i as nat, f),
            decreases values.len() - i,
        {
            acc = acc.plus(self.alpha_powers[i].times(values[i]));
            i += 1;
        }
        acc.minus(self.z)
    }

    /// The denominator of a tuple of integers.
    pub fn combine_base(&self, values: &[u32]) -> (r: QM31)
        requires
            values@.len() <= self.width(),
        ensures
            r.wf(),
            r@ == self.den(values@),
    {
        let mut v: Vec<QM31> = Vec::new();
        let mut i: usize = 0;
        while i < values.len()
            invariant
                i <= values@.len(),
                v@.len() == i,
                forall|j: int| 0 <= j < i ==> (#[trigger] v@[j])@ == Ext::base(values@[j] as int),
            decreases values.len() - i,
        {
            v.push(QM31::from_base(values[i]));
            i += 1;
        }
        assert(views(v@) =~= embed(values@));
        self.combine(v.as_slice())
    }

    /// Recovers `z` and the powers of `alpha` through `combine` alone:
    /// `z` is the negated combination of a zero, and the `i`-th power is the
    /// combination of the `i`-th unit tuple plus `z`.
    pub fn extract_z_alpha(&self) -> (r: (QM31, Vec<QM31>))
        requires
            self.wf(),
        ensures
            r.0@ == self.z@,
            views(r.1@) == views(self.alpha_powers@),
            r.0.wf(),
            forall|i: int| 0 <= i < r.1@.len() ==> (#[trigger] r.1@[i]).wf(),
    {
        let zero_vec: Vec<u32> = vec![0u32];
        let z: QM31 = self.combine_base(zero_vec.as_slice()).negate();
        proof {
            lemma_unit_combination(self, zero_vec@, -1);
            lemma_neg_neg(self.z@);
        }
        let width: usize = self.alpha_powers.len();
        let mut powers: Vec<QM31> = Vec::new();
        let mut i: usize = 0;
        while i < width
            invariant
                i <= width == self.alpha_powers@.len(),
                self.wf(),
                z@ == self.z@,
                z.wf(),
                powers@.len() == i,
                forall|j: int| 0 <= j < i ==> (#[trigger] powers@[j])@ == self.alpha_powers@[j]@,
                forall|j: int| 0 <= j < i ==> (#[trigger] powers@[j]).wf(),
            decreases width - i,
        {
            let mut v: Vec<u32> = vec![0u32; width];
            v.set(i, 1);
            proof {
                lemma_unit_combination(self, v@, i as int);
                lemma_sub_add(self.alpha_powers@[i as int]@, self.z@);
            }
            powers.push(self.combine_base(v.as_slice()).plus(z));
            i += 1;
        }
        assert(views(powers@) =~= views(self.alpha_powers@));
        (z, powers)
    }
}

/// `-(0 - z) == z`.
proof fn lemma_neg_neg(z: Ext)
    requires
        z.wf(),
    ensures
        -(Ext::zero() - z) == z,
{
    reveal(Ext::spec_neg);
    reveal(Ext::spec_sub);
}

proof fn lemma_sub_add(x: Ext, z: Ext)
    requires
        x.wf(),
    ensures
        (x - z) + z == x,
{
    crate::field::lemma_sub_is_add_neg(x, z);
    crate::field::lemma_add_assoc(x, -z, z);
    lemma_add_comm(-z, z);
    crate::field::lemma_sub_self(z);
    lemma_add_zero(x);
}

/// A tuple that is one at `k` and zero elsewhere combines to the `k`-th power
/// minus `z`; an all-zero tuple (`k` outside of it) to minus `z`.
proof fn lemma_unit_combination(rel: &Relation, v: Seq<u32>, k: int)
    requires
        rel.wf(),
        v.len() <= rel.width(),
        forall|i: int| 0 <= i < v.len() ==> #[trigger] v[i] == (if i == k { 1u32 } else { 0u32 }),
    ensures
        rel.den(v) == (if 0 <= k < v.len() { rel.alpha_powers@[k]@ } else { Ext::zero() }) - rel.z@,
{
    let f = |i: int| rel.alpha_powers@[i]@ * embed(v)[i];
    lemma_unit_sum(rel, v, k, v.len());
}

proof fn lemma_unit_sum(rel: &Relation, v: Seq<u32>, k: int, n: nat)
    requires
        rel.wf(),
        n <= v.len() <= rel.width(),
        forall|i: int| 0 <= i < v.len() ==> #[trigger] v[i] == (if i == k { 1u32 } else { 0u32 }),
    ensures
        sum(n, |i: int| rel.alpha_powers@[i]@ * embed(v)[i]) == (if 0 <= k < n {
            rel.alpha_powers@[k]@
        } else {
            Ext::zero()
        }),
    decreases n,
{
    if n > 0 {
        lemma_unit_sum(rel, v, k, (n - 1) as nat);
        let p = rel.alpha_powers@[n - 1];
        assert(p.wf());
        assert(v[n - 1] == (if n - 1 == k { 1u32 } else { 0u32 }));
        lemma_base_add(0, 0);
        lemma_mul_one(p@);
        lemma_mul_zero(p@);
        lemma_add_zero(p@);
        lemma_add_zero(Ext::zero());
        if 0 <= k < n - 1 {
            assert(rel.alpha_powers@[k].wf());
            lemma_add_zero(rel.alpha_powers@[k]@);
        }
    }
}

/// One numerator over one denominator.
#[derive(Clone, Copy, Debug, PartialEq, Eq, Structural)]
pub struct Fraction {
    pub num: QM31,
    pub den: QM31,
}

impl Fraction {
    pub open spec fn wf(&self) -> bool {
        self.num.wf() && self.den.wf()
    }

    pub open spec fn value(&self) -> Ext {
        self.num@ * self.den@.inv()
    }

    /// Two fractions as one: `m0/d0 + m1/d1 == (m0*d1 + m1*d0) / (d0*d1)`.
    pub fn pair(m0: QM31, d0: QM31, m1: QM31, d1: QM31) -> (r: Fraction)
        ensures
            r.wf(),
            r.num@ == m0@ * d1@ + m1@ * d0@,
            r.den@ == d0@ * d1@,
            d0@.invertible() && d1@.invertible() ==> r.den@.invertible() && r.value() == m0@
                * d0@.inv() + m1@ * d1@.inv(),
    {
        let r = Fraction { num: m0.times(d1).plus(m1.times(d0)), den: d0.times(d1) };
        proof {
            if d0@.invertible() && d1@.invertible() {
                lemma_pair_value(m0@, d0@, m1@, d1@);
            }
        }
        r
    }
}

/// Adding two fractions over the product of their denominators adds their values.
pub proof fn lemma_pair_value(m0: Ext, d0: Ext, m1: Ext, d1: Ext)
    requires
        d0.invertible(),
        d1.invertible(),
    ensures
        (d0 * d1).invertible(),
        (m0 * d1 + m1 * d0) * (d0 * d1).inv() == m0 * d0.inv() + m1 * d1.inv(),
{
    let (p, q) = (d0.inv(), d1.inv());
    lemma_inv_mul(d0, d1);
    lemma_mul_dist(m0 * d1, m1 * d0, p * q);
    // (m0 * d1) * (p * q) == m0 * (d1 * (q * p)) == m0 * ((d1 * q) * p) == m0 * p.
    lemma_mul_assoc(m0, d1, p * q);
    lemma_mul_comm(p, q);
    lemma_mul_assoc(d1, q, p);
    lemma_mul_one(p);
    // (m1 * d0) * (p * q) == m1 * ((d0 * p) * q) == m1 * q.
    lemma_mul_assoc(m1, d0, p * q);
    lemma_mul_assoc(d0, p, q);
    lemma_mul_one(q);
}

/// The sum of the first `n` fractions' values.
pub open spec fn fraction_sum(s: Seq<Fraction>, n: nat) -> Ext {
    sum(n, |i: int| s[i].value())
}

/// The sum of a column of fractions: what the column claims.
pub fn claimed_sum(fracs: &[Fraction]) -> (r: QM31)
    requires
        forall|i: int|
            0 <= i < fracs@.len() ==> (#[trigger] fracs@[i]).den.wf() && fracs@[i].den@
                != Ext::zero(),
    ensures
        r.wf(),
        r@ == fraction_sum(fracs@, fracs@.len()),
        forall|i: int| 0 <= i < fracs@.len() ==> (#[trigger] fracs@[i]).den@.invertible(),
{
    let ghost f = |i: int| fracs@[i].value();
    let mut acc: QM31 = QM31::zero();
    let mut i: usize = 0;
    while i < fracs.len()
        invariant
            i <= fracs@.len(),
            f == (|i: int| fracs@[i].value()),
            acc.wf(),
            acc@ == sum(i as nat, f),
            forall|j: int| 0 <= j < i ==> (#[trigger] fracs@[j]).den@.invertible(),
            forall|i: int|
                0 <= i < fracs@.len() ==> (#[trigger] fracs@[i]).den.wf() && fracs@[i].den@
                    != Ext::zero(),
        decreases fracs.len() - i,
    {
        let fr: Fraction = fracs[i];
        acc = acc.plus(fr.num.times(fr.den.inverse()));
        i += 1;
    }
    acc
}

/// Row `i` of a table that is given by its columns.
pub open spec fn tuple_at(cols: Seq<&Vec<u32>>, i: int) -> Seq<u32> {
    Seq::new(cols.len(), |c: int| cols[c]@[i])
}

/// What a table supplies: each row's count, negated, over the row's denominator.
pub open spec fn table_value(rel: &Relation, counts: Seq<u32>, cols: Seq<&Vec<u32>>) -> Ext {
    sum(counts.len(), |i: int| Ext::base(-counts[i]) * rel.den(tuple_at(cols, i)).inv())
}

/// The columns are as long as the counts and fit the relation.
pub open spec fn table_shape(rel: &Relation, counts: Seq<u32>, cols: Seq<&Vec<u32>>) -> bool {
    &&& rel.wf()
    &&& cols.len() <= rel.width()
    &&& forall|c: int| 0 <= c < cols.len() ==> (#[trigger] cols[c])@.len() == counts.len()
}

fn table_den(rel: &Relation, cols: &[&Vec<u32>], i: usize) -> (d: QM31)
    requires
        cols@.len() <= rel.width(),
        forall|c: int| 0 <= c < cols@.len() ==> i < (#[trigger] cols@[c])@.len(),
    ensures
        d.wf(),
        d@ == rel.den(tuple_at(cols@, i as int)),
{
    let mut t: Vec<u32> = Vec::new();
    let mut c: usize = 0;
    while c < cols.len()
        invariant
            c <= cols@.len(),
            t@.len() == c,
            forall|c: int| 0 <= c < cols@.len() ==> i < (#[trigger] cols@[c])@.len(),
            forall|j: int| 0 <= j < c ==> #[trigger] t@[j] == cols@[j]@[i as int],
        decreases cols.len() - c,
    {
        let col: &Vec<u32> = cols[c];
        t.push(col[i]);
        c += 1;
    }
    assert(t@ =~= tuple_at(cols@, i as int));
    rel.combine_base(t.as_slice())
}

/// The supply column of a table: per row the negated count over the row's
/// denominator; and the sum of the column.
pub fn gen_table_interaction(rel: &Relation, counts: &[u32], cols: &[&Vec<u32>]) -> (r: (
    Vec<Fraction>,
    QM31,
))
    requires
        table_shape(rel, counts@, cols@),
        forall|i: int|
            0 <= i < counts@.len() ==> rel.den(#[trigger] tuple_at(cols@, i)) != Ext::zero(),
    ensures
        r.0@.len() == counts@.len(),
        forall|i: int|
            0 <= i < counts@.len() ==> (#[trigger] r.0@[i]).num@ == Ext::base(-counts@[i])
                && r.0@[i].den@ == rel.den(tuple_at(cols@, i)) && r.0@[i].wf(),
        r.1.wf(),
        r.1@ == table_value(rel, counts@, cols@),
{
    let ghost f = |i: int| Ext::base(-counts@[i]) * rel.den(tuple_at(cols@, i)).inv();
    let mut col: Vec<Fraction> = Vec::new();
    let mut acc: QM31 = QM31::zero();
    let mut i: usize = 0;
    while i < counts.len()
        invariant
            i <= counts@.len(),
            table_shape(rel, counts@, cols@),
            forall|i: int|
                0 <= i < counts@.len() ==> rel.den(#[trigger] tuple_at(cols@, i)) != Ext::zero(),
            col@.len() == i,
            forall|j: int|
                0 <= j < i ==> (#[trigger] col@[j]).num@ == Ext::base(-counts@[j]) && col@[j].den@
                    == rel.den(tuple_at(cols@, j)) && col@[j].wf(),
            f == (|i: int| Ext::base(-counts@[i]) * rel.den(tuple_at(cols@, i)).inv()),
            acc.wf(),
            acc@ == sum(i as nat, f),
        decreases counts.len() - i,
    {
        let den: QM31 = table_den(rel, cols, i);
        let num: QM31 = QM31::from_base(counts[i]).negate();
        proof {
            lemma_base_add(counts@[i as int] as int, 0);
            assert(rel.den(tuple_at(cols@, i as int)) != Ext::zero());
        }
        acc = acc.plus(num.times(den.inverse()));
        col.push(Fraction { num, den });
        i += 1;
    }
    (col, acc)
}

/// Whether no row of a table has a tuple whose denominator is zero.
pub fn table_defined(rel: &Relation, counts: &[u32], cols: &[&Vec<u32>]) -> (r: bool)
    requires
        table_shape(rel, counts@, cols@),
    ensures
        r <==> forall|i: int|
            0 <= i < counts@.len() ==> rel.den(#[trigger] tuple_at(cols@, i)) != Ext::zero(),
{
    let mut i: usize = 0;
    while i < counts.len()
        invariant
            i <= counts@.len(),
            table_shape(rel, counts@, cols@),
            forall|j: int|
                0 <= j < i ==> rel.den(#[trigger] tuple_at(cols@, j)) != Ext::zero(),
        decreases counts.len() - i,
    {
        if table_den(rel, cols, i).is_zero() {
            assert(rel.den(tuple_at(cols@, i as int)) == Ext::zero());
            return false;
        }
        i += 1;
    }
    true
}

/// The same sum, computed without the rows that nothing looks up.
pub fn table_public_sum(rel: &Relation, counts: &[u32], cols: &[&Vec<u32>]) -> (r: QM31)
    requires
        table_shape(rel, counts@, cols@),
        forall|i: int|
            0 <= i < counts@.len() && counts@[i] != 0 ==> rel.den(#[trigger] tuple_at(cols@, i))
                != Ext::zero(),
    ensures
        r.wf(),
        r@ == table_value(rel, counts@, cols@),
{
    let ghost f = |i: int| Ext::base(-counts@[i]) * rel.den(tuple_at(cols@, i)).inv();
    let mut acc: QM31 = QM31::zero();
    let mut i: usize = 0;
    proof {
        lemma_base_add(0, 0);
    }
    while i < counts.len()
        invariant
            i <= counts@.len(),
            table_shape(rel, counts@, cols@),
            forall|i: int|
                0 <= i < counts@.len() && counts@[i] != 0 ==> rel.den(#[trigger] tuple_at(cols@, i))
                    != Ext::zero(),
            f == (|i: int| Ext::base(-counts@[i]) * rel.den(tuple_at(cols@, i)).inv()),
            acc.wf(),
            -acc@ == sum(i as nat, f),
        decreases counts.len() - i,
    {
        let count: u32 = counts[i];
        proof {
            lemma_base_add(count as int, 0);
        }
        if count != 0 {
            let den: QM31 = table_den(rel, cols, i);
            assert(rel.den(tuple_at(cols@, i as int)) != Ext::zero());
            let term: QM31 = QM31::from_base(count).times(den.inverse());
            proof {
                lemma_neg_mul(Ext::base(count as int), den@.inv());
                lemma_neg_add(acc@, term@);
            }
            acc = acc.plus(term);
        } else {
            proof {
                lemma_mul_zero(rel.den(tuple_at(cols@, i as int)).inv());
                lemma_sum_wf(i as nat, f);
                lemma_add_zero(sum(i as nat, f));
            }
        }
        i += 1;
    }
    acc.negate()
}

} // verus!
