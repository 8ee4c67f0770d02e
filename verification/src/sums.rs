//! Finite sums of extension-field elements.
use vstd::prelude::*;

use crate::field::{
    lemma_add_assoc, lemma_add_comm, lemma_add_zero, lemma_base_add, lemma_mul_comm,
    lemma_mul_dist,
};
use crate::field::{lemma_mul_one, lemma_mul_reduced, lemma_mul_zero, lemma_neg_mul, lemma_ops_wf};
use crate::field::{lemma_sub_is_add_neg, lemma_sub_join, lemma_sub_self, Ext};

verus! {

/// `f(0) + f(1) + ... + f(n - 1)`.
pub open spec fn sum(n: nat, f: spec_fn(int) -> Ext) -> Ext
    decreases n,
{
    if n == 0 {
        Ext::zero()
    } else {
        sum((n - 1) as nat, f) + f(n - 1)
    }
}

pub proof fn lemma_sum_wf(n: nat, f: spec_fn(int) -> Ext)
    ensures
        sum(n, f).wf(),
{
    if n > 0 {
        lemma_ops_wf(sum((n - 1) as nat, f), f(n - 1));
    }
}

/// Equal summands give equal sums.
pub proof fn lemma_sum_ext(n: nat, f: spec_fn(int) -> Ext, g: spec_fn(int) -> Ext)
    requires
        forall|i: int| 0 <= i < n ==> #[trigger] f(i) == g(i),
    ensures
        sum(n, f) == sum(n, g),
    decreases n,
{
    if n > 0 {
        assert(f(n - 1) == g(n - 1));
        lemma_sum_ext((n - 1) as nat, f, g);
    }
}

pub proof fn lemma_swap(w: Ext, x: Ext, y: Ext, z: Ext)
    ensures
        (w + x) + (y + z) == (w + y) + (x + z),
{
    lemma_add_assoc(w, x, y + z);
    lemma_add_assoc(x, y, z);
    lemma_add_comm(x, y);
    lemma_add_assoc(y, x, z);
    lemma_add_assoc(w, y, x + z);
}

/// A sum of sums is the sum of the parts.
pub proof fn lemma_sum_add(
    n: nat,
    f: spec_fn(int) -> Ext,
    g: spec_fn(int) -> Ext,
    h: spec_fn(int) -> Ext,
)
    requires
        forall|i: int| 0 <= i < n ==> #[trigger] h(i) == f(i) + g(i),
    ensures
        sum(n, h) == sum(n, f) + sum(n, g),
    decreases n,
{
    if n == 0 {
        lemma_add_zero(Ext::zero());
    } else {
        assert(h(n - 1) == f(n - 1) + g(n - 1));
        let m = (n - 1) as nat;
        lemma_sum_add(m, f, g, h);
        lemma_swap(sum(m, f), sum(m, g), f(n - 1), g(n - 1));
    }
}

/// A common factor moves out of a sum.
pub proof fn lemma_sum_scale(
    n: nat,
    c: Ext,
    f: spec_fn(int) -> Ext,
    h: spec_fn(int) -> Ext,
)
    requires
        forall|i: int| 0 <= i < n ==> #[trigger] h(i) == c * f(i),
    ensures
        sum(n, h) == c * sum(n, f),
    decreases n,
{
    if n == 0 {
        lemma_mul_zero(c);
    } else {
        assert(h(n - 1) == c * f(n - 1));
        let m = (n - 1) as nat;
        lemma_sum_scale(m, c, f, h);
        lemma_mul_dist(sum(m, f), f(n - 1), c);
    }
}

/// A sum of zeros is zero.
pub proof fn lemma_sum_zero(n: nat, f: spec_fn(int) -> Ext)
    requires
        forall|i: int| 0 <= i < n ==> #[trigger] f(i) == Ext::zero(),
    ensures
        sum(n, f) == Ext::zero(),
    decreases n,
{
    if n > 0 {
        assert(f(n - 1) == Ext::zero());
        lemma_sum_zero((n - 1) as nat, f);
        lemma_add_zero(Ext::zero());
    }
}

/// Negating each summand negates the sum.
pub proof fn lemma_sum_neg(n: nat, f: spec_fn(int) -> Ext, h: spec_fn(int) -> Ext)
    requires
        forall|i: int| 0 <= i < n ==> #[trigger] h(i) == -f(i),
    ensures
        sum(n, h) == -sum(n, f),
    decreases n,
{
    if n == 0 {
        reveal(Ext::spec_neg);
    } else {
        assert(h(n - 1) == -f(n - 1));
        let m = (n - 1) as nat;
        lemma_sum_neg(m, f, h);
        lemma_neg_add(sum(m, f), f(n - 1));
    }
}

pub proof fn lemma_neg_add(x: Ext, y: Ext)
    ensures
        -(x + y) == (-x) + (-y),
{
    // Both sides are the product with minus one.
    let m = -Ext::one();
    lemma_neg_by_one(x + y);
    lemma_neg_by_one(x);
    lemma_neg_by_one(y);
    lemma_mul_dist(x, y, m);
}

proof fn lemma_neg_by_one(x: Ext)
    ensures
        (-Ext::one()) * x == -x,
{
    lemma_neg_mul(Ext::one(), x);
    let r = x.reduced();
    lemma_mul_reduced(x, Ext::one());
    lemma_mul_comm(x, Ext::one());
    lemma_mul_one(r);
    assert(Ext::one() * x == r);
    lemma_neg_reduced(x);
}

proof fn lemma_neg_reduced(x: Ext)
    ensures
        -x.reduced() == -x,
{
    reveal(Ext::spec_neg);
}

/// Changing the summand at `j` alone changes the sum by the difference there.
pub proof fn lemma_sum_update(
    n: nat,
    j: int,
    f: spec_fn(int) -> Ext,
    g: spec_fn(int) -> Ext,
)
    requires
        0 <= j < n,
        forall|i: int| 0 <= i < n && i != j ==> #[trigger] f(i) == g(i),
    ensures
        sum(n, g) + f(j) == sum(n, f) + g(j),
    decreases n,
{
    let m = (n - 1) as nat;
    if j == n - 1 {
        lemma_sum_ext(m, f, g);
        lemma_add_assoc(sum(m, g), g(j), f(j));
        lemma_add_comm(g(j), f(j));
        lemma_add_assoc(sum(m, f), f(j), g(j));
    } else {
        lemma_sum_update(m, j, f, g);
        assert(f(n - 1) == g(n - 1));
        lemma_add_assoc(sum(m, g), g(n - 1), f(j));
        lemma_add_comm(g(n - 1), f(j));
        lemma_add_assoc(sum(m, g), f(j), g(n - 1));
        lemma_add_assoc(sum(m, f), f(n - 1), g(j));
        lemma_add_comm(f(n - 1), g(j));
        lemma_add_assoc(sum(m, f), g(j), f(n - 1));
    }
}

/// Differences of neighbours leave the two ends.
pub proof fn lemma_sum_telescope(
    n: nat,
    s: spec_fn(int) -> Ext,
    h: spec_fn(int) -> Ext,
)
    requires
        forall|i: int| 0 <= i < n ==> #[trigger] h(i) == s(i) - s(i + 1),
    ensures
        sum(n, h) == s(0) - s(n as int),
    decreases n,
{
    if n == 0 {
        lemma_sub_self(s(0));
    } else {
        assert(h(n - 1) == s(n - 1) - s(n as int));
        lemma_sum_telescope((n - 1) as nat, s, h);
        lemma_sub_join(s(0), s(n - 1), s(n as int));
    }
}

/// A sum over `n + m` indices splits after the first `n`.
pub proof fn lemma_sum_split(
    n: nat,
    m: nat,
    f: spec_fn(int) -> Ext,
    g: spec_fn(int) -> Ext,
)
    requires
        forall|i: int| 0 <= i < m ==> #[trigger] g(i) == f(n + i),
    ensures
        sum(n + m, f) == sum(n, f) + sum(m, g),
    decreases m,
{
    if m == 0 {
        lemma_sum_wf(n, f);
        lemma_add_zero(sum(n, f));
    } else {
        assert(g(m - 1) == f(n + (m - 1)));
        lemma_sum_split(n, (m - 1) as nat, f, g);
        lemma_add_assoc(sum(n, f), sum((m - 1) as nat, g), g(m - 1));
    }
}

/// A sum over `n` blocks of `m` indices is the sum of the blocks' sums.
pub proof fn lemma_sum_blocks(
    n: nat,
    m: nat,
    f: spec_fn(int) -> Ext,
    block: spec_fn(int) -> Ext,
)
    requires
        forall|i: int|
            0 <= i < n ==> #[trigger] block(i) == sum(m, |j: int| f(i * m + j)),
    ensures
        sum(n * m, f) == sum(n, block),
    decreases n,
{
    if n == 0 {
        assert(n * m == 0) by (nonlinear_arith)
            requires
                n == 0,
        ;
    } else {
        let k = (n - 1) as nat;
        lemma_sum_blocks(k, m, f, block);
        assert(n * m == k * m + m) by (nonlinear_arith)
            requires
                n == k + 1,
        ;
        let g = |j: int| f(k * m + j);
        lemma_sum_split(k * m, m, f, g);
        assert(block(n - 1) == sum(m, g));
    }
}

/// The order of a double sum does not matter.
pub proof fn lemma_sum_swap(
    n: nat,
    m: nat,
    f: spec_fn(int, int) -> Ext,
)
    ensures
        sum(n, |i: int| sum(m, |j: int| f(i, j))) == sum(m, |j: int| sum(n, |i: int| f(i, j))),
    decreases n,
{
    let rows = |i: int| sum(m, |j: int| f(i, j));
    let cols = |j: int| sum(n, |i: int| f(i, j));
    if n == 0 {
        assert forall|j: int| 0 <= j < m implies #[trigger] cols(j) == Ext::zero() by {}
        lemma_sum_zero(m, cols);
    } else {
        let k = (n - 1) as nat;
        lemma_sum_swap(k, m, f);
        let cols_k = |j: int| sum(k, |i: int| f(i, j));
        let last = |j: int| f(n - 1, j);
        assert forall|j: int| 0 <= j < m implies #[trigger] cols(j) == cols_k(j) + last(j) by {
            let g = |i: int| f(i, j);
            assert(sum(n, g) == sum(k, g) + g(n - 1));
        }
        lemma_sum_add(m, cols_k, last, cols);
        assert(rows(n - 1) == sum(m, |j: int| f(n - 1, j)));
        lemma_sum_ext(m, last, |j: int| f(n - 1, j));
    }
}

/// Summing pairs of neighbours.
pub proof fn lemma_sum_pairs(n: nat, f: spec_fn(int) -> Ext, g: spec_fn(int) -> Ext)
    requires
        forall|b: int| 0 <= b < n ==> #[trigger] g(b) == f(2 * b) + f(2 * b + 1),
    ensures
        sum(2 * n, f) == sum(n, g),
    decreases n,
{
    if n > 0 {
        let k = (n - 1) as nat;
        lemma_sum_pairs(k, f, g);
        assert(g(n - 1) == f(2 * (n - 1)) + f(2 * (n - 1) + 1));
        assert(sum(2 * n, f) == sum((2 * n - 1) as nat, f) + f(2 * n - 1));
        assert(sum((2 * n - 1) as nat, f) == sum((2 * n - 2) as nat, f) + f(2 * n - 2));
        lemma_add_assoc(sum(2 * k, f), f(2 * n - 2), f(2 * n - 1));
    }
}

/// A sum with one summand that may differ from zero.
pub proof fn lemma_sum_single(n: nat, j: int, f: spec_fn(int) -> Ext)
    requires
        0 <= j < n,
        f(j).wf(),
        forall|i: int| 0 <= i < n && i != j ==> #[trigger] f(i) == Ext::zero(),
    ensures
        sum(n, f) == f(j),
    decreases n,
{
    let m = (n - 1) as nat;
    if j == n - 1 {
        lemma_sum_zero(m, f);
        lemma_add_zero(f(j));
    } else {
        lemma_sum_single(m, j, f);
        assert(f(n - 1) == Ext::zero());
        lemma_add_zero(f(j));
    }
}

/// `x` weighted with how often it was counted.
pub open spec fn weighted(h: spec_fn(int) -> int, x: spec_fn(int) -> Ext) -> spec_fn(int) -> Ext {
    |i: int| Ext::base(h(i)) * x(i)
}

/// Counting index `j` once more adds its value once.
pub proof fn lemma_weighted_bump(
    n: nat,
    j: int,
    h: spec_fn(int) -> int,
    h2: spec_fn(int) -> int,
    x: spec_fn(int) -> Ext,
)
    requires
        0 <= j < n,
        forall|i: int| 0 <= i < n ==> #[trigger] h2(i) == h(i) + (if i == j { 1int } else { 0int }),
    ensures
        sum(n, weighted(h2, x)) == sum(n, weighted(h, x)) + Ext::base(1) * x(j),
{
    let d = |i: int| if i == j { Ext::base(1) * x(j) } else { Ext::zero() };
    let (f, g) = (weighted(h, x), weighted(h2, x));
    assert forall|i: int| 0 <= i < n implies #[trigger] g(i) == f(i) + d(i) by {
        assert(h2(i) == h(i) + (if i == j { 1int } else { 0int }));
        if i == j {
            lemma_base_add(h(i), 1);
            lemma_mul_dist(Ext::base(h(i)), Ext::base(1), x(i));
        } else {
            lemma_ops_wf(Ext::base(h(i)), x(i));
            lemma_add_zero(f(i));
        }
    }
    lemma_sum_add(n, f, d, g);
    lemma_ops_wf(Ext::base(1), x(j));
    lemma_sum_single(n, j, d);
}

/// Weights that are equal give equal sums.
pub proof fn lemma_weighted_ext(
    n: nat,
    h: spec_fn(int) -> int,
    h2: spec_fn(int) -> int,
    x: spec_fn(int) -> Ext,
)
    requires
        forall|i: int| 0 <= i < n ==> #[trigger] h2(i) == h(i),
    ensures
        sum(n, weighted(h2, x)) == sum(n, weighted(h, x)),
{
    let (f, g) = (weighted(h, x), weighted(h2, x));
    assert forall|i: int| 0 <= i < n implies #[trigger] f(i) == g(i) by {
        assert(h2(i) == h(i));
    }
    lemma_sum_ext(n, f, g);
}

/// Adding the same value `n` times multiplies it by `n`.
pub proof fn lemma_sum_const(n: nat, c: Ext, f: spec_fn(int) -> Ext)
    requires
        forall|i: int| 0 <= i < n ==> #[trigger] f(i) == c,
    ensures
        sum(n, f) == Ext::base(n as int) * c,
    decreases n,
{
    if n == 0 {
        lemma_base_add(0, 0);
        lemma_mul_zero(c);
    } else {
        assert(f(n - 1) == c);
        let m = (n - 1) as nat;
        lemma_sum_const(m, c, f);
        lemma_base_add(m as int, 1);
        lemma_mul_dist(Ext::base(m as int), Ext::base(1), c);
        lemma_add_reduced(sum(m, f), c);
        lemma_mul_reduced_one(c);
    }
}

proof fn lemma_mul_reduced_one(c: Ext)
    ensures
        Ext::base(1) * c == c.reduced(),
{
    lemma_base_add(0, 1);
    lemma_mul_reduced(c, Ext::one());
    lemma_mul_comm(c, Ext::one());
    lemma_mul_one(c.reduced());
    lemma_mul_comm(c.reduced(), Ext::one());
}

proof fn lemma_add_reduced(x: Ext, c: Ext)
    ensures
        x + c.reduced() == x + c,
{
    reveal(Ext::spec_add);
    crate::field::lemma_red_twice(x.a, c.a);
    crate::field::lemma_red_twice(x.b, c.b);
    crate::field::lemma_red_twice(x.c, c.c);
    crate::field::lemma_red_twice(x.d, c.d);
}

/// Summing pairs of columns row by row, or rows pair by pair, gives the same.
pub proof fn lemma_rows_by_pairs(
    n_pairs: nat,
    n_rows: nat,
    v: spec_fn(int, int) -> Ext,
    by_pair: spec_fn(int) -> Ext,
    by_row: spec_fn(int) -> Ext,
)
    requires
        forall|b: int|
            0 <= b < n_pairs ==> #[trigger] by_pair(b) == sum(
                n_rows,
                |i: int| v(i, 2 * b) + v(i, 2 * b + 1),
            ),
        forall|i: int|
            0 <= i < n_rows ==> #[trigger] by_row(i) == sum(2 * n_pairs, |j: int| v(i, j)),
    ensures
        sum(n_pairs, by_pair) == sum(n_rows, by_row),
{
    let p = |b: int, i: int| v(i, 2 * b) + v(i, 2 * b + 1);
    let pairs = |b: int| sum(n_rows, |i: int| p(b, i));
    let rows = |i: int| sum(n_pairs, |b: int| p(b, i));
    assert forall|b: int| 0 <= b < n_pairs implies #[trigger] by_pair(b) == pairs(b) by {
        lemma_sum_ext(n_rows, |i: int| v(i, 2 * b) + v(i, 2 * b + 1), |i: int| p(b, i));
    }
    lemma_sum_ext(n_pairs, by_pair, pairs);
    lemma_sum_swap(n_pairs, n_rows, p);
    assert forall|i: int| 0 <= i < n_rows implies #[trigger] rows(i) == by_row(i) by {
        let f = |j: int| v(i, j);
        let q = |b: int| p(b, i);
        assert forall|b: int| 0 <= b < n_pairs implies #[trigger] q(b) == f(2 * b) + f(2 * b + 1) by {}
        lemma_sum_pairs(n_pairs, f, q);
    }
    lemma_sum_ext(n_rows, rows, by_row);
}

/// A sum that runs through the same `n` values `reps` times.
pub proof fn lemma_sum_cyclic(
    reps: nat,
    n: nat,
    f: spec_fn(int) -> Ext,
    once: spec_fn(int) -> Ext,
)
    requires
        forall|r: int, g: int|
            0 <= r < reps && 0 <= g < n ==> #[trigger] f(r * n + g) == once(g),
    ensures
        sum(reps * n, f) == Ext::base(reps as int) * sum(n, once),
{
    let block = |r: int| sum(n, |g: int| f(r * n + g));
    lemma_sum_blocks(reps, n, f, block);
    assert forall|r: int| 0 <= r < reps implies #[trigger] block(r) == sum(n, once) by {
        let h = |g: int| f(r * n + g);
        assert forall|g: int| 0 <= g < n implies #[trigger] h(g) == once(g) by {
            assert(f(r * n + g) == once(g));
        }
        lemma_sum_ext(n, h, once);
    }
    lemma_sum_const(reps, sum(n, once), block);
}

/// A sum of differences is the difference of the sums.
pub proof fn lemma_sum_sub(
    n: nat,
    f: spec_fn(int) -> Ext,
    g: spec_fn(int) -> Ext,
    h: spec_fn(int) -> Ext,
)
    requires
        forall|i: int| 0 <= i < n ==> #[trigger] h(i) == f(i) - g(i),
    ensures
        sum(n, h) == sum(n, f) - sum(n, g),
{
    let m = |i: int| -g(i);
    lemma_sum_neg(n, g, m);
    assert forall|i: int| 0 <= i < n implies #[trigger] h(i) == f(i) + m(i) by {
        lemma_sub_is_add_neg(f(i), g(i));
    }
    lemma_sum_add(n, f, m, h);
    lemma_sub_is_add_neg(sum(n, f), sum(n, g));
}

} // verus!
