//! Why the claimed sum of honest additions is what the test vectors and the range
//! tables say.
use vstd::arithmetic::power2::{lemma2_to64, pow2};
use vstd::prelude::*;

use crate::field::{
    lemma_add_assoc, lemma_add_comm, lemma_add_zero, lemma_base_add, lemma_mul_zero, lemma_neg_mul,
    lemma_sub_is_add_neg, Ext,
};
use crate::iadd::{low_register, IaddCase, RangeCheckMode};
use crate::iadd_limbs::{base_of, canonical, lemma_limbs_of, limbs_of};
use crate::iadd_lookups::{
    batch_dens, batch_value, boundary_value, column_value, ends_value, high_table, lookup_value,
    main_value, part_den, seq_value, state_in, state_out, state_value, IaddElements,
    RangeLookupElements,
};
use crate::iadd_rows::{
    counts_hits, is_padded, lemma_after_range, part, part_hits, rows_add, LookupCounts, Row,
    SeqTable,
};
use crate::sums::{
    lemma_sum_add, lemma_sum_blocks, lemma_sum_ext, lemma_sum_split, lemma_sum_swap,
    lemma_sum_telescope, lemma_sum_wf, lemma_sum_zero, lemma_swap, lemma_weighted_bump,
    lemma_weighted_ext, sum, weighted,
};

verus! {

/// Padding claims nothing.
proof fn lemma_padding_column(el: &IaddElements, all: Seq<Row>, rows: Seq<Row>, padded: int, b: int)
    requires
        is_padded(all, rows, padded),
        rows.len() <= padded,
    ensures
        column_value(el, all, b) == column_value(el, rows, b),
{
    let m = (padded - rows.len()) as nat;
    let f = |i: int| batch_value(el, all[i], b);
    let g = |i: int| batch_value(el, all[rows.len() + i], b);
    let h = |i: int| batch_value(el, rows[i], b);
    lemma_sum_split(rows.len(), m, f, g);
    assert forall|i: int| 0 <= i < m implies #[trigger] g(i) == Ext::zero() by {
        let row = all[rows.len() + i];
        assert(row.is_zero());
        let (d0, d1) = batch_dens(el, row, b);
        lemma_base_add(0, 0);
        lemma_mul_zero(d0.inv());
        lemma_mul_zero(d1.inv());
        lemma_add_zero(Ext::zero());
    }
    lemma_sum_zero(m, g);
    assert forall|i: int| 0 <= i < rows.len() implies #[trigger] f(i) == h(i) by {
        assert(all[i] == all.take(rows.len() as int)[i]);
    }
    lemma_sum_ext(rows.len(), f, h);
    lemma_sum_wf(rows.len(), h);
    lemma_add_zero(sum(rows.len(), h));
}

/// What the state after `j` additions is worth.
spec fn chain(el: &IaddElements, c: IaddCase, s: int, j: int) -> Ext {
    state_value(el, s, j, limbs_of(c.after(j)), limbs_of(c.r1() as int))
}

/// A row takes the state before it and leaves the state after it.
proof fn lemma_chain_row(el: &IaddElements, row: Row, c: IaddCase, s: int, j: int)
    requires
        row.adds(c, s, j),
        0 <= j < u32::MAX,
    ensures
        batch_value(el, row, 0) == chain(el, c, s, j) - chain(el, c, s, j + 1),
{
    let (x, y) = (el.state.den(state_in(row)).inv(), el.state.den(state_out(row)).inv());
    lemma_base_add(1, 0);
    lemma_neg_mul(Ext::base(1), y);
    lemma_sub_is_add_neg(Ext::base(1) * x, Ext::base(1) * y);
}

/// The chains of all test vectors leave their ends.
proof fn lemma_chains(el: &IaddElements, rows: Seq<Row>, cases: Seq<IaddCase>, k: nat)
    requires
        0 < k < u32::MAX,
        rows.len() == cases.len() * k,
        rows_add(rows, cases, k as int),
        forall|s: int|
            0 <= s < cases.len() ==> low_register((#[trigger] cases[s]).y_hex@) == Ok::<
                nat,
                crate::iadd::StateError,
            >(cases[s].after(k as int) as nat),
    ensures
        column_value(el, rows, 0) == boundary_value(el, cases, k as int),
{
    let f = |i: int| batch_value(el, rows[i], 0);
    let block = |s: int| sum(k, |j: int| f(s * k + j));
    let ends = |s: int| ends_value(el, cases[s], s, k as int);
    lemma_sum_blocks(cases.len(), k, f, block);
    assert forall|s: int| 0 <= s < cases.len() implies #[trigger] block(s) == ends(s) by {
        let c = cases[s];
        let ch = |j: int| chain(el, c, s, j);
        let h = |j: int| f(s * k + j);
        assert forall|j: int| 0 <= j < k implies #[trigger] h(j) == ch(j) - ch(j + 1) by {
            let i = s * k + j;
            assert(0 <= i < rows.len()) by (nonlinear_arith)
                requires
                    i == s * k + j,
                    0 <= s < cases.len(),
                    0 <= j < k,
                    rows.len() == cases.len() * k,
            ;
            assert(s * k == k * s) by (nonlinear_arith);
            vstd::arithmetic::div_mod::lemma_fundamental_div_mod_converse(i, k as int, s, j);
            assert(rows[i].adds(cases[i / k as int], i / k as int, i % k as int));
            lemma_chain_row(el, rows[i], c, s, j);
        }
        lemma_sum_telescope(k, ch, h);
        lemma_after_range(c, 0);
        lemma_after_range(c, k as int);
        assert(limbs_of(c.after(0)) == limbs_of(c.r0() as int));
        assert(low_register(c.y_hex@)->Ok_0 == c.after(k as int) as nat);
    }
    lemma_sum_ext(cases.len(), block, ends);
}

/// What a value of a range table is worth.
spec fn seq_supply(g: &RangeLookupElements, t: SeqTable) -> spec_fn(int) -> Ext {
    |v: int| part_den(g, t, v).inv()
}

/// What the parts of limbs `t.first()..to` of one sum are worth in a table.
spec fn parts_value(g: &RangeLookupElements, t: SeqTable, next: Seq<u32>, to: int) -> Ext
    decreases to - t.first(),
{
    if to <= t.first() {
        Ext::zero()
    } else {
        parts_value(g, t, next, to - 1) + Ext::base(1) * part_den(
            g,
            t,
            part(next, to - 1, t.is_high()),
        ).inv()
    }
}

/// The parts of a canonical number are values of the tables.
pub proof fn lemma_part_in_table(next: Seq<u32>, t: SeqTable, i: int)
    requires
        canonical(next),
        t.first() <= i < t.end(),
    ensures
        0 <= part(next, i, t.is_high()) < pow2(t.log() as nat),
{
    lemma2_to64();
    assert(next[i] < base_of(i));
}

/// Counting the parts of one more sum adds what they are worth.
proof fn lemma_parts_counted(
    g: &RangeLookupElements,
    t: SeqTable,
    next: Seq<u32>,
    to: int,
    h0: spec_fn(int) -> int,
)
    requires
        canonical(next),
        t.first() <= to <= t.end(),
    ensures
        sum(
            pow2(t.log() as nat),
            weighted(
                |v: int| h0(v) + part_hits(next, t.is_high(), t.first(), to, v),
                seq_supply(g, t),
            ),
        ) == sum(pow2(t.log() as nat), weighted(h0, seq_supply(g, t))) + parts_value(
            g,
            t,
            next,
            to,
        ),
    decreases to - t.first(),
{
    let len = pow2(t.log() as nat);
    let x = seq_supply(g, t);
    let h = |v: int| h0(v) + part_hits(next, t.is_high(), t.first(), to, v);
    if to <= t.first() {
        lemma_weighted_ext(len, h0, h, x);
        lemma_sum_wf(len, weighted(h0, x));
        lemma_add_zero(sum(len, weighted(h0, x)));
    } else {
        lemma_parts_counted(g, t, next, to - 1, h0);
        let p = |v: int| h0(v) + part_hits(next, t.is_high(), t.first(), to - 1, v);
        let j = part(next, to - 1, t.is_high());
        lemma_part_in_table(next, t, to - 1);
        assert forall|v: int| 0 <= v < len implies #[trigger] h(v) == p(v) + (if v == j {
            1int
        } else {
            0int
        }) by {}
        lemma_weighted_bump(len, j, p, h, x);
        lemma_add_assoc(
            sum(len, weighted(h0, x)),
            parts_value(g, t, next, to - 1),
            Ext::base(1) * x(j),
        );
    }
}

/// What the parts of all sums are worth in a table is what its counts are worth.
proof fn lemma_table_uses(g: &RangeLookupElements, t: SeqTable, rows: Seq<Row>, n: nat)
    requires
        n <= rows.len(),
        forall|i: int| 0 <= i < rows.len() ==> canonical((#[trigger] rows[i]).next@),
    ensures
        sum(n, |i: int| parts_value(g, t, rows[i].next@, t.end())) == sum(
            pow2(t.log() as nat),
            weighted(|v: int| t.hits(rows, n, v) as int, seq_supply(g, t)),
        ),
    decreases n,
{
    let len = pow2(t.log() as nat);
    let x = seq_supply(g, t);
    let h = |v: int| t.hits(rows, n, v) as int;
    if n == 0 {
        let w = weighted(h, x);
        assert forall|v: int| 0 <= v < len implies #[trigger] w(v) == Ext::zero() by {
            lemma_base_add(0, 0);
            lemma_mul_zero(x(v));
        }
        lemma_sum_zero(len, w);
    } else {
        let k = (n - 1) as nat;
        lemma_table_uses(g, t, rows, k);
        let next = rows[n - 1].next@;
        assert(canonical(rows[n - 1].next@));
        let h0 = |v: int| t.hits(rows, k, v) as int;
        let h1 = |v: int| h0(v) + part_hits(next, t.is_high(), t.first(), t.end(), v);
        lemma_parts_counted(g, t, next, t.end(), h0);
        assert forall|v: int| 0 <= v < len implies #[trigger] h(v) == h1(v) by {}
        lemma_weighted_ext(len, h1, h, x);
    }
}

/// A table's counts are worth what the sums' parts are worth.
proof fn lemma_table_value(
    g: &RangeLookupElements,
    t: SeqTable,
    rows: Seq<Row>,
    counts: Seq<u32>,
)
    requires
        counts_hits(counts, t, rows, rows.len()),
        forall|i: int| 0 <= i < rows.len() ==> canonical((#[trigger] rows[i]).next@),
    ensures
        seq_value(g.of(t), counts) == sum(
            rows.len(),
            |i: int| parts_value(g, t, rows[i].next@, t.end()),
        ),
{
    lemma_table_uses(g, t, rows, rows.len());
    let w = weighted(|v: int| t.hits(rows, rows.len(), v) as int, seq_supply(g, t));
    let f = |v: int| Ext::base(counts[v] as int) * g.of(t).den(seq![v as u32]).inv();
    assert forall|v: int| 0 <= v < counts.len() implies #[trigger] f(v) == w(v) by {
        assert(counts[v] == t.hits(rows, rows.len(), v));
    }
    lemma_sum_ext(counts.len(), f, w);
}

/// The batches of a row after the first are worth what its parts are worth in the
/// three tables.
proof fn lemma_row_parts(el: &IaddElements, row: Row, n: nat)
    requires
        el.ranges is Some,
        row.is_real == 1,
        n <= 9,
    ensures
        ({
            let g = el.ranges->Some_0;
            let high = if n < 8 {
                n as int
            } else {
                8
            };
            let top = if n < 8 {
                8
            } else {
                n as int
            };
            sum(n, |i: int| batch_value(el, row, 1 + i)) == (parts_value(
                &g,
                SeqTable::Low,
                row.next@,
                n as int,
            ) + parts_value(&g, SeqTable::High, row.next@, high)) + parts_value(
                &g,
                SeqTable::Top,
                row.next@,
                top,
            )
        }),
    decreases n,
{
    let g = el.ranges->Some_0;
    let f = |i: int| batch_value(el, row, 1 + i);
    if n == 0 {
        lemma_add_zero(Ext::zero());
    } else {
        let i = n - 1;
        lemma_row_parts(el, row, i as nat);
        let a = parts_value(&g, SeqTable::Low, row.next@, i);
        let lo = Ext::base(1) * part_den(&g, SeqTable::Low, part(row.next@, i, false)).inv();
        let hi = Ext::base(1) * part_den(&g, high_table(i), part(row.next@, i, true)).inv();
        assert(f(i) == lo + hi);
        if i < 8 {
            let b = parts_value(&g, SeqTable::High, row.next@, i);
            let c = parts_value(&g, SeqTable::Top, row.next@, 8);
            lemma_regroup(a, b, c, lo, hi);
        } else {
            let b = parts_value(&g, SeqTable::High, row.next@, 8);
            let c = parts_value(&g, SeqTable::Top, row.next@, 8);
            lemma_regroup_last(a, b, c, lo, hi);
        }
    }
}

/// `((a + b) + c) + (x + y) == ((a + x) + (b + y)) + c`.
proof fn lemma_regroup(a: Ext, b: Ext, c: Ext, x: Ext, y: Ext)
    ensures
        ((a + b) + c) + (x + y) == ((a + x) + (b + y)) + c,
{
    lemma_add_assoc(a + b, c, x + y);
    lemma_add_comm(c, x + y);
    lemma_add_assoc(a + b, x + y, c);
    lemma_swap(a, b, x, y);
}

/// `((a + b) + c) + (x + y) == ((a + x) + b) + (c + y)`.
proof fn lemma_regroup_last(a: Ext, b: Ext, c: Ext, x: Ext, y: Ext)
    ensures
        ((a + b) + c) + (x + y) == ((a + x) + b) + (c + y),
{
    lemma_swap(a + b, c, x, y);
    lemma_add_assoc(a, b, x);
    lemma_add_comm(b, x);
    lemma_add_assoc(a, x, b);
}

/// The honest main claim: what the test vectors show, and what the range lookups
/// are worth where there are any.
pub open spec fn expected_main(
    el: &IaddElements,
    cases: Seq<IaddCase>,
    k: int,
    mode: RangeCheckMode,
    counts: Option<LookupCounts>,
) -> Ext {
    if mode is Lookup {
        boundary_value(el, cases, k) + lookup_value(&el.ranges->Some_0, &counts->Some_0)
    } else {
        boundary_value(el, cases, k)
    }
}

/// The main trace of honest additions claims what the test vectors show plus what
/// the range lookups are worth.
pub proof fn lemma_main_claim(
    el: &IaddElements,
    all: Seq<Row>,
    rows: Seq<Row>,
    padded: int,
    cases: Seq<IaddCase>,
    k: nat,
    mode: RangeCheckMode,
    counts: Option<LookupCounts>,
)
    requires
        0 < k < u32::MAX,
        rows.len() == cases.len() * k,
        rows_add(rows, cases, k as int),
        rows.len() <= padded,
        is_padded(all, rows, padded),
        forall|s: int|
            0 <= s < cases.len() ==> low_register((#[trigger] cases[s]).y_hex@) == Ok::<
                nat,
                crate::iadd::StateError,
            >(cases[s].after(k as int) as nat),
        mode is Lookup ==> el.ranges is Some && counts is Some && counts->Some_0.counts(
            rows,
            rows.len(),
        ),
    ensures
        main_value(el, all, mode) == expected_main(el, cases, k as int, mode, counts),
{
    let col = |b: int| column_value(el, all, b);
    lemma_padding_column(el, all, rows, padded, 0);
    lemma_chains(el, rows, cases, k);
    let first = boundary_value(el, cases, k as int);
    lemma_sum_wf(cases.len(), |s: int| ends_value(el, cases[s], s, k as int));
    if mode is Lookup {
        lemma_range_columns(el, all, rows, padded, cases, k, counts->Some_0);
        let rest = |i: int| column_value(el, all, 1 + i);
        lemma_sum_split(1, 9, col, rest);
        assert(sum(1, col) == sum(0, col) + col(0));
        lemma_add_comm(Ext::zero(), first);
        lemma_add_zero(first);
    } else {
        assert(sum(1, col) == sum(0, col) + col(0));
        lemma_add_comm(Ext::zero(), first);
        lemma_add_zero(first);
    }
}

/// The batches after the first claim what the range lookups are worth.
proof fn lemma_range_columns(
    el: &IaddElements,
    all: Seq<Row>,
    rows: Seq<Row>,
    padded: int,
    cases: Seq<IaddCase>,
    k: nat,
    counts: LookupCounts,
)
    requires
        0 < k,
        rows_add(rows, cases, k as int),
        rows.len() <= padded,
        is_padded(all, rows, padded),
        el.ranges is Some,
        counts.counts(rows, rows.len()),
    ensures
        sum(9, |i: int| column_value(el, all, 1 + i)) == lookup_value(&el.ranges->Some_0, &counts),
{
    let g = el.ranges->Some_0;
    assert forall|i: int| 0 <= i < rows.len() implies canonical((#[trigger] rows[i]).next@)
        && rows[i].is_real == 1 by {
        vstd::arithmetic::div_mod::lemma_mod_bound(i, k as int);
        let (s, j) = (i / k as int, i % k as int);
        assert(rows[i].adds(cases[s], s, j));
        lemma_after_range(cases[s], j + 1);
        lemma_limbs_of(cases[s].after(j + 1));
    }
    // Column by column is row by row.
    let f = |i: int, r: int| batch_value(el, rows[r], 1 + i);
    let cols = |i: int| column_value(el, all, 1 + i);
    let by_col = |i: int| sum(rows.len(), |r: int| f(i, r));
    assert forall|i: int| 0 <= i < 9 implies #[trigger] cols(i) == by_col(i) by {
        lemma_padding_column(el, all, rows, padded, 1 + i);
        lemma_sum_ext(
            rows.len(),
            |r: int| batch_value(el, rows[r], 1 + i),
            |r: int| f(i, r),
        );
    }
    lemma_sum_ext(9, cols, by_col);
    lemma_sum_swap(9, rows.len(), f);
    let by_row = |r: int| sum(9, |i: int| f(i, r));
    // Each row's parts, table by table.
    let low = |r: int| parts_value(&g, SeqTable::Low, rows[r].next@, SeqTable::Low.end());
    let high = |r: int| parts_value(&g, SeqTable::High, rows[r].next@, SeqTable::High.end());
    let top = |r: int| parts_value(&g, SeqTable::Top, rows[r].next@, SeqTable::Top.end());
    let two = |r: int| low(r) + high(r);
    assert forall|r: int| 0 <= r < rows.len() implies #[trigger] by_row(r) == two(r) + top(r) by {
        assert(rows[r].is_real == 1);
        lemma_row_parts(el, rows[r], 9);
        lemma_sum_ext(9, |i: int| f(i, r), |i: int| batch_value(el, rows[r], 1 + i));
    }
    lemma_sum_add(rows.len(), low, high, two);
    lemma_sum_add(rows.len(), two, top, by_row);
    lemma_table_value(&g, SeqTable::Low, rows, counts.seq18@);
    lemma_table_value(&g, SeqTable::High, rows, counts.seq11@);
    lemma_table_value(&g, SeqTable::Top, rows, counts.seq6@);
}

} // verus!
