//! How much the range tables of repeated addition are looked up in all.
use vstd::arithmetic::power2::pow2;
use vstd::prelude::*;

use crate::iadd_balance::lemma_part_in_table;
use crate::iadd_limbs::canonical;
use crate::iadd_rows::{part, part_hits, LookupCounts, SeqTable};

verus! {

/// The first `n` counts, added up.
pub open spec fn total(counts: Seq<u32>, n: nat) -> nat
    decreases n,
{
    if n == 0 {
        0
    } else {
        total(counts, (n - 1) as nat) + counts[n - 1] as nat
    }
}

/// How often the parts of limbs `from..to` are below `n`.
spec fn parts_below(next: Seq<u32>, high: bool, from: int, to: int, n: nat) -> nat
    decreases n,
{
    if n == 0 {
        0
    } else {
        parts_below(next, high, from, to, (n - 1) as nat) + part_hits(next, high, from, to, n - 1)
    }
}

/// One limb has one part.
proof fn lemma_one_part_more(next: Seq<u32>, high: bool, from: int, to: int, n: nat)
    requires
        from < to,
        0 <= part(next, to - 1, high),
    ensures
        parts_below(next, high, from, to, n) == parts_below(next, high, from, to - 1, n) + (if part(
            next,
            to - 1,
            high,
        ) < n {
            1nat
        } else {
            0
        }),
    decreases n,
{
    if n > 0 {
        lemma_one_part_more(next, high, from, to, (n - 1) as nat);
    }
}

proof fn lemma_no_parts(next: Seq<u32>, high: bool, from: int, n: nat)
    ensures
        parts_below(next, high, from, from, n) == 0,
    decreases n,
{
    if n > 0 {
        lemma_no_parts(next, high, from, (n - 1) as nat);
    }
}

/// The parts of the limbs of one sum that a table holds are all in it.
proof fn lemma_parts_in_table(t: SeqTable, next: Seq<u32>, to: int)
    requires
        canonical(next),
        t.first() <= to <= t.end(),
    ensures
        parts_below(next, t.is_high(), t.first(), to, pow2(t.log() as nat)) == to - t.first(),
    decreases to,
{
    let n = pow2(t.log() as nat);
    if to == t.first() {
        lemma_no_parts(next, t.is_high(), to, n);
    } else {
        lemma_parts_in_table(t, next, to - 1);
        lemma_part_in_table(next, t, to - 1);
        lemma_one_part_more(next, t.is_high(), t.first(), to, n);
    }
}

proof fn lemma_total_more(a: Seq<u32>, b: Seq<u32>, t: SeqTable, next: Seq<u32>, n: nat)
    requires
        forall|v: int| 0 <= v < n ==> #[trigger] b[v] == a[v] + t.row_hits(next, v),
    ensures
        total(b, n) == total(a, n) + parts_below(next, t.is_high(), t.first(), t.end(), n),
    decreases n,
{
    if n > 0 {
        lemma_total_more(a, b, t, next, (n - 1) as nat);
        assert(b[n - 1] == a[n - 1] + t.row_hits(next, n - 1));
    }
}

proof fn lemma_total_zero(a: Seq<u32>, n: nat)
    requires
        forall|v: int| 0 <= v < n ==> #[trigger] a[v] == 0,
    ensures
        total(a, n) == 0,
    decreases n,
{
    if n > 0 {
        lemma_total_zero(a, (n - 1) as nat);
        assert(a[n - 1] == 0);
    }
}

/// Counts after each of some sums, which are added to a new table one by one.
pub open spec fn counted_one_by_one(states: Seq<LookupCounts>, sums: Seq<Seq<u32>>) -> bool {
    &&& states.len() == sums.len() + 1
    &&& states[0].is_new()
    &&& forall|c: int|
        0 <= c < sums.len() ==> canonical(#[trigger] sums[c]) && states[c + 1].counts_one_more(
            &states[c],
            sums[c],
        )
}

/// After `c` sums the counts of the three tables add up to `9 * c`, `8 * c` and `c`,
/// and the tables keep their sizes.
pub proof fn lemma_counts_add_up(states: Seq<LookupCounts>, sums: Seq<Seq<u32>>, c: nat)
    requires
        counted_one_by_one(states, sums),
        c <= sums.len(),
    ensures
        states[c as int].seq18@.len() == pow2(18),
        states[c as int].seq11@.len() == pow2(11),
        states[c as int].seq6@.len() == pow2(6),
        total(states[c as int].seq18@, pow2(18)) == 9 * c,
        total(states[c as int].seq11@, pow2(11)) == 8 * c,
        total(states[c as int].seq6@, pow2(6)) == c,
    decreases c,
{
    if c == 0 {
        lemma_total_zero(states[0].seq18@, pow2(18));
        lemma_total_zero(states[0].seq11@, pow2(11));
        lemma_total_zero(states[0].seq6@, pow2(6));
    } else {
        let (a, b, next) = (states[c - 1], states[c as int], sums[c - 1]);
        lemma_counts_add_up(states, sums, (c - 1) as nat);
        assert(b.counts_one_more(&a, next));
        lemma_total_more(a.seq18@, b.seq18@, SeqTable::Low, next, pow2(18));
        lemma_total_more(a.seq11@, b.seq11@, SeqTable::High, next, pow2(11));
        lemma_total_more(a.seq6@, b.seq6@, SeqTable::Top, next, pow2(6));
        lemma_parts_in_table(SeqTable::Low, next, 9);
        lemma_parts_in_table(SeqTable::High, next, 8);
        lemma_parts_in_table(SeqTable::Top, next, 9);
    }
}

} // verus!
