//! The rows and columns of repeated addition: one row per addition.
use vstd::arithmetic::power2::{lemma2_to64, lemma_pow2_pos, pow2};
use vstd::prelude::*;

use crate::iadd::{biguint_to_limbs, IaddCase, RangeCheckMode, COMPACT_TRACE_COLUMNS};
use crate::iadd_limbs::{
    add_limbs, base_of, canonical, is_limb_sum, lemma_canonical, lemma_limbs_of, limb_bits,
    limbs_of, modulus, split_lookup_chunks, value, LIMBS,
};

verus! {

/// One addition.
#[derive(Clone, Copy, Debug, PartialEq, Eq)]
pub struct Row {
    pub is_real: u32,
    pub sample_id: u32,
    pub rep_idx: u32,
    pub acc: [u32; LIMBS],
    pub addend: [u32; LIMBS],
    pub next: [u32; LIMBS],
    pub carry: [u32; LIMBS],
}

/// Nine zeros.
pub open spec fn zeros() -> Seq<u32> {
    Seq::new(9, |i: int| 0u32)
}

impl Row {
    /// A row of padding.
    pub open spec fn is_zero(&self) -> bool {
        &&& self.is_real == 0
        &&& self.sample_id == 0
        &&& self.rep_idx == 0
        &&& self.acc@ == zeros()
        &&& self.addend@ == zeros()
        &&& self.next@ == zeros()
        &&& self.carry@ == zeros()
    }

    pub fn zero() -> (r: Row)
        ensures
            r.is_zero(),
    {
        let z: [u32; LIMBS] = [0u32; LIMBS];
        assert(z@ =~= zeros());
        Row { is_real: 0, sample_id: 0, rep_idx: 0, acc: z, addend: z, next: z, carry: z }
    }

    /// Addition `j` of test vector `s`.
    pub open spec fn adds(&self, c: IaddCase, s: int, j: int) -> bool {
        &&& self.is_real == 1
        &&& self.sample_id == s
        &&& self.rep_idx == j
        &&& self.acc@ == limbs_of(c.after(j))
        &&& self.addend@ == limbs_of(c.r1() as int)
        &&& self.next@ == limbs_of(c.after(j + 1))
        &&& is_limb_sum(self.acc@, self.addend@, self.next@, self.carry@)
    }
}

/// One more addition.
proof fn lemma_after_step(c: IaddCase, j: int)
    requires
        0 <= j,
    ensures
        (c.after(j) + c.r1() as int % modulus()) % modulus() == c.after(j + 1),
{
    vstd::arithmetic::power2::lemma_pow2_pos(256);
    let (x, y, m) = (c.r0() + j * c.r1(), c.r1() as int, modulus());
    vstd::arithmetic::div_mod::lemma_add_mod_noop(x, y, m);
    assert(c.r0() + (j + 1) * c.r1() == x + y) by (nonlinear_arith)
        requires
            x == c.r0() + j * c.r1(),
            y == c.r1(),
    ;
}

pub proof fn lemma_after_range(c: IaddCase, j: int)
    requires
        0 <= j,
    ensures
        0 <= c.after(j) < modulus(),
        limbs_of(c.after(j)) == limbs_of(c.r0() + j * c.r1()),
{
    vstd::arithmetic::power2::lemma_pow2_pos(256);
    let x = c.r0() + j * c.r1();
    assert(x >= 0) by (nonlinear_arith)
        requires
            x == c.r0() + j * c.r1(),
            j >= 0,
            c.r0() >= 0,
            c.r1() >= 0,
    ;
    vstd::arithmetic::div_mod::lemma_mod_bound(x, modulus());
    lemma_low_bits(x);
}

/// Only the low 256 bits of a number decide its limbs.
pub proof fn lemma_low_bits(x: int)
    requires
        0 <= x,
    ensures
        limbs_of(x % modulus()) == limbs_of(x),
{
    vstd::arithmetic::power2::lemma_pow2_pos(256);
    lemma_limbs_of(x);
    lemma_canonical(limbs_of(x));
}

/// Test vector `i / k` is added for the `i % k`-th time in row `i`.
pub open spec fn rows_add(rows: Seq<Row>, cases: Seq<IaddCase>, k: int) -> bool {
    forall|i: int|
        0 <= i < rows.len() ==> (#[trigger] rows[i]).adds(cases[i / k], i / k, i % k)
}

/// The rows of all test vectors.
pub fn build_rows(cases: &[IaddCase], repetitions: usize) -> (r: Vec<Row>)
    requires
        0 < repetitions,
        repetitions <= u32::MAX,
        cases@.len() <= u32::MAX,
        cases@.len() * repetitions <= usize::MAX,
    ensures
        r@.len() == cases@.len() * repetitions,
        rows_add(r@, cases@, repetitions as int),
{
    let mut rows: Vec<Row> = Vec::new();
    let ghost k = repetitions as int;
    let mut s: usize = 0;
    while s < cases.len()
        invariant
            s <= cases@.len(),
            k == repetitions,
            0 < repetitions <= u32::MAX,
            cases@.len() <= u32::MAX,
            cases@.len() * repetitions <= usize::MAX,
            rows@.len() == s * repetitions,
            rows_add(rows@, cases@, k),
        decreases cases.len() - s,
    {
        let c: &IaddCase = &cases[s];
        let addend: [u32; LIMBS] = biguint_to_limbs(c.r1_in.as_slice());
        let mut acc: [u32; LIMBS] = biguint_to_limbs(c.r0_in.as_slice());
        proof {
            lemma_after_range(*c, 0);
        }
        let mut j: usize = 0;
        while j < repetitions
            invariant
                j <= repetitions,
                s < cases@.len(),
                c == &cases@[s as int],
                k == repetitions,
                0 < repetitions <= u32::MAX,
                cases@.len() <= u32::MAX,
                cases@.len() * repetitions <= usize::MAX,
                addend@ == limbs_of(c.r1() as int),
                acc@ == limbs_of(c.after(j as int)),
                rows@.len() == s * repetitions + j,
                rows_add(rows@, cases@, k),
            decreases repetitions - j,
        {
            proof {
                assert(s * repetitions + j < cases@.len() * repetitions) by (nonlinear_arith)
                    requires
                        s + 1 <= cases@.len(),
                        j < repetitions,
                ;
                lemma_limbs_of(c.r1() as int);
                lemma_after_range(*c, j as int);
                lemma_limbs_of(c.after(j as int));
                lemma_after_step(*c, j as int);
                vstd::arithmetic::div_mod::lemma_small_mod(
                    c.after(j as int) as nat,
                    modulus() as nat,
                );
            }
            let (next, carry) = add_limbs(acc, addend);
            proof {
                lemma_canonical(next@);
                assert(value(next@) == c.after(j + 1));
            }
            let row = Row {
                is_real: 1,
                sample_id: s as u32,
                rep_idx: j as u32,
                acc,
                addend,
                next,
                carry,
            };
            let ghost before = rows@;
            rows.push(row);
            proof {
                let i = s * k + j;
                vstd::arithmetic::div_mod::lemma_fundamental_div_mod_converse(
                    i,
                    k,
                    s as int,
                    j as int,
                );
                assert(row.adds(cases@[s as int], s as int, j as int));
                assert forall|t: int| 0 <= t < rows@.len() implies (#[trigger] rows@[t]).adds(
                    cases@[t / k],
                    t / k,
                    t % k,
                ) by {
                    if t < before.len() {
                        assert(before[t].adds(cases@[t / k], t / k, t % k));
                    }
                }
            }
            acc = next;
            j += 1;
        }
        s += 1;
        assert(s * repetitions == (s - 1) * repetitions + repetitions) by (nonlinear_arith);
    }
    rows
}

/// The bits of nine limbs, limb by limb, lowest bit first.
pub open spec fn bit_cells(l: Seq<u32>) -> Seq<u32> {
    Seq::new(256, |t: int| (l[t / 29] as int / pow2((t % 29) as nat) as int % 2) as u32)
}

/// The low and the high part of each of nine limbs.
pub open spec fn chunk_cells(l: Seq<u32>) -> Seq<u32> {
    Seq::new(
        18,
        |t: int|
            if t % 2 == 0 {
                (l[t / 2] as int % 0x4_0000) as u32
            } else {
                (l[t / 2] as int / 0x4_0000) as u32
            },
    )
}

/// The columns that every mode has.
pub open spec fn compact_cells(row: Row) -> Seq<u32> {
    seq![row.is_real, row.sample_id, row.rep_idx] + row.acc@ + row.addend@ + row.next@ + row.carry@
}

/// The columns of a row.
pub open spec fn row_cells(row: Row, mode: RangeCheckMode) -> Seq<u32> {
    match mode {
        RangeCheckMode::Off => compact_cells(row),
        RangeCheckMode::Bits => compact_cells(row) + bit_cells(row.acc@) + bit_cells(row.addend@)
            + bit_cells(row.next@),
        RangeCheckMode::Lookup => compact_cells(row) + chunk_cells(row.next@),
    }
}

/// The columns that hold bits: those of three numbers.
pub fn range_bit_columns() -> (r: usize)
    ensures
        r == 768,
{
    let mut bits: usize = 0;
    let mut i: usize = 0;
    while i < LIMBS
        invariant
            i <= LIMBS,
            bits == (if i == 9 {
                256
            } else {
                29 * i
            }),
        decreases LIMBS - i,
    {
        bits = bits + limb_bits(i);
        i += 1;
    }
    3 * bits
}

/// The number of columns of the main trace.
pub fn trace_columns(mode: RangeCheckMode) -> (r: usize)
    ensures
        r == (match mode {
            RangeCheckMode::Off => 39int,
            RangeCheckMode::Bits => 807,
            RangeCheckMode::Lookup => 57,
        }),
        forall|row: Row| r == (#[trigger] row_cells(row, mode)).len(),
{
    match mode {
        RangeCheckMode::Off => COMPACT_TRACE_COLUMNS,
        RangeCheckMode::Bits => COMPACT_TRACE_COLUMNS + range_bit_columns(),
        RangeCheckMode::Lookup => 57,
    }
}

fn limb_bit(l: &[u32; LIMBS], t: usize) -> (r: u32)
    requires
        t < 256,
    ensures
        r == bit_cells(l@)[t as int],
{
    let b: u32 = (t % 29) as u32;
    proof {
        vstd::bits::lemma_u32_shr_is_div(l@[t as int / 29], b);
        lemma_pow2_pos(b as nat);
    }
    (l[t / 29] >> b) % 2
}

fn limb_chunk(l: &[u32; LIMBS], t: usize) -> (r: u32)
    requires
        t < 18,
    ensures
        r == chunk_cells(l@)[t as int],
{
    let (lo, hi) = split_lookup_chunks(t / 2, l[t / 2]);
    if t % 2 == 0 {
        lo
    } else {
        hi
    }
}

/// One cell of a row.
pub fn cell_at(row: &Row, mode: RangeCheckMode, c: usize) -> (r: u32)
    requires
        c < row_cells(*row, mode).len(),
    ensures
        r == row_cells(*row, mode)[c as int],
{
    if c == 0 {
        row.is_real
    } else if c == 1 {
        row.sample_id
    } else if c == 2 {
        row.rep_idx
    } else if c < 12 {
        row.acc[c - 3]
    } else if c < 21 {
        row.addend[c - 12]
    } else if c < 30 {
        row.next[c - 21]
    } else if c < 39 {
        row.carry[c - 30]
    } else {
        match mode {
            RangeCheckMode::Bits => if c < 295 {
                limb_bit(&row.acc, c - 39)
            } else if c < 551 {
                limb_bit(&row.addend, c - 295)
            } else {
                limb_bit(&row.next, c - 551)
            },
            _ => limb_chunk(&row.next, c - 39),
        }
    }
}

/// The rows with padding up to `padded_rows`.
pub open spec fn is_padded(all: Seq<Row>, rows: Seq<Row>, padded_rows: int) -> bool {
    &&& all.len() == padded_rows
    &&& all.take(rows.len() as int) == rows
    &&& forall|i: int| rows.len() <= i < padded_rows ==> (#[trigger] all[i]).is_zero()
}

/// Pads the rows.
pub fn pad_rows(rows: Vec<Row>, padded_rows: usize) -> (r: Vec<Row>)
    requires
        rows@.len() <= padded_rows,
    ensures
        is_padded(r@, rows@, padded_rows as int),
{
    let ghost built = rows@;
    let mut all: Vec<Row> = rows;
    while all.len() < padded_rows
        invariant
            built.len() <= all@.len() <= padded_rows,
            all@.take(built.len() as int) == built,
            forall|i: int| built.len() <= i < all@.len() ==> (#[trigger] all@[i]).is_zero(),
        decreases padded_rows - all.len(),
    {
        let ghost before = all@;
        all.push(Row::zero());
        assert(all@.take(built.len() as int) =~= before.take(built.len() as int));
    }
    all
}

/// The main trace, column by column; the rows given include the padding.
pub fn generate_main_trace(rows: &[Row], mode: RangeCheckMode) -> (cols: Vec<Vec<u32>>)
    ensures
        cols@.len() == (match mode {
            RangeCheckMode::Off => 39int,
            RangeCheckMode::Bits => 807,
            RangeCheckMode::Lookup => 57,
        }),
        forall|c: int| 0 <= c < cols@.len() ==> (#[trigger] cols@[c])@.len() == rows@.len(),
        forall|c: int, i: int|
            0 <= c < cols@.len() && 0 <= i < rows@.len() ==> #[trigger] cols@[c]@[i] == row_cells(
                rows@[i],
                mode,
            )[c],
{
    let n_cols: usize = trace_columns(mode);
    let mut cols: Vec<Vec<u32>> = Vec::new();
    let mut c: usize = 0;
    while c < n_cols
        invariant
            c <= n_cols,
            forall|row: Row| n_cols == (#[trigger] row_cells(row, mode)).len(),
            cols@.len() == c,
            forall|d: int| 0 <= d < c ==> (#[trigger] cols@[d])@.len() == rows@.len(),
            forall|d: int, i: int|
                0 <= d < c && 0 <= i < rows@.len() ==> #[trigger] cols@[d]@[i] == row_cells(
                    rows@[i],
                    mode,
                )[d],
        decreases n_cols - c,
    {
        let mut col: Vec<u32> = Vec::new();
        let mut i: usize = 0;
        while i < rows.len()
            invariant
                i <= rows@.len(),
                c < n_cols,
                forall|row: Row| n_cols == (#[trigger] row_cells(row, mode)).len(),
                col@.len() == i,
                forall|j: int|
                    0 <= j < i ==> #[trigger] col@[j] == row_cells(rows@[j], mode)[c as int],
            decreases rows.len() - i,
        {
            col.push(cell_at(&rows[i], mode, c));
            i += 1;
        }
        cols.push(col);
        c += 1;
    }
    cols
}

/// How often each value of the three range tables is looked up.
pub struct LookupCounts {
    pub seq18: Vec<u32>,
    pub seq11: Vec<u32>,
    pub seq6: Vec<u32>,
}

/// A part of a limb of the sum: of limb `i` the low one, or the high one.
pub open spec fn part(next: Seq<u32>, i: int, high: bool) -> int {
    if high {
        next[i] as int / 0x4_0000
    } else {
        next[i] as int % 0x4_0000
    }
}

/// How many of the parts of limbs `from..to` are `v`.
pub open spec fn part_hits(next: Seq<u32>, high: bool, from: int, to: int, v: int) -> nat
    decreases to - from,
{
    if to <= from {
        0
    } else {
        part_hits(next, high, from, to - 1, v) + (if part(next, to - 1, high) == v {
            1nat
        } else {
            0
        })
    }
}

/// The three range tables: the low parts, the high parts of 29-bit limbs, and the
/// high part of the top limb.
#[derive(Clone, Copy, Debug, PartialEq, Eq, Structural)]
pub enum SeqTable {
    Low,
    High,
    Top,
}

impl SeqTable {
    pub open spec fn is_high(self) -> bool {
        !(self is Low)
    }

    pub open spec fn first(self) -> int {
        if self is Top {
            8
        } else {
            0
        }
    }

    pub open spec fn end(self) -> int {
        if self is High {
            8
        } else {
            9
        }
    }

    /// The exponent of the table's size.
    pub open spec fn log(self) -> u32 {
        match self {
            SeqTable::Low => 18,
            SeqTable::High => 11,
            SeqTable::Top => 6,
        }
    }

    /// How often one row looks up `v`.
    pub open spec fn row_hits(self, next: Seq<u32>, v: int) -> nat {
        part_hits(next, self.is_high(), self.first(), self.end(), v)
    }

    /// How often the first `n` rows look up `v`.
    pub open spec fn hits(self, rows: Seq<Row>, n: nat, v: int) -> nat
        decreases n,
    {
        if n == 0 {
            0
        } else {
            self.hits(rows, (n - 1) as nat, v) + self.row_hits(rows[n - 1].next@, v)
        }
    }
}

proof fn lemma_part_hits_bound(next: Seq<u32>, high: bool, from: int, to: int, v: int)
    requires
        from <= to,
    ensures
        part_hits(next, high, from, to, v) <= to - from,
    decreases to - from,
{
    if from < to {
        lemma_part_hits_bound(next, high, from, to - 1, v);
    }
}

/// Where a part is found at all, some limb has it.
proof fn lemma_part_found(next: Seq<u32>, high: bool, from: int, to: int, v: int) -> (i: int)
    requires
        part_hits(next, high, from, to, v) > 0,
    ensures
        from <= i < to,
        part(next, i, high) == v,
    decreases to - from,
{
    if part(next, to - 1, high) == v {
        to - 1
    } else {
        lemma_part_found(next, high, from, to - 1, v)
    }
}

/// One row looks up a value at most nine times in the table of low parts, eight
/// times in that of high parts, and once in that of the top limb.
pub proof fn lemma_row_hits_bound(t: SeqTable, next: Seq<u32>, v: int)
    ensures
        t.row_hits(next, v) <= t.end() - t.first(),
{
    lemma_part_hits_bound(next, t.is_high(), t.first(), t.end(), v);
}

/// So do `n` rows, `n` times as often.
pub proof fn lemma_hits_bound(t: SeqTable, rows: Seq<Row>, n: nat, v: int)
    ensures
        t.hits(rows, n, v) <= (t.end() - t.first()) * n,
    decreases n,
{
    let w = t.end() - t.first();
    if n > 0 {
        lemma_hits_bound(t, rows, (n - 1) as nat, v);
        lemma_row_hits_bound(t, rows[n - 1].next@, v);
        assert(w * (n - 1) + w == w * n) by (nonlinear_arith);
    } else {
        assert(w * n == 0) by (nonlinear_arith)
            requires
                n == 0,
        ;
    }
}

/// More rows look a value up no less often.
proof fn lemma_hits_grow(t: SeqTable, rows: Seq<Row>, m: nat, n: nat, v: int)
    requires
        m <= n,
    ensures
        t.hits(rows, m, v) <= t.hits(rows, n, v),
    decreases n,
{
    if m < n {
        lemma_hits_grow(t, rows, m, (n - 1) as nat, v);
    }
}

/// A counter of 32 bits holds how often the rows look each value up.
pub open spec fn counters_fit(rows: Seq<Row>) -> bool {
    forall|t: SeqTable, v: int|
        0 <= v < pow2(t.log() as nat) ==> #[trigger] t.hits(rows, rows.len(), v) <= u32::MAX
}

/// `counts` holds what the first `n` rows look up in a table.
pub open spec fn counts_hits(counts: Seq<u32>, t: SeqTable, rows: Seq<Row>, n: nat) -> bool {
    &&& counts.len() == pow2(t.log() as nat)
    &&& forall|v: int| 0 <= v < counts.len() ==> #[trigger] counts[v] == t.hits(rows, n, v)
}

/// `counts` holds `before` and what the first limbs (up to `to`) of one row add.
pub open spec fn counts_more(counts: Seq<u32>, before: Seq<u32>, t: SeqTable, next: Seq<u32>, to: int) -> bool {
    &&& counts.len() == before.len()
    &&& forall|v: int|
        0 <= v < counts.len() ==> #[trigger] counts[v] == before[v] + part_hits(
            next,
            t.is_high(),
            t.first(),
            to,
            v,
        )
}

/// A column of counters that can take what one row adds to it.
spec fn room_in(counts: Seq<u32>, t: SeqTable, next: Seq<u32>) -> bool {
    forall|v: int|
        0 <= v < pow2(t.log() as nat) ==> #[trigger] counts[v] + t.row_hits(next, v) <= u32::MAX
}

/// The part of limb `i` is not yet counted among those of the limbs before it.
proof fn lemma_part_counted(next: Seq<u32>, high: bool, from: int, i: int, to: int)
    requires
        from <= i < to,
    ensures
        part_hits(next, high, from, i, part(next, i, high)) < part_hits(
            next,
            high,
            from,
            to,
            part(next, i, high),
        ),
    decreases to - i,
{
    if i + 1 < to {
        lemma_part_counted(next, high, from, i, to - 1);
    }
}

/// Counts the parts of limbs `from..to` that are `v`.
fn count_part(next: &[u32; LIMBS], high: bool, from: usize, to: usize, v: u32) -> (r: u32)
    requires
        from <= to <= LIMBS,
    ensures
        r == part_hits(next@, high, from as int, to as int, v as int),
{
    let mut n: u32 = 0;
    let mut i: usize = from;
    while i < to
        invariant
            from <= i <= to <= LIMBS,
            n <= i - from,
            n == part_hits(next@, high, from as int, i as int, v as int),
        decreases to - i,
    {
        let p: u32 = if high {
            next[i] / 0x4_0000
        } else {
            next[i] % 0x4_0000
        };
        if p == v {
            n += 1;
        }
        i += 1;
    }
    n
}

impl LookupCounts {
    pub open spec fn sized(&self) -> bool {
        &&& self.seq18@.len() == pow2(18)
        &&& self.seq11@.len() == pow2(11)
        &&& self.seq6@.len() == pow2(6)
    }

    pub open spec fn of(self, t: SeqTable) -> Seq<u32> {
        match t {
            SeqTable::Low => self.seq18@,
            SeqTable::High => self.seq11@,
            SeqTable::Top => self.seq6@,
        }
    }

    /// What the first `n` rows look up.
    pub open spec fn counts(&self, rows: Seq<Row>, n: nat) -> bool {
        &&& counts_hits(self.seq18@, SeqTable::Low, rows, n)
        &&& counts_hits(self.seq11@, SeqTable::High, rows, n)
        &&& counts_hits(self.seq6@, SeqTable::Top, rows, n)
    }

    /// Nothing is counted.
    pub open spec fn is_new(&self) -> bool {
        &&& self.sized()
        &&& forall|v: int| 0 <= v < self.seq18@.len() ==> #[trigger] self.seq18@[v] == 0
        &&& forall|v: int| 0 <= v < self.seq11@.len() ==> #[trigger] self.seq11@[v] == 0
        &&& forall|v: int| 0 <= v < self.seq6@.len() ==> #[trigger] self.seq6@[v] == 0
    }

    /// The counts of `before`, and one sum more.
    pub open spec fn counts_one_more(&self, before: &LookupCounts, next: Seq<u32>) -> bool {
        &&& self.sized()
        &&& forall|v: int|
            0 <= v < pow2(18) ==> #[trigger] self.seq18@[v] == before.seq18@[v]
                + SeqTable::Low.row_hits(next, v)
        &&& forall|v: int|
            0 <= v < pow2(11) ==> #[trigger] self.seq11@[v] == before.seq11@[v]
                + SeqTable::High.row_hits(next, v)
        &&& forall|v: int|
            0 <= v < pow2(6) ==> #[trigger] self.seq6@[v] == before.seq6@[v] + SeqTable::Top.row_hits(
                next,
                v,
            )
    }

    pub fn new() -> (r: LookupCounts)
        ensures
            r.is_new(),
    {
        proof {
            lemma2_to64();
        }
        LookupCounts {
            seq18: vec![0u32; 0x4_0000],
            seq11: vec![0u32; 0x800],
            seq6: vec![0u32; 0x40],
        }
    }

    /// Counting one more row leaves every counter within its 32 bits.
    pub open spec fn has_room_for(&self, next: Seq<u32>) -> bool {
        forall|t: SeqTable, v: int|
            0 <= v < pow2(t.log() as nat) ==> #[trigger] self.of(t)[v] + t.row_hits(next, v) <= u32::MAX
    }

    /// Whether one more row can be counted.
    pub fn has_room(&self, next: &[u32; LIMBS]) -> (r: bool)
        requires
            self.sized(),
            canonical(next@),
        ensures
            r == self.has_room_for(next@),
    {
        let mut i: usize = 0;
        while i < LIMBS
            invariant
                i <= LIMBS,
                self.sized(),
                canonical(next@),
                forall|t: SeqTable, j: int|
                    t.first() <= j < t.end() && j < i ==> #[trigger] self.part_fits(t, next@, j),
            decreases LIMBS - i,
        {
            let (lo, hi) = split_lookup_chunks(i, next[i]);
            proof {
                lemma2_to64();
                assert(next@[i as int] < base_of(i as int));
            }
            let low: u32 = count_part(next, false, 0, LIMBS, lo);
            if low > u32::MAX - self.seq18[lo as usize] {
                proof {
                    let t = SeqTable::Low;
                    assert(self.of(t)[lo as int] + t.row_hits(next@, lo as int) > u32::MAX);
                }
                return false;
            }
            assert(self.part_fits(SeqTable::Low, next@, i as int));
            if i + 1 == LIMBS {
                let top: u32 = count_part(next, true, 8, LIMBS, hi);
                if top > u32::MAX - self.seq6[hi as usize] {
                    proof {
                        let t = SeqTable::Top;
                        assert(self.of(t)[hi as int] + t.row_hits(next@, hi as int) > u32::MAX);
                    }
                    return false;
                }
                assert(self.part_fits(SeqTable::Top, next@, i as int));
            } else {
                let high: u32 = count_part(next, true, 0, 8, hi);
                if high > u32::MAX - self.seq11[hi as usize] {
                    proof {
                        let t = SeqTable::High;
                        assert(self.of(t)[hi as int] + t.row_hits(next@, hi as int) > u32::MAX);
                    }
                    return false;
                }
                assert(self.part_fits(SeqTable::High, next@, i as int));
            }
            i += 1;
        }
        proof {
            assert forall|t: SeqTable, v: int| 0 <= v < pow2(t.log() as nat) implies #[trigger] self.of(t)[v]
                + t.row_hits(next@, v) <= u32::MAX by {
                if t.row_hits(next@, v) > 0 {
                    let j = lemma_part_found(next@, t.is_high(), t.first(), t.end(), v);
                    assert(self.part_fits(t, next@, j));
                }
            }
        }
        true
    }

    /// The counter of the part of limb `j` can take what a row adds to it.
    spec fn part_fits(&self, t: SeqTable, next: Seq<u32>, j: int) -> bool {
        let v = part(next, j, t.is_high());
        self.of(t)[v] + t.row_hits(next, v) <= u32::MAX
    }

    /// Counts the parts of the limbs of one sum.
    pub fn add_next_limbs(&mut self, next: &[u32; LIMBS])
        requires
            old(self).sized(),
            canonical(next@),
            old(self).has_room_for(next@),
        ensures
            final(self).counts_one_more(old(self), next@),
    {
        let ghost (b18, b11, b6) = (self.seq18@, self.seq11@, self.seq6@);
        proof {
            assert forall|v: int| 0 <= v < pow2(18) implies #[trigger] b18[v] + SeqTable::Low.row_hits(
                next@,
                v,
            ) <= u32::MAX by {
                assert(old(self).of(SeqTable::Low)[v] == b18[v]);
            }
            assert forall|v: int| 0 <= v < pow2(11) implies #[trigger] b11[v] + SeqTable::High.row_hits(
                next@,
                v,
            ) <= u32::MAX by {
                assert(old(self).of(SeqTable::High)[v] == b11[v]);
            }
            assert forall|v: int| 0 <= v < pow2(6) implies #[trigger] b6[v] + SeqTable::Top.row_hits(
                next@,
                v,
            ) <= u32::MAX by {
                assert(old(self).of(SeqTable::Top)[v] == b6[v]);
            }
        }
        let mut i: usize = 0;
        while i < LIMBS
            invariant
                i <= LIMBS,
                self.sized(),
                canonical(next@),
                b18.len() == pow2(18) && b11.len() == pow2(11) && b6.len() == pow2(6),
                room_in(b18, SeqTable::Low, next@),
                room_in(b11, SeqTable::High, next@),
                room_in(b6, SeqTable::Top, next@),
                counts_more(self.seq18@, b18, SeqTable::Low, next@, i as int),
                counts_more(
                    self.seq11@,
                    b11,
                    SeqTable::High,
                    next@,
                    if i < 8 {
                        i as int
                    } else {
                        8
                    },
                ),
                counts_more(
                    self.seq6@,
                    b6,
                    SeqTable::Top,
                    next@,
                    if i < 8 {
                        8
                    } else {
                        i as int
                    },
                ),
            decreases LIMBS - i,
        {
            let (lo, hi) = split_lookup_chunks(i, next[i]);
            proof {
                lemma2_to64();
                assert(next@[i as int] < base_of(i as int));
                lemma_part_counted(next@, false, 0, i as int, 9);
                if i < 8 {
                    lemma_part_counted(next@, true, 0, i as int, 8);
                } else {
                    lemma_part_counted(next@, true, 8, i as int, 9);
                }
                assert(self.seq18@[lo as int] == b18[lo as int] + part_hits(
                    next@,
                    false,
                    0,
                    i as int,
                    lo as int,
                ));
                assert(b18[lo as int] + SeqTable::Low.row_hits(next@, lo as int) <= u32::MAX);
            }
            let m: u32 = self.seq18[lo as usize];
            self.seq18.set(lo as usize, m + 1);
            if i + 1 == LIMBS {
                assert(self.seq6@[hi as int] == b6[hi as int] + part_hits(next@, true, 8, 8, hi as int));
                assert(b6[hi as int] + SeqTable::Top.row_hits(next@, hi as int) <= u32::MAX);
                let m: u32 = self.seq6[hi as usize];
                self.seq6.set(hi as usize, m + 1);
            } else {
                assert(self.seq11@[hi as int] == b11[hi as int] + part_hits(
                    next@,
                    true,
                    0,
                    i as int,
                    hi as int,
                ));
                assert(b11[hi as int] + SeqTable::High.row_hits(next@, hi as int) <= u32::MAX);
                let m: u32 = self.seq11[hi as usize];
                self.seq11.set(hi as usize, m + 1);
            }
            i += 1;
        }
    }
}

/// As many rows as can be counted whatever they look up: `u32::MAX / 9`.
const ROWS_COUNTED: usize = 477_218_588;

/// Counts what all rows look up; `None` where a counter of 32 bits is too small.
pub fn count_rows(rows: &[Row]) -> (r: Option<LookupCounts>)
    requires
        forall|i: int| 0 <= i < rows@.len() ==> canonical((#[trigger] rows@[i]).next@),
    ensures
        r is Some <==> counters_fit(rows@),
        r matches Some(c) ==> c.sized() && c.counts(rows@, rows@.len()),
{
    let mut counts: LookupCounts = LookupCounts::new();
    let mut n: usize = 0;
    while n < rows.len()
        invariant
            n <= rows@.len(),
            forall|i: int| 0 <= i < rows@.len() ==> canonical((#[trigger] rows@[i]).next@),
            counts.sized(),
            counts.counts(rows@, n as nat),
        decreases rows.len() - n,
    {
        let ghost next = rows@[n as int].next@;
        assert(canonical(next));
        if n >= ROWS_COUNTED && !counts.has_room(&rows[n].next) {
            proof {
                let (t, v) = choose|t: SeqTable, v: int|
                    0 <= v < pow2(t.log() as nat) && !(#[trigger] counts.of(t)[v] + t.row_hits(next, v)
                        <= u32::MAX);
                lemma_counted(&counts, rows@, n as nat, t, v);
                lemma_hits_grow(t, rows@, n as nat + 1, rows@.len(), v);
                assert(t.hits(rows@, rows@.len(), v) > u32::MAX);
            }
            return None;
        }
        proof {
            assert forall|t: SeqTable, v: int| 0 <= v < pow2(t.log() as nat) implies #[trigger] counts.of(t)[v]
                + t.row_hits(next, v) <= u32::MAX by {
                lemma_counted(&counts, rows@, n as nat, t, v);
                lemma_hits_bound(t, rows@, n as nat + 1, v);
                if n < ROWS_COUNTED {
                    assert((t.end() - t.first()) * (n + 1) <= 9 * (n + 1)) by (nonlinear_arith)
                        requires
                            t.end() - t.first() <= 9,
                            n >= 0,
                    ;
                }
            }
        }
        counts.add_next_limbs(&rows[n].next);
        n += 1;
    }
    proof {
        assert forall|t: SeqTable, v: int| 0 <= v < pow2(t.log() as nat) implies #[trigger] t.hits(
            rows@,
            rows@.len(),
            v,
        ) <= u32::MAX by {
            lemma_counted(&counts, rows@, rows@.len(), t, v);
        }
    }
    Some(counts)
}

proof fn lemma_counted(counts: &LookupCounts, rows: Seq<Row>, n: nat, t: SeqTable, v: int)
    requires
        counts.counts(rows, n),
        0 <= v < pow2(t.log() as nat),
    ensures
        counts.of(t)[v] == t.hits(rows, n, v),
{
}

} // verus!
