//! A proof of repeated addition from end to end: its trace, its claims, and the
//! comparison with a reversible circuit that adds.
use vstd::arithmetic::power2::pow2;
use vstd::prelude::*;
use vstd::string::StringSliceAdditionalSpecFns;

use crate::field::{Ext, QM31};
use crate::iadd::{
    expected_digits, low_register, low_register_from_state_hex, IaddCase, RangeCheckMode,
    StateError, LOOKUP_SEQ18_LOG_SIZE,
};
use crate::iadd_balance::{expected_main, lemma_main_claim};
use crate::iadd_limbs::{canonical, lemma_limbs_of, limbs_of};
use crate::iadd_lookups::{
    batch_den_nonzero, batch_fraction, batches, gen_main_interaction_trace,
    gen_seq_lookup_interaction_trace, main_defined, row_small, seq_defined, seq_dens_nonzero, seq_value, IaddElements,
    RangeClaims,
};
use crate::iadd_rows::{
    build_rows, count_rows, counters_fit, generate_main_trace, is_padded, lemma_after_range,
    lemma_row_hits_bound, pad_rows, row_cells, rows_add, LookupCounts, Row, SeqTable,
};
use crate::logup::{Fraction, Relation};
use crate::shard::copy_of;
use crate::numbers::{big_equal, digits_value};

verus! {

/// Runs of the circuit up to which its repeated output is compared too.
pub const KMX_REPEAT_CHECK_LIMIT: usize = 16;

/// The exponent of the largest column.
pub fn max_log_size(log_n_rows: u32, mode: RangeCheckMode) -> (r: u32)
    ensures
        r == (if mode is Lookup && log_n_rows < LOOKUP_SEQ18_LOG_SIZE {
            LOOKUP_SEQ18_LOG_SIZE
        } else {
            log_n_rows
        }),
{
    if mode == RangeCheckMode::Lookup && log_n_rows < LOOKUP_SEQ18_LOG_SIZE {
        LOOKUP_SEQ18_LOG_SIZE
    } else {
        log_n_rows
    }
}

/// The cells of the main trace, and the bytes that they take.
pub fn trace_size(padded_rows: usize, columns: usize) -> (r: (u64, u64))
    requires
        padded_rows * columns * 4 <= u64::MAX,
    ensures
        r.0 == padded_rows * columns,
        r.1 == padded_rows * columns * 4,
{
    let cells: u64 = padded_rows as u64 * columns as u64;
    (cells, cells * 4)
}

/// Everything about a proof that is fixed before the challenges are drawn.
pub struct IaddTrace {
    /// The rows, padding included.
    pub rows: Vec<Row>,
    pub n_rows: usize,
    /// What the rows look up in the range tables, if they do.
    pub counts: Option<LookupCounts>,
}

/// How often the first `n` sums look up `v`; sum `i` is that of addition `i % k` of
/// test vector `i / k`.
pub open spec fn sum_hits(t: SeqTable, cases: Seq<IaddCase>, k: nat, n: nat, v: int) -> nat
    decreases n,
{
    if n == 0 {
        0
    } else {
        let i = n - 1;
        sum_hits(t, cases, k, (n - 1) as nat, v) + t.row_hits(
            limbs_of(cases[i / k as int].after(i % k as int + 1)),
            v,
        )
    }
}

/// A counter of 32 bits holds how often the sums look each value up.
pub open spec fn sums_fit(cases: Seq<IaddCase>, k: nat) -> bool {
    forall|t: SeqTable, v: int|
        0 <= v < pow2(t.log() as nat) ==> #[trigger] sum_hits(t, cases, k, cases.len() * k, v) <= u32::MAX
}

proof fn lemma_sum_hits(t: SeqTable, rows: Seq<Row>, cases: Seq<IaddCase>, k: nat, n: nat, v: int)
    requires
        rows_add(rows, cases, k as int),
        n <= rows.len(),
    ensures
        t.hits(rows, n, v) == sum_hits(t, cases, k, n, v),
    decreases n,
{
    if n > 0 {
        lemma_sum_hits(t, rows, cases, k, (n - 1) as nat, v);
        assert(rows[n - 1].adds(cases[(n - 1) / k as int], (n - 1) / k as int, (n - 1) % k as int));
    }
}

/// The counters hold what the sums look up where they hold what the rows do.
proof fn lemma_sums_fit(rows: Seq<Row>, cases: Seq<IaddCase>, k: nat)
    requires
        rows_add(rows, cases, k as int),
        rows.len() == cases.len() * k,
    ensures
        counters_fit(rows) <==> sums_fit(cases, k),
{
    assert forall|t: SeqTable, v: int| #[trigger] t.hits(rows, rows.len(), v) == sum_hits(
        t,
        cases,
        k,
        cases.len() * k,
        v,
    ) by {
        lemma_sum_hits(t, rows, cases, k, rows.len(), v);
    }
    if counters_fit(rows) {
        assert forall|t: SeqTable, v: int| 0 <= v < pow2(t.log() as nat) implies #[trigger] sum_hits(
            t,
            cases,
            k,
            cases.len() * k,
            v,
        ) <= u32::MAX by {
            assert(t.hits(rows, rows.len(), v) <= u32::MAX);
        }
    }
}

/// Up to `u32::MAX / 9` sums can be counted whatever they are.
pub proof fn lemma_few_sums_fit(cases: Seq<IaddCase>, k: nat)
    requires
        9 * (cases.len() * k) <= u32::MAX,
    ensures
        sums_fit(cases, k),
{
    assert forall|t: SeqTable, v: int| 0 <= v < pow2(t.log() as nat) implies #[trigger] sum_hits(
        t,
        cases,
        k,
        cases.len() * k,
        v,
    ) <= u32::MAX by {
        lemma_sum_hits_bound(t, cases, k, cases.len() * k, v);
    }
}

proof fn lemma_sum_hits_bound(t: SeqTable, cases: Seq<IaddCase>, k: nat, n: nat, v: int)
    ensures
        sum_hits(t, cases, k, n, v) <= 9 * n,
    decreases n,
{
    if n > 0 {
        lemma_sum_hits_bound(t, cases, k, (n - 1) as nat, v);
        let i = n - 1;
        lemma_row_hits_bound(t, limbs_of(cases[i / k as int].after(i % k as int + 1)), v);
    }
}

impl IaddTrace {
    pub open spec fn real_rows(&self) -> Seq<Row> {
        self.rows@.take(self.n_rows as int)
    }

    /// The trace of the given test vectors.
    pub open spec fn of(&self, cases: Seq<IaddCase>, k: nat, mode: RangeCheckMode) -> bool {
        &&& self.n_rows == cases.len() * k
        &&& self.n_rows <= self.rows@.len()
        &&& rows_add(self.real_rows(), cases, k as int)
        &&& is_padded(self.rows@, self.real_rows(), self.rows@.len() as int)
        &&& self.counts is Some <==> mode is Lookup
        &&& self.counts matches Some(c) ==> c.sized() && c.counts(
            self.real_rows(),
            self.real_rows().len(),
        )
    }

    /// Adds and pads; counts the range lookups where there are any. `None` where a
    /// counter of 32 bits is too small for them.
    pub fn build(cases: &[IaddCase], repetitions: usize, padded_rows: usize, mode: RangeCheckMode) -> (r:
        Option<IaddTrace>)
        requires
            0 < repetitions < u32::MAX,
            cases@.len() <= u32::MAX,
            cases@.len() * repetitions <= padded_rows,
        ensures
            r is Some <==> (mode is Lookup ==> sums_fit(cases@, repetitions as nat)),
            r matches Some(t) ==> t.of(cases@, repetitions as nat, mode) && t.rows@.len() == padded_rows,
    {
        let real_rows: Vec<Row> = build_rows(cases, repetitions);
        let n_rows: usize = real_rows.len();
        let ghost built = real_rows@;
        proof {
            lemma_sums_canonical(built, cases@, repetitions as int);
            lemma_sums_fit(built, cases@, repetitions as nat);
        }
        let counts: Option<LookupCounts> = if mode == RangeCheckMode::Lookup {
            match count_rows(real_rows.as_slice()) {
                Some(c) => Some(c),
                None => {
                    return None;
                },
            }
        } else {
            None
        };
        let rows: Vec<Row> = pad_rows(real_rows, padded_rows);
        let t = IaddTrace { rows, n_rows, counts };
        assert(t.real_rows() == built);
        Some(t)
    }

    /// The hidden columns: those of the main trace, then the counts of the range tables.
    pub open spec fn are_hidden_columns(&self, r: Seq<Vec<u32>>, mode: RangeCheckMode) -> bool {
        &&& r.len() == (match mode {
            RangeCheckMode::Off => 39int,
            RangeCheckMode::Bits => 807,
            RangeCheckMode::Lookup => 60,
        })
        &&& forall|c: int|
            0 <= c < r.len() && (mode is Lookup ==> c < 57) ==> (#[trigger] r[c])@ == Seq::new(
                self.rows@.len(),
                |i: int| row_cells(self.rows@[i], mode)[c],
            )
        &&& mode is Lookup ==> {
            let n = self.counts->Some_0;
            &&& r[57]@ == n.seq18@
            &&& r[58]@ == n.seq11@
            &&& r[59]@ == n.seq6@
        }
    }

    /// The hidden columns in the order in which they are committed: those of the
    /// main trace, then the counts of the range tables.
    pub fn tree1_columns(&self, mode: RangeCheckMode) -> (r: Vec<Vec<u32>>)
        requires
            self.counts is Some <==> mode is Lookup,
        ensures
            self.are_hidden_columns(r@, mode),
    {
        let mut cols: Vec<Vec<u32>> = generate_main_trace(self.rows.as_slice(), mode);
        proof {
            assert forall|c: int| 0 <= c < cols@.len() implies (#[trigger] cols@[c])@ == Seq::new(
                self.rows@.len(),
                |i: int| row_cells(self.rows@[i], mode)[c],
            ) by {
                assert forall|i: int| 0 <= i < self.rows@.len() implies #[trigger] cols@[c]@[i]
                    == row_cells(self.rows@[i], mode)[c] by {}
                assert(cols@[c]@ =~= Seq::new(
                    self.rows@.len(),
                    |i: int| row_cells(self.rows@[i], mode)[c],
                ));
            }
        }
        if let Some(n) = &self.counts {
            cols.push(copy_of(&n.seq18));
            cols.push(copy_of(&n.seq11));
            cols.push(copy_of(&n.seq6));
        }
        cols
    }

    /// The challenges leave no denominator zero.
    pub open spec fn dens_nonzero(&self, mode: RangeCheckMode, el: &IaddElements) -> bool {
        &&& forall|i: int, b: int|
            0 <= i < self.rows@.len() && 0 <= b < batches(mode) ==> #[trigger] batch_den_nonzero(
                el,
                self.rows@[i],
                b,
            )
        &&& mode is Lookup ==> {
            &&& seq_dens_nonzero(&el.ranges->Some_0.seq18, self.counts->Some_0.seq18@)
            &&& seq_dens_nonzero(&el.ranges->Some_0.seq11, self.counts->Some_0.seq11@)
            &&& seq_dens_nonzero(&el.ranges->Some_0.seq6, self.counts->Some_0.seq6@)
        }
    }

    /// Whether the challenges leave no denominator zero.
    pub fn defined_under(
        &self,
        cases: &[IaddCase],
        repetitions: usize,
        mode: RangeCheckMode,
        el: &IaddElements,
    ) -> (r: bool)
        requires
            el.wf(),
            el.ranges is Some <==> mode is Lookup,
            0 < repetitions < u32::MAX,
            self.of(cases@, repetitions as nat, mode),
        ensures
            r == self.dens_nonzero(mode, el),
    {
        proof {
            lemma_rows_small(self, cases@, repetitions as nat, mode);
            vstd::arithmetic::power2::lemma2_to64();
        }
        if !main_defined(self.rows.as_slice(), el, mode) {
            return false;
        }
        match (&self.counts, &el.ranges) {
            (Some(n), Some(g)) => seq_defined(&g.seq18, n.seq18.as_slice()) && seq_defined(
                &g.seq11,
                n.seq11.as_slice(),
            ) && seq_defined(&g.seq6, n.seq6.as_slice()),
            _ => true,
        }
    }

    /// The interaction columns under the drawn challenges and what they claim:
    /// the main trace what the test vectors show and the range lookups are worth,
    /// each range table minus its lookups.
    pub fn interact(
        &self,
        cases: &[IaddCase],
        repetitions: usize,
        mode: RangeCheckMode,
        el: &IaddElements,
    ) -> (r: IaddInteraction)
        requires
            el.wf(),
            el.ranges is Some <==> mode is Lookup,
            0 < repetitions < u32::MAX,
            self.of(cases@, repetitions as nat, mode),
            forall|s: int|
                0 <= s < cases@.len() ==> low_register((#[trigger] cases@[s]).y_hex@) == Ok::<
                    nat,
                    StateError,
                >(cases@[s].after(repetitions as int) as nat),
            self.dens_nonzero(mode, el),
        ensures
            r.fills(self, mode, el),
            r.main_claim.wf(),
            r.main_claim@ == expected_main(el, cases@, repetitions as int, mode, self.counts),
            r.range_claims is Some <==> mode is Lookup,
            r.range_claims matches Some(c) ==> {
                let g = el.ranges->Some_0;
                let n = self.counts->Some_0;
                &&& c.seq18@ == -seq_value(&g.seq18, n.seq18@)
                &&& c.seq11@ == -seq_value(&g.seq11, n.seq11@)
                &&& c.seq6@ == -seq_value(&g.seq6, n.seq6@)
            },
    {
        proof {
            lemma_rows_small(self, cases@, repetitions as nat, mode);
        }
        let (main, main_claim) = gen_main_interaction_trace(self.rows.as_slice(), el, mode);
        proof {
            lemma_main_claim(
                el,
                self.rows@,
                self.real_rows(),
                self.rows@.len() as int,
                cases@,
                repetitions as nat,
                mode,
                self.counts,
            );
            vstd::arithmetic::power2::lemma2_to64();
        }
        match (&self.counts, &el.ranges) {
            (Some(n), Some(g)) => {
                let (seq18, s18) = gen_seq_lookup_interaction_trace(&g.seq18, n.seq18.as_slice());
                let (seq11, s11) = gen_seq_lookup_interaction_trace(&g.seq11, n.seq11.as_slice());
                let (seq6, s6) = gen_seq_lookup_interaction_trace(&g.seq6, n.seq6.as_slice());
                IaddInteraction {
                    main,
                    main_claim,
                    ranges: vec![seq18, seq11, seq6],
                    range_claims: Some(RangeClaims { seq18: s18, seq11: s11, seq6: s6 }),
                }
            },
            _ => IaddInteraction { main, main_claim, ranges: Vec::new(), range_claims: None },
        }
    }
}

/// The interaction columns, as fractions, and the claims.
pub struct IaddInteraction {
    pub main: Vec<Vec<Fraction>>,
    pub main_claim: QM31,
    pub ranges: Vec<Vec<Fraction>>,
    pub range_claims: Option<RangeClaims>,
}

/// The public columns: the values of the three range tables, where there are any.
pub open spec fn are_range_columns(r: Seq<Vec<u32>>, mode: RangeCheckMode) -> bool {
    if mode is Lookup {
        &&& r.len() == 3
        &&& counts_up(r[0]@, 0x4_0000)
        &&& counts_up(r[1]@, 0x800)
        &&& counts_up(r[2]@, 0x40)
    } else {
        r.len() == 0
    }
}

/// The public columns: in lookup mode the values of the range tables.
pub fn tree0_columns(mode: RangeCheckMode) -> (r: Vec<Vec<u32>>)
    ensures
        are_range_columns(r@, mode),
{
    if mode == RangeCheckMode::Lookup {
        vec![values_below(0x4_0000), values_below(0x800), values_below(0x40)]
    } else {
        Vec::new()
    }
}

/// The numbers below `n`, in order.
pub open spec fn counts_up(s: Seq<u32>, n: int) -> bool {
    s.len() == n && forall|i: int| 0 <= i < n ==> #[trigger] s[i] == i
}

fn values_below(n: u32) -> (r: Vec<u32>)
    ensures
        counts_up(r@, n as int),
{
    let mut r: Vec<u32> = Vec::new();
    let mut i: u32 = 0;
    while i < n
        invariant
            i <= n,
            counts_up(r@, i as int),
        decreases n - i,
    {
        r.push(i);
        i += 1;
    }
    r
}

/// A column holds what a range table supplies: minus the count of each value.
pub open spec fn supplies_values(col: Seq<Fraction>, rel: &Relation, counts: Seq<u32>) -> bool {
    &&& col.len() == counts.len()
    &&& forall|v: int|
        0 <= v < counts.len() ==> (#[trigger] col[v]).num@ == Ext::base(-counts[v]) && col[v].den@
            == rel.den(seq![v as u32]) && col[v].wf()
}

impl IaddInteraction {
    /// The columns hold the lookups of the main trace and of the range tables.
    pub open spec fn fills(&self, t: &IaddTrace, mode: RangeCheckMode, el: &IaddElements) -> bool {
        &&& self.main@.len() == batches(mode)
        &&& forall|b: int|
            0 <= b < batches(mode) ==> (#[trigger] self.main@[b])@.len() == t.rows@.len()
        &&& forall|b: int, i: int|
            0 <= b < batches(mode) && 0 <= i < t.rows@.len() ==> batch_fraction(
                el,
                t.rows@[i],
                b,
                #[trigger] self.main@[b]@[i],
            )
        &&& if mode is Lookup {
            let g = el.ranges->Some_0;
            let n = t.counts->Some_0;
            &&& self.ranges@.len() == 3
            &&& supplies_values(self.ranges@[0]@, &g.seq18, n.seq18@)
            &&& supplies_values(self.ranges@[1]@, &g.seq11, n.seq11@)
            &&& supplies_values(self.ranges@[2]@, &g.seq6, n.seq6@)
        } else {
            self.ranges@.len() == 0
        }
    }
}

proof fn lemma_sums_canonical(rows: Seq<Row>, cases: Seq<IaddCase>, k: int)
    requires
        0 < k,
        rows_add(rows, cases, k),
    ensures
        forall|i: int| 0 <= i < rows.len() ==> canonical((#[trigger] rows[i]).next@),
{
    assert forall|i: int| 0 <= i < rows.len() implies canonical((#[trigger] rows[i]).next@) by {
        vstd::arithmetic::div_mod::lemma_mod_bound(i, k);
        let (s, j) = (i / k, i % k);
        assert(rows[i].adds(cases[s], s, j));
        lemma_after_range(cases[s], j + 1);
        lemma_limbs_of(cases[s].after(j + 1));
    }
}

proof fn lemma_rows_small(t: &IaddTrace, cases: Seq<IaddCase>, k: nat, mode: RangeCheckMode)
    requires
        0 < k < u32::MAX,
        t.of(cases, k, mode),
    ensures
        forall|i: int| 0 <= i < t.rows@.len() ==> row_small(#[trigger] t.rows@[i]),
{
    assert forall|i: int| 0 <= i < t.rows@.len() implies row_small(#[trigger] t.rows@[i]) by {
        if i < t.n_rows {
            vstd::arithmetic::div_mod::lemma_mod_bound(i, k as int);
            assert(t.real_rows()[i].adds(cases[i / k as int], i / k as int, i % k as int));
        } else {
            assert(t.rows@[i].is_zero());
        }
    }
}

/// Why a reversible circuit does not add as the test vectors do.
#[derive(Clone, Copy, Debug, PartialEq, Eq, Structural)]
pub enum KmxError {
    /// It has fewer than two registers.
    Registers { got: usize },
    /// Its first two registers do not have 256 bits.
    Widths { r0: usize, r1: usize },
    /// It does not add once.
    OneStep { sample: usize },
    OneStepAddend { sample: usize },
    /// The final state of a test vector cannot be read.
    State { sample: usize, error: StateError },
    /// It does not add repeatedly.
    Repeated { sample: usize },
    RepeatedAddend { sample: usize },
}

/// The circuit must have two registers of 256 bits.
pub fn check_kmx_registers(widths: &[usize]) -> (r: Result<(), KmxError>)
    ensures
        r == (if widths@.len() < 2 {
            Err::<(), KmxError>(KmxError::Registers { got: widths@.len() as usize })
        } else if widths@[0] != 256 || widths@[1] != 256 {
            Err(KmxError::Widths { r0: widths@[0], r1: widths@[1] })
        } else {
            Ok(())
        }),
{
    if widths.len() < 2 {
        return Err(KmxError::Registers { got: widths.len() });
    }
    if widths[0] != 256 || widths[1] != 256 {
        return Err(KmxError::Widths { r0: widths[0], r1: widths[1] });
    }
    Ok(())
}

/// How many of `n` test vectors are compared, and how many of them repeatedly.
pub open spec fn compared(limit: usize, n: usize, repetitions: usize) -> (usize, usize) {
    let once = if limit < n {
        limit
    } else {
        n
    };
    (
        once,
        if repetitions <= KMX_REPEAT_CHECK_LIMIT {
            once
        } else {
            0
        },
    )
}

/// How many test vectors are compared, and how many of them repeatedly.
pub fn kmx_checks(sample_limit: usize, n_cases: usize, repetitions: usize) -> (r: (usize, usize))
    ensures
        r.0 == (if sample_limit < n_cases {
            sample_limit
        } else {
            n_cases
        }),
        r.1 == (if repetitions <= KMX_REPEAT_CHECK_LIMIT {
            r.0
        } else {
            0
        }),
        r == compared(sample_limit, n_cases, repetitions),
{
    let checked: usize = if sample_limit < n_cases { sample_limit } else { n_cases };
    (
        checked,
        if repetitions <= KMX_REPEAT_CHECK_LIMIT {
            checked
        } else {
            0
        },
    )
}

/// The eight bytes of a number, lowest byte first.
pub open spec fn le_bytes(n: u64) -> Seq<u8> {
    Seq::new(8, |i: int| (n as int / pow2((8 * i) as nat) as int % 256) as u8)
}

/// The seed of a circuit's randomness.
pub open spec fn seed_of(sample: u64, repetitions: u64) -> Seq<u8> {
    "native-iadd-air kmx equivalence".spec_bytes() + le_bytes(sample) + le_bytes(repetitions)
}

/// What the circuit seeds its randomness with: a label, the sample and the number
/// of runs.
pub fn kmx_seed(sample: u64, repetitions: u64) -> (r: Vec<u8>)
    ensures
        r@ == seed_of(sample, repetitions),
{
    let label: &[u8] = "native-iadd-air kmx equivalence".as_bytes();
    let mut r: Vec<u8> = Vec::new();
    let mut i: usize = 0;
    while i < label.len()
        invariant
            i <= label@.len(),
            r@ == label@.take(i as int),
        decreases label.len() - i,
    {
        r.push(label[i]);
        assert(label@.take(i + 1) =~= label@.take(i as int).push(label@[i as int]));
        i += 1;
    }
    assert(label@.take(label@.len() as int) =~= label@);
    put_le(&mut r, sample);
    put_le(&mut r, repetitions);
    r
}

/// Appends the eight bytes of a number.
fn put_le(v: &mut Vec<u8>, n: u64)
    ensures
        final(v)@ == old(v)@ + le_bytes(n),
{
    let ghost start = v@;
    let mut rest: u64 = n;
    let mut i: u32 = 0;
    proof {
        vstd::arithmetic::power2::lemma2_to64();
        assert(start + le_bytes(n).take(0) =~= start);
        assert(n as int / pow2(0) as int == n as int);
    }
    while i < 8
        invariant
            i <= 8,
            v@ == start + le_bytes(n).take(i as int),
            rest as int == n as int / pow2((8 * i) as nat) as int,
        decreases 8 - i,
    {
        v.push((rest % 256) as u8);
        proof {
            let l = le_bytes(n);
            assert(l.take(i + 1) =~= l.take(i as int).push(l[i as int]));
            assert(v@ =~= start + l.take(i + 1));
            vstd::arithmetic::power2::lemma2_to64();
            vstd::arithmetic::power2::lemma_pow2_pos((8 * i) as nat);
            vstd::arithmetic::power2::lemma_pow2_adds((8 * i) as nat, 8);
            vstd::arithmetic::div_mod::lemma_div_denominator(
                n as int,
                pow2((8 * i) as nat) as int,
                256,
            );
        }
        rest = rest / 256;
        i += 1;
    }
    assert(le_bytes(n).take(8) =~= le_bytes(n));
}

/// Compares the registers after one run of the circuit with one addition.
pub fn check_kmx_once(case: &IaddCase, sample: usize, out0: &[u32], out1: &[u32]) -> (r: Result<
    (),
    KmxError,
>)
    ensures
        r == (if digits_value(out0@) != case.after(1) {
            Err::<(), KmxError>(KmxError::OneStep { sample })
        } else if digits_value(out1@) != case.r1() {
            Err(KmxError::OneStepAddend { sample })
        } else {
            Ok(())
        }),
{
    let expected: Vec<u32> = expected_digits(case, 1);
    if !big_equal(out0, expected.as_slice()) {
        return Err(KmxError::OneStep { sample });
    }
    if !big_equal(out1, case.r1_in.as_slice()) {
        return Err(KmxError::OneStepAddend { sample });
    }
    Ok(())
}

/// Compares the registers after all runs with the test vector's final state.
pub fn check_kmx_repeated(case: &IaddCase, sample: usize, out0: &[u32], out1: &[u32]) -> (r: Result<
    (),
    KmxError,
>)
    ensures
        r == (match low_register(case.y_hex@) {
            Err(error) => Err::<(), KmxError>(KmxError::State { sample, error }),
            Ok(n) => if digits_value(out0@) != n {
                Err(KmxError::Repeated { sample })
            } else if digits_value(out1@) != case.r1() {
                Err(KmxError::RepeatedAddend { sample })
            } else {
                Ok(())
            },
        }),
{
    let expected: Vec<u32> = match low_register_from_state_hex(case.y_hex.as_str()) {
        Ok(d) => d,
        Err(error) => {
            return Err(KmxError::State { sample, error });
        },
    };
    if !big_equal(out0, expected.as_slice()) {
        return Err(KmxError::Repeated { sample });
    }
    if !big_equal(out1, case.r1_in.as_slice()) {
        return Err(KmxError::RepeatedAddend { sample });
    }
    Ok(())
}

} // verus!
