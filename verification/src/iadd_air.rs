//! The constraints and lookups of repeated addition.
use vstd::arithmetic::power2::{lemma2_to64, lemma_pow2_strictly_increases, pow2};
use vstd::prelude::*;

use crate::field::{Ext, QM31};
use crate::iadd::RangeCheckMode;
use crate::iadd_limbs::{base_of, bits_of, limb_base, limb_bits, offset, LIMBS};
use crate::logup::views;

verus! {

/// The relations of the lookups.
#[derive(Clone, Copy, Debug, PartialEq, Eq, Structural)]
pub enum RelationId {
    /// `(sample, repetition, number, addend)`.
    State,
    /// Low parts of limbs.
    Seq18,
    /// High parts of 29-bit limbs.
    Seq11,
    /// The high part of the top limb.
    Seq6,
}

/// One lookup: its relation, its multiplicity and its tuple.
pub struct Entry {
    pub id: RelationId,
    pub multiplicity: QM31,
    pub values: Vec<QM31>,
}

/// The model of an [`Entry`].
#[verifier::ext_equal]
pub ghost struct EntryView {
    pub id: RelationId,
    pub multiplicity: Ext,
    pub values: Seq<Ext>,
}

impl View for Entry {
    type V = EntryView;

    open spec fn view(&self) -> EntryView {
        EntryView { id: self.id, multiplicity: self.multiplicity@, values: views(self.values@) }
    }
}

pub open spec fn entry_views(s: Seq<Entry>) -> Seq<EntryView> {
    Seq::new(s.len(), |i: int| s[i]@)
}

/// What evaluating a row yields: the constraints' values and the lookups.
pub struct Evaluation {
    pub constraints: Vec<QM31>,
    pub entries: Vec<Entry>,
}

/// `m * v * (v - 1)`: zero where `v` is a bit.
pub open spec fn bit_check(m: Ext, v: Ext) -> Ext {
    (m * v) * (v - Ext::one())
}

/// `m * (acc + addend + carry_in - next - carry * base)`: zero where limb `i` adds up.
pub open spec fn limb_check(t: Seq<Ext>, i: int) -> Ext {
    let carry_in = if i == 0 {
        Ext::zero()
    } else {
        t[30 + i - 1]
    };
    t[0] * ((((t[3 + i] + t[12 + i]) + carry_in) - t[21 + i]) - t[30 + i] * Ext::base(base_of(i)))
}

/// The constraints that every mode has.
pub open spec fn sum_checks(t: Seq<Ext>) -> Seq<Ext> {
    Seq::new(
        19,
        |i: int|
            if i == 0 {
                t[0] * (t[0] - Ext::one())
            } else if i < 10 {
                bit_check(t[0], t[30 + (i - 1)])
            } else {
                limb_check(t, i - 10)
            },
    )
}

/// The number that the first `n` bits from `at` make up.
pub open spec fn recon(t: Seq<Ext>, at: int, n: nat) -> Ext
    decreases n,
{
    if n == 0 {
        Ext::zero()
    } else {
        recon(t, at, (n - 1) as nat) + t[at + n - 1] * Ext::base(pow2((n - 1) as nat) as int)
    }
}

/// The columns from `at` are bits.
pub open spec fn bit_checks(t: Seq<Ext>, at: int, n: nat) -> Seq<Ext> {
    Seq::new(n, |b: int| bit_check(t[0], t[at + b]))
}

/// A limb's bits are bits, and they make up the limb.
pub open spec fn limb_bit_checks(t: Seq<Ext>, limb: Ext, at: int, n: nat) -> Seq<Ext> {
    bit_checks(t, at, n).push(t[0] * (limb - recon(t, at, n)))
}

/// The bits of the first `n` limbs from column `limbs`; the bits are from column `at`.
pub open spec fn number_checks(t: Seq<Ext>, limbs: int, at: int, n: nat) -> Seq<Ext>
    decreases n,
{
    if n == 0 {
        Seq::empty()
    } else {
        let i = n - 1;
        number_checks(t, limbs, at, i as nat) + limb_bit_checks(
            t,
            t[limbs + i],
            at + offset(i),
            bits_of(i),
        )
    }
}

/// The two parts of limb `i` of the sum make up the limb.
pub open spec fn chunk_check(t: Seq<Ext>, i: int) -> Ext {
    t[0] * ((t[21 + i] - t[39 + 2 * i]) - t[40 + 2 * i] * Ext::base(0x4_0000))
}

/// The parts of the first `n` limbs.
pub open spec fn chunk_checks(t: Seq<Ext>, n: nat) -> Seq<Ext> {
    Seq::new(n, |i: int| chunk_check(t, i))
}

/// The constraints of a row, in order.
pub open spec fn row_checks(t: Seq<Ext>, mode: RangeCheckMode) -> Seq<Ext> {
    match mode {
        RangeCheckMode::Off => sum_checks(t),
        RangeCheckMode::Bits => sum_checks(t) + number_checks(t, 3, 39, 9) + number_checks(
            t,
            12,
            295,
            9,
        ) + number_checks(t, 21, 551, 9),
        RangeCheckMode::Lookup => sum_checks(t) + chunk_checks(t, 9),
    }
}

/// The state before or after an addition: the sample, the count, the number in
/// the nine columns from `from`, and the addend.
pub open spec fn state_values(t: Seq<Ext>, rep: Ext, from: int) -> Seq<Ext> {
    Seq::new(
        20,
        |i: int|
            if i == 0 {
                t[1]
            } else if i == 1 {
                rep
            } else if i < 11 {
                t[from + i - 2]
            } else {
                t[12 + i - 11]
            },
    )
}

pub open spec fn part_entry(t: Seq<Ext>, j: int) -> EntryView {
    EntryView {
        id: if j % 2 == 0 {
            RelationId::Seq18
        } else if j == 17 {
            RelationId::Seq6
        } else {
            RelationId::Seq11
        },
        multiplicity: t[0],
        values: seq![t[39 + j]],
    }
}

/// The first `n` parts of limbs.
pub open spec fn part_entries(t: Seq<Ext>, n: nat) -> Seq<EntryView> {
    Seq::new(n, |j: int| part_entry(t, j))
}

/// The lookups of a row, in order.
pub open spec fn row_entries(t: Seq<Ext>, mode: RangeCheckMode) -> Seq<EntryView> {
    let states = seq![
        EntryView { id: RelationId::State, multiplicity: t[0], values: state_values(t, t[2], 3) },
        EntryView {
            id: RelationId::State,
            multiplicity: -t[0],
            values: state_values(t, t[2] + Ext::one(), 21),
        },
    ];
    match mode {
        RangeCheckMode::Lookup => states + part_entries(t, 18),
        _ => states,
    }
}

fn exec_bit_check(m: QM31, v: QM31) -> (r: QM31)
    ensures
        r@ == bit_check(m@, v@),
{
    m.times(v).times(v.minus(QM31::one()))
}

fn exec_limb_check(t: &[QM31], i: usize) -> (r: QM31)
    requires
        t@.len() >= 39,
        i < 9,
    ensures
        r@ == limb_check(views(t@), i as int),
{
    let carry_in: QM31 = if i == 0 { QM31::zero() } else { t[30 + i - 1] };
    let base: QM31 = QM31::from_base(limb_base(i));
    t[0].times(
        t[3 + i].plus(t[12 + i]).plus(carry_in).minus(t[21 + i]).minus(t[30 + i].times(base)),
    )
}

/// Appends the bit constraints of one number.
fn add_limb_bit_range_constraints(out: &mut Vec<QM31>, t: &[QM31], limbs: usize, at: usize)
    requires
        limbs + 9 <= t@.len(),
        at + 256 <= t@.len(),
        t@.len() == 807,
    ensures
        views(final(out)@) == views(old(out)@) + number_checks(
            views(t@),
            limbs as int,
            at as int,
            9,
        ),
{
    let ghost v = views(t@);
    let ghost start = views(out@);
    let mut bit_at: usize = at;
    let mut i: usize = 0;
    assert(start + number_checks(v, limbs as int, at as int, 0) =~= start);
    while i < 9
        invariant
            i <= 9,
            limbs + 9 <= t@.len(),
            at + 256 <= t@.len(),
            t@.len() == 807,
            v == views(t@),
            bit_at == at + offset(i as int),
            views(out@) == start + number_checks(v, limbs as int, at as int, i as nat),
        decreases 9 - i,
    {
        let n: usize = limb_bits(i);
        let mut rec: QM31 = QM31::zero();
        let ghost before = views(out@);
        let mut b: usize = 0;
        assert(before + bit_checks(v, bit_at as int, 0) =~= before);
        while b < n
            invariant
                b <= n,
                n <= 29,
                i < 9,
                at + 256 <= t@.len(),
                t@.len() == 807,
                n == bits_of(i as int),
                bit_at == at + offset(i as int),
                v == views(t@),
                rec@ == recon(v, bit_at as int, b as nat),
                views(out@) == before + bit_checks(v, bit_at as int, b as nat),
            decreases n - b,
        {
            let bit: QM31 = t[bit_at + b];
            proof {
                lemma2_to64();
                lemma_pow2_strictly_increases(b as nat, 30);
                vstd::bits::lemma_u32_shl_is_mul(1u32, b as u32);
            }
            let w: QM31 = QM31::from_base(1u32 << (b as u32));
            let ghost so_far = out@;
            out.push(exec_bit_check(t[0], bit));
            rec = rec.plus(bit.times(w));
            proof {
                let (x, n) = (bit_check(v[0], v[bit_at + b]), (b + 1) as nat);
                assert(views(out@) =~= views(so_far).push(x));
                assert(bit_checks(v, bit_at as int, n) =~= bit_checks(
                    v,
                    bit_at as int,
                    b as nat,
                ).push(x));
                assert(views(out@) =~= before + bit_checks(v, bit_at as int, n));
            }
            b += 1;
        }
        let ghost so_far = out@;
        out.push(t[0].times(t[limbs + i].minus(rec)));
        proof {
            assert(views(out@) =~= views(so_far).push(
                v[0] * (v[limbs + i] - recon(v, bit_at as int, bits_of(i as int))),
            ));
            assert(views(out@) =~= before + limb_bit_checks(
                v,
                v[limbs + i],
                bit_at as int,
                bits_of(i as int),
            ));
            assert(views(out@) =~= start + (number_checks(v, limbs as int, at as int, i as nat)
                + limb_bit_checks(v, v[limbs + i], at + offset(i as int), bits_of(i as int))));
        }
        bit_at = bit_at + n;
        i += 1;
    }
}

fn state_of(t: &[QM31], rep: QM31, from: usize) -> (r: Vec<QM31>)
    requires
        t@.len() >= 39,
        from <= 21,
    ensures
        views(r@) == state_values(views(t@), rep@, from as int),
{
    let mut r: Vec<QM31> = Vec::new();
    r.push(t[1]);
    r.push(rep);
    let mut i: usize = 0;
    while i < 9
        invariant
            i <= 9,
            t@.len() >= 39,
            from <= 21,
            r@.len() == 2 + i,
            forall|j: int|
                0 <= j < r@.len() ==> (#[trigger] r@[j])@ == state_values(
                    views(t@),
                    rep@,
                    from as int,
                )[j],
        decreases 9 - i,
    {
        r.push(t[from + i]);
        i += 1;
    }
    i = 0;
    while i < 9
        invariant
            i <= 9,
            t@.len() >= 39,
            r@.len() == 11 + i,
            forall|j: int|
                0 <= j < r@.len() ==> (#[trigger] r@[j])@ == state_values(
                    views(t@),
                    rep@,
                    from as int,
                )[j],
        decreases 9 - i,
    {
        r.push(t[12 + i]);
        i += 1;
    }
    assert(views(r@) =~= state_values(views(t@), rep@, from as int));
    r
}

/// Appends the lookups and constraints of the two parts of each limb.
fn add_lookup_range_constraints(constraints: &mut Vec<QM31>, entries: &mut Vec<Entry>, t: &[QM31])
    requires
        t@.len() == 57,
    ensures
        views(final(constraints)@) == views(old(constraints)@) + chunk_checks(views(t@), 9),
        entry_views(final(entries)@) == entry_views(old(entries)@) + part_entries(views(t@), 18),
{
    let ghost v = views(t@);
    let ghost (c0, e0) = (views(constraints@), entry_views(entries@));
    let base: QM31 = QM31::from_base(0x4_0000);
    let mut i: usize = 0;
    assert(c0 + chunk_checks(v, 0) =~= c0);
    assert(e0 + part_entries(v, 0) =~= e0);
    while i < 9
        invariant
            i <= 9,
            t@.len() == 57,
            v == views(t@),
            base@ == Ext::base(0x4_0000),
            views(constraints@) == c0 + chunk_checks(v, i as nat),
            entry_views(entries@) == e0 + part_entries(v, (2 * i) as nat),
        decreases 9 - i,
    {
        let (lo, hi) = (t[39 + 2 * i], t[40 + 2 * i]);
        let ghost (c1, e1) = (constraints@, entries@);
        constraints.push(t[0].times(t[21 + i].minus(lo).minus(hi.times(base))));
        let lo_values: Vec<QM31> = vec![lo];
        let hi_values: Vec<QM31> = vec![hi];
        assert(views(lo_values@) =~= seq![v[39 + 2 * i]]);
        assert(views(hi_values@) =~= seq![v[40 + 2 * i]]);
        entries.push(Entry { id: RelationId::Seq18, multiplicity: t[0], values: lo_values });
        let id: RelationId = if i + 1 == LIMBS { RelationId::Seq6 } else { RelationId::Seq11 };
        entries.push(Entry { id, multiplicity: t[0], values: hi_values });
        proof {
            assert(entries@[entries@.len() - 2]@ == part_entry(v, 2 * i as int));
            assert(entries@[entries@.len() - 1]@ == part_entry(v, 2 * i + 1));
            assert(views(constraints@) =~= views(c1).push(chunk_check(v, i as int)));
            assert(chunk_checks(v, (i + 1) as nat) =~= chunk_checks(v, i as nat).push(
                chunk_check(v, i as int),
            ));
            assert(entry_views(entries@) =~= entry_views(e1).push(
                part_entry(v, 2 * i as int),
            ).push(part_entry(v, 2 * i + 1)));
            assert(part_entries(v, (2 * (i + 1)) as nat) =~= part_entries(v, (2 * i) as nat).push(
                part_entry(v, 2 * i as int),
            ).push(part_entry(v, 2 * i + 1)));
            assert(views(constraints@) =~= c0 + chunk_checks(v, (i + 1) as nat));
            assert(entry_views(entries@) =~= e0 + part_entries(v, (2 * (i + 1)) as nat));
        }
        i += 1;
    }
}

/// The main component.
#[derive(Clone, Copy, Debug)]
pub struct NativeIaddEval {
    pub log_n_rows: u32,
    pub range_check: RangeCheckMode,
}

impl NativeIaddEval {
    pub fn log_size(&self) -> (r: u32)
        ensures
            r == self.log_n_rows,
    {
        self.log_n_rows
    }

    pub fn max_constraint_log_degree_bound(&self) -> (r: u32)
        requires
            self.log_n_rows < u32::MAX,
        ensures
            r == self.log_n_rows + 1,
    {
        self.log_n_rows + 1
    }

    /// Evaluates the constraints and lookups on the columns of a row, or on their
    /// values at any point.
    pub fn evaluate(&self, t: &[QM31]) -> (r: Evaluation)
        requires
            t@.len() == (match self.range_check {
                RangeCheckMode::Off => 39int,
                RangeCheckMode::Bits => 807,
                RangeCheckMode::Lookup => 57,
            }),
        ensures
            views(r.constraints@) == row_checks(views(t@), self.range_check),
            entry_views(r.entries@) == row_entries(views(t@), self.range_check),
    {
        let ghost v = views(t@);
        let m: QM31 = t[0];
        let mut constraints: Vec<QM31> = Vec::new();
        constraints.push(m.times(m.minus(QM31::one())));
        let mut i: usize = 0;
        while i < 9
            invariant
                i <= 9,
                t@.len() >= 39,
                v == views(t@),
                m@ == v[0],
                constraints@.len() == 1 + i,
                forall|j: int|
                    0 <= j < constraints@.len() ==> (#[trigger] constraints@[j])@ == sum_checks(v)[j],
            decreases 9 - i,
        {
            constraints.push(exec_bit_check(m, t[30 + i]));
            i += 1;
        }
        i = 0;
        while i < 9
            invariant
                i <= 9,
                t@.len() >= 39,
                v == views(t@),
                constraints@.len() == 10 + i,
                forall|j: int|
                    0 <= j < constraints@.len() ==> (#[trigger] constraints@[j])@ == sum_checks(v)[j],
            decreases 9 - i,
        {
            constraints.push(exec_limb_check(t, i));
            i += 1;
        }
        assert(views(constraints@) =~= sum_checks(v));
        if self.range_check == RangeCheckMode::Bits {
            add_limb_bit_range_constraints(&mut constraints, t, 3, 39);
            add_limb_bit_range_constraints(&mut constraints, t, 12, 295);
            add_limb_bit_range_constraints(&mut constraints, t, 21, 551);
        }
        let input: Vec<QM31> = state_of(t, t[2], 3);
        let output: Vec<QM31> = state_of(t, t[2].plus(QM31::one()), 21);
        let mut entries: Vec<Entry> = Vec::new();
        entries.push(Entry { id: RelationId::State, multiplicity: m, values: input });
        entries.push(Entry { id: RelationId::State, multiplicity: m.negate(), values: output });
        proof {
            let states = seq![
                EntryView {
                    id: RelationId::State,
                    multiplicity: v[0],
                    values: state_values(v, v[2], 3),
                },
                EntryView {
                    id: RelationId::State,
                    multiplicity: -v[0],
                    values: state_values(v, v[2] + Ext::one(), 21),
                },
            ];
            assert(entry_views(entries@) =~= states);
        }
        if self.range_check == RangeCheckMode::Lookup {
            add_lookup_range_constraints(&mut constraints, &mut entries, t);
        }
        Evaluation { constraints, entries }
    }
}

/// A range table's component: one row per value.
#[derive(Clone, Copy, Debug)]
pub struct SeqLookupEval {
    pub id: RelationId,
    pub log_size: u32,
}

impl SeqLookupEval {
    /// The component of a range table.
    pub fn new(id: RelationId) -> (r: SeqLookupEval)
        requires
            !(id is State),
        ensures
            r.id == id,
            r.log_size == (match id {
                RelationId::Seq18 => 18u32,
                RelationId::Seq11 => 11,
                _ => 6,
            }),
    {
        let log_size: u32 = match id {
            RelationId::Seq18 => 18,
            RelationId::Seq11 => 11,
            _ => 6,
        };
        SeqLookupEval { id, log_size }
    }

    pub fn log_size(&self) -> (r: u32)
        ensures
            r == self.log_size,
    {
        self.log_size
    }

    pub fn max_constraint_log_degree_bound(&self) -> (r: u32)
        requires
            self.log_size < u32::MAX,
        ensures
            r == self.log_size + 1,
    {
        self.log_size + 1
    }

    /// Evaluates on a value and its multiplicity.
    pub fn evaluate(&self, value: QM31, multiplicity: QM31) -> (r: Evaluation)
        ensures
            r.constraints@.len() == 0,
            entry_views(r.entries@) == seq![
                EntryView { id: self.id, multiplicity: -multiplicity@, values: seq![value@] },
            ],
    {
        let values: Vec<QM31> = vec![value];
        assert(views(values@) =~= seq![value@]);
        let entries: Vec<Entry> = vec![
            Entry { id: self.id, multiplicity: multiplicity.negate(), values },
        ];
        assert(entry_views(entries@) =~= seq![
            EntryView { id: self.id, multiplicity: -multiplicity@, values: seq![value@] },
        ]);
        Evaluation { constraints: Vec::new(), entries }
    }

    /// The name of the table's public column.
    pub fn column_id(&self) -> (r: &'static str)
        requires
            !(self.id is State),
        ensures
            r@ == (match self.id {
                RelationId::Seq18 => "native_iadd_range_seq18"@,
                RelationId::Seq11 => "native_iadd_range_seq11"@,
                _ => "native_iadd_range_seq6"@,
            }),
    {
        match self.id {
            RelationId::Seq18 => "native_iadd_range_seq18",
            RelationId::Seq11 => "native_iadd_range_seq11",
            _ => "native_iadd_range_seq6",
        }
    }
}

/// The range tables whose columns are public, in committed order.
pub fn lookup_preprocessed_columns() -> (r: Vec<RelationId>)
    ensures
        r@ == seq![RelationId::Seq18, RelationId::Seq11, RelationId::Seq6],
{
    let r: Vec<RelationId> = vec![RelationId::Seq18, RelationId::Seq11, RelationId::Seq6];
    assert(r@ =~= seq![RelationId::Seq18, RelationId::Seq11, RelationId::Seq6]);
    r
}

} // verus!
