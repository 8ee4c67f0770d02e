//! What a trace of additions proves: where its real rows satisfy the constraints
//! and the states that they pass on balance, every test vector ends with its sum.
use vstd::prelude::*;
use vstd::relations::injective_on;
use vstd::set_lib::{lemma_int_range, lemma_len_subset, lemma_map_size, set_int_range};

use crate::chains::{
    all_at, block_left, block_taken, lemma_chains_pass_on, lemma_left_is_taken, passed_on,
};
use crate::components::all_zero;
use crate::field::P;
use crate::iadd::{IaddCase, RangeCheckMode};
use crate::iadd_air::row_checks;
use crate::iadd_laws::{
    lemma_addition_satisfies, lemma_bits_pin_addition, lemma_lookups_pin_addition, limbs_at,
    parts_in_range,
};
use crate::iadd_limbs::{
    base_of, canonical, lemma_canonical, lemma_limb_sum, lemma_limbs_of, lemma_place, limbs_of,
    modulus, value,
};
use crate::iadd_rows::{
    bit_cells, chunk_cells, compact_cells, lemma_after_range, row_cells, Row,
};
use crate::iadd_run::IaddTrace;
use crate::logup::embed;

verus! {

/// A state: the sample, the number of additions so far, the number, the addend.
pub type State = (int, int, Seq<u32>, Seq<u32>);

/// The state that a row takes.
pub open spec fn state_before(c: Seq<u32>) -> State {
    (c[1] as int, c[2] as int, limbs_at(c, 3), limbs_at(c, 12))
}

/// The state that a row leaves.
pub open spec fn state_after(c: Seq<u32>) -> State {
    (c[1] as int, (c[2] + 1) % (P as int), limbs_at(c, 21), limbs_at(c, 12))
}

/// A real row that satisfies its constraints, and whose parts are in the range
/// tables where it looks them up.
pub open spec fn row_accepted(c: Seq<u32>, mode: RangeCheckMode) -> bool {
    &&& c.len() == (if mode is Bits {
        807int
    } else {
        57
    })
    &&& forall|i: int| 0 <= i < c.len() ==> #[trigger] c[i] < P
    &&& c[0] == 1
    &&& all_zero(row_checks(embed(c), mode))
    &&& mode is Lookup ==> parts_in_range(c)
}

/// The states that rows take and leave.
pub open spec fn states_taken(rows: Seq<Seq<u32>>) -> Seq<State> {
    rows.map_values(|c: Seq<u32>| state_before(c))
}

pub open spec fn states_left(rows: Seq<Seq<u32>>) -> Seq<State> {
    rows.map_values(|c: Seq<u32>| state_after(c))
}

/// The states balance: what the rows and the ends take is what the rows and the
/// starts leave.
pub open spec fn balanced(rows: Seq<Seq<u32>>, starts: Seq<State>, ends: Seq<State>) -> bool {
    passed_on(states_taken(rows), ends, states_left(rows), starts)
}

/// The state after `j` additions.
spec fn nth(start: State, j: nat) -> State {
    (
        start.0,
        j as int % (P as int),
        limbs_of((value(start.2) + j * value(start.3)) % modulus()),
        start.3,
    )
}

proof fn lemma_modulus_pos()
    ensures
        modulus() > 0,
{
    vstd::arithmetic::power2::lemma_pow2_pos(256);
}

/// A row that takes the state after `j` additions leaves the state after one more.
proof fn lemma_step(c: Seq<u32>, mode: RangeCheckMode, start: State, j: nat)
    requires
        !(mode is Off),
        row_accepted(c, mode),
        canonical(start.3),
        state_before(c) == nth(start, j),
    ensures
        state_after(c) == nth(start, j + 1),
{
    let m = modulus();
    lemma_modulus_pos();
    let (v, w) = (value(start.2), value(start.3));
    let here = (v + j * w) % m;
    vstd::arithmetic::div_mod::lemma_mod_bound(v + j * w, m);
    lemma_limbs_of(here);
    vstd::arithmetic::div_mod::lemma_small_mod(here as nat, m as nat);
    if mode is Bits {
        lemma_bits_pin_addition(c);
    } else {
        lemma_lookups_pin_addition(c);
    }
    assert(value(limbs_at(c, 3)) == here);
    let next = limbs_at(c, 21);
    assert(value(next) == (here + w) % m);
    vstd::arithmetic::div_mod::lemma_add_mod_noop(v + j * w, w, m);
    vstd::arithmetic::div_mod::lemma_add_mod_noop(here, w, m);
    vstd::arithmetic::div_mod::lemma_mod_twice(v + j * w, m);
    assert(v + j * w + w == v + (j + 1) * w) by (nonlinear_arith);
    assert(value(next) == (v + (j + 1) * w) % m);
    lemma_canonical(next);
    let p = P as int;
    vstd::arithmetic::div_mod::lemma_add_mod_noop(j as int, 1, p);
    vstd::arithmetic::div_mod::lemma_small_mod(1, P as nat);
}

/// Row `i` takes the state after `j` additions.
spec fn takes(rows: Seq<Seq<u32>>, start: State, i: int, j: int) -> bool {
    0 <= i < rows.len() && state_before(rows[i]) == nth(start, j as nat)
}

/// Unless the test vector ends with its sum, every further state is taken by a row.
proof fn lemma_goes_on(
    rows: Seq<Seq<u32>>,
    mode: RangeCheckMode,
    starts: Seq<State>,
    ends: Seq<State>,
    k: nat,
    s: int,
    j: nat,
)
    requires
        !(mode is Off),
        forall|i: int| 0 <= i < rows.len() ==> row_accepted(#[trigger] rows[i], mode),
        rows.len() < P,
        0 < k < P,
        starts.len() == ends.len(),
        0 <= s < starts.len(),
        forall|q: int|
            0 <= q < ends.len() ==> (#[trigger] ends[q]).0 == q && ends[q].1 == k,
        starts[s].0 == s,
        starts[s].1 == 0,
        canonical(starts[s].2),
        canonical(starts[s].3),
        balanced(rows, starts, ends),
        ends[s] != nth(starts[s], k),
        j <= k + rows.len(),
    ensures
        exists|i: int| #[trigger] takes(rows, starts[s], i, j as int),
    decreases j,
{
    let start = starts[s];
    let t = nth(start, j);
    lemma_modulus_pos();
    if j == 0 {
        lemma_canonical(start.2);
        vstd::arithmetic::div_mod::lemma_small_mod(value(start.2) as nat, modulus() as nat);
        vstd::arithmetic::div_mod::lemma_small_mod(0, P as nat);
        assert(0 * value(start.3) == 0);
        assert(t == start);
        assert(starts.contains(t));
    } else {
        let m = (j - 1) as nat;
        lemma_goes_on(rows, mode, starts, ends, k, s, m);
        let i = choose|i: int| #[trigger] takes(rows, start, i, m as int);
        lemma_step(rows[i], mode, start, m);
        assert(states_left(rows)[i] == t);
        assert(states_left(rows).contains(t));
    }
    lemma_left_is_taken(states_taken(rows), ends, states_left(rows), starts, t);
    if ends.contains(t) {
        let q = choose|q: int| 0 <= q < ends.len() && ends[q] == t;
        assert(q == s);
        // The only state of this sample with that many additions is the end.
        assert(j as int % (P as int) == k);
        if j < P {
            vstd::arithmetic::div_mod::lemma_small_mod(j, P as nat);
        } else {
            vstd::arithmetic::div_mod::lemma_mod_multiples_vanish(1, j - P, P as int);
            vstd::arithmetic::div_mod::lemma_small_mod((j - P) as nat, P as nat);
        }
        assert(j == k);
        assert(false);
    }
    let i = choose|i: int| 0 <= i < states_taken(rows).len() && states_taken(rows)[i] == t;
    assert(takes(rows, start, i, j as int));
}

/// The trace proves the additions. Let every real row satisfy the constraints of a
/// mode that checks ranges, and let the states balance between the test vectors'
/// starts and their ends after `k` additions. Then every test vector ends with its
/// first number plus `k` times its addend, modulo two to the 256th.
pub proof fn lemma_trace_proves_additions(
    rows: Seq<Seq<u32>>,
    mode: RangeCheckMode,
    starts: Seq<State>,
    ends: Seq<State>,
    k: nat,
    s: int,
)
    requires
        !(mode is Off),
        forall|i: int| 0 <= i < rows.len() ==> row_accepted(#[trigger] rows[i], mode),
        rows.len() < P,
        0 < k < P,
        starts.len() == ends.len(),
        0 <= s < starts.len(),
        forall|q: int|
            0 <= q < ends.len() ==> (#[trigger] ends[q]).0 == q && ends[q].1 == k,
        starts[s].0 == s,
        starts[s].1 == 0,
        canonical(starts[s].2),
        canonical(starts[s].3),
        balanced(rows, starts, ends),
    ensures
        canonical(ends[s].2),
        value(ends[s].2) == (value(starts[s].2) + k * value(starts[s].3)) % modulus(),
        ends[s].3 == starts[s].3,
{
    let start = starts[s];
    if ends[s] != nth(start, k) {
        // One row more than there are would have to take a state.
        let n = rows.len();
        let f = |j: int| choose|i: int| #[trigger] takes(rows, start, i, j);
        let from = set_int_range(k as int, (k + n + 1) as int);
        let to = set_int_range(0, n as int);
        let image = from.map(f);
        lemma_int_range(k as int, (k + n + 1) as int);
        lemma_int_range(0, n as int);
        assert forall|j: int| from.contains(j) implies takes(rows, start, #[trigger] f(j), j) by {
            lemma_goes_on(rows, mode, starts, ends, k, s, j as nat);
        }
        assert(injective_on(f, from)) by {
            assert forall|a: int, b: int|
                from.contains(a) && from.contains(b) && #[trigger] f(a) == #[trigger] f(b) implies a
                == b by {
                assert(takes(rows, start, f(a), a) && takes(rows, start, f(b), b));
                assert(a % (P as int) == b % (P as int));
                vstd::arithmetic::div_mod::lemma_mod_equivalence(a, b, P as int);
                if a < b {
                    vstd::arithmetic::div_mod::lemma_mod_equivalence(b, a, P as int);
                    vstd::arithmetic::div_mod::lemma_small_mod((b - a) as nat, P as nat);
                } else if b < a {
                    vstd::arithmetic::div_mod::lemma_small_mod((a - b) as nat, P as nat);
                }
            }
        }
        lemma_map_size(from, image, f);
        assert forall|i: int| image.contains(i) implies to.contains(i) by {
            let j = choose|j: int| from.contains(j) && f(j) == i;
            assert(takes(rows, start, f(j), j));
        }
        lemma_len_subset(image, to);
        assert(false);
    }
    lemma_modulus_pos();
    let v = (value(start.2) + k * value(start.3)) % modulus();
    vstd::arithmetic::div_mod::lemma_mod_bound(value(start.2) + k * value(start.3), modulus());
    lemma_limbs_of(v);
    vstd::arithmetic::div_mod::lemma_small_mod(v as nat, modulus() as nat);
}

/// The state of test vector `s` after `j` additions.
pub open spec fn state_of(c: IaddCase, s: int, j: int) -> State {
    (s, j, limbs_of(c.after(j)), limbs_of(c.r1() as int))
}

/// The real rows of a trace, as columns.
pub open spec fn real_cells(t: &IaddTrace, mode: RangeCheckMode) -> Seq<Seq<u32>> {
    Seq::new(t.n_rows as nat, |i: int| row_cells(t.rows@[i], mode))
}

/// The row of an addition passes its state on.
proof fn lemma_addition_states(row: Row, c: IaddCase, s: int, j: int, mode: RangeCheckMode)
    requires
        row.adds(c, s, j),
        0 <= j && j + 1 < P,
    ensures
        state_before(row_cells(row, mode)) == state_of(c, s, j),
        state_after(row_cells(row, mode)) == state_of(c, s, j + 1),
{
    let cells = row_cells(row, mode);
    assert(cells[1] == s && cells[2] == j);
    assert(limbs_at(cells, 3) =~= row.acc@);
    assert(limbs_at(cells, 12) =~= row.addend@);
    assert(limbs_at(cells, 21) =~= row.next@);
    vstd::arithmetic::div_mod::lemma_small_mod((j + 1) as nat, P as nat);
}

/// The parts in a row of canonical limbs are in the range tables.
proof fn lemma_parts_listed(row: Row)
    requires
        canonical(row.next@),
    ensures
        forall|q: int|
            0 <= q < 18 ==> #[trigger] row_cells(row, RangeCheckMode::Lookup)[39 + q] < (if q % 2
                == 0 {
                0x4_0000int
            } else if q == 17 {
                0x40
            } else {
                0x800
            }),
{
    let cells = row_cells(row, RangeCheckMode::Lookup);
    assert forall|q: int| 0 <= q < 18 implies #[trigger] cells[39 + q] < (if q % 2 == 0 {
        0x4_0000int
    } else if q == 17 {
        0x40
    } else {
        0x800
    }) by {
        lemma_part(row.next@, q);
        assert(cells[39 + q] == chunk_cells(row.next@)[q]);
    }
}

/// The limbs of an addition are canonical, and its carries are bits.
proof fn lemma_addition_small(row: Row, c: IaddCase, s: int, j: int)
    requires
        row.adds(c, s, j),
        0 <= j,
    ensures
        canonical(row.acc@),
        canonical(row.addend@),
        canonical(row.next@),
        forall|i: int| 0 <= i < 9 ==> #[trigger] row.carry@[i] <= 1,
{
    lemma_after_range(c, j);
    lemma_after_range(c, j + 1);
    lemma_limbs_of(c.after(j));
    lemma_limbs_of(c.after(j + 1));
    lemma_limbs_of(c.r1() as int);
    lemma_limb_sum(row.acc@, row.addend@, row.next@, row.carry@);
}

/// The row of an addition is accepted, and passes its state on.
proof fn lemma_addition_accepted(row: Row, c: IaddCase, s: int, j: int, mode: RangeCheckMode)
    requires
        !(mode is Off),
        row.adds(c, s, j),
        0 <= s < P,
        0 <= j && j + 1 < P,
    ensures
        row_accepted(row_cells(row, mode), mode),
        state_before(row_cells(row, mode)) == state_of(c, s, j),
        state_after(row_cells(row, mode)) == state_of(c, s, j + 1),
{
    lemma_addition_satisfies(row, c, s, j, mode);
    lemma_addition_states(row, c, s, j, mode);
    lemma_addition_small(row, c, s, j);
    lemma_cells_small(row, mode);
    if mode is Lookup {
        lemma_parts_listed(row);
    }
}

/// The limbs and the carry at `i` are field elements.
proof fn lemma_limbs_small(row: Row, i: int)
    requires
        canonical(row.acc@),
        canonical(row.addend@),
        canonical(row.next@),
        forall|i: int| 0 <= i < 9 ==> #[trigger] row.carry@[i] <= 1,
        0 <= i < 9,
    ensures
        row.acc@[i] < P && row.addend@[i] < P && row.next@[i] < P && row.carry@[i] < P,
{
    lemma_place(i);
    assert(row.acc@[i] < base_of(i) && row.addend@[i] < base_of(i) && row.next@[i] < base_of(i));
    assert(row.carry@[i] <= 1);
}

/// All columns of a row of canonical limbs are field elements.
proof fn lemma_cells_small(row: Row, mode: RangeCheckMode)
    requires
        !(mode is Off),
        row.is_real == 1,
        row.sample_id < P,
        row.rep_idx < P,
        canonical(row.acc@),
        canonical(row.addend@),
        canonical(row.next@),
        forall|i: int| 0 <= i < 9 ==> #[trigger] row.carry@[i] <= 1,
    ensures
        forall|i: int|
            0 <= i < row_cells(row, mode).len() ==> #[trigger] row_cells(row, mode)[i] < P,
{
    let cells = row_cells(row, mode);
    let head = compact_cells(row);
    assert forall|i: int| 0 <= i < 39 implies #[trigger] head[i] < P by {
        if i >= 30 {
            lemma_limbs_small(row, i - 30);
        } else if i >= 21 {
            lemma_limbs_small(row, i - 21);
        } else if i >= 12 {
            lemma_limbs_small(row, i - 12);
        } else if i >= 3 {
            lemma_limbs_small(row, i - 3);
        }
    }
    assert forall|i: int| 0 <= i < cells.len() implies #[trigger] cells[i] < P by {
        if i < 39 {
            assert(cells[i] == head[i]);
        } else if mode is Lookup {
            lemma_part(row.next@, i - 39);
            assert(cells[i] == chunk_cells(row.next@)[i - 39]);
        } else if i < 295 {
            assert(cells[i] == bit_cells(row.acc@)[i - 39]);
        } else if i < 551 {
            assert(cells[i] == bit_cells(row.addend@)[i - 295]);
        } else {
            assert(cells[i] == bit_cells(row.next@)[i - 551]);
        }
    }
}

/// The parts of canonical limbs are in the range tables.
proof fn lemma_part(l: Seq<u32>, q: int)
    requires
        canonical(l),
        0 <= q < 18,
    ensures
        chunk_cells(l)[q] < (if q % 2 == 0 {
            0x4_0000int
        } else if q == 17 {
            0x40
        } else {
            0x800
        }),
{
    let i = q / 2;
    lemma_place(i);
    assert(l[i] < base_of(i));
}

/// What is asked of a trace is met by the traces that are built: the rows of the
/// additions are accepted, and their states balance between the test vectors'
/// numbers and the numbers after `k` additions.
pub proof fn lemma_built_trace_accepted(
    t: &IaddTrace,
    cases: Seq<IaddCase>,
    k: nat,
    mode: RangeCheckMode,
)
    requires
        !(mode is Off),
        0 < k < P,
        0 < cases.len() <= P,
        t.of(cases, k, mode),
    ensures
        forall|i: int| 0 <= i < t.n_rows ==> row_accepted(#[trigger] real_cells(t, mode)[i], mode),
        balanced(
            real_cells(t, mode),
            Seq::new(cases.len(), |s: int| state_of(cases[s], s, 0)),
            Seq::new(cases.len(), |s: int| state_of(cases[s], s, k as int)),
        ),
{
    let rows = real_cells(t, mode);
    assert forall|i: int| 0 <= i < rows.len() implies row_accepted(#[trigger] rows[i], mode)
        && state_before(rows[i]) == state_of(cases[i / k as int], i / k as int, i % k as int)
        && state_after(rows[i]) == state_of(cases[i / k as int], i / k as int, i % k as int + 1) by {
        let (s, j) = (i / k as int, i % k as int);
        vstd::arithmetic::div_mod::lemma_fundamental_div_mod(i, k as int);
        vstd::arithmetic::div_mod::lemma_mod_bound(i, k as int);
        assert(0 <= s < cases.len()) by (nonlinear_arith)
            requires
                0 <= i < cases.len() * k,
                i == k * s + j,
                0 <= j < k,
        ;
        assert(t.real_rows()[i] == t.rows@[i]);
        assert(t.real_rows()[i].adds(cases[s], s, j));
        lemma_addition_accepted(t.rows@[i], cases[s], s, j, mode);
    }
    let n = cases.len();
    let f = |s: int, j: int| state_of(cases[s], s, j);
    lemma_chains_pass_on(f, n, k);
    assert(states_taken(rows) =~= block_taken(f, n, k));
    assert(states_left(rows) =~= block_left(f, n, k));
    assert(all_at(f, n, 0) =~= Seq::new(n, |s: int| state_of(cases[s], s, 0)));
    assert(all_at(f, n, k as int) =~= Seq::new(n, |s: int| state_of(cases[s], s, k as int)));
}

} // verus!
