//! What the numbers, rows and test vectors of repeated addition stand for.
use vstd::arithmetic::power2::{lemma2_to64, lemma_pow2_adds, lemma_pow2_pos, pow2};
use vstd::prelude::*;

use crate::acceptance_laws::is_digits;
use crate::field::Ext;
use crate::gate_laws::{lemma_text_is_digits, nibble};
use crate::hexes::hex_bytes;
use crate::iadd::{
    asked_repetitions, asked_samples, early_refusal, is_first_wrong, output_error, IaddCase, IaddError,
    IaddFixture, OutputError, RangeCheckMode, StateError,
};
use crate::iadd_air::{number_checks, recon, row_checks};
use crate::iadd_limbs::{
    canonical, is_limb_sum, lemma_limb_sum, lemma_limbs_of, lemma_place, limbs_of, place, prefix,
    value,
};
use crate::iadd_lookups::{
    batch_dens, batch_second, ends_value, high_table, state_in, state_out, IaddElements,
};
use crate::iadd_rows::{counters_fit, part_hits, row_cells, LookupCounts, Row, SeqTable};
use crate::iadd_run::{are_range_columns, compared, le_bytes, IaddTrace};
use crate::lookup_laws::worth;
use crate::numbers::{bytes_value, decimal_number, decimal_value, digits_value};

verus! {

/// One more digit adds its value times `2^32` for each digit below it.
pub proof fn lemma_digit_places(d: Seq<u32>, x: u32)
    ensures
        digits_value(d.push(x)) == digits_value(d) + x * pow2(32 * d.len()),
        digits_value(Seq::<u32>::empty()) == 0,
    decreases d.len(),
{
    lemma2_to64();
    if d.len() == 0 {
        assert(d.push(x).drop_first() =~= Seq::<u32>::empty());
        assert(digits_value(Seq::<u32>::empty()) == 0);
        assert(digits_value(d.push(x)) == x);
        assert(x * pow2(32 * d.len()) == x) by (nonlinear_arith)
            requires
                pow2(32 * d.len()) == 1,
        ;
    } else {
        let rest = d.drop_first();
        lemma_digit_places(rest, x);
        assert(d.push(x).drop_first() =~= rest.push(x));
        lemma_pow2_adds(32, 32 * rest.len());
        let p = pow2(32 * rest.len()) as int;
        let q = pow2(32 * d.len()) as int;
        assert(q == pow2(32) * p);
        assert(0x1_0000_0000 * (x * p) == x * q) by (nonlinear_arith)
            requires
                q == pow2(32) * p,
                pow2(32) == 0x1_0000_0000,
        ;
        assert(d.push(x)[0] == d[0]);
        assert(digits_value(d.push(x)) == d[0] + 0x1_0000_0000 * digits_value(rest.push(x)));
    }
}

/// One more byte adds its value times 256 for each byte below it.
pub proof fn lemma_byte_places(b: Seq<u8>, x: u8)
    ensures
        bytes_value(b.push(x)) == bytes_value(b) + x * pow2(8 * b.len()),
        bytes_value(Seq::<u8>::empty()) == 0,
    decreases b.len(),
{
    lemma2_to64();
    if b.len() == 0 {
        assert(b.push(x).drop_first() =~= Seq::<u8>::empty());
        assert(bytes_value(Seq::<u8>::empty()) == 0);
        assert(bytes_value(b.push(x)) == x);
        assert(x * pow2(8 * b.len()) == x) by (nonlinear_arith)
            requires
                pow2(8 * b.len()) == 1,
        ;
    } else {
        let rest = b.drop_first();
        lemma_byte_places(rest, x);
        assert(b.push(x).drop_first() =~= rest.push(x));
        lemma_pow2_adds(8, 8 * rest.len());
        let p = pow2(8 * rest.len()) as int;
        let q = pow2(8 * b.len()) as int;
        assert(q == pow2(8) * p);
        assert(256 * (x * p) == x * q) by (nonlinear_arith)
            requires
                q == pow2(8) * p,
                pow2(8) == 256,
        ;
        assert(b.push(x)[0] == b[0]);
        assert(bytes_value(b.push(x)) == b[0] + 256 * bytes_value(rest.push(x)));
    }
}

/// Nine limbs, of 29 bits each but the last, which has 24.
pub open spec fn in_bits(l: Seq<u32>) -> bool {
    &&& l.len() == 9
    &&& l[0] < 536870912 && l[1] < 536870912 && l[2] < 536870912 && l[3] < 536870912
    &&& l[4] < 536870912 && l[5] < 536870912 && l[6] < 536870912 && l[7] < 536870912
    &&& l[8] < 16777216
}

/// The number that limbs stand for, each worth `2^29` of the one before it.
pub open spec fn number(l: Seq<u32>) -> int {
    l[0] + 536870912 * (l[1] + 536870912 * (l[2] + 536870912 * (l[3] + 536870912 * (l[4] + 536870912 * (l[5]
        + 536870912 * (l[6] + 536870912 * (l[7] + 536870912 * l[8])))))))
}

proof fn lemma_places()
    ensures
        place(0) == 1,
        place(1) == 536870912,
        place(2) == 288230376151711744,
        place(3) == 154742504910672534362390528,
        place(4) == 83076749736557242056487941267521536,
        place(5) == 44601490397061246283071436545296723011960832,
        place(6) == 23945242826029513411849172299223580994042798784118784,
        place(7) == 12855504354071922204335696738729300820177623950262342682411008,
        place(8) == 6901746346790563787434755862277025452451108972170386555162524223799296,
        pow2(256) == 115792089237316195423570985008687907853269984665640564039457584007913129639936,
{
    lemma_place(0);
    lemma_place(1);
    lemma_place(2);
    lemma_place(3);
    lemma_place(4);
    lemma_place(5);
    lemma_place(6);
    lemma_place(7);
    lemma_place(8);
}

proof fn lemma_number(l: Seq<u32>)
    requires
        l.len() == 9,
    ensures
        value(l) == number(l),
        canonical(l) <==> in_bits(l),
{
    lemma_places();
    reveal_with_fuel(prefix, 10);
    assert(value(l) == l[0] * place(0) + l[1] * place(1) + l[2] * place(2) + l[3] * place(3) + l[4] * place(4)
        + l[5] * place(5) + l[6] * place(6) + l[7] * place(7) + l[8] * place(8));
    assert forall|i: int| 0 <= i < 9 implies #[trigger] crate::iadd_limbs::base_of(i) == (if i == 8 {
        16777216int
    } else {
        536870912
    }) by {
        lemma_place(i);
    }
    if in_bits(l) {
        assert forall|i: int| 0 <= i < 9 implies #[trigger] l[i] < crate::iadd_limbs::base_of(i) by {
            assert(i == 0 || i == 1 || i == 2 || i == 3 || i == 4 || i == 5 || i == 6 || i == 7 || i == 8);
        }
    }
}

/// The limbs of a number are within their bits and stand for its low 256 bits.
pub proof fn lemma_limbs_stand_for(x: int)
    requires
        x >= 0,
    ensures
        in_bits(limbs_of(x)),
        number(limbs_of(x)) == x % pow2(256) as int,
{
    lemma_limbs_of(x);
    lemma_number(limbs_of(x));
}

/// Limbs that are added limb by limb add up: what the sum is short of is carried out of
/// the last limb, and no limb carries more than one.
pub proof fn lemma_limbs_add_up(a: Seq<u32>, b: Seq<u32>, out: Seq<u32>, carry: Seq<u32>)
    requires
        in_bits(a),
        in_bits(b),
        is_limb_sum(a, b, out, carry),
    ensures
        in_bits(out),
        carry.len() == 9,
        forall|i: int| 0 <= i < 9 ==> #[trigger] carry[i] <= 1,
        number(out) + carry[8] * pow2(256) == number(a) + number(b),
        a[0] + b[0] == out[0] + 536870912 * carry[0],
        forall|i: int|
            0 < i < 8 ==> #[trigger] a[i] + b[i] + carry[i - 1] == out[i] + 536870912 * carry[i],
        a[8] + b[8] + carry[7] == out[8] + 16777216 * carry[8],
{
    lemma_number(a);
    lemma_number(b);
    lemma_limb_sum(a, b, out, carry);
    lemma_number(out);
    lemma_place(0);
    lemma_place(8);
    let t0 = crate::iadd_limbs::total_at(a, b, carry, 0);
    let t8 = crate::iadd_limbs::total_at(a, b, carry, 8);
    assert(t0 == out[0] + carry[0] * crate::iadd_limbs::base_of(0));
    assert(t8 == out[8] + carry[8] * crate::iadd_limbs::base_of(8));
    assert forall|i: int| 0 < i < 8 implies #[trigger] a[i] + b[i] + carry[i - 1] == out[i] + 536870912
        * carry[i] by {
        lemma_place(i);
        let t = crate::iadd_limbs::total_at(a, b, carry, i);
        assert(t == out[i] + carry[i] * crate::iadd_limbs::base_of(i));
    }
}

/// The number of a test vector: it begins with its first number, and each addition adds
/// the second one, modulo `2^256`.
pub proof fn lemma_one_more_addition(c: IaddCase, j: int)
    requires
        j >= 0,
    ensures
        c.after(0) == digits_value(c.r0_in@) as int % pow2(256) as int,
        c.after(j + 1) == (c.after(j) + digits_value(c.r1_in@)) % pow2(256) as int,
        0 <= c.after(j) < pow2(256),
{
    lemma_pow2_pos(256);
    let (x, y, m) = (c.r0() + j * c.r1(), c.r1() as int, pow2(256) as int);
    assert(0 * c.r1() == 0);
    assert(c.r0() + (j + 1) * c.r1() == x + y) by (nonlinear_arith)
        requires
            x == c.r0() + j * c.r1(),
            y == c.r1(),
    ;
    vstd::arithmetic::div_mod::lemma_add_mod_noop(x, y, m);
    vstd::arithmetic::div_mod::lemma_add_mod_noop(x % m, y, m);
    vstd::arithmetic::div_mod::lemma_mod_twice(x, m);
    vstd::arithmetic::div_mod::lemma_mod_bound(x, m);
}

/// Addition `j` of test vector `s` is row `s * k + j`. It holds the number before, the
/// number that is added and the number after, and the carries between them.
pub proof fn lemma_rows_add(t: &IaddTrace, cases: Seq<IaddCase>, k: nat, mode: RangeCheckMode, s: int, j: int)
    requires
        t.of(cases, k, mode),
        0 <= s < cases.len(),
        0 <= j < k,
    ensures
        0 <= s * k + j < t.n_rows,
        t.n_rows == cases.len() * k,
        ({
            let row = t.rows@[s * k + j];
            let m = pow2(256) as int;
            &&& row.is_real == 1 && row.sample_id == s && row.rep_idx == j
            &&& in_bits(row.acc@) && in_bits(row.addend@) && in_bits(row.next@)
            &&& number(row.acc@) == (digits_value(cases[s].r0_in@) + j * digits_value(cases[s].r1_in@)) % m
            &&& number(row.addend@) == digits_value(cases[s].r1_in@) as int % m
            &&& number(row.next@) == (digits_value(cases[s].r0_in@) + (j + 1) * digits_value(
                cases[s].r1_in@,
            )) % m
            &&& row.carry@.len() == 9
            &&& number(row.next@) + row.carry@[8] * m == number(row.acc@) + number(row.addend@)
        }),
{
    let i = s * k + j;
    assert(0 <= s * k) by (nonlinear_arith)
        requires
            s >= 0,
            k >= 0,
    ;
    assert(i < cases.len() * k) by (nonlinear_arith)
        requires
            i == s * k + j,
            j < k,
            s + 1 <= cases.len(),
    ;
    vstd::arithmetic::div_mod::lemma_fundamental_div_mod_converse(i, k as int, s, j);
    let row = t.rows@[i];
    assert(t.real_rows()[i] == row);
    let c = cases[s];
    assert(row.adds(c, s, j));
    let m = pow2(256) as int;
    lemma_one_more_addition(c, j);
    lemma_one_more_addition(c, j + 1);
    lemma_limbs_stand_for(c.after(j));
    lemma_limbs_stand_for(c.r1() as int);
    lemma_limbs_stand_for(c.after(j + 1));
    vstd::arithmetic::div_mod::lemma_small_mod(c.after(j) as nat, m as nat);
    vstd::arithmetic::div_mod::lemma_small_mod(c.after(j + 1) as nat, m as nat);
    lemma_limbs_add_up(row.acc@, row.addend@, row.next@, row.carry@);
}

/// The rows after the last addition are zero.
pub proof fn lemma_padding_is_zero(t: &IaddTrace, cases: Seq<IaddCase>, k: nat, mode: RangeCheckMode, i: int, j: int)
    requires
        t.of(cases, k, mode),
        cases.len() * k <= i < t.rows@.len(),
        0 <= j < 9,
    ensures
        ({
            let row = t.rows@[i];
            &&& row.is_real == 0 && row.sample_id == 0 && row.rep_idx == 0
            &&& row.acc@[j] == 0 && row.addend@[j] == 0 && row.next@[j] == 0 && row.carry@[j] == 0
        }),
{
    assert(t.rows@[i].is_zero());
}

/// The columns of a row, one by one: three of the addition, and nine limbs of the number,
/// the addend, the sum and the carries. Where bits are checked, the 256 bits of the number,
/// of the addend and of the sum follow, the lowest first; where parts are looked up, of each
/// limb of the sum its low 18 bits and the rest.
pub proof fn lemma_columns_of_row(row: Row, mode: RangeCheckMode, i: int, b: int)
    requires
        0 <= i < 9,
        0 <= b < 256,
    ensures
        ({
            let c = row_cells(row, mode);
            &&& c.len() == (match mode {
                RangeCheckMode::Off => 39int,
                RangeCheckMode::Bits => 807int,
                RangeCheckMode::Lookup => 57int,
            })
            &&& c[0] == row.is_real && c[1] == row.sample_id && c[2] == row.rep_idx
            &&& c[3 + i] == row.acc@[i] && c[12 + i] == row.addend@[i]
            &&& c[21 + i] == row.next@[i] && c[30 + i] == row.carry@[i]
            &&& mode is Bits ==> {
                let p = pow2((b % 29) as nat) as int;
                &&& c[39 + b] == row.acc@[b / 29] as int / p % 2
                &&& c[295 + b] == row.addend@[b / 29] as int / p % 2
                &&& c[551 + b] == row.next@[b / 29] as int / p % 2
            }
            &&& mode is Lookup ==> c[39 + 2 * i] < 262144 && c[39 + 2 * i] + 262144 * c[40 + 2 * i]
                == row.next@[i]
        }),
{
    let c = row_cells(row, mode);
    let compact = crate::iadd_rows::compact_cells(row);
    assert(compact.len() == 39);
    let x = row.next@[i] as int;
    if mode is Bits {
        let (p, q, r) = (
            crate::iadd_rows::bit_cells(row.acc@),
            crate::iadd_rows::bit_cells(row.addend@),
            crate::iadd_rows::bit_cells(row.next@),
        );
        assert(c[39 + b] == p[b] && c[295 + b] == q[b] && c[551 + b] == r[b]);
    }
    if mode is Lookup {
        let p = crate::iadd_rows::chunk_cells(row.next@);
        assert(c[39 + 2 * i] == p[2 * i] && c[40 + 2 * i] == p[2 * i + 1]);
        assert((2 * i) / 2 == i && (2 * i + 1) / 2 == i && (2 * i) % 2 == 0 && (2 * i + 1) % 2 == 1);
    }
}

/// The states that a row takes and leaves: the sample, the count, the number, the addend,
/// in this order; afterwards the count is one more and the number is the sum.
pub proof fn lemma_states_of_row(row: Row, i: int)
    requires
        0 <= i < 9,
        row.rep_idx < u32::MAX,
    ensures
        state_in(row).len() == 20 && state_out(row).len() == 20,
        state_in(row)[0] == row.sample_id && state_out(row)[0] == row.sample_id,
        state_in(row)[1] == row.rep_idx && state_out(row)[1] == row.rep_idx + 1,
        state_in(row)[2 + i] == row.acc@[i] && state_out(row)[2 + i] == row.next@[i],
        state_in(row)[11 + i] == row.addend@[i] && state_out(row)[11 + i] == row.addend@[i],
{
}

/// The lookups of a row, two by two: first the state that it takes and the state that it
/// leaves; then of each limb of the sum its low 18 bits, in the table of 2^18 values, and
/// the rest, in that of 2^11 values, or of 2^6 values for the last limb.
pub proof fn lemma_batches_of_row(el: &IaddElements, row: Row, b: int)
    requires
        0 <= b < 10,
        el.ranges is Some,
    ensures
        ({
            let g = el.ranges->Some_0;
            let d = batch_dens(el, row, b);
            &&& b == 0 ==> d.0 == el.state.den(state_in(row)) && d.1 == el.state.den(state_out(row))
                && batch_second(row, b) == -row.is_real
            &&& b > 0 ==> {
                let limb = row.next@[b - 1] as int;
                &&& d.0 == g.seq18.den(seq![(limb % 262144) as u32])
                &&& b < 9 ==> d.1 == g.seq11.den(seq![(limb / 262144) as u32])
                &&& b == 9 ==> d.1 == g.seq6.den(seq![(limb / 262144) as u32])
                &&& batch_second(row, b) == row.is_real
            }
        }),
        SeqTable::Low.log() == 18 && SeqTable::High.log() == 11 && SeqTable::Top.log() == 6,
        b < 9 ==> high_table(b - 1) is High,
        b == 9 ==> high_table(b - 1) is Top,
{
}

/// What a test vector shows: its first number at count zero, less the number of its final
/// state at the last count, each with the addend.
pub proof fn lemma_ends_of_vector(el: &IaddElements, c: IaddCase, s: int, k: int)
    requires
        is_digits(c.y_hex@),
        c.y_hex@.len() >= 64,
    ensures
        ({
            let last = bytes_value(register_bytes(c.y_hex@)) as int;
            let (x, y, z) = (limbs_of(digits_value(c.r0_in@) as int), limbs_of(digits_value(c.r1_in@) as int), limbs_of(last));
            ends_value(el, c, s, k) == worth(&el.state, 1, seq![s as u32, 0u32] + x + y) - worth(
                &el.state,
                1,
                seq![s as u32, k as u32] + z + y,
            )
        }),
{
    lemma_register(c.y_hex@);
}

/// The first 32 bytes of a text of digits, two digits each.
pub open spec fn register_bytes(y: Seq<char>) -> Seq<u8> {
    Seq::new(32, |i: int| (16 * nibble(y[2 * i]) + nibble(y[2 * i + 1])) as u8)
}

proof fn lemma_register(y: Seq<char>)
    ensures
        match crate::iadd::low_register(y) {
            Ok(n) => is_digits(y) && y.len() >= 64 && n == bytes_value(register_bytes(y)),
            Err(StateError::Hex) => !is_digits(y),
            Err(StateError::TooShort { got }) => is_digits(y) && y.len() < 64 && 2 * got == y.len(),
        },
{
    lemma_text_is_digits(y);
    if is_digits(y) && y.len() >= 64 {
        let b = hex_bytes(y);
        assert forall|i: int| 0 <= i < 32 implies b[i] == register_bytes(y)[i] by {
            assert(b[i] == 16 * nibble(y[2 * i]) + nibble(y[2 * i + 1]));
        }
        assert(b.take(32) =~= register_bytes(y));
    }
}

/// A test vector is right exactly if its final state is a text of at least 64 digits whose
/// first 32 bytes, the lowest first, are the first number plus `k` times the second, modulo
/// `2^256`. Else it is said whether the text or the number is wrong, and of which vector.
pub proof fn lemma_right_vectors(c: IaddCase, i: usize, k: nat)
    ensures
        output_error(c, i as int, k) is None <==> is_digits(c.y_hex@) && c.y_hex@.len() >= 64 && bytes_value(
            register_bytes(c.y_hex@),
        ) == (digits_value(c.r0_in@) + k * digits_value(c.r1_in@)) % pow2(256),
        match output_error(c, i as int, k) {
            None => true,
            Some(OutputError::State { case, error: StateError::Hex }) => case == i && !is_digits(c.y_hex@),
            Some(OutputError::State { case, error: StateError::TooShort { got } }) => case == i
                && is_digits(c.y_hex@) && 2 * got == c.y_hex@.len() && got < 32,
            Some(OutputError::Mismatch { case }) => case == i && is_digits(c.y_hex@)
                && c.y_hex@.len() >= 64,
        },
{
    lemma_register(c.y_hex@);
    lemma_pow2_pos(256);
}

/// Which fixtures are looked at further: those of the known version with 256-bit registers
/// that leave something to run, where samples and repetitions are below `2^31 - 1`. The
/// samples are those asked for, else those that the fixture names, as far as it has them.
pub proof fn lemma_fixtures_looked_at(
    f: &IaddFixture,
    samples: Option<usize>,
    repetitions: Option<usize>,
)
    ensures
        ({
            let n = asked_samples(f, samples);
            let k = asked_repetitions(f, repetitions);
            let wanted = if samples is Some { samples->Some_0 } else { f.n_samples };
            &&& n <= wanted && n <= f.test_cases@.len()
            &&& n == wanted || n == f.test_cases@.len()
            &&& repetitions is Some ==> k == repetitions->Some_0
            &&& repetitions is None ==> k == f.repetitions
            &&& early_refusal(f, n, k) is None <==> f.version@ == "v0.3-iadd"@ && f.register_width == 256
                && 0 < n < 0x7fff_ffff && 0 < k < 0x7fff_ffff
            &&& early_refusal(f, n, k) matches Some(e) ==> match e {
                IaddError::Version => f.version@ != "v0.3-iadd"@,
                IaddError::Width => f.version@ == "v0.3-iadd"@ && f.register_width != 256,
                IaddError::Empty => f.version@ == "v0.3-iadd"@ && f.register_width == 256 && (n == 0
                    || k == 0),
                IaddError::TooMany => f.version@ == "v0.3-iadd"@ && f.register_width == 256 && n > 0
                    && k > 0 && (n >= 0x7fff_ffff || k >= 0x7fff_ffff),
                IaddError::Output(_) => false,
                IaddError::RowOverflow => false,
            }
        }),
{
}

/// The eight bytes of a number are worth that number.
pub proof fn lemma_eight_bytes(n: u64)
    ensures
        le_bytes(n).len() == 8,
        ({
            let b = le_bytes(n);
            n == b[0] + 256 * (b[1] + 256 * (b[2] + 256 * (b[3] + 256 * (b[4] + 256 * (b[5] + 256 * (b[6]
                + 256 * b[7]))))))
        }),
{
    lemma2_to64();
    vstd::arithmetic::power2::lemma2_to64_rest();
    let b = le_bytes(n);
    let x = n as int;
    let q1 = x / 256;
    let q2 = q1 / 256;
    let q3 = q2 / 256;
    let q4 = q3 / 256;
    let q5 = q4 / 256;
    let q6 = q5 / 256;
    let q7 = q6 / 256;
    vstd::arithmetic::div_mod::lemma_div_denominator(x, 0x100, 256);
    vstd::arithmetic::div_mod::lemma_div_denominator(x, 0x1_0000, 256);
    vstd::arithmetic::div_mod::lemma_div_denominator(x, 0x100_0000, 256);
    vstd::arithmetic::div_mod::lemma_div_denominator(x, 0x1_0000_0000, 256);
    vstd::arithmetic::div_mod::lemma_div_denominator(x, 0x100_0000_0000, 256);
    vstd::arithmetic::div_mod::lemma_div_denominator(x, 0x1_0000_0000_0000, 256);
    assert(b[0] == x / pow2(0) as int % 256);
    assert(b[1] == q1 % 256);
    assert(b[2] == x / pow2(16) as int % 256 && x / 0x1_0000 == q2);
    assert(b[3] == x / pow2(24) as int % 256 && x / 0x100_0000 == q3);
    assert(b[4] == x / pow2(32) as int % 256 && x / 0x1_0000_0000 == q4);
    assert(b[5] == x / pow2(40) as int % 256 && x / 0x100_0000_0000 == q5);
    assert(b[6] == x / pow2(48) as int % 256 && x / 0x1_0000_0000_0000 == q6);
    assert(b[7] == x / pow2(56) as int % 256 && x / 0x100_0000_0000_0000 == q7);
}

/// The committed columns: public are the values of the range tables, each in its own row;
/// hidden are the columns of the rows and how often each value is looked up.
pub proof fn lemma_committed_columns(
    t: &IaddTrace,
    cases: Seq<IaddCase>,
    k: nat,
    mode: RangeCheckMode,
    public: Seq<Vec<u32>>,
    hidden: Seq<Vec<u32>>,
    i: int,
    c: int,
)
    requires
        t.of(cases, k, mode),
        are_range_columns(public, mode),
        t.are_hidden_columns(hidden, mode),
        0 <= i < t.rows@.len(),
        0 <= c < row_cells(t.rows@[i], mode).len(),
    ensures
        hidden[c]@.len() == t.rows@.len(),
        hidden[c]@[i] == row_cells(t.rows@[i], mode)[c],
        mode is Lookup ==> {
            &&& public.len() == 3 && hidden.len() == 60
            &&& public[0]@.len() == 262144 && public[1]@.len() == 2048 && public[2]@.len() == 64
            &&& i < 262144 ==> public[0]@[i] == i
            &&& i < 2048 ==> public[1]@[i] == i
            &&& i < 64 ==> public[2]@[i] == i
            &&& hidden[57]@ == t.counts->Some_0.seq18@
            &&& hidden[58]@ == t.counts->Some_0.seq11@
            &&& hidden[59]@ == t.counts->Some_0.seq6@
        },
        !(mode is Lookup) ==> public.len() == 0 && hidden.len() == row_cells(t.rows@[i], mode).len(),
{
    lemma_columns_of_row(t.rows@[i], mode, 0, 0);
}

/// The vector that is named as wrong is the first that is.
pub proof fn lemma_first_wrong_vector(cases: Seq<IaddCase>, k: nat, i: usize, j: int)
    requires
        is_first_wrong(cases, k, i as int),
        0 <= j < i,
    ensures
        i < cases.len(),
        output_error(cases[i as int], i as int, k) is Some,
        is_digits(cases[j].y_hex@) && cases[j].y_hex@.len() >= 64,
        bytes_value(register_bytes(cases[j].y_hex@)) == (digits_value(cases[j].r0_in@) + k * digits_value(
            cases[j].r1_in@,
        )) % pow2(256),
{
    lemma_right_vectors(cases[j], j as usize, k);
    assert(output_error(cases[j], j, k) is None);
}

/// The constraints of an addition, in order: whether the row is real, the nine carries, the
/// nine limbs; with bits, of each limb of the three numbers its bits and what they make up;
/// with lookups, what the parts of each limb of the sum make up.
pub proof fn lemma_constraints_in_order(t: Seq<Ext>, mode: RangeCheckMode, i: int)
    requires
        0 <= i < 9,
    ensures
        ({
            let c = row_checks(t, mode);
            let one = Ext { a: 1, b: 0, c: 0, d: 0 };
            let carry_in = if i == 0 {
                Ext { a: 0, b: 0, c: 0, d: 0 }
            } else {
                t[29 + i]
            };
            let base = Ext::base(if i == 8 { 16777216int } else { 536870912 });
            &&& c.len() == (match mode {
                RangeCheckMode::Off => 19int,
                RangeCheckMode::Bits => 814,
                RangeCheckMode::Lookup => 28,
            })
            &&& c[0] == t[0] * (t[0] - one)
            &&& c[1 + i] == (t[0] * t[30 + i]) * (t[30 + i] - one)
            &&& c[10 + i] == t[0] * ((((t[3 + i] + t[12 + i]) + carry_in) - t[21 + i]) - t[30 + i] * base)
            &&& mode is Lookup ==> c[19 + i] == t[0] * ((t[21 + i] - t[39 + 2 * i]) - t[40 + 2 * i]
                * Ext::base(262144))
        }),
{
    lemma_place(i);
    lemma_number_checks_len(t, 3, 39, 9);
    lemma_number_checks_len(t, 12, 295, 9);
    lemma_number_checks_len(t, 21, 551, 9);
    assert(crate::iadd_air::sum_checks(t).len() == 19);
    assert(30 + i - 1 == 29 + i);
}

proof fn lemma_number_checks_len(t: Seq<Ext>, limbs: int, at: int, n: nat)
    requires
        n <= 9,
    ensures
        number_checks(t, limbs, at, n).len() == (if n == 9 {
            265
        } else {
            30 * n
        }),
    decreases n,
{
    if n > 0 {
        lemma_number_checks_len(t, limbs, at, (n - 1) as nat);
    }
}

/// With bits, the constraints of a number stand together, 30 for each limb but the last,
/// which has 25: first of each of its bits that it is one, then that they make up the limb.
pub proof fn lemma_bit_constraints_in_order(t: Seq<Ext>, limbs: int, at: int, n: nat, i: int, b: int)
    requires
        0 <= i < n <= 9,
        0 <= b < 24 || (b < 29 && i < 8),
        0 <= b,
    ensures
        ({
            let c = number_checks(t, limbs, at, n);
            let one = Ext { a: 1, b: 0, c: 0, d: 0 };
            let width = if i == 8 { 24int } else { 29 };
            &&& c[30 * i + b] == (t[0] * t[at + 29 * i + b]) * (t[at + 29 * i + b] - one)
            &&& c[30 * i + width] == t[0] * (t[limbs + i] - recon(t, at + 29 * i, width as nat))
        }),
    decreases n,
{
    let m = (n - 1) as nat;
    lemma_number_checks_len(t, limbs, at, m);
    if i < m {
        lemma_bit_constraints_in_order(t, limbs, at, m, i, b);
        let before = number_checks(t, limbs, at, m);
        assert(number_checks(t, limbs, at, n)[30 * i + b] == before[30 * i + b]);
    }
}

/// With bits, the three numbers are constrained one after the other.
pub proof fn lemma_numbers_constrained_in_order(t: Seq<Ext>)
    ensures
        ({
            let c = row_checks(t, RangeCheckMode::Bits);
            &&& c.subrange(19, 284) == number_checks(t, 3, 39, 9)
            &&& c.subrange(284, 549) == number_checks(t, 12, 295, 9)
            &&& c.subrange(549, 814) == number_checks(t, 21, 551, 9)
        }),
{
    lemma_number_checks_len(t, 3, 39, 9);
    lemma_number_checks_len(t, 12, 295, 9);
    lemma_number_checks_len(t, 21, 551, 9);
    let c = row_checks(t, RangeCheckMode::Bits);
    assert(crate::iadd_air::sum_checks(t).len() == 19);
    assert(c.subrange(19, 284) =~= number_checks(t, 3, 39, 9));
    assert(c.subrange(284, 549) =~= number_checks(t, 12, 295, 9));
    assert(c.subrange(549, 814) =~= number_checks(t, 21, 551, 9));
}

/// One for a part that is `v`.
pub open spec fn is_part(part: int, v: int) -> nat {
    if part == v {
        1
    } else {
        0
    }
}

/// How often one more row looks a value up: in the table of 2^18 values with the low 18 bits
/// of its nine limbs, in that of 2^11 values with the rest of the first eight, in that of
/// 2^6 values with the rest of the last.
pub proof fn lemma_lookups_of_one_more_row(rows: Seq<Row>, row: Row, v: int)
    ensures
        ({
            let l = row.next@;
            let n = rows.len();
            let low = |i: int| is_part(l[i] as int % 262144, v);
            let high = |i: int| is_part(l[i] as int / 262144, v);
            &&& SeqTable::Low.hits(rows.push(row), n + 1, v) == SeqTable::Low.hits(rows, n, v) + low(0) + low(1)
                + low(2) + low(3) + low(4) + low(5) + low(6) + low(7) + low(8)
            &&& SeqTable::High.hits(rows.push(row), n + 1, v) == SeqTable::High.hits(rows, n, v) + high(0)
                + high(1) + high(2) + high(3) + high(4) + high(5) + high(6) + high(7)
            &&& SeqTable::Top.hits(rows.push(row), n + 1, v) == SeqTable::Top.hits(rows, n, v) + high(8)
        }),
{
    let n = rows.len();
    lemma_hits_before(SeqTable::Low, rows, row, n, v);
    lemma_hits_before(SeqTable::High, rows, row, n, v);
    lemma_hits_before(SeqTable::Top, rows, row, n, v);
    lemma_low_parts(row.next@, v);
    lemma_high_parts(row.next@, v);
    lemma_top_part(row.next@, v);
    assert(rows.push(row)[n as int] == row);
}

proof fn lemma_low_parts(l: Seq<u32>, v: int)
    ensures
        ({
            let low = |i: int| is_part(l[i] as int % 262144, v);
            SeqTable::Low.row_hits(l, v) == low(0) + low(1) + low(2) + low(3) + low(4) + low(5) + low(6)
                + low(7) + low(8)
        }),
{
    assert(part_hits(l, false, 0, 0, v) == 0);
    assert(part_hits(l, false, 0, 1, v) == part_hits(l, false, 0, 0, v) + is_part(l[0] as int % 262144, v));
    assert(part_hits(l, false, 0, 2, v) == part_hits(l, false, 0, 1, v) + is_part(l[1] as int % 262144, v));
    assert(part_hits(l, false, 0, 3, v) == part_hits(l, false, 0, 2, v) + is_part(l[2] as int % 262144, v));
    assert(part_hits(l, false, 0, 4, v) == part_hits(l, false, 0, 3, v) + is_part(l[3] as int % 262144, v));
    assert(part_hits(l, false, 0, 5, v) == part_hits(l, false, 0, 4, v) + is_part(l[4] as int % 262144, v));
    assert(part_hits(l, false, 0, 6, v) == part_hits(l, false, 0, 5, v) + is_part(l[5] as int % 262144, v));
    assert(part_hits(l, false, 0, 7, v) == part_hits(l, false, 0, 6, v) + is_part(l[6] as int % 262144, v));
    assert(part_hits(l, false, 0, 8, v) == part_hits(l, false, 0, 7, v) + is_part(l[7] as int % 262144, v));
    assert(part_hits(l, false, 0, 9, v) == part_hits(l, false, 0, 8, v) + is_part(l[8] as int % 262144, v));
}

proof fn lemma_high_parts(l: Seq<u32>, v: int)
    ensures
        ({
            let high = |i: int| is_part(l[i] as int / 262144, v);
            SeqTable::High.row_hits(l, v) == high(0) + high(1) + high(2) + high(3) + high(4) + high(5)
                + high(6) + high(7)
        }),
{
    assert(part_hits(l, true, 0, 0, v) == 0);
    assert(part_hits(l, true, 0, 1, v) == part_hits(l, true, 0, 0, v) + is_part(l[0] as int / 262144, v));
    assert(part_hits(l, true, 0, 2, v) == part_hits(l, true, 0, 1, v) + is_part(l[1] as int / 262144, v));
    assert(part_hits(l, true, 0, 3, v) == part_hits(l, true, 0, 2, v) + is_part(l[2] as int / 262144, v));
    assert(part_hits(l, true, 0, 4, v) == part_hits(l, true, 0, 3, v) + is_part(l[3] as int / 262144, v));
    assert(part_hits(l, true, 0, 5, v) == part_hits(l, true, 0, 4, v) + is_part(l[4] as int / 262144, v));
    assert(part_hits(l, true, 0, 6, v) == part_hits(l, true, 0, 5, v) + is_part(l[5] as int / 262144, v));
    assert(part_hits(l, true, 0, 7, v) == part_hits(l, true, 0, 6, v) + is_part(l[6] as int / 262144, v));
    assert(part_hits(l, true, 0, 8, v) == part_hits(l, true, 0, 7, v) + is_part(l[7] as int / 262144, v));
}

proof fn lemma_top_part(l: Seq<u32>, v: int)
    ensures
        SeqTable::Top.row_hits(l, v) == is_part(l[8] as int / 262144, v),
{
    assert(part_hits(l, true, 8, 8, v) == 0);
    assert(part_hits(l, true, 8, 9, v) == part_hits(l, true, 8, 8, v) + is_part(l[8] as int / 262144, v));
}

proof fn lemma_hits_before(t: SeqTable, rows: Seq<Row>, row: Row, n: nat, v: int)
    requires
        n <= rows.len(),
    ensures
        t.hits(rows.push(row), n, v) == t.hits(rows, n, v),
    decreases n,
{
    if n > 0 {
        lemma_hits_before(t, rows, row, (n - 1) as nat, v);
    }
}

/// The counts of a trace: nothing is counted in new counts, one more row adds its lookups,
/// and there is room for it exactly if no counter passes 32 bits. Rows fit exactly if, at
/// the end, no counter has passed them.
pub proof fn lemma_counters(
    c: &LookupCounts,
    before: &LookupCounts,
    rows: Seq<Row>,
    next: Seq<u32>,
    t: SeqTable,
    v: int,
)
    requires
        0 <= v < pow2(t.log() as nat),
        before.sized(),
    ensures
        c.is_new() ==> c.of(t)[v] == 0,
        c.counts_one_more(before, next) ==> c.of(t)[v] == before.of(t)[v] + t.row_hits(next, v),
        before.has_room_for(next) ==> before.of(t)[v] + t.row_hits(next, v) <= 0xffff_ffff,
        counters_fit(rows) ==> t.hits(rows, rows.len(), v) <= 0xffff_ffff,
        !counters_fit(rows) ==> exists|u: SeqTable, x: int|
            0 <= x < pow2(u.log() as nat) && #[trigger] u.hits(rows, rows.len(), x) > 0xffff_ffff,
        !before.has_room_for(next) ==> exists|u: SeqTable, x: int|
            0 <= x < pow2(u.log() as nat) && #[trigger] before.of(u)[x] + u.row_hits(next, x) > 0xffff_ffff,
{
    match t {
        SeqTable::Low => {},
        SeqTable::High => {},
        SeqTable::Top => {},
    }
}

/// Which texts are numbers: decimal digits are, highest first; a plus sign before them and
/// underscores behind the first do not count; a text with anything else is not.
pub proof fn lemma_numbers_are_read(s: Seq<u8>, c: u8)
    requires
        s.len() > 0,
        48 <= s[0] <= 57,
        decimal_number(s) is Some,
    ensures
        decimal_number(s.push(c)) is Some <==> 48 <= c <= 57 || c == 95,
        48 <= c <= 57 ==> decimal_number(s.push(c)) == Some((10 * decimal_number(s)->Some_0 + (c - 48)) as nat),
        c == 95 ==> decimal_number(s.push(c)) == decimal_number(s),
        decimal_number(seq![43u8] + s) == decimal_number(s),
        decimal_number(seq![c]) is Some <==> 48 <= c <= 57,
        48 <= c <= 57 ==> decimal_number(seq![c]) == Some((c - 48) as nat),
        decimal_number(Seq::empty()) is None,
        decimal_number(seq![95u8] + s) is None,
{
    let t = s.push(c);
    assert(t[0] == s[0]);
    assert(t.drop_last() =~= s && t.last() == c);
    assert(t[s.len() as int] == c);
    if 48 <= c <= 57 || c == 95 {
        assert forall|i: int| 0 <= i < t.len() implies 48 <= #[trigger] t[i] <= 57 || t[i] == 95 by {
            if i < s.len() {
                assert(t[i] == s[i]);
            }
        }
    }
    let p = seq![43u8] + s;
    assert(p[0] == 43 && p[1] == s[0]);
    assert(p.drop_first() =~= s);
    let one = seq![c];
    assert(one[0] == c);
    assert(one.drop_last() =~= Seq::<u8>::empty());
    assert(decimal_value(Seq::<u8>::empty()) == 0);
    if c == 43 {
        assert(one.drop_first() =~= Seq::<u8>::empty());
    }
    let u = seq![95u8] + s;
    assert(u[0] == 95);
}

/// As many test vectors are compared as there are, up to the limit; all of those repeatedly
/// if the repetitions are 16 at most, and else none.
pub proof fn lemma_vectors_compared(limit: usize, n: usize, repetitions: usize)
    ensures
        ({
            let (once, repeated) = compared(limit, n, repetitions);
            &&& once <= limit && once <= n
            &&& once == limit || once == n
            &&& repeated == once || repeated == 0
            &&& once > 0 ==> (repeated == once <==> repetitions < 17)
        }),
{
}

} // verus!
