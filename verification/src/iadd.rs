//! Repeated 256-bit addition: test vectors, rows and columns.
use vstd::arithmetic::power2::{lemma2_to64, pow2};
use vstd::prelude::*;

use crate::field::P;
use crate::hexes::{hex_bytes, hex_decode, is_hex};
use crate::iadd_limbs::{
    canonical, lemma_limbs_of, lemma_place, limb_bits, limbs_of, modulus, offset, LIMBS,
};
use crate::numbers::{
    big_add, big_equal, big_from_bytes_le, big_mul, big_rem, big_shl, big_shr, bytes_value,
    digits_of_u64, digits_value, low_digit,
};
use crate::sizes::{is_padded_log, padded_size, LOG_MIN_ROWS};

verus! {

pub const COMPACT_TRACE_COLUMNS: usize = 39;

pub const LOOKUP_CHUNK_BITS: usize = 18;

pub const LOOKUP_TRACE_COLUMNS: usize = 57;

pub const LOOKUP_SEQ18_LOG_SIZE: u32 = 18;

pub const LOOKUP_SEQ11_LOG_SIZE: u32 = 11;

pub const LOOKUP_SEQ6_LOG_SIZE: u32 = 6;

/// How it is proved that limbs are within their bits.
#[derive(Clone, Copy, Debug, PartialEq, Eq, Structural)]
pub enum RangeCheckMode {
    /// Not at all: the limbs are taken to be canonical.
    Off,
    /// By their bits.
    Bits,
    /// By looking up two parts of each limb of the sum.
    Lookup,
}

impl RangeCheckMode {
    pub fn as_str(self) -> (r: &'static str)
        ensures
            r@ == (match self {
                RangeCheckMode::Off => "off"@,
                RangeCheckMode::Bits => "bits"@,
                RangeCheckMode::Lookup => "lookup"@,
            }),
    {
        match self {
            RangeCheckMode::Off => "off",
            RangeCheckMode::Bits => "bits",
            RangeCheckMode::Lookup => "lookup",
        }
    }
}

/// A test vector: two numbers, and the text of the state after all additions.
pub struct IaddCase {
    /// The digits of the number that is added to.
    pub r0_in: Vec<u32>,
    /// The digits of the number that is added.
    pub r1_in: Vec<u32>,
    pub y_hex: String,
}

impl IaddCase {
    pub open spec fn r0(&self) -> nat {
        digits_value(self.r0_in@)
    }

    pub open spec fn r1(&self) -> nat {
        digits_value(self.r1_in@)
    }

    /// The number after `j` additions.
    pub open spec fn after(&self, j: int) -> int {
        (self.r0() + j * self.r1()) % modulus()
    }
}

/// A circuit's test vectors.
pub struct IaddFixture {
    pub version: String,
    pub repetitions: usize,
    pub n_samples: usize,
    pub register_width: usize,
    pub test_cases: Vec<IaddCase>,
}

/// The limbs of a number.
pub fn biguint_to_limbs(d: &[u32]) -> (r: [u32; LIMBS])
    ensures
        r@ == limbs_of(digits_value(d@) as int),
        canonical(r@),
{
    let mut limbs: [u32; LIMBS] = [0u32; LIMBS];
    let mut off: u32 = 0;
    let mut i: usize = 0;
    while i < LIMBS
        invariant
            i <= LIMBS,
            limbs@.len() == 9,
            off as nat == offset(i as int),
            forall|j: int|
                0 <= j < i ==> #[trigger] limbs@[j] == limbs_of(digits_value(d@) as int)[j],
        decreases LIMBS - i,
    {
        let bits: usize = limb_bits(i);
        let shifted: Vec<u32> = big_shr(d, off);
        let low: u32 = low_digit(shifted.as_slice());
        let base: u32 = if bits == 24 { 0x100_0000 } else { 0x2000_0000 };
        proof {
            lemma2_to64();
            lemma_place(i as int);
            let v = digits_value(shifted@) as int;
            // The low digit of a number has the number's low bits.
            assert(v % 0x1_0000_0000 % 0x2000_0000 == v % 0x2000_0000) by {
                vstd::arithmetic::div_mod::lemma_mod_mod(v, 0x2000_0000, 8);
            }
            assert(v % 0x1_0000_0000 % 0x100_0000 == v % 0x100_0000) by {
                vstd::arithmetic::div_mod::lemma_mod_mod(v, 0x100_0000, 256);
            }
        }
        limbs[i] = low % base;
        off = off + bits as u32;
        i += 1;
    }
    proof {
        lemma_limbs_of(digits_value(d@) as int);
        assert(limbs@ =~= limbs_of(digits_value(d@) as int));
    }
    limbs
}

/// Why the register of a final state cannot be read.
#[derive(Clone, Copy, Debug, PartialEq, Eq, Structural)]
pub enum StateError {
    /// Not hexadecimal.
    Hex,
    /// Fewer than 32 bytes.
    TooShort { got: usize },
}

/// The register in the first 32 bytes of a state.
pub open spec fn low_register(text: Seq<char>) -> Result<nat, StateError> {
    if !is_hex(text) {
        Err(StateError::Hex)
    } else if hex_bytes(text).len() < 32 {
        Err(StateError::TooShort { got: hex_bytes(text).len() as usize })
    } else {
        Ok(bytes_value(hex_bytes(text).take(32)))
    }
}

/// Reads the register in the first 32 bytes of a state.
pub fn low_register_from_state_hex(text: &str) -> (r: Result<Vec<u32>, StateError>)
    ensures
        match low_register(text@) {
            Ok(n) => r is Ok && digits_value(r->Ok_0@) == n,
            Err(e) => r == Err::<Vec<u32>, StateError>(e),
        },
{
    let bytes = match hex_decode(text) {
        Ok(b) => b,
        Err(_) => {
            return Err(StateError::Hex);
        },
    };
    if bytes.len() < 32 {
        return Err(StateError::TooShort { got: bytes.len() });
    }
    let (low, _) = bytes.as_slice().split_at(32);
    assert(low@ =~= bytes@.take(32));
    Ok(big_from_bytes_le(low))
}

/// Why the test vectors are not those of repeated addition.
#[derive(Clone, Copy, Debug, PartialEq, Eq, Structural)]
pub enum OutputError {
    State { case: usize, error: StateError },
    Mismatch { case: usize },
}

/// What is wrong with a test vector, if anything.
pub open spec fn output_error(c: IaddCase, i: int, repetitions: nat) -> Option<OutputError> {
    match low_register(c.y_hex@) {
        Err(error) => Some(OutputError::State { case: i as usize, error }),
        Ok(n) => if n != c.after(repetitions as int) {
            Some(OutputError::Mismatch { case: i as usize })
        } else {
            None
        },
    }
}

/// Test vector `i` is the first with something wrong.
pub open spec fn is_first_wrong(cases: Seq<IaddCase>, repetitions: nat, i: int) -> bool {
    &&& 0 <= i < cases.len()
    &&& output_error(cases[i], i, repetitions) is Some
    &&& forall|j: int| 0 <= j < i ==> output_error(#[trigger] cases[j], j, repetitions) is None
}

/// The number after `repetitions` additions, as digits.
pub(crate) fn expected_digits(c: &IaddCase, repetitions: u64) -> (r: Vec<u32>)
    ensures
        digits_value(r@) == c.after(repetitions as int),
{
    let one: Vec<u32> = digits_of_u64(1);
    let m: Vec<u32> = big_shl(one.as_slice(), 256);
    let reps: Vec<u32> = digits_of_u64(repetitions);
    let product: Vec<u32> = big_mul(c.r1_in.as_slice(), reps.as_slice());
    let total: Vec<u32> = big_add(c.r0_in.as_slice(), product.as_slice());
    proof {
        vstd::arithmetic::power2::lemma_pow2_pos(256);
        assert(c.r1() * repetitions as nat == repetitions * c.r1()) by (nonlinear_arith);
        assert(1 * pow2(256) == pow2(256));
    }
    big_rem(total.as_slice(), m.as_slice())
}

/// Checks that each test vector ends where its additions lead.
pub fn check_fixture_outputs(cases: &[IaddCase], repetitions: usize) -> (r: Result<(), OutputError>)
    ensures
        r is Ok <==> forall|i: int|
            0 <= i < cases@.len() ==> output_error(#[trigger] cases@[i], i, repetitions as nat)
                is None,
        r matches Err(e) ==> exists|i: int| #[trigger]
            is_first_wrong(cases@, repetitions as nat, i) && output_error(
                cases@[i],
                i,
                repetitions as nat,
            ) == Some(e),
{
    let mut i: usize = 0;
    while i < cases.len()
        invariant
            i <= cases@.len(),
            forall|j: int|
                0 <= j < i ==> output_error(#[trigger] cases@[j], j, repetitions as nat) is None,
        decreases cases.len() - i,
    {
        let c: &IaddCase = &cases[i];
        let expected: Vec<u32> = expected_digits(c, repetitions as u64);
        let actual: Vec<u32> = match low_register_from_state_hex(c.y_hex.as_str()) {
            Ok(n) => n,
            Err(error) => {
                assert(is_first_wrong(cases@, repetitions as nat, i as int));
                return Err(OutputError::State { case: i, error });
            },
        };
        if !big_equal(expected.as_slice(), actual.as_slice()) {
            assert(is_first_wrong(cases@, repetitions as nat, i as int));
            return Err(OutputError::Mismatch { case: i });
        }
        i += 1;
    }
    Ok(())
}

/// Why a fixture cannot be run.
#[derive(Clone, Copy, Debug, PartialEq, Eq, Structural)]
pub enum IaddError {
    Version,
    /// The registers do not have 256 bits.
    Width,
    /// There are no samples, or no repetitions.
    Empty,
    /// The samples or the repetitions do not fit in the field.
    TooMany,
    Output(OutputError),
    /// The rows cannot be counted.
    RowOverflow,
}

/// What is run.
#[derive(Clone, Copy, Debug, PartialEq, Eq, Structural)]
pub struct IaddPlan {
    pub samples: usize,
    pub repetitions: usize,
    pub n_rows: usize,
    pub padded_rows: usize,
    pub log_n_rows: u32,
}

pub open spec fn asked_samples(f: &IaddFixture, samples: Option<usize>) -> usize {
    let n = match samples {
        Some(n) => n,
        None => f.n_samples,
    };
    if n < f.test_cases@.len() {
        n
    } else {
        f.test_cases@.len() as usize
    }
}

pub open spec fn asked_repetitions(f: &IaddFixture, repetitions: Option<usize>) -> usize {
    match repetitions {
        Some(k) => k,
        None => f.repetitions,
    }
}

/// What stands against running a fixture before its test vectors are looked at.
pub open spec fn early_refusal(f: &IaddFixture, n: usize, k: usize) -> Option<IaddError> {
    if f.version@ != "v0.3-iadd"@ {
        Some(IaddError::Version)
    } else if f.register_width != 256 {
        Some(IaddError::Width)
    } else if n == 0 || k == 0 {
        Some(IaddError::Empty)
    } else if n >= P || k >= P {
        Some(IaddError::TooMany)
    } else {
        None
    }
}

/// Checks a fixture and its test vectors, and sizes the trace. The rows that are
/// run fit in half the address space.
pub fn plan_iadd(f: &IaddFixture, samples: Option<usize>, repetitions: Option<usize>) -> (r: Result<
    IaddPlan,
    IaddError,
>)
    requires
        asked_samples(f, samples) * asked_repetitions(f, repetitions) <= usize::MAX / 2 + 1
            || asked_samples(f, samples) * asked_repetitions(f, repetitions) > usize::MAX,
    ensures
        ({
            let n = asked_samples(f, samples);
            let k = asked_repetitions(f, repetitions);
            let cases = f.test_cases@.take(n as int);
            &&& early_refusal(f, n, k) matches Some(e) ==> r == Err::<IaddPlan, IaddError>(e)
            &&& early_refusal(f, n, k) is None ==> match r {
                Ok(p) => {
                    &&& forall|i: int|
                        0 <= i < cases.len() ==> output_error(#[trigger] cases[i], i, k as nat) is None
                    &&& p.samples == n && p.repetitions == k
                    &&& p.n_rows == n * k
                    &&& p.padded_rows == pow2(p.log_n_rows as nat)
                    &&& is_padded_log(p.n_rows as nat, LOG_MIN_ROWS as nat, p.log_n_rows as nat)
                },
                Err(IaddError::Output(e)) => exists|i: int| #[trigger]
                    is_first_wrong(cases, k as nat, i) && output_error(cases[i], i, k as nat)
                        == Some(e),
                Err(e) => e is RowOverflow && n * k > usize::MAX && forall|i: int|
                    0 <= i < cases.len() ==> output_error(#[trigger] cases[i], i, k as nat) is None,
            }
        }),
{
    let expected: String = "v0.3-iadd".to_owned();
    let mut n: usize = match samples {
        Some(n) => n,
        None => f.n_samples,
    };
    if f.test_cases.len() <= n {
        n = f.test_cases.len();
    }
    let k: usize = match repetitions {
        Some(k) => k,
        None => f.repetitions,
    };
    if f.version != expected {
        return Err(IaddError::Version);
    }
    if f.register_width != 256 {
        return Err(IaddError::Width);
    }
    if n == 0 || k == 0 {
        return Err(IaddError::Empty);
    }
    if n >= P as usize || k >= P as usize {
        return Err(IaddError::TooMany);
    }
    let (selected, _) = f.test_cases.as_slice().split_at(n);
    assert(selected@ =~= f.test_cases@.take(n as int));
    match check_fixture_outputs(selected, k) {
        Ok(_) => {},
        Err(e) => {
            return Err(IaddError::Output(e));
        },
    }
    let n_rows: usize = match n.checked_mul(k) {
        Some(rows) => rows,
        None => {
            return Err(IaddError::RowOverflow);
        },
    };
    let (padded_rows, log_n_rows) = padded_size(n_rows, LOG_MIN_ROWS);
    Ok(IaddPlan { samples: n, repetitions: k, n_rows, padded_rows, log_n_rows })
}

} // verus!
