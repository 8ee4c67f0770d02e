//! Power-of-two table sizes.
use vstd::arithmetic::power2::{lemma2_to64, lemma_pow2_strictly_increases, lemma_pow2_unfold, pow2};
use vstd::prelude::*;

verus! {

/// Lanes of a packed column: tables are filled sixteen rows at a time.
pub const LANE_COUNT: usize = 16;

pub const LOG_N_LANES: u32 = 4;

/// The main trace holds at least four packed rows.
pub const LOG_MIN_ROWS: u32 = 6;

/// `log` is the least exponent, not below `floor`, whose power of two reaches `n`.
pub open spec fn is_padded_log(n: nat, floor: nat, log: nat) -> bool {
    &&& floor <= log
    &&& n <= pow2(log)
    &&& log == floor || pow2((log - 1) as nat) < n
}

/// There is only one padded size.
pub proof fn lemma_padded_log_unique(n: nat, floor: nat, l1: nat, l2: nat)
    requires
        is_padded_log(n, floor, l1),
        is_padded_log(n, floor, l2),
    ensures
        l1 == l2,
{
    if l1 < l2 {
        if l1 < l2 - 1 {
            lemma_pow2_strictly_increases(l1, (l2 - 1) as nat);
        }
    }
    if l2 < l1 {
        if l2 < l1 - 1 {
            lemma_pow2_strictly_increases(l2, (l1 - 1) as nat);
        }
    }
}

/// The least power of two that is at least `n` and at least `2^floor`, with
/// its exponent.
pub fn padded_size(n: usize, floor: u32) -> (r: (usize, u32))
    requires
        n <= usize::MAX / 2 + 1,
        floor < 31,
    ensures
        is_padded_log(n as nat, floor as nat, r.1 as nat),
        r.0 == pow2(r.1 as nat),
        r.1 < usize::BITS,
{
    let mut log: u32 = 0;
    let mut len: usize = 1;
    proof {
        lemma2_to64();
    }
    while log < floor
        invariant
            log <= floor < 31,
            len == pow2(log as nat),
        decreases floor - log,
    {
        proof {
            lemma2_to64();
            lemma_pow2_unfold((log + 1) as nat);
            lemma_pow2_strictly_increases(log as nat, 31);
        }
        len = len * 2;
        log += 1;
    }
    proof {
        lemma_log_below_bits(log as nat, len);
    }
    while len < n
        invariant
            n <= usize::MAX / 2 + 1,
            floor <= log,
            log < usize::BITS,
            len == pow2(log as nat),
            log == floor || pow2((log - 1) as nat) < n,
        decreases usize::BITS - log,
    {
        proof {
            lemma_pow2_unfold((log + 1) as nat);
        }
        len = len * 2;
        log += 1;
        proof {
            lemma_log_below_bits(log as nat, len);
        }
    }
    (len, log)
}

/// `2^log`.
pub fn power_of_two(log: u32) -> (r: usize)
    requires
        log <= 30,
    ensures
        r == pow2(log as nat),
{
    proof {
        lemma2_to64();
        if log < 30 {
            lemma_pow2_strictly_increases(log as nat, 30);
        }
        vstd::bits::lemma_u32_shl_is_mul(1u32, log);
    }
    (1u32 << log) as usize
}

/// A power of two that a `usize` holds has an exponent below its width.
proof fn lemma_log_below_bits(log: nat, len: usize)
    requires
        len == pow2(log),
    ensures
        log < usize::BITS,
{
    lemma2_to64();
    vstd::arithmetic::power2::lemma2_to64_rest();
    if log >= usize::BITS {
        if log > usize::BITS {
            lemma_pow2_strictly_increases(usize::BITS as nat, log);
        }
        assert(usize::BITS == 32 || usize::BITS == 64);
    }
}

} // verus!
