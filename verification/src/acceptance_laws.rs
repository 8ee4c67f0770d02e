//! Which circuits and test vectors are accepted, and why others are not.
use vstd::prelude::*;

use crate::circuit::{
    is_first_unknown, lemma_set_bit, limb_bit, limb_bytes, limb_state, limbs_wf, operands_valid, run, state_limbs, Gate,
    TestCase,
};
use crate::gate_laws::{
    after_runs, bit_in_text, is_renamed, lemma_qubit_in_text, lemma_run_renamed,
    lemma_run_repeats_program, lemma_state_text_round_trip, lemma_text_is_digits,
    lemma_text_round_trip, nibble, renamed_gate, renames, targets_exist,
};
use crate::hexes::is_hex;
use crate::qubit_memory::{
    all_runnable, rows_outcome, text_outcome, BoundaryTable, Row, RowsError,
};
use crate::shard::{witness_outcome, ShardWitness};
use crate::whole_state::{
    end_text, error_of, is_first_refused, rows_result, shot_outcome, shot_result, text_state,
    LookupCounts, Outcome, RcIndex, SimError,
};
use crate::whole_state_balance::lemma_all_accepted;

verus! {

/// A gate of one of the four kinds on qubits that exist, none of which it names twice.
/// Kind 0 does nothing, kind 1 has no control, kind 2 has one, kind 3 has two.
pub open spec fn is_reversible(g: Gate) -> bool {
    match g.opcode {
        0 => g.target < 512,
        1 => g.target < 512,
        2 => g.target < 512 && g.ctrl_a < 512 && g.target != g.ctrl_a,
        3 => g.target < 512 && g.ctrl_a < 512 && g.ctrl_b < 512 && g.target != g.ctrl_a && g.target != g.ctrl_b
            && g.ctrl_a != g.ctrl_b,
        _ => false,
    }
}

pub open spec fn all_reversible(gates: Seq<Gate>) -> bool {
    forall|i: int| 0 <= i < gates.len() ==> is_reversible(#[trigger] gates[i])
}

/// An even number of hexadecimal digits.
pub open spec fn is_digits(x: Seq<char>) -> bool {
    x.len() % 2 == 0 && forall|i: int| 0 <= i < x.len() ==> nibble(#[trigger] x[i]) >= 0
}

/// The state that a text of 128 digits holds.
pub open spec fn state_in(x: Seq<char>) -> Seq<bool> {
    Seq::new(512, |q: int| bit_in_text(x, q))
}

/// Both states of a test vector are texts of 128 digits, and the second one is what
/// `k` runs of the gates make of the first.
pub open spec fn is_right(gates: Seq<Gate>, k: nat, c: TestCase) -> bool {
    &&& is_digits(c.x_hex@) && c.x_hex@.len() == 128
    &&& is_digits(c.y_hex@) && c.y_hex@.len() == 128
    &&& after_runs(gates, state_in(c.x_hex@), k) == state_in(c.y_hex@)
}

pub open spec fn all_right(gates: Seq<Gate>, k: nat, cases: Seq<TestCase>) -> bool {
    forall|s: int| 0 <= s < cases.len() ==> is_right(gates, k, #[trigger] cases[s])
}

proof fn lemma_state_in(x: Seq<char>)
    requires
        is_digits(x),
        x.len() == 128,
    ensures
        is_hex(x),
        text_state(x) == state_in(x),
{
    lemma_text_is_digits(x);
    assert forall|q: int| 0 <= q < 512 implies text_state(x)[q] == state_in(x)[q] by {
        lemma_qubit_in_text(x, q);
    }
    lemma_qubit_in_text(x, 0);
    assert(text_state(x) =~= state_in(x));
}

/// A test vector that is right is accepted, and no other one, where all gates are known.
proof fn lemma_right_is_accepted(gates: Seq<Gate>, k: nat, c: TestCase)
    requires
        k > 0,
        gates.len() > 0,
        targets_exist(gates),
        forall|i: int| 0 <= i < gates.len() ==> (#[trigger] gates[i]).opcode <= 3,
    ensures
        shot_outcome(gates, k, c.x_hex@, c.y_hex@) is Accepted <==> is_right(gates, k, c),
        !(shot_outcome(gates, k, c.x_hex@, c.y_hex@) is UnknownOpcode),
{
    let (x, y) = (c.x_hex@, c.y_hex@);
    lemma_text_is_digits(x);
    lemma_text_is_digits(y);
    assert forall|u: int| !crate::circuit::is_first_unknown(gates, u) by {}
    if is_digits(x) && x.len() == 128 && is_digits(y) && y.len() == 128 {
        lemma_state_in(x);
        lemma_state_in(y);
        lemma_run_repeats_program(gates, state_in(x), k);
    }
}

proof fn lemma_reversible_runs(gates: Seq<Gate>)
    ensures
        all_runnable(gates) <==> all_reversible(gates),
        all_reversible(gates) ==> targets_exist(gates),
        forall|i: int| 0 <= i < gates.len() ==> (#[trigger] gates[i]).runnable() == is_reversible(gates[i]),
{
    assert forall|i: int| 0 <= i < gates.len() implies (#[trigger] gates[i]).runnable() == is_reversible(gates[i]) by {}
    if all_runnable(gates) {
        assert forall|i: int| 0 <= i < gates.len() implies is_reversible(#[trigger] gates[i]) by {
            assert(gates[i].runnable());
        }
    }
    if all_reversible(gates) {
        assert forall|i: int| 0 <= i < gates.len() implies (#[trigger] gates[i]).runnable() by {
            assert(is_reversible(gates[i]));
        }
        assert forall|i: int| 0 <= i < gates.len() implies (#[trigger] gates[i]).target < 512 by {
            assert(is_reversible(gates[i]));
        }
    }
}

/// Rows are built for exactly the circuits of reversible gates on exactly the test
/// vectors whose last state is what the gates make of the first one.
pub proof fn lemma_rows_are_built_for(
    gates: Seq<Gate>,
    cases: Seq<TestCase>,
    k: nat,
    r: Result<(Vec<Row>, BoundaryTable), RowsError>,
)
    requires
        k > 0,
        gates.len() > 0,
        rows_outcome(gates, cases, k, r),
    ensures
        r is Ok <==> all_reversible(gates) && all_right(gates, k, cases),
{
    lemma_reversible_runs(gates);
    if all_reversible(gates) {
        lemma_right_where_accepted(gates, k, cases);
    }
    match r {
        Err(RowsError::BadGate { index, opcode }) => {
            assert(!gates[index as int].runnable());
        },
        _ => {},
    }
}

/// The same of the witness of a shard.
pub proof fn lemma_witness_is_built_for(
    gates: Seq<Gate>,
    cases: Seq<TestCase>,
    k: nat,
    rc_log: u32,
    log_blowup: u32,
    r: Result<ShardWitness, RowsError>,
)
    requires
        k > 0,
        gates.len() > 0,
        witness_outcome(gates, cases, k, rc_log, log_blowup, r),
    ensures
        r is Ok <==> all_reversible(gates) && all_right(gates, k, cases),
{
    lemma_reversible_runs(gates);
    if all_reversible(gates) {
        lemma_right_where_accepted(gates, k, cases);
    }
    match r {
        Err(RowsError::BadGate { index, opcode }) => {
            assert(!gates[index as int].runnable());
        },
        _ => {},
    }
}

proof fn lemma_right_where_accepted(gates: Seq<Gate>, k: nat, cases: Seq<TestCase>)
    requires
        k > 0,
        gates.len() > 0,
        targets_exist(gates),
        all_reversible(gates),
    ensures
        all_right(gates, k, cases) <==> forall|s: int| !#[trigger] is_first_refused(gates, k, cases, s),
{
    assert forall|i: int| 0 <= i < gates.len() implies (#[trigger] gates[i]).opcode <= 3 by {
        assert(is_reversible(gates[i]));
    }
    lemma_right_where_known(gates, k, cases);
}

proof fn lemma_right_where_known(gates: Seq<Gate>, k: nat, cases: Seq<TestCase>)
    requires
        k > 0,
        gates.len() > 0,
        targets_exist(gates),
        forall|i: int| 0 <= i < gates.len() ==> (#[trigger] gates[i]).opcode <= 3,
    ensures
        all_right(gates, k, cases) <==> forall|s: int| !#[trigger] is_first_refused(gates, k, cases, s),
{
    if all_right(gates, k, cases) {
        assert forall|s: int| !#[trigger] is_first_refused(gates, k, cases, s) by {
            if 0 <= s < cases.len() {
                assert(is_right(gates, k, cases[s]));
                lemma_right_is_accepted(gates, k, cases[s]);
            }
        }
    }
    if forall|s: int| !#[trigger] is_first_refused(gates, k, cases, s) {
        lemma_all_accepted(gates, k, cases, cases.len() as int);
        assert forall|s: int| 0 <= s < cases.len() implies is_right(gates, k, #[trigger] cases[s]) by {
            lemma_right_is_accepted(gates, k, cases[s]);
        }
    }
}

/// Two test vectors whose states are one another's on renamed qubits.
pub open spec fn case_renamed(p: spec_fn(u16) -> u16, c: TestCase, d: TestCase) -> bool {
    &&& is_digits(d.x_hex@) && d.x_hex@.len() == 128
    &&& is_digits(d.y_hex@) && d.y_hex@.len() == 128
    &&& is_renamed(p, state_in(c.x_hex@), state_in(d.x_hex@))
    &&& is_renamed(p, state_in(c.y_hex@), state_in(d.y_hex@))
}

proof fn lemma_renamed_state_unique(p: spec_fn(u16) -> u16, inv: spec_fn(int) -> u16, s: Seq<bool>, t: Seq<bool>, u: Seq<bool>)
    requires
        is_renamed(p, s, t),
        is_renamed(p, s, u),
        forall|q: int| 0 <= q < 512 ==> (#[trigger] inv(q)) < 512 && p(inv(q)) == q,
    ensures
        t == u,
{
    assert forall|q: int| 0 <= q < 512 implies t[q] == u[q] by {
        assert(t[p(inv(q)) as int] == s[inv(q) as int]);
        assert(u[p(inv(q)) as int] == s[inv(q) as int]);
    }
    assert(t =~= u);
}

/// Acceptance does not depend on how the qubits are numbered: where rows are built for
/// a circuit and its test vectors, they are built for both on renamed qubits. The
/// renaming `p` is given with its inverse.
pub proof fn lemma_renamed_circuit_accepted(
    p: spec_fn(u16) -> u16,
    inv: spec_fn(int) -> u16,
    gates: Seq<Gate>,
    cases: Seq<TestCase>,
    others: Seq<TestCase>,
    k: nat,
    r: Result<(Vec<Row>, BoundaryTable), RowsError>,
    r2: Result<(Vec<Row>, BoundaryTable), RowsError>,
)
    requires
        renames(p),
        forall|q: int| 0 <= q < 512 ==> (#[trigger] inv(q)) < 512 && p(inv(q)) == q,
        k > 0,
        gates.len() > 0,
        rows_outcome(gates, cases, k, r),
        rows_outcome(gates.map_values(|g: Gate| renamed_gate(p, g)), others, k, r2),
        others.len() == cases.len(),
        forall|s: int| 0 <= s < cases.len() ==> case_renamed(p, cases[s], #[trigger] others[s]),
        r is Ok,
    ensures
        r2 is Ok,
{
    let renamed = gates.map_values(|g: Gate| renamed_gate(p, g));
    lemma_rows_are_built_for(gates, cases, k, r);
    lemma_rows_are_built_for(renamed, others, k, r2);
    assert forall|i: int| 0 <= i < renamed.len() implies is_reversible(#[trigger] renamed[i]) by {
        let g = gates[i];
        assert(is_reversible(g));
        assert(renamed[i] == renamed_gate(p, g));
        assert(p(g.target) < 512);
        if g.opcode == 2 || g.opcode == 3 {
            assert(p(g.ctrl_a) != p(g.target));
        }
        if g.opcode == 3 {
            assert(p(g.ctrl_b) != p(g.target) && p(g.ctrl_b) != p(g.ctrl_a));
        }
    }
    lemma_reversible_runs(gates);
    lemma_reversible_runs(renamed);
    assert forall|s: int| 0 <= s < others.len() implies is_right(renamed, k, #[trigger] others[s]) by {
        let (c, d) = (cases[s], others[s]);
        assert(is_right(gates, k, c));
        assert(case_renamed(p, c, d));
        let (x, y) = (state_in(c.x_hex@), state_in(c.y_hex@));
        let (u, v) = (state_in(d.x_hex@), state_in(d.y_hex@));
        let n = k * gates.len();
        assert forall|i: int| 0 <= i < gates.len() implies ({
            let g = #[trigger] gates[i];
            &&& g.target < 512
            &&& g.opcode == 2 || g.opcode == 3 ==> g.ctrl_a < 512
            &&& g.opcode == 3 ==> g.ctrl_b < 512
        }) by {
            assert(is_reversible(gates[i]));
        }
        lemma_run_renamed(p, gates, x, u, n);
        lemma_run_repeats_program(gates, x, k);
        lemma_run_repeats_program(renamed, u, k);
        lemma_renamed_state_unique(p, inv, y, after_runs(renamed, u, k), v);
    }
}

/// Bits that sixteen bits of a limb hold.
proof fn lemma_limb_of_bits(b: Seq<bool>, n: u32) -> (l: u32)
    requires
        b.len() >= 16,
        n <= 16,
    ensures
        l < 0x1_0000,
        forall|r: u32| r < 16 ==> #[trigger] limb_bit(l, r) == (r < n && b[r as int]),
    decreases n,
{
    if n == 0 {
        assert forall|r: u32| r < 16 implies !#[trigger] limb_bit(0u32, r) by {
            assert((0u32 >> r) & 1 == 0) by (bit_vector);
        }
        0u32
    } else {
        let p = (n - 1) as u32;
        let l = lemma_limb_of_bits(b, p);
        if b[p as int] {
            assert(!limb_bit(l, p));
            assert((l >> p) & 1 == 0 || (l >> p) & 1 == 1) by (bit_vector);
            lemma_set_bit(l, p, p);
            let m = (l + (1u32 << p)) as u32;
            assert forall|r: u32| r < 16 implies #[trigger] limb_bit(m, r) == (r < n && b[r as int]) by {
                lemma_set_bit(l, p, r);
                assert(limb_bit(l, r) == (r < p && b[r as int]));
            }
            m
        } else {
            l
        }
    }
}

/// A limb that holds the sixteen bits at `16 * j`.
spec fn holds_bits(l: u32, s: Seq<bool>, j: int) -> bool {
    &&& l < 0x1_0000
    &&& forall|r: u32| r < 16 ==> #[trigger] limb_bit(l, r) == s[16 * j + r]
}

spec fn limb_for(s: Seq<bool>, j: int) -> u32 {
    choose|l: u32| holds_bits(l, s, j)
}

/// Every state of 512 bits has limbs.
proof fn lemma_every_state_has_limbs(s: Seq<bool>) -> (l: Seq<u32>)
    requires
        s.len() == 512,
    ensures
        limbs_wf(l),
        limb_state(l) == s,
{
    let l = Seq::new(32, |j: int| limb_for(s, j));
    assert forall|j: int| 0 <= j < 32 implies holds_bits(#[trigger] l[j], s, j) by {
        let b = s.subrange(16 * j, 16 * j + 16);
        let m = lemma_limb_of_bits(b, 16);
        assert forall|r: u32| r < 16 implies #[trigger] limb_bit(m, r) == s[16 * j + r] by {
            assert(b[r as int] == s[16 * j + r]);
        }
        assert(holds_bits(m, s, j));
    }
    assert forall|q: int| 0 <= q < 512 implies limb_state(l)[q] == s[q] by {
        let r = (q % 16) as u32;
        assert(holds_bits(l[q / 16], s, q / 16));
        assert(limb_bit(l[q / 16], r) == s[16 * (q / 16) + r]);
    }
    assert(limb_state(l) =~= s);
    l
}

/// Why a test vector is refused: the first of its texts that is not digits, texts that
/// are not 128 digits long, or a last state that is not the one the gates lead to,
/// which is then reported.
pub open spec fn is_reason(gates: Seq<Gate>, k: nat, c: TestCase, s: int, e: SimError) -> bool {
    let (x, y) = (c.x_hex@, c.y_hex@);
    match e {
        SimError::XHex => !is_digits(x),
        SimError::YHex => is_digits(x) && !is_digits(y),
        SimError::StateLength => is_digits(x) && is_digits(y) && (x.len() != 128 || y.len() != 128),
        SimError::UnknownOpcode(_) => false,
        SimError::FinalState { shot_id, got } => {
            &&& is_digits(x) && x.len() == 128 && is_digits(y) && y.len() == 128
            &&& shot_id == s
            &&& is_digits(got@) && got@.len() == 128
            &&& state_in(got@) == after_runs(gates, state_in(x), k)
            &&& state_in(got@) != state_in(y)
        },
    }
}

proof fn lemma_error_is_reason(gates: Seq<Gate>, k: nat, c: TestCase, s: int, e: SimError)
    requires
        k > 0,
        gates.len() > 0,
        targets_exist(gates),
        forall|i: int| 0 <= i < gates.len() ==> (#[trigger] gates[i]).opcode <= 3,
        error_of(
            shot_outcome(gates, k, c.x_hex@, c.y_hex@),
            e,
            s,
            end_text(gates, k, c.x_hex@),
        ),
    ensures
        is_reason(gates, k, c, s, e),
{
    let (x, y) = (c.x_hex@, c.y_hex@);
    lemma_right_is_accepted(gates, k, c);
    lemma_text_is_digits(x);
    lemma_text_is_digits(y);
    if let SimError::FinalState { shot_id, got } = e {
        lemma_state_in(x);
        lemma_state_in(y);
        lemma_run_repeats_program(gates, state_in(x), k);
        let end = after_runs(gates, state_in(x), k);
        lemma_after_runs_len(gates, state_in(x), k);
        let l = lemma_every_state_has_limbs(end);
        lemma_state_text_round_trip(l);
        lemma_text_round_trip(limb_bytes(state_limbs(end)));
        lemma_text_is_digits(got@);
        crate::circuit::lemma_state_limbs(l);
        lemma_state_in(got@);
    }
}

proof fn lemma_after_runs_len(gates: Seq<Gate>, s: Seq<bool>, k: nat)
    requires
        gates.len() > 0,
        targets_exist(gates),
        s.len() == 512,
    ensures
        after_runs(gates, s, k).len() == 512,
{
    lemma_run_repeats_program(gates, s, k);
    lemma_steps_len(gates, s, k * gates.len());
}

proof fn lemma_steps_len(gates: Seq<Gate>, s: Seq<bool>, n: nat)
    requires
        gates.len() > 0,
        targets_exist(gates),
        s.len() == 512,
    ensures
        run(gates, s, n).len() == 512,
    decreases n,
{
    if n > 0 {
        lemma_steps_len(gates, s, (n - 1) as nat);
    }
}

/// What a refusal says: the first gate that is not reversible, with its opcode, or, of
/// a circuit of reversible gates, the first test vector that is not right, and why.
pub proof fn lemma_refusal_says_why(
    gates: Seq<Gate>,
    cases: Seq<TestCase>,
    k: nat,
    r: Result<(Vec<Row>, BoundaryTable), RowsError>,
)
    requires
        k > 0,
        gates.len() > 0,
        rows_outcome(gates, cases, k, r),
    ensures
        match r {
            Ok(_) => true,
            Err(RowsError::BadGate { index, opcode }) => {
                &&& index < gates.len()
                &&& !is_reversible(gates[index as int])
                &&& all_reversible(gates.take(index as int))
                &&& opcode == gates[index as int].opcode
            },
            Err(RowsError::Shot { shot_id, error }) => {
                &&& all_reversible(gates)
                &&& shot_id < cases.len()
                &&& !is_right(gates, k, cases[shot_id as int])
                &&& all_right(gates, k, cases.take(shot_id as int))
                &&& is_reason(gates, k, cases[shot_id as int], shot_id as int, error)
            },
        },
{
    lemma_reversible_runs(gates);
    match r {
        Err(RowsError::BadGate { index, opcode }) => {
            assert forall|i: int| 0 <= i < index implies is_reversible(#[trigger] gates.take(index as int)[i]) by {
                assert(gates[i].runnable());
            }
        },
        Err(RowsError::Shot { shot_id, error }) => {
            assert forall|i: int| 0 <= i < gates.len() implies (#[trigger] gates[i]).opcode <= 3 by {
                assert(is_reversible(gates[i]));
            }
            let s = shot_id as int;
            lemma_right_is_accepted(gates, k, cases[s]);
            assert forall|j: int| 0 <= j < s implies is_right(gates, k, #[trigger] cases.take(s)[j]) by {
                assert(shot_outcome(gates, k, cases[j].x_hex@, cases[j].y_hex@) is Accepted);
                lemma_right_is_accepted(gates, k, cases[j]);
            }
            lemma_error_is_reason(gates, k, cases[s], s, error);
        },
        _ => {},
    }
}

/// The whole-state rows of a circuit of known gates are built for exactly the test
/// vectors whose last state is what the gates make of the first one; a refusal names
/// the first other one, and why.
pub proof fn lemma_whole_state_rows_are_built_for(
    gates: Seq<Gate>,
    cases: Seq<TestCase>,
    k: nat,
    r: Result<(Vec<crate::whole_state::Row>, LookupCounts), SimError>,
    lo: &RcIndex,
    hi: &RcIndex,
)
    requires
        k > 0,
        gates.len() > 0,
        forall|i: int| 0 <= i < gates.len() ==> (#[trigger] gates[i]).opcode <= 3 && gates[i].target < 512,
        rows_result(gates, k, cases, r, lo, hi),
    ensures
        r is Ok <==> all_right(gates, k, cases),
        r matches Err(e) ==> exists|s: int|
            0 <= s < cases.len() && all_right(gates, k, cases.take(s)) && is_reason(
                gates,
                k,
                #[trigger] cases[s],
                s,
                e,
            ),
{
    assert forall|i: int| 0 <= i < gates.len() implies (#[trigger] gates[i]).target < 512 by {
        assert(gates[i].opcode <= 3);
    }
    lemma_right_where_known(gates, k, cases);
    if let Err(e) = r {
        let s = choose|s: int| #[trigger]
            is_first_refused(gates, k, cases, s) && error_of(
                shot_outcome(gates, k, cases[s].x_hex@, cases[s].y_hex@),
                e,
                s,
                end_text(gates, k, cases[s].x_hex@),
            );
        assert forall|j: int| 0 <= j < s implies is_right(gates, k, #[trigger] cases.take(s)[j]) by {
            assert(shot_outcome(gates, k, cases[j].x_hex@, cases[j].y_hex@) is Accepted);
            lemma_right_is_accepted(gates, k, cases[j]);
        }
        lemma_error_is_reason(gates, k, cases[s], s, e);
    }
}

/// A shot of gates of the four kinds succeeds exactly if its test vector is right, and
/// else says why not. It fills the rows of its steps and no others, and none at all where
/// the texts cannot be read.
pub proof fn lemma_one_shot(
    gates: Seq<Gate>,
    k: nat,
    shot: int,
    c: TestCase,
    before: Seq<crate::whole_state::Row>,
    after: Seq<crate::whole_state::Row>,
    r: Result<LookupCounts, SimError>,
    lo: &RcIndex,
    hi: &RcIndex,
    j: int,
)
    requires
        k > 0,
        gates.len() > 0,
        forall|i: int| 0 <= i < gates.len() ==> (#[trigger] gates[i]).opcode <= 3 && gates[i].target < 512,
        shot_result(gates, k, shot, c.x_hex@, c.y_hex@, before, after, r, lo, hi),
    ensures
        r is Ok <==> is_right(gates, k, c),
        r matches Err(e) ==> is_reason(gates, k, c, shot, e),
        k * gates.len() <= j < before.len() ==> after[j] == before[j],
        !(is_digits(c.x_hex@) && is_digits(c.y_hex@) && c.x_hex@.len() == 128 && c.y_hex@.len() == 128)
            ==> after == before,
{
    assert forall|i: int| 0 <= i < gates.len() implies (#[trigger] gates[i]).target < 512 by {
        assert(gates[i].opcode <= 3);
    }
    let (x, y) = (c.x_hex@, c.y_hex@);
    lemma_right_is_accepted(gates, k, c);
    lemma_text_is_digits(x);
    lemma_text_is_digits(y);
    if let Err(e) = r {
        lemma_error_is_reason(gates, k, c, shot, e);
    }
}

/// A shot that reaches a gate of none of the four kinds is refused with the opcode of the
/// first such gate, if its texts can be read.
pub proof fn lemma_unknown_gate_refused(gates: Seq<Gate>, k: nat, x: Seq<char>, y: Seq<char>, u: int)
    requires
        k > 0,
        0 <= u < gates.len(),
        gates[u].opcode > 3,
        forall|i: int| 0 <= i < u ==> (#[trigger] gates[i]).opcode <= 3,
        is_digits(x) && is_digits(y) && x.len() == 128 && y.len() == 128,
    ensures
        shot_outcome(gates, k, x, y) == Outcome::UnknownOpcode(gates[u].opcode),
{
    lemma_text_is_digits(x);
    lemma_text_is_digits(y);
    assert(is_first_unknown(gates, u));
    let v = choose|v: int| is_first_unknown(gates, v);
    if v < u {
        assert(gates[v].opcode <= 3);
    } else if u < v {
        assert(gates[u].known());
    }
}

/// A shot that reaches a gate of none of the four kinds fails with its opcode, and leaves
/// the rows from that gate on as they were.
pub proof fn lemma_shot_stops_at_unknown_gate(
    gates: Seq<Gate>,
    k: nat,
    shot: int,
    c: TestCase,
    before: Seq<crate::whole_state::Row>,
    after: Seq<crate::whole_state::Row>,
    r: Result<LookupCounts, SimError>,
    lo: &RcIndex,
    hi: &RcIndex,
    u: int,
    j: int,
)
    requires
        k > 0,
        0 <= u < gates.len(),
        gates[u].opcode > 3,
        forall|i: int| 0 <= i < u ==> (#[trigger] gates[i]).opcode <= 3,
        is_digits(c.x_hex@) && c.x_hex@.len() == 128,
        is_digits(c.y_hex@) && c.y_hex@.len() == 128,
        shot_result(gates, k, shot, c.x_hex@, c.y_hex@, before, after, r, lo, hi),
    ensures
        r matches Err(SimError::UnknownOpcode(op)) && op == gates[u].opcode,
        after.len() == before.len(),
        u <= j < before.len() ==> after[j] == before[j],
{
    lemma_unknown_gate_refused(gates, k, c.x_hex@, c.y_hex@, u);
    assert(is_first_unknown(gates, u));
}

/// A shot of no repetitions takes no step, whatever its gates are: it succeeds exactly if
/// its two texts say the same state, and fills no row.
pub proof fn lemma_shot_of_no_steps(
    gates: Seq<Gate>,
    shot: int,
    c: TestCase,
    before: Seq<crate::whole_state::Row>,
    after: Seq<crate::whole_state::Row>,
    r: Result<LookupCounts, SimError>,
    lo: &RcIndex,
    hi: &RcIndex,
)
    requires
        shot_result(gates, 0, shot, c.x_hex@, c.y_hex@, before, after, r, lo, hi),
    ensures
        ({
            let (x, y) = (c.x_hex@, c.y_hex@);
            r is Ok <==> is_digits(x) && x.len() == 128 && is_digits(y) && y.len() == 128 && state_in(x)
                == state_in(y)
        }),
        !(r matches Err(SimError::UnknownOpcode(_))),
        after == before,
{
    let (x, y) = (c.x_hex@, c.y_hex@);
    lemma_text_is_digits(x);
    lemma_text_is_digits(y);
    if is_digits(x) && x.len() == 128 {
        lemma_state_in(x);
    }
    if is_digits(y) && y.len() == 128 {
        lemma_state_in(y);
    }
}

/// The texts of a test vector are read exactly if both are 128 digits; the first text that
/// is not digits is blamed before the lengths are.
pub proof fn lemma_texts_are_read(x: Seq<char>, y: Seq<char>)
    ensures
        match text_outcome(x, y) {
            Outcome::Accepted => is_digits(x) && x.len() == 128 && is_digits(y) && y.len() == 128,
            Outcome::XHex => !is_digits(x),
            Outcome::YHex => is_digits(x) && !is_digits(y),
            Outcome::StateLength => is_digits(x) && is_digits(y) && (x.len() != 128 || y.len() != 128),
            _ => false,
        },
        text_outcome(x, y) is Accepted ==> text_state(x) == state_in(x) && text_state(y) == state_in(y),
{
    lemma_text_is_digits(x);
    lemma_text_is_digits(y);
    if text_outcome(x, y) is Accepted {
        lemma_state_in(x);
        lemma_state_in(y);
    }
}

/// The operands of a circuit exist exactly if every gate before the first of unknown kind,
/// if there is one, names qubits below 512: its target, and the controls that it reads.
pub proof fn lemma_operands_exist(gates: Seq<Gate>)
    ensures
        operands_valid(gates) <==> forall|i: int|
            0 <= i < gates.len() && all_of_four_kinds(gates, i) ==> {
                let g = #[trigger] gates[i];
                &&& g.target < 512
                &&& g.opcode == 2 || g.opcode == 3 ==> g.ctrl_a < 512
                &&& g.opcode == 3 ==> g.ctrl_b < 512
            },
{
    assert forall|i: int|
        0 <= i < gates.len() implies ((forall|j: int| 0 <= j <= i ==> (#[trigger] gates[j]).known())
        <==> #[trigger] all_of_four_kinds(gates, i)) by {
        if all_of_four_kinds(gates, i) {
            assert forall|j: int| 0 <= j <= i implies (#[trigger] gates[j]).known() by {}
        }
    }
}

/// The gates up to gate `i` are of the four kinds.
pub open spec fn all_of_four_kinds(gates: Seq<Gate>, i: int) -> bool {
    forall|j: int| 0 <= j <= i ==> (#[trigger] gates[j]).opcode <= 3
}

} // verus!
