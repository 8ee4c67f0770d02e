//! What a plan says of a run: which fixtures are run, on how many test vectors, which of
//! them stand in which shard, and where each leaf's outputs stand.
use vstd::arithmetic::power2::{lemma_pow2_strictly_increases, pow2};
use vstd::prelude::*;

use crate::circuit::Gate;
use crate::field::QM31;
use crate::hexes::hex_text;
use crate::parsing_laws::{lemma_written_text_is_read, written};
use crate::recursion_consts::pcs_of;
use crate::run::{
    collected, collecting, flat_outputs, gpus_asked, is_turn, run_k, run_refusal, run_samples,
    shard_case, shots_asked, text_circuit, Arrival, Collect, Fixture, RunError, ShardPlan,
};
use crate::shard::{countable, ShardShape};
use crate::sizes::is_padded_log;

verus! {

/// A number that is none of three given ones but the least of them.
pub open spec fn is_least(x: int, a: int, b: int, c: int) -> bool {
    x <= a && x <= b && x <= c && (x == a || x == b || x == c)
}

/// A fixture is run exactly if it is of the known version, has 512 qubits, holds a circuit
/// and leaves something to run. The circuit is run on the least of the samples that are
/// asked for, those that the fixture names and those that it has, and as often as is asked
/// for, else as often as the fixture says.
pub proof fn lemma_run_is_planned_for(f: &Fixture, samples: usize, repetitions: Option<usize>)
    ensures
        is_least(
            run_samples(f, samples),
            samples as int,
            f.n_samples as int,
            f.test_cases@.len() as int,
        ),
        repetitions is Some ==> run_k(f, repetitions) == repetitions->Some_0,
        repetitions is None ==> run_k(f, repetitions) == f.repetitions,
        run_refusal(f, samples, repetitions) is None <==> {
            &&& f.version@ == "v0.3-iadd"@
            &&& f.num_qubits == 512
            &&& text_circuit(f.circuit_byte_serialisation_hex@) is Ok
            &&& samples > 0 && f.n_samples > 0 && f.test_cases@.len() > 0
            &&& run_k(f, repetitions) > 0
        },
{
}

/// Why a fixture is not run: the reason that is given holds, and none that is looked for
/// before it does.
pub proof fn lemma_refused_run_says_why(f: &Fixture, samples: usize, repetitions: Option<usize>)
    requires
        run_refusal(f, samples, repetitions) is Some,
    ensures
        match run_refusal(f, samples, repetitions)->Some_0 {
            RunError::Version => f.version@ != "v0.3-iadd"@,
            RunError::Qubits { got } => f.version@ == "v0.3-iadd"@ && got == f.num_qubits && got
                != 512,
            RunError::Circuit(e) => f.version@ == "v0.3-iadd"@ && f.num_qubits == 512
                && text_circuit(f.circuit_byte_serialisation_hex@) == Err::<
                Seq<Gate>,
                crate::circuit::ParseError,
            >(e),
            RunError::Empty => f.version@ == "v0.3-iadd"@ && f.num_qubits == 512 && text_circuit(
                f.circuit_byte_serialisation_hex@,
            ) is Ok && (samples == 0 || f.n_samples == 0 || f.test_cases@.len() == 0 || run_k(
                f,
                repetitions,
            ) == 0),
        },
{
}

/// A fixture that holds a written circuit is run, and that circuit is what is run.
pub proof fn lemma_written_fixture_is_run(
    f: &Fixture,
    gates: Seq<Gate>,
    samples: usize,
    repetitions: Option<usize>,
)
    requires
        gates.len() < 0x1_0000_0000,
        f.version@ == "v0.3-iadd"@,
        f.num_qubits == 512,
        f.circuit_byte_serialisation_hex@ == hex_text(written(gates)),
        samples > 0 && f.n_samples > 0 && f.test_cases@.len() > 0,
        repetitions is None ==> f.repetitions > 0,
        repetitions is Some ==> repetitions->Some_0 > 0,
    ensures
        run_refusal(f, samples, repetitions) is None,
        text_circuit(f.circuit_byte_serialisation_hex@) == Ok::<
            Seq<Gate>,
            crate::circuit::ParseError,
        >(gates),
{
    lemma_written_text_is_read(gates);
    lemma_run_is_planned_for(f, samples, repetitions);
}

/// A shard is as large as asked, unless there are fewer samples; there is a shard, and
/// there are as few of them as hold all samples.
pub proof fn lemma_shards_fit(plan: &ShardPlan, samples: int, asked: int, n: int)
    requires
        samples > 0,
        asked > 0,
        plan.cuts(samples, asked),
    ensures
        asked <= samples ==> plan.shots_per_shard == asked,
        asked >= samples ==> plan.shots_per_shard == samples && plan.n_shards == 1,
        plan.n_shards >= 1,
        plan.n_shards * plan.shots_per_shard >= samples,
        n >= 0 && n * plan.shots_per_shard >= samples ==> n >= plan.n_shards,
{
    let (d, m) = (plan.shots_per_shard as int, plan.n_shards as int);
    assert(m >= 1) by (nonlinear_arith)
        requires
            samples > 0,
            samples <= m * d,
            d > 0,
    ;
    if n >= 0 && n * d >= samples && n < m {
        assert(n * d <= (m - 1) * d) by (nonlinear_arith)
            requires
                n <= m - 1,
                d > 0,
        ;
    }
    if asked >= samples {
        assert(m == 1) by (nonlinear_arith)
            requires
                (m - 1) * d < samples,
                d == samples,
                samples > 0,
                m >= 1,
        ;
    }
}

/// Which test vector stands where: in shard `s` at place `j` the one that counting in
/// order gives, and the last one wherever there are no more.
pub proof fn lemma_shard_places(samples: int, shots: int, s: int, j: int)
    requires
        0 < samples,
    ensures
        s * shots + j < samples ==> shard_case(samples, shots, s, j) == s * shots + j,
        s * shots + j >= samples ==> shard_case(samples, shots, s, j) == samples - 1,
{
}

/// The shards of producer `gpu` of `g` are `gpu`, `gpu + g`, `gpu + 2 * g` and so on.
pub proof fn lemma_turns(r: Seq<usize>, n: int, g: int, gpu: int, i: int)
    requires
        0 <= gpu < g,
        n <= usize::MAX,
        is_turn(r, n, g, gpu),
        0 <= i < r.len(),
    ensures
        r[i] == gpu + i * g,
        r[i] < n,
        i == r.len() - 1 ==> r[i] + g >= n,
    decreases i,
{
    let x = r[i] as int;
    vstd::arithmetic::div_mod::lemma_fundamental_div_mod(x, g);
    let q = x / g;
    assert(x == gpu + q * g) by (nonlinear_arith)
        requires
            x == g * q + gpu,
    ;
    if i > 0 {
        lemma_turns(r, n, g, gpu, i - 1);
        let before = r[i - 1] as int;
        assert((i - 1) * g + g == i * g) by (nonlinear_arith);
        let next = before + g;
        assert(next == gpu + i * g);
        assert(q >= i) by (nonlinear_arith)
            requires
                gpu + q * g > gpu + (i - 1) * g,
                g > 0,
        ;
        assert(next <= x) by (nonlinear_arith)
            requires
                next == gpu + i * g,
                x == gpu + q * g,
                q >= i,
                g > 0,
        ;
        lemma_turn_remainder(gpu, g, i);
        assert(next % g == gpu);
        assert(r.contains(next as usize));
        let at = choose|at: int| 0 <= at < r.len() && r[at] == next as usize;
        if at < i - 1 {
            assert(r[at] < r[i - 1]);
        } else if at > i {
            assert(r[i] < r[at]);
        }
        assert(at == i);
    } else {
        assert(q >= 0) by {
            vstd::arithmetic::div_mod::lemma_div_pos_is_pos(x, g);
        }
        assert(x >= gpu) by (nonlinear_arith)
            requires
                x == gpu + q * g,
                q >= 0,
                g > 0,
        ;
        vstd::arithmetic::div_mod::lemma_small_mod(gpu as nat, g as nat);
        assert(gpu % g == gpu);
        assert(r.contains(gpu as usize));
        let at = choose|at: int| 0 <= at < r.len() && r[at] == gpu as usize;
        if at > 0 {
            assert(r[0] < r[at]);
        }
        assert(0 * g == 0);
    }
    if i == r.len() - 1 && x + g < n {
        lemma_turn_remainder(gpu, g, i + 1);
        assert(i * g + g == (i + 1) * g) by (nonlinear_arith);
        assert((x + g) % g == gpu);
        assert(r.contains((x + g) as usize));
        let at = choose|at: int| 0 <= at < r.len() && r[at] == (x + g) as usize;
        if at < i {
            assert(r[at] < r[i]);
        }
    }
}

proof fn lemma_turn_remainder(gpu: int, g: int, i: int)
    requires
        0 <= gpu < g,
    ensures
        (gpu + i * g) % g == gpu,
{
    vstd::arithmetic::div_mod::lemma_mod_multiples_vanish(i, gpu, g);
    vstd::arithmetic::div_mod::lemma_small_mod(gpu as nat, g as nat);
    assert(g * i + gpu == gpu + i * g) by (nonlinear_arith);
}

/// A run asks for at least one device; a positive number is taken as it is.
pub proof fn lemma_devices_asked(asked: Option<usize>)
    ensures
        gpus_asked(asked) >= 1,
        asked is None || asked->Some_0 <= 1 ==> gpus_asked(asked) == 1,
        asked is Some && asked->Some_0 >= 1 ==> gpus_asked(asked) == asked->Some_0,
{
}

/// The public values of the final proof hold each leaf's outputs whole and in order: those
/// of leaf `i` follow those of the leaves before it.
pub proof fn lemma_outputs_of_leaf(leaves: Seq<Vec<QM31>>, n: nat, i: int, j: int)
    requires
        0 <= i < n <= leaves.len(),
        0 <= j < leaves[i]@.len(),
    ensures
        flat_outputs(leaves, i as nat).len() + j < flat_outputs(leaves, n).len(),
        flat_outputs(leaves, n)[flat_outputs(leaves, i as nat).len() + j] == leaves[i]@[j],
        flat_outputs(leaves, (i + 1) as nat).len() == flat_outputs(leaves, i as nat).len()
            + leaves[i]@.len(),
    decreases n,
{
    if i < n - 1 {
        lemma_outputs_of_leaf(leaves, (n - 1) as nat, i, j);
    }
}

/// Where all leaves have `width` outputs, output `j` of leaf `i` stands at place
/// `width * i + j`, and there are no values besides.
pub proof fn lemma_output_places(leaves: Seq<Vec<QM31>>, width: nat, n: nat, i: int, j: int)
    requires
        n <= leaves.len(),
        forall|l: int| 0 <= l < n ==> (#[trigger] leaves[l])@.len() == width,
    ensures
        flat_outputs(leaves, n).len() == width * n,
        0 <= i < n && 0 <= j < width ==> flat_outputs(leaves, n)[width * i + j] == leaves[i]@[j],
    decreases n,
{
    if n > 0 {
        let m = (n - 1) as nat;
        lemma_output_places(leaves, width, m, i, j);
        assert(width * n == width * m + width) by (nonlinear_arith)
            requires
                n == m + 1,
        ;
        if 0 <= i < n && 0 <= j < width {
            if i < m {
                assert(width * i + j < width * m) by (nonlinear_arith)
                    requires
                        i + 1 <= m,
                        0 <= j < width,
                ;
                assert(0 <= width * i) by (nonlinear_arith)
                    requires
                        0 <= i,
                ;
            } else {
                assert(width * i == width * m);
            }
        }
    } else {
        assert(width * n == 0) by (nonlinear_arith)
            requires
                n == 0,
        ;
    }
}

/// What a collection of `n` shards does after `m` proofs that the fold took.
pub open spec fn after_forwarded(n: usize, m: nat) -> Collect
    decreases m,
{
    if m == 0 {
        collecting(n)
    } else {
        match after_forwarded(n, (m - 1) as nat) {
            Collect::Wait { left } => collected(left, Arrival::Forwarded),
            other => other,
        }
    }
}

/// A collection waits until the proof of every shard has been forwarded, and joins with the
/// last. A shard that fails ends it with an error, a proof that the fold no longer takes
/// without one.
pub proof fn lemma_collection_waits_for_all(n: usize, m: nat)
    requires
        m <= n,
    ensures
        m < n ==> after_forwarded(n, m) == (Collect::Wait { left: (n - m) as usize }),
        m == n ==> after_forwarded(n, m) == Collect::Join,
        forall|left: usize| left > 0 ==> #[trigger] collected(left, Arrival::Failed) == Collect::Fail,
        forall|left: usize| left > 0 ==> #[trigger] collected(left, Arrival::Dropped) == Collect::Join,
    decreases m,
{
    if m > 0 {
        lemma_collection_waits_for_all(n, (m - 1) as nat);
    }
}

/// A padded size is the least power of two that holds what is padded and is not below the
/// floor.
pub proof fn lemma_padded_size_is_least(n: nat, floor: nat, log: nat, other: nat)
    requires
        is_padded_log(n, floor, log),
    ensures
        n <= pow2(log),
        log >= floor,
        n <= pow2(other) && other >= floor ==> log <= other,
{
    if n <= pow2(other) && other >= floor && other < log {
        if other < log - 1 {
            lemma_pow2_strictly_increases(other, (log - 1) as nat);
        }
    }
}

/// What can be counted in a shard: there is something to run, and the steps of a shot, its
/// lookups, its runs and its qubits fit in 32 bits and in the machine's words.
pub proof fn lemma_what_is_countable(n_shots: nat, n_gates: nat, k: nat)
    ensures
        countable(n_shots, n_gates, k) <==> {
            let rows = n_shots * (k * n_gates);
            &&& k > 0 && n_gates > 0
            &&& k * n_gates < 0xffff_ffff
            &&& 3 * rows <= 0xffff_ffff && 3 * rows <= usize::MAX
            &&& n_shots * k <= 0xffff_ffff
            &&& n_shots * 512 <= 0xffff_ffff && n_shots * 512 <= usize::MAX / 2 + 1
            &&& n_gates <= usize::MAX / 2 + 1
        },
{
}

/// The shape of a shard: one row for each gate of each run of each shot, at least 64; one
/// slot for each gate, and one boundary row for each of 512 qubits of each shot, at least 16;
/// each padded to the least power of two. The largest of these tables and of the range
/// table sets the domain of the commitment.
pub proof fn lemma_shape_of_shard(s: &ShardShape, n_shots: nat, n_gates: nat, k: nat, log_blowup: u32, l: nat)
    requires
        s.fits(n_shots, n_gates, k, log_blowup),
    ensures
        s.n_rows == n_shots * (k * n_gates),
        s.n_rows <= pow2(s.log_n_rows as nat) && s.log_n_rows >= 6,
        l >= 6 && s.n_rows <= pow2(l) ==> s.log_n_rows <= l,
        s.padded_rows == pow2(s.log_n_rows as nat),
        n_gates <= pow2(s.program_log_size as nat) && s.program_log_size >= 4,
        l >= 4 && n_gates <= pow2(l) ==> s.program_log_size <= l,
        n_shots * 512 <= pow2(s.qubitmem_log_size as nat) && s.qubitmem_log_size >= 4,
        l >= 4 && n_shots * 512 <= pow2(l) ==> s.qubitmem_log_size <= l,
        s.max_log_size >= s.log_n_rows && s.max_log_size >= s.program_log_size,
        s.max_log_size >= s.qubitmem_log_size && s.max_log_size >= s.rc_log,
        s.max_log_size == s.log_n_rows || s.max_log_size == s.program_log_size || s.max_log_size
            == s.qubitmem_log_size || s.max_log_size == s.rc_log,
        s.config == pcs_of(s.max_log_size, log_blowup),
{
    lemma_padded_size_is_least(s.n_rows as nat, 6, s.log_n_rows as nat, l);
    lemma_padded_size_is_least(n_gates, 4, s.program_log_size as nat, l);
    lemma_padded_size_is_least(n_shots * 512, 4, s.qubitmem_log_size as nat, l);
}

/// A run cuts shards of as many shots as it asks for; asking for none is not to ask, and
/// then a shard has two.
pub proof fn lemma_shots_asked(n: usize)
    requires
        n > 0,
    ensures
        shots_asked(Some(n)) == n,
        shots_asked(Some(0)) == shots_asked(None),
        shots_asked(None) == 2,
{
}

} // verus!
