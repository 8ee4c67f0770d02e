//! Planning a run: which shots are proved, how they are cut into shards, and
//! how the shards are spread over devices and threads.
use vstd::prelude::*;

use crate::circuit::{circuit_of, parse_gtv1, Gate, ParseError, TestCase, N_QUBITS};
use crate::field::QM31;
use crate::hexes::{hex_bytes, is_hex};
use crate::recursion_consts::{pcs_of, CircuitConfig, OperatingPoint, PcsConfig, N_RESERVED};
use crate::recursion_consts::RECURSION_LOG_BLOWUP;
use crate::sizes::{is_padded_log, padded_size, LOG_MIN_ROWS};

use vstd::arithmetic::power2::pow2;

verus! {

/// The shots of a shard, unless a run asks for another number.
pub const SHOTS_PER_SHARD: usize = 2;

/// Sixty-four gibibytes.
pub const NONFOLD_BUILD_CAP_BYTES: u128 = 68_719_476_736;

/// Devices that prove shards side by side.
pub const MAX_BASE_GPUS: usize = 16;

/// Threads of a pool, unless a run asks for another number.
pub const POOL_THREADS: usize = 24;

/// A circuit and its test vectors.
pub struct Fixture {
    pub version: String,
    pub repetitions: usize,
    pub n_samples: usize,
    pub num_qubits: usize,
    pub circuit_byte_serialisation_hex: String,
    pub test_cases: Vec<TestCase>,
}

/// Why a fixture cannot be run.
#[derive(Clone, Copy, Debug, PartialEq, Eq, Structural)]
pub enum RunError {
    /// The fixture is of another version.
    Version,
    /// The circuit does not have 512 qubits.
    Qubits { got: usize },
    Circuit(ParseError),
    /// There are no samples, or no repetitions.
    Empty,
}

/// What is run: the circuit, how often, and on how many test vectors.
pub struct RunPlan {
    pub gates: Vec<Gate>,
    pub k: usize,
    pub samples: usize,
}

/// The circuit that a text holds.
pub open spec fn text_circuit(s: Seq<char>) -> Result<Seq<Gate>, ParseError> {
    if !is_hex(s) {
        Err(ParseError::Hex)
    } else {
        circuit_of(hex_bytes(s))
    }
}

pub open spec fn min_of(a: int, b: int) -> int {
    if a < b {
        a
    } else {
        b
    }
}

/// The repetitions that are run: those asked for, else the fixture's.
pub open spec fn run_k(f: &Fixture, repetitions: Option<usize>) -> usize {
    match repetitions {
        Some(k) => k,
        None => f.repetitions,
    }
}

/// The test vectors that are run: those asked for, as far as there are any.
pub open spec fn run_samples(f: &Fixture, samples: usize) -> int {
    min_of(min_of(samples as int, f.n_samples as int), f.test_cases@.len() as int)
}

/// The first thing that stands against running a fixture.
pub open spec fn run_refusal(f: &Fixture, samples: usize, repetitions: Option<usize>) -> Option<RunError> {
    if f.version@ != "v0.3-iadd"@ {
        Some(RunError::Version)
    } else if f.num_qubits != N_QUBITS {
        Some(RunError::Qubits { got: f.num_qubits })
    } else {
        match text_circuit(f.circuit_byte_serialisation_hex@) {
            Err(e) => Some(RunError::Circuit(e)),
            Ok(_) => if run_samples(f, samples) == 0 || run_k(f, repetitions) == 0 {
                Some(RunError::Empty)
            } else {
                None
            },
        }
    }
}

/// Checks a fixture and decides what is run.
pub fn plan_run(fixture: &Fixture, samples: usize, repetitions: Option<usize>) -> (r: Result<
    RunPlan,
    RunError,
>)
    ensures
        match run_refusal(fixture, samples, repetitions) {
            Some(e) => r == Err::<RunPlan, RunError>(e),
            None => r is Ok && text_circuit(fixture.circuit_byte_serialisation_hex@) == Ok::<
                Seq<Gate>,
                ParseError,
            >(r->Ok_0.gates@) && r->Ok_0.k == run_k(fixture, repetitions) && r->Ok_0.samples
                == run_samples(fixture, samples),
        },
{
    let expected: String = "v0.3-iadd".to_owned();
    if fixture.version != expected {
        return Err(RunError::Version);
    }
    if fixture.num_qubits != N_QUBITS {
        return Err(RunError::Qubits { got: fixture.num_qubits });
    }
    let gates = match parse_gtv1(fixture.circuit_byte_serialisation_hex.as_str()) {
        Ok(g) => g,
        Err(e) => {
            return Err(RunError::Circuit(e));
        },
    };
    let k: usize = match repetitions {
        Some(k) => k,
        None => fixture.repetitions,
    };
    let mut n: usize = samples;
    if fixture.n_samples < n {
        n = fixture.n_samples;
    }
    if fixture.test_cases.len() < n {
        n = fixture.test_cases.len();
    }
    if n == 0 || k == 0 {
        return Err(RunError::Empty);
    }
    Ok(RunPlan { gates, k, samples: n })
}

/// The rows of a run: one per executed gate, and the power of two they pad to,
/// with its exponent.
pub fn row_sizes(samples: usize, k: usize, n_gates: usize) -> (r: (usize, usize, u32))
    requires
        samples * k <= usize::MAX,
        samples * k * n_gates <= usize::MAX / 2 + 1,
    ensures
        r.0 == samples * k * n_gates,
        r.1 == pow2(r.2 as nat),
        is_padded_log(r.0 as nat, LOG_MIN_ROWS as nat, r.2 as nat),
{
    let n_rows: usize = samples * k * n_gates;
    let (padded, log) = padded_size(n_rows, LOG_MIN_ROWS);
    (n_rows, padded, log)
}

/// A switch that is on unless it is set to one of three words.
pub fn env_flag_default_on(value: Option<&str>) -> (r: bool)
    ensures
        r == !(value is Some && (value->Some_0@ == "0"@ || value->Some_0@ == "false"@
            || value->Some_0@ == "FALSE"@)),
{
    match value {
        Some(v) => {
            let text: String = v.to_owned();
            !(text == "0".to_owned() || text == "false".to_owned() || text == "FALSE".to_owned())
        },
        None => true,
    }
}

/// A switch that is off unless it is set, and then on but for the same three words.
pub fn pipeline_asked(value: Option<&str>) -> (r: bool)
    ensures
        r == (value is Some && value->Some_0@ != "0"@ && value->Some_0@ != "false"@
            && value->Some_0@ != "FALSE"@),
{
    value.is_some() && env_flag_default_on(value)
}

/// A proof of one piece would need more memory than a single proof ever does:
/// the gibibytes that it would take.
pub fn oversized_build(real_rows: usize, row_bytes: usize) -> (r: Option<u128>)
    ensures
        real_rows * row_bytes <= NONFOLD_BUILD_CAP_BYTES ==> r is None,
        real_rows * row_bytes > NONFOLD_BUILD_CAP_BYTES ==> r == Some(
            (real_rows * row_bytes / 1_073_741_824) as u128,
        ),
        r matches Some(g) ==> 64 <= g && g * 1_073_741_824 <= real_rows * row_bytes && real_rows
            * row_bytes < (g + 1) * 1_073_741_824,
        r is None ==> real_rows * row_bytes <= 64 * 1_073_741_824,
{
    assert(real_rows * row_bytes <= 0xffff_ffff_ffff_ffff * 0xffff_ffff_ffff_ffff)
        by (nonlinear_arith)
        requires
            real_rows <= 0xffff_ffff_ffff_ffff,
            row_bytes <= 0xffff_ffff_ffff_ffff,
    ;
    let bytes: u128 = (real_rows as u128) * (row_bytes as u128);
    if bytes > NONFOLD_BUILD_CAP_BYTES {
        Some(bytes / 1_073_741_824)
    } else {
        None
    }
}

/// The shots per shard of a run that asks for `asked`.
pub open spec fn shots_asked(asked: Option<usize>) -> usize {
    match asked {
        Some(n) => if n > 0 {
            n
        } else {
            SHOTS_PER_SHARD
        },
        None => SHOTS_PER_SHARD,
    }
}

/// The shots per shard that a run asks for: any positive number, else two.
pub fn shots_per_shard_knob(asked: Option<usize>) -> (r: usize)
    ensures
        r == (match asked {
            Some(n) => if n > 0 {
                n
            } else {
                SHOTS_PER_SHARD
            },
            None => SHOTS_PER_SHARD,
        }),
        r == shots_asked(asked),
        r > 0,
{
    match asked {
        Some(n) => if n > 0 {
            n
        } else {
            SHOTS_PER_SHARD
        },
        None => SHOTS_PER_SHARD,
    }
}

/// How samples are cut into shards of one size.
#[derive(Clone, Copy, Debug, PartialEq, Eq, Structural)]
pub struct ShardPlan {
    pub shots_per_shard: usize,
    pub n_shards: usize,
}

impl ShardPlan {
    /// As few shards as hold all samples, none of them larger than asked or than
    /// the samples.
    pub open spec fn cuts(&self, samples: int, asked: int) -> bool {
        &&& self.shots_per_shard == min_of(asked, samples)
        &&& (self.n_shards - 1) * self.shots_per_shard < samples
        &&& samples <= self.n_shards * self.shots_per_shard
    }
}

/// Cuts samples into shards.
pub fn plan_shards(samples: usize, asked: usize) -> (r: ShardPlan)
    requires
        samples > 0,
        asked > 0,
    ensures
        r.cuts(samples as int, asked as int),
{
    let shots_per_shard: usize = if asked < samples { asked } else { samples };
    let full: usize = samples / shots_per_shard;
    let rest: usize = samples % shots_per_shard;
    proof {
        vstd::arithmetic::div_mod::lemma_fundamental_div_mod(
            samples as int,
            shots_per_shard as int,
        );
        assert(full <= samples) by (nonlinear_arith)
            requires
                samples == shots_per_shard * full + rest,
                shots_per_shard >= 1,
                rest >= 0,
                full >= 0,
        ;
        if rest != 0 && full == samples {
            assert(shots_per_shard * full >= full) by (nonlinear_arith)
                requires
                    shots_per_shard >= 1,
                    full >= 0,
            ;
        }
    }
    let n_shards: usize = if rest == 0 { full } else { full + 1 };
    proof {
        assert((n_shards - 1) * shots_per_shard < samples && samples <= n_shards * shots_per_shard)
            by (nonlinear_arith)
            requires
                samples == shots_per_shard * full + rest,
                0 <= rest < shots_per_shard,
                n_shards == (if rest == 0 {
                    full as int
                } else {
                    full + 1
                }),
        ;
    }
    ShardPlan { shots_per_shard, n_shards }
}

/// The test vector that stands at place `j` of shard `s`: the next one in order,
/// or the last one again where there are no more.
pub open spec fn shard_case(samples: int, shots: int, s: int, j: int) -> int {
    min_of(s * shots + j, samples - 1)
}

fn copy_case(c: &TestCase) -> (r: TestCase)
    ensures
        r == *c,
{
    TestCase { x_hex: c.x_hex.clone(), y_hex: c.y_hex.clone() }
}

/// The test vectors of every shard. All shards have the same size: the last one
/// repeats its last test vector as often as it takes.
pub fn shard_case_sets(cases: &[TestCase], plan: &ShardPlan) -> (r: Vec<Vec<TestCase>>)
    requires
        cases@.len() > 0,
        plan.cuts(cases@.len() as int, plan.shots_per_shard as int),
        plan.shots_per_shard > 0,
        plan.n_shards > 0,
        plan.n_shards * plan.shots_per_shard <= usize::MAX,
    ensures
        r@.len() == plan.n_shards,
        forall|s: int| 0 <= s < r@.len() ==> (#[trigger] r@[s])@.len() == plan.shots_per_shard,
        forall|s: int, j: int|
            0 <= s < r@.len() && 0 <= j < plan.shots_per_shard ==> #[trigger] r@[s]@[j]
                == cases@[shard_case(cases@.len() as int, plan.shots_per_shard as int, s, j)],
{
    let shots: usize = plan.shots_per_shard;
    let samples: usize = cases.len();
    let mut sets: Vec<Vec<TestCase>> = Vec::new();
    let mut s: usize = 0;
    while s < plan.n_shards
        invariant
            s <= plan.n_shards,
            samples == cases@.len(),
            samples > 0,
            shots == plan.shots_per_shard,
            shots > 0,
            plan.cuts(samples as int, shots as int),
            plan.n_shards * shots <= usize::MAX,
            sets@.len() == s,
            forall|i: int| 0 <= i < s ==> (#[trigger] sets@[i])@.len() == shots,
            forall|i: int, j: int|
                0 <= i < s && 0 <= j < shots ==> #[trigger] sets@[i]@[j] == cases@[shard_case(
                    samples as int,
                    shots as int,
                    i,
                    j,
                )],
        decreases plan.n_shards - s,
    {
        proof {
            assert(s * shots <= (plan.n_shards - 1) * shots) by (nonlinear_arith)
                requires
                    s <= plan.n_shards - 1,
            ;
            assert((plan.n_shards - 1) * shots + shots == plan.n_shards * shots)
                by (nonlinear_arith);
        }
        let start: usize = s * shots;
        let mut v: Vec<TestCase> = Vec::new();
        while v.len() < shots
            invariant
                v@.len() <= shots,
                samples == cases@.len(),
                samples > 0,
                start == s * shots,
                start < samples,
                start + shots <= usize::MAX,
                forall|j: int|
                    0 <= j < v@.len() ==> #[trigger] v@[j] == cases@[shard_case(
                        samples as int,
                        shots as int,
                        s as int,
                        j,
                    )],
            decreases shots - v.len(),
        {
            let next: usize = start + v.len();
            let at: usize = if next < samples { next } else { samples - 1 };
            v.push(copy_case(&cases[at]));
        }
        sets.push(v);
        s += 1;
    }
    sets
}

/// The shards cover the samples: every test vector stands in exactly the shard,
/// and at the place, that counting in order gives, and only the last shard
/// repeats one.
pub proof fn lemma_shards_cover(samples: int, plan: &ShardPlan, i: int)
    requires
        plan.cuts(samples, plan.shots_per_shard as int),
        plan.shots_per_shard > 0,
        0 <= i < samples,
    ensures
        0 <= i / plan.shots_per_shard as int,
        i / (plan.shots_per_shard as int) < plan.n_shards,
        shard_case(
            samples,
            plan.shots_per_shard as int,
            i / plan.shots_per_shard as int,
            i % plan.shots_per_shard as int,
        ) == i,
        forall|s: int, j: int|
            0 <= s < plan.n_shards - 1 && 0 <= j < plan.shots_per_shard ==> #[trigger] shard_case(
                samples,
                plan.shots_per_shard as int,
                s,
                j,
            ) == s * plan.shots_per_shard + j,
{
    let d = plan.shots_per_shard as int;
    let n = plan.n_shards as int;
    vstd::arithmetic::div_mod::lemma_fundamental_div_mod(i, d);
    vstd::arithmetic::div_mod::lemma_mod_bound(i, d);
    vstd::arithmetic::div_mod::lemma_div_pos_is_pos(i, d);
    let q = i / d;
    let r = i % d;
    assert(q < n && q * d + r == i) by (nonlinear_arith)
        requires
            i == d * q + r,
            0 <= r < d,
            i < n * d,
    ;
    assert forall|s: int, j: int|
        0 <= s < n - 1 && 0 <= j < d implies #[trigger] shard_case(samples, d, s, j) == s * d + j by {
        assert(s * d + j < samples) by (nonlinear_arith)
            requires
                s <= n - 2,
                0 <= j < d,
                (n - 1) * d < samples,
        ;
    }
}

/// Base proving overlaps with the recursion if this is switched on and there is
/// more than one shard.
pub fn pipelined(enabled: bool, n_shards: usize) -> (r: bool)
    ensures
        r == (enabled && n_shards > 1),
{
    enabled && n_shards > 1
}

/// Several devices were asked for without the overlap that they need.
#[derive(Clone, Copy, Debug, PartialEq, Eq, Structural)]
pub struct NeedsPipeline {
    pub base_gpus: usize,
}

/// The devices that a run asks for.
pub open spec fn gpus_asked(asked: Option<usize>) -> usize {
    match asked {
        Some(g) => if g >= 1 {
            g
        } else {
            1
        },
        None => 1,
    }
}

/// The devices that prove shards: without a device build one, else those asked
/// for, all of which must be there. Several devices need the overlap.
pub fn base_gpus(asked: Option<usize>, device_build: bool, visible: usize, pipeline: bool) -> (r:
    Result<usize, NeedsPipeline>)
    requires
        device_build && gpus_asked(asked) > 1 ==> visible >= gpus_asked(asked),
    ensures
        r == (if !device_build {
            Ok::<usize, NeedsPipeline>(1)
        } else if gpus_asked(asked) > 1 && !pipeline {
            Err(NeedsPipeline { base_gpus: gpus_asked(asked) })
        } else {
            Ok(gpus_asked(asked))
        }),
        r matches Ok(g) ==> g >= 1 && (g > 1 ==> device_build && pipeline && g <= visible),
        r is Err ==> device_build && !pipeline && asked is Some && asked->Some_0 > 1,
{
    let requested: usize = match asked {
        Some(g) => if g >= 1 {
            g
        } else {
            1
        },
        None => 1,
    };
    let gpus: usize = if device_build { requested } else { 1 };
    if gpus > 1 && !pipeline {
        return Err(NeedsPipeline { base_gpus: gpus });
    }
    Ok(gpus)
}

/// The threads that prove shards: one per device, but not more than shards.
pub fn producers(base_gpus: usize, n_shards: usize) -> (r: usize)
    ensures
        r == min_of(
            base_gpus as int,
            if n_shards > 0 {
                n_shards as int
            } else {
                1
            },
        ),
        r <= base_gpus,
        n_shards > 0 ==> r <= n_shards,
        r == base_gpus || r == n_shards || r == 1,
        base_gpus > 0 ==> r > 0,
{
    let shards: usize = if n_shards > 0 { n_shards } else { 1 };
    if base_gpus < shards {
        base_gpus
    } else {
        shards
    }
}

/// The shards below `n` that fall to producer `gpu` of `g`, in order.
pub open spec fn is_turn(r: Seq<usize>, n: int, g: int, gpu: int) -> bool {
    &&& forall|i: int| 0 <= i < r.len() ==> #[trigger] r[i] < n && r[i] as int % g == gpu
    &&& forall|i: int, j: int| 0 <= i < j < r.len() ==> r[i] < r[j]
    &&& forall|s: int| 0 <= s < n && #[trigger] (s % g) == gpu ==> r.contains(s as usize)
}

/// The shards of producer `gpu` of `g`, taken in turns.
pub fn producer_shards(n_shards: usize, g: usize, gpu: usize) -> (r: Vec<usize>)
    requires
        0 < g,
        gpu < g,
    ensures
        is_turn(r@, n_shards as int, g as int, gpu as int),
{
    let mut r: Vec<usize> = Vec::new();
    let mut s: usize = 0;
    while s < n_shards
        invariant
            s <= n_shards,
            0 < g,
            forall|i: int|
                0 <= i < r@.len() ==> #[trigger] r@[i] < s && r@[i] as int % g as int == gpu,
            forall|i: int, j: int| 0 <= i < j < r@.len() ==> r@[i] < r@[j],
            forall|t: int|
                0 <= t < s && #[trigger] (t % g as int) == gpu ==> r@.contains(t as usize),
        decreases n_shards - s,
    {
        let ghost before = r@;
        if s % g == gpu {
            r.push(s);
            proof {
                assert(r@[r@.len() - 1] == s);
                assert forall|t: int| 0 <= t < s + 1 && #[trigger] (t % g as int) == gpu implies r@.contains(
                    t as usize,
                ) by {
                    if t < s {
                        assert(before.contains(t as usize));
                        let i = choose|i: int| 0 <= i < before.len() && before[i] == t as usize;
                        assert(r@[i] == t as usize);
                    }
                }
            }
        }
        s += 1;
    }
    r
}

/// Every shard has exactly one producer.
pub proof fn lemma_one_producer_per_shard(lists: Seq<Seq<usize>>, n_shards: usize, s: usize)
    requires
        lists.len() > 0,
        forall|gpu: int|
            0 <= gpu < lists.len() ==> is_turn(
                #[trigger] lists[gpu],
                n_shards as int,
                lists.len() as int,
                gpu,
            ),
        s < n_shards,
    ensures
        0 <= s as int % lists.len() as int,
        (s as int % lists.len() as int) < lists.len(),
        forall|gpu: int|
            0 <= gpu < lists.len() ==> ((#[trigger] lists[gpu]).contains(s) <==> gpu == s as int
                % lists.len() as int),
{
    let g = lists.len() as int;
    vstd::arithmetic::div_mod::lemma_mod_bound(s as int, g);
    assert forall|gpu: int| 0 <= gpu < g implies ((#[trigger] lists[gpu]).contains(s) <==> gpu
        == s as int % g) by {
        assert(is_turn(lists[gpu], n_shards as int, g, gpu));
        if lists[gpu].contains(s) {
            let i = choose|i: int| 0 <= i < lists[gpu].len() && lists[gpu][i] == s;
            assert(lists[gpu][i] as int % g == gpu);
        }
        if gpu == s as int % g {
            assert((s as int) % g == gpu);
        }
    }
}

/// What arrives at the thread that collects the shards' proofs.
#[derive(Clone, Copy, Debug, PartialEq, Eq, Structural)]
pub enum Arrival {
    /// A shard's proof, which the fold took.
    Forwarded,
    /// A shard's proof, which the fold no longer takes.
    Dropped,
    /// A shard that could not be proved.
    Failed,
}

/// What the collecting thread does next.
#[derive(Clone, Copy, Debug, PartialEq, Eq, Structural)]
pub enum Collect {
    /// Waits for the next shard; `left` are still missing.
    Wait { left: usize },
    /// Stops and joins the fold, whose result or failure counts.
    Join,
    /// Stops and returns the shard's error, whatever the fold says.
    Fail,
}

/// The state in which a collection of `n` shards starts.
pub open spec fn collecting(n: usize) -> Collect {
    if n == 0 {
        Collect::Join
    } else {
        Collect::Wait { left: n }
    }
}

/// The start of the collection.
pub fn collect_start(n_shards: usize) -> (r: Collect)
    ensures
        r == collecting(n_shards),
{
    if n_shards == 0 {
        Collect::Join
    } else {
        Collect::Wait { left: n_shards }
    }
}

/// What an arrival leads to while `left` shards are missing.
pub open spec fn collected(left: usize, arrival: Arrival) -> Collect {
    match arrival {
        Arrival::Failed => Collect::Fail,
        Arrival::Dropped => Collect::Join,
        Arrival::Forwarded => if left == 1 {
            Collect::Join
        } else {
            Collect::Wait { left: (left - 1) as usize }
        },
    }
}

/// One arrival of the collection.
pub fn collect_step(left: usize, arrival: Arrival) -> (r: Collect)
    requires
        left > 0,
    ensures
        r == collected(left, arrival),
{
    match arrival {
        Arrival::Failed => Collect::Fail,
        Arrival::Dropped => Collect::Join,
        Arrival::Forwarded => if left == 1 {
            Collect::Join
        } else {
            Collect::Wait { left: left - 1 }
        },
    }
}

/// The pools that prove leaves side by side, and the threads of each. A single
/// pool has no more threads than there are cores.
pub fn pool_plan(pool_threads: usize, cores: usize) -> (r: (usize, usize))
    requires
        pool_threads > 0,
    ensures
        r.0 == (if cores < pool_threads {
            1int
        } else {
            cores as int / pool_threads as int
        }),
        r.1 == (if r.0 == 1 {
            min_of(pool_threads as int, cores as int)
        } else {
            pool_threads as int
        }),
        r.0 > 0,
        r.1 <= pool_threads,
        r.0 * r.1 <= cores,
        cores < (r.0 + 1) * pool_threads,
        cores >= pool_threads ==> r.1 == pool_threads,
{
    let fit: usize = cores / pool_threads;
    proof {
        vstd::arithmetic::div_mod::lemma_fundamental_div_mod(cores as int, pool_threads as int);
        vstd::arithmetic::div_mod::lemma_mod_bound(cores as int, pool_threads as int);
        assert((fit == 0) == (cores < pool_threads)) by (nonlinear_arith)
            requires
                cores == pool_threads * fit + cores as int % pool_threads as int,
                0 <= cores as int % pool_threads as int,
                (cores as int % pool_threads as int) < pool_threads,
                fit >= 0,
        ;
    }
    let n_pools: usize = if fit > 0 { fit } else { 1 };
    let threads: usize = if n_pools == 1 && cores < pool_threads { cores } else { pool_threads };
    proof {
        let (n, t, p, rest) = (n_pools as int, threads as int, pool_threads as int, cores as int % pool_threads as int);
        assert(n * t <= cores && cores < (n + 1) * p) by (nonlinear_arith)
            requires
                cores == p * fit + rest,
                0 <= rest < p,
                fit >= 0,
                n == (if fit > 0 {
                    fit as int
                } else {
                    1
                }),
                t == (if fit > 0 {
                    p
                } else {
                    cores as int
                }),
        ;
    }
    (n_pools, threads)
}

/// What the unpacker of an operating point is verified against.
pub fn pinned_unpacker_config(op: OperatingPoint, n: usize) -> (r: CircuitConfig)
    requires
        n == op.shards(),
    ensures
        r.config == pcs_of(20, RECURSION_LOG_BLOWUP),
        r.n_outputs == n * N_RESERVED,
        r.preprocessed_column_log_sizes@ == op.unpacker_columns(),
        r.preprocessed_root == op.pinned_unpacker_root(),
{
    op.unpacker_config(n)
}

/// The seed and the number of padding values that blind the final proof: one
/// value per query.
pub fn zk_blinding(node_pcs: &PcsConfig) -> (r: ([u8; 32], usize))
    ensures
        r.0@ == Seq::new(32, |i: int| 7u8),
        r.1 == node_pcs.fri_config.n_queries,
{
    let seed: [u8; 32] = [7u8; 32];
    assert(seed@ =~= Seq::new(32, |i: int| 7u8));
    (seed, node_pcs.fri_config.n_queries)
}

/// The outputs of the first `n` leaves, one after the other.
pub open spec fn flat_outputs(leaves: Seq<Vec<QM31>>, n: nat) -> Seq<QM31>
    decreases n,
{
    if n == 0 {
        Seq::empty()
    } else {
        flat_outputs(leaves, (n - 1) as nat) + leaves[n - 1]@
    }
}

/// The public values of the final proof: the outputs of all leaves, in order.
pub fn root_output_values(leaves: &[Vec<QM31>]) -> (r: Vec<QM31>)
    ensures
        r@ == flat_outputs(leaves@, leaves@.len()),
{
    let mut r: Vec<QM31> = Vec::new();
    let mut i: usize = 0;
    while i < leaves.len()
        invariant
            i <= leaves@.len(),
            r@ == flat_outputs(leaves@, i as nat),
        decreases leaves.len() - i,
    {
        let leaf = &leaves[i];
        let ghost before = r@;
        let mut j: usize = 0;
        while j < leaf.len()
            invariant
                j <= leaf@.len(),
                r@ == before + leaf@.take(j as int),
            decreases leaf.len() - j,
        {
            r.push(leaf[j]);
            assert(before + leaf@.take(j + 1) =~= (before + leaf@.take(j as int)).push(
                leaf@[j as int],
            ));
            j += 1;
        }
        assert(leaf@.take(leaf@.len() as int) =~= leaf@);
        i += 1;
    }
    r
}

} // verus!
