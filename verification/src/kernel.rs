//! Handing the main component's constraints to a device kernel: when the kernel
//! applies, what it is given, and which columns it reads from where.
use vstd::arithmetic::power2::{lemma2_to64, lemma_pow2_strictly_increases, pow2};
use vstd::prelude::*;

use crate::circuit_statement::interaction_width;
use crate::components::{gate_checks, gate_entries, TRACE_COLUMNS};
use crate::field::{lemma_mul_assoc, lemma_mul_comm, lemma_mul_one, Ext, QM31};
use crate::logup::{views, Relation};
use crate::qubit_memory_lookups::{rel_ok, GATE_REL_WIDTH, N_LOGUP_COLS};
use crate::sizes::power_of_two;

verus! {

/// The shape of the main component.
pub const GATE_AIR_TRACE_COLUMNS: usize = 19;

pub const GATE_AIR_INTERACTION_COLUMNS: usize = 20;

pub const GATE_AIR_PREPROCESSED_COLUMNS: usize = 4;

/// Fifteen constraints of a gate and one per pair of lookups.
pub const GATE_AIR_N_CONSTRAINTS: usize = 20;

pub const GATE_AIR_LOGUP_COUNTS: u32 = 10;

pub const GATE_AIR_REL_WIDTH: usize = 6;

/// The 32-bit FNV-1a hash of the first `n` bytes.
pub open spec fn fnv(s: Seq<u8>, n: nat) -> u32
    decreases n,
{
    if n == 0 {
        0x811C_9DC5
    } else {
        (((fnv(s, (n - 1) as nat) ^ (s[n - 1] as u32)) * 0x0100_0193) % 0x1_0000_0000) as u32
    }
}

/// The 32-bit FNV-1a hash.
pub fn fnv1a(s: &[u8]) -> (r: u32)
    ensures
        r == fnv(s@, s@.len()),
{
    let mut hash: u32 = 0x811C_9DC5;
    let mut i: usize = 0;
    while i < s.len()
        invariant
            i <= s@.len(),
            hash == fnv(s@, i as nat),
        decreases s.len() - i,
    {
        hash = (hash ^ (s[i] as u32)).wrapping_mul(0x0100_0193);
        i += 1;
    }
    hash
}

/// The name of the main component.
pub open spec fn main_name() -> Seq<u8> {
    // "gate_air_main"
    seq![0x67, 0x61, 0x74, 0x65, 0x5f, 0x61, 0x69, 0x72, 0x5f, 0x6d, 0x61, 0x69, 0x6e]
}

/// The number by which the kernel knows the main component: the hash of its name.
pub fn gate_air_eval_id() -> (r: u32)
    ensures
        r == fnv(main_name(), 13),
{
    let name: [u8; 13] = [
        0x67,
        0x61,
        0x74,
        0x65,
        0x5f,
        0x61,
        0x69,
        0x72,
        0x5f,
        0x6d,
        0x61,
        0x69,
        0x6e,
    ];
    assert(name@ =~= main_name());
    fnv1a(name.as_slice())
}

/// So many constraints and columns are those of the main component.
pub open spec fn is_main_shape(constraints: int, main: int, interaction: int, public: int) -> bool {
    constraints == 20 && main == 19 && interaction == 20 && public == 4
}

/// A component has the shape of the main component.
pub fn is_gate_air_main(
    n_constraints: usize,
    n_main_columns: usize,
    n_interaction_columns: usize,
    n_preprocessed_columns: usize,
) -> (r: bool)
    ensures
        r == (n_constraints == 20 && n_main_columns == 19 && n_interaction_columns == 20
            && n_preprocessed_columns == 4),
        r == is_main_shape(
            n_constraints as int,
            n_main_columns as int,
            n_interaction_columns as int,
            n_preprocessed_columns as int,
        ),
{
    n_constraints == GATE_AIR_N_CONSTRAINTS && n_main_columns == GATE_AIR_TRACE_COLUMNS
        && n_interaction_columns == GATE_AIR_INTERACTION_COLUMNS && n_preprocessed_columns
        == GATE_AIR_PREPROCESSED_COLUMNS
}

/// A field element as its four coordinates.
pub fn secure_to_m31x4(x: QM31) -> (r: [u32; 4])
    ensures
        r@ == seq![x.a, x.b, x.c, x.d],
{
    let r: [u32; 4] = [x.a, x.b, x.c, x.d];
    assert(r@ =~= seq![x.a, x.b, x.c, x.d]);
    r
}

/// Four coordinates stand for a field element.
pub open spec fn stands_for(w: [u32; 4], x: Ext) -> bool {
    w@[0] == x.a && w@[1] == x.b && w@[2] == x.c && w@[3] == x.d
}

/// The challenges of a relation as coordinates: `z` and the powers of `alpha`.
pub fn gate_air_relation_m31x4(rel: &Relation) -> (r: ([u32; 4], Vec<[u32; 4]>))
    requires
        rel_ok(rel),
    ensures
        stands_for(r.0, rel.z@),
        r.1@.len() == GATE_REL_WIDTH,
        forall|i: int|
            0 <= i < GATE_REL_WIDTH ==> stands_for(#[trigger] r.1@[i], rel.alpha_powers@[i]@),
{
    let (z, powers) = rel.extract_z_alpha();
    let mut out: Vec<[u32; 4]> = Vec::new();
    let mut i: usize = 0;
    assert(views(powers@).len() == views(rel.alpha_powers@).len());
    while i < powers.len()
        invariant
            i <= powers@.len(),
            views(powers@) == views(rel.alpha_powers@),
            powers@.len() == rel.alpha_powers@.len(),
            out@.len() == i,
            forall|j: int| 0 <= j < i ==> stands_for(#[trigger] out@[j], rel.alpha_powers@[j]@),
        decreases powers.len() - i,
    {
        out.push(secure_to_m31x4(powers[i]));
        proof {
            assert(views(powers@)[i as int] == views(rel.alpha_powers@)[i as int]);
        }
        i += 1;
    }
    (secure_to_m31x4(z), out)
}

/// The challenges as the kernel takes them.
pub type Installed = ([u32; 4], [[u32; 4]; 6]);

/// Where a thread that proves a shard leaves the shard's challenges for the
/// kernel. Each such thread has one of its own, so that no two shards mix theirs.
pub struct RelationSlot {
    pub installed: Option<Installed>,
}

impl RelationSlot {
    pub fn new() -> (r: RelationSlot)
        ensures
            r.installed is None,
    {
        RelationSlot { installed: None }
    }
}

/// Leaves the challenges of a shard for the kernel: `z` and six powers of `alpha`.
pub fn set_gate_air_relation(slot: &mut RelationSlot, z: [u32; 4], alpha_powers: &[[u32; 4]])
    requires
        alpha_powers@.len() == GATE_AIR_REL_WIDTH,
    ensures
        final(slot).installed is Some,
        final(slot).installed->Some_0.0 == z,
        final(slot).installed->Some_0.1@ == alpha_powers@,
{
    let ap: [[u32; 4]; 6] = [
        alpha_powers[0],
        alpha_powers[1],
        alpha_powers[2],
        alpha_powers[3],
        alpha_powers[4],
        alpha_powers[5],
    ];
    assert(ap@ =~= alpha_powers@);
    slot.installed = Some((z, ap));
}

/// What the kernel evaluates.
#[derive(Clone, Copy, Debug)]
pub struct GateAirEvalFfi {
    pub eval_id: u32,
    pub log_n_rows: u32,
    pub z: [u32; 4],
    pub alpha: [u32; 4],
    pub alpha_powers: [[u32; 4]; 6],
}

impl GateAirEvalFfi {
    /// The main component under given challenges; `alpha` is its first power.
    pub fn new_with_relation(log_n_rows: u32, z: [u32; 4], alpha_powers: [[u32; 4]; 6]) -> (r:
        GateAirEvalFfi)
        ensures
            r.eval_id == fnv(main_name(), 13),
            r.log_n_rows == log_n_rows,
            r.z == z,
            r.alpha == alpha_powers@[1],
            r.alpha_powers == alpha_powers,
    {
        GateAirEvalFfi {
            eval_id: gate_air_eval_id(),
            log_n_rows,
            z,
            alpha: alpha_powers[1],
            alpha_powers,
        }
    }
}

/// A column of a trace: its address on the device and, where its values were
/// moved out to the host, their address there.
#[derive(Clone, Copy, Debug, PartialEq, Eq, Structural)]
pub struct ColumnPlace {
    pub device: u64,
    pub staged: Option<u64>,
}

/// From where the kernel reads a tree's columns.
pub struct TreeSupply {
    /// Staged columns that are brought back to the device before the kernel runs.
    pub rehydrate: Vec<usize>,
    /// Per column the host address of its values, none if they are on the device;
    /// no table if all columns are on the device.
    pub host: Option<Vec<Option<u64>>>,
    /// How many columns are staged.
    pub n_staged: usize,
}

pub open spec fn is_staged(c: ColumnPlace) -> bool {
    c.staged is Some
}

/// The staged columns among the first `n`, in order.
pub open spec fn staged_columns(cols: Seq<ColumnPlace>, n: nat) -> Seq<int>
    decreases n,
{
    if n == 0 {
        Seq::empty()
    } else if is_staged(cols[n - 1]) {
        staged_columns(cols, (n - 1) as nat).push(n - 1)
    } else {
        staged_columns(cols, (n - 1) as nat)
    }
}

impl TreeSupply {
    /// With `full`, every staged column is brought back and none is read from the
    /// host. Else staged columns are read from the host, if there are any.
    pub open spec fn serves(&self, cols: Seq<ColumnPlace>, full: bool) -> bool {
        let staged = staged_columns(cols, cols.len());
        &&& self.n_staged == staged.len()
        &&& self.rehydrate@.len() == (if full {
            staged.len()
        } else {
            0
        })
        &&& forall|i: int|
            0 <= i < self.rehydrate@.len() ==> #[trigger] self.rehydrate@[i] == staged[i]
        &&& self.host is Some <==> !full && staged.len() > 0
        &&& self.host matches Some(t) ==> t@ == Seq::new(cols.len(), |i: int| cols[i].staged)
    }
}

/// Decides from where the kernel reads a tree's columns.
pub fn supply_tree(cols: &[ColumnPlace], full: bool) -> (r: TreeSupply)
    ensures
        r.serves(cols@, full),
{
    let mut rehydrate: Vec<usize> = Vec::new();
    let mut table: Vec<Option<u64>> = Vec::new();
    let mut n_staged: usize = 0;
    let mut c: usize = 0;
    while c < cols.len()
        invariant
            c <= cols@.len(),
            n_staged == staged_columns(cols@, c as nat).len(),
            n_staged <= c,
            rehydrate@.len() == (if full {
                n_staged as int
            } else {
                0
            }),
            forall|i: int|
                0 <= i < rehydrate@.len() ==> #[trigger] rehydrate@[i] == staged_columns(
                    cols@,
                    c as nat,
                )[i],
            table@.len() == c,
            forall|i: int| 0 <= i < c ==> #[trigger] table@[i] == cols@[i].staged,
        decreases cols.len() - c,
    {
        if cols[c].staged.is_some() {
            n_staged += 1;
            if full {
                rehydrate.push(c);
            }
        }
        table.push(cols[c].staged);
        c += 1;
    }
    assert(table@ =~= Seq::new(cols@.len(), |i: int| cols@[i].staged));
    let host = if !full && n_staged > 0 { Some(table) } else { None };
    TreeSupply { rehydrate, host, n_staged }
}

/// What a run of the kernel is given.
pub struct KernelDispatch {
    pub eval: GateAirEvalFfi,
    pub tree0: TreeSupply,
    pub tree1: TreeSupply,
    pub tree2: TreeSupply,
    pub number_of_columns: u32,
    pub logup_counts: u32,
}

/// Prepares a run of the kernel over the three trees. Without challenges there
/// is no run: the host evaluates the component instead.
pub fn prepare_dispatch(
    slot: &RelationSlot,
    log_n_rows: u32,
    trace0: &[ColumnPlace],
    trace1: &[ColumnPlace],
    trace2: &[ColumnPlace],
    full_rehydrate: bool,
) -> (r: Option<KernelDispatch>)
    requires
        trace0@.len() + trace1@.len() + trace2@.len() <= u32::MAX,
        trace0@.len() + trace1@.len() + trace2@.len() <= usize::MAX,
    ensures
        r is Some <==> slot.installed is Some,
        r matches Some(d) ==> {
            &&& d.eval.eval_id == fnv(main_name(), 13)
            &&& d.eval.log_n_rows == log_n_rows
            &&& d.eval.z == slot.installed->Some_0.0
            &&& d.eval.alpha_powers == slot.installed->Some_0.1
            &&& d.eval.alpha == slot.installed->Some_0.1@[1]
            &&& d.tree0.serves(trace0@, full_rehydrate)
            &&& d.tree1.serves(trace1@, full_rehydrate)
            &&& d.tree2.serves(trace2@, full_rehydrate)
            &&& d.number_of_columns == trace0@.len() + trace1@.len() + trace2@.len()
            &&& d.logup_counts == GATE_AIR_LOGUP_COUNTS
        },
{
    match slot.installed {
        Some((z, alpha_powers)) => Some(
            KernelDispatch {
                eval: GateAirEvalFfi::new_with_relation(log_n_rows, z, alpha_powers),
                tree0: supply_tree(trace0, full_rehydrate),
                tree1: supply_tree(trace1, full_rehydrate),
                tree2: supply_tree(trace2, full_rehydrate),
                number_of_columns: (trace0.len() + trace1.len() + trace2.len()) as u32,
                logup_counts: GATE_AIR_LOGUP_COUNTS,
            },
        ),
        None => None,
    }
}

/// The share of the claimed sum that falls to one row.
pub open spec fn shift_of(claimed: Ext, log_n_rows: u32) -> Ext {
    claimed * Ext::base(pow2(log_n_rows as nat) as int).inv()
}

/// The claimed sum over the number of rows.
pub fn gate_air_cumsum_shift(claimed_sum: QM31, log_n_rows: u32) -> (r: QM31)
    requires
        log_n_rows <= 30,
        claimed_sum.wf(),
    ensures
        r.wf(),
        r@ == shift_of(claimed_sum@, log_n_rows),
        r@ * Ext::base(pow2(log_n_rows as nat) as int) == claimed_sum@,
{
    let n_rows: QM31 = QM31::from_base(power_of_two(log_n_rows) as u32);
    proof {
        lemma2_to64();
        if log_n_rows < 30 {
            lemma_pow2_strictly_increases(log_n_rows as nat, 30);
        }
        if log_n_rows > 0 {
            lemma_pow2_strictly_increases(0, log_n_rows as nat);
        }
        assert(n_rows@ != Ext::zero());
    }
    let inv: QM31 = n_rows.inverse();
    proof {
        // (c * i) * n == c * (i * n) == c.
        lemma_mul_assoc(claimed_sum@, inv@, n_rows@);
        lemma_mul_comm(inv@, n_rows@);
        lemma_mul_one(claimed_sum@);
    }
    claimed_sum.times(inv)
}

/// How the kernel accumulates.
pub struct KernelPlan {
    pub cumsum_shift: QM31,
    /// The powers of the random coefficient, highest first.
    pub random_coeff_powers: Vec<QM31>,
    /// Adds to what the accumulator holds.
    pub should_accumulate: bool,
    pub use_assert_evaluator: bool,
}

/// Plans the kernel's run for a component: only the main component has one.
pub fn gate_air_gpu_kernel(
    n_constraints: usize,
    n_main_columns: usize,
    n_interaction_columns: usize,
    n_preprocessed_columns: usize,
    claimed_sum: QM31,
    log_n_rows: u32,
    coeff_powers: &[QM31],
) -> (r: Option<KernelPlan>)
    requires
        log_n_rows <= 30,
        claimed_sum.wf(),
    ensures
        r is Some <==> n_constraints == 20 && n_main_columns == 19 && n_interaction_columns == 20
            && n_preprocessed_columns == 4,
        r matches Some(p) ==> p.cumsum_shift@ == shift_of(claimed_sum@, log_n_rows)
            && p.random_coeff_powers@ == coeff_powers@.reverse() && p.should_accumulate
            && !p.use_assert_evaluator,
{
    if !is_gate_air_main(
        n_constraints,
        n_main_columns,
        n_interaction_columns,
        n_preprocessed_columns,
    ) {
        return None;
    }
    let mut powers: Vec<QM31> = Vec::new();
    let n: usize = coeff_powers.len();
    let mut i: usize = 0;
    while i < n
        invariant
            i <= n == coeff_powers@.len(),
            powers@.len() == i,
            forall|j: int| 0 <= j < i ==> #[trigger] powers@[j] == coeff_powers@[n - 1 - j],
        decreases n - i,
    {
        powers.push(coeff_powers[n - 1 - i]);
        i += 1;
    }
    assert(powers@ =~= coeff_powers@.reverse());
    Some(
        KernelPlan {
            cumsum_shift: gate_air_cumsum_shift(claimed_sum, log_n_rows),
            random_coeff_powers: powers,
            should_accumulate: true,
            use_assert_evaluator: false,
        },
    )
}

/// The shape by which the kernel recognises the main component is the shape that
/// the main component has.
pub proof fn lemma_kernel_shape(en: Ext, shot: Ext, pc: Ext, slot: Ext, t: Seq<Ext>)
    ensures
        TRACE_COLUMNS == GATE_AIR_TRACE_COLUMNS,
        gate_checks(en, pc, t).len() + N_LOGUP_COLS == GATE_AIR_N_CONSTRAINTS,
        gate_entries(en, shot, pc, slot, t).len() == GATE_AIR_LOGUP_COUNTS,
        interaction_width(gate_entries(en, shot, pc, slot, t).len())
            == GATE_AIR_INTERACTION_COLUMNS,
        GATE_REL_WIDTH == GATE_AIR_REL_WIDTH,
{
}

} // verus!
