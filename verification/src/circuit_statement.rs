//! The statement that a leaf of the recursion proves about one shard: the
//! components that a verifier circuit evaluates, the public values that it is
//! given, and the sum that they must balance.
use vstd::arithmetic::power2::{lemma2_to64, lemma_pow2_unfold, pow2};
use vstd::prelude::*;

use crate::circuit::{
    byte_limbs, lemma_split, limb_bit, limb_state, limbs_wf, weight, Gate, TestCase, N_LIMBS,
};
use crate::components::{
    bool_check, boundary_entries, entry_views, gate_checks, gate_entries, program_entries,
    rc_entry, Evaluation, GateEval, ProgramEval, QubitMemEval, RangeCheckEval, TRACE_COLUMNS,
};
use crate::extension::lemma_idempotent;
use crate::field::{
    lemma_add_assoc, lemma_add_comm, lemma_add_zero, lemma_base_add, lemma_base_mul, lemma_mul_one,
    lemma_sub_is_add_neg, lemma_sub_self, red, Ext, P, QM31,
};
use crate::hexes::hex_bytes;
use crate::leaf::ProgramRows;
use crate::logup::{views, Relation};
use crate::preprocessed::{
    column_listing, in_order, preprocessed_column_ids, ColumnId, SizedColumn, N_PREPROCESSED_COLS,
};
use crate::program;
use crate::qubit_memory;
use crate::qubit_memory::{is_boundary, Row};
use crate::qubit_memory_balance::{honest_trace, lemma_shard_claims_net};
use crate::qubit_memory_lookups;
use crate::qubit_memory_lookups::{
    boundary_claim, boundary_public_value, counts_rc, final_seq, first_seq, main_value, mem_seq,
    prog_seq, program_public_value, program_value, rc_value, rel_ok, slot_seq, tuple_value,
    TAG_PROGRAM_PUB, TAG_QUBITMEM, TS_FINAL,
};
use crate::sums::{lemma_neg_add, lemma_sum_ext, sum};
use crate::whole_state::{flag, text_state};

verus! {

/// Columns that one pair of lookups takes.
pub const ONE_TERM_INTERACTION_COLUMNS: usize = 4;

/// The columns that lookups take when they are summed two by two.
pub open spec fn interaction_width(n_entries: nat) -> nat {
    ONE_TERM_INTERACTION_COLUMNS as nat * ((n_entries + 1) / 2)
}

/// The values of the public columns on one row, in listing order.
pub struct PublicRow {
    pub values: [QM31; N_PREPROCESSED_COLS],
}

impl PublicRow {
    pub open spec fn at(&self, id: ColumnId) -> Ext {
        self.values@[id.rank()]@
    }

    /// The value of one column.
    pub fn get(&self, id: ColumnId) -> (r: QM31)
        ensures
            r@ == self.at(id),
    {
        match id {
            ColumnId::ProgSlot => self.values[0],
            ColumnId::Enabler => self.values[1],
            ColumnId::ShotId => self.values[2],
            ColumnId::Pc => self.values[3],
            ColumnId::PcInProg => self.values[4],
            ColumnId::BndShot => self.values[5],
            ColumnId::BndAddr => self.values[6],
            ColumnId::BndEnabler => self.values[7],
            ColumnId::RcVal => self.values[8],
        }
    }
}

/// How often a row of a component looks up a relation.
#[derive(Clone, Copy, Debug)]
pub struct RelationUse {
    pub relation_id: &'static str,
    pub uses: usize,
}

/// The program table: supplies the main trace's lookups and shows the program.
#[derive(Clone, Copy, Debug)]
pub struct ProgramTable;

impl ProgramTable {
    pub fn name(&self) -> (r: String)
        ensures
            r@ == "gate_program_table"@,
    {
        "gate_program_table".to_owned()
    }

    pub fn trace_columns(&self) -> (r: usize)
        ensures
            r == 5,
    {
        5
    }

    pub fn interaction_columns(&self) -> (r: usize)
        ensures
            r == 4,
            forall|slot: Ext, t: Seq<Ext>|
                r == interaction_width(#[trigger] program_entries(slot, t).len()),
    {
        ONE_TERM_INTERACTION_COLUMNS
    }

    /// The table only supplies.
    pub fn relation_uses_per_row(&self) -> (r: Vec<RelationUse>)
        ensures
            r@.len() == 0,
    {
        Vec::new()
    }

    /// The size is the shard's to choose.
    pub fn log_size(&self) -> (r: Option<u32>)
        ensures
            r is None,
    {
        None
    }

    /// Evaluates on the columns opcode, target, two controls and multiplicity.
    pub fn evaluate(&self, public: &PublicRow, cols: &[QM31]) -> (r: Evaluation)
        requires
            cols@.len() == 5,
        ensures
            r.constraints@.len() == 0,
            entry_views(r.entries@) == program_entries(
                public.at(ColumnId::ProgSlot),
                views(cols@),
            ),
    {
        ProgramEval::evaluate(public.get(ColumnId::ProgSlot), cols)
    }
}

/// The boundary table: closes the chain of each qubit and shows its last value.
#[derive(Clone, Copy, Debug)]
pub struct BoundaryTable;

impl BoundaryTable {
    pub fn name(&self) -> (r: String)
        ensures
            r@ == "gate_boundary_table"@,
    {
        "gate_boundary_table".to_owned()
    }

    pub fn trace_columns(&self) -> (r: usize)
        ensures
            r == 3,
    {
        3
    }

    pub fn interaction_columns(&self) -> (r: usize)
        ensures
            r == 4,
            forall|shot: Ext, addr: Ext, en: Ext, t: Seq<Ext>|
                r == interaction_width(#[trigger] boundary_entries(shot, addr, en, t).len()),
    {
        ONE_TERM_INTERACTION_COLUMNS
    }

    /// The table only supplies.
    pub fn relation_uses_per_row(&self) -> (r: Vec<RelationUse>)
        ensures
            r@.len() == 0,
    {
        Vec::new()
    }

    /// The size is the shard's to choose.
    pub fn log_size(&self) -> (r: Option<u32>)
        ensures
            r is None,
    {
        None
    }

    /// Evaluates on the columns first value, last value and last access.
    pub fn evaluate(&self, public: &PublicRow, cols: &[QM31]) -> (r: Evaluation)
        requires
            cols@.len() == 3,
        ensures
            views(r.constraints@) == seq![bool_check(cols@[0]@), bool_check(cols@[1]@)],
            entry_views(r.entries@) == boundary_entries(
                public.at(ColumnId::BndShot),
                public.at(ColumnId::BndAddr),
                public.at(ColumnId::BndEnabler),
                views(cols@),
            ),
    {
        QubitMemEval::evaluate(
            public.get(ColumnId::BndShot),
            public.get(ColumnId::BndAddr),
            public.get(ColumnId::BndEnabler),
            cols,
        )
    }
}

/// The range table: supplies the time differences between accesses.
#[derive(Clone, Copy, Debug)]
pub struct RcTable;

impl RcTable {
    pub fn name(&self) -> (r: String)
        ensures
            r@ == "gate_rc_table"@,
    {
        "gate_rc_table".to_owned()
    }

    pub fn trace_columns(&self) -> (r: usize)
        ensures
            r == 1,
    {
        1
    }

    pub fn interaction_columns(&self) -> (r: usize)
        ensures
            r == 4,
            r == interaction_width(1),
    {
        ONE_TERM_INTERACTION_COLUMNS
    }

    /// The table only supplies.
    pub fn relation_uses_per_row(&self) -> (r: Vec<RelationUse>)
        ensures
            r@.len() == 0,
    {
        Vec::new()
    }

    /// The size is the shard's to choose.
    pub fn log_size(&self) -> (r: Option<u32>)
        ensures
            r is None,
    {
        None
    }

    /// Evaluates on the one column, the multiplicity.
    pub fn evaluate(&self, public: &PublicRow, cols: &[QM31]) -> (r: Evaluation)
        requires
            cols@.len() == 1,
        ensures
            r.constraints@.len() == 0,
            entry_views(r.entries@) == seq![rc_entry(-cols@[0]@, public.at(ColumnId::RcVal))],
    {
        RangeCheckEval::evaluate(public.get(ColumnId::RcVal), cols[0])
    }
}

/// The main component: one row per executed gate.
#[derive(Clone, Copy, Debug)]
pub struct MainGate;

impl MainGate {
    pub fn name(&self) -> (r: String)
        ensures
            r@ == "gate_main"@,
    {
        "gate_main".to_owned()
    }

    pub fn trace_columns(&self) -> (r: usize)
        ensures
            r == TRACE_COLUMNS,
    {
        TRACE_COLUMNS
    }

    pub fn interaction_columns(&self) -> (r: usize)
        ensures
            r == 20,
            forall|en: Ext, shot: Ext, pc: Ext, slot: Ext, t: Seq<Ext>|
                r == interaction_width(#[trigger] gate_entries(en, shot, pc, slot, t).len()),
    {
        20
    }

    /// Three accesses to the qubit memory, a range check for each, and one gate
    /// of the program.
    pub fn relation_uses_per_row(&self) -> (r: Vec<RelationUse>)
        ensures
            r@.len() == 3,
            r@[0].relation_id@ == "gate_qubitmem_use"@ && r@[0].uses == 3,
            r@[1].relation_id@ == "gate_rc_use"@ && r@[1].uses == 3,
            r@[2].relation_id@ == "gate_program"@ && r@[2].uses == 1,
    {
        vec![
            RelationUse { relation_id: "gate_qubitmem_use", uses: 3 },
            RelationUse { relation_id: "gate_rc_use", uses: 3 },
            RelationUse { relation_id: "gate_program", uses: 1 },
        ]
    }

    /// The size is the shard's to choose.
    pub fn log_size(&self) -> (r: Option<u32>)
        ensures
            r is None,
    {
        None
    }

    /// Evaluates the constraints and lookups of a row, in the order in which
    /// the prover emits them.
    pub fn evaluate(&self, public: &PublicRow, cols: &[QM31]) -> (r: Evaluation)
        requires
            cols@.len() == TRACE_COLUMNS,
        ensures
            views(r.constraints@) == gate_checks(
                public.at(ColumnId::Enabler),
                public.at(ColumnId::Pc),
                views(cols@),
            ),
            entry_views(r.entries@) == gate_entries(
                public.at(ColumnId::Enabler),
                public.at(ColumnId::ShotId),
                public.at(ColumnId::Pc),
                public.at(ColumnId::PcInProg),
                views(cols@),
            ),
    {
        GateEval::evaluate(
            public.get(ColumnId::Enabler),
            public.get(ColumnId::ShotId),
            public.get(ColumnId::Pc),
            public.get(ColumnId::PcInProg),
            cols,
        )
    }
}

/// The components of the statement.
#[derive(Clone, Copy, Debug, PartialEq, Eq, Structural)]
pub enum Component {
    Main,
    Program,
    Boundary,
    Rc,
}

impl Component {
    /// The name under which the component stands in the statement.
    pub fn key(self) -> (r: &'static str)
        ensures
            r@ == (match self {
                Component::Main => "gate_main"@,
                Component::Program => "gate_program"@,
                Component::Boundary => "gate_boundary"@,
                Component::Rc => "gate_rc"@,
            }),
    {
        match self {
            Component::Main => "gate_main",
            Component::Program => "gate_program",
            Component::Boundary => "gate_boundary",
            Component::Rc => "gate_rc",
        }
    }
}

/// The components in the order in which the prover claims their sums.
pub fn gate_air_components() -> (r: Vec<Component>)
    ensures
        r@ == seq![Component::Main, Component::Program, Component::Boundary, Component::Rc],
{
    let v: Vec<Component> = vec![
        Component::Main,
        Component::Program,
        Component::Boundary,
        Component::Rc,
    ];
    assert(v@ =~= seq![Component::Main, Component::Program, Component::Boundary, Component::Rc]);
    v
}

/// A value in the verifier circuit: fixed in the circuit, or supplied by the
/// prover and bound by constraints.
#[derive(Clone, Copy, Debug, PartialEq, Eq, Structural)]
pub enum Wire {
    Pinned(u32),
    Guessed(u32),
}

impl Wire {
    pub open spec fn val(self) -> u32 {
        match self {
            Wire::Pinned(v) => v,
            Wire::Guessed(v) => v,
        }
    }

    pub fn value(self) -> (r: u32)
        ensures
            r == self.val(),
    {
        match self {
            Wire::Pinned(v) => v,
            Wire::Guessed(v) => v,
        }
    }
}

/// A field of a program slot: pinned where the slot is padding, else guessed.
pub fn program_field_var(is_pad: bool, v: u32) -> (r: Wire)
    ensures
        r == (if is_pad { Wire::Pinned(v) } else { Wire::Guessed(v) }),
{
    if is_pad {
        Wire::Pinned(v)
    } else {
        Wire::Guessed(v)
    }
}

/// The program's columns in the verifier circuit.
pub struct ProgramVars {
    pub slot: Vec<Wire>,
    pub opcode_scalar: Vec<Wire>,
    pub target: Vec<Wire>,
    pub ctrl_a: Vec<Wire>,
    pub ctrl_b: Vec<Wire>,
    pub multiplicity: Vec<Wire>,
}

/// A column all of which is fixed in the circuit.
pub open spec fn pinned(v: Seq<u32>) -> Seq<Wire> {
    Seq::new(v.len(), |i: int| Wire::Pinned(v[i]))
}

/// A column of the hidden program: fixed on padding only.
pub open spec fn hidden(v: Seq<u32>, mult: Seq<u32>) -> Seq<Wire> {
    Seq::new(
        v.len(),
        |i: int|
            if mult[i] == 0 {
                Wire::Pinned(v[i])
            } else {
                Wire::Guessed(v[i])
            },
    )
}

impl ProgramVars {
    /// The slots and their multiplicities are fixed, so that a prover cannot
    /// choose them; what a slot does is hidden, except that padding does nothing
    /// that a prover could vary.
    pub open spec fn binds(&self, p: &ProgramRows) -> bool {
        &&& self.slot@ == pinned(p.slot@)
        &&& self.opcode_scalar@ == hidden(p.opcode_scalar@, p.multiplicity@)
        &&& self.target@ == hidden(p.target@, p.multiplicity@)
        &&& self.ctrl_a@ == hidden(p.ctrl_a@, p.multiplicity@)
        &&& self.ctrl_b@ == hidden(p.ctrl_b@, p.multiplicity@)
        &&& self.multiplicity@ == pinned(p.multiplicity@)
    }

    pub open spec fn wf(&self) -> bool {
        let n = self.slot@.len();
        &&& self.opcode_scalar@.len() == n
        &&& self.target@.len() == n
        &&& self.ctrl_a@.len() == n
        &&& self.ctrl_b@.len() == n
        &&& self.multiplicity@.len() == n
    }

    /// The tuple that slot `i` shows.
    pub open spec fn shown(&self, i: int) -> Seq<u32> {
        prog_seq(
            TAG_PROGRAM_PUB,
            self.slot@[i].val(),
            self.opcode_scalar@[i].val(),
            self.target@[i].val(),
            self.ctrl_a@[i].val(),
            self.ctrl_b@[i].val(),
        )
    }

    /// The wires of slot `i`, in the order in which they are hashed.
    pub open spec fn slot_wires(&self, i: int) -> Seq<Wire> {
        seq![
            self.slot@[i],
            self.opcode_scalar@[i],
            self.target@[i],
            self.ctrl_a@[i],
            self.ctrl_b@[i],
            self.multiplicity@[i],
        ]
    }

    /// The wires of the first `n` slots.
    pub open spec fn wires(&self, n: nat) -> Seq<Wire>
        decreases n,
    {
        if n == 0 {
            Seq::empty()
        } else {
            self.wires((n - 1) as nat) + self.slot_wires(n - 1)
        }
    }
}

fn pin_column(v: &Vec<u32>) -> (r: Vec<Wire>)
    ensures
        r@ == pinned(v@),
{
    let mut r: Vec<Wire> = Vec::new();
    let mut i: usize = 0;
    while i < v.len()
        invariant
            i <= v@.len(),
            r@.len() == i,
            forall|j: int| 0 <= j < i ==> #[trigger] r@[j] == Wire::Pinned(v@[j]),
        decreases v.len() - i,
    {
        r.push(Wire::Pinned(v[i]));
        i += 1;
    }
    assert(r@ =~= pinned(v@));
    r
}

fn hide_column(v: &Vec<u32>, mult: &Vec<u32>) -> (r: Vec<Wire>)
    requires
        v@.len() <= mult@.len(),
    ensures
        r@ == hidden(v@, mult@),
{
    let mut r: Vec<Wire> = Vec::new();
    let mut i: usize = 0;
    while i < v.len()
        invariant
            i <= v@.len() <= mult@.len(),
            r@.len() == i,
            forall|j: int| 0 <= j < i ==> #[trigger] r@[j] == hidden(v@, mult@)[j],
        decreases v.len() - i,
    {
        r.push(program_field_var(mult[i] == 0, v[i]));
        i += 1;
    }
    assert(r@ =~= hidden(v@, mult@));
    r
}

/// The first and the last state of a shot, as limbs.
pub type ShotLimbs = ([u32; N_LIMBS], [u32; N_LIMBS]);

/// The same, in the verifier circuit.
pub type ShotWires = ([Wire; N_LIMBS], [Wire; N_LIMBS]);

/// Limbs that are supplied by the prover.
fn guess_limbs(limbs: &[u32; N_LIMBS]) -> (r: [Wire; N_LIMBS])
    ensures
        forall|j: int| 0 <= j < N_LIMBS ==> #[trigger] r@[j] == Wire::Guessed(limbs@[j]),
{
    let mut r: [Wire; N_LIMBS] = [Wire::Guessed(0); N_LIMBS];
    let mut i: usize = 0;
    while i < N_LIMBS
        invariant
            i <= N_LIMBS,
            forall|j: int| 0 <= j < i ==> #[trigger] r@[j] == Wire::Guessed(limbs@[j]),
        decreases N_LIMBS - i,
    {
        r[i] = Wire::Guessed(limbs[i]);
        i += 1;
    }
    r
}

/// What a leaf proves about one shard.
pub struct GateAirStatement {
    /// The sizes of the components: main, program, boundary, range table.
    pub component_log_sizes: [u32; 4],
    /// The root of the shard's public columns, supplied by the prover and
    /// reconstructed by the final verifier.
    pub preprocessed_root: [u32; 8],
    /// The first and last state of each shot, supplied by the prover as well.
    pub boundary: Vec<ShotLimbs>,
    pub total_pc: u32,
    pub program: ProgramVars,
    /// Blinds the commitment to the program.
    pub nonce: [u32; 2],
}

impl GateAirStatement {
    pub open spec fn wf(&self) -> bool {
        &&& self.program.wf()
        &&& self.component_log_sizes@[3] <= 30
        &&& self.boundary@.len() <= u32::MAX
    }

    /// The sizes of the components, in their order.
    pub open spec fn sized(&self, main: u32, program: u32, boundary: u32, rc: u32) -> bool {
        self.component_log_sizes@ == seq![main, program, boundary, rc]
    }

    /// The public values of a shard.
    pub open spec fn shows(
        &self,
        root: [u32; 8],
        boundary: Vec<ShotLimbs>,
        total_pc: u32,
        program: &ProgramRows,
        nonce: [u32; 2],
    ) -> bool {
        &&& self.preprocessed_root == root
        &&& self.boundary == boundary
        &&& self.total_pc == total_pc
        &&& self.program.binds(program)
        &&& self.nonce == nonce
    }

    /// The statement about a shard with the given sizes and public values. The
    /// size of the range table is a trusted choice, whose values must be below
    /// the field's prime.
    pub fn new(
        main_log_size: u32,
        program_log_size: u32,
        boundary_log_size: u32,
        rc_log: u32,
        preprocessed_root: [u32; 8],
        boundary: Vec<ShotLimbs>,
        total_pc: u32,
        program: &ProgramRows,
        nonce: [u32; 2],
    ) -> (r: GateAirStatement)
        requires
            rc_log <= 30,
            program.wf(),
            boundary@.len() <= u32::MAX,
        ensures
            r.wf(),
            r.sized(main_log_size, program_log_size, boundary_log_size, rc_log),
            r.shows(preprocessed_root, boundary, total_pc, program, nonce),
    {
        let program_vars = ProgramVars {
            slot: pin_column(&program.slot),
            opcode_scalar: hide_column(&program.opcode_scalar, &program.multiplicity),
            target: hide_column(&program.target, &program.multiplicity),
            ctrl_a: hide_column(&program.ctrl_a, &program.multiplicity),
            ctrl_b: hide_column(&program.ctrl_b, &program.multiplicity),
            multiplicity: pin_column(&program.multiplicity),
        };
        let sizes: [u32; 4] = [main_log_size, program_log_size, boundary_log_size, rc_log];
        assert(sizes@ =~= seq![main_log_size, program_log_size, boundary_log_size, rc_log]);
        GateAirStatement {
            component_log_sizes: sizes,
            preprocessed_root,
            boundary,
            total_pc,
            program: program_vars,
            nonce,
        }
    }

    /// The sizes of the components in the circuit. The prover supplies them; the
    /// transcript binds them.
    pub fn component_log_size_vars(&self) -> (r: [Wire; 4])
        ensures
            forall|i: int|
                0 <= i < 4 ==> #[trigger] r@[i] == Wire::Guessed(self.component_log_sizes@[i]),
    {
        let s = &self.component_log_sizes;
        [
            Wire::Guessed(s[0]),
            Wire::Guessed(s[1]),
            Wire::Guessed(s[2]),
            Wire::Guessed(s[3]),
        ]
    }

    /// The words of the root in the circuit. The prover supplies them.
    pub fn preprocessed_root_vars(&self) -> (r: [Wire; 8])
        ensures
            forall|i: int|
                0 <= i < 8 ==> #[trigger] r@[i] == Wire::Guessed(self.preprocessed_root@[i]),
    {
        let w = &self.preprocessed_root;
        [
            Wire::Guessed(w[0]),
            Wire::Guessed(w[1]),
            Wire::Guessed(w[2]),
            Wire::Guessed(w[3]),
            Wire::Guessed(w[4]),
            Wire::Guessed(w[5]),
            Wire::Guessed(w[6]),
            Wire::Guessed(w[7]),
        ]
    }

    /// The limbs of the first and last state of each shot in the circuit. The prover
    /// supplies them; the balance of the sums binds them.
    pub fn boundary_vars(&self) -> (r: Vec<ShotWires>)
        ensures
            r@.len() == self.boundary@.len(),
            forall|s: int, j: int|
                0 <= s < r@.len() && 0 <= j < N_LIMBS ==> #[trigger] r@[s].0@[j] == Wire::Guessed(
                    self.boundary@[s].0@[j],
                ),
            forall|s: int, j: int|
                0 <= s < r@.len() && 0 <= j < N_LIMBS ==> #[trigger] r@[s].1@[j] == Wire::Guessed(
                    self.boundary@[s].1@[j],
                ),
    {
        let mut r: Vec<ShotWires> = Vec::new();
        let mut i: usize = 0;
        while i < self.boundary.len()
            invariant
                i <= self.boundary@.len(),
                r@.len() == i,
                forall|s: int, j: int|
                    0 <= s < i && 0 <= j < N_LIMBS ==> #[trigger] r@[s].0@[j] == Wire::Guessed(
                        self.boundary@[s].0@[j],
                    ),
                forall|s: int, j: int|
                    0 <= s < i && 0 <= j < N_LIMBS ==> #[trigger] r@[s].1@[j] == Wire::Guessed(
                        self.boundary@[s].1@[j],
                    ),
            decreases self.boundary.len() - i,
        {
            let limbs: &ShotLimbs = &self.boundary[i];
            r.push((guess_limbs(&limbs.0), guess_limbs(&limbs.1)));
            i += 1;
        }
        r
    }

    /// The words of the nonce in the circuit. The prover supplies them, so that they
    /// stay hidden.
    pub fn nonce_vars(&self) -> (r: [Wire; 2])
        ensures
            forall|i: int| 0 <= i < 2 ==> #[trigger] r@[i] == Wire::Guessed(self.nonce@[i]),
    {
        [Wire::Guessed(self.nonce[0]), Wire::Guessed(self.nonce[1])]
    }

    /// The values that are hashed into the commitment to the program: slot by
    /// slot, then the two words of the nonce.
    pub open spec fn h_p_words(&self) -> Seq<Wire> {
        self.program.wires(self.program.slot@.len()) + seq![
            Wire::Guessed(self.nonce[0]),
            Wire::Guessed(self.nonce[1]),
        ]
    }

    /// The values that are hashed into the commitment to the program: slot by
    /// slot, then the two words of the nonce.
    pub fn compute_h_p_preimage(&self) -> (r: Vec<Wire>)
        requires
            self.wf(),
        ensures
            r@ == self.h_p_words(),
            r@.len() == 6 * self.program.slot@.len() + 2,
    {
        let p = &self.program;
        let mut preimage: Vec<Wire> = Vec::new();
        let mut i: usize = 0;
        while i < p.slot.len()
            invariant
                i <= p.slot@.len(),
                p.wf(),
                preimage@ == p.wires(i as nat),
                preimage@.len() == 6 * i,
            decreases p.slot.len() - i,
        {
            preimage.push(p.slot[i]);
            preimage.push(p.opcode_scalar[i]);
            preimage.push(p.target[i]);
            preimage.push(p.ctrl_a[i]);
            preimage.push(p.ctrl_b[i]);
            preimage.push(p.multiplicity[i]);
            assert(preimage@ =~= p.wires(i as nat) + p.slot_wires(i as int));
            i += 1;
        }
        let nonce: [Wire; 2] = self.nonce_vars();
        preimage.push(nonce[0]);
        preimage.push(nonce[1]);
        assert(preimage@ =~= p.wires(p.slot@.len()) + seq![
            Wire::Guessed(self.nonce[0]),
            Wire::Guessed(self.nonce[1]),
        ]);
        preimage
    }

    /// The claims that enter the transcript: one empty list.
    pub fn claims_to_mix(&self) -> (r: Vec<Vec<u32>>)
        ensures
            r@.len() == 1,
            r@[0]@.len() == 0,
    {
        let empty: Vec<u32> = Vec::new();
        vec![empty]
    }

    pub fn get_components(&self) -> (r: Vec<Component>)
        ensures
            r@ == seq![Component::Main, Component::Program, Component::Boundary, Component::Rc],
    {
        gate_air_components()
    }

    pub fn get_component_log_sizes(&self) -> (r: &[u32; 4])
        ensures
            r == self.component_log_sizes,
    {
        &self.component_log_sizes
    }

    /// The public columns in the order in which they are committed.
    pub fn get_preprocessed_column_ids(&self) -> (r: Vec<ColumnId>)
        ensures
            exists|s: Seq<SizedColumn>|
                #![trigger in_order(s)]
                in_order(s) && s.to_multiset() == column_listing(
                    self.component_log_sizes[0],
                    self.component_log_sizes[1],
                    self.component_log_sizes[2],
                    self.component_log_sizes[3],
                ).to_multiset() && r@ == Seq::new(s.len(), |i: int| s[i].0),
    {
        preprocessed_column_ids(
            self.component_log_sizes[0],
            self.component_log_sizes[1],
            self.component_log_sizes[2],
            self.component_log_sizes[3],
        )
    }

    /// The root that the verifier in the circuit goes by: the prover's words.
    pub fn get_preprocessed_root(&self) -> (r: [Wire; 8])
        ensures
            forall|i: int|
                0 <= i < 8 ==> #[trigger] r@[i] == Wire::Guessed(self.preprocessed_root@[i]),
    {
        self.preprocessed_root_vars()
    }
}

/// What the shots show: qubit `i % 512` of shot `i / 512`, its first value
/// before time begins minus its last value at the end of time.
pub open spec fn shown_value(rel: &Relation, b: Seq<ShotLimbs>, i: int) -> Ext {
    let (s, q) = (i / 512, i % 512);
    tuple_value(rel, 1, mem_seq(s as u32, q as u32, 0, flag(limb_state(b[s].0@)[q])))
        - tuple_value(rel, 1, mem_seq(s as u32, q as u32, TS_FINAL, flag(limb_state(b[s].1@)[q])))
}

pub open spec fn shown_sum(rel: &Relation, b: Seq<ShotLimbs>, n: nat) -> Ext {
    sum(n, |i: int| shown_value(rel, b, i))
}

/// What the first `n` slots of the program show.
pub open spec fn shown_program(rel: &Relation, p: &ProgramVars, n: nat) -> Ext {
    sum(n, |i: int| tuple_value(rel, p.multiplicity@[i].val() as int, p.shown(i)))
}

/// The two denominators of a qubit of a shot.
pub open spec fn shown_dens_nonzero(rel: &Relation, b: Seq<ShotLimbs>, i: int) -> bool {
    let (s, q) = (i / 512, i % 512);
    &&& rel.den(mem_seq(s as u32, q as u32, 0, flag(limb_state(b[s].0@)[q]))) != Ext::zero()
    &&& rel.den(mem_seq(s as u32, q as u32, TS_FINAL, flag(limb_state(b[s].1@)[q]))) != Ext::zero()
}

/// The sum that balances the claims, and whether the supplied bits satisfy the
/// constraints that tie them to the limbs.
pub struct PublicSum {
    pub sum: QM31,
    pub satisfied: bool,
}

/// `(-u) + y == -(u - y)`.
proof fn lemma_neg_sub(u: Ext, y: Ext)
    ensures
        (-u) + y == -(u - y),
{
    let p = P as int;
    assert forall|a: int, b: int| #[trigger] red(red(-a) + b) == red(-red(a - b)) by {
        vstd::arithmetic::div_mod::lemma_add_mod_noop(-a, b, p);
        vstd::arithmetic::div_mod::lemma_add_mod_noop(red(-a), b, p);
        vstd::arithmetic::div_mod::lemma_mod_twice(-a, p);
        vstd::arithmetic::div_mod::lemma_sub_mod_noop(0, a - b, p);
    }
    reveal(Ext::spec_add);
    reveal(Ext::spec_sub);
    reveal(Ext::spec_neg);
    assert(red(red(-u.a) + y.a) == red(-red(u.a - y.a)));
    assert(red(red(-u.b) + y.b) == red(-red(u.b - y.b)));
    assert(red(red(-u.c) + y.c) == red(-red(u.c - y.c)));
    assert(red(red(-u.d) + y.d) == red(-red(u.d - y.d)));
}

/// `((-s) - x) + y == -(s + (x - y))`.
proof fn lemma_shown_step(s: Ext, x: Ext, y: Ext)
    ensures
        ((-s) - x) + y == -(s + (x - y)),
{
    lemma_neg_step(s, x);
    lemma_neg_sub(s + x, y);
    lemma_sub_is_add_neg(s + x, y);
    lemma_sub_is_add_neg(x, y);
    lemma_add_assoc(s, x, -y);
}

/// `(-s) - x == -(s + x)`.
proof fn lemma_neg_step(s: Ext, x: Ext)
    ensures
        (-s) - x == -(s + x),
{
    lemma_neg_add(s, x);
    lemma_sub_is_add_neg(-s, x);
}

/// The bits below `p + 1` of a limb are those below `p` and bit `p`.
proof fn lemma_low_part(l: u32, p: u32)
    requires
        p < 16,
    ensures
        l as int % weight((p + 1) as u32) == l as int % weight(p) + (l as int / weight(p) % 2)
            * weight(p),
        weight((p + 1) as u32) == 2 * weight(p),
{
    lemma_split(l, p);
    lemma_pow2_unfold((p + 1) as nat);
    let (x, w) = (l as int, weight(p));
    let (h, b) = (x / (2 * w), x / w % 2);
    let low = b * w + x % w;
    assert(0 <= low < 2 * w) by (nonlinear_arith)
        requires
            low == b * w + x % w,
            0 <= x % w < w,
            0 <= b < 2,
    ;
    assert(x == (2 * w) * h + low) by (nonlinear_arith)
        requires
            x == h * (2 * w) + b * w + x % w,
            low == b * w + x % w,
    ;
    vstd::arithmetic::div_mod::lemma_fundamental_div_mod_converse(x, 2 * w, h, low);
}

/// Bit `p` of a limb, times its weight, added to the bits below it.
proof fn lemma_one_bit_more(l: u32, p: u32, b: u32, place: u32)
    requires
        p < 16,
        b == (l >> p) & 1,
        place == 1u32 << p,
    ensures
        Ext::base(l as int % weight(p)) + Ext::base(b as int) * Ext::base(place as int) == Ext::base(
            l as int % weight((p + 1) as u32),
        ),
{
    lemma_split(l, p);
    lemma_low_part(l, p);
    lemma2_to64();
    vstd::arithmetic::power2::lemma_pow2_strictly_increases(p as nat, 31);
    vstd::bits::lemma_u32_shl_is_mul(1u32, p);
    assert(place as int == weight(p));
    lemma_base_mul(b as int, weight(p));
    lemma_base_add(l as int % weight(p), b * weight(p));
}

/// A limb's low 16 bits stand for the limb exactly if it has no others.
proof fn lemma_limb_stands(l: u32)
    ensures
        Ext::base(l as int % 65536) == Ext::base(l as int) <==> l < 0x1_0000,
{
    let p = P as int;
    let x = l as int;
    if x < p {
    } else if x < 2 * p {
        assert(x % p == x - p);
    } else {
        assert(x % p == x - 2 * p);
    }
}

impl GateAirStatement {
    /// What balances the claims: minus what the shots and the program show.
    pub open spec fn balance(&self, rel: &Relation) -> Ext {
        -(shown_sum(rel, self.boundary@, self.boundary@.len() * 512) + shown_program(
            rel,
            &self.program,
            self.program.slot@.len(),
        ))
    }

    /// Takes the bits of one limb of a shot's first and last state apart: adds
    /// what they show, and checks that they are bits and make up the limb.
    fn add_limb(&self, rel: &Relation, shot: usize, limb: usize, acc: QM31) -> (r: PublicSum)
        requires
            rel_ok(rel),
            self.wf(),
            shot < self.boundary@.len(),
            limb < N_LIMBS,
            acc.wf(),
            acc@ == -shown_sum(rel, self.boundary@, (shot * 512 + limb * 16) as nat),
            forall|i: int|
                0 <= i < self.boundary@.len() * 512 ==> #[trigger] shown_dens_nonzero(
                    rel,
                    self.boundary@,
                    i,
                ),
        ensures
            r.sum.wf(),
            r.sum@ == -shown_sum(rel, self.boundary@, (shot * 512 + limb * 16 + 16) as nat),
            r.satisfied <==> self.boundary@[shot as int].0@[limb as int] < 0x1_0000
                && self.boundary@[shot as int].1@[limb as int] < 0x1_0000,
    {
        let x_limb: u32 = self.boundary[shot].0[limb];
        let y_limb: u32 = self.boundary[shot].1[limb];
        let mut sum: QM31 = acc;
        let mut satisfied: bool = true;
        let mut x_recon: QM31 = QM31::zero();
        let mut y_recon: QM31 = QM31::zero();
        proof {
            lemma2_to64();
            lemma_base_add(0, 0);
        }
        let mut p: u32 = 0;
        while p < 16
            invariant
                p <= 16,
                rel_ok(rel),
                self.wf(),
                shot < self.boundary@.len(),
                limb < N_LIMBS,
                x_limb == self.boundary@[shot as int].0@[limb as int],
                y_limb == self.boundary@[shot as int].1@[limb as int],
                sum.wf(),
                sum@ == -shown_sum(rel, self.boundary@, (shot * 512 + limb * 16 + p) as nat),
                forall|i: int|
                    0 <= i < self.boundary@.len() * 512 ==> #[trigger] shown_dens_nonzero(
                        rel,
                        self.boundary@,
                        i,
                    ),
                satisfied,
                x_recon.wf(),
                y_recon.wf(),
                x_recon@ == Ext::base(x_limb as int % weight(p)),
                y_recon@ == Ext::base(y_limb as int % weight(p)),
            decreases 16 - p,
        {
            let addr: u32 = (limb as u32) * 16 + p;
            let xb: u32 = (x_limb >> p) & 1;
            let yb: u32 = (y_limb >> p) & 1;
            let ghost i = shot * 512 + addr;
            proof {
                lemma_split(x_limb, p);
                lemma_split(y_limb, p);
                lemma_low_part(x_limb, p);
                lemma_low_part(y_limb, p);
                assert(i / 512 == shot && i % 512 == addr) by {
                    vstd::arithmetic::div_mod::lemma_fundamental_div_mod_converse(
                        i,
                        512,
                        shot as int,
                        addr as int,
                    );
                }
                assert(addr as int / 16 == limb && addr as int % 16 == p);
                assert(xb == flag(limb_state(self.boundary@[shot as int].0@)[addr as int]));
                assert(yb == flag(limb_state(self.boundary@[shot as int].1@)[addr as int]));
                assert(shown_dens_nonzero(rel, self.boundary@, i));
            }
            let x_bit: QM31 = QM31::from_base(xb);
            let y_bit: QM31 = QM31::from_base(yb);
            if x_bit.times(x_bit) != x_bit || y_bit.times(y_bit) != y_bit {
                proof {
                    lemma_base_mul(xb as int, xb as int);
                    lemma_base_mul(yb as int, yb as int);
                    assert(xb * xb == xb && yb * yb == yb) by (nonlinear_arith)
                        requires
                            xb == 0 || xb == 1,
                            yb == 0 || yb == 1,
                    ;
                }
                satisfied = false;
            }
            let place: u32 = 1u32 << p;
            let w: QM31 = QM31::from_base(place);
            proof {
                lemma_one_bit_more(x_limb, p, xb, place);
                lemma_one_bit_more(y_limb, p, yb, place);
            }
            x_recon = x_recon.plus(x_bit.times(w));
            y_recon = y_recon.plus(y_bit.times(w));
            assert(x_recon@ == Ext::base(x_limb as int % weight((p + 1) as u32)));
            assert(y_recon@ == Ext::base(y_limb as int % weight((p + 1) as u32)));
            let dx: QM31 = mem_term(rel, shot as u32, addr, 0, xb);
            let dy: QM31 = mem_term(rel, shot as u32, addr, TS_FINAL, yb);
            let ghost before = shown_sum(rel, self.boundary@, i as nat);
            sum = sum.minus(dx).plus(dy);
            proof {
                lemma_shown_step(before, dx@, dy@);
            }
            p += 1;
        }
        proof {
            lemma2_to64();
            lemma_limb_stands(x_limb);
            lemma_limb_stands(y_limb);
        }
        if x_recon != QM31::from_base(x_limb) || y_recon != QM31::from_base(y_limb) {
            satisfied = false;
        }
        PublicSum { sum, satisfied }
    }

    /// What the verifier circuit adds to the claims so that they net to zero:
    /// minus what the shots and the program show. The bits of the states are
    /// supplied by the prover; they are tied to the limbs by constraints, which
    /// hold exactly if the limbs have 16 bits.
    pub fn public_logup_sum(&self, rel: &Relation) -> (r: PublicSum)
        requires
            rel_ok(rel),
            self.wf(),
            forall|i: int|
                0 <= i < self.boundary@.len() * 512 ==> #[trigger] shown_dens_nonzero(
                    rel,
                    self.boundary@,
                    i,
                ),
            forall|i: int|
                0 <= i < self.program.slot@.len() ==> rel.den(#[trigger] self.program.shown(i))
                    != Ext::zero(),
        ensures
            r.sum.wf(),
            r.sum@ == self.balance(rel),
            r.satisfied <==> forall|s: int|
                0 <= s < self.boundary@.len() ==> limbs_wf((#[trigger] self.boundary@[s]).0@)
                    && limbs_wf(self.boundary@[s].1@),
    {
        let mut acc: QM31 = QM31::zero();
        let mut satisfied: bool = true;
        proof {
            assert(-Ext::zero() == Ext::zero()) by {
                reveal(Ext::spec_neg);
            }
        }
        let mut shot: usize = 0;
        while shot < self.boundary.len()
            invariant
                shot <= self.boundary@.len(),
                rel_ok(rel),
                self.wf(),
                acc.wf(),
                acc@ == -shown_sum(rel, self.boundary@, (shot * 512) as nat),
                forall|i: int|
                    0 <= i < self.boundary@.len() * 512 ==> #[trigger] shown_dens_nonzero(
                        rel,
                        self.boundary@,
                        i,
                    ),
                satisfied <==> forall|s: int|
                    0 <= s < shot ==> limbs_wf((#[trigger] self.boundary@[s]).0@) && limbs_wf(
                        self.boundary@[s].1@,
                    ),
            decreases self.boundary.len() - shot,
        {
            let ghost was = satisfied;
            let mut limb: usize = 0;
            while limb < N_LIMBS
                invariant
                    limb <= N_LIMBS,
                    shot < self.boundary@.len(),
                    rel_ok(rel),
                    self.wf(),
                    acc.wf(),
                    acc@ == -shown_sum(rel, self.boundary@, (shot * 512 + limb * 16) as nat),
                    forall|i: int|
                        0 <= i < self.boundary@.len() * 512 ==> #[trigger] shown_dens_nonzero(
                            rel,
                            self.boundary@,
                            i,
                        ),
                    satisfied == (was && small_limbs(self.boundary@[shot as int], limb as int)),
                decreases N_LIMBS - limb,
            {
                let step: PublicSum = self.add_limb(rel, shot, limb, acc);
                acc = step.sum;
                satisfied = satisfied && step.satisfied;
                proof {
                    lemma_small_limbs_step(self.boundary@[shot as int], limb as int);
                }
                limb += 1;
            }
            proof {
                lemma_small_limbs_all(self.boundary@[shot as int]);
            }
            shot += 1;
        }
        let ghost shown = shown_sum(rel, self.boundary@, self.boundary@.len() * 512);
        let p = &self.program;
        let mut i: usize = 0;
        proof {
            lemma_sum_is_wf(rel, self.boundary@, self.boundary@.len() * 512);
            lemma_add_zero(shown);
        }
        while i < p.slot.len()
            invariant
                i <= p.slot@.len(),
                rel_ok(rel),
                p.wf(),
                p == &self.program,
                forall|i: int|
                    0 <= i < self.program.slot@.len() ==> rel.den(#[trigger] self.program.shown(i))
                        != Ext::zero(),
                acc.wf(),
                acc@ == -(shown + shown_program(rel, p, i as nat)),
            decreases p.slot.len() - i,
        {
            assert(rel.den(p.shown(i as int)) != Ext::zero());
            let t: Vec<u32> = vec![
                TAG_PROGRAM_PUB,
                p.slot[i].value(),
                p.opcode_scalar[i].value(),
                p.target[i].value(),
                p.ctrl_a[i].value(),
                p.ctrl_b[i].value(),
            ];
            assert(t@ =~= p.shown(i as int));
            let inv_d: QM31 = rel.combine_base(t.as_slice()).inverse();
            let term: QM31 = QM31::from_base(p.multiplicity[i].value()).times(inv_d);
            let ghost before = shown_program(rel, p, i as nat);
            acc = acc.minus(term);
            proof {
                lemma_neg_step(shown + before, term@);
                lemma_add_assoc(shown, before, term@);
            }
            i += 1;
        }
        PublicSum { sum: acc, satisfied }
    }
}

/// The first `n` limbs of both states have sixteen bits.
spec fn small_limbs(b: ShotLimbs, n: int) -> bool {
    forall|j: int| 0 <= j < n ==> #[trigger] small_limb(b, j)
}

spec fn small_limb(b: ShotLimbs, j: int) -> bool {
    b.0@[j] < 0x1_0000 && b.1@[j] < 0x1_0000
}

proof fn lemma_small_limbs_step(b: ShotLimbs, n: int)
    requires
        0 <= n,
    ensures
        small_limbs(b, n + 1) == (small_limbs(b, n) && b.0@[n] < 0x1_0000 && b.1@[n] < 0x1_0000),
{
    if small_limbs(b, n + 1) {
        assert(small_limb(b, n));
    }
}

proof fn lemma_small_limbs_all(b: ShotLimbs)
    ensures
        small_limbs(b, N_LIMBS as int) == (limbs_wf(b.0@) && limbs_wf(b.1@)),
{
    if small_limbs(b, N_LIMBS as int) {
        assert forall|j: int| 0 <= j < N_LIMBS implies #[trigger] b.0@[j] < 0x1_0000 by {
            assert(small_limb(b, j));
        }
        assert forall|j: int| 0 <= j < N_LIMBS implies #[trigger] b.1@[j] < 0x1_0000 by {
            assert(small_limb(b, j));
        }
    }
}

proof fn lemma_sum_is_wf(rel: &Relation, b: Seq<ShotLimbs>, n: nat)
    ensures
        shown_sum(rel, b, n).wf(),
{
    crate::sums::lemma_sum_wf(n, |i: int| shown_value(rel, b, i));
}

/// One over the denominator of a memory tuple.
fn mem_term(rel: &Relation, shot: u32, addr: u32, ts: u32, v: u32) -> (r: QM31)
    requires
        rel_ok(rel),
        rel.den(mem_seq(shot, addr, ts, v)) != Ext::zero(),
    ensures
        r.wf(),
        r@ == tuple_value(rel, 1, mem_seq(shot, addr, ts, v)),
{
    let t: Vec<u32> = vec![TAG_QUBITMEM, shot, addr, ts, v];
    assert(t@ =~= mem_seq(shot, addr, ts, v));
    let r: QM31 = rel.combine_base(t.as_slice()).inverse();
    proof {
        lemma_base_add(1, 0);
        lemma_mul_one(r@);
    }
    r
}

/// The limbs are those of the test vectors' states.
pub open spec fn limbs_of_cases(b: Seq<ShotLimbs>, cases: Seq<TestCase>) -> bool {
    &&& b.len() == cases.len()
    &&& forall|s: int|
        0 <= s < b.len() ==> (#[trigger] b[s]).0@ == byte_limbs(hex_bytes(cases[s].x_hex@))
    &&& forall|s: int|
        0 <= s < b.len() ==> (#[trigger] b[s]).1@ == byte_limbs(hex_bytes(cases[s].y_hex@))
}

/// What the statement shows of the shots is what the boundary table shows.
proof fn lemma_shown_is_boundary(
    rel: &Relation,
    b: Seq<ShotLimbs>,
    t: &qubit_memory::BoundaryTable,
    gates: Seq<Gate>,
    cases: Seq<TestCase>,
    m: nat,
)
    requires
        limbs_of_cases(b, cases),
        is_boundary(*t, gates, cases, m),
    ensures
        shown_sum(rel, b, b.len() * 512) == boundary_public_value(rel, t),
{
    let f = |i: int| shown_value(rel, b, i);
    let g = |i: int|
        tuple_value(rel, 1, first_seq(t.rows@[i])) - tuple_value(rel, 1, final_seq(t.rows@[i]));
    assert forall|i: int| 0 <= i < b.len() * 512 implies #[trigger] f(i) == g(i) by {
        let s = i / 512;
        assert(0 <= s < b.len());
        assert(t.rows@[i] == qubit_memory::boundary_of(gates, cases, m, s, i % 512));
        assert(b[s].0@ == byte_limbs(hex_bytes(cases[s].x_hex@)));
        assert(text_state(cases[s].x_hex@) == limb_state(b[s].0@));
        assert(text_state(cases[s].y_hex@) == limb_state(b[s].1@));
    }
    lemma_sum_ext(b.len() * 512, f, g);
}

/// What the statement shows of the program is what the program table shows.
proof fn lemma_shown_is_program(
    rel: &Relation,
    vars: &ProgramVars,
    rows: &ProgramRows,
    t: &program::ProgramTable,
)
    requires
        vars.binds(rows),
        rows.of_table(t),
        t.sized(),
    ensures
        shown_program(rel, vars, vars.slot@.len()) == program_public_value(rel, t),
{
    let f = |i: int| tuple_value(rel, vars.multiplicity@[i].val() as int, vars.shown(i));
    let g = |i: int|
        tuple_value(rel, t.multiplicity@[i] as int, slot_seq(t, TAG_PROGRAM_PUB, i));
    assert forall|i: int| 0 <= i < t.slot@.len() implies #[trigger] f(i) == g(i) by {
        assert(vars.shown(i) =~= slot_seq(t, TAG_PROGRAM_PUB, i));
    }
    lemma_sum_ext(t.slot@.len(), f, g);
}

/// The statement balances: for an honestly built shard, the statement's public
/// sum and the four sums that the shard claims add up to zero.
pub proof fn lemma_statement_balances(
    rel: &Relation,
    st: &GateAirStatement,
    program_rows: &ProgramRows,
    rows: Seq<Row>,
    boundary: &qubit_memory::BoundaryTable,
    gates: Seq<Gate>,
    cases: Seq<TestCase>,
    k: nat,
    p: &program::ProgramTable,
    mult: u32,
    t: &qubit_memory_lookups::RcTable,
)
    requires
        honest_trace(rows, boundary, gates, cases, k),
        p.describes(gates, mult),
        mult == cases.len() * k,
        t.sized(),
        k * gates.len() <= pow2(t.log_size as nat),
        counts_rc(t, rows, rows.len()),
        limbs_of_cases(st.boundary@, cases),
        program_rows.of_table(p),
        st.program.binds(program_rows),
    ensures
        st.balance(rel) + (((main_value(rel, rows, gates.len() as int) + program_value(rel, p))
            + boundary_claim(rel, boundary)) + rc_value(rel, t)) == Ext::zero(),
{
    lemma_shard_claims_net(rel, rows, boundary, gates, cases, k, p, mult, t);
    lemma_shown_is_boundary(rel, st.boundary@, boundary, gates, cases, k * gates.len());
    lemma_shown_is_program(rel, &st.program, program_rows, p);
    let public = boundary_public_value(rel, boundary) + program_public_value(rel, p);
    lemma_add_comm(-public, public);
    lemma_sub_is_add_neg(public, public);
    lemma_sub_self(public);
}

/// The number that the first `n` bits make up, lowest bit first.
pub open spec fn bits_value(bits: Seq<bool>, n: nat) -> int
    decreases n,
{
    if n == 0 {
        0
    } else {
        bits_value(bits, (n - 1) as nat) + flag(bits[n - 1]) * weight((n - 1) as u32)
    }
}

proof fn lemma_bits_value_bound(bits: Seq<bool>, n: nat)
    requires
        n <= 16,
    ensures
        0 <= bits_value(bits, n) < weight(n as u32),
    decreases n,
{
    lemma2_to64();
    if n > 0 {
        lemma_bits_value_bound(bits, (n - 1) as nat);
        lemma_pow2_unfold(n);
        let w = weight((n - 1) as u32);
        assert(weight(n as u32) == 2 * w);
        assert(flag(bits[n - 1]) * w <= w) by (nonlinear_arith)
            requires
                flag(bits[n - 1]) <= 1,
                w >= 0,
        ;
        assert(flag(bits[n - 1]) * w >= 0) by (nonlinear_arith)
            requires
                flag(bits[n - 1]) >= 0,
                w >= 0,
        ;
    }
}

/// Numbers with the same value below `2^n` have the same bits below `n`.
proof fn lemma_low_bits(bits: Seq<bool>, l: u32, n: nat)
    requires
        n <= 16,
        bits_value(bits, n) == l as int % weight(n as u32),
    ensures
        forall|p: int| 0 <= p < n ==> #[trigger] bits[p] == limb_bit(l, p as u32),
    decreases n,
{
    if n > 0 {
        let q = (n - 1) as u32;
        let w = weight(q);
        lemma_low_part(l, q);
        lemma_split(l, q);
        lemma_bits_value_bound(bits, (n - 1) as nat);
        let low = bits_value(bits, (n - 1) as nat);
        let f = flag(bits[n - 1]) as int;
        let b = l as int / w % 2;
        let rest = l as int % w;
        assert(low + f * w == rest + b * w);
        assert(f == b && low == rest) by (nonlinear_arith)
            requires
                low + f * w == rest + b * w,
                0 <= low < w,
                0 <= rest < w,
                0 <= f <= 1,
                0 <= b <= 1,
        ;
        lemma_low_bits(bits, l, (n - 1) as nat);
        assert(bits[n - 1] == limb_bit(l, q));
    }
}

/// The constraints tie the bits to the limb: sixteen bits that make up a 16-bit
/// limb in the field are the bits of that limb.
proof fn lemma_bits_are_the_limb(bits: Seq<bool>, limb: u32)
    requires
        limb < 0x1_0000,
        Ext::base(bits_value(bits, 16)) == Ext::base(limb as int),
    ensures
        forall|p: int| 0 <= p < 16 ==> #[trigger] bits[p] == limb_bit(limb, p as u32),
{
    lemma2_to64();
    lemma_bits_value_bound(bits, 16);
    lemma_low_bits(bits, limb, 16);
}

/// What the first `n` elements make up, lowest first.
pub open spec fn joined(bits: Seq<Ext>, n: nat) -> Ext
    decreases n,
{
    if n == 0 {
        Ext::zero()
    } else {
        joined(bits, (n - 1) as nat) + bits[n - 1] * Ext::base(weight((n - 1) as u32))
    }
}

/// Elements that are zero or one make up the number of the bits that they are.
proof fn lemma_joined_bits(bits: Seq<Ext>, flags: Seq<bool>, n: nat)
    requires
        n <= bits.len() <= flags.len(),
        forall|p: int| 0 <= p < n ==> #[trigger] bits[p] == Ext::base(flag(flags[p]) as int),
    ensures
        joined(bits, n) == Ext::base(bits_value(flags, n)),
    decreases n,
{
    if n == 0 {
        lemma_base_add(0, 0);
    } else {
        let k = n - 1;
        lemma_joined_bits(bits, flags, k as nat);
        assert(bits[k] == Ext::base(flag(flags[k]) as int));
        lemma_base_mul(flag(flags[k]) as int, weight(k as u32));
        lemma_base_add(bits_value(flags, k as nat), flag(flags[k]) * weight(k as u32));
    }
}

/// The constraints on a supplied limb bind its bits: whatever field elements are
/// supplied as its sixteen bits, where each is its own square and together they
/// make up the limb, the limb has sixteen bits and they are these.
pub proof fn lemma_supplied_bits_bind(bits: Seq<Ext>, limb: u32)
    requires
        bits.len() == 16,
        limb < P,
        forall|p: int| 0 <= p < 16 ==> (#[trigger] bits[p]).wf() && bits[p] * bits[p] == bits[p],
        joined(bits, 16) == Ext::base(limb as int),
    ensures
        limb < 0x1_0000,
        forall|p: int|
            0 <= p < 16 ==> #[trigger] bits[p] == Ext::base(flag(limb_bit(limb, p as u32)) as int),
{
    let flags = Seq::new(16, |p: int| bits[p] == Ext::one());
    lemma_base_add(0, 0);
    lemma_base_add(1, 0);
    assert forall|p: int| 0 <= p < 16 implies #[trigger] bits[p] == Ext::base(
        flag(flags[p]) as int,
    ) by {
        lemma_idempotent(bits[p]);
    }
    lemma_joined_bits(bits, flags, 16);
    lemma_bits_value_bound(flags, 16);
    lemma2_to64();
    let v = bits_value(flags, 16);
    vstd::arithmetic::div_mod::lemma_small_mod(v as nat, P as nat);
    vstd::arithmetic::div_mod::lemma_small_mod(limb as nat, P as nat);
    assert(v == limb);
    lemma_bits_are_the_limb(flags, limb);
}

} // verus!
