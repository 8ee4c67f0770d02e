//! A stand-alone proof in the whole-state encoding: its table components, its
//! columns, and the sums that it claims.
use vstd::arithmetic::power2::pow2;
use vstd::prelude::*;

use crate::circuit::{operands_valid, Gate, TestCase, N_QUBITS};
use crate::field::{Ext, P, QM31};
use crate::logup::{gen_table_interaction, table_defined, table_value, tuple_at, views, Fraction};
use crate::program::{build_program_table, ProgramTable};
use crate::sizes::{is_padded_log, padded_size, LOG_MIN_ROWS};
use crate::whole_state::{
    build_rc_hi, build_rc_lo, build_rows, end_text, error_of, is_first_refused, shot_outcome,
    LookupCounts, RcIndex, Row, SimError, RC_LOG_SIZE, RC_SIZE,
};
use crate::shard::{copy_of, generate_program_witness};
use crate::whole_state_air::{
    generate_main_trace, generate_pc_in_prog_preprocessed, row_cells, TRACE_COLUMNS,
    entry_views, generate_qdecode_preprocessed, Entry, EntryView, Evaluation,
};
use crate::whole_state_balance::{
    honest_rows, is_qdecode_table, lemma_built_rows_honest, lemma_claims_balance,
    lemma_padding_claims_nothing, program_cols, rc_cols, tables_ok,
};
use crate::whole_state_lookups::{
    boundary_value, gen_main_interaction, main_defined, main_value, pair_den_nonzero, pair_fraction, row_small,
    Claims, LookupElements, RelationId, N_MAIN_PAIRS,
};

verus! {

/// The public columns, in the order in which they are committed.
#[derive(Clone, Copy, Debug, PartialEq, Eq, Structural)]
pub enum ColumnId {
    PcInProg,
    QDecodeQ,
    QDecodeLimb,
    QDecodePos,
    QDecodeMask,
    RcLoPos,
    RcLoVal,
    RcHiPos,
    RcHiVal,
    ProgSlot,
}

impl ColumnId {
    /// The column's name in the commitment.
    pub fn id(self) -> (r: &'static str)
        ensures
            r@ == (match self {
                ColumnId::PcInProg => "gate_pc_in_prog"@,
                ColumnId::QDecodeQ => "gate_qdecode_q"@,
                ColumnId::QDecodeLimb => "gate_qdecode_limb"@,
                ColumnId::QDecodePos => "gate_qdecode_pos"@,
                ColumnId::QDecodeMask => "gate_qdecode_mask"@,
                ColumnId::RcLoPos => "gate_rc_lo_pos"@,
                ColumnId::RcLoVal => "gate_rc_lo_val"@,
                ColumnId::RcHiPos => "gate_rc_hi_pos"@,
                ColumnId::RcHiVal => "gate_rc_hi_val"@,
                ColumnId::ProgSlot => "gate_prog_slot"@,
            }),
    {
        match self {
            ColumnId::PcInProg => "gate_pc_in_prog",
            ColumnId::QDecodeQ => "gate_qdecode_q",
            ColumnId::QDecodeLimb => "gate_qdecode_limb",
            ColumnId::QDecodePos => "gate_qdecode_pos",
            ColumnId::QDecodeMask => "gate_qdecode_mask",
            ColumnId::RcLoPos => "gate_rc_lo_pos",
            ColumnId::RcLoVal => "gate_rc_lo_val",
            ColumnId::RcHiPos => "gate_rc_hi_pos",
            ColumnId::RcHiVal => "gate_rc_hi_val",
            ColumnId::ProgSlot => "gate_prog_slot",
        }
    }
}

/// The public columns in committed order.
pub fn preprocessed_column_ids() -> (r: Vec<ColumnId>)
    ensures
        r@ == seq![
            ColumnId::PcInProg,
            ColumnId::QDecodeQ,
            ColumnId::QDecodeLimb,
            ColumnId::QDecodePos,
            ColumnId::QDecodeMask,
            ColumnId::RcLoPos,
            ColumnId::RcLoVal,
            ColumnId::RcHiPos,
            ColumnId::RcHiVal,
            ColumnId::ProgSlot,
        ],
{
    let r: Vec<ColumnId> = vec![
        ColumnId::PcInProg,
        ColumnId::QDecodeQ,
        ColumnId::QDecodeLimb,
        ColumnId::QDecodePos,
        ColumnId::QDecodeMask,
        ColumnId::RcLoPos,
        ColumnId::RcLoVal,
        ColumnId::RcHiPos,
        ColumnId::RcHiVal,
        ColumnId::ProgSlot,
    ];
    assert(r@ =~= seq![
        ColumnId::PcInProg,
        ColumnId::QDecodeQ,
        ColumnId::QDecodeLimb,
        ColumnId::QDecodePos,
        ColumnId::QDecodeMask,
        ColumnId::RcLoPos,
        ColumnId::RcLoVal,
        ColumnId::RcHiPos,
        ColumnId::RcHiVal,
        ColumnId::ProgSlot,
    ]);
    r
}

/// The lookup of a table's row: minus its multiplicity, of its tuple.
pub open spec fn supply_entry(id: RelationId, multiplicity: Ext, values: Seq<Ext>) -> EntryView {
    EntryView { id, multiplicity: -multiplicity, values }
}

fn supply(id: RelationId, multiplicity: QM31, values: Vec<QM31>) -> (r: Evaluation)
    ensures
        r.constraints@.len() == 0,
        entry_views(r.entries@) == seq![supply_entry(id, multiplicity@, views(values@))],
{
    let ghost v = views(values@);
    let entries: Vec<Entry> = vec![Entry { id, multiplicity: multiplicity.negate(), values }];
    assert(entry_views(entries@) =~= seq![supply_entry(id, multiplicity@, v)]);
    Evaluation { constraints: Vec::new(), entries }
}

/// The table that takes a qubit apart into limb, bit position and weight.
#[derive(Clone, Copy, Debug)]
pub struct QDecodeTableEval;

impl QDecodeTableEval {
    pub fn log_size(&self) -> (r: u32)
        ensures
            r == 9,
            pow2(r as nat) == N_QUBITS,
    {
        proof {
            vstd::arithmetic::power2::lemma2_to64();
        }
        9
    }

    pub fn max_constraint_log_degree_bound(&self) -> (r: u32)
        ensures
            r == 10,
    {
        self.log_size() + 1
    }

    /// Evaluates on the four public columns and the multiplicity.
    pub fn evaluate(&self, q: QM31, limb: QM31, pos: QM31, mask: QM31, multiplicity: QM31) -> (r:
        Evaluation)
        ensures
            r.constraints@.len() == 0,
            entry_views(r.entries@) == seq![
                supply_entry(RelationId::QDecode, multiplicity@, seq![q@, limb@, pos@, mask@]),
            ],
    {
        let values: Vec<QM31> = vec![q, limb, pos, mask];
        assert(views(values@) =~= seq![q@, limb@, pos@, mask@]);
        supply(RelationId::QDecode, multiplicity, values)
    }
}

/// The table of the parts of a limb below a bit.
#[derive(Clone, Copy, Debug)]
pub struct RcLoTableEval;

impl RcLoTableEval {
    pub fn log_size(&self) -> (r: u32)
        ensures
            r == RC_LOG_SIZE,
    {
        RC_LOG_SIZE
    }

    pub fn max_constraint_log_degree_bound(&self) -> (r: u32)
        ensures
            r == RC_LOG_SIZE + 1,
    {
        self.log_size() + 1
    }

    /// Evaluates on the two public columns and the multiplicity.
    pub fn evaluate(&self, pos: QM31, val: QM31, multiplicity: QM31) -> (r: Evaluation)
        ensures
            r.constraints@.len() == 0,
            entry_views(r.entries@) == seq![
                supply_entry(RelationId::RcLo, multiplicity@, seq![pos@, val@]),
            ],
    {
        let values: Vec<QM31> = vec![pos, val];
        assert(views(values@) =~= seq![pos@, val@]);
        supply(RelationId::RcLo, multiplicity, values)
    }
}

/// The table of the parts of a limb above a bit.
#[derive(Clone, Copy, Debug)]
pub struct RcHiTableEval;

impl RcHiTableEval {
    pub fn log_size(&self) -> (r: u32)
        ensures
            r == RC_LOG_SIZE,
    {
        RC_LOG_SIZE
    }

    pub fn max_constraint_log_degree_bound(&self) -> (r: u32)
        ensures
            r == RC_LOG_SIZE + 1,
    {
        self.log_size() + 1
    }

    /// Evaluates on the two public columns and the multiplicity.
    pub fn evaluate(&self, pos: QM31, val: QM31, multiplicity: QM31) -> (r: Evaluation)
        ensures
            r.constraints@.len() == 0,
            entry_views(r.entries@) == seq![
                supply_entry(RelationId::RcHi, multiplicity@, seq![pos@, val@]),
            ],
    {
        let values: Vec<QM31> = vec![pos, val];
        assert(views(values@) =~= seq![pos@, val@]);
        supply(RelationId::RcHi, multiplicity, values)
    }
}

/// The program table.
#[derive(Clone, Copy, Debug)]
pub struct ProgramTableEval {
    pub log_size: u32,
}

impl ProgramTableEval {
    pub fn log_size(&self) -> (r: u32)
        ensures
            r == self.log_size,
    {
        self.log_size
    }

    pub fn max_constraint_log_degree_bound(&self) -> (r: u32)
        requires
            self.log_size < u32::MAX,
        ensures
            r == self.log_size + 1,
    {
        self.log_size + 1
    }

    /// Evaluates on the slot and the five hidden columns: opcode, target, the two
    /// controls and the multiplicity.
    pub fn evaluate(&self, slot: QM31, t: &[QM31]) -> (r: Evaluation)
        requires
            t@.len() == 5,
        ensures
            r.constraints@.len() == 0,
            entry_views(r.entries@) == seq![
                supply_entry(
                    RelationId::Program,
                    t@[4]@,
                    seq![slot@, t@[0]@, t@[1]@, t@[2]@, t@[3]@],
                ),
            ],
    {
        let values: Vec<QM31> = vec![slot, t[0], t[1], t[2], t[3]];
        assert(views(values@) =~= seq![slot@, t@[0]@, t@[1]@, t@[2]@, t@[3]@]);
        supply(RelationId::Program, t[4], values)
    }
}

/// The steps of all shots fit in the field.
pub fn timeline_fits(samples: usize, k: usize, n_gates: usize) -> (r: bool)
    requires
        samples * k <= usize::MAX,
        samples * k * n_gates <= usize::MAX,
    ensures
        r == (samples * k * n_gates < P),
{
    samples * k * n_gates < P as usize
}

/// Everything about a proof that is fixed before the challenges are drawn.
pub struct TraceWitness {
    /// The rows of the main trace, padding included.
    pub rows: Vec<Row>,
    pub n_rows: usize,
    pub log_n_rows: u32,
    pub counts: LookupCounts,
    pub qdecode: Vec<Vec<u32>>,
    pub rc_lo: RcIndex,
    pub rc_hi: RcIndex,
    pub program: ProgramTable,
}

/// The columns of the decoding table.
pub open spec fn qdecode_cols(cols: &Vec<Vec<u32>>) -> Seq<&Vec<u32>> {
    seq![&cols[0], &cols[1], &cols[2], &cols[3]]
}

impl TraceWitness {
    pub open spec fn real_rows(&self) -> Seq<Row> {
        self.rows@.take(self.n_rows as int)
    }

    pub open spec fn pad_rows(&self) -> Seq<Row> {
        self.rows@.skip(self.n_rows as int)
    }

    /// The witness of the given shots of the given circuit.
    pub open spec fn of(&self, gates: Seq<Gate>, cases: Seq<TestCase>, k: nat) -> bool {
        &&& self.n_rows == cases.len() * (k * gates.len())
        &&& is_padded_log(self.n_rows as nat, LOG_MIN_ROWS as nat, self.log_n_rows as nat)
        &&& self.rows@.len() == pow2(self.log_n_rows as nat)
        &&& honest_rows(self.real_rows(), gates, cases, k)
        &&& forall|i: int|
            0 <= i < self.pad_rows().len() ==> (#[trigger] self.pad_rows()[i]).is_padding()
        &&& self.counts.counts(self.real_rows(), self.real_rows().len(), &self.rc_lo, &self.rc_hi)
        &&& self.qdecode@.len() == 4
        &&& forall|c: int| 0 <= c < 4 ==> (#[trigger] self.qdecode@[c])@.len() == N_QUBITS
        &&& tables_ok(qdecode_cols(&self.qdecode), &self.rc_lo, &self.rc_hi)
        &&& self.program.describes(gates, (cases.len() * k) as u32)
    }

    /// Runs the shots and fills all tables; fails with the error of the first
    /// shot that is refused.
    pub fn build(gates: &[Gate], cases: &[TestCase], k: usize) -> (r: Result<TraceWitness, SimError>)
        requires
            k > 0,
            gates@.len() > 0,
            cases@.len() > 0,
            3 * (cases@.len() * (k * gates@.len())) <= u32::MAX,
            operands_valid(gates@),
            cases@.len() * k <= u32::MAX,
            gates@.len() <= 0x1_0000_0000,
            gates@.len() <= usize::MAX / 2 + 1,
        ensures
            r is Ok <==> forall|s: int| !#[trigger] is_first_refused(gates@, k as nat, cases@, s),
            r matches Ok(w) ==> w.of(gates@, cases@, k as nat),
            r matches Err(e) ==> exists|s: int| #[trigger]
                is_first_refused(gates@, k as nat, cases@, s) && error_of(
                    shot_outcome(gates@, k as nat, cases@[s].x_hex@, cases@[s].y_hex@),
                    e,
                    s,
                    end_text(gates@, k as nat, cases@[s].x_hex@),
                ),
    {
        let rc_lo: RcIndex = build_rc_lo();
        let rc_hi: RcIndex = build_rc_hi();
        let (real_rows, counts) = match build_rows(gates, cases, k, &rc_lo, &rc_hi) {
            Ok(v) => v,
            Err(e) => {
                return Err(e);
            },
        };
        let ghost built = real_rows@;
        let n_rows: usize = real_rows.len();
        let (padded, log_n_rows) = padded_size(n_rows, LOG_MIN_ROWS);
        let program: ProgramTable = build_program_table(gates, cases.len(), k);
        let qdecode: Vec<Vec<u32>> = generate_qdecode_preprocessed();
        proof {
            lemma_built_rows_honest(built, gates@, cases@, k as nat);
            lemma_qdecode_table(&qdecode);
        }
        let mut rows: Vec<Row> = real_rows;
        while rows.len() < padded
            invariant
                built.len() == n_rows <= rows@.len() <= padded,
                rows@.take(built.len() as int) == built,
                forall|i: int|
                    built.len() <= i < rows@.len() ==> (#[trigger] rows@[i]).is_padding(),
            decreases padded - rows.len(),
        {
            let ghost before = rows@;
            rows.push(Row::padding());
            assert(rows@.take(built.len() as int) =~= before.take(built.len() as int));
        }
        let w = TraceWitness { rows, n_rows, log_n_rows, counts, qdecode, rc_lo, rc_hi, program };
        assert(w.real_rows() == built);
        Ok(w)
    }

    /// The exponent of the largest column.
    pub fn max_log_size(&self) -> (r: u32)
        ensures
            r == (if self.log_n_rows < RC_LOG_SIZE {
                RC_LOG_SIZE
            } else {
                self.log_n_rows
            }),
    {
        if self.log_n_rows < RC_LOG_SIZE {
            RC_LOG_SIZE
        } else {
            self.log_n_rows
        }
    }

    /// The public columns: the slot of each row's gate, the decoding table, the two range
    /// tables and the slots of the program.
    pub open spec fn are_public_columns(&self, r: Seq<Vec<u32>>, n_gates: int) -> bool {
        &&& r.len() == 10
        &&& r[0]@ == Seq::new(self.rows@.len(), |i: int| (self.rows@[i].pc as int % n_gates) as u32)
        &&& forall|c: int| 0 <= c < 4 ==> (#[trigger] r[c + 1])@ == self.qdecode@[c]@
        &&& r[5]@ == self.rc_lo.pos_col@
        &&& r[6]@ == self.rc_lo.val_col@
        &&& r[7]@ == self.rc_hi.pos_col@
        &&& r[8]@ == self.rc_hi.val_col@
        &&& r[9]@ == self.program.slot@
    }

    /// The public columns in the order in which they are committed.
    pub fn tree0_columns(&self, n_gates: usize) -> (r: Vec<Vec<u32>>)
        requires
            0 < n_gates <= u32::MAX,
            self.qdecode@.len() == 4,
        ensures
            self.are_public_columns(r@, n_gates as int),
    {
        let slots: Vec<u32> = generate_pc_in_prog_preprocessed(
            self.rows.as_slice(),
            self.rows.len(),
            n_gates,
        );
        assert(slots@ =~= Seq::new(
            self.rows@.len(),
            |i: int| (self.rows@[i].pc as int % n_gates as int) as u32,
        ));
        let r: Vec<Vec<u32>> = vec![
            slots,
            copy_of(&self.qdecode[0]),
            copy_of(&self.qdecode[1]),
            copy_of(&self.qdecode[2]),
            copy_of(&self.qdecode[3]),
            copy_of(&self.rc_lo.pos_col),
            copy_of(&self.rc_lo.val_col),
            copy_of(&self.rc_hi.pos_col),
            copy_of(&self.rc_hi.val_col),
            copy_of(&self.program.slot),
        ];
        assert forall|c: int| 0 <= c < 4 implies (#[trigger] r@[c + 1])@ == self.qdecode@[c]@ by {
            assert(c == 0 || c == 1 || c == 2 || c == 3);
        }
        r
    }

    /// The hidden columns: those of the main trace, the counts of the three tables, and
    /// the program.
    pub open spec fn are_hidden_columns(&self, r: Seq<Vec<u32>>) -> bool {
        &&& r.len() == TRACE_COLUMNS + 8
        &&& forall|c: int|
            0 <= c < TRACE_COLUMNS ==> (#[trigger] r[c])@ == Seq::new(
                self.rows@.len(),
                |i: int| row_cells(self.rows@[i])[c],
            )
        &&& r[191]@ == self.counts.qdecode@
        &&& r[192]@ == self.counts.rc_lo@
        &&& r[193]@ == self.counts.rc_hi@
        &&& r[194]@ == self.program.opcode_scalar@
        &&& r[195]@ == self.program.target@
        &&& r[196]@ == self.program.ctrl_a@
        &&& r[197]@ == self.program.ctrl_b@
        &&& r[198]@ == self.program.multiplicity@
    }

    /// The hidden columns in the order in which they are committed: those of the
    /// main trace, the counts of the three tables, and the program.
    pub fn tree1_columns(&self) -> (r: Vec<Vec<u32>>)
        ensures
            self.are_hidden_columns(r@),
    {
        let mut cols: Vec<Vec<u32>> = generate_main_trace(self.rows.as_slice(), self.rows.len());
        proof {
            assert forall|c: int| 0 <= c < TRACE_COLUMNS implies (#[trigger] cols@[c])@ == Seq::new(
                self.rows@.len(),
                |i: int| row_cells(self.rows@[i])[c],
            ) by {
                assert forall|i: int| 0 <= i < self.rows@.len() implies #[trigger] cols@[c]@[i]
                    == row_cells(self.rows@[i])[c] by {}
                assert(cols@[c]@ =~= Seq::new(
                    self.rows@.len(),
                    |i: int| row_cells(self.rows@[i])[c],
                ));
            }
        }
        cols.push(copy_of(&self.counts.qdecode));
        cols.push(copy_of(&self.counts.rc_lo));
        cols.push(copy_of(&self.counts.rc_hi));
        let mut program: Vec<Vec<u32>> = generate_program_witness(&self.program);
        cols.append(&mut program);
        cols
    }

    /// The challenges leave no denominator zero.
    pub open spec fn dens_nonzero(&self, el: &LookupElements, n_gates: int) -> bool {
        &&& forall|i: int, b: int|
            0 <= i < self.rows@.len() && 0 <= b < N_MAIN_PAIRS ==> #[trigger] pair_den_nonzero(
                el,
                self.rows@[i],
                n_gates,
                b,
            )
        &&& forall|i: int|
            0 <= i < N_QUBITS ==> el.qdecode.den(
                #[trigger] tuple_at(qdecode_cols(&self.qdecode), i),
            ) != Ext::zero()
        &&& forall|i: int|
            0 <= i < RC_SIZE ==> el.rc_lo.den(#[trigger] tuple_at(rc_cols(&self.rc_lo), i))
                != Ext::zero()
        &&& forall|i: int|
            0 <= i < RC_SIZE ==> el.rc_hi.den(#[trigger] tuple_at(rc_cols(&self.rc_hi), i))
                != Ext::zero()
        &&& forall|i: int|
            0 <= i < self.program.slot@.len() ==> el.program.den(
                #[trigger] tuple_at(program_cols(&self.program), i),
            ) != Ext::zero()
    }

    /// Whether the challenges leave no denominator zero.
    pub fn defined_under(&self, gates: &[Gate], cases: &[TestCase], k: usize, el: &LookupElements) -> (r:
        bool)
        requires
            el.wf(),
            self.of(gates@, cases@, k as nat),
            gates@.len() <= u32::MAX,
        ensures
            r == self.dens_nonzero(el, gates@.len() as int),
    {
        proof {
            lemma_rows_small(self, gates@, cases@, k as nat);
        }
        if !main_defined(el, self.rows.as_slice(), gates.len() as u32) {
            return false;
        }
        let qd: Vec<&Vec<u32>> = vec![
            &self.qdecode[0],
            &self.qdecode[1],
            &self.qdecode[2],
            &self.qdecode[3],
        ];
        assert(qd@ =~= qdecode_cols(&self.qdecode));
        if !table_defined(&el.qdecode, self.counts.qdecode.as_slice(), qd.as_slice()) {
            return false;
        }
        let lo: Vec<&Vec<u32>> = vec![&self.rc_lo.pos_col, &self.rc_lo.val_col];
        assert(lo@ =~= rc_cols(&self.rc_lo));
        if !table_defined(&el.rc_lo, self.counts.rc_lo.as_slice(), lo.as_slice()) {
            return false;
        }
        let hi: Vec<&Vec<u32>> = vec![&self.rc_hi.pos_col, &self.rc_hi.val_col];
        assert(hi@ =~= rc_cols(&self.rc_hi));
        if !table_defined(&el.rc_hi, self.counts.rc_hi.as_slice(), hi.as_slice()) {
            return false;
        }
        let p = &self.program;
        let pc: Vec<&Vec<u32>> = vec![&p.slot, &p.opcode_scalar, &p.target, &p.ctrl_a, &p.ctrl_b];
        assert(pc@ =~= program_cols(&self.program));
        table_defined(&el.program, p.multiplicity.as_slice(), pc.as_slice())
    }

    /// The interaction columns under the drawn challenges and the sums that they
    /// claim, which leave exactly the boundary of the test vectors.
    pub fn interact(&self, gates: &[Gate], cases: &[TestCase], k: usize, el: &LookupElements) -> (r:
        TraceInteraction)
        requires
            el.wf(),
            self.of(gates@, cases@, k as nat),
            gates@.len() <= u32::MAX,
            cases@.len() * k <= u32::MAX,
            self.dens_nonzero(el, gates@.len() as int),
        ensures
            r.fills(self, el, gates@.len() as int),
            r.claims.wf(),
            r.claims.main@ == main_value(el, self.real_rows(), gates@.len() as int),
            r.claims.qdecode@ == table_value(
                &el.qdecode,
                self.counts.qdecode@,
                qdecode_cols(&self.qdecode),
            ),
            r.claims.rc_lo@ == table_value(&el.rc_lo, self.counts.rc_lo@, rc_cols(&self.rc_lo)),
            r.claims.rc_hi@ == table_value(&el.rc_hi, self.counts.rc_hi@, rc_cols(&self.rc_hi)),
            r.claims.program@ == table_value(
                &el.program,
                self.program.multiplicity@,
                program_cols(&self.program),
            ),
            r.claims.total() == boundary_value(el, cases@, k * gates@.len()),
    {
        proof {
            lemma_rows_small(self, gates@, cases@, k as nat);
        }
        let (main, main_sum) = gen_main_interaction(
            el,
            self.rows.as_slice(),
            gates.len() as u32,
        );
        let qd: Vec<&Vec<u32>> = vec![
            &self.qdecode[0],
            &self.qdecode[1],
            &self.qdecode[2],
            &self.qdecode[3],
        ];
        assert(qd@ =~= qdecode_cols(&self.qdecode));
        let (qdecode, qdecode_sum) = gen_table_interaction(
            &el.qdecode,
            self.counts.qdecode.as_slice(),
            qd.as_slice(),
        );
        let lo: Vec<&Vec<u32>> = vec![&self.rc_lo.pos_col, &self.rc_lo.val_col];
        assert(lo@ =~= rc_cols(&self.rc_lo));
        let (rc_lo, rc_lo_sum) = gen_table_interaction(
            &el.rc_lo,
            self.counts.rc_lo.as_slice(),
            lo.as_slice(),
        );
        let hi: Vec<&Vec<u32>> = vec![&self.rc_hi.pos_col, &self.rc_hi.val_col];
        assert(hi@ =~= rc_cols(&self.rc_hi));
        let (rc_hi, rc_hi_sum) = gen_table_interaction(
            &el.rc_hi,
            self.counts.rc_hi.as_slice(),
            hi.as_slice(),
        );
        let p = &self.program;
        let pc: Vec<&Vec<u32>> = vec![&p.slot, &p.opcode_scalar, &p.target, &p.ctrl_a, &p.ctrl_b];
        assert(pc@ =~= program_cols(&self.program));
        let (program, program_sum) = gen_table_interaction(
            &el.program,
            p.multiplicity.as_slice(),
            pc.as_slice(),
        );
        proof {
            assert(self.rows@ =~= self.real_rows() + self.pad_rows());
            lemma_padding_claims_nothing(
                el,
                self.real_rows(),
                self.pad_rows(),
                gates@.len() as int,
            );
            lemma_claims_balance(
                el,
                self.real_rows(),
                gates@,
                cases@,
                k as nat,
                &self.counts,
                qdecode_cols(&self.qdecode),
                &self.rc_lo,
                &self.rc_hi,
                &self.program,
                (cases@.len() * k) as u32,
            );
        }
        TraceInteraction {
            main,
            qdecode,
            rc_lo,
            rc_hi,
            program,
            claims: Claims {
                main: main_sum,
                qdecode: qdecode_sum,
                rc_lo: rc_lo_sum,
                rc_hi: rc_hi_sum,
                program: program_sum,
            },
        }
    }
}

/// The decoding columns make up the decoding table.
pub proof fn lemma_qdecode_table(cols: &Vec<Vec<u32>>)
    requires
        cols@.len() == 4,
        forall|q: int| 0 <= q < N_QUBITS ==> #[trigger] cols@[0]@[q] == q,
        forall|q: int| 0 <= q < N_QUBITS ==> #[trigger] cols@[1]@[q] == q / 16,
        forall|q: int| 0 <= q < N_QUBITS ==> #[trigger] cols@[2]@[q] == q % 16,
        forall|q: int|
            0 <= q < N_QUBITS ==> #[trigger] cols@[3]@[q] == crate::circuit::weight(
                (q % 16) as u32,
            ),
    ensures
        is_qdecode_table(qdecode_cols(cols)),
{
    let c = qdecode_cols(cols);
    assert forall|q: int| 0 <= q < N_QUBITS implies #[trigger] tuple_at(c, q) == seq![
        q as u32,
        (q / 16) as u32,
        (q % 16) as u32,
        crate::circuit::weight((q % 16) as u32) as u32,
    ] by {
        assert(cols@[0]@[q] == q && cols@[1]@[q] == q / 16 && cols@[2]@[q] == q % 16);
        assert(cols@[3]@[q] == crate::circuit::weight((q % 16) as u32));
        assert(tuple_at(c, q) =~= seq![
            q as u32,
            (q / 16) as u32,
            (q % 16) as u32,
            crate::circuit::weight((q % 16) as u32) as u32,
        ]);
    }
}

proof fn lemma_rows_small(w: &TraceWitness, gates: Seq<Gate>, cases: Seq<TestCase>, k: nat)
    requires
        w.of(gates, cases, k),
    ensures
        forall|i: int| 0 <= i < w.rows@.len() ==> row_small(#[trigger] w.rows@[i]),
{
    let m = (k * gates.len()) as int;
    assert(m > 0) by (nonlinear_arith)
        requires
            k > 0,
            gates.len() > 0,
            m == k * gates.len(),
    ;
    assert forall|i: int| 0 <= i < w.rows@.len() implies row_small(#[trigger] w.rows@[i]) by {
        if i < w.n_rows {
            let row = w.real_rows()[i];
            assert(row == w.rows@[i]);
            vstd::arithmetic::div_mod::lemma_mod_bound(i, m);
            assert(i % m <= i) by {
                vstd::arithmetic::div_mod::lemma_mod_decreases(i as nat, m as nat);
            }
        } else {
            assert(w.pad_rows()[i - w.n_rows] == w.rows@[i]);
        }
    }
}

/// The interaction columns of a proof, as fractions, and its claims.
pub struct TraceInteraction {
    pub main: Vec<Vec<Fraction>>,
    pub qdecode: Vec<Fraction>,
    pub rc_lo: Vec<Fraction>,
    pub rc_hi: Vec<Fraction>,
    pub program: Vec<Fraction>,
    pub claims: Claims,
}

/// A table's column: row by row minus the count over the row's denominator.
pub open spec fn supplies(
    col: Seq<Fraction>,
    rel: &crate::logup::Relation,
    counts: Seq<u32>,
    cols: Seq<&Vec<u32>>,
) -> bool {
    &&& col.len() == counts.len()
    &&& forall|i: int|
        0 <= i < counts.len() ==> (#[trigger] col[i]).num@ == Ext::base(-counts[i]) && col[i].den@
            == rel.den(tuple_at(cols, i))
}

impl TraceInteraction {
    /// The columns hold the lookups of the main trace and of the tables.
    pub open spec fn fills(&self, w: &TraceWitness, el: &LookupElements, n_gates: int) -> bool {
        &&& self.main@.len() == N_MAIN_PAIRS
        &&& forall|b: int|
            0 <= b < N_MAIN_PAIRS ==> (#[trigger] self.main@[b])@.len() == w.rows@.len()
        &&& forall|b: int, i: int|
            0 <= b < N_MAIN_PAIRS && 0 <= i < w.rows@.len() ==> pair_fraction(
                el,
                w.rows@[i],
                n_gates,
                b,
                #[trigger] self.main@[b]@[i],
            )
        &&& supplies(
            self.qdecode@,
            &el.qdecode,
            w.counts.qdecode@,
            qdecode_cols(&w.qdecode),
        )
        &&& supplies(self.rc_lo@, &el.rc_lo, w.counts.rc_lo@, rc_cols(&w.rc_lo))
        &&& supplies(self.rc_hi@, &el.rc_hi, w.counts.rc_hi@, rc_cols(&w.rc_hi))
        &&& supplies(
            self.program@,
            &el.program,
            w.program.multiplicity@,
            program_cols(&w.program),
        )
    }
}

} // verus!
