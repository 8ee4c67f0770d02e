//! Two proofs of one shard are the same. What the shards of a run share is prepared
//! once, from the first of them: it changes how a shard is proved, not what.
use vstd::prelude::*;

use crate::circuit::{Gate, TestCase, N_QUBITS};
use crate::components::{row_cells, TRACE_COLUMNS};
use crate::field::QM31;
use crate::fingerprint::{
    base_message, fingerprint_of, shard_message, shard_messages, ShardPart,
};
use crate::logup::{embed, Fraction, Relation};
use crate::preprocessed::{column_listing, in_order, lemma_order_unique, ColumnId, SizedColumn};
use crate::program::ProgramTable;
use crate::qubit_memory::{BoundaryTable, Row};
use crate::qubit_memory_lookups::{
    boundary_claim, boundary_row_value, main_value, program_value, rc_value, rc_seq, slot_value,
    tuple_value, use_value, RcTable, N_LOGUP_COLS,
};
use crate::shard::{are_public_columns, public_column, ShardInteraction, ShardShape, ShardWitness};
use crate::shard_proof::{closed_digest, is_drawn, ShardAnswer, ShardOutput, CHANNEL_SALT};
use crate::sizes::{lemma_padded_log_unique, LOG_MIN_ROWS, LOG_N_LANES};
use crate::sums::{lemma_sum_ext, sum};
use crate::transcript::committed_digest;

verus! {

/// Columns of the same names and values.
pub open spec fn same_columns(a: Seq<(ColumnId, Vec<u32>)>, b: Seq<(ColumnId, Vec<u32>)>) -> bool {
    &&& a.len() == b.len()
    &&& forall|j: int| 0 <= j < a.len() ==> (#[trigger] a[j]).0 == b[j].0 && a[j].1@ == b[j].1@
}

/// The counts and the range table determine the shape of a shard, but for the
/// commitment parameters, which follow from the blowup.
pub proof fn lemma_shape_determined(
    a: &ShardShape,
    b: &ShardShape,
    n_shots: nat,
    n_gates: nat,
    k: nat,
    blowup_a: u32,
    blowup_b: u32,
)
    requires
        a.fits(n_shots, n_gates, k, blowup_a),
        b.fits(n_shots, n_gates, k, blowup_b),
        a.rc_log == b.rc_log,
    ensures
        a.n_rows == b.n_rows,
        a.padded_rows == b.padded_rows,
        a.log_n_rows == b.log_n_rows,
        a.program_log_size == b.program_log_size,
        a.qubitmem_log_size == b.qubitmem_log_size,
        a.max_log_size == b.max_log_size,
        blowup_a == blowup_b ==> *a == *b,
{
    lemma_padded_log_unique(
        a.n_rows as nat,
        LOG_MIN_ROWS as nat,
        a.log_n_rows as nat,
        b.log_n_rows as nat,
    );
    lemma_padded_log_unique(
        n_gates,
        LOG_N_LANES as nat,
        a.program_log_size as nat,
        b.program_log_size as nat,
    );
    lemma_padded_log_unique(
        n_shots * N_QUBITS as nat,
        LOG_N_LANES as nat,
        a.qubitmem_log_size as nat,
        b.qubitmem_log_size as nat,
    );
}

/// Two shards of as many shots, gates and runs, and with range tables of one size,
/// have the same public columns. So the tree that commits to those of the first
/// shard serves every other one.
pub proof fn lemma_public_columns_shared(
    a: &ShardShape,
    b: &ShardShape,
    n_shots: nat,
    n_gates: nat,
    k: nat,
    blowup_a: u32,
    blowup_b: u32,
    cols_a: Seq<(ColumnId, Vec<u32>)>,
    cols_b: Seq<(ColumnId, Vec<u32>)>,
)
    requires
        a.fits(n_shots, n_gates, k, blowup_a),
        b.fits(n_shots, n_gates, k, blowup_b),
        a.rc_log == b.rc_log,
        are_public_columns(cols_a, a, n_shots as int, k as int, n_gates as int),
        are_public_columns(cols_b, b, n_shots as int, k as int, n_gates as int),
    ensures
        same_columns(cols_a, cols_b),
{
    lemma_shape_determined(a, b, n_shots, n_gates, k, blowup_a, blowup_b);
    let l = column_listing(a.log_n_rows, a.program_log_size, a.qubitmem_log_size, a.rc_log);
    let (n, shots, k, gates) = (a.n_rows as int, n_shots as int, k as int, n_gates as int);
    let s = choose|s: Seq<SizedColumn>|
        #![trigger in_order(s)]
        in_order(s) && s.len() == cols_a.len() && s.to_multiset() == l.to_multiset() && forall|j: int|
            0 <= j < s.len() ==> (#[trigger] cols_a[j]).0 == s[j].0 && public_column(
                s[j],
                cols_a[j].1@,
                n,
                shots,
                k,
                gates,
            );
    let t = choose|t: Seq<SizedColumn>|
        #![trigger in_order(t)]
        in_order(t) && t.len() == cols_b.len() && t.to_multiset() == l.to_multiset() && forall|j: int|
            0 <= j < t.len() ==> (#[trigger] cols_b[j]).0 == t[j].0 && public_column(
                t[j],
                cols_b[j].1@,
                n,
                shots,
                k,
                gates,
            );
    lemma_order_unique(s, t);
    assert forall|j: int| 0 <= j < cols_a.len() implies (#[trigger] cols_a[j]).0 == cols_b[j].0
        && cols_a[j].1@ == cols_b[j].1@ by {
        assert(public_column(s[j], cols_a[j].1@, n, shots, k, gates));
        assert(public_column(t[j], cols_b[j].1@, n, shots, k, gates));
        assert(cols_a[j].1@ =~= cols_b[j].1@);
    }
}

/// Two program tables of the same columns.
pub open spec fn same_program(a: &ProgramTable, b: &ProgramTable) -> bool {
    &&& a.log_size == b.log_size
    &&& a.slot@ == b.slot@
    &&& a.opcode_scalar@ == b.opcode_scalar@
    &&& a.target@ == b.target@
    &&& a.ctrl_a@ == b.ctrl_a@
    &&& a.ctrl_b@ == b.ctrl_b@
    &&& a.multiplicity@ == b.multiplicity@
}

/// The circuit and how often it is run determine the program table, whatever the
/// shots are.
pub proof fn lemma_program_shared(a: &ProgramTable, b: &ProgramTable, gates: Seq<Gate>, mult: u32)
    requires
        a.describes(gates, mult),
        b.describes(gates, mult),
    ensures
        same_program(a, b),
{
    lemma_padded_log_unique(gates.len(), LOG_N_LANES as nat, a.log_size as nat, b.log_size as nat);
    let n = a.slot@.len();
    assert(b.slot@.len() == n);
    assert forall|i: int| 0 <= i < n implies a.opcode_scalar@[i] == b.opcode_scalar@[i] && a.target@[i]
        == b.target@[i] && a.ctrl_a@[i] == b.ctrl_a@[i] && a.ctrl_b@[i] == b.ctrl_b@[i]
        && a.multiplicity@[i] == b.multiplicity@[i] by {
        if i < gates.len() {
            assert(a.holds(i, gates[i], mult) && b.holds(i, gates[i], mult));
        } else {
            assert(a.pads(i) && b.pads(i));
        }
    }
    assert(a.slot@ =~= b.slot@);
    assert(a.opcode_scalar@ =~= b.opcode_scalar@);
    assert(a.target@ =~= b.target@);
    assert(a.ctrl_a@ =~= b.ctrl_a@);
    assert(a.ctrl_b@ =~= b.ctrl_b@);
    assert(a.multiplicity@ =~= b.multiplicity@);
}

/// Two witnesses of the same contents.
pub open spec fn same_witness(a: &ShardWitness, b: &ShardWitness) -> bool {
    &&& a.shape == b.shape
    &&& a.rows@ == b.rows@
    &&& a.boundary.rows@ == b.boundary.rows@
    &&& a.boundary.log_size == b.boundary.log_size
    &&& a.boundary.n_shots == b.boundary.n_shots
    &&& same_program(&a.program, &b.program)
    &&& a.rc_table.log_size == b.rc_table.log_size
    &&& a.rc_table.val@ == b.rc_table.val@
    &&& a.rc_table.multiplicity@ == b.rc_table.multiplicity@
    &&& a.total_pc == b.total_pc
}

/// The circuit, the shots and the sizes determine the witness of a shard.
pub proof fn lemma_witness_determined(
    a: &ShardWitness,
    b: &ShardWitness,
    gates: Seq<Gate>,
    cases: Seq<TestCase>,
    k: nat,
    log_blowup: u32,
)
    requires
        a.of(gates, cases, k, log_blowup),
        b.of(gates, cases, k, log_blowup),
        a.shape.rc_log == b.shape.rc_log,
    ensures
        same_witness(a, b),
{
    lemma_shape_determined(
        &a.shape,
        &b.shape,
        cases.len(),
        gates.len(),
        k,
        log_blowup,
        log_blowup,
    );
    lemma_program_shared(&a.program, &b.program, gates, (cases.len() * k) as u32);
    let n = a.shape.n_rows as int;
    assert(a.real_rows() =~= b.real_rows());
    assert forall|i: int| 0 <= i < a.rows@.len() implies a.rows@[i] == b.rows@[i] by {
        if i < n {
            assert(a.real_rows()[i] == a.rows@[i] && b.real_rows()[i] == b.rows@[i]);
        } else {
            assert(a.pad_rows()[i - n] == a.rows@[i] && b.pad_rows()[i - n] == b.rows@[i]);
        }
    }
    assert(a.rows@ =~= b.rows@);
    assert(a.boundary.rows@ =~= b.boundary.rows@);
    assert(a.rc_table.val@ =~= b.rc_table.val@);
    assert(a.rc_table.multiplicity@ =~= b.rc_table.multiplicity@);
}

/// Two relations of the same challenges.
pub open spec fn same_relation(a: &Relation, b: &Relation) -> bool {
    &&& a.z == b.z
    &&& a.alpha == b.alpha
    &&& a.alpha_powers@ == b.alpha_powers@
}

proof fn lemma_same_ext(a: QM31, b: QM31)
    requires
        a@ == b@,
    ensures
        a == b,
{
}

/// One digest gives one relation.
proof fn lemma_drawn_alike(digest: Seq<u8>, a: &Relation, b: &Relation)
    requires
        is_drawn(digest, a),
        is_drawn(digest, b),
    ensures
        same_relation(a, b),
{
    lemma_same_ext(a.z, b.z);
    lemma_same_ext(a.alpha, b.alpha);
    lemma_same_powers(a, b, a.width());
    assert(a.alpha_powers@ =~= b.alpha_powers@);
}

proof fn lemma_same_powers(a: &Relation, b: &Relation, n: nat)
    requires
        a.wf(),
        b.wf(),
        a.width() == b.width(),
        a.alpha@ == b.alpha@,
        n <= a.width(),
    ensures
        forall|i: int| 0 <= i < n ==> #[trigger] a.alpha_powers@[i] == b.alpha_powers@[i],
    decreases n,
{
    if n > 0 {
        lemma_same_powers(a, b, (n - 1) as nat);
        if n > 1 {
            assert(a.alpha_powers@[n - 2] == b.alpha_powers@[n - 2]);
        }
        lemma_same_ext(a.alpha_powers@[n - 1], b.alpha_powers@[n - 1]);
    }
}

proof fn lemma_same_den(a: &Relation, b: &Relation, t: Seq<u32>)
    requires
        same_relation(a, b),
    ensures
        a.den(t) == b.den(t),
{
    let v = embed(t);
    lemma_sum_ext(
        v.len(),
        |i: int| a.alpha_powers@[i]@ * v[i],
        |i: int| b.alpha_powers@[i]@ * v[i],
    );
}

proof fn lemma_same_dens(a: &Relation, b: &Relation)
    requires
        same_relation(a, b),
    ensures
        forall|t: Seq<u32>| #[trigger] a.den(t) == b.den(t),
{
    assert forall|t: Seq<u32>| #[trigger] a.den(t) == b.den(t) by {
        lemma_same_den(a, b, t);
    }
}

proof fn lemma_same_main_value(a: &Relation, b: &Relation, rows: Seq<Row>, n_gates: int)
    requires
        same_relation(a, b),
    ensures
        main_value(a, rows, n_gates) == main_value(b, rows, n_gates),
{
    lemma_same_dens(a, b);
    let f = |i: int| sum(10, |j: int| use_value(a, rows[i], n_gates, j));
    let g = |i: int| sum(10, |j: int| use_value(b, rows[i], n_gates, j));
    assert forall|i: int| 0 <= i < rows.len() implies #[trigger] f(i) == g(i) by {
        lemma_sum_ext(
            10,
            |j: int| use_value(a, rows[i], n_gates, j),
            |j: int| use_value(b, rows[i], n_gates, j),
        );
    }
    lemma_sum_ext(rows.len(), f, g);
}

proof fn lemma_same_program_value(a: &Relation, b: &Relation, p: &ProgramTable, q: &ProgramTable)
    requires
        same_relation(a, b),
        same_program(p, q),
    ensures
        program_value(a, p) == program_value(b, q),
{
    lemma_same_dens(a, b);
    lemma_sum_ext(p.slot@.len(), |i: int| slot_value(a, p, i), |i: int| slot_value(b, q, i));
}

proof fn lemma_same_boundary_claim(a: &Relation, b: &Relation, p: &BoundaryTable, q: &BoundaryTable)
    requires
        same_relation(a, b),
        p.rows@ == q.rows@,
        p.n_shots == q.n_shots,
    ensures
        boundary_claim(a, p) == boundary_claim(b, q),
{
    lemma_same_dens(a, b);
    lemma_sum_ext(
        p.rows@.len(),
        |i: int| boundary_row_value(a, p, i),
        |i: int| boundary_row_value(b, q, i),
    );
}

proof fn lemma_same_rc_value(a: &Relation, b: &Relation, p: &RcTable, q: &RcTable)
    requires
        same_relation(a, b),
        p.val@ == q.val@,
        p.multiplicity@ == q.multiplicity@,
    ensures
        rc_value(a, p) == rc_value(b, q),
{
    lemma_same_dens(a, b);
    lemma_sum_ext(
        p.val@.len(),
        |i: int| tuple_value(a, -p.multiplicity@[i], rc_seq(p.val@[i])),
        |i: int| tuple_value(b, -q.multiplicity@[i], rc_seq(q.val@[i])),
    );
}

/// The fractions of all components, column by column.
pub open spec fn fraction_columns(t: &ShardInteraction) -> Seq<Seq<Fraction>> {
    Seq::new(t.main@.len(), |b: int| t.main@[b]@) + seq![t.program@, t.boundary@, t.rc@]
}

proof fn lemma_same_fraction(a: Fraction, b: Fraction)
    requires
        a.num@ == b.num@,
        a.den@ == b.den@,
    ensures
        a == b,
{
    lemma_same_ext(a.num, b.num);
    lemma_same_ext(a.den, b.den);
}

/// The same witness under the same challenges gives the same fractions.
proof fn lemma_same_fractions(
    a: &ShardInteraction,
    b: &ShardInteraction,
    u: &ShardWitness,
    w: &ShardWitness,
    r: &Relation,
    s: &Relation,
    n_gates: int,
)
    requires
        a.fills(u, r, n_gates),
        b.fills(w, s, n_gates),
        same_witness(u, w),
        same_relation(r, s),
    ensures
        fraction_columns(a) == fraction_columns(b),
{
    lemma_same_dens(r, s);
    assert forall|c: int| 0 <= c < N_LOGUP_COLS implies (#[trigger] a.main@[c])@ == b.main@[c]@ by {
        assert(b.main@[c]@.len() == w.rows@.len());
        assert forall|i: int| 0 <= i < u.rows@.len() implies a.main@[c]@[i] == b.main@[c]@[i] by {
            lemma_same_fraction(a.main@[c]@[i], b.main@[c]@[i]);
        }
        assert(a.main@[c]@ =~= b.main@[c]@);
    }
    assert forall|i: int| 0 <= i < u.program.slot@.len() implies a.program@[i] == b.program@[i] by {
        lemma_same_fraction(a.program@[i], b.program@[i]);
    }
    assert(a.program@ =~= b.program@);
    assert forall|i: int| 0 <= i < u.boundary.rows@.len() implies a.boundary@[i] == b.boundary@[i] by {
        lemma_same_fraction(a.boundary@[i], b.boundary@[i]);
    }
    assert(a.boundary@ =~= b.boundary@);
    assert forall|i: int| 0 <= i < u.rc_table.val@.len() implies a.rc@[i] == b.rc@[i] by {
        lemma_same_fraction(a.rc@[i], b.rc@[i]);
    }
    assert(a.rc@ =~= b.rc@);
    assert(fraction_columns(a) =~= fraction_columns(b));
}

/// The values of some columns.
pub open spec fn column_values(cols: Seq<Vec<u32>>) -> Seq<Seq<u32>> {
    Seq::new(cols.len(), |i: int| cols[i]@)
}

/// The values of the public columns.
pub open spec fn public_values(cols: Seq<(ColumnId, Vec<u32>)>) -> Seq<Seq<u32>> {
    Seq::new(cols.len(), |i: int| cols[i].1@)
}

/// How columns are committed and proved: what the roots of trees of values and of
/// running sums are, which nonce the proof of work finds for a digest, which bytes
/// prove that public columns, hidden columns and running sums, committed under a
/// digest, satisfy their constraints, and how claims are written.
pub ghost struct Committing {
    pub root: spec_fn(Seq<Seq<u32>>) -> Seq<u8>,
    pub sums_root: spec_fn(Seq<Seq<Fraction>>) -> Seq<u8>,
    pub work: spec_fn(Seq<u8>) -> u64,
    pub prove: spec_fn(Seq<Seq<u32>>, Seq<Seq<u32>>, Seq<Seq<Fraction>>, Seq<u8>) -> Seq<u8>,
    pub text: spec_fn(Seq<QM31>) -> Seq<u8>,
}

/// One proof of a shard, from its columns to what it hands on.
pub ghost struct ShardRun {
    pub witness: ShardWitness,
    pub public: Seq<(ColumnId, Vec<u32>)>,
    pub hidden: Seq<Vec<u32>>,
    pub nonce: u64,
    pub answer: ShardAnswer,
    pub output: ShardOutput,
}

impl ShardRun {
    pub open spec fn root0(self, c: Committing) -> Seq<u8> {
        (c.root)(public_values(self.public))
    }

    pub open spec fn root1(self, c: Committing) -> Seq<u8> {
        (c.root)(column_values(self.hidden))
    }

    pub open spec fn root2(self, c: Committing) -> Seq<u8> {
        (c.sums_root)(fraction_columns(&self.answer.interaction))
    }

    /// The digest after everything that is committed to.
    pub open spec fn end_digest(self, c: Committing) -> Seq<u8> {
        closed_digest(
            self.answer.transcript.digest@,
            &self.answer.interaction.claims,
            self.root2(c),
        )
    }

    /// The bytes of the proof.
    pub open spec fn proof_bytes(self, c: Committing) -> Seq<u8> {
        (c.prove)(
            public_values(self.public),
            column_values(self.hidden),
            fraction_columns(&self.answer.interaction),
            self.end_digest(c),
        )
    }

    /// What the proof contributes to the fingerprint of its run.
    pub open spec fn contributes(self, c: Committing, p: ShardPart) -> bool {
        &&& p.proof@ == self.proof_bytes(c)
        &&& p.claim_text@ == (c.text)(self.output.claim@)
        &&& p.nonce == self.output.nonce
    }

    /// The steps of the proof: the hidden columns are the witness's, the nonce is
    /// the one that the commitments ask for, the answer is one to the challenges,
    /// and the output carries it. The public columns are left open.
    pub open spec fn proves(self, n_gates: int, cases: Seq<TestCase>, c: Committing) -> bool {
        &&& self.witness.are_hidden_columns(self.hidden)
        &&& self.nonce == (c.work)(
            committed_digest(
                CHANNEL_SALT,
                &self.witness.shape.config,
                self.root0(c),
                Seq::empty(),
                self.root1(c),
            ),
        )
        &&& self.answer.answers(&self.witness, n_gates, self.root0(c), self.root1(c), self.nonce)
        &&& self.output.carries(
            &self.witness,
            cases,
            &self.answer.interaction.claims,
            self.nonce,
        )
    }
}

proof fn lemma_same_hidden(a: &ShardWitness, b: &ShardWitness, p: Seq<Vec<u32>>, q: Seq<Vec<u32>>)
    requires
        same_witness(a, b),
        a.are_hidden_columns(p),
        b.are_hidden_columns(q),
    ensures
        column_values(p) == column_values(q),
{
    assert forall|c: int| 0 <= c < p.len() implies p[c]@ == q[c]@ by {
        if c < TRACE_COLUMNS {
            assert(p[c]@ =~= Seq::new(a.rows@.len(), |i: int| row_cells(a.rows@[i])[c]));
            assert(q[c]@ =~= Seq::new(b.rows@.len(), |i: int| row_cells(b.rows@[i])[c]));
        }
    }
    assert(column_values(p) =~= column_values(q));
}

/// Two outputs of the same contents.
pub open spec fn same_output(a: &ShardOutput, b: &ShardOutput) -> bool {
    &&& a.claim@ == b.claim@
    &&& a.nonce == b.nonce
    &&& a.salt == b.salt
    &&& a.log_n_rows == b.log_n_rows
    &&& a.program_log_size == b.program_log_size
    &&& a.boundary@ == b.boundary@
    &&& a.total_pc == b.total_pc
}

/// One shard, proved with the public columns of the first shard of the run, and
/// proved with its own.
pub open spec fn proved_both_ways(
    gates: Seq<Gate>,
    cases: Seq<TestCase>,
    k: nat,
    log_blowup: u32,
    first: &ShardShape,
    a: ShardRun,
    b: ShardRun,
    c: Committing,
) -> bool {
    &&& first.fits(cases.len(), gates.len(), k, log_blowup)
    &&& first.rc_log == b.witness.shape.rc_log
    &&& a.witness.shape.rc_log == b.witness.shape.rc_log
    &&& a.witness.of(gates, cases, k, log_blowup)
    &&& b.witness.of(gates, cases, k, log_blowup)
    &&& are_public_columns(a.public, first, cases.len() as int, k as int, gates.len() as int)
    &&& are_public_columns(
        b.public,
        &b.witness.shape,
        cases.len() as int,
        k as int,
        gates.len() as int,
    )
    &&& a.proves(gates.len() as int, cases, c)
    &&& b.proves(gates.len() as int, cases, c)
}

/// A shard that is proved with the public columns of the first shard of the run,
/// and one that is proved with its own, have the same trees, nonce, challenges,
/// claims and proof, and hand on the same, however columns are committed to.
pub proof fn lemma_shared_columns_change_nothing(
    gates: Seq<Gate>,
    cases: Seq<TestCase>,
    k: nat,
    log_blowup: u32,
    first: &ShardShape,
    a: ShardRun,
    b: ShardRun,
    c: Committing,
)
    requires
        proved_both_ways(gates, cases, k, log_blowup, first, a, b, c),
    ensures
        same_columns(a.public, b.public),
        same_witness(&a.witness, &b.witness),
        a.root0(c) == b.root0(c),
        a.root1(c) == b.root1(c),
        a.nonce == b.nonce,
        same_relation(&a.answer.relation, &b.answer.relation),
        a.answer.interaction.claims == b.answer.interaction.claims,
        a.root2(c) == b.root2(c),
        a.end_digest(c) == b.end_digest(c),
        a.proof_bytes(c) == b.proof_bytes(c),
        same_output(&a.output, &b.output),
{
    lemma_public_columns_shared(
        first,
        &b.witness.shape,
        cases.len(),
        gates.len(),
        k,
        log_blowup,
        log_blowup,
        a.public,
        b.public,
    );
    assert(public_values(a.public) =~= public_values(b.public));
    lemma_witness_determined(&a.witness, &b.witness, gates, cases, k, log_blowup);
    lemma_same_hidden(&a.witness, &b.witness, a.hidden, b.hidden);
    let (r, s) = (&a.answer.relation, &b.answer.relation);
    let (u, w) = (&a.witness, &b.witness);
    lemma_drawn_alike(a.answer.transcript.digest@, r, s);
    lemma_same_main_value(r, s, u.real_rows(), gates.len() as int);
    lemma_same_program_value(r, s, &u.program, &w.program);
    lemma_same_boundary_claim(r, s, &u.boundary, &w.boundary);
    lemma_same_rc_value(r, s, &u.rc_table, &w.rc_table);
    let (x, y) = (a.answer.interaction.claims, b.answer.interaction.claims);
    lemma_same_ext(x.main, y.main);
    lemma_same_ext(x.program, y.program);
    lemma_same_ext(x.boundary, y.boundary);
    lemma_same_ext(x.rc, y.rc);
    lemma_same_fractions(
        &a.answer.interaction,
        &b.answer.interaction,
        u,
        w,
        r,
        s,
        gates.len() as int,
    );
    assert forall|j: int| 0 <= j < a.output.boundary@.len() implies a.output.boundary@[j]
        == b.output.boundary@[j] by {
        let (p, q) = (a.output.boundary@[j], b.output.boundary@[j]);
        assert(p.0@ =~= q.0@ && p.1@ =~= q.1@);
        assert(p.0 == q.0 && p.1 == q.1);
    }
    assert(a.output.boundary@ =~= b.output.boundary@);
}

/// The fingerprint of a run's proofs is the same whether its shards share the public
/// columns of the first one or have their own.
pub proof fn lemma_fingerprint_unchanged(
    gates: Seq<Gate>,
    shards: Seq<Seq<TestCase>>,
    k: nat,
    log_blowup: u32,
    first: &ShardShape,
    a: Seq<ShardRun>,
    b: Seq<ShardRun>,
    c: Committing,
    parts_a: Seq<ShardPart>,
    parts_b: Seq<ShardPart>,
)
    requires
        a.len() == shards.len(),
        b.len() == shards.len(),
        parts_a.len() == shards.len(),
        parts_b.len() == shards.len(),
        forall|s: int|
            0 <= s < shards.len() ==> #[trigger] proved_both_ways(
                gates,
                shards[s],
                k,
                log_blowup,
                first,
                a[s],
                b[s],
                c,
            ),
        forall|s: int| 0 <= s < shards.len() ==> a[s].contributes(c, #[trigger] parts_a[s]),
        forall|s: int| 0 <= s < shards.len() ==> b[s].contributes(c, #[trigger] parts_b[s]),
    ensures
        base_message(parts_a) == base_message(parts_b),
        fingerprint_of(base_message(parts_a)) == fingerprint_of(base_message(parts_b)),
{
    assert forall|s: int| 0 <= s < shards.len() implies shard_message(
        s as nat,
        #[trigger] parts_a[s],
    ) == shard_message(s as nat, parts_b[s]) by {
        assert(proved_both_ways(gates, shards[s], k, log_blowup, first, a[s], b[s], c));
        lemma_shared_columns_change_nothing(
            gates,
            shards[s],
            k,
            log_blowup,
            first,
            a[s],
            b[s],
            c,
        );
        assert(a[s].contributes(c, parts_a[s]) && b[s].contributes(c, parts_b[s]));
    }
    lemma_same_messages(parts_a, parts_b, shards.len());
}

proof fn lemma_same_messages(a: Seq<ShardPart>, b: Seq<ShardPart>, n: nat)
    requires
        n <= a.len() == b.len(),
        forall|s: int|
            0 <= s < n ==> shard_message(s as nat, #[trigger] a[s]) == shard_message(s as nat, b[s]),
    ensures
        shard_messages(a, n) == shard_messages(b, n),
    decreases n,
{
    if n > 0 {
        lemma_same_messages(a, b, (n - 1) as nat);
        assert(shard_message((n - 1) as nat, a[n - 1]) == shard_message((n - 1) as nat, b[n - 1]));
    }
}

} // verus!
