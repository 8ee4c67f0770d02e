//! What the rows and tables of the qubit-memory encoding say about an execution.
use vstd::arithmetic::power2::{lemma_pow2_strictly_increases, pow2};
use vstd::prelude::*;

use crate::acceptance_laws::{
    all_reversible, is_reversible, is_right, lemma_rows_are_built_for, state_in,
};
use crate::circuit::{Gate, TestCase};
use crate::components::row_cells;
use crate::gate_laws::{
    bit_in_text, lemma_qubit_in_text, lemma_run_step_by_step, lemma_text_is_digits, new_bit,
    state_at, targets_exist,
};
use crate::preprocessed::{column_listing, in_order, ColumnId, SizedColumn};
use crate::program::ProgramTable;
use crate::qubit_memory::{
    all_runnable, are_built, last_access, lemma_last_access, row_of, rows_outcome, AccessCols,
    BoundaryTable, Row, RowsError,
};
use crate::shard::{are_public_columns, public_column, public_value, ShardWitness};
use crate::whole_state::text_state;

verus! {

/// A gate reads or writes qubit `q`.
pub open spec fn touches(g: Gate, q: int) -> bool {
    ||| g.target == q
    ||| (g.opcode == 2 || g.opcode == 3) && g.ctrl_a == q
    ||| g.opcode == 3 && g.ctrl_b == q
}

/// `t` is the last of the first `n` steps at which qubit `q` is touched, counted from
/// one; zero if there is none.
pub open spec fn is_last_touch(gates: Seq<Gate>, n: int, q: int, t: int) -> bool {
    &&& 0 <= t <= n
    &&& t > 0 ==> touches(gates[(t - 1) % gates.len() as int], q)
    &&& forall|j: int| t <= j < n ==> !touches(gates[#[trigger] (j % gates.len() as int)], q)
}

proof fn lemma_last_touch(gates: Seq<Gate>, n: nat, q: int)
    requires
        gates.len() > 0,
        all_runnable(gates),
        n <= u32::MAX,
        0 <= q < 512,
    ensures
        is_last_touch(gates, n as int, q, last_access(gates, n)[q] as int),
    decreases n,
{
    lemma_last_access(gates, n);
    if n > 0 {
        let m = (n - 1) as nat;
        lemma_last_touch(gates, m, q);
        lemma_last_access(gates, m);
        let i = (n - 1) % gates.len() as int;
        vstd::arithmetic::div_mod::lemma_mod_bound(n - 1, gates.len() as int);
        let g = gates[i];
        assert(g.runnable());
        let t = last_access(gates, n)[q] as int;
        if touches(g, q) {
            assert(t == n);
        } else {
            assert(t == last_access(gates, m)[q]);
            assert forall|j: int| t <= j < n implies !touches(gates[#[trigger] (j % gates.len() as int)], q) by {
                if j == n - 1 {
                    assert(j % gates.len() as int == i);
                }
            }
        }
    }
}

/// An access at step `pc` to qubit `q`, which holds `bit`: it names the qubit, its
/// value, when it was last touched, and how many steps ago that was.
pub open spec fn is_access(a: AccessCols, gates: Seq<Gate>, pc: int, q: int, bit: bool) -> bool {
    &&& a.addr == q
    &&& a.v == (if bit { 1int } else { 0int })
    &&& is_last_touch(gates, pc, q, a.prev_ts as int)
    &&& a.prev_ts + a.d == pc
}

pub open spec fn is_empty_access(a: AccessCols) -> bool {
    a.addr == 0 && a.v == 0 && a.prev_ts == 0 && a.d == 0
}

/// A row says which gate ran at which step of which shot, what it found in the qubits
/// that it touched, and by how much it changed its target, modulo `2^31 - 1`.
pub open spec fn row_says(row: Row, gates: Seq<Gate>, start: Seq<bool>, shot: int, pc: int) -> bool {
    let g = gates[pc % gates.len() as int];
    let s = state_at(gates, start, pc as nat);
    let t = state_at(gates, start, pc as nat + 1);
    &&& row.enabler == 1
    &&& row.shot_id == shot
    &&& row.pc == pc
    &&& row.is_nop + row.is_not + row.is_cnot + row.is_toffoli == 1
    &&& row.is_not + 2 * row.is_cnot + 3 * row.is_toffoli == g.opcode
    &&& is_access(row.target, gates, pc, g.target as int, s[g.target as int])
    &&& if g.opcode == 2 || g.opcode == 3 {
        is_access(row.ctrl_a, gates, pc, g.ctrl_a as int, s[g.ctrl_a as int])
    } else {
        is_empty_access(row.ctrl_a)
    }
    &&& if g.opcode == 3 {
        is_access(row.ctrl_b, gates, pc, g.ctrl_b as int, s[g.ctrl_b as int])
    } else {
        is_empty_access(row.ctrl_b)
    }
    &&& row.ab == row.ctrl_a.v * row.ctrl_b.v
    &&& row.fire == (if s[g.target as int] != t[g.target as int] { 1int } else { 0int })
    &&& (row.target.v + row.delta) % 0x7fff_ffff == (if t[g.target as int] { 1int } else { 0int })
    &&& row.delta < 0x7fff_ffff
}

proof fn lemma_right_start(gates: Seq<Gate>, cases: Seq<TestCase>, k: nat, s: int, rows: Vec<Row>, b: BoundaryTable)
    requires
        are_built(rows@, &b, gates, cases, k),
        0 <= s < cases.len(),
    ensures
        all_reversible(gates),
        targets_exist(gates),
        is_right(gates, k, cases[s]),
        text_state(cases[s].x_hex@) == state_in(cases[s].x_hex@),
        text_state(cases[s].y_hex@) == state_in(cases[s].y_hex@),
        state_in(cases[s].x_hex@).len() == 512,
{
    let r = Ok::<(Vec<Row>, BoundaryTable), RowsError>((rows, b));
    assert(rows_outcome(gates, cases, k, r));
    lemma_rows_are_built_for(gates, cases, k, r);
    assert(is_right(gates, k, cases[s]));
    let (x, y) = (cases[s].x_hex@, cases[s].y_hex@);
    lemma_text_is_digits(x);
    lemma_text_is_digits(y);
    assert forall|q: int| 0 <= q < 512 implies text_state(x)[q] == state_in(x)[q] && text_state(y)[q] == state_in(y)[q] by {
        lemma_qubit_in_text(x, q);
        lemma_qubit_in_text(y, q);
    }
    lemma_qubit_in_text(x, 0);
    lemma_qubit_in_text(y, 0);
    assert(text_state(x) =~= state_in(x));
    assert(text_state(y) =~= state_in(y));
    assert forall|i: int| 0 <= i < gates.len() implies (#[trigger] gates[i]).target < 512 by {
        assert(is_reversible(gates[i]));
    }
}

/// Step `j` of shot `s` is row `s * m + j`, where `m` is `k` times the number of gates,
/// and it says what happened there.
pub proof fn lemma_rows_say_what_happened(
    rows: Vec<Row>,
    boundary: BoundaryTable,
    gates: Seq<Gate>,
    cases: Seq<TestCase>,
    k: nat,
    s: int,
    j: int,
)
    requires
        are_built(rows@, &boundary, gates, cases, k),
        0 <= s < cases.len(),
        0 <= j < k * gates.len(),
    ensures
        rows@.len() == cases.len() * k * gates.len(),
        0 <= s * (k * gates.len()) + j < rows@.len(),
        row_says(rows@[s * (k * gates.len()) + j], gates, state_in(cases[s].x_hex@), s, j),
{
    let m = (k * gates.len()) as int;
    let i = s * m + j;
    crate::whole_state::lemma_flat_index(s, cases.len() as int, m, j);
    assert(cases.len() * k * gates.len() == cases.len() * (k * gates.len())) by (nonlinear_arith);
    lemma_right_start(gates, cases, k, s, rows, boundary);
    let start = state_in(cases[s].x_hex@);
    lemma_run_step_by_step(gates, start, j as nat);
    lemma_shot_is_small(boundary, cases, gates, m as nat, s);
    assert(rows@[i] == row_of(
        gates[j % gates.len() as int],
        state_at(gates, start, j as nat),
        last_access(gates, j as nat),
        s,
        j,
    ));
    lemma_row_of_says(gates, start, s, j);
}

/// The next state differs in one target alone.
proof fn lemma_next_target(gates: Seq<Gate>, start: Seq<bool>, j: int)
    requires
        gates.len() > 0,
        0 <= j,
        all_reversible(gates),
        state_at(gates, start, j as nat).len() == 512,
    ensures
        ({
            let g = gates[j % gates.len() as int];
            let s = state_at(gates, start, j as nat);
            &&& is_reversible(g)
            &&& state_at(gates, start, j as nat + 1)[g.target as int] == new_bit(
                g.opcode,
                s[g.target as int],
                s[g.ctrl_a as int],
                s[g.ctrl_b as int],
            )
        }),
{
    vstd::arithmetic::div_mod::lemma_mod_bound(j, gates.len() as int);
    let g = gates[j % gates.len() as int];
    assert(is_reversible(g));
    assert((j as nat + 1) - 1 == j);
}

proof fn lemma_row_of_says(gates: Seq<Gate>, start: Seq<bool>, shot: int, j: int)
    requires
        gates.len() > 0,
        0 <= j < u32::MAX,
        0 <= shot <= u32::MAX,
        all_reversible(gates),
        all_runnable(gates),
        state_at(gates, start, j as nat).len() == 512,
    ensures
        row_says(
            row_of(
                gates[j % gates.len() as int],
                state_at(gates, start, j as nat),
                last_access(gates, j as nat),
                shot,
                j,
            ),
            gates,
            start,
            shot,
            j,
        ),
{
    lemma_next_target(gates, start, j);
    let g = gates[j % gates.len() as int];
    let s = state_at(gates, start, j as nat);
    let last = last_access(gates, j as nat);
    lemma_last_access(gates, j as nat);
    lemma_last_touch(gates, j as nat, g.target as int);
    lemma_new_target(g, s);
    let row = row_of(g, s, last, shot, j);
    assert(is_access(row.target, gates, j, g.target as int, s[g.target as int]));
    if g.opcode == 2 || g.opcode == 3 {
        lemma_last_touch(gates, j as nat, g.ctrl_a as int);
        assert(is_access(row.ctrl_a, gates, j, g.ctrl_a as int, s[g.ctrl_a as int]));
    }
    if g.opcode == 3 {
        lemma_last_touch(gates, j as nat, g.ctrl_b as int);
        assert(is_access(row.ctrl_b, gates, j, g.ctrl_b as int, s[g.ctrl_b as int]));
    }
    let (a, b) = (row.ctrl_a.v as int, row.ctrl_b.v as int);
    assert(a * b == (if a == 1 && b == 1 { 1int } else { 0int })) by (nonlinear_arith)
        requires
            a == 0 || a == 1,
            b == 0 || b == 1,
    ;
}

proof fn lemma_shot_is_small(b: BoundaryTable, cases: Seq<TestCase>, gates: Seq<Gate>, m: nat, s: int)
    requires
        crate::qubit_memory::is_boundary(b, gates, cases, m),
        0 <= s < cases.len(),
    ensures
        s <= u32::MAX,
{
}

proof fn lemma_new_target(g: Gate, s: Seq<bool>)
    requires
        is_reversible(g),
        s.len() == 512,
    ensures
        ({
            let t = new_bit(g.opcode, s[g.target as int], s[g.ctrl_a as int], s[g.ctrl_b as int]);
            g.fires(s) <==> s[g.target as int] != t
        }),
{
}

/// The boundary table: row `512 * s + q` holds the first and the last value of qubit
/// `q` of shot `s`, and the last step at which it was touched; all other rows are zero.
pub proof fn lemma_boundary_says_ends(
    rows: Vec<Row>,
    boundary: BoundaryTable,
    gates: Seq<Gate>,
    cases: Seq<TestCase>,
    k: nat,
    s: int,
    q: int,
)
    requires
        are_built(rows@, &boundary, gates, cases, k),
        0 <= s < cases.len(),
        0 <= q < 512,
    ensures
        512 * s + q < boundary.rows@.len(),
        ({
            let r = boundary.rows@[512 * s + q];
            &&& r.shot_id == s
            &&& r.addr == q
            &&& r.x == (if bit_in_text(cases[s].x_hex@, q) { 1int } else { 0int })
            &&& r.y == (if bit_in_text(cases[s].y_hex@, q) { 1int } else { 0int })
            &&& is_last_touch(gates, (k * gates.len()) as int, q, r.ts_last as int)
        }),
        boundary.rows@.len() >= 16,
        forall|i: int| 512 * cases.len() <= i < boundary.rows@.len() ==> {
            let r = #[trigger] boundary.rows@[i];
            r.shot_id == 0 && r.addr == 0 && r.x == 0 && r.y == 0 && r.ts_last == 0
        },
{
    lemma_right_start(gates, cases, k, s, rows, boundary);
    lemma_last_touch(gates, k * gates.len(), q);
    assert((512 * s + q) / 512 == s && (512 * s + q) % 512 == q);
    assert(512 * s + q < cases.len() * 512);
    vstd::arithmetic::power2::lemma2_to64();
    if boundary.log_size > 4 {
        lemma_pow2_strictly_increases(4, boundary.log_size as nat);
    }
}

/// The program table: slot `i` holds gate `i`, with the operands that it reads and how
/// often it runs; its size is the least power of two, and at least sixteen, that holds
/// all gates; the other slots are empty.
pub proof fn lemma_program_lists_gates(t: &ProgramTable, gates: Seq<Gate>, mult: u32, i: int)
    requires
        t.describes(gates, mult),
        0 <= i < t.slot@.len(),
    ensures
        t.slot@.len() >= 16 && t.slot@.len() >= gates.len(),
        t.slot@.len() == 16 || t.slot@.len() < 2 * gates.len(),
        t.slot@[i] == i,
        i < gates.len() ==> {
            let g = gates[i];
            let two = g.opcode == 2 || g.opcode == 3;
            &&& t.opcode_scalar@[i] == (if g.opcode < 4 { g.opcode as int } else { 0 })
            &&& t.target@[i] == g.target
            &&& t.ctrl_a@[i] == (if two { g.ctrl_a as int } else { 0 })
            &&& t.ctrl_b@[i] == (if g.opcode == 3 { g.ctrl_b as int } else { 0 })
            &&& t.multiplicity@[i] == mult
        },
        i >= gates.len() ==> t.opcode_scalar@[i] == 0 && t.target@[i] == 0 && t.ctrl_a@[i] == 0 && t.ctrl_b@[i] == 0
            && t.multiplicity@[i] == 0,
{
    vstd::arithmetic::power2::lemma2_to64();
    let l = t.log_size as nat;
    if l > 4 {
        lemma_pow2_strictly_increases(4, l);
        vstd::arithmetic::power2::lemma_pow2_unfold(l);
    }
    if i < gates.len() {
        assert(t.holds(i, gates[i], mult));
    } else {
        assert(t.pads(i));
    }
}

/// The public columns agree with the rows beside which they stand. On the row of a
/// gate they hold a one, its shot, its step, and a slot of the program table that holds
/// the row's gate with its operands; on padding they hold zeros.
pub proof fn lemma_public_columns_fit_rows(
    w: &ShardWitness,
    gates: Seq<Gate>,
    cases: Seq<TestCase>,
    k: nat,
    log_blowup: u32,
    i: int,
)
    requires
        w.of(gates, cases, k, log_blowup),
        cases.len() * k <= u32::MAX,
        0 <= i < w.rows@.len(),
    ensures
        ({
            let col = |id: ColumnId| public_value(id, w.shape.n_rows as int, cases.len() as int, k as int, gates.len() as int, i);
            let row = w.rows@[i];
            let slot = col(ColumnId::PcInProg);
            &&& col(ColumnId::Enabler) == row.enabler
            &&& col(ColumnId::ShotId) == row.shot_id
            &&& col(ColumnId::Pc) == row.pc
            &&& row.enabler == 1 <==> i < cases.len() * k * gates.len()
            &&& row.enabler == 0 ==> slot == 0
            &&& row.enabler == 1 ==> {
                &&& 0 <= slot < gates.len()
                &&& w.program.slot@[slot] == slot
                &&& w.program.opcode_scalar@[slot] == row.is_not + 2 * row.is_cnot + 3 * row.is_toffoli
                &&& w.program.target@[slot] == row.target.addr
                &&& w.program.ctrl_a@[slot] == row.ctrl_a.addr
                &&& w.program.ctrl_b@[slot] == row.ctrl_b.addr
                &&& w.program.multiplicity@[slot] == cases.len() * k
            }
        }),
{
    let m = (k * gates.len()) as int;
    assert(m > 0) by (nonlinear_arith)
        requires
            k > 0,
            gates.len() > 0,
            m == k * gates.len(),
    ;
    assert(cases.len() * k * gates.len() == cases.len() * (k * gates.len())) by (nonlinear_arith);
    if i < w.shape.n_rows {
        assert(w.real_rows()[i] == w.rows@[i]);
        vstd::arithmetic::div_mod::lemma_mod_bound(i, m);
        let pc = i % m;
        vstd::arithmetic::div_mod::lemma_mod_bound(pc, gates.len() as int);
        let slot = pc % gates.len() as int;
        let g = gates[slot];
        assert(g.runnable());
        assert(w.program.holds(slot, gates[slot], (cases.len() * k) as u32));
        vstd::arithmetic::power2::lemma_pow2_pos(w.program.log_size as nat);
        assert(i / m < cases.len()) by (nonlinear_arith)
            requires
                0 <= i < cases.len() * m,
                m > 0,
        ;
        assert(0 <= i / m) by (nonlinear_arith)
            requires
                0 <= i,
                m > 0,
        ;
        lemma_shot_is_small(w.boundary, cases, gates, k * gates.len(), i / m);
    } else {
        assert(w.pad_rows()[i - w.shape.n_rows] == w.rows@[i]);
    }
}

/// The public columns agree with the other tables: the positions of the boundary rows,
/// and the numbers of the slots and of the values of the range table.
pub proof fn lemma_public_columns_fit_tables(
    w: &ShardWitness,
    gates: Seq<Gate>,
    cases: Seq<TestCase>,
    k: nat,
    log_blowup: u32,
    i: int,
)
    requires
        w.of(gates, cases, k, log_blowup),
        0 <= i,
    ensures
        ({
            let col = |id: ColumnId| public_value(id, w.shape.n_rows as int, cases.len() as int, k as int, gates.len() as int, i);
            &&& i < w.boundary.rows@.len() ==> {
                &&& col(ColumnId::BndShot) == w.boundary.rows@[i].shot_id
                &&& col(ColumnId::BndAddr) == w.boundary.rows@[i].addr
                &&& col(ColumnId::BndEnabler) == (if i < 512 * cases.len() { 1int } else { 0int })
                &&& i < 512 * cases.len() ==> 512 * col(ColumnId::BndShot) + col(ColumnId::BndAddr) == i
                    && 0 <= col(ColumnId::BndAddr) < 512
            }
            &&& i < w.program.slot@.len() ==> col(ColumnId::ProgSlot) == w.program.slot@[i] && w.program.slot@[i] == i
            &&& i < w.rc_table.val@.len() ==> col(ColumnId::RcVal) == w.rc_table.val@[i] && w.rc_table.val@[i] == i
        }),
{
    if i < 512 * cases.len() && i < w.boundary.rows@.len() {
        lemma_shot_is_small(w.boundary, cases, gates, k * gates.len(), i / 512);
    }
}

/// The cells of a row, column by column.
pub proof fn lemma_cells_of_row(row: Row)
    ensures
        row_cells(row).len() == 19,
        row_cells(row)[0] == row.is_nop,
        row_cells(row)[1] == row.is_not,
        row_cells(row)[2] == row.is_cnot,
        row_cells(row)[3] == row.is_toffoli,
        row_cells(row)[4] == row.target.addr,
        row_cells(row)[5] == row.target.prev_ts,
        row_cells(row)[6] == row.target.v,
        row_cells(row)[7] == row.target.d,
        row_cells(row)[8] == row.ctrl_a.addr,
        row_cells(row)[9] == row.ctrl_a.prev_ts,
        row_cells(row)[10] == row.ctrl_a.v,
        row_cells(row)[11] == row.ctrl_a.d,
        row_cells(row)[12] == row.ctrl_b.addr,
        row_cells(row)[13] == row.ctrl_b.prev_ts,
        row_cells(row)[14] == row.ctrl_b.v,
        row_cells(row)[15] == row.ctrl_b.d,
        row_cells(row)[16] == row.ab,
        row_cells(row)[17] == row.fire,
        row_cells(row)[18] == row.delta,
{
}

/// The hidden columns, cell by cell: nineteen columns of the rows, and behind them the
/// columns of the program, of the boundary, and the counts of the range table.
pub proof fn lemma_hidden_columns_hold_tables(w: &ShardWitness, cols: Seq<Vec<u32>>, i: int)
    requires
        w.are_hidden_columns(cols),
    ensures
        cols.len() == 28,
        0 <= i < w.rows@.len() ==> {
            let row = w.rows@[i];
            &&& cols[1]@[i] == row.is_not && cols[2]@[i] == row.is_cnot && cols[3]@[i] == row.is_toffoli
            &&& cols[0]@[i] == row.is_nop
            &&& cols[4]@[i] == row.target.addr && cols[5]@[i] == row.target.prev_ts && cols[6]@[i] == row.target.v
                && cols[7]@[i] == row.target.d
            &&& cols[8]@[i] == row.ctrl_a.addr && cols[9]@[i] == row.ctrl_a.prev_ts && cols[10]@[i] == row.ctrl_a.v
                && cols[11]@[i] == row.ctrl_a.d
            &&& cols[12]@[i] == row.ctrl_b.addr && cols[13]@[i] == row.ctrl_b.prev_ts && cols[14]@[i]
                == row.ctrl_b.v && cols[15]@[i] == row.ctrl_b.d
            &&& cols[16]@[i] == row.ab && cols[17]@[i] == row.fire && cols[18]@[i] == row.delta
        },
        cols[19]@ == w.program.opcode_scalar@ && cols[20]@ == w.program.target@ && cols[21]@ == w.program.ctrl_a@
            && cols[22]@ == w.program.ctrl_b@ && cols[23]@ == w.program.multiplicity@,
        0 <= i < w.boundary.rows@.len() ==> cols[24]@[i] == w.boundary.rows@[i].x && cols[25]@[i]
            == w.boundary.rows@[i].y && cols[26]@[i] == w.boundary.rows@[i].ts_last,
        cols[27]@ == w.rc_table.multiplicity@,
{
    if 0 <= i < w.rows@.len() {
        lemma_cells_of_row(w.rows@[i]);
    }
}

/// The place of a column among those of its size.
pub open spec fn listed_at(id: ColumnId) -> int {
    match id {
        ColumnId::ProgSlot => 1,
        ColumnId::Enabler => 2,
        ColumnId::ShotId => 3,
        ColumnId::Pc => 4,
        ColumnId::PcInProg => 5,
        ColumnId::BndShot => 6,
        ColumnId::BndAddr => 7,
        ColumnId::BndEnabler => 8,
        ColumnId::RcVal => 9,
    }
}

/// How long the column beside a table is: as long as the table.
pub open spec fn table_len(w: &ShardWitness, id: ColumnId) -> nat {
    match id {
        ColumnId::ProgSlot => w.program.slot@.len(),
        ColumnId::Enabler => w.rows@.len(),
        ColumnId::ShotId => w.rows@.len(),
        ColumnId::Pc => w.rows@.len(),
        ColumnId::PcInProg => w.rows@.len(),
        ColumnId::BndShot => w.boundary.rows@.len(),
        ColumnId::BndAddr => w.boundary.rows@.len(),
        ColumnId::BndEnabler => w.boundary.rows@.len(),
        ColumnId::RcVal => w.rc_table.val@.len(),
    }
}

/// The nine public columns that are committed with a witness are as long as the tables
/// beside which they stand, shorter ones come first, and they hold what those tables
/// say: of each row its enabler, shot, step and the slot of its gate, of each boundary
/// row its shot and qubit, and the numbers of slots and of range values.
pub proof fn lemma_committed_public_columns(
    w: &ShardWitness,
    gates: Seq<Gate>,
    cases: Seq<TestCase>,
    k: nat,
    log_blowup: u32,
    cols: Seq<(ColumnId, Vec<u32>)>,
    j: int,
    i: int,
)
    requires
        w.of(gates, cases, k, log_blowup),
        cases.len() * k <= u32::MAX,
        are_public_columns(cols, &w.shape, cases.len() as int, k as int, gates.len() as int),
        0 <= j < cols.len(),
        0 <= i < cols[j].1@.len(),
    ensures
        cols.len() == 9,
        cols[j].1@.len() == table_len(w, cols[j].0),
        forall|l: int| j < l < 9 ==> cols[j].1@.len() < (#[trigger] cols[l]).1@.len() || (cols[j].1@.len()
            == cols[l].1@.len() && listed_at(cols[j].0) < listed_at(cols[l].0)),
        ({
            let v = cols[j].1@[i];
            match cols[j].0 {
                ColumnId::ProgSlot => v == w.program.slot@[i],
                ColumnId::Enabler => v == w.rows@[i].enabler,
                ColumnId::ShotId => v == w.rows@[i].shot_id,
                ColumnId::Pc => v == w.rows@[i].pc,
                ColumnId::PcInProg => w.rows@[i].enabler == 1 ==> v < gates.len() && w.program.target@[v as int]
                    == w.rows@[i].target.addr && w.program.ctrl_a@[v as int] == w.rows@[i].ctrl_a.addr
                    && w.program.ctrl_b@[v as int] == w.rows@[i].ctrl_b.addr && w.program.opcode_scalar@[v as int]
                    == w.rows@[i].is_not + 2 * w.rows@[i].is_cnot + 3 * w.rows@[i].is_toffoli,
                ColumnId::BndShot => v == w.boundary.rows@[i].shot_id,
                ColumnId::BndAddr => v == w.boundary.rows@[i].addr,
                ColumnId::BndEnabler => v == (if i < 512 * cases.len() { 1int } else { 0int }),
                ColumnId::RcVal => v == w.rc_table.val@[i],
            }
        }),
{
    let l = column_listing(
        w.shape.log_n_rows,
        w.shape.program_log_size,
        w.shape.qubitmem_log_size,
        w.shape.rc_log,
    );
    let s = choose|s: Seq<SizedColumn>|
        #![trigger in_order(s)]
        in_order(s) && s.len() == cols.len() && s.to_multiset() == l.to_multiset() && forall|j: int|
            0 <= j < s.len() ==> (#[trigger] cols[j]).0 == s[j].0 && public_column(
                s[j],
                cols[j].1@,
                w.shape.n_rows as int,
                cases.len() as int,
                k as int,
                gates.len() as int,
            );
    assert forall|a: int| 0 <= a < 9 implies (#[trigger] cols[a]).1@.len() == table_len(w, cols[a].0) && cols[a].1@.len()
        == pow2(s[a].1 as nat) && cols[a].0 == s[a].0 by {
        lemma_listed_size(w, s, l, a);
    }
    assert forall|b: int| j < b < 9 implies cols[j].1@.len() < (#[trigger] cols[b]).1@.len() || (cols[j].1@.len()
        == cols[b].1@.len() && listed_at(cols[j].0) < listed_at(cols[b].0)) by {
        assert(crate::preprocessed::before(s[j], s[b]));
        if s[j].1 < s[b].1 {
            lemma_pow2_strictly_increases(s[j].1 as nat, s[b].1 as nat);
        }
        assert(cols[j].1@.len() == pow2(s[j].1 as nat));
    }
    assert(public_column(
        s[j],
        cols[j].1@,
        w.shape.n_rows as int,
        cases.len() as int,
        k as int,
        gates.len() as int,
    ));
    assert(cols[j].1@.len() == table_len(w, cols[j].0));
    lemma_public_columns_fit_tables(w, gates, cases, k, log_blowup, i);
    if i < w.rows@.len() {
        lemma_public_columns_fit_rows(w, gates, cases, k, log_blowup, i);
    }
}

proof fn lemma_listed_size(w: &ShardWitness, s: Seq<SizedColumn>, l: Seq<SizedColumn>, a: int)
    requires
        s.to_multiset() == l.to_multiset(),
        l == column_listing(
            w.shape.log_n_rows,
            w.shape.program_log_size,
            w.shape.qubitmem_log_size,
            w.shape.rc_log,
        ),
        w.rows@.len() == pow2(w.shape.log_n_rows as nat),
        w.program.slot@.len() == pow2(w.shape.program_log_size as nat),
        w.boundary.rows@.len() == pow2(w.shape.qubitmem_log_size as nat),
        w.rc_table.val@.len() == pow2(w.shape.rc_log as nat),
        0 <= a < s.len(),
    ensures
        pow2(s[a].1 as nat) == table_len(w, s[a].0),
{
    s.to_multiset_ensures();
    l.to_multiset_ensures();
    assert(s.contains(s[a]));
    assert(l.to_multiset().count(s[a]) > 0);
    assert(l.contains(s[a]));
    let at = choose|at: int| 0 <= at < l.len() && l[at] == s[a];
    assert(l[at] == s[a]);
}

/// The rows after the last step of the last shot are zero.
pub proof fn lemma_padding_rows_are_zero(
    w: &ShardWitness,
    gates: Seq<Gate>,
    cases: Seq<TestCase>,
    k: nat,
    log_blowup: u32,
    i: int,
)
    requires
        w.of(gates, cases, k, log_blowup),
        cases.len() * (k * gates.len()) <= i < w.rows@.len(),
    ensures
        ({
            let row = w.rows@[i];
            &&& row.enabler == 0 && row.shot_id == 0 && row.pc == 0
            &&& row.is_nop == 0 && row.is_not == 0 && row.is_cnot == 0 && row.is_toffoli == 0
            &&& is_empty_access(row.target) && is_empty_access(row.ctrl_a) && is_empty_access(row.ctrl_b)
            &&& row.ab == 0 && row.fire == 0 && row.delta == 0
        }),
{
    let j = i - w.shape.n_rows;
    assert(w.pad_rows()[j] == w.rows@[i]);
}

/// The places of the public columns in a row of their values.
pub proof fn lemma_places_of_public_columns(id: ColumnId)
    ensures
        id.rank() == listed_at(id) - 1,
{
}

} // verus!
