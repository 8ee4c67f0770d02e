//! The public columns of the qubit-memory encoding: which there are, in which
//! order they are committed, and what they hold.
use vstd::arithmetic::power2::{lemma2_to64, lemma_pow2_strictly_increases, pow2};
use vstd::prelude::*;

use crate::circuit::N_QUBITS;
use crate::sizes::power_of_two;

verus! {

pub const N_PREPROCESSED_COLS: usize = 9;

/// The public columns, in listing order.
#[derive(Clone, Copy, Debug, PartialEq, Eq, Structural)]
pub enum ColumnId {
    ProgSlot,
    Enabler,
    ShotId,
    Pc,
    PcInProg,
    BndShot,
    BndAddr,
    BndEnabler,
    RcVal,
}

impl ColumnId {
    /// The place in the listing.
    pub open spec fn rank(self) -> int {
        match self {
            ColumnId::ProgSlot => 0,
            ColumnId::Enabler => 1,
            ColumnId::ShotId => 2,
            ColumnId::Pc => 3,
            ColumnId::PcInProg => 4,
            ColumnId::BndShot => 5,
            ColumnId::BndAddr => 6,
            ColumnId::BndEnabler => 7,
            ColumnId::RcVal => 8,
        }
    }

    /// The column's name in the commitment.
    pub fn id(self) -> (r: &'static str)
        ensures
            r@ == (match self {
                ColumnId::ProgSlot => "gate_prog_slot"@,
                ColumnId::Enabler => "gate_enabler"@,
                ColumnId::ShotId => "gate_shot_id"@,
                ColumnId::Pc => "gate_pc"@,
                ColumnId::PcInProg => "gate_pc_in_prog"@,
                ColumnId::BndShot => "gate_bnd_shot"@,
                ColumnId::BndAddr => "gate_bnd_addr"@,
                ColumnId::BndEnabler => "gate_bnd_enabler"@,
                ColumnId::RcVal => "gate_rc_val"@,
            }),
    {
        match self {
            ColumnId::ProgSlot => "gate_prog_slot",
            ColumnId::Enabler => "gate_enabler",
            ColumnId::ShotId => "gate_shot_id",
            ColumnId::Pc => "gate_pc",
            ColumnId::PcInProg => "gate_pc_in_prog",
            ColumnId::BndShot => "gate_bnd_shot",
            ColumnId::BndAddr => "gate_bnd_addr",
            ColumnId::BndEnabler => "gate_bnd_enabler",
            ColumnId::RcVal => "gate_rc_val",
        }
    }
}

/// A public column and the exponent of its length.
pub type SizedColumn = (ColumnId, u32);

/// The columns with their sizes, in listing order.
pub open spec fn column_listing(main: u32, program: u32, qubitmem: u32, rc: u32) -> Seq<SizedColumn> {
    seq![
        (ColumnId::ProgSlot, program),
        (ColumnId::Enabler, main),
        (ColumnId::ShotId, main),
        (ColumnId::Pc, main),
        (ColumnId::PcInProg, main),
        (ColumnId::BndShot, qubitmem),
        (ColumnId::BndAddr, qubitmem),
        (ColumnId::BndEnabler, qubitmem),
        (ColumnId::RcVal, rc),
    ]
}

/// `a` comes before `b`: it is smaller, or as large and listed earlier.
pub open spec fn before(a: SizedColumn, b: SizedColumn) -> bool {
    a.1 < b.1 || (a.1 == b.1 && a.0.rank() < b.0.rank())
}

pub open spec fn in_order(s: Seq<SizedColumn>) -> bool {
    forall|i: int, j: int| 0 <= i < j < s.len() ==> before(#[trigger] s[i], #[trigger] s[j])
}

/// Inserts a column that is listed after all columns in `cols`: behind those
/// that are not larger.
fn insert_column(cols: &mut Vec<SizedColumn>, c: SizedColumn)
    requires
        in_order(old(cols)@),
        forall|i: int| 0 <= i < old(cols)@.len() ==> (#[trigger] old(cols)@[i]).0.rank() < c.0.rank(),
        old(cols)@.len() < 100,
    ensures
        in_order(final(cols)@),
        final(cols)@.to_multiset() == old(cols)@.to_multiset().insert(c),
        final(cols)@.len() == old(cols)@.len() + 1,
        forall|i: int|
            0 <= i < final(cols)@.len() ==> (#[trigger] final(cols)@[i]).0.rank() <= c.0.rank(),
{
    let mut i: usize = cols.len();
    while i > 0 && c.1 < cols[i - 1].1
        invariant
            i <= cols@.len(),
            cols@ == old(cols)@,
            forall|j: int| i <= j < cols@.len() ==> c.1 < (#[trigger] cols@[j]).1,
        decreases i,
    {
        i -= 1;
    }
    let ghost old_cols = cols@;
    cols.insert(i, c);
    proof {
        vstd::seq_lib::to_multiset_insert(old_cols, i as int, c);
        let s = cols@;
        assert forall|a: int, b: int| 0 <= a < b < s.len() implies before(
            #[trigger] s[a],
            #[trigger] s[b],
        ) by {
            let oa = if a < i { a } else { a - 1 };
            let ob = if b < i { b } else { b - 1 };
            if a != i && b != i {
                assert(before(old_cols[oa], old_cols[ob]));
            } else if b == i {
                // Everything before the new column is not larger.
                if i > 0 {
                    assert(old_cols[i - 1].1 <= c.1);
                    if a < i - 1 {
                        assert(before(old_cols[a], old_cols[i - 1]));
                    }
                }
            }
        }
    }
}

/// The public columns, smaller ones first, columns of one size in listing order.
pub fn preprocessed_columns_sorted(
    main_log_size: u32,
    program_log_size: u32,
    qubitmem_log_size: u32,
    rc_log: u32,
) -> (r: Vec<SizedColumn>)
    ensures
        r@.len() == N_PREPROCESSED_COLS,
        in_order(r@),
        r@.to_multiset() == column_listing(
            main_log_size,
            program_log_size,
            qubitmem_log_size,
            rc_log,
        ).to_multiset(),
{
    let listing: [SizedColumn; 9] = [
        (ColumnId::ProgSlot, program_log_size),
        (ColumnId::Enabler, main_log_size),
        (ColumnId::ShotId, main_log_size),
        (ColumnId::Pc, main_log_size),
        (ColumnId::PcInProg, main_log_size),
        (ColumnId::BndShot, qubitmem_log_size),
        (ColumnId::BndAddr, qubitmem_log_size),
        (ColumnId::BndEnabler, qubitmem_log_size),
        (ColumnId::RcVal, rc_log),
    ];
    let ghost l = column_listing(main_log_size, program_log_size, qubitmem_log_size, rc_log);
    assert(listing@ =~= l);
    let mut cols: Vec<SizedColumn> = Vec::new();
    assert(cols@ =~= l.take(0));
    let mut i: usize = 0;
    while i < 9
        invariant
            i <= 9,
            listing@ == l,
            l == column_listing(main_log_size, program_log_size, qubitmem_log_size, rc_log),
            cols@.len() == i,
            in_order(cols@),
            forall|j: int| 0 <= j < i ==> (#[trigger] cols@[j]).0.rank() < i,
            cols@.to_multiset() == l.take(i as int).to_multiset(),
        decreases 9 - i,
    {
        insert_column(&mut cols, listing[i]);
        proof {
            assert(l.take(i + 1) =~= l.take(i as int).push(l[i as int]));
            l.take(i as int).to_multiset_ensures();
        }
        i += 1;
    }
    assert(l.take(9) =~= l);
    cols
}

/// The names of the public columns in the order in which they are committed.
pub fn preprocessed_column_ids(
    main_log_size: u32,
    program_log_size: u32,
    qubitmem_log_size: u32,
    rc_log: u32,
) -> (r: Vec<ColumnId>)
    ensures
        exists|s: Seq<SizedColumn>|
            #![trigger in_order(s)]
            in_order(s) && s.to_multiset() == column_listing(
                main_log_size,
                program_log_size,
                qubitmem_log_size,
                rc_log,
            ).to_multiset() && r@ == Seq::new(s.len(), |i: int| s[i].0),
{
    let sorted: Vec<SizedColumn> = preprocessed_columns_sorted(
        main_log_size,
        program_log_size,
        qubitmem_log_size,
        rc_log,
    );
    let mut r: Vec<ColumnId> = Vec::new();
    let mut i: usize = 0;
    while i < sorted.len()
        invariant
            i <= sorted@.len(),
            r@.len() == i,
            forall|j: int| 0 <= j < i ==> #[trigger] r@[j] == sorted@[j].0,
        decreases sorted.len() - i,
    {
        r.push(sorted[i].0);
        i += 1;
    }
    assert(r@ =~= Seq::new(sorted@.len(), |i: int| sorted@[i].0));
    assert(in_order(sorted@));
    r
}

/// There is only one such order: two orderings of the same columns are equal.
pub proof fn lemma_order_unique(a: Seq<SizedColumn>, b: Seq<SizedColumn>)
    requires
        in_order(a),
        in_order(b),
        a.to_multiset() == b.to_multiset(),
    ensures
        a == b,
    decreases a.len(),
{
    a.to_multiset_ensures();
    b.to_multiset_ensures();
    assert(a.len() == b.len());
    if a.len() > 0 {
        let (x, y) = (a.last(), b.last());
        // The last column of each is the greatest, so both are the same column.
        assert(a.contains(x) && b.contains(y));
        assert(a.to_multiset().count(x) > 0);
        assert(b.to_multiset().count(y) > 0);
        assert(b.contains(x));
        assert(a.contains(y));
        let i = choose|i: int| 0 <= i < b.len() && b[i] == x;
        let j = choose|j: int| 0 <= j < a.len() && a[j] == y;
        if i < b.len() - 1 {
            assert(before(b[i], b[b.len() - 1]));
            if j < a.len() - 1 {
                assert(before(a[j], a[a.len() - 1]));
            }
        }
        assert(x == y);
        let (a1, b1) = (a.drop_last(), b.drop_last());
        assert(a =~= a1.push(x));
        assert(b =~= b1.push(x));
        a1.to_multiset_ensures();
        b1.to_multiset_ensures();
        assert(a1.to_multiset() =~= b1.to_multiset()) by {
            assert(a1.to_multiset().insert(x).remove(x) =~= a1.to_multiset());
            assert(b1.to_multiset().insert(x).remove(x) =~= b1.to_multiset());
        }
        assert(in_order(a1)) by {
            assert forall|p: int, q: int| 0 <= p < q < a1.len() implies before(
                #[trigger] a1[p],
                #[trigger] a1[q],
            ) by {
                assert(before(a[p], a[q]));
            }
        }
        assert(in_order(b1)) by {
            assert forall|p: int, q: int| 0 <= p < q < b1.len() implies before(
                #[trigger] b1[p],
                #[trigger] b1[q],
            ) by {
                assert(before(b[p], b[q]));
            }
        }
        lemma_order_unique(a1, b1);
    } else {
        assert(a =~= b);
    }
}

/// The numbers `0, 1, 2, ...` below `2^log`.
fn counting_column(log: u32) -> (vals: Vec<u32>)
    requires
        log <= 30,
    ensures
        vals@.len() == pow2(log as nat),
        forall|i: int| 0 <= i < vals@.len() ==> #[trigger] vals@[i] == i,
{
    let size: usize = power_of_two(log);
    proof {
        lemma2_to64();
        if log < 30 {
            lemma_pow2_strictly_increases(log as nat, 30);
        }
    }
    let mut vals: Vec<u32> = Vec::new();
    let mut i: usize = 0;
    while i < size
        invariant
            i <= size <= 0x4000_0000,
            vals@.len() == i,
            forall|j: int| 0 <= j < i ==> #[trigger] vals@[j] == j,
        decreases size - i,
    {
        vals.push(i as u32);
        i += 1;
    }
    vals
}

/// The slot of each row of the program table.
pub fn generate_prog_slot_preprocessed(program_log_size: u32) -> (vals: Vec<u32>)
    requires
        program_log_size <= 30,
    ensures
        vals@.len() == pow2(program_log_size as nat),
        forall|i: int| 0 <= i < vals@.len() ==> #[trigger] vals@[i] == i,
{
    counting_column(program_log_size)
}

/// The values of the range table.
pub fn generate_rc_preprocessed(rc_log: u32) -> (vals: Vec<u32>)
    requires
        rc_log <= 30,
    ensures
        vals@.len() == pow2(rc_log as nat),
        forall|i: int| 0 <= i < vals@.len() ==> #[trigger] vals@[i] == i,
{
    counting_column(rc_log)
}

/// One on the rows of gates, zero on padding.
pub fn generate_enabler_preprocessed(n_rows: usize, padded_rows: usize) -> (vals: Vec<u32>)
    ensures
        vals@.len() == padded_rows,
        forall|i: int|
            0 <= i < padded_rows ==> #[trigger] vals@[i] == (if i < n_rows { 1int } else { 0 }),
{
    let mut vals: Vec<u32> = Vec::new();
    let mut i: usize = 0;
    while i < padded_rows
        invariant
            i <= padded_rows,
            vals@.len() == i,
            forall|j: int| 0 <= j < i ==> #[trigger] vals@[j] == (if j < n_rows { 1int } else { 0 }),
        decreases padded_rows - i,
    {
        vals.push(if i < n_rows { 1 } else { 0 });
        i += 1;
    }
    vals
}

/// The shape that the positional columns depend on: `k` runs of `n_gates` gates
/// per shot.
pub open spec fn shape_ok(n_rows: usize, k: usize, n_gates: usize) -> bool {
    &&& 0 < k * n_gates <= u32::MAX
    &&& n_rows <= u32::MAX
    &&& n_gates <= u32::MAX
}

/// The shot of each row, zero on padding.
pub fn generate_shot_id_preprocessed(n_rows: usize, padded_rows: usize, k: usize, n_gates: usize) -> (vals:
    Vec<u32>)
    requires
        shape_ok(n_rows, k, n_gates),
    ensures
        vals@.len() == padded_rows,
        forall|i: int|
            0 <= i < padded_rows ==> #[trigger] vals@[i] == (if i < n_rows {
                i / (k * n_gates)
            } else {
                0
            }),
{
    let shot_rows: u32 = (k * n_gates) as u32;
    let mut vals: Vec<u32> = Vec::new();
    let mut i: usize = 0;
    while i < padded_rows
        invariant
            i <= padded_rows,
            n_rows <= u32::MAX,
            0 < shot_rows == k * n_gates,
            vals@.len() == i,
            forall|j: int|
                0 <= j < i ==> #[trigger] vals@[j] == (if j < n_rows {
                    j / (k * n_gates)
                } else {
                    0
                }),
        decreases padded_rows - i,
    {
        vals.push(if i < n_rows { i as u32 / shot_rows } else { 0 });
        i += 1;
    }
    vals
}

/// The step of each row within its shot, zero on padding.
pub fn generate_pc_preprocessed(n_rows: usize, padded_rows: usize, k: usize, n_gates: usize) -> (vals: Vec<
    u32,
>)
    requires
        shape_ok(n_rows, k, n_gates),
    ensures
        vals@.len() == padded_rows,
        forall|i: int|
            0 <= i < padded_rows ==> #[trigger] vals@[i] == (if i < n_rows {
                i % (k * n_gates)
            } else {
                0
            }),
{
    let shot_rows: u32 = (k * n_gates) as u32;
    let mut vals: Vec<u32> = Vec::new();
    let mut i: usize = 0;
    while i < padded_rows
        invariant
            i <= padded_rows,
            n_rows <= u32::MAX,
            0 < shot_rows == k * n_gates,
            vals@.len() == i,
            forall|j: int|
                0 <= j < i ==> #[trigger] vals@[j] == (if j < n_rows {
                    j % (k * n_gates)
                } else {
                    0
                }),
        decreases padded_rows - i,
    {
        vals.push(if i < n_rows { i as u32 % shot_rows } else { 0 });
        i += 1;
    }
    vals
}

/// The program slot of each row, zero on padding.
pub fn generate_pc_in_prog_preprocessed(
    n_rows: usize,
    padded_rows: usize,
    k: usize,
    n_gates: usize,
) -> (vals: Vec<u32>)
    requires
        shape_ok(n_rows, k, n_gates),
    ensures
        vals@.len() == padded_rows,
        forall|i: int|
            0 <= i < padded_rows ==> #[trigger] vals@[i] == (if i < n_rows {
                i % (k * n_gates) % n_gates as int
            } else {
                0
            }),
{
    let shot_rows: u32 = (k * n_gates) as u32;
    let ng: u32 = n_gates as u32;
    assert(n_gates > 0) by (nonlinear_arith)
        requires
            k * n_gates > 0,
            0 <= n_gates,
    ;
    let mut vals: Vec<u32> = Vec::new();
    let mut i: usize = 0;
    while i < padded_rows
        invariant
            i <= padded_rows,
            n_rows <= u32::MAX,
            0 < shot_rows == k * n_gates,
            0 < ng == n_gates,
            vals@.len() == i,
            forall|j: int|
                0 <= j < i ==> #[trigger] vals@[j] == (if j < n_rows {
                    j % (k * n_gates) % n_gates as int
                } else {
                    0
                }),
        decreases padded_rows - i,
    {
        vals.push(if i < n_rows { i as u32 % shot_rows % ng } else { 0 });
        i += 1;
    }
    vals
}

/// The shot, the qubit and the enabler of each boundary row.
pub fn generate_qubitmem_preprocessed(n_shots: usize, qubitmem_log_size: u32) -> (cols: Vec<Vec<u32>>)
    requires
        qubitmem_log_size <= 30,
        n_shots * N_QUBITS <= pow2(qubitmem_log_size as nat),
    ensures
        cols@.len() == 3,
        forall|c: int|
            0 <= c < 3 ==> (#[trigger] cols@[c])@.len() == pow2(qubitmem_log_size as nat),
        forall|i: int|
            0 <= i < cols@[0]@.len() ==> #[trigger] cols@[0]@[i] == (if i < n_shots * N_QUBITS {
                i / 512
            } else {
                0
            }),
        forall|i: int|
            0 <= i < cols@[1]@.len() ==> #[trigger] cols@[1]@[i] == (if i < n_shots * N_QUBITS {
                i % 512
            } else {
                0
            }),
        forall|i: int|
            0 <= i < cols@[2]@.len() ==> #[trigger] cols@[2]@[i] == (if i < n_shots * N_QUBITS {
                1int
            } else {
                0
            }),
{
    let padded: usize = power_of_two(qubitmem_log_size);
    proof {
        lemma2_to64();
        if qubitmem_log_size < 30 {
            lemma_pow2_strictly_increases(qubitmem_log_size as nat, 30);
        }
    }
    let n_rows: usize = n_shots * N_QUBITS;
    let nq: u32 = N_QUBITS as u32;
    let mut shot: Vec<u32> = Vec::new();
    let mut addr: Vec<u32> = Vec::new();
    let mut i: usize = 0;
    while i < padded
        invariant
            i <= padded <= 0x4000_0000,
            nq == 512,
            n_rows == n_shots * N_QUBITS,
            shot@.len() == i,
            addr@.len() == i,
            forall|j: int| 0 <= j < i ==> #[trigger] shot@[j] == (if j < n_rows { j / 512 } else { 0 }),
            forall|j: int| 0 <= j < i ==> #[trigger] addr@[j] == (if j < n_rows { j % 512 } else { 0 }),
        decreases padded - i,
    {
        shot.push(if i < n_rows { i as u32 / nq } else { 0 });
        addr.push(if i < n_rows { i as u32 % nq } else { 0 });
        i += 1;
    }
    let enabler: Vec<u32> = generate_enabler_preprocessed(n_rows, padded);
    vec![shot, addr, enabler]
}

/// The exponent of the largest public column.
pub fn tree0_max_log_size(log_n_rows: u32, rc_log: u32, program_log_size: u32, qubitmem_log_size: u32) -> (r:
    u32)
    ensures
        r >= log_n_rows,
        r >= rc_log,
        r >= program_log_size,
        r >= qubitmem_log_size,
        r == log_n_rows || r == rc_log || r == program_log_size || r == qubitmem_log_size,
{
    let mut r: u32 = log_n_rows;
    if rc_log > r {
        r = rc_log;
    }
    if program_log_size > r {
        r = program_log_size;
    }
    if qubitmem_log_size > r {
        r = qubitmem_log_size;
    }
    r
}

} // verus!
