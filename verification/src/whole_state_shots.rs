//! A run of many shots in the whole-state encoding is its shots, one after the
//! other: no shot reaches into another one's rows or counts.
use vstd::prelude::*;

use crate::circuit::{lemma_limb_state_injective, run, Gate, TestCase};
use crate::whole_state::{
    all_rows_step, counts_hits, end_text, error_of, is_first_refused, lemma_flat_index, lemma_hits_append, lemma_hits_prefix, rows_result,
    shot_outcome, shot_result, text_state, LookupCounts, RcIndex, ReadCols, Row, SimError, Table,
};

verus! {

/// Two errors that say the same.
pub open spec fn same_error(a: SimError, b: SimError) -> bool {
    match (a, b) {
        (SimError::XHex, SimError::XHex) => true,
        (SimError::YHex, SimError::YHex) => true,
        (SimError::StateLength, SimError::StateLength) => true,
        (SimError::UnknownOpcode(p), SimError::UnknownOpcode(q)) => p == q,
        (
            SimError::FinalState { shot_id: i, got: g },
            SimError::FinalState { shot_id: j, got: h },
        ) => i == j && g@ == h@,
        _ => false,
    }
}

/// What `simulate_shot` gave for one shot run alone: its block before and after,
/// and its result.
pub ghost struct ShotRun {
    pub before: Seq<Row>,
    pub after: Seq<Row>,
    pub result: Result<LookupCounts, SimError>,
}

/// The first shot that fails when it is run alone.
pub open spec fn is_first_failure(shots: Seq<ShotRun>, s: int) -> bool {
    &&& 0 <= s < shots.len()
    &&& shots[s].result is Err
    &&& forall|j: int| 0 <= j < s ==> (#[trigger] shots[j]).result is Ok
}

/// All shots of a run, each of them run alone, in a block that holds its rows.
pub open spec fn each_alone(
    gates: Seq<Gate>,
    k: nat,
    cases: Seq<TestCase>,
    shots: Seq<ShotRun>,
    lo: &RcIndex,
    hi: &RcIndex,
) -> bool {
    &&& shots.len() == cases.len()
    &&& forall|s: int|
        0 <= s < shots.len() ==> (#[trigger] shots[s]).after.len() >= k * gates.len() && shot_result(
            gates,
            k,
            s,
            cases[s].x_hex@,
            cases[s].y_hex@,
            shots[s].before,
            shots[s].after,
            shots[s].result,
            lo,
            hi,
        )
}

/// What the first `m` shots count in row `i` of a table, added up.
pub open spec fn counted(shots: Seq<ShotRun>, t: Table, i: int, m: nat) -> nat
    decreases m,
{
    if m == 0 {
        0
    } else {
        counted(shots, t, i, (m - 1) as nat) + column(shots[m - 1].result->Ok_0, t)[i] as nat
    }
}

/// The column of counts that belongs to a table.
pub open spec fn column(c: LookupCounts, t: Table) -> Seq<u32> {
    match t {
        Table::QDecode => c.qdecode@,
        Table::Lo(_) => c.rc_lo@,
        Table::Hi(_) => c.rc_hi@,
    }
}

proof fn lemma_read_determined(a: ReadCols, b: ReadCols, limbs: Seq<u32>, q: int)
    requires
        (a.is_inactive() && b.is_inactive()) || (a.reads(limbs, q) && b.reads(limbs, q)),
    ensures
        a == b,
{
    assert(a.lsel@ =~= b.lsel@);
    assert(a.lsel == b.lsel);
}

/// A gate, the state before it, the shot and the position determine the row.
pub proof fn lemma_row_determined(a: Row, b: Row, g: Gate, s: Seq<bool>, shot: int, pc: int)
    requires
        a.steps(g, s, shot, pc),
        b.steps(g, s, shot, pc),
    ensures
        a == b,
{
    lemma_limb_state_injective(a.in_limb@, b.in_limb@);
    assert(a.in_limb == b.in_limb);
    lemma_read_determined(a.target, b.target, a.in_limb@, g.target as int);
    lemma_read_determined(a.ctrl_a, b.ctrl_a, a.in_limb@, g.ctrl_a as int);
    lemma_read_determined(a.ctrl_b, b.ctrl_b, a.in_limb@, g.ctrl_b as int);
    lemma_limb_state_injective(a.out_limb@, b.out_limb@);
    assert(a.out_limb == b.out_limb);
}

/// The rows of shot `s` among those of all shots.
pub open spec fn rows_of_shot(rows: Seq<Row>, s: int, m: int) -> Seq<Row> {
    rows.subrange(s * m, (s + 1) * m)
}

proof fn lemma_shot_rows(
    gates: Seq<Gate>,
    k: nat,
    cases: Seq<TestCase>,
    rows: Seq<Row>,
    shots: Seq<ShotRun>,
    s: int,
    lo: &RcIndex,
    hi: &RcIndex,
)
    requires
        k * gates.len() > 0,
        rows.len() == cases.len() * (k * gates.len()),
        all_rows_step(
            rows,
            gates,
            cases,
            (k * gates.len()) as int,
            rows.len() as int,
        ),
        each_alone(gates, k, cases, shots, lo, hi),
        0 <= s < cases.len(),
        shot_outcome(gates, k, cases[s].x_hex@, cases[s].y_hex@) is Accepted,
    ensures
        rows_of_shot(rows, s, (k * gates.len()) as int) == shots[s].after.take(
            (k * gates.len()) as int,
        ),
        (s + 1) * (k * gates.len()) <= rows.len(),
        0 <= s * (k * gates.len()),
{
    let m = (k * gates.len()) as int;
    assert((s + 1) * m <= cases.len() * m && 0 <= s * m && (s + 1) * m == s * m + m) by (nonlinear_arith)
        requires
            0 <= s < cases.len(),
            m > 0,
    ;
    let shot = shots[s];
    assert forall|j: int| 0 <= j < m implies rows[s * m + j] == shot.after[j] by {
        lemma_flat_index(s, s + 1, m, j);
        assert(rows[s * m + j].steps(
            gates[j % gates.len() as int],
            run(gates, text_state(cases[s].x_hex@), j as nat),
            s,
            j,
        ));
        lemma_row_determined(
            rows[s * m + j],
            shot.after[j],
            gates[j % gates.len() as int],
            run(gates, text_state(cases[s].x_hex@), j as nat),
            s,
            j,
        );
    }
    assert(rows_of_shot(rows, s, m) =~= shot.after.take(m));
}

/// The hits in the first `n` shots' rows are the sums of the shots' counts.
proof fn lemma_shot_counts(
    gates: Seq<Gate>,
    k: nat,
    cases: Seq<TestCase>,
    rows: Seq<Row>,
    shots: Seq<ShotRun>,
    n: nat,
    t: Table,
    i: int,
    lo: &RcIndex,
    hi: &RcIndex,
)
    requires
        k * gates.len() > 0,
        each_alone(gates, k, cases, shots, lo, hi),
        n <= cases.len(),
        rows.len() == cases.len() * (k * gates.len()),
        forall|s: int|
            0 <= s < cases.len() ==> shot_outcome(
                gates,
                k,
                (#[trigger] cases[s]).x_hex@,
                cases[s].y_hex@,
            ) is Accepted,
        forall|s: int|
            0 <= s < cases.len() ==> #[trigger] rows_of_shot(rows, s, (k * gates.len()) as int)
                == shots[s].after.take((k * gates.len()) as int),
        t == Table::QDecode || t == Table::Lo(lo.offset@) || t == Table::Hi(hi.offset@),
        0 <= i,
        n > 0 ==> i < column(shots[0].result->Ok_0, t).len(),
    ensures
        t.hits(rows, n * (k * gates.len()), i) == counted(shots, t, i, n),
    decreases n,
{
    let m = k * gates.len();
    if n == 0 {
        assert(0 * m == 0);
    } else {
        let s = n - 1;
        assert(n * m == s * m + m && 0 <= s * m && n * m <= rows.len()) by (nonlinear_arith)
            requires
                s == n - 1,
                0 < n <= cases.len(),
                rows.len() == cases.len() * m,
        ;
        lemma_shot_counts(gates, k, cases, rows, shots, s as nat, t, i, lo, hi);
        let (a, b) = (rows.take(s * m as int), rows_of_shot(rows, s, m as int));
        assert(b.len() == m) by {
            assert((s + 1) * m == n * m);
        }
        lemma_hits_append(t, a, b, m, i);
        lemma_hits_prefix(t, rows, a, (s * m) as nat, i);
        assert((a + b) =~= rows.take((n * m) as int));
        lemma_hits_prefix(t, a + b, rows, n * m, i);
        lemma_hits_prefix(t, b, shots[s].after, m, i);
        assert(shot_outcome(gates, k, cases[s].x_hex@, cases[s].y_hex@) is Accepted);
        assert(shot_outcome(gates, k, cases[0].x_hex@, cases[0].y_hex@) is Accepted);
        assert(shots[0].result is Ok && shots[s].result is Ok);
        assert(column(shots[s].result->Ok_0, t)[i] == t.hits(shots[s].after, m, i));
    }
}

proof fn lemma_first_refused(gates: Seq<Gate>, k: nat, cases: Seq<TestCase>, n: nat) -> (s: int)
    requires
        n <= cases.len(),
        exists|j: int|
            0 <= j < n && !(shot_outcome(gates, k, (#[trigger] cases[j]).x_hex@, cases[j].y_hex@) is Accepted),
    ensures
        is_first_refused(gates, k, cases, s),
    decreases n,
{
    let m = (n - 1) as nat;
    if exists|j: int|
        0 <= j < m && !(shot_outcome(gates, k, (#[trigger] cases[j]).x_hex@, cases[j].y_hex@) is Accepted) {
        lemma_first_refused(gates, k, cases, m)
    } else {
        m as int
    }
}

/// A run of all shots succeeds where each shot run alone does, and then its rows
/// are the shots' rows one after the other and its counts are the shots' counts
/// added up. Where a shot run alone fails, the whole run fails with the error of
/// the first one.
pub proof fn lemma_run_is_its_shots(
    gates: Seq<Gate>,
    k: nat,
    cases: Seq<TestCase>,
    whole: Result<(Vec<Row>, LookupCounts), SimError>,
    shots: Seq<ShotRun>,
    lo: &RcIndex,
    hi: &RcIndex,
)
    requires
        k > 0,
        gates.len() > 0,
        rows_result(gates, k, cases, whole, lo, hi),
        each_alone(gates, k, cases, shots, lo, hi),
    ensures
        whole is Err <==> exists|s: int| 0 <= s < shots.len() && (#[trigger] shots[s]).result is Err,
        whole matches Err(e) ==> exists|s: int| #[trigger]
            is_first_failure(shots, s) && same_error(e, shots[s].result->Err_0),
        whole matches Ok((rows, counts)) ==> {
            let m = (k * gates.len()) as int;
            &&& rows@.len() == cases.len() * m
            &&& forall|s: int|
                0 <= s < shots.len() ==> #[trigger] rows_of_shot(rows@, s, m) == shots[s].after.take(m)
            &&& forall|i: int|
                0 <= i < counts.qdecode@.len() ==> #[trigger] counts.qdecode@[i] == counted(
                    shots,
                    Table::QDecode,
                    i,
                    shots.len(),
                )
            &&& forall|i: int|
                0 <= i < counts.rc_lo@.len() ==> #[trigger] counts.rc_lo@[i] == counted(
                    shots,
                    Table::Lo(lo.offset@),
                    i,
                    shots.len(),
                )
            &&& forall|i: int|
                0 <= i < counts.rc_hi@.len() ==> #[trigger] counts.rc_hi@[i] == counted(
                    shots,
                    Table::Hi(hi.offset@),
                    i,
                    shots.len(),
                )
        },
{
    let m = k * gates.len();
    assert(m > 0) by (nonlinear_arith)
        requires
            k > 0,
            gates.len() > 0,
            m == k * gates.len(),
    ;
    assert forall|s: int| 0 <= s < shots.len() implies ((#[trigger] shots[s]).result is Ok <==> shot_outcome(
        gates,
        k,
        cases[s].x_hex@,
        cases[s].y_hex@,
    ) is Accepted) by {}
    match whole {
        Err(e) => {
            let s = choose|s: int| #[trigger]
                is_first_refused(gates, k, cases, s) && error_of(
                    shot_outcome(gates, k, cases[s].x_hex@, cases[s].y_hex@),
                    e,
                    s,
                    end_text(gates, k, cases[s].x_hex@),
                );
            assert(shots[s].result is Err);
            assert(same_error(e, shots[s].result->Err_0));
            assert forall|j: int| 0 <= j < s implies (#[trigger] shots[j]).result is Ok by {
                assert(shot_outcome(gates, k, cases[j].x_hex@, cases[j].y_hex@) is Accepted);
            }
            assert(is_first_failure(shots, s));
        },
        Ok((rows, counts)) => {
            assert forall|s: int| 0 <= s < cases.len() implies shot_outcome(
                gates,
                k,
                (#[trigger] cases[s]).x_hex@,
                cases[s].y_hex@,
            ) is Accepted by {
                if !(shot_outcome(gates, k, cases[s].x_hex@, cases[s].y_hex@) is Accepted) {
                    let f = lemma_first_refused(gates, k, cases, cases.len());
                    assert(is_first_refused(gates, k, cases, f));
                }
            }
            assert forall|s: int| 0 <= s < shots.len() implies (#[trigger] shots[s]).result is Ok by {
                assert(shot_outcome(gates, k, cases[s].x_hex@, cases[s].y_hex@) is Accepted);
            }
            assert forall|s: int| 0 <= s < shots.len() implies #[trigger] rows_of_shot(rows@, s, m as int)
                == shots[s].after.take(m as int) by {
                lemma_shot_rows(gates, k, cases, rows@, shots, s, lo, hi);
            }
            if cases.len() > 0 {
                assert(shots[0].result->Ok_0.sized());
            }
            lemma_table_counts(gates, k, cases, rows@, shots, counts.qdecode@, Table::QDecode, lo, hi);
            lemma_table_counts(gates, k, cases, rows@, shots, counts.rc_lo@, Table::Lo(lo.offset@), lo, hi);
            lemma_table_counts(gates, k, cases, rows@, shots, counts.rc_hi@, Table::Hi(hi.offset@), lo, hi);
        },
    }
}

proof fn lemma_table_counts(
    gates: Seq<Gate>,
    k: nat,
    cases: Seq<TestCase>,
    rows: Seq<Row>,
    shots: Seq<ShotRun>,
    counts: Seq<u32>,
    t: Table,
    lo: &RcIndex,
    hi: &RcIndex,
)
    requires
        k * gates.len() > 0,
        each_alone(gates, k, cases, shots, lo, hi),
        rows.len() == cases.len() * (k * gates.len()),
        forall|s: int|
            0 <= s < cases.len() ==> shot_outcome(
                gates,
                k,
                (#[trigger] cases[s]).x_hex@,
                cases[s].y_hex@,
            ) is Accepted,
        forall|s: int|
            0 <= s < cases.len() ==> #[trigger] rows_of_shot(rows, s, (k * gates.len()) as int)
                == shots[s].after.take((k * gates.len()) as int),
        t == Table::QDecode || t == Table::Lo(lo.offset@) || t == Table::Hi(hi.offset@),
        counts_hits(counts, t, rows, rows.len()),
        cases.len() > 0 ==> counts.len() == column(shots[0].result->Ok_0, t).len(),
    ensures
        forall|i: int|
            0 <= i < counts.len() ==> #[trigger] counts[i] == counted(shots, t, i, shots.len()),
{
    assert forall|i: int| 0 <= i < counts.len() implies #[trigger] counts[i] == counted(
        shots,
        t,
        i,
        shots.len(),
    ) by {
        lemma_shot_counts(gates, k, cases, rows, shots, cases.len(), t, i, lo, hi);
    }
}

} // verus!
