//! The lookups that a component emits on a row are the lookups that its
//! interaction columns hold, in the same order.
use vstd::prelude::*;

use crate::components;
use crate::field::{lemma_base_add, lemma_base_mul, Ext, P};
use crate::iadd::RangeCheckMode;
use crate::iadd_air;
use crate::iadd_lookups;
use crate::iadd_rows;
use crate::logup::embed;
use crate::qubit_memory;
use crate::qubit_memory_lookups;
use crate::whole_state;
use crate::whole_state_air;
use crate::whole_state_lookups;

verus! {

/// `x + y * 2 + z * 3` over the integers.
proof fn lemma_opcode(x: int, y: int, z: int)
    ensures
        (Ext::base(x) + Ext::base(y) * Ext::base(2)) + Ext::base(z) * Ext::base(3) == Ext::base(
            x + 2 * y + 3 * z,
        ),
{
    lemma_base_mul(y, 2);
    lemma_base_mul(z, 3);
    lemma_base_add(x, y * 2);
    lemma_base_add(x + y * 2, z * 3);
}

/// In the qubit-memory encoding the main component emits, on the columns of a
/// row, the ten lookups of the row.
pub proof fn lemma_gate_entries_are_uses(row: qubit_memory::Row, n_gates: int)
    requires
        qubit_memory_lookups::row_small(row),
        n_gates > 0,
    ensures
        ({
            let e = components::gate_entries(
                Ext::base(row.enabler as int),
                Ext::base(row.shot_id as int),
                Ext::base(row.pc as int),
                Ext::base(row.pc as int % n_gates),
                embed(components::row_cells(row)),
            );
            let u = qubit_memory_lookups::row_uses(row, n_gates);
            &&& e.len() == u.len()
            &&& forall|j: int|
                0 <= j < e.len() ==> (#[trigger] e[j]).multiplicity == Ext::base(u[j].mult)
                    && e[j].values == embed(u[j].tuple)
        }),
{
    let c = components::row_cells(row);
    let t = embed(c);
    let e = components::gate_entries(
        Ext::base(row.enabler as int),
        Ext::base(row.shot_id as int),
        Ext::base(row.pc as int),
        Ext::base(row.pc as int % n_gates),
        t,
    );
    let u = qubit_memory_lookups::row_uses(row, n_gates);
    assert(c.len() == 19);
    lemma_base_add(row.enabler as int, 0);
    lemma_base_add(row.is_cnot as int, row.is_toffoli as int);
    lemma_base_add(row.is_cnot + row.is_toffoli, 0);
    lemma_base_add(row.is_toffoli as int, 0);
    lemma_base_add(row.pc as int, 1);
    lemma_base_add(row.target.v as int, row.delta as int);
    lemma_opcode(row.is_not as int, row.is_cnot as int, row.is_toffoli as int);
    let after = qubit_memory_lookups::v_after(row) as int;
    assert(Ext::base(after) == Ext::base(row.target.v + row.delta)) by {
        vstd::arithmetic::div_mod::lemma_mod_bound(row.target.v + row.delta, P as int);
        vstd::arithmetic::div_mod::lemma_mod_twice(row.target.v + row.delta, P as int);
    }
    vstd::arithmetic::div_mod::lemma_mod_bound(row.pc as int, n_gates);
    vstd::arithmetic::div_mod::lemma_mod_decreases(row.pc as nat, n_gates as nat);
    assert(e[0].values =~= embed(u[0].tuple));
    assert(e[1].values =~= embed(u[1].tuple));
    assert(e[2].values =~= embed(u[2].tuple));
    assert(e[3].values =~= embed(u[3].tuple));
    assert(e[4].values =~= embed(u[4].tuple));
    assert(e[5].values =~= embed(u[5].tuple));
    assert(e[6].values =~= embed(u[6].tuple));
    assert(e[7].values =~= embed(u[7].tuple));
    assert(e[8].values =~= embed(u[8].tuple));
    assert(e[9].values =~= embed(u[9].tuple));
}

/// In the whole-state encoding the main component emits, on the columns of a row,
/// the twelve lookups of the row.
pub proof fn lemma_row_entries_are_uses(row: whole_state::Row, n_gates: int)
    requires
        whole_state_lookups::row_small(row),
        n_gates > 0,
    ensures
        ({
            let e = whole_state_air::row_entries(
                Ext::base(row.pc as int % n_gates),
                embed(whole_state_air::row_cells(row)),
            );
            let u = whole_state_lookups::row_uses(row, n_gates);
            &&& e.len() == u.len()
            &&& forall|j: int|
                0 <= j < e.len() ==> (#[trigger] e[j]).id == u[j].id && e[j].multiplicity == Ext::base(
                    u[j].mult,
                ) && e[j].values == embed(u[j].tuple)
        }),
{
    let c = whole_state_air::row_cells(row);
    let t = embed(c);
    let e = whole_state_air::row_entries(Ext::base(row.pc as int % n_gates), t);
    let u = whole_state_lookups::row_uses(row, n_gates);
    assert(c.len() == 191);
    lemma_base_add(row.enabler as int, 0);
    lemma_base_add(row.is_cnot as int, row.is_toffoli as int);
    lemma_base_add(row.pc as int, 1);
    lemma_opcode(row.is_not as int, row.is_cnot as int, row.is_toffoli as int);
    vstd::arithmetic::div_mod::lemma_mod_bound(row.pc as int, n_gates);
    vstd::arithmetic::div_mod::lemma_mod_decreases(row.pc as nat, n_gates as nat);
    assert(e[0].values =~= embed(u[0].tuple));
    assert(e[1].values =~= embed(u[1].tuple));
    assert(e[2].values =~= embed(u[2].tuple));
    assert(e[3].values =~= embed(u[3].tuple));
    assert(e[4].values =~= embed(u[4].tuple));
    assert(e[5].values =~= embed(u[5].tuple));
    assert(e[6].values =~= embed(u[6].tuple));
    assert(e[7].values =~= embed(u[7].tuple));
    assert(e[8].values =~= embed(u[8].tuple));
    assert(e[9].values =~= embed(u[9].tuple));
    assert(e[10].values =~= embed(u[10].tuple));
    assert(e[11].values =~= embed(u[11].tuple));
}

/// Repeated addition: batch `b` of a row's interaction holds the lookups `2 * b`
/// and `2 * b + 1` that the main component emits on the row's columns.
pub proof fn lemma_iadd_entries_are_batches(
    row: iadd_rows::Row,
    el: &iadd_lookups::IaddElements,
    mode: RangeCheckMode,
    b: int,
)
    requires
        iadd_lookups::row_small(row),
        mode is Lookup ==> el.ranges is Some,
        0 <= b < iadd_lookups::batches(mode),
    ensures
        ({
            let e = iadd_air::row_entries(embed(iadd_rows::row_cells(row, mode)), mode);
            let (d0, d1) = iadd_lookups::batch_dens(el, row, b);
            &&& e.len() == 2 * iadd_lookups::batches(mode)
            &&& e[2 * b].multiplicity == Ext::base(row.is_real as int)
            &&& e[2 * b + 1].multiplicity == Ext::base(iadd_lookups::batch_second(row, b))
            &&& d0 == relation_of(el, e[2 * b].id).combined(e[2 * b].values)
            &&& d1 == relation_of(el, e[2 * b + 1].id).combined(e[2 * b + 1].values)
        }),
{
    let c = iadd_rows::row_cells(row, mode);
    let t = embed(c);
    let e = iadd_air::row_entries(t, mode);
    lemma_base_add(row.is_real as int, 0);
    lemma_base_add(row.rep_idx as int, 1);
    assert(c[0] == row.is_real && c[1] == row.sample_id && c[2] == row.rep_idx);
    if b == 0 {
        assert(e[0].values =~= embed(iadd_lookups::state_in(row)));
        assert(e[1].values =~= embed(iadd_lookups::state_out(row)));
    } else {
        let i = b - 1;
        let l = row.next@;
        let (lo, hi) = (iadd_rows::part(l, i, false), iadd_rows::part(l, i, true));
        assert(e[2 * b] == iadd_air::part_entry(t, 2 * i));
        assert(e[2 * b + 1] == iadd_air::part_entry(t, 2 * i + 1));
        assert(c[39 + 2 * i] == iadd_rows::chunk_cells(l)[2 * i]);
        assert(c[39 + 2 * i + 1] == iadd_rows::chunk_cells(l)[2 * i + 1]);
        assert(c[39 + 2 * i] == lo && c[39 + 2 * i + 1] == hi);
        assert(e[2 * b].values =~= embed(seq![lo as u32]));
        assert(e[2 * b + 1].values =~= embed(seq![hi as u32]));
    }
}

/// The relation under an identifier.
pub open spec fn relation_of(el: &iadd_lookups::IaddElements, id: iadd_air::RelationId) -> &crate::logup::Relation {
    match id {
        iadd_air::RelationId::State => &el.state,
        iadd_air::RelationId::Seq18 => &el.ranges->Some_0.seq18,
        iadd_air::RelationId::Seq11 => &el.ranges->Some_0.seq11,
        iadd_air::RelationId::Seq6 => &el.ranges->Some_0.seq6,
    }
}

} // verus!
