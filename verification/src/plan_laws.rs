//! What holds of the list of placements.

use vstd::prelude::*;
use crate::assign::{Cell, Chip};
use crate::cells::CellTable;
use crate::layout::{spec_fixed_lane, FIXED_COLUMNS, RANGE_FIXED_COLUMNS, VAR_COLUMNS};
use crate::ledger::{base_cell, Ledger};
use crate::materialize::{range_cell, spec_marker_lane, Placement};

verus! {

/// Whether `placement` places the value that the ledger holds in a cell
/// below the height of its unit, and asks to keep the handle exactly where
/// the cell is marked.
pub open spec fn places_ledger_value<N>(ledger: Ledger<N>, placement: Placement<N>) -> bool {
    match placement {
        Placement::Advice { cell, value, keep } => {
            &&& ledger.placed(cell)
            &&& ledger.value_at(cell) == Some(value)
            &&& keep == ledger.marked(cell)
        },
        _ => false,
    }
}

/// Every entry of the base unit's witness placements places a value that
/// the ledger holds.
pub proof fn lemma_base_advice_entries<N>(ledger: Ledger<N>, slots: nat, i: int)
    requires
        ledger.wf(),
        slots <= ledger.base_height * VAR_COLUMNS,
        0 <= i < ledger.base_advice_upto(slots).len(),
    ensures
        places_ledger_value(ledger, ledger.base_advice_upto(slots)[i]),
    decreases slots,
{
    if slots > 0 {
        let before = ledger.base_advice_upto((slots - 1) as nat);
        if i < before.len() {
            lemma_base_advice_entries(ledger, (slots - 1) as nat, i);
        } else {
            let slot = slots - 1;
            let step = slot / (VAR_COLUMNS as int);
            let lane = slot % (VAR_COLUMNS as int);
            assert(0 <= step < ledger.base_height);
            assert(ledger.base_advice_upto(slots)[i] == ledger.base_advice_at(slot)[i
                - before.len()]);
        }
    }
}

/// The value of every occupied witness slot of the base unit is among the
/// unit's witness placements.
pub proof fn lemma_base_advice_listed<N>(ledger: Ledger<N>, slots: nat, slot: int)
    requires
        0 <= slot < slots,
        ledger.base_adv[slot / (VAR_COLUMNS as int)][slot % (VAR_COLUMNS as int)].0 is Some,
    ensures
        exists|i: int|
            0 <= i < ledger.base_advice_upto(slots).len() && #[trigger] ledger.base_advice_upto(
                slots,
            )[i] == ledger.base_advice_at(slot)[0],
    decreases slots,
{
    let before = ledger.base_advice_upto((slots - 1) as nat);
    if slot == slots - 1 {
        let i = before.len() as int;
        assert(ledger.base_advice_upto(slots)[i] == ledger.base_advice_at(slot)[0]);
    } else {
        lemma_base_advice_listed(ledger, (slots - 1) as nat, slot);
        let i = choose|i: int|
            0 <= i < before.len() && #[trigger] before[i] == ledger.base_advice_at(slot)[0];
        assert(ledger.base_advice_upto(slots)[i] == before[i]);
    }
}

/// Every entry of the range unit's witness placements places a value that
/// the ledger holds.
pub proof fn lemma_range_advice_entries<N>(ledger: Ledger<N>, steps: nat, i: int)
    requires
        ledger.wf(),
        steps <= ledger.range_height,
        0 <= i < ledger.range_advice_upto(steps).len(),
    ensures
        places_ledger_value(ledger, ledger.range_advice_upto(steps)[i]),
    decreases steps,
{
    if steps > 0 {
        let before = ledger.range_advice_upto((steps - 1) as nat);
        if i < before.len() {
            lemma_range_advice_entries(ledger, (steps - 1) as nat, i);
        } else {
            assert(ledger.range_advice_upto(steps)[i] == ledger.range_advice_at(steps - 1)[i
                - before.len()]);
        }
    }
}

/// The value of every occupied witness slot of the range unit is among the
/// unit's witness placements.
pub proof fn lemma_range_advice_listed<N>(ledger: Ledger<N>, steps: nat, step: int)
    requires
        0 <= step < steps,
        ledger.range_adv[step].0 is Some,
    ensures
        exists|i: int|
            0 <= i < ledger.range_advice_upto(steps).len() && #[trigger] ledger.range_advice_upto(
                steps,
            )[i] == ledger.range_advice_at(step)[0],
    decreases steps,
{
    let before = ledger.range_advice_upto((steps - 1) as nat);
    if step == steps - 1 {
        let i = before.len() as int;
        assert(ledger.range_advice_upto(steps)[i] == ledger.range_advice_at(step)[0]);
    } else {
        lemma_range_advice_listed(ledger, (steps - 1) as nat, step);
        let i = choose|i: int|
            0 <= i < before.len() && #[trigger] before[i] == ledger.range_advice_at(step)[0];
        assert(ledger.range_advice_upto(steps)[i] == before[i]);
    }
}

/// Whether `placement` places a coefficient or a marker that the ledger
/// holds, at a step below the height of its unit.
pub open spec fn places_ledger_constant<N>(ledger: Ledger<N>, placement: Placement<N>) -> bool {
    match placement {
        Placement::Fixed { lane, step, value } => {
            &&& step < ledger.base_height
            &&& exists|c: int|
                0 <= c < FIXED_COLUMNS && spec_fixed_lane(c) == lane
                    && #[trigger] ledger.base_fix[step as int][c] == Some(value)
        },
        Placement::Marker { marker, step, value } => {
            &&& step < ledger.range_height
            &&& exists|c: int|
                0 <= c < RANGE_FIXED_COLUMNS && spec_marker_lane(c) == marker
                    && #[trigger] ledger.range_fix[step as int][c] == Some(value)
        },
        _ => false,
    }
}

/// Every entry of the base unit's coefficient placements places a
/// coefficient that the ledger holds.
pub proof fn lemma_base_fixed_entries<N>(ledger: Ledger<N>, slots: nat, i: int)
    requires
        ledger.wf(),
        slots <= ledger.base_height * FIXED_COLUMNS,
        0 <= i < ledger.base_fixed_upto(slots).len(),
    ensures
        places_ledger_constant(ledger, ledger.base_fixed_upto(slots)[i]),
    decreases slots,
{
    if slots > 0 {
        let before = ledger.base_fixed_upto((slots - 1) as nat);
        if i < before.len() {
            lemma_base_fixed_entries(ledger, (slots - 1) as nat, i);
        } else {
            let slot = slots - 1;
            let step = slot / (FIXED_COLUMNS as int);
            let lane = slot % (FIXED_COLUMNS as int);
            assert(0 <= step < ledger.base_height);
            assert(ledger.base_fixed_upto(slots)[i] == ledger.base_fixed_at(slot)[i
                - before.len()]);
            assert(ledger.base_fix[step][lane] is Some);
        }
    }
}

/// Every entry of the range unit's marker placements places a marker that
/// the ledger holds.
pub proof fn lemma_range_marker_entries<N>(ledger: Ledger<N>, slots: nat, i: int)
    requires
        ledger.wf(),
        slots <= ledger.range_height * RANGE_FIXED_COLUMNS,
        0 <= i < ledger.range_marker_upto(slots).len(),
    ensures
        places_ledger_constant(ledger, ledger.range_marker_upto(slots)[i]),
    decreases slots,
{
    if slots > 0 {
        let before = ledger.range_marker_upto((slots - 1) as nat);
        if i < before.len() {
            lemma_range_marker_entries(ledger, (slots - 1) as nat, i);
        } else {
            let slot = slots - 1;
            let step = slot / (RANGE_FIXED_COLUMNS as int);
            let lane = slot % (RANGE_FIXED_COLUMNS as int);
            assert(0 <= step < ledger.range_height);
            assert(ledger.range_marker_upto(slots)[i] == ledger.range_marker_at(slot)[i
                - before.len()]);
            assert(ledger.range_fix[step][lane] is Some);
        }
    }
}

/// Every coefficient of the base unit is among the unit's coefficient
/// placements.
pub proof fn lemma_base_fixed_listed<N>(ledger: Ledger<N>, slots: nat, slot: int)
    requires
        0 <= slot < slots,
        ledger.base_fix[slot / (FIXED_COLUMNS as int)][slot % (FIXED_COLUMNS as int)] is Some,
    ensures
        exists|i: int|
            0 <= i < ledger.base_fixed_upto(slots).len() && #[trigger] ledger.base_fixed_upto(
                slots,
            )[i] == ledger.base_fixed_at(slot)[0],
    decreases slots,
{
    let before = ledger.base_fixed_upto((slots - 1) as nat);
    if slot == slots - 1 {
        let i = before.len() as int;
        assert(ledger.base_fixed_upto(slots)[i] == ledger.base_fixed_at(slot)[0]);
    } else {
        lemma_base_fixed_listed(ledger, (slots - 1) as nat, slot);
        let i = choose|i: int|
            0 <= i < before.len() && #[trigger] before[i] == ledger.base_fixed_at(slot)[0];
        assert(ledger.base_fixed_upto(slots)[i] == before[i]);
    }
}

/// Every marker of the range unit is among the unit's marker placements.
pub proof fn lemma_range_marker_listed<N>(ledger: Ledger<N>, slots: nat, slot: int)
    requires
        0 <= slot < slots,
        ledger.range_fix[slot / (RANGE_FIXED_COLUMNS as int)][slot % (
        RANGE_FIXED_COLUMNS as int)] is Some,
    ensures
        exists|i: int|
            0 <= i < ledger.range_marker_upto(slots).len() && #[trigger] ledger.range_marker_upto(
                slots,
            )[i] == ledger.range_marker_at(slot)[0],
    decreases slots,
{
    let before = ledger.range_marker_upto((slots - 1) as nat);
    if slot == slots - 1 {
        let i = before.len() as int;
        assert(ledger.range_marker_upto(slots)[i] == ledger.range_marker_at(slot)[0]);
    } else {
        lemma_range_marker_listed(ledger, (slots - 1) as nat, slot);
        let i = choose|i: int|
            0 <= i < before.len() && #[trigger] before[i] == ledger.range_marker_at(slot)[0];
        assert(ledger.range_marker_upto(slots)[i] == before[i]);
    }
}

/// Nothing below the heights is left out: every coefficient of the base
/// unit and every marker of the range unit that the ledger holds below the
/// unit's height is placed, in the lane that its position names.
pub proof fn lemma_constants_are_placed<N>(ledger: Ledger<N>, step: int, lane: int)
    requires
        ledger.wf(),
        0 <= step,
        0 <= lane,
    ensures
        step < ledger.base_height && lane < FIXED_COLUMNS && ledger.base_fix[step][lane] is Some
            ==> exists|i: int|
            0 <= i < ledger.plan().len() && #[trigger] ledger.plan()[i] == (Placement::Fixed {
                lane: spec_fixed_lane(lane),
                step: step as usize,
                value: ledger.base_fix[step][lane]->Some_0,
            }),
        step < ledger.range_height && lane < RANGE_FIXED_COLUMNS
            && ledger.range_fix[step][lane] is Some ==> exists|i: int|
            0 <= i < ledger.plan().len() && #[trigger] ledger.plan()[i] == (Placement::Marker {
                marker: spec_marker_lane(lane),
                step: step as usize,
                value: ledger.range_fix[step][lane]->Some_0,
            }),
{
    let base_advice = ledger.base_advice_upto(ledger.base_height * VAR_COLUMNS as nat);
    let base_fixed = ledger.base_fixed_upto(ledger.base_height * FIXED_COLUMNS as nat);
    let markers = ledger.range_marker_upto(ledger.range_height * RANGE_FIXED_COLUMNS as nat);
    if step < ledger.base_height && lane < FIXED_COLUMNS && ledger.base_fix[step][lane] is Some {
        let slot = step * FIXED_COLUMNS + lane;
        assert(slot / (FIXED_COLUMNS as int) == step);
        assert(slot % (FIXED_COLUMNS as int) == lane);
        lemma_base_fixed_listed(ledger, ledger.base_height * FIXED_COLUMNS as nat, slot);
        let i = choose|i: int|
            0 <= i < base_fixed.len() && #[trigger] base_fixed[i] == ledger.base_fixed_at(slot)[0];
        assert(ledger.plan()[base_advice.len() + i] == base_fixed[i]);
    }
    if step < ledger.range_height && lane < RANGE_FIXED_COLUMNS && ledger.range_fix[step][lane]
        is Some {
        let slot = step * RANGE_FIXED_COLUMNS + lane;
        assert(slot / (RANGE_FIXED_COLUMNS as int) == step);
        assert(slot % (RANGE_FIXED_COLUMNS as int) == lane);
        lemma_range_marker_listed(ledger, ledger.range_height * RANGE_FIXED_COLUMNS as nat, slot);
        let i = choose|i: int|
            0 <= i < markers.len() && #[trigger] markers[i] == ledger.range_marker_at(slot)[0];
        assert(ledger.plan()[base_advice.len() + base_fixed.len() + i] == markers[i]);
    }
}

/// Every witness value that the ledger holds below the height of its unit
/// is placed, whether its handle is kept or not.
pub proof fn lemma_placed_cell_is_placed<N>(ledger: Ledger<N>, cell: Cell)
    requires
        ledger.wf(),
        ledger.placed(cell),
    ensures
        exists|i: int|
            0 <= i < ledger.base_plan().len() + ledger.range_plan().len()
                && #[trigger] ledger.plan()[i] == (Placement::Advice {
                cell,
                value: ledger.value_at(cell)->Some_0,
                keep: ledger.marked(cell),
            }),
{
    let base_advice = ledger.base_advice_upto(ledger.base_height * VAR_COLUMNS as nat);
    let base_fixed = ledger.base_fixed_upto(ledger.base_height * FIXED_COLUMNS as nat);
    let markers = ledger.range_marker_upto(ledger.range_height * RANGE_FIXED_COLUMNS as nat);
    let range_advice = ledger.range_advice_upto(ledger.range_height);
    match cell.region {
        Chip::BaseChip => {
            let slot = cell.row * VAR_COLUMNS + cell.col;
            assert(slot / (VAR_COLUMNS as int) == cell.row);
            assert(slot % (VAR_COLUMNS as int) == cell.col);
            lemma_base_advice_listed(ledger, ledger.base_height * VAR_COLUMNS as nat, slot);
            let i = choose|i: int|
                0 <= i < base_advice.len() && #[trigger] base_advice[i] == ledger.base_advice_at(
                    slot,
                )[0];
            assert(base_cell(cell.col as int, cell.row as int) == cell);
            assert(ledger.plan()[i] == base_advice[i]);
        },
        Chip::RangeChip => {
            lemma_range_advice_listed(ledger, ledger.range_height, cell.row as int);
            let i = choose|i: int|
                0 <= i < range_advice.len() && #[trigger] range_advice[i]
                    == ledger.range_advice_at(cell.row as int)[0];
            assert(range_cell(cell.row as int) == cell);
            let at = base_advice.len() + base_fixed.len() + markers.len() + i;
            assert(ledger.plan()[at] == range_advice[i]);
        },
    }
}

/// The list of placements is in two parts. Until the equalities begin
/// every entry places a witness value, a coefficient or a marker that the
/// ledger holds below the height of its unit: no row above a height is
/// placed. From there on entry `k` is the equality of copy constraint `k`.
pub proof fn lemma_plan_entries<N>(ledger: Ledger<N>, i: int)
    requires
        ledger.wf(),
        0 <= i < ledger.plan().len(),
    ensures
        ledger.plan().len() == ledger.base_plan().len() + ledger.range_plan().len()
            + ledger.permutations.len(),
        i < ledger.base_plan().len() + ledger.range_plan().len() ==> {
            ||| places_ledger_value(ledger, ledger.plan()[i])
            ||| places_ledger_constant(ledger, ledger.plan()[i])
        },
        i >= ledger.base_plan().len() + ledger.range_plan().len() ==> ledger.plan()[i] == ({
            let k = i - ledger.base_plan().len() - ledger.range_plan().len();
            Placement::<N>::Equal { left: ledger.permutations[k].0, right: ledger.permutations[k].1 }
        }),
{
    let base_advice = ledger.base_advice_upto(ledger.base_height * VAR_COLUMNS as nat);
    let base_fixed = ledger.base_fixed_upto(ledger.base_height * FIXED_COLUMNS as nat);
    let markers = ledger.range_marker_upto(ledger.range_height * RANGE_FIXED_COLUMNS as nat);
    let range_advice = ledger.range_advice_upto(ledger.range_height);
    if i < base_advice.len() {
        lemma_base_advice_entries(ledger, ledger.base_height * VAR_COLUMNS as nat, i);
    } else if i < base_advice.len() + base_fixed.len() {
        lemma_base_fixed_entries(
            ledger,
            ledger.base_height * FIXED_COLUMNS as nat,
            i - base_advice.len(),
        );
    } else if i < base_advice.len() + base_fixed.len() + markers.len() {
        lemma_range_marker_entries(
            ledger,
            ledger.range_height * RANGE_FIXED_COLUMNS as nat,
            i - base_advice.len() - base_fixed.len(),
        );
    } else if i < base_advice.len() + base_fixed.len() + markers.len() + range_advice.len() {
        lemma_range_advice_entries(
            ledger,
            ledger.range_height,
            i - base_advice.len() - base_fixed.len() - markers.len(),
        );
    }
}

/// The value of every cell whose handle is kept is placed, with the
/// request to keep the handle, before the equalities begin.
pub proof fn lemma_kept_cell_is_placed<N>(ledger: Ledger<N>, cell: Cell)
    requires
        ledger.wf(),
        ledger.kept(cell),
    ensures
        exists|i: int|
            0 <= i < ledger.base_plan().len() + ledger.range_plan().len()
                && #[trigger] ledger.plan()[i] == (Placement::Advice {
                cell,
                value: ledger.value_at(cell)->Some_0,
                keep: true,
            }),
{
    lemma_placed_cell_is_placed(ledger, cell);
}

/// Copy constraints are sound when they are declared: where every pending
/// copy constraint joins kept cells of equal value, the equality of copy
/// constraint `k` comes after the placements of both its cells, both are
/// placed with the same value, and both handles are asked for. No other
/// witness placement in the list gives either cell another value.
pub proof fn lemma_equalities_join_equal_values<N>(ledger: Ledger<N>, k: int)
    requires
        ledger.wf(),
        ledger.copies_sound(),
        0 <= k < ledger.permutations.len(),
    ensures
        ({
            let left = ledger.permutations[k].0;
            let right = ledger.permutations[k].1;
            let first = ledger.base_plan().len() + ledger.range_plan().len();
            let value = ledger.value_at(left)->Some_0;
            &&& ledger.plan()[first + k] == Placement::<N>::Equal { left, right }
            &&& exists|i: int|
                0 <= i < first && #[trigger] ledger.plan()[i] == (Placement::Advice {
                    cell: left,
                    value,
                    keep: true,
                })
            &&& exists|j: int|
                0 <= j < first && #[trigger] ledger.plan()[j] == (Placement::Advice {
                    cell: right,
                    value,
                    keep: true,
                })
            &&& forall|i: int|
                0 <= i < ledger.plan().len() ==> match #[trigger] ledger.plan()[i] {
                    Placement::Advice { cell, value: other, .. } => (cell == left || cell == right)
                        ==> other == value,
                    _ => true,
                }
        }),
{
    let left = ledger.permutations[k].0;
    let right = ledger.permutations[k].1;
    let first = ledger.base_plan().len() + ledger.range_plan().len();
    assert(ledger.copy_sound(k));
    lemma_kept_cell_is_placed(ledger, left);
    lemma_kept_cell_is_placed(ledger, right);
    lemma_plan_entries(ledger, first + k);
    assert forall|i: int| 0 <= i < ledger.plan().len() implies match #[trigger] ledger.plan()[i] {
        Placement::Advice { cell, value: other, .. } => (cell == left || cell == right) ==> other
            == ledger.value_at(left)->Some_0,
        _ => true,
    } by {
        lemma_plan_entries(ledger, i);
    }
}

/// A table of handles that covers the heights of the ledger has an entry
/// for every cell in which a value was placed, and so for every cell that
/// the list of placements names.
pub proof fn lemma_table_covers_placed<N, H>(ledger: Ledger<N>, table: CellTable<H>, cell: Cell)
    requires
        table.wf(),
        table.base_height() == ledger.base_height,
        table.range_height() == ledger.range_height,
        ledger.placed(cell),
    ensures
        table.covers(cell),
{
}

} // verus!
