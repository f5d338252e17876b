//! Turning a finished ledger into the placements that the proof system has
//! to carry out.

use vstd::prelude::*;
use crate::assign::{Cell, Chip};
use crate::error::LayoutError;
use crate::layout::{
    fixed_lane, spec_fixed_lane, FixedLane, FIXED_COLUMNS, RANGE_FIXED_COLUMNS, VAR_COLUMNS,
};
use crate::ledger::{base_cell, Ledger};
use crate::records::Records;

verus! {

/// A fixed lane of the range unit.
#[derive(Clone, Copy, Debug, PartialEq, Eq, Structural)]
pub enum MarkerLane {
    /// Marks the first step of a block.
    BlockFirst,
    /// Holds the width in bits that the step's value is checked against.
    RangeClass,
}

/// One request to the proof system.
#[derive(Debug, PartialEq, Eq)]
pub enum Placement<N> {
    /// Place `value` in the witness lane and step of `cell`. The handle
    /// that comes back is kept under `cell` where `keep` is set.
    Advice { cell: Cell, value: N, keep: bool },
    /// Place `value` in a fixed lane of the base unit at `step`.
    Fixed { lane: FixedLane, step: usize, value: N },
    /// Place `value` in a fixed lane of the range unit at `step`.
    Marker { marker: MarkerLane, step: usize, value: N },
    /// Constrain the values kept under `left` and `right` to be equal.
    Equal { left: Cell, right: Cell },
}

impl<N: Copy> Clone for Placement<N> {
    fn clone(&self) -> (copy: Self)
        ensures
            copy == *self,
    {
        *self
    }
}

impl<N: Copy> Copy for Placement<N> {

}

/// The cell of the range unit at `step`.
pub open spec fn range_cell(step: int) -> Cell {
    Cell { region: Chip::RangeChip, col: 0, row: step as usize }
}

/// The fixed lane of the range unit with index `lane`.
pub open spec fn spec_marker_lane(lane: int) -> MarkerLane {
    if lane == 0 {
        MarkerLane::BlockFirst
    } else {
        MarkerLane::RangeClass
    }
}

impl<N> Ledger<N> {
    /// What witness slot `slot` of the base unit asks for, the slots
    /// counted row by row: the placement of its value, if it has one.
    pub open spec fn base_advice_at(self, slot: int) -> Seq<Placement<N>> {
        let step = slot / (VAR_COLUMNS as int);
        let lane = slot % (VAR_COLUMNS as int);
        match self.base_adv[step][lane].0 {
            Some(value) => seq![
                Placement::Advice {
                    cell: base_cell(lane, step),
                    value,
                    keep: self.base_adv[step][lane].1,
                },
            ],
            None => Seq::empty(),
        }
    }

    /// What the first `slots` witness slots of the base unit ask for.
    pub open spec fn base_advice_upto(self, slots: nat) -> Seq<Placement<N>>
        decreases slots,
    {
        if slots == 0 {
            Seq::empty()
        } else {
            self.base_advice_upto((slots - 1) as nat) + self.base_advice_at(slots - 1)
        }
    }

    /// What coefficient slot `slot` of the base unit asks for.
    pub open spec fn base_fixed_at(self, slot: int) -> Seq<Placement<N>> {
        let step = slot / (FIXED_COLUMNS as int);
        let lane = slot % (FIXED_COLUMNS as int);
        match self.base_fix[step][lane] {
            Some(value) => seq![
                Placement::Fixed { lane: spec_fixed_lane(lane), step: step as usize, value },
            ],
            None => Seq::empty(),
        }
    }

    /// What the first `slots` coefficient slots of the base unit ask for.
    pub open spec fn base_fixed_upto(self, slots: nat) -> Seq<Placement<N>>
        decreases slots,
    {
        if slots == 0 {
            Seq::empty()
        } else {
            self.base_fixed_upto((slots - 1) as nat) + self.base_fixed_at(slots - 1)
        }
    }

    /// What marker slot `slot` of the range unit asks for.
    pub open spec fn range_marker_at(self, slot: int) -> Seq<Placement<N>> {
        let step = slot / (RANGE_FIXED_COLUMNS as int);
        let lane = slot % (RANGE_FIXED_COLUMNS as int);
        match self.range_fix[step][lane] {
            Some(value) => seq![
                Placement::Marker { marker: spec_marker_lane(lane), step: step as usize, value },
            ],
            None => Seq::empty(),
        }
    }

    /// What the first `slots` marker slots of the range unit ask for.
    pub open spec fn range_marker_upto(self, slots: nat) -> Seq<Placement<N>>
        decreases slots,
    {
        if slots == 0 {
            Seq::empty()
        } else {
            self.range_marker_upto((slots - 1) as nat) + self.range_marker_at(slots - 1)
        }
    }

    /// What the witness slot of the range unit at `step` asks for.
    pub open spec fn range_advice_at(self, step: int) -> Seq<Placement<N>> {
        match self.range_adv[step].0 {
            Some(value) => seq![
                Placement::Advice { cell: range_cell(step), value, keep: self.range_adv[step].1 },
            ],
            None => Seq::empty(),
        }
    }

    /// What the first `steps` witness slots of the range unit ask for.
    pub open spec fn range_advice_upto(self, steps: nat) -> Seq<Placement<N>>
        decreases steps,
    {
        if steps == 0 {
            Seq::empty()
        } else {
            self.range_advice_upto((steps - 1) as nat) + self.range_advice_at(steps - 1)
        }
    }

    /// The placements of the base unit: every witness value below the
    /// unit's height, row by row, then every coefficient below it.
    pub open spec fn base_plan(self) -> Seq<Placement<N>> {
        self.base_advice_upto(self.base_height * VAR_COLUMNS as nat) + self.base_fixed_upto(
            self.base_height * FIXED_COLUMNS as nat,
        )
    }

    /// The placements of the range unit: every marker below the unit's
    /// height, row by row, then every witness value below it.
    pub open spec fn range_plan(self) -> Seq<Placement<N>> {
        self.range_marker_upto(self.range_height * RANGE_FIXED_COLUMNS as nat)
            + self.range_advice_upto(self.range_height)
    }

    /// One equality for every pending copy constraint, in their order.
    pub open spec fn copy_plan(self) -> Seq<Placement<N>> {
        Seq::new(
            self.permutations.len(),
            |k: int|
                Placement::Equal { left: self.permutations[k].0, right: self.permutations[k].1 },
        )
    }

    /// Everything the proof system is asked to do: the base unit, the
    /// range unit, and the equalities last.
    pub open spec fn plan(self) -> Seq<Placement<N>> {
        self.base_plan() + self.range_plan() + self.copy_plan()
    }

    /// Whether the handle of `cell` is kept: the cell lies below the height
    /// of its unit, a value was placed in it and it is marked for copying.
    /// The range unit keeps handles for lane 0 only.
    pub open spec fn kept(self, cell: Cell) -> bool {
        match cell.region {
            Chip::BaseChip => {
                &&& cell.col < VAR_COLUMNS
                &&& cell.row < self.base_height
                &&& self.base_adv[cell.row as int][cell.col as int].0 is Some
                &&& self.base_adv[cell.row as int][cell.col as int].1
            },
            Chip::RangeChip => {
                &&& cell.col == 0
                &&& cell.row < self.range_height
                &&& self.range_adv[cell.row as int].0 is Some
                &&& self.range_adv[cell.row as int].1
            },
        }
    }

    /// Whether copy constraint `k` names two cells whose handles are kept.
    pub open spec fn resolves(self, k: int) -> bool {
        self.kept(self.permutations[k].0) && self.kept(self.permutations[k].1)
    }

    /// Whether every pending copy constraint names two cells whose handles
    /// are kept.
    pub open spec fn resolvable(self) -> bool {
        forall|k: int| 0 <= k < self.permutations.len() ==> #[trigger] self.resolves(k)
    }
}

impl<N: Copy> Records<N> {
    /// Lists the placements of the base unit.
    pub fn _assign_to_base_chip(&self) -> (plan: Vec<Placement<N>>)
        requires
            self@.wf(),
        ensures
            plan@ == self@.base_plan(),
    {
        let mut plan: Vec<Placement<N>> = Vec::new();
        let mut row: usize = 0;
        while row < self.base_height
            invariant
                self@.wf(),
                row <= self.base_height,
                plan@ == self@.base_advice_upto((row * VAR_COLUMNS) as nat),
            decreases self.base_height - row,
        {
            let mut col: usize = 0;
            while col < VAR_COLUMNS
                invariant
                    self@.wf(),
                    row < self.base_height,
                    col <= VAR_COLUMNS,
                    plan@ == self@.base_advice_upto((row * VAR_COLUMNS + col) as nat),
                decreases VAR_COLUMNS - col,
            {
                let adv = self.base_adv_record[row][col];
                match adv.0 {
                    Some(value) => {
                        plan.push(
                            Placement::Advice {
                                cell: Cell::new(Chip::BaseChip, col, row),
                                value,
                                keep: adv.1,
                            },
                        );
                    },
                    None => {},
                }
                proof {
                    let slot = row * VAR_COLUMNS + col;
                    assert(self@.base_adv[row as int][col as int] == adv);
                    assert(plan@ =~= self@.base_advice_upto(slot as nat) + self@.base_advice_at(
                        slot,
                    ));
                }
                col += 1;
            }
            row += 1;
        }
        let ghost advice = plan@;
        let mut row: usize = 0;
        while row < self.base_height
            invariant
                self@.wf(),
                row <= self.base_height,
                plan@ == advice + self@.base_fixed_upto((row * FIXED_COLUMNS) as nat),
            decreases self.base_height - row,
        {
            let mut col: usize = 0;
            while col < FIXED_COLUMNS
                invariant
                    self@.wf(),
                    row < self.base_height,
                    col <= FIXED_COLUMNS,
                    plan@ == advice + self@.base_fixed_upto((row * FIXED_COLUMNS + col) as nat),
                decreases FIXED_COLUMNS - col,
            {
                let fix = self.base_fix_record[row][col];
                match fix {
                    Some(value) => {
                        plan.push(Placement::Fixed { lane: fixed_lane(col), step: row, value });
                    },
                    None => {},
                }
                proof {
                    let slot = row * FIXED_COLUMNS + col;
                    assert(self@.base_fix[row as int][col as int] == fix);
                    assert(plan@ =~= advice + (self@.base_fixed_upto(slot as nat)
                        + self@.base_fixed_at(slot)));
                }
                col += 1;
            }
            row += 1;
        }
        plan
    }

    /// Lists the placements of the range unit.
    pub fn _assign_to_range_chip(&self) -> (plan: Vec<Placement<N>>)
        requires
            self@.wf(),
        ensures
            plan@ == self@.range_plan(),
    {
        let mut plan: Vec<Placement<N>> = Vec::new();
        let mut row: usize = 0;
        while row < self.range_height
            invariant
                self@.wf(),
                row <= self.range_height,
                plan@ == self@.range_marker_upto((row * RANGE_FIXED_COLUMNS) as nat),
            decreases self.range_height - row,
        {
            let fix = self.range_fix_record[row];
            proof {
                assert(self@.range_fix[row as int] == fix@);
            }
            match fix[0] {
                Some(value) => {
                    plan.push(
                        Placement::Marker { marker: MarkerLane::BlockFirst, step: row, value },
                    );
                },
                None => {},
            }
            proof {
                let slot = row * RANGE_FIXED_COLUMNS;
                assert(plan@ =~= self@.range_marker_upto(slot as nat) + self@.range_marker_at(
                    slot as int,
                ));
                assert(plan@ == self@.range_marker_upto((slot + 1) as nat));
            }
            match fix[1] {
                Some(value) => {
                    plan.push(
                        Placement::Marker { marker: MarkerLane::RangeClass, step: row, value },
                    );
                },
                None => {},
            }
            proof {
                let slot = row * RANGE_FIXED_COLUMNS + 1;
                assert(plan@ =~= self@.range_marker_upto(slot as nat) + self@.range_marker_at(
                    slot as int,
                ));
            }
            row += 1;
        }
        let ghost markers = plan@;
        let mut row: usize = 0;
        while row < self.range_height
            invariant
                self@.wf(),
                row <= self.range_height,
                plan@ == markers + self@.range_advice_upto(row as nat),
            decreases self.range_height - row,
        {
            let adv = self.range_adv_record[row];
            match adv.0 {
                Some(value) => {
                    plan.push(
                        Placement::Advice {
                            cell: Cell::new(Chip::RangeChip, 0, row),
                            value,
                            keep: adv.1,
                        },
                    );
                },
                None => {},
            }
            proof {
                assert(plan@ =~= markers + (self@.range_advice_upto(row as nat)
                    + self@.range_advice_at(row as int)));
            }
            row += 1;
        }
        plan
    }

    /// Tells whether the handle of `cell` is kept.
    pub fn keeps(&self, cell: &Cell) -> (kept: bool)
        requires
            self@.wf(),
        ensures
            kept == self@.kept(*cell),
    {
        match cell.region {
            Chip::BaseChip => {
                cell.col < VAR_COLUMNS && cell.row < self.base_height && {
                    let adv = self.base_adv_record[cell.row][cell.col];
                    adv.0.is_some() && adv.1
                }
            },
            Chip::RangeChip => {
                cell.col == 0 && cell.row < self.range_height && {
                    let adv = self.range_adv_record[cell.row];
                    adv.0.is_some() && adv.1
                }
            },
        }
    }

    /// Finds the first pending copy constraint that names a cell whose
    /// handle is not kept.
    pub fn unplaced_reference(&self) -> (found: Option<usize>)
        requires
            self@.wf(),
        ensures
            found is None <==> self@.resolvable(),
            match found {
                Some(k) => k < self@.permutations.len() && !self@.resolves(k as int) && forall|
                    j: int,
                |
                    0 <= j < k ==> #[trigger] self@.resolves(j),
                None => true,
            },
    {
        let mut k: usize = 0;
        while k < self.permutations.len()
            invariant
                self@.wf(),
                k <= self.permutations.len(),
                forall|j: int| 0 <= j < k ==> #[trigger] self@.resolves(j),
            decreases self.permutations.len() - k,
        {
            let (left, right) = self.permutations[k];
            if !(self.keeps(&left) && self.keeps(&right)) {
                assert(!self@.resolves(k as int));
                return Some(k);
            }
            k += 1;
        }
        None
    }

    /// Lists the equalities that the pending copy constraints ask for.
    pub fn _assign_permutation(&self) -> (plan: Vec<Placement<N>>)
        requires
            self@.wf(),
            self@.resolvable(),
        ensures
            plan@ == self@.copy_plan(),
    {
        let mut plan: Vec<Placement<N>> = Vec::new();
        let mut k: usize = 0;
        while k < self.permutations.len()
            invariant
                k <= self.permutations.len(),
                plan@ == self@.copy_plan().take(k as int),
            decreases self.permutations.len() - k,
        {
            let (left, right) = self.permutations[k];
            plan.push(Placement::Equal { left, right });
            assert(plan@ =~= self@.copy_plan().take(k as int + 1));
            k += 1;
        }
        assert(plan@ =~= self@.copy_plan());
        plan
    }

    /// Lists everything the proof system is asked to do, in the order in
    /// which it has to be done.
    pub fn assign_all(&self) -> (plan: Vec<Placement<N>>)
        requires
            self@.wf(),
            self@.resolvable(),
        ensures
            plan@ == self@.plan(),
    {
        let mut plan = self._assign_to_base_chip();
        let mut range = self._assign_to_range_chip();
        let mut copies = self._assign_permutation();
        plan.append(&mut range);
        plan.append(&mut copies);
        plan
    }

    /// Lists the placements as `assign_all` does, or refuses where a
    /// pending copy constraint names a cell in which nothing was placed.
    pub fn try_assign_all(&self) -> (plan: Result<Vec<Placement<N>>, LayoutError>)
        requires
            self@.wf(),
        ensures
            match plan {
                Ok(list) => self@.resolvable() && list@ == self@.plan(),
                Err(fault) => !self@.resolvable() && fault == LayoutError::UnplacedCell,
            },
    {
        match self.unplaced_reference() {
            Some(_) => Err(LayoutError::UnplacedCell),
            None => Ok(self.assign_all()),
        }
    }
}

} // verus!
