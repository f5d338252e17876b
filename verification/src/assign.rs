//! Cells and the values that requests are made of.

use vstd::prelude::*;

verus! {

/// A functional unit of the circuit.
#[derive(Clone, Copy, Debug, PartialEq, Eq, Structural)]
pub enum Chip {
    /// The unit of the fused multiply-add gate.
    BaseChip,
    /// The unit of the range-decomposition gate.
    RangeChip,
}

impl Chip {
    /// The position of the unit in a table that is indexed by unit.
    pub open spec fn spec_index(self) -> int {
        match self {
            Chip::BaseChip => 0,
            Chip::RangeChip => 1,
        }
    }

    /// Computes the position of the unit in a table that is indexed by unit.
    pub fn index(self) -> (i: usize)
        ensures
            i == self.spec_index(),
    {
        match self {
            Chip::BaseChip => 0,
            Chip::RangeChip => 1,
        }
    }
}

/// A witness slot: a unit, a lane of it and a step.
#[derive(Clone, Copy, Debug, PartialEq, Eq, Structural)]
pub struct Cell {
    pub region: Chip,
    pub col: usize,
    pub row: usize,
}

impl Cell {
    pub fn new(region: Chip, col: usize, row: usize) -> (cell: Cell)
        ensures
            cell == (Cell { region, col, row }),
    {
        Cell { region, col, row }
    }
}

/// A value that has been placed, with the cell it was placed in.
#[derive(Debug, PartialEq, Eq)]
pub struct AssignedValue<N> {
    pub val: N,
    pub cell: Cell,
}

impl<N: Copy> Clone for AssignedValue<N> {
    fn clone(&self) -> (copy: Self)
        ensures
            copy == *self,
    {
        *self
    }
}

impl<N: Copy> Copy for AssignedValue<N> {

}

impl<N: Copy> AssignedValue<N> {
    pub fn new(region: Chip, col: usize, row: usize, val: N) -> (assigned: Self)
        ensures
            assigned.val == val,
            assigned.cell == (Cell { region, col, row }),
    {
        AssignedValue { val, cell: Cell { region, col, row } }
    }
}

/// A value as a request gives it: one that was placed before and is to be
/// copied from its cell, or one that has no cell yet.
#[derive(Debug, PartialEq, Eq)]
pub enum ValueSchema<N> {
    Assigned(AssignedValue<N>),
    Unassigned(N),
}

impl<N: Copy> Clone for ValueSchema<N> {
    fn clone(&self) -> (copy: Self)
        ensures
            copy == *self,
    {
        *self
    }
}

impl<N: Copy> Copy for ValueSchema<N> {

}

impl<N> ValueSchema<N> {
    /// The value itself.
    pub open spec fn spec_value(self) -> N {
        match self {
            ValueSchema::Assigned(assigned) => assigned.val,
            ValueSchema::Unassigned(val) => val,
        }
    }

    /// The cell that the value is copied from, if it has one.
    pub open spec fn spec_cell(self) -> Option<Cell> {
        match self {
            ValueSchema::Assigned(assigned) => Some(assigned.cell),
            ValueSchema::Unassigned(_) => None,
        }
    }
}

impl<N: Copy> ValueSchema<N> {
    pub fn value(&self) -> (val: N)
        ensures
            val == self.spec_value(),
    {
        match self {
            ValueSchema::Assigned(assigned) => assigned.val,
            ValueSchema::Unassigned(val) => *val,
        }
    }

    pub fn cell(&self) -> (cell: Option<Cell>)
        ensures
            cell == self.spec_cell(),
    {
        match self {
            ValueSchema::Assigned(assigned) => Some(assigned.cell),
            ValueSchema::Unassigned(_) => None,
        }
    }
}

} // verus!
