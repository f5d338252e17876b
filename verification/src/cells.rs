//! The table of handles that the proof system gives back.

use vstd::prelude::*;
use crate::assign::{Cell, Chip};
use crate::layout::VAR_COLUMNS;

verus! {

/// Handles of placed cells, by unit, lane and step. The base unit has one
/// column of handles per witness lane, the range unit has one column.
#[derive(Debug)]
pub struct CellTable<H> {
    pub cells: Vec<Vec<Vec<Option<H>>>>,
}

impl<H> CellTable<H> {
    /// The table has the two units, each with its lanes, and the columns
    /// of the base unit have one length.
    pub open spec fn wf(&self) -> bool {
        &&& self.cells@.len() == 2
        &&& self.cells@[0]@.len() == VAR_COLUMNS
        &&& self.cells@[1]@.len() == 1
        &&& forall|lane: int|
            0 <= lane < VAR_COLUMNS ==> (#[trigger] self.cells@[0]@[lane])@.len()
                == self.cells@[0]@[0]@.len()
    }

    /// The number of steps of the base unit that the table covers.
    pub open spec fn base_height(&self) -> nat {
        self.cells@[0]@[0]@.len()
    }

    /// The number of steps of the range unit that the table covers.
    pub open spec fn range_height(&self) -> nat {
        self.cells@[1]@[0]@.len()
    }

    /// Whether the table has an entry for `cell`.
    pub open spec fn covers(&self, cell: Cell) -> bool {
        match cell.region {
            Chip::BaseChip => cell.col < VAR_COLUMNS && cell.row < self.base_height(),
            Chip::RangeChip => cell.col == 0 && cell.row < self.range_height(),
        }
    }

    /// The handle kept under `cell`, if the table has an entry for the
    /// cell and a handle was put there.
    pub open spec fn handle(&self, cell: Cell) -> Option<H> {
        if self.covers(cell) {
            self.cells@[cell.region.spec_index()]@[cell.col as int]@[cell.row as int]
        } else {
            None
        }
    }

    /// Makes a column of `height` empty entries.
    fn empty_column(height: usize) -> (column: Vec<Option<H>>)
        ensures
            column@.len() == height,
            forall|step: int| 0 <= step < height ==> #[trigger] column@[step] is None,
    {
        let mut column: Vec<Option<H>> = Vec::new();
        while column.len() < height
            invariant
                column@.len() <= height,
                forall|step: int| 0 <= step < column@.len() ==> #[trigger] column@[step] is None,
            decreases height - column.len(),
        {
            column.push(None);
        }
        column
    }

    /// Makes a table without handles that covers `base_height` steps of
    /// the base unit and `range_height` steps of the range unit.
    pub fn new(base_height: usize, range_height: usize) -> (table: Self)
        ensures
            table.wf(),
            table.base_height() == base_height,
            table.range_height() == range_height,
            forall|cell: Cell| #[trigger] table.handle(cell) is None,
    {
        let mut base: Vec<Vec<Option<H>>> = Vec::new();
        while base.len() < VAR_COLUMNS
            invariant
                base@.len() <= VAR_COLUMNS,
                forall|lane: int|
                    0 <= lane < base@.len() ==> (#[trigger] base@[lane])@.len() == base_height,
                forall|lane: int, step: int|
                    0 <= lane < base@.len() && 0 <= step < base_height ==> (
                    #[trigger] base@[lane]@[step]) is None,
            decreases VAR_COLUMNS - base.len(),
        {
            base.push(Self::empty_column(base_height));
        }
        let mut range: Vec<Vec<Option<H>>> = Vec::new();
        range.push(Self::empty_column(range_height));
        let mut cells: Vec<Vec<Vec<Option<H>>>> = Vec::new();
        cells.push(base);
        cells.push(range);
        CellTable { cells }
    }

    /// Keeps `handle` under `cell`.
    pub fn put(&mut self, cell: Cell, handle: H)
        requires
            old(self).wf(),
            old(self).covers(cell),
        ensures
            final(self).wf(),
            final(self).base_height() == old(self).base_height(),
            final(self).range_height() == old(self).range_height(),
            final(self).handle(cell) == Some(handle),
            forall|other: Cell| other != cell ==> final(self).handle(other) == old(self).handle(other),
    {
        let unit = cell.region.index();
        self.cells[unit][cell.col][cell.row] = Some(handle);
    }

    /// Looks up the handle kept under `cell`.
    pub fn get(&self, cell: &Cell) -> (found: Option<&H>)
        requires
            self.wf(),
        ensures
            match found {
                Some(handle) => self.handle(*cell) == Some(*handle),
                None => self.handle(*cell) is None,
            },
    {
        let unit = cell.region.index();
        if cell.col < self.cells[unit].len() && cell.row < self.cells[unit][cell.col].len() {
            self.cells[unit][cell.col][cell.row].as_ref()
        } else {
            None
        }
    }

    /// Hands out the table, indexed by unit, then lane, then step.
    pub fn into_cells(self) -> (cells: Vec<Vec<Vec<Option<H>>>>)
        ensures
            cells == self.cells,
    {
        self.cells
    }
}

} // verus!
