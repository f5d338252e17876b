//! The ledger as a mathematical value, and what each request makes of it.

use vstd::prelude::*;
use crate::assign::{Cell, Chip, ValueSchema};
use crate::error::LayoutError;
use crate::field::LaneValue;
use crate::layout::{
    grown_len, BASE_EXTEND_SIZE, FIXED_COLUMNS, MAX_CHUNKS, MUL_COLUMNS, RANGE_EXTEND_SIZE,
    RANGE_FIXED_COLUMNS, VAR_COLUMNS,
};
use crate::range::BlockMarkers;

verus! {

/// The tables of both units and the pending copy constraints.
///
/// A witness slot is a pair of the value placed there, if any, and the mark
/// that the slot takes part in a copy constraint.
#[verifier::ext_equal]
pub struct Ledger<N> {
    /// Witness slots of the base unit, by step and lane.
    pub base_adv: Seq<Seq<(Option<N>, bool)>>,
    /// Coefficients of the base unit, by step and fixed lane.
    pub base_fix: Seq<Seq<Option<N>>>,
    /// One more than the highest step of the base unit that was written.
    pub base_height: nat,
    /// Witness slots of the range unit, by step.
    pub range_adv: Seq<(Option<N>, bool)>,
    /// Markers of the range unit, by step: block-first, then class.
    pub range_fix: Seq<Seq<Option<N>>>,
    /// One more than the highest step of the range unit that was written.
    pub range_height: nat,
    /// Pairs of cells that are to be constrained equal.
    pub permutations: Seq<(Cell, Cell)>,
}

/// A row of the base unit's witness table with nothing placed.
pub open spec fn empty_advice_row<N>() -> Seq<(Option<N>, bool)> {
    Seq::new(VAR_COLUMNS as nat, |lane: int| (None::<N>, false))
}

/// A row of the base unit's coefficient table with nothing placed.
pub open spec fn empty_fixed_row<N>() -> Seq<Option<N>> {
    Seq::new(FIXED_COLUMNS as nat, |lane: int| None::<N>)
}

/// A row of the range unit's marker table with nothing placed.
pub open spec fn empty_marker_row<N>() -> Seq<Option<N>> {
    Seq::new(RANGE_FIXED_COLUMNS as nat, |lane: int| None::<N>)
}

/// The cell of the base unit at `lane` and `step`.
pub open spec fn base_cell(lane: int, step: int) -> Cell {
    Cell { region: Chip::BaseChip, col: lane as usize, row: step as usize }
}

/// Whether one of `pairs` is copied from the base unit's cell at `lane` and
/// `step`.
pub open spec fn refers_to_base<N>(pairs: Seq<(ValueSchema<N>, N)>, lane: int, step: int) -> bool {
    exists|i: int|
        0 <= i < pairs.len() && (#[trigger] pairs[i]).0.spec_cell() == Some(base_cell(lane, step))
}

/// Whether one of `pairs` is copied from a cell of the range unit at `step`.
pub open spec fn refers_to_range<N>(pairs: Seq<(ValueSchema<N>, N)>, step: int) -> bool {
    exists|i: int|
        0 <= i < pairs.len() && range_source((#[trigger] pairs[i]).0.spec_cell(), step)
}

/// Whether `source` is a cell of the range unit at `step`.
pub open spec fn range_source(source: Option<Cell>, step: int) -> bool {
    match source {
        Some(cell) => cell.region == Chip::RangeChip && cell.row == step,
        None => false,
    }
}

/// The copy constraints that placing `pairs` at `step` asks for: for each
/// pair that is copied from a cell, in lane order, that cell and the cell of
/// the pair's own lane.
pub open spec fn copies<N>(pairs: Seq<(ValueSchema<N>, N)>, step: int) -> Seq<(Cell, Cell)>
    decreases pairs.len(),
{
    if pairs.len() == 0 {
        Seq::empty()
    } else {
        let before = copies(pairs.drop_last(), step);
        match pairs.last().0.spec_cell() {
            Some(source) => before.push((source, base_cell(pairs.len() - 1, step))),
            None => before,
        }
    }
}

impl<N> Ledger<N> {
    /// The ledger in which nothing has been recorded.
    pub open spec fn empty() -> Self {
        Ledger {
            base_adv: Seq::empty(),
            base_fix: Seq::empty(),
            base_height: 0,
            range_adv: Seq::empty(),
            range_fix: Seq::empty(),
            range_height: 0,
            permutations: Seq::empty(),
        }
    }

    /// The tables of a unit have the same number of rows, every row has the
    /// unit's number of lanes, the height lies within the rows, and a cell
    /// can address every row.
    pub open spec fn wf(self) -> bool {
        &&& self.base_adv.len() <= usize::MAX
        &&& self.range_adv.len() <= usize::MAX
        &&& self.base_adv.len() == self.base_fix.len()
        &&& self.base_height <= self.base_adv.len()
        &&& forall|step: int|
            0 <= step < self.base_adv.len() ==> (#[trigger] self.base_adv[step]).len()
                == VAR_COLUMNS
        &&& forall|step: int|
            0 <= step < self.base_fix.len() ==> (#[trigger] self.base_fix[step]).len()
                == FIXED_COLUMNS
        &&& self.range_adv.len() == self.range_fix.len()
        &&& self.range_height <= self.range_adv.len()
        &&& forall|step: int|
            0 <= step < self.range_fix.len() ==> (#[trigger] self.range_fix[step]).len()
                == RANGE_FIXED_COLUMNS
    }

    /// Whether the tables have a slot for `cell`. Of a cell of the range
    /// unit only the step counts: the unit has one witness lane.
    pub open spec fn allocated(self, cell: Cell) -> bool {
        match cell.region {
            Chip::BaseChip => cell.row < self.base_adv.len() && cell.col < VAR_COLUMNS,
            Chip::RangeChip => cell.row < self.range_adv.len(),
        }
    }

    /// Whether `value` has no cell that it is copied from, or one that the
    /// tables have a slot for.
    pub open spec fn has_source(self, value: ValueSchema<N>) -> bool {
        match value.spec_cell() {
            Some(source) => self.allocated(source),
            None => true,
        }
    }

    /// The value placed in `cell`, if any.
    pub open spec fn value_at(self, cell: Cell) -> Option<N> {
        match cell.region {
            Chip::BaseChip => self.base_adv[cell.row as int][cell.col as int].0,
            Chip::RangeChip => self.range_adv[cell.row as int].0,
        }
    }

    /// Whether `cell` is marked as taking part in a copy constraint.
    pub open spec fn marked(self, cell: Cell) -> bool {
        match cell.region {
            Chip::BaseChip => self.base_adv[cell.row as int][cell.col as int].1,
            Chip::RangeChip => self.range_adv[cell.row as int].1,
        }
    }

    /// The ledger with `cell` marked as taking part in a copy constraint.
    pub open spec fn enable_permute(self, cell: Cell) -> Self {
        let step = cell.row as int;
        let lane = cell.col as int;
        match cell.region {
            Chip::BaseChip => Ledger {
                base_adv: self.base_adv.update(
                    step,
                    self.base_adv[step].update(lane, (self.base_adv[step][lane].0, true)),
                ),
                ..self
            },
            Chip::RangeChip => Ledger {
                range_adv: self.range_adv.update(step, (self.range_adv[step].0, true)),
                ..self
            },
        }
    }

    /// The ledger with the base unit's tables grown to cover `step` and its
    /// height raised to one more than `step`. The tables grow by empty rows
    /// up to the next multiple of the block size.
    pub open spec fn cover_base(self, step: int) -> Self {
        let len = grown_len(self.base_adv.len() as int, step, BASE_EXTEND_SIZE as int);
        Ledger {
            base_adv: Seq::new(
                len as nat,
                |r: int|
                    if r < self.base_adv.len() {
                        self.base_adv[r]
                    } else {
                        empty_advice_row()
                    },
            ),
            base_fix: Seq::new(
                len as nat,
                |r: int|
                    if r < self.base_fix.len() {
                        self.base_fix[r]
                    } else {
                        empty_fixed_row()
                    },
            ),
            base_height: if step >= self.base_height {
                (step + 1) as nat
            } else {
                self.base_height
            },
            ..self
        }
    }

    /// The ledger with `value` placed in the base unit at `step` and `lane`
    /// and `coeff` as the lane's linear coefficient. Where the value is
    /// copied from a cell, both cells are marked and the pair is recorded.
    pub open spec fn place(self, step: int, lane: int, value: ValueSchema<N>, coeff: N) -> Self {
        let target = base_cell(lane, step);
        let linked = match value.spec_cell() {
            Some(source) => Ledger {
                permutations: self.permutations.push((source, target)),
                ..self.enable_permute(target).enable_permute(source)
            },
            None => self,
        };
        Ledger {
            base_adv: linked.base_adv.update(
                step,
                linked.base_adv[step].update(
                    lane,
                    (Some(value.spec_value()), linked.base_adv[step][lane].1),
                ),
            ),
            base_fix: linked.base_fix.update(step, linked.base_fix[step].update(lane, Some(coeff))),
            ..linked
        }
    }

    /// The ledger with each of `pairs` placed in the base unit at `step`, the
    /// first in lane 0. A slot of row `step` in a lane that has a pair holds
    /// the pair's value, and the lane's linear coefficient is the
    /// pair's. A slot is marked where it was before, where its pair is copied
    /// from a cell, or where a pair is copied from it. The copy constraints
    /// that the pairs ask for are added. Nothing else changes.
    pub open spec fn place_all(self, step: int, pairs: Seq<(ValueSchema<N>, N)>) -> Self {
        Ledger {
            base_adv: Seq::new(
                self.base_adv.len(),
                |r: int|
                    Seq::new(
                        VAR_COLUMNS as nat,
                        |c: int|
                            (
                                if r == step && c < pairs.len() {
                                    Some(pairs[c].0.spec_value())
                                } else {
                                    self.base_adv[r][c].0
                                },
                                self.base_adv[r][c].1 || (r == step && c < pairs.len()
                                    && pairs[c].0.spec_cell() is Some) || refers_to_base(
                                    pairs,
                                    c,
                                    r,
                                ),
                            ),
                    ),
            ),
            base_fix: Seq::new(
                self.base_fix.len(),
                |r: int|
                    Seq::new(
                        FIXED_COLUMNS as nat,
                        |c: int|
                            if r == step && c < pairs.len() {
                                Some(pairs[c].1)
                            } else {
                                self.base_fix[r][c]
                            },
                    ),
            ),
            range_adv: Seq::new(
                self.range_adv.len(),
                |r: int| (self.range_adv[r].0, self.range_adv[r].1 || refers_to_range(pairs, r)),
            ),
            permutations: self.permutations + copies(pairs, step),
            ..self
        }
    }

    /// The ledger with the product coefficients, the next-row coefficient and
    /// the constant of row `step` set. Product coefficient `i` goes to the
    /// fixed lane `VAR_COLUMNS + i`; a next-row coefficient or a constant
    /// that is given goes to its own lane, whatever that lane held.
    pub open spec fn with_coefficients(
        self,
        step: int,
        mul_coeffs: Seq<N>,
        next: Option<N>,
        constant: Option<N>,
    ) -> Self {
        Ledger {
            base_fix: self.base_fix.update(
                step,
                Seq::new(
                    FIXED_COLUMNS as nat,
                    |c: int|
                        if c == VAR_COLUMNS + MUL_COLUMNS + 1 && constant is Some {
                            constant
                        } else if c == VAR_COLUMNS + MUL_COLUMNS && next is Some {
                            next
                        } else if VAR_COLUMNS <= c < VAR_COLUMNS + mul_coeffs.len() {
                            Some(mul_coeffs[c - VAR_COLUMNS])
                        } else {
                            self.base_fix[step][c]
                        },
                ),
            ),
            ..self
        }
    }

    /// Whether a gate can be packed into row `step`: the number of pairs and
    /// of product coefficients fits the lanes, the tables can grow to cover
    /// the step, and every cell that a pair is copied from has a slot in the
    /// tables as grown.
    pub open spec fn accepts_line(
        self,
        step: int,
        pairs: Seq<(ValueSchema<N>, N)>,
        mul_coeffs: Seq<N>,
    ) -> bool {
        &&& pairs.len() <= VAR_COLUMNS
        &&& mul_coeffs.len() <= FIXED_COLUMNS - VAR_COLUMNS
        &&& 0 <= step
        &&& step >= self.base_adv.len() ==> step + BASE_EXTEND_SIZE <= usize::MAX
        &&& forall|i: int|
            0 <= i < pairs.len() ==> self.cover_base(step).has_source((#[trigger] pairs[i]).0)
    }

    /// Why a gate cannot be packed into row `step`, if it cannot: the first
    /// of the conditions of `accepts_line` that fails.
    pub open spec fn line_fault(
        self,
        step: int,
        pairs: Seq<(ValueSchema<N>, N)>,
        mul_coeffs: Seq<N>,
    ) -> Option<LayoutError> {
        if pairs.len() > VAR_COLUMNS {
            Some(LayoutError::TooManyValues)
        } else if mul_coeffs.len() > FIXED_COLUMNS - VAR_COLUMNS {
            Some(LayoutError::TooManyCoefficients)
        } else if step < 0 || (step >= self.base_adv.len() && step + BASE_EXTEND_SIZE
            > usize::MAX) {
            Some(LayoutError::StepOutOfRange)
        } else if exists|i: int|
            0 <= i < pairs.len() && !self.cover_base(step).has_source((#[trigger] pairs[i]).0) {
            Some(LayoutError::UnknownCell)
        } else {
            None
        }
    }

    /// What `one_line` makes of the ledger.
    pub open spec fn one_line(
        self,
        step: int,
        pairs: Seq<(ValueSchema<N>, N)>,
        constant: Option<N>,
        mul_coeffs: Seq<N>,
        next: Option<N>,
    ) -> Self {
        self.cover_base(step).place_all(step, pairs).with_coefficients(
            step,
            mul_coeffs,
            next,
            constant,
        )
    }

    /// Whether a gate with a tail can be packed into row `step`.
    pub open spec fn accepts_line_with_last(
        self,
        step: int,
        pairs: Seq<(ValueSchema<N>, N)>,
        tail: ValueSchema<N>,
        mul_coeffs: Seq<N>,
    ) -> bool {
        &&& pairs.len() <= VAR_COLUMNS - 1
        &&& self.accepts_line(step, pairs, mul_coeffs)
        &&& self.cover_base(step).has_source(tail)
    }

    /// Why a gate with a tail cannot be packed into row `step`, if it cannot.
    pub open spec fn line_with_last_fault(
        self,
        step: int,
        pairs: Seq<(ValueSchema<N>, N)>,
        tail: ValueSchema<N>,
        mul_coeffs: Seq<N>,
    ) -> Option<LayoutError> {
        if pairs.len() > VAR_COLUMNS - 1 {
            Some(LayoutError::TooManyValues)
        } else if self.line_fault(step, pairs, mul_coeffs) is Some {
            self.line_fault(step, pairs, mul_coeffs)
        } else if !self.cover_base(step).has_source(tail) {
            Some(LayoutError::UnknownCell)
        } else {
            None
        }
    }

    /// What `one_line_with_last` makes of the ledger: the pairs are packed
    /// as by `one_line`, then the tail is placed in the last witness lane.
    pub open spec fn one_line_with_last(
        self,
        step: int,
        pairs: Seq<(ValueSchema<N>, N)>,
        tail: (ValueSchema<N>, N),
        constant: Option<N>,
        mul_coeffs: Seq<N>,
        next: Option<N>,
    ) -> Self {
        self.one_line(step, pairs, constant, mul_coeffs, next).place(
            step,
            VAR_COLUMNS - 1,
            tail.0,
            tail.1,
        )
    }

    /// The ledger with the range unit's tables grown to cover `step` and its
    /// height raised to one more than `step`.
    pub open spec fn cover_range(self, step: int) -> Self {
        let len = grown_len(self.range_adv.len() as int, step, RANGE_EXTEND_SIZE as int);
        Ledger {
            range_adv: Seq::new(
                len as nat,
                |r: int|
                    if r < self.range_adv.len() {
                        self.range_adv[r]
                    } else {
                        (None::<N>, false)
                    },
            ),
            range_fix: Seq::new(
                len as nat,
                |r: int|
                    if r < self.range_fix.len() {
                        self.range_fix[r]
                    } else {
                        empty_marker_row()
                    },
            ),
            range_height: if step >= self.range_height {
                (step + 1) as nat
            } else {
                self.range_height
            },
            ..self
        }
    }

    /// Whether the range unit's tables can grow to cover `step`.
    pub open spec fn accepts_range(self, step: int) -> bool {
        &&& 0 <= step <= usize::MAX
        &&& step >= self.range_adv.len() ==> step + RANGE_EXTEND_SIZE <= usize::MAX
    }

    /// Whether a decomposition into `limbs` limbs can be laid out from
    /// `step` on: it has at least one limb and at most `MAX_CHUNKS`, and the
    /// tables can grow to cover the whole block.
    pub open spec fn accepts_chunks(self, step: int, limbs: int) -> bool {
        &&& 1 <= limbs <= MAX_CHUNKS
        &&& self.accepts_range(step + MAX_CHUNKS)
        &&& 0 <= step
    }

    /// Why the range unit's tables cannot grow to cover `step`, if they
    /// cannot.
    pub open spec fn range_fault(self, step: int) -> Option<LayoutError> {
        if self.accepts_range(step) {
            None
        } else {
            Some(LayoutError::StepOutOfRange)
        }
    }

    /// Why a decomposition into `limbs` limbs cannot be laid out from `step`
    /// on, if it cannot.
    pub open spec fn chunks_fault(self, step: int, limbs: int) -> Option<LayoutError> {
        if limbs < 1 || limbs > MAX_CHUNKS {
            Some(LayoutError::ChunkCount)
        } else if step < 0 || !self.accepts_range(step + MAX_CHUNKS) {
            Some(LayoutError::StepOutOfRange)
        } else {
            None
        }
    }

    /// The ledger with `value` placed in the range unit at `step` and
    /// `class` as its class marker.
    pub open spec fn place_single(self, step: int, value: N, class: N) -> Self {
        let grown = self.cover_range(step);
        Ledger {
            range_adv: grown.range_adv.update(step, (Some(value), grown.range_adv[step].1)),
            range_fix: grown.range_fix.update(step, grown.range_fix[step].update(1, Some(class))),
            ..grown
        }
    }

    /// The ledger with a decomposition laid out in the block that starts at
    /// `step`. The composite `value` is placed at `step` with the marker of
    /// a block's first step, limb `i` at step `step + 1 + i`. The class
    /// marker of every limb but the last is the marker of the common
    /// width, that of the last limb is the marker of its own width. The
    /// step `step + MAX_CHUNKS` gets the marker of a block's last step,
    /// however many limbs there are.
    pub open spec fn place_block(
        self,
        step: int,
        value: N,
        chunks: Seq<N>,
        markers: BlockMarkers<N>,
    ) -> Self {
        let grown = self.cover_range(step + MAX_CHUNKS);
        Ledger {
            range_adv: Seq::new(
                grown.range_adv.len(),
                |r: int|
                    if r == step {
                        (Some(value), grown.range_adv[r].1)
                    } else if step < r <= step + chunks.len() {
                        (Some(chunks[r - step - 1]), grown.range_adv[r].1)
                    } else {
                        grown.range_adv[r]
                    },
            ),
            range_fix: Seq::new(
                grown.range_fix.len(),
                |r: int|
                    Seq::new(
                        RANGE_FIXED_COLUMNS as nat,
                        |c: int|
                            if c == 0 {
                                if r == step + MAX_CHUNKS {
                                    Some(markers.last)
                                } else if r == step {
                                    Some(markers.first)
                                } else {
                                    grown.range_fix[r][0]
                                }
                            } else {
                                if step < r < step + chunks.len() {
                                    Some(markers.common)
                                } else if r == step + chunks.len() {
                                    Some(markers.leading)
                                } else {
                                    grown.range_fix[r][1]
                                }
                            },
                    ),
            ),
            ..grown
        }
    }
}

impl<N: LaneValue> Ledger<N> {
    /// What `assign_single_range_value` makes of the ledger: `value` is
    /// placed at `step`, with the value that stands for `leading_bits` as
    /// its class marker.
    pub open spec fn assign_single_range_value(self, step: int, value: N, leading_bits: u64) -> Self {
        self.place_single(step, value, N::spec_from_u64(leading_bits))
    }

    /// What `assign_range_value` makes of the ledger: the decomposition is
    /// laid out with the markers of a block whose last limb has
    /// `leading_bits` bits.
    pub open spec fn assign_range_value(
        self,
        step: int,
        value: N,
        chunks: Seq<N>,
        leading_bits: u64,
    ) -> Self {
        self.place_block(step, value, chunks, BlockMarkers::spec_of(leading_bits))
    }
}

} // verus!
