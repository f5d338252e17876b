//! Requests to the range unit.

use vstd::prelude::*;
use crate::assign::{AssignedValue, Cell, Chip};
use crate::error::LayoutError;
use crate::field::LaneValue;
use crate::layout::{
    grow_to, COMMON_RANGE_BITS, MAX_CHUNKS, RANGE_EXTEND_SIZE, RANGE_FIXED_COLUMNS,
};
use crate::ledger::empty_marker_row;
use crate::records::Records;

verus! {

/// The markers that a block of the range unit is laid out with.
#[derive(Debug, PartialEq, Eq)]
pub struct BlockMarkers<N> {
    /// Marks the first step of a block.
    pub first: N,
    /// The class of a limb of the common width.
    pub common: N,
    /// The class of the most significant limb.
    pub leading: N,
    /// Marks the last step of a block.
    pub last: N,
}

impl<N: Copy> Clone for BlockMarkers<N> {
    fn clone(&self) -> (copy: Self)
        ensures
            copy == *self,
    {
        *self
    }
}

impl<N: Copy> Copy for BlockMarkers<N> {

}

impl<N: LaneValue> BlockMarkers<N> {
    /// The markers of a block whose most significant limb has
    /// `leading_bits` bits: the values that stand for 1 at the first step,
    /// for the common width, for `leading_bits`, and for 0 at the last
    /// step.
    pub open spec fn spec_of(leading_bits: u64) -> Self {
        BlockMarkers {
            first: N::spec_from_u64(1),
            common: N::spec_from_u64(COMMON_RANGE_BITS),
            leading: N::spec_from_u64(leading_bits),
            last: N::spec_from_u64(0),
        }
    }

    /// Makes the markers of a block whose most significant limb has
    /// `leading_bits` bits.
    pub fn of(leading_bits: u64) -> (markers: Self)
        ensures
            markers == Self::spec_of(leading_bits),
    {
        BlockMarkers {
            first: N::from_u64(1),
            common: N::from_u64(COMMON_RANGE_BITS),
            leading: N::from_u64(leading_bits),
            last: N::from_u64(0),
        }
    }
}

impl<N: Copy> Records<N> {
    /// Grows the range unit's tables until they cover `step` and raises the
    /// unit's height to one more than `step`.
    pub(crate) fn ensure_range_record_size(&mut self, step: usize)
        requires
            old(self)@.wf(),
            old(self)@.accepts_range(step as int),
        ensures
            final(self)@ == old(self)@.cover_range(step as int),
            final(self)@.wf(),
            step < final(self)@.range_adv.len(),
    {
        let to_len = grow_to(self.range_adv_record.len(), step, RANGE_EXTEND_SIZE);
        while self.range_adv_record.len() < to_len
            invariant
                self.range_adv_record.len() == self.range_fix_record.len(),
                old(self).range_adv_record.len() == old(self).range_fix_record.len(),
                old(self).range_adv_record.len() <= self.range_adv_record.len() <= to_len,
                self.range_height == old(self).range_height,
                self.base_adv_record == old(self).base_adv_record,
                self.base_fix_record == old(self).base_fix_record,
                self.base_height == old(self).base_height,
                self.permutations == old(self).permutations,
                forall|r: int|
                    0 <= r < old(self).range_adv_record.len() ==> self.range_adv_record@[r]
                        == old(self).range_adv_record@[r],
                forall|r: int|
                    0 <= r < old(self).range_fix_record.len() ==> self.range_fix_record@[r]
                        == old(self).range_fix_record@[r],
                forall|r: int|
                    old(self).range_adv_record.len() <= r < self.range_adv_record.len()
                        ==> self.range_adv_record@[r] == (None::<N>, false),
                forall|r: int|
                    old(self).range_fix_record.len() <= r < self.range_fix_record.len()
                        ==> self.range_fix_record@[r]@ == empty_marker_row::<N>(),
            decreases to_len - self.range_adv_record.len(),
        {
            let fix: [Option<N>; RANGE_FIXED_COLUMNS] = [None; RANGE_FIXED_COLUMNS];
            assert(fix@ =~= empty_marker_row::<N>());
            self.range_adv_record.push((None, false));
            self.range_fix_record.push(fix);
        }
        if step >= self.range_height {
            self.range_height = step + 1;
        }
        assert(self@ =~~= old(self)@.cover_range(step as int));
    }

    /// Places `v` in the range unit at `offset`, with `class` as its class
    /// marker. Returns the handle of the value.
    pub fn place_single_range_value(&mut self, offset: usize, v: N, class: N) -> (assigned:
        AssignedValue<N>)
        requires
            old(self)@.wf(),
            old(self)@.accepts_range(offset as int),
        ensures
            final(self)@ == old(self)@.place_single(offset as int, v, class),
            final(self)@.wf(),
            assigned.val == v,
            assigned.cell == (Cell { region: Chip::RangeChip, col: 0, row: offset }),
    {
        self.ensure_range_record_size(offset);
        self.range_fix_record[offset][1] = Some(class);
        self.range_adv_record[offset].0 = Some(v);
        assert(self@ =~~= old(self)@.place_single(offset as int, v, class));
        AssignedValue::new(Chip::RangeChip, 0, offset, v)
    }

    /// Lays out the decomposition of the first of `value` into the limbs
    /// that come with it, least significant limb first, in the block that
    /// starts at `offset`, with `markers` as the block's markers. Returns
    /// the handle of the composite value; the limbs have none.
    pub fn place_range_value(&mut self, offset: usize, value: (N, Vec<N>), markers: BlockMarkers<N>) -> (assigned:
        AssignedValue<N>)
        requires
            old(self)@.wf(),
            old(self)@.accepts_chunks(offset as int, value.1@.len() as int),
        ensures
            final(self)@ == old(self)@.place_block(offset as int, value.0, value.1@, markers),
            final(self)@.wf(),
            assigned.val == value.0,
            assigned.cell == (Cell { region: Chip::RangeChip, col: 0, row: offset }),
    {
        let (v, chunks) = value;
        let block: usize = MAX_CHUNKS as usize;
        self.ensure_range_record_size(offset + block);
        let ghost grown = self@;
        let ghost step = offset as int;
        self.range_fix_record[offset][0] = Some(markers.first);
        self.range_adv_record[offset].0 = Some(v);
        self.range_fix_record[offset + block][0] = Some(markers.last);
        let limbs = chunks.len();
        let mut i: usize = 0;
        while i < limbs - 1
            invariant
                1 <= limbs <= MAX_CHUNKS,
                limbs == chunks.len(),
                i <= limbs - 1,
                step == offset,
                offset + MAX_CHUNKS < grown.range_adv.len(),
                grown.wf(),
                self@.wf(),
                self@.range_adv.len() == grown.range_adv.len(),
                self@.base_adv == grown.base_adv,
                self@.base_fix == grown.base_fix,
                self@.base_height == grown.base_height,
                self@.range_height == grown.range_height,
                self@.permutations == grown.permutations,
                self@.range_adv == grown.range_adv.update(
                    step,
                    (Some(v), grown.range_adv[step].1),
                ),
                self.range_fix_record.len() == grown.range_fix.len(),
                forall|r: int|
                    0 <= r < grown.range_fix.len() ==> (#[trigger] self.range_fix_record@[r])@[0]
                        == (if r == step + MAX_CHUNKS {
                        Some(markers.last)
                    } else if r == step {
                        Some(markers.first)
                    } else {
                        grown.range_fix[r][0]
                    }),
                forall|r: int|
                    0 <= r < grown.range_fix.len() ==> (#[trigger] self.range_fix_record@[r])@[1]
                        == (if step < r <= step + i {
                        Some(markers.common)
                    } else {
                        grown.range_fix[r][1]
                    }),
            decreases limbs - 1 - i,
        {
            self.range_fix_record[offset + 1 + i][1] = Some(markers.common);
            i += 1;
        }
        self.range_fix_record[offset + limbs][1] = Some(markers.leading);
        assert forall|r: int| 0 <= r < grown.range_fix.len() implies (
        #[trigger] self.range_fix_record@[r])@[1] == (if step < r < step + limbs {
            Some(markers.common)
        } else if r == step + limbs {
            Some(markers.leading)
        } else {
            grown.range_fix[r][1]
        }) && self.range_fix_record@[r]@[0] == (if r == step + MAX_CHUNKS {
            Some(markers.last)
        } else if r == step {
            Some(markers.first)
        } else {
            grown.range_fix[r][0]
        }) by {}
        let ghost marked = self@;
        let mut k: usize = 0;
        while k < limbs
            invariant
                1 <= limbs <= MAX_CHUNKS,
                limbs == chunks.len(),
                k <= limbs,
                step == offset,
                offset + MAX_CHUNKS < grown.range_adv.len(),
                grown.wf(),
                self@.wf(),
                self@.range_adv.len() == grown.range_adv.len(),
                self@.base_adv == marked.base_adv,
                self@.base_fix == marked.base_fix,
                self@.base_height == marked.base_height,
                self@.range_height == marked.range_height,
                self@.permutations == marked.permutations,
                self@.range_fix == marked.range_fix,
                forall|r: int|
                    0 <= r < grown.range_adv.len() ==> #[trigger] self@.range_adv[r] == (if r
                        == step {
                        (Some(v), grown.range_adv[r].1)
                    } else if step < r <= step + k {
                        (Some(chunks@[r - step - 1]), grown.range_adv[r].1)
                    } else {
                        grown.range_adv[r]
                    }),
            decreases limbs - k,
        {
            self.range_adv_record[offset + 1 + k].0 = Some(chunks[k]);
            k += 1;
        }
        let ghost want = old(self)@.place_block(step, v, chunks@, markers);
        assert(self@.range_adv =~= want.range_adv);
        assert forall|r: int| 0 <= r < want.range_fix.len() implies #[trigger] self@.range_fix[r]
            =~= want.range_fix[r] by {
            assert(self@.range_fix[r] == marked.range_fix[r]);
            assert(marked.range_fix[r][0] == want.range_fix[r][0]);
            assert(marked.range_fix[r][1] == want.range_fix[r][1]);
        }
        assert(self@.range_fix =~~= want.range_fix);
        assert(self@ =~~= want);
        AssignedValue::new(Chip::RangeChip, 0, offset, v)
    }
}

impl<N: LaneValue> Records<N> {
    /// Places `v` in the range unit at `offset`, with `leading_bits` as
    /// its class. Returns the handle of the value.
    pub fn assign_single_range_value(&mut self, offset: usize, v: N, leading_bits: u64) -> (assigned:
        AssignedValue<N>)
        requires
            old(self)@.wf(),
            old(self)@.accepts_range(offset as int),
        ensures
            final(self)@ == old(self)@.assign_single_range_value(offset as int, v, leading_bits),
            final(self)@.wf(),
            assigned.val == v,
            assigned.cell == (Cell { region: Chip::RangeChip, col: 0, row: offset }),
    {
        self.place_single_range_value(offset, v, N::from_u64(leading_bits))
    }

    /// Lays out the decomposition of the first of `value` into the limbs
    /// that come with it, least significant limb first, in the block that
    /// starts at `offset`. The most significant limb has `leading_bits`
    /// bits, every other limb the common width. Returns the handle of the
    /// composite value; the limbs have none.
    pub fn assign_range_value(&mut self, offset: usize, value: (N, Vec<N>), leading_bits: u64) -> (assigned:
        AssignedValue<N>)
        requires
            old(self)@.wf(),
            old(self)@.accepts_chunks(offset as int, value.1@.len() as int),
        ensures
            final(self)@ == old(self)@.assign_range_value(
                offset as int,
                value.0,
                value.1@,
                leading_bits,
            ),
            final(self)@.wf(),
            assigned.val == value.0,
            assigned.cell == (Cell { region: Chip::RangeChip, col: 0, row: offset }),
    {
        self.place_range_value(offset, value, BlockMarkers::of(leading_bits))
    }

    /// Places `v` as `assign_single_range_value` does, or refuses it and
    /// leaves the ledger as it was.
    pub fn try_assign_single_range_value(&mut self, offset: usize, v: N, leading_bits: u64) -> (done:
        Result<AssignedValue<N>, LayoutError>)
        requires
            old(self)@.wf(),
        ensures
            final(self)@.wf(),
            match old(self)@.range_fault(offset as int) {
                Some(fault) => done == Err::<AssignedValue<N>, LayoutError>(fault) && *final(self)
                    == *old(self),
                None => done == Ok::<AssignedValue<N>, LayoutError>(
                    AssignedValue {
                        val: v,
                        cell: Cell { region: Chip::RangeChip, col: 0, row: offset },
                    },
                ) && final(self)@ == old(self)@.assign_single_range_value(
                    offset as int,
                    v,
                    leading_bits,
                ),
            },
    {
        if offset >= self.range_adv_record.len() && offset > usize::MAX - RANGE_EXTEND_SIZE {
            return Err(LayoutError::StepOutOfRange);
        }
        Ok(self.assign_single_range_value(offset, v, leading_bits))
    }

    /// Lays out a decomposition as `assign_range_value` does, or refuses it
    /// and leaves the ledger as it was.
    pub fn try_assign_range_value(
        &mut self,
        offset: usize,
        value: (N, Vec<N>),
        leading_bits: u64,
    ) -> (done: Result<AssignedValue<N>, LayoutError>)
        requires
            old(self)@.wf(),
        ensures
            final(self)@.wf(),
            match old(self)@.chunks_fault(offset as int, value.1@.len() as int) {
                Some(fault) => done == Err::<AssignedValue<N>, LayoutError>(fault) && *final(self)
                    == *old(self),
                None => done == Ok::<AssignedValue<N>, LayoutError>(
                    AssignedValue {
                        val: value.0,
                        cell: Cell { region: Chip::RangeChip, col: 0, row: offset },
                    },
                ) && final(self)@ == old(self)@.assign_range_value(
                    offset as int,
                    value.0,
                    value.1@,
                    leading_bits,
                ),
            },
    {
        let limbs = value.1.len();
        let block: usize = MAX_CHUNKS as usize;
        if limbs < 1 || limbs > block {
            return Err(LayoutError::ChunkCount);
        }
        if offset > usize::MAX - block {
            return Err(LayoutError::StepOutOfRange);
        }
        let last = offset + block;
        if last >= self.range_adv_record.len() && last > usize::MAX - RANGE_EXTEND_SIZE {
            return Err(LayoutError::StepOutOfRange);
        }
        Ok(self.assign_range_value(offset, value, leading_bits))
    }
}

} // verus!
