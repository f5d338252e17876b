//! The ledger that gates are packed into.

use vstd::prelude::*;
use crate::assign::{Cell, Chip, ValueSchema};
use crate::error::LayoutError;
use crate::layout::{
    grow_to, BASE_EXTEND_SIZE, FIXED_COLUMNS, MUL_COLUMNS, RANGE_FIXED_COLUMNS, VAR_COLUMNS,
};
use crate::ledger::{
    base_cell, copies, empty_advice_row, empty_fixed_row, range_source, refers_to_base,
    refers_to_range, Ledger,
};

verus! {

/// The tables of witness values, coefficients and markers of both units,
/// with the copy constraints that are still to be declared.
///
/// The tables of a unit grow in blocks; only the rows below the unit's
/// height are in use.
#[derive(Debug, Clone, PartialEq, Eq)]
pub struct Records<N> {
    pub base_adv_record: Vec<[(Option<N>, bool); VAR_COLUMNS]>,
    pub base_fix_record: Vec<[Option<N>; FIXED_COLUMNS]>,
    pub base_height: usize,
    pub range_adv_record: Vec<(Option<N>, bool)>,
    pub range_fix_record: Vec<[Option<N>; RANGE_FIXED_COLUMNS]>,
    pub range_height: usize,
    pub permutations: Vec<(Cell, Cell)>,
}

impl<N> View for Records<N> {
    type V = Ledger<N>;

    open spec fn view(&self) -> Ledger<N> {
        Ledger {
            base_adv: self.base_adv_record@.map_values(
                |row: [(Option<N>, bool); VAR_COLUMNS]| row@,
            ),
            base_fix: self.base_fix_record@.map_values(|row: [Option<N>; FIXED_COLUMNS]| row@),
            base_height: self.base_height as nat,
            range_adv: self.range_adv_record@,
            range_fix: self.range_fix_record@.map_values(
                |row: [Option<N>; RANGE_FIXED_COLUMNS]| row@,
            ),
            range_height: self.range_height as nat,
            permutations: self.permutations@,
        }
    }
}

impl<N> Default for Records<N> {
    fn default() -> (records: Self)
        ensures
            records@ == Ledger::<N>::empty(),
    {
        let records = Records {
            base_adv_record: Vec::new(),
            base_fix_record: Vec::new(),
            base_height: 0,
            range_adv_record: Vec::new(),
            range_fix_record: Vec::new(),
            range_height: 0,
            permutations: Vec::new(),
        };
        assert(records@ =~~= Ledger::<N>::empty());
        records
    }
}

impl<N: Copy> Records<N> {
    /// A ledger in which nothing has been recorded.
    pub fn new() -> (records: Self)
        ensures
            records@ == Ledger::<N>::empty(),
            records@.wf(),
    {
        Records::default()
    }

    /// Grows the base unit's tables until they cover `step` and raises the
    /// unit's height to one more than `step`.
    pub(crate) fn cover_base(&mut self, step: usize)
        requires
            old(self)@.wf(),
            step >= old(self)@.base_adv.len() ==> step + BASE_EXTEND_SIZE <= usize::MAX,
        ensures
            final(self)@ == old(self)@.cover_base(step as int),
            final(self)@.wf(),
            step < final(self)@.base_adv.len(),
    {
        let to_len = grow_to(self.base_adv_record.len(), step, BASE_EXTEND_SIZE);
        while self.base_adv_record.len() < to_len
            invariant
                self.base_adv_record.len() == self.base_fix_record.len(),
                old(self).base_adv_record.len() == old(self).base_fix_record.len(),
                old(self).base_adv_record.len() <= self.base_adv_record.len() <= to_len,
                self.base_height == old(self).base_height,
                self.range_adv_record == old(self).range_adv_record,
                self.range_fix_record == old(self).range_fix_record,
                self.range_height == old(self).range_height,
                self.permutations == old(self).permutations,
                forall|r: int|
                    0 <= r < old(self).base_adv_record.len() ==> self.base_adv_record@[r]
                        == old(self).base_adv_record@[r],
                forall|r: int|
                    0 <= r < old(self).base_fix_record.len() ==> self.base_fix_record@[r]
                        == old(self).base_fix_record@[r],
                forall|r: int|
                    old(self).base_adv_record.len() <= r < self.base_adv_record.len()
                        ==> self.base_adv_record@[r]@ == empty_advice_row::<N>(),
                forall|r: int|
                    old(self).base_fix_record.len() <= r < self.base_fix_record.len()
                        ==> self.base_fix_record@[r]@ == empty_fixed_row::<N>(),
            decreases to_len - self.base_adv_record.len(),
        {
            let adv: [(Option<N>, bool); VAR_COLUMNS] = [(None, false); VAR_COLUMNS];
            let fix: [Option<N>; FIXED_COLUMNS] = [None; FIXED_COLUMNS];
            assert(adv@ =~= empty_advice_row::<N>());
            assert(fix@ =~= empty_fixed_row::<N>());
            self.base_adv_record.push(adv);
            self.base_fix_record.push(fix);
        }
        if step >= self.base_height {
            self.base_height = step + 1;
        }
        assert(self@ =~~= old(self)@.cover_base(step as int));
    }

    /// Tells whether the tables have a slot for `cell`.
    pub fn allocates(&self, cell: &Cell) -> (allocated: bool)
        ensures
            allocated == self@.allocated(*cell),
    {
        match cell.region {
            Chip::BaseChip => cell.row < self.base_adv_record.len() && cell.col < VAR_COLUMNS,
            Chip::RangeChip => cell.row < self.range_adv_record.len(),
        }
    }

    /// Marks `cell` as taking part in a copy constraint.
    pub fn enable_permute(&mut self, cell: &Cell)
        requires
            old(self)@.wf(),
            old(self)@.allocated(*cell),
        ensures
            final(self)@ == old(self)@.enable_permute(*cell),
            final(self)@.wf(),
    {
        match cell.region {
            Chip::BaseChip => {
                self.base_adv_record[cell.row][cell.col].1 = true;
            },
            Chip::RangeChip => {
                self.range_adv_record[cell.row].1 = true;
            },
        }
        assert(self@ =~~= old(self)@.enable_permute(*cell));
    }

    /// Places `base` in the base unit at `offset` and `lane`, with `coeff` as
    /// the lane's linear coefficient.
    pub(crate) fn place_value(&mut self, offset: usize, lane: usize, base: ValueSchema<N>, coeff: N)
        requires
            old(self)@.wf(),
            offset < old(self)@.base_adv.len(),
            lane < VAR_COLUMNS,
            old(self)@.has_source(base),
        ensures
            final(self)@ == old(self)@.place(offset as int, lane as int, base, coeff),
            final(self)@.wf(),
    {
        let ghost target = base_cell(lane as int, offset as int);
        match base.cell() {
            Some(cell) => {
                let idx = Cell::new(Chip::BaseChip, lane, offset);
                self.base_adv_record[offset][lane].1 = true;
                assert(self@ =~~= old(self)@.enable_permute(target));
                self.enable_permute(&cell);
                self.permutations.push((cell, idx));
            },
            None => {},
        }
        let ghost linked = self@;
        self.base_fix_record[offset][lane] = Some(coeff);
        self.base_adv_record[offset][lane].0 = Some(base.value());
        assert(self@.base_fix =~~= linked.base_fix.update(
            offset as int,
            linked.base_fix[offset as int].update(lane as int, Some(coeff)),
        ));
        assert(self@.base_adv =~~= linked.base_adv.update(
            offset as int,
            linked.base_adv[offset as int].update(
                lane as int,
                (Some(base.spec_value()), linked.base_adv[offset as int][lane as int].1),
            ),
        ));
        assert(self@ =~~= old(self)@.place(offset as int, lane as int, base, coeff));
    }

    /// Packs one gate into row `offset` of the base unit.
    ///
    /// Pair `i` of `base_coeff_pairs` gives the value of witness lane `i` and
    /// the lane's linear coefficient. `mul_next_coeffs` gives the product
    /// coefficients and the next-row coefficient. Every value that is copied
    /// from a cell adds a copy constraint between that cell and its new one.
    ///
    /// Product coefficients beyond the product lanes fall on the lanes of
    /// the next-row coefficient and of the constant, where a next-row
    /// coefficient or a constant that is given replaces them.
    pub fn one_line(
        &mut self,
        offset: usize,
        base_coeff_pairs: Vec<(ValueSchema<N>, N)>,
        constant: Option<N>,
        mul_next_coeffs: (Vec<N>, Option<N>),
    )
        requires
            old(self)@.wf(),
            old(self)@.accepts_line(offset as int, base_coeff_pairs@, mul_next_coeffs.0@),
        ensures
            final(self)@ == old(self)@.one_line(
                offset as int,
                base_coeff_pairs@,
                constant,
                mul_next_coeffs.0@,
                mul_next_coeffs.1,
            ),
            final(self)@.wf(),
    {
        self.cover_base(offset);
        let ghost grown = self@;
        let ghost step = offset as int;
        proof {
            lemma_place_all_none(grown, step);
        }
        let mut i: usize = 0;
        while i < base_coeff_pairs.len()
            invariant
                i <= base_coeff_pairs.len() <= VAR_COLUMNS,
                step == offset,
                grown.wf(),
                offset < grown.base_adv.len(),
                self@.wf(),
                self@ == grown.place_all(step, base_coeff_pairs@.take(i as int)),
                forall|k: int|
                    0 <= k < base_coeff_pairs.len() ==> grown.has_source(
                        (#[trigger] base_coeff_pairs@[k]).0,
                    ),
            decreases base_coeff_pairs.len() - i,
        {
            let (base, coeff) = base_coeff_pairs[i];
            self.place_value(offset, i, base, coeff);
            proof {
                lemma_place_all_step(grown, step, base_coeff_pairs@, i as int);
            }
            i += 1;
        }
        assert(base_coeff_pairs@.take(base_coeff_pairs.len() as int) =~= base_coeff_pairs@);
        let ghost placed = self@;
        let (mul_coeffs, next) = mul_next_coeffs;
        assert(placed.with_coefficients(step, mul_coeffs@.take(0), None, None).base_fix
            =~~= placed.base_fix);
        let mut j: usize = 0;
        while j < mul_coeffs.len()
            invariant
                j <= mul_coeffs.len() <= FIXED_COLUMNS - VAR_COLUMNS,
                step == offset,
                placed.wf(),
                offset < placed.base_adv.len(),
                self@.wf(),
                self@ == placed.with_coefficients(
                    step,
                    mul_coeffs@.take(j as int),
                    None,
                    None,
                ),
            decreases mul_coeffs.len() - j,
        {
            let ghost prev = self@;
            self.base_fix_record[offset][VAR_COLUMNS + j] = Some(mul_coeffs[j]);
            assert(self@.base_fix =~~= prev.base_fix.update(
                step,
                prev.base_fix[step].update(VAR_COLUMNS + j, Some(mul_coeffs@[j as int])),
            ));
            assert(mul_coeffs@.take(j as int + 1)[j as int] == mul_coeffs@[j as int]);
            assert(self@.base_fix[step] =~= placed.with_coefficients(
                step,
                mul_coeffs@.take(j as int + 1),
                None,
                None,
            ).base_fix[step]);
            assert(self@.base_fix =~~= placed.with_coefficients(
                step,
                mul_coeffs@.take(j as int + 1),
                None,
                None,
            ).base_fix);
            j += 1;
        }
        assert(mul_coeffs@.take(mul_coeffs.len() as int) =~= mul_coeffs@);
        let ghost multiplied = self@;
        assert(multiplied == placed.with_coefficients(step, mul_coeffs@, None, None));
        if next.is_some() {
            self.base_fix_record[offset][VAR_COLUMNS + MUL_COLUMNS] = next;
            assert(self@.base_fix =~~= multiplied.base_fix.update(
                step,
                multiplied.base_fix[step].update(VAR_COLUMNS + MUL_COLUMNS, next),
            ));
        }
        let ghost chained = self@;
        if constant.is_some() {
            self.base_fix_record[offset][VAR_COLUMNS + MUL_COLUMNS + 1] = constant;
            assert(self@.base_fix =~~= chained.base_fix.update(
                step,
                chained.base_fix[step].update(VAR_COLUMNS + MUL_COLUMNS + 1, constant),
            ));
        }
        assert(self@.base_fix[step] =~= placed.with_coefficients(
            step,
            mul_coeffs@,
            next,
            constant,
        ).base_fix[step]);
        assert(self@.base_fix =~~= placed.with_coefficients(
            step,
            mul_coeffs@,
            next,
            constant,
        ).base_fix);
    }

    /// Packs one gate with a tail into row `offset` of the base unit: the
    /// gate as `one_line` does, then `tail` in the last witness lane.
    pub fn one_line_with_last(
        &mut self,
        offset: usize,
        base_coeff_pairs: Vec<(ValueSchema<N>, N)>,
        tail: (ValueSchema<N>, N),
        constant: Option<N>,
        mul_next_coeffs: (Vec<N>, Option<N>),
    )
        requires
            old(self)@.wf(),
            old(self)@.accepts_line_with_last(
                offset as int,
                base_coeff_pairs@,
                tail.0,
                mul_next_coeffs.0@,
            ),
        ensures
            final(self)@ == old(self)@.one_line_with_last(
                offset as int,
                base_coeff_pairs@,
                tail,
                constant,
                mul_next_coeffs.0@,
                mul_next_coeffs.1,
            ),
            final(self)@.wf(),
    {
        self.one_line(offset, base_coeff_pairs, constant, mul_next_coeffs);
        let (base, coeff) = tail;
        self.place_value(offset, VAR_COLUMNS - 1, base, coeff);
    }

    /// Tells whether the tables of each unit have the same number of rows
    /// and the heights lie within them.
    pub fn is_well_formed(&self) -> (well_formed: bool)
        ensures
            well_formed == self@.wf(),
    {
        self.base_adv_record.len() == self.base_fix_record.len() && self.base_height
            <= self.base_adv_record.len() && self.range_adv_record.len()
            == self.range_fix_record.len() && self.range_height <= self.range_adv_record.len()
    }

    /// Tells whether `value` has no cell that it is copied from, or one
    /// that tables with `base_rows` and `range_rows` rows have a slot for.
    fn source_in(value: &ValueSchema<N>, base_rows: usize, range_rows: usize) -> (known: bool)
        ensures
            known == match value.spec_cell() {
                Some(source) => match source.region {
                    Chip::BaseChip => source.row < base_rows && source.col < VAR_COLUMNS,
                    Chip::RangeChip => source.row < range_rows,
                },
                None => true,
            },
    {
        match value.cell() {
            Some(source) => match source.region {
                Chip::BaseChip => source.row < base_rows && source.col < VAR_COLUMNS,
                Chip::RangeChip => source.row < range_rows,
            },
            None => true,
        }
    }

    /// Finds why a gate cannot be packed into row `offset`, if it cannot.
    pub fn line_fault(
        &self,
        offset: usize,
        base_coeff_pairs: &Vec<(ValueSchema<N>, N)>,
        mul_coeffs: &Vec<N>,
    ) -> (fault: Option<LayoutError>)
        requires
            self@.wf(),
        ensures
            fault == self@.line_fault(offset as int, base_coeff_pairs@, mul_coeffs@),
            fault is None <==> self@.accepts_line(offset as int, base_coeff_pairs@, mul_coeffs@),
    {
        if base_coeff_pairs.len() > VAR_COLUMNS {
            return Some(LayoutError::TooManyValues);
        }
        if mul_coeffs.len() > FIXED_COLUMNS - VAR_COLUMNS {
            return Some(LayoutError::TooManyCoefficients);
        }
        let rows = self.base_adv_record.len();
        if offset >= rows && offset > usize::MAX - BASE_EXTEND_SIZE {
            return Some(LayoutError::StepOutOfRange);
        }
        let base_rows = grow_to(rows, offset, BASE_EXTEND_SIZE);
        let range_rows = self.range_adv_record.len();
        let ghost grown = self@.cover_base(offset as int);
        let mut i: usize = 0;
        while i < base_coeff_pairs.len()
            invariant
                i <= base_coeff_pairs.len() <= VAR_COLUMNS,
                mul_coeffs.len() <= FIXED_COLUMNS - VAR_COLUMNS,
                offset >= self@.base_adv.len() ==> offset + BASE_EXTEND_SIZE <= usize::MAX,
                grown == self@.cover_base(offset as int),
                base_rows == grown.base_adv.len(),
                range_rows == grown.range_adv.len(),
                forall|k: int| 0 <= k < i ==> grown.has_source((#[trigger] base_coeff_pairs@[k]).0),
            decreases base_coeff_pairs.len() - i,
        {
            if !Self::source_in(&base_coeff_pairs[i].0, base_rows, range_rows) {
                assert(!grown.has_source(base_coeff_pairs@[i as int].0));
                return Some(LayoutError::UnknownCell);
            }
            i += 1;
        }
        None
    }

    /// Finds why a gate with a tail cannot be packed into row `offset`, if
    /// it cannot.
    pub fn line_with_last_fault(
        &self,
        offset: usize,
        base_coeff_pairs: &Vec<(ValueSchema<N>, N)>,
        tail: &ValueSchema<N>,
        mul_coeffs: &Vec<N>,
    ) -> (fault: Option<LayoutError>)
        requires
            self@.wf(),
        ensures
            fault == self@.line_with_last_fault(
                offset as int,
                base_coeff_pairs@,
                *tail,
                mul_coeffs@,
            ),
            fault is None <==> self@.accepts_line_with_last(
                offset as int,
                base_coeff_pairs@,
                *tail,
                mul_coeffs@,
            ),
    {
        if base_coeff_pairs.len() > VAR_COLUMNS - 1 {
            return Some(LayoutError::TooManyValues);
        }
        let fault = self.line_fault(offset, base_coeff_pairs, mul_coeffs);
        if fault.is_some() {
            return fault;
        }
        let base_rows = grow_to(self.base_adv_record.len(), offset, BASE_EXTEND_SIZE);
        if !Self::source_in(tail, base_rows, self.range_adv_record.len()) {
            return Some(LayoutError::UnknownCell);
        }
        None
    }

    /// Packs one gate into row `offset` as `one_line` does, or refuses it
    /// and leaves the ledger as it was.
    pub fn try_one_line(
        &mut self,
        offset: usize,
        base_coeff_pairs: Vec<(ValueSchema<N>, N)>,
        constant: Option<N>,
        mul_next_coeffs: (Vec<N>, Option<N>),
    ) -> (done: Result<(), LayoutError>)
        requires
            old(self)@.wf(),
        ensures
            final(self)@.wf(),
            base_coeff_pairs@.len() > VAR_COLUMNS ==> done == Err::<(), LayoutError>(
                LayoutError::TooManyValues,
            ) && *final(self) == *old(self),
            match old(self)@.line_fault(offset as int, base_coeff_pairs@, mul_next_coeffs.0@) {
                Some(fault) => done == Err::<(), LayoutError>(fault) && *final(self) == *old(self),
                None => done is Ok && final(self)@ == old(self)@.one_line(
                    offset as int,
                    base_coeff_pairs@,
                    constant,
                    mul_next_coeffs.0@,
                    mul_next_coeffs.1,
                ),
            },
    {
        match self.line_fault(offset, &base_coeff_pairs, &mul_next_coeffs.0) {
            Some(fault) => Err(fault),
            None => {
                self.one_line(offset, base_coeff_pairs, constant, mul_next_coeffs);
                Ok(())
            },
        }
    }

    /// Packs one gate with a tail into row `offset` as `one_line_with_last`
    /// does, or refuses it and leaves the ledger as it was.
    pub fn try_one_line_with_last(
        &mut self,
        offset: usize,
        base_coeff_pairs: Vec<(ValueSchema<N>, N)>,
        tail: (ValueSchema<N>, N),
        constant: Option<N>,
        mul_next_coeffs: (Vec<N>, Option<N>),
    ) -> (done: Result<(), LayoutError>)
        requires
            old(self)@.wf(),
        ensures
            final(self)@.wf(),
            base_coeff_pairs@.len() > VAR_COLUMNS - 1 ==> done == Err::<(), LayoutError>(
                LayoutError::TooManyValues,
            ) && *final(self) == *old(self),
            match old(self)@.line_with_last_fault(
                offset as int,
                base_coeff_pairs@,
                tail.0,
                mul_next_coeffs.0@,
            ) {
                Some(fault) => done == Err::<(), LayoutError>(fault) && *final(self) == *old(self),
                None => done is Ok && final(self)@ == old(self)@.one_line_with_last(
                    offset as int,
                    base_coeff_pairs@,
                    tail,
                    constant,
                    mul_next_coeffs.0@,
                    mul_next_coeffs.1,
                ),
            },
    {
        match self.line_with_last_fault(offset, &base_coeff_pairs, &tail.0, &mul_next_coeffs.0) {
            Some(fault) => Err(fault),
            None => {
                self.one_line_with_last(offset, base_coeff_pairs, tail, constant, mul_next_coeffs);
                Ok(())
            },
        }
    }
}

/// Placing no pair leaves the ledger as it is.
pub proof fn lemma_place_all_none<N>(ledger: Ledger<N>, step: int)
    requires
        ledger.wf(),
    ensures
        ledger.place_all(step, Seq::empty()) == ledger,
        forall|pairs: Seq<(ValueSchema<N>, N)>| #[trigger]
            pairs.take(0) == Seq::<(ValueSchema<N>, N)>::empty(),
{
    let none = Seq::<(ValueSchema<N>, N)>::empty();
    assert(copies(none, step) =~= Seq::empty());
    assert(ledger.place_all(step, none) =~~= ledger);
    assert forall|pairs: Seq<(ValueSchema<N>, N)>| #[trigger] pairs.take(0) == none by {
        assert(pairs.take(0) =~= none);
    }
}

/// Placing the first `i + 1` pairs is placing the first `i` and then pair `i`
/// in lane `i`.
pub proof fn lemma_place_all_step<N>(
    ledger: Ledger<N>,
    step: int,
    pairs: Seq<(ValueSchema<N>, N)>,
    i: int,
)
    requires
        ledger.wf(),
        0 <= step < ledger.base_adv.len(),
        0 <= i < pairs.len() <= VAR_COLUMNS,
        ledger.has_source(pairs[i].0),
    ensures
        ledger.place_all(step, pairs.take(i)).place(step, i, pairs[i].0, pairs[i].1)
            == ledger.place_all(step, pairs.take(i + 1)),
{
    let before = pairs.take(i);
    let after = pairs.take(i + 1);
    let source = pairs[i].0.spec_cell();
    assert(after.drop_last() =~= before);
    assert(after.last() == pairs[i]);
    assert forall|c: int, r: int|
        refers_to_base(after, c, r) == (refers_to_base(before, c, r) || source == Some(
            base_cell(c, r),
        )) by {
        if refers_to_base(before, c, r) {
            let k = choose|k: int|
                0 <= k < before.len() && (#[trigger] before[k]).0.spec_cell() == Some(
                    base_cell(c, r),
                );
            assert(after[k] == before[k]);
        }
        if source == Some(base_cell(c, r)) {
            assert(after[i] == pairs[i]);
        }
        if refers_to_base(after, c, r) {
            let k = choose|k: int|
                0 <= k < after.len() && (#[trigger] after[k]).0.spec_cell() == Some(
                    base_cell(c, r),
                );
            if k < i {
                assert(before[k] == after[k]);
            }
        }
    }
    assert forall|r: int|
        refers_to_range(after, r) == (refers_to_range(before, r) || range_source(source, r)) by {
        if refers_to_range(before, r) {
            let k = choose|k: int|
                0 <= k < before.len() && range_source((#[trigger] before[k]).0.spec_cell(), r);
            assert(after[k] == before[k]);
        }
        if range_source(source, r) {
            assert(after[i] == pairs[i]);
        }
        if refers_to_range(after, r) {
            let k = choose|k: int|
                0 <= k < after.len() && range_source((#[trigger] after[k]).0.spec_cell(), r);
            if k < i {
                assert(before[k] == after[k]);
            }
        }
    }
    let stepped = ledger.place_all(step, before).place(step, i, pairs[i].0, pairs[i].1);
    let whole = ledger.place_all(step, after);
    assert(stepped.permutations =~= whole.permutations);
    assert(stepped.range_adv =~= whole.range_adv);
    assert(stepped.base_fix =~~= whole.base_fix);
    assert(stepped.base_adv =~~= whole.base_adv);
}

} // verus!
