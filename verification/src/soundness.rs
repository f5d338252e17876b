//! Copy constraints join cells that hold the same value.

use vstd::prelude::*;
use crate::assign::{Cell, Chip, ValueSchema};
use crate::field::LaneValue;
use crate::laws::{
    lemma_cover_base, lemma_cover_range, lemma_heights, lemma_one_line_wf, Request,
};
use crate::layout::{MAX_CHUNKS, VAR_COLUMNS};
use crate::ledger::{base_cell, copies, range_source, refers_to_base, refers_to_range, Ledger};
use crate::range::BlockMarkers;

verus! {

impl<N> Ledger<N> {
    /// Whether a value was placed in `cell`, below the height of its unit.
    pub open spec fn placed(self, cell: Cell) -> bool {
        match cell.region {
            Chip::BaseChip => {
                &&& cell.col < VAR_COLUMNS
                &&& cell.row < self.base_height
                &&& self.base_adv[cell.row as int][cell.col as int].0 is Some
            },
            Chip::RangeChip => {
                &&& cell.col == 0
                &&& cell.row < self.range_height
                &&& self.range_adv[cell.row as int].0 is Some
            },
        }
    }

    /// Whether `value` is what the ledger holds: it has no cell, or its
    /// cell was placed and holds the value that it carries.
    pub open spec fn honours(self, value: ValueSchema<N>) -> bool {
        match value {
            ValueSchema::Assigned(assigned) => self.placed(assigned.cell) && self.value_at(
                assigned.cell,
            ) == Some(assigned.val),
            ValueSchema::Unassigned(_) => true,
        }
    }

    /// Whether copy constraint `k` joins two cells whose handles are kept
    /// and which hold the same value.
    pub open spec fn copy_sound(self, k: int) -> bool {
        &&& self.resolves(k)
        &&& self.value_at(self.permutations[k].0) == self.value_at(self.permutations[k].1)
    }

    /// Whether every pending copy constraint joins two cells whose handles
    /// are kept and which hold the same value.
    pub open spec fn copies_sound(self) -> bool {
        forall|k: int| 0 <= k < self.permutations.len() ==> #[trigger] self.copy_sound(k)
    }

    /// Whether nothing was placed yet in the first `lanes` witness lanes of
    /// row `step` of the base unit.
    pub open spec fn vacant_base(self, step: int, lanes: int) -> bool {
        forall|c: int|
            0 <= c < lanes && step < self.base_adv.len() ==> (#[trigger] self.base_adv[step][c]).0
                is None
    }

    /// Whether nothing was placed yet in the range unit from `first` to
    /// `last`.
    pub open spec fn vacant_range(self, first: int, last: int) -> bool {
        forall|r: int|
            first <= r <= last && r < self.range_adv.len() ==> (#[trigger] self.range_adv[r]).0
                is None
    }
}

/// Every copy constraint that placing `pairs` at `step` asks for joins the
/// cell that some pair is copied from with the cell of that pair's lane.
pub proof fn lemma_copies_members<N>(pairs: Seq<(ValueSchema<N>, N)>, step: int, k: int)
    requires
        0 <= k < copies(pairs, step).len(),
    ensures
        exists|i: int|
            0 <= i < pairs.len() && (#[trigger] pairs[i]).0.spec_cell() == Some(
                copies(pairs, step)[k].0,
            ) && copies(pairs, step)[k].1 == base_cell(i, step),
    decreases pairs.len(),
{
    if pairs.len() > 0 {
        let shorter = pairs.drop_last();
        let before = copies(shorter, step);
        if k < before.len() {
            lemma_copies_members(shorter, step, k);
            let i = choose|i: int|
                0 <= i < shorter.len() && (#[trigger] shorter[i]).0.spec_cell() == Some(
                    before[k].0,
                ) && before[k].1 == base_cell(i, step);
            assert(pairs[i] == shorter[i]);
            assert(copies(pairs, step)[k] == before[k]);
        } else {
            let i = pairs.len() - 1;
            assert(pairs[i] == pairs.last());
        }
    }
}

/// Packing a gate keeps the copy constraints sound, where each of its
/// values is what the ledger holds and the lanes that it writes were
/// vacant.
pub proof fn lemma_one_line_keeps_copies_sound<N>(
    ledger: Ledger<N>,
    step: int,
    pairs: Seq<(ValueSchema<N>, N)>,
    constant: Option<N>,
    mul_coeffs: Seq<N>,
    next: Option<N>,
)
    requires
        ledger.wf(),
        ledger.accepts_line(step, pairs, mul_coeffs),
        ledger.copies_sound(),
        ledger.vacant_base(step, pairs.len() as int),
        forall|i: int| 0 <= i < pairs.len() ==> ledger.honours((#[trigger] pairs[i]).0),
    ensures
        ledger.one_line(step, pairs, constant, mul_coeffs, next).copies_sound(),
{
    lemma_cover_base(ledger, step);
    let grown = ledger.cover_base(step);
    let after = ledger.one_line(step, pairs, constant, mul_coeffs, next);
    assert(after.base_adv == grown.place_all(step, pairs).base_adv);
    assert(after.range_adv == grown.place_all(step, pairs).range_adv);
    assert forall|cell: Cell| ledger.placed(cell) implies after.placed(cell) && after.value_at(cell)
        == ledger.value_at(cell) && (ledger.marked(cell) ==> after.marked(cell)) by {
        lemma_placed_survives_line(ledger, step, pairs, constant, mul_coeffs, next, cell);
    }
    assert forall|k: int| 0 <= k < after.permutations.len() implies #[trigger] after.copy_sound(
        k,
    ) by {
        let old_len = ledger.permutations.len() as int;
        if k < old_len {
            assert(after.permutations[k] == ledger.permutations[k]);
            assert(ledger.copy_sound(k));
        } else {
            let j = k - old_len;
            assert(after.permutations[k] == copies(pairs, step)[j]);
            lemma_copies_members(pairs, step, j);
            let i = choose|i: int|
                0 <= i < pairs.len() && (#[trigger] pairs[i]).0.spec_cell() == Some(
                    copies(pairs, step)[j].0,
                ) && copies(pairs, step)[j].1 == base_cell(i, step);
            let source = after.permutations[k].0;
            let target = after.permutations[k].1;
            assert(ledger.honours(pairs[i].0));
            assert(ledger.placed(source));
            assert(after.placed(source));
            assert(after.value_at(source) == Some(pairs[i].0.spec_value()));
            match source.region {
                Chip::BaseChip => {
                    assert(base_cell(source.col as int, source.row as int) == source);
                    assert(refers_to_base(pairs, source.col as int, source.row as int));
                },
                Chip::RangeChip => {
                    assert(range_source(pairs[i].0.spec_cell(), source.row as int));
                    assert(refers_to_range(pairs, source.row as int));
                },
            }
            assert(after.kept(source));
            assert(after.kept(target));
        }
    }
}

/// A cell in which a value was placed stays placed, with its value and
/// with its mark if it had one, when a gate is packed into lanes that were
/// vacant.
pub proof fn lemma_placed_survives_line<N>(
    ledger: Ledger<N>,
    step: int,
    pairs: Seq<(ValueSchema<N>, N)>,
    constant: Option<N>,
    mul_coeffs: Seq<N>,
    next: Option<N>,
    cell: Cell,
)
    requires
        ledger.wf(),
        ledger.accepts_line(step, pairs, mul_coeffs),
        ledger.vacant_base(step, pairs.len() as int),
        ledger.placed(cell),
    ensures
        ledger.one_line(step, pairs, constant, mul_coeffs, next).placed(cell),
        ledger.one_line(step, pairs, constant, mul_coeffs, next).value_at(cell) == ledger.value_at(
            cell,
        ),
        ledger.marked(cell) ==> ledger.one_line(step, pairs, constant, mul_coeffs, next).marked(
            cell,
        ),
{
    lemma_cover_base(ledger, step);
    let grown = ledger.cover_base(step);
    let after = ledger.one_line(step, pairs, constant, mul_coeffs, next);
    assert(after.base_adv == grown.place_all(step, pairs).base_adv);
    assert(after.range_adv == grown.place_all(step, pairs).range_adv);
    match cell.region {
        Chip::BaseChip => {
            let r = cell.row as int;
            let c = cell.col as int;
            assert(grown.base_adv[r] == ledger.base_adv[r]);
            if r == step && c < pairs.len() {
                assert(ledger.base_adv[step][c].0 is None);
            }
        },
        Chip::RangeChip => {
            let r = cell.row as int;
            assert(grown.range_adv[r] == ledger.range_adv[r]);
        },
    }
}

/// Placing one value keeps the copy constraints sound, where the value is
/// what the ledger holds and its slot, below the height, was vacant.
pub proof fn lemma_place_keeps_copies_sound<N>(
    ledger: Ledger<N>,
    step: int,
    lane: int,
    value: ValueSchema<N>,
    coeff: N,
)
    requires
        ledger.wf(),
        0 <= step < ledger.base_height,
        0 <= lane < VAR_COLUMNS,
        ledger.base_adv[step][lane].0 is None,
        ledger.honours(value),
        ledger.copies_sound(),
    ensures
        ledger.place(step, lane, value, coeff).copies_sound(),
        ledger.place(step, lane, value, coeff).wf(),
{
    let after = ledger.place(step, lane, value, coeff);
    let target = base_cell(lane, step);
    assert forall|cell: Cell| ledger.placed(cell) implies after.placed(cell) && after.value_at(cell)
        == ledger.value_at(cell) && (ledger.marked(cell) ==> after.marked(cell)) by {}
    assert forall|k: int| 0 <= k < after.permutations.len() implies #[trigger] after.copy_sound(
        k,
    ) by {
        if k < ledger.permutations.len() {
            assert(after.permutations[k] == ledger.permutations[k]);
            assert(ledger.copy_sound(k));
        } else {
            let source = value.spec_cell()->Some_0;
            assert(after.permutations[k] == (source, target));
            assert(ledger.placed(source));
            assert(after.kept(source));
            assert(after.kept(target));
        }
    }
}

/// Packing a gate with a tail keeps the copy constraints sound, where
/// each of its values and the tail are what the ledger holds and the lanes
/// that it writes were vacant.
pub proof fn lemma_one_line_with_last_keeps_copies_sound<N>(
    ledger: Ledger<N>,
    step: int,
    pairs: Seq<(ValueSchema<N>, N)>,
    tail: (ValueSchema<N>, N),
    constant: Option<N>,
    mul_coeffs: Seq<N>,
    next: Option<N>,
)
    requires
        ledger.wf(),
        ledger.accepts_line_with_last(step, pairs, tail.0, mul_coeffs),
        ledger.copies_sound(),
        ledger.vacant_base(step, pairs.len() as int),
        step < ledger.base_adv.len() ==> ledger.base_adv[step][VAR_COLUMNS - 1].0 is None,
        forall|i: int| 0 <= i < pairs.len() ==> ledger.honours((#[trigger] pairs[i]).0),
        ledger.honours(tail.0),
    ensures
        ledger.one_line_with_last(step, pairs, tail, constant, mul_coeffs, next).copies_sound(),
{
    lemma_cover_base(ledger, step);
    lemma_one_line_wf(ledger, step, pairs, constant, mul_coeffs, next);
    lemma_one_line_keeps_copies_sound(ledger, step, pairs, constant, mul_coeffs, next);
    let grown = ledger.cover_base(step);
    let packed = ledger.one_line(step, pairs, constant, mul_coeffs, next);
    assert(packed.base_adv == grown.place_all(step, pairs).base_adv);
    match tail.0.spec_cell() {
        Some(source) => {
            lemma_placed_survives_line(ledger, step, pairs, constant, mul_coeffs, next, source);
        },
        None => {},
    }
    if step < ledger.base_adv.len() {
        assert(grown.base_adv[step] == ledger.base_adv[step]);
    }
    lemma_place_keeps_copies_sound(packed, step, VAR_COLUMNS - 1, tail.0, tail.1);
}

/// Placing a single range value keeps the copy constraints sound, where
/// its step was vacant.
pub proof fn lemma_single_range_value_keeps_copies_sound<N>(
    ledger: Ledger<N>,
    step: int,
    value: N,
    class: N,
)
    requires
        ledger.wf(),
        ledger.accepts_range(step),
        ledger.copies_sound(),
        ledger.vacant_range(step, step),
    ensures
        ledger.place_single(step, value, class).copies_sound(),
{
    lemma_cover_range(ledger, step);
    let grown = ledger.cover_range(step);
    let after = ledger.place_single(step, value, class);
    assert forall|cell: Cell| ledger.placed(cell) implies after.placed(cell) && after.value_at(cell)
        == ledger.value_at(cell) && (ledger.marked(cell) ==> after.marked(cell)) by {
        if cell.region == Chip::RangeChip {
            assert(grown.range_adv[cell.row as int] == ledger.range_adv[cell.row as int]);
        }
    }
    assert forall|k: int| 0 <= k < after.permutations.len() implies #[trigger] after.copy_sound(
        k,
    ) by {
        assert(ledger.copy_sound(k));
    }
}

/// Laying out a decomposition keeps the copy constraints sound, where the
/// steps of the composite value and of its limbs were vacant.
pub proof fn lemma_range_value_keeps_copies_sound<N>(
    ledger: Ledger<N>,
    step: int,
    value: N,
    chunks: Seq<N>,
    markers: BlockMarkers<N>,
)
    requires
        ledger.wf(),
        ledger.accepts_chunks(step, chunks.len() as int),
        ledger.copies_sound(),
        ledger.vacant_range(step, step + chunks.len()),
    ensures
        ledger.place_block(step, value, chunks, markers).copies_sound(),
{
    lemma_cover_range(ledger, step + MAX_CHUNKS);
    let grown = ledger.cover_range(step + MAX_CHUNKS);
    let after = ledger.place_block(step, value, chunks, markers);
    assert forall|cell: Cell| ledger.placed(cell) implies after.placed(cell) && after.value_at(cell)
        == ledger.value_at(cell) && (ledger.marked(cell) ==> after.marked(cell)) by {
        if cell.region == Chip::RangeChip {
            assert(grown.range_adv[cell.row as int] == ledger.range_adv[cell.row as int]);
        }
    }
    assert forall|k: int| 0 <= k < after.permutations.len() implies #[trigger] after.copy_sound(
        k,
    ) by {
        assert(ledger.copy_sound(k));
    }
}

impl<N: LaneValue> Ledger<N> {
    /// Whether `request` keeps to the discipline under which the copy
    /// constraints stay sound: it writes witness values to vacant slots
    /// only, and every value that it copies is what the ledger holds.
    pub open spec fn orderly(self, request: Request<N>) -> bool {
        match request {
            Request::Mark { .. } => true,
            Request::Line { step, pairs, .. } => {
                &&& self.vacant_base(step, pairs.len() as int)
                &&& forall|i: int| 0 <= i < pairs.len() ==> self.honours((#[trigger] pairs[i]).0)
            },
            Request::LineWithLast { step, pairs, tail, .. } => {
                &&& self.vacant_base(step, pairs.len() as int)
                &&& step < self.base_adv.len() ==> self.base_adv[step][VAR_COLUMNS - 1].0 is None
                &&& forall|i: int| 0 <= i < pairs.len() ==> self.honours((#[trigger] pairs[i]).0)
                &&& self.honours(tail.0)
            },
            Request::Single { step, .. } => self.vacant_range(step, step),
            Request::Chunks { step, chunks, .. } => self.vacant_range(step, step + chunks.len()),
        }
    }

    /// Whether each of `requests`, made in order of an empty ledger, keeps
    /// to the discipline when its turn comes.
    pub open spec fn orderly_run(requests: Seq<Request<N>>) -> bool
        decreases requests.len(),
    {
        if requests.len() == 0 {
            true
        } else {
            Self::orderly_run(requests.drop_last()) && Self::run(requests.drop_last()).orderly(
                requests.last(),
            )
        }
    }
}

/// A request that keeps to the discipline keeps the copy constraints
/// sound.
pub proof fn lemma_orderly_request_keeps_copies_sound<N: LaneValue>(ledger: Ledger<N>, request: Request<N>)
    requires
        ledger.wf(),
        ledger.accepts(request),
        ledger.orderly(request),
        ledger.copies_sound(),
    ensures
        ledger.apply(request).copies_sound(),
{
    match request {
        Request::Mark { cell } => {
            let after = ledger.enable_permute(cell);
            assert forall|k: int| 0 <= k < after.permutations.len() implies #[trigger] after.copy_sound(
            k) by {
                assert(ledger.copy_sound(k));
            }
        },
        Request::Line { step, pairs, constant, mul_coeffs, next } => {
            lemma_one_line_keeps_copies_sound(ledger, step, pairs, constant, mul_coeffs, next);
        },
        Request::LineWithLast { step, pairs, tail, constant, mul_coeffs, next } => {
            lemma_one_line_with_last_keeps_copies_sound(
                ledger,
                step,
                pairs,
                tail,
                constant,
                mul_coeffs,
                next,
            );
        },
        Request::Single { step, value, leading_bits } => {
            lemma_single_range_value_keeps_copies_sound(
                ledger,
                step,
                value,
                N::spec_from_u64(leading_bits),
            );
        },
        Request::Chunks { step, value, chunks, leading_bits } => {
            lemma_range_value_keeps_copies_sound(
                ledger,
                step,
                value,
                chunks,
                BlockMarkers::spec_of(leading_bits),
            );
        },
    }
}

/// After any requests that keep to the discipline, every pending copy
/// constraint joins two cells whose handles are kept and which hold the
/// same value.
pub proof fn lemma_copies_sound<N: LaneValue>(requests: Seq<Request<N>>)
    requires
        Ledger::runs(requests),
        Ledger::orderly_run(requests),
    ensures
        Ledger::run(requests).copies_sound(),
        Ledger::run(requests).resolvable(),
    decreases requests.len(),
{
    if requests.len() > 0 {
        let shorter = requests.drop_last();
        lemma_copies_sound(shorter);
        lemma_heights(shorter);
        lemma_orderly_request_keeps_copies_sound(Ledger::run(shorter), requests.last());
    }
    let after = Ledger::run(requests);
    assert forall|k: int| 0 <= k < after.permutations.len() implies #[trigger] after.resolves(
        k,
    ) by {
        assert(after.copy_sound(k));
    }
}

} // verus!
