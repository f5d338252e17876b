//! What holds of the ledger whatever is requested of it.

use vstd::prelude::*;
use crate::assign::{Cell, Chip, ValueSchema};
use crate::error::LayoutError;
use crate::field::LaneValue;
use crate::layout::{
    BASE_EXTEND_SIZE, FIXED_COLUMNS, MAX_CHUNKS, MUL_COLUMNS, RANGE_EXTEND_SIZE, VAR_COLUMNS,
};
use crate::ledger::Ledger;
use crate::range::BlockMarkers;

verus! {

/// The fixed lanes of the base unit are the linear coefficients, the
/// product coefficients, the next-row coefficient and the constant.
pub proof fn lemma_fixed_lanes()
    ensures
        FIXED_COLUMNS == VAR_COLUMNS + MUL_COLUMNS + 1 + 1,
{
}

/// Growing the base unit's tables keeps the ledger well formed, keeps every
/// row that was there, and adds empty rows only.
pub proof fn lemma_cover_base<N>(ledger: Ledger<N>, step: int)
    requires
        ledger.wf(),
        0 <= step,
        step >= ledger.base_adv.len() ==> step + BASE_EXTEND_SIZE <= usize::MAX,
    ensures
        ledger.cover_base(step).wf(),
        step < ledger.cover_base(step).base_adv.len(),
        ledger.cover_base(step).base_adv.len() >= ledger.base_adv.len(),
        forall|r: int|
            0 <= r < ledger.base_adv.len() ==> #[trigger] ledger.cover_base(step).base_adv[r]
                == ledger.base_adv[r],
        forall|r: int|
            0 <= r < ledger.base_fix.len() ==> #[trigger] ledger.cover_base(step).base_fix[r]
                == ledger.base_fix[r],
{
    let len = ledger.base_adv.len() as int;
    let block = BASE_EXTEND_SIZE as int;
    if step >= len {
        assert((step / block + 1) * block > step && (step / block + 1) * block <= step + block)
            by (nonlinear_arith)
            requires
                block == 16,
                step >= 0,
        ;
    }
}

/// Growing the range unit's tables keeps the ledger well formed, keeps
/// every row that was there, and adds empty rows only.
pub proof fn lemma_cover_range<N>(ledger: Ledger<N>, step: int)
    requires
        ledger.wf(),
        ledger.accepts_range(step),
    ensures
        ledger.cover_range(step).wf(),
        step < ledger.cover_range(step).range_adv.len(),
        ledger.cover_range(step).range_adv.len() >= ledger.range_adv.len(),
        forall|r: int|
            0 <= r < ledger.range_adv.len() ==> #[trigger] ledger.cover_range(step).range_adv[r]
                == ledger.range_adv[r],
        forall|r: int|
            0 <= r < ledger.range_fix.len() ==> #[trigger] ledger.cover_range(step).range_fix[r]
                == ledger.range_fix[r],
{
    let len = ledger.range_adv.len() as int;
    let block = RANGE_EXTEND_SIZE as int;
    if step >= len {
        assert((step / block + 1) * block > step && (step / block + 1) * block <= step + block)
            by (nonlinear_arith)
            requires
                block == 1024,
                step >= 0,
        ;
    }
}

/// Packing a gate keeps the ledger well formed.
pub proof fn lemma_one_line_wf<N>(
    ledger: Ledger<N>,
    step: int,
    pairs: Seq<(ValueSchema<N>, N)>,
    constant: Option<N>,
    mul_coeffs: Seq<N>,
    next: Option<N>,
)
    requires
        ledger.wf(),
        ledger.accepts_line(step, pairs, mul_coeffs),
    ensures
        ledger.one_line(step, pairs, constant, mul_coeffs, next).wf(),
{
    lemma_cover_base(ledger, step);
}

/// Growth never shrinks or changes what was written: packing a gate into
/// row `step` leaves the tables at least as long as they were, and in every
/// other row each value and each coefficient stays what it was and each
/// mark that was set stays set. The range unit's values and markers stay
/// what they were, and the heights do not decrease.
pub proof fn lemma_one_line_keeps_other_rows<N>(
    ledger: Ledger<N>,
    step: int,
    pairs: Seq<(ValueSchema<N>, N)>,
    constant: Option<N>,
    mul_coeffs: Seq<N>,
    next: Option<N>,
)
    requires
        ledger.wf(),
        ledger.accepts_line(step, pairs, mul_coeffs),
    ensures
        ({
            let after = ledger.one_line(step, pairs, constant, mul_coeffs, next);
            &&& after.base_adv.len() >= ledger.base_adv.len()
            &&& after.base_fix.len() >= ledger.base_fix.len()
            &&& after.base_height >= ledger.base_height
            &&& after.range_height == ledger.range_height
            &&& after.range_fix == ledger.range_fix
            &&& after.range_adv.len() == ledger.range_adv.len()
            &&& forall|r: int, c: int|
                0 <= r < ledger.base_adv.len() && r != step && 0 <= c < VAR_COLUMNS ==> {
                    &&& (#[trigger] after.base_adv[r][c]).0 == ledger.base_adv[r][c].0
                    &&& ledger.base_adv[r][c].1 ==> after.base_adv[r][c].1
                }
            &&& forall|r: int|
                0 <= r < ledger.base_fix.len() && r != step ==> #[trigger] after.base_fix[r]
                    == ledger.base_fix[r]
            &&& forall|r: int|
                0 <= r < ledger.range_adv.len() ==> {
                    &&& (#[trigger] after.range_adv[r]).0 == ledger.range_adv[r].0
                    &&& ledger.range_adv[r].1 ==> after.range_adv[r].1
                }
        }),
{
    lemma_cover_base(ledger, step);
    let after = ledger.one_line(step, pairs, constant, mul_coeffs, next);
    assert forall|r: int| 0 <= r < ledger.base_fix.len() && r != step implies #[trigger] after.base_fix[r]
        == ledger.base_fix[r] by {
        assert(after.base_fix[r] =~= ledger.base_fix[r]);
    }
}

/// What was packed can be read back: after a gate is packed into row
/// `step`, witness lane `i` holds the value of pair `i` and fixed lane `i`
/// its coefficient; a constant that was given is in the constant's lane, a
/// next-row coefficient in its lane, and product coefficient `j` in the
/// fixed lane behind the linear coefficients, as far as the product lanes
/// go.
pub proof fn lemma_one_line_reads_back<N>(
    ledger: Ledger<N>,
    step: int,
    pairs: Seq<(ValueSchema<N>, N)>,
    constant: Option<N>,
    mul_coeffs: Seq<N>,
    next: Option<N>,
)
    requires
        ledger.wf(),
        ledger.accepts_line(step, pairs, mul_coeffs),
    ensures
        ({
            let after = ledger.one_line(step, pairs, constant, mul_coeffs, next);
            &&& step < after.base_height
            &&& forall|i: int|
                0 <= i < pairs.len() ==> {
                    &&& (#[trigger] after.base_adv[step][i]).0 == Some(pairs[i].0.spec_value())
                    &&& after.base_fix[step][i] == Some(pairs[i].1)
                }
            &&& forall|j: int|
                0 <= j < mul_coeffs.len() && j < MUL_COLUMNS ==> #[trigger] after.base_fix[step][VAR_COLUMNS
                    + j] == Some(mul_coeffs[j])
            &&& next is Some ==> after.base_fix[step][VAR_COLUMNS + MUL_COLUMNS] == next
            &&& constant is Some ==> after.base_fix[step][VAR_COLUMNS + MUL_COLUMNS + 1]
                == constant
        }),
{
    lemma_cover_base(ledger, step);
}

/// A row that was packed reads the same after a gate is packed into
/// another row: every value and every coefficient of row `first` is what
/// the first gate put there.
pub proof fn lemma_earlier_line_stays<N>(
    ledger: Ledger<N>,
    first: int,
    first_pairs: Seq<(ValueSchema<N>, N)>,
    first_constant: Option<N>,
    first_mul: Seq<N>,
    first_next: Option<N>,
    second: int,
    second_pairs: Seq<(ValueSchema<N>, N)>,
    second_constant: Option<N>,
    second_mul: Seq<N>,
    second_next: Option<N>,
)
    requires
        ledger.wf(),
        ledger.accepts_line(first, first_pairs, first_mul),
        first != second,
        ledger.one_line(first, first_pairs, first_constant, first_mul, first_next).accepts_line(
            second,
            second_pairs,
            second_mul,
        ),
    ensures
        ({
            let once = ledger.one_line(first, first_pairs, first_constant, first_mul, first_next);
            let twice = once.one_line(
                second,
                second_pairs,
                second_constant,
                second_mul,
                second_next,
            );
            &&& twice.base_fix[first] == once.base_fix[first]
            &&& forall|c: int|
                0 <= c < VAR_COLUMNS ==> (#[trigger] twice.base_adv[first][c]).0
                    == once.base_adv[first][c].0
            &&& forall|i: int|
                0 <= i < first_pairs.len() ==> (#[trigger] twice.base_adv[first][i]).0 == Some(
                    first_pairs[i].0.spec_value(),
                )
        }),
{
    let once = ledger.one_line(first, first_pairs, first_constant, first_mul, first_next);
    lemma_one_line_wf(ledger, first, first_pairs, first_constant, first_mul, first_next);
    lemma_one_line_reads_back(ledger, first, first_pairs, first_constant, first_mul, first_next);
    lemma_one_line_keeps_other_rows(
        once,
        second,
        second_pairs,
        second_constant,
        second_mul,
        second_next,
    );
}

/// Packing a gate with a tail keeps the ledger well formed.
pub proof fn lemma_one_line_with_last_wf<N>(
    ledger: Ledger<N>,
    step: int,
    pairs: Seq<(ValueSchema<N>, N)>,
    tail: (ValueSchema<N>, N),
    constant: Option<N>,
    mul_coeffs: Seq<N>,
    next: Option<N>,
)
    requires
        ledger.wf(),
        ledger.accepts_line_with_last(step, pairs, tail.0, mul_coeffs),
    ensures
        ledger.one_line_with_last(step, pairs, tail, constant, mul_coeffs, next).wf(),
        ledger.one_line_with_last(step, pairs, tail, constant, mul_coeffs, next).base_height
            == ledger.one_line(step, pairs, constant, mul_coeffs, next).base_height,
        ledger.one_line_with_last(step, pairs, tail, constant, mul_coeffs, next).range_height
            == ledger.range_height,
{
    lemma_cover_base(ledger, step);
}

/// Placing a single range value keeps the ledger well formed.
pub proof fn lemma_single_range_value_wf<N>(ledger: Ledger<N>, step: int, value: N, class: N)
    requires
        ledger.wf(),
        ledger.accepts_range(step),
    ensures
        ledger.place_single(step, value, class).wf(),
{
    lemma_cover_range(ledger, step);
}

/// Laying out a decomposition keeps the ledger well formed.
pub proof fn lemma_range_value_wf<N>(
    ledger: Ledger<N>,
    step: int,
    value: N,
    chunks: Seq<N>,
    markers: BlockMarkers<N>,
)
    requires
        ledger.wf(),
        ledger.accepts_chunks(step, chunks.len() as int),
    ensures
        ledger.place_block(step, value, chunks, markers).wf(),
{
    lemma_cover_range(ledger, step + MAX_CHUNKS);
}

/// A request to the ledger.
pub enum Request<N> {
    /// `enable_permute`.
    Mark { cell: Cell },
    /// `one_line`.
    Line {
        step: int,
        pairs: Seq<(ValueSchema<N>, N)>,
        constant: Option<N>,
        mul_coeffs: Seq<N>,
        next: Option<N>,
    },
    /// `one_line_with_last`.
    LineWithLast {
        step: int,
        pairs: Seq<(ValueSchema<N>, N)>,
        tail: (ValueSchema<N>, N),
        constant: Option<N>,
        mul_coeffs: Seq<N>,
        next: Option<N>,
    },
    /// `assign_single_range_value`.
    Single { step: int, value: N, leading_bits: u64 },
    /// `assign_range_value`.
    Chunks { step: int, value: N, chunks: Seq<N>, leading_bits: u64 },
}

impl<N> Request<N> {
    /// The highest step of the base unit that the request writes, or -1.
    pub open spec fn base_step(self) -> int {
        match self {
            Request::Line { step, .. } => step,
            Request::LineWithLast { step, .. } => step,
            _ => -1,
        }
    }

    /// The highest step of the range unit that the request writes, or -1.
    /// A decomposition writes its block up to the step of the closing
    /// marker.
    pub open spec fn range_step(self) -> int {
        match self {
            Request::Single { step, .. } => step,
            Request::Chunks { step, .. } => step + MAX_CHUNKS,
            _ => -1,
        }
    }
}

impl<N: LaneValue> Ledger<N> {
    /// Whether the ledger can carry out `request`.
    pub open spec fn accepts(self, request: Request<N>) -> bool {
        match request {
            Request::Mark { cell } => self.allocated(cell),
            Request::Line { step, pairs, mul_coeffs, .. } => self.accepts_line(
                step,
                pairs,
                mul_coeffs,
            ),
            Request::LineWithLast { step, pairs, tail, mul_coeffs, .. } => self.accepts_line_with_last(
                step,
                pairs,
                tail.0,
                mul_coeffs,
            ),
            Request::Single { step, .. } => self.accepts_range(step),
            Request::Chunks { step, chunks, .. } => self.accepts_chunks(step, chunks.len() as int),
        }
    }

    /// What `request` makes of the ledger.
    pub open spec fn apply(self, request: Request<N>) -> Self {
        match request {
            Request::Mark { cell } => self.enable_permute(cell),
            Request::Line { step, pairs, constant, mul_coeffs, next } => self.one_line(
                step,
                pairs,
                constant,
                mul_coeffs,
                next,
            ),
            Request::LineWithLast {
                step,
                pairs,
                tail,
                constant,
                mul_coeffs,
                next,
            } => self.one_line_with_last(step, pairs, tail, constant, mul_coeffs, next),
            Request::Single { step, value, leading_bits } => self.assign_single_range_value(
                step,
                value,
                leading_bits,
            ),
            Request::Chunks { step, value, chunks, leading_bits } => self.assign_range_value(
                step,
                value,
                chunks,
                leading_bits,
            ),
        }
    }

    /// The ledger after `requests`, made in order of an empty ledger.
    pub open spec fn run(requests: Seq<Request<N>>) -> Self
        decreases requests.len(),
    {
        if requests.len() == 0 {
            Ledger::empty()
        } else {
            Self::run(requests.drop_last()).apply(requests.last())
        }
    }

    /// Whether each of `requests`, made in order of an empty ledger, can
    /// be carried out when its turn comes.
    pub open spec fn runs(requests: Seq<Request<N>>) -> bool
        decreases requests.len(),
    {
        if requests.len() == 0 {
            true
        } else {
            Self::runs(requests.drop_last()) && Self::run(requests.drop_last()).accepts(
                requests.last(),
            )
        }
    }
}

/// The highest step of the base unit that any of `requests` writes, or -1.
pub open spec fn highest_base_step<N>(requests: Seq<Request<N>>) -> int
    decreases requests.len(),
{
    if requests.len() == 0 {
        -1
    } else {
        let before = highest_base_step(requests.drop_last());
        if requests.last().base_step() > before {
            requests.last().base_step()
        } else {
            before
        }
    }
}

/// The highest step of the range unit that any of `requests` writes, or -1.
pub open spec fn highest_range_step<N>(requests: Seq<Request<N>>) -> int
    decreases requests.len(),
{
    if requests.len() == 0 {
        -1
    } else {
        let before = highest_range_step(requests.drop_last());
        if requests.last().range_step() > before {
            requests.last().range_step()
        } else {
            before
        }
    }
}

/// A request that the ledger can carry out keeps it well formed, and
/// raises the height of each unit to one more than the highest step of
/// the unit that it writes, where that is more than the height was.
pub proof fn lemma_apply<N: LaneValue>(ledger: Ledger<N>, request: Request<N>)
    requires
        ledger.wf(),
        ledger.accepts(request),
    ensures
        ledger.apply(request).wf(),
        ledger.apply(request).base_height == (if request.base_step() >= ledger.base_height {
            request.base_step() + 1
        } else {
            ledger.base_height as int
        }),
        ledger.apply(request).range_height == (if request.range_step() >= ledger.range_height {
            request.range_step() + 1
        } else {
            ledger.range_height as int
        }),
{
    match request {
        Request::Mark { cell } => {},
        Request::Line { step, pairs, constant, mul_coeffs, next } => {
            lemma_one_line_wf(ledger, step, pairs, constant, mul_coeffs, next);
        },
        Request::LineWithLast { step, pairs, tail, constant, mul_coeffs, next } => {
            lemma_one_line_with_last_wf(ledger, step, pairs, tail, constant, mul_coeffs, next);
        },
        Request::Single { step, value, leading_bits } => {
            lemma_single_range_value_wf(ledger, step, value, N::spec_from_u64(leading_bits));
        },
        Request::Chunks { step, value, chunks, leading_bits } => {
            lemma_range_value_wf(ledger, step, value, chunks, BlockMarkers::spec_of(leading_bits));
        },
    }
}

/// The height of each unit is one more than the highest step of the unit
/// that was ever written, and 0 where none was.
pub proof fn lemma_heights<N: LaneValue>(requests: Seq<Request<N>>)
    requires
        Ledger::runs(requests),
    ensures
        Ledger::run(requests).wf(),
        Ledger::run(requests).base_height == highest_base_step(requests) + 1,
        Ledger::run(requests).range_height == highest_range_step(requests) + 1,
    decreases requests.len(),
{
    if requests.len() > 0 {
        lemma_heights(requests.drop_last());
        lemma_apply(Ledger::run(requests.drop_last()), requests.last());
    }
}

/// The heights never decrease: after more requests each is at least what
/// it was after the first `k` of them.
pub proof fn lemma_heights_never_decrease<N: LaneValue>(requests: Seq<Request<N>>, k: int)
    requires
        Ledger::runs(requests),
        0 <= k <= requests.len(),
    ensures
        Ledger::<N>::runs(requests.take(k)),
        Ledger::run(requests.take(k)).base_height <= Ledger::run(requests).base_height,
        Ledger::run(requests.take(k)).range_height <= Ledger::run(requests).range_height,
    decreases requests.len() - k,
{
    if k == requests.len() {
        assert(requests.take(k) =~= requests);
    } else {
        let shorter = requests.drop_last();
        lemma_heights_never_decrease(shorter, k);
        assert(shorter.take(k) =~= requests.take(k));
        lemma_heights(shorter);
        lemma_apply(Ledger::run(shorter), requests.last());
    }
}

/// A gate with more values than there are witness lanes is refused,
/// whatever else it holds and whatever the ledger holds.
pub proof fn lemma_too_many_values_refused<N>(
    ledger: Ledger<N>,
    step: int,
    pairs: Seq<(ValueSchema<N>, N)>,
    tail: ValueSchema<N>,
    mul_coeffs: Seq<N>,
)
    ensures
        pairs.len() > VAR_COLUMNS ==> ledger.line_fault(step, pairs, mul_coeffs) == Some(
            LayoutError::TooManyValues,
        ) && !ledger.accepts_line(step, pairs, mul_coeffs),
        pairs.len() > VAR_COLUMNS - 1 ==> ledger.line_with_last_fault(
            step,
            pairs,
            tail,
            mul_coeffs,
        ) == Some(LayoutError::TooManyValues) && !ledger.accepts_line_with_last(
            step,
            pairs,
            tail,
            mul_coeffs,
        ),
{
}

/// A mark is never taken back: a cell that is marked stays marked under
/// every request, and keeps its place in the tables.
pub proof fn lemma_marks_stay<N: LaneValue>(ledger: Ledger<N>, request: Request<N>, cell: Cell)
    requires
        ledger.wf(),
        ledger.accepts(request),
        ledger.allocated(cell),
        ledger.marked(cell),
    ensures
        ledger.apply(request).allocated(cell),
        ledger.apply(request).marked(cell),
{
    let r = cell.row as int;
    match request {
        Request::Mark { cell: other } => {},
        Request::Line { step, pairs, constant, mul_coeffs, next } => {
            lemma_cover_base(ledger, step);
            if cell.region == Chip::BaseChip {
                assert(ledger.cover_base(step).base_adv[r] == ledger.base_adv[r]);
            } else {
                assert(ledger.cover_base(step).range_adv[r] == ledger.range_adv[r]);
            }
        },
        Request::LineWithLast { step, pairs, tail, constant, mul_coeffs, next } => {
            lemma_cover_base(ledger, step);
            if cell.region == Chip::BaseChip {
                assert(ledger.cover_base(step).base_adv[r] == ledger.base_adv[r]);
            } else {
                assert(ledger.cover_base(step).range_adv[r] == ledger.range_adv[r]);
            }
        },
        Request::Single { step, value, leading_bits } => {
            lemma_cover_range(ledger, step);
            if cell.region == Chip::RangeChip {
                assert(ledger.cover_range(step).range_adv[r] == ledger.range_adv[r]);
            }
        },
        Request::Chunks { step, value, chunks, leading_bits } => {
            lemma_cover_range(ledger, step + MAX_CHUNKS);
            if cell.region == Chip::RangeChip {
                assert(ledger.cover_range(step + MAX_CHUNKS).range_adv[r] == ledger.range_adv[r]);
            }
        },
    }
}

} // verus!
