//! Blocks of the range unit and the decompositions they record.

use vstd::prelude::*;
use vstd::arithmetic::power2::{lemma_pow2_adds, lemma_pow2_pos, pow2};
use crate::field::LaneValue;
use crate::laws::lemma_cover_range;
use crate::layout::{COMMON_RANGE_BITS, MAX_CHUNKS};
use crate::ledger::Ledger;
use crate::range::BlockMarkers;

verus! {

/// The number that `limbs` stand for, the least significant limb first and
/// each limb `width` bits above the one before.
pub open spec fn recompose(limbs: Seq<nat>, width: nat) -> nat
    decreases limbs.len(),
{
    if limbs.len() == 0 {
        0
    } else {
        limbs[0] + pow2(width) * recompose(limbs.drop_first(), width)
    }
}

/// Whether `limbs` are a decomposition of `value`: every limb but the last
/// is below `2^width`, the last is below `2^leading_bits`, and together
/// they stand for `value`.
pub open spec fn decomposes(value: nat, limbs: Seq<nat>, width: nat, leading_bits: nat) -> bool {
    &&& limbs.len() >= 1
    &&& forall|i: int| 0 <= i < limbs.len() - 1 ==> limbs[i] < pow2(width)
    &&& limbs.last() < pow2(leading_bits)
    &&& value == recompose(limbs, width)
}

impl<N> Ledger<N> {
    /// The composite value of the block that starts at `step`.
    pub open spec fn block_value(self, step: int) -> N {
        self.range_adv[step].0->Some_0
    }

    /// The limbs of the block that starts at `step`, of which there are
    /// `limbs`.
    pub open spec fn block_limbs(self, step: int, limbs: nat) -> Seq<N> {
        Seq::new(limbs, |i: int| self.range_adv[step + 1 + i].0->Some_0)
    }

    /// Whether the rows from `step` on are laid out as a block of `limbs`
    /// limbs with `markers`: the composite value and every limb are
    /// placed, the step `step` has the marker of a block's first step, the
    /// class marker of every limb but the last is the marker of the common
    /// width, that of the last limb is the marker of its own width, and
    /// the step `step + MAX_CHUNKS` has the marker of a block's last step.
    pub open spec fn is_block(self, step: int, limbs: int, markers: BlockMarkers<N>) -> bool {
        &&& self.range_adv[step].0 is Some
        &&& forall|i: int| 0 <= i < limbs ==> (#[trigger] self.range_adv[step + 1 + i]).0 is Some
        &&& self.range_fix[step][0] == Some(markers.first)
        &&& forall|i: int|
            0 <= i < limbs - 1 ==> (#[trigger] self.range_fix[step + 1 + i])[1] == Some(
                markers.common,
            )
        &&& self.range_fix[step + limbs][1] == Some(markers.leading)
        &&& self.range_fix[step + MAX_CHUNKS][0] == Some(markers.last)
    }
}

/// Laying out a decomposition makes a block of it: the rows from `step` on
/// are a block with as many limbs as were given, its composite value and
/// its limbs are the ones that were given, and the whole block up to its
/// last step lies below the unit's height. The marker of the last step is
/// written at `step + MAX_CHUNKS` however many limbs there are.
pub proof fn lemma_range_value_block<N>(
    ledger: Ledger<N>,
    step: int,
    value: N,
    chunks: Seq<N>,
    markers: BlockMarkers<N>,
)
    requires
        ledger.wf(),
        ledger.accepts_chunks(step, chunks.len() as int),
    ensures
        ({
            let after = ledger.place_block(step, value, chunks, markers);
            &&& after.is_block(step, chunks.len() as int, markers)
            &&& after.block_value(step) == value
            &&& after.block_limbs(step, chunks.len()) == chunks
            &&& after.range_fix[step + MAX_CHUNKS][0] == Some(markers.last)
            &&& step + MAX_CHUNKS < after.range_height
        }),
{
    lemma_cover_range(ledger, step + MAX_CHUNKS);
    let after = ledger.place_block(step, value, chunks, markers);
    assert(after.block_limbs(step, chunks.len()) =~= chunks);
}

/// The block records the decomposition that was laid out: however the
/// values are read as numbers, where the limbs that were given are a
/// decomposition of the value that was given, with the common width and
/// `leading_bits`, the limbs of the block are a decomposition of the
/// block's composite value with the same widths, and the block's class
/// markers are the values that stand for these widths.
pub proof fn lemma_block_recomposes<N: LaneValue>(
    ledger: Ledger<N>,
    step: int,
    value: N,
    chunks: Seq<N>,
    leading_bits: u64,
    reading: spec_fn(N) -> nat,
)
    requires
        ledger.wf(),
        ledger.accepts_chunks(step, chunks.len() as int),
        decomposes(
            reading(value),
            chunks.map_values(reading),
            COMMON_RANGE_BITS as nat,
            leading_bits as nat,
        ),
    ensures
        ({
            let after = ledger.assign_range_value(step, value, chunks, leading_bits);
            let limbs = chunks.len() as int;
            &&& after.is_block(step, limbs, BlockMarkers::spec_of(leading_bits))
            &&& limbs > 1 ==> after.range_fix[step + 1][1] == Some(
                N::spec_from_u64(COMMON_RANGE_BITS),
            )
            &&& after.range_fix[step + limbs][1] == Some(N::spec_from_u64(leading_bits))
            &&& decomposes(
                reading(after.block_value(step)),
                after.block_limbs(step, chunks.len()).map_values(reading),
                COMMON_RANGE_BITS as nat,
                leading_bits as nat,
            )
            &&& recompose(
                after.block_limbs(step, chunks.len()).map_values(reading),
                COMMON_RANGE_BITS as nat,
            ) == reading(value)
        }),
{
    lemma_range_value_block(ledger, step, value, chunks, BlockMarkers::<N>::spec_of(leading_bits));
    lemma_cover_range(ledger, step + MAX_CHUNKS);
}

/// A decomposition stands for a number below `2` to the sum of its widths.
pub proof fn lemma_decomposition_bound(
    value: nat,
    limbs: Seq<nat>,
    width: nat,
    leading_bits: nat,
)
    requires
        decomposes(value, limbs, width, leading_bits),
    ensures
        value < pow2(((limbs.len() - 1) * width + leading_bits) as nat),
    decreases limbs.len(),
{
    if limbs.len() == 1 {
        assert(limbs.drop_first().len() == 0);
        assert(recompose(limbs.drop_first(), width) == 0);
        assert(pow2(width) * 0 == 0);
        assert(limbs[0] == limbs.last());
    } else {
        let rest = limbs.drop_first();
        let upper = recompose(rest, width);
        assert(rest.last() == limbs.last());
        assert forall|i: int| 0 <= i < rest.len() - 1 implies rest[i] < pow2(width) by {
            assert(rest[i] == limbs[i + 1]);
        }
        lemma_decomposition_bound(upper, rest, width, leading_bits);
        let high = ((rest.len() - 1) * width + leading_bits) as nat;
        assert(upper < pow2(high));
        lemma_pow2_adds(width, high);
        lemma_pow2_pos(width);
        assert(limbs[0] + pow2(width) * upper < pow2(width) * pow2(high)) by (nonlinear_arith)
            requires
                limbs[0] < pow2(width),
                upper < pow2(high),
        ;
        assert(((limbs.len() - 1) * width + leading_bits) as nat == width + high)
            by (nonlinear_arith)
            requires
                rest.len() == limbs.len() - 1,
                limbs.len() >= 2,
                high == ((rest.len() - 1) * width + leading_bits) as nat,
        ;
    }
}

} // verus!
