//! Why a request is refused.

use vstd::prelude::*;

verus! {

/// The reason for which a request cannot be carried out. A refused request
/// leaves the ledger as it was.
#[derive(Clone, Copy, Debug, PartialEq, Eq, Structural)]
pub enum LayoutError {
    /// A gate was given more values than it has witness lanes.
    TooManyValues,
    /// A gate was given more product coefficients than there are fixed lanes
    /// behind the linear coefficients.
    TooManyCoefficients,
    /// A decomposition has no limb, or more limbs than a block holds.
    ChunkCount,
    /// The tables cannot grow far enough to cover the step.
    StepOutOfRange,
    /// A value is to be copied from a cell that the tables have no slot for.
    UnknownCell,
    /// A copy constraint names a cell in which nothing was placed.
    UnplacedCell,
}

} // verus!
