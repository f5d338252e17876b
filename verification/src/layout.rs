//! Shape of the two functional units.

use vstd::prelude::*;

verus! {

/// Witness lanes of the base unit.
pub const VAR_COLUMNS: usize = 5;

/// Fixed lanes of the base unit that hold product coefficients.
pub const MUL_COLUMNS: usize = 2;

/// Fixed lanes of the base unit: one linear coefficient per witness lane, the
/// product coefficients, the next-row coefficient and the constant.
pub const FIXED_COLUMNS: usize = 9;

/// Fixed lanes of the range unit: the block-first marker and the class marker.
pub const RANGE_FIXED_COLUMNS: usize = 2;

/// Width in bits of every limb of a decomposition but the most significant.
pub const COMMON_RANGE_BITS: u64 = 8;

/// Largest number of limbs that one decomposition may have.
pub const MAX_CHUNKS: u64 = 6;

/// Rows by which the base unit's tables grow.
pub const BASE_EXTEND_SIZE: usize = 16;

/// Rows by which the range unit's tables grow.
pub const RANGE_EXTEND_SIZE: usize = 1024;

/// The first multiple of `block` above `step`.
pub open spec fn block_end(step: int, block: int) -> int {
    (step / block + 1) * block
}

/// The number of rows of a table of `len` rows once it covers `step`: `len`
/// where it does already, else the first multiple of `block` above `step`.
pub open spec fn grown_len(len: int, step: int, block: int) -> int {
    if step >= len {
        block_end(step, block)
    } else {
        len
    }
}

/// A fixed lane of the base unit, by its role.
#[derive(Clone, Copy, Debug, PartialEq, Eq, Structural)]
pub enum FixedLane {
    /// The linear coefficient of the witness lane with this index.
    Coeff(usize),
    /// The product coefficient with this index.
    MulCoeff(usize),
    /// The coefficient of the next row's last witness lane.
    NextCoeff,
    /// The constant term.
    Constant,
}

/// The role of the fixed lane with index `lane`: the linear coefficients
/// come first, then the product coefficients, the next-row coefficient and
/// the constant.
pub open spec fn spec_fixed_lane(lane: int) -> FixedLane {
    if lane < VAR_COLUMNS {
        FixedLane::Coeff(lane as usize)
    } else if lane - VAR_COLUMNS < MUL_COLUMNS {
        FixedLane::MulCoeff((lane - VAR_COLUMNS) as usize)
    } else if lane - VAR_COLUMNS - MUL_COLUMNS == 0 {
        FixedLane::NextCoeff
    } else {
        FixedLane::Constant
    }
}

/// Computes the role of the fixed lane with index `lane`.
pub fn fixed_lane(lane: usize) -> (role: FixedLane)
    requires
        lane < FIXED_COLUMNS,
    ensures
        role == spec_fixed_lane(lane as int),
{
    if lane < VAR_COLUMNS {
        FixedLane::Coeff(lane)
    } else if lane - VAR_COLUMNS < MUL_COLUMNS {
        FixedLane::MulCoeff(lane - VAR_COLUMNS)
    } else if lane - VAR_COLUMNS - MUL_COLUMNS == 0 {
        FixedLane::NextCoeff
    } else {
        FixedLane::Constant
    }
}

/// Computes the number of rows of a table of `len` rows once it covers `step`.
pub fn grow_to(len: usize, step: usize, block: usize) -> (to_len: usize)
    requires
        block > 0,
        step >= len ==> step + block <= usize::MAX,
    ensures
        to_len == grown_len(len as int, step as int, block as int),
        to_len >= len,
        to_len > step,
{
    if step >= len {
        let blocks: usize = step / block;
        assert(blocks * block <= step) by (nonlinear_arith)
            requires
                blocks == step / block,
                block > 0,
        ;
        assert(step < (blocks + 1) * block) by (nonlinear_arith)
            requires
                blocks == step / block,
                block > 0,
        ;
        assert((blocks + 1) * block == blocks * block + block) by (nonlinear_arith);
        (blocks + 1) * block
    } else {
        len
    }
}

} // verus!
