//! The values that fill the lanes.
//!
//! The ledger carries values through without looking into them. Of its
//! own it makes only the markers of the range unit, from small integers.
//! The two fields that the proof system brings are lane values here; so
//! are plain integers.

use vstd::prelude::*;
use halo2_proofs::pasta::Fp;
use halo2_proofs::pasta::Fq;

verus! {

/// The base field of the Pallas curve, as the proof system has it.
#[verifier::external_type_specification]
#[verifier::external_body]
pub struct ExFp(Fp);

/// The scalar field of the Pallas curve, as the proof system has it.
#[verifier::external_type_specification]
#[verifier::external_body]
pub struct ExFq(Fq);

/// The element that `Fp::from` makes of the integer `x`.
pub uninterp spec fn fp_of_u64(x: u64) -> Fp;

/// The element that `Fq::from` makes of the integer `x`.
pub uninterp spec fn fq_of_u64(x: u64) -> Fq;

/// Calls `Fp::from` on a `u64`, the conversion of an integer into the
/// field. Nothing is proved of it. The contract claims only that the
/// element is a function of `x` alone: the conversion reads nothing else.
#[verifier::external_body]
fn fp_from(x: u64) -> (value: Fp)
    ensures
        value == fp_of_u64(x),
{
    Fp::from(x)
}

/// Calls `Fq::from` on a `u64`, the conversion of an integer into the
/// field. Nothing is proved of it. The contract claims only that the
/// element is a function of `x` alone: the conversion reads nothing else.
#[verifier::external_body]
fn fq_from(x: u64) -> (value: Fq)
    ensures
        value == fq_of_u64(x),
{
    Fq::from(x)
}

/// A value that a lane can hold: it can be copied, and every marker of the
/// range unit, a small integer, has one that stands for it.
pub trait LaneValue: Copy {
    /// The value that stands for `x`.
    spec fn spec_from_u64(x: u64) -> Self;

    /// Makes the value that stands for `x`.
    fn from_u64(x: u64) -> (value: Self)
        ensures
            value == Self::spec_from_u64(x),
    ;
}

impl LaneValue for Fp {
    open spec fn spec_from_u64(x: u64) -> Fp {
        fp_of_u64(x)
    }

    fn from_u64(x: u64) -> (value: Fp) {
        fp_from(x)
    }
}

impl LaneValue for Fq {
    open spec fn spec_from_u64(x: u64) -> Fq {
        fq_of_u64(x)
    }

    fn from_u64(x: u64) -> (value: Fq) {
        fq_from(x)
    }
}

impl LaneValue for u64 {
    open spec fn spec_from_u64(x: u64) -> u64 {
        x
    }

    fn from_u64(x: u64) -> (value: u64) {
        x
    }
}

} // verus!
