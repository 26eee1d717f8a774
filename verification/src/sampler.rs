//! Normalizing raw per-block weight figures into utilization samples.
//!
//! A chain reports, for every finalized block, the weight consumed by each
//! dispatch class in two dimensions (reference time and proof size), plus the
//! per-block limits. The sampler turns those six consumed figures and two
//! limits into ratios stored in thousandths.

use crate::types::DispatchClassConsumption;
use crate::types::Timestamp;
use crate::types::WeightConsumption;
use vstd::prelude::*;

verus! {

/// The consumed-over-limit ratio in thousandths, rounded half away from zero
/// and saturating at `u64::MAX`.
pub open spec fn spec_ratio_thousandths(consumed: nat, limit: nat) -> nat
    recommends
        limit > 0,
{
    let exact = (2 * consumed * 1000 + limit) / (2 * limit);
    if exact > u64::MAX {
        u64::MAX as nat
    } else {
        exact
    }
}

/// Computes `consumed / limit` in thousandths, rounded half away from zero.
pub fn ratio_thousandths(consumed: u64, limit: u64) -> (r: u64)
    requires
        limit > 0,
    ensures
        r as nat == spec_ratio_thousandths(consumed as nat, limit as nat),
{
    let num: u128 = 2 * (consumed as u128) * 1000 + (limit as u128);
    let den: u128 = 2 * (limit as u128);
    let q = num / den;
    if q > u64::MAX as u128 {
        u64::MAX
    } else {
        q as u64
    }
}

/// Builds the utilization sample for one block from the raw consumed weight
/// figures and the chain's per-block weight limits.
///
/// The reference-time limit is one figure for all dispatch classes; the
/// proof-size limit is separate. Each of the six ratios is rounded to
/// thousandths independently.
pub fn weight_consumption(
    block_number: u32,
    timestamp: Timestamp,
    normal_ref_time: u64,
    operational_ref_time: u64,
    mandatory_ref_time: u64,
    normal_proof_size: u64,
    operational_proof_size: u64,
    mandatory_proof_size: u64,
    ref_time_limit: u64,
    proof_limit: u64,
) -> (r: WeightConsumption)
    requires
        ref_time_limit > 0,
        proof_limit > 0,
    ensures
        r.block_number == block_number,
        r.timestamp == timestamp,
        r.ref_time.normal == spec_ratio_thousandths(normal_ref_time as nat, ref_time_limit as nat),
        r.ref_time.operational == spec_ratio_thousandths(
            operational_ref_time as nat,
            ref_time_limit as nat,
        ),
        r.ref_time.mandatory == spec_ratio_thousandths(
            mandatory_ref_time as nat,
            ref_time_limit as nat,
        ),
        r.proof_size.normal == spec_ratio_thousandths(normal_proof_size as nat, proof_limit as nat),
        r.proof_size.operational == spec_ratio_thousandths(
            operational_proof_size as nat,
            proof_limit as nat,
        ),
        r.proof_size.mandatory == spec_ratio_thousandths(
            mandatory_proof_size as nat,
            proof_limit as nat,
        ),
{
    WeightConsumption {
        block_number,
        timestamp,
        ref_time: DispatchClassConsumption {
            normal: ratio_thousandths(normal_ref_time, ref_time_limit),
            operational: ratio_thousandths(operational_ref_time, ref_time_limit),
            mandatory: ratio_thousandths(mandatory_ref_time, ref_time_limit),
        },
        proof_size: DispatchClassConsumption {
            normal: ratio_thousandths(normal_proof_size, proof_limit),
            operational: ratio_thousandths(operational_proof_size, proof_limit),
            mandatory: ratio_thousandths(mandatory_proof_size, proof_limit),
        },
    }
}

} // verus!
