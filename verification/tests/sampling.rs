use consumption_tracker::sampler::ratio_thousandths;
use consumption_tracker::sampler::weight_consumption;

/// Ratios come out in thousandths of the consumed-over-limit quotient.
#[test]
fn ratio_is_scaled_to_thousandths() {
    assert_eq!(ratio_thousandths(505, 1000), 505);
    assert_eq!(ratio_thousandths(0, 1000), 0);
    assert_eq!(ratio_thousandths(1000, 1000), 1000);
    // Consumption above the advertised limit is not clamped.
    assert_eq!(ratio_thousandths(1500, 1000), 1500);
}

/// The scaled value is rounded half away from zero.
#[test]
fn ratio_rounds_half_away_from_zero() {
    // 1/3 = 0.333... -> 0.333
    assert_eq!(ratio_thousandths(1, 3), 333);
    // 2/3 = 0.666... -> 0.667
    assert_eq!(ratio_thousandths(2, 3), 667);
    // 1/2000 = 0.0005 -> rounds up to 0.001
    assert_eq!(ratio_thousandths(1, 2000), 1);
    // 3/2000 = 0.0015 -> rounds up to 0.002
    assert_eq!(ratio_thousandths(3, 2000), 2);
    // 1/3000 < 0.0005 -> rounds down to 0
    assert_eq!(ratio_thousandths(1, 3000), 0);
}

/// A ratio too large for the sample field saturates instead of overflowing.
#[test]
fn ratio_saturates() {
    assert_eq!(ratio_thousandths(u64::MAX, 1), u64::MAX);
}

/// The sampler normalizes all six consumed figures against the two limits.
#[test]
fn sampler_builds_the_normalized_record() {
    let s = weight_consumption(
        42,        // block number
        1_000,     // timestamp
        500,       // normal ref_time consumed
        250,       // operational ref_time consumed
        125,       // mandatory ref_time consumed
        100,       // normal proof size consumed
        75,        // operational proof size consumed
        50,        // mandatory proof size consumed
        1_000,     // ref_time limit (one figure for all classes)
        200,       // proof size limit
    );
    assert_eq!(s.block_number, 42);
    assert_eq!(s.timestamp, 1_000);
    assert_eq!(s.ref_time.normal, 500);
    assert_eq!(s.ref_time.operational, 250);
    assert_eq!(s.ref_time.mandatory, 125);
    assert_eq!(s.proof_size.normal, 500);
    assert_eq!(s.proof_size.operational, 375);
    assert_eq!(s.proof_size.mandatory, 250);
}
