use consumption_tracker::query::get_aggregation_key;
use consumption_tracker::query::group_consumption;
use consumption_tracker::query::list;
use consumption_tracker::query::Grouping;
use consumption_tracker::types::WeightConsumption;

fn seed_samples() -> Vec<WeightConsumption> {
    vec![
        WeightConsumption {
            block_number: 1,
            timestamp: 0,
            ref_time: (500, 300, 200).into(),
            proof_size: (500, 300, 200).into(),
        },
        WeightConsumption {
            block_number: 2,
            timestamp: 6,
            ref_time: (100, 400, 200).into(),
            proof_size: (200, 300, 300).into(),
        },
        WeightConsumption {
            block_number: 3,
            timestamp: 12,
            ref_time: (0, 200, 400).into(),
            proof_size: (100, 0, 300).into(),
        },
        WeightConsumption {
            block_number: 4,
            timestamp: 18,
            ref_time: (100, 0, 400).into(),
            proof_size: (200, 100, 300).into(),
        },
    ]
}

/// Grouping by block number puts every sample of the seed data into its own
/// singleton bucket.
#[test]
fn grouping_by_block_number_gives_singleton_buckets() {
    let samples = seed_samples();
    let grouped = group_consumption(&samples, Grouping::BlockNumber);

    assert_eq!(grouped.len(), 4);
    for (key, data) in &grouped {
        assert_eq!(data.count, 1);
        assert!(["1", "2", "3", "4"].contains(&key.as_str()));
    }

    let one = grouped.iter().find(|(k, _)| k == "1").expect("bucket for block 1");
    assert_eq!(one.1.ref_time.normal, 500);
    assert_eq!(one.1.ref_time.operational, 300);
    assert_eq!(one.1.ref_time.mandatory, 200);
}

/// The bucket counts always add up to the number of samples grouped.
#[test]
fn grouping_total_matches_sample_count() {
    let samples = seed_samples();
    for grouping in [Grouping::BlockNumber, Grouping::Day, Grouping::Month, Grouping::Year] {
        let grouped = group_consumption(&samples, grouping);
        let total: usize = grouped.iter().map(|(_, d)| d.count).sum();
        assert_eq!(total, samples.len());
    }

    let filtered = list(&samples, Some(6), None, None, None);
    let grouped = group_consumption(&filtered, Grouping::BlockNumber);
    let total: usize = grouped.iter().map(|(_, d)| d.count).sum();
    assert_eq!(total, 3);
}

/// Seed timestamps are all within the first second of the epoch, so one
/// calendar-day bucket holds all samples and sums their components.
#[test]
fn grouping_by_day_sums_components() {
    let samples = seed_samples();
    let grouped = group_consumption(&samples, Grouping::Day);

    assert_eq!(grouped.len(), 1);
    let (key, data) = &grouped[0];
    assert_eq!(key.as_str(), "1970-01-01");
    assert_eq!(data.count, 4);
    assert_eq!(data.ref_time.normal, 500 + 100 + 0 + 100);
    assert_eq!(data.ref_time.operational, 300 + 400 + 200 + 0);
    assert_eq!(data.ref_time.mandatory, 200 + 200 + 400 + 400);
    assert_eq!(data.proof_size.normal, 500 + 200 + 100 + 200);
    assert_eq!(data.proof_size.operational, 300 + 300 + 0 + 100);
    assert_eq!(data.proof_size.mandatory, 200 + 300 + 300 + 300);
}

/// Calendar keys follow the sample's UTC date, derived from the timestamp in
/// milliseconds.
#[test]
fn aggregation_keys_follow_the_calendar() {
    let sample = WeightConsumption {
        block_number: 77,
        // 2015-05-15 00:00:00 UTC, in milliseconds.
        timestamp: 1_431_648_000_000,
        ref_time: (1, 2, 3).into(),
        proof_size: (4, 5, 6).into(),
    };
    assert_eq!(get_aggregation_key(&sample, Grouping::BlockNumber).as_str(), "77");
    assert_eq!(get_aggregation_key(&sample, Grouping::Day).as_str(), "2015-05-15");
    assert_eq!(get_aggregation_key(&sample, Grouping::Month).as_str(), "2015-05");
    assert_eq!(get_aggregation_key(&sample, Grouping::Year).as_str(), "2015");
}

/// Samples on different days land in different calendar buckets.
#[test]
fn grouping_by_day_separates_days() {
    let mut samples = seed_samples();
    samples.push(WeightConsumption {
        block_number: 5,
        // One full day after the epoch, in milliseconds.
        timestamp: 86_400_000,
        ref_time: (10, 20, 30).into(),
        proof_size: (40, 50, 60).into(),
    });
    let grouped = group_consumption(&samples, Grouping::Day);
    assert_eq!(grouped.len(), 2);

    let second = grouped.iter().find(|(k, _)| k == "1970-01-02").expect("second day bucket");
    assert_eq!(second.1.count, 1);
    assert_eq!(second.1.ref_time.normal, 10);
}

/// The grouping query parameter names only the calendar groupings.
#[test]
fn grouping_from_value_reads_parameter() {
    assert_eq!(Grouping::from_value("day"), Some(Grouping::Day));
    assert_eq!(Grouping::from_value("month"), Some(Grouping::Month));
    assert_eq!(Grouping::from_value("year"), Some(Grouping::Year));
    assert_eq!(Grouping::from_value("block"), None);
    assert_eq!(Grouping::from_value(""), None);
}
