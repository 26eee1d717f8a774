use consumption_tracker::consolidator::consolidate;
use consumption_tracker::types::WeightConsumption;

fn sample(block_number: u32, timestamp: u64, marker: u64) -> WeightConsumption {
    WeightConsumption {
        block_number,
        timestamp,
        ref_time: (marker, marker, marker).into(),
        proof_size: (marker, marker, marker).into(),
    }
}

/// For a block number present in several shards, the canonical series keeps
/// exactly the sample from the lowest-indexed shard.
#[test]
fn dedup_prefers_the_lowest_indexed_shard() {
    let shards = vec![
        vec![sample(10, 100, 0), sample(11, 106, 0)],
        vec![sample(10, 100, 1), sample(12, 112, 1)],
        vec![sample(10, 100, 2), sample(11, 106, 2), sample(13, 118, 2)],
    ];
    let canonical = consolidate(&shards);

    let blocks: Vec<u32> = canonical.iter().map(|s| s.block_number).collect();
    assert_eq!(blocks, vec![10, 11, 12, 13]);

    // Block 10 exists in all three shards: shard 0 wins.
    assert_eq!(canonical[0].ref_time.normal, 0);
    // Block 11 exists in shards 0 and 2: shard 0 wins.
    assert_eq!(canonical[1].ref_time.normal, 0);
    // Blocks 12 and 13 exist in one shard each.
    assert_eq!(canonical[2].ref_time.normal, 1);
    assert_eq!(canonical[3].ref_time.normal, 2);
}

/// Within one shard, the record that arrived first wins over a later record
/// for the same block number.
#[test]
fn dedup_keeps_the_earliest_record_within_a_shard() {
    let shards = vec![vec![sample(5, 50, 7), sample(5, 50, 8), sample(5, 50, 9)]];
    let canonical = consolidate(&shards);

    assert_eq!(canonical.len(), 1);
    assert_eq!(canonical[0].block_number, 5);
    assert_eq!(canonical[0].ref_time.normal, 7);
}

/// The canonical series comes out ordered by block number even when shards
/// deliver blocks out of order.
#[test]
fn consolidation_orders_by_block_number() {
    let shards = vec![
        vec![sample(30, 300, 0), sample(10, 100, 0)],
        vec![sample(20, 200, 1)],
    ];
    let canonical = consolidate(&shards);

    let blocks: Vec<u32> = canonical.iter().map(|s| s.block_number).collect();
    assert_eq!(blocks, vec![10, 20, 30]);
}

/// Passing the existing canonical series as the first shard makes a repeated
/// merge idempotent: existing entries win over freshly collected shards.
#[test]
fn consolidation_with_existing_series_is_idempotent() {
    let fresh = vec![vec![sample(1, 10, 1), sample(2, 20, 1)]];
    let first = consolidate(&fresh);

    let again = vec![first.clone(), vec![sample(1, 10, 2), sample(3, 30, 2)]];
    let second = consolidate(&again);

    assert_eq!(second.len(), 3);
    assert_eq!(second[0], first[0]);
    assert_eq!(second[1], first[1]);
    assert_eq!(second[2].block_number, 3);
}

/// No shards, or only empty shards, give an empty canonical series.
#[test]
fn consolidation_of_nothing_is_empty() {
    let none: Vec<Vec<WeightConsumption>> = Vec::new();
    assert!(consolidate(&none).is_empty());

    let empties: Vec<Vec<WeightConsumption>> = vec![Vec::new(), Vec::new()];
    assert!(consolidate(&empties).is_empty());
}
