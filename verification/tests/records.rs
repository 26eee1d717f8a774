use consumption_tracker::storage::encode_record;
use consumption_tracker::storage::encode_series;
use consumption_tracker::storage::file_path;
use consumption_tracker::storage::get_consumption;
use consumption_tracker::storage::output_directory;
use consumption_tracker::storage::output_file_path;
use consumption_tracker::storage::parse_line;
use consumption_tracker::types::Parachain;
use consumption_tracker::types::RelayChain;
use consumption_tracker::types::WeightConsumption;

fn sample() -> WeightConsumption {
    WeightConsumption {
        block_number: 1,
        timestamp: 0,
        ref_time: (500, 300, 200).into(),
        proof_size: (500, 300, 200).into(),
    }
}

/// One record is one line of eight comma-separated fields in storage order.
#[test]
fn record_line_has_the_fixed_field_order() {
    let line = encode_record(&sample());
    assert_eq!(
        String::from_utf8(line).unwrap(),
        "1,0,0.500,0.300,0.200,0.500,0.300,0.200\n"
    );

    let s = WeightConsumption {
        block_number: 4_294_967_295,
        timestamp: 1_431_648_000_000,
        ref_time: (0, 1, 1500).into(),
        proof_size: (999, 1000, 12_345).into(),
    };
    let line = encode_record(&s);
    assert_eq!(
        String::from_utf8(line).unwrap(),
        "4294967295,1431648000000,0.000,0.001,1.500,0.999,1.000,12.345\n"
    );
}

/// The eight textual fields match the record line.
#[test]
fn to_csv_matches_the_record_line() {
    let fields = sample().to_csv();
    assert_eq!(
        fields,
        vec!["1", "0", "0.500", "0.300", "0.200", "0.500", "0.300", "0.200"]
    );
}

/// Writing samples and reading them back yields the same eight fields.
#[test]
fn series_round_trip_preserves_every_field() {
    let samples = vec![
        sample(),
        WeightConsumption {
            block_number: 2,
            timestamp: 6,
            ref_time: (100, 400, 200).into(),
            proof_size: (200, 300, 300).into(),
        },
        WeightConsumption {
            block_number: 4_294_967_295,
            timestamp: u64::MAX,
            ref_time: (u64::MAX, 0, 1).into(),
            proof_size: (1000, 999, 1001).into(),
        },
    ];
    let stored = encode_series(&samples);
    let read = get_consumption(Some(&stored)).expect("series exists");
    assert_eq!(read, samples);
}

/// Malformed lines are skipped silently; the rest of the file still parses.
#[test]
fn malformed_lines_are_skipped() {
    let content = b"garbage\n1,0,0.5,0.3,0.2,0.5,0.3,0.2\nxx,yy\n9,9,0.1,0.1,0.1,0.1,0.1,0.1,extra\n".to_vec();
    let read = get_consumption(Some(&content)).expect("series exists");
    assert_eq!(read.len(), 1);
    assert_eq!(read[0].block_number, 1);
    // The legacy short ratio form still names thousandths.
    assert_eq!(read[0].ref_time.normal, 500);
    assert_eq!(read[0].ref_time.operational, 300);
}

/// A single line parses exactly when its eight fields are well formed.
#[test]
fn line_parsing_validates_fields() {
    assert!(parse_line(b"1,0,0.5,0.3,0.2,0.5,0.3,0.2").is_some());
    // Too few fields.
    assert!(parse_line(b"1,0,0.5,0.3,0.2,0.5,0.3").is_none());
    // A block number beyond 32 bits.
    assert!(parse_line(b"4294967296,0,0.5,0.3,0.2,0.5,0.3,0.2").is_none());
    // A ratio with too many fraction digits.
    assert!(parse_line(b"1,0,0.5000,0.3,0.2,0.5,0.3,0.2").is_none());
    // An empty field.
    assert!(parse_line(b"1,,0.5,0.3,0.2,0.5,0.3,0.2").is_none());
}

fn para() -> Parachain {
    Parachain {
        name: "Acala".to_string(),
        rpcs: vec!["wss://acala-polkadot.api.onfinality.io/public-ws".to_string()],
        para_id: 2000,
        relay_chain: RelayChain::Polkadot,
        expiry_timestamp: 0,
    }
}

/// Collector instances write under `out-<i>`; the canonical output lives
/// under `out`; trailing slashes of the root are trimmed.
#[test]
fn output_paths_follow_the_layout() {
    assert_eq!(output_directory("data", None).as_str(), "data/out");
    assert_eq!(output_directory("data/", Some(2)).as_str(), "data/out-2");
    assert_eq!(output_directory("data///", Some(0)).as_str(), "data/out-0");

    assert_eq!(
        output_file_path("data", &para(), Some(1)).as_str(),
        "data/out-1/Polkadot-2000.csv"
    );
    assert_eq!(
        output_file_path("data", &para(), None).as_str(),
        "data/out/Polkadot-2000.csv"
    );
    assert_eq!(file_path(&para()).as_str(), "out/Polkadot-2000.csv");
}
