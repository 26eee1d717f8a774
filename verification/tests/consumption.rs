use consumption_tracker::api::Error;
use consumption_tracker::query::list;
use consumption_tracker::registry::registered_para;
use consumption_tracker::storage::encode_series;
use consumption_tracker::storage::get_consumption;
use consumption_tracker::types::Parachain;
use consumption_tracker::types::RelayChain;
use consumption_tracker::types::WeightConsumption;

fn mock_para(relay_chain: RelayChain, para_id: u32) -> Parachain {
    Parachain {
        name: format!("{}-{}", relay_chain.name(), para_id),
        rpcs: vec![format!("wss://{}-{}.com", relay_chain.name(), para_id)],
        para_id,
        relay_chain,
        expiry_timestamp: 0,
    }
}

fn mock_consumption() -> Vec<WeightConsumption> {
    vec![
        WeightConsumption {
            block_number: 1,
            timestamp: 0,
            ref_time: (500, 300, 200).into(),
            proof_size: (500, 300, 200).into(),
        },
        WeightConsumption {
            block_number: 2,
            timestamp: 6,
            ref_time: (100, 400, 200).into(),
            proof_size: (200, 300, 300).into(),
        },
        WeightConsumption {
            block_number: 3,
            timestamp: 12,
            ref_time: (0, 200, 400).into(),
            proof_size: (100, 0, 300).into(),
        },
        WeightConsumption {
            block_number: 4,
            timestamp: 18,
            ref_time: (100, 0, 400).into(),
            proof_size: (200, 100, 300).into(),
        },
    ]
}

/// The stored series read back in full equals what was written.
#[test]
fn getting_all_consumption_data_works() {
    let mock_data = mock_consumption();
    let stored = encode_series(&mock_data);

    let read = get_consumption(Some(&stored)).expect("series exists");
    assert_eq!(read, mock_data);

    let consumption_data = list(&read, None, None, None, None);
    assert_eq!(consumption_data, mock_data);
}

/// Asking for an unregistered parachain is refused before any data is read.
#[test]
fn parachain_not_found_handled() {
    let paras = vec![mock_para(RelayChain::Polkadot, 2000)];

    let para = registered_para(&paras, RelayChain::Polkadot, 42);
    assert!(para.is_none());

    let err = para.ok_or(Error::NotRegistered).unwrap_err();
    assert_eq!(err, Error::NotRegistered);
}

/// A missing series file is an error distinct from an existing empty series.
#[test]
fn consumption_data_not_found_handled() {
    let err = get_consumption(None).unwrap_err();
    assert_eq!(err, Error::ConsumptionDataNotFound);

    let empty: Vec<u8> = Vec::new();
    let read = get_consumption(Some(&empty)).expect("series exists but is empty");
    assert!(read.is_empty());
}

#[test]
fn pagination_works() {
    let mock_data = mock_consumption();

    // CASE 1: Limit response size by setting page size
    let consumption_data = list(&mock_data, None, None, None, Some(1));
    assert_eq!(consumption_data, vec![mock_data.first().unwrap().clone()]);

    // CASE 2: Specifying the page without page size will still show all the data.
    let consumption_data = list(&mock_data, None, None, Some(0), None);
    assert_eq!(consumption_data, mock_data);

    // CASE 3: Specifying the page and page size works.
    let consumption_data = list(&mock_data, None, None, Some(1), Some(2));
    let expected: Vec<WeightConsumption> =
        mock_data.iter().skip(2).take(2).cloned().collect();
    assert_eq!(consumption_data, expected);

    // CASE 4: An out-of-bound page and page size will return an empty vector.
    let consumption_data = list(&mock_data, None, None, Some(69), Some(42));
    assert!(consumption_data.is_empty());
}

#[test]
fn timestamp_based_filtering_works() {
    let mock_data = mock_consumption();

    // CASE 1: setting the starting timestamp filters out the data.
    let start_timestamp = 6;
    let response_data = list(&mock_data, Some(6), None, None, None);
    let expected_data: Vec<WeightConsumption> = mock_data
        .clone()
        .into_iter()
        .filter(|c| c.timestamp >= start_timestamp)
        .collect();
    assert_eq!(response_data, expected_data);

    // CASE 2: setting the ending timestamp filters out the data.
    let end_timestamp = 12;
    let response_data = list(&mock_data, None, Some(12), None, None);
    let expected_data: Vec<WeightConsumption> = mock_data
        .clone()
        .into_iter()
        .filter(|c| c.timestamp <= end_timestamp)
        .collect();
    assert_eq!(response_data, expected_data);

    // CASE 3: setting the both start and ending timestamp filters out the data.
    let start_timestamp = 6;
    let end_timestamp = 6;
    let response_data = list(&mock_data, Some(6), Some(6), None, None);
    let expected_data: Vec<WeightConsumption> = mock_data
        .into_iter()
        .filter(|c| c.timestamp >= start_timestamp && c.timestamp <= end_timestamp)
        .collect();
    assert_eq!(response_data, expected_data);
    // Should only contain one consumption data since the `start` and `end` are
    // set to the same value.
    assert!(response_data.len() == 1);
}

#[test]
fn pagination_and_timestamp_filtering_works() {
    let mock_data = mock_consumption();

    // Combined Case: Filter by timestamp and paginate
    let start_timestamp = 6;
    let page_size = 2;
    let page_number = 1;
    let response_data = list(
        &mock_data,
        Some(start_timestamp),
        None,
        Some(page_number),
        Some(page_size),
    );
    let expected_data: Vec<WeightConsumption> = mock_data
        .into_iter()
        .filter(|c| c.timestamp >= start_timestamp)
        .skip((page_size * page_number) as usize)
        .take(page_size as usize)
        .collect();
    assert_eq!(response_data, expected_data);
}

/// Pagination saturates instead of overflowing: a page and page size whose
/// product exceeds a 32-bit count yield an empty listing.
#[test]
fn pagination_saturates_on_overflow() {
    let mock_data = mock_consumption();
    let response_data = list(&mock_data, None, None, Some(u32::MAX), Some(u32::MAX));
    assert!(response_data.is_empty());

    let response_data = list(&mock_data, None, None, Some(2), Some(u32::MAX));
    assert!(response_data.is_empty());
}
