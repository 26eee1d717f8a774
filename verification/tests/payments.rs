use consumption_tracker::api::Error;
use consumption_tracker::payment::ensure_contains_payment;
use consumption_tracker::payment::opaque_payment_extrinsic;
use consumption_tracker::payment::payment_memo;
use consumption_tracker::payment::validate_registration_payment;
use consumption_tracker::payment::PaymentError;
use consumption_tracker::payment::PaymentInfo;
use consumption_tracker::types::Parachain;
use consumption_tracker::types::RelayChain;

fn subject() -> Parachain {
    Parachain {
        name: "Acala".to_string(),
        rpcs: vec!["wss://acala.example".to_string()],
        para_id: 2000,
        relay_chain: RelayChain::Polkadot,
        expiry_timestamp: 0,
    }
}

fn payment_info(cost: &str) -> PaymentInfo {
    PaymentInfo {
        rpc_url: "wss://relay.example".to_string(),
        receiver: [0x11; 32],
        cost: cost.to_string(),
        subscription_duration: 60 * 60 * 24 * 30,
        renewal_period: 60 * 60 * 24,
    }
}

/// The memo names the subject as `<relay-chain-name>:<para-id>`.
#[test]
fn memo_names_the_subject() {
    assert_eq!(payment_memo(RelayChain::Polkadot, 2000), b"Polkadot:2000".to_vec());
    assert_eq!(payment_memo(RelayChain::Kusama, 1), b"Kusama:1".to_vec());
}

/// The expected transaction is the exact canonical encoding of a
/// `Utility.batch_all` bundling the keep-alive transfer with the memo remark,
/// transfer first.
#[test]
fn expected_transaction_encodes_canonically() {
    // A fee small enough for the single-byte compact mode.
    let expected = opaque_payment_extrinsic(&subject(), &payment_info("63")).unwrap();
    let mut wanted: Vec<u8> = vec![26, 2, 0x08, 5, 3, 0];
    wanted.extend_from_slice(&[0x11; 32]);
    wanted.push(0xfc); // compact(63)
    wanted.extend_from_slice(&[0, 0]);
    wanted.push(0x34); // compact(13), the memo length
    wanted.extend_from_slice(b"Polkadot:2000");
    assert_eq!(expected, wanted);

    // A fee needing the two-byte compact mode.
    let expected = opaque_payment_extrinsic(&subject(), &payment_info("16383")).unwrap();
    let mut wanted: Vec<u8> = vec![26, 2, 0x08, 5, 3, 0];
    wanted.extend_from_slice(&[0x11; 32]);
    wanted.extend_from_slice(&[0xfd, 0xff]); // compact(16383)
    wanted.extend_from_slice(&[0, 0, 0x34]);
    wanted.extend_from_slice(b"Polkadot:2000");
    assert_eq!(expected, wanted);

    // A realistic fee needing the big-integer compact mode.
    let expected =
        opaque_payment_extrinsic(&subject(), &payment_info("1000000000000")).unwrap();
    let mut wanted: Vec<u8> = vec![26, 2, 0x08, 5, 3, 0];
    wanted.extend_from_slice(&[0x11; 32]);
    wanted.extend_from_slice(&[0x07, 0x00, 0x10, 0xa5, 0xd4, 0xe8]); // compact(10^12)
    wanted.extend_from_slice(&[0, 0, 0x34]);
    wanted.extend_from_slice(b"Polkadot:2000");
    assert_eq!(expected, wanted);
}

/// A fee that does not parse as a decimal balance fails validation.
#[test]
fn unparsable_cost_fails_validation() {
    let r = opaque_payment_extrinsic(&subject(), &payment_info("ten"));
    assert_eq!(r.unwrap_err(), PaymentError::ValidationFailed);

    let r = validate_registration_payment(&subject(), &payment_info(""), 10, 50, &Vec::new());
    assert_eq!(r.unwrap_err(), PaymentError::ValidationFailed);
}

/// A claimed block past the finalized head is refused regardless of content.
#[test]
fn providing_non_finalized_payment_block_number_fails() {
    let info = payment_info("63");
    let expected = opaque_payment_extrinsic(&subject(), &info).unwrap();
    let extrinsics = vec![expected];

    let r = validate_registration_payment(&subject(), &info, 99_999_999, 8_625_079, &extrinsics);
    assert_eq!(r.unwrap_err(), PaymentError::Unfinalized);
}

/// A finalized block lacking the exact expected transaction is refused.
#[test]
fn payment_not_found_works() {
    let info = payment_info("63");

    // Transactions are present, but none matches byte for byte: the payment
    // is for a different subject.
    let other = Parachain { para_id: 2001, ..subject() };
    let extrinsics = vec![
        opaque_payment_extrinsic(&other, &info).unwrap(),
        vec![0x00, 0x00],
    ];
    let r = validate_registration_payment(&subject(), &info, 10, 50, &extrinsics);
    assert_eq!(r.unwrap_err(), PaymentError::NotFound);

    // An empty block cannot contain the payment either.
    let r = validate_registration_payment(&subject(), &info, 10, 50, &Vec::new());
    assert_eq!(r.unwrap_err(), PaymentError::NotFound);
}

/// A finalized block holding the exact expected transaction verifies.
#[test]
fn payment_found_verifies() {
    let info = payment_info("1000000000000");
    let expected = opaque_payment_extrinsic(&subject(), &info).unwrap();
    let extrinsics = vec![vec![1, 2, 3], expected.clone()];

    assert!(ensure_contains_payment(&extrinsics, &expected).is_ok());
    let r = validate_registration_payment(&subject(), &info, 10, 50, &extrinsics);
    assert!(r.is_ok());

    // The same claim at exactly the finalized head still verifies.
    let r = validate_registration_payment(&subject(), &info, 50, 50, &extrinsics);
    assert!(r.is_ok());
}

/// Error labels round-trip the caller-visible error kinds.
#[test]
fn error_labels_are_read_back() {
    assert_eq!(Error::from_label("AlreadyRegistered"), Some(Error::AlreadyRegistered));
    assert_eq!(Error::from_label("NotRegistered"), Some(Error::NotRegistered));
    assert_eq!(
        Error::from_label("ConsumptionDataNotFound"),
        Some(Error::ConsumptionDataNotFound)
    );
    assert_eq!(Error::from_label("InvalidData"), Some(Error::InvalidData));
    assert_eq!(Error::from_label("PaymentRequired"), Some(Error::PaymentRequired));
    assert_eq!(
        Error::from_label("PaymentValidationError(Unfinalized)"),
        Some(Error::PaymentValidationError(PaymentError::Unfinalized))
    );
    assert_eq!(
        Error::from_label("PaymentValidationError(NotFound)"),
        Some(Error::PaymentValidationError(PaymentError::NotFound))
    );
    assert_eq!(
        Error::from_label("PaymentValidationError(ValidationFailed)"),
        Some(Error::PaymentValidationError(PaymentError::ValidationFailed))
    );
    assert_eq!(Error::from_label("SomethingElse"), None);
}
