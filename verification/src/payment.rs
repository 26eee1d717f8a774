//! Reconstruction and verification of the on-chain subscription payment.
//!
//! A subject pays its subscription by including one exact transaction in a
//! finalized relay-chain block: a `Utility.batch_all` bundling a keep-alive
//! transfer of the configured fee to the configured receiver with a
//! `System.remark` naming the subject. Verification reconstructs that
//! transaction byte for byte and looks for it in the claimed block.

use crate::text::all_digits;
use crate::text::bytes_eq;
use crate::text::dec_value;
use crate::text::parse_u128;
use crate::text::push_dec_u64;
use crate::text::spec_dec;
use crate::types::Balance;
use crate::types::ParaId;
use crate::types::Parachain;
use crate::types::RelayChain;
use crate::types::Timestamp;
use vstd::prelude::*;

verus! {

broadcast use vstd::string::is_ascii_spec_bytes;

/// Why a claimed payment was not accepted.
#[derive(Clone, Copy, PartialEq, Eq, Structural, Debug)]
pub enum PaymentError {
    /// Failed to validate the payment.
    ValidationFailed,
    /// The payment is not part of a finalized block.
    Unfinalized,
    /// The payment was not found in the specified block.
    NotFound,
}

/// Subscription payment configuration.
pub struct PaymentInfo {
    /// The rpc url from the chain where the payment is required to occur.
    pub rpc_url: String,
    /// The public key of the account that the payment should be sent to.
    pub receiver: [u8; 32],
    /// The cost of the payment, as a decimal string.
    pub cost: String,
    /// The duration that a single subscription payment will cover.
    pub subscription_duration: Timestamp,
    /// How much before the expiry the subscription can be renewed.
    pub renewal_period: Timestamp,
}

/// The pallet index of `System` in the relay-chain runtime.
pub const SYSTEM_PALLET: u8 = 0;

/// The call index of `System.remark`.
pub const SYSTEM_REMARK: u8 = 0;

/// The pallet index of `Balances` in the relay-chain runtime.
pub const BALANCES_PALLET: u8 = 5;

/// The call index of `Balances.transfer_keep_alive`.
pub const BALANCES_TRANSFER_KEEP_ALIVE: u8 = 3;

/// The pallet index of `Utility` in the relay-chain runtime.
pub const UTILITY_PALLET: u8 = 26;

/// The call index of `Utility.batch_all`.
pub const UTILITY_BATCH_ALL: u8 = 2;

/// The variant tag of `MultiAddress::Id`: a plain 32-byte account id.
pub const MULTI_ADDRESS_ID: u8 = 0;

/// The ASCII code of the colon between relay-chain name and para id.
pub const COLON: u8 = 0x3a;

/// The SCALE compact encoding of an unsigned integer value.
pub uninterp spec fn compact_of(value: u128) -> Seq<u8>;

/// Relies on parity_scale_codec's `Encode` impl for `Compact<u128>`: the
/// compact encoding is a function of the value alone and takes between one
/// and seventeen bytes.
#[verifier::external_body]
fn compact_encode(value: u128) -> (r: Vec<u8>)
    ensures
        r@ == compact_of(value),
        1 <= r@.len() <= 17,
{
    parity_scale_codec::Encode::encode(&parity_scale_codec::Compact(value))
}

/// The bytes of a sequence of ASCII characters.
pub open spec fn bytes_of_chars(s: Seq<char>) -> Seq<u8> {
    s.map_values(|c: char| c as u8)
}

/// The payment memo naming the subject: `<relay-chain-name>:<para-id>`.
pub open spec fn spec_memo(relay_chain: RelayChain, para_id: ParaId) -> Seq<u8> {
    bytes_of_chars(relay_chain.spec_name()) + seq![COLON] + spec_dec(para_id as nat)
}

/// Renders the payment memo for a subject.
pub fn payment_memo(relay_chain: RelayChain, para_id: ParaId) -> (r: Vec<u8>)
    ensures
        r@ == spec_memo(relay_chain, para_id),
{
    let mut out: Vec<u8> = Vec::new();
    let name = relay_chain.name();
    let nb = name.as_bytes();
    let mut i: usize = 0;
    while i < nb.len()
        invariant
            0 <= i <= nb@.len(),
            out@ == nb@.subrange(0, i as int),
        decreases nb@.len() - i,
    {
        out.push(nb[i]);
        proof {
            assert(out@ =~= nb@.subrange(0, i + 1));
        }
        i = i + 1;
    }
    proof {
        assert(out@ =~= nb@);
        assert(nb@ =~= bytes_of_chars(relay_chain.spec_name()));
    }
    out.push(COLON);
    push_dec_u64(&mut out, para_id as u64);
    proof {
        assert(out@ =~= spec_memo(relay_chain, para_id));
    }
    out
}

/// The SCALE encoding of the expected payment call: `Utility.batch_all` of
/// exactly two calls — first a `Balances.transfer_keep_alive` of `cost` to
/// `receiver`, then a `System.remark` carrying `memo`.
pub open spec fn spec_expected_call(receiver: Seq<u8>, cost: Balance, memo: Seq<u8>) -> Seq<u8> {
    seq![UTILITY_PALLET, UTILITY_BATCH_ALL] + compact_of(2) + seq![
        BALANCES_PALLET,
        BALANCES_TRANSFER_KEEP_ALIVE,
        MULTI_ADDRESS_ID,
    ] + receiver + compact_of(cost as u128) + seq![SYSTEM_PALLET, SYSTEM_REMARK] + compact_of(
        memo.len() as u128,
    ) + memo
}

/// The configured cost as bytes; a well-formed cost is a plain decimal
/// number that fits the balance type.
pub open spec fn spec_cost_bytes(cost: Seq<char>) -> Seq<u8> {
    vstd::utf8::encode_utf8(cost)
}

/// The configured cost parses as a decimal balance.
pub open spec fn valid_cost(cost: Seq<char>) -> bool {
    let b = spec_cost_bytes(cost);
    b.len() >= 1 && all_digits(b) && dec_value(b) <= u128::MAX
}

/// The balance named by a well-formed cost string.
pub open spec fn spec_cost_value(cost: Seq<char>) -> Balance {
    dec_value(spec_cost_bytes(cost)) as Balance
}

/// Builds the exact expected on-chain payment transaction for a subject.
///
/// Fails with `ValidationFailed` exactly when the configured cost does not
/// parse as a decimal balance.
pub fn opaque_payment_extrinsic(para: &Parachain, payment_info: &PaymentInfo) -> (r: Result<
    Vec<u8>,
    PaymentError,
>)
    ensures
        r is Ok <==> valid_cost(payment_info.cost@),
        r matches Ok(v) ==> v@ == spec_expected_call(
            payment_info.receiver@,
            spec_cost_value(payment_info.cost@),
            spec_memo(para.relay_chain, para.para_id),
        ),
        r is Err ==> r == Err::<Vec<u8>, PaymentError>(PaymentError::ValidationFailed),
{
    let cost_bytes = payment_info.cost.as_str().as_bytes();
    let cost: Balance = match parse_u128(cost_bytes) {
        Some(v) => v,
        None => {
            return Err(PaymentError::ValidationFailed);
        },
    };
    let mut out: Vec<u8> = Vec::new();
    out.push(UTILITY_PALLET);
    out.push(UTILITY_BATCH_ALL);
    let mut calls_len = compact_encode(2);
    out.append(&mut calls_len);
    out.push(BALANCES_PALLET);
    out.push(BALANCES_TRANSFER_KEEP_ALIVE);
    out.push(MULTI_ADDRESS_ID);
    let mut i: usize = 0;
    let ghost mid = out@;
    while i < 32
        invariant
            0 <= i <= 32,
            out@ == mid + payment_info.receiver@.subrange(0, i as int),
        decreases 32 - i,
    {
        out.push(payment_info.receiver[i]);
        proof {
            assert(out@ =~= mid + payment_info.receiver@.subrange(0, i + 1));
        }
        i = i + 1;
    }
    proof {
        assert(payment_info.receiver@.subrange(0, 32) =~= payment_info.receiver@);
    }
    let mut cost_enc = compact_encode(cost);
    out.append(&mut cost_enc);
    out.push(SYSTEM_PALLET);
    out.push(SYSTEM_REMARK);
    let memo = payment_memo(para.relay_chain, para.para_id);
    let mut memo_len_enc = compact_encode(memo.len() as u128);
    out.append(&mut memo_len_enc);
    let mut memo_bytes = memo;
    out.append(&mut memo_bytes);
    proof {
        assert(out@ =~= spec_expected_call(
            payment_info.receiver@,
            spec_cost_value(payment_info.cost@),
            spec_memo(para.relay_chain, para.para_id),
        ));
    }
    Ok(out)
}

/// Some transaction of the block equals the expected bytes.
pub open spec fn block_contains(extrinsics: Seq<Vec<u8>>, expected: Seq<u8>) -> bool {
    exists|i: int| 0 <= i < extrinsics.len() && extrinsics[i]@ == expected
}

/// Checks whether the block's transactions contain the expected payment,
/// byte for byte; `NotFound` when none matches.
pub fn ensure_contains_payment(extrinsics: &Vec<Vec<u8>>, expected: &Vec<u8>) -> (r: Result<
    (),
    PaymentError,
>)
    ensures
        r is Ok <==> block_contains(extrinsics@, expected@),
        r is Err ==> r == Err::<(), PaymentError>(PaymentError::NotFound),
{
    let mut i: usize = 0;
    while i < extrinsics.len()
        invariant
            0 <= i <= extrinsics@.len(),
            forall|j: int| 0 <= j < i ==> extrinsics@[j]@ != expected@,
        decreases extrinsics@.len() - i,
    {
        if bytes_eq(extrinsics[i].as_slice(), expected.as_slice()) {
            return Ok(());
        }
        i = i + 1;
    }
    Err(PaymentError::NotFound)
}

/// Decides a claimed subscription payment, given what the chain reports.
///
/// `last_finalized` is the number of the chain's last finalized block and
/// `extrinsics` the transaction list of the claimed block. A claim past the
/// finalized head is `Unfinalized`, whatever the block holds; then a cost
/// that does not parse is `ValidationFailed`; then the block either contains
/// the expected transaction (`Ok`) or does not (`NotFound`).
pub fn validate_registration_payment(
    para: &Parachain,
    payment_info: &PaymentInfo,
    payment_block_number: u32,
    last_finalized: u32,
    extrinsics: &Vec<Vec<u8>>,
) -> (r: Result<(), PaymentError>)
    ensures
        payment_block_number > last_finalized ==> r == Err::<(), PaymentError>(
            PaymentError::Unfinalized,
        ),
        payment_block_number <= last_finalized && !valid_cost(payment_info.cost@) ==> r == Err::<
            (),
            PaymentError,
        >(PaymentError::ValidationFailed),
        payment_block_number <= last_finalized && valid_cost(payment_info.cost@) ==> {
            let expected = spec_expected_call(
                payment_info.receiver@,
                spec_cost_value(payment_info.cost@),
                spec_memo(para.relay_chain, para.para_id),
            );
            if block_contains(extrinsics@, expected) {
                r is Ok
            } else {
                r == Err::<(), PaymentError>(PaymentError::NotFound)
            }
        },
{
    if payment_block_number > last_finalized {
        return Err(PaymentError::Unfinalized);
    }
    let expected = match opaque_payment_extrinsic(para, payment_info) {
        Ok(v) => v,
        Err(e) => {
            return Err(e);
        },
    };
    ensure_contains_payment(extrinsics, &expected)
}

} // verus!
