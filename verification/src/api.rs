//! Caller-visible errors of the service operations.

use crate::payment::PaymentError;
use crate::text::str_eq;
use vstd::prelude::*;

verus! {

/// Why a service operation was refused.
#[derive(Clone, Copy, PartialEq, Eq, Structural, Debug)]
pub enum Error {
    /// Cannot register an already registered parachain.
    AlreadyRegistered,
    /// The specified para is not registered.
    NotRegistered,
    /// Indicates that the consumption data for the parachain was not found.
    ///
    /// This should be only encountered if the consumption file has not been
    /// generated yet, which is only possible if the parachain has been
    /// registered within the last few seconds.
    ConsumptionDataNotFound,
    /// The stored data is invalid. This should never really happen.
    InvalidData,
    /// The caller tried to register a parachain without payment.
    PaymentRequired,
    /// An error occured when trying to validate the payment.
    PaymentValidationError(PaymentError),
}

impl Error {
    /// Reads an error back from its debug label, as a caller of the service
    /// sees it in a response body.
    pub fn from_label(s: &str) -> (r: Option<Error>)
        ensures
            r == Some(Error::AlreadyRegistered) <==> s@ == "AlreadyRegistered"@,
            r == Some(Error::NotRegistered) <==> s@ == "NotRegistered"@,
            r == Some(Error::ConsumptionDataNotFound) <==> s@ == "ConsumptionDataNotFound"@,
            r == Some(Error::InvalidData) <==> s@ == "InvalidData"@,
            r == Some(Error::PaymentRequired) <==> s@ == "PaymentRequired"@,
            r == Some(Error::PaymentValidationError(PaymentError::ValidationFailed)) <==> s@
                == "PaymentValidationError(ValidationFailed)"@,
            r == Some(Error::PaymentValidationError(PaymentError::Unfinalized)) <==> s@
                == "PaymentValidationError(Unfinalized)"@,
            r == Some(Error::PaymentValidationError(PaymentError::NotFound)) <==> s@
                == "PaymentValidationError(NotFound)"@,
    {
        proof {
            reveal_strlit("AlreadyRegistered");
            reveal_strlit("NotRegistered");
            reveal_strlit("ConsumptionDataNotFound");
            reveal_strlit("InvalidData");
            reveal_strlit("PaymentRequired");
            reveal_strlit("PaymentValidationError(ValidationFailed)");
            reveal_strlit("PaymentValidationError(Unfinalized)");
            reveal_strlit("PaymentValidationError(NotFound)");
            assert("AlreadyRegistered"@.len() == 17);
            assert("NotRegistered"@.len() == 13);
            assert("ConsumptionDataNotFound"@.len() == 23);
            assert("InvalidData"@.len() == 11);
            assert("PaymentRequired"@.len() == 15);
            assert("PaymentValidationError(ValidationFailed)"@.len() == 40);
            assert("PaymentValidationError(Unfinalized)"@.len() == 35);
            assert("PaymentValidationError(NotFound)"@.len() == 32);
            assert("PaymentValidationError(ValidationFailed)"@[23] == 'V');
            assert("PaymentValidationError(NotFound)"@[23] == 'N');
            assert("ConsumptionDataNotFound"@[0] == 'C');
            assert("PaymentValidationError(NotFound)"@[0] == 'P');
        }
        if str_eq(s, "AlreadyRegistered") {
            Some(Error::AlreadyRegistered)
        } else if str_eq(s, "NotRegistered") {
            Some(Error::NotRegistered)
        } else if str_eq(s, "ConsumptionDataNotFound") {
            Some(Error::ConsumptionDataNotFound)
        } else if str_eq(s, "InvalidData") {
            Some(Error::InvalidData)
        } else if str_eq(s, "PaymentRequired") {
            Some(Error::PaymentRequired)
        } else if str_eq(s, "PaymentValidationError(ValidationFailed)") {
            Some(Error::PaymentValidationError(PaymentError::ValidationFailed))
        } else if str_eq(s, "PaymentValidationError(Unfinalized)") {
            Some(Error::PaymentValidationError(PaymentError::Unfinalized))
        } else if str_eq(s, "PaymentValidationError(NotFound)") {
            Some(Error::PaymentValidationError(PaymentError::NotFound))
        } else {
            None
        }
    }
}

} // verus!
