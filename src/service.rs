use vstd::prelude::*;

use crate::handle::{prediction_outcome, ModelSlot, PredictError};
use crate::request::{
    all_finite, field_views, ordered_values, validate_request, well_shaped, RequestError,
    RequestField,
};

verus! {

/// Why a prediction request failed, as its caller sees it.
#[derive(Debug, Clone, Copy, PartialEq, Eq)]
pub enum ServiceError {
    /// A required field is missing or repeated, or an unknown field is present.
    MalformedRequest,
    /// A field holds an infinity or a NaN.
    NonFiniteInput,
    /// No model has been installed yet.
    ModelNotLoaded,
    /// The model could not evaluate the request.
    InferenceFailed,
}

impl ServiceError {
    /// Whether the fault lies with the request rather than with the service.
    pub fn is_client_error(&self) -> (r: bool)
        ensures
            r <==> (*self == ServiceError::MalformedRequest || *self == ServiceError::NonFiniteInput),
    {
        match self {
            ServiceError::MalformedRequest => true,
            ServiceError::NonFiniteInput => true,
            ServiceError::ModelNotLoaded => false,
            ServiceError::InferenceFailed => false,
        }
    }
}

/// The service error for a prediction that failed.
pub open spec fn predict_failure(e: PredictError) -> ServiceError {
    match e {
        PredictError::ModelNotLoaded => ServiceError::ModelNotLoaded,
        PredictError::InferenceFailed => ServiceError::InferenceFailed,
    }
}

/// A prediction outcome as the service reports it.
pub open spec fn served_outcome(out: Option<u64>) -> Result<u64, ServiceError> {
    match prediction_outcome(out) {
        Ok(v) => Ok(v),
        Err(e) => Err(predict_failure(e)),
    }
}

/// Answers a raw prediction request against `slot`, a snapshot of the
/// model handle: checks the request, lays its values out in the shared
/// feature order, and evaluates them with the held model through `infer`.
/// The prediction is returned as `infer` gave it.
///
/// A request that fails its checks is turned away whatever the slot holds;
/// a valid one fails with `ModelNotLoaded` exactly when the slot is empty,
/// and with `InferenceFailed` when `infer` gives nothing.
pub fn handle_request<M, F: Fn(&M, &Vec<u64>) -> Option<u64>>(
    slot: &ModelSlot<M>,
    fields: &Vec<RequestField>,
    infer: F,
) -> (r: Result<u64, ServiceError>)
    requires
        forall|m: &M, f: &Vec<u64>| #[trigger] infer.requires((m, f)),
    ensures
        !well_shaped(field_views(fields@)) ==> r == Err::<u64, ServiceError>(
            ServiceError::MalformedRequest,
        ),
        well_shaped(field_views(fields@)) && !all_finite(ordered_values(field_views(fields@)))
            ==> r == Err::<u64, ServiceError>(ServiceError::NonFiniteInput),
        well_shaped(field_views(fields@)) && all_finite(ordered_values(field_views(fields@)))
            && slot@ is None ==> r == Err::<u64, ServiceError>(ServiceError::ModelNotLoaded),
        well_shaped(field_views(fields@)) && all_finite(ordered_values(field_views(fields@)))
            && slot@ is Some ==> exists|f: &Vec<u64>, out: Option<u64>|
            #[trigger] infer.ensures((&slot@.unwrap(), f), out) && f@ == ordered_values(
                field_views(fields@),
            ) && r == served_outcome(out),
{
    let features = match validate_request(fields) {
        Ok(v) => v,
        Err(RequestError::MalformedRequest) => return Err(ServiceError::MalformedRequest),
        Err(RequestError::NonFiniteInput) => return Err(ServiceError::NonFiniteInput),
    };
    let r = slot.predict(&features, infer);
    match r {
        Ok(v) => Ok(v),
        Err(PredictError::ModelNotLoaded) => Err(ServiceError::ModelNotLoaded),
        Err(PredictError::InferenceFailed) => Err(ServiceError::InferenceFailed),
    }
}

} // verus!
