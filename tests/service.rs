use house_price_predictor::artifact::{encode_artifact, frame_model, ArtifactError};
use house_price_predictor::features::feature_names;
use house_price_predictor::handle::{
    prepare_model, Health, Model01, ModelHandle, ModelSlot, PredictError,
};
use house_price_predictor::request::RequestField;
use house_price_predictor::service::{handle_request, ServiceError};

/// A stand-in model: a constant offset added to the sum of the features.
struct Offset(f64);

fn deserialize(payload: &Vec<u8>) -> Option<Offset> {
    let bytes: [u8; 8] = payload.as_slice().try_into().ok()?;
    Some(Offset(f64::from_le_bytes(bytes)))
}

fn infer(m: &Offset, features: &Vec<u64>) -> Option<u64> {
    let sum: f64 = features.iter().map(|b| f64::from_bits(*b)).sum();
    Some((m.0 + sum).to_bits())
}

fn artifact(offset: f64) -> Vec<u8> {
    frame_model(&offset.to_le_bytes().to_vec())
}

fn request(value: f64) -> Vec<RequestField> {
    feature_names()
        .into_iter()
        .map(|name| RequestField { name, value: value.to_bits() })
        .collect()
}

fn predicted(slot: &ModelSlot<Offset>, value: f64) -> Result<f64, ServiceError> {
    handle_request(slot, &request(value), infer).map(f64::from_bits)
}

fn served(handle: &ModelHandle<Offset>, value: f64) -> Result<f64, ServiceError> {
    predicted(&handle.snapshot(), value)
}

#[test]
fn an_empty_handle_is_not_ready_and_refuses_predictions() {
    let handle: ModelHandle<Offset> = ModelHandle::new();
    assert_eq!(handle.health(), Health::NotReady);
    assert_eq!(served(&handle, 1.0), Err(ServiceError::ModelNotLoaded));
    let slot: ModelSlot<Offset> = ModelSlot::new();
    assert_eq!(slot.health(), Health::NotReady);
    assert_eq!(slot.predict(&vec![0; 13], infer), Err(PredictError::ModelNotLoaded));
    let other: Model01<Offset> = Model01::new();
    assert_eq!(other.health(), Health::NotReady);
}

#[test]
fn a_bad_request_is_refused_even_without_a_model() {
    let slot: ModelSlot<Offset> = ModelSlot::new();
    let mut fields = request(1.0);
    fields.pop();
    assert_eq!(handle_request(&slot, &fields, infer), Err(ServiceError::MalformedRequest));
    let fields = request(f64::NAN);
    assert_eq!(handle_request(&slot, &fields, infer), Err(ServiceError::NonFiniteInput));
}

#[test]
fn a_loaded_model_answers_with_its_own_value() {
    let handle = ModelHandle::new();
    assert_eq!(handle.load(&artifact(10.0), deserialize), Ok(()));
    assert_eq!(handle.health(), Health::Ready);
    assert_eq!(served(&handle, 1.0), Ok(23.0));
}

#[test]
fn a_slot_holds_the_model_it_was_given() {
    let slot = ModelSlot::with_model(Offset(2.0));
    assert_eq!(slot.health(), Health::Ready);
    assert_eq!(predicted(&slot, 1.0), Ok(15.0));
    let mut slot = ModelSlot::new();
    slot.install(Offset(-1.0));
    assert_eq!(predicted(&slot, 0.0), Ok(-1.0));
}

#[test]
fn a_reload_replaces_the_model() {
    let handle = ModelHandle::new();
    handle.load(&artifact(10.0), deserialize).unwrap();
    handle.load(&artifact(-3.0), deserialize).unwrap();
    assert_eq!(served(&handle, 0.0), Ok(-3.0));
    let mut slot = ModelSlot::new();
    slot.load(&artifact(4.0), deserialize).unwrap();
    slot.load(&artifact(5.0), deserialize).unwrap();
    assert_eq!(predicted(&slot, 0.0), Ok(5.0));
}

#[test]
fn a_failed_reload_keeps_the_previous_model() {
    let handle = ModelHandle::new();
    handle.load(&artifact(10.0), deserialize).unwrap();
    let mut corrupt = artifact(99.0);
    corrupt.truncate(20);
    assert_eq!(handle.load(&corrupt, deserialize), Err(ArtifactError::CorruptArtifact));
    let unreadable = frame_model(&vec![1u8, 2, 3]);
    assert_eq!(handle.load(&unreadable, deserialize), Err(ArtifactError::CorruptArtifact));
    let mut names = feature_names();
    names.reverse();
    let reordered = encode_artifact(&names, &99.0f64.to_le_bytes().to_vec());
    assert_eq!(handle.load(&reordered, deserialize), Err(ArtifactError::FeatureOrderMismatch));
    assert_eq!(served(&handle, 0.0), Ok(10.0));
    let mut slot = ModelSlot::with_model(Offset(7.0));
    assert_eq!(slot.load(&reordered, deserialize), Err(ArtifactError::FeatureOrderMismatch));
    assert_eq!(slot.load(&unreadable, deserialize), Err(ArtifactError::CorruptArtifact));
    assert_eq!(predicted(&slot, 0.0), Ok(7.0));
}

#[test]
fn a_failed_first_load_leaves_the_handle_empty() {
    let handle: ModelHandle<Offset> = ModelHandle::new();
    assert_eq!(handle.load(&vec![0u8; 4], deserialize), Err(ArtifactError::CorruptArtifact));
    assert_eq!(handle.health(), Health::NotReady);
    let mut slot: ModelSlot<Offset> = ModelSlot::new();
    assert_eq!(slot.load(&vec![], deserialize), Err(ArtifactError::CorruptArtifact));
    assert_eq!(slot.health(), Health::NotReady);
}

#[test]
fn preparing_a_model_reads_the_payload() {
    let m = prepare_model(&artifact(6.5), deserialize).unwrap();
    assert_eq!(m.0, 6.5);
    assert!(matches!(
        prepare_model(&frame_model(&vec![]), deserialize),
        Err(ArtifactError::CorruptArtifact)
    ));
}

#[test]
fn an_inference_failure_is_an_internal_fault() {
    let handle = ModelHandle::new();
    handle.install(Offset(1.0));
    let r = handle_request(&handle.snapshot(), &request(1.0), |_: &Offset, _: &Vec<u64>| None);
    assert_eq!(r, Err(ServiceError::InferenceFailed));
    assert!(!ServiceError::InferenceFailed.is_client_error());
    assert!(!ServiceError::ModelNotLoaded.is_client_error());
    assert!(ServiceError::MalformedRequest.is_client_error());
    assert!(ServiceError::NonFiniteInput.is_client_error());
}

#[test]
fn a_snapshot_outlives_a_reload() {
    let handle = ModelHandle::new();
    handle.install(Offset(1.0));
    let before = handle.snapshot();
    handle.install(Offset(2.0));
    assert_eq!(predicted(&before, 0.0), Ok(1.0));
    assert_eq!(served(&handle, 0.0), Ok(2.0));
}
