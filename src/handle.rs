use vstd::prelude::*;

use std::sync::Arc;

use parking_lot::lock_api;
use parking_lot::{RawRwLock, RwLock};

use crate::artifact::{open_artifact, parse_artifact, served_order, ArtifactError};

verus! {

#[verifier::external_type_specification]
#[verifier::external_body]
pub struct ExRawRwLock(RawRwLock);

#[verifier::external_type_specification]
#[verifier::external_body]
#[verifier::reject_recursive_types(R)]
#[verifier::reject_recursive_types(T)]
pub struct ExLockApiRwLock<R, T: ?Sized>(lock_api::RwLock<R, T>);

/// Relies on lock_api's `RwLock::new`: an unlocked lock around `value`.
#[verifier::external_body]
fn new_lock<T>(value: T) -> RwLock<T> {
    RwLock::new(value)
}

/// Relies on lock_api's `RwLock::read`: waits for shared access, then gives
/// a copy of the current `Arc` (one pointer, never a half-written value).
/// Writers may change the slot at any time, so nothing is stated of it.
#[verifier::external_body]
fn read_slot<M>(lock: &RwLock<Option<Arc<M>>>) -> Option<Arc<M>> {
    lock.read().clone()
}

/// Relies on lock_api's `RwLock::write`: waits for exclusive access, then
/// puts `value` in the slot and gives back what was there.
#[verifier::external_body]
fn swap_slot<M>(lock: &RwLock<Option<Arc<M>>>, value: Option<Arc<M>>) -> Option<Arc<M>> {
    std::mem::replace(&mut *lock.write(), value)
}

/// Whether a handle holds a model.
#[derive(Debug, Clone, Copy, PartialEq, Eq)]
pub enum Health {
    Ready,
    NotReady,
}

/// Why a prediction could not be made.
#[derive(Debug, Clone, Copy, PartialEq, Eq)]
pub enum PredictError {
    /// No model has been installed yet.
    ModelNotLoaded,
    /// The model could not evaluate the features.
    InferenceFailed,
}

/// What a prediction returns for what the model gave: the value itself,
/// unchanged, or `InferenceFailed`.
pub open spec fn prediction_outcome(out: Option<u64>) -> Result<u64, PredictError> {
    match out {
        Some(v) => Ok(v),
        None => Err(PredictError::InferenceFailed),
    }
}

/// What preparing a model gives for what `deserialize` returned.
pub open spec fn deserialized_outcome<M>(out: Option<M>) -> Result<M, ArtifactError> {
    match out {
        Some(m) => Ok(m),
        None => Err(ArtifactError::CorruptArtifact),
    }
}

/// What `prepare_model` may return for `bytes`: `CorruptArtifact` when they
/// are not an artifact, `FeatureOrderMismatch` when the artifact records
/// another feature order, and otherwise the model that `deserialize` made
/// from the payload (`CorruptArtifact` when it made none).
pub open spec fn prepare_outcome<M, F: Fn(&Vec<u8>) -> Option<M>>(
    bytes: Seq<u8>,
    deserialize: F,
    r: Result<M, ArtifactError>,
) -> bool {
    ||| parse_artifact(bytes) is None && r == Err::<M, ArtifactError>(
        ArtifactError::CorruptArtifact,
    )
    ||| parse_artifact(bytes) is Some && parse_artifact(bytes).unwrap().0 != served_order() && r
        == Err::<M, ArtifactError>(ArtifactError::FeatureOrderMismatch)
    ||| exists|p: Vec<u8>, out: Option<M>|
        parse_artifact(bytes) == Some((served_order(), p@)) && #[trigger] deserialize.ensures(
            (&p,),
            out,
        ) && r == deserialized_outcome(out)
}

/// Opens `bytes` as an artifact and turns its payload into a model with
/// `deserialize`.
///
/// Fails with `CorruptArtifact` when the bytes are not an artifact or
/// `deserialize` rejects the payload, and with `FeatureOrderMismatch` when
/// the artifact records a feature order other than the served one.
pub fn prepare_model<M, F: Fn(&Vec<u8>) -> Option<M>>(bytes: &Vec<u8>, deserialize: F) -> (r:
    Result<M, ArtifactError>)
    requires
        forall|p: &Vec<u8>| #[trigger] deserialize.requires((p,)),
    ensures
        prepare_outcome(bytes@, deserialize, r),
{
    let payload = match open_artifact(bytes) {
        Ok(p) => p,
        Err(e) => {
            return Err(e);
        },
    };
    let out = deserialize(&payload);
    assert(deserialize.ensures((&payload,), out));
    match out {
        Some(model) => Ok(model),
        None => Err(ArtifactError::CorruptArtifact),
    }
}

/// The state of a model handle: empty, or holding one model. Values of this
/// type are what readers of a shared handle work on, one snapshot each.
pub struct ModelSlot<M> {
    current: Option<Arc<M>>,
}

impl<M> View for ModelSlot<M> {
    type V = Option<M>;

    closed spec fn view(&self) -> Option<M> {
        match self.current {
            Some(a) => Some(*a),
            None => None,
        }
    }
}

/// Another name for the model slot.
pub type Model01<M> = ModelSlot<M>;

impl<M> ModelSlot<M> {
    /// An empty slot.
    pub fn new() -> (r: ModelSlot<M>)
        ensures
            r@ is None,
    {
        ModelSlot { current: None }
    }

    /// A slot holding `model`.
    pub fn with_model(model: M) -> (r: ModelSlot<M>)
        ensures
            r@ == Some(model),
    {
        ModelSlot { current: Some(Arc::new(model)) }
    }

    /// Replaces whatever the slot held with `model`.
    pub fn install(&mut self, model: M)
        ensures
            final(self)@ == Some(model),
    {
        self.current = Some(Arc::new(model));
    }

    /// `Ready` when the slot holds a model, `NotReady` when it is empty.
    pub fn health(&self) -> (r: Health)
        ensures
            (r == Health::Ready) <==> self@ is Some,
            (r == Health::NotReady) <==> self@ is None,
    {
        match &self.current {
            Some(_) => Health::Ready,
            None => Health::NotReady,
        }
    }

    /// Opens `bytes` as `prepare_model` does and installs the model; on any
    /// failure the slot keeps what it held.
    pub fn load<F: Fn(&Vec<u8>) -> Option<M>>(&mut self, bytes: &Vec<u8>, deserialize: F) -> (r:
        Result<(), ArtifactError>)
        requires
            forall|p: &Vec<u8>| #[trigger] deserialize.requires((p,)),
        ensures
            match r {
                Ok(()) => final(self)@ is Some && prepare_outcome(
                    bytes@,
                    deserialize,
                    Ok(final(self)@.unwrap()),
                ),
                Err(e) => final(self)@ == old(self)@ && prepare_outcome(bytes@, deserialize, Err(e)),
            },
    {
        let model = prepare_model(bytes, deserialize)?;
        self.install(model);
        Ok(())
    }

    /// Evaluates `features` with the held model through `infer` and returns
    /// its result unchanged.
    ///
    /// Fails with `ModelNotLoaded` when the slot is empty, and with
    /// `InferenceFailed` when `infer` gives nothing.
    pub fn predict<F: Fn(&M, &Vec<u64>) -> Option<u64>>(&self, features: &Vec<u64>, infer: F) -> (r:
        Result<u64, PredictError>)
        requires
            forall|m: &M, f: &Vec<u64>| #[trigger] infer.requires((m, f)),
        ensures
            self@ is None ==> r == Err::<u64, PredictError>(PredictError::ModelNotLoaded),
            self@ is Some ==> exists|out: Option<u64>|
                #[trigger] infer.ensures((&self@.unwrap(), features), out) && r == prediction_outcome(
                    out,
                ),
    {
        match &self.current {
            None => Err(PredictError::ModelNotLoaded),
            Some(model) => {
                let m: &M = &**model;
                let out = infer(m, features);
                assert(infer.ensures((m, features), out));
                match out {
                    Some(v) => Ok(v),
                    None => Err(PredictError::InferenceFailed),
                }
            },
        }
    }
}

/// A process-wide handle on the active model, shared by every request
/// handler. A reader takes a snapshot (one `Arc`, as a `ModelSlot`) and
/// works on it alone; a load prepares the new model outside the lock and
/// replaces the whole `Arc` in one swap, so a reader sees the old model or the
/// new one and never a mixture. A failed load leaves the handle as it was.
///
/// Other threads may change the handle at any time, so the contracts here
/// say what holds of every outcome; the state machine itself is `ModelSlot`.
#[verifier::reject_recursive_types(M)]
pub struct ModelHandle<M> {
    slot: RwLock<Option<Arc<M>>>,
}

impl<M> ModelHandle<M> {
    /// An empty handle.
    pub fn new() -> ModelHandle<M> {
        ModelHandle { slot: new_lock(None) }
    }

    /// The state of the handle right now.
    pub fn snapshot(&self) -> ModelSlot<M> {
        ModelSlot { current: read_slot(&self.slot) }
    }

    /// The health of a snapshot of the handle.
    pub fn health(&self) -> Health {
        self.snapshot().health()
    }

    /// Installs `model` in one swap, replacing any earlier one.
    pub fn install(&self, model: M) {
        let _previous = swap_slot(&self.slot, Some(Arc::new(model)));
    }

    /// Prepares a model from `bytes` as `prepare_model` does, then installs
    /// it in one swap. On failure nothing is swapped.
    pub fn load<F: Fn(&Vec<u8>) -> Option<M>>(&self, bytes: &Vec<u8>, deserialize: F) -> (r:
        Result<(), ArtifactError>)
        requires
            forall|p: &Vec<u8>| #[trigger] deserialize.requires((p,)),
        ensures
            match r {
                Ok(()) => exists|m: M| #[trigger] prepare_outcome(bytes@, deserialize, Ok(m)),
                Err(e) => prepare_outcome(bytes@, deserialize, Err(e)),
            },
    {
        let model = prepare_model(bytes, deserialize)?;
        self.install(model);
        Ok(())
    }
}

} // verus!
