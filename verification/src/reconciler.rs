//! The vocabulary of one reconciliation attempt.
//!
//! A reconciler is level-triggered and stateless between invocations: each
//! attempt recomputes the needed action from current inputs. Within one
//! attempt it issues store calls one at a time; the driver performs each
//! [`Request`], feeds the [`Response`] back, and loops until the attempt
//! reaches a terminal [`Step`].

use vstd::prelude::*;
use crate::model;

verus! {

/// Terminal signal of one reconciliation attempt.
#[derive(Clone, Copy, Debug, PartialEq, Eq, Structural)]
pub enum Outcome {
    Complete,
    Retry,
}

/// The error taxonomy at the collaborator boundary: the target was absent,
/// a concurrent writer got there first, or anything else (carrying a status
/// code).
#[derive(Clone, Copy, Debug, PartialEq, Eq, Structural)]
pub enum ApiError {
    NotFound,
    Conflict,
    Other(u16),
}

/// A store call the reconciler asks its driver to perform.
#[derive(Debug, PartialEq)]
pub enum Request {
    GetThing { application: String, name: String },
    CreateThing(model::Thing),
    UpdateThing(model::Thing),
    DeleteThing { application: String, name: String },
    UpdateDevice(model::Device),
}

/// What the store answered.
#[derive(Debug, PartialEq)]
pub enum Response {
    /// A write (create, update) succeeded.
    Done,
    /// The call failed.
    Failed(ApiError),
    /// A read returned; `None` means the Thing does not exist.
    Thing(Option<model::Thing>),
    /// A delete succeeded; the payload tells whether the Thing existed.
    Deleted(bool),
}

/// Where an attempt stands between two store calls.
#[derive(Debug, PartialEq)]
pub enum Phase {
    /// Ensuring: the finalizer was missing; its registry write is in flight.
    EnsuringFinalizerAdd,
    /// Ensuring: the sensor-facet Thing is being fetched.
    EnsuringSensorGet { device: model::Device },
    /// Ensuring: the synced sensor-facet Thing is being written back.
    EnsuringSensorWrite { device: model::Device, created: bool },
    /// Ensuring: the device-facet Thing is being fetched.
    EnsuringDeviceGet,
    /// Ensuring: the annotated device-facet Thing is being written back.
    EnsuringDeviceWrite,
    /// Missing: the sensor-facet Thing of a vanished device is being
    /// deleted.
    MissingSensorDelete,
    /// Removing: the sensor-facet Thing is being deleted; the finalizer
    /// removal follows.
    RemovingSensorDelete { device: model::Device },
    /// Removing: the finalizer-removing registry write is in flight.
    RemovingFinalizerRemove,
}

/// One step of an attempt: another call to perform, a terminal outcome, or
/// a fatal error left to a later event or scan cycle.
#[derive(Debug, PartialEq)]
pub enum Step {
    Pending(Phase, Request),
    Finished(Outcome),
    Fatal(ApiError),
}

/// Which response shapes a phase can be answered with: writes answer `Done`
/// or `Failed`, reads `Thing` or `Failed`, deletes `Deleted` or `Failed`.
pub open spec fn response_matches(phase: Phase, response: Response) -> bool {
    match phase {
        Phase::EnsuringFinalizerAdd
        | Phase::EnsuringSensorWrite { .. }
        | Phase::EnsuringDeviceWrite
        | Phase::RemovingFinalizerRemove => response is Done || response is Failed,
        Phase::EnsuringSensorGet { .. } | Phase::EnsuringDeviceGet => response is Thing
            || response is Failed,
        Phase::MissingSensorDelete | Phase::RemovingSensorDelete { .. } => response is Deleted
            || response is Failed,
    }
}

/// Well-formedness carried by a response: a fetched Thing has well-formed
/// maps.
pub open spec fn response_wf(response: Response) -> bool {
    match response {
        Response::Thing(Some(t)) => t.wf(),
        _ => true,
    }
}

} // verus!
