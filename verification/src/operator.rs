//! Decisions of the event-source adapter and the reconciliation dispatcher.
//!
//! The unverified shell decodes bus messages, fetches devices and performs
//! store calls; what to do with each decoded event and each fetched device
//! is decided here.

use vstd::prelude::*;
use vstd::string::StringExecFns;
use crate::model;
use crate::reconciler::Step;
use crate::twin::TwinReconciler;

verus! {

/// The only event type that triggers processing.
pub open spec fn registry_event_type() -> Seq<char> {
    "io.drogue.registry.v1"@
}

/// Decide, from a bus event's type and its device extension attribute,
/// which device to dispatch: an event of any other type is ignored, and a
/// matching event without the attribute is skipped as malformed.
pub fn event_device(event_type: &String, device: Option<String>) -> (r: Option<String>)
    ensures
        event_type@ == registry_event_type() ==> r == device,
        event_type@ != registry_event_type() ==> r is None,
{
    let expected = String::from_str("io.drogue.registry.v1");
    if *event_type == expected {
        device
    } else {
        None
    }
}

/// One dispatcher attempt: a freshly fetched device goes through `changed`,
/// an id that no longer resolves through `missing`. The driver re-fetches
/// the device and calls this again on every Retry.
pub fn resolve(rec: &TwinReconciler, device: Option<model::Device>, name: &String) -> (r: Step)
    requires
        rec.wf(),
        (match device {
            Some(d) => d.wf(),
            None => true,
        }),
    ensures
        (match device {
            Some(d) => rec.changed_rel(d, r),
            None => rec.missing_rel(name@, r),
        }),
{
    match device {
        Some(d) => rec.changed(d),
        None => rec.missing(name),
    }
}

} // verus!
