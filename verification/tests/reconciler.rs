//! Tests of the reconciliation state machine: the finalizer protocol,
//! idempotence, deletion idempotence, removal convergence, conflict
//! handling, and the end-to-end provisioning scenario.

use twin_operator::config::{Reconciliation, Source, Synthetic, ThingTemplate};
use twin_operator::model;
use twin_operator::ordmap::OrderedMap;
use twin_operator::reconciler::{ApiError, Outcome, Phase, Request, Response, Step};
use twin_operator::twin::{ReconcilerConfig, TwinReconciler};

fn reconciler() -> TwinReconciler {
    let mut synthetics: OrderedMap<Synthetic> = OrderedMap::new();
    synthetics.insert(
        "temperature".to_string(),
        Synthetic::JavaScript(Source("return state.temp;".to_string())),
    );
    TwinReconciler::new(
        ReconcilerConfig {
            application: "app1".to_string(),
            label_selector: OrderedMap::new(),
        },
        ThingTemplate {
            reconciliation: Reconciliation {
                changed: OrderedMap::new(),
                deleting: OrderedMap::new(),
                timers: OrderedMap::new(),
            },
            synthetics,
        },
    )
}

fn fresh_device() -> model::Device {
    model::Device {
        application: "app1".to_string(),
        name: "dev1".to_string(),
        labels: OrderedMap::new(),
        deletion_timestamp: None,
        finalizers: vec![],
    }
}

fn finalized_device() -> model::Device {
    let mut d = fresh_device();
    d.finalizers = vec!["twin".to_string()];
    d
}

#[test]
fn finalizer_added_on_first_call() {
    let rec = reconciler();
    let step1 = rec.changed(fresh_device());
    let Step::Pending(phase, request) = step1 else { panic!("expected a pending call") };
    assert_eq!(phase, Phase::EnsuringFinalizerAdd);
    let Request::UpdateDevice(d) = request else { panic!("expected a registry write") };
    assert_eq!(d.finalizers, vec!["twin".to_string()]);
    assert_eq!(rec.step(phase, Response::Done), Step::Finished(Outcome::Retry));
}

#[test]
fn finalizer_write_conflict_retries() {
    let rec = reconciler();
    let Step::Pending(phase, _) = rec.changed(fresh_device()) else { panic!() };
    assert_eq!(
        rec.step(phase, Response::Failed(ApiError::Conflict)),
        Step::Finished(Outcome::Retry)
    );
}

#[test]
fn finalizer_present_proceeds_to_sensor() {
    let rec = reconciler();
    let Step::Pending(phase, request) = rec.changed(finalized_device()) else { panic!() };
    assert_eq!(
        phase,
        Phase::EnsuringSensorGet { device: finalized_device() }
    );
    assert_eq!(
        request,
        Request::GetThing { application: "app1".to_string(), name: "dev1/sensor".to_string() }
    );
}

#[test]
fn scenario_provisioning_end_to_end() {
    let rec = reconciler();

    // Call 1: fresh device; the only call is the registry write that adds
    // the finalizer, and the outcome is Retry.
    let Step::Pending(p, Request::UpdateDevice(written)) = rec.changed(fresh_device()) else {
        panic!("expected the finalizer write")
    };
    assert_eq!(written.finalizers, vec!["twin".to_string()]);
    assert_eq!(rec.step(p, Response::Done), Step::Finished(Outcome::Retry));

    // Call 2: finalizer visible; the sensor Thing does not exist yet, so it
    // is created with the synthetic feature present (value null, fresh
    // timestamp); the device facet is not provisioned yet, so Retry.
    let Step::Pending(p, _) = rec.changed(written.clone()) else { panic!() };
    let Step::Pending(p, Request::CreateThing(sensor)) = rec.step(p, Response::Thing(None))
    else {
        panic!("expected the sensor create")
    };
    assert_eq!(sensor.application, "app1");
    assert_eq!(sensor.name, "dev1/sensor");
    let feature = sensor.synthetic_state.get(&"temperature".to_string()).unwrap();
    assert_eq!(feature.value, model::CachedValue::Null);
    assert_eq!(
        feature.ty,
        model::SyntheticType::JavaScript("return state.temp;".to_string())
    );
    let Step::Pending(p, Request::GetThing { application, name }) =
        rec.step(p, Response::Done)
    else {
        panic!("expected the device-facet fetch")
    };
    assert_eq!((application.as_str(), name.as_str()), ("app1", "dev1"));
    assert_eq!(rec.step(p, Response::Thing(None)), Step::Finished(Outcome::Retry));

    // Call 3: the device facet was provisioned externally; it is annotated
    // and updated, and the attempt completes.
    let device_facet = model::Thing::new("app1".to_string(), "dev1".to_string());
    let Step::Pending(p, _) = rec.changed(written.clone()) else { panic!() };
    let Step::Pending(p, Request::UpdateThing(sensor2)) =
        rec.step(p, Response::Thing(Some(sensor.clone())))
    else {
        panic!("expected the sensor update")
    };
    assert_eq!(sensor2, sensor, "an already-synced sensor Thing is written back unchanged");
    let Step::Pending(p, _) = rec.step(p, Response::Done) else { panic!() };
    let Step::Pending(p, Request::UpdateThing(annotated)) =
        rec.step(p, Response::Thing(Some(device_facet)))
    else {
        panic!("expected the device-facet update")
    };
    assert_eq!(
        annotated.annotations.get(&"io.drogue/group".to_string()).map(String::as_str),
        Some("btmesh/eclipsecon2022")
    );
    assert_eq!(rec.step(p, Response::Done), Step::Finished(Outcome::Complete));
}

#[test]
fn ensuring_already_consistent_is_idempotent() {
    let rec = reconciler();
    let device = finalized_device();

    // Build the state a completed pass leaves behind.
    let Step::Pending(p, _) = rec.changed(device.clone()) else { panic!() };
    let Step::Pending(p, Request::CreateThing(sensor)) = rec.step(p, Response::Thing(None))
    else {
        panic!()
    };
    let Step::Pending(p, _) = rec.step(p, Response::Done) else { panic!() };
    let device_facet = model::Thing::new("app1".to_string(), "dev1".to_string());
    let Step::Pending(p, Request::UpdateThing(device_facet)) =
        rec.step(p, Response::Thing(Some(device_facet)))
    else {
        panic!()
    };
    assert_eq!(rec.step(p, Response::Done), Step::Finished(Outcome::Complete));

    // Re-run on the stored state: no registry write happens, and both Thing
    // updates carry back exactly what was fetched.
    let Step::Pending(p, Request::GetThing { .. }) = rec.changed(device.clone()) else {
        panic!("a consistent device must go straight to the sensor fetch")
    };
    let Step::Pending(p, Request::UpdateThing(sensor2)) =
        rec.step(p, Response::Thing(Some(sensor.clone())))
    else {
        panic!()
    };
    assert_eq!(sensor2, sensor);
    let Step::Pending(p, Request::GetThing { .. }) = rec.step(p, Response::Done) else {
        panic!()
    };
    let Step::Pending(p, Request::UpdateThing(facet2)) =
        rec.step(p, Response::Thing(Some(device_facet.clone())))
    else {
        panic!()
    };
    assert_eq!(facet2, device_facet);
    assert_eq!(rec.step(p, Response::Done), Step::Finished(Outcome::Complete));
}

#[test]
fn missing_completes_whether_thing_existed() {
    let rec = reconciler();
    for response in [
        Response::Deleted(true),
        Response::Deleted(false),
        Response::Failed(ApiError::NotFound),
    ] {
        let Step::Pending(p, Request::DeleteThing { application, name }) =
            rec.missing(&"dev9".to_string())
        else {
            panic!("expected the sensor delete")
        };
        assert_eq!((application.as_str(), name.as_str()), ("app1", "dev9/sensor"));
        assert_eq!(rec.step(p, response), Step::Finished(Outcome::Complete));
    }
}

#[test]
fn selector_mismatch_routes_to_removal() {
    let mut rec = reconciler();
    rec.config.label_selector.insert("env".to_string(), "prod".to_string());
    let device = finalized_device();  // has no labels, so it fails the selector
    let Step::Pending(p, Request::DeleteThing { name, .. }) = rec.changed(device) else {
        panic!("expected the removal delete")
    };
    assert_eq!(name, "dev1/sensor");
    let Step::Pending(p, Request::UpdateDevice(d)) = rec.step(p, Response::Deleted(true))
    else {
        panic!("expected the finalizer removal")
    };
    assert_eq!(d.finalizers, Vec::<String>::new());
    assert_eq!(rec.step(p, Response::Done), Step::Finished(Outcome::Complete));
}

#[test]
fn soft_deleted_routes_to_removal() {
    let rec = reconciler();
    let mut device = finalized_device();
    device.deletion_timestamp = Some(1234);
    let Step::Pending(p, Request::DeleteThing { .. }) = rec.changed(device) else {
        panic!("expected the removal delete")
    };
    // the sensor Thing was already gone; the device record vanished before
    // the finalizer write: both count as success
    let Step::Pending(p, Request::UpdateDevice(_)) =
        rec.step(p, Response::Failed(ApiError::NotFound))
    else {
        panic!()
    };
    assert_eq!(
        rec.step(p, Response::Failed(ApiError::NotFound)),
        Step::Finished(Outcome::Complete)
    );
}

#[test]
fn ensuring_conflicts_always_retry() {
    let rec = reconciler();
    let device = finalized_device();
    for phase in [
        Phase::EnsuringFinalizerAdd,
        Phase::EnsuringSensorWrite { device: device.clone(), created: false },
        Phase::EnsuringSensorWrite { device: device.clone(), created: true },
        Phase::EnsuringDeviceWrite,
    ] {
        assert_eq!(
            rec.step(phase, Response::Failed(ApiError::Conflict)),
            Step::Finished(Outcome::Retry)
        );
    }
}

#[test]
fn sensor_write_not_found_depends_on_create() {
    let rec = reconciler();
    let device = finalized_device();
    // an update hitting not-found means the Thing vanished concurrently: retry
    assert_eq!(
        rec.step(
            Phase::EnsuringSensorWrite { device: device.clone(), created: false },
            Response::Failed(ApiError::NotFound)
        ),
        Step::Finished(Outcome::Retry)
    );
    // a create cannot hit not-found; it is propagated
    assert_eq!(
        rec.step(
            Phase::EnsuringSensorWrite { device, created: true },
            Response::Failed(ApiError::NotFound)
        ),
        Step::Fatal(ApiError::NotFound)
    );
}

#[test]
fn other_errors_are_fatal() {
    let rec = reconciler();
    let device = finalized_device();
    assert_eq!(
        rec.step(
            Phase::EnsuringSensorGet { device: device.clone() },
            Response::Failed(ApiError::Other(500))
        ),
        Step::Fatal(ApiError::Other(500))
    );
    assert_eq!(
        rec.step(Phase::MissingSensorDelete, Response::Failed(ApiError::Other(502))),
        Step::Fatal(ApiError::Other(502))
    );
    // during Removing a conflict is not absorbed: it propagates
    assert_eq!(
        rec.step(Phase::RemovingFinalizerRemove, Response::Failed(ApiError::Conflict)),
        Step::Fatal(ApiError::Conflict)
    );
}

#[test]
fn device_facet_annotation_preserves_existing_entries() {
    let rec = reconciler();
    let mut facet = model::Thing::new("app1".to_string(), "dev1".to_string());
    facet.annotations.insert("keep".to_string(), "me".to_string());
    let Step::Pending(_, Request::UpdateThing(updated)) =
        rec.step(Phase::EnsuringDeviceGet, Response::Thing(Some(facet)))
    else {
        panic!("expected the device-facet update")
    };
    assert_eq!(updated.annotations.len(), 2);
    assert_eq!(updated.annotations.entry_at(0).0, "keep");
    assert_eq!(
        updated.annotations.get(&"keep".to_string()).map(String::as_str),
        Some("me")
    );
    assert_eq!(
        updated.annotations.get(&"io.drogue/group".to_string()).map(String::as_str),
        Some("btmesh/eclipsecon2022")
    );
}

#[test]
fn device_facet_absent_retries() {
    let rec = reconciler();
    assert_eq!(
        rec.step(Phase::EnsuringDeviceGet, Response::Thing(None)),
        Step::Finished(Outcome::Retry)
    );
}
