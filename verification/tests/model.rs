//! Tests of the supporting data model: the ordered map, device finalizers,
//! template helpers, and the adapter/dispatcher decisions.

use twin_operator::config::{Code, Reconciliation, Source, Timer};
use twin_operator::model;
use twin_operator::operator::{event_device, resolve};
use twin_operator::ordmap::OrderedMap;
use twin_operator::reconciler::{Phase, Request, Step};
use twin_operator::twin::{sensor_thing, ReconcilerConfig, TwinReconciler};
use twin_operator::OperatorConfig;

#[test]
fn ordered_map_keeps_insertion_order() {
    let mut m: OrderedMap<u32> = OrderedMap::new();
    assert!(m.is_empty());
    m.insert("b".to_string(), 1);
    m.insert("a".to_string(), 2);
    m.insert("c".to_string(), 3);
    // replacing a value keeps the entry's position
    m.insert("a".to_string(), 20);
    assert_eq!(m.len(), 3);
    assert_eq!(m.entry_at(0).0, "b");
    assert_eq!(m.entry_at(1).0, "a");
    assert_eq!(m.entry_at(2).0, "c");
    assert_eq!(m.get(&"a".to_string()), Some(&20));
    assert_eq!(m.get(&"d".to_string()), None);
    // removal shifts, it does not swap
    assert_eq!(m.remove(&"b".to_string()), Some(1));
    assert_eq!(m.entry_at(0).0, "a");
    assert_eq!(m.entry_at(1).0, "c");
    assert_eq!(m.remove(&"b".to_string()), None);
    assert!(m.contains_key(&"c".to_string()));
}

#[test]
fn ensure_finalizer_adds_only_once() {
    let mut d = model::Device {
        application: "app1".to_string(),
        name: "dev1".to_string(),
        labels: OrderedMap::new(),
        deletion_timestamp: None,
        finalizers: vec![],
    };
    assert!(d.ensure_finalizer(&"twin".to_string()));
    assert!(!d.ensure_finalizer(&"twin".to_string()));
    assert_eq!(d.finalizers, vec!["twin".to_string()]);
}

#[test]
fn remove_finalizer_drops_every_occurrence() {
    let mut d = model::Device {
        application: "app1".to_string(),
        name: "dev1".to_string(),
        labels: OrderedMap::new(),
        deletion_timestamp: None,
        finalizers: vec![
            "twin".to_string(),
            "other".to_string(),
            "twin".to_string(),
        ],
    };
    d.remove_finalizer(&"twin".to_string());
    assert_eq!(d.finalizers, vec!["other".to_string()]);
}

#[test]
fn reconciliation_is_empty_ignores_timers() {
    let mut timers: OrderedMap<Timer> = OrderedMap::new();
    timers.insert(
        "t".to_string(),
        Timer { code: Code::JavaScript(Source("x();".to_string())), period: 10 },
    );
    let r = Reconciliation {
        changed: OrderedMap::new(),
        deleting: OrderedMap::new(),
        timers,
    };
    assert!(r.is_empty());
    let mut changed: OrderedMap<Code> = OrderedMap::new();
    changed.insert("c".to_string(), Code::JavaScript(Source("y();".to_string())));
    let r2 = Reconciliation {
        changed,
        deleting: OrderedMap::new(),
        timers: OrderedMap::new(),
    };
    assert!(!r2.is_empty());
}

#[test]
fn sensor_thing_appends_suffix() {
    assert_eq!(sensor_thing(&"dev42".to_string()), "dev42/sensor");
}

#[test]
fn event_device_filters_by_type() {
    assert_eq!(
        event_device(
            &"io.drogue.registry.v1".to_string(),
            Some("dev1".to_string())
        ),
        Some("dev1".to_string())
    );
    assert_eq!(event_device(&"io.drogue.registry.v1".to_string(), None), None);
    assert_eq!(
        event_device(&"io.drogue.other".to_string(), Some("dev1".to_string())),
        None
    );
}

#[test]
fn resolve_routes_found_and_missing() {
    let rec = TwinReconciler::new(
        ReconcilerConfig {
            application: "app1".to_string(),
            label_selector: OrderedMap::new(),
        },
        twin_operator::config::ThingTemplate {
            reconciliation: Reconciliation {
                changed: OrderedMap::new(),
                deleting: OrderedMap::new(),
                timers: OrderedMap::new(),
            },
            synthetics: OrderedMap::new(),
        },
    );
    let device = model::Device {
        application: "app1".to_string(),
        name: "dev1".to_string(),
        labels: OrderedMap::new(),
        deletion_timestamp: None,
        finalizers: vec![],
    };
    // a found device goes through `changed`: here the finalizer write
    let step = resolve(&rec, Some(device), &"dev1".to_string());
    assert!(matches!(step, Step::Pending(Phase::EnsuringFinalizerAdd, _)));
    // an unresolvable id goes through `missing`: the idempotent delete
    let step = resolve(&rec, None, &"dev1".to_string());
    let Step::Pending(Phase::MissingSensorDelete, Request::DeleteThing { name, .. }) = step
    else {
        panic!("expected the missing-device delete")
    };
    assert_eq!(name, "dev1/sensor");
}

#[test]
fn selector_matching_checks_every_entry() {
    let mut selector: OrderedMap<String> = OrderedMap::new();
    selector.insert("env".to_string(), "prod".to_string());
    let rec = TwinReconciler::new(
        ReconcilerConfig { application: "app1".to_string(), label_selector: selector },
        twin_operator::config::ThingTemplate {
            reconciliation: Reconciliation {
                changed: OrderedMap::new(),
                deleting: OrderedMap::new(),
                timers: OrderedMap::new(),
            },
            synthetics: OrderedMap::new(),
        },
    );
    let mut labels: OrderedMap<String> = OrderedMap::new();
    labels.insert("env".to_string(), "prod".to_string());
    let matching = model::Device {
        application: "app1".to_string(),
        name: "dev1".to_string(),
        labels,
        deletion_timestamp: None,
        finalizers: vec![],
    };
    assert!(rec.matches(&matching));
    let mut wrong_labels: OrderedMap<String> = OrderedMap::new();
    wrong_labels.insert("env".to_string(), "dev".to_string());
    let mismatching = model::Device { labels: wrong_labels, ..matching.clone() };
    assert!(!rec.matches(&mismatching));
    let unlabeled = model::Device { labels: OrderedMap::new(), ..matching };
    assert!(!rec.matches(&unlabeled));
}

#[test]
fn operator_config_holds_plain_settings() {
    let c = OperatorConfig {
        mqtt_uri: "tcp://localhost:1883".to_string(),
        mqtt_group_id: None,
        api: "http://localhost:8080".to_string(),
        application: "app1".to_string(),
        token: "t".to_string(),
        user: "u".to_string(),
        ca_path: None,
        disable_tls: false,
        insecure_tls: false,
        interval: Some(60_000),
    };
    assert_eq!(c.clone(), c);
}
