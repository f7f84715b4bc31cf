//! Tests of the template differencer: defaults, stability, add/remove
//! symmetry, order preservation, and runtime-field preservation.

use twin_operator::config::{Code, Reconciliation, Source, Synthetic, ThingTemplate, Timer};
use twin_operator::model;
use twin_operator::ordmap::OrderedMap;
use twin_operator::sync::{sync_changed, sync_deleting, sync_timers};
use twin_operator::twin::configure_sensor_at;

fn temp_template() -> ThingTemplate {
    let mut synthetics: OrderedMap<Synthetic> = OrderedMap::new();
    synthetics.insert(
        "temperature".to_string(),
        Synthetic::JavaScript(Source("return state.temp;".to_string())),
    );
    ThingTemplate {
        reconciliation: Reconciliation {
            changed: OrderedMap::new(),
            deleting: OrderedMap::new(),
            timers: OrderedMap::new(),
        },
        synthetics,
    }
}

fn sensor_for(tpl: &ThingTemplate, now: i64) -> model::Thing {
    let mut t = model::Thing::new("app1".to_string(), "dev1/sensor".to_string());
    configure_sensor_at(tpl, &mut t, now);
    t
}

#[test]
fn sync_creates_default_synthetic() {
    let tpl = temp_template();
    let t = sensor_for(&tpl, 42);
    assert_eq!(t.synthetic_state.len(), 1);
    let f = t.synthetic_state.get(&"temperature".to_string()).unwrap();
    assert_eq!(
        *f,
        model::SyntheticFeature {
            ty: model::SyntheticType::JavaScript("return state.temp;".to_string()),
            value: model::CachedValue::Null,
            last_update: 42,
        }
    );
}

#[test]
fn sync_twice_is_identical() {
    let tpl = temp_template();
    let mut t = sensor_for(&tpl, 42);
    let first = t.clone();
    // a later pass with a different clock must not change anything
    configure_sensor_at(&tpl, &mut t, 99);
    assert_eq!(t, first);
}

#[test]
fn sync_added_key_appends_default_and_keeps_runtime() {
    let tpl_a = temp_template();
    let mut t = sensor_for(&tpl_a, 7);
    // simulate runtime activity on the existing entry
    t.synthetic_state.insert(
        "temperature".to_string(),
        model::SyntheticFeature {
            ty: model::SyntheticType::JavaScript("return state.temp;".to_string()),
            value: model::CachedValue::Json("21.5".to_string()),
            last_update: 123,
        },
    );
    let mut tpl_b = temp_template();
    tpl_b.synthetics.insert(
        "humidity".to_string(),
        Synthetic::Alias("hum".to_string()),
    );
    configure_sensor_at(&tpl_b, &mut t, 50);
    assert_eq!(t.synthetic_state.len(), 2);
    assert_eq!(t.synthetic_state.entry_at(0).0, "temperature");
    assert_eq!(t.synthetic_state.entry_at(1).0, "humidity");
    // runtime fields of the pre-existing entry are untouched
    let f = t.synthetic_state.get(&"temperature".to_string()).unwrap();
    assert_eq!(f.value, model::CachedValue::Json("21.5".to_string()));
    assert_eq!(f.last_update, 123);
    let h = t.synthetic_state.get(&"humidity".to_string()).unwrap();
    assert_eq!(h.ty, model::SyntheticType::Alias("hum".to_string()));
    assert_eq!(h.value, model::CachedValue::Null);
    assert_eq!(h.last_update, 50);
}

#[test]
fn sync_removed_key_deletes_exactly_that_entry() {
    let mut tpl_b = temp_template();
    tpl_b.synthetics.insert(
        "humidity".to_string(),
        Synthetic::Alias("hum".to_string()),
    );
    let mut t = sensor_for(&tpl_b, 7);
    t.synthetic_state.insert(
        "temperature".to_string(),
        model::SyntheticFeature {
            ty: model::SyntheticType::JavaScript("return state.temp;".to_string()),
            value: model::CachedValue::Json("3".to_string()),
            last_update: 11,
        },
    );
    let before = t.clone();
    let tpl_a = temp_template();
    configure_sensor_at(&tpl_a, &mut t, 90);
    assert_eq!(t.synthetic_state.len(), 1);
    assert!(!t.synthetic_state.contains_key(&"humidity".to_string()));
    // the surviving entry is byte-identical to what it was before
    assert_eq!(
        t.synthetic_state.get(&"temperature".to_string()),
        before.synthetic_state.get(&"temperature".to_string())
    );
}

#[test]
fn timers_keep_order_and_runtime_fields() {
    let mut config: OrderedMap<Timer> = OrderedMap::new();
    config.insert(
        "fast".to_string(),
        Timer { code: Code::JavaScript(Source("tick();".to_string())), period: 1000 },
    );
    config.insert(
        "slow".to_string(),
        Timer { code: Code::JavaScript(Source("tock();".to_string())), period: 60000 },
    );
    let mut target: OrderedMap<model::Timer> = OrderedMap::new();
    // a pre-existing entry with live runtime state, and a stale one
    target.insert(
        "slow".to_string(),
        model::Timer {
            code: Code::JavaScript(Source("old();".to_string())).to_code(),
            period: 5,
            stopped: true,
            last_started: Some(77),
            last_run: Some(88),
            last_log: vec!["ran".to_string()],
            initial_delay: Some(9),
        },
    );
    target.insert(
        "stale".to_string(),
        model::Timer {
            code: model::Code::JavaScript("gone();".to_string()),
            period: 1,
            stopped: false,
            last_started: None,
            last_run: None,
            last_log: vec![],
            initial_delay: None,
        },
    );
    sync_timers(&config, &mut target);
    assert_eq!(target.len(), 2);
    // pre-existing entries keep their relative order; new entries append
    assert_eq!(target.entry_at(0).0, "slow");
    assert_eq!(target.entry_at(1).0, "fast");
    let slow = target.get(&"slow".to_string()).unwrap();
    // definition-controlled fields follow the template
    assert_eq!(slow.code, model::Code::JavaScript("tock();".to_string()));
    assert_eq!(slow.period, 60000);
    // runtime fields stay untouched
    assert!(slow.stopped);
    assert_eq!(slow.last_started, Some(77));
    assert_eq!(slow.last_run, Some(88));
    assert_eq!(slow.last_log, vec!["ran".to_string()]);
    assert_eq!(slow.initial_delay, Some(9));
    let fast = target.get(&"fast".to_string()).unwrap();
    assert_eq!(fast.period, 1000);
    assert!(!fast.stopped);
    assert_eq!(fast.last_log, Vec::<String>::new());
}

#[test]
fn changed_handlers_default_and_merge() {
    let mut config: OrderedMap<Code> = OrderedMap::new();
    config.insert("log".to_string(), Code::JavaScript(Source("log(state);".to_string())));
    let mut target: OrderedMap<model::Changed> = OrderedMap::new();
    target.insert(
        "log".to_string(),
        model::Changed {
            code: model::Code::JavaScript("older();".to_string()),
            last_log: vec!["line1".to_string()],
        },
    );
    sync_changed(&config, &mut target);
    let log = target.get(&"log".to_string()).unwrap();
    assert_eq!(log.code, model::Code::JavaScript("log(state);".to_string()));
    assert_eq!(log.last_log, vec!["line1".to_string()]);

    let mut fresh_target: OrderedMap<model::Changed> = OrderedMap::new();
    sync_changed(&config, &mut fresh_target);
    let fresh = fresh_target.get(&"log".to_string()).unwrap();
    assert_eq!(fresh.last_log, Vec::<String>::new());
}

#[test]
fn deleting_handlers_follow_template() {
    let mut config: OrderedMap<Code> = OrderedMap::new();
    config.insert("bye".to_string(), Code::JavaScript(Source("farewell();".to_string())));
    let mut target: OrderedMap<model::Deleting> = OrderedMap::new();
    sync_deleting(&config, &mut target);
    assert_eq!(
        *target.get(&"bye".to_string()).unwrap(),
        model::Deleting { code: model::Code::JavaScript("farewell();".to_string()) }
    );
    let empty: OrderedMap<Code> = OrderedMap::new();
    sync_deleting(&empty, &mut target);
    assert_eq!(target.len(), 0);
}
