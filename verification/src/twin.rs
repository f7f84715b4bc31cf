//! The per-device reconciliation state machine.
//!
//! `changed` decides, from the device alone, whether twin state must be
//! ensured or removed, and opens the attempt; `missing` opens the attempt
//! for a device that no longer resolves; `step` advances an attempt by one
//! store response. Every transition is pinned by [`TwinReconciler::step_rel`]
//! and the decision relations, so the laws at the end of this module are
//! proved against the same description the driver runs.

use vstd::prelude::*;
use vstd::string::StringExecFns;
use crate::config;
use crate::model;
use crate::ordmap::OrderedMap;
use crate::ordmap::entry_keys;
use crate::ordmap::has_key;
use crate::ordmap::key_index;
use crate::ordmap::key_string_of;
use crate::ordmap::lemma_key_index_unique;
use crate::ordmap::lemma_lookup_push;
use crate::ordmap::lemma_lookup_update;
use crate::ordmap::value_of;
use crate::reconciler::ApiError;
use crate::reconciler::Outcome;
use crate::reconciler::Phase;
use crate::reconciler::Request;
use crate::reconciler::Response;
use crate::reconciler::Step;
use crate::reconciler::response_matches;
use crate::reconciler::response_wf;
use crate::model::has_finalizer;
use crate::model::without_finalizer;
use crate::sync::changed_synced;
use crate::sync::deleting_synced;
use crate::sync::sync_changed;
use crate::sync::sync_deleting;
use crate::sync::sync_synthetics;
use crate::sync::sync_timers;
use crate::sync::synthetics_synced;
use crate::sync::timers_synced;
use crate::sync::synthetics_consistent;
use crate::sync::changed_consistent;
use crate::sync::deleting_consistent;
use crate::sync::timers_consistent;
use crate::sync::lemma_sync_synthetics_consistent;
use crate::sync::lemma_sync_changed_consistent;
use crate::sync::lemma_sync_deleting_consistent;
use crate::sync::lemma_sync_timers_consistent;
use crate::sync::lemma_sync_synthetics_stable;
use crate::sync::lemma_sync_changed_stable;
use crate::sync::lemma_sync_deleting_stable;
use crate::sync::lemma_sync_timers_stable;

verus! {

/// The finalizer marker this controller owns on device records.
pub open spec fn finalizer() -> Seq<char> {
    "twin"@
}

/// The sensor facet of a device is the Thing named `<device>/sensor`.
pub open spec fn sensor_name_spec(device: Seq<char>) -> Seq<char> {
    device + "/sensor"@
}

/// The grouping annotation stamped on the device-facet Thing.
pub open spec fn group_key() -> Seq<char> {
    "io.drogue/group"@
}

pub open spec fn group_value() -> Seq<char> {
    "btmesh/eclipsecon2022"@
}

fn finalizer_marker() -> (s: String)
    ensures
        s@ == finalizer(),
{
    String::from_str("twin")
}

/// The name of a device's sensor-facet Thing.
pub fn sensor_thing(device: &String) -> (s: String)
    ensures
        s@ == sensor_name_spec(device@),
{
    device.clone().concat("/sensor")
}

/// Scope and selection of the reconciler: which application it manages and
/// which devices it selects.
#[derive(Clone, Debug, PartialEq)]
pub struct ReconcilerConfig {
    pub application: String,
    pub label_selector: OrderedMap<String>,
}

impl ReconcilerConfig {
    pub open spec fn wf(&self) -> bool {
        self.label_selector.wf()
    }
}

/// A device matches when every selector entry appears among its labels with
/// the same value.
pub open spec fn selector_matches(
    selector: Seq<(String, String)>,
    labels: Seq<(String, String)>,
) -> bool {
    forall|i: int|
        0 <= i < selector.len() ==> #[trigger] has_key(labels, selector[i].0@) && value_of(
            labels,
            selector[i].0@,
        )@ == selector[i].1@
}

/// The reconciler: stateless between invocations, configured once.
pub struct TwinReconciler {
    pub config: ReconcilerConfig,
    pub template: config::ThingTemplate,
}

/// All maps of both Things the template differencer produced, described by
/// one differencer pass per family. Identity and annotations are untouched.
pub open spec fn thing_configured(
    tpl: config::ThingTemplate,
    t0: model::Thing,
    t1: model::Thing,
    now: i64,
) -> bool {
    &&& t1.application == t0.application
    &&& t1.name == t0.name
    &&& t1.annotations == t0.annotations
    &&& synthetics_synced(t0.synthetic_state@, tpl.synthetics@, t1.synthetic_state@, now)
    &&& changed_synced(t0.reconciliation.changed@, tpl.reconciliation.changed@,
    t1.reconciliation.changed@)
    &&& deleting_synced(t0.reconciliation.deleting@, tpl.reconciliation.deleting@,
    t1.reconciliation.deleting@)
    &&& timers_synced(t0.reconciliation.timers@, tpl.reconciliation.timers@,
    t1.reconciliation.timers@)
}

/// Apply the template to a sensor Thing: one differencer pass per family,
/// stamping `now` on freshly created synthetic features.
pub fn configure_sensor_at(template: &config::ThingTemplate, thing: &mut model::Thing, now: i64)
    requires
        template.wf(),
        old(thing).wf(),
    ensures
        final(thing).wf(),
        thing_configured(*template, *old(thing), *final(thing), now),
{
    sync_synthetics(&template.synthetics, &mut thing.synthetic_state, now);
    sync_changed(&template.reconciliation.changed, &mut thing.reconciliation.changed);
    sync_deleting(&template.reconciliation.deleting, &mut thing.reconciliation.deleting);
    sync_timers(&template.reconciliation.timers, &mut thing.reconciliation.timers);
}

/// Relies on chrono's `Utc::now` for the current wall-clock instant, in
/// milliseconds since the epoch. The result depends on the clock, so
/// nothing is assumed of it.
#[verifier::external_body]
fn now_millis() -> i64 {
    chrono::Utc::now().timestamp_millis()
}

/// The device-facet Thing after stamping the grouping annotation: that one
/// annotation reads `group_value`, everything else is untouched.
pub open spec fn group_annotated(
    a0: Seq<(String, String)>,
    a1: Seq<(String, String)>,
) -> bool {
    &&& crate::ordmap::distinct_keys(a1)
    &&& has_key(a1, group_key()) && value_of(a1, group_key())@ == group_value()
    &&& entry_keys(a1) == if has_key(a0, group_key()) {
        entry_keys(a0)
    } else {
        entry_keys(a0).push(group_key())
    }
    &&& forall|k: Seq<char>|
        k != group_key() && #[trigger] has_key(a0, k) ==> has_key(a1, k) && value_of(a1, k)
            == value_of(a0, k) && key_string_of(a1, k) == key_string_of(a0, k)
    &&& forall|k: Seq<char>| k != group_key() && #[trigger] has_key(a1, k) ==> has_key(a0, k)
}

/// The annotated device-facet Thing: annotations stamped, all other fields
/// identical.
pub open spec fn annotated(t0: model::Thing, t1: model::Thing) -> bool {
    &&& t1.application == t0.application
    &&& t1.name == t0.name
    &&& t1.synthetic_state == t0.synthetic_state
    &&& t1.reconciliation == t0.reconciliation
    &&& group_annotated(t0.annotations@, t1.annotations@)
}

impl TwinReconciler {
    pub open spec fn wf(&self) -> bool {
        self.config.wf() && self.template.wf()
    }

    pub fn new(config: ReconcilerConfig, template: config::ThingTemplate) -> (r: TwinReconciler)
        ensures
            r.config == config,
            r.template == template,
    {
        TwinReconciler { config, template }
    }

    /// Whether `changed` routes the device to Removing: it fails the
    /// selector, or carries the soft-deletion marker.
    pub open spec fn wants_removal(self, device: model::Device) -> bool {
        !selector_matches(self.config.label_selector@, device.labels@)
            || device.deletion_timestamp is Some
    }

    pub fn matches(&self, device: &model::Device) -> (b: bool)
        requires
            self.wf(),
            device.wf(),
        ensures
            b == selector_matches(self.config.label_selector@, device.labels@),
    {
        let n = self.config.label_selector.len();
        let mut i: usize = 0;
        while i < n
            invariant
                self.wf(),
                device.wf(),
                n == self.config.label_selector@.len(),
                i <= n,
                forall|j: int|
                    0 <= j < i ==> #[trigger] has_key(
                        device.labels@,
                        self.config.label_selector@[j].0@,
                    ) && value_of(device.labels@, self.config.label_selector@[j].0@)@
                        == self.config.label_selector@[j].1@,
            decreases n - i,
        {
            let e = self.config.label_selector.entry_at(i);
            match device.labels.get(&e.0) {
                Some(l) => {
                    if !(*l == e.1) {
                        return false;
                    }
                },
                None => {
                    return false;
                },
            }
            i = i + 1;
        }
        true
    }

    /// What `changed` opens for a device: the Removing delete, the
    /// finalizer-adding registry write, or the Ensuring sensor fetch.
    pub open spec fn changed_rel(self, device: model::Device, r: Step) -> bool {
        if self.wants_removal(device) {
            match r {
                Step::Pending(
                    Phase::RemovingSensorDelete { device: d },
                    Request::DeleteThing { application, name },
                ) => d == device && application == self.config.application && name@
                    == sensor_name_spec(device.name@),
                _ => false,
            }
        } else if !has_finalizer(device.finalizers@, finalizer()) {
            match r {
                Step::Pending(Phase::EnsuringFinalizerAdd, Request::UpdateDevice(d)) => {
                    &&& d.same_identity(&device)
                    &&& d.finalizers@.len() == device.finalizers@.len() + 1
                    &&& d.finalizers@ == device.finalizers@.push(d.finalizers@.last())
                    &&& d.finalizers@.last()@ == finalizer()
                },
                _ => false,
            }
        } else {
            match r {
                Step::Pending(
                    Phase::EnsuringSensorGet { device: d },
                    Request::GetThing { application, name },
                ) => d == device && application == self.config.application && name@
                    == sensor_name_spec(device.name@),
                _ => false,
            }
        }
    }

    /// Decide and open one attempt for an existing device.
    pub fn changed(&self, device: model::Device) -> (r: Step)
        requires
            self.wf(),
            device.wf(),
        ensures
            self.changed_rel(device, r),
    {
        if !self.matches(&device) || device.deletion_timestamp.is_some() {
            let name = sensor_thing(&device.name);
            let application = self.config.application.clone();
            return Step::Pending(
                Phase::RemovingSensorDelete { device },
                Request::DeleteThing { application, name },
            );
        }
        let mut device = device;
        let marker = finalizer_marker();
        let added = device.ensure_finalizer(&marker);
        if added {
            Step::Pending(Phase::EnsuringFinalizerAdd, Request::UpdateDevice(device))
        } else {
            let name = sensor_thing(&device.name);
            let application = self.config.application.clone();
            Step::Pending(
                Phase::EnsuringSensorGet { device },
                Request::GetThing { application, name },
            )
        }
    }

    /// What `missing` opens: the idempotent sensor delete.
    pub open spec fn missing_rel(self, device: Seq<char>, r: Step) -> bool {
        match r {
            Step::Pending(
                Phase::MissingSensorDelete,
                Request::DeleteThing { application, name },
            ) => application == self.config.application && name@ == sensor_name_spec(device),
            _ => false,
        }
    }

    /// Open one attempt for a device that no longer resolves in the
    /// registry: only its sensor facet is torn down.
    pub fn missing(&self, device: &String) -> (r: Step)
        requires
            self.wf(),
        ensures
            self.missing_rel(device@, r),
    {
        let name = sensor_thing(device);
        let application = self.config.application.clone();
        Step::Pending(Phase::MissingSensorDelete, Request::DeleteThing { application, name })
    }

    /// After the sensor delete of Removing succeeded (or found nothing):
    /// the finalizer-removing registry write.
    pub open spec fn removal_proceeds(self, device: model::Device, r: Step) -> bool {
        match r {
            Step::Pending(Phase::RemovingFinalizerRemove, Request::UpdateDevice(d)) => {
                &&& d.same_identity(&device)
                &&& d.finalizers@ == without_finalizer(device.finalizers@, finalizer())
            },
            _ => false,
        }
    }

    /// The transition relation of `step`: for each phase and response, what
    /// the next step is. `now` is the instant stamped on synthetic features
    /// created while configuring the sensor Thing.
    pub open spec fn step_rel(self, phase: Phase, response: Response, r: Step, now: i64) -> bool {
        match phase {
            Phase::EnsuringFinalizerAdd => match response {
                Response::Done => r == Step::Finished(Outcome::Retry),
                Response::Failed(e) => if e is Conflict {
                    r == Step::Finished(Outcome::Retry)
                } else {
                    r == Step::Fatal(e)
                },
                _ => false,
            },
            Phase::EnsuringSensorGet { device } => match response {
                Response::Thing(Some(t)) => match r {
                    Step::Pending(
                        Phase::EnsuringSensorWrite { device: d, created },
                        Request::UpdateThing(t2),
                    ) => d == device && created == false && t2.wf() && thing_configured(
                        self.template,
                        t,
                        t2,
                        now,
                    ),
                    _ => false,
                },
                Response::Thing(None) => match r {
                    Step::Pending(
                        Phase::EnsuringSensorWrite { device: d, created },
                        Request::CreateThing(t2),
                    ) => {
                        &&& d == device
                        &&& created == true
                        &&& t2.wf()
                        &&& t2.application == self.config.application
                        &&& t2.name@ == sensor_name_spec(device.name@)
                        &&& t2.annotations@ == Seq::<(String, String)>::empty()
                        &&& synthetics_synced(
                            Seq::empty(),
                            self.template.synthetics@,
                            t2.synthetic_state@,
                            now,
                        )
                        &&& changed_synced(
                            Seq::empty(),
                            self.template.reconciliation.changed@,
                            t2.reconciliation.changed@,
                        )
                        &&& deleting_synced(
                            Seq::empty(),
                            self.template.reconciliation.deleting@,
                            t2.reconciliation.deleting@,
                        )
                        &&& timers_synced(
                            Seq::empty(),
                            self.template.reconciliation.timers@,
                            t2.reconciliation.timers@,
                        )
                    },
                    _ => false,
                },
                Response::Failed(e) => r == Step::Fatal(e),
                _ => false,
            },
            Phase::EnsuringSensorWrite { device, created } => match response {
                Response::Done => match r {
                    Step::Pending(
                        Phase::EnsuringDeviceGet,
                        Request::GetThing { application, name },
                    ) => application == self.config.application && name == device.name,
                    _ => false,
                },
                Response::Failed(e) => match e {
                    ApiError::Conflict => r == Step::Finished(Outcome::Retry),
                    ApiError::NotFound => if created {
                        r == Step::Fatal(e)
                    } else {
                        r == Step::Finished(Outcome::Retry)
                    },
                    ApiError::Other(_) => r == Step::Fatal(e),
                },
                _ => false,
            },
            Phase::EnsuringDeviceGet => match response {
                Response::Thing(Some(t)) => match r {
                    Step::Pending(Phase::EnsuringDeviceWrite, Request::UpdateThing(t2)) =>
                        annotated(t, t2),
                    _ => false,
                },
                Response::Thing(None) => r == Step::Finished(Outcome::Retry),
                Response::Failed(e) => r == Step::Fatal(e),
                _ => false,
            },
            Phase::EnsuringDeviceWrite => match response {
                Response::Done => r == Step::Finished(Outcome::Complete),
                Response::Failed(e) => match e {
                    ApiError::NotFound | ApiError::Conflict => r == Step::Finished(
                        Outcome::Retry,
                    ),
                    ApiError::Other(_) => r == Step::Fatal(e),
                },
                _ => false,
            },
            Phase::MissingSensorDelete => match response {
                Response::Deleted(_) => r == Step::Finished(Outcome::Complete),
                Response::Failed(e) => if e is NotFound {
                    r == Step::Finished(Outcome::Complete)
                } else {
                    r == Step::Fatal(e)
                },
                _ => false,
            },
            Phase::RemovingSensorDelete { device } => match response {
                Response::Deleted(_) => self.removal_proceeds(device, r),
                Response::Failed(e) => if e is NotFound {
                    self.removal_proceeds(device, r)
                } else {
                    r == Step::Fatal(e)
                },
                _ => false,
            },
            Phase::RemovingFinalizerRemove => match response {
                Response::Done => r == Step::Finished(Outcome::Complete),
                Response::Failed(e) => if e is NotFound {
                    r == Step::Finished(Outcome::Complete)
                } else {
                    r == Step::Fatal(e)
                },
                _ => false,
            },
        }
    }

    /// Advance one attempt by one store response.
    pub fn step(&self, phase: Phase, response: Response) -> (r: Step)
        requires
            self.wf(),
            response_matches(phase, response),
            response_wf(response),
        ensures
            exists|now: i64| self.step_rel(phase, response, r, now),
    {
        match phase {
            Phase::EnsuringFinalizerAdd => {
                let res = match response {
                    Response::Failed(ApiError::Conflict) | Response::Done => Step::Finished(
                        Outcome::Retry,
                    ),
                    Response::Failed(e) => Step::Fatal(e),
                    _ => Step::Fatal(ApiError::Other(0)),
                };
                proof {
                    assert(self.step_rel(phase, response, res, 0));
                }
                res
            },
            Phase::EnsuringSensorGet { device } => {
                match response {
                    Response::Thing(Some(t)) => {
                        let ghost t0 = t;
                        let mut t = t;
                        self.configure_sensor(&mut t);
                        let res = Step::Pending(
                            Phase::EnsuringSensorWrite { device, created: false },
                            Request::UpdateThing(t),
                        );
                        proof {
                            let n = choose|n: i64|
                                thing_configured(self.template, t0, t, n);
                            assert(self.step_rel(phase, response, res, n));
                        }
                        res
                    },
                    Response::Thing(None) => {
                        let name = sensor_thing(&device.name);
                        let application = self.config.application.clone();
                        let mut t = model::Thing::new(application, name);
                        let ghost t0 = t;
                        self.configure_sensor(&mut t);
                        let res = Step::Pending(
                            Phase::EnsuringSensorWrite { device, created: true },
                            Request::CreateThing(t),
                        );
                        proof {
                            let n = choose|n: i64|
                                thing_configured(self.template, t0, t, n);
                            assert(self.step_rel(phase, response, res, n));
                        }
                        res
                    },
                    Response::Failed(e) => {
                        let res = Step::Fatal(e);
                        proof {
                            assert(self.step_rel(phase, response, res, 0));
                        }
                        res
                    },
                    _ => {
                        let res = Step::Fatal(ApiError::Other(0));
                        res
                    },
                }
            },
            Phase::EnsuringSensorWrite { device, created } => {
                let res = match response {
                    Response::Done => {
                        let application = self.config.application.clone();
                        Step::Pending(
                            Phase::EnsuringDeviceGet,
                            Request::GetThing { application, name: device.name },
                        )
                    },
                    Response::Failed(ApiError::Conflict) => Step::Finished(Outcome::Retry),
                    Response::Failed(ApiError::NotFound) => if created {
                        Step::Fatal(ApiError::NotFound)
                    } else {
                        Step::Finished(Outcome::Retry)
                    },
                    Response::Failed(e) => Step::Fatal(e),
                    _ => Step::Fatal(ApiError::Other(0)),
                };
                proof {
                    assert(self.step_rel(phase, response, res, 0));
                }
                res
            },
            Phase::EnsuringDeviceGet => {
                match response {
                    Response::Thing(Some(t)) => {
                        let ghost a0 = t.annotations@;
                        let mut t2 = t;
                        let gk = String::from_str("io.drogue/group");
                        let gv = String::from_str("btmesh/eclipsecon2022");
                        t2.annotations.insert(gk, gv);
                        let res = Step::Pending(
                            Phase::EnsuringDeviceWrite,
                            Request::UpdateThing(t2),
                        );
                        proof {
                            let a1 = t2.annotations@;
                            if has_key(a0, group_key()) {
                                assert forall|k: Seq<char>| true implies {
                                    &&& k != group_key() && has_key(a0, k) ==> has_key(a1, k)
                                        && value_of(a1, k) == value_of(a0, k) && key_string_of(
                                        a1,
                                        k,
                                    ) == key_string_of(a0, k)
                                    &&& k != group_key() && has_key(a1, k) ==> has_key(a0, k)
                                } by {
                                    lemma_lookup_update(a0, group_key(), gv, k);
                                }
                                lemma_lookup_update(a0, group_key(), gv, group_key());
                            } else {
                                assert(entry_keys(a1) =~= entry_keys(a0).push(group_key()));
                                assert forall|k: Seq<char>| true implies {
                                    &&& k != group_key() && has_key(a0, k) ==> has_key(a1, k)
                                        && value_of(a1, k) == value_of(a0, k) && key_string_of(
                                        a1,
                                        k,
                                    ) == key_string_of(a0, k)
                                    &&& k != group_key() && has_key(a1, k) ==> has_key(a0, k)
                                } by {
                                    lemma_lookup_push(a0, (gk, gv), k);
                                }
                                lemma_lookup_push(a0, (gk, gv), group_key());
                            }
                            assert(group_annotated(a0, a1));
                            assert(self.step_rel(phase, response, res, 0));
                        }
                        res
                    },
                    Response::Thing(None) => {
                        let res = Step::Finished(Outcome::Retry);
                        proof {
                            assert(self.step_rel(phase, response, res, 0));
                        }
                        res
                    },
                    Response::Failed(e) => {
                        let res = Step::Fatal(e);
                        proof {
                            assert(self.step_rel(phase, response, res, 0));
                        }
                        res
                    },
                    _ => Step::Fatal(ApiError::Other(0)),
                }
            },
            Phase::EnsuringDeviceWrite => {
                let res = match response {
                    Response::Done => Step::Finished(Outcome::Complete),
                    Response::Failed(ApiError::NotFound) | Response::Failed(
                        ApiError::Conflict,
                    ) => Step::Finished(Outcome::Retry),
                    Response::Failed(e) => Step::Fatal(e),
                    _ => Step::Fatal(ApiError::Other(0)),
                };
                proof {
                    assert(self.step_rel(phase, response, res, 0));
                }
                res
            },
            Phase::MissingSensorDelete => {
                let res = match response {
                    Response::Deleted(_) => Step::Finished(Outcome::Complete),
                    Response::Failed(ApiError::NotFound) => Step::Finished(Outcome::Complete),
                    Response::Failed(e) => Step::Fatal(e),
                    _ => Step::Fatal(ApiError::Other(0)),
                };
                proof {
                    assert(self.step_rel(phase, response, res, 0));
                }
                res
            },
            Phase::RemovingSensorDelete { device } => {
                match response {
                    Response::Deleted(_) | Response::Failed(ApiError::NotFound) => {
                        let mut device = device;
                        let marker = finalizer_marker();
                        device.remove_finalizer(&marker);
                        let res = Step::Pending(
                            Phase::RemovingFinalizerRemove,
                            Request::UpdateDevice(device),
                        );
                        proof {
                            assert(self.step_rel(phase, response, res, 0));
                        }
                        res
                    },
                    Response::Failed(e) => {
                        let res = Step::Fatal(e);
                        proof {
                            assert(self.step_rel(phase, response, res, 0));
                        }
                        res
                    },
                    _ => Step::Fatal(ApiError::Other(0)),
                }
            },
            Phase::RemovingFinalizerRemove => {
                let res = match response {
                    Response::Done => Step::Finished(Outcome::Complete),
                    Response::Failed(ApiError::NotFound) => Step::Finished(Outcome::Complete),
                    Response::Failed(e) => Step::Fatal(e),
                    _ => Step::Fatal(ApiError::Other(0)),
                };
                proof {
                    assert(self.step_rel(phase, response, res, 0));
                }
                res
            },
        }
    }

    /// Apply the template to a sensor Thing at the current instant.
    fn configure_sensor(&self, thing: &mut model::Thing)
        requires
            self.wf(),
            old(thing).wf(),
        ensures
            final(thing).wf(),
            exists|now: i64|
                thing_configured(self.template, *old(thing), *final(thing), now),
    {
        let now = now_millis();
        configure_sensor_at(&self.template, thing, now);
        proof {
            assert(thing_configured(self.template, *old(thing), *thing, now));
        }
    }
}


// ---------------------------------------------------------------------------
// Laws of the reconciler.
// ---------------------------------------------------------------------------

/// A sensor Thing whose maps are consistent with the template: same key
/// sets, definition-controlled fields as prescribed.
pub open spec fn thing_consistent(tpl: config::ThingTemplate, t: model::Thing) -> bool {
    &&& synthetics_consistent(t.synthetic_state@, tpl.synthetics@)
    &&& changed_consistent(t.reconciliation.changed@, tpl.reconciliation.changed@)
    &&& deleting_consistent(t.reconciliation.deleting@, tpl.reconciliation.deleting@)
    &&& timers_consistent(t.reconciliation.timers@, tpl.reconciliation.timers@)
}

/// Configuring a Thing that is already consistent with the template
/// reproduces it exactly: identity, annotations and every map entry.
pub proof fn lemma_configure_consistent_identity(
    tpl: config::ThingTemplate,
    t0: model::Thing,
    t1: model::Thing,
    now: i64,
)
    requires
        tpl.wf(),
        t0.wf(),
        thing_consistent(tpl, t0),
        thing_configured(tpl, t0, t1, now),
    ensures
        t1.application == t0.application,
        t1.name == t0.name,
        t1.annotations == t0.annotations,
        t1.synthetic_state@ == t0.synthetic_state@,
        t1.reconciliation.changed@ == t0.reconciliation.changed@,
        t1.reconciliation.deleting@ == t0.reconciliation.deleting@,
        t1.reconciliation.timers@ == t0.reconciliation.timers@,
{
    lemma_sync_synthetics_stable(t0.synthetic_state@, tpl.synthetics@, t1.synthetic_state@, now);
    lemma_sync_changed_stable(
        t0.reconciliation.changed@,
        tpl.reconciliation.changed@,
        t1.reconciliation.changed@,
    );
    lemma_sync_deleting_stable(
        t0.reconciliation.deleting@,
        tpl.reconciliation.deleting@,
        t1.reconciliation.deleting@,
    );
    lemma_sync_timers_stable(
        t0.reconciliation.timers@,
        tpl.reconciliation.timers@,
        t1.reconciliation.timers@,
    );
}

/// Template sync stability: a first differencer pass leaves the Thing
/// consistent, so a second pass with the same template reproduces the first
/// pass's output exactly and would write nothing new.
pub proof fn lemma_configure_stable(
    tpl: config::ThingTemplate,
    t0: model::Thing,
    t1: model::Thing,
    t2: model::Thing,
    now1: i64,
    now2: i64,
)
    requires
        tpl.wf(),
        t0.wf(),
        t1.wf(),
        thing_configured(tpl, t0, t1, now1),
        thing_configured(tpl, t1, t2, now2),
    ensures
        t2.application == t1.application,
        t2.name == t1.name,
        t2.annotations == t1.annotations,
        t2.synthetic_state@ == t1.synthetic_state@,
        t2.reconciliation.changed@ == t1.reconciliation.changed@,
        t2.reconciliation.deleting@ == t1.reconciliation.deleting@,
        t2.reconciliation.timers@ == t1.reconciliation.timers@,
{
    lemma_sync_synthetics_consistent(
        t0.synthetic_state@,
        tpl.synthetics@,
        t1.synthetic_state@,
        now1,
    );
    lemma_sync_changed_consistent(
        t0.reconciliation.changed@,
        tpl.reconciliation.changed@,
        t1.reconciliation.changed@,
    );
    lemma_sync_deleting_consistent(
        t0.reconciliation.deleting@,
        tpl.reconciliation.deleting@,
        t1.reconciliation.deleting@,
    );
    lemma_sync_timers_consistent(
        t0.reconciliation.timers@,
        tpl.reconciliation.timers@,
        t1.reconciliation.timers@,
    );
    lemma_configure_consistent_identity(tpl, t1, t2, now2);
}

/// The annotation entries as plain text, key and value.
pub open spec fn annotation_texts(s: Seq<(String, String)>) -> Seq<(Seq<char>, Seq<char>)> {
    Seq::new(s.len(), |i: int| (s[i].0@, s[i].1@))
}

/// Idempotence: re-running Ensuring on an already-consistent device issues
/// no registry write and no Thing write that would change stored state —
/// both updates carry back exactly the content that was fetched — and the
/// attempt returns Complete.
pub proof fn lemma_ensuring_idempotent(
    rec: TwinReconciler,
    device: model::Device,
    s: model::Thing,
    d: model::Thing,
    r1: Step,
    r2: Step,
    r3: Step,
    r4: Step,
    r5: Step,
    now: i64,
)
    requires
        rec.wf(),
        s.wf(),
        crate::ordmap::distinct_keys(d.annotations@),
        selector_matches(rec.config.label_selector@, device.labels@),
        device.deletion_timestamp is None,
        has_finalizer(device.finalizers@, finalizer()),
        thing_consistent(rec.template, s),
        has_key(d.annotations@, group_key()),
        value_of(d.annotations@, group_key())@ == group_value(),
        rec.changed_rel(device, r1),
        (match r1 {
            Step::Pending(p, _) => rec.step_rel(p, Response::Thing(Some(s)), r2, now),
            _ => false,
        }),
        (match r2 {
            Step::Pending(p, _) => rec.step_rel(p, Response::Done, r3, now),
            _ => false,
        }),
        (match r3 {
            Step::Pending(p, _) => rec.step_rel(p, Response::Thing(Some(d)), r4, now),
            _ => false,
        }),
        (match r4 {
            Step::Pending(p, _) => rec.step_rel(p, Response::Done, r5, now),
            _ => false,
        }),
    ensures
        // the attempt never writes to the registry
        !(r1 matches Step::Pending(_, Request::UpdateDevice(_))),
        !(r2 matches Step::Pending(_, Request::UpdateDevice(_))),
        !(r3 matches Step::Pending(_, Request::UpdateDevice(_))),
        !(r4 matches Step::Pending(_, Request::UpdateDevice(_))),
        // it opens with the sensor fetch
        (match r1 {
            Step::Pending(p, q) => p == (Phase::EnsuringSensorGet { device }) && (match q {
                Request::GetThing { application, name } => application == rec.config.application
                    && name@ == sensor_name_spec(device.name@),
                _ => false,
            }),
            _ => false,
        }),
        // the sensor update writes back exactly what was fetched
        (match r2 {
            Step::Pending(_, Request::UpdateThing(t2)) => {
                &&& t2.application == s.application
                &&& t2.name == s.name
                &&& t2.annotations == s.annotations
                &&& t2.synthetic_state@ == s.synthetic_state@
                &&& t2.reconciliation.changed@ == s.reconciliation.changed@
                &&& t2.reconciliation.deleting@ == s.reconciliation.deleting@
                &&& t2.reconciliation.timers@ == s.reconciliation.timers@
            },
            _ => false,
        }),
        // the device update writes back exactly the text that was fetched
        (match r4 {
            Step::Pending(_, Request::UpdateThing(d2)) => {
                &&& d2.application == d.application
                &&& d2.name == d.name
                &&& d2.synthetic_state == d.synthetic_state
                &&& d2.reconciliation == d.reconciliation
                &&& annotation_texts(d2.annotations@) == annotation_texts(d.annotations@)
            },
            _ => false,
        }),
        r5 == Step::Finished(Outcome::Complete),
{
    match r1 {
        Step::Pending(p1, _) => {
            assert(p1 == (Phase::EnsuringSensorGet { device }));
            match r2 {
                Step::Pending(p2, q2) => {
                    match q2 {
                        Request::UpdateThing(t2) => {
                            assert(thing_configured(rec.template, s, t2, now));
                            lemma_configure_consistent_identity(rec.template, s, t2, now);
                        },
                        _ => {
                            assert(false);
                        },
                    }
                    assert(p2 == (Phase::EnsuringSensorWrite { device, created: false }));
                    match r3 {
                        Step::Pending(p3, _) => {
                            assert(p3 == Phase::EnsuringDeviceGet);
                            match r4 {
                                Step::Pending(p4, q4) => {
                                    assert(p4 == Phase::EnsuringDeviceWrite);
                                    match q4 {
                                        Request::UpdateThing(d2) => {
                                            assert(annotated(d, d2));
                                            lemma_annotation_texts_stamped(
                                                d.annotations@,
                                                d2.annotations@,
                                            );
                                        },
                                        _ => {
                                            assert(false);
                                        },
                                    }
                                },
                                _ => {
                                    assert(false);
                                },
                            }
                        },
                        _ => {
                            assert(false);
                        },
                    }
                },
                _ => {
                    assert(false);
                },
            }
        },
        _ => {
            assert(false);
        },
    }
}

/// Stamping the grouping annotation on a map that already carries it leaves
/// the stored text unchanged.
proof fn lemma_annotation_texts_stamped(a0: Seq<(String, String)>, a1: Seq<(String, String)>)
    requires
        crate::ordmap::distinct_keys(a0),
        has_key(a0, group_key()),
        value_of(a0, group_key())@ == group_value(),
        group_annotated(a0, a1),
    ensures
        annotation_texts(a1) == annotation_texts(a0),
{
    assert(entry_keys(a1) == entry_keys(a0));
    assert(a1.len() == a0.len());
    assert forall|i: int| 0 <= i < a0.len() implies annotation_texts(a1)[i] == annotation_texts(
        a0,
    )[i] by {
        let k = a0[i].0@;
        assert(entry_keys(a0)[i] == k);
        lemma_key_index_unique(a0, k, i);
        assert(entry_keys(a1)[i] == k);
        lemma_key_index_unique(a1, k, i);
        if k == group_key() {
            assert(value_of(a1, k)@ == group_value());
            assert(value_of(a0, k)@ == group_value());
        } else {
            assert(has_key(a0, k));
            assert(value_of(a1, k) == value_of(a0, k));
        }
    }
    assert(annotation_texts(a1) =~= annotation_texts(a0));
}

/// Deletion idempotence: the Missing delete completes whether the sensor
/// Thing existed, did not exist, or the store answered not-found.
pub proof fn lemma_missing_idempotent(
    rec: TwinReconciler,
    response: Response,
    r: Step,
    now: i64,
)
    requires
        response matches Response::Deleted(_) || response == Response::Failed(
            ApiError::NotFound,
        ),
        rec.step_rel(Phase::MissingSensorDelete, response, r, now),
    ensures
        r == Step::Finished(Outcome::Complete),
{
}

/// Finalizer protocol, first half: on a selected device lacking the
/// finalizer, the attempt consists of exactly one registry write — adding
/// the finalizer — no Thing call, and ends in Retry whether the write
/// succeeded or hit a conflict.
pub proof fn lemma_finalizer_protocol(
    rec: TwinReconciler,
    device: model::Device,
    r1: Step,
    write_response: Response,
    r2: Step,
    now: i64,
)
    requires
        !rec.wants_removal(device),
        !has_finalizer(device.finalizers@, finalizer()),
        rec.changed_rel(device, r1),
        write_response == Response::Done || write_response == Response::Failed(
            ApiError::Conflict,
        ),
        (match r1 {
            Step::Pending(p, _) => rec.step_rel(p, write_response, r2, now),
            _ => false,
        }),
    ensures
        (match r1 {
            Step::Pending(p, q) => p == Phase::EnsuringFinalizerAdd && (match q {
                Request::UpdateDevice(dev) => {
                    &&& dev.same_identity(&device)
                    &&& dev.finalizers@.len() == device.finalizers@.len() + 1
                    &&& dev.finalizers@ == device.finalizers@.push(dev.finalizers@.last())
                    &&& dev.finalizers@.last()@ == finalizer()
                },
                _ => false,
            }),
            _ => false,
        }),
        r2 == Step::Finished(Outcome::Retry),
{
}

/// Finalizer protocol, second half: with the finalizer present the attempt
/// proceeds straight to the sensor-facet fetch.
pub proof fn lemma_finalizer_present_proceeds(
    rec: TwinReconciler,
    device: model::Device,
    r1: Step,
)
    requires
        !rec.wants_removal(device),
        has_finalizer(device.finalizers@, finalizer()),
        rec.changed_rel(device, r1),
    ensures
        (match r1 {
            Step::Pending(p, q) => p == (Phase::EnsuringSensorGet { device }) && (match q {
                Request::GetThing { application, name } => application == rec.config.application
                    && name@ == sensor_name_spec(device.name@),
                _ => false,
            }),
            _ => false,
        }),
{
}

/// Selector mismatch and soft-delete route identically: both open Removing
/// with the sensor delete, and once the Thing is gone (deleted or already
/// absent) and the finalizer-removing write is accepted (or the device is
/// gone), the attempt completes.
pub proof fn lemma_removal_converges(
    rec: TwinReconciler,
    device: model::Device,
    r1: Step,
    delete_response: Response,
    r2: Step,
    write_response: Response,
    r3: Step,
    now: i64,
)
    requires
        !selector_matches(rec.config.label_selector@, device.labels@)
            || device.deletion_timestamp is Some,
        rec.changed_rel(device, r1),
        delete_response matches Response::Deleted(_) || delete_response == Response::Failed(
            ApiError::NotFound,
        ),
        (match r1 {
            Step::Pending(p, _) => rec.step_rel(p, delete_response, r2, now),
            _ => false,
        }),
        write_response == Response::Done || write_response == Response::Failed(
            ApiError::NotFound,
        ),
        (match r2 {
            Step::Pending(p, _) => rec.step_rel(p, write_response, r3, now),
            _ => false,
        }),
    ensures
        (match r1 {
            Step::Pending(p, q) => p == (Phase::RemovingSensorDelete { device }) && (match q {
                Request::DeleteThing { application, name } => application
                    == rec.config.application && name@ == sensor_name_spec(device.name@),
                _ => false,
            }),
            _ => false,
        }),
        (match r2 {
            Step::Pending(p, q) => p == Phase::RemovingFinalizerRemove && (match q {
                Request::UpdateDevice(dev) => dev.same_identity(&device) && !has_finalizer(
                    dev.finalizers@,
                    finalizer(),
                ),
                _ => false,
            }),
            _ => false,
        }),
        r3 == Step::Finished(Outcome::Complete),
{
    crate::model::lemma_without_finalizer_pred(device.finalizers@, finalizer());
}

/// Conflict resilience: during Ensuring, every write phase answers a
/// Conflict with Retry — never a propagated error.
pub proof fn lemma_ensuring_conflict_retries(
    rec: TwinReconciler,
    phase: Phase,
    r: Step,
    now: i64,
)
    requires
        phase is EnsuringFinalizerAdd || phase is EnsuringSensorWrite
            || phase is EnsuringDeviceWrite,
        rec.step_rel(phase, Response::Failed(ApiError::Conflict), r, now),
    ensures
        r == Step::Finished(Outcome::Retry),
{
}

} // verus!
