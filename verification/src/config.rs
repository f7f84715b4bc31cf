//! The immutable desired-state template, loaded once at process start.
//!
//! A template prescribes, per logical name, the synthetic features and the
//! on-changed / on-deleting / timer handlers a sensor Thing must carry. The
//! unverified shell parses the template document and resolves file-referenced
//! sources, so here every definition's content is inline text.

use vstd::prelude::*;
use crate::model;
use crate::ordmap::OrderedMap;

verus! {

/// Script source text, already resolved to its content.
#[derive(Clone, Debug, PartialEq)]
pub struct Source(pub String);

/// Definition of a synthetic feature: a script, or an alias of another
/// property.
#[derive(Clone, Debug, PartialEq)]
pub enum Synthetic {
    JavaScript(Source),
    Alias(String),
}

impl Synthetic {
    /// The Thing-side feature type this definition prescribes.
    pub open spec fn to_type_spec(self) -> model::SyntheticType {
        match self {
            Synthetic::JavaScript(source) => model::SyntheticType::JavaScript(source.0),
            Synthetic::Alias(alias) => model::SyntheticType::Alias(alias),
        }
    }

    pub fn to_type(&self) -> (r: model::SyntheticType)
        ensures
            r == self.to_type_spec(),
    {
        match self {
            Synthetic::JavaScript(source) => model::SyntheticType::JavaScript(source.0.clone()),
            Synthetic::Alias(alias) => model::SyntheticType::Alias(alias.clone()),
        }
    }
}

/// Definition of handler code.
#[derive(Clone, Debug, PartialEq)]
pub enum Code {
    JavaScript(Source),
}

impl Code {
    /// The Thing-side code this definition prescribes.
    pub open spec fn to_code_spec(self) -> model::Code {
        match self {
            Code::JavaScript(source) => model::Code::JavaScript(source.0),
        }
    }

    pub fn to_code(&self) -> (r: model::Code)
        ensures
            r == self.to_code_spec(),
    {
        match self {
            Code::JavaScript(source) => model::Code::JavaScript(source.0.clone()),
        }
    }
}

/// Definition of a timer-driven handler.
#[derive(Clone, Debug, PartialEq)]
pub struct Timer {
    pub code: Code,
    /// Period between runs, in milliseconds.
    pub period: u64,
}

/// The three handler sections of a template.
#[derive(Clone, Debug, PartialEq)]
pub struct Reconciliation {
    pub changed: OrderedMap<Code>,
    pub deleting: OrderedMap<Code>,
    pub timers: OrderedMap<Timer>,
}

impl Reconciliation {
    pub fn is_empty(&self) -> (b: bool)
        ensures
            b == (self.changed@.len() == 0 && self.deleting@.len() == 0),
    {
        self.changed.is_empty() && self.deleting.is_empty()
    }
}

/// The desired-state descriptor for a sensor Thing.
#[derive(Clone, Debug, PartialEq)]
pub struct ThingTemplate {
    pub reconciliation: Reconciliation,
    pub synthetics: OrderedMap<Synthetic>,
}

impl ThingTemplate {
    pub open spec fn wf(&self) -> bool {
        &&& self.synthetics.wf()
        &&& self.reconciliation.changed.wf()
        &&& self.reconciliation.deleting.wf()
        &&& self.reconciliation.timers.wf()
    }
}

} // verus!
