//! Reconciliation engine that keeps digital-twin objects ("Things") in sync
//! with a device registry.
//!
//! The verified core consists of:
//! - an insertion-order-preserving string-keyed map ([`ordmap::OrderedMap`]),
//! - the data model for devices and Things ([`model`]),
//! - the immutable desired-state template ([`config`]),
//! - the template differencer ([`sync`]), and
//! - the per-device reconciliation state machine ([`twin`]), driven to a
//!   terminal outcome by re-feeding API responses ([`reconciler`], [`operator`]).

use vstd::prelude::*;

pub mod config;
pub mod model;
pub mod operator;
pub mod ordmap;
pub mod reconciler;
pub mod sync;
pub mod twin;

verus! {

/// Static configuration of the operator process: where the event bus and the
/// registry API live, and how to authenticate. Consumed by the unverified
/// shell; kept here because the reconciliation loop is configured from it.
#[derive(Clone, Debug, PartialEq)]
pub struct OperatorConfig {
    /// Mqtt server uri (tcp://host:port)
    pub mqtt_uri: String,
    /// Mqtt group id for a shared subscription (for horizontal scaling)
    pub mqtt_group_id: Option<String>,
    /// API URL
    pub api: String,
    /// Name of the application whose devices are managed
    pub application: String,
    /// Token for authenticating to the registry
    pub token: String,
    /// User for authenticating to the registry
    pub user: String,
    /// Path to a CA bundle
    pub ca_path: Option<String>,
    /// Disable TLS
    pub disable_tls: bool,
    /// Ignore certificate validation
    pub insecure_tls: bool,
    /// Interval between full device scans, in milliseconds
    pub interval: Option<u64>,
}

} // verus!
