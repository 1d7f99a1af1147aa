//! A cross-namespace secret replication controller core.
//!
//! An operator declares, through a `Source` object, a set of named secrets
//! and, for each, the namespaces a copy should be created in. This crate
//! holds the verified reconciliation logic: the lifecycle classifier, the
//! desired-mapping index from source secret identities to destination
//! identities, and the planners that turn an observed object into the
//! actions the surrounding controller must perform.

pub mod types;
pub mod identity;
pub mod index;
pub mod status;
pub mod reconcile;

pub use types::{
    Action, BondAction, DestinationItem, Error, SecretCreate, SecretData, SecretPlan, Source,
    SourceItem, SourceMeta, SourcePlan, SourceSpec, Status,
};
pub use index::Index;
pub use reconcile::{
    determine_action, error_policy, finalizer_token, reconcile_secret, reconcile_source,
};
