//! The data model: the `Source` object as the controller sees it, the
//! lifecycle verdict, and the error taxonomy.

use vstd::prelude::*;

verus! {

/// A single replication target: the namespace a copy goes to, and
/// optionally a new name for the copy. When `name` is `None` the copy
/// keeps the source item's name.
#[derive(Debug)]
pub struct DestinationItem {
    pub namespace: String,
    pub name: Option<String>,
}

/// One secret to replicate: its name (within the `Source` object's own
/// namespace) and the list of destinations.
#[derive(Debug)]
pub struct SourceItem {
    pub name: String,
    pub destinations: Vec<DestinationItem>,
}

/// The spec of a `Source` object: the ordered list of secrets to replicate.
#[derive(Debug)]
pub struct SourceSpec {
    pub secrets: Vec<SourceItem>,
}

/// The status published back on a `Source` object: a human-readable
/// "processed/total" counter.
#[derive(Debug)]
pub struct Status {
    pub ready: String,
}

/// The metadata fields of a `Source` object that the reconciler reads.
/// Identity fields are optional because the platform does not guarantee
/// them on every object handed to us; absence is rejected with
/// [`Error::MissingObjectKey`] rather than trusted.
#[derive(Debug)]
pub struct SourceMeta {
    pub namespace: Option<String>,
    pub name: Option<String>,
    /// Whether a deletion timestamp is set on the object.
    pub has_deletion_timestamp: bool,
    /// The object's finalizer list, absent if never claimed.
    pub finalizers: Option<Vec<String>>,
}

/// A `Source` object as delivered by a watch event.
#[derive(Debug)]
pub struct Source {
    pub metadata: SourceMeta,
    pub spec: SourceSpec,
}

/// The lifecycle verdict for a `Source` object.
#[derive(Clone, Copy, Debug, PartialEq, Eq, Structural)]
pub enum BondAction {
    Create,
    Delete,
    NoOp,
}

/// The payload of a secret: opaque binary values keyed by strings,
/// copied verbatim to every destination.
#[derive(Debug, Clone, PartialEq, Eq)]
pub struct SecretData {
    pub entries: Vec<(String, Vec<u8>)>,
}

/// One pending create request: a copy of the source secret's payload is
/// to be created under this identity.
#[derive(Debug)]
pub struct SecretCreate {
    pub namespace: String,
    pub name: String,
}

/// What a `Source` reconciliation asks the surrounding controller to do
/// after the index has been brought up to date.
#[derive(Debug)]
pub struct SourcePlan {
    /// The status to patch onto the object, on the registration path.
    pub status: Option<Status>,
    /// Whether the finalizer token is to be merge-patched onto the object.
    pub add_finalizer: bool,
    /// Delay until the next reconciliation of the same object.
    pub requeue_secs: u64,
}

/// What a secret reconciliation asks the surrounding controller to do:
/// one create per destination, each carrying `data` verbatim.
#[derive(Debug)]
pub struct SecretPlan {
    pub creates: Vec<SecretCreate>,
    pub data: SecretData,
    /// Delay until the next reconciliation of the same object.
    pub requeue_secs: u64,
}

/// A scheduling decision handed back to the work queue.
#[derive(Debug)]
pub struct Action {
    pub requeue_secs: u64,
}

/// Reconciliation failures surfaced to the scheduling layer.
#[derive(Debug, Clone, PartialEq, Eq)]
pub enum Error {
    /// An API write failed; carries the rendered underlying error.
    ConfigMapCreationFailed(String),
    /// A required identity field was absent from an otherwise
    /// well-formed object; names the missing field.
    MissingObjectKey(&'static str),
}

} // verus!
