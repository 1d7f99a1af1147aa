use bond::index::Index;
use bond::reconcile::{determine_action, error_policy, finalizer_token, reconcile_secret, reconcile_source};
use bond::types::{
    BondAction, DestinationItem, Error, SecretData, Source, SourceItem, SourceMeta, SourceSpec,
};

fn meta(namespace: &str, name: &str) -> SourceMeta {
    SourceMeta {
        namespace: Some(namespace.to_string()),
        name: Some(name.to_string()),
        has_deletion_timestamp: false,
        finalizers: None,
    }
}

fn dest(namespace: &str, name: Option<&str>) -> DestinationItem {
    DestinationItem { namespace: namespace.to_string(), name: name.map(|n| n.to_string()) }
}

fn item(name: &str, destinations: Vec<DestinationItem>) -> SourceItem {
    SourceItem { name: name.to_string(), destinations }
}

fn source(namespace: &str, name: &str, secrets: Vec<SourceItem>) -> Source {
    Source { metadata: meta(namespace, name), spec: SourceSpec { secrets } }
}

fn payload() -> SecretData {
    SecretData { entries: vec![("key".to_string(), vec![1u8, 2, 3])] }
}

#[test]
fn classify_create_without_finalizer_or_deletion() {
    let s = source("a", "x", vec![]);
    assert_eq!(determine_action(&s), BondAction::Create);
}

#[test]
fn classify_create_with_empty_finalizer_list() {
    let mut s = source("a", "x", vec![]);
    s.metadata.finalizers = Some(vec![]);
    assert_eq!(determine_action(&s), BondAction::Create);
}

#[test]
fn classify_delete_wins_over_finalizer() {
    let mut s = source("a", "x", vec![]);
    s.metadata.has_deletion_timestamp = true;
    s.metadata.finalizers = Some(vec!["bind.ectobit.com".to_string()]);
    assert_eq!(determine_action(&s), BondAction::Delete);
    s.metadata.finalizers = None;
    assert_eq!(determine_action(&s), BondAction::Delete);
}

#[test]
fn classify_noop_with_finalizer() {
    let mut s = source("a", "x", vec![]);
    s.metadata.finalizers = Some(vec!["bind.ectobit.com".to_string()]);
    assert_eq!(determine_action(&s), BondAction::NoOp);
}

#[test]
fn destination_identity_defaults_to_item_name() {
    let d = dest("ns2", None);
    let id = bond::identity::destination_identity(&"s1".to_string(), &d);
    assert_eq!(id, "ns2/s1");
}

#[test]
fn destination_identity_uses_explicit_name() {
    let d = dest("ns2", Some("s2"));
    let id = bond::identity::destination_identity(&"s1".to_string(), &d);
    assert_eq!(id, "ns2/s2");
}

#[test]
fn split_identity_two_fields() {
    let r = bond::identity::split_identity("a/b");
    assert_eq!(r, Some(("a".to_string(), "b".to_string())));
}

#[test]
fn split_identity_takes_second_segment() {
    let r = bond::identity::split_identity("a/b/c");
    assert_eq!(r, Some(("a".to_string(), "b".to_string())));
}

#[test]
fn split_identity_without_slash_is_rejected() {
    assert_eq!(bond::identity::split_identity("noslash"), None);
}

#[test]
fn round_trip_one_destination() {
    let mut index = Index::new();
    let s = source("a", "x", vec![item("s", vec![dest("b", None)])]);
    let plan = reconcile_source(&mut index, &s).expect("source reconcile");
    assert!(plan.add_finalizer);
    assert_eq!(plan.requeue_secs, 300);
    assert_eq!(plan.status.expect("status").ready, "0/1");

    let data = payload();
    let secret_plan = reconcile_secret(
        &index,
        &Some("a".to_string()),
        &Some("s".to_string()),
        data.clone(),
    )
    .expect("secret reconcile");
    assert_eq!(secret_plan.creates.len(), 1);
    assert_eq!(secret_plan.creates[0].namespace, "b");
    assert_eq!(secret_plan.creates[0].name, "s");
    assert_eq!(secret_plan.data, data);
    assert_eq!(secret_plan.requeue_secs, 300);
}

#[test]
fn absent_identity_plans_no_creates() {
    let index = Index::new();
    let plan = reconcile_secret(
        &index,
        &Some("a".to_string()),
        &Some("missing".to_string()),
        payload(),
    )
    .expect("secret reconcile");
    assert_eq!(plan.creates.len(), 0);
    assert_eq!(plan.requeue_secs, 300);
}

#[test]
fn all_destinations_planned_past_failures() {
    // Every destination gets its own independent create request in the
    // plan; the controller submits each one and swallows per-destination
    // failures, so one failing create never hides the rest.
    let mut index = Index::new();
    let s = source(
        "a",
        "x",
        vec![item("s", vec![dest("b", None), dest("c", Some("renamed")), dest("d", None)])],
    );
    reconcile_source(&mut index, &s).expect("source reconcile");
    let plan = reconcile_secret(
        &index,
        &Some("a".to_string()),
        &Some("s".to_string()),
        payload(),
    )
    .expect("secret reconcile");
    assert_eq!(plan.creates.len(), 3);
    assert_eq!(plan.creates[0].namespace, "b");
    assert_eq!(plan.creates[0].name, "s");
    assert_eq!(plan.creates[1].namespace, "c");
    assert_eq!(plan.creates[1].name, "renamed");
    assert_eq!(plan.creates[2].namespace, "d");
    assert_eq!(plan.creates[2].name, "s");
}

#[test]
fn status_after_three_items_is_zero_of_three() {
    let mut index = Index::new();
    let s = source(
        "a",
        "x",
        vec![
            item("s1", vec![dest("b", None)]),
            item("s2", vec![dest("b", None)]),
            item("s3", vec![dest("b", None)]),
        ],
    );
    let plan = reconcile_source(&mut index, &s).expect("source reconcile");
    assert_eq!(plan.status.expect("status").ready, "0/3");
}

#[test]
fn registration_is_idempotent() {
    let mut index = Index::new();
    let s = source("a", "x", vec![item("s", vec![dest("b", None)])]);
    reconcile_source(&mut index, &s).expect("first reconcile");
    assert_eq!(index.len(), 1);
    let plan = reconcile_source(&mut index, &s).expect("second reconcile");
    assert_eq!(index.len(), 1);
    assert_eq!(plan.status.expect("status").ready, "0/1");
    // A registered identity keeps its first destination list.
    let dests = index.get(&"a/s".to_string()).expect("entry");
    assert_eq!(dests, &vec!["b/s".to_string()]);
}

#[test]
fn delete_reschedules_only() {
    let mut index = Index::new();
    let mut s = source("a", "x", vec![item("s", vec![dest("b", None)])]);
    s.metadata.has_deletion_timestamp = true;
    let plan = reconcile_source(&mut index, &s).expect("reconcile");
    assert_eq!(index.len(), 0);
    assert!(plan.status.is_none());
    assert!(!plan.add_finalizer);
    assert_eq!(plan.requeue_secs, 300);
}

#[test]
fn noop_reschedules_only() {
    let mut index = Index::new();
    let mut s = source("a", "x", vec![item("s", vec![dest("b", None)])]);
    s.metadata.finalizers = Some(vec!["bind.ectobit.com".to_string()]);
    let plan = reconcile_source(&mut index, &s).expect("reconcile");
    assert_eq!(index.len(), 0);
    assert!(plan.status.is_none());
    assert!(!plan.add_finalizer);
    assert_eq!(plan.requeue_secs, 300);
}

#[test]
fn missing_source_namespace_is_rejected() {
    let mut index = Index::new();
    let mut s = source("a", "x", vec![item("s", vec![dest("b", None)])]);
    s.metadata.namespace = None;
    let err = reconcile_source(&mut index, &s).unwrap_err();
    assert_eq!(err, Error::MissingObjectKey("namespace"));
    assert_eq!(index.len(), 0);
}

#[test]
fn missing_source_name_is_rejected() {
    let mut index = Index::new();
    let mut s = source("a", "x", vec![item("s", vec![dest("b", None)])]);
    s.metadata.name = None;
    let err = reconcile_source(&mut index, &s).unwrap_err();
    assert_eq!(err, Error::MissingObjectKey("name"));
    assert_eq!(index.len(), 0);
}

#[test]
fn missing_secret_identity_is_rejected() {
    let index = Index::new();
    let err = reconcile_secret(&index, &None, &Some("s".to_string()), payload()).unwrap_err();
    assert_eq!(err, Error::MissingObjectKey("namespace"));
    let err = reconcile_secret(&index, &Some("a".to_string()), &None, payload()).unwrap_err();
    assert_eq!(err, Error::MissingObjectKey("name"));
}

#[test]
fn malformed_destination_is_rejected() {
    let mut index = Index::new();
    index.insert("a/s".to_string(), vec!["noslash".to_string()]);
    let err = reconcile_secret(
        &index,
        &Some("a".to_string()),
        &Some("s".to_string()),
        payload(),
    )
    .unwrap_err();
    assert_eq!(err, Error::MissingObjectKey("destination"));
}

#[test]
fn error_policy_requeues_after_sixty() {
    let a = error_policy(&Error::ConfigMapCreationFailed("boom".to_string()));
    assert_eq!(a.requeue_secs, 60);
    let a = error_policy(&Error::MissingObjectKey("namespace"));
    assert_eq!(a.requeue_secs, 60);
}

#[test]
fn finalizer_token_is_fixed() {
    assert_eq!(finalizer_token(), "bind.ectobit.com");
}
