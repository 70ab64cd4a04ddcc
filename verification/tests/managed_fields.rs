use breathe::json::Json;
use breathe::managed_fields::{
    cnpg_cluster_limit_segments, cnpg_storage_segments, field_owners, owns_path,
    pod_template_limit_segments, pvc_request_segments, replicas_segments,
};

fn obj(members: Vec<(&str, Json)>) -> Json {
    Json::Object(members.into_iter().map(|(k, v)| (k.to_string(), v)).collect())
}
fn txt(s: &str) -> Json {
    Json::Text(s.to_string())
}
fn empty() -> Json {
    obj(vec![])
}

fn template_fields(container: &str, resources: Vec<(&str, Json)>) -> Json {
    let key = format!("k:{{\"name\":\"{container}\"}}");
    let limits = obj(vec![("f:resources", obj(vec![("f:limits", obj(resources))]))]);
    obj(vec![(
        "f:spec",
        obj(vec![(
            "f:template",
            obj(vec![(
                "f:spec",
                obj(vec![("f:containers", obj(vec![(key.as_str(), limits)]))]),
            )]),
        )]),
    )])
}

fn entry(manager: &str, fields: Json) -> Json {
    obj(vec![("manager", txt(manager)), ("fieldsV1", fields)])
}

fn deployment_managed_fields() -> Json {
    Json::Array(vec![
        entry(
            "flux",
            obj(vec![("f:metadata", obj(vec![("f:labels", obj(vec![("f:app", empty())]))]))]),
        ),
        entry("vpa-updater", template_fields("app", vec![("f:memory", empty()), ("f:cpu", empty())])),
    ])
}

#[test]
fn finds_the_manager_owning_the_memory_limit() {
    let mf = deployment_managed_fields();
    let segs = pod_template_limit_segments("app", "memory");
    let owners = field_owners(&mf, &segs, "resources.limits.memory");
    assert_eq!(owners.len(), 1);
    assert_eq!(owners[0].manager, "vpa-updater");
    assert_eq!(owners[0].field, "resources.limits.memory");
}

#[test]
fn distinguishes_memory_from_cpu_ownership() {
    let mf = deployment_managed_fields();
    assert_eq!(
        field_owners(&mf, &pod_template_limit_segments("app", "cpu"), "resources.limits.cpu").len(),
        1
    );
    assert!(
        field_owners(&mf, &pod_template_limit_segments("app", "ephemeral-storage"), "x").is_empty()
    );
}

#[test]
fn wrong_container_is_not_a_match() {
    let mf = deployment_managed_fields();
    let owners = field_owners(
        &mf,
        &pod_template_limit_segments("sidecar", "memory"),
        "resources.limits.memory",
    );
    assert!(owners.is_empty(), "container key must match exactly");
}

#[test]
fn breathe_alone_owning_is_no_conflict_upstream() {
    let mf = Json::Array(vec![entry(
        "breathe/memory",
        template_fields("app", vec![("f:memory", empty())]),
    )]);
    let owners = field_owners(
        &mf,
        &pod_template_limit_segments("app", "memory"),
        "resources.limits.memory",
    );
    assert_eq!(owners.len(), 1);
    assert_eq!(owners[0].manager, "breathe/memory");
}

#[test]
fn cnpg_cluster_top_level_resources_path() {
    let mf = Json::Array(vec![entry(
        "cnpg-cloudnative-pg",
        obj(vec![(
            "f:spec",
            obj(vec![(
                "f:resources",
                obj(vec![("f:limits", obj(vec![("f:memory", empty())]))]),
            )]),
        )]),
    )]);
    let owners =
        field_owners(&mf, &cnpg_cluster_limit_segments("memory"), "spec.resources.limits.memory");
    assert_eq!(owners.len(), 1);
    assert_eq!(owners[0].manager, "cnpg-cloudnative-pg");
}

#[test]
fn keda_owns_replicas_not_a_memory_competitor() {
    let mf = Json::Array(vec![entry(
        "keda-operator",
        obj(vec![("f:spec", obj(vec![("f:replicas", empty())]))]),
    )]);
    assert!(field_owners(
        &mf,
        &pod_template_limit_segments("app", "memory"),
        "resources.limits.memory"
    )
    .is_empty());
    assert_eq!(field_owners(&mf, &replicas_segments(), "spec.replicas").len(), 1);
}

#[test]
fn empty_or_missing_managed_fields_is_empty() {
    assert!(field_owners(&Json::Null, &replicas_segments(), "x").is_empty());
    assert!(field_owners(&Json::Array(vec![]), &replicas_segments(), "x").is_empty());
    let nameless = Json::Array(vec![obj(vec![("manager", txt("x"))])]);
    assert!(field_owners(&nameless, &replicas_segments(), "x").is_empty());
}

// ─────────────────────── further cases ───────────────────────

#[test]
fn storage_paths_are_told_apart() {
    let pvc = obj(vec![(
        "f:spec",
        obj(vec![(
            "f:resources",
            obj(vec![("f:requests", obj(vec![("f:storage", empty())]))]),
        )]),
    )]);
    let cnpg = obj(vec![("f:spec", obj(vec![("f:storage", obj(vec![("f:size", empty())]))]))]);
    assert!(owns_path(&pvc, &pvc_request_segments()));
    assert!(!owns_path(&pvc, &cnpg_storage_segments()));
    assert!(owns_path(&cnpg, &cnpg_storage_segments()));
    assert!(!owns_path(&cnpg, &pvc_request_segments()));
}
