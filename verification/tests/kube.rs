use breathe::dimension::Target;
use breathe::json::Json;
use breathe::kube::{
    any_restarting, classify_pod_metrics_error, container_resize_not_required, group_version,
    highest, json_scalar_to_string, limit_resize_body, nested_json_under_spec, owner_limit,
    owner_pod_selector, plan_apply, plan_resizes, pod_metric_sample, pod_metric_usages, pod_query,
    read_error, read_qty, reclaim_query, replica_count, request_resize_body,
    request_resources_block, resize_resources_block, signal_query, storage_capability_from,
    storage_class_name_for, template_body, witness_matches_patch, write_error, ApplyPlan,
    LiveObject, PodQuery, StorageClassFacts,
};
use breathe::layout::{HostKnob, LimitLayout, MetricSource, SsaPatch};
use breathe::provider::ProviderError;
use breathe::request::{ClassPreserved, ContainerResources, PodResources, RequestResource};

const GI: u64 = 1 << 30;
const MI: u64 = 1 << 20;

fn obj(members: Vec<(&str, Json)>) -> Json {
    Json::Object(members.into_iter().map(|(k, v)| (k.to_string(), v)).collect())
}
fn arr(items: Vec<Json>) -> Json {
    Json::Array(items)
}
fn txt(s: &str) -> Json {
    Json::Text(s.to_string())
}
fn num(n: u64) -> Json {
    Json::Number(n.to_string())
}
fn limits(resource: &str, value: &str) -> Json {
    obj(vec![("limits", obj(vec![(resource, txt(value))]))])
}
fn both(resource: &str, value: &str) -> Json {
    obj(vec![
        ("limits", obj(vec![(resource, txt(value))])),
        ("requests", obj(vec![(resource, txt(value))])),
    ])
}

#[test]
fn the_request_block_writes_requests_and_never_limits() {
    let block = request_resources_block("memory", 2 * GI);
    assert_eq!(block, obj(vec![("requests", obj(vec![("memory", txt("2147483648"))]))]));
    assert!(block.get("limits").is_none(), "a request carve must NEVER write a limit");
}

#[test]
fn the_request_block_renders_cpu_in_millicores() {
    assert_eq!(
        request_resources_block("cpu", 250),
        obj(vec![("requests", obj(vec![("cpu", txt("250m"))]))])
    );
}

#[test]
fn the_limit_block_and_the_request_block_are_not_interchangeable() {
    let limit_side = resize_resources_block("Guaranteed", "memory", 2 * GI, Some(GI));
    let request_side = request_resources_block("memory", 2 * GI);
    assert!(limit_side.get("limits").is_some(), "the limit builder writes limits");
    assert!(request_side.get("limits").is_none(), "the request builder does not");
    assert_ne!(limit_side, request_side);
}

fn pod() -> PodResources {
    PodResources::new(vec![
        ContainerResources {
            name: "db".into(),
            cpu_request: Some(100),
            cpu_limit: Some(500),
            memory_request: Some(128 * MI),
            memory_limit: Some(GI),
        },
        ContainerResources {
            name: "sidecar".into(),
            cpu_request: Some(10),
            cpu_limit: Some(50),
            memory_request: Some(32 * MI),
            memory_limit: Some(64 * MI),
        },
    ])
}

fn patch_for(container: &str, resource: &str, value: u64) -> SsaPatch {
    SsaPatch {
        target: Target {
            namespace: "camelot-build".into(),
            name: "sui-cache-pg".into(),
            kind: "StatefulSet".into(),
            api_version: "apps/v1".into(),
            container: Some(container.into()),
            pod_selector: None,
        },
        field_manager: "breathe-request".into(),
        layout: LimitLayout::PodRequestResize { container: Some(container.into()) },
        resource: resource.into(),
        value,
    }
}

#[test]
fn an_agreeing_witness_and_patch_pass() {
    let w = ClassPreserved::check(&pod(), "db", RequestResource::Memory, 512 * MI).unwrap();
    assert!(witness_matches_patch(&w, &patch_for("db", "memory", 512 * MI)).is_ok());
}

#[test]
fn a_witness_for_a_different_container_is_refused() {
    let w = ClassPreserved::check(&pod(), "db", RequestResource::Memory, 512 * MI).unwrap();
    assert!(witness_matches_patch(&w, &patch_for("sidecar", "memory", 512 * MI)).is_err());
}

#[test]
fn a_witness_for_a_different_value_or_resource_is_refused() {
    let w = ClassPreserved::check(&pod(), "db", RequestResource::Memory, 512 * MI).unwrap();
    assert!(
        witness_matches_patch(&w, &patch_for("db", "memory", 900 * MI)).is_err(),
        "a witness proving 512Mi is class-safe does not authorize writing 900Mi"
    );
    assert!(
        witness_matches_patch(&w, &patch_for("db", "cpu", 512 * MI)).is_err(),
        "a memory witness does not authorize a cpu write"
    );
}

#[test]
fn a_request_write_on_a_limit_layout_is_refused() {
    let w = ClassPreserved::check(&pod(), "db", RequestResource::Memory, 512 * MI).unwrap();
    let mut p = patch_for("db", "memory", 512 * MI);
    p.layout = LimitLayout::PodResize { container: Some("db".into()) };
    assert!(witness_matches_patch(&w, &p).is_err());
}

#[test]
fn an_unpinned_container_layout_defers_to_the_witness() {
    let w = ClassPreserved::check(&pod(), "db", RequestResource::Memory, 512 * MI).unwrap();
    let mut p = patch_for("db", "memory", 512 * MI);
    p.layout = LimitLayout::PodRequestResize { container: None };
    assert!(witness_matches_patch(&w, &p).is_ok());
}

#[test]
fn guaranteed_pod_keeps_requests_equal_limits_on_grow_and_shrink() {
    assert_eq!(
        resize_resources_block("Guaranteed", "memory", 2 * GI, Some(GI)),
        both("memory", "2147483648")
    );
    assert_eq!(
        resize_resources_block("Guaranteed", "memory", 512 * MI, Some(GI)),
        both("memory", "536870912")
    );
}

#[test]
fn burstable_pod_sets_only_limit_when_request_still_fits() {
    assert_eq!(
        resize_resources_block("Burstable", "memory", 2 * GI, Some(512 * MI)),
        limits("memory", "2147483648")
    );
}

#[test]
fn burstable_pod_clamps_request_down_when_it_would_exceed_the_new_limit() {
    assert_eq!(
        resize_resources_block("Burstable", "memory", 256 * MI, Some(512 * MI)),
        both("memory", "268435456")
    );
}

#[test]
fn besteffort_pod_with_no_request_sets_only_the_limit() {
    assert_eq!(
        resize_resources_block("BestEffort", "memory", GI, None),
        limits("memory", "1073741824")
    );
}

#[test]
fn generic_cr_path_builds_the_nested_ssa_spec() {
    assert_eq!(
        nested_json_under_spec("/spec/trafficPolicy/connectionPool/tcp/maxConnections", num(100)),
        obj(vec![(
            "trafficPolicy",
            obj(vec![(
                "connectionPool",
                obj(vec![("tcp", obj(vec![("maxConnections", num(100))]))])
            )])
        )])
    );
    assert_eq!(
        nested_json_under_spec("/spec/hard/limits.cpu", num(8000)),
        obj(vec![("hard", obj(vec![("limits.cpu", num(8000))]))])
    );
    assert_eq!(json_scalar_to_string(&num(100)), "100");
    assert_eq!(json_scalar_to_string(&txt("10Gi")), "10Gi");
}

#[test]
fn cpu_resize_carries_the_millicores_suffix() {
    assert_eq!(
        resize_resources_block("Guaranteed", "cpu", 500, Some(250)),
        both("cpu", "500m")
    );
}

fn policy(resource: &str, restart: &str) -> Json {
    obj(vec![("resourceName", txt(resource)), ("restartPolicy", txt(restart))])
}
fn pod_of(container: Vec<(&str, Json)>) -> Json {
    obj(vec![("spec", obj(vec![("containers", arr(vec![obj(container)]))]))])
}

#[test]
fn resize_not_required_reads_the_container_policy() {
    let not_required = pod_of(vec![
        ("name", txt("app")),
        (
            "resizePolicy",
            arr(vec![policy("cpu", "NotRequired"), policy("memory", "NotRequired")]),
        ),
    ]);
    let restart_container = pod_of(vec![
        ("name", txt("app")),
        ("resizePolicy", arr(vec![policy("memory", "RestartContainer")])),
    ]);
    let no_policy = pod_of(vec![("name", txt("app"))]);

    let c = Some("app".to_string());
    assert!(container_resize_not_required(&not_required, &c, "memory"));
    assert!(!container_resize_not_required(&restart_container, &c, "memory"));
    assert!(!container_resize_not_required(&no_policy, &c, "memory"));
    assert!(!container_resize_not_required(&not_required, &Some("missing".into()), "memory"));
    assert!(container_resize_not_required(&not_required, &None, "memory"));
}

#[test]
fn storage_class_name_for_reads_the_pvc_field_for_pvc_request() {
    let pvc = obj(vec![(
        "spec",
        obj(vec![
            ("storageClassName", txt("local-path")),
            ("resources", obj(vec![("requests", obj(vec![("storage", txt("10Gi"))]))])),
        ]),
    )]);
    assert_eq!(
        storage_class_name_for(&pvc, &LimitLayout::PvcRequest),
        Some("local-path".to_string())
    );
}

#[test]
fn storage_class_name_for_reads_the_cnpg_cluster_field_for_cluster_storage() {
    let cluster = obj(vec![(
        "spec",
        obj(vec![(
            "storage",
            obj(vec![("storageClass", txt("ebs-gp3")), ("size", txt("10Gi"))]),
        )]),
    )]);
    assert_eq!(
        storage_class_name_for(&cluster, &LimitLayout::ClusterStorage),
        Some("ebs-gp3".to_string())
    );
}

#[test]
fn storage_class_name_for_is_none_when_unset_or_not_applicable() {
    let bare = obj(vec![("spec", obj(vec![]))]);
    assert_eq!(storage_class_name_for(&bare, &LimitLayout::PvcRequest), None);
    let sized =
        obj(vec![("spec", obj(vec![("storage", obj(vec![("size", txt("10Gi"))]))]))]);
    assert_eq!(storage_class_name_for(&sized, &LimitLayout::ClusterStorage), None);
    assert_eq!(
        storage_class_name_for(&bare, &LimitLayout::PodTemplate { container: None }),
        None
    );
}

#[test]
fn storage_capability_from_flags_the_local_path_denylist_as_unsupported() {
    let sc = StorageClassFacts {
        provisioner: "rancher.io/local-path".into(),
        allow_volume_expansion: None,
    };
    let cap = storage_capability_from(&sc);
    assert!(!cap.volume_expansion);
    assert!(!cap.per_volume_metrics);
    assert_eq!(cap.provisioner, "rancher.io/local-path");
    assert!(!cap.is_supported());
}

#[test]
fn storage_capability_from_reports_a_real_elastic_class_as_supported() {
    let sc = StorageClassFacts {
        provisioner: "ebs.csi.aws.com".into(),
        allow_volume_expansion: Some(true),
    };
    assert!(storage_capability_from(&sc).is_supported());
}

#[test]
fn storage_capability_from_treats_no_expansion_as_unsupported_even_off_the_denylist() {
    let sc = StorageClassFacts {
        provisioner: "ebs.csi.aws.com".into(),
        allow_volume_expansion: Some(false),
    };
    let cap = storage_capability_from(&sc);
    assert!(cap.per_volume_metrics);
    assert!(!cap.volume_expansion);
    assert!(!cap.is_supported());
}

#[test]
fn pod_metrics_404_signature_is_classified_as_metrics_server_missing() {
    let raw = "ApiError: \"404 page not found\\n\": Failed to parse error data \
                (ErrorResponse { status: \"404 Not Found\", message: \"\\\"404 page not found\\\\n\\\"\", \
                reason: \"Failed to parse error data\", code: 404 })"
        .to_string();
    match classify_pod_metrics_error(raw.clone()) {
        ProviderError::ApiTransient(msg) => {
            assert!(msg.contains("metrics-server not installed"), "message was: {msg}");
            assert!(msg.contains("metrics.k8s.io"), "message was: {msg}");
            assert!(msg.contains(&raw), "original error text must stay in the message for debugging");
        }
        other => panic!("expected ApiTransient, got {other:?}"),
    }
}

#[test]
fn other_pod_metrics_errors_pass_through_unmodified() {
    let raw = "error trying to connect: tcp connect error".to_string();
    assert_eq!(classify_pod_metrics_error(raw.clone()), ProviderError::ApiTransient(raw));
}

// ─────────────────────── further cases ───────────────────────

fn target(kind: &str, api_version: &str) -> Target {
    Target {
        namespace: "ns".into(),
        name: "app".into(),
        kind: kind.into(),
        api_version: api_version.into(),
        container: None,
        pod_selector: None,
    }
}

fn live(name: &str, data: Json) -> LiveObject {
    LiveObject { name: Some(name.to_string()), data }
}

#[test]
fn an_api_version_splits_into_group_and_version() {
    assert_eq!(
        group_version(&target("Deployment", "apps/v1")),
        ("apps".to_string(), "v1".to_string())
    );
    assert_eq!(group_version(&target("Pod", "v1")), (String::new(), "v1".to_string()));
}

#[test]
fn a_missing_object_is_told_from_a_failing_server() {
    assert_eq!(read_error(Some(404), "gone".into()), ProviderError::TargetNotFound);
    assert!(matches!(read_error(Some(500), "x".into()), ProviderError::ApiTransient(_)));
    assert!(matches!(read_error(None, "x".into()), ProviderError::ApiTransient(_)));
    assert!(matches!(write_error(Some(422), "x".into()), ProviderError::ApiPermanent(_)));
    assert!(matches!(write_error(None, "x".into()), ProviderError::ApiPermanent(_)));
    let ProviderError::ApiTransient(m) = write_error(Some(409), "vpa".into()) else {
        panic!("a conflict yields")
    };
    assert!(m.ends_with("will re-observe: vpa"));
}

#[test]
fn the_highest_reading_wins_and_none_is_zero() {
    assert_eq!(highest(&vec![Some(3), None, Some(9), Some(4)]), 9);
    assert_eq!(highest(&vec![None]), 0);
}

#[test]
fn an_unset_limit_is_zero_and_one_that_is_no_number_an_error() {
    assert_eq!(owner_limit(&Some("1Gi".into()), Some(GI)), Ok(GI));
    assert_eq!(owner_limit(&None, None), Ok(0));
    assert_eq!(owner_limit(&Some("lots".into()), None), Err(ProviderError::NoCapacityField));
}

#[test]
fn pods_are_found_by_labels_or_through_their_owner() {
    let mut t = target("Deployment", "apps/v1");
    assert_eq!(pod_query(&t), PodQuery::Owner);
    t.pod_selector = Some("app=x".into());
    assert_eq!(pod_query(&t), PodQuery::Labels("app=x".into()));
    let owner = obj(vec![(
        "spec",
        obj(vec![(
            "selector",
            obj(vec![("matchLabels", obj(vec![("app", txt("x")), ("tier", txt("db"))]))]),
        )]),
    )]);
    assert_eq!(owner_pod_selector(&owner), Some("app=x,tier=db".to_string()));
    assert_eq!(owner_pod_selector(&obj(vec![])), None);
}

#[test]
fn metrics_are_scanned_by_prefix_or_taken_by_selector() {
    let usage = |v: &str| {
        obj(vec![(
            "containers",
            arr(vec![obj(vec![("usage", obj(vec![("memory", txt(v))]))])]),
        )])
    };
    let items = vec![live("app-1", usage("10Mi")), live("other-1", usage("99Mi"))];
    assert_eq!(
        pod_metric_usages(&items, "memory", "app-", &None),
        Ok(vec!["10Mi".to_string()])
    );
    assert_eq!(pod_metric_usages(&items, "memory", "none-", &None), Ok(Vec::new()));
    assert_eq!(pod_metric_sample(&Vec::new()), Err(ProviderError::MetricsMissing));
    assert_eq!(pod_metric_sample(&vec![None]), Err(ProviderError::MetricsMissing));
    assert_eq!(
        pod_metric_usages(&Vec::new(), "memory", "", &Some("app=x".into())),
        Err(ProviderError::NoTargetPods)
    );
    assert_eq!(pod_metric_sample(&vec![Some(10 * MI)]).unwrap().value, 10 * MI);
}

#[test]
fn a_crash_loop_counts_as_restarting() {
    let waiting = obj(vec![(
        "status",
        obj(vec![(
            "containerStatuses",
            arr(vec![obj(vec![(
                "state",
                obj(vec![("waiting", obj(vec![("reason", txt("CrashLoopBackOff"))]))]),
            )])]),
        )]),
    )]);
    assert!(any_restarting(&vec![live("a", waiting)]));
    assert!(!any_restarting(&vec![live("a", obj(vec![]))]));
}

#[test]
fn resizes_are_planned_for_every_pod_that_has_a_name() {
    let p = pod_of(vec![("name", txt("app"))]);
    let q = pod_of(vec![("name", txt("app"))]);
    let plan = plan_resizes(&vec![live("a", p), live("b", q)], &None).unwrap();
    assert_eq!(plan.steps.len(), 2);
    assert_eq!(plan.steps[1].name, "b");
    assert_eq!(plan.steps[1].container, "app");
    assert!(plan_resizes(&Vec::new(), &None).is_err(), "no pod is nothing to resize");
}

#[test]
fn resize_bodies_name_the_container() {
    let patch = patch_for("db", "memory", GI);
    let pod = obj(vec![("status", obj(vec![("qosClass", txt("Guaranteed"))]))]);
    let body = limit_resize_body(&pod, "db", &patch, Some(MI));
    assert_eq!(body.pointer_str("/spec/containers/0/name"), Some("db"));
    assert_eq!(
        body.pointer_str("/spec/containers/0/resources/requests/memory"),
        Some("1073741824")
    );
    let request = request_resize_body("db", &patch);
    assert_eq!(
        request.pointer_str("/spec/containers/0/resources/requests/memory"),
        Some("1073741824")
    );
    assert_eq!(request.pointer("/spec/containers/0/resources/limits"), None);
}

#[test]
fn the_general_door_refuses_requests_and_hosts() {
    let patch = patch_for("db", "memory", GI);
    assert!(matches!(plan_apply(&patch), ApplyPlan::Refused(ProviderError::ApiPermanent(_))));
    let mut host = patch_for("db", "memory", GI);
    host.layout = LimitLayout::Host(HostKnob::ZfsArcMax);
    assert!(matches!(plan_apply(&host), ApplyPlan::Refused(ProviderError::ApiPermanent(_))));
}

#[test]
fn a_written_template_limit_reads_back() {
    let mut patch = patch_for("db", "memory", GI);
    patch.layout = LimitLayout::PodTemplate { container: Some("db".into()) };
    let ApplyPlan::Send(body) = plan_apply(&patch) else { panic!("a named container is sent") };
    assert_eq!(read_qty(&body, &patch.layout, "memory"), Some("1073741824".to_string()));
    patch.layout = LimitLayout::PodTemplate { container: None };
    assert!(matches!(plan_apply(&patch), ApplyPlan::NeedsContainer));
    assert_eq!(template_body(&patch, &obj(vec![])), Err(ProviderError::NoCapacityField));
    let pod = pod_of(vec![("name", txt("db"))]);
    let owner = obj(vec![("spec", obj(vec![("template", pod)]))]);
    let body = template_body(&patch, &owner).unwrap();
    assert_eq!(read_qty(&body, &patch.layout, "memory"), Some("1073741824".to_string()));
}

#[test]
fn replica_inputs_saturate_and_demand_a_query() {
    assert_eq!(replica_count(7), 7);
    assert_eq!(replica_count(u64::MAX), u32::MAX);
    let q = MetricSource::Prometheus("rate(x)".into());
    assert_eq!(signal_query(&q).unwrap(), "rate(x)");
    let other = MetricSource::PodMetricsMax {
        resource: "cpu".into(),
        pod_prefix: "p".into(),
        selector: None,
    };
    assert!(matches!(signal_query(&other), Err(ProviderError::ApiPermanent(_))));
    assert_eq!(reclaim_query(None), None);
    assert_eq!(reclaim_query(Some(&q)).map(String::as_str), Some("rate(x)"));
}
