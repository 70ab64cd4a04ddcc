use breathe::json::Json;
use breathe::pod_cgroup::{
    node_name_from_pod, pod_coords_from_value, resolve_coords, resolve_soft_carve_targets,
    PodCgroupCoords, PodCoordError,
};

fn obj(members: Vec<(&str, Json)>) -> Json {
    Json::Object(members.into_iter().map(|(k, v)| (k.to_string(), v)).collect())
}
fn txt(s: &str) -> Json {
    Json::Text(s.to_string())
}
fn status(name: &str, id: &str) -> Json {
    obj(vec![("name", txt(name)), ("containerID", txt(id))])
}
fn uid(uid: &str) -> Json {
    obj(vec![("uid", txt(uid))])
}

fn burstable_pod() -> Json {
    obj(vec![
        (
            "metadata",
            obj(vec![
                ("uid", txt("abc12345-6789-def0-1234-56789abcdef0")),
                ("name", txt("authentik-worker-xyz")),
            ]),
        ),
        (
            "status",
            obj(vec![
                ("qosClass", txt("Burstable")),
                (
                    "containerStatuses",
                    Json::Array(vec![
                        status("worker", "containerd://deadbeefcafe"),
                        status("istio-proxy", "containerd://feedface"),
                    ]),
                ),
            ]),
        ),
    ])
}

#[test]
fn resolves_the_named_container_coords() {
    let coords = pod_coords_from_value(&burstable_pod(), &Some("worker".into())).unwrap();
    assert_eq!(
        coords,
        PodCgroupCoords {
            qos: "Burstable".into(),
            pod_uid: "abc12345-6789-def0-1234-56789abcdef0".into(),
            container_runtime_id: "containerd://deadbeefcafe".into(),
        }
    );
}

#[test]
fn picks_a_specific_container_never_a_sibling() {
    let coords = pod_coords_from_value(&burstable_pod(), &Some("istio-proxy".into())).unwrap();
    assert_eq!(coords.container_runtime_id, "containerd://feedface");
}

#[test]
fn none_container_takes_the_first_running_one() {
    let coords = pod_coords_from_value(&burstable_pod(), &None).unwrap();
    assert_eq!(coords.container_runtime_id, "containerd://deadbeefcafe");
}

#[test]
fn cri_o_scheme_is_carried_through_for_the_host_agent_to_strip() {
    let pod = obj(vec![
        ("metadata", uid("u")),
        (
            "status",
            obj(vec![
                ("qosClass", txt("Guaranteed")),
                ("containerStatuses", Json::Array(vec![status("c", "cri-o://abc123")])),
            ]),
        ),
    ]);
    assert_eq!(
        pod_coords_from_value(&pod, &Some("c".into())).unwrap().container_runtime_id,
        "cri-o://abc123"
    );
}

#[test]
fn a_missing_uid_is_a_typed_parse_rejection() {
    let pod = obj(vec![(
        "status",
        obj(vec![
            ("qosClass", txt("Burstable")),
            ("containerStatuses", Json::Array(vec![status("c", "containerd://x")])),
        ]),
    )]);
    assert_eq!(pod_coords_from_value(&pod, &Some("c".into())), Err(PodCoordError::NoPodUid));
}

#[test]
fn a_missing_qos_is_a_typed_parse_rejection() {
    let pod = obj(vec![
        ("metadata", uid("u")),
        (
            "status",
            obj(vec![("containerStatuses", Json::Array(vec![status("c", "containerd://x")]))]),
        ),
    ]);
    assert_eq!(pod_coords_from_value(&pod, &Some("c".into())), Err(PodCoordError::NoQosClass));
}

#[test]
fn node_name_is_read_from_spec_node_name() {
    let pod = obj(vec![("spec", obj(vec![("nodeName", txt("rio"))])), ("metadata", uid("u"))]);
    assert_eq!(node_name_from_pod(&pod), Some("rio".to_string()));
    assert_eq!(node_name_from_pod(&obj(vec![("metadata", uid("u"))])), None);
    assert_eq!(node_name_from_pod(&obj(vec![("spec", obj(vec![("nodeName", txt(""))]))])), None);
}

#[test]
fn an_unstarted_container_is_a_typed_parse_rejection_never_a_wrong_path() {
    let pod = obj(vec![
        ("metadata", uid("u")),
        (
            "status",
            obj(vec![
                ("qosClass", txt("Burstable")),
                ("containerStatuses", Json::Array(vec![status("c", "")])),
            ]),
        ),
    ]);
    assert_eq!(
        pod_coords_from_value(&pod, &Some("c".into())),
        Err(PodCoordError::NoContainerId { container: Some("c".into()) })
    );
    assert_eq!(
        pod_coords_from_value(&burstable_pod(), &Some("missing".into())),
        Err(PodCoordError::NoContainerId { container: Some("missing".into()) })
    );
}

// ─────────────────────── further cases ───────────────────────

#[test]
fn pods_without_coordinates_are_passed_over() {
    let pods = vec![obj(vec![]), burstable_pod()];
    assert_eq!(resolve_coords(&pods, &None).len(), 1);
    assert!(
        resolve_soft_carve_targets(&pods, &None).is_empty(),
        "a pod on no node is no target of a node"
    );
}

#[test]
fn each_rejection_has_words() {
    for e in [
        PodCoordError::NoPodUid,
        PodCoordError::NoQosClass,
        PodCoordError::NoContainerId { container: None },
        PodCoordError::NoContainerId { container: Some("app".into()) },
    ] {
        assert!(!e.message().is_empty());
    }
    assert!(PodCoordError::NoContainerId { container: Some("app".into()) }
        .message()
        .contains("app"));
}
