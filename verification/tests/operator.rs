use breathe::dimension::DimensionId;
use breathe::gate::{IntentKind, WriteIntent, CONFIRMED_ANNOTATION};
use breathe::json::Json;
use breathe::operator::{
    band_kind, band_view, confirm, error_answer, history_limit, intent_schema, list_view, patch_posture,
    posture_answer, posture_patched, read_intent, referencing_bands, set_dry_run,
    set_write_enabled, set_write_intent, ProjectionView, Request, DEFAULT_HISTORY_LIMIT,
};

fn obj(members: Vec<(&str, Json)>) -> Json {
    Json::Object(members.into_iter().map(|(k, v)| (k.to_string(), v)).collect())
}
fn txt(s: &str) -> Json {
    Json::Text(s.to_string())
}

/// A store that records the patches that reach it.
#[derive(Default)]
struct MockStore {
    patches: Vec<(String, Json)>,
}

impl MockStore {
    /// Writes what is to be written, and gives the answer of what is not.
    fn submit(&mut self, name: &str, request: Request) -> Option<Json> {
        match request {
            Request::Patch(p) => {
                self.patches.push((name.to_string(), p));
                None
            }
            Request::Answer(a) => Some(a),
        }
    }
}

#[test]
fn set_dry_run_refuses_on_every_kind_that_does_not_read_it() {
    let mut mock = MockStore::default();
    for kind in DimensionId::ALL.into_iter().filter(|k| !k.dry_run_is_honored()) {
        let v = mock.submit("b", set_dry_run(kind, true)).expect("refused");
        assert_eq!(v.get("wroteNothing"), Some(&Json::Bool(true)), "{kind:?} must not be told the patch landed");
        assert_eq!(v.get_str("kind"), Some(kind.as_str()));
        assert!(v.get_str("useInstead").unwrap().contains("write_intent"), "{kind:?} must name the replacement");
    }
    assert!(mock.patches.is_empty(), "a refused set_dry_run must reach the store zero times");
}

#[test]
fn set_dry_run_still_applies_on_the_two_param_kinds() {
    for kind in [DimensionId::HostParam, DimensionId::KubeParam] {
        let mut mock = MockStore::default();
        mock.submit("b", set_dry_run(kind, true));
        assert_eq!(mock.patches[0].1, obj(vec![("dryRun", Json::Bool(true))]), "{kind:?} does read dryRun");
    }
}

#[test]
fn set_write_intent_writes_the_authored_intent() {
    let mut mock = MockStore::default();
    mock.submit("coredns-cpu", set_write_intent(IntentKind::Observe, None, None));
    assert_eq!(
        mock.patches[0].1,
        obj(vec![("writeIntent", obj(vec![("intent", txt("observe"))]))])
    );
}

#[test]
fn set_write_intent_refuses_an_unattributed_go_live() {
    let mut mock = MockStore::default();
    for author in [None, Some(String::new()), Some("   ".to_string())] {
        let v = mock
            .submit("b", set_write_intent(IntentKind::Write, None, author.clone()))
            .expect("refused");
        assert_eq!(v.get("wroteNothing"), Some(&Json::Bool(true)), "authorizedBy={author:?} must not go live");
    }
    assert!(mock.patches.is_empty());
    mock.submit(
        "b",
        set_write_intent(IntentKind::Write, None, Some("drzzln 2026-07-26 rightsizing".into())),
    );
    assert_eq!(
        mock.patches[0].1,
        obj(vec![(
            "writeIntent",
            obj(vec![
                ("authorizedBy", txt("drzzln 2026-07-26 rightsizing")),
                ("intent", txt("write")),
            ])
        )])
    );
}

#[test]
fn confirm_sets_and_clears_the_operator_annotation() {
    assert_eq!(confirm(true), obj(vec![(CONFIRMED_ANNOTATION, txt("true"))]));
    assert_eq!(confirm(false), obj(vec![(CONFIRMED_ANNOTATION, Json::Null)]));
}

#[test]
fn every_emitted_write_intent_parses_back_into_the_algebra() {
    let cases = [
        (IntentKind::Observe, None, None, WriteIntent::Observe),
        (IntentKind::Frozen, None, None, WriteIntent::Frozen),
        (
            IntentKind::CalibrateThenWrite,
            Some(900),
            None,
            WriteIntent::CalibrateThenWrite { confirm_after_seconds: 900 },
        ),
        (
            IntentKind::Write,
            None,
            Some("drzzln 2026-07-26".to_string()),
            WriteIntent::Write { authorized_by: "drzzln 2026-07-26".into() },
        ),
    ];
    for (intent, secs, by, expected) in cases {
        let mut mock = MockStore::default();
        mock.submit("b", set_write_intent(intent, secs, by));
        let emitted = mock.patches[0].1.get("writeIntent").unwrap();
        let spec = read_intent(emitted).unwrap_or_else(|| panic!("{emitted:?} must parse"));
        assert_eq!(spec.parse().unwrap(), expected, "emitted {emitted:?} resolved to the wrong intent");
    }
}

#[test]
fn intent_schema_offers_exactly_the_canonical_arms() {
    let schema = intent_schema();
    let offered: Vec<&str> =
        schema.get("enum").unwrap().as_array().unwrap().iter().map(|v| v.as_str().unwrap()).collect();
    let canonical: Vec<&str> = IntentKind::ALL.iter().map(|k| k.as_str()).collect();
    assert_eq!(offered, canonical);
}

#[test]
fn set_write_enabled_patches_the_pool_master_switch() {
    let patch = set_write_enabled(true);
    assert!(patch.render().contains("writeEnabled"));
    assert_eq!(patch, obj(vec![("writeEnabled", Json::Bool(true))]));
}

fn band(name: &str, posture: Option<&str>) -> Json {
    let spec = match posture {
        Some(p) => obj(vec![("postureRef", txt(p)), ("floor", txt("256Mi"))]),
        None => obj(vec![]),
    };
    obj(vec![
        ("metadata", obj(vec![("name", txt(name)), ("namespace", txt("camelot"))])),
        ("spec", spec),
    ])
}

#[test]
fn posture_get_surfaces_the_live_computed_referencing_bands() {
    let answers: Vec<(DimensionId, Option<Json>)> = DimensionId::ALL
        .into_iter()
        .map(|kind| {
            let bands = if kind == DimensionId::Memory {
                vec![band("app-mem", Some("platform-default")), band("other-mem", None)]
            } else {
                vec![band("b", None)]
            };
            (kind, Some(Json::Array(bands)))
        })
        .collect();
    let found = referencing_bands(&answers, "platform-default");
    let posture = obj(vec![("name", txt("platform-default"))]);
    let v = posture_answer(posture, found);
    assert_eq!(v.pointer_str("/posture/name"), Some("platform-default"));
    let refs = v.get("referencingBands").unwrap().as_array().unwrap();
    assert_eq!(refs.len(), 1, "only the one memory band that sets postureRef:platform-default matches");
    assert_eq!(refs[0].get_str("kind"), Some("memory"));
    assert_eq!(refs[0].get_str("name"), Some("app-mem"));
    assert_eq!(refs[0].get_str("namespace"), Some("camelot"));
}

fn setpoint() -> Json {
    obj(vec![("setpoint", Json::Number("0.75".into()))])
}

#[test]
fn posture_patch_dry_run_previews_without_calling_the_store() {
    let mut mock = MockStore::default();
    let v = mock
        .submit("platform-default", patch_posture("platform-default", setpoint(), Some(true)))
        .expect("a preview answers");
    assert!(mock.patches.is_empty(), "dryRun:true must never call patch_posture_spec");
    assert_eq!(v.get("dryRun"), Some(&Json::Bool(true)));
    assert_eq!(v.get("wouldPatch"), Some(&setpoint()));
    assert!(v.get_str("fanOutWarning").unwrap().contains("NEXT reconcile tick"));
    assert!(v.get_str("gitOpsCaveat").unwrap().contains("Flux"));
}

#[test]
fn posture_patch_applies_and_still_carries_the_warnings() {
    let mut mock = MockStore::default();
    mock.submit("platform-default", patch_posture("platform-default", setpoint(), None));
    assert_eq!(mock.patches[0], ("platform-default".to_string(), setpoint()));
    let v = posture_patched(obj(vec![("spec", setpoint())]));
    assert!(v.get_str("fanOutWarning").unwrap().contains("NEXT reconcile tick"));
    assert!(v.get_str("gitOpsCaveat").unwrap().contains("Flux"));
}

// ─────────────────────── further cases ───────────────────────

#[test]
fn one_band_is_shown_richer_than_a_list() {
    assert_eq!(list_view(None), ProjectionView::Summary);
    assert_eq!(band_view(None), ProjectionView::Detail);
    assert_eq!(list_view(Some(ProjectionView::Raw)), ProjectionView::Raw);
    assert_eq!(band_view(Some(ProjectionView::Full)), ProjectionView::Full);
    assert_eq!(history_limit(None), DEFAULT_HISTORY_LIMIT);
    assert_eq!(history_limit(Some(5)), 5);
}

#[test]
fn a_kind_that_could_not_be_listed_is_passed_over() {
    let answers = vec![
        (DimensionId::Cpu, None),
        (DimensionId::Memory, Some(Json::Null)),
        (DimensionId::Storage, Some(Json::Array(vec![band("s", Some("p"))]))),
    ];
    let found = referencing_bands(&answers, "p");
    assert_eq!(found.len(), 1);
    assert_eq!(found[0].get_str("kind"), Some("storage"));
}

#[test]
fn an_error_is_answered_as_an_object() {
    assert_eq!(error_answer("no \"such\" band").render(), "{\"error\":\"no \\\"such\\\" band\"}");
}

#[test]
fn every_dimension_has_a_kind_of_bands() {
    assert_eq!(band_kind(DimensionId::Memory), "MemoryBand");
    assert_eq!(band_kind(DimensionId::CgroupCpu), "CgroupCpuBand");
    assert_eq!(band_kind(DimensionId::HostParam), "HostParamBand");
}
