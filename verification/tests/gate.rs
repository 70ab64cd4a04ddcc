use breathe::gate::{
    authored_write_gate, legacy_two_state_gate, resolve_gate, ConfirmVerdict, GateInputs,
    GateState, IntentError, IntentKind, LegacyDecision, LegacyPath, LegacyPathKind, LiveWitness,
    ShadowReason, ShadowReasonKind, WitnessKind, WriteIntent, WriteIntentSpec,
};
use breathe::json::Json;
use breathe::operator::{intent_json, read_intent};

fn inputs(intent: Option<WriteIntent>) -> GateInputs {
    raw(intent.map(Ok))
}

fn raw(intent: Option<Result<WriteIntent, IntentError>>) -> GateInputs {
    GateInputs {
        intent,
        frozen: false,
        confirm: ConfirmVerdict::NotEvaluated,
        legacy: LegacyDecision::Shadow(ShadowReason::NotReady),
    }
}

fn obj(members: Vec<(&str, Json)>) -> Json {
    Json::Object(members.into_iter().map(|(k, v)| (k.to_string(), v)).collect())
}

#[test]
fn intent_kind_all_is_total_and_labels_match_serde() {
    assert_eq!(IntentKind::ALL.len(), 4);
    for k in IntentKind::ALL {
        assert_eq!(
            IntentKind::ALL.iter().filter(|x| **x == k).count(),
            1,
            "{k:?} appears twice in ALL"
        );
        let json = intent_json(&WriteIntentSpec {
            intent: k,
            confirm_after_seconds: None,
            authorized_by: None,
        });
        assert_eq!(json.get_str("intent"), Some(k.as_str()), "label != as_str for {k:?}");
        let back = read_intent(&json).unwrap();
        assert_eq!(back.intent, k);
    }
}

#[test]
fn unauthored_band_past_its_window_is_live_via_a_named_legacy_path() {
    let g = resolve_gate(&GateInputs {
        legacy: LegacyDecision::Apply(LegacyPath::ConfirmGate { required_secs: 1800 }),
        ..inputs(None)
    });
    assert!(g.is_live(), "an unauthored, promoted band IS live — dryRun does not hold it");
    let w = g.witness().expect("live");
    assert!(w.is_legacy_default(), "and it is attributable as migration debt");
    assert_eq!(w.legacy_path(), Some(LegacyPath::ConfirmGate { required_secs: 1800 }));
    assert_eq!(w.kind(), WitnessKind::LegacyDefault);
}

#[test]
fn accidental_shadow_is_distinguishable_from_authored_shadow() {
    let accidental = resolve_gate(&inputs(None));
    let authored = resolve_gate(&inputs(Some(WriteIntent::Observe)));
    assert_eq!(accidental.shadow_reason(), Some(ShadowReason::NotReady));
    assert_eq!(authored.shadow_reason(), Some(ShadowReason::ModeShadow));
    assert_ne!(accidental, authored);
}

#[test]
fn an_external_freeze_overrides_even_an_explicit_write_intent() {
    let g = resolve_gate(&GateInputs {
        frozen: true,
        ..inputs(Some(WriteIntent::Write { authorized_by: "drzzln 2026-07-26".into() }))
    });
    assert!(g.is_shadow(), "the two-key rule: a freeze wins over any intent");
    assert_eq!(g.shadow_reason(), Some(ShadowReason::Frozen));
}

#[test]
fn an_authored_intent_overrides_the_legacy_chain() {
    let g = resolve_gate(&GateInputs {
        legacy: LegacyDecision::Apply(LegacyPath::ModeEffect),
        ..inputs(Some(WriteIntent::Observe))
    });
    assert!(g.is_shadow(), "writeIntent > mode");
}

#[test]
fn an_explicit_write_names_its_author() {
    let g = resolve_gate(&inputs(Some(WriteIntent::Write {
        authorized_by: "drzzln: neo4j sized by hand".into(),
    })));
    assert_eq!(
        g.witness().and_then(LiveWitness::authorized_by),
        Some("drzzln: neo4j sized by hand")
    );
    assert!(!g.witness().unwrap().is_legacy_default(), "an authored write is not migration debt");
}

#[test]
fn frozen_intent_holds_but_stays_distinguishable_from_a_pool_freeze() {
    let authored = resolve_gate(&inputs(Some(WriteIntent::Frozen)));
    assert_eq!(authored.shadow_reason(), Some(ShadowReason::Suspended));
    let external = resolve_gate(&GateInputs { frozen: true, ..inputs(None) });
    assert_eq!(external.shadow_reason(), Some(ShadowReason::Frozen));
}

#[test]
fn calibration_shadows_until_the_window_elapses_then_witnesses_the_gate() {
    let pending = resolve_gate(&GateInputs {
        confirm: ConfirmVerdict::Pending { held_secs: 400, required_secs: 1800 },
        ..inputs(Some(WriteIntent::CalibrateThenWrite { confirm_after_seconds: 1800 }))
    });
    assert_eq!(
        pending.shadow_reason(),
        Some(ShadowReason::ConfirmPending { held_secs: 400, need_secs: 1800 }),
        "and the operator is told how much longer, not 'dryRun'"
    );

    let passed = resolve_gate(&GateInputs {
        confirm: ConfirmVerdict::Passed {
            ready_since_epoch: 1000,
            held_secs: 1801,
            required_secs: 1800,
        },
        ..inputs(Some(WriteIntent::CalibrateThenWrite { confirm_after_seconds: 1800 }))
    });
    assert_eq!(passed.witness().map(LiveWitness::kind), Some(WitnessKind::ConfirmGatePassed));
}

#[test]
fn a_calibrating_intent_with_an_unevaluated_gate_fails_safe() {
    let g = resolve_gate(&inputs(Some(WriteIntent::CalibrateThenWrite {
        confirm_after_seconds: 900,
    })));
    assert!(g.is_shadow(), "an unevaluated gate must never promote");
}

#[test]
fn a_blocked_gate_reports_the_hard_condition_not_a_pending_window() {
    for r in [ShadowReason::Stale, ShadowReason::Conflict, ShadowReason::NotReady] {
        let g = resolve_gate(&GateInputs {
            confirm: ConfirmVerdict::Blocked(r),
            ..inputs(Some(WriteIntent::CalibrateThenWrite { confirm_after_seconds: 1800 }))
        });
        assert_eq!(g.shadow_reason(), Some(r));
    }
}

#[test]
fn the_operator_annotation_is_its_own_witness() {
    let g = resolve_gate(&GateInputs {
        confirm: ConfirmVerdict::OperatorConfirmed,
        ..inputs(Some(WriteIntent::CalibrateThenWrite { confirm_after_seconds: 1800 }))
    });
    assert_eq!(g.witness().map(LiveWitness::kind), Some(WitnessKind::OperatorAnnotation));
}

#[test]
fn a_legacy_report_carries_the_burn_down_signal() {
    let g = resolve_gate(&GateInputs {
        legacy: LegacyDecision::Apply(LegacyPath::TwoStateDryRun),
        ..inputs(None)
    });
    let r = g.report();
    assert_eq!(r.state, GateState::Live);
    assert_eq!(r.legacy_path, Some(LegacyPathKind::TwoStateDryRun));
}

#[test]
fn a_shadow_report_carries_the_reason_and_no_witness() {
    let r = resolve_gate(&inputs(None)).report();
    assert_eq!(r.state, GateState::Shadow);
    assert_eq!(r.reason, Some(ShadowReasonKind::NotReady));
    assert!(r.witness.is_none() && r.authorized_by.is_none());
}

#[test]
fn a_write_intent_without_an_author_is_rejected() {
    for a in [None, Some(""), Some("   ")] {
        let spec = WriteIntentSpec {
            intent: IntentKind::Write,
            confirm_after_seconds: None,
            authorized_by: a.map(ToOwned::to_owned),
        };
        assert_eq!(
            spec.parse(),
            Err(IntentError::UnattributedWrite),
            "author {a:?} must not authorize"
        );
    }
    let named = WriteIntentSpec {
        intent: IntentKind::Write,
        confirm_after_seconds: None,
        authorized_by: Some("  drzzln 2026-07-26  ".into()),
    };
    assert_eq!(
        named.parse(),
        Ok(WriteIntent::Write { authorized_by: "drzzln 2026-07-26".into() })
    );
}

#[test]
fn an_unparseable_intent_fails_safe_and_is_named() {
    let g = resolve_gate(&GateInputs {
        legacy: LegacyDecision::Apply(LegacyPath::ModeEffect),
        ..raw(Some(Err(IntentError::UnattributedWrite)))
    });
    assert!(g.is_shadow(), "a malformed intent must never authorize a write");
    assert_eq!(g.shadow_reason(), Some(ShadowReason::IntentMalformed));
}

#[test]
fn the_wire_shape_is_flat_and_camel_cased() {
    let spec = read_intent(&obj(vec![
        ("intent", Json::Text("calibrateThenWrite".into())),
        ("confirmAfterSeconds", Json::Number("900".into())),
    ]))
    .expect("flat");
    assert_eq!(
        spec.parse(),
        Ok(WriteIntent::CalibrateThenWrite { confirm_after_seconds: 900 })
    );
    let json = intent_json(&spec);
    assert!(json.get("intent").is_some() && json.get("confirmAfterSeconds").is_some());
    assert!(json.get("authorizedBy").is_none(), "absent optionals stay absent");
}

#[test]
fn calibration_defaults_its_window_and_absence_is_never_a_silent_intent() {
    let spec = read_intent(&obj(vec![("intent", Json::Text("calibrateThenWrite".into()))]))
        .expect("defaults");
    assert_eq!(
        spec.parse(),
        Ok(WriteIntent::CalibrateThenWrite { confirm_after_seconds: 1800 })
    );
    assert!(read_intent(&obj(vec![])).is_none(), "absence is never a silent intent");
}

#[test]
fn may_write_partitions_the_intents() {
    assert!(WriteIntent::Write { authorized_by: "x".into() }.may_write());
    assert!(WriteIntent::CalibrateThenWrite { confirm_after_seconds: 1 }.may_write());
    assert!(!WriteIntent::Observe.may_write());
    assert!(!WriteIntent::Frozen.may_write());
}

// ─────────────────────── further cases ───────────────────────

#[test]
fn reports_carry_what_their_witness_knows() {
    let passed = resolve_gate(&GateInputs {
        confirm: ConfirmVerdict::Passed {
            ready_since_epoch: 1000,
            held_secs: 1801,
            required_secs: 1800,
        },
        ..inputs(Some(WriteIntent::CalibrateThenWrite { confirm_after_seconds: 1800 }))
    })
    .report();
    assert_eq!(passed.ready_since_epoch, Some(1000));
    assert_eq!(passed.held_secs, Some(1801));
    assert_eq!(passed.need_secs, Some(1800));
    assert_eq!(passed.reason, None);
    let pending = resolve_gate(&inputs(Some(WriteIntent::CalibrateThenWrite {
        confirm_after_seconds: u64::MAX,
    })))
    .report();
    assert_eq!(pending.reason, Some(ShadowReasonKind::ConfirmPending));
    assert_eq!(pending.need_secs, Some(i64::MAX), "a window beyond the range saturates");
}

#[test]
fn the_two_short_ways_to_a_verdict() {
    assert_eq!(
        authored_write_gate(" drzzln ").witness().and_then(LiveWitness::authorized_by),
        Some("drzzln")
    );
    assert_eq!(
        authored_write_gate("  ").shadow_reason(),
        Some(ShadowReason::IntentMalformed)
    );
    assert!(legacy_two_state_gate(true, false).is_shadow());
    assert!(legacy_two_state_gate(false, false).is_live());
    assert_eq!(legacy_two_state_gate(false, true).shadow_reason(), Some(ShadowReason::Frozen));
}

#[test]
fn a_written_intent_of_another_type_is_refused() {
    let of = |secs: Json, by: Json| {
        read_intent(&obj(vec![
            ("intent", Json::Text("write".into())),
            ("confirmAfterSeconds", secs),
            ("authorizedBy", by),
        ]))
    };
    assert!(of(Json::Null, Json::Null).is_some());
    assert!(of(Json::Text("900".into()), Json::Null).is_none());
    assert!(of(Json::Null, Json::Bool(true)).is_none());
    assert!(read_intent(&obj(vec![("intent", Json::Text("go".into()))])).is_none());
}
