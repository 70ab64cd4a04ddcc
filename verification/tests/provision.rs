use breathe::forma::{Forma, FormaSample, ProvisionReceipt};
use breathe::provider::ProviderError;
use breathe::provision::{
    reconcile_forma, unit_id, FormaDecision, FormaTick, Reconciling, ReconcileEvent, UnitVerdict,
};
use breathe::sim::SimProvedor;

/// Runs a tick: the demand is observed, the decision is given, and each unit is
/// validated by `gate`.
fn tick(
    sample: Result<FormaSample, ProviderError>,
    decision: FormaDecision,
    gate: impl Fn(&str) -> UnitVerdict,
) -> (FormaTick, Vec<String>) {
    let mut pool = Vec::new();
    let mut sample = Some(sample);
    let mut state = reconcile_forma(Forma::NodeOnDemand);
    loop {
        let event = match &state {
            Reconciling::Observe { .. } => ReconcileEvent::Observed(sample.take().unwrap()),
            Reconciling::Decide { forma, .. } => {
                assert_eq!(*forma, Forma::NodeOnDemand);
                ReconcileEvent::Decided(decision)
            }
            Reconciling::Provision { .. } => ReconcileEvent::Provisioned,
            Reconciling::Validate { forma, admitted, rejected, .. } => {
                let id = unit_id(*forma, admitted + rejected);
                let verdict = gate(&id);
                if verdict == UnitVerdict::Ready {
                    pool.push(id);
                }
                ReconcileEvent::Validated(verdict)
            }
            Reconciling::Deprovision { .. } => ReconcileEvent::Deprovisioned,
            Reconciling::Done(t) => return (t.clone(), pool),
        };
        state = state.advance(event);
    }
}

fn seen(used: u64) -> Result<FormaSample, ProviderError> {
    Ok(FormaSample { used, capacity: 100 })
}

const GROW: FormaDecision = FormaDecision::Grow { forma: Forma::NodeOnDemand, delta: 25 };

#[test]
fn grow_provisions_and_admits_into_the_viveiro() {
    let (tick, pool) = tick(seen(90), GROW, |_| UnitVerdict::Ready);
    match tick {
        FormaTick::Grew { forma, requested, admitted, rejected } => {
            assert_eq!(forma, Forma::NodeOnDemand);
            assert!(requested > 0);
            assert_eq!(admitted, requested, "every provisioned unit cleared its checks");
            assert_eq!(rejected, 0);
            assert_eq!(pool.len() as u64, admitted, "the pool holds exactly the admitted units");
        }
        other => panic!("expected Grew, got {other:?}"),
    }
}

#[test]
fn an_undersized_node_is_provisioned_but_never_admitted() {
    let (tick, pool) = tick(seen(90), GROW, |_| UnitVerdict::Rejected);
    match tick {
        FormaTick::Grew { admitted, rejected, requested, .. } => {
            assert_eq!(admitted, 0, "an undersized node must NOT be admitted");
            assert_eq!(rejected, requested);
            assert!(pool.is_empty(), "the pool stays empty — no unvalidated unit");
        }
        other => panic!("expected Grew, got {other:?}"),
    }
}

#[test]
fn a_stub_gate_keeps_everything_out_fail_safe() {
    let (tick, pool) = tick(seen(90), GROW, |_| UnitVerdict::Deferred);
    assert!(matches!(tick, FormaTick::Grew { admitted: 0, .. }));
    assert!(pool.is_empty());
}

#[test]
fn in_band_demand_holds() {
    let (tick, pool) = tick(seen(75), FormaDecision::Hold, |_| UnitVerdict::Ready);
    assert_eq!(tick, FormaTick::Held);
    assert!(pool.is_empty());
}

#[test]
fn demand_beyond_the_envelope_escalates() {
    let decision = FormaDecision::EnvelopeExhausted { forma: Forma::NodeOnDemand, shortfall: 150 };
    let (tick, _) = tick(seen(200), decision, |_| UnitVerdict::Ready);
    match tick {
        FormaTick::EnvelopeExhausted { forma, shortfall } => {
            assert_eq!(forma, Forma::NodeOnDemand);
            assert_eq!(shortfall, 150);
        }
        other => panic!("expected EnvelopeExhausted, got {other:?}"),
    }
}

#[test]
fn provisioned_node_is_not_capacity_until_it_boots() {
    let mut sim = SimProvedor::new(1, 0, 3, 0);
    sim.provision(2);
    assert_eq!(sim.ready_count(), 1, "booting nodes are not yet capacity");
    assert_eq!(sim.provisioning_count(), 2);
    sim.advance();
    sim.advance();
    assert_eq!(sim.ready_count(), 1, "still booting at tick 2 of 3");
    sim.advance();
    assert_eq!(sim.ready_count(), 3, "now Ready — capacity is usable");
    assert_eq!(sim.provisioning_count(), 0);
}

#[test]
fn deprovisioned_node_drains_before_it_is_gone() {
    let mut sim = SimProvedor::new(3, 0, 0, 2);
    let r = sim.deprovision(2);
    assert!(matches!(r, ProvisionReceipt::Applied { delta: -2, .. }));
    assert_eq!(sim.ready_count(), 1);
    assert_eq!(sim.draining_count(), 2);
    sim.advance();
    sim.advance();
    assert_eq!(sim.draining_count(), 0, "drained + terminated after 2 ticks");
}

#[test]
fn deprovision_is_graceful_never_yanks_a_booting_node() {
    let mut sim = SimProvedor::new(1, 0, 5, 1);
    sim.provision(2);
    let r = sim.deprovision(3);
    assert!(matches!(r, ProvisionReceipt::Applied { delta: -1, .. }), "only the Ready node drains");
    assert_eq!(sim.provisioning_count(), 2, "booting nodes untouched");
}

// ─────────────────────── further cases ───────────────────────

#[test]
fn units_are_numbered_and_counted_one_by_one() {
    let three = FormaDecision::Grow { forma: Forma::NodeSpot, delta: 3 };
    let (tick, pool) = tick(seen(90), three, |id| {
        if id == "node-spot-1" {
            UnitVerdict::Expired
        } else {
            UnitVerdict::Ready
        }
    });
    assert_eq!(
        tick,
        FormaTick::Grew { forma: Forma::NodeSpot, requested: 3, admitted: 2, rejected: 1 }
    );
    assert_eq!(pool, vec!["node-spot-0", "node-spot-2"]);
}

#[test]
fn other_outcomes_of_a_tick() {
    let none = FormaDecision::Grow { forma: Forma::NodeSpot, delta: 0 };
    assert_eq!(
        tick(seen(1), none, |_| UnitVerdict::Ready).0,
        FormaTick::Grew { forma: Forma::NodeSpot, requested: 0, admitted: 0, rejected: 0 }
    );
    let shrink = FormaDecision::Shrink { forma: Forma::NodeSpot, delta: 4 };
    assert_eq!(
        tick(seen(1), shrink, |_| UnitVerdict::Ready).0,
        FormaTick::Shrank { forma: Forma::NodeSpot, released: 4 }
    );
    assert_eq!(
        tick(seen(1), FormaDecision::Reshape, |_| UnitVerdict::Ready).0,
        FormaTick::Held
    );
    let e = ProviderError::MetricsMissing;
    assert_eq!(
        tick(Err(e.clone()), GROW, |_| UnitVerdict::Ready).0,
        FormaTick::ObserveError(e.message())
    );
}

#[test]
fn a_report_that_was_not_asked_for_changes_nothing() {
    let state = reconcile_forma(Forma::NodeSpot).advance(ReconcileEvent::Provisioned);
    assert_eq!(state, Reconciling::Observe { forma: Forma::NodeSpot });
}

#[test]
fn a_pool_without_dead_times_changes_at_once() {
    let mut sim = SimProvedor::new(2, 5, 0, 0);
    assert_eq!(sim.observe(), FormaSample { used: 5, capacity: 2 });
    assert_eq!(sim.provision(0), ProvisionReceipt::NoOp);
    assert_eq!(
        sim.provision(1),
        ProvisionReceipt::Applied { delta: 1, plan_id: "sim:provision:1".into() }
    );
    assert_eq!(sim.ready_count(), 3);
    assert_eq!(
        sim.deprovision(9),
        ProvisionReceipt::Applied { delta: -3, plan_id: "sim:deprovision:2".into() }
    );
    assert_eq!(sim.ready_count(), 0);
    assert_eq!(sim.deprovision(1), ProvisionReceipt::NoOp);
    sim.set_demand(8);
    assert_eq!(sim.observe(), FormaSample { used: 8, capacity: 0 });
}
