//! One tick of provisioning a shape of capacity: observe, decide, act, and let
//! only validated units into the pool.
//!
//! The tick is a state machine. The state names the next call, the caller makes
//! it and hands the outcome back.

use vstd::prelude::*;

use crate::forma::{Forma, FormaSample};
use crate::provider::ProviderError;
use crate::text::decimal_text;

verus! {

/// What one tick did.
#[derive(Debug, PartialEq, Eq)]
pub enum FormaTick {
    /// Nothing: the demand is in its band.
    Held,
    /// Units were asked for; some were validated into the pool, the others not.
    Grew { forma: Forma, requested: u64, admitted: u64, rejected: u64 },
    /// Units were given up.
    Shrank { forma: Forma, released: u64 },
    /// The demand exceeds what may be provisioned.
    EnvelopeExhausted { forma: Forma, shortfall: u64 },
    /// The demand could not be observed.
    ObserveError(String),
}

impl Clone for FormaTick {
    fn clone(&self) -> (r: Self)
        ensures
            r == *self,
    {
        match self {
            FormaTick::Held => FormaTick::Held,
            FormaTick::Grew { forma, requested, admitted, rejected } => FormaTick::Grew {
                forma: *forma,
                requested: *requested,
                admitted: *admitted,
                rejected: *rejected,
            },
            FormaTick::Shrank { forma, released } => FormaTick::Shrank {
                forma: *forma,
                released: *released,
            },
            FormaTick::EnvelopeExhausted { forma, shortfall } => FormaTick::EnvelopeExhausted {
                forma: *forma,
                shortfall: *shortfall,
            },
            FormaTick::ObserveError(m) => FormaTick::ObserveError(m.clone()),
        }
    }
}

/// A tick with its text as characters.
pub enum TickView {
    /// Nothing: the demand is in its band.
    Held,
    /// Units were asked for.
    Grew { forma: Forma, requested: u64, admitted: u64, rejected: u64 },
    /// Units were given up.
    Shrank { forma: Forma, released: u64 },
    /// The demand exceeds what may be provisioned.
    EnvelopeExhausted { forma: Forma, shortfall: u64 },
    /// The demand could not be observed.
    ObserveError(Seq<char>),
}

impl View for FormaTick {
    type V = TickView;

    open spec fn view(&self) -> TickView {
        match *self {
            FormaTick::Held => TickView::Held,
            FormaTick::Grew { forma, requested, admitted, rejected } => TickView::Grew {
                forma,
                requested,
                admitted,
                rejected,
            },
            FormaTick::Shrank { forma, released } => TickView::Shrank { forma, released },
            FormaTick::EnvelopeExhausted { forma, shortfall } => TickView::EnvelopeExhausted {
                forma,
                shortfall,
            },
            FormaTick::ObserveError(m) => TickView::ObserveError(m@),
        }
    }
}

/// What was decided about a shape.
#[derive(Debug, Clone, Copy, PartialEq, Eq, Structural)]
pub enum FormaDecision {
    /// Keep what there is.
    Hold,
    /// Ask for units.
    Grow { forma: Forma, delta: u64 },
    /// Give units up.
    Shrink { forma: Forma, delta: u64 },
    /// Another shape would do better.
    Reshape,
    /// The demand exceeds what may be provisioned.
    EnvelopeExhausted { forma: Forma, shortfall: u64 },
}

/// The outcome of validating one unit.
#[derive(Debug, Clone, Copy, PartialEq, Eq, Structural)]
pub enum UnitVerdict {
    /// It passed every gate.
    Ready,
    /// A gate refused it.
    Rejected,
    /// A gate has not decided yet.
    Deferred,
    /// A gate has put its decision off too often.
    Expired,
}

/// A tick under way: each state but the last awaits one outcome.
#[derive(Debug, PartialEq, Eq)]
pub enum Reconciling {
    /// The demand for the shape is to be observed.
    Observe { forma: Forma },
    /// What to do about the shape, with the sample at hand, is to be decided.
    Decide { forma: Forma, sample: FormaSample },
    /// Units are to be asked for.
    Provision { forma: Forma, delta: u64 },
    /// The unit with the number `admitted + rejected` is to be validated.
    Validate { forma: Forma, delta: u64, admitted: u64, rejected: u64 },
    /// Units are to be given up.
    Deprovision { forma: Forma, delta: u64 },
    /// The tick is over.
    Done(FormaTick),
}

/// A tick under way with its text as characters.
pub enum ReconcilingView {
    /// The demand for the shape is to be observed.
    Observe { forma: Forma },
    /// What to do about the shape, with the sample at hand, is to be decided.
    Decide { forma: Forma, sample: FormaSample },
    /// Units are to be asked for.
    Provision { forma: Forma, delta: u64 },
    /// A unit is to be validated.
    Validate { forma: Forma, delta: u64, admitted: u64, rejected: u64 },
    /// Units are to be given up.
    Deprovision { forma: Forma, delta: u64 },
    /// The tick is over.
    Done(TickView),
}

impl View for Reconciling {
    type V = ReconcilingView;

    open spec fn view(&self) -> ReconcilingView {
        match *self {
            Reconciling::Observe { forma } => ReconcilingView::Observe { forma },
            Reconciling::Decide { forma, sample } => ReconcilingView::Decide { forma, sample },
            Reconciling::Provision { forma, delta } => ReconcilingView::Provision { forma, delta },
            Reconciling::Validate { forma, delta, admitted, rejected } => {
                ReconcilingView::Validate { forma, delta, admitted, rejected }
            },
            Reconciling::Deprovision { forma, delta } => ReconcilingView::Deprovision {
                forma,
                delta,
            },
            Reconciling::Done(t) => ReconcilingView::Done(t@),
        }
    }
}

impl ReconcilingView {
    /// While units are validated, there is one left.
    pub open spec fn well_formed(self) -> bool {
        match self {
            ReconcilingView::Validate { delta, admitted, rejected, .. } => admitted + rejected
                < delta,
            _ => true,
        }
    }
}

/// What was reported to a tick.
#[derive(Debug, PartialEq, Eq)]
pub enum ReconcileEvent {
    /// The demand, or why it could not be observed.
    Observed(Result<FormaSample, ProviderError>),
    /// What was decided.
    Decided(FormaDecision),
    /// Units were asked for, with whatever outcome.
    Provisioned,
    /// A unit was validated.
    Validated(UnitVerdict),
    /// Units were given up, with whatever outcome.
    Deprovisioned,
}

/// The state in which the next unit is validated, or the end where none is left.
pub open spec fn validating(forma: Forma, delta: u64, admitted: u64, rejected: u64) -> ReconcilingView {
    if admitted + rejected < delta {
        ReconcilingView::Validate { forma, delta, admitted, rejected }
    } else {
        ReconcilingView::Done(TickView::Grew { forma, requested: delta, admitted, rejected })
    }
}

/// The state after a report; one that was not asked for changes nothing.
pub open spec fn reconcile_step(state: ReconcilingView, event: ReconcileEvent) -> ReconcilingView {
    match (state, event) {
        (ReconcilingView::Observe { forma }, ReconcileEvent::Observed(r)) => match r {
            Ok(sample) => ReconcilingView::Decide { forma, sample },
            Err(e) => ReconcilingView::Done(TickView::ObserveError(e@.words())),
        },
        (ReconcilingView::Decide { forma: _, sample: _ }, ReconcileEvent::Decided(d)) => match d {
            FormaDecision::Hold => ReconcilingView::Done(TickView::Held),
            FormaDecision::Reshape => ReconcilingView::Done(TickView::Held),
            FormaDecision::EnvelopeExhausted { forma, shortfall } => ReconcilingView::Done(
                TickView::EnvelopeExhausted { forma, shortfall },
            ),
            FormaDecision::Grow { forma, delta } => ReconcilingView::Provision { forma, delta },
            FormaDecision::Shrink { forma, delta } => ReconcilingView::Deprovision { forma, delta },
        },
        (ReconcilingView::Provision { forma, delta }, ReconcileEvent::Provisioned) => validating(
            forma,
            delta,
            0,
            0,
        ),
        (
            ReconcilingView::Validate { forma, delta, admitted, rejected },
            ReconcileEvent::Validated(v),
        ) => if v is Ready {
            validating(forma, delta, (admitted + 1) as u64, rejected)
        } else {
            validating(forma, delta, admitted, (rejected + 1) as u64)
        },
        (ReconcilingView::Deprovision { forma, delta }, ReconcileEvent::Deprovisioned) => {
            ReconcilingView::Done(TickView::Shrank { forma, released: delta })
        },
        (s, _) => s,
    }
}

/// The identity of a unit: its shape and its number.
#[must_use]
pub fn unit_id(forma: Forma, number: u64) -> (r: String)
    ensures
        r@ == forma.name() + "-"@ + crate::text::decimal(number as nat),
{
    let mut s = forma.as_str().to_owned();
    s.append("-");
    s.append(decimal_text(number).as_str());
    s
}

/// The start of a tick for a shape.
#[must_use]
pub fn reconcile_forma(forma: Forma) -> (r: Reconciling)
    ensures
        r@ == (ReconcilingView::Observe { forma }),
        r@.well_formed(),
{
    Reconciling::Observe { forma }
}

fn validate_next(forma: Forma, delta: u64, admitted: u64, rejected: u64) -> (r: Reconciling)
    requires
        admitted + rejected <= delta,
    ensures
        r@ == validating(forma, delta, admitted, rejected),
        r@.well_formed(),
{
    if admitted + rejected < delta {
        Reconciling::Validate { forma, delta, admitted, rejected }
    } else {
        Reconciling::Done(FormaTick::Grew { forma, requested: delta, admitted, rejected })
    }
}

impl Reconciling {
    /// The state after a report.
    #[must_use]
    pub fn advance(self, event: ReconcileEvent) -> (r: Self)
        requires
            self@.well_formed(),
        ensures
            r@ == reconcile_step(self@, event),
            r@.well_formed(),
    {
        match (self, event) {
            (Reconciling::Observe { forma }, ReconcileEvent::Observed(r)) => match r {
                Ok(sample) => Reconciling::Decide { forma, sample },
                Err(e) => Reconciling::Done(FormaTick::ObserveError(e.message())),
            },
            (Reconciling::Decide { forma: _, sample: _ }, ReconcileEvent::Decided(d)) => match d {
                FormaDecision::Hold | FormaDecision::Reshape => Reconciling::Done(FormaTick::Held),
                FormaDecision::EnvelopeExhausted { forma, shortfall } => Reconciling::Done(
                    FormaTick::EnvelopeExhausted { forma, shortfall },
                ),
                FormaDecision::Grow { forma, delta } => Reconciling::Provision { forma, delta },
                FormaDecision::Shrink { forma, delta } => Reconciling::Deprovision { forma, delta },
            },
            (Reconciling::Provision { forma, delta }, ReconcileEvent::Provisioned) => {
                validate_next(forma, delta, 0, 0)
            },
            (
                Reconciling::Validate { forma, delta, admitted, rejected },
                ReconcileEvent::Validated(v),
            ) => match v {
                UnitVerdict::Ready => validate_next(forma, delta, admitted + 1, rejected),
                _ => validate_next(forma, delta, admitted, rejected + 1),
            },
            (Reconciling::Deprovision { forma, delta }, ReconcileEvent::Deprovisioned) => {
                Reconciling::Done(FormaTick::Shrank { forma, released: delta })
            },
            (s, _) => s,
        }
    }
}

// ─────────────────────── laws ───────────────────────

/// How many units passed.
pub open spec fn passed(verdicts: Seq<UnitVerdict>) -> nat
    decreases verdicts.len(),
{
    if verdicts.len() == 0 {
        0
    } else {
        passed(verdicts.drop_first()) + if verdicts[0] is Ready {
            1nat
        } else {
            0nat
        }
    }
}

/// The state after a run of verdicts.
pub open spec fn validated_run(state: ReconcilingView, verdicts: Seq<UnitVerdict>) -> ReconcilingView
    decreases verdicts.len(),
{
    if verdicts.len() == 0 {
        state
    } else {
        validated_run(
            reconcile_step(state, ReconcileEvent::Validated(verdicts[0])),
            verdicts.drop_first(),
        )
    }
}

proof fn lemma_passed_bounded(verdicts: Seq<UnitVerdict>)
    ensures
        passed(verdicts) <= verdicts.len(),
    decreases verdicts.len(),
{
    if verdicts.len() > 0 {
        lemma_passed_bounded(verdicts.drop_first());
    }
}

proof fn lemma_validated_run(
    forma: Forma,
    delta: u64,
    admitted: u64,
    rejected: u64,
    verdicts: Seq<UnitVerdict>,
)
    requires
        admitted + rejected + verdicts.len() == delta,
    ensures
        validated_run(validating(forma, delta, admitted, rejected), verdicts)
            == ReconcilingView::Done(
            TickView::Grew {
                forma,
                requested: delta,
                admitted: (admitted + passed(verdicts)) as u64,
                rejected: (rejected + verdicts.len() - passed(verdicts)) as u64,
            },
        ),
    decreases verdicts.len(),
{
    lemma_passed_bounded(verdicts);
    if verdicts.len() > 0 {
        let rest = verdicts.drop_first();
        lemma_passed_bounded(rest);
        if verdicts[0] is Ready {
            lemma_validated_run(forma, delta, (admitted + 1) as u64, rejected, rest);
        } else {
            lemma_validated_run(forma, delta, admitted, (rejected + 1) as u64, rest);
        }
    }
}

/// A growth accounts for every unit that it asked for: those that passed every
/// gate are in the pool, and no other is, whether it was refused, put off or
/// expired.
pub proof fn only_validated_units_are_let_in(
    forma: Forma,
    delta: u64,
    verdicts: Seq<UnitVerdict>,
)
    requires
        verdicts.len() == delta,
    ensures
        passed(verdicts) <= delta,
        validated_run(
            reconcile_step(
                ReconcilingView::Provision { forma, delta },
                ReconcileEvent::Provisioned,
            ),
            verdicts,
        ) == ReconcilingView::Done(
            TickView::Grew {
                forma,
                requested: delta,
                admitted: passed(verdicts) as u64,
                rejected: (delta - passed(verdicts)) as u64,
            },
        ),
{
    lemma_passed_bounded(verdicts);
    lemma_validated_run(forma, delta, 0, 0, verdicts);
}

/// Where the demand could not be observed nothing is decided and nothing done,
/// and a demand beyond the envelope is reported, never met in part.
pub proof fn nothing_is_done_without_data_or_beyond_the_envelope(
    asked: Forma,
    error: ProviderError,
    sample: FormaSample,
    forma: Forma,
    shortfall: u64,
)
    ensures
        reconcile_step(ReconcilingView::Observe { forma }, ReconcileEvent::Observed(Err(error)))
            == ReconcilingView::Done(TickView::ObserveError(error@.words())),
        reconcile_step(
            ReconcilingView::Decide { forma: asked, sample },
            ReconcileEvent::Decided(FormaDecision::EnvelopeExhausted { forma, shortfall }),
        ) == ReconcilingView::Done(TickView::EnvelopeExhausted { forma, shortfall }),
{
}

/// A decision is carried out as it was made: a growth asks for its units of its
/// shape, a shrink gives its units of its shape up and reports them, and to hold or
/// to reshape changes nothing. What is decided on is what was observed.
pub proof fn a_decision_is_carried_out_as_made(
    asked: Forma,
    sample: FormaSample,
    forma: Forma,
    delta: u64,
)
    ensures
        reconcile_step(
            ReconcilingView::Observe { forma: asked },
            ReconcileEvent::Observed(Ok(sample)),
        ) == (ReconcilingView::Decide { forma: asked, sample }),
        ({
            let decided = |d: FormaDecision|
                reconcile_step(
                    ReconcilingView::Decide { forma: asked, sample },
                    ReconcileEvent::Decided(d),
                );
            &&& decided(FormaDecision::Grow { forma, delta }) == (ReconcilingView::Provision {
                forma,
                delta,
            })
            &&& decided(FormaDecision::Shrink { forma, delta }) == (ReconcilingView::Deprovision {
                forma,
                delta,
            })
            &&& decided(FormaDecision::Hold) == ReconcilingView::Done(TickView::Held)
            &&& decided(FormaDecision::Reshape) == ReconcilingView::Done(TickView::Held)
        }),
        reconcile_step(
            ReconcilingView::Deprovision { forma, delta },
            ReconcileEvent::Deprovisioned,
        ) == ReconcilingView::Done(TickView::Shrank { forma, released: delta }),
        reconcile_step(
            ReconcilingView::Provision { forma, delta },
            ReconcileEvent::Provisioned,
        ) == if delta == 0 {
            ReconcilingView::Done(
                TickView::Grew { forma, requested: 0, admitted: 0, rejected: 0 },
            )
        } else {
            ReconcilingView::Validate { forma, delta, admitted: 0, rejected: 0 }
        },
{
}

/// A unit counts as let in exactly where it is ready.
pub proof fn a_unit_is_let_in_where_it_is_ready(verdicts: Seq<UnitVerdict>, v: UnitVerdict)
    ensures
        passed(Seq::empty()) == 0,
        passed(seq![v] + verdicts) == passed(verdicts) + match v {
            UnitVerdict::Ready => 1nat,
            UnitVerdict::Rejected | UnitVerdict::Deferred | UnitVerdict::Expired => 0nat,
        },
{
    let all = seq![v] + verdicts;
    assert(all.drop_first() =~= verdicts);
}

/// A report that was not asked for changes nothing, and a tick that is over stays.
pub proof fn a_report_that_was_not_asked_for_changes_nothing(
    state: ReconcilingView,
    event: ReconcileEvent,
)
    requires
        match state {
            ReconcilingView::Observe { .. } => !(event is Observed),
            ReconcilingView::Decide { .. } => !(event is Decided),
            ReconcilingView::Provision { .. } => !(event is Provisioned),
            ReconcilingView::Validate { .. } => !(event is Validated),
            ReconcilingView::Deprovision { .. } => !(event is Deprovisioned),
            ReconcilingView::Done(_) => true,
        },
    ensures
        reconcile_step(state, event) == state,
{
}

} // verus!
