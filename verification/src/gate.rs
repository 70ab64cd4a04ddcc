//! The authorization gate: who may write, on whose authority, and why not.
//!
//! A gate is either a shadow with a reason or live with a witness. A witness
//! has no constructor outside this module, so a write that demands one cannot be
//! reached from a shadow.

use vstd::prelude::*;

use crate::text::{leading, lemma_leading, lemma_trailing, trim, trimmed, trailing, without_leading, CharClass};

verus! {

/// The annotation by which an operator confirms a band.
pub const CONFIRMED_ANNOTATION: &'static str = "breathe.pleme.io/confirmed";

/// Since when a dry-run flag has been retired.
pub const RETIREMENT_NOTICE_DRY_RUN: &'static str = "RETIRED 2026-06-19 (breathe@76924b0)";

/// What a retired dry-run flag does.
pub const CLAIM_DRY_RUN_INERT: &'static str = "this field has NO effect on this band kind";

/// What the bands do that still read the flag.
pub const CLAIM_DRY_RUN_LIVE: &'static str = "actually read `dryRun`";

/// What is asked first.
pub const CLAIM_RESOLUTION_ORDER: &'static str =
    "`writeIntent` > `mode` > the compiled `shadowConfirmEffect`";

/// What an unattributed write comes to.
pub const CLAIM_UNATTRIBUTED_WRITE: &'static str =
    "an `{intent: write}` naming no `authorizedBy` never goes live: it is held in shadow as `intentMalformed`";

// ─────────────────────── intents ───────────────────────

/// What an author wants of a band.
#[derive(Debug, PartialEq, Eq)]
pub enum WriteIntent {
    /// Never write.
    Observe,
    /// Write once a window of clean observation has passed.
    CalibrateThenWrite { confirm_after_seconds: u64 },
    /// Write now, on someone's authority.
    Write { authorized_by: String },
    /// Never write, keep observing.
    Frozen,
}

/// An intent with its author as characters.
pub enum IntentView {
    /// Never write.
    Observe,
    /// Write once a window of clean observation has passed.
    CalibrateThenWrite { confirm_after_seconds: u64 },
    /// Write now, on someone's authority.
    Write { authorized_by: Seq<char> },
    /// Never write, keep observing.
    Frozen,
}

impl View for WriteIntent {
    type V = IntentView;

    open spec fn view(&self) -> IntentView {
        match *self {
            WriteIntent::Observe => IntentView::Observe,
            WriteIntent::CalibrateThenWrite { confirm_after_seconds } => {
                IntentView::CalibrateThenWrite { confirm_after_seconds }
            },
            WriteIntent::Write { authorized_by } => IntentView::Write {
                authorized_by: authorized_by@,
            },
            WriteIntent::Frozen => IntentView::Frozen,
        }
    }
}

impl IntentView {
    /// The intent can come to a write.
    pub open spec fn can_write(self) -> bool {
        self is Write || self is CalibrateThenWrite
    }
}

impl Clone for WriteIntent {
    fn clone(&self) -> (r: Self)
        ensures
            r == *self,
    {
        match self {
            WriteIntent::Observe => WriteIntent::Observe,
            WriteIntent::CalibrateThenWrite { confirm_after_seconds } => {
                WriteIntent::CalibrateThenWrite { confirm_after_seconds: *confirm_after_seconds }
            },
            WriteIntent::Write { authorized_by } => WriteIntent::Write {
                authorized_by: authorized_by.clone(),
            },
            WriteIntent::Frozen => WriteIntent::Frozen,
        }
    }
}

impl WriteIntent {
    /// Whether the intent can come to a write.
    #[must_use]
    pub fn may_write(&self) -> (r: bool)
        ensures
            r == self@.can_write(),
    {
        match self {
            WriteIntent::Write { .. } | WriteIntent::CalibrateThenWrite { .. } => true,
            _ => false,
        }
    }
}

/// The kinds of intents.
#[derive(Debug, Clone, Copy, PartialEq, Eq, Structural)]
pub enum IntentKind {
    /// Never write.
    Observe,
    /// Write once a window of clean observation has passed.
    CalibrateThenWrite,
    /// Write now.
    Write,
    /// Never write, keep observing.
    Frozen,
}

impl IntentKind {
    /// Every kind.
    pub const ALL: [IntentKind; 4] = [
        IntentKind::Observe,
        IntentKind::CalibrateThenWrite,
        IntentKind::Write,
        IntentKind::Frozen,
    ];

    /// The name of the kind.
    pub open spec fn name(self) -> Seq<char> {
        match self {
            IntentKind::Observe => "observe"@,
            IntentKind::CalibrateThenWrite => "calibrateThenWrite"@,
            IntentKind::Write => "write"@,
            IntentKind::Frozen => "frozen"@,
        }
    }

    /// The name of the kind.
    #[must_use]
    pub fn as_str(self) -> (r: &'static str)
        ensures
            r@ == self.name(),
    {
        match self {
            IntentKind::Observe => "observe",
            IntentKind::CalibrateThenWrite => "calibrateThenWrite",
            IntentKind::Write => "write",
            IntentKind::Frozen => "frozen",
        }
    }
}

/// An intent as it is authored.
#[derive(Debug, PartialEq, Eq)]
pub struct WriteIntentSpec {
    /// Its kind.
    pub intent: IntentKind,
    /// The window of clean observation, in seconds.
    pub confirm_after_seconds: Option<u64>,
    /// Who authorized going live.
    pub authorized_by: Option<String>,
}

/// What is wrong with an authored intent.
#[derive(Debug, Clone, Copy, PartialEq, Eq, Structural)]
pub enum IntentError {
    /// It is a write that names no author.
    UnattributedWrite,
}

/// The window of clean observation that holds where none is authored.
pub open spec fn default_window() -> u64 {
    1800
}

/// What an authored intent means: a write needs an author who is not blank.
pub open spec fn authored_intent(
    intent: IntentKind,
    confirm_after_seconds: Option<u64>,
    authorized_by: Option<Seq<char>>,
) -> Result<IntentView, IntentError> {
    match intent {
        IntentKind::Observe => Ok(IntentView::Observe),
        IntentKind::Frozen => Ok(IntentView::Frozen),
        IntentKind::CalibrateThenWrite => Ok(
            IntentView::CalibrateThenWrite {
                confirm_after_seconds: match confirm_after_seconds {
                    Some(n) => n,
                    None => default_window(),
                },
            },
        ),
        IntentKind::Write => match authorized_by {
            Some(a) => {
                if trimmed(a).len() > 0 {
                    Ok(IntentView::Write { authorized_by: trimmed(a) })
                } else {
                    Err(IntentError::UnattributedWrite)
                }
            },
            None => Err(IntentError::UnattributedWrite),
        },
    }
}

/// The view of an optional text.
pub open spec fn text_of(o: Option<String>) -> Option<Seq<char>> {
    match o {
        Some(s) => Some(s@),
        None => None,
    }
}

/// The view of a result with an intent in it.
pub open spec fn intent_of(r: Result<WriteIntent, IntentError>) -> Result<IntentView, IntentError> {
    match r {
        Ok(i) => Ok(i@),
        Err(e) => Err(e),
    }
}

impl WriteIntentSpec {
    /// What the authored intent means.
    pub fn parse(&self) -> (r: Result<WriteIntent, IntentError>)
        ensures
            intent_of(r) == authored_intent(
                self.intent,
                self.confirm_after_seconds,
                text_of(self.authorized_by),
            ),
    {
        match self.intent {
            IntentKind::Observe => Ok(WriteIntent::Observe),
            IntentKind::Frozen => Ok(WriteIntent::Frozen),
            IntentKind::CalibrateThenWrite => {
                let window: u64 = match self.confirm_after_seconds {
                    Some(n) => n,
                    None => 1800,
                };
                Ok(WriteIntent::CalibrateThenWrite { confirm_after_seconds: window })
            },
            IntentKind::Write => match &self.authorized_by {
                Some(a) => {
                    let author = trim(a.as_str());
                    if author.as_str().is_empty() {
                        Err(IntentError::UnattributedWrite)
                    } else {
                        Ok(WriteIntent::Write { authorized_by: author })
                    }
                },
                None => Err(IntentError::UnattributedWrite),
            },
        }
    }
}

/// An author that an authored write names is not blank, and starts and ends
/// with something else than white space.
pub proof fn an_authored_write_names_its_author(
    confirm_after_seconds: Option<u64>,
    authorized_by: Option<Seq<char>>,
    author: Seq<char>,
)
    requires
        authored_intent(IntentKind::Write, confirm_after_seconds, authorized_by) == Ok::<
            IntentView,
            IntentError,
        >(IntentView::Write { authorized_by: author }),
    ensures
        author.len() > 0,
        !CharClass::White.holds(author[0]),
        !CharClass::White.holds(author.last()),
{
    let a = authorized_by->0;
    let front = without_leading(a, CharClass::White);
    lemma_leading(a, CharClass::White);
    lemma_trailing(front, CharClass::White);
    assert(author[0] == front[0]);
    assert(author.last() == front[front.len() - 1 - trailing(front, CharClass::White)]);
    assert(front[0] == a[leading(a, CharClass::White) as int]);
}

// ─────────────────────── shadows ───────────────────────

/// Why a band only shadows.
#[derive(Debug, Clone, Copy, PartialEq, Eq, Structural)]
pub enum ShadowReason {
    /// The whole cluster is frozen.
    Frozen,
    /// It was told to observe.
    ModeShadow,
    /// It was told to stop writing.
    Suspended,
    /// It is not ready.
    NotReady,
    /// Its sample is stale.
    Stale,
    /// Another writer owns the field.
    Conflict,
    /// Its intent is malformed.
    IntentMalformed,
    /// Its window of clean observation has not passed.
    ConfirmPending { held_secs: i64, need_secs: i64 },
}

/// The kinds of reasons.
#[derive(Debug, Clone, Copy, PartialEq, Eq, Structural)]
pub enum ShadowReasonKind {
    /// The whole cluster is frozen.
    Frozen,
    /// It was told to observe.
    ModeShadow,
    /// It was told to stop writing.
    Suspended,
    /// It is not ready.
    NotReady,
    /// Its sample is stale.
    Stale,
    /// Another writer owns the field.
    Conflict,
    /// Its intent is malformed.
    IntentMalformed,
    /// Its window of clean observation has not passed.
    ConfirmPending,
}

impl ShadowReason {
    /// The kind of the reason.
    pub open spec fn sort(self) -> ShadowReasonKind {
        match self {
            ShadowReason::Frozen => ShadowReasonKind::Frozen,
            ShadowReason::ModeShadow => ShadowReasonKind::ModeShadow,
            ShadowReason::Suspended => ShadowReasonKind::Suspended,
            ShadowReason::NotReady => ShadowReasonKind::NotReady,
            ShadowReason::Stale => ShadowReasonKind::Stale,
            ShadowReason::Conflict => ShadowReasonKind::Conflict,
            ShadowReason::IntentMalformed => ShadowReasonKind::IntentMalformed,
            ShadowReason::ConfirmPending { .. } => ShadowReasonKind::ConfirmPending,
        }
    }

    /// How much of a window has passed and how much is needed.
    pub open spec fn pending(self) -> Option<(i64, i64)> {
        match self {
            ShadowReason::ConfirmPending { held_secs, need_secs } => Some((held_secs, need_secs)),
            _ => None,
        }
    }

    /// The kind of the reason.
    #[must_use]
    pub fn kind(self) -> (r: ShadowReasonKind)
        ensures
            r == self.sort(),
    {
        match self {
            ShadowReason::Frozen => ShadowReasonKind::Frozen,
            ShadowReason::ModeShadow => ShadowReasonKind::ModeShadow,
            ShadowReason::Suspended => ShadowReasonKind::Suspended,
            ShadowReason::NotReady => ShadowReasonKind::NotReady,
            ShadowReason::Stale => ShadowReasonKind::Stale,
            ShadowReason::Conflict => ShadowReasonKind::Conflict,
            ShadowReason::IntentMalformed => ShadowReasonKind::IntentMalformed,
            ShadowReason::ConfirmPending { .. } => ShadowReasonKind::ConfirmPending,
        }
    }

    /// How much of a window has passed and how much is needed, in seconds.
    #[must_use]
    pub fn window(self) -> (r: Option<(i64, i64)>)
        ensures
            r == self.pending(),
    {
        match self {
            ShadowReason::ConfirmPending { held_secs, need_secs } => Some((held_secs, need_secs)),
            _ => None,
        }
    }

    /// Whether someone asked for the shadow, rather than it having happened.
    #[must_use]
    pub fn is_authored(self) -> (r: bool)
        ensures
            r == (self is ModeShadow || self is Suspended),
    {
        match self {
            ShadowReason::ModeShadow | ShadowReason::Suspended => true,
            _ => false,
        }
    }
}

// ─────────────────────── witnesses ───────────────────────

/// A way to go live without an authored intent.
#[derive(Debug, Clone, Copy, PartialEq, Eq, Structural)]
pub enum LegacyPath {
    /// The mode says so.
    ModeEffect,
    /// The two-state flag says so.
    TwoStateDryRun,
    /// The window of clean observation passed.
    ConfirmGate { required_secs: i64 },
    /// An operator confirmed.
    OperatorAnnotation,
}

/// The kinds of such ways.
#[derive(Debug, Clone, Copy, PartialEq, Eq, Structural)]
pub enum LegacyPathKind {
    /// The mode says so.
    ModeEffect,
    /// The two-state flag says so.
    TwoStateDryRun,
    /// The window of clean observation passed.
    ConfirmGate,
    /// An operator confirmed.
    OperatorAnnotation,
}

impl LegacyPath {
    /// The kind of the way.
    pub open spec fn sort(self) -> LegacyPathKind {
        match self {
            LegacyPath::ModeEffect => LegacyPathKind::ModeEffect,
            LegacyPath::TwoStateDryRun => LegacyPathKind::TwoStateDryRun,
            LegacyPath::ConfirmGate { .. } => LegacyPathKind::ConfirmGate,
            LegacyPath::OperatorAnnotation => LegacyPathKind::OperatorAnnotation,
        }
    }

    /// The window that the way needs.
    pub open spec fn needed(self) -> Option<i64> {
        match self {
            LegacyPath::ConfirmGate { required_secs } => Some(required_secs),
            _ => None,
        }
    }

    /// The kind of the way.
    #[must_use]
    pub fn kind(self) -> (r: LegacyPathKind)
        ensures
            r == self.sort(),
    {
        match self {
            LegacyPath::ModeEffect => LegacyPathKind::ModeEffect,
            LegacyPath::TwoStateDryRun => LegacyPathKind::TwoStateDryRun,
            LegacyPath::ConfirmGate { .. } => LegacyPathKind::ConfirmGate,
            LegacyPath::OperatorAnnotation => LegacyPathKind::OperatorAnnotation,
        }
    }

    /// The window that the way needs, in seconds.
    #[must_use]
    pub fn required_secs(self) -> (r: Option<i64>)
        ensures
            r == self.needed(),
    {
        match self {
            LegacyPath::ConfirmGate { required_secs } => Some(required_secs),
            _ => None,
        }
    }
}

/// The kinds of witnesses.
#[derive(Debug, Clone, Copy, PartialEq, Eq, Structural)]
pub enum WitnessKind {
    /// An author.
    ExplicitIntent,
    /// A window of clean observation.
    ConfirmGatePassed,
    /// An operator's annotation.
    OperatorAnnotation,
    /// A way without an authored intent.
    LegacyDefault,
}

#[derive(Debug, PartialEq, Eq)]
enum Witness {
    ExplicitIntent { authorized_by: String },
    ConfirmGatePassed { ready_since_epoch: i64, held_secs: i64, required_secs: i64 },
    OperatorAnnotation { annotation: &'static str },
    LegacyDefault { would_be: LegacyPath },
}

/// On what authority a band writes. It is made only by resolving a gate.
#[derive(Debug, PartialEq, Eq)]
pub struct LiveWitness(Witness);

/// A witness with its texts as characters.
pub enum WitnessView {
    /// An author.
    ExplicitIntent { authorized_by: Seq<char> },
    /// A window of clean observation.
    ConfirmGatePassed { ready_since_epoch: i64, held_secs: i64, required_secs: i64 },
    /// An operator's annotation.
    OperatorAnnotation { annotation: Seq<char> },
    /// A way without an authored intent.
    LegacyDefault { would_be: LegacyPath },
}

impl View for LiveWitness {
    type V = WitnessView;

    closed spec fn view(&self) -> WitnessView {
        match self.0 {
            Witness::ExplicitIntent { authorized_by } => WitnessView::ExplicitIntent {
                authorized_by: authorized_by@,
            },
            Witness::ConfirmGatePassed { ready_since_epoch, held_secs, required_secs } => {
                WitnessView::ConfirmGatePassed { ready_since_epoch, held_secs, required_secs }
            },
            Witness::OperatorAnnotation { annotation } => WitnessView::OperatorAnnotation {
                annotation: annotation@,
            },
            Witness::LegacyDefault { would_be } => WitnessView::LegacyDefault { would_be },
        }
    }
}

impl WitnessView {
    /// The kind of the witness.
    pub open spec fn sort(self) -> WitnessKind {
        match self {
            WitnessView::ExplicitIntent { .. } => WitnessKind::ExplicitIntent,
            WitnessView::ConfirmGatePassed { .. } => WitnessKind::ConfirmGatePassed,
            WitnessView::OperatorAnnotation { .. } => WitnessKind::OperatorAnnotation,
            WitnessView::LegacyDefault { .. } => WitnessKind::LegacyDefault,
        }
    }

    /// The author, where there is one.
    pub open spec fn author(self) -> Option<Seq<char>> {
        match self {
            WitnessView::ExplicitIntent { authorized_by } => Some(authorized_by),
            _ => None,
        }
    }

    /// The way without an authored intent, where that is the witness.
    pub open spec fn path(self) -> Option<LegacyPath> {
        match self {
            WitnessView::LegacyDefault { would_be } => Some(would_be),
            _ => None,
        }
    }

    /// The window that passed: since when, how long, how long was needed.
    pub open spec fn passed(self) -> Option<(i64, i64, i64)> {
        match self {
            WitnessView::ConfirmGatePassed { ready_since_epoch, held_secs, required_secs } => Some(
                (ready_since_epoch, held_secs, required_secs),
            ),
            _ => None,
        }
    }
}

impl Clone for LiveWitness {
    fn clone(&self) -> (r: Self)
        ensures
            r == *self,
    {
        match &self.0 {
            Witness::ExplicitIntent { authorized_by } => LiveWitness(
                Witness::ExplicitIntent { authorized_by: authorized_by.clone() },
            ),
            Witness::ConfirmGatePassed { ready_since_epoch, held_secs, required_secs } => {
                LiveWitness(
                    Witness::ConfirmGatePassed {
                        ready_since_epoch: *ready_since_epoch,
                        held_secs: *held_secs,
                        required_secs: *required_secs,
                    },
                )
            },
            Witness::OperatorAnnotation { annotation } => LiveWitness(
                Witness::OperatorAnnotation { annotation: *annotation },
            ),
            Witness::LegacyDefault { would_be } => LiveWitness(
                Witness::LegacyDefault { would_be: *would_be },
            ),
        }
    }
}

impl LiveWitness {
    /// The kind of the witness.
    #[must_use]
    pub fn kind(&self) -> (r: WitnessKind)
        ensures
            r == self@.sort(),
    {
        match &self.0 {
            Witness::ExplicitIntent { .. } => WitnessKind::ExplicitIntent,
            Witness::ConfirmGatePassed { .. } => WitnessKind::ConfirmGatePassed,
            Witness::OperatorAnnotation { .. } => WitnessKind::OperatorAnnotation,
            Witness::LegacyDefault { .. } => WitnessKind::LegacyDefault,
        }
    }

    /// The author, where there is one.
    #[must_use]
    pub fn authorized_by(&self) -> (r: Option<&str>)
        ensures
            match r {
                Some(a) => self@.author() == Some(a@),
                None => self@.author() is None,
            },
    {
        match &self.0 {
            Witness::ExplicitIntent { authorized_by } => Some(authorized_by.as_str()),
            _ => None,
        }
    }

    /// The way without an authored intent, where that is the witness.
    #[must_use]
    pub fn legacy_path(&self) -> (r: Option<LegacyPath>)
        ensures
            r == self@.path(),
    {
        match &self.0 {
            Witness::LegacyDefault { would_be } => Some(*would_be),
            _ => None,
        }
    }

    /// The window that passed: since when, how long, how long was needed.
    #[must_use]
    pub fn passed_window(&self) -> (r: Option<(i64, i64, i64)>)
        ensures
            r == self@.passed(),
    {
        match &self.0 {
            Witness::ConfirmGatePassed { ready_since_epoch, held_secs, required_secs } => Some(
                (*ready_since_epoch, *held_secs, *required_secs),
            ),
            _ => None,
        }
    }

    /// Whether the band went live without an authored intent.
    #[must_use]
    pub fn is_legacy_default(&self) -> (r: bool)
        ensures
            r == (self@ is LegacyDefault),
    {
        match &self.0 {
            Witness::LegacyDefault { .. } => true,
            _ => false,
        }
    }

    pub(crate) fn explicit_intent(authorized_by: String) -> (r: Self)
        ensures
            r@ == (WitnessView::ExplicitIntent { authorized_by: authorized_by@ }),
    {
        LiveWitness(Witness::ExplicitIntent { authorized_by })
    }

    pub(crate) fn confirm_gate_passed(
        ready_since_epoch: i64,
        held_secs: i64,
        required_secs: i64,
    ) -> (r: Self)
        ensures
            r@ == (WitnessView::ConfirmGatePassed { ready_since_epoch, held_secs, required_secs }),
    {
        LiveWitness(Witness::ConfirmGatePassed { ready_since_epoch, held_secs, required_secs })
    }

    pub(crate) fn operator_annotation() -> (r: Self)
        ensures
            r@ == (WitnessView::OperatorAnnotation { annotation: CONFIRMED_ANNOTATION@ }),
    {
        LiveWitness(Witness::OperatorAnnotation { annotation: CONFIRMED_ANNOTATION })
    }

    pub(crate) fn legacy_default(would_be: LegacyPath) -> (r: Self)
        ensures
            r@ == (WitnessView::LegacyDefault { would_be }),
    {
        LiveWitness(Witness::LegacyDefault { would_be })
    }
}

// ─────────────────────── gates ───────────────────────

/// The resolved gate of a band.
#[derive(Debug, PartialEq, Eq)]
pub enum EffectiveGate {
    /// It only shadows, for this reason.
    Shadow { reason: ShadowReason },
    /// It writes, on this authority.
    Live { witness: LiveWitness },
}

/// A gate with its texts as characters.
pub enum GateView {
    /// It only shadows, for this reason.
    Shadow { reason: ShadowReason },
    /// It writes, on this authority.
    Live { witness: WitnessView },
}

impl View for EffectiveGate {
    type V = GateView;

    open spec fn view(&self) -> GateView {
        match *self {
            EffectiveGate::Shadow { reason } => GateView::Shadow { reason },
            EffectiveGate::Live { witness } => GateView::Live { witness: witness@ },
        }
    }
}

impl Clone for EffectiveGate {
    fn clone(&self) -> (r: Self)
        ensures
            r == *self,
    {
        match self {
            EffectiveGate::Shadow { reason } => EffectiveGate::Shadow { reason: *reason },
            EffectiveGate::Live { witness } => EffectiveGate::Live { witness: witness.clone() },
        }
    }
}

/// Whether a gate shadows or is live.
#[derive(Debug, Clone, Copy, PartialEq, Eq, Structural)]
pub enum GateState {
    /// It shadows.
    Shadow,
    /// It is live.
    Live,
}

/// A gate as it is reported.
#[derive(Debug, PartialEq, Eq)]
pub struct EffectiveGateReport {
    /// Whether it shadows or is live.
    pub state: GateState,
    /// Why it shadows.
    pub reason: Option<ShadowReasonKind>,
    /// What kind of witness it has.
    pub witness: Option<WitnessKind>,
    /// Who authorized it.
    pub authorized_by: Option<String>,
    /// Which way without an authored intent it went.
    pub legacy_path: Option<LegacyPathKind>,
    /// How much of a window has passed, in seconds.
    pub held_secs: Option<i64>,
    /// How much of a window is needed, in seconds.
    pub need_secs: Option<i64>,
    /// Since when the window has run.
    pub ready_since_epoch: Option<i64>,
}

/// A report with its author as characters.
pub struct ReportView {
    /// Whether it shadows or is live.
    pub state: GateState,
    /// Why it shadows.
    pub reason: Option<ShadowReasonKind>,
    /// What kind of witness it has.
    pub witness: Option<WitnessKind>,
    /// Who authorized it.
    pub authorized_by: Option<Seq<char>>,
    /// Which way without an authored intent it went.
    pub legacy_path: Option<LegacyPathKind>,
    /// How much of a window has passed.
    pub held_secs: Option<i64>,
    /// How much of a window is needed.
    pub need_secs: Option<i64>,
    /// Since when the window has run.
    pub ready_since_epoch: Option<i64>,
}

impl View for EffectiveGateReport {
    type V = ReportView;

    open spec fn view(&self) -> ReportView {
        ReportView {
            state: self.state,
            reason: self.reason,
            witness: self.witness,
            authorized_by: text_of(self.authorized_by),
            legacy_path: self.legacy_path,
            held_secs: self.held_secs,
            need_secs: self.need_secs,
            ready_since_epoch: self.ready_since_epoch,
        }
    }
}

/// The report of a gate: a shadow reports its reason and, while a window runs,
/// how much of it has passed; a live gate reports its witness and what the
/// witness knows.
pub open spec fn report_of(gate: GateView) -> ReportView {
    match gate {
        GateView::Shadow { reason } => ReportView {
            state: GateState::Shadow,
            reason: Some(reason.sort()),
            witness: None,
            authorized_by: None,
            legacy_path: None,
            held_secs: match reason.pending() {
                Some(w) => Some(w.0),
                None => None,
            },
            need_secs: match reason.pending() {
                Some(w) => Some(w.1),
                None => None,
            },
            ready_since_epoch: None,
        },
        GateView::Live { witness } => ReportView {
            state: GateState::Live,
            reason: None,
            witness: Some(witness.sort()),
            authorized_by: witness.author(),
            legacy_path: match witness.path() {
                Some(p) => Some(p.sort()),
                None => None,
            },
            held_secs: match witness.passed() {
                Some(w) => Some(w.1),
                None => None,
            },
            need_secs: match (witness.path(), witness.passed()) {
                (Some(p), _) => p.needed(),
                (_, Some(w)) => Some(w.2),
                _ => None,
            },
            ready_since_epoch: match witness.passed() {
                Some(w) => Some(w.0),
                None => None,
            },
        },
    }
}

impl EffectiveGate {
    /// Whether this gate shadows.
    #[must_use]
    pub fn is_shadow(&self) -> (r: bool)
        ensures
            r == (self@ is Shadow),
    {
        match self {
            EffectiveGate::Shadow { .. } => true,
            EffectiveGate::Live { .. } => false,
        }
    }

    /// Whether this gate is live.
    #[must_use]
    pub fn is_live(&self) -> (r: bool)
        ensures
            r == (self@ is Live),
    {
        match self {
            EffectiveGate::Live { .. } => true,
            EffectiveGate::Shadow { .. } => false,
        }
    }

    /// Why this gate shadows.
    #[must_use]
    pub fn shadow_reason(&self) -> (r: Option<ShadowReason>)
        ensures
            match self@ {
                GateView::Shadow { reason } => r == Some(reason),
                GateView::Live { .. } => r is None,
            },
    {
        match self {
            EffectiveGate::Shadow { reason } => Some(*reason),
            EffectiveGate::Live { .. } => None,
        }
    }

    /// On what authority this gate is live: a shadow has none to give.
    #[must_use]
    pub fn witness(&self) -> (r: Option<&LiveWitness>)
        ensures
            match self@ {
                GateView::Live { witness } => r matches Some(w) && w@ == witness,
                GateView::Shadow { .. } => r is None,
            },
    {
        match self {
            EffectiveGate::Live { witness } => Some(witness),
            EffectiveGate::Shadow { .. } => None,
        }
    }

    /// A gate as it is reported.
    #[must_use]
    pub fn report(&self) -> (r: EffectiveGateReport)
        ensures
            r@ == report_of(self@),
    {
        let mut r = EffectiveGateReport {
            state: GateState::Shadow,
            reason: None,
            witness: None,
            authorized_by: None,
            legacy_path: None,
            held_secs: None,
            need_secs: None,
            ready_since_epoch: None,
        };
        match self {
            EffectiveGate::Shadow { reason } => {
                r.reason = Some(reason.kind());
                if let Some((held, need)) = reason.window() {
                    r.held_secs = Some(held);
                    r.need_secs = Some(need);
                }
            },
            EffectiveGate::Live { witness } => {
                r.state = GateState::Live;
                r.witness = Some(witness.kind());
                r.authorized_by = match witness.authorized_by() {
                    Some(a) => Some(a.to_owned()),
                    None => None,
                };
                if let Some(p) = witness.legacy_path() {
                    r.legacy_path = Some(p.kind());
                    r.need_secs = p.required_secs();
                }
                if let Some((since, held, need)) = witness.passed_window() {
                    r.ready_since_epoch = Some(since);
                    r.held_secs = Some(held);
                    r.need_secs = Some(need);
                }
            },
        }
        r
    }
}

/// What came of the window of clean observation.
#[derive(Debug, Clone, Copy, PartialEq, Eq, Structural)]
pub enum ConfirmVerdict {
    /// Nobody looked.
    NotEvaluated,
    /// An operator confirmed.
    OperatorConfirmed,
    /// The window passed.
    Passed { ready_since_epoch: i64, held_secs: i64, required_secs: i64 },
    /// The window runs.
    Pending { held_secs: i64, required_secs: i64 },
    /// Something keeps the window from running.
    Blocked(ShadowReason),
}

/// What the chain without an authored intent says.
#[derive(Debug, Clone, Copy, PartialEq, Eq, Structural)]
pub enum LegacyDecision {
    /// Write, by this way.
    Apply(LegacyPath),
    /// Shadow, for this reason.
    Shadow(ShadowReason),
}

/// Everything that decides a gate.
#[derive(Debug, PartialEq, Eq)]
pub struct GateInputs {
    /// The authored intent, where there is one.
    pub intent: Option<Result<WriteIntent, IntentError>>,
    /// Whether the whole cluster is frozen.
    pub frozen: bool,
    /// What came of the window of clean observation.
    pub confirm: ConfirmVerdict,
    /// What the chain without an authored intent says.
    pub legacy: LegacyDecision,
}

/// The view of an optional intent.
pub open spec fn intents_of(o: Option<Result<WriteIntent, IntentError>>) -> Option<
    Result<IntentView, IntentError>,
> {
    match o {
        Some(r) => Some(intent_of(r)),
        None => None,
    }
}

/// What a band that waits for its window comes to.
pub open spec fn confirm_gate(window: u64, confirm: ConfirmVerdict) -> GateView {
    match confirm {
        ConfirmVerdict::OperatorConfirmed => GateView::Live {
            witness: WitnessView::OperatorAnnotation { annotation: CONFIRMED_ANNOTATION@ },
        },
        ConfirmVerdict::Passed { ready_since_epoch, held_secs, required_secs } => GateView::Live {
            witness: WitnessView::ConfirmGatePassed { ready_since_epoch, held_secs, required_secs },
        },
        ConfirmVerdict::Pending { held_secs, required_secs } => GateView::Shadow {
            reason: ShadowReason::ConfirmPending { held_secs, need_secs: required_secs },
        },
        ConfirmVerdict::Blocked(reason) => GateView::Shadow { reason },
        ConfirmVerdict::NotEvaluated => GateView::Shadow {
            reason: ShadowReason::ConfirmPending {
                held_secs: 0,
                need_secs: if window <= i64::MAX {
                    window as i64
                } else {
                    i64::MAX
                },
            },
        },
    }
}

/// What the inputs of a gate come to: a freeze first, then an authored intent,
/// then the chain without one.
pub open spec fn gate_of(
    intent: Option<Result<IntentView, IntentError>>,
    frozen: bool,
    confirm: ConfirmVerdict,
    legacy: LegacyDecision,
) -> GateView {
    if frozen {
        GateView::Shadow { reason: ShadowReason::Frozen }
    } else {
        match intent {
            Some(Err(_)) => GateView::Shadow { reason: ShadowReason::IntentMalformed },
            Some(Ok(IntentView::Observe)) => GateView::Shadow { reason: ShadowReason::ModeShadow },
            Some(Ok(IntentView::Frozen)) => GateView::Shadow { reason: ShadowReason::Suspended },
            Some(Ok(IntentView::Write { authorized_by })) => GateView::Live {
                witness: WitnessView::ExplicitIntent { authorized_by },
            },
            Some(Ok(IntentView::CalibrateThenWrite { confirm_after_seconds })) => confirm_gate(
                confirm_after_seconds,
                confirm,
            ),
            None => match legacy {
                LegacyDecision::Apply(would_be) => GateView::Live {
                    witness: WitnessView::LegacyDefault { would_be },
                },
                LegacyDecision::Shadow(reason) => GateView::Shadow { reason },
            },
        }
    }
}

/// Resolves a gate.
#[must_use]
pub fn resolve_gate(i: &GateInputs) -> (r: EffectiveGate)
    ensures
        r@ == gate_of(intents_of(i.intent), i.frozen, i.confirm, i.legacy),
{
    if i.frozen {
        return EffectiveGate::Shadow { reason: ShadowReason::Frozen };
    }
    match &i.intent {
        Some(Err(_)) => EffectiveGate::Shadow { reason: ShadowReason::IntentMalformed },
        Some(Ok(intent)) => match intent {
            WriteIntent::Observe => EffectiveGate::Shadow { reason: ShadowReason::ModeShadow },
            WriteIntent::Frozen => EffectiveGate::Shadow { reason: ShadowReason::Suspended },
            WriteIntent::Write { authorized_by } => EffectiveGate::Live {
                witness: LiveWitness::explicit_intent(authorized_by.clone()),
            },
            WriteIntent::CalibrateThenWrite { confirm_after_seconds } => match i.confirm {
                ConfirmVerdict::OperatorConfirmed => EffectiveGate::Live {
                    witness: LiveWitness::operator_annotation(),
                },
                ConfirmVerdict::Passed { ready_since_epoch, held_secs, required_secs } => {
                    EffectiveGate::Live {
                        witness: LiveWitness::confirm_gate_passed(
                            ready_since_epoch,
                            held_secs,
                            required_secs,
                        ),
                    }
                },
                ConfirmVerdict::Pending { held_secs, required_secs } => EffectiveGate::Shadow {
                    reason: ShadowReason::ConfirmPending { held_secs, need_secs: required_secs },
                },
                ConfirmVerdict::Blocked(reason) => EffectiveGate::Shadow { reason },
                ConfirmVerdict::NotEvaluated => {
                    let need_secs: i64 = if *confirm_after_seconds <= i64::MAX as u64 {
                        *confirm_after_seconds as i64
                    } else {
                        i64::MAX
                    };
                    EffectiveGate::Shadow {
                        reason: ShadowReason::ConfirmPending { held_secs: 0, need_secs },
                    }
                },
            },
        },
        None => match i.legacy {
            LegacyDecision::Apply(path) => EffectiveGate::Live {
                witness: LiveWitness::legacy_default(path),
            },
            LegacyDecision::Shadow(reason) => EffectiveGate::Shadow { reason },
        },
    }
}

/// What the flag of a two-state kind decides.
pub open spec fn two_state(dry_run: bool) -> LegacyDecision {
    if dry_run {
        LegacyDecision::Shadow(ShadowReason::ModeShadow)
    } else {
        LegacyDecision::Apply(LegacyPath::TwoStateDryRun)
    }
}

/// Where a write is authored by someone: it is live on their authority, unless
/// they are blank.
#[must_use]
pub fn authored_write_gate(authorized_by: &str) -> (r: EffectiveGate)
    ensures
        r@ == gate_of(
            Some(authored_intent(IntentKind::Write, None, Some(authorized_by@))),
            false,
            ConfirmVerdict::NotEvaluated,
            LegacyDecision::Shadow(ShadowReason::NotReady),
        ),
{
    let authored = WriteIntentSpec {
        intent: IntentKind::Write,
        confirm_after_seconds: None,
        authorized_by: Some(authorized_by.to_owned()),
    };
    resolve_gate(
        &GateInputs {
            intent: Some(authored.parse()),
            frozen: false,
            confirm: ConfirmVerdict::NotEvaluated,
            legacy: LegacyDecision::Shadow(ShadowReason::NotReady),
        },
    )
}

/// Where only the flag of a two-state kind decides.
#[must_use]
pub fn legacy_two_state_gate(dry_run: bool, frozen: bool) -> (r: EffectiveGate)
    ensures
        r@ == gate_of(None, frozen, ConfirmVerdict::NotEvaluated, two_state(dry_run)),
{
    let legacy = if dry_run {
        LegacyDecision::Shadow(ShadowReason::ModeShadow)
    } else {
        LegacyDecision::Apply(LegacyPath::TwoStateDryRun)
    };
    resolve_gate(
        &GateInputs { intent: None, frozen, confirm: ConfirmVerdict::NotEvaluated, legacy },
    )
}

// ─────────────────────── laws ───────────────────────

/// A frozen cluster shadows every band, whatever else holds.
pub proof fn a_freeze_dominates(
    intent: Option<Result<IntentView, IntentError>>,
    confirm: ConfirmVerdict,
    legacy: LegacyDecision,
)
    ensures
        gate_of(intent, true, confirm, legacy) == (GateView::Shadow {
            reason: ShadowReason::Frozen,
        }),
{
}

/// A gate that is live under an authored intent has an intent that can write,
/// and one that waits for a window has a window that passed or an operator who
/// confirmed.
pub proof fn going_live_needs_authority(
    intent: Option<Result<IntentView, IntentError>>,
    frozen: bool,
    confirm: ConfirmVerdict,
    legacy: LegacyDecision,
)
    requires
        gate_of(intent, frozen, confirm, legacy) is Live,
    ensures
        !frozen,
        intent matches Some(r) ==> (r matches Ok(i) && i.can_write()),
        intent matches Some(Ok(i)) ==> (i is CalibrateThenWrite ==> confirm is OperatorConfirmed
            || confirm is Passed),
        intent is None ==> legacy is Apply,
{
}

/// An intent that is malformed, or that only observes, never goes live.
pub proof fn a_held_intent_never_writes(
    intent: Result<IntentView, IntentError>,
    frozen: bool,
    confirm: ConfirmVerdict,
    legacy: LegacyDecision,
)
    requires
        intent is Err || (intent matches Ok(i) && !i.can_write()),
    ensures
        gate_of(Some(intent), frozen, confirm, legacy) is Shadow,
{
}

/// Under an authored intent the chain without one is never asked.
pub proof fn an_authored_intent_silences_the_legacy_chain(
    intent: Result<IntentView, IntentError>,
    frozen: bool,
    confirm: ConfirmVerdict,
    legacy: LegacyDecision,
    other: LegacyDecision,
)
    ensures
        gate_of(Some(intent), frozen, confirm, legacy) == gate_of(
            Some(intent),
            frozen,
            confirm,
            other,
        ),
{
}

/// Without an authored intent a live gate says so: its witness is the way that
/// the legacy chain went, and only then.
pub proof fn a_legacy_write_is_named_as_such(
    intent: Option<Result<IntentView, IntentError>>,
    frozen: bool,
    confirm: ConfirmVerdict,
    legacy: LegacyDecision,
)
    requires
        gate_of(intent, frozen, confirm, legacy) is Live,
    ensures
        intent is None <==> gate_of(intent, frozen, confirm, legacy)->witness is LegacyDefault,
        intent is None ==> (legacy matches LegacyDecision::Apply(p) && gate_of(
            intent,
            frozen,
            confirm,
            legacy,
        )->witness == (WitnessView::LegacyDefault { would_be: p })),
{
}

/// A report is live exactly when its gate is; it names a reason exactly when the
/// gate shadows, a witness exactly when it is live, and an author exactly when
/// the witness is one.
pub proof fn a_report_tells_shadow_from_live(gate: GateView)
    ensures
        report_of(gate).state == GateState::Live <==> gate is Live,
        report_of(gate).reason is Some <==> gate is Shadow,
        report_of(gate).witness is Some <==> gate is Live,
        report_of(gate).authorized_by is Some <==> (gate is Live
            && gate->witness is ExplicitIntent),
{
}

/// Authority that is given is honoured: unless the cluster is frozen, an authored
/// write is live on its author's authority, and a band that waits for its window is
/// live once an operator confirms or the window has passed, with the window's own
/// numbers. Without an authored intent a band is live where the legacy chain says
/// so.
pub proof fn authority_that_is_given_goes_live(
    author: Seq<char>,
    window: u64,
    confirm: ConfirmVerdict,
    legacy: LegacyDecision,
)
    ensures
        gate_of(
            Some(Ok(IntentView::Write { authorized_by: author })),
            false,
            confirm,
            legacy,
        ) == (GateView::Live { witness: WitnessView::ExplicitIntent { authorized_by: author } }),
        ({
            let waiting = gate_of(
                Some(Ok(IntentView::CalibrateThenWrite { confirm_after_seconds: window })),
                false,
                confirm,
                legacy,
            );
            &&& confirm is OperatorConfirmed ==> waiting is Live && waiting->witness
                is OperatorAnnotation
            &&& confirm matches ConfirmVerdict::Passed {
                ready_since_epoch,
                held_secs,
                required_secs,
            } ==> waiting == (GateView::Live {
                witness: WitnessView::ConfirmGatePassed {
                    ready_since_epoch,
                    held_secs,
                    required_secs,
                },
            })
        }),
        legacy matches LegacyDecision::Apply(p) ==> gate_of(None, false, confirm, legacy) == (
        GateView::Live { witness: WitnessView::LegacyDefault { would_be: p } }),
{
}

/// A gate that shadows says why: a malformed intent, an intent to observe or to
/// stop, a window that still runs with how much of it has passed, or what keeps the
/// window or the legacy chain back. A window that nobody looked at yet has run for
/// nothing and needs what was asked for.
pub proof fn a_shadow_says_why(
    window: u64,
    confirm: ConfirmVerdict,
    legacy: LegacyDecision,
    e: IntentError,
)
    ensures
        gate_of(Some(Err(e)), false, confirm, legacy) == (GateView::Shadow {
            reason: ShadowReason::IntentMalformed,
        }),
        gate_of(Some(Ok(IntentView::Observe)), false, confirm, legacy) == (GateView::Shadow {
            reason: ShadowReason::ModeShadow,
        }),
        gate_of(Some(Ok(IntentView::Frozen)), false, confirm, legacy) == (GateView::Shadow {
            reason: ShadowReason::Suspended,
        }),
        ({
            let waiting = gate_of(
                Some(Ok(IntentView::CalibrateThenWrite { confirm_after_seconds: window })),
                false,
                confirm,
                legacy,
            );
            &&& confirm matches ConfirmVerdict::Pending { held_secs, required_secs } ==> waiting == (
            GateView::Shadow {
                reason: ShadowReason::ConfirmPending { held_secs, need_secs: required_secs },
            })
            &&& confirm matches ConfirmVerdict::Blocked(reason) ==> waiting == (GateView::Shadow {
                reason,
            })
            &&& confirm is NotEvaluated && window <= i64::MAX ==> waiting == (GateView::Shadow {
                reason: ShadowReason::ConfirmPending { held_secs: 0, need_secs: window as i64 },
            })
            &&& confirm is NotEvaluated && window > i64::MAX ==> waiting == (GateView::Shadow {
                reason: ShadowReason::ConfirmPending { held_secs: 0, need_secs: i64::MAX },
            })
        }),
        legacy matches LegacyDecision::Shadow(reason) ==> gate_of(None, false, confirm, legacy) == (
        GateView::Shadow { reason }),
{
}

/// What an authored intent means: to observe and to freeze mean themselves, to
/// calibrate keeps the window that was asked for and half an hour without one. A
/// write without an author is malformed.
pub proof fn an_intent_means_what_was_authored(
    window: Option<u64>,
    author: Option<Seq<char>>,
)
    ensures
        authored_intent(IntentKind::Observe, window, author) == Ok::<IntentView, IntentError>(
            IntentView::Observe,
        ),
        authored_intent(IntentKind::Frozen, window, author) == Ok::<IntentView, IntentError>(
            IntentView::Frozen,
        ),
        authored_intent(IntentKind::CalibrateThenWrite, window, author) == Ok::<
            IntentView,
            IntentError,
        >(
            IntentView::CalibrateThenWrite {
                confirm_after_seconds: match window {
                    Some(n) => n,
                    None => 1800,
                },
            },
        ),
        author is None ==> authored_intent(IntentKind::Write, window, author) is Err,
{
}

/// An author is taken as named, without the white space around it; an author of
/// white space alone is none.
pub proof fn an_author_is_taken_as_named(
    window: Option<u64>,
    front: Seq<char>,
    author: Seq<char>,
    back: Seq<char>,
)
    requires
        forall|i: int| 0 <= i < front.len() ==> CharClass::White.holds(#[trigger] front[i]),
        forall|i: int| 0 <= i < back.len() ==> CharClass::White.holds(#[trigger] back[i]),
        author.len() > 0 ==> !CharClass::White.holds(author[0]) && !CharClass::White.holds(
            author.last(),
        ),
    ensures
        authored_intent(IntentKind::Write, window, Some(front + author + back))
            == if author.len() == 0 {
            Err::<IntentView, IntentError>(IntentError::UnattributedWrite)
        } else {
            Ok(IntentView::Write { authorized_by: author })
        },
{
    let s = front + author + back;
    if author.len() == 0 {
        assert forall|i: int| 0 <= i < s.len() implies CharClass::White.holds(#[trigger] s[i]) by {
            if i < front.len() {
                assert(s[i] == front[i]);
            } else {
                assert(s[i] == back[i - front.len()]);
            }
        }
        crate::text::lemma_leading_is(s, CharClass::White, s.len() as int);
        assert(without_leading(s, CharClass::White) =~= Seq::<char>::empty());
        crate::text::lemma_trailing(without_leading(s, CharClass::White), CharClass::White);
        assert(trimmed(s).len() == 0);
    } else {
        assert forall|i: int| 0 <= i < front.len() implies CharClass::White.holds(
            #[trigger] s[i],
        ) by {
            assert(s[i] == front[i]);
        }
        assert(s[front.len() as int] == author[0]);
        crate::text::lemma_leading_is(s, CharClass::White, front.len() as int);
        let rest = without_leading(s, CharClass::White);
        assert(rest =~= author + back);
        assert forall|i: int| rest.len() - back.len() <= i < rest.len() implies
            CharClass::White.holds(#[trigger] rest[i]) by {
            assert(rest[i] == back[i - author.len()]);
        }
        assert(rest[author.len() - 1] == author.last());
        crate::text::lemma_trailing_is(rest, CharClass::White, back.len() as int);
        assert(trimmed(s) =~= author);
    }
}

/// A report carries what its gate knows: the reason or the witness by its kind, the
/// author as named, and the numbers of a window that runs, has passed or was needed.
pub proof fn a_report_carries_what_its_gate_knows(gate: GateView)
    ensures
        gate matches GateView::Shadow { reason } ==> {
            let r = report_of(gate);
            &&& reason is Frozen ==> r.reason == Some(ShadowReasonKind::Frozen)
            &&& reason is ModeShadow ==> r.reason == Some(ShadowReasonKind::ModeShadow)
            &&& reason is Suspended ==> r.reason == Some(ShadowReasonKind::Suspended)
            &&& reason is NotReady ==> r.reason == Some(ShadowReasonKind::NotReady)
            &&& reason is Stale ==> r.reason == Some(ShadowReasonKind::Stale)
            &&& reason is Conflict ==> r.reason == Some(ShadowReasonKind::Conflict)
            &&& reason is IntentMalformed ==> r.reason == Some(ShadowReasonKind::IntentMalformed)
            &&& reason matches ShadowReason::ConfirmPending { held_secs, need_secs } ==> r.reason
                == Some(ShadowReasonKind::ConfirmPending) && r.held_secs == Some(held_secs)
                && r.need_secs == Some(need_secs)
            &&& !(reason is ConfirmPending) ==> r.held_secs is None && r.need_secs is None
            &&& r.ready_since_epoch is None && r.legacy_path is None
        },
        gate matches GateView::Live { witness } ==> {
            let r = report_of(gate);
            &&& witness matches WitnessView::ExplicitIntent { authorized_by } ==> r.witness == Some(
                WitnessKind::ExplicitIntent,
            ) && r.authorized_by == Some(authorized_by)
            &&& witness is OperatorAnnotation ==> r.witness == Some(WitnessKind::OperatorAnnotation)
            &&& witness matches WitnessView::ConfirmGatePassed {
                ready_since_epoch,
                held_secs,
                required_secs,
            } ==> r.witness == Some(WitnessKind::ConfirmGatePassed) && r.held_secs == Some(
                held_secs,
            ) && r.need_secs == Some(required_secs) && r.ready_since_epoch == Some(
                ready_since_epoch,
            )
            &&& !(witness is ConfirmGatePassed) ==> r.held_secs is None && r.ready_since_epoch
                is None
            &&& witness matches WitnessView::LegacyDefault { would_be } ==> {
                &&& r.witness == Some(WitnessKind::LegacyDefault)
                &&& would_be is ModeEffect ==> r.legacy_path == Some(LegacyPathKind::ModeEffect)
                &&& would_be is TwoStateDryRun ==> r.legacy_path == Some(
                    LegacyPathKind::TwoStateDryRun,
                )
                &&& would_be is OperatorAnnotation ==> r.legacy_path == Some(
                    LegacyPathKind::OperatorAnnotation,
                )
                &&& would_be matches LegacyPath::ConfirmGate { required_secs } ==> r.legacy_path
                    == Some(LegacyPathKind::ConfirmGate) && r.need_secs == Some(required_secs)
                &&& !(would_be is ConfirmGate) ==> r.need_secs is None
            }
            &&& !(witness is LegacyDefault) ==> r.legacy_path is None
        },
{
}

/// Where only the flag of a two-state kind decides, a band writes exactly where the
/// flag is off and the cluster is not frozen.
pub proof fn a_two_state_kind_writes_unless_it_is_told_not_to(dry_run: bool, frozen: bool)
    ensures
        gate_of(None, frozen, ConfirmVerdict::NotEvaluated, two_state(dry_run)) is Live <==> !dry_run
            && !frozen,
{
}

/// Each kind of intent is written with its own word.
pub proof fn an_intent_is_known_by_its_word(k: IntentKind)
    ensures
        k.name() == "observe"@ <==> k is Observe,
        k.name() == "calibrateThenWrite"@ <==> k is CalibrateThenWrite,
        k.name() == "write"@ <==> k is Write,
        k.name() == "frozen"@ <==> k is Frozen,
{
    reveal_strlit("observe");
    reveal_strlit("calibrateThenWrite");
    reveal_strlit("write");
    reveal_strlit("frozen");
    assert("observe"@.len() == 7 && "calibrateThenWrite"@.len() == 18 && "write"@.len() == 5
        && "frozen"@.len() == 6);
}

} // verus!
