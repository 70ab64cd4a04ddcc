//! What an operator's requests come to: the patch that is written, or the
//! refusal that is answered. Members of an object stand in the order of their
//! names.

use vstd::prelude::*;

use crate::dimension::DimensionId;
use crate::gate::{text_of, IntentKind, WriteIntentSpec, CONFIRMED_ANNOTATION};
use crate::json::{
    items_view, json_number, json_object1, json_object2, json_text, json_view, lemma_items_view,
    member_text, object1, object2, wanted, with_item, with_member, Json, JsonView,
};
use crate::text::{chars_of, same_text, trim};

verus! {

/// What an operator's request comes to.
#[derive(Debug, PartialEq, Eq)]
pub enum Request {
    /// The patch is to be written.
    Patch(Json),
    /// Nothing is written, and this is the answer.
    Answer(Json),
}

/// A request's outcome with its texts as characters.
pub enum RequestView {
    /// The patch is to be written.
    Patch(JsonView),
    /// Nothing is written, and this is the answer.
    Answer(JsonView),
}

impl View for Request {
    type V = RequestView;

    open spec fn view(&self) -> RequestView {
        match *self {
            Request::Patch(j) => RequestView::Patch(j@),
            Request::Answer(j) => RequestView::Answer(j@),
        }
    }
}

/// The answer to a write that names no author.
pub open spec fn unattributed_answer() -> JsonView {
    JsonView::Object(
        seq![
            ("error"@, JsonView::Text("intent=write requires authorizedBy"@)),
            (
                "why"@,
                JsonView::Text(
                    "a live carve must name who authorized it; the witness is carried into status.effectiveGate so 'why is this band writing?' is answerable from the CR alone"@,
                ),
            ),
            ("wroteNothing"@, JsonView::Bool(true)),
        ],
    )
}

/// The members of an authored intent.
pub open spec fn intent_members(
    intent: IntentKind,
    confirm_after_seconds: Option<u64>,
    authorized_by: Option<Seq<char>>,
) -> Seq<(Seq<char>, JsonView)> {
    let by = match authorized_by {
        Some(a) => seq![("authorizedBy"@, JsonView::Text(a))],
        None => Seq::empty(),
    };
    let secs = match confirm_after_seconds {
        Some(n) => seq![
            ("confirmAfterSeconds"@, JsonView::Number(crate::text::decimal(n as nat))),
        ],
        None => Seq::empty(),
    };
    by + secs + seq![("intent"@, JsonView::Text(intent.name()))]
}

/// An author is named, and is not blank.
pub open spec fn names_an_author(authorized_by: Option<Seq<char>>) -> bool {
    authorized_by matches Some(a) && crate::text::trimmed(a).len() > 0
}

/// What a request to author an intent comes to: a write that names no author is
/// refused.
pub open spec fn authored(
    intent: IntentKind,
    confirm_after_seconds: Option<u64>,
    authorized_by: Option<Seq<char>>,
) -> RequestView {
    if intent is Write && !names_an_author(authorized_by) {
        RequestView::Answer(unattributed_answer())
    } else {
        RequestView::Patch(
            object1(
                "writeIntent"@,
                JsonView::Object(intent_members(intent, confirm_after_seconds, authorized_by)),
            ),
        )
    }
}

/// An authored intent as it is written: what is not authored is not there.
pub fn intent_json(authored: &WriteIntentSpec) -> (r: Json)
    ensures
        r@ == JsonView::Object(
            intent_members(
                authored.intent,
                authored.confirm_after_seconds,
                text_of(authored.authorized_by),
            ),
        ),
{
    let mut m: Vec<(String, Json)> = Vec::new();
    match &authored.authorized_by {
        Some(a) => {
            m = with_member(m, "authorizedBy", json_text(a.as_str()));
        },
        None => {},
    }
    match authored.confirm_after_seconds {
        Some(n) => {
            m = with_member(m, "confirmAfterSeconds", json_number(n));
        },
        None => {},
    }
    let m = with_member(m, "intent", json_text(authored.intent.as_str()));
    let r = Json::Object(m);
    assert(r@->Object_0 =~= intent_members(
        authored.intent,
        authored.confirm_after_seconds,
        text_of(authored.authorized_by),
    ));
    r
}

/// The kind of intents with a name.
pub open spec fn kind_named(name: Seq<char>) -> Option<IntentKind> {
    if name == "observe"@ {
        Some(IntentKind::Observe)
    } else if name == "calibrateThenWrite"@ {
        Some(IntentKind::CalibrateThenWrite)
    } else if name == "write"@ {
        Some(IntentKind::Write)
    } else if name == "frozen"@ {
        Some(IntentKind::Frozen)
    } else {
        None
    }
}

/// A number that may be left out; nothing where something else stands there.
pub open spec fn number_or_absent(o: Option<JsonView>) -> Option<Option<u64>> {
    match o {
        None => Some(None),
        Some(JsonView::Null) => Some(None),
        Some(j) => match j.natural() {
            Some(n) => Some(Some(n)),
            None => None,
        },
    }
}

/// A text that may be left out; nothing where something else stands there.
pub open spec fn text_or_absent(o: Option<JsonView>) -> Option<Option<Seq<char>>> {
    match o {
        None => Some(None),
        Some(JsonView::Null) => Some(None),
        Some(j) => match j.text() {
            Some(s) => Some(Some(s)),
            None => None,
        },
    }
}

/// What a written intent reads as: its kind must be there and be known, a window
/// must be a number and an author a text.
pub open spec fn intent_read(j: JsonView) -> Option<(IntentKind, Option<u64>, Option<Seq<char>>)> {
    match member_text(j, "intent"@) {
        None => None,
        Some(name) => match (
            kind_named(name),
            number_or_absent(j.member("confirmAfterSeconds"@)),
            text_or_absent(j.member("authorizedBy"@)),
        ) {
            (Some(kind), Some(secs), Some(by)) => Some((kind, secs, by)),
            _ => None,
        },
    }
}

/// Reads an intent as it is written.
pub fn read_intent(j: &Json) -> (r: Option<WriteIntentSpec>)
    ensures
        match r {
            Some(s) => intent_read(j@) == Some(
                (s.intent, s.confirm_after_seconds, text_of(s.authorized_by)),
            ),
            None => intent_read(j@) is None,
        },
{
    let name = match j.get_str("intent") {
        Some(s) => s,
        None => {
            return None;
        },
    };
    let intent = if same_text(name, "observe") {
        IntentKind::Observe
    } else if same_text(name, "calibrateThenWrite") {
        IntentKind::CalibrateThenWrite
    } else if same_text(name, "write") {
        IntentKind::Write
    } else if same_text(name, "frozen") {
        IntentKind::Frozen
    } else {
        return None;
    };
    let confirm_after_seconds: Option<u64> = match j.get("confirmAfterSeconds") {
        None => None,
        Some(Json::Null) => None,
        Some(n) => match n.as_u64() {
            Some(v) => Some(v),
            None => {
                return None;
            },
        },
    };
    let authorized_by: Option<String> = match j.get("authorizedBy") {
        None => None,
        Some(Json::Null) => None,
        Some(s) => match s.as_str() {
            Some(v) => Some(v.to_owned()),
            None => {
                return None;
            },
        },
    };
    Some(WriteIntentSpec { intent, confirm_after_seconds, authorized_by })
}

/// What a request to author an intent comes to.
pub fn set_write_intent(
    intent: IntentKind,
    confirm_after_seconds: Option<u64>,
    authorized_by: Option<String>,
) -> (r: Request)
    ensures
        r@ == authored(intent, confirm_after_seconds, wanted(authorized_by)),
{
    let named: bool = match &authorized_by {
        Some(a) => chars_of(trim(a.as_str()).as_str()).len() > 0,
        None => false,
    };
    let writes: bool = match intent {
        IntentKind::Write => true,
        _ => false,
    };
    if writes && !named {
        let m = with_member(
            Vec::new(),
            "error",
            json_text("intent=write requires authorizedBy"),
        );
        let m = with_member(
            m,
            "why",
            json_text(
                "a live carve must name who authorized it; the witness is carried into status.effectiveGate so 'why is this band writing?' is answerable from the CR alone",
            ),
        );
        let m = with_member(m, "wroteNothing", Json::Bool(true));
        let r = Json::Object(m);
        assert(r@->Object_0 =~= unattributed_answer()->Object_0);
        return Request::Answer(r);
    }
    let authored = WriteIntentSpec { intent, confirm_after_seconds, authorized_by };
    let inner = intent_json(&authored);
    Request::Patch(json_object1("writeIntent", inner))
}

/// The annotations that confirm a band; without confirmation the annotation is
/// taken away.
pub open spec fn confirmation(confirmed: bool) -> JsonView {
    object1(
        CONFIRMED_ANNOTATION@,
        if confirmed {
            JsonView::Text("true"@)
        } else {
            JsonView::Null
        },
    )
}

/// The annotations that confirm a band.
pub fn confirm(confirmed: bool) -> (r: Json)
    ensures
        r@ == confirmation(confirmed),
{
    let value = if confirmed {
        json_text("true")
    } else {
        Json::Null
    };
    json_object1(CONFIRMED_ANNOTATION, value)
}

/// The answer to a dry-run flag that the kind does not read.
pub open spec fn dry_run_answer(kind: DimensionId) -> JsonView {
    JsonView::Object(
        seq![
            ("error"@, JsonView::Text("spec.dryRun has no effect on this band kind"@)),
            (
                "honoredBy"@,
                JsonView::Array(
                    seq![JsonView::Text("host-param"@), JsonView::Text("kube-param"@)],
                ),
            ),
            ("kind"@, JsonView::Text(kind.name())),
            ("retiredSince"@, JsonView::Text("breathe@76924b0 (2026-06-19)"@)),
            (
                "useInstead"@,
                JsonView::Text(
                    "breathe_band_set_write_intent (intent=observe to hold, frozen to stop writing entirely)"@,
                ),
            ),
            (
                "why"@,
                JsonView::Text(
                    "promotion_mode() resolves writeIntent > mode > the compiled ShadowConfirmEffect default for this kind; spec.dryRun is never consulted. Writing it would have changed nothing while reporting success."@,
                ),
            ),
            ("wroteNothing"@, JsonView::Bool(true)),
        ],
    )
}

/// What a request to set the dry-run flag comes to: only the kinds that read it
/// are written.
pub open spec fn dry_run(kind: DimensionId, value: bool) -> RequestView {
    if kind.honors_dry_run() {
        RequestView::Patch(object1("dryRun"@, JsonView::Bool(value)))
    } else {
        RequestView::Answer(dry_run_answer(kind))
    }
}

/// What a request to set the dry-run flag comes to.
pub fn set_dry_run(kind: DimensionId, value: bool) -> (r: Request)
    ensures
        r@ == dry_run(kind, value),
{
    if kind.dry_run_is_honored() {
        return Request::Patch(json_object1("dryRun", Json::Bool(value)));
    }
    let kinds = with_item(with_item(Vec::new(), json_text("host-param")), json_text("kube-param"));
    assert(items_view(kinds@) =~= seq![
        JsonView::Text("host-param"@),
        JsonView::Text("kube-param"@),
    ]);
    let m = with_member(
        Vec::new(),
        "error",
        json_text("spec.dryRun has no effect on this band kind"),
    );
    let m = with_member(m, "honoredBy", Json::Array(kinds));
    let m = with_member(m, "kind", json_text(kind.as_str()));
    let m = with_member(m, "retiredSince", json_text("breathe@76924b0 (2026-06-19)"));
    let m = with_member(
        m,
        "useInstead",
        json_text(
            "breathe_band_set_write_intent (intent=observe to hold, frozen to stop writing entirely)",
        ),
    );
    let m = with_member(
        m,
        "why",
        json_text(
            "promotion_mode() resolves writeIntent > mode > the compiled ShadowConfirmEffect default for this kind; spec.dryRun is never consulted. Writing it would have changed nothing while reporting success.",
        ),
    );
    let m = with_member(m, "wroteNothing", Json::Bool(true));
    let r = Json::Object(m);
    assert(r@->Object_0 =~= dry_run_answer(kind)->Object_0);
    Request::Answer(r)
}

/// The patch of a node pool's write switch.
pub fn set_write_enabled(write_enabled: bool) -> (r: Json)
    ensures
        r@ == object1("writeEnabled"@, JsonView::Bool(write_enabled)),
{
    json_object1("writeEnabled", Json::Bool(write_enabled))
}

/// The choices of an intent, as a schema.
pub open spec fn intent_choices() -> JsonView {
    object2(
        "enum"@,
        JsonView::Array(
            IntentKind::ALL@.map_values(|k: IntentKind| JsonView::Text(k.name())),
        ),
        "type"@,
        JsonView::Text("string"@),
    )
}

/// The choices of an intent, as a schema: exactly the kinds of intents.
pub fn intent_schema() -> (r: Json)
    ensures
        r@ == intent_choices(),
{
    let all = IntentKind::ALL;
    let mut arms: Vec<Json> = Vec::new();
    let mut i: usize = 0;
    let ghost names = all@.map_values(|k: IntentKind| JsonView::Text(k.name()));
    assert(items_view(arms@) =~= names.take(0));
    while i < 4
        invariant
            i <= 4,
            all@.len() == 4,
            names == all@.map_values(|k: IntentKind| JsonView::Text(k.name())),
            items_view(arms@) == names.take(i as int),
        decreases 4 - i,
    {
        arms = with_item(arms, json_text(all[i].as_str()));
        i = i + 1;
        assert(items_view(arms@) =~= names.take(i as int));
    }
    assert(names.take(4) =~= names);
    json_object2("enum", Json::Array(arms), "type", json_text("string"))
}

/// The answer that carries an error.
pub fn error_answer(message: &str) -> (r: Json)
    ensures
        r@ == object1("error"@, JsonView::Text(message@)),
{
    json_object1("error", json_text(message))
}

// ─────────────────────── reads ───────────────────────

/// The kind of the objects that hold a dimension's bands.
pub open spec fn band_kind_name(kind: DimensionId) -> Seq<char> {
    match kind {
        DimensionId::Memory => "MemoryBand"@,
        DimensionId::Storage => "StorageBand"@,
        DimensionId::Cpu => "CpuBand"@,
        DimensionId::Replica => "ReplicaBand"@,
        DimensionId::Request => "RequestBand"@,
        DimensionId::Arc => "ArcBand"@,
        DimensionId::Cgroup => "CgroupBand"@,
        DimensionId::CgroupCpu => "CgroupCpuBand"@,
        DimensionId::HostParam => "HostParamBand"@,
        DimensionId::KubeParam => "KubeParamBand"@,
        DimensionId::AppParam => "AppParamBand"@,
    }
}

/// The kind of the objects that hold a dimension's bands.
#[must_use]
pub fn band_kind(kind: DimensionId) -> (r: &'static str)
    ensures
        r@ == band_kind_name(kind),
{
    match kind {
        DimensionId::Memory => "MemoryBand",
        DimensionId::Storage => "StorageBand",
        DimensionId::Cpu => "CpuBand",
        DimensionId::Replica => "ReplicaBand",
        DimensionId::Request => "RequestBand",
        DimensionId::Arc => "ArcBand",
        DimensionId::Cgroup => "CgroupBand",
        DimensionId::CgroupCpu => "CgroupCpuBand",
        DimensionId::HostParam => "HostParamBand",
        DimensionId::KubeParam => "KubeParamBand",
        DimensionId::AppParam => "AppParamBand",
    }
}

/// How much of an object a read gives.
#[derive(Debug, Clone, Copy, PartialEq, Eq, Structural)]
pub enum ProjectionView {
    /// The compact view.
    Summary,
    /// The compact view with the newest conditions and a bounded history.
    Detail,
    /// The whole object without the bookkeeping of the API server.
    Full,
    /// The object as it is.
    Raw,
}

/// How many samples of its history a band shows where no number was asked for.
pub const DEFAULT_HISTORY_LIMIT: usize = 3;

/// How much a read gives that was not told: a list gives the compact view.
#[must_use]
pub fn list_view(asked: Option<ProjectionView>) -> (r: ProjectionView)
    ensures
        r == match asked {
            Some(v) => v,
            None => ProjectionView::Summary,
        },
{
    match asked {
        Some(v) => v,
        None => ProjectionView::Summary,
    }
}

/// How much a read of one band gives that was not told: one step more than a
/// list.
#[must_use]
pub fn band_view(asked: Option<ProjectionView>) -> (r: ProjectionView)
    ensures
        r == match asked {
            Some(v) => v,
            None => ProjectionView::Detail,
        },
{
    match asked {
        Some(v) => v,
        None => ProjectionView::Detail,
    }
}

/// How many samples of a history a read gives.
#[must_use]
pub fn history_limit(asked: Option<usize>) -> (r: usize)
    ensures
        r == match asked {
            Some(n) => n,
            None => DEFAULT_HISTORY_LIMIT,
        },
{
    match asked {
        Some(n) => n,
        None => DEFAULT_HISTORY_LIMIT,
    }
}

// ─────────────────────── postures ───────────────────────

/// When a posture's change takes effect.
pub const FAN_OUT_WARNING: &'static str =
    "this patch affects every band referencing this posture on their NEXT reconcile tick, not instantly";

/// What can undo a posture's change.
pub const GIT_OPS_CAVEAT: &'static str =
    "if this object is Flux-managed with prune:true, this live patch will be reverted on the next reconcile unless followed by a git commit";

/// The text of a member of a member.
pub open spec fn inner_text(j: JsonView, outer: Seq<char>, key: Seq<char>) -> Option<Seq<char>> {
    match j.member(outer) {
        Some(m) => member_text(m, key),
        None => None,
    }
}

fn find_inner<'a>(j: &'a Json, outer: &str, key: &str) -> (r: Option<&'a str>)
    ensures
        crate::json::seen_text(r) == inner_text(j@, outer@, key@),
{
    match j.get(outer) {
        Some(m) => m.get_str(key),
        None => None,
    }
}

/// The text, or nothing.
pub open spec fn or_blank(o: Option<Seq<char>>) -> Seq<char> {
    match o {
        Some(s) => s,
        None => Seq::empty(),
    }
}

/// How a band is named.
pub open spec fn band_name(kind: DimensionId, band: JsonView) -> JsonView {
    JsonView::Object(
        seq![
            ("kind"@, JsonView::Text(kind.name())),
            ("name"@, JsonView::Text(or_blank(inner_text(band, "metadata"@, "name"@)))),
            ("namespace"@, JsonView::Text(or_blank(inner_text(band, "metadata"@, "namespace"@)))),
        ],
    )
}

fn name_band(kind: DimensionId, band: &Json) -> (r: Json)
    ensures
        r@ == band_name(kind, band@),
{
    let name = match find_inner(band, "metadata", "name") {
        Some(s) => s.to_owned(),
        None => String::new(),
    };
    assert(name@ =~= or_blank(inner_text(band@, "metadata"@, "name"@)));
    let namespace = match find_inner(band, "metadata", "namespace") {
        Some(s) => s.to_owned(),
        None => String::new(),
    };
    assert(namespace@ =~= or_blank(inner_text(band@, "metadata"@, "namespace"@)));
    let m = with_member(Vec::new(), "kind", json_text(kind.as_str()));
    let m = with_member(m, "name", json_text(name.as_str()));
    let m = with_member(m, "namespace", json_text(namespace.as_str()));
    let r = Json::Object(m);
    assert(r@->Object_0 =~= band_name(kind, band@)->Object_0);
    r
}

/// The bands among the items that refer to the posture, in order.
pub open spec fn referring(items: Seq<JsonView>, kind: DimensionId, posture: Seq<char>) -> Seq<
    JsonView,
>
    decreases items.len(),
{
    if items.len() == 0 {
        Seq::empty()
    } else {
        let rest = referring(items.drop_last(), kind, posture);
        if inner_text(items.last(), "spec"@, "postureRef"@) == Some(posture) {
            rest.push(band_name(kind, items.last()))
        } else {
            rest
        }
    }
}

/// The bands of a kind that refer to the posture; an answer that is no list has
/// none.
pub open spec fn referring_in(bands: JsonView, kind: DimensionId, posture: Seq<char>) -> Seq<
    JsonView,
> {
    match bands.items() {
        Some(items) => referring(items, kind, posture),
        None => Seq::empty(),
    }
}

fn add_referring(found: Vec<Json>, bands: &Json, kind: DimensionId, posture: &str) -> (r: Vec<
    Json,
>)
    ensures
        items_view(r@) == items_view(found@) + referring_in(bands@, kind, posture@),
{
    let ghost before = items_view(found@);
    assert(before + Seq::<JsonView>::empty() =~= before);
    let items = match bands.as_array() {
        Some(v) => v,
        None => {
            return found;
        },
    };
    let ghost all = items_view(items@);
    proof {
        lemma_items_view(items@);
        assert(all.take(0) =~= Seq::<JsonView>::empty());
    }
    let mut r = found;
    let mut i: usize = 0;
    while i < items.len()
        invariant
            i <= items.len(),
            all == items_view(items@),
            all.len() == items.len(),
            forall|k: int| 0 <= k < items.len() ==> #[trigger] all[k] == json_view(items@[k]),
            items_view(r@) == before + referring(all.take(i as int), kind, posture@),
        decreases items.len() - i,
    {
        assert(all.take(i + 1).drop_last() =~= all.take(i as int));
        assert(all.take(i + 1).last() == all[i as int]);
        let ghost so_far = referring(all.take(i as int), kind, posture@);
        let refers: bool = match find_inner(&items[i], "spec", "postureRef") {
            Some(s) => same_text(s, posture),
            None => false,
        };
        if refers {
            r = with_item(r, name_band(kind, &items[i]));
            assert(items_view(r@) =~= before + so_far.push(band_name(kind, all[i as int])));
        }
        i = i + 1;
    }
    assert(all.take(all.len() as int) =~= all);
    r
}

/// The bands of every kind that refer to the posture, kind by kind; a kind that
/// could not be listed is passed over.
pub open spec fn all_referring(
    answers: Seq<(DimensionId, Option<Json>)>,
    posture: Seq<char>,
) -> Seq<JsonView>
    decreases answers.len(),
{
    if answers.len() == 0 {
        Seq::empty()
    } else {
        let rest = all_referring(answers.drop_last(), posture);
        match answers.last().1 {
            Some(bands) => rest + referring_in(bands@, answers.last().0, posture),
            None => rest,
        }
    }
}

/// The bands that refer to the posture, out of what each kind was answered with.
pub fn referencing_bands(answers: &Vec<(DimensionId, Option<Json>)>, posture: &str) -> (r: Vec<
    Json,
>)
    ensures
        items_view(r@) == all_referring(answers@, posture@),
{
    let mut r: Vec<Json> = Vec::new();
    let mut i: usize = 0;
    assert(answers@.take(0) =~= Seq::<(DimensionId, Option<Json>)>::empty());
    while i < answers.len()
        invariant
            i <= answers.len(),
            items_view(r@) == all_referring(answers@.take(i as int), posture@),
        decreases answers.len() - i,
    {
        assert(answers@.take(i + 1).drop_last() =~= answers@.take(i as int));
        match &answers[i].1 {
            Some(bands) => {
                r = add_referring(r, bands, answers[i].0, posture);
            },
            None => {},
        }
        i = i + 1;
    }
    assert(answers@.take(answers@.len() as int) =~= answers@);
    r
}

/// The answer to a question for a posture.
pub fn posture_answer(posture: Json, referencing: Vec<Json>) -> (r: Json)
    ensures
        r@ == object2(
            "posture"@,
            posture@,
            "referencingBands"@,
            JsonView::Array(items_view(referencing@)),
        ),
{
    json_object2("posture", posture, "referencingBands", Json::Array(referencing))
}

/// The answer that previews a posture's change.
pub open spec fn posture_preview(name: Seq<char>, spec: JsonView) -> JsonView {
    JsonView::Object(
        seq![
            ("dryRun"@, JsonView::Bool(true)),
            ("fanOutWarning"@, JsonView::Text(FAN_OUT_WARNING@)),
            ("gitOpsCaveat"@, JsonView::Text(GIT_OPS_CAVEAT@)),
            ("name"@, JsonView::Text(name)),
            ("wouldPatch"@, spec),
        ],
    )
}

/// What a request to change a posture comes to: a preview writes nothing.
pub fn patch_posture(name: &str, content: Json, preview: Option<bool>) -> (r: Request)
    ensures
        r@ == if preview == Some(true) {
            RequestView::Answer(posture_preview(name@, content@))
        } else {
            RequestView::Patch(content@)
        },
{
    let only_preview: bool = match preview {
        Some(b) => b,
        None => false,
    };
    if !only_preview {
        return Request::Patch(content);
    }
    let m = with_member(Vec::new(), "dryRun", Json::Bool(true));
    let m = with_member(m, "fanOutWarning", json_text(FAN_OUT_WARNING));
    let m = with_member(m, "gitOpsCaveat", json_text(GIT_OPS_CAVEAT));
    let m = with_member(m, "name", json_text(name));
    let m = with_member(m, "wouldPatch", content);
    let r = Json::Object(m);
    assert(r@->Object_0 =~= posture_preview(name@, content@)->Object_0);
    Request::Answer(r)
}

/// The answer to a posture's change that was made.
pub fn posture_patched(result: Json) -> (r: Json)
    ensures
        r@ == JsonView::Object(
            seq![
                ("fanOutWarning"@, JsonView::Text(FAN_OUT_WARNING@)),
                ("gitOpsCaveat"@, JsonView::Text(GIT_OPS_CAVEAT@)),
                ("result"@, result@),
            ],
        ),
{
    let m = with_member(Vec::new(), "fanOutWarning", json_text(FAN_OUT_WARNING));
    let m = with_member(m, "gitOpsCaveat", json_text(GIT_OPS_CAVEAT));
    let m = with_member(m, "result", result);
    let r = Json::Object(m);
    assert(r@->Object_0 =~= seq![
        ("fanOutWarning"@, JsonView::Text(FAN_OUT_WARNING@)),
        ("gitOpsCaveat"@, JsonView::Text(GIT_OPS_CAVEAT@)),
        ("result"@, result@),
    ]);
    r
}

// ─────────────────────── laws ───────────────────────

/// An intent is refused exactly when its band would find it malformed, so no
/// intent is written that a band holds as malformed.
pub proof fn a_written_intent_is_never_malformed(
    intent: IntentKind,
    confirm_after_seconds: Option<u64>,
    authorized_by: Option<Seq<char>>,
)
    ensures
        authored(intent, confirm_after_seconds, authorized_by) is Patch
            <==> crate::gate::authored_intent(intent, confirm_after_seconds, authorized_by) is Ok,
{
}

/// What is written of an intent reads back as what was asked for.
pub proof fn a_written_intent_reads_back(
    intent: IntentKind,
    confirm_after_seconds: Option<u64>,
    authorized_by: Option<Seq<char>>,
)
    ensures
        intent_read(
            JsonView::Object(intent_members(intent, confirm_after_seconds, authorized_by)),
        ) == Some((intent, confirm_after_seconds, authorized_by)),
{
    lemma_kind_named(intent);
    reveal_strlit("intent");
    reveal_strlit("authorizedBy");
    reveal_strlit("confirmAfterSeconds");
    assert("intent"@.len() == 6 && "authorizedBy"@.len() == 12 && "confirmAfterSeconds"@.len()
        == 19);
    let m = intent_members(intent, confirm_after_seconds, authorized_by);
    match confirm_after_seconds {
        Some(n) => {
            crate::text::a_number_reads_back_from_its_numeral(n);
        },
        None => {},
    }
    let last = ("intent"@, JsonView::Text(intent.name()));
    let rest = m.drop_first();
    match (authorized_by, confirm_after_seconds) {
        (Some(a), Some(n)) => {
            assert(rest =~= seq![
                ("confirmAfterSeconds"@, JsonView::Number(crate::text::decimal(n as nat))),
                last,
            ]);
            assert(rest.drop_first() =~= seq![last]);
        },
        (Some(a), None) => {
            assert(rest =~= seq![last]);
        },
        (None, Some(n)) => {
            assert(rest =~= seq![last]);
        },
        (None, None) => {
            assert(m =~= seq![last]);
            assert(rest =~= Seq::empty());
        },
    }
    assert(seq![last].drop_first() =~= Seq::<(Seq<char>, JsonView)>::empty());
    reveal_with_fuel(crate::json::member_of, 4);
}

proof fn lemma_kind_named(kind: IntentKind)
    ensures
        kind_named(kind.name()) == Some(kind),
{
    reveal_strlit("observe");
    reveal_strlit("calibrateThenWrite");
    reveal_strlit("write");
    reveal_strlit("frozen");
    assert("observe"@.len() == 7 && "calibrateThenWrite"@.len() == 18 && "write"@.len() == 5
        && "frozen"@.len() == 6);
}

/// The dry-run flag is written only for the kinds that read it, and any other
/// request for it is answered with what to use in its place.
pub proof fn an_inert_flag_is_never_written(kind: DimensionId, value: bool)
    ensures
        dry_run(kind, value) is Patch <==> kind is HostParam || kind is KubeParam,
        dry_run(kind, value) matches RequestView::Answer(a) ==> a == dry_run_answer(kind),
{
}

/// What is written of an intent: under `writeIntent` its kind by name, and its
/// author and its window exactly where they were given. Only a write without an
/// author, or with a blank one, is refused, and then nothing is written.
pub proof fn an_intent_is_written_as_asked(
    intent: IntentKind,
    confirm_after_seconds: Option<u64>,
    authorized_by: Option<Seq<char>>,
)
    ensures
        ({
            let asked = authored(intent, confirm_after_seconds, authorized_by);
            let blank = match authorized_by {
                Some(a) => crate::text::trimmed(a).len() == 0,
                None => true,
            };
            &&& intent is Write && blank ==> asked is Answer && asked->Answer_0.member(
                "wroteNothing"@,
            ) == Some(JsonView::Bool(true)) && asked->Answer_0.member("error"@) == Some(
                JsonView::Text("intent=write requires authorizedBy"@),
            )
            &&& !(intent is Write && blank) ==> {
                &&& asked matches RequestView::Patch(p)
                &&& p == JsonView::Object(
                    seq![
                        (
                            "writeIntent"@,
                            JsonView::Object(
                                intent_members(intent, confirm_after_seconds, authorized_by),
                            ),
                        ),
                    ],
                )
            }
        }),
        ({
            let m = JsonView::Object(intent_members(intent, confirm_after_seconds, authorized_by));
            &&& m.member("intent"@) == Some(
                JsonView::Text(
                    match intent {
                        IntentKind::Observe => "observe"@,
                        IntentKind::CalibrateThenWrite => "calibrateThenWrite"@,
                        IntentKind::Write => "write"@,
                        IntentKind::Frozen => "frozen"@,
                    },
                ),
            )
            &&& m.member("authorizedBy"@) == match authorized_by {
                Some(a) => Some(JsonView::Text(a)),
                None => None,
            }
            &&& m.member("confirmAfterSeconds"@) == match confirm_after_seconds {
                Some(n) => Some(JsonView::Number(crate::text::decimal(n as nat))),
                None => None,
            }
        }),
{
    reveal_strlit("intent");
    reveal_strlit("authorizedBy");
    reveal_strlit("confirmAfterSeconds");
    reveal_strlit("error");
    reveal_strlit("why");
    reveal_strlit("wroteNothing");
    assert("intent"@.len() == 6 && "authorizedBy"@.len() == 12 && "confirmAfterSeconds"@.len()
        == 19);
    let m = intent_members(intent, confirm_after_seconds, authorized_by);
    let a = if authorized_by is Some {
        1int
    } else {
        0int
    };
    let n = if confirm_after_seconds is Some {
        a + 1
    } else {
        a
    };
    crate::kube_laws::a_member_is_the_first_with_its_key(m, "intent"@, n);
    crate::kube_laws::a_member_is_the_first_with_its_key(m, "authorizedBy"@, 0);
    crate::kube_laws::a_member_is_the_first_with_its_key(m, "confirmAfterSeconds"@, a);
    let answer = unattributed_answer()->Object_0;
    assert("error"@.len() == 5 && "why"@.len() == 3 && "wroteNothing"@.len() == 12);
    crate::kube_laws::a_member_is_the_first_with_its_key(answer, "error"@, 0);
    crate::kube_laws::a_member_is_the_first_with_its_key(answer, "wroteNothing"@, 2);
}

/// A band is confirmed by setting its annotation to `true`, and unconfirmed by
/// taking the annotation away; a dry-run flag is written as it was asked for.
pub proof fn a_flag_is_written_as_asked(kind: DimensionId, value: bool)
    ensures
        confirmation(true) == JsonView::Object(
            seq![("breathe.pleme.io/confirmed"@, JsonView::Text("true"@))],
        ),
        confirmation(false) == JsonView::Object(
            seq![("breathe.pleme.io/confirmed"@, JsonView::Null)],
        ),
        kind is HostParam || kind is KubeParam ==> dry_run(kind, value) == RequestView::Patch(
            JsonView::Object(seq![("dryRun"@, JsonView::Bool(value))]),
        ),
{
}

/// Each band that refers to the posture by its `spec.postureRef` is named behind
/// those in front of it, under its own kind, name and namespace, and no other is.
pub proof fn each_referring_band_is_named(
    items: Seq<JsonView>,
    band: JsonView,
    kind: DimensionId,
    posture: Seq<char>,
)
    ensures
        referring(Seq::empty(), kind, posture).len() == 0,
        referring(items.push(band), kind, posture) == if crate::kube_laws::text_below(
            band,
            seq!["spec"@, "postureRef"@],
        ) == Some(posture) {
            referring(items, kind, posture).push(band_name(kind, band))
        } else {
            referring(items, kind, posture)
        },
        ({
            let text = |key: Seq<char>|
                JsonView::Text(
                    match crate::kube_laws::text_below(band, seq!["metadata"@, key]) {
                        Some(s) => s,
                        None => Seq::empty(),
                    },
                );
            band_name(kind, band) == JsonView::Object(
                seq![
                    ("kind"@, JsonView::Text(kind.name())),
                    ("name"@, text("name"@)),
                    ("namespace"@, text("namespace"@)),
                ],
            )
        }),
{
    assert(items.push(band).drop_last() =~= items);
    lemma_inner_text(band, "spec"@, "postureRef"@);
    lemma_inner_text(band, "metadata"@, "name"@);
    lemma_inner_text(band, "metadata"@, "namespace"@);
}

proof fn lemma_inner_text(j: JsonView, outer: Seq<char>, key: Seq<char>)
    ensures
        inner_text(j, outer, key) == crate::kube_laws::text_below(j, seq![outer, key]),
{
    let keys = seq![outer, key];
    assert(keys.drop_first() =~= seq![key]);
    assert(seq![key].drop_first() =~= Seq::<Seq<char>>::empty());
    reveal_with_fuel(crate::kube_laws::below, 3);
}

/// Each kind that could be listed adds its referring bands behind those of the
/// kinds in front of it, and a kind that could not adds none.
pub proof fn each_listed_kind_adds_its_bands(
    answers: Seq<(DimensionId, Option<Json>)>,
    kind: DimensionId,
    answer: Option<Json>,
    posture: Seq<char>,
)
    ensures
        all_referring(Seq::empty(), posture).len() == 0,
        all_referring(answers.push((kind, answer)), posture) == all_referring(answers, posture) + (
        match answer {
            Some(bands) => match bands@ {
                JsonView::Array(items) => referring(items, kind, posture),
                _ => Seq::empty(),
            },
            None => Seq::empty(),
        }),
{
    assert(answers.push((kind, answer)).drop_last() =~= answers);
    let rest = all_referring(answers, posture);
    assert(rest + Seq::<JsonView>::empty() =~= rest);
}

/// A written kind of intents is read exactly by its own name.
pub proof fn a_kind_of_intents_is_read_by_its_name(name: Seq<char>)
    ensures
        kind_named(name) == Some(IntentKind::Observe) <==> name == "observe"@,
        kind_named(name) == Some(IntentKind::CalibrateThenWrite) <==> name
            == "calibrateThenWrite"@,
        kind_named(name) == Some(IntentKind::Write) <==> name == "write"@,
        kind_named(name) == Some(IntentKind::Frozen) <==> name == "frozen"@,
{
    lemma_kind_named(IntentKind::Observe);
    lemma_kind_named(IntentKind::CalibrateThenWrite);
    lemma_kind_named(IntentKind::Write);
    lemma_kind_named(IntentKind::Frozen);
}

/// No two dimensions keep their bands in objects of one kind.
pub proof fn each_dimension_has_a_band_of_its_own(a: DimensionId, b: DimensionId)
    ensures
        band_kind_name(a) == band_kind_name(b) ==> a == b,
        band_kind_name(a).len() > 4 && band_kind_name(a).skip(band_kind_name(a).len() - 4)
            == "Band"@,
{
    reveal_strlit("Band");
    reveal_strlit("MemoryBand");
    reveal_strlit("StorageBand");
    reveal_strlit("CpuBand");
    reveal_strlit("ReplicaBand");
    reveal_strlit("RequestBand");
    reveal_strlit("ArcBand");
    reveal_strlit("CgroupBand");
    reveal_strlit("CgroupCpuBand");
    reveal_strlit("HostParamBand");
    reveal_strlit("KubeParamBand");
    reveal_strlit("AppParamBand");
    let x = band_kind_name(a);
    let y = band_kind_name(b);
    if x == y {
        assert(x[0] == y[0] && x[1] == y[1] && x[2] == y[2] && x[6] == y[6]);
    }
    assert(x.skip(x.len() - 4) =~= "Band"@);
}

/// A preview of a posture's change holds the change itself, says whom it is for and
/// that it is a dry run.
pub proof fn a_preview_holds_the_change(name: Seq<char>, spec: JsonView)
    ensures
        posture_preview(name, spec).member("wouldPatch"@) == Some(spec),
        posture_preview(name, spec).member("name"@) == Some(JsonView::Text(name)),
        posture_preview(name, spec).member("dryRun"@) == Some(JsonView::Bool(true)),
{
    reveal_strlit("wouldPatch");
    reveal_strlit("name");
    reveal_strlit("dryRun");
    reveal_strlit("fanOutWarning");
    reveal_strlit("gitOpsCaveat");
    let j = posture_preview(name, spec);
    assert("wouldPatch"@.len() == 10 && "name"@.len() == 4 && "dryRun"@.len() == 6
        && "fanOutWarning"@.len() == 13 && "gitOpsCaveat"@.len() == 12);
    crate::kube_laws::a_member_is_the_first_with_its_key(j->Object_0, "wouldPatch"@, 4);
    crate::kube_laws::a_member_is_the_first_with_its_key(j->Object_0, "name"@, 3);
    crate::kube_laws::a_member_is_the_first_with_its_key(j->Object_0, "dryRun"@, 0);
}

/// A dry-run flag that a kind does not read is answered with an error that names the
/// kind and says that nothing was written.
pub proof fn an_unread_flag_is_answered_with_an_error(kind: DimensionId)
    ensures
        dry_run_answer(kind).member("error"@) is Some,
        dry_run_answer(kind).member("kind"@) == Some(JsonView::Text(kind.name())),
        dry_run_answer(kind).member("wroteNothing"@) == Some(JsonView::Bool(true)),
{
    reveal_strlit("error");
    reveal_strlit("honoredBy");
    reveal_strlit("kind");
    reveal_strlit("retiredSince");
    reveal_strlit("useInstead");
    reveal_strlit("why");
    reveal_strlit("wroteNothing");
    let j = dry_run_answer(kind);
    assert("error"@.len() == 5 && "honoredBy"@.len() == 9 && "kind"@.len() == 4
        && "retiredSince"@.len() == 12 && "useInstead"@.len() == 10 && "why"@.len() == 3
        && "wroteNothing"@.len() == 12);
    assert("retiredSince"@[0] == 'r' && "wroteNothing"@[0] == 'w');
    crate::kube_laws::a_member_is_the_first_with_its_key(j->Object_0, "error"@, 0);
    crate::kube_laws::a_member_is_the_first_with_its_key(j->Object_0, "kind"@, 2);
    crate::kube_laws::a_member_is_the_first_with_its_key(j->Object_0, "wroteNothing"@, 6);
}

} // verus!
