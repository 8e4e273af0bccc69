//! The steps of a maintenance run: validation, compaction, feedback and embeddings.
use vstd::prelude::*;
use vstd::string::*;
use crate::config::Config;
use crate::json::{Json, JsonView};
use crate::maintenance::{
    clamp,
    MaintenanceCompactionApplication,
    MaintenanceCompactionReport,
    MaintenanceEmbeddingReport,
    MaintenanceFeedbackReport,
    MaintenanceValidationReport,
    ValidationAction,
    ValidationDecision,
    ValidationReport,
};
use crate::memory_writes::{
    summary_id,
    ChangeKind,
    ChangeView,
    CompactionProposal,
    RememberOutcome,
    StatusChange,
};
use crate::text::{cat3, copy_opt, holds_text, owned, same_text};
use crate::{json, maintenance, memory_writes, text};

verus! {

// ---------------------------------------------------------------------------
// Validation
// ---------------------------------------------------------------------------

/// How many pending memories are looked at.
pub fn validation_limit(limit: usize) -> (r: usize)
    ensures
        r == maintenance::clamped(limit, 1, 500),
{
    clamp(limit, 1, 500)
}

/// The change that a decision asks for; none where the memory is kept.
pub open spec fn change_of(d: ValidationDecision) -> Option<ChangeView> {
    match d.action {
        ValidationAction::Promote => Some(
            ChangeView { id: d.id@, kind: ChangeKind::Promote, reason: Some(d.reason@) },
        ),
        ValidationAction::Archive => Some(
            ChangeView { id: d.id@, kind: ChangeKind::Archive, reason: Some(d.reason@) },
        ),
        ValidationAction::Keep => None,
    }
}

/// The changes that decisions ask for, in their order.
pub open spec fn changes_of(decisions: Seq<ValidationDecision>) -> Seq<ChangeView>
    decreases decisions.len(),
{
    if decisions.len() == 0 {
        Seq::empty()
    } else {
        let rest = changes_of(decisions.drop_last());
        match change_of(decisions.last()) {
            Some(change) => rest.push(change),
            None => rest,
        }
    }
}

/// The changes that a run makes of decisions: none where it is not to apply them.
pub fn validation_changes(decisions: &Vec<ValidationDecision>, apply: bool) -> (r: Vec<
    StatusChange,
>)
    ensures
        memory_writes::change_views(r@) == (if apply {
            changes_of(decisions@)
        } else {
            Seq::empty()
        }),
{
    let mut r: Vec<StatusChange> = Vec::new();
    assert(memory_writes::change_views(r@) =~= Seq::<ChangeView>::empty());
    if !apply {
        return r;
    }
    let mut i: usize = 0;
    assert(decisions@.take(0) =~= Seq::<ValidationDecision>::empty());
    while i < decisions.len()
        invariant
            i <= decisions.len(),
            memory_writes::change_views(r@) == changes_of(decisions@.take(i as int)),
        decreases decisions.len() - i,
    {
        let d = &decisions[i];
        let ghost before = r@;
        assert(decisions@.take(i + 1).drop_last() =~= decisions@.take(i as int));
        let kind = match d.action {
            ValidationAction::Promote => Some(ChangeKind::Promote),
            ValidationAction::Archive => Some(ChangeKind::Archive),
            ValidationAction::Keep => None,
        };
        if let Some(kind) = kind {
            let change = StatusChange {
                id: owned(d.id.as_str()),
                kind,
                reason: Some(owned(d.reason.as_str())),
            };
            let ghost made = change@;
            r.push(change);
            assert(memory_writes::change_views(r@) =~= memory_writes::change_views(before).push(
                made,
            ));
        }
        i += 1;
    }
    assert(decisions@.take(i as int) =~= decisions@);
    r
}

/// How many decisions ask for an action.
pub open spec fn action_count(decisions: Seq<ValidationDecision>, action: ValidationAction) -> nat
    decreases decisions.len(),
{
    if decisions.len() == 0 {
        0
    } else {
        action_count(decisions.drop_last(), action) + (if decisions.last().action == action {
            1nat
        } else {
            0
        })
    }
}

/// Every decision asks for one of the three actions.
pub proof fn every_decision_counts_once(decisions: Seq<ValidationDecision>)
    ensures
        action_count(decisions, ValidationAction::Promote) + action_count(
            decisions,
            ValidationAction::Archive,
        ) + action_count(decisions, ValidationAction::Keep) == decisions.len(),
        changes_of(decisions).len() == action_count(decisions, ValidationAction::Promote)
            + action_count(decisions, ValidationAction::Archive),
    decreases decisions.len(),
{
    if decisions.len() > 0 {
        every_decision_counts_once(decisions.drop_last());
    }
}

/// Counts the decisions that ask for an action.
fn count_action(decisions: &Vec<ValidationDecision>, action: ValidationAction) -> (r: usize)
    ensures
        r == action_count(decisions@, action),
{
    let mut n: usize = 0;
    let mut i: usize = 0;
    assert(decisions@.take(0) =~= Seq::<ValidationDecision>::empty());
    while i < decisions.len()
        invariant
            i <= decisions.len(),
            n <= i,
            n == action_count(decisions@.take(i as int), action),
        decreases decisions.len() - i,
    {
        assert(decisions@.take(i + 1).drop_last() =~= decisions@.take(i as int));
        if decisions[i].action == action {
            n += 1;
        }
        i += 1;
    }
    assert(decisions@.take(i as int) =~= decisions@);
    n
}

/// What the validation step reports.
pub fn validation_report(pending: usize, apply: bool, decisions: ValidationReport) -> (r:
    MaintenanceValidationReport)
    ensures
        r.status@ == "ok"@,
        r.model@ == decisions.model@,
        r.pending == pending,
        r.apply == apply,
        r.promote == action_count(decisions.decisions@, ValidationAction::Promote),
        r.archive == action_count(decisions.decisions@, ValidationAction::Archive),
        r.keep == action_count(decisions.decisions@, ValidationAction::Keep),
        r.decisions == Some(decisions),
        r.error is None,
{
    MaintenanceValidationReport {
        status: owned("ok"),
        model: owned(decisions.model.as_str()),
        pending,
        apply,
        promote: count_action(&decisions.decisions, ValidationAction::Promote),
        archive: count_action(&decisions.decisions, ValidationAction::Archive),
        keep: count_action(&decisions.decisions, ValidationAction::Keep),
        decisions: Some(decisions),
        error: None,
    }
}

// ---------------------------------------------------------------------------
// Compaction
// ---------------------------------------------------------------------------

/// How many memories are looked at for a summary.
pub fn compaction_limit(limit: usize) -> (r: usize)
    ensures
        r == maintenance::clamped(limit, 2, 500),
{
    clamp(limit, 2, 500)
}

/// Whether there are too few memories for a summary.
pub open spec fn too_few(memories: usize, min_memories: usize) -> bool {
    memories < maintenance::clamped(min_memories, 2, 500)
}

/// What a report of the compaction step says but for its status, its proposal and its error.
pub open spec fn compaction_numbers(
    r: MaintenanceCompactionReport,
    memories: usize,
    min_memories: usize,
    apply: bool,
) -> bool {
    r.candidate_memories == memories && r.min_memories == min_memories && r.apply == apply
}

/// The report of a step that has too few memories for a summary; none where it has enough, and a
/// summary is to be asked for.
pub fn skip_compaction(memories: usize, min_memories: usize, apply: bool) -> (r: Option<
    MaintenanceCompactionReport,
>)
    ensures
        r is Some <==> too_few(memories, min_memories),
        r matches Some(report) ==> {
            &&& compaction_numbers(report, memories, min_memories, apply)
            &&& report.status@ == "skipped"@
            &&& report.proposal is None
            &&& report.application is None
            &&& report.error is None
        },
{
    if memories < clamp(min_memories, 2, 500) {
        Some(
            MaintenanceCompactionReport {
                status: owned("skipped"),
                candidate_memories: memories,
                min_memories,
                apply,
                proposal: None,
                application: None,
                error: None,
            },
        )
    } else {
        None
    }
}

/// The report of a step whose summary could not be had.
pub fn failed_compaction(memories: usize, min_memories: usize, apply: bool, error: String) -> (r:
    MaintenanceCompactionReport)
    ensures
        compaction_numbers(r, memories, min_memories, apply),
        r.status@ == "failed"@,
        r.proposal is None,
        r.application is None,
        r.error == Some(error),
{
    MaintenanceCompactionReport {
        status: owned("failed"),
        candidate_memories: memories,
        min_memories,
        apply,
        proposal: None,
        application: None,
        error: Some(error),
    }
}

/// What came of storing a summary: the memory that stands for it, and that all its sources were
/// archived.
pub fn compaction_application(proposal: &CompactionProposal, outcome: &RememberOutcome) -> (r:
    MaintenanceCompactionApplication)
    ensures
        r.summary_id@ == memory_writes::kept_id(*outcome),
        r.inserted == outcome.inserted,
        text::opt_text(r.duplicate_of) == text::opt_text(outcome.duplicate_of),
        r.archived_source_memories == proposal.source_ids.len(),
{
    MaintenanceCompactionApplication {
        summary_id: summary_id(outcome),
        inserted: outcome.inserted,
        duplicate_of: copy_opt(&outcome.duplicate_of),
        archived_source_memories: proposal.source_ids.len(),
    }
}

/// The report of a step that has a summary, which was stored where the run is to apply it.
pub fn compaction_report(
    memories: usize,
    min_memories: usize,
    proposal: CompactionProposal,
    outcome: Option<&RememberOutcome>,
) -> (r: MaintenanceCompactionReport)
    ensures
        compaction_numbers(r, memories, min_memories, outcome is Some),
        r.status@ == (if outcome is Some {
            "applied"@
        } else {
            "prepared"@
        }),
        r.proposal == Some(proposal),
        r.application is Some <==> outcome is Some,
        r.application matches Some(application) ==> {
            &&& application.summary_id@ == memory_writes::kept_id(*outcome->0)
            &&& application.inserted == outcome->0.inserted
            &&& text::opt_text(application.duplicate_of) == text::opt_text(outcome->0.duplicate_of)
            &&& application.archived_source_memories == proposal.source_ids.len()
        },
        r.error is None,
{
    let application = match outcome {
        Some(outcome) => Some(compaction_application(&proposal, outcome)),
        None => None,
    };
    let apply = outcome.is_some();
    MaintenanceCompactionReport {
        status: if apply {
            owned("applied")
        } else {
            owned("prepared")
        },
        candidate_memories: memories,
        min_memories,
        apply,
        proposal: Some(proposal),
        application,
        error: None,
    }
}

// ---------------------------------------------------------------------------
// Feedback
// ---------------------------------------------------------------------------

/// An event of the audit log.
#[derive(Debug)]
pub struct AuditEvent {
    pub id: String,
    pub action: String,
    pub detail: Json,
}

/// An event of the audit log, by its values.
pub struct EventView {
    pub id: Seq<char>,
    pub action: Seq<char>,
    pub detail: JsonView,
}

impl View for AuditEvent {
    type V = EventView;

    open spec fn view(&self) -> EventView {
        EventView { id: self.id@, action: self.action@, detail: self.detail@ }
    }
}

/// Events by their values.
pub open spec fn event_views(s: Seq<AuditEvent>) -> Seq<EventView> {
    s.map_values(|e: AuditEvent| e@)
}

/// How many events are looked at.
pub fn feedback_limit(limit: usize) -> (r: usize)
    ensures
        r == maintenance::clamped(limit, 1, 500),
{
    clamp(limit, 1, 500)
}

/// Whether an event says that the feedback of another was applied.
pub open spec fn marks(e: EventView, id: Seq<char>) -> bool {
    e.action == "dukememory_feedback_apply"@ && e.detail.text_field("feedback_event_id"@) == Some(
        id,
    )
}

/// Whether any event says that the feedback of one was applied.
pub open spec fn is_marked(events: Seq<EventView>, id: Seq<char>) -> bool {
    exists|i: int| 0 <= i < events.len() && marks(#[trigger] events[i], id)
}

/// Whether an event is feedback that was not applied yet.
pub open spec fn is_open_feedback(events: Seq<EventView>, e: EventView) -> bool {
    e.action == "dukememory_feedback"@ && !is_marked(events, e.id)
}

/// The places of the feedback that was not applied yet, among the first `n` events.
pub open spec fn open_feedback(events: Seq<EventView>, n: nat) -> Seq<usize>
    decreases n,
{
    if n == 0 {
        Seq::empty()
    } else {
        let rest = open_feedback(events, (n - 1) as nat);
        if is_open_feedback(events, events[n - 1]) {
            rest.push((n - 1) as usize)
        } else {
            rest
        }
    }
}

/// The events whose feedback was applied, by their identifiers.
fn applied_markers(events: &Vec<AuditEvent>) -> (r: Vec<String>)
    ensures
        forall|id: Seq<char>| #[trigger]
            text::texts(r@).contains(id) <==> is_marked(event_views(events@), id),
{
    let ghost all = event_views(events@);
    let mut r: Vec<String> = Vec::new();
    let mut i: usize = 0;
    while i < events.len()
        invariant
            i <= events.len(),
            all == event_views(events@),
            forall|k: int|
                0 <= k < r.len() ==> exists|j: int|
                    0 <= j < i && marks(#[trigger] all[j], (#[trigger] r@[k])@),
            forall|j: int, id: Seq<char>|
                0 <= j < i && #[trigger] marks(all[j], id) ==> text::texts(r@).contains(id),
        decreases events.len() - i,
    {
        let event = &events[i];
        let ghost before = r@;
        assert(all[i as int] == event@);
        if same_text(event.action.as_str(), "dukememory_feedback_apply") {
            if let Some(id) = event.detail.text_field("feedback_event_id") {
                r.push(owned(id));
                assert(marks(all[i as int], r@[before.len() as int]@));
                assert(text::texts(r@) =~= text::texts(before).push(id@));
                assert(text::texts(r@)[before.len() as int] == id@);
                assert forall|k: int| 0 <= k < r.len() implies exists|j: int|
                    0 <= j < i + 1 && marks(#[trigger] all[j], (#[trigger] r@[k])@) by {
                    if k < before.len() {
                        assert(r@[k] == before[k]);
                        let j = choose|j: int|
                            0 <= j < i && marks(#[trigger] all[j], before[k]@);
                        assert(marks(all[j], r@[k]@));
                    }
                }
                assert forall|j: int, x: Seq<char>| 0 <= j < i + 1 && #[trigger] marks(
                    all[j],
                    x,
                ) implies text::texts(r@).contains(x) by {
                    if j < i {
                        let k = text::texts(before).index_of(x);
                        assert(text::texts(before)[k] == x);
                        assert(text::texts(r@)[k] == x);
                    }
                }
            }
        }
        i += 1;
    }
    assert forall|id: Seq<char>| #[trigger] text::texts(r@).contains(id) <==> is_marked(
        all,
        id,
    ) by {
        if text::texts(r@).contains(id) {
            let k = text::texts(r@).index_of(id);
            assert(r@[k]@ == id);
        }
        if is_marked(all, id) {
            let j = choose|j: int| 0 <= j < all.len() && marks(#[trigger] all[j], id);
            assert(marks(all[j], id));
        }
    }
    r
}

/// The places of the feedback that was not applied yet.
pub fn unapplied_feedback(events: &Vec<AuditEvent>) -> (r: Vec<usize>)
    ensures
        r@ == open_feedback(event_views(events@), events@.len()),
        forall|k: int| 0 <= k < r.len() ==> (#[trigger] r@[k]) < events.len(),
{
    let ghost all = event_views(events@);
    let marked = applied_markers(events);
    let mut r: Vec<usize> = Vec::new();
    let mut i: usize = 0;
    while i < events.len()
        invariant
            i <= events.len(),
            all == event_views(events@),
            forall|id: Seq<char>| #[trigger]
                text::texts(marked@).contains(id) <==> is_marked(all, id),
            r@ == open_feedback(all, i as nat),
            forall|k: int| 0 <= k < r.len() ==> (#[trigger] r@[k]) < i,
        decreases events.len() - i,
    {
        assert(all[i as int] == events@[i as int]@);
        if same_text(events[i].action.as_str(), "dukememory_feedback") && !holds_text(
            marked.as_slice(),
            events[i].id.as_str(),
        ) {
            r.push(i);
        }
        i += 1;
    }
    r
}

/// The texts of an array of a field, in their order, and nothing else of it.
pub open spec fn texts_among(values: Seq<JsonView>) -> Seq<Seq<char>>
    decreases values.len(),
{
    if values.len() == 0 {
        Seq::empty()
    } else {
        let rest = texts_among(values.drop_last());
        match values.last().text() {
            Some(s) => rest.push(s),
            None => rest,
        }
    }
}

/// The texts in the array of a field.
pub open spec fn texts_in_field(value: JsonView, field: Seq<char>) -> Seq<Seq<char>> {
    match value.values_field(field) {
        Some(values) => texts_among(values),
        None => Seq::empty(),
    }
}

/// Appends the texts of an array.
pub fn append_texts(values: &Vec<Json>, list: &mut Vec<String>)
    ensures
        text::texts(final(list)@) == text::texts(old(list)@) + texts_among(
            json::json_views(values@),
        ),
{
    let ghost all = json::json_views(values@);
    let ghost start = text::texts(list@);
    let mut i: usize = 0;
    assert(all.take(0) =~= Seq::<JsonView>::empty());
    assert(start + Seq::<Seq<char>>::empty() =~= start);
    while i < values.len()
        invariant
            i <= values.len(),
            all == json::json_views(values@),
            text::texts(list@) == start + texts_among(all.take(i as int)),
        decreases values.len() - i,
    {
        let ghost before = list@;
        assert(all.take(i + 1).drop_last() =~= all.take(i as int));
        assert(all[i as int] == values@[i as int]@);
        if let Some(s) = values[i].as_text() {
            list.push(owned(s));
            assert(text::texts(list@) =~= text::texts(before).push(s@));
            assert(start + texts_among(all.take(i as int)).push(s@) =~= (start + texts_among(
                all.take(i as int),
            )).push(s@));
        }
        i += 1;
    }
    assert(all.take(i as int) =~= all);
}

/// The texts in the array of a field.
pub fn string_array_field(value: &Json, field: &str) -> (r: Vec<String>)
    ensures
        text::texts(r@) == texts_in_field(value@, field@),
{
    let mut r: Vec<String> = Vec::new();
    assert(text::texts(r@) =~= Seq::<Seq<char>>::empty());
    if let Some(values) = value.values_field(field) {
        append_texts(values, &mut r);
        assert(Seq::<Seq<char>>::empty() + texts_among(json::json_views(values@)) =~= texts_among(
            json::json_views(values@),
        ));
    }
    r
}

/// Feedback to apply: the memories that helped and those that did not.
#[derive(Debug)]
pub struct FeedbackApplication {
    pub event_id: String,
    pub helpful_ids: Vec<String>,
    pub unhelpful_ids: Vec<String>,
}

/// The feedback that an event holds.
pub fn feedback_of(event: &AuditEvent) -> (r: FeedbackApplication)
    ensures
        r.event_id@ == event.id@,
        text::texts(r.helpful_ids@) == texts_in_field(event.detail@, "helpful_ids"@),
        text::texts(r.unhelpful_ids@) == texts_in_field(event.detail@, "unhelpful_ids"@),
{
    FeedbackApplication {
        event_id: owned(event.id.as_str()),
        helpful_ids: string_array_field(&event.detail, "helpful_ids"),
        unhelpful_ids: string_array_field(&event.detail, "unhelpful_ids"),
    }
}

/// Whether applications hold the feedback of the events at these places.
pub open spec fn applications_of(
    r: Seq<FeedbackApplication>,
    events: Seq<AuditEvent>,
    places: Seq<usize>,
) -> bool {
    &&& r.len() == places.len()
    &&& forall|k: int|
        0 <= k < r.len() ==> {
            let event = events[places[k] as int];
            &&& (#[trigger] r[k]).event_id@ == event.id@
            &&& text::texts(r[k].helpful_ids@) == texts_in_field(event.detail@, "helpful_ids"@)
            &&& text::texts(r[k].unhelpful_ids@) == texts_in_field(
                event.detail@,
                "unhelpful_ids"@,
            )
        }
}

/// The feedback that a run applies, in the order of its events: none where it is not to apply
/// any.
pub fn feedback_to_apply(events: &Vec<AuditEvent>, apply: bool) -> (r: Vec<FeedbackApplication>)
    ensures
        !apply ==> r.len() == 0,
        apply ==> applications_of(
            r@,
            events@,
            open_feedback(event_views(events@), events@.len()),
        ),
{
    let mut r: Vec<FeedbackApplication> = Vec::new();
    if !apply {
        return r;
    }
    let places = unapplied_feedback(events);
    let mut i: usize = 0;
    while i < places.len()
        invariant
            i <= places.len(),
            forall|k: int| 0 <= k < places.len() ==> (#[trigger] places@[k]) < events.len(),
            applications_of(r@, events@, places@.take(i as int)),
        decreases places.len() - i,
    {
        let at: usize = places[i];
        r.push(feedback_of(&events[at]));
        i += 1;
    }
    assert(places@.take(i as int) =~= places@);
    r
}

/// How many memories the feedback of an event changed.
#[derive(Debug, Clone, Copy, PartialEq, Eq, Structural)]
pub struct FeedbackEffect {
    pub helpful_memories_updated: usize,
    pub unhelpful_memories_updated: usize,
}

/// How many memories feedback raised.
pub open spec fn helpful_total(effects: Seq<FeedbackEffect>) -> nat
    decreases effects.len(),
{
    if effects.len() == 0 {
        0
    } else {
        helpful_total(effects.drop_last()) + effects.last().helpful_memories_updated as nat
    }
}

/// How many memories feedback lowered.
pub open spec fn unhelpful_total(effects: Seq<FeedbackEffect>) -> nat
    decreases effects.len(),
{
    if effects.len() == 0 {
        0
    } else {
        unhelpful_total(effects.drop_last()) + effects.last().unhelpful_memories_updated as nat
    }
}

proof fn lemma_totals_grow(effects: Seq<FeedbackEffect>, n: int)
    requires
        0 <= n <= effects.len(),
    ensures
        helpful_total(effects.take(n)) <= helpful_total(effects),
        unhelpful_total(effects.take(n)) <= unhelpful_total(effects),
    decreases effects.len() - n,
{
    if n == effects.len() {
        assert(effects.take(n) =~= effects);
    } else {
        assert(effects.take(n + 1).drop_last() =~= effects.take(n));
        lemma_totals_grow(effects, n + 1);
    }
}

/// What the feedback step reports, where `effects` are those of the feedback that it applied.
pub fn feedback_report(events: &Vec<AuditEvent>, apply: bool, effects: &Vec<FeedbackEffect>) -> (r:
    MaintenanceFeedbackReport)
    requires
        helpful_total(effects@) <= usize::MAX,
        unhelpful_total(effects@) <= usize::MAX,
    ensures
        r.status@ == (if apply {
            "applied"@
        } else {
            "dry_run"@
        }),
        r.apply == apply,
        r.considered_events == events.len(),
        r.unapplied_events == open_feedback(event_views(events@), events@.len()).len(),
        r.applied_events == effects.len(),
        r.helpful_memories_updated == helpful_total(effects@),
        r.unhelpful_memories_updated == unhelpful_total(effects@),
        r.error is None,
{
    let unapplied = unapplied_feedback(events);
    let mut helpful: usize = 0;
    let mut unhelpful: usize = 0;
    let mut i: usize = 0;
    assert(effects@.take(0) =~= Seq::<FeedbackEffect>::empty());
    while i < effects.len()
        invariant
            i <= effects.len(),
            helpful_total(effects@) <= usize::MAX,
            unhelpful_total(effects@) <= usize::MAX,
            helpful == helpful_total(effects@.take(i as int)),
            unhelpful == unhelpful_total(effects@.take(i as int)),
        decreases effects.len() - i,
    {
        proof {
            assert(effects@.take(i + 1).drop_last() =~= effects@.take(i as int));
            lemma_totals_grow(effects@, i + 1);
        }
        helpful += effects[i].helpful_memories_updated;
        unhelpful += effects[i].unhelpful_memories_updated;
        i += 1;
    }
    assert(effects@.take(i as int) =~= effects@);
    MaintenanceFeedbackReport {
        status: if apply {
            owned("applied")
        } else {
            owned("dry_run")
        },
        apply,
        considered_events: events.len(),
        unapplied_events: unapplied.len(),
        applied_events: effects.len(),
        helpful_memories_updated: helpful,
        unhelpful_memories_updated: unhelpful,
        error: None,
    }
}

proof fn lemma_all_marked(events: Seq<EventView>, n: nat)
    requires
        n <= events.len(),
        forall|i: int|
            0 <= i < n && (#[trigger] events[i]).action == "dukememory_feedback"@ ==> is_marked(
                events,
                events[i].id,
            ),
    ensures
        open_feedback(events, n).len() == 0,
    decreases n,
{
    if n > 0 {
        lemma_all_marked(events, (n - 1) as nat);
    }
}

/// Feedback is applied once: when an event that says so follows each feedback that was open, none
/// is open any more.
pub proof fn applied_feedback_is_closed(events: Seq<EventView>, markers: Seq<EventView>)
    requires
        forall|i: int|
            0 <= i < events.len() && is_open_feedback(events, #[trigger] events[i]) ==> is_marked(
                markers,
                events[i].id,
            ),
        forall|j: int|
            0 <= j < markers.len() ==> (#[trigger] markers[j]).action
                == "dukememory_feedback_apply"@,
    ensures
        open_feedback(events + markers, (events + markers).len()).len() == 0,
{
    let all = events + markers;
    reveal_strlit("dukememory_feedback");
    reveal_strlit("dukememory_feedback_apply");
    assert("dukememory_feedback"@.len() != "dukememory_feedback_apply"@.len());
    assert forall|i: int|
        0 <= i < all.len() && (#[trigger] all[i]).action == "dukememory_feedback"@ implies is_marked(
        all,
        all[i].id,
    ) by {
        if i < events.len() {
            assert(all[i] == events[i]);
            if is_marked(events, events[i].id) {
                let k = choose|k: int|
                    0 <= k < events.len() && marks(#[trigger] events[k], events[i].id);
                assert(all[k] == events[k]);
                assert(marks(all[k], all[i].id));
            } else {
                assert(is_open_feedback(events, events[i]));
                let k = choose|k: int|
                    0 <= k < markers.len() && marks(#[trigger] markers[k], events[i].id);
                assert(all[events.len() + k] == markers[k]);
                assert(marks(all[events.len() + k], all[i].id));
            }
        } else {
            assert(all[i] == markers[i - events.len()]);
        }
    }
    lemma_all_marked(all, all.len());
}

// ---------------------------------------------------------------------------
// Embeddings
// ---------------------------------------------------------------------------

/// Whether a scope covers memories.
pub open spec fn covers_memories(scope: Seq<char>) -> bool {
    scope == "all"@ || scope == "memory"@ || scope == "memories"@
}

/// Whether a scope covers code.
pub open spec fn covers_code(scope: Seq<char>) -> bool {
    scope == "all"@ || scope == "code"@ || scope == "symbols"@ || scope == "code_symbols"@
}

/// What the embedding step looks for: memories, code, and how many of each.
#[derive(Debug, Clone, Copy, PartialEq, Eq, Structural)]
pub struct EmbeddingRequest {
    pub memories: bool,
    pub code: bool,
    pub limit: usize,
}

/// What the embedding step looks for in a scope.
pub fn embedding_request(scope: &str, limit: usize) -> (r: Result<EmbeddingRequest, String>)
    ensures
        r is Ok <==> covers_memories(scope@) || covers_code(scope@),
        r matches Ok(request) ==> {
            &&& request.memories == covers_memories(scope@)
            &&& request.code == covers_code(scope@)
            &&& request.limit == maintenance::clamped(limit, 1, 500)
        },
        r matches Err(message) ==> message@ == "invalid embed scope `"@ + scope@
            + "`; use all, memories, or code"@,
{
    let memories = same_text(scope, "all") || same_text(scope, "memory") || same_text(
        scope,
        "memories",
    );
    let code = same_text(scope, "all") || same_text(scope, "code") || same_text(scope, "symbols")
        || same_text(scope, "code_symbols");
    if !memories && !code {
        return Err(cat3("invalid embed scope `", scope, "`; use all, memories, or code"));
    }
    Ok(EmbeddingRequest { memories, code, limit: clamp(limit, 1, 500) })
}

/// What the embedding step reports: what it found missing, and what it embedded where the run is
/// to apply it.
pub fn embedding_report(
    config: &Config,
    scope: &str,
    limit: usize,
    memories_missing: usize,
    code_symbols_missing: usize,
    embedded: Option<(usize, usize)>,
) -> (r: MaintenanceEmbeddingReport)
    ensures
        r.scope@ == scope@,
        r.limit == maintenance::clamped(limit, 1, 500),
        r.apply == embedded is Some,
        r.memory_model@ == config.ollama_embed_model@,
        r.code_model@ == config.fast_embed_model@,
        r.memories_missing == memories_missing,
        r.code_symbols_missing == code_symbols_missing,
        r.memories_embedded == (match embedded {
            Some(n) => n.0,
            None => 0,
        }),
        r.code_symbols_embedded == (match embedded {
            Some(n) => n.1,
            None => 0,
        }),
{
    let counts: (usize, usize) = match embedded {
        Some(n) => n,
        None => (0, 0),
    };
    MaintenanceEmbeddingReport {
        scope: owned(scope),
        limit: clamp(limit, 1, 500),
        apply: embedded.is_some(),
        memory_model: owned(config.memory_embed_model()),
        code_model: owned(config.code_embed_model()),
        memories_missing,
        code_symbols_missing,
        memories_embedded: counts.0,
        code_symbols_embedded: counts.1,
    }
}

} // verus!
