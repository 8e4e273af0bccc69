//! What the upkeep of a project does: how decisions are read, what maintenance changes, what an
//! evaluation looks at, and when a check passes.
use vstd::prelude::*;
use vstd::string::*;
use crate::area_laws::lemma_filter_contains;
use crate::commands::{CodeMemoryRequestView, RelationFiles};
use crate::config::Config;
use crate::doctor::{
    CodexIntegrationReport, DoctorFindings, ProductionAuditReport, SmokeReport,
};
use crate::eval::{EvalCase, EvalObserved};
use crate::eval_report::{EvalCaseReport, EvalTotals};
use crate::json::JsonView;
use crate::launchd_maintenance::MaintenanceLaunchdOptions;
use crate::maintenance::{
    MaintenanceOptions, MaintenanceReport, MaintenanceRun, MaintenanceStep, StepFlags, StepOutcome,
    ValidationAction, ValidationDecision,
};
use crate::maintenance_steps::{AuditEvent, EventView, FeedbackApplication, FeedbackEffect};
use crate::memory_writes::{
    ChangeKind, ChangeView, CompactionProposal, MemoryCandidate, RememberOutcome,
};
use crate::readiness::{
    CheckView, CodeFreshnessReport, CommandOutcome, InstalledModel, ModelRole, ReadinessState,
};
use crate::records::{CodeSymbol, Memory, MemoryStatus};
use crate::review::{DecisionView, ReviewKind, ReviewPlan};
use crate::{
    commands, doctor, eval, eval_report, launchd_maintenance, maintenance, maintenance_steps,
    memory_writes, readiness, review, text, text_laws, uris,
};

verus! {

// ---------------------------------------------------------------------------
// Decisions on pending memories
// ---------------------------------------------------------------------------

proof fn lemma_before_colon(a: Seq<char>, rest: Seq<char>)
    requires
        !a.contains(':'),
        rest.len() > 0 ==> rest[0] == ':',
    ensures
        review::before_colon(a + rest) == a.len(),
    decreases a.len(),
{
    if a.len() == 0 {
        assert(a + rest =~= rest);
    } else {
        assert(a[0] != ':');
        let tail = a.skip(1);
        assert((a + rest).skip(1) =~= tail + rest);
        assert(!tail.contains(':')) by {
            if tail.contains(':') {
                let i = choose|i: int| 0 <= i < tail.len() && tail[i] == ':';
                assert(a[i + 1] == ':');
            }
        }
        lemma_before_colon(tail, rest);
    }
}

proof fn lemma_split(a: Seq<char>, rest: Seq<char>)
    requires
        !a.contains(':'),
    ensures
        review::split_once(a) == (a, None::<Seq<char>>),
        review::split_once(a + seq![':'] + rest) == (a, Some(rest)),
{
    assert(a + Seq::empty() =~= a);
    lemma_before_colon(a, Seq::empty());
    let s = a + seq![':'] + rest;
    assert(s =~= a + (seq![':'] + rest));
    lemma_before_colon(a, seq![':'] + rest);
    assert(s.take(a.len() as int) =~= a);
    assert(s.skip(a.len() as int + 1) =~= rest);
}

/// A decision is written as an action, the id of a memory and a reason, with colons between; the
/// reason may hold colons of its own, and may be missing or blank, which is none.
pub proof fn decisions_are_read_in_three_parts(
    action: Seq<char>,
    id: Seq<char>,
    reason: Seq<char>,
)
    requires
        !action.contains(':'),
        !id.contains(':'),
    ensures
        ({
            let short = action + seq![':'] + id;
            let long = action + seq![':'] + (id + seq![':'] + reason);
            let blank = |s: Seq<char>| text::trimmed(s).len() == 0;
            &&& blank(action) ==> review::decision_of(short) == Err::<DecisionView, Seq<char>>(
                "review decision is missing action"@,
            )
            &&& !blank(action) ==> review::decision_of(action) == Err::<DecisionView, Seq<char>>(
                "review decision is missing id"@,
            )
            &&& !blank(action) && blank(id) ==> review::decision_of(long) == Err::<
                DecisionView,
                Seq<char>,
            >("review decision is missing id"@)
            &&& !blank(action) && !blank(id) ==> review::decision_of(short) == Ok::<
                DecisionView,
                Seq<char>,
            >((DecisionView { id, action, reason: None }))
            &&& !blank(action) && !blank(id) && !blank(reason) ==> review::decision_of(long)
                == Ok::<DecisionView, Seq<char>>(
                (DecisionView { id, action, reason: Some(reason) }),
            )
            &&& !blank(action) && !blank(id) && blank(reason) ==> review::decision_of(long) == Ok::<
                DecisionView,
                Seq<char>,
            >((DecisionView { id, action, reason: None }))
        }),
{
    lemma_split(action, id);
    lemma_split(action, id + seq![':'] + reason);
    lemma_split(id, reason);
}

/// Decisions from a file come before those that are given, each list in its order; with neither
/// there is nothing to do, and one that cannot be read refuses them all.
pub proof fn decisions_of_a_file_come_first(from_file: Seq<DecisionView>, raws: Seq<Seq<char>>)
    ensures
        review::all_decisions(from_file, raws) matches Ok(all) ==> {
            &&& all.len() == from_file.len() + raws.len()
            &&& all.len() > 0
            &&& forall|i: int| 0 <= i < from_file.len() ==> #[trigger] all[i] == from_file[i]
            &&& forall|i: int|
                0 <= i < raws.len() ==> review::decision_of(#[trigger] raws[i]) == Ok::<
                    DecisionView,
                    Seq<char>,
                >(all[from_file.len() + i])
        },
        review::all_decisions(from_file, raws) is Err <==> from_file.len() + raws.len() == 0
            || exists|i: int| 0 <= i < raws.len() && review::decision_of(#[trigger] raws[i]) is Err,
{
    lemma_decisions(raws);
}

proof fn lemma_decisions(raws: Seq<Seq<char>>)
    ensures
        review::decisions_of(raws) matches Ok(all) ==> {
            &&& all.len() == raws.len()
            &&& forall|i: int|
                0 <= i < raws.len() ==> review::decision_of(#[trigger] raws[i]) == Ok::<
                    DecisionView,
                    Seq<char>,
                >(all[i])
        },
        review::decisions_of(raws) is Err <==> exists|i: int|
            0 <= i < raws.len() && review::decision_of(#[trigger] raws[i]) is Err,
    decreases raws.len(),
{
    if raws.len() > 0 {
        let front = raws.drop_last();
        lemma_decisions(front);
        if exists|i: int| 0 <= i < raws.len() && review::decision_of(#[trigger] raws[i]) is Err {
            let i = choose|i: int|
                0 <= i < raws.len() && review::decision_of(#[trigger] raws[i]) is Err;
            if i < front.len() {
                assert(front[i] == raws[i]);
            }
        }
        if review::decisions_of(front) is Err {
            let i = choose|i: int|
                0 <= i < front.len() && review::decision_of(#[trigger] front[i]) is Err;
            assert(raws[i] == front[i]);
        } else {
            assert(raws[raws.len() - 1] == raws.last());
            if review::decisions_of(raws) is Ok {
                let all = review::decisions_of(raws)->Ok_0;
                assert forall|i: int| 0 <= i < raws.len() implies review::decision_of(
                    #[trigger] raws[i],
                ) == Ok::<DecisionView, Seq<char>>(all[i]) by {
                    if i < front.len() {
                        assert(front[i] == raws[i]);
                    }
                }
            }
        }
    }
}

/// A review promotes, archives or keeps as the word says, and does what comes before the first
/// word that it does not know.
pub proof fn reviews_do_what_is_said(decisions: Seq<DecisionView>)
    ensures
        review::kind_of("promote"@) == Some(ReviewKind::Promote),
        review::kind_of("archive"@) == Some(ReviewKind::Archive),
        review::kind_of("keep"@) == Some(ReviewKind::Keep),
        forall|word: Seq<char>| #[trigger]
            review::kind_of(word) is Some <==> word == "promote"@ || word == "archive"@ || word
                == "keep"@,
        ({
            let n = review::known_prefix(decisions) as int;
            &&& 0 <= n <= decisions.len()
            &&& forall|i: int|
                0 <= i < n ==> review::kind_of((#[trigger] decisions[i]).action) is Some
            &&& n < decisions.len() ==> review::kind_of(decisions[n].action) is None
        }),
    decreases decisions.len(),
{
    reveal_strlit("promote");
    reveal_strlit("archive");
    reveal_strlit("keep");
    assert("promote"@[0] == 'p' && "archive"@[0] == 'a' && "keep"@[0] == 'k');
    if decisions.len() > 0 && review::kind_of(decisions[0].action) is Some {
        let rest = decisions.skip(1);
        reviews_do_what_is_said(rest);
        let n = review::known_prefix(decisions) as int;
        assert forall|i: int| 0 <= i < n implies review::kind_of(
            (#[trigger] decisions[i]).action,
        ) is Some by {
            if i > 0 {
                assert(rest[i - 1] == decisions[i]);
            }
        }
        if n < decisions.len() {
            assert(rest[n - 1] == decisions[n]);
        }
    }
}

/// A decision counts for the kind that its word names, and for no other.
pub proof fn decisions_are_counted_by_their_word(
    decisions: Seq<DecisionView>,
    d: DecisionView,
    kind: ReviewKind,
)
    ensures
        review::kind_count(Seq::empty(), kind) == 0,
        review::kind_count(decisions.push(d), kind) == review::kind_count(decisions, kind) + (
        if review::kind_of(d.action) == Some(kind) {
            1int
        } else {
            0
        }),
{
    assert(decisions.push(d).drop_last() =~= decisions);
}

// ---------------------------------------------------------------------------
// Maintenance
// ---------------------------------------------------------------------------

/// A run makes a backup, validates, compacts, applies feedback and embeds, in this order, each
/// where it is chosen.
pub proof fn steps_have_their_order(o: MaintenanceOptions)
    ensures
        maintenance::steps_from(o, 0) == (if o.backup {
            seq![MaintenanceStep::Backup]
        } else {
            Seq::empty()
        }) + (if o.validate_pending {
            seq![MaintenanceStep::Validation]
        } else {
            Seq::empty()
        }) + (if o.compact {
            seq![MaintenanceStep::Compaction]
        } else {
            Seq::empty()
        }) + (if o.feedback {
            seq![MaintenanceStep::Feedback]
        } else {
            Seq::empty()
        }) + (if o.embed_missing {
            seq![MaintenanceStep::Embeddings]
        } else {
            Seq::empty()
        }),
{
    reveal_with_fuel(maintenance::steps_from, 7);
    let none = Seq::<MaintenanceStep>::empty();
    let e = if o.embed_missing {
        seq![MaintenanceStep::Embeddings]
    } else {
        none
    };
    let d = (if o.feedback {
        seq![MaintenanceStep::Feedback]
    } else {
        none
    }) + e;
    let c = (if o.compact {
        seq![MaintenanceStep::Compaction]
    } else {
        none
    }) + d;
    let b = (if o.validate_pending {
        seq![MaintenanceStep::Validation]
    } else {
        none
    }) + c;
    assert(maintenance::steps_from(o, 5) =~= none);
    assert(maintenance::steps_from(o, 4) =~= e);
    assert(maintenance::steps_from(o, 3) =~= d);
    assert(maintenance::steps_from(o, 2) =~= c);
    assert(maintenance::steps_from(o, 1) =~= b);
}

/// A memory is promoted or archived for the reason that was given where a validation says so, and
/// one that is kept is not changed; the changes come in the order of the decisions.
pub proof fn validation_changes_what_it_decides(
    decisions: Seq<ValidationDecision>,
    d: ValidationDecision,
)
    ensures
        ({
            let before = maintenance_steps::changes_of(decisions);
            let after = maintenance_steps::changes_of(decisions.push(d));
            let reason = Some(d.reason@);
            &&& d.action == ValidationAction::Promote ==> after == before.push(
                ChangeView { id: d.id@, kind: ChangeKind::Promote, reason },
            )
            &&& d.action == ValidationAction::Archive ==> after == before.push(
                ChangeView { id: d.id@, kind: ChangeKind::Archive, reason },
            )
            &&& d.action == ValidationAction::Keep ==> after == before
        }),
        forall|action: ValidationAction| #[trigger]
            maintenance_steps::action_count(decisions.push(d), action)
                == maintenance_steps::action_count(decisions, action) + (if d.action == action {
                1int
            } else {
                0
            }),
{
    assert(decisions.push(d).drop_last() =~= decisions);
}

/// Memories are compacted where there are two at least, and as many as asked for up to five
/// hundred.
pub proof fn compaction_wants_enough_memories(memories: usize, wanted: usize)
    ensures
        maintenance_steps::too_few(memories, wanted) <==> memories < 2 || (memories < wanted
            && memories < 500),
{
}

/// Feedback is open where it is feedback and no event says that it was applied; the open ones are
/// listed in the order of the events.
pub proof fn open_feedback_was_not_applied(events: Seq<EventView>, n: nat)
    requires
        n <= events.len(),
        n <= usize::MAX,
    ensures
        forall|p: usize| #[trigger]
            maintenance_steps::open_feedback(events, n).contains(p) <==> p < n
                && events[p as int].action == "dukememory_feedback"@ && forall|i: int|
                0 <= i < events.len() ==> !((#[trigger] events[i]).action
                    == "dukememory_feedback_apply"@ && events[i].detail.text_field(
                    "feedback_event_id"@,
                ) == Some(events[p as int].id)),
        forall|i: int, j: int|
            0 <= i < j < maintenance_steps::open_feedback(events, n).len() ==> (
            #[trigger] maintenance_steps::open_feedback(events, n)[i]) < (
            #[trigger] maintenance_steps::open_feedback(events, n)[j]),
    decreases n,
{
    if n > 0 {
        let m = (n - 1) as nat;
        open_feedback_was_not_applied(events, m);
        let rest = maintenance_steps::open_feedback(events, m);
        let all = maintenance_steps::open_feedback(events, n);
        let last = (n - 1) as usize;
        lemma_open(events, events[n - 1]);
        assert forall|p: usize| #[trigger] all.contains(p) <==> rest.contains(p) || (p == last
            && maintenance_steps::is_open_feedback(events, events[n - 1])) by {
            if rest.contains(p) {
                let i = choose|i: int| 0 <= i < rest.len() && rest[i] == p;
                assert(all[i] == p);
            }
            if maintenance_steps::is_open_feedback(events, events[n - 1]) {
                assert(all[rest.len() as int] == last);
            }
        }
        assert forall|i: int, j: int| 0 <= i < j < all.len() implies (#[trigger] all[i]) < (
        #[trigger] all[j]) by {
            if j == rest.len() {
                assert(rest[i] == all[i]);
                assert(rest.contains(rest[i]));
            }
        }
    }
}

proof fn lemma_open(events: Seq<EventView>, e: EventView)
    ensures
        maintenance_steps::is_open_feedback(events, e) <==> e.action == "dukememory_feedback"@
            && forall|i: int|
            0 <= i < events.len() ==> !((#[trigger] events[i]).action
                == "dukememory_feedback_apply"@ && events[i].detail.text_field(
                "feedback_event_id"@,
            ) == Some(e.id)),
{
    if maintenance_steps::is_marked(events, e.id) {
        let i = choose|i: int|
            0 <= i < events.len() && maintenance_steps::marks(#[trigger] events[i], e.id);
        assert(events[i].action == "dukememory_feedback_apply"@);
    }
    if exists|i: int|
        0 <= i < events.len() && (#[trigger] events[i]).action == "dukememory_feedback_apply"@
            && events[i].detail.text_field("feedback_event_id"@) == Some(e.id) {
        let i = choose|i: int|
            0 <= i < events.len() && (#[trigger] events[i]).action == "dukememory_feedback_apply"@
                && events[i].detail.text_field("feedback_event_id"@) == Some(e.id);
        assert(maintenance_steps::marks(events[i], e.id));
    }
}

/// The texts among values are those that are texts, in their order.
pub proof fn texts_are_taken_from_values(values: Seq<JsonView>, value: JsonView)
    ensures
        maintenance_steps::texts_among(Seq::empty()).len() == 0,
        value matches JsonView::Text(s) ==> maintenance_steps::texts_among(values.push(value))
            == maintenance_steps::texts_among(values).push(s),
        !(value is Text) ==> maintenance_steps::texts_among(values.push(value))
            == maintenance_steps::texts_among(values),
{
    assert(values.push(value).drop_last() =~= values);
}

/// What feedback changed is added up, what it raised and what it lowered apart.
pub proof fn effects_of_feedback_add_up(effects: Seq<FeedbackEffect>, effect: FeedbackEffect)
    ensures
        maintenance_steps::helpful_total(effects.push(effect)) == maintenance_steps::helpful_total(
            effects,
        ) + effect.helpful_memories_updated,
        maintenance_steps::unhelpful_total(effects.push(effect))
            == maintenance_steps::unhelpful_total(effects) + effect.unhelpful_memories_updated,
{
    assert(effects.push(effect).drop_last() =~= effects);
}

// ---------------------------------------------------------------------------
// Evaluation
// ---------------------------------------------------------------------------

proof fn lemma_occurs(a: Seq<char>, needle: Seq<char>, b: Seq<char>)
    ensures
        text::occurs_in(needle, a + needle + b),
{
    let hay = a + needle + b;
    assert(hay.subrange(a.len() as int, a.len() as int + needle.len()) =~= needle);
    assert(text::stands_at(hay, needle, a.len() as int));
}

proof fn lemma_occurs_joined(parts: Seq<Seq<char>>, separator: Seq<char>, i: int)
    requires
        0 <= i < parts.len(),
    ensures
        text::occurs_in(parts[i], text::joined(parts, separator)),
    decreases parts.len(),
{
    let all = text::joined(parts, separator);
    if parts.len() == 1 {
        lemma_occurs(Seq::empty(), parts[i], Seq::empty());
        assert(Seq::<char>::empty() + parts[i] + Seq::<char>::empty() =~= parts[i]);
    } else if i == parts.len() - 1 {
        let front = text::joined(parts.drop_last(), separator) + separator;
        lemma_occurs(front, parts[i], Seq::empty());
        assert(front + parts[i] + Seq::<char>::empty() =~= all);
    } else {
        let front = parts.drop_last();
        lemma_occurs_joined(front, separator, i);
        lemma_still_occurs(
            parts[i],
            Seq::empty(),
            text::joined(front, separator),
            separator + parts.last(),
        );
        assert(Seq::<char>::empty() + text::joined(front, separator) + (separator + parts.last())
            =~= all);
    }
}

proof fn lemma_still_occurs(needle: Seq<char>, a: Seq<char>, hay: Seq<char>, b: Seq<char>)
    requires
        text::occurs_in(needle, hay),
    ensures
        text::occurs_in(needle, a + hay + b),
{
    let at = choose|at: int| text::stands_at(hay, needle, at);
    let more = a + hay + b;
    assert(more.subrange(a.len() + at, a.len() + at + needle.len()) =~= hay.subrange(
        at,
        at + needle.len(),
    ));
    assert(text::stands_at(more, needle, a.len() + at));
}

/// An evaluation looks at all that a memory says: its kind, its scope, its body and its tags.
pub proof fn evaluations_look_at_all_of_a_memory(m: Memory, i: int)
    ensures
        text::occurs_in(m.kind@, eval::memory_text(m)),
        text::occurs_in(m.scope@, eval::memory_text(m)),
        text::occurs_in(m.body@, eval::memory_text(m)),
        0 <= i < m.tags@.len() ==> text::occurs_in(m.tags@[i]@, eval::memory_text(m)),
        m.tags@.len() == 0 ==> eval::memory_text(m) == m.kind@ + "\n"@ + m.scope@ + "\n"@ + m.body@
            + "\n"@,
{
    let t = eval::memory_text(m);
    let tags = text::joined(text::texts(m.tags@), " "@);
    let n = "\n"@;
    lemma_occurs(Seq::empty(), m.kind@, n + m.scope@ + n + m.body@ + n + tags);
    assert(Seq::<char>::empty() + m.kind@ + (n + m.scope@ + n + m.body@ + n + tags) =~= t);
    lemma_occurs(m.kind@ + n, m.scope@, n + m.body@ + n + tags);
    assert((m.kind@ + n) + m.scope@ + (n + m.body@ + n + tags) =~= t);
    lemma_occurs(m.kind@ + n + m.scope@ + n, m.body@, n + tags);
    assert((m.kind@ + n + m.scope@ + n) + m.body@ + (n + tags) =~= t);
    if 0 <= i < m.tags@.len() {
        lemma_occurs_joined(text::texts(m.tags@), " "@, i);
        assert(text::texts(m.tags@)[i] == m.tags@[i]@);
        let front = m.kind@ + n + m.scope@ + n + m.body@ + n;
        lemma_still_occurs(m.tags@[i]@, front, tags, Seq::empty());
        assert(front + tags + Seq::<char>::empty() =~= t);
    }
    if m.tags@.len() == 0 {
        assert(tags =~= Seq::empty());
        assert(t =~= m.kind@ + n + m.scope@ + n + m.body@ + n);
    }
}

/// An evaluation looks at all that a symbol says: its language, kind, name, signature and body.
pub proof fn evaluations_look_at_all_of_a_symbol(s: CodeSymbol)
    ensures
        text::occurs_in(s.language@, eval::symbol_text(s)),
        text::occurs_in(s.kind@, eval::symbol_text(s)),
        text::occurs_in(s.name@, eval::symbol_text(s)),
        text::occurs_in(s.signature@, eval::symbol_text(s)),
        text::occurs_in(s.body@, eval::symbol_text(s)),
        eval::symbol_text(s).len() == s.language@.len() + s.kind@.len() + s.name@.len()
            + s.signature@.len() + s.body@.len() + 4,
{
    reveal_strlit("\n");
    let t = eval::symbol_text(s);
    let n = "\n"@;
    let a = s.language@;
    let b = s.kind@;
    let c = s.name@;
    let d = s.signature@;
    let e = s.body@;
    lemma_occurs(Seq::empty(), a, n + b + n + c + n + d + n + e);
    assert(Seq::<char>::empty() + a + (n + b + n + c + n + d + n + e) =~= t);
    lemma_occurs(a + n, b, n + c + n + d + n + e);
    assert((a + n) + b + (n + c + n + d + n + e) =~= t);
    lemma_occurs(a + n + b + n, c, n + d + n + e);
    assert((a + n + b + n) + c + (n + d + n + e) =~= t);
    lemma_occurs(a + n + b + n + c + n, d, n + e);
    assert((a + n + b + n + c + n) + d + (n + e) =~= t);
    lemma_occurs(a + n + b + n + c + n + d + n, e, Seq::empty());
    assert((a + n + b + n + c + n + d + n) + e + Seq::<char>::empty() =~= t);
}

/// What is found is told memories first, then symbols, each in its order, and as many texts as
/// ids.
pub proof fn findings_tell_memories_first(memories: Seq<Memory>, code: Seq<CodeSymbol>, i: int)
    ensures
        eval::found_ids(memories, code).len() == memories.len() + code.len(),
        eval::found_texts(memories, code).len() == memories.len() + code.len(),
        0 <= i < memories.len() ==> eval::found_ids(memories, code)[i] == memories[i].id@
            && eval::found_texts(memories, code)[i] == eval::memory_text(memories[i]),
        0 <= i < code.len() ==> eval::found_ids(memories, code)[memories.len() + i] == code[i].id@
            && eval::found_texts(memories, code)[memories.len() + i] == eval::symbol_text(code[i]),
{
}

/// How many values a report has under a name, at its top or under another name.
pub open spec fn values_under(report: JsonView, outer: Option<Seq<char>>, name: Seq<char>) -> nat {
    let inner = match outer {
        None => Some(report),
        Some(field) => report.field(field),
    };
    if inner is Some && inner->0.values_field(name) is Some {
        inner->0.values_field(name)->0.len()
    } else {
        0
    }
}

/// A report has as many hits as the longest of its lists.
pub proof fn hits_are_the_longest_list(report: JsonView)
    ensures
        ({
            let n = eval::semantic_hits(report);
            let a = values_under(report, None, "top_memory_ids"@);
            let b = values_under(report, Some("baseline"@), "memory_ids"@);
            let c = values_under(report, None, "memories"@);
            let d = values_under(report, None, "leave_one_out"@);
            let e = values_under(report, Some("hard_negatives"@), "candidates"@);
            let f = values_under(report, Some("recommended_policy"@), "reasons"@);
            let g = values_under(report, None, "retrieval_events"@);
            &&& n >= a && n >= b && n >= c && n >= d && n >= e && n >= f && n >= g
            &&& n == a || n == b || n == c || n == d || n == e || n == f || n == g
        }),
{
}

/// Whether a text is among values.
pub open spec fn holds_text(values: Seq<JsonView>, id: Seq<char>) -> bool {
    exists|i: int| 0 <= i < values.len() && #[trigger] values[i] == JsonView::Text(id)
}

/// Whether something with an id is among values.
pub open spec fn holds_id(values: Seq<JsonView>, id: Seq<char>) -> bool {
    exists|i: int| 0 <= i < values.len() && (#[trigger] values[i]).text_field("id"@) == Some(id)
}

/// Whether a report lists a text under a name.
pub open spec fn lists_text(
    report: JsonView,
    outer: Option<Seq<char>>,
    name: Seq<char>,
    id: Seq<char>,
) -> bool {
    let inner = match outer {
        None => Some(report),
        Some(field) => report.field(field),
    };
    let values = inner->0.values_field(name);
    &&& inner is Some
    &&& values is Some
    &&& holds_text(values->0, id)
}

/// Whether a report lists something with an id under a name.
pub open spec fn lists_id(
    report: JsonView,
    outer: Option<Seq<char>>,
    name: Seq<char>,
    id: Seq<char>,
) -> bool {
    let inner = match outer {
        None => Some(report),
        Some(field) => report.field(field),
    };
    let values = inner->0.values_field(name);
    &&& inner is Some
    &&& values is Some
    &&& holds_id(values->0, id)
}

proof fn lemma_texts_among(values: Seq<JsonView>, id: Seq<char>)
    ensures
        maintenance_steps::texts_among(values).contains(id) <==> exists|i: int|
            0 <= i < values.len() && #[trigger] values[i] == JsonView::Text(id),
    decreases values.len(),
{
    if values.len() > 0 {
        let front = values.drop_last();
        lemma_texts_among(front, id);
        let rest = maintenance_steps::texts_among(front);
        let all = maintenance_steps::texts_among(values);
        if rest.contains(id) {
            let k = choose|k: int| 0 <= k < rest.len() && rest[k] == id;
            assert(all[k] == id);
            let i = choose|i: int| 0 <= i < front.len() && #[trigger] front[i] == JsonView::Text(id);
            assert(values[i] == front[i]);
        }
        if exists|i: int| 0 <= i < values.len() && #[trigger] values[i] == JsonView::Text(id) {
            let i = choose|i: int|
                0 <= i < values.len() && #[trigger] values[i] == JsonView::Text(id);
            if i < front.len() {
                assert(front[i] == values[i]);
            } else {
                assert(all[rest.len() as int] == id);
            }
        }
        if all.contains(id) && !rest.contains(id) {
            let k = choose|k: int| 0 <= k < all.len() && all[k] == id;
            if k < rest.len() {
                assert(rest[k] == id);
            }
            assert(values[values.len() - 1] == JsonView::Text(id));
        }
    }
}

proof fn lemma_texts_at(report: JsonView, outer: Option<Seq<char>>, name: Seq<char>, id: Seq<char>)
    ensures
        eval::texts_at(report, outer, name).contains(id) <==> lists_text(report, outer, name, id),
        eval::ids_at(report, outer, name).contains(id) <==> lists_id(report, outer, name, id),
{
    let inner = match outer {
        None => Some(report),
        Some(field) => report.field(field),
    };
    if inner is Some && inner->0.values_field(name) is Some {
        let values = inner->0.values_field(name)->0;
        assert(eval::values_at(report, outer, name) == Some(values));
        lemma_texts_among(values, id);
        assert(eval::texts_at(report, outer, name).contains(id)
            <==> maintenance_steps::texts_among(values).contains(id));
        assert(eval::ids_at(report, outer, name).contains(id) <==> eval::has_id(values, id));
        assert(eval::has_id(values, id) <==> holds_id(values, id));
        assert(maintenance_steps::texts_among(values).contains(id) <==> holds_text(values, id));
    } else {
        assert(eval::values_at(report, outer, name) is None);
    }
}

/// The ids of a report are those among its memories, candidates and selected memories, and the
/// texts of its lists of ids.
pub proof fn reports_are_read_for_their_ids(report: JsonView, id: Seq<char>)
    ensures
        eval::semantic_ids(report).contains(id) <==> {
            ||| lists_text(report, None, "top_memory_ids"@, id)
            ||| lists_text(report, Some("baseline"@), "memory_ids"@, id)
            ||| lists_text(report, Some("suggested_eval_case"@), "expected_ids"@, id)
            ||| lists_id(report, None, "memories"@, id)
            ||| lists_id(report, Some("hard_negatives"@), "candidates"@, id)
            ||| lists_id(report, None, "selected_memories"@, id)
        },
{
    lemma_texts_at(report, None, "top_memory_ids"@, id);
    lemma_texts_at(report, Some("baseline"@), "memory_ids"@, id);
    lemma_texts_at(report, Some("suggested_eval_case"@), "expected_ids"@, id);
    lemma_texts_at(report, None, "memories"@, id);
    lemma_texts_at(report, Some("hard_negatives"@), "candidates"@, id);
    lemma_texts_at(report, None, "selected_memories"@, id);
}

/// The first field of a name is the one that is read.
pub proof fn fields_are_found_by_name(
    fields: Seq<(Seq<char>, JsonView)>,
    name: Seq<char>,
    k: int,
)
    requires
        0 <= k < fields.len(),
        fields[k].0 == name,
        forall|i: int| 0 <= i < k ==> (#[trigger] fields[i]).0 != name,
    ensures
        JsonView::Object(fields).field(name) == Some(fields[k].1),
{
    lemma_field(fields, name, k, 0);
}

proof fn lemma_field(fields: Seq<(Seq<char>, JsonView)>, name: Seq<char>, k: int, at: int)
    requires
        0 <= at <= k < fields.len(),
        fields[k].0 == name,
        forall|i: int| 0 <= i < k ==> (#[trigger] fields[i]).0 != name,
    ensures
        crate::json::field_from(fields, name, at) == Some(fields[k].1),
    decreases k - at,
{
    if at < k {
        assert(fields[at].0 != name);
        lemma_field(fields, name, k, at + 1);
    }
}

/// A case passes where everything that is expected was found, nothing that is forbidden, enough of
/// it, and in the time and within the tokens that it has; it fails for one of these reasons.
pub proof fn cases_fail_for_a_reason(
    case: EvalCase,
    hits: usize,
    haystack: Seq<char>,
    top: Seq<Seq<char>>,
    latency_ms: u64,
    tokens: usize,
)
    ensures
        !eval_report::passes(case, hits, haystack, top, latency_ms, tokens) <==> {
            ||| exists|i: int|
                0 <= i < case.expected_contains@.len() && !text::occurs_in(
                    text::lowered((#[trigger] case.expected_contains@[i])@),
                    text::lowered(haystack),
                )
            ||| exists|i: int|
                0 <= i < case.forbidden_contains@.len() && text::occurs_in(
                    text::lowered((#[trigger] case.forbidden_contains@[i])@),
                    text::lowered(haystack),
                )
            ||| exists|i: int|
                0 <= i < case.expected_ids@.len() && !top.contains(
                    (#[trigger] case.expected_ids@[i])@,
                )
            ||| exists|i: int|
                0 <= i < case.forbidden_ids@.len() && top.contains(
                    (#[trigger] case.forbidden_ids@[i])@,
                )
            ||| case.min_results is Some && hits < case.min_results->0
            ||| case.max_latency_ms is Some && latency_ms > case.max_latency_ms->0
            ||| case.max_estimated_tokens is Some && tokens > case.max_estimated_tokens->0
        },
{
}

/// Each case that passed counts one.
pub proof fn passed_cases_are_counted(cases: Seq<EvalCaseReport>, case: EvalCaseReport)
    ensures
        eval_report::passed_count(Seq::empty()) == 0,
        eval_report::passed_count(cases.push(case)) == eval_report::passed_count(cases) + (
        if case.passed {
            1int
        } else {
            0
        }),
{
    assert(cases.push(case).drop_last() =~= cases);
}

// ---------------------------------------------------------------------------
// Checks
// ---------------------------------------------------------------------------

/// Embeddings are as they should be where there is one for everything; relations where any is
/// resolved; references and calls where there is any. What there is nothing of is left out.
pub proof fn checks_pass_where_all_is_there(
    total: u64,
    embedded: u64,
    resolved: u64,
    references: u64,
    calls: u64,
)
    ensures
        readiness::memory_embedding_check(total, embedded).state == (if embedded < total {
            ReadinessState::Fail
        } else {
            ReadinessState::Ready
        }),
        readiness::code_embedding_check(total, embedded).state == (if total == 0 {
            ReadinessState::Skip
        } else if embedded < total {
            ReadinessState::Fail
        } else {
            ReadinessState::Ready
        }),
        readiness::code_relation_check(total, resolved).state == (if total == 0 {
            ReadinessState::Skip
        } else if resolved == 0 {
            ReadinessState::Fail
        } else {
            ReadinessState::Ready
        }),
        readiness::ra_reference_check(total, references).state == (if total == 0 {
            ReadinessState::Skip
        } else if references == 0 {
            ReadinessState::Fail
        } else {
            ReadinessState::Ready
        }),
        readiness::ra_call_check(total, references, calls).state == (if total == 0 || references
            == 0 {
            ReadinessState::Skip
        } else if calls == 0 {
            ReadinessState::Fail
        } else {
            ReadinessState::Ready
        }),
{
}

/// The index is fresh where no file is stale, missing or deleted, and left out where there is no
/// file at all.
pub proof fn the_index_is_fresh_where_nothing_changed(report: CodeFreshnessReport)
    ensures
        readiness::freshness_check(report).state == (if report.files_seen == 0
            && report.indexed_files == 0 {
            ReadinessState::Skip
        } else if report.stale_files@.len() + report.missing_files@.len()
            + report.deleted_files@.len() == 0 {
            ReadinessState::Ready
        } else {
            ReadinessState::Fail
        }),
{
}

/// A role is missing where its model is not there, and is told with it; roles pass where none is
/// missing.
pub proof fn missing_roles_are_those_without_a_model(roles: Seq<ModelRole>, role: ModelRole)
    ensures
        readiness::missing_roles_of(Seq::empty()).len() == 0,
        role.available ==> readiness::missing_roles_of(roles.push(role))
            == readiness::missing_roles_of(roles),
        !role.available ==> readiness::missing_roles_of(roles.push(role))
            == readiness::missing_roles_of(roles).push(role.role@ + ": "@ + role.model@),
        readiness::model_role_check(readiness::missing_roles_of(roles)).state == (
        if readiness::missing_roles_of(roles).len() == 0 {
            ReadinessState::Ready
        } else {
            ReadinessState::Fail
        }),
{
    assert(roles.push(role).drop_last() =~= roles);
}

/// A word is found at least once exactly where it occurs, and once more behind every place where
/// it stands.
pub proof fn words_are_found_where_they_occur(hay: Seq<char>, needle: Seq<char>)
    requires
        needle.len() > 0,
    ensures
        readiness::times_found(hay, needle) > 0 <==> text::occurs_in(needle, hay),
        readiness::times_found(needle + hay, needle) == 1 + readiness::times_found(hay, needle),
    decreases hay.len(),
{
    let both = needle + hay;
    assert(both.subrange(0, needle.len() as int) =~= needle);
    assert(both.skip(needle.len() as int) =~= hay);
    lemma_found(hay, needle);
}

proof fn lemma_found(hay: Seq<char>, needle: Seq<char>)
    requires
        needle.len() > 0,
    ensures
        readiness::times_found(hay, needle) > 0 <==> text::occurs_in(needle, hay),
    decreases hay.len(),
{
    if hay.len() < needle.len() {
        assert forall|at: int| !text::stands_at(hay, needle, at) by {}
    } else if text::stands_at(hay, needle, 0) {
    } else {
        let rest = hay.skip(1);
        lemma_found(rest, needle);
        if text::occurs_in(needle, rest) {
            let at = choose|at: int| text::stands_at(rest, needle, at);
            assert(hay.subrange(at + 1, at + 1 + needle.len()) =~= rest.subrange(
                at,
                at + needle.len(),
            ));
            assert(text::stands_at(hay, needle, at + 1));
        }
        if text::occurs_in(needle, hay) {
            let at = choose|at: int| text::stands_at(hay, needle, at);
            assert(at != 0);
            assert(hay.subrange(at, at + needle.len()) =~= rest.subrange(
                at - 1,
                at - 1 + needle.len(),
            ));
            assert(text::stands_at(rest, needle, at - 1));
        }
    }
}

/// The agent is as it should be where it ended well, names the project and has an interval; for
/// each of these that is not so, the check says it.
pub proof fn the_agent_is_checked_for_three_things(output: Seq<char>, project_id: Seq<char>)
    ensures
        ({
            let ended = text::occurs_in("last exit code = 0"@, output);
            let pinned = text::occurs_in("--project"@, output) && text::occurs_in(
                project_id,
                output,
            );
            let timed = text::occurs_in("run interval ="@, output);
            let gaps = readiness::launchd_gaps(output, project_id);
            &&& readiness::launchd_check(output, project_id).state == (if ended && pinned && timed {
                ReadinessState::Ready
            } else {
                ReadinessState::Fail
            })
            &&& gaps == (if ended {
                Seq::empty()
            } else {
                seq!["last exit code is not 0"@]
            }) + (if pinned {
                Seq::empty()
            } else {
                seq!["project id is not pinned"@]
            }) + (if timed {
                Seq::empty()
            } else {
                seq!["run interval is missing"@]
            })
        }),
{
    let gaps = readiness::launchd_gaps(output, project_id);
    let none = Seq::<Seq<char>>::empty();
    let a = if text::occurs_in("last exit code = 0"@, output) {
        none
    } else {
        seq!["last exit code is not 0"@]
    };
    let b = if text::occurs_in("--project"@, output) && text::occurs_in(project_id, output) {
        none
    } else {
        seq!["project id is not pinned"@]
    };
    let c = if text::occurs_in("run interval ="@, output) {
        none
    } else {
        seq!["run interval is missing"@]
    };
    assert(gaps =~= a + b + c);
}

/// What failed is told by its name and what was found, in the order of the checks; what passed or
/// was left out is not told.
pub proof fn failures_are_told_in_order(checks: Seq<CheckView>, check: CheckView)
    ensures
        doctor::failures_of(Seq::empty()).len() == 0,
        check.state == ReadinessState::Fail ==> doctor::failures_of(checks.push(check))
            == doctor::failures_of(checks).push(check.name + ": "@ + check.detail),
        check.state != ReadinessState::Fail ==> doctor::failures_of(checks.push(check))
            == doctor::failures_of(checks),
{
    assert(checks.push(check).drop_last() =~= checks);
}

/// Paths are told in short: the first three, and how many more there are.
pub proof fn three_paths_are_told(paths: Seq<Seq<char>>)
    ensures
        paths.len() == 0 ==> readiness::paths_in_short(paths) == "0"@,
        1 <= paths.len() <= 3 ==> readiness::paths_in_short(paths) == text::joined(paths, ","@),
        paths.len() > 3 ==> readiness::paths_in_short(paths) == text::joined(
            seq![paths[0], paths[1], paths[2]],
            ","@,
        ) + "+"@ + text::decimal_text((paths.len() - 3) as nat),
{
    if paths.len() > 3 {
        assert(paths.take(3) =~= seq![paths[0], paths[1], paths[2]]);
    }
}

/// A command that failed is told by its status, with what it wrote as an error before what it
/// wrote else, where it wrote anything.
pub proof fn failures_of_commands_tell_their_errors(
    status: Seq<char>,
    out: Seq<char>,
    err: Seq<char>,
)
    requires
        out.len() > 0,
        err.len() > 0,
    ensures
        ({
            let said = "command exited with "@ + status;
            let none = Seq::<char>::empty();
            &&& readiness::failure_text(status, none, none) == said
            &&& readiness::failure_text(status, out, none) == said + ": "@ + out
            &&& readiness::failure_text(status, none, err) == said + ": "@ + err
            &&& readiness::failure_text(status, out, err) == said + ": "@ + err + "; stdout: "@ + out
        }),
{
}

// ---------------------------------------------------------------------------
// Plans and reports as a whole
// ---------------------------------------------------------------------------

/// A review that is carried out promotes, archives or keeps each memory named before the first
/// unknown word, for the reason given; a dry run changes nothing, and either tells how many
/// decisions of each kind there are.
pub proof fn reviews_act_on_the_memories_named(
    plan: ReviewPlan,
    project_id: Seq<char>,
    decisions: Seq<DecisionView>,
    dry_run: bool,
    i: int,
)
    requires
        review::plans(plan, project_id, decisions, dry_run),
    ensures
        dry_run ==> plan.actions@.len() == 0,
        plan.outcome is Ok <==> review::known_prefix(decisions) == decisions.len(),
        !dry_run ==> plan.actions@.len() == review::known_prefix(decisions),
        !dry_run && 0 <= i < review::known_prefix(decisions) ==> {
            let action = plan.actions@[i];
            let word = decisions[i].action;
            &&& action.id@ == decisions[i].id
            &&& text::opt_text(action.reason) == decisions[i].reason
            &&& word == "promote"@ ==> action.kind == ReviewKind::Promote && action.audit_action@
                == "review_promote"@
            &&& word == "archive"@ ==> action.kind == ReviewKind::Archive && action.audit_action@
                == "review_archive"@
            &&& word == "keep"@ ==> action.kind == ReviewKind::Keep && action.audit_action@
                == "review_keep"@
        },
        plan.outcome matches Ok(report) ==> {
            &&& report.dry_run == dry_run
            &&& report.promoted + report.archived + report.kept == decisions.len()
        },
{
    reviews_do_what_is_said(decisions);
    assert(review::action_views(plan.actions@).len() == plan.actions@.len());
    if !dry_run && 0 <= i < review::known_prefix(decisions) {
        assert(review::action_views(plan.actions@)[i] == plan.actions@[i]@);
        assert(decisions.take(review::known_prefix(decisions) as int)[i] == decisions[i]);
    }
    if plan.outcome is Ok {
        lemma_kinds_add_up(decisions);
    }
}

proof fn lemma_kinds_add_up(decisions: Seq<DecisionView>)
    requires
        forall|i: int|
            0 <= i < decisions.len() ==> review::kind_of((#[trigger] decisions[i]).action) is Some,
    ensures
        review::kind_count(decisions, ReviewKind::Promote) + review::kind_count(
            decisions,
            ReviewKind::Archive,
        ) + review::kind_count(decisions, ReviewKind::Keep) == decisions.len(),
    decreases decisions.len(),
{
    if decisions.len() > 0 {
        let front = decisions.drop_last();
        assert forall|i: int| 0 <= i < front.len() implies review::kind_of(
            (#[trigger] front[i]).action,
        ) is Some by {
            assert(front[i] == decisions[i]);
        }
        lemma_kinds_add_up(front);
        assert(decisions[decisions.len() - 1] == decisions.last());
    }
}

/// A step that goes wrong leaves a warning, and the run goes on; only a backup or a compaction that
/// could not be made ends it.
pub proof fn only_backups_and_compactions_end_a_run(outcome: StepOutcome)
    ensures
        maintenance::ends_run(outcome) is Some <==> (outcome is Backup && outcome->Backup_0 is Err)
            || (outcome is Compaction && outcome->Compaction_0 is Err),
        outcome matches StepOutcome::Backup(Err(error)) ==> maintenance::ends_run(outcome) == Some(
            error@,
        ),
        outcome matches StepOutcome::Compaction(Err(error)) ==> maintenance::ends_run(outcome)
            == Some(error@),
{
}

/// A step that went well is in the report as it is, without a warning; a validation, feedback or
/// embedding that failed adds one warning that tells the error, and what was warned of before
/// stays.
pub proof fn steps_are_reported(
    run: MaintenanceRun,
    outcome: StepOutcome,
    after: MaintenanceReport,
)
    requires
        maintenance::reported(run, outcome, after),
    ensures
        after.project_id == run.report.project_id,
        after.apply == run.report.apply,
        outcome matches StepOutcome::Validation(Ok(report)) ==> after.validation == Some(report)
            && after.warnings == run.report.warnings,
        outcome matches StepOutcome::Feedback(Ok(report)) ==> after.feedback == Some(report)
            && after.warnings == run.report.warnings,
        outcome matches StepOutcome::Embeddings(Ok(report)) ==> after.embeddings == Some(report)
            && after.warnings == run.report.warnings,
        outcome matches StepOutcome::Backup(Ok(report)) ==> after.backup == Some(report)
            && after.warnings == run.report.warnings,
        outcome matches StepOutcome::Compaction(Ok(report)) ==> after.compaction == Some(report),
        outcome matches StepOutcome::Validation(Err(error)) ==> after.warnings@.len()
            == run.report.warnings@.len() + 1 && after.warnings@[after.warnings@.len() - 1]@
            == "validation step failed: "@ + error@ && after.validation is Some,
        outcome matches StepOutcome::Feedback(Err(error)) ==> after.warnings@.len()
            == run.report.warnings@.len() + 1 && after.warnings@[after.warnings@.len() - 1]@
            == "feedback step failed: "@ + error@ && after.feedback is Some,
        outcome matches StepOutcome::Embeddings(Err(error)) ==> after.warnings@.len()
            == run.report.warnings@.len() + 1 && after.warnings@[after.warnings@.len() - 1]@
            == "embedding step failed: "@ + error@ && after.embeddings == run.report.embeddings,
        !(outcome is Validation) ==> after.validation == run.report.validation,
        !(outcome is Compaction) ==> after.compaction == run.report.compaction,
        !(outcome is Feedback) ==> after.feedback == run.report.feedback,
        !(outcome is Backup) ==> after.backup == run.report.backup,
{
    reveal_strlit("validation");
    reveal_strlit("feedback");
    reveal_strlit("embedding");
    reveal_strlit(" step failed: ");
    reveal_strlit("validation step failed: ");
    reveal_strlit("feedback step failed: ");
    reveal_strlit("embedding step failed: ");
    assert("validation"@ + " step failed: "@ =~= "validation step failed: "@);
    assert("feedback"@ + " step failed: "@ =~= "feedback step failed: "@);
    assert("embedding"@ + " step failed: "@ =~= "embedding step failed: "@);
    let old_texts = text::texts(run.report.warnings@);
    let new_texts = text::texts(after.warnings@);
    assert(old_texts.len() == run.report.warnings@.len());
    assert(new_texts.len() == after.warnings@.len());
    if after.warnings@.len() > 0 {
        assert(new_texts[new_texts.len() - 1] == after.warnings@[after.warnings@.len() - 1]@);
    }
}

/// The report on a case tells the expected ids apart: those that were found and those that were
/// not, none in both and all in one; and the same of the texts.
pub proof fn reports_tell_what_was_missing(
    r: EvalCaseReport,
    case: EvalCase,
    index: nat,
    project_id: Seq<char>,
    observed: EvalObserved,
    latency_ms: u64,
    tokens: usize,
    id: Seq<char>,
    needle: Seq<char>,
)
    requires
        eval_report::reports_case(r, case, index, project_id, observed, latency_ms, tokens),
    ensures
        ({
            let expected = text::texts(case.expected_ids@).contains(id);
            let forbidden = text::texts(case.forbidden_ids@).contains(id);
            let top = text::texts(observed.top_ids@).contains(id);
            let found = text::occurs_in(text::lowered(needle), text::lowered(observed.haystack@));
            &&& text::texts(r.matched_expected_ids@).contains(id) <==> expected && top
            &&& text::texts(r.missing_expected_ids@).contains(id) <==> expected && !top
            &&& text::texts(r.matched_forbidden_ids@).contains(id) <==> forbidden && top
            &&& text::texts(r.missing_expected@).contains(needle) <==> text::texts(
                case.expected_contains@,
            ).contains(needle) && !found
            &&& text::texts(r.forbidden_found@).contains(needle) <==> text::texts(
                case.forbidden_contains@,
            ).contains(needle) && found
            &&& r.latency_ok <==> !(case.max_latency_ms is Some && latency_ms
                > case.max_latency_ms->0)
            &&& r.token_budget_ok <==> !(case.max_estimated_tokens is Some && tokens
                > case.max_estimated_tokens->0)
            &&& r.hits == observed.hits
            &&& r.latency_ms == latency_ms
            &&& r.estimated_tokens == tokens
        }),
{
    let top = text::texts(observed.top_ids@);
    let expected = text::texts(case.expected_ids@);
    let forbidden = text::texts(case.forbidden_ids@);
    lemma_filter_contains(expected, eval_report::listed(top), id);
    lemma_filter_contains(expected, eval_report::unlisted(top), id);
    lemma_filter_contains(forbidden, eval_report::listed(top), id);
    lemma_filter_contains(
        text::texts(case.expected_contains@),
        eval_report::missing_in(observed.haystack@),
        needle,
    );
    lemma_filter_contains(
        text::texts(case.forbidden_contains@),
        eval_report::found_in(observed.haystack@),
        needle,
    );
}

/// The ranks of a case tell how many of the expected ids were found, how many were expected and
/// returned, at which places the hits stand, and how many hits there could be at best; a case that
/// expects no id has none.
pub proof fn ranks_count_the_hits(
    r: EvalCaseReport,
    case: EvalCase,
    index: nat,
    project_id: Seq<char>,
    observed: EvalObserved,
    latency_ms: u64,
    tokens: usize,
    p: usize,
)
    requires
        eval_report::reports_case(r, case, index, project_id, observed, latency_ms, tokens),
        observed.top_ids@.len() <= usize::MAX,
    ensures
        r.ranks is None <==> case.expected_ids@.len() == 0,
        r.ranks matches Some(ranks) ==> {
            let top = text::texts(observed.top_ids@);
            &&& ranks.expected == case.expected_ids@.len()
            &&& ranks.returned == observed.top_ids@.len()
            &&& ranks.matched == r.matched_expected_ids@.len()
            &&& ranks.ideal_hits <= ranks.expected && ranks.ideal_hits <= ranks.returned
            &&& ranks.ideal_hits == ranks.expected || ranks.ideal_hits == ranks.returned
            &&& ranks.hit_ranks@.contains(p) <==> p < top.len() && text::texts(
                case.expected_ids@,
            ).contains(top[p as int])
        },
{
    let top = text::texts(observed.top_ids@);
    let expected = text::texts(case.expected_ids@);
    assert(top.len() == observed.top_ids@.len());
    assert(expected.len() == case.expected_ids@.len());
    assert(text::texts(r.matched_expected_ids@).len() == r.matched_expected_ids@.len());
    eval_report::hit_places_hold_hits(top, expected, top.len());
}

/// A report on an evaluation is named by the case, or by its place counted from one, and stands in
/// the project of the case, or else in the one given.
pub proof fn cases_are_named_or_numbered(
    r: EvalCaseReport,
    case: EvalCase,
    index: nat,
    project_id: Seq<char>,
    observed: EvalObserved,
    latency_ms: u64,
    tokens: usize,
)
    requires
        eval_report::reports_case(r, case, index, project_id, observed, latency_ms, tokens),
    ensures
        case.name matches Some(name) ==> r.name@ == name@,
        case.name is None ==> r.name@ == "case-"@ + text::decimal_text(index + 1),
        case.project_id matches Some(project) ==> r.project_id@ == project@,
        case.project_id is None ==> r.project_id@ == project_id,
        r.query@ == case.query@,
        r.target@ == text::lowered(text::trimmed(case.target@)),
{
}

/// What a check tells of a part that was tried: it passes where the part went well, and fails with
/// the error where it did not; the built-in evaluation passes where no case failed.
pub proof fn parts_of_the_doctor_pass_where_they_went_well(
    smoke: Result<SmokeReport, String>,
    audit: Result<ProductionAuditReport, String>,
    integration: Result<CodexIntegrationReport, String>,
    totals: Result<EvalTotals, String>,
)
    ensures
        smoke is Ok ==> doctor::smoke_check(smoke).state == ReadinessState::Ready,
        smoke matches Err(error) ==> doctor::smoke_check(smoke) == (CheckView {
            name: "mcp_smoke"@,
            state: ReadinessState::Fail,
            detail: error@,
        }),
        audit is Ok ==> doctor::audit_check(audit).state == ReadinessState::Ready,
        audit matches Err(error) ==> doctor::audit_check(audit) == (CheckView {
            name: "production_audit"@,
            state: ReadinessState::Fail,
            detail: error@,
        }),
        integration is Ok ==> doctor::integration_check(integration).state
            == ReadinessState::Ready,
        integration matches Err(error) ==> doctor::integration_check(integration) == (CheckView {
            name: "codex_integration"@,
            state: ReadinessState::Fail,
            detail: error@,
        }),
        totals matches Err(error) ==> doctor::eval_check(totals) == (CheckView {
            name: "eval"@,
            state: ReadinessState::Fail,
            detail: error@,
        }),
        totals matches Ok(t) ==> doctor::eval_check(totals) == (if t.failed_cases > 0 {
            CheckView {
                name: "eval"@,
                state: ReadinessState::Fail,
                detail: "built-in eval failed "@ + text::decimal_text(t.failed_cases as nat) + "/"@
                    + text::decimal_text(t.total_cases as nat) + " cases"@,
            }
        } else {
            CheckView {
                name: "eval"@,
                state: ReadinessState::Ready,
                detail: "built-in eval passed "@ + text::decimal_text(t.passed_cases as nat) + "/"@
                    + text::decimal_text(t.total_cases as nat) + " cases"@,
            }
        }),
{
}

/// The doctor makes thirteen checks, each under its name, in this order; those that are switched
/// off are left out, not failed.
pub proof fn the_doctor_checks_thirteen_things(f: DoctorFindings)
    ensures
        ({
            let checks = doctor::all_checks(f);
            &&& checks.len() == 13
            &&& checks[0].name == "model_roles"@
            &&& checks[1].name == "mcp_smoke"@
            &&& checks[2].name == "production_audit"@
            &&& checks[3].name == "codex_integration"@
            &&& checks[4].name == "memory_embeddings"@
            &&& checks[5].name == "code_symbol_embeddings"@
            &&& checks[6].name == "code_relation_targets"@
            &&& checks[7].name == "code_index_freshness"@
            &&& checks[8].name == "ra_references"@
            &&& checks[9].name == "ra_calls"@
            &&& checks[10].name == "eval"@
            &&& checks[11].name == "rust_analyzer_diagnostics"@
            &&& checks[12].name == "launchd"@
            &&& f.eval is None ==> checks[10].state == ReadinessState::Skip
            &&& f.diagnostics is None ==> checks[11].state == ReadinessState::Skip
            &&& f.launchd is None ==> checks[12].state == ReadinessState::Skip
            &&& f.launchd == Some(None::<CommandOutcome>) ==> checks[12].state
                == ReadinessState::Skip
            &&& checks[0].state == (if f.missing_roles@.len() == 0 {
                ReadinessState::Ready
            } else {
                ReadinessState::Fail
            })
            &&& checks[4].state == (if f.memory_embeddings < f.total_memories {
                ReadinessState::Fail
            } else {
                ReadinessState::Ready
            })
            &&& checks[5].state == ReadinessState::Fail <==> f.symbols > 0 && f.symbol_embeddings
                < f.symbols
            &&& checks[6].state == ReadinessState::Fail <==> f.relations > 0
                && f.resolved_relations == 0
            &&& checks[8].state == ReadinessState::Fail <==> f.symbols > 0 && f.ra_references == 0
            &&& checks[9].state == ReadinessState::Fail <==> f.symbols > 0 && f.ra_references > 0
                && f.ra_calls == 0
        }),
{
    assert(text::texts(f.missing_roles@).len() == f.missing_roles@.len());
}

/// A tool tells its version where it runs, and that it is there where it tells nothing; where it
/// does not run, the error it wrote or else its status.
pub proof fn tools_tell_their_version(status: Seq<char>, out: Seq<char>, err: Seq<char>)
    ensures
        out.len() > 0 ==> readiness::tool_status_text(true, status, out, err) == out,
        out.len() == 0 ==> readiness::tool_status_text(true, status, out, err) == "available"@,
        err.len() > 0 ==> readiness::tool_status_text(false, status, out, err) == "unavailable ("@
            + err + ")"@,
        err.len() == 0 ==> readiness::tool_status_text(false, status, out, err) == "unavailable ("@
            + status + ")"@,
{
}

/// Diagnostics pass where the command went well, and tell how many weak warnings it wrote.
pub proof fn diagnostics_count_weak_warnings(
    success: bool,
    status: Seq<char>,
    out: Seq<char>,
    err: Seq<char>,
    all_err: Seq<char>,
)
    ensures
        ({
            let check = readiness::diagnostics_check(success, status, out, err, all_err);
            &&& check.name == "rust_analyzer_diagnostics"@
            &&& check.state == (if success {
                ReadinessState::Ready
            } else {
                ReadinessState::Fail
            })
            &&& !success ==> check.detail == readiness::failure_text(status, out, err)
            &&& success && text::occurs_in("WeakWarning"@, all_err) ==> check.detail
                == "diagnostic scan complete with "@ + text::decimal_text(
                readiness::times_found(all_err, "WeakWarning"@),
            ) + " weak warnings"@
            &&& success && !text::occurs_in("WeakWarning"@, all_err) ==> check.detail
                == "diagnostic scan complete"@
        }),
{
    reveal_strlit("WeakWarning");
    lemma_found(all_err, "WeakWarning"@);
}

// ---------------------------------------------------------------------------
// Commands
// ---------------------------------------------------------------------------

/// An action on memories of code is named by its word; to archive or promote one its id is needed.
pub proof fn actions_on_code_memories_need_their_id(id: Seq<char>)
    ensures
        commands::code_memory_request_of("archive"@, Some(id)) == Ok::<
            CodeMemoryRequestView,
            Seq<char>,
        >(CodeMemoryRequestView::Archive(id)),
        commands::code_memory_request_of("promote"@, Some(id)) == Ok::<
            CodeMemoryRequestView,
            Seq<char>,
        >(CodeMemoryRequestView::Promote(id)),
        commands::code_memory_request_of("archive"@, None) is Err,
        commands::code_memory_request_of("promote"@, None) is Err,
        forall|given: Option<Seq<char>>| #[trigger]
            commands::code_memory_request_of("remember"@, given) == Ok::<
                CodeMemoryRequestView,
                Seq<char>,
            >(CodeMemoryRequestView::Remember),
        forall|given: Option<Seq<char>>| #[trigger]
            commands::code_memory_request_of("repair"@, given) == Ok::<
                CodeMemoryRequestView,
                Seq<char>,
            >(CodeMemoryRequestView::Repair),
        forall|given: Option<Seq<char>>| #[trigger]
            commands::code_memory_request_of("search"@, given) == Ok::<
                CodeMemoryRequestView,
                Seq<char>,
            >(CodeMemoryRequestView::Search),
        forall|given: Option<Seq<char>>| #[trigger]
            commands::code_memory_request_of("list"@, given) == Ok::<
                CodeMemoryRequestView,
                Seq<char>,
            >(CodeMemoryRequestView::Search),
{
    reveal_strlit("remember");
    reveal_strlit("archive");
    reveal_strlit("promote");
    reveal_strlit("repair");
    reveal_strlit("search");
    reveal_strlit("list");
    assert("remember"@.len() == 8 && "archive"@.len() == 7 && "promote"@.len() == 7);
    assert("repair"@.len() == 6 && "search"@.len() == 6 && "list"@.len() == 4);
    assert("archive"@[0] == 'a' && "promote"@[0] == 'p');
    assert("repair"@[0] == 'r' && "search"@[0] == 's');
}

/// A change touches the file of the symbol, and every file that a relation comes from or leads to.
pub proof fn impact_reaches_both_ends(
    symbol_file: Option<Seq<char>>,
    relations: Seq<RelationFiles>,
    k: int,
    file: Seq<char>,
)
    ensures
        symbol_file matches Some(f) ==> commands::impacted_files(symbol_file, relations).contains(
            f,
        ),
        0 <= k < relations.len() ==> commands::impacted_files(symbol_file, relations).contains(
            relations[k].from_file@,
        ),
        0 <= k < relations.len() && relations[k].target_file is Some ==> commands::impacted_files(
            symbol_file,
            relations,
        ).contains(relations[k].target_file->0@),
        commands::impacted_files(symbol_file, relations).contains(file) ==> symbol_file == Some(
            file,
        ) || exists|i: int|
            0 <= i < relations.len() && ((#[trigger] relations[i]).from_file@ == file
                || relations[i].target_file is Some && relations[i].target_file->0@ == file),
{
    if 0 <= k < relations.len() {
        assert(commands::touches(relations[k], relations[k].from_file@));
        if relations[k].target_file is Some {
            assert(commands::touches(relations[k], relations[k].target_file->0@));
        }
    }
    if commands::impacted_files(symbol_file, relations).contains(file) && symbol_file != Some(
        file,
    ) {
        assert(commands::any_touches(relations, file));
        let i = choose|i: int|
            0 <= i < relations.len() && commands::touches(#[trigger] relations[i], file);
        assert(relations[i].from_file@ == file || relations[i].target_file->0@ == file);
    }
}

/// The agent runs the maintenance command with exactly the switches that are set, for the project
/// where one is given, and not more often than every five minutes.
pub proof fn agents_run_what_is_asked_for(o: MaintenanceLaunchdOptions)
    ensures
        launchd_maintenance::program_arguments(o) == seq![o.command@, "maintenance"@] + (if o.all {
            seq!["--all"@]
        } else {
            Seq::empty()
        }) + (if o.backup {
            seq!["--backup"@]
        } else {
            Seq::empty()
        }) + (if o.apply {
            seq!["--apply"@]
        } else {
            Seq::empty()
        }) + (if o.project is Some {
            seq!["--project"@, o.project->0@]
        } else {
            Seq::empty()
        }),
        launchd_maintenance::start_interval(o.interval_seconds as nat) >= 300,
        o.interval_seconds >= 300 ==> launchd_maintenance::start_interval(
            o.interval_seconds as nat,
        ) == o.interval_seconds,
        o.interval_seconds < 300 ==> launchd_maintenance::start_interval(o.interval_seconds as nat)
            == 300,
{
    let a = seq![o.command@, "maintenance"@];
    let none = Seq::<Seq<char>>::empty();
    assert(launchd_maintenance::program_arguments(o) =~= a + (if o.all {
        seq!["--all"@]
    } else {
        none
    }) + (if o.backup {
        seq!["--backup"@]
    } else {
        none
    }) + (if o.apply {
        seq!["--apply"@]
    } else {
        none
    }) + (if o.project is Some {
        seq!["--project"@, o.project->0@]
    } else {
        none
    }));
}

// ---------------------------------------------------------------------------
// Memories that are written
// ---------------------------------------------------------------------------

/// The summary of a compaction is stored as an active memory of its own, for the reason given, and
/// each memory that it sums up is archived with its id; what was stored before stands for it.
pub proof fn compaction_replaces_its_sources(
    p: CompactionProposal,
    scope: Seq<char>,
    tier: Seq<char>,
    source: Seq<char>,
    outcome: RememberOutcome,
    i: int,
)
    ensures
        ({
            let m = memory_writes::summary_memory(p, scope, tier, source);
            let ids = text::texts(p.source_ids@);
            let kept = memory_writes::kept_id(outcome);
            let changes = memory_writes::compaction_changes(ids, kept);
            &&& m.body == p.summary_body@ && m.kind == p.summary_kind@
            &&& m.scope == scope && m.memory_tier == tier && m.source == Some(source)
            &&& m.status == MemoryStatus::Active && m.status_reason == Some(p.reason@)
            &&& m.tags == text::texts(p.tags@) && !m.allow_sensitive
            &&& changes.len() == p.source_ids@.len()
            &&& 0 <= i < p.source_ids@.len() ==> changes[i] == (ChangeView {
                id: p.source_ids@[i]@,
                kind: ChangeKind::Archive,
                reason: Some("compacted into "@ + kept),
            })
            &&& outcome.duplicate_of matches Some(id) ==> kept == id@
            &&& outcome.duplicate_of is None ==> kept == outcome.id@
        }),
{
}

/// A candidate is stored as a pending memory with its own kind, body, tags and reason.
pub proof fn candidates_wait_for_review(
    c: MemoryCandidate,
    scope: Seq<char>,
    tier: Seq<char>,
    source: Seq<char>,
)
    ensures
        ({
            let m = memory_writes::pending_memory(c, scope, tier, source);
            &&& m.status == MemoryStatus::Pending
            &&& m.body == c.body@ && m.kind == c.kind@ && m.tags == text::texts(c.tags@)
            &&& m.scope == scope && m.memory_tier == tier && m.source == Some(source)
            &&& m.status_reason == text::opt_text(c.reason) && !m.allow_sensitive
        }),
{
}

/// Feedback tells which memories were helpful and which were not, by two lists of ids, each read
/// for its texts; an event that has no such list tells of none.
pub proof fn feedback_names_its_memories(
    r: Seq<FeedbackApplication>,
    events: Seq<AuditEvent>,
    places: Seq<usize>,
    k: int,
)
    requires
        maintenance_steps::applications_of(r, events, places),
        0 <= k < r.len(),
    ensures
        ({
            let event = events[places[k] as int];
            let helpful = event.detail@.values_field("helpful_ids"@);
            let unhelpful = event.detail@.values_field("unhelpful_ids"@);
            &&& r.len() == places.len()
            &&& r[k].event_id@ == event.id@
            &&& helpful is Some ==> text::texts(r[k].helpful_ids@) == maintenance_steps::texts_among(
                helpful->0,
            )
            &&& helpful is None ==> r[k].helpful_ids@.len() == 0
            &&& unhelpful is Some ==> text::texts(r[k].unhelpful_ids@)
                == maintenance_steps::texts_among(unhelpful->0)
            &&& unhelpful is None ==> r[k].unhelpful_ids@.len() == 0
        }),
{
    assert(r[k].event_id@ == events[places[k] as int].id@);
    assert(text::texts(r[k].helpful_ids@).len() == r[k].helpful_ids@.len());
    assert(text::texts(r[k].unhelpful_ids@).len() == r[k].unhelpful_ids@.len());
}

/// Without a flag a run takes the steps for pending memories; with any it takes none but those.
pub proof fn a_flag_is_any_step(f: StepFlags)
    ensures
        !maintenance::any_step(f) <==> !f.all && !f.backup && !f.validate_pending && !f.compact
            && !f.feedback && !f.embed_missing,
{
}

/// The words for what is embedded: all of it, memories, or code.
pub proof fn scopes_say_what_is_embedded(scope: Seq<char>)
    ensures
        maintenance_steps::covers_memories("all"@) && maintenance_steps::covers_code("all"@),
        scope == "memory"@ || scope == "memories"@ ==> maintenance_steps::covers_memories(scope)
            && !maintenance_steps::covers_code(scope),
        scope == "code"@ || scope == "symbols"@ || scope == "code_symbols"@
            ==> maintenance_steps::covers_code(scope) && !maintenance_steps::covers_memories(scope),
        maintenance_steps::covers_memories(scope) ==> scope == "all"@ || scope == "memory"@ || scope
            == "memories"@,
        maintenance_steps::covers_code(scope) ==> scope == "all"@ || scope == "code"@ || scope
            == "symbols"@ || scope == "code_symbols"@,
{
    reveal_strlit("all");
    reveal_strlit("memory");
    reveal_strlit("memories");
    reveal_strlit("code");
    reveal_strlit("symbols");
    reveal_strlit("code_symbols");
    assert("all"@.len() == 3 && "memory"@.len() == 6 && "memories"@.len() == 8);
    assert("code"@.len() == 4 && "symbols"@.len() == 7 && "code_symbols"@.len() == 12);
}

/// The roles of the models that embed memories, and of those that embed code: none is both.
pub proof fn roles_embed_memories_or_code(role: Seq<char>)
    ensures
        commands::embeds_memories(role) <==> role == "memory"@ || role == "memory_embed"@ || role
            == "embed"@,
        commands::embeds_code(role) <==> role == "code"@ || role == "code_embed"@ || role
            == "fast_embed"@,
        !(commands::embeds_memories(role) && commands::embeds_code(role)),
{
    reveal_strlit("memory");
    reveal_strlit("memory_embed");
    reveal_strlit("embed");
    reveal_strlit("code");
    reveal_strlit("code_embed");
    reveal_strlit("fast_embed");
    assert("memory"@.len() == 6 && "memory_embed"@.len() == 12 && "embed"@.len() == 5);
    assert("code"@.len() == 4 && "code_embed"@.len() == 10 && "fast_embed"@.len() == 10);
}

/// An evaluation looks up memories, code, the context, a review, or a semantic report, whose action
/// is the one given or a look at the quality of the retrieval.
pub proof fn evaluations_have_five_targets(case: EvalCase, target: Seq<char>)
    ensures
        eval::is_eval_target(target) <==> seq![
            "memory"@,
            "code"@,
            "context"@,
            "review_apply"@,
            "semantic"@,
        ].contains(target),
        case.semantic_action matches Some(action) ==> eval::semantic_action(case) == action@,
        case.semantic_action is None ==> eval::semantic_action(case) == "retrieval_quality"@,
{
    let s = seq!["memory"@, "code"@, "context"@, "review_apply"@, "semantic"@];
    assert(s[0] == "memory"@ && s[1] == "code"@ && s[2] == "context"@);
    assert(s[3] == "review_apply"@ && s[4] == "semantic"@);
}

/// A model is told with its size, its lengths and what it can do, with a dash for what is unknown.
pub proof fn models_are_told(m: InstalledModel)
    ensures
        readiness::model_line_text(m) == "- "@ + m.name@ + " params="@ + (
        if m.parameter_size is Some {
            m.parameter_size->0@
        } else {
            "-"@
        }) + " context="@ + (if m.context_length is Some {
            text::decimal_text(m.context_length->0 as nat)
        } else {
            "-"@
        }) + " embedding="@ + (if m.embedding_length is Some {
            text::decimal_text(m.embedding_length->0 as nat)
        } else {
            "-"@
        }) + " caps="@ + (if m.capabilities is Some {
            text::joined(text::texts(m.capabilities->0@), ","@)
        } else {
            Seq::empty()
        }),
{
}

/// A backup stands beside what it saves, under its name with a stamp behind it.
pub proof fn backups_stand_beside_what_they_save(dir: Seq<char>, name: Seq<char>, stamp: nat)
    requires
        text_laws::ends_plainly(dir),
        text_laws::is_file_name(name),
    ensures
        launchd_maintenance::backup_path_text(dir + seq!['/'] + name, stamp) == dir + seq!['/'] + (
        name + ".bak-dukememory-"@ + text::decimal_text(stamp)),
{
    let other = name + ".bak-dukememory-"@ + text::decimal_text(stamp);
    assert(other[0] == name[0]);
    assert(name[0] != '/') by {
        if name[0] == '/' {
            assert(name.contains('/'));
        }
    }
    text_laws::joined_paths_and_siblings(dir, name, other);
    text_laws::files_have_their_name(dir, name);
}

/// What an agent is told of its environment is the configuration, each under its key, as text that
/// holds no markup.
pub proof fn agents_know_the_configuration(c: Config)
    ensures
        launchd_maintenance::environment_entries(c) == text::joined(
            seq![
                entry_for("DUKEMEMORY_DATABASE_URL"@, c.database_url@),
                entry_for("DUKEMEMORY_DATABASE_MARKER"@, c.database_marker@),
                entry_for("DUKEMEMORY_DB"@, c.database_marker@),
                entry_for("OLLAMA_BASE_URL"@, c.ollama_base_url@),
                entry_for("DUKEMEMORY_EMBED_MODEL"@, c.ollama_embed_model@),
                entry_for("DUKEMEMORY_FAST_EMBED_MODEL"@, c.fast_embed_model@),
                entry_for("DUKEMEMORY_EXTRACT_MODEL"@, c.ollama_llm_model@),
                entry_for("DUKEMEMORY_VALIDATE_MODEL"@, c.validate_model@),
                entry_for("DUKEMEMORY_FAST_CODE_MODEL"@, c.fast_code_model@),
                entry_for("DUKEMEMORY_DEEP_CODE_MODEL"@, c.deep_code_model@),
                entry_for("DUKEMEMORY_AGENT_CODE_MODEL"@, c.agent_code_model@),
                entry_for("DUKEMEMORY_EXPERIMENT_MODEL"@, c.experiment_model@),
            ],
            Seq::empty(),
        ),
{
    let all = seq![
        entry_for("DUKEMEMORY_DATABASE_URL"@, c.database_url@),
        entry_for("DUKEMEMORY_DATABASE_MARKER"@, c.database_marker@),
        entry_for("DUKEMEMORY_DB"@, c.database_marker@),
        entry_for("OLLAMA_BASE_URL"@, c.ollama_base_url@),
        entry_for("DUKEMEMORY_EMBED_MODEL"@, c.ollama_embed_model@),
        entry_for("DUKEMEMORY_FAST_EMBED_MODEL"@, c.fast_embed_model@),
        entry_for("DUKEMEMORY_EXTRACT_MODEL"@, c.ollama_llm_model@),
        entry_for("DUKEMEMORY_VALIDATE_MODEL"@, c.validate_model@),
        entry_for("DUKEMEMORY_FAST_CODE_MODEL"@, c.fast_code_model@),
        entry_for("DUKEMEMORY_DEEP_CODE_MODEL"@, c.deep_code_model@),
        entry_for("DUKEMEMORY_AGENT_CODE_MODEL"@, c.agent_code_model@),
        entry_for("DUKEMEMORY_EXPERIMENT_MODEL"@, c.experiment_model@),
    ];
    lemma_joined_front(all, 1);
    lemma_joined_front(all, 2);
    lemma_joined_front(all, 3);
    lemma_joined_front(all, 4);
    lemma_joined_front(all, 5);
    lemma_joined_front(all, 6);
    lemma_joined_front(all, 7);
    lemma_joined_front(all, 8);
    lemma_joined_front(all, 9);
    lemma_joined_front(all, 10);
    lemma_joined_front(all, 11);
    lemma_joined_front(all, 12);
    assert(all.take(12) =~= all);
}

/// An entry of an environment: the key, and the value with its markup escaped.
pub open spec fn entry_for(key: Seq<char>, value: Seq<char>) -> Seq<char> {
    "    <key>"@ + key + "</key>\n    <string>"@ + launchd_maintenance::xml_escaped(value)
        + "</string>\n"@
}

proof fn lemma_joined_front(all: Seq<Seq<char>>, n: int)
    requires
        1 <= n <= all.len(),
    ensures
        n == 1 ==> text::joined(all.take(n), Seq::empty()) == all[0],
        n > 1 ==> text::joined(all.take(n), Seq::empty()) == text::joined(
            all.take(n - 1),
            Seq::empty(),
        ) + all[n - 1],
{
    let front = all.take(n);
    assert(front.drop_last() =~= all.take(n - 1));
    if n > 1 {
        let before = text::joined(all.take(n - 1), Seq::empty());
        assert(before + Seq::<char>::empty() + all[n - 1] =~= before + all[n - 1]);
    }
}

/// A part of the doctor that went well tells its counts.
pub proof fn parts_of_the_doctor_tell_their_counts(
    s: SmokeReport,
    a: ProductionAuditReport,
    c: CodexIntegrationReport,
)
    ensures
        ({
            let n = |i: usize| text::decimal_text(i as nat);
            &&& doctor::smoke_check(Ok(s)).detail == n(s.tools_count) + " tools, search_hits="@ + n(
                s.search_hits,
            ) + ", context_hits="@ + n(s.context_hits) + ", cross_project_hits="@ + n(
                s.cross_project_hits,
            )
            &&& doctor::audit_check(Ok(a)).detail == "files="@ + n(a.files_indexed) + ", symbols="@
                + n(a.code_symbols) + ", relations="@ + n(a.code_relations) + ", memory_hits="@ + n(
                a.memory_hits,
            ) + ", cross_project_hits="@ + n(a.cross_project_hits) + ", import_memories="@ + n(
                a.import_memories,
            )
            &&& doctor::integration_check(Ok(c)).detail == "mcp configured, env="@ + n(
                c.env_keys_configured,
            ) + "/"@ + n(c.env_keys_expected) + ", hooks="@ + text::joined(
                text::texts(c.hook_events_configured@),
                ","@,
            ) + ", hook dry-run ok"@
        }),
{
}

/// The agent that could not be asked fails with the error, one that answers badly with what it
/// wrote, and one that answers well is checked by its answer.
pub proof fn the_agent_is_asked(outcome: CommandOutcome, project_id: Seq<char>)
    ensures
        outcome matches CommandOutcome::NotRun(error) ==> readiness::launchd_outcome_check(
            outcome,
            project_id,
        ) == (CheckView { name: "launchd"@, state: ReadinessState::Fail, detail: error@ }),
        outcome matches CommandOutcome::Exited { success, status, stdout, stderr } ==> {
            let check = readiness::launchd_outcome_check(outcome, project_id);
            &&& success ==> check == readiness::launchd_check(
                uris::lossy_text(stdout@),
                project_id,
            )
            &&& !success ==> check == (CheckView {
                name: "launchd"@,
                state: ReadinessState::Fail,
                detail: readiness::failure_text(
                    status@,
                    text::trimmed(uris::lossy_text(stdout@)),
                    text::trimmed(uris::lossy_text(stderr@)),
                ),
            })
        },
{
}

/// The numbers of a check are told as what is there of what there is.
pub proof fn checks_tell_their_numbers(total: u64, part: u64)
    ensures
        ({
            let told = text::decimal_text(part as nat) + "/"@ + text::decimal_text(total as nat);
            &&& readiness::memory_embedding_check(total, part).detail == told
                + " memories embedded"@
            &&& total > 0 ==> readiness::code_embedding_check(total, part).detail == told
                + " symbols embedded"@
            &&& total > 0 ==> readiness::code_relation_check(total, part).detail == told
                + " relations resolved"@
            &&& total > 0 && part > 0 ==> readiness::ra_reference_check(total, part).detail
                == text::decimal_text(part as nat) + " rust-analyzer references imported"@
            &&& total > 0 && part > 0 ==> readiness::ra_call_check(total, total, part).detail
                == text::decimal_text(part as nat) + " rust-analyzer call edges imported"@
        }),
{
}

} // verus!
