//! Decisions on pending memories that a person hands in.
use vstd::prelude::*;
use vstd::string::*;
use crate::text::{
    cat3,
    chars_of,
    copy_opt,
    is_blank,
    owned,
    same_text,
    text_of,
};
use crate::text;

verus! {

/// What is to become of a memory, as it was handed in.
#[derive(Debug)]
pub struct ReviewDecisionInput {
    pub id: String,
    pub action: String,
    pub reason: Option<String>,
}

/// What is to become of a memory, by its values.
#[verifier::ext_equal]
pub struct DecisionView {
    pub id: Seq<char>,
    pub action: Seq<char>,
    pub reason: Option<Seq<char>>,
}

impl View for ReviewDecisionInput {
    type V = DecisionView;

    open spec fn view(&self) -> DecisionView {
        DecisionView { id: self.id@, action: self.action@, reason: text::opt_text(self.reason) }
    }
}

/// Decisions by their values.
pub open spec fn decision_views(s: Seq<ReviewDecisionInput>) -> Seq<DecisionView> {
    s.map_values(|d: ReviewDecisionInput| d@)
}

/// A copy of a decision.
pub fn copy_decision(d: &ReviewDecisionInput) -> (r: ReviewDecisionInput)
    ensures
        r@ == d@,
{
    ReviewDecisionInput {
        id: owned(d.id.as_str()),
        action: owned(d.action.as_str()),
        reason: copy_opt(&d.reason),
    }
}

// ---------------------------------------------------------------------------
// Reading
// ---------------------------------------------------------------------------

/// How many characters stand before the first `:`.
pub open spec fn before_colon(s: Seq<char>) -> nat
    decreases s.len(),
{
    if s.len() == 0 || s[0] == ':' {
        0
    } else {
        1 + before_colon(s.skip(1))
    }
}

/// What stands before the first `:` of a text, and what stands behind it where there is one.
pub open spec fn split_once(s: Seq<char>) -> (Seq<char>, Option<Seq<char>>) {
    let n = before_colon(s) as int;
    if n < s.len() {
        (s.take(n), Some(s.skip(n + 1)))
    } else {
        (s, None)
    }
}

/// A text, where it is not blank.
pub open spec fn not_blank(s: Option<Seq<char>>) -> Option<Seq<char>> {
    match s {
        Some(t) => if text::trimmed(t).len() == 0 {
            None
        } else {
            Some(t)
        },
        None => None,
    }
}

/// The decision that a text of the form `action:id` or `action:id:reason` stands for.
pub open spec fn decision_of(raw: Seq<char>) -> Result<DecisionView, Seq<char>> {
    let (first, behind) = split_once(raw);
    let (second, third) = match behind {
        Some(rest) => {
            let (id, reason) = split_once(rest);
            (Some(id), reason)
        },
        None => (None, None),
    };
    match not_blank(Some(first)) {
        None => Err("review decision is missing action"@),
        Some(action) => match not_blank(second) {
            None => Err("review decision is missing id"@),
            Some(id) => Ok(DecisionView { id, action, reason: not_blank(third) }),
        },
    }
}

/// Splits a text at its first `:`.
fn split_at_colon(s: &str) -> (r: (String, Option<String>))
    ensures
        (r.0@, text::opt_text(r.1)) == split_once(s@),
{
    let c = chars_of(s);
    let mut i: usize = 0;
    assert(c@.skip(0) =~= c@);
    while i < c.len() && c[i] != ':'
        invariant
            i <= c.len(),
            c@ == s@,
            before_colon(s@) == i + before_colon(c@.skip(i as int)),
        decreases c.len() - i,
    {
        assert(c@.skip(i as int).skip(1) =~= c@.skip(i + 1));
        i += 1;
    }
    assert(before_colon(s@) == i);
    if i < c.len() {
        let first = text_of(&c, 0, i);
        let rest = text_of(&c, i + 1, c.len());
        assert(first@ =~= s@.take(i as int));
        assert(rest@ =~= s@.skip(i + 1));
        (first, Some(rest))
    } else {
        (owned(s), None)
    }
}

/// Reads a decision of the form `action:id` or `action:id:reason`.
pub fn parse_review_decision(raw: &str) -> (r: Result<ReviewDecisionInput, String>)
    ensures
        match r {
            Ok(decision) => decision_of(raw@) == Ok::<DecisionView, Seq<char>>(decision@),
            Err(message) => decision_of(raw@) == Err::<DecisionView, Seq<char>>(message@),
        },
{
    let (action, behind) = split_at_colon(raw);
    if is_blank(action.as_str()) {
        return Err(owned("review decision is missing action"));
    }
    let rest = match behind {
        Some(rest) => rest,
        None => return Err(owned("review decision is missing id")),
    };
    let (id, third) = split_at_colon(rest.as_str());
    if is_blank(id.as_str()) {
        return Err(owned("review decision is missing id"));
    }
    let reason = match third {
        Some(reason) => if is_blank(reason.as_str()) {
            None
        } else {
            Some(reason)
        },
        None => None,
    };
    Ok(ReviewDecisionInput { id, action, reason })
}

/// The decisions that texts stand for; the first that stands for none is an error.
pub open spec fn decisions_of(raws: Seq<Seq<char>>) -> Result<Seq<DecisionView>, Seq<char>>
    decreases raws.len(),
{
    if raws.len() == 0 {
        Ok(Seq::empty())
    } else {
        match decisions_of(raws.drop_last()) {
            Err(e) => Err(e),
            Ok(rest) => match decision_of(raws.last()) {
                Err(e) => Err(e),
                Ok(decision) => Ok(rest.push(decision)),
            },
        }
    }
}

/// All decisions that were handed in: those of a file, and those given as texts.
pub open spec fn all_decisions(
    from_file: Seq<DecisionView>,
    raws: Seq<Seq<char>>,
) -> Result<Seq<DecisionView>, Seq<char>> {
    match decisions_of(raws) {
        Err(e) => Err(e),
        Ok(given) => if from_file.len() + given.len() == 0 {
            Err("review-apply requires --decision or --file"@)
        } else {
            Ok(from_file + given)
        },
    }
}

proof fn lemma_bad_text_stays(raws: Seq<Seq<char>>, n: int)
    requires
        0 <= n <= raws.len(),
        decisions_of(raws.take(n)) is Err,
    ensures
        decisions_of(raws) == decisions_of(raws.take(n)),
    decreases raws.len() - n,
{
    if n == raws.len() {
        assert(raws.take(n) =~= raws);
    } else {
        assert(raws.take(n + 1).drop_last() =~= raws.take(n));
        lemma_bad_text_stays(raws, n + 1);
    }
}

/// Gathers all decisions that were handed in.
pub fn load_review_decisions(
    from_file: Vec<ReviewDecisionInput>,
    inline_decisions: &Vec<String>,
) -> (r: Result<Vec<ReviewDecisionInput>, String>)
    ensures
        match r {
            Ok(decisions) => all_decisions(
                decision_views(from_file@),
                text::texts(inline_decisions@),
            ) == Ok::<Seq<DecisionView>, Seq<char>>(decision_views(decisions@)),
            Err(message) => all_decisions(
                decision_views(from_file@),
                text::texts(inline_decisions@),
            ) == Err::<Seq<DecisionView>, Seq<char>>(message@),
        },
{
    let ghost start = decision_views(from_file@);
    let ghost raws = text::texts(inline_decisions@);
    let mut decisions = from_file;
    let mut i: usize = 0;
    assert(raws.take(0) =~= Seq::<Seq<char>>::empty());
    assert(start + Seq::<DecisionView>::empty() =~= start);
    while i < inline_decisions.len()
        invariant
            i <= inline_decisions.len(),
            raws == text::texts(inline_decisions@),
            start == decision_views(from_file@),
            decisions_of(raws.take(i as int)) is Ok,
            decision_views(decisions@) == start + decisions_of(raws.take(i as int))->Ok_0,
        decreases inline_decisions.len() - i,
    {
        let ghost before = decisions@;
        assert(raws.take(i + 1).drop_last() =~= raws.take(i as int));
        assert(raws[i as int] == inline_decisions@[i as int]@);
        match parse_review_decision(inline_decisions[i].as_str()) {
            Ok(decision) => {
                let ghost made = decision@;
                decisions.push(decision);
                assert(decision_views(decisions@) =~= decision_views(before).push(made));
                assert(start + decisions_of(raws.take(i as int))->Ok_0.push(made) =~= (start
                    + decisions_of(raws.take(i as int))->Ok_0).push(made));
            },
            Err(message) => {
                proof {
                    lemma_bad_text_stays(raws, i + 1);
                }
                return Err(message);
            },
        }
        i += 1;
    }
    assert(raws.take(i as int) =~= raws);
    assert(decision_views(decisions@).len() == start.len() + decisions_of(raws)->Ok_0.len());
    if decisions.len() == 0 {
        return Err(owned("review-apply requires --decision or --file"));
    }
    Ok(decisions)
}

// ---------------------------------------------------------------------------
// Applying
// ---------------------------------------------------------------------------

/// What a decision asks for.
#[derive(Debug, Clone, Copy, PartialEq, Eq, Structural)]
pub enum ReviewKind {
    Promote,
    Archive,
    Keep,
}

/// What an action asks for, where it is known.
pub open spec fn kind_of(action: Seq<char>) -> Option<ReviewKind> {
    if action == "promote"@ {
        Some(ReviewKind::Promote)
    } else if action == "archive"@ {
        Some(ReviewKind::Archive)
    } else if action == "keep"@ {
        Some(ReviewKind::Keep)
    } else {
        None
    }
}

/// What an action asks for.
fn read_kind(action: &str) -> (r: Option<ReviewKind>)
    ensures
        r == kind_of(action@),
{
    if same_text(action, "promote") {
        Some(ReviewKind::Promote)
    } else if same_text(action, "archive") {
        Some(ReviewKind::Archive)
    } else if same_text(action, "keep") {
        Some(ReviewKind::Keep)
    } else {
        None
    }
}

/// The action under which a decision is written to the audit log.
pub open spec fn audit_words(kind: ReviewKind) -> Seq<char> {
    match kind {
        ReviewKind::Promote => "review_promote"@,
        ReviewKind::Archive => "review_archive"@,
        ReviewKind::Keep => "review_keep"@,
    }
}

/// A change to make and to write to the audit log: a memory is promoted, archived or left as it
/// is.
#[derive(Debug)]
pub struct ReviewAction {
    pub id: String,
    pub kind: ReviewKind,
    pub reason: Option<String>,
    pub audit_action: String,
}

/// A change to make, by its values.
#[verifier::ext_equal]
pub struct ReviewActionView {
    pub id: Seq<char>,
    pub kind: ReviewKind,
    pub reason: Option<Seq<char>>,
    pub audit_action: Seq<char>,
}

impl View for ReviewAction {
    type V = ReviewActionView;

    open spec fn view(&self) -> ReviewActionView {
        ReviewActionView {
            id: self.id@,
            kind: self.kind,
            reason: text::opt_text(self.reason),
            audit_action: self.audit_action@,
        }
    }
}

/// Changes by their values.
pub open spec fn action_views(s: Seq<ReviewAction>) -> Seq<ReviewActionView> {
    s.map_values(|a: ReviewAction| a@)
}

/// What was decided, in numbers.
#[derive(Debug)]
pub struct ReviewApplyReport {
    pub project_id: String,
    pub dry_run: bool,
    pub promoted: usize,
    pub archived: usize,
    pub kept: usize,
    pub decisions: Vec<ReviewDecisionInput>,
}

/// The changes to make in their order, and what to report when they were made.
#[derive(Debug)]
pub struct ReviewPlan {
    pub actions: Vec<ReviewAction>,
    pub outcome: Result<ReviewApplyReport, String>,
}

/// How many of the first decisions have an action that is known.
pub open spec fn known_prefix(decisions: Seq<DecisionView>) -> nat
    decreases decisions.len(),
{
    if decisions.len() == 0 || kind_of(decisions[0].action) is None {
        0
    } else {
        1 + known_prefix(decisions.skip(1))
    }
}

/// How many decisions ask for something.
pub open spec fn kind_count(decisions: Seq<DecisionView>, kind: ReviewKind) -> nat
    decreases decisions.len(),
{
    if decisions.len() == 0 {
        0
    } else {
        kind_count(decisions.drop_last(), kind) + (if kind_of(decisions.last().action) == Some(
            kind,
        ) {
            1nat
        } else {
            0
        })
    }
}

/// The changes that decisions ask for.
pub open spec fn actions_for(decisions: Seq<DecisionView>) -> Seq<ReviewActionView> {
    decisions.map_values(
        |d: DecisionView|
            ReviewActionView {
                id: d.id,
                kind: kind_of(d.action)->0,
                reason: d.reason,
                audit_action: audit_words(kind_of(d.action)->0),
            },
    )
}

/// Whether a plan is the one that decisions give: the changes up to the first action that is not
/// known, which is an error; none on a dry run.
pub open spec fn plans(
    plan: ReviewPlan,
    project_id: Seq<char>,
    decisions: Seq<DecisionView>,
    dry_run: bool,
) -> bool {
    let n = known_prefix(decisions) as int;
    &&& action_views(plan.actions@) == (if dry_run {
        Seq::empty()
    } else {
        actions_for(decisions.take(n))
    })
    &&& match plan.outcome {
        Ok(report) => {
            &&& n == decisions.len()
            &&& report.project_id@ == project_id
            &&& report.dry_run == dry_run
            &&& report.promoted == kind_count(decisions, ReviewKind::Promote)
            &&& report.archived == kind_count(decisions, ReviewKind::Archive)
            &&& report.kept == kind_count(decisions, ReviewKind::Keep)
            &&& decision_views(report.decisions@) == decisions
        },
        Err(message) => {
            &&& n < decisions.len()
            &&& message@ == "invalid review action `"@ + decisions[n].action
                + "`; use promote, archive, or keep"@
        },
    }
}

proof fn lemma_known_prefix(decisions: Seq<DecisionView>, n: int)
    requires
        0 <= n <= decisions.len(),
        forall|i: int| 0 <= i < n ==> kind_of((#[trigger] decisions[i]).action) is Some,
        n < decisions.len() ==> kind_of(decisions[n].action) is None,
    ensures
        known_prefix(decisions) == n,
    decreases decisions.len(),
{
    if n > 0 {
        let rest = decisions.skip(1);
        assert forall|i: int| 0 <= i < n - 1 implies kind_of(
            (#[trigger] rest[i]).action,
        ) is Some by {
            assert(rest[i] == decisions[i + 1]);
        }
        if n < decisions.len() {
            assert(rest[n - 1] == decisions[n]);
        }
        assert(kind_of(decisions[0].action) is Some);
        lemma_known_prefix(rest, n - 1);
    }
}

/// The audit action of a kind.
fn audit_text(kind: ReviewKind) -> (r: String)
    ensures
        r@ == audit_words(kind),
{
    match kind {
        ReviewKind::Promote => owned("review_promote"),
        ReviewKind::Archive => owned("review_archive"),
        ReviewKind::Keep => owned("review_keep"),
    }
}

/// Plans what decisions ask for.
pub fn apply_review_decisions(
    project_id: &str,
    decisions: &Vec<ReviewDecisionInput>,
    dry_run: bool,
) -> (r: ReviewPlan)
    ensures
        plans(r, project_id@, decision_views(decisions@), dry_run),
{
    let ghost all = decision_views(decisions@);
    let mut actions: Vec<ReviewAction> = Vec::new();
    let mut copies: Vec<ReviewDecisionInput> = Vec::new();
    let mut promoted: usize = 0;
    let mut archived: usize = 0;
    let mut kept: usize = 0;
    let mut i: usize = 0;
    proof {
        assert(all.take(0) =~= Seq::<DecisionView>::empty());
        assert(action_views(actions@) =~= actions_for(all.take(0)));
        assert(action_views(actions@) =~= Seq::<ReviewActionView>::empty());
    }
    while i < decisions.len()
        invariant
            i <= decisions.len(),
            all == decision_views(decisions@),
            promoted <= i,
            archived <= i,
            kept <= i,
            copies.len() == i,
            forall|j: int| 0 <= j < i ==> (#[trigger] copies@[j])@ == all[j],
            forall|j: int| 0 <= j < i ==> kind_of((#[trigger] all[j]).action) is Some,
            promoted == kind_count(all.take(i as int), ReviewKind::Promote),
            archived == kind_count(all.take(i as int), ReviewKind::Archive),
            kept == kind_count(all.take(i as int), ReviewKind::Keep),
            action_views(actions@) == (if dry_run {
                Seq::empty()
            } else {
                actions_for(all.take(i as int))
            }),
        decreases decisions.len() - i,
    {
        let decision = &decisions[i];
        let ghost before = actions@;
        assert(all[i as int] == decision@);
        assert(all.take(i + 1).drop_last() =~= all.take(i as int));
        match read_kind(decision.action.as_str()) {
            Some(kind) => {
                match kind {
                    ReviewKind::Promote => {
                        promoted += 1;
                    },
                    ReviewKind::Archive => {
                        archived += 1;
                    },
                    ReviewKind::Keep => {
                        kept += 1;
                    },
                }
                if !dry_run {
                    let action = ReviewAction {
                        id: owned(decision.id.as_str()),
                        kind,
                        reason: copy_opt(&decision.reason),
                        audit_action: audit_text(kind),
                    };
                    let ghost made = action@;
                    actions.push(action);
                    assert(action_views(actions@) =~= action_views(before).push(made));
                    assert(actions_for(all.take(i + 1)) =~= actions_for(all.take(i as int)).push(
                        made,
                    ));
                }
                copies.push(copy_decision(decision));
            },
            None => {
                proof {
                    lemma_known_prefix(all, i as int);
                }
                return ReviewPlan {
                    actions,
                    outcome: Err(
                        cat3(
                            "invalid review action `",
                            decision.action.as_str(),
                            "`; use promote, archive, or keep",
                        ),
                    ),
                };
            },
        }
        i += 1;
    }
    proof {
        lemma_known_prefix(all, i as int);
        assert(all.take(i as int) =~= all);
        assert(decision_views(copies@) =~= all);
    }
    ReviewPlan {
        actions,
        outcome: Ok(
            ReviewApplyReport {
                project_id: owned(project_id),
                dry_run,
                promoted,
                archived,
                kept,
                decisions: copies,
            },
        ),
    }
}

proof fn lemma_kinds_add_up(decisions: Seq<DecisionView>)
    requires
        forall|i: int| 0 <= i < decisions.len() ==> kind_of((#[trigger] decisions[i]).action) is Some,
    ensures
        kind_count(decisions, ReviewKind::Promote) + kind_count(decisions, ReviewKind::Archive)
            + kind_count(decisions, ReviewKind::Keep) == decisions.len(),
    decreases decisions.len(),
{
    if decisions.len() > 0 {
        let rest = decisions.drop_last();
        assert forall|i: int| 0 <= i < rest.len() implies kind_of(
            (#[trigger] rest[i]).action,
        ) is Some by {
            assert(rest[i] == decisions[i]);
        }
        assert(kind_of(decisions[decisions.len() - 1].action) is Some);
        lemma_kinds_add_up(rest);
    }
}

proof fn lemma_prefix_is_known(decisions: Seq<DecisionView>)
    ensures
        known_prefix(decisions) <= decisions.len(),
        forall|i: int|
            0 <= i < known_prefix(decisions) ==> kind_of(
                (#[trigger] decisions[i]).action,
            ) is Some,
    decreases decisions.len(),
{
    if decisions.len() > 0 && kind_of(decisions[0].action) is Some {
        let rest = decisions.skip(1);
        lemma_prefix_is_known(rest);
        assert forall|i: int| 0 <= i < known_prefix(decisions) implies kind_of(
            (#[trigger] decisions[i]).action,
        ) is Some by {
            if i > 0 {
                assert(rest[i - 1] == decisions[i]);
            }
        }
    }
}

/// A dry run changes nothing and tells what a run would report; every decision is counted once.
pub proof fn dry_run_foretells_the_review(
    dry: ReviewPlan,
    wet: ReviewPlan,
    project_id: Seq<char>,
    decisions: Seq<DecisionView>,
)
    requires
        plans(dry, project_id, decisions, true),
        plans(wet, project_id, decisions, false),
    ensures
        dry.actions@.len() == 0,
        dry.outcome is Ok <==> wet.outcome is Ok,
        dry.outcome matches Ok(a) ==> {
            let b = wet.outcome->Ok_0;
            &&& a.promoted == b.promoted
            &&& a.archived == b.archived
            &&& a.kept == b.kept
            &&& b.promoted + b.archived + b.kept == decisions.len()
            &&& wet.actions@.len() == decisions.len()
        },
{
    assert(action_views(dry.actions@).len() == 0);
    lemma_prefix_is_known(decisions);
    if dry.outcome is Ok {
        assert forall|i: int| 0 <= i < decisions.len() implies kind_of(
            (#[trigger] decisions[i]).action,
        ) is Some by {}
        lemma_kinds_add_up(decisions);
        assert(action_views(wet.actions@).len() == decisions.len());
    }
}

} // verus!
