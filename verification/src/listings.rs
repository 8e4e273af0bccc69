//! What the program prints, line by line.
use vstd::prelude::*;
use vstd::string::*;
use crate::maintenance::{
    MaintenanceCompactionReport,
    MaintenanceEmbeddingReport,
    MaintenanceFeedbackReport,
    MaintenanceReport,
    MaintenanceValidationReport,
};
use crate::records::{CodeRelation, CodeSymbol, MemoryEntity};
use crate::text::{cat2, cat4, decimal, join_texts};
use crate::text;

verus! {

// ---------------------------------------------------------------------------
// Lines
// ---------------------------------------------------------------------------

/// A number of things in digits.
pub open spec fn count_text(n: usize) -> Seq<char> {
    text::decimal_text(n as nat)
}

/// A truth value in words.
pub open spec fn truth_text(b: bool) -> Seq<char> {
    if b {
        "true"@
    } else {
        "false"@
    }
}

/// A line of its own.
pub open spec fn one_line(label: Seq<char>, value: Seq<char>) -> Seq<Seq<char>> {
    seq![label + value]
}

/// A line of its own, where there is a value.
pub open spec fn line_if_some(label: Seq<char>, value: Option<String>) -> Seq<Seq<char>> {
    match value {
        Some(value) => one_line(label, value@),
        None => Seq::empty(),
    }
}

/// A line of its own, where there are values.
pub open spec fn line_if_any(label: Seq<char>, values: Seq<String>, separator: Seq<char>) -> Seq<
    Seq<char>,
> {
    if values.len() > 0 {
        one_line(label, text::joined(text::texts(values), separator))
    } else {
        Seq::empty()
    }
}

/// Appends a line.
pub(crate) fn put(lines: &mut Vec<String>, label: &str, value: &str)
    ensures
        text::texts(final(lines)@) == text::texts(old(lines)@) + one_line(label@, value@),
{
    let line = cat2(label, value);
    let ghost words = line@;
    lines.push(line);
    assert(text::texts(lines@) =~= text::texts(old(lines)@) + one_line(label@, value@));
}

/// Appends a line with a number.
pub(crate) fn put_count(lines: &mut Vec<String>, label: &str, n: usize)
    ensures
        text::texts(final(lines)@) == text::texts(old(lines)@) + one_line(label@, count_text(n)),
{
    let value = decimal(n as u64);
    put(lines, label, value.as_str());
}

/// Appends a line with a truth value.
pub(crate) fn put_truth(lines: &mut Vec<String>, label: &str, b: bool)
    ensures
        text::texts(final(lines)@) == text::texts(old(lines)@) + one_line(label@, truth_text(b)),
{
    if b {
        put(lines, label, "true");
    } else {
        put(lines, label, "false");
    }
}

/// Appends a line where there is a value.
pub(crate) fn put_some(lines: &mut Vec<String>, label: &str, value: &Option<String>)
    ensures
        text::texts(final(lines)@) == text::texts(old(lines)@) + line_if_some(label@, *value),
{
    match value {
        Some(value) => put(lines, label, value.as_str()),
        None => {
            assert(text::texts(lines@) + Seq::<Seq<char>>::empty() =~= text::texts(lines@));
        },
    }
}

/// Appends a line where there are values.
pub(crate) fn put_any(lines: &mut Vec<String>, label: &str, values: &Vec<String>, separator: &str)
    ensures
        text::texts(final(lines)@) == text::texts(old(lines)@) + line_if_any(
            label@,
            values@,
            separator@,
        ),
{
    if values.len() > 0 {
        let list = join_texts(values.as_slice(), separator);
        put(lines, label, list.as_str());
    } else {
        assert(text::texts(lines@) + Seq::<Seq<char>>::empty() =~= text::texts(lines@));
    }
}

/// A line for each of several values.
pub open spec fn line_each(label: Seq<char>, values: Seq<String>) -> Seq<Seq<char>> {
    values.map_values(|value: String| label + value@)
}

/// Appends a line for each of several values.
pub(crate) fn put_each(lines: &mut Vec<String>, label: &str, values: &Vec<String>)
    ensures
        text::texts(final(lines)@) == text::texts(old(lines)@) + line_each(label@, values@),
{
    let ghost a = text::texts(lines@);
    let mut i: usize = 0;
    assert(a + line_each(label@, values@.take(0)) =~= a);
    while i < values.len()
        invariant
            i <= values.len(),
            text::texts(lines@) == a + line_each(label@, values@.take(i as int)),
        decreases values.len() - i,
    {
        put(lines, label, values[i].as_str());
        assert(a + line_each(label@, values@.take(i + 1)) =~= a + line_each(
            label@,
            values@.take(i as int),
        ) + one_line(label@, values@[i as int]@));
        i += 1;
    }
    assert(values@.take(i as int) =~= values@);
}

// ---------------------------------------------------------------------------
// Maintenance
// ---------------------------------------------------------------------------

/// The lines of the validation step.
pub open spec fn validation_lines(r: MaintenanceValidationReport) -> Seq<Seq<char>> {
    one_line("validation_status: "@, r.status@) + one_line("validation_model: "@, r.model@)
        + one_line("pending: "@, count_text(r.pending)) + one_line(
        "validation_apply: "@,
        truth_text(r.apply),
    ) + one_line("validation_promote: "@, count_text(r.promote)) + one_line(
        "validation_archive: "@,
        count_text(r.archive),
    ) + one_line("validation_keep: "@, count_text(r.keep)) + line_if_some(
        "validation_error: "@,
        r.error,
    )
}

/// The lines of the validation step.
fn list_validation(r: &MaintenanceValidationReport) -> (lines: Vec<String>)
    ensures
        text::texts(lines@) == validation_lines(*r),
{
    let mut lines: Vec<String> = Vec::new();
    put(&mut lines, "validation_status: ", r.status.as_str());
    assert(text::texts(lines@) =~= one_line("validation_status: "@, r.status@));
    put(&mut lines, "validation_model: ", r.model.as_str());
    put_count(&mut lines, "pending: ", r.pending);
    put_truth(&mut lines, "validation_apply: ", r.apply);
    put_count(&mut lines, "validation_promote: ", r.promote);
    put_count(&mut lines, "validation_archive: ", r.archive);
    put_count(&mut lines, "validation_keep: ", r.keep);
    put_some(&mut lines, "validation_error: ", &r.error);
    lines
}

/// The lines of the compaction step.
pub open spec fn compaction_lines(r: MaintenanceCompactionReport) -> Seq<Seq<char>> {
    one_line("compaction_status: "@, r.status@) + one_line(
        "compaction_candidates: "@,
        count_text(r.candidate_memories),
    ) + one_line("compaction_min_memories: "@, count_text(r.min_memories)) + line_if_some(
        "compaction_error: "@,
        r.error,
    ) + (match r.proposal {
        Some(proposal) => one_line("compaction_summary_kind: "@, proposal.summary_kind@) + one_line(
            "compaction_source_memories: "@,
            text::decimal_text(proposal.source_ids@.len()),
        ),
        None => Seq::empty(),
    }) + (match r.application {
        Some(application) => one_line("compaction_summary_id: "@, application.summary_id@)
            + one_line("compaction_inserted: "@, truth_text(application.inserted)) + line_if_some(
            "compaction_duplicate_of: "@,
            application.duplicate_of,
        ) + one_line(
            "compaction_archived_source_memories: "@,
            count_text(application.archived_source_memories),
        ),
        None => Seq::empty(),
    })
}

/// The lines of the compaction step.
fn list_compaction(r: &MaintenanceCompactionReport) -> (lines: Vec<String>)
    ensures
        text::texts(lines@) == compaction_lines(*r),
{
    let mut lines: Vec<String> = Vec::new();
    put(&mut lines, "compaction_status: ", r.status.as_str());
    assert(text::texts(lines@) =~= one_line("compaction_status: "@, r.status@));
    put_count(&mut lines, "compaction_candidates: ", r.candidate_memories);
    put_count(&mut lines, "compaction_min_memories: ", r.min_memories);
    put_some(&mut lines, "compaction_error: ", &r.error);
    let ghost a = text::texts(lines@);
    if let Some(proposal) = &r.proposal {
        put(&mut lines, "compaction_summary_kind: ", proposal.summary_kind.as_str());
        put_count(&mut lines, "compaction_source_memories: ", proposal.source_ids.len());
        assert(text::texts(lines@) =~= a + (one_line(
            "compaction_summary_kind: "@,
            proposal.summary_kind@,
        ) + one_line(
            "compaction_source_memories: "@,
            text::decimal_text(proposal.source_ids@.len()),
        )));
    } else {
        assert(a + Seq::<Seq<char>>::empty() =~= a);
    }
    let ghost b = text::texts(lines@);
    if let Some(application) = &r.application {
        put(&mut lines, "compaction_summary_id: ", application.summary_id.as_str());
        put_truth(&mut lines, "compaction_inserted: ", application.inserted);
        put_some(&mut lines, "compaction_duplicate_of: ", &application.duplicate_of);
        put_count(
            &mut lines,
            "compaction_archived_source_memories: ",
            application.archived_source_memories,
        );
        assert(text::texts(lines@) =~= b + (one_line(
            "compaction_summary_id: "@,
            application.summary_id@,
        ) + one_line("compaction_inserted: "@, truth_text(application.inserted)) + line_if_some(
            "compaction_duplicate_of: "@,
            application.duplicate_of,
        ) + one_line(
            "compaction_archived_source_memories: "@,
            count_text(application.archived_source_memories),
        )));
    } else {
        assert(b + Seq::<Seq<char>>::empty() =~= b);
    }
    lines
}

/// The lines of the feedback step.
pub open spec fn feedback_lines(r: MaintenanceFeedbackReport) -> Seq<Seq<char>> {
    one_line("feedback_status: "@, r.status@) + one_line("feedback_apply: "@, truth_text(r.apply))
        + one_line("feedback_considered_events: "@, count_text(r.considered_events)) + one_line(
        "feedback_unapplied_events: "@,
        count_text(r.unapplied_events),
    ) + one_line("feedback_applied_events: "@, count_text(r.applied_events)) + one_line(
        "feedback_helpful_memories_updated: "@,
        count_text(r.helpful_memories_updated),
    ) + one_line(
        "feedback_unhelpful_memories_updated: "@,
        count_text(r.unhelpful_memories_updated),
    ) + line_if_some("feedback_error: "@, r.error)
}

/// The lines of the feedback step.
fn list_feedback(r: &MaintenanceFeedbackReport) -> (lines: Vec<String>)
    ensures
        text::texts(lines@) == feedback_lines(*r),
{
    let mut lines: Vec<String> = Vec::new();
    put(&mut lines, "feedback_status: ", r.status.as_str());
    assert(text::texts(lines@) =~= one_line("feedback_status: "@, r.status@));
    put_truth(&mut lines, "feedback_apply: ", r.apply);
    put_count(&mut lines, "feedback_considered_events: ", r.considered_events);
    put_count(&mut lines, "feedback_unapplied_events: ", r.unapplied_events);
    put_count(&mut lines, "feedback_applied_events: ", r.applied_events);
    put_count(&mut lines, "feedback_helpful_memories_updated: ", r.helpful_memories_updated);
    put_count(&mut lines, "feedback_unhelpful_memories_updated: ", r.unhelpful_memories_updated);
    put_some(&mut lines, "feedback_error: ", &r.error);
    lines
}

/// The lines of the embedding step.
pub open spec fn embedding_lines(r: MaintenanceEmbeddingReport) -> Seq<Seq<char>> {
    one_line("embedding_scope: "@, r.scope@) + one_line("embedding_apply: "@, truth_text(r.apply))
        + one_line("memory_model: "@, r.memory_model@) + one_line("code_model: "@, r.code_model@)
        + one_line("memories_missing_embeddings: "@, count_text(r.memories_missing)) + one_line(
        "code_symbols_missing_embeddings: "@,
        count_text(r.code_symbols_missing),
    ) + one_line("memories_embedded: "@, count_text(r.memories_embedded)) + one_line(
        "code_symbols_embedded: "@,
        count_text(r.code_symbols_embedded),
    )
}

/// The lines of the embedding step.
fn list_embeddings(r: &MaintenanceEmbeddingReport) -> (lines: Vec<String>)
    ensures
        text::texts(lines@) == embedding_lines(*r),
{
    let mut lines: Vec<String> = Vec::new();
    put(&mut lines, "embedding_scope: ", r.scope.as_str());
    assert(text::texts(lines@) =~= one_line("embedding_scope: "@, r.scope@));
    put_truth(&mut lines, "embedding_apply: ", r.apply);
    put(&mut lines, "memory_model: ", r.memory_model.as_str());
    put(&mut lines, "code_model: ", r.code_model.as_str());
    put_count(&mut lines, "memories_missing_embeddings: ", r.memories_missing);
    put_count(&mut lines, "code_symbols_missing_embeddings: ", r.code_symbols_missing);
    put_count(&mut lines, "memories_embedded: ", r.memories_embedded);
    put_count(&mut lines, "code_symbols_embedded: ", r.code_symbols_embedded);
    lines
}

/// The lines of a maintenance run.
pub open spec fn maintenance_lines(r: MaintenanceReport) -> Seq<Seq<char>> {
    one_line("project: "@, r.project_id@) + one_line("apply: "@, truth_text(r.apply)) + (
    match r.backup {
        Some(backup) => one_line("backup: "@, backup.output@) + one_line(
            "backup_size_bytes: "@,
            text::decimal_text(backup.size_bytes as nat),
        ),
        None => Seq::empty(),
    }) + (match r.validation {
        Some(part) => validation_lines(part),
        None => Seq::empty(),
    }) + (match r.compaction {
        Some(part) => compaction_lines(part),
        None => Seq::empty(),
    }) + (match r.feedback {
        Some(part) => feedback_lines(part),
        None => Seq::empty(),
    }) + (match r.embeddings {
        Some(part) => embedding_lines(part),
        None => Seq::empty(),
    }) + line_each("warning: "@, r.warnings@)
}

/// Appends lines.
pub(crate) fn put_all(lines: &mut Vec<String>, more: Vec<String>)
    ensures
        text::texts(final(lines)@) == text::texts(old(lines)@) + text::texts(more@),
{
    let mut rest = more;
    lines.append(&mut rest);
    assert(text::texts(lines@) =~= text::texts(old(lines)@) + text::texts(more@));
}

/// The lines of a maintenance run.
pub fn list_maintenance_report(report: &MaintenanceReport) -> (lines: Vec<String>)
    ensures
        text::texts(lines@) == maintenance_lines(*report),
{
    let mut lines: Vec<String> = Vec::new();
    put(&mut lines, "project: ", report.project_id.as_str());
    assert(text::texts(lines@) =~= one_line("project: "@, report.project_id@));
    put_truth(&mut lines, "apply: ", report.apply);
    let ghost a = text::texts(lines@);
    if let Some(backup) = &report.backup {
        put(&mut lines, "backup: ", backup.output.as_str());
        let size = decimal(backup.size_bytes);
        put(&mut lines, "backup_size_bytes: ", size.as_str());
        assert(text::texts(lines@) =~= a + (one_line("backup: "@, backup.output@) + one_line(
            "backup_size_bytes: "@,
            text::decimal_text(backup.size_bytes as nat),
        )));
    } else {
        assert(a + Seq::<Seq<char>>::empty() =~= a);
    }
    let ghost b = text::texts(lines@);
    if let Some(part) = &report.validation {
        put_all(&mut lines, list_validation(part));
    } else {
        assert(b + Seq::<Seq<char>>::empty() =~= b);
    }
    let ghost c = text::texts(lines@);
    if let Some(part) = &report.compaction {
        put_all(&mut lines, list_compaction(part));
    } else {
        assert(c + Seq::<Seq<char>>::empty() =~= c);
    }
    let ghost d = text::texts(lines@);
    if let Some(part) = &report.feedback {
        put_all(&mut lines, list_feedback(part));
    } else {
        assert(d + Seq::<Seq<char>>::empty() =~= d);
    }
    let ghost e = text::texts(lines@);
    if let Some(part) = &report.embeddings {
        put_all(&mut lines, list_embeddings(part));
    } else {
        assert(e + Seq::<Seq<char>>::empty() =~= e);
    }
    put_each(&mut lines, "warning: ", &report.warnings);
    lines
}

// ---------------------------------------------------------------------------
// Records
// ---------------------------------------------------------------------------

/// The lines of an entity, after an empty one.
pub open spec fn entity_lines(e: MemoryEntity) -> Seq<Seq<char>> {
    one_line(""@, ""@) + one_line("entity_id: "@, e.id@) + one_line("project: "@, e.project_id@)
        + one_line("entity_type: "@, e.entity_type@) + one_line("name: "@, e.name@) + line_if_any(
        "aliases: "@,
        e.aliases@,
        ","@,
    ) + line_if_some("description: "@, e.description)
}

/// The lines of an entity.
pub fn list_memory_entity(entity: &MemoryEntity) -> (lines: Vec<String>)
    ensures
        text::texts(lines@) == entity_lines(*entity),
{
    let mut lines: Vec<String> = Vec::new();
    put(&mut lines, "", "");
    assert(text::texts(lines@) =~= one_line(""@, ""@));
    put(&mut lines, "entity_id: ", entity.id.as_str());
    put(&mut lines, "project: ", entity.project_id.as_str());
    put(&mut lines, "entity_type: ", entity.entity_type.as_str());
    put(&mut lines, "name: ", entity.name.as_str());
    put_any(&mut lines, "aliases: ", &entity.aliases, ",");
    put_some(&mut lines, "description: ", &entity.description);
    lines
}

/// Where a symbol stands.
pub open spec fn symbol_place(s: CodeSymbol) -> Seq<char> {
    s.file_path@ + ":"@ + text::decimal_text(s.start_line as nat) + "-"@ + text::decimal_text(
        s.end_line as nat,
    )
}

/// The lines of a symbol.
pub open spec fn symbol_lines(s: CodeSymbol, with_body: bool) -> Seq<Seq<char>> {
    one_line("id: "@, s.id@) + one_line("file: "@, symbol_place(s)) + one_line("kind: "@, s.kind@)
        + one_line("name: "@, s.name@) + one_line("signature: "@, s.signature@) + line_if_some(
        "parent_id: "@,
        s.parent_id,
    ) + (if with_body {
        one_line(""@, s.body@)
    } else {
        Seq::empty()
    })
}

/// The lines of a symbol.
pub fn list_code_symbol(symbol: &CodeSymbol, with_body: bool) -> (lines: Vec<String>)
    ensures
        text::texts(lines@) == symbol_lines(*symbol, with_body),
{
    let mut lines: Vec<String> = Vec::new();
    put(&mut lines, "id: ", symbol.id.as_str());
    assert(text::texts(lines@) =~= one_line("id: "@, symbol.id@));
    let start = decimal(symbol.start_line as u64);
    let end = decimal(symbol.end_line as u64);
    let mut place = cat4(symbol.file_path.as_str(), ":", start.as_str(), "-");
    place.append(end.as_str());
    put(&mut lines, "file: ", place.as_str());
    put(&mut lines, "kind: ", symbol.kind.as_str());
    put(&mut lines, "name: ", symbol.name.as_str());
    put(&mut lines, "signature: ", symbol.signature.as_str());
    put_some(&mut lines, "parent_id: ", &symbol.parent_id);
    if with_body {
        put(&mut lines, "", symbol.body.as_str());
    } else {
        assert(text::texts(lines@) + Seq::<Seq<char>>::empty() =~= text::texts(lines@));
    }
    lines
}

/// The lines of a relation, after an empty one.
pub open spec fn relation_lines(r: CodeRelation) -> Seq<Seq<char>> {
    one_line(""@, ""@) + one_line("id: "@, r.id@) + one_line("kind: "@, r.relation_kind@)
        + one_line("from_file: "@, r.from_file_path@) + line_if_some(
        "from_symbol_id: "@,
        r.from_symbol_id,
    ) + one_line("target: "@, r.target_name@) + line_if_some(
        "target_symbol_id: "@,
        r.target_symbol_id,
    )
}

/// The lines of a relation.
pub fn list_code_relation(relation: &CodeRelation) -> (lines: Vec<String>)
    ensures
        text::texts(lines@) == relation_lines(*relation),
{
    let mut lines: Vec<String> = Vec::new();
    put(&mut lines, "", "");
    assert(text::texts(lines@) =~= one_line(""@, ""@));
    put(&mut lines, "id: ", relation.id.as_str());
    put(&mut lines, "kind: ", relation.relation_kind.as_str());
    put(&mut lines, "from_file: ", relation.from_file_path.as_str());
    put_some(&mut lines, "from_symbol_id: ", &relation.from_symbol_id);
    put(&mut lines, "target: ", relation.target_name.as_str());
    put_some(&mut lines, "target_symbol_id: ", &relation.target_symbol_id);
    lines
}

// ---------------------------------------------------------------------------
// The context plan
// ---------------------------------------------------------------------------

/// How much of what goes into the context of a task.
#[derive(Debug, Clone, PartialEq, Eq)]
pub struct ContextPlan {
    pub task_type: String,
    pub effective_token_budget: usize,
    pub memory_limit: usize,
    pub core_memory_limit: usize,
    pub code_limit: usize,
    pub graph_limit: usize,
    pub code_memory_limit: usize,
    pub memories: bool,
    pub memory_graph: bool,
    pub code_index: bool,
    pub code_neighborhood: bool,
    pub code_memories: bool,
    pub eval_history: bool,
}

/// The text of a context plan.
pub open spec fn context_plan_text(p: ContextPlan) -> Seq<char> {
    "\nCONTEXT ACCESS PLAN\n- task_type: "@ + p.task_type@ + "\n- token_budget: "@ + count_text(
        p.effective_token_budget,
    ) + "\n- limits: memory="@ + count_text(p.memory_limit) + " core="@ + count_text(
        p.core_memory_limit,
    ) + " code="@ + count_text(p.code_limit) + " graph="@ + count_text(p.graph_limit)
        + " code_memories="@ + count_text(p.code_memory_limit) + "\n- sources: memories="@
        + truth_text(p.memories) + " graph="@ + truth_text(p.memory_graph) + " code_index="@
        + truth_text(p.code_index) + " code_neighborhood="@ + truth_text(p.code_neighborhood)
        + " code_memories="@ + truth_text(p.code_memories) + " eval_history="@ + truth_text(
        p.eval_history,
    ) + "\n"@
}

/// Appends words and a number.
fn append_count(out: &mut String, words: &str, n: usize)
    ensures
        final(out)@ == old(out)@ + words@ + count_text(n),
{
    let value = decimal(n as u64);
    out.append(words);
    out.append(value.as_str());
}

/// Appends words and a truth value.
fn append_truth(out: &mut String, words: &str, b: bool)
    ensures
        final(out)@ == old(out)@ + words@ + truth_text(b),
{
    out.append(words);
    if b {
        out.append("true");
    } else {
        out.append("false");
    }
}

/// The text of a context plan.
pub fn format_cli_context_plan(plan: &ContextPlan) -> (r: String)
    ensures
        r@ == context_plan_text(*plan),
{
    let mut r = cat2("\nCONTEXT ACCESS PLAN\n- task_type: ", plan.task_type.as_str());
    append_count(&mut r, "\n- token_budget: ", plan.effective_token_budget);
    append_count(&mut r, "\n- limits: memory=", plan.memory_limit);
    append_count(&mut r, " core=", plan.core_memory_limit);
    append_count(&mut r, " code=", plan.code_limit);
    append_count(&mut r, " graph=", plan.graph_limit);
    append_count(&mut r, " code_memories=", plan.code_memory_limit);
    append_truth(&mut r, "\n- sources: memories=", plan.memories);
    append_truth(&mut r, " graph=", plan.memory_graph);
    append_truth(&mut r, " code_index=", plan.code_index);
    append_truth(&mut r, " code_neighborhood=", plan.code_neighborhood);
    append_truth(&mut r, " code_memories=", plan.code_memories);
    append_truth(&mut r, " eval_history=", plan.eval_history);
    r.append("\n");
    r
}

/// How much of the graph goes into the context of a task: as much as anything else, and at least
/// eight.
pub fn graph_limit(plan: &ContextPlan, fragments: usize) -> (r: usize)
    ensures
        r >= plan.graph_limit && r >= fragments && r >= plan.memory_limit && r >= plan.code_limit
            && r >= 8,
        r == plan.graph_limit || r == fragments || r == plan.memory_limit || r == plan.code_limit
            || r == 8,
{
    let mut r: usize = 8;
    if plan.graph_limit > r {
        r = plan.graph_limit;
    }
    if fragments > r {
        r = fragments;
    }
    if plan.memory_limit > r {
        r = plan.memory_limit;
    }
    if plan.code_limit > r {
        r = plan.code_limit;
    }
    r
}

} // verus!
