//! What listings tell: each thing under its word, one line each, and what is not there not at all.
use vstd::prelude::*;
use vstd::string::*;
use crate::eval_report::{EvalCaseReport, EvalTotals};
use crate::listings::ContextPlan;
use crate::maintenance::{
    MaintenanceCompactionReport, MaintenanceEmbeddingReport, MaintenanceFeedbackReport,
    MaintenanceReport, MaintenanceValidationReport,
};
use crate::memory_writes::CompactionProposal;
use crate::record_listings::{CodeMemory, CodeRouteHint, MemoryNumbers, ProjectRecord};
use crate::records::{CodeRelation, CodeSymbol, Memory, MemoryEdge, MemoryEntity, MemoryFact};
use crate::report_listings::{
    CaseScores, CodeAssistReport, CodePattern, CodePatternReport, CodeReasonReport, EvalRun,
    GraphExtractionProposal, GraphExtractionReport, PreviousRun, ProposedEdge, ProposedEntity,
    ProposedFact, ScoredSymbol,
};
use crate::{listings, record_listings, report_listings, text, text_laws};

verus! {

/// A line for what is there, and none for what is not.
pub open spec fn told(word: Seq<char>, value: Option<String>) -> Seq<Seq<char>> {
    if value is Some {
        seq![word + value->0@]
    } else {
        Seq::empty()
    }
}

/// A line for a list, unless it is empty.
pub open spec fn told_all(word: Seq<char>, values: Seq<String>, between: Seq<char>) -> Seq<
    Seq<char>,
> {
    if values.len() == 0 {
        Seq::empty()
    } else {
        seq![word + text::joined(text::texts(values), between)]
    }
}

/// The word for whether something is so.
pub open spec fn yes_or_no(b: bool) -> Seq<char> {
    if b {
        "true"@
    } else {
        "false"@
    }
}

/// An empty line.
pub open spec fn blank() -> Seq<char> {
    Seq::empty()
}

proof fn lemma_blank()
    ensures
        ""@ + ""@ == blank(),
        forall|s: Seq<char>| #[trigger] (""@ + s) == s,
        forall|s: Seq<char>| #[trigger] (s + ""@) == s,
{
    reveal_strlit("");
    assert(""@ =~= Seq::empty());
    assert(""@ + ""@ =~= blank());
    assert forall|s: Seq<char>| #[trigger] (""@ + s) == s by {
        assert(""@ + s =~= s);
    }
    assert forall|s: Seq<char>| #[trigger] (s + ""@) == s by {
        assert(s + ""@ =~= s);
    }
}

/// An entity is told with its id, project, type and name, and with its other names and what it is
/// where these are known.
pub proof fn entities_are_told(e: MemoryEntity)
    ensures
        listings::entity_lines(e) == seq![
            blank(),
            "entity_id: "@ + e.id@,
            "project: "@ + e.project_id@,
            "entity_type: "@ + e.entity_type@,
            "name: "@ + e.name@,
        ] + told_all("aliases: "@, e.aliases@, ","@) + told("description: "@, e.description),
{
    lemma_blank();
    assert(listings::entity_lines(e) =~= seq![
        blank(),
        "entity_id: "@ + e.id@,
        "project: "@ + e.project_id@,
        "entity_type: "@ + e.entity_type@,
        "name: "@ + e.name@,
    ] + told_all("aliases: "@, e.aliases@, ","@) + told("description: "@, e.description));
}

/// A symbol is told with its id, its file from its first line to its last, its kind, its name and
/// its signature, with its parent where it has one, and with its body where that is asked for.
pub proof fn symbols_are_told(s: CodeSymbol, with_body: bool)
    ensures
        listings::symbol_lines(s, with_body) == seq![
            "id: "@ + s.id@,
            "file: "@ + (s.file_path@ + ":"@ + text::decimal_text(s.start_line as nat) + "-"@
                + text::decimal_text(s.end_line as nat)),
            "kind: "@ + s.kind@,
            "name: "@ + s.name@,
            "signature: "@ + s.signature@,
        ] + told("parent_id: "@, s.parent_id) + (if with_body {
            seq![s.body@]
        } else {
            Seq::empty()
        }),
{
    lemma_blank();
    assert(listings::symbol_lines(s, with_body) =~= seq![
        "id: "@ + s.id@,
        "file: "@ + (s.file_path@ + ":"@ + text::decimal_text(s.start_line as nat) + "-"@
            + text::decimal_text(s.end_line as nat)),
        "kind: "@ + s.kind@,
        "name: "@ + s.name@,
        "signature: "@ + s.signature@,
    ] + told("parent_id: "@, s.parent_id) + (if with_body {
        seq![s.body@]
    } else {
        Seq::empty()
    }));
}

/// A relation of code is told with its id and kind, where it comes from and what it leads to, by
/// the ids of the symbols where these are known.
pub proof fn code_relations_are_told(r: CodeRelation)
    ensures
        listings::relation_lines(r) == seq![
            blank(),
            "id: "@ + r.id@,
            "kind: "@ + r.relation_kind@,
            "from_file: "@ + r.from_file_path@,
        ] + told("from_symbol_id: "@, r.from_symbol_id) + seq!["target: "@ + r.target_name@] + told(
            "target_symbol_id: "@,
            r.target_symbol_id,
        ),
{
    lemma_blank();
    assert(listings::relation_lines(r) =~= seq![
        blank(),
        "id: "@ + r.id@,
        "kind: "@ + r.relation_kind@,
        "from_file: "@ + r.from_file_path@,
    ] + told("from_symbol_id: "@, r.from_symbol_id) + seq!["target: "@ + r.target_name@] + told(
        "target_symbol_id: "@,
        r.target_symbol_id,
    ));
}

/// A relation between entities is told from the one it comes from to the one it leads to, each by
/// name and id.
pub proof fn relations_of_entities_are_told(e: MemoryEdge, confidence: Seq<char>)
    ensures
        record_listings::edge_lines(e, confidence) == seq![
            blank(),
            "edge_id: "@ + e.id@,
            "project: "@ + e.project_id@,
            "from: "@ + (e.from_entity_name@ + " ("@ + e.from_entity_id@ + ")"@),
            "relation_type: "@ + e.relation_type@,
            "to: "@ + (e.to_entity_name@ + " ("@ + e.to_entity_id@ + ")"@),
        ] + told("memory_id: "@, e.memory_id) + seq![
            "confidence: "@ + confidence,
            "observed_at: "@ + e.observed_at@,
        ],
{
    lemma_blank();
    assert(record_listings::edge_lines(e, confidence) =~= seq![
        blank(),
        "edge_id: "@ + e.id@,
        "project: "@ + e.project_id@,
        "from: "@ + (e.from_entity_name@ + " ("@ + e.from_entity_id@ + ")"@),
        "relation_type: "@ + e.relation_type@,
        "to: "@ + (e.to_entity_name@ + " ("@ + e.to_entity_id@ + ")"@),
    ] + told("memory_id: "@, e.memory_id) + seq![
        "confidence: "@ + confidence,
        "observed_at: "@ + e.observed_at@,
    ]);
}

/// A fact is told with what it is of and rests on, where these are known, what it says, how sure it
/// is and when it was observed.
pub proof fn facts_are_told(f: MemoryFact, confidence: Seq<char>)
    ensures
        record_listings::fact_lines(f, confidence) == seq![
            blank(),
            "fact_id: "@ + f.id@,
            "project: "@ + f.project_id@,
        ] + told("entity_id: "@, f.entity_id) + told("memory_id: "@, f.memory_id) + seq![
            "predicate: "@ + f.predicate@,
            "value: "@ + f.value@,
            "confidence: "@ + confidence,
            "observed_at: "@ + f.observed_at@,
        ],
{
    lemma_blank();
    assert(record_listings::fact_lines(f, confidence) =~= seq![
        blank(),
        "fact_id: "@ + f.id@,
        "project: "@ + f.project_id@,
    ] + told("entity_id: "@, f.entity_id) + told("memory_id: "@, f.memory_id) + seq![
        "predicate: "@ + f.predicate@,
        "value: "@ + f.value@,
        "confidence: "@ + confidence,
        "observed_at: "@ + f.observed_at@,
    ]);
}

/// A plan tells its kind of task, its budget, a limit for each source, and which sources it uses.
pub proof fn plans_are_told(p: ContextPlan)
    ensures
        ({
            let n = |i: usize| text::decimal_text(i as nat);
            listings::context_plan_text(p) == "\nCONTEXT ACCESS PLAN\n- task_type: "@ + p.task_type@
                + "\n- token_budget: "@ + n(p.effective_token_budget) + "\n- limits: memory="@ + n(
                p.memory_limit,
            ) + " core="@ + n(p.core_memory_limit) + " code="@ + n(p.code_limit) + " graph="@ + n(
                p.graph_limit,
            ) + " code_memories="@ + n(p.code_memory_limit) + "\n- sources: memories="@ + yes_or_no(
                p.memories,
            ) + " graph="@ + yes_or_no(p.memory_graph) + " code_index="@ + yes_or_no(p.code_index)
                + " code_neighborhood="@ + yes_or_no(p.code_neighborhood) + " code_memories="@
                + yes_or_no(p.code_memories) + " eval_history="@ + yes_or_no(p.eval_history)
                + "\n"@
        }),
{
}

/// What was validated is told with its counts, and with the error where there was one.
pub proof fn validations_are_told(r: MaintenanceValidationReport)
    ensures
        listings::validation_lines(r) == seq![
            "validation_status: "@ + r.status@,
            "validation_model: "@ + r.model@,
            "pending: "@ + text::decimal_text(r.pending as nat),
            "validation_apply: "@ + yes_or_no(r.apply),
            "validation_promote: "@ + text::decimal_text(r.promote as nat),
            "validation_archive: "@ + text::decimal_text(r.archive as nat),
            "validation_keep: "@ + text::decimal_text(r.keep as nat),
        ] + told("validation_error: "@, r.error),
{
    assert(listings::validation_lines(r) =~= seq![
        "validation_status: "@ + r.status@,
        "validation_model: "@ + r.model@,
        "pending: "@ + text::decimal_text(r.pending as nat),
        "validation_apply: "@ + yes_or_no(r.apply),
        "validation_promote: "@ + text::decimal_text(r.promote as nat),
        "validation_archive: "@ + text::decimal_text(r.archive as nat),
        "validation_keep: "@ + text::decimal_text(r.keep as nat),
    ] + told("validation_error: "@, r.error));
}

/// What feedback did is told with its counts, and with the error where there was one.
pub proof fn feedback_is_told(r: MaintenanceFeedbackReport)
    ensures
        listings::feedback_lines(r) == seq![
            "feedback_status: "@ + r.status@,
            "feedback_apply: "@ + yes_or_no(r.apply),
            "feedback_considered_events: "@ + text::decimal_text(r.considered_events as nat),
            "feedback_unapplied_events: "@ + text::decimal_text(r.unapplied_events as nat),
            "feedback_applied_events: "@ + text::decimal_text(r.applied_events as nat),
            "feedback_helpful_memories_updated: "@ + text::decimal_text(
                r.helpful_memories_updated as nat,
            ),
            "feedback_unhelpful_memories_updated: "@ + text::decimal_text(
                r.unhelpful_memories_updated as nat,
            ),
        ] + told("feedback_error: "@, r.error),
{
    assert(listings::feedback_lines(r) =~= seq![
        "feedback_status: "@ + r.status@,
        "feedback_apply: "@ + yes_or_no(r.apply),
        "feedback_considered_events: "@ + text::decimal_text(r.considered_events as nat),
        "feedback_unapplied_events: "@ + text::decimal_text(r.unapplied_events as nat),
        "feedback_applied_events: "@ + text::decimal_text(r.applied_events as nat),
        "feedback_helpful_memories_updated: "@ + text::decimal_text(
            r.helpful_memories_updated as nat,
        ),
        "feedback_unhelpful_memories_updated: "@ + text::decimal_text(
            r.unhelpful_memories_updated as nat,
        ),
    ] + told("feedback_error: "@, r.error));
}

/// What embedding did is told with its models and counts, memories and symbols apart.
pub proof fn embeddings_are_told(r: MaintenanceEmbeddingReport)
    ensures
        listings::embedding_lines(r) == seq![
            "embedding_scope: "@ + r.scope@,
            "embedding_apply: "@ + yes_or_no(r.apply),
            "memory_model: "@ + r.memory_model@,
            "code_model: "@ + r.code_model@,
            "memories_missing_embeddings: "@ + text::decimal_text(r.memories_missing as nat),
            "code_symbols_missing_embeddings: "@ + text::decimal_text(
                r.code_symbols_missing as nat,
            ),
            "memories_embedded: "@ + text::decimal_text(r.memories_embedded as nat),
            "code_symbols_embedded: "@ + text::decimal_text(r.code_symbols_embedded as nat),
        ],
{
    assert(listings::embedding_lines(r) =~= seq![
        "embedding_scope: "@ + r.scope@,
        "embedding_apply: "@ + yes_or_no(r.apply),
        "memory_model: "@ + r.memory_model@,
        "code_model: "@ + r.code_model@,
        "memories_missing_embeddings: "@ + text::decimal_text(r.memories_missing as nat),
        "code_symbols_missing_embeddings: "@ + text::decimal_text(
            r.code_symbols_missing as nat,
        ),
        "memories_embedded: "@ + text::decimal_text(r.memories_embedded as nat),
        "code_symbols_embedded: "@ + text::decimal_text(r.code_symbols_embedded as nat),
    ]);
}

/// A run is told step by step in the order of the steps, those that it did not take not at all, and
/// then by its warnings, each on a line.
pub proof fn runs_are_told_step_by_step(r: MaintenanceReport)
    ensures
        listings::maintenance_lines(r) == seq![
            "project: "@ + r.project_id@,
            "apply: "@ + yes_or_no(r.apply),
        ] + (if r.backup is Some {
            seq![
                "backup: "@ + r.backup->0.output@,
                "backup_size_bytes: "@ + text::decimal_text(r.backup->0.size_bytes as nat),
            ]
        } else {
            Seq::empty()
        }) + (if r.validation is Some {
            listings::validation_lines(r.validation->0)
        } else {
            Seq::empty()
        }) + (if r.compaction is Some {
            listings::compaction_lines(r.compaction->0)
        } else {
            Seq::empty()
        }) + (if r.feedback is Some {
            listings::feedback_lines(r.feedback->0)
        } else {
            Seq::empty()
        }) + (if r.embeddings is Some {
            listings::embedding_lines(r.embeddings->0)
        } else {
            Seq::empty()
        }) + Seq::new(r.warnings@.len(), |i: int| "warning: "@ + r.warnings@[i]@),
{
    assert(listings::line_each("warning: "@, r.warnings@) =~= Seq::new(
        r.warnings@.len(),
        |i: int| "warning: "@ + r.warnings@[i]@,
    ));
    let head = listings::one_line("project: "@, r.project_id@) + listings::one_line(
        "apply: "@,
        listings::truth_text(r.apply),
    );
    assert(head =~= seq!["project: "@ + r.project_id@, "apply: "@ + yes_or_no(r.apply)]);
    if r.backup is Some {
        let b = r.backup->0;
        assert(listings::one_line("backup: "@, b.output@) + listings::one_line(
            "backup_size_bytes: "@,
            text::decimal_text(b.size_bytes as nat),
        ) =~= seq![
            "backup: "@ + b.output@,
            "backup_size_bytes: "@ + text::decimal_text(b.size_bytes as nat),
        ]);
    }
}

/// What a search finds is told with its score and as a symbol without its body.
pub proof fn findings_are_told(found: ScoredSymbol)
    ensures
        report_listings::found_lines(found) == seq![blank(), "score: "@ + found.score@]
            + listings::symbol_lines(found.symbol, false),
{
    lemma_blank();
    assert(report_listings::found_lines(found) =~= seq![blank(), "score: "@ + found.score@]
        + listings::symbol_lines(found.symbol, false));
}

/// Findings are told one after the other, in their order.
pub proof fn findings_are_told_in_order(found: Seq<ScoredSymbol>, next: ScoredSymbol)
    ensures
        report_listings::all_found_lines(Seq::empty()).len() == 0,
        report_listings::all_found_lines(found.push(next)) == report_listings::all_found_lines(
            found,
        ) + report_listings::found_lines(next),
{
    assert(found.push(next).drop_last() =~= found);
}

/// A proposed relation is told with an arrow from what it comes from to what it leads to; a
/// proposed fact with what it is of before what it says.
pub proof fn proposals_are_told_in_their_direction(e: ProposedEdge, f: ProposedFact)
    ensures
        report_listings::proposed_edge_text(e) == e.from_name@ + " ["@ + e.from_type@ + "]"@ + " -"@
            + e.relation_type@ + "-> "@ + (e.to_name@ + " ["@ + e.to_type@ + "]"@) + " ("@
            + e.confidence@ + ")"@,
        report_listings::proposed_fact_text(f) == f.entity_name@ + " ["@ + f.entity_type@ + "]"@
            + " "@ + f.predicate@ + " "@ + f.value@ + " ("@ + f.confidence@ + ")"@,
{
}

/// A difference is told as a number, with a sign before it exactly where there are fewer now.
pub proof fn differences_are_told_with_their_sign(now: usize, before: usize)
    ensures
        now >= before ==> text_laws::number_read(report_listings::delta_text(now, before)) == now
            - before,
        now < before ==> report_listings::delta_text(now, before).len() > 0
            && report_listings::delta_text(now, before)[0] == '-' && text_laws::number_read(
            report_listings::delta_text(now, before).skip(1),
        ) == before - now,
{
    if now >= before {
        text_laws::decimals_read_as_their_number((now - before) as nat);
    } else {
        reveal_strlit("-");
        let digits = text::decimal_text((before - now) as nat);
        text_laws::decimals_read_as_their_number((before - now) as nat);
        assert(("-"@ + digits).skip(1) =~= digits);
    }
}

/// A case of an evaluation is told with what was asked, whether it passed, how long it took and
/// against which limit, and with what was expected, found and missing.
pub proof fn cases_are_told(c: EvalCaseReport, s: CaseScores)
    ensures
        report_listings::case_lines(c, s) == seq![
            blank(),
            "case: "@ + c.name@,
            "target: "@ + c.target@,
            "project: "@ + c.project_id@,
            "query: "@ + c.query@,
            "passed: "@ + yes_or_no(c.passed),
            "hits: "@ + text::decimal_text(c.hits as nat),
            "latency_ms: "@ + text::decimal_text(c.latency_ms as nat),
        ] + (if c.max_latency_ms is Some {
            seq![
                "max_latency_ms: "@ + text::decimal_text(c.max_latency_ms->0 as nat),
                "latency_ok: "@ + yes_or_no(c.latency_ok),
            ]
        } else {
            Seq::empty()
        }) + told("recall_at_k: "@, s.recall_at_k) + told("precision_at_k: "@, s.precision_at_k)
            + told_all("expected_ids: "@, c.expected_ids@, ","@) + told_all(
            "matched_expected_ids: "@,
            c.matched_expected_ids@,
            ","@,
        ) + told_all("missing_expected_ids: "@, c.missing_expected_ids@, ","@) + told_all(
            "top_ids: "@,
            c.top_ids@,
            ","@,
        ) + told_all("missing_expected: "@, c.missing_expected@, " | "@) + told_all(
            "forbidden_found: "@,
            c.forbidden_found@,
            " | "@,
        ),
{
    lemma_blank();
    let head = listings::one_line(""@, ""@) + listings::one_line("case: "@, c.name@)
        + listings::one_line("target: "@, c.target@) + listings::one_line(
        "project: "@,
        c.project_id@,
    ) + listings::one_line("query: "@, c.query@) + listings::one_line(
        "passed: "@,
        listings::truth_text(c.passed),
    ) + listings::one_line("hits: "@, listings::count_text(c.hits)) + listings::one_line(
        "latency_ms: "@,
        text::decimal_text(c.latency_ms as nat),
    );
    assert(head =~= seq![
        blank(),
        "case: "@ + c.name@,
        "target: "@ + c.target@,
        "project: "@ + c.project_id@,
        "query: "@ + c.query@,
        "passed: "@ + yes_or_no(c.passed),
        "hits: "@ + text::decimal_text(c.hits as nat),
        "latency_ms: "@ + text::decimal_text(c.latency_ms as nat),
    ]);
    if c.max_latency_ms is Some {
        assert(report_listings::latency_lines(c) =~= seq![
            "max_latency_ms: "@ + text::decimal_text(c.max_latency_ms->0 as nat),
            "latency_ok: "@ + yes_or_no(c.latency_ok),
        ]);
    }
}

// ---------------------------------------------------------------------------
// Records and reports
// ---------------------------------------------------------------------------

/// A line for each value.
pub open spec fn each_told(word: Seq<char>, values: Seq<String>) -> Seq<Seq<char>> {
    Seq::new(values.len(), |i: int| word + values[i]@)
}

/// A memory is told with all it has, and its body last.
pub proof fn memories_are_told(m: Memory, n: MemoryNumbers)
    ensures
        record_listings::memory_lines(m, n) == seq![
                blank(),
                "id: "@ + m.id@,
                "project: "@ + m.project_id@,
                "scope: "@ + m.scope@,
                "kind: "@ + m.kind@,
                "status: "@ + m.status@,
                "importance: "@ + n.importance@,
                "confidence: "@ + n.confidence@,
            ]
            + told("score: "@, n.score)
            + seq![
                "created_at: "@ + m.created_at@,
                "updated_at: "@ + m.updated_at@,
            ]
            + told_all("tags: "@, m.tags@, ","@)
            + told("source: "@, m.source)
            + told("superseded_by: "@, m.superseded_by)
            + told("status_reason: "@, m.status_reason)
            + seq![
                m.body@,
            ],
{
    lemma_blank();
}

/// A memory under review is told with why it waits, and with the commands that decide on it.
pub proof fn memories_under_review_are_told(m: Memory, n: MemoryNumbers)
    ensures
        record_listings::review_lines(m, n) == seq![
                blank(),
                "id: "@ + m.id@,
                "scope: "@ + m.scope@,
                "kind: "@ + m.kind@,
                "importance: "@ + n.importance@,
                "confidence: "@ + n.confidence@,
            ]
            + told_all("tags: "@, m.tags@, ","@)
            + told("reason: "@, m.status_reason)
            + seq![
                "body: "@ + m.body@,
                "promote: cargo run -- promote "@ + m.id@,
                "archive: cargo run -- archive "@ + m.id@,
            ],
{
    lemma_blank();
}

/// A proposed summary is told with the model that made it, how many memories it sums up and why,
/// and its body last.
pub proof fn summaries_are_told(p: CompactionProposal, importance: Seq<char>, confidence: Seq<char>)
    ensures
        record_listings::proposal_lines(p, importance, confidence) == seq![
                "model: "@ + p.model@,
                "summary_kind: "@ + p.summary_kind@,
                "source_memories: "@ + text::decimal_text(p.source_ids@.len()),
                "importance: "@ + importance,
                "confidence: "@ + confidence,
            ]
            + told_all("tags: "@, p.tags@, ","@)
            + seq![
                "reason: "@ + p.reason@,
                blank(),
                p.summary_body@,
            ],
{
    lemma_blank();
}

/// The profile of a project is told in full, with a word for what is not set.
pub proof fn profiles_are_told(p: ProjectRecord)
    ensures
        record_listings::profile_lines(p) == seq![
                "project: "@ + p.id@,
                "name: "@ + p.name@,
                "project_type: "@ + p.project_type@,
                "root_path: "@ + record_listings::value_or(p.root_path, "<unset>"@),
                "description: "@ + record_listings::value_or(p.description, "<unset>"@),
                "domains: "@ + record_listings::domains_text(p.domains@),
                "created_at: "@ + p.created_at@,
                "updated_at: "@ + p.updated_at@,
            ],
{
    lemma_blank();
}

/// A memory of code is told with what it is linked to, and its body last.
pub proof fn code_memories_are_told(m: CodeMemory)
    ensures
        record_listings::code_memory_lines(m) == seq![
                blank(),
                "id: "@ + m.id@,
                "kind: "@ + m.kind@,
                "status: "@ + m.status@,
                "link_status: "@ + m.link_status@,
                "confidence: "@ + m.confidence@,
                "symbol_id: "@ + record_listings::value_or(m.symbol_id, "-"@),
                "file_path: "@ + record_listings::value_or(m.file_path, "-"@),
            ]
            + record_listings::snapshot_lines(m)
            + record_listings::span_lines(m)
            + record_listings::relink_lines(m)
            + told("last_relinked_at: "@, m.last_relinked_at)
            + seq![
                "updated_at: "@ + m.updated_at@,
            ]
            + told_all("tags: "@, m.tags@, ","@)
            + told("source: "@, m.source)
            + seq![
                "body: "@ + m.body@,
            ],
{
    lemma_blank();
}

/// A route is told with its framework, its method, and the symbol and file that serve it.
pub proof fn routes_are_told(r: CodeRouteHint)
    ensures
        record_listings::route_lines(r) == seq![
                blank(),
                "framework: "@ + r.framework@,
                "route: "@ + r.route@,
                "method: "@ + record_listings::value_or(r.method, "*"@),
                "file: "@ + r.file_path@,
                "symbol: "@ + (r.symbol_name@ + " ("@ + r.symbol_id@ + ")"@),
                "evidence: "@ + r.evidence@,
            ],
{
    lemma_blank();
}

/// An answer is told before its points, its risks and the next steps.
pub proof fn answers_are_told(r: CodeReasonReport)
    ensures
        report_listings::reason_lines(r) == seq![
                "task: "@ + r.task@,
                "model: "@ + r.model@,
                blank(),
                r.answer@,
            ]
            + report_listings::titled_lines("bullets:"@, r.bullets@)
            + report_listings::titled_lines("risks:"@, r.risks@)
            + report_listings::titled_lines("next_steps:"@, r.next_steps@),
{
    lemma_blank();
}

/// Patterns are told with the symbols that were found, the tests they touch and how many memories
/// are suggested.
pub proof fn pattern_reports_are_told(r: CodePatternReport, suggestions: Seq<char>)
    ensures
        report_listings::pattern_report_lines(r, suggestions) == seq![
                "project: "@ + r.project_id@,
                "query: "@ + r.query@,
                "symbols: "@ + text::decimal_text(r.symbols@.len()),
            ]
            + report_listings::all_found_lines(r.symbols@)
            + seq![
                "patterns: "@ + text::decimal_text(r.patterns@.len()),
            ]
            + report_listings::patterns_lines(r.patterns@)
            + seq![
                "affected_tests: "@ + text::decimal_text(r.affected_tests@.len()),
            ]
            + each_told("- "@, r.affected_tests@)
            + seq![
                "memory_suggestions: "@ + text::decimal_text(r.memory_suggestions as nat),
                suggestions,
            ],
{
    lemma_blank();
}

/// Assistance is told with its counts, the files it reaches and the tests it touches.
pub proof fn assistance_is_told(r: CodeAssistReport, whole: Seq<char>)
    ensures
        report_listings::assist_lines(r, whole) == seq![
                "project: "@ + r.project_id@,
                "query: "@ + r.query@,
                "actual_mode: "@ + r.actual_mode@,
            ]
            + told("warning: "@, r.warning)
            + seq![
                "symbols: "@ + text::decimal_text(r.symbols as nat),
                "patterns: "@ + text::decimal_text(r.patterns as nat),
                "duplicate_pairs: "@ + text::decimal_text(r.duplicate_pairs as nat),
                "impacted_files: "@ + text::decimal_text(r.impacted_files@.len()),
            ]
            + each_told("- "@, r.impacted_files@)
            + seq![
                "affected_tests: "@ + text::decimal_text(r.affected_tests@.len()),
            ]
            + each_told("- "@, r.affected_tests@)
            + seq![
                "memory_suggestions: "@ + text::decimal_text(r.memory_suggestions as nat),
                whole,
            ],
{
    lemma_blank();
}

/// A proposed entity is told with its type, and with what it is where that is known.
pub proof fn proposed_entities_are_told(e: ProposedEntity)
    ensures
        report_listings::proposed_entity_lines(e) == seq![
                "- entity "@ + (e.name@ + " ["@ + e.entity_type@ + "]"@),
            ]
            + told("  description: "@, e.description),
{
    lemma_blank();
}

/// What was extracted from a memory is told with its counts: entities, facts and relations in
/// turn.
pub proof fn extracted_proposals_are_told(p: GraphExtractionProposal)
    ensures
        report_listings::extraction_proposal_lines(p) == seq![
                blank(),
                "memory_id: "@ + p.memory_id@,
                "entities: "@ + text::decimal_text(p.entities@.len()),
            ]
            + report_listings::proposed_entities_lines(p.entities@)
            + seq![
                "facts: "@ + text::decimal_text(p.facts@.len()),
            ]
            + report_listings::proposed_facts_lines(p.facts@)
            + seq![
                "edges: "@ + text::decimal_text(p.edges@.len()),
            ]
            + report_listings::proposed_edges_lines(p.edges@),
{
    lemma_blank();
}

/// An extraction is told with its counts, what was stored, and each proposal.
pub proof fn extractions_are_told(r: GraphExtractionReport)
    ensures
        report_listings::extraction_lines(r) == seq![
                "project: "@ + r.project_id@,
                "apply: "@ + yes_or_no(r.apply),
                "memories: "@ + text::decimal_text(r.memories as nat),
                "proposed_entities: "@ + text::decimal_text(r.proposed_entities as nat),
                "proposed_facts: "@ + text::decimal_text(r.proposed_facts as nat),
                "proposed_edges: "@ + text::decimal_text(r.proposed_edges as nat),
            ]
            + report_listings::stored_lines(r)
            + report_listings::extraction_proposals_lines(r.proposals@),
{
    lemma_blank();
}

/// A list under a title is told behind an empty line, one thing a line, and an empty one not at
/// all.
pub proof fn titled_lists_are_told(title: Seq<char>, items: Seq<String>)
    ensures
        items.len() == 0 ==> report_listings::titled_lines(title, items).len() == 0,
        items.len() > 0 ==> report_listings::titled_lines(title, items) == seq![blank(), title]
            + each_told("- "@, items),
{
    lemma_blank();
    if items.len() > 0 {
        assert(report_listings::titled_lines(title, items) =~= seq![blank(), title] + each_told(
            "- "@,
            items,
        ));
    }
}

/// What a memory of code remembers of its symbol is told where anything is known of it, with a dash
/// for the rest: its kind before its name, and its first line before its last.
pub proof fn snapshots_are_told(m: CodeMemory)
    ensures
        m.symbol_name is None && m.symbol_kind is None ==> record_listings::snapshot_lines(m).len()
            == 0,
        m.symbol_name is Some || m.symbol_kind is Some ==> record_listings::snapshot_lines(m)
            == seq![
            "symbol_snapshot: "@ + ((if m.symbol_kind is Some {
                m.symbol_kind->0@
            } else {
                "-"@
            }) + " "@ + (if m.symbol_name is Some {
                m.symbol_name->0@
            } else {
                "-"@
            })),
        ],
        m.symbol_start_line is None && m.symbol_end_line is None ==> record_listings::span_lines(
            m,
        ).len() == 0,
        m.symbol_start_line is Some && m.symbol_end_line is Some ==> record_listings::span_lines(m)
            == seq![
            "symbol_lines: "@ + (text::decimal_text(m.symbol_start_line->0 as nat) + "-"@
                + text::decimal_text(m.symbol_end_line->0 as nat)),
        ],
        m.symbol_start_line is Some && m.symbol_end_line is None ==> record_listings::span_lines(m)
            == seq![
            "symbol_lines: "@ + (text::decimal_text(m.symbol_start_line->0 as nat) + "-"@ + "-"@),
        ],
        m.relink_attempts == 0 ==> record_listings::relink_lines(m).len() == 0,
        m.relink_attempts > 0 ==> record_listings::relink_lines(m) == seq![
            "relink_attempts: "@ + text::decimal_text(m.relink_attempts as nat),
        ],
{
}

/// What is not set is told by a word in its place, and domains with commas between.
pub proof fn missing_values_have_a_word(value: Option<String>, none: Seq<char>, domains: Seq<String>)
    ensures
        value is Some ==> record_listings::value_or(value, none) == value->0@,
        value is None ==> record_listings::value_or(value, none) == none,
        domains.len() == 0 ==> record_listings::domains_text(domains) == "<none>"@,
        domains.len() > 0 ==> record_listings::domains_text(domains) == text::joined(
            text::texts(domains),
            ","@,
        ),
{
}

/// What was stored is told where anything was to be stored: what was new and what was there
/// already, entities, facts and relations in turn.
pub proof fn stored_things_are_told(r: GraphExtractionReport)
    ensures
        !r.apply ==> report_listings::stored_lines(r).len() == 0,
        r.apply ==> report_listings::stored_lines(r) == seq![
            "upserted_entities: "@ + text::decimal_text(r.upserted_entities as nat),
            "inserted_facts: "@ + text::decimal_text(r.inserted_facts as nat),
            "duplicate_facts: "@ + text::decimal_text(r.duplicate_facts as nat),
            "inserted_edges: "@ + text::decimal_text(r.inserted_edges as nat),
            "duplicate_edges: "@ + text::decimal_text(r.duplicate_edges as nat),
        ],
{
    if r.apply {
        assert(report_listings::stored_lines(r) =~= seq![
            "upserted_entities: "@ + text::decimal_text(r.upserted_entities as nat),
            "inserted_facts: "@ + text::decimal_text(r.inserted_facts as nat),
            "duplicate_facts: "@ + text::decimal_text(r.duplicate_facts as nat),
            "inserted_edges: "@ + text::decimal_text(r.inserted_edges as nat),
            "duplicate_edges: "@ + text::decimal_text(r.duplicate_edges as nat),
        ]);
    }
}

/// A run is told against the one before: what passed and failed then, and the difference.
pub proof fn runs_are_told_against_the_one_before(p: PreviousRun, t: EvalTotals)
    ensures
        report_listings::previous_lines(Some(p), t) == seq![
            "previous_run_id: "@ + p.id@,
            "previous_created_at: "@ + p.created_at@,
            "previous_passed: "@ + text::decimal_text(p.passed_cases as nat),
            "previous_failed: "@ + text::decimal_text(p.failed_cases as nat),
            "passed_delta: "@ + report_listings::delta_text(t.passed_cases, p.passed_cases),
            "failed_delta: "@ + report_listings::delta_text(t.failed_cases, p.failed_cases),
        ],
        report_listings::previous_lines(None, t) == seq!["previous_run: <none>"@],
{
    lemma_blank();
    assert(report_listings::previous_lines(Some(p), t) =~= seq![
        "previous_run_id: "@ + p.id@,
        "previous_created_at: "@ + p.created_at@,
        "previous_passed: "@ + text::decimal_text(p.passed_cases as nat),
        "previous_failed: "@ + text::decimal_text(p.failed_cases as nat),
        "passed_delta: "@ + report_listings::delta_text(t.passed_cases, p.passed_cases),
        "failed_delta: "@ + report_listings::delta_text(t.failed_cases, p.failed_cases),
    ]);
}

/// A run is told with its suite where it has one, its counts, and the run before where that is
/// asked for.
pub proof fn evaluations_are_told(run: EvalRun, t: EvalTotals, compare_last: bool)
    ensures
        report_listings::run_lines(run, t, compare_last) == seq!["eval_run_id: "@ + run.run_id@]
            + told("eval_suite: "@, run.suite_name) + told("eval_suite_hash: "@, run.suite_hash)
            + seq![
            "eval_total: "@ + text::decimal_text(t.total_cases as nat),
            "eval_passed: "@ + text::decimal_text(t.passed_cases as nat),
            "eval_failed: "@ + text::decimal_text(t.failed_cases as nat),
        ] + (if compare_last {
            report_listings::previous_lines(run.previous_run, t)
        } else {
            Seq::empty()
        }),
{
    assert(report_listings::run_lines(run, t, compare_last) =~= seq![
        "eval_run_id: "@ + run.run_id@,
    ] + told("eval_suite: "@, run.suite_name) + told("eval_suite_hash: "@, run.suite_hash) + seq![
        "eval_total: "@ + text::decimal_text(t.total_cases as nat),
        "eval_passed: "@ + text::decimal_text(t.passed_cases as nat),
        "eval_failed: "@ + text::decimal_text(t.failed_cases as nat),
    ] + (if compare_last {
        report_listings::previous_lines(run.previous_run, t)
    } else {
        Seq::empty()
    }));
}

/// A compaction is told with its counts and its error where there was one, with what it proposed
/// and with what came of it where it came to that.
pub proof fn compactions_are_told(r: MaintenanceCompactionReport)
    ensures
        listings::compaction_lines(r) == seq![
            "compaction_status: "@ + r.status@,
            "compaction_candidates: "@ + text::decimal_text(r.candidate_memories as nat),
            "compaction_min_memories: "@ + text::decimal_text(r.min_memories as nat),
        ] + told("compaction_error: "@, r.error) + (if r.proposal is Some {
            seq![
                "compaction_summary_kind: "@ + r.proposal->0.summary_kind@,
                "compaction_source_memories: "@ + text::decimal_text(
                    r.proposal->0.source_ids@.len(),
                ),
            ]
        } else {
            Seq::empty()
        }) + (if r.application is Some {
            seq![
                "compaction_summary_id: "@ + r.application->0.summary_id@,
                "compaction_inserted: "@ + yes_or_no(r.application->0.inserted),
            ] + told("compaction_duplicate_of: "@, r.application->0.duplicate_of) + seq![
                "compaction_archived_source_memories: "@ + text::decimal_text(
                    r.application->0.archived_source_memories as nat,
                ),
            ]
        } else {
            Seq::empty()
        }),
{
    let none = Seq::<Seq<char>>::empty();
    let head = seq![
        "compaction_status: "@ + r.status@,
        "compaction_candidates: "@ + text::decimal_text(r.candidate_memories as nat),
        "compaction_min_memories: "@ + text::decimal_text(r.min_memories as nat),
    ] + told("compaction_error: "@, r.error);
    let proposed = if r.proposal is Some {
        seq![
            "compaction_summary_kind: "@ + r.proposal->0.summary_kind@,
            "compaction_source_memories: "@ + text::decimal_text(r.proposal->0.source_ids@.len()),
        ]
    } else {
        none
    };
    let applied = if r.application is Some {
        seq![
            "compaction_summary_id: "@ + r.application->0.summary_id@,
            "compaction_inserted: "@ + yes_or_no(r.application->0.inserted),
        ] + told("compaction_duplicate_of: "@, r.application->0.duplicate_of) + seq![
            "compaction_archived_source_memories: "@ + text::decimal_text(
                r.application->0.archived_source_memories as nat,
            ),
        ]
    } else {
        none
    };
    assert(listings::compaction_lines(r) =~= head + proposed + applied);
}

/// Lists are told one thing after the other, in their order.
pub proof fn lists_are_told_in_order(
    memories: Seq<CodeMemory>,
    memory: CodeMemory,
    routes: Seq<CodeRouteHint>,
    route: CodeRouteHint,
    patterns: Seq<CodePattern>,
    pattern: CodePattern,
    proposals: Seq<GraphExtractionProposal>,
    proposal: GraphExtractionProposal,
)
    ensures
        record_listings::code_memories_lines(memories.push(memory))
            == record_listings::code_memories_lines(memories) + record_listings::code_memory_lines(
            memory,
        ),
        record_listings::routes_lines(routes.push(route)) == record_listings::routes_lines(routes)
            + record_listings::route_lines(route),
        report_listings::patterns_lines(patterns.push(pattern)) == report_listings::patterns_lines(
            patterns,
        ) + report_listings::pattern_lines(pattern),
        report_listings::extraction_proposals_lines(proposals.push(proposal))
            == report_listings::extraction_proposals_lines(proposals)
            + report_listings::extraction_proposal_lines(proposal),
        record_listings::code_memories_lines(Seq::empty()).len() == 0,
        record_listings::routes_lines(Seq::empty()).len() == 0,
        report_listings::patterns_lines(Seq::empty()).len() == 0,
        report_listings::extraction_proposals_lines(Seq::empty()).len() == 0,
{
    assert(memories.push(memory).drop_last() =~= memories);
    assert(routes.push(route).drop_last() =~= routes);
    assert(patterns.push(pattern).drop_last() =~= patterns);
    assert(proposals.push(proposal).drop_last() =~= proposals);
}

/// A pattern is told by its seed, and each symbol that is related to it with how much.
pub proof fn patterns_are_told(p: CodePattern)
    ensures
        report_listings::pattern_lines(p) == seq![
            "- seed: "@ + (p.seed.kind@ + " "@ + p.seed.file_path@ + ":"@ + p.seed.name@),
        ] + Seq::new(
            p.related_symbols@.len(),
            |i: int|
                {
                    let s = p.related_symbols@[i].symbol;
                    "  related "@ + (p.related_symbols@[i].score@ + ": "@ + (s.kind@ + " "@
                        + s.file_path@ + ":"@ + s.name@))
                },
        ),
{
    assert(report_listings::pattern_lines(p) =~= seq![
        "- seed: "@ + (p.seed.kind@ + " "@ + p.seed.file_path@ + ":"@ + p.seed.name@),
    ] + Seq::new(
        p.related_symbols@.len(),
        |i: int|
            {
                let s = p.related_symbols@[i].symbol;
                "  related "@ + (p.related_symbols@[i].score@ + ": "@ + (s.kind@ + " "@
                    + s.file_path@ + ":"@ + s.name@))
            },
    ));
}

} // verus!
