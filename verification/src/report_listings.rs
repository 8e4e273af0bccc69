//! What the program prints of its reports, line by line. Numbers with a fraction come as they are
//! printed.
use vstd::prelude::*;
use vstd::string::*;
use crate::eval_report::{EvalCaseReport, EvalTotals};
use crate::listings::{
    list_code_symbol, put, put_all, put_any, put_count, put_each, put_some, put_truth,
};
use crate::records::CodeSymbol;
use crate::text::{cat2, cat3, cat4, cat5, decimal};
use crate::{listings, text};

verus! {

// ---------------------------------------------------------------------------
// Answers on code
// ---------------------------------------------------------------------------

/// What a model answered to a question on code.
#[derive(Debug, Clone, PartialEq, Eq)]
pub struct CodeReasonReport {
    pub task: String,
    pub model: String,
    pub answer: String,
    pub bullets: Vec<String>,
    pub risks: Vec<String>,
    pub next_steps: Vec<String>,
}

/// The lines of a list under its title, after an empty one; none where the list is empty.
pub open spec fn titled_lines(title: Seq<char>, items: Seq<String>) -> Seq<Seq<char>> {
    if items.len() == 0 {
        Seq::empty()
    } else {
        listings::one_line(""@, ""@) + listings::one_line(title, ""@) + listings::line_each(
            "- "@,
            items,
        )
    }
}

/// Appends a list under its title.
fn put_titled(lines: &mut Vec<String>, title: &str, items: &Vec<String>)
    ensures
        text::texts(final(lines)@) == text::texts(old(lines)@) + titled_lines(title@, items@),
{
    let ghost a = text::texts(lines@);
    if items.len() > 0 {
        put(lines, "", "");
        put(lines, title, "");
        put_each(lines, "- ", items);
    }
    assert(text::texts(lines@) =~= a + titled_lines(title@, items@));
}

/// The lines of an answer.
pub open spec fn reason_lines(r: CodeReasonReport) -> Seq<Seq<char>> {
    listings::one_line("task: "@, r.task@) + listings::one_line("model: "@, r.model@)
        + listings::one_line(""@, ""@) + listings::one_line(""@, r.answer@) + titled_lines(
        "bullets:"@,
        r.bullets@,
    ) + titled_lines("risks:"@, r.risks@) + titled_lines("next_steps:"@, r.next_steps@)
}

/// The lines of an answer.
pub fn list_code_reason_report(report: &CodeReasonReport) -> (lines: Vec<String>)
    ensures
        text::texts(lines@) == reason_lines(*report),
{
    let mut lines: Vec<String> = Vec::new();
    put(&mut lines, "task: ", report.task.as_str());
    assert(text::texts(lines@) =~= listings::one_line("task: "@, report.task@));
    put(&mut lines, "model: ", report.model.as_str());
    put(&mut lines, "", "");
    put(&mut lines, "", report.answer.as_str());
    put_titled(&mut lines, "bullets:", &report.bullets);
    put_titled(&mut lines, "risks:", &report.risks);
    put_titled(&mut lines, "next_steps:", &report.next_steps);
    lines
}

/// A symbol that a search found; its score is as it is printed.
#[derive(Debug, Clone, PartialEq, Eq)]
pub struct ScoredSymbol {
    pub symbol: CodeSymbol,
    pub score: String,
}

/// The lines of a symbol that a search found, after an empty one.
pub open spec fn found_lines(found: ScoredSymbol) -> Seq<Seq<char>> {
    listings::one_line(""@, ""@) + listings::one_line("score: "@, found.score@)
        + listings::symbol_lines(found.symbol, false)
}

/// The lines of a symbol that a search found.
pub fn list_code_search_result(found: &ScoredSymbol) -> (lines: Vec<String>)
    ensures
        text::texts(lines@) == found_lines(*found),
{
    let mut lines: Vec<String> = Vec::new();
    put(&mut lines, "", "");
    assert(text::texts(lines@) =~= listings::one_line(""@, ""@));
    put(&mut lines, "score: ", found.score.as_str());
    put_all(&mut lines, list_code_symbol(&found.symbol, false));
    lines
}

/// The lines of symbols that a search found.
pub open spec fn all_found_lines(found: Seq<ScoredSymbol>) -> Seq<Seq<char>>
    decreases found.len(),
{
    if found.len() == 0 {
        Seq::empty()
    } else {
        all_found_lines(found.drop_last()) + found_lines(found.last())
    }
}

/// A symbol, and those that are like it.
#[derive(Debug, Clone, PartialEq, Eq)]
pub struct CodePattern {
    pub seed: CodeSymbol,
    pub related_symbols: Vec<ScoredSymbol>,
}

/// Symbols that a query found, and the patterns around them.
#[derive(Debug, Clone, PartialEq, Eq)]
pub struct CodePatternReport {
    pub project_id: String,
    pub query: String,
    pub symbols: Vec<ScoredSymbol>,
    pub patterns: Vec<CodePattern>,
    pub affected_tests: Vec<String>,
    pub memory_suggestions: usize,
}

/// A symbol in one line: its kind, its file and its name.
pub open spec fn symbol_text(s: CodeSymbol) -> Seq<char> {
    s.kind@ + " "@ + s.file_path@ + ":"@ + s.name@
}

/// A symbol in one line.
fn symbol_words(s: &CodeSymbol) -> (r: String)
    ensures
        r@ == symbol_text(*s),
{
    cat5(s.kind.as_str(), " ", s.file_path.as_str(), ":", s.name.as_str())
}

/// The lines of symbols that are like another.
pub open spec fn related_lines(related: Seq<ScoredSymbol>) -> Seq<Seq<char>> {
    related.map_values(
        |found: ScoredSymbol| "  related "@ + (found.score@ + ": "@ + symbol_text(found.symbol)),
    )
}

/// The lines of a pattern.
pub open spec fn pattern_lines(p: CodePattern) -> Seq<Seq<char>> {
    listings::one_line("- seed: "@, symbol_text(p.seed)) + related_lines(p.related_symbols@)
}

/// The lines of patterns.
pub open spec fn patterns_lines(patterns: Seq<CodePattern>) -> Seq<Seq<char>>
    decreases patterns.len(),
{
    if patterns.len() == 0 {
        Seq::empty()
    } else {
        patterns_lines(patterns.drop_last()) + pattern_lines(patterns.last())
    }
}

/// The lines of a pattern.
fn list_pattern(pattern: &CodePattern) -> (lines: Vec<String>)
    ensures
        text::texts(lines@) == pattern_lines(*pattern),
{
    let seed = symbol_words(&pattern.seed);
    let mut lines: Vec<String> = Vec::new();
    put(&mut lines, "- seed: ", seed.as_str());
    assert(text::texts(lines@) =~= listings::one_line("- seed: "@, seed@));
    let related = &pattern.related_symbols;
    let ghost a = text::texts(lines@);
    let mut i: usize = 0;
    assert(a + related_lines(related@.take(0)) =~= a);
    while i < related.len()
        invariant
            i <= related.len(),
            text::texts(lines@) == a + related_lines(related@.take(i as int)),
        decreases related.len() - i,
    {
        let words = symbol_words(&related[i].symbol);
        let line = cat3(related[i].score.as_str(), ": ", words.as_str());
        put(&mut lines, "  related ", line.as_str());
        assert(a + related_lines(related@.take(i + 1)) =~= a + related_lines(
            related@.take(i as int),
        ) + listings::one_line("  related "@, line@));
        i += 1;
    }
    assert(related@.take(i as int) =~= related@);
    lines
}

/// The lines of patterns, with what is suggested to be remembered as JSON at their end.
pub open spec fn pattern_report_lines(r: CodePatternReport, suggestions: Seq<char>) -> Seq<
    Seq<char>,
> {
    listings::one_line("project: "@, r.project_id@) + listings::one_line("query: "@, r.query@)
        + listings::one_line("symbols: "@, text::decimal_text(r.symbols@.len())) + all_found_lines(
        r.symbols@,
    ) + listings::one_line("patterns: "@, text::decimal_text(r.patterns@.len())) + patterns_lines(
        r.patterns@,
    ) + listings::one_line("affected_tests: "@, text::decimal_text(r.affected_tests@.len()))
        + listings::line_each("- "@, r.affected_tests@) + listings::one_line(
        "memory_suggestions: "@,
        listings::count_text(r.memory_suggestions),
    ) + listings::one_line(""@, suggestions)
}

/// Appends the lines of symbols that a search found.
fn put_found(lines: &mut Vec<String>, found: &Vec<ScoredSymbol>)
    ensures
        text::texts(final(lines)@) == text::texts(old(lines)@) + all_found_lines(found@),
{
    let ghost a = text::texts(lines@);
    let mut i: usize = 0;
    assert(found@.take(0) =~= Seq::<ScoredSymbol>::empty());
    assert(a + all_found_lines(found@.take(0)) =~= a);
    while i < found.len()
        invariant
            i <= found.len(),
            text::texts(lines@) == a + all_found_lines(found@.take(i as int)),
        decreases found.len() - i,
    {
        put_all(lines, list_code_search_result(&found[i]));
        assert(found@.take(i + 1).drop_last() =~= found@.take(i as int));
        assert(a + all_found_lines(found@.take(i + 1)) =~= a + all_found_lines(
            found@.take(i as int),
        ) + found_lines(found@[i as int]));
        i += 1;
    }
    assert(found@.take(i as int) =~= found@);
}

/// Appends the lines of patterns.
fn put_patterns(lines: &mut Vec<String>, patterns: &Vec<CodePattern>)
    ensures
        text::texts(final(lines)@) == text::texts(old(lines)@) + patterns_lines(patterns@),
{
    let ghost a = text::texts(lines@);
    let mut i: usize = 0;
    assert(patterns@.take(0) =~= Seq::<CodePattern>::empty());
    assert(a + patterns_lines(patterns@.take(0)) =~= a);
    while i < patterns.len()
        invariant
            i <= patterns.len(),
            text::texts(lines@) == a + patterns_lines(patterns@.take(i as int)),
        decreases patterns.len() - i,
    {
        put_all(lines, list_pattern(&patterns[i]));
        assert(patterns@.take(i + 1).drop_last() =~= patterns@.take(i as int));
        assert(a + patterns_lines(patterns@.take(i + 1)) =~= a + patterns_lines(
            patterns@.take(i as int),
        ) + pattern_lines(patterns@[i as int]));
        i += 1;
    }
    assert(patterns@.take(i as int) =~= patterns@);
}

/// The lines of patterns.
pub fn list_code_pattern_report(report: &CodePatternReport, suggestions: &str) -> (lines: Vec<
    String,
>)
    ensures
        text::texts(lines@) == pattern_report_lines(*report, suggestions@),
{
    let mut lines: Vec<String> = Vec::new();
    put(&mut lines, "project: ", report.project_id.as_str());
    assert(text::texts(lines@) =~= listings::one_line("project: "@, report.project_id@));
    put(&mut lines, "query: ", report.query.as_str());
    put_count(&mut lines, "symbols: ", report.symbols.len());
    put_found(&mut lines, &report.symbols);
    put_count(&mut lines, "patterns: ", report.patterns.len());
    put_patterns(&mut lines, &report.patterns);
    put_count(&mut lines, "affected_tests: ", report.affected_tests.len());
    put_each(&mut lines, "- ", &report.affected_tests);
    put_count(&mut lines, "memory_suggestions: ", report.memory_suggestions);
    put(&mut lines, "", suggestions);
    lines
}

/// What is known of the code that a task touches, in numbers and files.
#[derive(Debug, Clone, PartialEq, Eq)]
pub struct CodeAssistReport {
    pub project_id: String,
    pub query: String,
    pub actual_mode: String,
    pub warning: Option<String>,
    pub symbols: usize,
    pub patterns: usize,
    pub duplicate_pairs: usize,
    pub impacted_files: Vec<String>,
    pub affected_tests: Vec<String>,
    pub memory_suggestions: usize,
}

/// The lines on the code that a task touches, with the whole report as JSON at their end.
pub open spec fn assist_lines(r: CodeAssistReport, whole: Seq<char>) -> Seq<Seq<char>> {
    listings::one_line("project: "@, r.project_id@) + listings::one_line("query: "@, r.query@)
        + listings::one_line("actual_mode: "@, r.actual_mode@) + listings::line_if_some(
        "warning: "@,
        r.warning,
    ) + listings::one_line("symbols: "@, listings::count_text(r.symbols)) + listings::one_line(
        "patterns: "@,
        listings::count_text(r.patterns),
    ) + listings::one_line("duplicate_pairs: "@, listings::count_text(r.duplicate_pairs))
        + listings::one_line("impacted_files: "@, text::decimal_text(r.impacted_files@.len()))
        + listings::line_each("- "@, r.impacted_files@) + listings::one_line(
        "affected_tests: "@,
        text::decimal_text(r.affected_tests@.len()),
    ) + listings::line_each("- "@, r.affected_tests@) + listings::one_line(
        "memory_suggestions: "@,
        listings::count_text(r.memory_suggestions),
    ) + listings::one_line(""@, whole)
}

/// The lines on the code that a task touches.
pub fn list_code_assist_report(report: &CodeAssistReport, whole: &str) -> (lines: Vec<String>)
    ensures
        text::texts(lines@) == assist_lines(*report, whole@),
{
    let mut lines: Vec<String> = Vec::new();
    put(&mut lines, "project: ", report.project_id.as_str());
    assert(text::texts(lines@) =~= listings::one_line("project: "@, report.project_id@));
    put(&mut lines, "query: ", report.query.as_str());
    put(&mut lines, "actual_mode: ", report.actual_mode.as_str());
    put_some(&mut lines, "warning: ", &report.warning);
    put_count(&mut lines, "symbols: ", report.symbols);
    put_count(&mut lines, "patterns: ", report.patterns);
    put_count(&mut lines, "duplicate_pairs: ", report.duplicate_pairs);
    put_count(&mut lines, "impacted_files: ", report.impacted_files.len());
    put_each(&mut lines, "- ", &report.impacted_files);
    put_count(&mut lines, "affected_tests: ", report.affected_tests.len());
    put_each(&mut lines, "- ", &report.affected_tests);
    put_count(&mut lines, "memory_suggestions: ", report.memory_suggestions);
    put(&mut lines, "", whole);
    lines
}

// ---------------------------------------------------------------------------
// Words for memories
// ---------------------------------------------------------------------------

/// The lines on the kinds and scopes of memories, with examples for domains.
pub open spec fn ontology_lines(kinds: Seq<String>, scopes: Seq<String>) -> Seq<Seq<char>> {
    listings::one_line("core_memory_kinds:"@, ""@) + listings::line_each("- "@, kinds)
        + listings::one_line("memory_scopes:"@, ""@) + listings::line_each("- "@, scopes)
        + listings::one_line("domain_examples:"@, ""@) + listings::one_line(
        "- generic: "@,
        "decisions, constraints, workflows, setup, external services"@,
    ) + listings::one_line("- game: "@, "mechanics, assets, levels, balance, lore"@)
        + listings::one_line("- webapp: "@, "routes, ux rules, auth, billing, api contracts"@)
        + listings::one_line("- library: "@, "public api, invariants, benchmarks, compatibility"@)
        + listings::one_line("- research: "@, "hypotheses, sources, conclusions, experiments"@)
        + listings::one_line(
        "- ops: "@,
        "environments, incidents, runbooks, deployment facts"@,
    )
}

/// The lines on the kinds and scopes of memories.
pub fn list_ontology(kinds: &Vec<String>, scopes: &Vec<String>) -> (lines: Vec<String>)
    ensures
        text::texts(lines@) == ontology_lines(kinds@, scopes@),
{
    let mut lines: Vec<String> = Vec::new();
    put(&mut lines, "core_memory_kinds:", "");
    assert(text::texts(lines@) =~= listings::one_line("core_memory_kinds:"@, ""@));
    put_each(&mut lines, "- ", kinds);
    put(&mut lines, "memory_scopes:", "");
    put_each(&mut lines, "- ", scopes);
    put(&mut lines, "domain_examples:", "");
    put(
        &mut lines,
        "- generic: ",
        "decisions, constraints, workflows, setup, external services",
    );
    put(&mut lines, "- game: ", "mechanics, assets, levels, balance, lore");
    put(&mut lines, "- webapp: ", "routes, ux rules, auth, billing, api contracts");
    put(&mut lines, "- library: ", "public api, invariants, benchmarks, compatibility");
    put(&mut lines, "- research: ", "hypotheses, sources, conclusions, experiments");
    put(&mut lines, "- ops: ", "environments, incidents, runbooks, deployment facts");
    lines
}

// ---------------------------------------------------------------------------
// Extraction of a graph
// ---------------------------------------------------------------------------

/// A proposed entity.
#[derive(Debug, Clone, PartialEq, Eq)]
pub struct ProposedEntity {
    pub entity_type: String,
    pub name: String,
    pub description: Option<String>,
}

/// A proposed fact; its confidence is as it is printed.
#[derive(Debug, Clone, PartialEq, Eq)]
pub struct ProposedFact {
    pub entity_type: String,
    pub entity_name: String,
    pub predicate: String,
    pub value: String,
    pub confidence: String,
}

/// A proposed relation; its confidence is as it is printed.
#[derive(Debug, Clone, PartialEq, Eq)]
pub struct ProposedEdge {
    pub from_type: String,
    pub from_name: String,
    pub relation_type: String,
    pub to_type: String,
    pub to_name: String,
    pub confidence: String,
}

/// What was found in a memory.
#[derive(Debug, Clone, PartialEq, Eq)]
pub struct GraphExtractionProposal {
    pub memory_id: String,
    pub entities: Vec<ProposedEntity>,
    pub facts: Vec<ProposedFact>,
    pub edges: Vec<ProposedEdge>,
}

/// What an extraction found, and what of it was stored.
#[derive(Debug, Clone, PartialEq, Eq)]
pub struct GraphExtractionReport {
    pub project_id: String,
    pub apply: bool,
    pub memories: usize,
    pub proposed_entities: usize,
    pub proposed_facts: usize,
    pub proposed_edges: usize,
    pub upserted_entities: usize,
    pub inserted_facts: usize,
    pub duplicate_facts: usize,
    pub inserted_edges: usize,
    pub duplicate_edges: usize,
    pub proposals: Vec<GraphExtractionProposal>,
}

/// A name with its type behind it.
pub open spec fn typed(name: Seq<char>, kind: Seq<char>) -> Seq<char> {
    name + " ["@ + kind + "]"@
}

/// The lines of a proposed entity.
pub open spec fn proposed_entity_lines(e: ProposedEntity) -> Seq<Seq<char>> {
    listings::one_line("- entity "@, typed(e.name@, e.entity_type@)) + listings::line_if_some(
        "  description: "@,
        e.description,
    )
}

/// The lines of proposed entities.
pub open spec fn proposed_entities_lines(entities: Seq<ProposedEntity>) -> Seq<Seq<char>>
    decreases entities.len(),
{
    if entities.len() == 0 {
        Seq::empty()
    } else {
        proposed_entities_lines(entities.drop_last()) + proposed_entity_lines(entities.last())
    }
}

/// The line of a proposed fact, without its mark.
pub open spec fn proposed_fact_text(f: ProposedFact) -> Seq<char> {
    typed(f.entity_name@, f.entity_type@) + " "@ + f.predicate@ + " "@ + f.value@ + " ("@
        + f.confidence@ + ")"@
}

/// The lines of proposed facts.
pub open spec fn proposed_facts_lines(facts: Seq<ProposedFact>) -> Seq<Seq<char>> {
    facts.map_values(|f: ProposedFact| "- fact "@ + proposed_fact_text(f))
}

/// The line of a proposed relation, without its mark.
pub open spec fn proposed_edge_text(e: ProposedEdge) -> Seq<char> {
    typed(e.from_name@, e.from_type@) + " -"@ + e.relation_type@ + "-> "@ + typed(
        e.to_name@,
        e.to_type@,
    ) + " ("@ + e.confidence@ + ")"@
}

/// The lines of proposed relations.
pub open spec fn proposed_edges_lines(edges: Seq<ProposedEdge>) -> Seq<Seq<char>> {
    edges.map_values(|e: ProposedEdge| "- edge "@ + proposed_edge_text(e))
}

/// The lines of what was found in a memory, after an empty one.
pub open spec fn extraction_proposal_lines(p: GraphExtractionProposal) -> Seq<Seq<char>> {
    listings::one_line(""@, ""@) + listings::one_line("memory_id: "@, p.memory_id@)
        + listings::one_line("entities: "@, text::decimal_text(p.entities@.len()))
        + proposed_entities_lines(p.entities@) + listings::one_line(
        "facts: "@,
        text::decimal_text(p.facts@.len()),
    ) + proposed_facts_lines(p.facts@) + listings::one_line(
        "edges: "@,
        text::decimal_text(p.edges@.len()),
    ) + proposed_edges_lines(p.edges@)
}

/// Appends the lines of proposed entities.
fn put_entities(lines: &mut Vec<String>, entities: &Vec<ProposedEntity>)
    ensures
        text::texts(final(lines)@) == text::texts(old(lines)@) + proposed_entities_lines(entities@),
{
    let ghost a = text::texts(lines@);
    let mut i: usize = 0;
    assert(entities@.take(0) =~= Seq::<ProposedEntity>::empty());
    assert(a + proposed_entities_lines(entities@.take(0)) =~= a);
    while i < entities.len()
        invariant
            i <= entities.len(),
            text::texts(lines@) == a + proposed_entities_lines(entities@.take(i as int)),
        decreases entities.len() - i,
    {
        let entity = &entities[i];
        let name = cat4(entity.name.as_str(), " [", entity.entity_type.as_str(), "]");
        put(lines, "- entity ", name.as_str());
        put_some(lines, "  description: ", &entity.description);
        assert(entities@.take(i + 1).drop_last() =~= entities@.take(i as int));
        assert(a + proposed_entities_lines(entities@.take(i + 1)) =~= a + proposed_entities_lines(
            entities@.take(i as int),
        ) + listings::one_line("- entity "@, name@) + listings::line_if_some(
            "  description: "@,
            entity.description,
        ));
        i += 1;
    }
    assert(entities@.take(i as int) =~= entities@);
}

/// Appends the lines of proposed facts.
fn put_facts(lines: &mut Vec<String>, facts: &Vec<ProposedFact>)
    ensures
        text::texts(final(lines)@) == text::texts(old(lines)@) + proposed_facts_lines(facts@),
{
    let ghost a = text::texts(lines@);
    let mut i: usize = 0;
    assert(a + proposed_facts_lines(facts@.take(0)) =~= a);
    while i < facts.len()
        invariant
            i <= facts.len(),
            text::texts(lines@) == a + proposed_facts_lines(facts@.take(i as int)),
        decreases facts.len() - i,
    {
        let fact = &facts[i];
        let mut line = cat4(fact.entity_name.as_str(), " [", fact.entity_type.as_str(), "]");
        line.append(" ");
        line.append(fact.predicate.as_str());
        line.append(" ");
        line.append(fact.value.as_str());
        line.append(" (");
        line.append(fact.confidence.as_str());
        line.append(")");
        assert(line@ =~= proposed_fact_text(*fact));
        put(lines, "- fact ", line.as_str());
        assert(a + proposed_facts_lines(facts@.take(i + 1)) =~= a + proposed_facts_lines(
            facts@.take(i as int),
        ) + listings::one_line("- fact "@, proposed_fact_text(facts@[i as int])));
        i += 1;
    }
    assert(facts@.take(i as int) =~= facts@);
}

/// Appends the lines of proposed relations.
fn put_edges(lines: &mut Vec<String>, edges: &Vec<ProposedEdge>)
    ensures
        text::texts(final(lines)@) == text::texts(old(lines)@) + proposed_edges_lines(edges@),
{
    let ghost a = text::texts(lines@);
    let mut i: usize = 0;
    assert(a + proposed_edges_lines(edges@.take(0)) =~= a);
    while i < edges.len()
        invariant
            i <= edges.len(),
            text::texts(lines@) == a + proposed_edges_lines(edges@.take(i as int)),
        decreases edges.len() - i,
    {
        let edge = &edges[i];
        let to = cat4(edge.to_name.as_str(), " [", edge.to_type.as_str(), "]");
        let mut line = cat4(edge.from_name.as_str(), " [", edge.from_type.as_str(), "]");
        line.append(" -");
        line.append(edge.relation_type.as_str());
        line.append("-> ");
        line.append(to.as_str());
        line.append(" (");
        line.append(edge.confidence.as_str());
        line.append(")");
        assert(line@ =~= proposed_edge_text(*edge));
        put(lines, "- edge ", line.as_str());
        assert(a + proposed_edges_lines(edges@.take(i + 1)) =~= a + proposed_edges_lines(
            edges@.take(i as int),
        ) + listings::one_line("- edge "@, proposed_edge_text(edges@[i as int])));
        i += 1;
    }
    assert(edges@.take(i as int) =~= edges@);
}

/// The lines of what was found in a memory.
fn list_extraction_proposal(proposal: &GraphExtractionProposal) -> (lines: Vec<String>)
    ensures
        text::texts(lines@) == extraction_proposal_lines(*proposal),
{
    let mut lines: Vec<String> = Vec::new();
    put(&mut lines, "", "");
    assert(text::texts(lines@) =~= listings::one_line(""@, ""@));
    put(&mut lines, "memory_id: ", proposal.memory_id.as_str());
    put_count(&mut lines, "entities: ", proposal.entities.len());
    put_entities(&mut lines, &proposal.entities);
    put_count(&mut lines, "facts: ", proposal.facts.len());
    put_facts(&mut lines, &proposal.facts);
    put_count(&mut lines, "edges: ", proposal.edges.len());
    put_edges(&mut lines, &proposal.edges);
    lines
}

/// The lines on what was stored.
pub open spec fn stored_lines(r: GraphExtractionReport) -> Seq<Seq<char>> {
    if r.apply {
        listings::one_line("upserted_entities: "@, listings::count_text(r.upserted_entities))
            + listings::one_line("inserted_facts: "@, listings::count_text(r.inserted_facts))
            + listings::one_line("duplicate_facts: "@, listings::count_text(r.duplicate_facts))
            + listings::one_line("inserted_edges: "@, listings::count_text(r.inserted_edges))
            + listings::one_line("duplicate_edges: "@, listings::count_text(r.duplicate_edges))
    } else {
        Seq::empty()
    }
}

/// The lines of what was found in several memories.
pub open spec fn extraction_proposals_lines(proposals: Seq<GraphExtractionProposal>) -> Seq<
    Seq<char>,
>
    decreases proposals.len(),
{
    if proposals.len() == 0 {
        Seq::empty()
    } else {
        extraction_proposals_lines(proposals.drop_last()) + extraction_proposal_lines(
            proposals.last(),
        )
    }
}

/// The lines of an extraction.
pub open spec fn extraction_lines(r: GraphExtractionReport) -> Seq<Seq<char>> {
    listings::one_line("project: "@, r.project_id@) + listings::one_line(
        "apply: "@,
        listings::truth_text(r.apply),
    ) + listings::one_line("memories: "@, listings::count_text(r.memories)) + listings::one_line(
        "proposed_entities: "@,
        listings::count_text(r.proposed_entities),
    ) + listings::one_line("proposed_facts: "@, listings::count_text(r.proposed_facts))
        + listings::one_line("proposed_edges: "@, listings::count_text(r.proposed_edges))
        + stored_lines(r) + extraction_proposals_lines(r.proposals@)
}

/// The lines of an extraction.
pub fn list_graph_extraction_report(report: &GraphExtractionReport) -> (lines: Vec<String>)
    ensures
        text::texts(lines@) == extraction_lines(*report),
{
    let mut lines: Vec<String> = Vec::new();
    put(&mut lines, "project: ", report.project_id.as_str());
    assert(text::texts(lines@) =~= listings::one_line("project: "@, report.project_id@));
    put_truth(&mut lines, "apply: ", report.apply);
    put_count(&mut lines, "memories: ", report.memories);
    put_count(&mut lines, "proposed_entities: ", report.proposed_entities);
    put_count(&mut lines, "proposed_facts: ", report.proposed_facts);
    put_count(&mut lines, "proposed_edges: ", report.proposed_edges);
    let ghost a = text::texts(lines@);
    if report.apply {
        put_count(&mut lines, "upserted_entities: ", report.upserted_entities);
        put_count(&mut lines, "inserted_facts: ", report.inserted_facts);
        put_count(&mut lines, "duplicate_facts: ", report.duplicate_facts);
        put_count(&mut lines, "inserted_edges: ", report.inserted_edges);
        put_count(&mut lines, "duplicate_edges: ", report.duplicate_edges);
    }
    assert(text::texts(lines@) =~= a + stored_lines(*report));
    let proposals = &report.proposals;
    let ghost b = text::texts(lines@);
    let mut i: usize = 0;
    assert(proposals@.take(0) =~= Seq::<GraphExtractionProposal>::empty());
    assert(b + extraction_proposals_lines(proposals@.take(0)) =~= b);
    while i < proposals.len()
        invariant
            i <= proposals.len(),
            text::texts(lines@) == b + extraction_proposals_lines(proposals@.take(i as int)),
        decreases proposals.len() - i,
    {
        put_all(&mut lines, list_extraction_proposal(&proposals[i]));
        assert(proposals@.take(i + 1).drop_last() =~= proposals@.take(i as int));
        assert(b + extraction_proposals_lines(proposals@.take(i + 1)) =~= b
            + extraction_proposals_lines(proposals@.take(i as int)) + extraction_proposal_lines(
            proposals@[i as int],
        ));
        i += 1;
    }
    assert(proposals@.take(i as int) =~= proposals@);
    lines
}

// ---------------------------------------------------------------------------
// Evaluation
// ---------------------------------------------------------------------------

/// A run of the same suite before.
#[derive(Debug, Clone, PartialEq, Eq)]
pub struct PreviousRun {
    pub id: String,
    pub created_at: String,
    pub passed_cases: usize,
    pub failed_cases: usize,
}

/// What a run of a suite is known by.
#[derive(Debug, Clone, PartialEq, Eq)]
pub struct EvalRun {
    pub run_id: String,
    pub suite_name: Option<String>,
    pub suite_hash: Option<String>,
    pub previous_run: Option<PreviousRun>,
}

/// How good the ranking of a case is, as it is printed.
#[derive(Debug, Clone, PartialEq, Eq)]
pub struct CaseScores {
    pub recall_at_k: Option<String>,
    pub precision_at_k: Option<String>,
}

/// A difference in digits.
pub open spec fn delta_text(now: usize, before: usize) -> Seq<char> {
    if now >= before {
        text::decimal_text((now - before) as nat)
    } else {
        "-"@ + text::decimal_text((before - now) as nat)
    }
}

/// A difference in digits.
fn delta(now: usize, before: usize) -> (r: String)
    ensures
        r@ == delta_text(now, before),
{
    if now >= before {
        decimal((now - before) as u64)
    } else {
        let n = decimal((before - now) as u64);
        cat2("-", n.as_str())
    }
}

/// The lines on the run before.
pub open spec fn previous_lines(
    previous: Option<PreviousRun>,
    totals: EvalTotals,
) -> Seq<Seq<char>> {
    match previous {
        Some(p) => listings::one_line("previous_run_id: "@, p.id@) + listings::one_line(
            "previous_created_at: "@,
            p.created_at@,
        ) + listings::one_line("previous_passed: "@, listings::count_text(p.passed_cases))
            + listings::one_line("previous_failed: "@, listings::count_text(p.failed_cases))
            + listings::one_line("passed_delta: "@, delta_text(totals.passed_cases, p.passed_cases))
            + listings::one_line(
            "failed_delta: "@,
            delta_text(totals.failed_cases, p.failed_cases),
        ),
        None => listings::one_line("previous_run: <none>"@, ""@),
    }
}

/// The lines on the run before.
fn list_previous(previous: &Option<PreviousRun>, totals: &EvalTotals) -> (lines: Vec<String>)
    ensures
        text::texts(lines@) == previous_lines(*previous, *totals),
{
    let mut lines: Vec<String> = Vec::new();
    match previous {
        Some(p) => {
            put(&mut lines, "previous_run_id: ", p.id.as_str());
            assert(text::texts(lines@) =~= listings::one_line("previous_run_id: "@, p.id@));
            put(&mut lines, "previous_created_at: ", p.created_at.as_str());
            put_count(&mut lines, "previous_passed: ", p.passed_cases);
            put_count(&mut lines, "previous_failed: ", p.failed_cases);
            let passed = delta(totals.passed_cases, p.passed_cases);
            put(&mut lines, "passed_delta: ", passed.as_str());
            let failed = delta(totals.failed_cases, p.failed_cases);
            put(&mut lines, "failed_delta: ", failed.as_str());
        },
        None => {
            put(&mut lines, "previous_run: <none>", "");
            assert(text::texts(lines@) =~= listings::one_line("previous_run: <none>"@, ""@));
        },
    }
    lines
}

/// The lines on how long a case may take.
pub open spec fn latency_lines(c: EvalCaseReport) -> Seq<Seq<char>> {
    match c.max_latency_ms {
        Some(most) => listings::one_line("max_latency_ms: "@, text::decimal_text(most as nat))
            + listings::one_line("latency_ok: "@, listings::truth_text(c.latency_ok)),
        None => Seq::empty(),
    }
}

/// The lines of a case, after an empty one.
pub open spec fn case_lines(c: EvalCaseReport, s: CaseScores) -> Seq<Seq<char>> {
    listings::one_line(""@, ""@) + listings::one_line("case: "@, c.name@) + listings::one_line(
        "target: "@,
        c.target@,
    ) + listings::one_line("project: "@, c.project_id@) + listings::one_line("query: "@, c.query@)
        + listings::one_line("passed: "@, listings::truth_text(c.passed)) + listings::one_line(
        "hits: "@,
        listings::count_text(c.hits),
    ) + listings::one_line("latency_ms: "@, text::decimal_text(c.latency_ms as nat))
        + latency_lines(c) + listings::line_if_some("recall_at_k: "@, s.recall_at_k)
        + listings::line_if_some("precision_at_k: "@, s.precision_at_k) + listings::line_if_any(
        "expected_ids: "@,
        c.expected_ids@,
        ","@,
    ) + listings::line_if_any("matched_expected_ids: "@, c.matched_expected_ids@, ","@)
        + listings::line_if_any("missing_expected_ids: "@, c.missing_expected_ids@, ","@)
        + listings::line_if_any("top_ids: "@, c.top_ids@, ","@) + listings::line_if_any(
        "missing_expected: "@,
        c.missing_expected@,
        " | "@,
    ) + listings::line_if_any("forbidden_found: "@, c.forbidden_found@, " | "@)
}

/// The lines of a case.
pub fn list_eval_case(case: &EvalCaseReport, scores: &CaseScores) -> (lines: Vec<String>)
    ensures
        text::texts(lines@) == case_lines(*case, *scores),
{
    let mut lines: Vec<String> = Vec::new();
    put(&mut lines, "", "");
    assert(text::texts(lines@) =~= listings::one_line(""@, ""@));
    put(&mut lines, "case: ", case.name.as_str());
    put(&mut lines, "target: ", case.target.as_str());
    put(&mut lines, "project: ", case.project_id.as_str());
    put(&mut lines, "query: ", case.query.as_str());
    put_truth(&mut lines, "passed: ", case.passed);
    put_count(&mut lines, "hits: ", case.hits);
    let latency = decimal(case.latency_ms);
    put(&mut lines, "latency_ms: ", latency.as_str());
    let ghost a = text::texts(lines@);
    if let Some(most) = case.max_latency_ms {
        let most_text = decimal(most);
        put(&mut lines, "max_latency_ms: ", most_text.as_str());
        put_truth(&mut lines, "latency_ok: ", case.latency_ok);
    }
    assert(text::texts(lines@) =~= a + latency_lines(*case));
    put_some(&mut lines, "recall_at_k: ", &scores.recall_at_k);
    put_some(&mut lines, "precision_at_k: ", &scores.precision_at_k);
    put_any(&mut lines, "expected_ids: ", &case.expected_ids, ",");
    put_any(&mut lines, "matched_expected_ids: ", &case.matched_expected_ids, ",");
    put_any(&mut lines, "missing_expected_ids: ", &case.missing_expected_ids, ",");
    put_any(&mut lines, "top_ids: ", &case.top_ids, ",");
    put_any(&mut lines, "missing_expected: ", &case.missing_expected, " | ");
    put_any(&mut lines, "forbidden_found: ", &case.forbidden_found, " | ");
    lines
}

/// The lines of a run before those of its cases.
pub open spec fn run_lines(run: EvalRun, totals: EvalTotals, compare_last: bool) -> Seq<Seq<char>> {
    listings::one_line("eval_run_id: "@, run.run_id@) + listings::line_if_some(
        "eval_suite: "@,
        run.suite_name,
    ) + listings::line_if_some("eval_suite_hash: "@, run.suite_hash) + listings::one_line(
        "eval_total: "@,
        listings::count_text(totals.total_cases),
    ) + listings::one_line("eval_passed: "@, listings::count_text(totals.passed_cases))
        + listings::one_line("eval_failed: "@, listings::count_text(totals.failed_cases)) + (
    if compare_last {
        previous_lines(run.previous_run, totals)
    } else {
        Seq::empty()
    })
}

/// The lines of the first `n` cases.
pub open spec fn cases_lines(
    cases: Seq<EvalCaseReport>,
    scores: Seq<CaseScores>,
    n: nat,
) -> Seq<Seq<char>>
    decreases n,
{
    if n == 0 {
        Seq::empty()
    } else {
        cases_lines(cases, scores, (n - 1) as nat) + case_lines(cases[n - 1], scores[n - 1])
    }
}

/// The lines of a run and its cases.
pub fn list_eval_report(
    run: &EvalRun,
    totals: &EvalTotals,
    cases: &Vec<EvalCaseReport>,
    scores: &Vec<CaseScores>,
    compare_last: bool,
) -> (lines: Vec<String>)
    requires
        cases@.len() == scores@.len(),
    ensures
        text::texts(lines@) == run_lines(*run, *totals, compare_last) + cases_lines(
            cases@,
            scores@,
            cases@.len(),
        ),
{
    let mut lines: Vec<String> = Vec::new();
    put(&mut lines, "eval_run_id: ", run.run_id.as_str());
    assert(text::texts(lines@) =~= listings::one_line("eval_run_id: "@, run.run_id@));
    put_some(&mut lines, "eval_suite: ", &run.suite_name);
    put_some(&mut lines, "eval_suite_hash: ", &run.suite_hash);
    put_count(&mut lines, "eval_total: ", totals.total_cases);
    put_count(&mut lines, "eval_passed: ", totals.passed_cases);
    put_count(&mut lines, "eval_failed: ", totals.failed_cases);
    if compare_last {
        put_all(&mut lines, list_previous(&run.previous_run, totals));
    }
    assert(text::texts(lines@) =~= run_lines(*run, *totals, compare_last));
    let ghost a = text::texts(lines@);
    let mut i: usize = 0;
    assert(a + cases_lines(cases@, scores@, 0) =~= a);
    while i < cases.len()
        invariant
            i <= cases.len(),
            cases@.len() == scores@.len(),
            text::texts(lines@) == a + cases_lines(cases@, scores@, i as nat),
        decreases cases.len() - i,
    {
        put_all(&mut lines, list_eval_case(&cases[i], &scores[i]));
        assert(a + cases_lines(cases@, scores@, (i + 1) as nat) =~= a + cases_lines(
            cases@,
            scores@,
            i as nat,
        ) + case_lines(cases@[i as int], scores@[i as int]));
        i += 1;
    }
    lines
}

} // verus!
