//! What the program prints of single records, line by line. Numbers with a fraction come as they
//! are printed.
use vstd::prelude::*;
use vstd::string::*;
use crate::listings::{put, put_all, put_any, put_count, put_some};
use crate::memory_writes::CompactionProposal;
use crate::records::{Memory, MemoryEdge, MemoryFact};
use crate::text::{cat3, cat4, decimal, join_texts, owned};
use crate::{listings, text};

verus! {

// ---------------------------------------------------------------------------
// Memories
// ---------------------------------------------------------------------------

/// The numbers of a memory as they are printed.
#[derive(Debug, Clone, PartialEq, Eq)]
pub struct MemoryNumbers {
    pub importance: String,
    pub confidence: String,
    pub score: Option<String>,
}

/// The lines of a memory, after an empty one.
pub open spec fn memory_lines(m: Memory, n: MemoryNumbers) -> Seq<Seq<char>> {
    listings::one_line(""@, ""@) + listings::one_line("id: "@, m.id@) + listings::one_line(
        "project: "@,
        m.project_id@,
    ) + listings::one_line("scope: "@, m.scope@) + listings::one_line("kind: "@, m.kind@)
        + listings::one_line("status: "@, m.status@) + listings::one_line(
        "importance: "@,
        n.importance@,
    ) + listings::one_line("confidence: "@, n.confidence@) + listings::line_if_some(
        "score: "@,
        n.score,
    ) + listings::one_line("created_at: "@, m.created_at@) + listings::one_line(
        "updated_at: "@,
        m.updated_at@,
    ) + listings::line_if_any("tags: "@, m.tags@, ","@) + listings::line_if_some(
        "source: "@,
        m.source,
    ) + listings::line_if_some("superseded_by: "@, m.superseded_by) + listings::line_if_some(
        "status_reason: "@,
        m.status_reason,
    ) + listings::one_line(""@, m.body@)
}

/// The lines of a memory.
pub fn list_memory(memory: &Memory, numbers: &MemoryNumbers) -> (lines: Vec<String>)
    ensures
        text::texts(lines@) == memory_lines(*memory, *numbers),
{
    let mut lines: Vec<String> = Vec::new();
    put(&mut lines, "", "");
    assert(text::texts(lines@) =~= listings::one_line(""@, ""@));
    put(&mut lines, "id: ", memory.id.as_str());
    put(&mut lines, "project: ", memory.project_id.as_str());
    put(&mut lines, "scope: ", memory.scope.as_str());
    put(&mut lines, "kind: ", memory.kind.as_str());
    put(&mut lines, "status: ", memory.status.as_str());
    put(&mut lines, "importance: ", numbers.importance.as_str());
    put(&mut lines, "confidence: ", numbers.confidence.as_str());
    put_some(&mut lines, "score: ", &numbers.score);
    put(&mut lines, "created_at: ", memory.created_at.as_str());
    put(&mut lines, "updated_at: ", memory.updated_at.as_str());
    put_any(&mut lines, "tags: ", &memory.tags, ",");
    put_some(&mut lines, "source: ", &memory.source);
    put_some(&mut lines, "superseded_by: ", &memory.superseded_by);
    put_some(&mut lines, "status_reason: ", &memory.status_reason);
    put(&mut lines, "", memory.body.as_str());
    lines
}

/// The lines of a memory that is to be reviewed, after an empty one.
pub open spec fn review_lines(m: Memory, n: MemoryNumbers) -> Seq<Seq<char>> {
    listings::one_line(""@, ""@) + listings::one_line("id: "@, m.id@) + listings::one_line(
        "scope: "@,
        m.scope@,
    ) + listings::one_line("kind: "@, m.kind@) + listings::one_line(
        "importance: "@,
        n.importance@,
    ) + listings::one_line("confidence: "@, n.confidence@) + listings::line_if_any(
        "tags: "@,
        m.tags@,
        ","@,
    ) + listings::line_if_some("reason: "@, m.status_reason) + listings::one_line(
        "body: "@,
        m.body@,
    ) + listings::one_line("promote: cargo run -- promote "@, m.id@) + listings::one_line(
        "archive: cargo run -- archive "@,
        m.id@,
    )
}

/// The lines of a memory that is to be reviewed.
pub fn list_review_memory(memory: &Memory, numbers: &MemoryNumbers) -> (lines: Vec<String>)
    ensures
        text::texts(lines@) == review_lines(*memory, *numbers),
{
    let mut lines: Vec<String> = Vec::new();
    put(&mut lines, "", "");
    assert(text::texts(lines@) =~= listings::one_line(""@, ""@));
    put(&mut lines, "id: ", memory.id.as_str());
    put(&mut lines, "scope: ", memory.scope.as_str());
    put(&mut lines, "kind: ", memory.kind.as_str());
    put(&mut lines, "importance: ", numbers.importance.as_str());
    put(&mut lines, "confidence: ", numbers.confidence.as_str());
    put_any(&mut lines, "tags: ", &memory.tags, ",");
    put_some(&mut lines, "reason: ", &memory.status_reason);
    put(&mut lines, "body: ", memory.body.as_str());
    put(&mut lines, "promote: cargo run -- promote ", memory.id.as_str());
    put(&mut lines, "archive: cargo run -- archive ", memory.id.as_str());
    lines
}

/// The lines of a fact, after an empty one.
pub open spec fn fact_lines(f: MemoryFact, confidence: Seq<char>) -> Seq<Seq<char>> {
    listings::one_line(""@, ""@) + listings::one_line("fact_id: "@, f.id@) + listings::one_line(
        "project: "@,
        f.project_id@,
    ) + listings::line_if_some("entity_id: "@, f.entity_id) + listings::line_if_some(
        "memory_id: "@,
        f.memory_id,
    ) + listings::one_line("predicate: "@, f.predicate@) + listings::one_line("value: "@, f.value@)
        + listings::one_line("confidence: "@, confidence) + listings::one_line(
        "observed_at: "@,
        f.observed_at@,
    )
}

/// The lines of a fact.
pub fn list_memory_fact(fact: &MemoryFact, confidence: &str) -> (lines: Vec<String>)
    ensures
        text::texts(lines@) == fact_lines(*fact, confidence@),
{
    let mut lines: Vec<String> = Vec::new();
    put(&mut lines, "", "");
    assert(text::texts(lines@) =~= listings::one_line(""@, ""@));
    put(&mut lines, "fact_id: ", fact.id.as_str());
    put(&mut lines, "project: ", fact.project_id.as_str());
    put_some(&mut lines, "entity_id: ", &fact.entity_id);
    put_some(&mut lines, "memory_id: ", &fact.memory_id);
    put(&mut lines, "predicate: ", fact.predicate.as_str());
    put(&mut lines, "value: ", fact.value.as_str());
    put(&mut lines, "confidence: ", confidence);
    put(&mut lines, "observed_at: ", fact.observed_at.as_str());
    lines
}

/// A name with an id behind it.
pub open spec fn named(name: Seq<char>, id: Seq<char>) -> Seq<char> {
    name + " ("@ + id + ")"@
}

/// The lines of a relation between entities, after an empty one.
pub open spec fn edge_lines(e: MemoryEdge, confidence: Seq<char>) -> Seq<Seq<char>> {
    listings::one_line(""@, ""@) + listings::one_line("edge_id: "@, e.id@) + listings::one_line(
        "project: "@,
        e.project_id@,
    ) + listings::one_line("from: "@, named(e.from_entity_name@, e.from_entity_id@))
        + listings::one_line("relation_type: "@, e.relation_type@) + listings::one_line(
        "to: "@,
        named(e.to_entity_name@, e.to_entity_id@),
    ) + listings::line_if_some("memory_id: "@, e.memory_id) + listings::one_line(
        "confidence: "@,
        confidence,
    ) + listings::one_line("observed_at: "@, e.observed_at@)
}

/// The lines of a relation between entities.
pub fn list_memory_edge(edge: &MemoryEdge, confidence: &str) -> (lines: Vec<String>)
    ensures
        text::texts(lines@) == edge_lines(*edge, confidence@),
{
    let from = cat4(edge.from_entity_name.as_str(), " (", edge.from_entity_id.as_str(), ")");
    let to = cat4(edge.to_entity_name.as_str(), " (", edge.to_entity_id.as_str(), ")");
    let mut lines: Vec<String> = Vec::new();
    put(&mut lines, "", "");
    assert(text::texts(lines@) =~= listings::one_line(""@, ""@));
    put(&mut lines, "edge_id: ", edge.id.as_str());
    put(&mut lines, "project: ", edge.project_id.as_str());
    put(&mut lines, "from: ", from.as_str());
    put(&mut lines, "relation_type: ", edge.relation_type.as_str());
    put(&mut lines, "to: ", to.as_str());
    put_some(&mut lines, "memory_id: ", &edge.memory_id);
    put(&mut lines, "confidence: ", confidence);
    put(&mut lines, "observed_at: ", edge.observed_at.as_str());
    lines
}

/// The lines of a proposed summary.
pub open spec fn proposal_lines(
    p: CompactionProposal,
    importance: Seq<char>,
    confidence: Seq<char>,
) -> Seq<Seq<char>> {
    listings::one_line("model: "@, p.model@) + listings::one_line("summary_kind: "@, p.summary_kind@)
        + listings::one_line(
        "source_memories: "@,
        text::decimal_text(p.source_ids@.len()),
    ) + listings::one_line("importance: "@, importance) + listings::one_line(
        "confidence: "@,
        confidence,
    ) + listings::line_if_any("tags: "@, p.tags@, ","@) + listings::one_line("reason: "@, p.reason@)
        + listings::one_line(""@, ""@) + listings::one_line(""@, p.summary_body@)
}

/// The lines of a proposed summary.
pub fn list_compaction_proposal(
    proposal: &CompactionProposal,
    importance: &str,
    confidence: &str,
) -> (lines: Vec<String>)
    ensures
        text::texts(lines@) == proposal_lines(*proposal, importance@, confidence@),
{
    let mut lines: Vec<String> = Vec::new();
    put(&mut lines, "model: ", proposal.model.as_str());
    assert(text::texts(lines@) =~= listings::one_line("model: "@, proposal.model@));
    put(&mut lines, "summary_kind: ", proposal.summary_kind.as_str());
    put_count(&mut lines, "source_memories: ", proposal.source_ids.len());
    put(&mut lines, "importance: ", importance);
    put(&mut lines, "confidence: ", confidence);
    put_any(&mut lines, "tags: ", &proposal.tags, ",");
    put(&mut lines, "reason: ", proposal.reason.as_str());
    put(&mut lines, "", "");
    put(&mut lines, "", proposal.summary_body.as_str());
    lines
}

// ---------------------------------------------------------------------------
// Projects
// ---------------------------------------------------------------------------

/// A project as it is known.
#[derive(Debug, Clone, PartialEq, Eq)]
pub struct ProjectRecord {
    pub id: String,
    pub name: String,
    pub project_type: String,
    pub root_path: Option<String>,
    pub description: Option<String>,
    pub domains: Vec<String>,
    pub created_at: String,
    pub updated_at: String,
}

/// A value, or a word that stands for none.
pub open spec fn value_or(value: Option<String>, none: Seq<char>) -> Seq<char> {
    match value {
        Some(value) => value@,
        None => none,
    }
}

/// A value, or a word that stands for none.
fn text_or(value: &Option<String>, none: &str) -> (r: String)
    ensures
        r@ == value_or(*value, none@),
{
    match value {
        Some(value) => owned(value.as_str()),
        None => owned(none),
    }
}

/// The domains of a project in one line.
pub open spec fn domains_text(domains: Seq<String>) -> Seq<char> {
    if domains.len() == 0 {
        "<none>"@
    } else {
        text::joined(text::texts(domains), ","@)
    }
}

/// The lines of a project.
pub open spec fn profile_lines(p: ProjectRecord) -> Seq<Seq<char>> {
    listings::one_line("project: "@, p.id@) + listings::one_line("name: "@, p.name@)
        + listings::one_line("project_type: "@, p.project_type@) + listings::one_line(
        "root_path: "@,
        value_or(p.root_path, "<unset>"@),
    ) + listings::one_line("description: "@, value_or(p.description, "<unset>"@))
        + listings::one_line("domains: "@, domains_text(p.domains@)) + listings::one_line(
        "created_at: "@,
        p.created_at@,
    ) + listings::one_line("updated_at: "@, p.updated_at@)
}

/// The lines of a project.
pub fn list_project_profile(profile: &ProjectRecord) -> (lines: Vec<String>)
    ensures
        text::texts(lines@) == profile_lines(*profile),
{
    let root_path = text_or(&profile.root_path, "<unset>");
    let description = text_or(&profile.description, "<unset>");
    let domains = if profile.domains.len() == 0 {
        owned("<none>")
    } else {
        join_texts(profile.domains.as_slice(), ",")
    };
    let mut lines: Vec<String> = Vec::new();
    put(&mut lines, "project: ", profile.id.as_str());
    assert(text::texts(lines@) =~= listings::one_line("project: "@, profile.id@));
    put(&mut lines, "name: ", profile.name.as_str());
    put(&mut lines, "project_type: ", profile.project_type.as_str());
    put(&mut lines, "root_path: ", root_path.as_str());
    put(&mut lines, "description: ", description.as_str());
    put(&mut lines, "domains: ", domains.as_str());
    put(&mut lines, "created_at: ", profile.created_at.as_str());
    put(&mut lines, "updated_at: ", profile.updated_at.as_str());
    lines
}

// ---------------------------------------------------------------------------
// Notes on code
// ---------------------------------------------------------------------------

/// A memory that is linked to code; its confidence is as it is printed.
#[derive(Debug, Clone, PartialEq, Eq)]
pub struct CodeMemory {
    pub id: String,
    pub kind: String,
    pub status: String,
    pub link_status: String,
    pub confidence: String,
    pub symbol_id: Option<String>,
    pub file_path: Option<String>,
    pub symbol_name: Option<String>,
    pub symbol_kind: Option<String>,
    pub symbol_start_line: Option<u32>,
    pub symbol_end_line: Option<u32>,
    pub relink_attempts: u32,
    pub last_relinked_at: Option<String>,
    pub updated_at: String,
    pub tags: Vec<String>,
    pub source: Option<String>,
    pub body: String,
}

/// The number of a line, or a dash.
pub open spec fn line_number_text(line: Option<u32>) -> Seq<char> {
    match line {
        Some(line) => text::decimal_text(line as nat),
        None => "-"@,
    }
}

/// The number of a line, or a dash.
fn line_number(line: Option<u32>) -> (r: String)
    ensures
        r@ == line_number_text(line),
{
    match line {
        Some(line) => decimal(line as u64),
        None => owned("-"),
    }
}

/// The line on the symbol that a memory was linked to.
pub open spec fn snapshot_lines(m: CodeMemory) -> Seq<Seq<char>> {
    if m.symbol_name is Some || m.symbol_kind is Some {
        listings::one_line(
            "symbol_snapshot: "@,
            value_or(m.symbol_kind, "-"@) + " "@ + value_or(m.symbol_name, "-"@),
        )
    } else {
        Seq::empty()
    }
}

/// The line on the lines that a memory was linked to.
pub open spec fn span_lines(m: CodeMemory) -> Seq<Seq<char>> {
    if m.symbol_start_line is Some || m.symbol_end_line is Some {
        listings::one_line(
            "symbol_lines: "@,
            line_number_text(m.symbol_start_line) + "-"@ + line_number_text(m.symbol_end_line),
        )
    } else {
        Seq::empty()
    }
}

/// The line on how often a link was sought anew.
pub open spec fn relink_lines(m: CodeMemory) -> Seq<Seq<char>> {
    if m.relink_attempts > 0 {
        listings::one_line("relink_attempts: "@, text::decimal_text(m.relink_attempts as nat))
    } else {
        Seq::empty()
    }
}

/// The lines of a memory that is linked to code, after an empty one.
pub open spec fn code_memory_lines(m: CodeMemory) -> Seq<Seq<char>> {
    listings::one_line(""@, ""@) + listings::one_line("id: "@, m.id@) + listings::one_line(
        "kind: "@,
        m.kind@,
    ) + listings::one_line("status: "@, m.status@) + listings::one_line(
        "link_status: "@,
        m.link_status@,
    ) + listings::one_line("confidence: "@, m.confidence@) + listings::one_line(
        "symbol_id: "@,
        value_or(m.symbol_id, "-"@),
    ) + listings::one_line("file_path: "@, value_or(m.file_path, "-"@)) + snapshot_lines(m)
        + span_lines(m) + relink_lines(m) + listings::line_if_some(
        "last_relinked_at: "@,
        m.last_relinked_at,
    ) + listings::one_line("updated_at: "@, m.updated_at@) + listings::line_if_any(
        "tags: "@,
        m.tags@,
        ","@,
    ) + listings::line_if_some("source: "@, m.source) + listings::one_line("body: "@, m.body@)
}

/// The lines of a memory that is linked to code.
fn list_code_memory(memory: &CodeMemory) -> (lines: Vec<String>)
    ensures
        text::texts(lines@) == code_memory_lines(*memory),
{
    let symbol_id = text_or(&memory.symbol_id, "-");
    let file_path = text_or(&memory.file_path, "-");
    let mut lines: Vec<String> = Vec::new();
    put(&mut lines, "", "");
    assert(text::texts(lines@) =~= listings::one_line(""@, ""@));
    put(&mut lines, "id: ", memory.id.as_str());
    put(&mut lines, "kind: ", memory.kind.as_str());
    put(&mut lines, "status: ", memory.status.as_str());
    put(&mut lines, "link_status: ", memory.link_status.as_str());
    put(&mut lines, "confidence: ", memory.confidence.as_str());
    put(&mut lines, "symbol_id: ", symbol_id.as_str());
    put(&mut lines, "file_path: ", file_path.as_str());
    let ghost a = text::texts(lines@);
    if memory.symbol_name.is_some() || memory.symbol_kind.is_some() {
        let kind = text_or(&memory.symbol_kind, "-");
        let name = text_or(&memory.symbol_name, "-");
        let snapshot = cat3(kind.as_str(), " ", name.as_str());
        put(&mut lines, "symbol_snapshot: ", snapshot.as_str());
    }
    assert(text::texts(lines@) =~= a + snapshot_lines(*memory));
    let ghost b = text::texts(lines@);
    if memory.symbol_start_line.is_some() || memory.symbol_end_line.is_some() {
        let start = line_number(memory.symbol_start_line);
        let end = line_number(memory.symbol_end_line);
        let span = cat3(start.as_str(), "-", end.as_str());
        put(&mut lines, "symbol_lines: ", span.as_str());
    }
    assert(text::texts(lines@) =~= b + span_lines(*memory));
    let ghost c = text::texts(lines@);
    if memory.relink_attempts > 0 {
        let attempts = decimal(memory.relink_attempts as u64);
        put(&mut lines, "relink_attempts: ", attempts.as_str());
    }
    assert(text::texts(lines@) =~= c + relink_lines(*memory));
    put_some(&mut lines, "last_relinked_at: ", &memory.last_relinked_at);
    put(&mut lines, "updated_at: ", memory.updated_at.as_str());
    put_any(&mut lines, "tags: ", &memory.tags, ",");
    put_some(&mut lines, "source: ", &memory.source);
    put(&mut lines, "body: ", memory.body.as_str());
    lines
}

/// The lines of several memories that are linked to code.
pub open spec fn code_memories_lines(memories: Seq<CodeMemory>) -> Seq<Seq<char>>
    decreases memories.len(),
{
    if memories.len() == 0 {
        Seq::empty()
    } else {
        code_memories_lines(memories.drop_last()) + code_memory_lines(memories.last())
    }
}

/// The lines under a heading where there is nothing to list.
pub open spec fn nothing_listed() -> Seq<Seq<char>> {
    listings::one_line("- none"@, ""@)
}

/// The lines of memories that are linked to code, under a heading.
pub fn list_code_memories(header: &str, memories: &Vec<CodeMemory>) -> (lines: Vec<String>)
    ensures
        text::texts(lines@) == listings::one_line(header@, ""@) + (if memories@.len() == 0 {
            nothing_listed()
        } else {
            code_memories_lines(memories@)
        }),
{
    let mut lines: Vec<String> = Vec::new();
    put(&mut lines, header, "");
    assert(text::texts(lines@) =~= listings::one_line(header@, ""@));
    if memories.len() == 0 {
        put(&mut lines, "- none", "");
        return lines;
    }
    let ghost a = text::texts(lines@);
    let mut i: usize = 0;
    assert(memories@.take(0) =~= Seq::<CodeMemory>::empty());
    assert(a + code_memories_lines(memories@.take(0)) =~= a);
    while i < memories.len()
        invariant
            i <= memories.len(),
            text::texts(lines@) == a + code_memories_lines(memories@.take(i as int)),
        decreases memories.len() - i,
    {
        put_all(&mut lines, list_code_memory(&memories[i]));
        assert(memories@.take(i + 1).drop_last() =~= memories@.take(i as int));
        assert(a + code_memories_lines(memories@.take(i + 1)) =~= a + code_memories_lines(
            memories@.take(i as int),
        ) + code_memory_lines(memories@[i as int]));
        i += 1;
    }
    assert(memories@.take(i as int) =~= memories@);
    lines
}

/// A route of an application that was found in its code.
#[derive(Debug, Clone, PartialEq, Eq)]
pub struct CodeRouteHint {
    pub framework: String,
    pub route: String,
    pub method: Option<String>,
    pub file_path: String,
    pub symbol_id: String,
    pub symbol_name: String,
    pub evidence: String,
}

/// The lines of a route, after an empty one.
pub open spec fn route_lines(r: CodeRouteHint) -> Seq<Seq<char>> {
    listings::one_line(""@, ""@) + listings::one_line("framework: "@, r.framework@)
        + listings::one_line("route: "@, r.route@) + listings::one_line(
        "method: "@,
        value_or(r.method, "*"@),
    ) + listings::one_line("file: "@, r.file_path@) + listings::one_line(
        "symbol: "@,
        named(r.symbol_name@, r.symbol_id@),
    ) + listings::one_line("evidence: "@, r.evidence@)
}

/// The lines of a route.
fn list_route(route: &CodeRouteHint) -> (lines: Vec<String>)
    ensures
        text::texts(lines@) == route_lines(*route),
{
    let method = text_or(&route.method, "*");
    let symbol = cat4(route.symbol_name.as_str(), " (", route.symbol_id.as_str(), ")");
    let mut lines: Vec<String> = Vec::new();
    put(&mut lines, "", "");
    assert(text::texts(lines@) =~= listings::one_line(""@, ""@));
    put(&mut lines, "framework: ", route.framework.as_str());
    put(&mut lines, "route: ", route.route.as_str());
    put(&mut lines, "method: ", method.as_str());
    put(&mut lines, "file: ", route.file_path.as_str());
    put(&mut lines, "symbol: ", symbol.as_str());
    put(&mut lines, "evidence: ", route.evidence.as_str());
    lines
}

/// The lines of several routes.
pub open spec fn routes_lines(routes: Seq<CodeRouteHint>) -> Seq<Seq<char>>
    decreases routes.len(),
{
    if routes.len() == 0 {
        Seq::empty()
    } else {
        routes_lines(routes.drop_last()) + route_lines(routes.last())
    }
}

/// The lines of routes, under a heading.
pub fn list_route_hints(header: &str, routes: &Vec<CodeRouteHint>) -> (lines: Vec<String>)
    ensures
        text::texts(lines@) == listings::one_line(header@, ""@) + (if routes@.len() == 0 {
            nothing_listed()
        } else {
            routes_lines(routes@)
        }),
{
    let mut lines: Vec<String> = Vec::new();
    put(&mut lines, header, "");
    assert(text::texts(lines@) =~= listings::one_line(header@, ""@));
    if routes.len() == 0 {
        put(&mut lines, "- none", "");
        return lines;
    }
    let ghost a = text::texts(lines@);
    let mut i: usize = 0;
    assert(routes@.take(0) =~= Seq::<CodeRouteHint>::empty());
    assert(a + routes_lines(routes@.take(0)) =~= a);
    while i < routes.len()
        invariant
            i <= routes.len(),
            text::texts(lines@) == a + routes_lines(routes@.take(i as int)),
        decreases routes.len() - i,
    {
        put_all(&mut lines, list_route(&routes[i]));
        assert(routes@.take(i + 1).drop_last() =~= routes@.take(i as int));
        assert(a + routes_lines(routes@.take(i + 1)) =~= a + routes_lines(routes@.take(i as int))
            + route_lines(routes@[i as int]));
        i += 1;
    }
    assert(routes@.take(i as int) =~= routes@);
    lines
}

} // verus!
