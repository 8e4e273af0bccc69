//! The stored records that the engine's decisions read.
use vstd::prelude::*;
use crate::text;

verus! {

/// A remembered statement.
#[derive(Debug, Clone, PartialEq, Eq)]
pub struct Memory {
    pub id: String,
    pub project_id: String,
    pub scope: String,
    pub memory_tier: String,
    pub kind: String,
    pub body: String,
    pub tags: Vec<String>,
    pub source: Option<String>,
    pub status: String,
    pub superseded_by: Option<String>,
    pub status_reason: Option<String>,
    pub usage_count: u64,
    pub last_used_at: Option<String>,
    pub created_at: String,
    pub updated_at: String,
}

/// A thing that memories speak of.
#[derive(Debug, Clone, PartialEq, Eq)]
pub struct MemoryEntity {
    pub id: String,
    pub project_id: String,
    pub entity_type: String,
    pub name: String,
    pub aliases: Vec<String>,
    pub description: Option<String>,
    pub created_at: String,
    pub updated_at: String,
}

/// A value stated of an entity.
#[derive(Debug, Clone, PartialEq, Eq)]
pub struct MemoryFact {
    pub id: String,
    pub project_id: String,
    pub entity_id: Option<String>,
    pub memory_id: Option<String>,
    pub episode_id: Option<String>,
    pub predicate: String,
    pub value: String,
    pub valid_from: Option<String>,
    pub valid_to: Option<String>,
    pub invalidated_by: Option<String>,
    pub observed_at: String,
}

/// A relation between two entities.
#[derive(Debug, Clone, PartialEq, Eq)]
pub struct MemoryEdge {
    pub id: String,
    pub project_id: String,
    pub from_entity_id: String,
    pub from_entity_name: String,
    pub to_entity_id: String,
    pub to_entity_name: String,
    pub relation_type: String,
    pub memory_id: Option<String>,
    pub episode_id: Option<String>,
    pub valid_from: Option<String>,
    pub valid_to: Option<String>,
    pub invalidated_by: Option<String>,
    pub observed_at: String,
}

/// The entities, facts and relations of a project.
#[derive(Debug, Clone, PartialEq, Eq)]
pub struct MemoryGraph {
    pub entities: Vec<MemoryEntity>,
    pub facts: Vec<MemoryFact>,
    pub edges: Vec<MemoryEdge>,
}

/// The graph of a project without any.
pub fn empty_graph() -> (r: MemoryGraph)
    ensures
        r.entities@.len() == 0,
        r.facts@.len() == 0,
        r.edges@.len() == 0,
{
    MemoryGraph { entities: Vec::new(), facts: Vec::new(), edges: Vec::new() }
}

/// A named piece of indexed source code.
#[derive(Debug, Clone, PartialEq, Eq)]
pub struct CodeSymbol {
    pub id: String,
    pub project_id: String,
    pub file_path: String,
    pub language: String,
    pub name: String,
    pub kind: String,
    pub signature: String,
    pub body: String,
    pub start_line: u32,
    pub end_line: u32,
    pub parent_id: Option<String>,
}

/// A reference from code to a name, with the symbol it resolves to where one is known.
#[derive(Debug, Clone, PartialEq, Eq)]
pub struct CodeRelation {
    pub id: String,
    pub project_id: String,
    pub from_symbol_id: Option<String>,
    pub from_file_path: String,
    pub relation_kind: String,
    pub target_name: String,
    pub target_symbol_id: Option<String>,
}

/// A reference from code to a name, by its values.
#[verifier::ext_equal]
pub struct RelationView {
    pub id: Seq<char>,
    pub project_id: Seq<char>,
    pub from_symbol_id: Option<Seq<char>>,
    pub from_file_path: Seq<char>,
    pub relation_kind: Seq<char>,
    pub target_name: Seq<char>,
    pub target_symbol_id: Option<Seq<char>>,
}

impl View for CodeRelation {
    type V = RelationView;

    open spec fn view(&self) -> RelationView {
        RelationView {
            id: self.id@,
            project_id: self.project_id@,
            from_symbol_id: text::opt_text(self.from_symbol_id),
            from_file_path: self.from_file_path@,
            relation_kind: self.relation_kind@,
            target_name: self.target_name@,
            target_symbol_id: text::opt_text(self.target_symbol_id),
        }
    }
}

/// Where a memory stands in its life.
#[derive(Debug, Clone, Copy, PartialEq, Eq, Hash, Structural)]
pub enum MemoryStatus {
    Pending,
    Active,
    Superseded,
    Archived,
}

/// Which statuses are wanted.
#[derive(Debug, Clone, Copy, PartialEq, Eq, Hash, Structural)]
pub enum StatusFilter {
    Any,
    One(MemoryStatus),
}

} // verus!
