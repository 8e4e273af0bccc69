//! The graph shown to the user: its nodes, edges and the names they get.
use vstd::prelude::*;
use crate::order::OrderedMap;
use crate::records::{CodeSymbol, Memory, MemoryEntity};
use crate::text::{
    cat2, cat3, cat5, contains_text, decimal, lowercase, owned, replace_char, same_text,
    trim, truncate_text, without_prefix,
};
use crate::{order, text};

verus! {

/// What is selected in the graph.
#[derive(Debug, PartialEq, Eq, Hash)]
pub enum GraphSelection {
    Overview,
    Node(String),
    Edge(String),
}

/// A selection by the text of its id.
pub enum SelectionView {
    Overview,
    Node(Seq<char>),
    Edge(Seq<char>),
}

impl View for GraphSelection {
    type V = SelectionView;

    open spec fn view(&self) -> SelectionView {
        match self {
            GraphSelection::Overview => SelectionView::Overview,
            GraphSelection::Node(id) => SelectionView::Node(id@),
            GraphSelection::Edge(id) => SelectionView::Edge(id@),
        }
    }
}

impl Clone for GraphSelection {
    fn clone(&self) -> (r: Self)
        ensures
            r@ == self@,
    {
        match self {
            GraphSelection::Overview => GraphSelection::Overview,
            GraphSelection::Node(id) => GraphSelection::Node(id.clone()),
            GraphSelection::Edge(id) => GraphSelection::Edge(id.clone()),
        }
    }
}

/// What a node stands for.
#[derive(Debug, Clone, Copy, PartialEq, Eq, Hash, Structural)]
pub enum GraphNodeKind {
    Cluster,
    Type,
    CodeSymbol,
    CodeFile,
    Entity,
    Memory,
    Fact,
}

impl GraphNodeKind {
    /// The word for a kind of node.
    pub open spec fn label_text(self) -> Seq<char> {
        match self {
            GraphNodeKind::Cluster => "кластер"@,
            GraphNodeKind::Type => "тип"@,
            GraphNodeKind::CodeSymbol => "символ"@,
            GraphNodeKind::CodeFile => "файл"@,
            GraphNodeKind::Entity => "сущность"@,
            GraphNodeKind::Memory => "память"@,
            GraphNodeKind::Fact => "факт"@,
        }
    }

    /// The word for a kind of node.
    pub fn label(self) -> (r: &'static str)
        ensures
            r@ == self.label_text(),
    {
        match self {
            GraphNodeKind::Cluster => "кластер",
            GraphNodeKind::Type => "тип",
            GraphNodeKind::CodeSymbol => "символ",
            GraphNodeKind::CodeFile => "файл",
            GraphNodeKind::Entity => "сущность",
            GraphNodeKind::Memory => "память",
            GraphNodeKind::Fact => "факт",
        }
    }
}

/// Where an edge comes from.
#[derive(Debug, Clone, Copy, PartialEq, Eq, Hash, Structural)]
pub enum GraphEdgeKind {
    Aggregate,
    CodeRelation,
    Explicit,
    Fact,
    Evidence,
    Derived,
}

impl GraphEdgeKind {
    /// The words for a kind of edge.
    pub open spec fn label_text(self) -> Seq<char> {
        match self {
            GraphEdgeKind::Aggregate => "сводная связь"@,
            GraphEdgeKind::CodeRelation => "связь кода"@,
            GraphEdgeKind::Explicit => "явная связь"@,
            GraphEdgeKind::Fact => "факт"@,
            GraphEdgeKind::Evidence => "основание"@,
            GraphEdgeKind::Derived => "метаданные"@,
        }
    }

    /// The words for a kind of edge.
    pub fn label(self) -> (r: &'static str)
        ensures
            r@ == self.label_text(),
    {
        match self {
            GraphEdgeKind::Aggregate => "сводная связь",
            GraphEdgeKind::CodeRelation => "связь кода",
            GraphEdgeKind::Explicit => "явная связь",
            GraphEdgeKind::Fact => "факт",
            GraphEdgeKind::Evidence => "основание",
            GraphEdgeKind::Derived => "метаданные",
        }
    }
}

/// A node of the graph.
#[derive(Debug)]
pub struct GraphNode {
    pub id: String,
    pub label: String,
    pub detail: String,
    pub kind: GraphNodeKind,
}

/// A node by its texts.
#[verifier::ext_equal]
pub struct NodeView {
    pub id: Seq<char>,
    pub label: Seq<char>,
    pub detail: Seq<char>,
    pub kind: GraphNodeKind,
}

impl View for GraphNode {
    type V = NodeView;

    open spec fn view(&self) -> NodeView {
        NodeView { id: self.id@, label: self.label@, detail: self.detail@, kind: self.kind }
    }
}

impl Clone for GraphNode {
    fn clone(&self) -> (r: Self)
        ensures
            r@ == self@,
    {
        GraphNode {
            id: self.id.clone(),
            label: self.label.clone(),
            detail: self.detail.clone(),
            kind: self.kind,
        }
    }
}

/// An edge of the graph.
#[derive(Debug)]
pub struct GraphEdge {
    pub id: String,
    pub from: String,
    pub to: String,
    pub label: String,
    pub kind: GraphEdgeKind,
    pub weight: usize,
}

/// An edge by its texts.
#[verifier::ext_equal]
pub struct EdgeView {
    pub id: Seq<char>,
    pub from: Seq<char>,
    pub to: Seq<char>,
    pub label: Seq<char>,
    pub kind: GraphEdgeKind,
    pub weight: nat,
}

impl View for GraphEdge {
    type V = EdgeView;

    open spec fn view(&self) -> EdgeView {
        EdgeView {
            id: self.id@,
            from: self.from@,
            to: self.to@,
            label: self.label@,
            kind: self.kind,
            weight: self.weight as nat,
        }
    }
}

impl Clone for GraphEdge {
    fn clone(&self) -> (r: Self)
        ensures
            r@ == self@,
    {
        GraphEdge {
            id: self.id.clone(),
            from: self.from.clone(),
            to: self.to.clone(),
            label: self.label.clone(),
            kind: self.kind,
            weight: self.weight,
        }
    }
}

/// A graph; `fallback` marks one that was derived from metadata alone.
#[derive(Debug)]
pub struct GraphModel {
    pub nodes: Vec<GraphNode>,
    pub edges: Vec<GraphEdge>,
    pub fallback: bool,
}

/// A graph by its texts.
#[verifier::ext_equal]
pub struct ModelView {
    pub nodes: Seq<NodeView>,
    pub edges: Seq<EdgeView>,
    pub fallback: bool,
}

/// The views of a sequence of nodes.
pub open spec fn node_views(s: Seq<GraphNode>) -> Seq<NodeView> {
    s.map_values(|n: GraphNode| n@)
}

/// The views of a sequence of edges.
pub open spec fn edge_views(s: Seq<GraphEdge>) -> Seq<EdgeView> {
    s.map_values(|e: GraphEdge| e@)
}

impl View for GraphModel {
    type V = ModelView;

    open spec fn view(&self) -> ModelView {
        ModelView {
            nodes: node_views(self.nodes@),
            edges: edge_views(self.edges@),
            fallback: self.fallback,
        }
    }
}

impl ModelView {
    /// The graph without nodes and edges.
    pub open spec fn empty() -> ModelView {
        ModelView { nodes: Seq::empty(), edges: Seq::empty(), fallback: false }
    }

    /// Whether a node has the id.
    pub open spec fn has_node(self, id: Seq<char>) -> bool {
        exists|i: int| 0 <= i < self.nodes.len() && (#[trigger] self.nodes[i]).id == id
    }

    /// Whether an edge has the id.
    pub open spec fn has_edge(self, id: Seq<char>) -> bool {
        exists|i: int| 0 <= i < self.edges.len() && (#[trigger] self.edges[i]).id == id
    }

    /// Whether the selection is of something in the graph.
    pub open spec fn has_selection(self, selection: SelectionView) -> bool {
        match selection {
            SelectionView::Overview => true,
            SelectionView::Node(id) => self.has_node(id),
            SelectionView::Edge(id) => self.has_edge(id),
        }
    }

    /// Every edge joins two nodes of the graph.
    pub open spec fn closed(self) -> bool {
        forall|i: int|
            0 <= i < self.edges.len() ==> self.has_node((#[trigger] self.edges[i]).from)
                && self.has_node(self.edges[i].to)
    }

    /// No two nodes have the same id.
    pub open spec fn unique_nodes(self) -> bool {
        forall|i: int, j: int|
            0 <= i < j < self.nodes.len() ==> (#[trigger] self.nodes[i]).id != (
            #[trigger] self.nodes[j]).id
    }

    /// No two edges have the same id.
    pub open spec fn unique_edges(self) -> bool {
        forall|i: int, j: int|
            0 <= i < j < self.edges.len() ==> (#[trigger] self.edges[i]).id != (
            #[trigger] self.edges[j]).id
    }

    /// No edge leads from a node to itself.
    pub open spec fn loop_free(self) -> bool {
        forall|i: int|
            0 <= i < self.edges.len() ==> (#[trigger] self.edges[i]).from != self.edges[i].to
    }
}

impl GraphModel {
    /// Whether the selection is of something in the graph.
    pub fn contains_selection(&self, selection: &GraphSelection) -> (r: bool)
        ensures
            r == self@.has_selection(selection@),
    {
        match selection {
            GraphSelection::Overview => true,
            GraphSelection::Node(id) => self.contains_node(id.as_str()),
            GraphSelection::Edge(id) => self.contains_edge(id.as_str()),
        }
    }

    /// Whether an edge has the id.
    pub fn contains_edge(&self, id: &str) -> (r: bool)
        ensures
            r == self@.has_edge(id@),
    {
        let mut i: usize = 0;
        while i < self.edges.len()
            invariant
                i <= self.edges.len(),
                forall|j: int| 0 <= j < i ==> (#[trigger] self@.edges[j]).id != id@,
            decreases self.edges.len() - i,
        {
            assert(self@.edges[i as int] == self.edges@[i as int]@);
            if same_text(self.edges[i].id.as_str(), id) {
                return true;
            }
            i += 1;
        }
        false
    }

    /// Whether a node has the id.
    pub fn contains_node(&self, id: &str) -> (r: bool)
        ensures
            r == self@.has_node(id@),
    {
        let mut i: usize = 0;
        while i < self.nodes.len()
            invariant
                i <= self.nodes.len(),
                forall|j: int| 0 <= j < i ==> (#[trigger] self@.nodes[j]).id != id@,
            decreases self.nodes.len() - i,
        {
            assert(self@.nodes[i as int] == self.nodes@[i as int]@);
            if same_text(self.nodes[i].id.as_str(), id) {
                return true;
            }
            i += 1;
        }
        false
    }
}

/// The label of the first node with the id, else the id itself.
pub open spec fn label_of(nodes: Seq<NodeView>, id: Seq<char>) -> Seq<char>
    decreases nodes.len(),
{
    if nodes.len() == 0 {
        id
    } else if nodes[0].id == id {
        nodes[0].label
    } else {
        label_of(nodes.drop_first(), id)
    }
}

/// The label of the first node with the id, else the id itself.
pub fn node_label<'a>(model: &'a GraphModel, id: &'a str) -> (r: &'a str)
    ensures
        r@ == label_of(model@.nodes, id@),
{
    let mut i: usize = 0;
    assert(model@.nodes.skip(0) =~= model@.nodes);
    while i < model.nodes.len()
        invariant
            i <= model.nodes.len(),
            label_of(model@.nodes, id@) == label_of(model@.nodes.skip(i as int), id@),
        decreases model.nodes.len() - i,
    {
        assert(model@.nodes.skip(i as int)[0] == model.nodes@[i as int]@);
        assert(model@.nodes.skip(i as int).drop_first() =~= model@.nodes.skip(i + 1));
        if same_text(model.nodes[i].id.as_str(), id) {
            return model.nodes[i].label.as_str();
        }
        i += 1;
    }
    id
}

// ---------------------------------------------------------------------------
// Ids
// ---------------------------------------------------------------------------

/// The node id of an entity.
pub fn entity_node_id(id: &str) -> (r: String)
    ensures
        r@ == "entity:"@ + id@,
{
    cat2("entity:", id)
}

/// The node id of an entity type.
pub fn type_node_id(entity_type: &str) -> (r: String)
    ensures
        r@ == "type:"@ + entity_type@,
{
    cat2("type:", entity_type)
}

/// The node id of a cluster of entities.
pub fn memory_cluster_node_id(cluster: &str) -> (r: String)
    ensures
        r@ == "memory-cluster:"@ + cluster@,
{
    cat2("memory-cluster:", cluster)
}

/// The node id of a kind of memory.
pub fn memory_kind_cluster_node_id(kind: &str) -> (r: String)
    ensures
        r@ == "memory-kind:"@ + kind@,
{
    cat2("memory-kind:", kind)
}

/// The node id of a code symbol.
pub fn code_node_id(id: &str) -> (r: String)
    ensures
        r@ == "code:"@ + id@,
{
    cat2("code:", id)
}

/// The node id of a kind of code symbol.
pub fn code_kind_node_id(kind: &str) -> (r: String)
    ensures
        r@ == "code-kind:"@ + kind@,
{
    cat2("code-kind:", kind)
}

/// The node id of a source file.
pub fn code_file_node_id(file_path: &str) -> (r: String)
    ensures
        r@ == "code-file:"@ + file_path@,
{
    cat2("code-file:", file_path)
}

/// The node id of a source directory.
pub fn code_dir_node_id(dir: &str) -> (r: String)
    ensures
        r@ == "code-dir:"@ + dir@,
{
    cat2("code-dir:", dir)
}

/// The node id of a memory.
pub fn memory_node_id(id: &str) -> (r: String)
    ensures
        r@ == "memory:"@ + id@,
{
    cat2("memory:", id)
}

/// The node id of a fact.
pub fn fact_node_id(id: &str) -> (r: String)
    ensures
        r@ == "fact:"@ + id@,
{
    cat2("fact:", id)
}

/// The edge id of a relation between entities.
pub fn edge_edge_id(id: &str) -> (r: String)
    ensures
        r@ == "edge:"@ + id@,
{
    cat2("edge:", id)
}

/// A graph id without the prefix that says what it is of.
pub open spec fn bare_id(id: Seq<char>) -> Seq<char> {
    if let Some(rest) = text::after_prefix(id, "overview:"@) {
        rest
    } else if let Some(rest) = text::after_prefix(id, "memory-cluster:"@) {
        rest
    } else if let Some(rest) = text::after_prefix(id, "memory-kind:"@) {
        rest
    } else if let Some(rest) = text::after_prefix(id, "code-dir:"@) {
        rest
    } else if let Some(rest) = text::after_prefix(id, "code-file:"@) {
        rest
    } else if let Some(rest) = text::after_prefix(id, "code:"@) {
        rest
    } else if let Some(rest) = text::after_prefix(id, "entity:"@) {
        rest
    } else if let Some(rest) = text::after_prefix(id, "fact:"@) {
        rest
    } else if let Some(rest) = text::after_prefix(id, "edge:"@) {
        rest
    } else {
        id
    }
}

/// A graph id without its prefix, cut to 36 characters.
pub fn compact_graph_id(id: &str) -> (r: String)
    ensures
        r@ == text::truncated(bare_id(id@), 36),
{
    let value: String = if let Some(rest) = without_prefix(id, "overview:") {
        rest
    } else if let Some(rest) = without_prefix(id, "memory-cluster:") {
        rest
    } else if let Some(rest) = without_prefix(id, "memory-kind:") {
        rest
    } else if let Some(rest) = without_prefix(id, "code-dir:") {
        rest
    } else if let Some(rest) = without_prefix(id, "code-file:") {
        rest
    } else if let Some(rest) = without_prefix(id, "code:") {
        rest
    } else if let Some(rest) = without_prefix(id, "entity:") {
        rest
    } else if let Some(rest) = without_prefix(id, "fact:") {
        rest
    } else if let Some(rest) = without_prefix(id, "edge:") {
        rest
    } else {
        owned(id)
    };
    truncate_text(value.as_str(), 36)
}

// ---------------------------------------------------------------------------
// Labels
// ---------------------------------------------------------------------------

/// The words for a memory status.
pub open spec fn status_label_text(status: Seq<char>) -> Seq<char> {
    if status == "active"@ {
        "активные"@
    } else if status == "pending"@ {
        "на проверке"@
    } else if status == "superseded"@ {
        "замененные"@
    } else if status == "archived"@ {
        "архив"@
    } else {
        status
    }
}

/// The words for a memory status.
pub fn status_label(status: &str) -> (r: &str)
    ensures
        r@ == status_label_text(status@),
{
    if same_text(status, "active") {
        "активные"
    } else if same_text(status, "pending") {
        "на проверке"
    } else if same_text(status, "superseded") {
        "замененные"
    } else if same_text(status, "archived") {
        "архив"
    } else {
        status
    }
}

/// The words for a relation; one without words of its own is shown with blanks for `_`.
pub open spec fn relation_text(relation: Seq<char>) -> Seq<char> {
    if relation == "uses"@ {
        "использует"@
    } else if relation == "depends_on"@ {
        "зависит от"@
    } else if relation == "enforces"@ {
        "закрепляет"@
    } else if relation == "replaces"@ {
        "заменяет"@
    } else if relation == "documents"@ {
        "документирует"@
    } else if relation == "runs_before"@ {
        "перед"@
    } else if relation == "runs_after"@ {
        "после"@
    } else if relation == "belongs_to"@ {
        "часть"@
    } else if relation == "fallbacks_to"@ {
        "резерв"@
    } else if relation == "storage"@ {
        "хранение"@
    } else if relation == "requires"@ {
        "требует"@
    } else if relation == "produces"@ {
        "создает"@
    } else if relation == "reads"@ {
        "читает"@
    } else if relation == "writes"@ {
        "пишет"@
    } else if relation == "calls"@ || relation == "call"@ || relation == "ra_call"@ {
        "вызывает"@
    } else if relation == "ra_reference"@ {
        "ссылается"@
    } else if relation == "declares_module"@ {
        "объявляет модуль"@
    } else if relation == "cargo_package"@ {
        "пакет"@
    } else if relation == "contains"@ {
        "содержит"@
    } else if relation == "mentions_code"@ {
        "упоминает код"@
    } else if relation == "relates_code"@ {
        "связано с кодом"@
    } else {
        text::with_char_replaced(relation, '_', ' ')
    }
}

/// The words for a relation.
pub fn display_relation(relation: &str) -> (r: String)
    ensures
        r@ == relation_text(relation@),
{
    let words: &str = if same_text(relation, "uses") {
        "использует"
    } else if same_text(relation, "depends_on") {
        "зависит от"
    } else if same_text(relation, "enforces") {
        "закрепляет"
    } else if same_text(relation, "replaces") {
        "заменяет"
    } else if same_text(relation, "documents") {
        "документирует"
    } else if same_text(relation, "runs_before") {
        "перед"
    } else if same_text(relation, "runs_after") {
        "после"
    } else if same_text(relation, "belongs_to") {
        "часть"
    } else if same_text(relation, "fallbacks_to") {
        "резерв"
    } else if same_text(relation, "storage") {
        "хранение"
    } else if same_text(relation, "requires") {
        "требует"
    } else if same_text(relation, "produces") {
        "создает"
    } else if same_text(relation, "reads") {
        "читает"
    } else if same_text(relation, "writes") {
        "пишет"
    } else if same_text(relation, "calls") || same_text(relation, "call") || same_text(
        relation,
        "ra_call",
    ) {
        "вызывает"
    } else if same_text(relation, "ra_reference") {
        "ссылается"
    } else if same_text(relation, "declares_module") {
        "объявляет модуль"
    } else if same_text(relation, "cargo_package") {
        "пакет"
    } else if same_text(relation, "contains") {
        "содержит"
    } else if same_text(relation, "mentions_code") {
        "упоминает код"
    } else if same_text(relation, "relates_code") {
        "связано с кодом"
    } else {
        return replace_char(relation, '_', ' ');
    };
    owned(words)
}

/// The cluster that entities of a type belong to.
pub open spec fn cluster_of_type(entity_type: Seq<char>) -> Seq<char> {
    let value = text::lowered(entity_type);
    if text::occurs_in("project"@, value) || text::occurs_in("domain"@, value) || text::occurs_in("product"@, value) {
        "project"@
    } else if text::occurs_in("code"@, value) || text::occurs_in("module"@, value) || text::occurs_in("file"@, value)
        || text::occurs_in("symbol"@, value) || text::occurs_in("api"@, value) || text::occurs_in("command"@, value)
        || text::occurs_in("tool"@, value) {
        "code"@
    } else if text::occurs_in("workflow"@, value) || text::occurs_in("process"@, value) || text::occurs_in(
        "hook"@,
        value,
    ) || text::occurs_in("automation"@, value) || text::occurs_in("pipeline"@, value) {
        "workflow"@
    } else if text::occurs_in("storage"@, value) || text::occurs_in("database"@, value) || text::occurs_in(
        "table"@,
        value,
    ) || text::occurs_in("schema"@, value) || text::occurs_in("index"@, value) {
        "storage"@
    } else if text::occurs_in("decision"@, value) || text::occurs_in("rule"@, value) || text::occurs_in(
        "policy"@,
        value,
    ) || text::occurs_in("constraint"@, value) {
        "rules"@
    } else {
        "other"@
    }
}

/// The words for a cluster of entities.
pub open spec fn cluster_label_text(cluster: Seq<char>) -> Seq<char> {
    if cluster == "project"@ {
        "Проекты"@
    } else if cluster == "code"@ {
        "Код и инструменты"@
    } else if cluster == "workflow"@ {
        "Процессы"@
    } else if cluster == "storage"@ {
        "Хранение"@
    } else if cluster == "rules"@ {
        "Решения и правила"@
    } else {
        "Остальное"@
    }
}

/// The words for a cluster of entities.
pub fn memory_cluster_label(cluster: &str) -> (r: &'static str)
    ensures
        r@ == cluster_label_text(cluster@),
{
    if same_text(cluster, "project") {
        "Проекты"
    } else if same_text(cluster, "code") {
        "Код и инструменты"
    } else if same_text(cluster, "workflow") {
        "Процессы"
    } else if same_text(cluster, "storage") {
        "Хранение"
    } else if same_text(cluster, "rules") {
        "Решения и правила"
    } else {
        "Остальное"
    }
}

/// The cluster that entities of a type belong to, and the words for it.
pub fn memory_cluster_for_type(entity_type: &str) -> (r: (&'static str, &'static str))
    ensures
        r.0@ == cluster_of_type(entity_type@),
        r.1@ == cluster_label_text(r.0@),
{
    let lower = lowercase(entity_type);
    let value: &str = lower.as_str();
    let cluster: &'static str = if contains_text(value, "project") || contains_text(value, "domain")
        || contains_text(value, "product") {
        "project"
    } else if contains_text(value, "code") || contains_text(value, "module") || contains_text(
        value,
        "file",
    ) || contains_text(value, "symbol") || contains_text(value, "api") || contains_text(
        value,
        "command",
    ) || contains_text(value, "tool") {
        "code"
    } else if contains_text(value, "workflow") || contains_text(value, "process") || contains_text(
        value,
        "hook",
    ) || contains_text(value, "automation") || contains_text(value, "pipeline") {
        "workflow"
    } else if contains_text(value, "storage") || contains_text(value, "database") || contains_text(
        value,
        "table",
    ) || contains_text(value, "schema") || contains_text(value, "index") {
        "storage"
    } else if contains_text(value, "decision") || contains_text(value, "rule") || contains_text(
        value,
        "policy",
    ) || contains_text(value, "constraint") {
        "rules"
    } else {
        "other"
    };
    (cluster, memory_cluster_label(cluster))
}

/// The words under a code symbol: its kind and where it stands.
pub open spec fn symbol_detail_text(symbol: CodeSymbol) -> Seq<char> {
    symbol.kind@ + " · "@ + symbol.file_path@ + ":"@ + text::decimal_text(symbol.start_line as nat)
}

/// The words under a code symbol: its kind and where it stands.
pub fn symbol_detail(symbol: &CodeSymbol) -> (r: String)
    ensures
        r@ == symbol_detail_text(*symbol),
{
    let line = decimal(symbol.start_line as u64);
    cat5(symbol.kind.as_str(), " · ", symbol.file_path.as_str(), ":", line.as_str())
}

/// The label of an edge that stands for `weight` relations.
pub open spec fn weighted_label(relation: Seq<char>, weight: nat) -> Seq<char> {
    if weight > 1 {
        relation_text(relation) + " ×"@ + text::decimal_text(weight)
    } else {
        relation_text(relation)
    }
}

/// An edge that stands for `weight` relations.
pub fn aggregate_edge(
    id: String,
    from: String,
    to: String,
    relation: &str,
    kind: GraphEdgeKind,
    weight: usize,
) -> (r: GraphEdge)
    ensures
        r@ == (EdgeView {
            id: id@,
            from: from@,
            to: to@,
            label: weighted_label(relation@, weight as nat),
            kind,
            weight: weight as nat,
        }),
{
    let relation_label = display_relation(relation);
    let label: String = if weight > 1 {
        let times = decimal(weight as u64);
        cat3(relation_label.as_str(), " ×", times.as_str())
    } else {
        relation_label
    };
    GraphEdge { id, from, to, label, kind, weight }
}

// ---------------------------------------------------------------------------
// Drafts
// ---------------------------------------------------------------------------

/// A graph under construction: nodes and edges by their ids.
pub struct Draft {
    pub nodes: OrderedMap<String, GraphNode>,
    pub edges: OrderedMap<String, GraphEdge>,
}

/// A draft by its texts.
#[verifier::ext_equal]
pub struct DraftView {
    pub nodes: Map<Seq<char>, NodeView>,
    pub edges: Map<Seq<char>, EdgeView>,
}

impl View for Draft {
    type V = DraftView;

    open spec fn view(&self) -> DraftView {
        DraftView { nodes: self.nodes@, edges: self.edges@ }
    }
}

impl DraftView {
    /// The draft of nothing.
    pub open spec fn empty() -> DraftView {
        DraftView { nodes: Map::empty(), edges: Map::empty() }
    }

    /// With a node in place of any that has its id.
    pub open spec fn put_node(self, n: NodeView) -> DraftView {
        DraftView { nodes: self.nodes.insert(n.id, n), ..self }
    }

    /// With a node, unless one has its id.
    pub open spec fn ensure_node(self, n: NodeView) -> DraftView {
        if self.nodes.dom().contains(n.id) {
            self
        } else {
            self.put_node(n)
        }
    }

    /// With an edge of weight one, unless it leads from a node to itself or one has its id.
    pub open spec fn add_edge(
        self,
        id: Seq<char>,
        from: Seq<char>,
        to: Seq<char>,
        label: Seq<char>,
        kind: GraphEdgeKind,
    ) -> DraftView {
        if from == to || self.edges.dom().contains(id) {
            self
        } else {
            DraftView {
                edges: self.edges.insert(id, EdgeView { id, from, to, label, kind, weight: 1 }),
                ..self
            }
        }
    }

    /// The graph of the draft: nodes and edges in the order of their ids.
    pub open spec fn model(self, fallback: bool) -> ModelView {
        ModelView {
            nodes: order::sorted_entries(self.nodes).map_values(
                |e: (Seq<char>, NodeView)| e.1,
            ),
            edges: order::sorted_entries(self.edges).map_values(
                |e: (Seq<char>, EdgeView)| e.1,
            ),
            fallback,
        }
    }
}

impl Draft {
    /// The invariant of a draft.
    pub open spec fn wf(&self) -> bool {
        self.nodes.wf() && self.edges.wf()
    }

    /// The draft of nothing.
    pub fn new() -> (r: Self)
        ensures
            r.wf(),
            r@ == DraftView::empty(),
    {
        Draft { nodes: OrderedMap::new(), edges: OrderedMap::new() }
    }

    /// Puts a node in place of any that has its id.
    pub fn put_node(&mut self, node: GraphNode)
        requires
            old(self).wf(),
        ensures
            final(self).wf(),
            final(self)@ == old(self)@.put_node(node@),
    {
        self.nodes.insert(node.id.clone(), node);
    }

    /// Puts a node, unless one has its id.
    pub fn ensure_node(&mut self, node: GraphNode)
        requires
            old(self).wf(),
        ensures
            final(self).wf(),
            final(self)@ == old(self)@.ensure_node(node@),
    {
        if !self.nodes.contains(&node.id) {
            self.nodes.insert(node.id.clone(), node);
        }
    }

    /// Adds an edge of weight one, unless it leads from a node to itself or one has its id.
    pub fn add_edge(
        &mut self,
        id: String,
        from: String,
        to: String,
        label: String,
        kind: GraphEdgeKind,
    )
        requires
            old(self).wf(),
        ensures
            final(self).wf(),
            final(self)@ == old(self)@.add_edge(id@, from@, to@, label@, kind),
    {
        if from == to {
            return ;
        }
        if !self.edges.contains(&id) {
            self.edges.insert(id.clone(), GraphEdge { id, from, to, label, kind, weight: 1 });
        }
    }

    /// The graph of the draft.
    pub fn into_model(self, fallback: bool) -> (r: GraphModel)
        requires
            self.wf(),
        ensures
            r@ == self@.model(fallback),
    {
        proof {
            self.nodes.lemma_lists();
            self.edges.lemma_lists();
        }
        let mut nodes: Vec<GraphNode> = Vec::new();
        let mut i: usize = 0;
        while i < self.nodes.entries.len()
            invariant
                i <= self.nodes.entries.len(),
                nodes.len() == i,
                forall|j: int| 0 <= j < i ==> (#[trigger] nodes@[j])@ == self.nodes.items()[j].1,
            decreases self.nodes.entries.len() - i,
        {
            nodes.push(self.nodes.entries[i].1.clone());
            i += 1;
        }
        let mut edges: Vec<GraphEdge> = Vec::new();
        let mut k: usize = 0;
        while k < self.edges.entries.len()
            invariant
                k <= self.edges.entries.len(),
                edges.len() == k,
                forall|j: int| 0 <= j < k ==> (#[trigger] edges@[j])@ == self.edges.items()[j].1,
            decreases self.edges.entries.len() - k,
        {
            edges.push(self.edges.entries[k].1.clone());
            k += 1;
        }
        let r = GraphModel { nodes, edges, fallback };
        assert(r@.nodes =~= self@.model(fallback).nodes);
        assert(r@.edges =~= self@.model(fallback).edges);
        r
    }
}

/// The node of a memory; one that is not at hand is shown by its id.
pub open spec fn memory_node(id: Seq<char>, memory: Option<Memory>) -> NodeView {
    NodeView {
        id: "memory:"@ + id,
        label: match memory {
            Some(m) => text::truncated(text::trimmed(m.body@), 48),
            None => "Память"@,
        },
        detail: match memory {
            Some(m) => m.kind@,
            None => id,
        },
        kind: GraphNodeKind::Memory,
    }
}

/// The node of an entity.
pub open spec fn entity_node(entity: MemoryEntity) -> NodeView {
    NodeView {
        id: "entity:"@ + entity.id@,
        label: entity.name@,
        detail: entity.entity_type@,
        kind: GraphNodeKind::Entity,
    }
}

/// Builds the node of an entity.
pub fn entity_graph_node(entity: &MemoryEntity) -> (r: GraphNode)
    ensures
        r@ == entity_node(*entity),
{
    GraphNode {
        id: entity_node_id(entity.id.as_str()),
        label: entity.name.clone(),
        detail: entity.entity_type.clone(),
        kind: GraphNodeKind::Entity,
    }
}

/// Puts the node of a memory, unless it is there.
pub fn ensure_memory_node(draft: &mut Draft, memory_id: &str, memory: Option<&Memory>)
    requires
        old(draft).wf(),
    ensures
        final(draft).wf(),
        final(draft)@ == old(draft)@.ensure_node(
            memory_node(
                memory_id@,
                match memory {
                    Some(m) => Some(*m),
                    None => None,
                },
            ),
        ),
{
    let node = match memory {
        Some(m) => {
            let body = trim(m.body.as_str());
            GraphNode {
                id: memory_node_id(memory_id),
                label: truncate_text(body.as_str(), 48),
                detail: m.kind.clone(),
                kind: GraphNodeKind::Memory,
            }
        },
        None => GraphNode {
            id: memory_node_id(memory_id),
            label: owned("Память"),
            detail: owned(memory_id),
            kind: GraphNodeKind::Memory,
        },
    };
    draft.ensure_node(node);
}

/// The last memory with the id.
pub open spec fn memory_by_id(memories: Seq<Memory>, id: Seq<char>) -> Option<Memory>
    decreases memories.len(),
{
    if memories.len() == 0 {
        None
    } else if memories.last().id@ == id {
        Some(memories.last())
    } else {
        memory_by_id(memories.drop_last(), id)
    }
}

/// The last memory with the id.
pub fn find_memory<'a>(memories: &'a [Memory], id: &str) -> (r: Option<&'a Memory>)
    ensures
        memory_by_id(memories@, id@) == (match r {
            Some(m) => Some(*m),
            None => None,
        }),
{
    let mut i: usize = memories.len();
    assert(memories@.take(i as int) =~= memories@);
    while i > 0
        invariant
            i <= memories.len(),
            memory_by_id(memories@, id@) == memory_by_id(memories@.take(i as int), id@),
        decreases i,
    {
        assert(memories@.take(i as int).drop_last() =~= memories@.take(i - 1));
        assert(memories@.take(i as int).last() == memories@[i - 1]);
        if same_text(memories[i - 1].id.as_str(), id) {
            return Some(&memories[i - 1]);
        }
        i -= 1;
    }
    None
}

// ---------------------------------------------------------------------------
// Laws of drafts
// ---------------------------------------------------------------------------

impl DraftView {
    /// Nodes and edges stand under their own ids, no edge leads from a node to itself.
    pub open spec fn sound(self) -> bool {
        &&& self.nodes.dom().finite()
        &&& self.edges.dom().finite()
        &&& forall|k: Seq<char>| #[trigger]
            self.nodes.dom().contains(k) ==> self.nodes[k].id == k
        &&& forall|k: Seq<char>| #[trigger]
            self.edges.dom().contains(k) ==> self.edges[k].id == k && self.edges[k].from
                != self.edges[k].to
    }

    /// Every edge joins two nodes of the draft.
    pub open spec fn closed(self) -> bool {
        forall|k: Seq<char>| #[trigger]
            self.edges.dom().contains(k) ==> self.nodes.dom().contains(self.edges[k].from)
                && self.nodes.dom().contains(self.edges[k].to)
    }

    /// A sound draft makes a graph with unique ids and no loops, which is closed where the draft
    /// is, and which holds exactly the nodes and edges of the draft.
    pub proof fn sound_model(self, fallback: bool)
        requires
            self.sound(),
        ensures
            self.model(fallback).unique_nodes(),
            self.model(fallback).unique_edges(),
            self.model(fallback).loop_free(),
            self.closed() ==> self.model(fallback).closed(),
            forall|id: Seq<char>|
                self.model(fallback).has_node(id) <==> #[trigger] self.nodes.dom().contains(id),
            forall|id: Seq<char>|
                self.model(fallback).has_edge(id) <==> #[trigger] self.edges.dom().contains(id),
    {
        let m = self.model(fallback);
        order::listing_exists(self.nodes);
        order::listing_exists(self.edges);
        let ns = order::sorted_entries(self.nodes);
        let es = order::sorted_entries(self.edges);
        assert forall|i: int, j: int| 0 <= i < j < m.nodes.len() implies (#[trigger] m.nodes[i]).id
            != (#[trigger] m.nodes[j]).id by {
            assert(self.nodes.contains_pair(ns[i].0, ns[i].1));
            assert(self.nodes.contains_pair(ns[j].0, ns[j].1));
            order::KeyOrder::irreflexive(ns[i].0);
        }
        assert forall|i: int, j: int| 0 <= i < j < m.edges.len() implies (#[trigger] m.edges[i]).id
            != (#[trigger] m.edges[j]).id by {
            assert(self.edges.contains_pair(es[i].0, es[i].1));
            assert(self.edges.contains_pair(es[j].0, es[j].1));
            order::KeyOrder::irreflexive(es[i].0);
        }
        assert forall|i: int| 0 <= i < m.edges.len() implies (#[trigger] m.edges[i]).from
            != m.edges[i].to by {
            assert(self.edges.contains_pair(es[i].0, es[i].1));
        }
        assert forall|id: Seq<char>|
            m.has_node(id) <==> #[trigger] self.nodes.dom().contains(id) by {
            if m.has_node(id) {
                let i = choose|i: int| 0 <= i < m.nodes.len() && (#[trigger] m.nodes[i]).id == id;
                assert(self.nodes.contains_pair(ns[i].0, ns[i].1));
            }
            if self.nodes.dom().contains(id) {
                let i = choose|i: int| 0 <= i < ns.len() && (#[trigger] ns[i]).0 == id;
                assert(self.nodes.contains_pair(ns[i].0, ns[i].1));
                assert(m.nodes[i].id == id);
            }
        }
        assert forall|id: Seq<char>|
            m.has_edge(id) <==> #[trigger] self.edges.dom().contains(id) by {
            if m.has_edge(id) {
                let i = choose|i: int| 0 <= i < m.edges.len() && (#[trigger] m.edges[i]).id == id;
                assert(self.edges.contains_pair(es[i].0, es[i].1));
            }
            if self.edges.dom().contains(id) {
                let i = choose|i: int| 0 <= i < es.len() && (#[trigger] es[i]).0 == id;
                assert(self.edges.contains_pair(es[i].0, es[i].1));
                assert(m.edges[i].id == id);
            }
        }
        if self.closed() {
            assert forall|i: int| 0 <= i < m.edges.len() implies m.has_node(
                (#[trigger] m.edges[i]).from,
            ) && m.has_node(m.edges[i].to) by {
                assert(self.edges.contains_pair(es[i].0, es[i].1));
                assert(self.nodes.dom().contains(m.edges[i].from));
                assert(self.nodes.dom().contains(m.edges[i].to));
            }
        }
    }
}

} // verus!
