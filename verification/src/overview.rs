//! The overview of a project: one node for each kind of thing it has, and where each leads.
use vstd::prelude::*;
use crate::aggregate::count_distinct;
use crate::file_paths::code_directory;
use crate::graph::{
    memory_cluster_for_type, EdgeView, GraphEdge, GraphEdgeKind, GraphModel, GraphNode,
    GraphNodeKind, ModelView, NodeView,
};
use crate::memory_graph::empty_model;
use crate::records::{CodeRelation, CodeSymbol, Memory, MemoryEntity, MemoryGraph};
use crate::text::{cat2, cat4, cat6, decimal, owned, same_text};
use crate::{file_paths, graph, memory_graph, order, text};

verus! {

/// What part of a project is shown.
#[derive(Debug, Clone, Copy, PartialEq, Eq, Hash, Structural)]
pub enum GraphDomain {
    Memory,
    Code,
    Bridge,
}

impl GraphDomain {
    /// The word for a domain.
    pub open spec fn label_text(self) -> Seq<char> {
        match self {
            GraphDomain::Memory => "Память"@,
            GraphDomain::Code => "Код"@,
            GraphDomain::Bridge => "Связи"@,
        }
    }

    /// The word for a domain.
    pub fn label(self) -> (r: &'static str)
        ensures
            r@ == self.label_text(),
    {
        match self {
            GraphDomain::Memory => "Память",
            GraphDomain::Code => "Код",
            GraphDomain::Bridge => "Связи",
        }
    }
}

/// At what level of detail it is shown.
#[derive(Debug, Clone, Copy, PartialEq, Eq, Hash, Structural)]
pub enum GraphViewMode {
    Overview,
    Entities,
    Types,
    Clusters,
    Files,
}

impl GraphViewMode {
    /// The word for a level of detail.
    pub open spec fn label_text(self) -> Seq<char> {
        match self {
            GraphViewMode::Overview => "Обзор"@,
            GraphViewMode::Entities => "Объекты"@,
            GraphViewMode::Types => "Типы"@,
            GraphViewMode::Clusters => "Кластеры"@,
            GraphViewMode::Files => "Файлы"@,
        }
    }

    /// The word for a level of detail.
    pub fn label(self) -> (r: &'static str)
        ensures
            r@ == self.label_text(),
    {
        match self {
            GraphViewMode::Overview => "Обзор",
            GraphViewMode::Entities => "Объекты",
            GraphViewMode::Types => "Типы",
            GraphViewMode::Clusters => "Кластеры",
            GraphViewMode::Files => "Файлы",
        }
    }
}

/// The view that a node of the overview opens.
#[derive(Debug, Clone, Copy, PartialEq, Eq)]
pub struct OverviewNavigationTarget {
    pub domain: GraphDomain,
    pub view_mode: GraphViewMode,
    pub action_label: &'static str,
    pub show_facts: bool,
}

/// A navigation target by its text.
pub struct NavigationView {
    pub domain: GraphDomain,
    pub view_mode: GraphViewMode,
    pub action_label: Seq<char>,
    pub show_facts: bool,
}

impl View for OverviewNavigationTarget {
    type V = NavigationView;

    open spec fn view(&self) -> NavigationView {
        NavigationView {
            domain: self.domain,
            view_mode: self.view_mode,
            action_label: self.action_label@,
            show_facts: self.show_facts,
        }
    }
}

/// The view that a node of the overview opens.
pub open spec fn navigation_target(id: Seq<char>) -> Option<NavigationView> {
    let to = |domain: GraphDomain, view_mode: GraphViewMode, action_label: Seq<char>|
        Some(NavigationView { domain, view_mode, action_label, show_facts: false });
    if id == "overview:project"@ {
        to(GraphDomain::Memory, GraphViewMode::Overview, "К обзору проекта"@)
    } else if id == "overview:memory"@ {
        to(GraphDomain::Memory, GraphViewMode::Entities, "Открыть память"@)
    } else if id == "overview:entities"@ {
        to(GraphDomain::Memory, GraphViewMode::Entities, "Открыть сущности"@)
    } else if id == "overview:facts"@ {
        Some(
            NavigationView {
                domain: GraphDomain::Memory,
                view_mode: GraphViewMode::Entities,
                action_label: "Открыть факты"@,
                show_facts: true,
            },
        )
    } else if id == "overview:relations"@ {
        to(GraphDomain::Memory, GraphViewMode::Entities, "Открыть связи памяти"@)
    } else if id == "overview:memory-clusters"@ {
        to(GraphDomain::Memory, GraphViewMode::Clusters, "Открыть области памяти"@)
    } else if id == "overview:code"@ {
        to(GraphDomain::Code, GraphViewMode::Entities, "Открыть код"@)
    } else if id == "overview:files"@ {
        to(GraphDomain::Code, GraphViewMode::Files, "Открыть файлы"@)
    } else if id == "overview:code-clusters"@ {
        to(GraphDomain::Code, GraphViewMode::Clusters, "Открыть области кода"@)
    } else {
        None
    }
}

/// A target that does not show facts.
fn target_to(
    domain: GraphDomain,
    view_mode: GraphViewMode,
    action_label: &'static str,
) -> (r: Option<OverviewNavigationTarget>)
    ensures
        r is Some,
        r->0@ == (NavigationView {
            domain,
            view_mode,
            action_label: action_label@,
            show_facts: false,
        }),
{
    Some(OverviewNavigationTarget { domain, view_mode, action_label, show_facts: false })
}

/// The view of an optional navigation target.
pub open spec fn navigation_view(o: Option<OverviewNavigationTarget>) -> Option<NavigationView> {
    match o {
        Some(t) => Some(t@),
        None => None,
    }
}

/// The view that a node of the overview opens; another node opens none.
pub fn overview_navigation_target(node_id: &str) -> (r: Option<OverviewNavigationTarget>)
    ensures
        navigation_view(r) == navigation_target(node_id@),
{
    if same_text(node_id, "overview:project") {
        target_to(GraphDomain::Memory, GraphViewMode::Overview, "К обзору проекта")
    } else if same_text(node_id, "overview:memory") {
        target_to(GraphDomain::Memory, GraphViewMode::Entities, "Открыть память")
    } else if same_text(node_id, "overview:entities") {
        target_to(GraphDomain::Memory, GraphViewMode::Entities, "Открыть сущности")
    } else if same_text(node_id, "overview:facts") {
        Some(
            OverviewNavigationTarget {
                domain: GraphDomain::Memory,
                view_mode: GraphViewMode::Entities,
                action_label: "Открыть факты",
                show_facts: true,
            },
        )
    } else if same_text(node_id, "overview:relations") {
        target_to(GraphDomain::Memory, GraphViewMode::Entities, "Открыть связи памяти")
    } else if same_text(node_id, "overview:memory-clusters") {
        target_to(GraphDomain::Memory, GraphViewMode::Clusters, "Открыть области памяти")
    } else if same_text(node_id, "overview:code") {
        target_to(GraphDomain::Code, GraphViewMode::Entities, "Открыть код")
    } else if same_text(node_id, "overview:files") {
        target_to(GraphDomain::Code, GraphViewMode::Files, "Открыть файлы")
    } else if same_text(node_id, "overview:code-clusters") {
        target_to(GraphDomain::Code, GraphViewMode::Clusters, "Открыть области кода")
    } else {
        None
    }
}

// ---------------------------------------------------------------------------
// The overview
// ---------------------------------------------------------------------------

/// A number in decimal notation with words behind it.
pub open spec fn counted(n: nat, words: Seq<char>) -> Seq<char> {
    text::decimal_text(n) + words
}

/// Two numbers in decimal notation, each with words behind it.
pub open spec fn counted2(n: nat, words: Seq<char>, m: nat, more: Seq<char>) -> Seq<char> {
    text::decimal_text(n) + words + text::decimal_text(m) + more
}

/// The kinds of memories.
pub open spec fn memory_kinds(memories: Seq<Memory>) -> Seq<Seq<char>> {
    memories.map_values(|m: Memory| m.kind@)
}

/// The kinds of symbols.
pub open spec fn symbol_kinds(symbols: Seq<CodeSymbol>) -> Seq<Seq<char>> {
    symbols.map_values(|s: CodeSymbol| s.kind@)
}

/// The files of symbols.
pub open spec fn symbol_files(symbols: Seq<CodeSymbol>) -> Seq<Seq<char>> {
    symbols.map_values(|s: CodeSymbol| s.file_path@)
}

/// The directories of symbols.
pub open spec fn symbol_directories(symbols: Seq<CodeSymbol>) -> Seq<Seq<char>> {
    symbols.map_values(|s: CodeSymbol| file_paths::code_directory_text(s.file_path@))
}

/// Nodes with one more, where the condition holds.
pub open spec fn with_node_if(
    nodes: Seq<NodeView>,
    shown: bool,
    id: Seq<char>,
    label: Seq<char>,
    detail: Seq<char>,
    kind: GraphNodeKind,
) -> Seq<NodeView> {
    if shown {
        nodes.push(NodeView { id, label, detail, kind })
    } else {
        nodes
    }
}

/// The nodes of the overview: the project, then what it has of memories and of code.
pub open spec fn overview_nodes(
    memories: Seq<Memory>,
    g: MemoryGraph,
    symbols: Seq<CodeSymbol>,
) -> Seq<NodeView> {
    let entities = g.entities@;
    let clusters = order::distinct(memory_graph::entity_clusters(entities));
    let directories = order::distinct(symbol_directories(symbols));
    let n0 = seq![
        NodeView {
            id: "overview:project"@,
            label: "Проект"@,
            detail: text::decimal_text(memories.len()) + " памяти · "@ + text::decimal_text(
                entities.len(),
            ) + " сущн. · "@ + text::decimal_text(symbols.len()) + " симв."@,
            kind: GraphNodeKind::Cluster,
        },
    ];
    let n1 = with_node_if(
        n0,
        memories.len() > 0,
        "overview:memory"@,
        "Память"@,
        counted2(
            memories.len(),
            " записей · "@,
            order::distinct(memory_kinds(memories)),
            " типов"@,
        ),
        GraphNodeKind::Memory,
    );
    let n2 = with_node_if(
        n1,
        entities.len() > 0,
        "overview:entities"@,
        "Сущности"@,
        counted2(
            entities.len(),
            " объектов · "@,
            order::distinct(memory_graph::entity_types(entities)),
            " типов"@,
        ),
        GraphNodeKind::Entity,
    );
    let n3 = with_node_if(
        n2,
        g.facts@.len() > 0,
        "overview:facts"@,
        "Факты"@,
        counted(g.facts@.len(), " фактов"@),
        GraphNodeKind::Fact,
    );
    let n4 = with_node_if(
        n3,
        g.edges@.len() > 0,
        "overview:relations"@,
        "Связи памяти"@,
        counted(g.edges@.len(), " связей"@),
        GraphNodeKind::Type,
    );
    let n5 = with_node_if(
        n4,
        clusters > 1,
        "overview:memory-clusters"@,
        "Области памяти"@,
        counted(clusters, " кластеров"@),
        GraphNodeKind::Cluster,
    );
    let n6 = with_node_if(
        n5,
        symbols.len() > 0,
        "overview:code"@,
        "Код"@,
        counted2(
            symbols.len(),
            " символов · "@,
            order::distinct(symbol_kinds(symbols)),
            " видов"@,
        ),
        GraphNodeKind::CodeSymbol,
    );
    let n7 = with_node_if(
        n6,
        symbols.len() > 0,
        "overview:files"@,
        "Файлы"@,
        counted(order::distinct(symbol_files(symbols)), " файлов"@),
        GraphNodeKind::CodeFile,
    );
    with_node_if(
        n7,
        symbols.len() > 0 && directories > 1,
        "overview:code-clusters"@,
        "Области кода"@,
        counted(directories, " папок"@),
        GraphNodeKind::Cluster,
    )
}

/// Whether a node has the id.
pub open spec fn present(nodes: Seq<NodeView>, id: Seq<char>) -> bool {
    exists|i: int| 0 <= i < nodes.len() && (#[trigger] nodes[i]).id == id
}

/// Edges with one more, where both its ends are present; it weighs one at least.
pub open spec fn with_edge_if_present(
    edges: Seq<EdgeView>,
    nodes: Seq<NodeView>,
    id: Seq<char>,
    from: Seq<char>,
    to: Seq<char>,
    label: Seq<char>,
    weight: nat,
) -> Seq<EdgeView> {
    if present(nodes, from) && present(nodes, to) {
        edges.push(
            EdgeView {
                id,
                from,
                to,
                label,
                kind: GraphEdgeKind::Aggregate,
                weight: if weight < 1 {
                    1
                } else {
                    weight
                },
            },
        )
    } else {
        edges
    }
}

/// The edges of the overview, each where both its ends are present.
pub open spec fn overview_edges(
    nodes: Seq<NodeView>,
    memories: Seq<Memory>,
    g: MemoryGraph,
    symbols: Seq<CodeSymbol>,
    relations: Seq<CodeRelation>,
) -> Seq<EdgeView> {
    let e1 = with_edge_if_present(
        Seq::empty(),
        nodes,
        "overview-edge:project-memory"@,
        "overview:project"@,
        "overview:memory"@,
        "содержит"@,
        memories.len(),
    );
    let e2 = with_edge_if_present(
        e1,
        nodes,
        "overview-edge:memory-entities"@,
        "overview:memory"@,
        "overview:entities"@,
        "описывает"@,
        g.entities@.len(),
    );
    let e3 = with_edge_if_present(
        e2,
        nodes,
        "overview-edge:entities-facts"@,
        "overview:entities"@,
        "overview:facts"@,
        "имеет факты"@,
        g.facts@.len(),
    );
    let e4 = with_edge_if_present(
        e3,
        nodes,
        "overview-edge:entities-relations"@,
        "overview:entities"@,
        "overview:relations"@,
        "связаны"@,
        g.edges@.len(),
    );
    let e5 = with_edge_if_present(
        e4,
        nodes,
        "overview-edge:entities-clusters"@,
        "overview:entities"@,
        "overview:memory-clusters"@,
        "группируются"@,
        order::distinct(memory_graph::entity_clusters(g.entities@)),
    );
    let e6 = with_edge_if_present(
        e5,
        nodes,
        "overview-edge:project-code"@,
        "overview:project"@,
        "overview:code"@,
        "индексирует"@,
        symbols.len(),
    );
    let e7 = with_edge_if_present(
        e6,
        nodes,
        "overview-edge:code-files"@,
        "overview:code"@,
        "overview:files"@,
        "лежит в"@,
        symbols.len(),
    );
    let e8 = with_edge_if_present(
        e7,
        nodes,
        "overview-edge:files-clusters"@,
        "overview:files"@,
        "overview:code-clusters"@,
        "группируются"@,
        symbols.len(),
    );
    let e9 = with_edge_if_present(
        e8,
        nodes,
        "overview-edge:memory-code"@,
        "overview:memory"@,
        "overview:code"@,
        "связь с кодом"@,
        if memories.len() < symbols.len() {
            memories.len()
        } else {
            symbols.len()
        },
    );
    if relations.len() > 0 {
        with_edge_if_present(
            e9,
            nodes,
            "overview-edge:code-relations"@,
            "overview:code"@,
            "overview:files"@,
            "связи кода"@,
            relations.len(),
        )
    } else {
        e9
    }
}

/// Whether a project has neither memories nor a graph nor code.
pub open spec fn nothing_known(
    memories: Seq<Memory>,
    g: MemoryGraph,
    symbols: Seq<CodeSymbol>,
) -> bool {
    memories.len() == 0 && g.entities@.len() == 0 && g.facts@.len() == 0 && g.edges@.len() == 0
        && symbols.len() == 0
}

/// The overview of a project.
pub open spec fn overview_model(
    memories: Seq<Memory>,
    g: MemoryGraph,
    symbols: Seq<CodeSymbol>,
    relations: Seq<CodeRelation>,
) -> ModelView {
    if nothing_known(memories, g, symbols) {
        ModelView::empty()
    } else {
        let nodes = overview_nodes(memories, g, symbols);
        ModelView {
            nodes,
            edges: overview_edges(nodes, memories, g, symbols, relations),
            fallback: false,
        }
    }
}

/// Adds a node.
fn push_node(
    nodes: &mut Vec<GraphNode>,
    shown: bool,
    id: &str,
    label: &str,
    detail: String,
    kind: GraphNodeKind,
)
    ensures
        graph::node_views(final(nodes)@) == with_node_if(
            graph::node_views(old(nodes)@),
            shown,
            id@,
            label@,
            detail@,
            kind,
        ),
{
    if shown {
        let ghost before = nodes@;
        let ghost d = detail@;
        nodes.push(GraphNode { id: owned(id), label: owned(label), detail, kind });
        assert(graph::node_views(nodes@) =~= graph::node_views(before).push(
            NodeView { id: id@, label: label@, detail: d, kind },
        ));
    }
}

/// Whether a node has the id.
fn is_present(nodes: &Vec<GraphNode>, id: &str) -> (r: bool)
    ensures
        r == present(graph::node_views(nodes@), id@),
{
    let mut i: usize = 0;
    while i < nodes.len()
        invariant
            i <= nodes.len(),
            forall|j: int| 0 <= j < i ==> (#[trigger] graph::node_views(nodes@)[j]).id != id@,
        decreases nodes.len() - i,
    {
        assert(graph::node_views(nodes@)[i as int] == nodes@[i as int]@);
        if same_text(nodes[i].id.as_str(), id) {
            return true;
        }
        i += 1;
    }
    false
}

/// Adds an edge, where both its ends are present.
fn push_edge(
    edges: &mut Vec<GraphEdge>,
    nodes: &Vec<GraphNode>,
    id: &str,
    from: &str,
    to: &str,
    label: &str,
    weight: usize,
)
    ensures
        graph::edge_views(final(edges)@) == with_edge_if_present(
            graph::edge_views(old(edges)@),
            graph::node_views(nodes@),
            id@,
            from@,
            to@,
            label@,
            weight as nat,
        ),
{
    if is_present(nodes, from) && is_present(nodes, to) {
        let ghost before = edges@;
        edges.push(
            GraphEdge {
                id: owned(id),
                from: owned(from),
                to: owned(to),
                label: owned(label),
                kind: GraphEdgeKind::Aggregate,
                weight: if weight < 1 {
                    1
                } else {
                    weight
                },
            },
        );
        assert(graph::edge_views(edges@) =~= graph::edge_views(before).push(
            edges@[before.len() as int]@,
        ));
    }
}

/// How many kinds of memories there are.
fn count_memory_kinds(memories: &[Memory]) -> (n: usize)
    ensures
        n == order::distinct(memory_kinds(memories@)),
{
    let mut list: Vec<String> = Vec::new();
    let mut i: usize = 0;
    while i < memories.len()
        invariant
            i <= memories.len(),
            list.len() == i,
            forall|j: int| 0 <= j < i ==> (#[trigger] list@[j])@ == memories@[j].kind@,
        decreases memories.len() - i,
    {
        list.push(memories[i].kind.clone());
        i += 1;
    }
    assert(text::texts(list@) =~= memory_kinds(memories@));
    count_distinct(&list)
}

/// How many types and how many clusters of entities there are.
fn count_entity_groups(entities: &Vec<MemoryEntity>) -> (n: (usize, usize))
    ensures
        n.0 == order::distinct(memory_graph::entity_types(entities@)),
        n.1 == order::distinct(memory_graph::entity_clusters(entities@)),
{
    let mut types: Vec<String> = Vec::new();
    let mut clusters: Vec<String> = Vec::new();
    let mut i: usize = 0;
    while i < entities.len()
        invariant
            i <= entities.len(),
            types.len() == i,
            clusters.len() == i,
            forall|j: int| 0 <= j < i ==> (#[trigger] types@[j])@ == entities@[j].entity_type@,
            forall|j: int|
                0 <= j < i ==> (#[trigger] clusters@[j])@ == graph::cluster_of_type(
                    entities@[j].entity_type@,
                ),
        decreases entities.len() - i,
    {
        types.push(entities[i].entity_type.clone());
        let (cluster, _) = memory_cluster_for_type(entities[i].entity_type.as_str());
        clusters.push(owned(cluster));
        i += 1;
    }
    assert(text::texts(types@) =~= memory_graph::entity_types(entities@));
    assert(text::texts(clusters@) =~= memory_graph::entity_clusters(entities@));
    (count_distinct(&types), count_distinct(&clusters))
}

/// How many kinds, files and directories of symbols there are.
fn count_symbol_groups(symbols: &[CodeSymbol]) -> (n: (usize, usize, usize))
    ensures
        n.0 == order::distinct(symbol_kinds(symbols@)),
        n.1 == order::distinct(symbol_files(symbols@)),
        n.2 == order::distinct(symbol_directories(symbols@)),
{
    let mut kinds: Vec<String> = Vec::new();
    let mut files: Vec<String> = Vec::new();
    let mut dirs: Vec<String> = Vec::new();
    let mut i: usize = 0;
    while i < symbols.len()
        invariant
            i <= symbols.len(),
            kinds.len() == i,
            files.len() == i,
            dirs.len() == i,
            forall|j: int| 0 <= j < i ==> (#[trigger] kinds@[j])@ == symbols@[j].kind@,
            forall|j: int| 0 <= j < i ==> (#[trigger] files@[j])@ == symbols@[j].file_path@,
            forall|j: int|
                0 <= j < i ==> (#[trigger] dirs@[j])@ == file_paths::code_directory_text(
                    symbols@[j].file_path@,
                ),
        decreases symbols.len() - i,
    {
        kinds.push(symbols[i].kind.clone());
        files.push(symbols[i].file_path.clone());
        dirs.push(code_directory(symbols[i].file_path.as_str()));
        i += 1;
    }
    assert(text::texts(kinds@) =~= symbol_kinds(symbols@));
    assert(text::texts(files@) =~= symbol_files(symbols@));
    assert(text::texts(dirs@) =~= symbol_directories(symbols@));
    (count_distinct(&kinds), count_distinct(&files), count_distinct(&dirs))
}

/// A number in decimal notation with words behind it.
fn write_counted(n: usize, words: &str) -> (r: String)
    ensures
        r@ == counted(n as nat, words@),
{
    let d = decimal(n as u64);
    cat2(d.as_str(), words)
}

/// Two numbers in decimal notation, each with words behind it.
fn write_counted2(n: usize, words: &str, m: usize, more: &str) -> (r: String)
    ensures
        r@ == counted2(n as nat, words@, m as nat, more@),
{
    let d = decimal(n as u64);
    let e = decimal(m as u64);
    cat4(d.as_str(), words, e.as_str(), more)
}

/// Builds the nodes of the overview.
fn build_overview_nodes(
    memories: &[Memory],
    graph: &MemoryGraph,
    symbols: &[CodeSymbol],
    clusters: usize,
) -> (r: Vec<GraphNode>)
    requires
        clusters == order::distinct(memory_graph::entity_clusters(graph.entities@)),
    ensures
        graph::node_views(r@) == overview_nodes(memories@, *graph, symbols@),
{
    let kinds = count_memory_kinds(memories);
    let (types, _) = count_entity_groups(&graph.entities);
    let (symbol_kind_count, files, directories) = count_symbol_groups(symbols);
    let mut nodes: Vec<GraphNode> = Vec::new();
    let m = decimal(memories.len() as u64);
    let e = decimal(graph.entities.len() as u64);
    let s = decimal(symbols.len() as u64);
    nodes.push(
        GraphNode {
            id: owned("overview:project"),
            label: owned("Проект"),
            detail: cat6(
                m.as_str(),
                " памяти · ",
                e.as_str(),
                " сущн. · ",
                s.as_str(),
                " симв.",
            ),
            kind: GraphNodeKind::Cluster,
        },
    );
    assert(graph::node_views(nodes@) =~= seq![nodes@[0]@]);
    push_node(
        &mut nodes,
        memories.len() > 0,
        "overview:memory",
        "Память",
        write_counted2(memories.len(), " записей · ", kinds, " типов"),
        GraphNodeKind::Memory,
    );
    push_node(
        &mut nodes,
        graph.entities.len() > 0,
        "overview:entities",
        "Сущности",
        write_counted2(graph.entities.len(), " объектов · ", types, " типов"),
        GraphNodeKind::Entity,
    );
    push_node(
        &mut nodes,
        graph.facts.len() > 0,
        "overview:facts",
        "Факты",
        write_counted(graph.facts.len(), " фактов"),
        GraphNodeKind::Fact,
    );
    push_node(
        &mut nodes,
        graph.edges.len() > 0,
        "overview:relations",
        "Связи памяти",
        write_counted(graph.edges.len(), " связей"),
        GraphNodeKind::Type,
    );
    push_node(
        &mut nodes,
        clusters > 1,
        "overview:memory-clusters",
        "Области памяти",
        write_counted(clusters, " кластеров"),
        GraphNodeKind::Cluster,
    );
    push_node(
        &mut nodes,
        symbols.len() > 0,
        "overview:code",
        "Код",
        write_counted2(symbols.len(), " символов · ", symbol_kind_count, " видов"),
        GraphNodeKind::CodeSymbol,
    );
    push_node(
        &mut nodes,
        symbols.len() > 0,
        "overview:files",
        "Файлы",
        write_counted(files, " файлов"),
        GraphNodeKind::CodeFile,
    );
    push_node(
        &mut nodes,
        symbols.len() > 0 && directories > 1,
        "overview:code-clusters",
        "Области кода",
        write_counted(directories, " папок"),
        GraphNodeKind::Cluster,
    );
    nodes
}

/// Builds the overview of a project.
pub fn build_project_overview_model(
    memories: &[Memory],
    graph: &MemoryGraph,
    code_symbols: &[CodeSymbol],
    code_relations: &[CodeRelation],
) -> (r: GraphModel)
    ensures
        r@ == overview_model(memories@, *graph, code_symbols@, code_relations@),
{
    if memories.len() == 0 && graph.entities.len() == 0 && graph.facts.len() == 0
        && graph.edges.len() == 0 && code_symbols.len() == 0 {
        return empty_model();
    }
    let (_, clusters) = count_entity_groups(&graph.entities);
    let nodes = build_overview_nodes(memories, graph, code_symbols, clusters);
    let mut edges: Vec<GraphEdge> = Vec::new();
    assert(graph::edge_views(edges@) =~= Seq::<EdgeView>::empty());
    push_edge(
        &mut edges,
        &nodes,
        "overview-edge:project-memory",
        "overview:project",
        "overview:memory",
        "содержит",
        memories.len(),
    );
    push_edge(
        &mut edges,
        &nodes,
        "overview-edge:memory-entities",
        "overview:memory",
        "overview:entities",
        "описывает",
        graph.entities.len(),
    );
    push_edge(
        &mut edges,
        &nodes,
        "overview-edge:entities-facts",
        "overview:entities",
        "overview:facts",
        "имеет факты",
        graph.facts.len(),
    );
    push_edge(
        &mut edges,
        &nodes,
        "overview-edge:entities-relations",
        "overview:entities",
        "overview:relations",
        "связаны",
        graph.edges.len(),
    );
    push_edge(
        &mut edges,
        &nodes,
        "overview-edge:entities-clusters",
        "overview:entities",
        "overview:memory-clusters",
        "группируются",
        clusters,
    );
    push_edge(
        &mut edges,
        &nodes,
        "overview-edge:project-code",
        "overview:project",
        "overview:code",
        "индексирует",
        code_symbols.len(),
    );
    push_edge(
        &mut edges,
        &nodes,
        "overview-edge:code-files",
        "overview:code",
        "overview:files",
        "лежит в",
        code_symbols.len(),
    );
    push_edge(
        &mut edges,
        &nodes,
        "overview-edge:files-clusters",
        "overview:files",
        "overview:code-clusters",
        "группируются",
        code_symbols.len(),
    );
    push_edge(
        &mut edges,
        &nodes,
        "overview-edge:memory-code",
        "overview:memory",
        "overview:code",
        "связь с кодом",
        if memories.len() < code_symbols.len() {
            memories.len()
        } else {
            code_symbols.len()
        },
    );
    if code_relations.len() > 0 {
        push_edge(
            &mut edges,
            &nodes,
            "overview-edge:code-relations",
            "overview:code",
            "overview:files",
            "связи кода",
            code_relations.len(),
        );
    }
    GraphModel { nodes, edges, fallback: false }
}

} // verus!
