//! What the areas and clusters of a project show: what the overview counts, what a cluster opens,
//! and by which words things are named and sorted.
use vstd::prelude::*;
use vstd::string::*;
use crate::code_graph::CodeGrouping;
use crate::graph::{EdgeView, GraphEdgeKind, GraphNodeKind, ModelView, NodeView};
use crate::overview::{GraphDomain, GraphViewMode};
use crate::records::{
    CodeRelation, CodeSymbol, Memory, MemoryEntity, MemoryGraph, MemoryStatus, StatusFilter,
};
use crate::viewer::MemoryStatusChoice;
use crate::{
    bridge, code_graph, drilldown, file_paths, filter, filter_laws, graph, memory_graph, order,
    overview, overview_laws, text, text_laws,
};

verus! {

// ---------------------------------------------------------------------------
// The overview
// ---------------------------------------------------------------------------

proof fn lemma_with_node(
    nodes: Seq<NodeView>,
    shown: bool,
    id: Seq<char>,
    label: Seq<char>,
    detail: Seq<char>,
    kind: GraphNodeKind,
)
    ensures
        shown ==> overview::with_node_if(nodes, shown, id, label, detail, kind).contains(
            NodeView { id, label, detail, kind },
        ),
        forall|n: NodeView| #[trigger]
            nodes.contains(n) ==> overview::with_node_if(
                nodes,
                shown,
                id,
                label,
                detail,
                kind,
            ).contains(n),
{
    let more = overview::with_node_if(nodes, shown, id, label, detail, kind);
    if shown {
        assert(more[nodes.len() as int] == NodeView { id, label, detail, kind });
    }
    assert forall|n: NodeView| #[trigger] nodes.contains(n) implies more.contains(n) by {
        let i = choose|i: int| 0 <= i < nodes.len() && nodes[i] == n;
        assert(more[i] == n);
    }
}

/// How many different texts are among these.
pub open spec fn kinds_among(s: Seq<Seq<char>>) -> nat {
    s.to_set().len()
}

/// An overview says of each area how much of it the project has: how many memories and of how many
/// kinds, how many entities and of how many types, how many facts and relations, how many symbols
/// of how many kinds in how many files, and, where there are several, how many clusters and
/// directories.
pub proof fn overview_counts_what_the_project_has(
    memories: Seq<Memory>,
    g: MemoryGraph,
    symbols: Seq<CodeSymbol>,
    relations: Seq<CodeRelation>,
)
    requires
        memories.len() > 0 || g.entities@.len() > 0 || g.facts@.len() > 0 || g.edges@.len() > 0
            || symbols.len() > 0,
    ensures
        ({
            let nodes = overview::overview_model(memories, g, symbols, relations).nodes;
            let entities = g.entities@;
            let clusters = kinds_among(
                entities.map_values(|e: MemoryEntity| graph::cluster_of_type(e.entity_type@)),
            );
            let directories = kinds_among(
                symbols.map_values(
                    |s: CodeSymbol| file_paths::code_directory_text(s.file_path@),
                ),
            );
            &&& nodes.contains(
                NodeView {
                    id: "overview:project"@,
                    label: "Проект"@,
                    detail: text::decimal_text(memories.len()) + " памяти · "@
                        + text::decimal_text(entities.len()) + " сущн. · "@ + text::decimal_text(
                        symbols.len(),
                    ) + " симв."@,
                    kind: GraphNodeKind::Cluster,
                },
            )
            &&& memories.len() > 0 ==> nodes.contains(
                NodeView {
                    id: "overview:memory"@,
                    label: "Память"@,
                    detail: text::decimal_text(memories.len()) + " записей · "@
                        + text::decimal_text(
                        kinds_among(memories.map_values(|m: Memory| m.kind@)),
                    ) + " типов"@,
                    kind: GraphNodeKind::Memory,
                },
            )
            &&& entities.len() > 0 ==> nodes.contains(
                NodeView {
                    id: "overview:entities"@,
                    label: "Сущности"@,
                    detail: text::decimal_text(entities.len()) + " объектов · "@
                        + text::decimal_text(
                        kinds_among(entities.map_values(|e: MemoryEntity| e.entity_type@)),
                    ) + " типов"@,
                    kind: GraphNodeKind::Entity,
                },
            )
            &&& g.facts@.len() > 0 ==> nodes.contains(
                NodeView {
                    id: "overview:facts"@,
                    label: "Факты"@,
                    detail: text::decimal_text(g.facts@.len()) + " фактов"@,
                    kind: GraphNodeKind::Fact,
                },
            )
            &&& g.edges@.len() > 0 ==> nodes.contains(
                NodeView {
                    id: "overview:relations"@,
                    label: "Связи памяти"@,
                    detail: text::decimal_text(g.edges@.len()) + " связей"@,
                    kind: GraphNodeKind::Type,
                },
            )
            &&& clusters > 1 ==> nodes.contains(
                NodeView {
                    id: "overview:memory-clusters"@,
                    label: "Области памяти"@,
                    detail: text::decimal_text(clusters) + " кластеров"@,
                    kind: GraphNodeKind::Cluster,
                },
            )
            &&& symbols.len() > 0 ==> nodes.contains(
                NodeView {
                    id: "overview:code"@,
                    label: "Код"@,
                    detail: text::decimal_text(symbols.len()) + " символов · "@
                        + text::decimal_text(
                        kinds_among(symbols.map_values(|s: CodeSymbol| s.kind@)),
                    ) + " видов"@,
                    kind: GraphNodeKind::CodeSymbol,
                },
            )
            &&& symbols.len() > 0 ==> nodes.contains(
                NodeView {
                    id: "overview:files"@,
                    label: "Файлы"@,
                    detail: text::decimal_text(
                        kinds_among(symbols.map_values(|s: CodeSymbol| s.file_path@)),
                    ) + " файлов"@,
                    kind: GraphNodeKind::CodeFile,
                },
            )
            &&& directories > 1 ==> nodes.contains(
                NodeView {
                    id: "overview:code-clusters"@,
                    label: "Области кода"@,
                    detail: text::decimal_text(directories) + " папок"@,
                    kind: GraphNodeKind::Cluster,
                },
            )
        }),
{
    let entities = g.entities@;
    let by_cluster = entities.map_values(
        |e: MemoryEntity| graph::cluster_of_type(e.entity_type@),
    );
    let by_directory = symbols.map_values(
        |s: CodeSymbol| file_paths::code_directory_text(s.file_path@),
    );
    assert(memory_graph::entity_clusters(entities) =~= by_cluster);
    assert(memory_graph::entity_types(entities) =~= entities.map_values(
        |e: MemoryEntity| e.entity_type@,
    ));
    assert(overview::memory_kinds(memories) =~= memories.map_values(|m: Memory| m.kind@));
    assert(overview::symbol_kinds(symbols) =~= symbols.map_values(|s: CodeSymbol| s.kind@));
    assert(overview::symbol_files(symbols) =~= symbols.map_values(|s: CodeSymbol| s.file_path@));
    assert(overview::symbol_directories(symbols) =~= by_directory);
    if symbols.len() == 0 {
        assert(by_directory.to_set() =~= Set::empty());
    }
    let clusters = order::distinct(by_cluster);
    let directories = order::distinct(by_directory);
    let d0 = text::decimal_text(memories.len()) + " памяти · "@ + text::decimal_text(entities.len())
        + " сущн. · "@ + text::decimal_text(symbols.len()) + " симв."@;
    let n0 = seq![
        NodeView {
            id: "overview:project"@,
            label: "Проект"@,
            detail: d0,
            kind: GraphNodeKind::Cluster,
        },
    ];
    assert(n0.contains(n0[0]));
    let d1 = overview::counted2(
        memories.len(),
        " записей · "@,
        order::distinct(overview::memory_kinds(memories)),
        " типов"@,
    );
    let l1 = "Память"@;
    lemma_with_node(n0, memories.len() > 0, "overview:memory"@, l1, d1, GraphNodeKind::Memory);
    let n1 = overview::with_node_if(
        n0,
        memories.len() > 0,
        "overview:memory"@,
        l1,
        d1,
        GraphNodeKind::Memory,
    );
    let d2 = overview::counted2(
        entities.len(),
        " объектов · "@,
        order::distinct(memory_graph::entity_types(entities)),
        " типов"@,
    );
    let l2 = "Сущности"@;
    lemma_with_node(n1, entities.len() > 0, "overview:entities"@, l2, d2, GraphNodeKind::Entity);
    let n2 = overview::with_node_if(
        n1,
        entities.len() > 0,
        "overview:entities"@,
        l2,
        d2,
        GraphNodeKind::Entity,
    );
    let d3 = overview::counted(g.facts@.len(), " фактов"@);
    let l3 = "Факты"@;
    lemma_with_node(n2, g.facts@.len() > 0, "overview:facts"@, l3, d3, GraphNodeKind::Fact);
    let n3 = overview::with_node_if(
        n2,
        g.facts@.len() > 0,
        "overview:facts"@,
        l3,
        d3,
        GraphNodeKind::Fact,
    );
    let d4 = overview::counted(g.edges@.len(), " связей"@);
    let l4 = "Связи памяти"@;
    lemma_with_node(n3, g.edges@.len() > 0, "overview:relations"@, l4, d4, GraphNodeKind::Type);
    let n4 = overview::with_node_if(
        n3,
        g.edges@.len() > 0,
        "overview:relations"@,
        l4,
        d4,
        GraphNodeKind::Type,
    );
    let d5 = overview::counted(clusters, " кластеров"@);
    let l5 = "Области памяти"@;
    lemma_with_node(
        n4,
        clusters > 1,
        "overview:memory-clusters"@,
        l5,
        d5,
        GraphNodeKind::Cluster,
    );
    let n5 = overview::with_node_if(
        n4,
        clusters > 1,
        "overview:memory-clusters"@,
        l5,
        d5,
        GraphNodeKind::Cluster,
    );
    let d6 = overview::counted2(
        symbols.len(),
        " символов · "@,
        order::distinct(overview::symbol_kinds(symbols)),
        " видов"@,
    );
    let l6 = "Код"@;
    lemma_with_node(n5, symbols.len() > 0, "overview:code"@, l6, d6, GraphNodeKind::CodeSymbol);
    let n6 = overview::with_node_if(
        n5,
        symbols.len() > 0,
        "overview:code"@,
        l6,
        d6,
        GraphNodeKind::CodeSymbol,
    );
    let d7 = overview::counted(order::distinct(overview::symbol_files(symbols)), " файлов"@);
    let l7 = "Файлы"@;
    lemma_with_node(n6, symbols.len() > 0, "overview:files"@, l7, d7, GraphNodeKind::CodeFile);
    let n7 = overview::with_node_if(
        n6,
        symbols.len() > 0,
        "overview:files"@,
        l7,
        d7,
        GraphNodeKind::CodeFile,
    );
    let d8 = overview::counted(directories, " папок"@);
    let l8 = "Области кода"@;
    lemma_with_node(
        n7,
        symbols.len() > 0 && directories > 1,
        "overview:code-clusters"@,
        l8,
        d8,
        GraphNodeKind::Cluster,
    );
    let n8 = overview::with_node_if(
        n7,
        symbols.len() > 0 && directories > 1,
        "overview:code-clusters"@,
        l8,
        d8,
        GraphNodeKind::Cluster,
    );
    assert(overview::overview_nodes(memories, g, symbols) == n8);
}

proof fn lemma_with_edge(
    edges: Seq<EdgeView>,
    nodes: Seq<NodeView>,
    id: Seq<char>,
    from: Seq<char>,
    to: Seq<char>,
    label: Seq<char>,
    weight: nat,
)
    ensures
        ({
            let more = overview::with_edge_if_present(edges, nodes, id, from, to, label, weight);
            &&& overview::present(nodes, from) && overview::present(nodes, to) ==> more.contains(
                link(id, from, to, label, weight),
            )
            &&& forall|e: EdgeView| #[trigger] edges.contains(e) ==> more.contains(e)
            &&& forall|i: int|
                0 <= i < more.len() ==> #[trigger] more[i] == link(id, from, to, label, weight)
                    || edges.contains(more[i])
        }),
{
    let more = overview::with_edge_if_present(edges, nodes, id, from, to, label, weight);
    if overview::present(nodes, from) && overview::present(nodes, to) {
        assert(more[edges.len() as int] == link(id, from, to, label, weight));
    }
    assert forall|e: EdgeView| #[trigger] edges.contains(e) implies more.contains(e) by {
        let i = choose|i: int| 0 <= i < edges.len() && edges[i] == e;
        assert(more[i] == e);
    }
    assert forall|i: int| 0 <= i < more.len() implies #[trigger] more[i] == link(
        id,
        from,
        to,
        label,
        weight,
    ) || edges.contains(more[i]) by {
        if i < edges.len() {
            assert(more[i] == edges[i]);
        }
    }
}

/// An edge of the overview, which weighs one at least.
pub open spec fn link(
    id: Seq<char>,
    from: Seq<char>,
    to: Seq<char>,
    label: Seq<char>,
    weight: nat,
) -> EdgeView {
    EdgeView {
        id,
        from,
        to,
        label,
        kind: GraphEdgeKind::Aggregate,
        weight: if weight == 0 {
            1
        } else {
            weight
        },
    }
}

/// An overview leads from the project to its memories and its code, from memories to entities and
/// to code, from entities to facts, relations and clusters, from code to files and from files to
/// directories, wherever both are there; each edge weighs as much as there is of what it leads to.
pub proof fn overview_leads_from_the_project_down(
    memories: Seq<Memory>,
    g: MemoryGraph,
    symbols: Seq<CodeSymbol>,
    relations: Seq<CodeRelation>,
)
    ensures
        ({
            let m = overview::overview_model(memories, g, symbols, relations);
            let entities = g.entities@;
            let clusters = kinds_among(
                entities.map_values(|e: MemoryEntity| graph::cluster_of_type(e.entity_type@)),
            );
            let fewer: nat = if memories.len() <= symbols.len() {
                memories.len()
            } else {
                symbols.len()
            };
            &&& memories.len() > 0 ==> m.edges.contains(
                link(
                    "overview-edge:project-memory"@,
                    "overview:project"@,
                    "overview:memory"@,
                    "содержит"@,
                    memories.len(),
                ),
            )
            &&& memories.len() > 0 && entities.len() > 0 ==> m.edges.contains(
                link(
                    "overview-edge:memory-entities"@,
                    "overview:memory"@,
                    "overview:entities"@,
                    "описывает"@,
                    entities.len(),
                ),
            )
            &&& entities.len() > 0 && g.facts@.len() > 0 ==> m.edges.contains(
                link(
                    "overview-edge:entities-facts"@,
                    "overview:entities"@,
                    "overview:facts"@,
                    "имеет факты"@,
                    g.facts@.len(),
                ),
            )
            &&& entities.len() > 0 && g.edges@.len() > 0 ==> m.edges.contains(
                link(
                    "overview-edge:entities-relations"@,
                    "overview:entities"@,
                    "overview:relations"@,
                    "связаны"@,
                    g.edges@.len(),
                ),
            )
            &&& entities.len() > 0 && clusters > 1 ==> m.edges.contains(
                link(
                    "overview-edge:entities-clusters"@,
                    "overview:entities"@,
                    "overview:memory-clusters"@,
                    "группируются"@,
                    clusters,
                ),
            )
            &&& symbols.len() > 0 ==> m.edges.contains(
                link(
                    "overview-edge:project-code"@,
                    "overview:project"@,
                    "overview:code"@,
                    "индексирует"@,
                    symbols.len(),
                ),
            )
            &&& symbols.len() > 0 ==> m.edges.contains(
                link(
                    "overview-edge:code-files"@,
                    "overview:code"@,
                    "overview:files"@,
                    "лежит в"@,
                    symbols.len(),
                ),
            )
            &&& symbols.len() > 0 && m.has_node("overview:code-clusters"@) ==> m.edges.contains(
                link(
                    "overview-edge:files-clusters"@,
                    "overview:files"@,
                    "overview:code-clusters"@,
                    "группируются"@,
                    symbols.len(),
                ),
            )
            &&& memories.len() > 0 && symbols.len() > 0 ==> m.edges.contains(
                link(
                    "overview-edge:memory-code"@,
                    "overview:memory"@,
                    "overview:code"@,
                    "связь с кодом"@,
                    fewer,
                ),
            )
            &&& symbols.len() > 0 && relations.len() > 0 ==> m.edges.contains(
                link(
                    "overview-edge:code-relations"@,
                    "overview:code"@,
                    "overview:files"@,
                    "связи кода"@,
                    relations.len(),
                ),
            )
            &&& relations.len() == 0 ==> forall|i: int|
                0 <= i < m.edges.len() ==> (#[trigger] m.edges[i]).label != "связи кода"@
        }),
{
    let entities = g.entities@;
    let by_cluster = entities.map_values(
        |e: MemoryEntity| graph::cluster_of_type(e.entity_type@),
    );
    assert(memory_graph::entity_clusters(entities) =~= by_cluster);
    if entities.len() == 0 {
        assert(by_cluster.to_set() =~= Set::empty());
    }
    overview_laws::overview_has_its_areas(memories, g, symbols, relations);
    let m = overview::overview_model(memories, g, symbols, relations);
    let nodes = overview::overview_nodes(memories, g, symbols);
    lemma_edges_lead_down(nodes, memories, g, symbols, relations);
    if !overview::nothing_known(memories, g, symbols) {
        assert(m.nodes == nodes);
        assert forall|x: Seq<char>| m.has_node(x) implies #[trigger] overview::present(nodes, x) by {
        }
    }
}

proof fn lemma_edges_lead_down(
    nodes: Seq<NodeView>,
    memories: Seq<Memory>,
    g: MemoryGraph,
    symbols: Seq<CodeSymbol>,
    relations: Seq<CodeRelation>,
)
    ensures
        ({
            let edges = overview::overview_edges(nodes, memories, g, symbols, relations);
            let clusters = order::distinct(memory_graph::entity_clusters(g.entities@));
            let fewer: nat = if memories.len() <= symbols.len() {
                memories.len()
            } else {
                symbols.len()
            };
            let at = |x: Seq<char>, y: Seq<char>|
                overview::present(nodes, x) && overview::present(nodes, y);
            &&& at("overview:project"@, "overview:memory"@) ==> edges.contains(
                link(
                    "overview-edge:project-memory"@,
                    "overview:project"@,
                    "overview:memory"@,
                    "содержит"@,
                    memories.len(),
                ),
            )
            &&& at("overview:memory"@, "overview:entities"@) ==> edges.contains(
                link(
                    "overview-edge:memory-entities"@,
                    "overview:memory"@,
                    "overview:entities"@,
                    "описывает"@,
                    g.entities@.len(),
                ),
            )
            &&& at("overview:entities"@, "overview:facts"@) ==> edges.contains(
                link(
                    "overview-edge:entities-facts"@,
                    "overview:entities"@,
                    "overview:facts"@,
                    "имеет факты"@,
                    g.facts@.len(),
                ),
            )
            &&& at("overview:entities"@, "overview:relations"@) ==> edges.contains(
                link(
                    "overview-edge:entities-relations"@,
                    "overview:entities"@,
                    "overview:relations"@,
                    "связаны"@,
                    g.edges@.len(),
                ),
            )
            &&& at("overview:entities"@, "overview:memory-clusters"@) ==> edges.contains(
                link(
                    "overview-edge:entities-clusters"@,
                    "overview:entities"@,
                    "overview:memory-clusters"@,
                    "группируются"@,
                    clusters,
                ),
            )
            &&& at("overview:project"@, "overview:code"@) ==> edges.contains(
                link(
                    "overview-edge:project-code"@,
                    "overview:project"@,
                    "overview:code"@,
                    "индексирует"@,
                    symbols.len(),
                ),
            )
            &&& at("overview:code"@, "overview:files"@) ==> edges.contains(
                link(
                    "overview-edge:code-files"@,
                    "overview:code"@,
                    "overview:files"@,
                    "лежит в"@,
                    symbols.len(),
                ),
            )
            &&& at("overview:files"@, "overview:code-clusters"@) ==> edges.contains(
                link(
                    "overview-edge:files-clusters"@,
                    "overview:files"@,
                    "overview:code-clusters"@,
                    "группируются"@,
                    symbols.len(),
                ),
            )
            &&& at("overview:memory"@, "overview:code"@) ==> edges.contains(
                link(
                    "overview-edge:memory-code"@,
                    "overview:memory"@,
                    "overview:code"@,
                    "связь с кодом"@,
                    fewer,
                ),
            )
            &&& at("overview:code"@, "overview:files"@) && relations.len() > 0 ==> edges.contains(
                link(
                    "overview-edge:code-relations"@,
                    "overview:code"@,
                    "overview:files"@,
                    "связи кода"@,
                    relations.len(),
                ),
            )
            &&& relations.len() == 0 ==> forall|i: int|
                0 <= i < edges.len() ==> (#[trigger] edges[i]).label != "связи кода"@
        }),
{
    let clusters = order::distinct(memory_graph::entity_clusters(g.entities@));
    let p = "overview:project"@;
    let mem = "overview:memory"@;
    let ent = "overview:entities"@;
    let facts = "overview:facts"@;
    let rel = "overview:relations"@;
    let mc = "overview:memory-clusters"@;
    let code = "overview:code"@;
    let files = "overview:files"@;
    let cc = "overview:code-clusters"@;
    let fewer: nat = if memories.len() < symbols.len() {
        memories.len()
    } else {
        symbols.len()
    };
    let i1 = "overview-edge:project-memory"@;
    let i2 = "overview-edge:memory-entities"@;
    let i3 = "overview-edge:entities-facts"@;
    let i4 = "overview-edge:entities-relations"@;
    let i5 = "overview-edge:entities-clusters"@;
    let i6 = "overview-edge:project-code"@;
    let i7 = "overview-edge:code-files"@;
    let i8 = "overview-edge:files-clusters"@;
    let i9 = "overview-edge:memory-code"@;
    let i10 = "overview-edge:code-relations"@;
    let e0 = Seq::<EdgeView>::empty();
    lemma_with_edge(e0, nodes, i1, p, mem, "содержит"@, memories.len());
    let e1 = overview::with_edge_if_present(e0, nodes, i1, p, mem, "содержит"@, memories.len());
    lemma_with_edge(e1, nodes, i2, mem, ent, "описывает"@, g.entities@.len());
    let e2 = overview::with_edge_if_present(
        e1,
        nodes,
        i2,
        mem,
        ent,
        "описывает"@,
        g.entities@.len(),
    );
    lemma_with_edge(e2, nodes, i3, ent, facts, "имеет факты"@, g.facts@.len());
    let e3 = overview::with_edge_if_present(
        e2,
        nodes,
        i3,
        ent,
        facts,
        "имеет факты"@,
        g.facts@.len(),
    );
    lemma_with_edge(e3, nodes, i4, ent, rel, "связаны"@, g.edges@.len());
    let e4 = overview::with_edge_if_present(e3, nodes, i4, ent, rel, "связаны"@, g.edges@.len());
    lemma_with_edge(e4, nodes, i5, ent, mc, "группируются"@, clusters);
    let e5 = overview::with_edge_if_present(e4, nodes, i5, ent, mc, "группируются"@, clusters);
    lemma_with_edge(e5, nodes, i6, p, code, "индексирует"@, symbols.len());
    let e6 = overview::with_edge_if_present(e5, nodes, i6, p, code, "индексирует"@, symbols.len());
    lemma_with_edge(e6, nodes, i7, code, files, "лежит в"@, symbols.len());
    let e7 = overview::with_edge_if_present(e6, nodes, i7, code, files, "лежит в"@, symbols.len());
    lemma_with_edge(e7, nodes, i8, files, cc, "группируются"@, symbols.len());
    let e8 = overview::with_edge_if_present(
        e7,
        nodes,
        i8,
        files,
        cc,
        "группируются"@,
        symbols.len(),
    );
    lemma_with_edge(e8, nodes, i9, mem, code, "связь с кодом"@, fewer);
    let e9 = overview::with_edge_if_present(e8, nodes, i9, mem, code, "связь с кодом"@, fewer);
    lemma_with_edge(e9, nodes, i10, code, files, "связи кода"@, relations.len());
    reveal_strlit("содержит");
    reveal_strlit("описывает");
    reveal_strlit("имеет факты");
    reveal_strlit("связаны");
    reveal_strlit("группируются");
    reveal_strlit("индексирует");
    reveal_strlit("лежит в");
    reveal_strlit("связь с кодом");
    reveal_strlit("связи кода");
    assert("связи кода"@.len() == 10);
    assert("содержит"@.len() == 8 && "описывает"@.len() == 9 && "имеет факты"@.len() == 11);
    assert("связаны"@.len() == 7 && "группируются"@.len() == 12 && "индексирует"@.len() == 11);
    assert("лежит в"@.len() == 7 && "связь с кодом"@.len() == 13);
    if relations.len() == 0 {
        let edges = overview::overview_edges(nodes, memories, g, symbols, relations);
        assert(edges == e9);
        assert forall|i: int| 0 <= i < edges.len() implies (#[trigger] edges[i]).label
            != "связи кода"@ by {
            lemma_labels(e0, e1, "связи кода"@, i1, p, mem, "содержит"@, memories.len());
            lemma_labels(e1, e2, "связи кода"@, i2, mem, ent, "описывает"@, g.entities@.len());
            lemma_labels(e2, e3, "связи кода"@, i3, ent, facts, "имеет факты"@, g.facts@.len());
            lemma_labels(e3, e4, "связи кода"@, i4, ent, rel, "связаны"@, g.edges@.len());
            lemma_labels(e4, e5, "связи кода"@, i5, ent, mc, "группируются"@, clusters);
            lemma_labels(e5, e6, "связи кода"@, i6, p, code, "индексирует"@, symbols.len());
            lemma_labels(e6, e7, "связи кода"@, i7, code, files, "лежит в"@, symbols.len());
            lemma_labels(e7, e8, "связи кода"@, i8, files, cc, "группируются"@, symbols.len());
            lemma_labels(e8, e9, "связи кода"@, i9, mem, code, "связь с кодом"@, fewer);
        }
    }
}

proof fn lemma_labels(
    edges: Seq<EdgeView>,
    more: Seq<EdgeView>,
    other: Seq<char>,
    id: Seq<char>,
    from: Seq<char>,
    to: Seq<char>,
    label: Seq<char>,
    weight: nat,
)
    requires
        label != other,
        forall|i: int| 0 <= i < edges.len() ==> (#[trigger] edges[i]).label != other,
        forall|i: int|
            0 <= i < more.len() ==> #[trigger] more[i] == link(id, from, to, label, weight)
                || edges.contains(more[i]),
    ensures
        forall|i: int| 0 <= i < more.len() ==> (#[trigger] more[i]).label != other,
{
}

// ---------------------------------------------------------------------------
// Drilling down
// ---------------------------------------------------------------------------

/// Whether a node is one of the members or stands at an edge with one.
pub open spec fn is_near(m: ModelView, members: Set<Seq<char>>, id: Seq<char>) -> bool {
    ||| members.contains(id)
    ||| exists|i: int|
        0 <= i < m.edges.len() && ((#[trigger] m.edges[i]).from == id && members.contains(
            m.edges[i].to,
        ) || m.edges[i].to == id && members.contains(m.edges[i].from))
}

/// Whether a graph is what stands around some members in another: its nodes are theirs and those
/// next to them, and its edges are those between these nodes.
pub open spec fn is_surroundings(
    shown: ModelView,
    m: ModelView,
    members: Set<Seq<char>>,
) -> bool {
    &&& forall|n: NodeView| #[trigger]
        shown.nodes.contains(n) <==> m.nodes.contains(n) && is_near(m, members, n.id)
    &&& forall|e: EdgeView| #[trigger]
        shown.edges.contains(e) <==> m.edges.contains(e) && shown.has_node(e.from)
            && shown.has_node(e.to)
}

proof fn lemma_near(m: ModelView, members: Set<Seq<char>>, id: Seq<char>)
    ensures
        filter::neighborhood(m.edges, members).contains(id) <==> is_near(m, members, id),
{
    if is_near(m, members, id) && !members.contains(id) {
        let i = choose|i: int|
            0 <= i < m.edges.len() && ((#[trigger] m.edges[i]).from == id && members.contains(
                m.edges[i].to,
            ) || m.edges[i].to == id && members.contains(m.edges[i].from));
        assert(filter::reaches(m.edges[i], members, id));
    }
}

proof fn lemma_drilldown(m: ModelView, members: Set<Seq<char>>)
    ensures
        filter::drilldown(m, members) is Some ==> is_surroundings(
            filter::drilldown(m, members)->0,
            m,
            members,
        ),
        filter::drilldown(m, members) is Some <==> exists|i: int|
            0 <= i < m.nodes.len() && is_near(m, members, (#[trigger] m.nodes[i]).id),
{
    filter_laws::drilldown_is_closed_part(m, members);
    let np = filter::node_in(filter::neighborhood(m.edges, members));
    let nodes = m.nodes.filter(np);
    if filter::drilldown(m, members) is Some {
        let r = filter::drilldown(m, members)->0;
        assert forall|n: NodeView| #[trigger] r.nodes.contains(n) <==> m.nodes.contains(n)
            && is_near(m, members, n.id) by {
            lemma_near(m, members, n.id);
            lemma_filter_contains(m.nodes, np, n);
        }
        let ep = filter::edge_in(filter::ids_of(nodes));
        assert forall|e: EdgeView| #[trigger] r.edges.contains(e) <==> m.edges.contains(e)
            && r.has_node(e.from) && r.has_node(e.to) by {
            lemma_filter_contains(m.edges, ep, e);
            assert(filter::ids_of(nodes).contains(e.from) <==> r.has_node(e.from));
            assert(filter::ids_of(nodes).contains(e.to) <==> r.has_node(e.to));
        }
    }
    if exists|i: int| 0 <= i < m.nodes.len() && is_near(m, members, (#[trigger] m.nodes[i]).id) {
        let i = choose|i: int|
            0 <= i < m.nodes.len() && is_near(m, members, (#[trigger] m.nodes[i]).id);
        lemma_near(m, members, m.nodes[i].id);
    }
    if filter::drilldown(m, members) is Some {
        let i = choose|i: int|
            0 <= i < m.nodes.len() && filter::neighborhood(m.edges, members).contains(
                (#[trigger] m.nodes[i]).id,
            );
        lemma_near(m, members, m.nodes[i].id);
    }
}

pub(crate) proof fn lemma_filter_contains<T>(s: Seq<T>, p: spec_fn(T) -> bool, x: T)
    ensures
        s.filter(p).contains(x) <==> s.contains(x) && p(x),
{
    if s.contains(x) && p(x) {
        let i = choose|i: int| 0 <= i < s.len() && s[i] == x;
        s.lemma_filter_contains(p, i);
    }
    if s.filter(p).contains(x) {
        let i = choose|i: int| 0 <= i < s.filter(p).len() && s.filter(p)[i] == x;
        filter_laws::lemma_filter_member(s, p, i);
    }
}

/// Whether an id is that of the node of an entity of a cluster.
pub open spec fn is_cluster_member(
    entities: Seq<MemoryEntity>,
    cluster: Seq<char>,
    id: Seq<char>,
) -> bool {
    exists|i: int|
        0 <= i < entities.len() && id == "entity:"@ + (#[trigger] entities[i]).id@
            && graph::cluster_of_type(entities[i].entity_type@) == cluster
}

proof fn lemma_cluster_seeds(entities: Seq<MemoryEntity>, cluster: Seq<char>, id: Seq<char>)
    ensures
        drilldown::cluster_seeds(entities, cluster).contains(id) <==> is_cluster_member(
            entities,
            cluster,
            id,
        ),
    decreases entities.len(),
{
    if entities.len() > 0 {
        let front = entities.drop_last();
        lemma_cluster_seeds(front, cluster, id);
        if is_cluster_member(front, cluster, id) {
            let i = choose|i: int|
                0 <= i < front.len() && id == "entity:"@ + (#[trigger] front[i]).id@
                    && graph::cluster_of_type(front[i].entity_type@) == cluster;
            assert(entities[i] == front[i]);
        }
        if is_cluster_member(entities, cluster, id) {
            let i = choose|i: int|
                0 <= i < entities.len() && id == "entity:"@ + (#[trigger] entities[i]).id@
                    && graph::cluster_of_type(entities[i].entity_type@) == cluster;
            if i < front.len() {
                assert(front[i] == entities[i]);
            }
        }
        if id == "entity:"@ + entities.last().id@ {
            assert(entities[entities.len() - 1] == entities.last());
        }
    }
}

/// Whether an id is that of the node of a file of a directory.
pub open spec fn is_file_of(symbols: Seq<CodeSymbol>, dir: Seq<char>, id: Seq<char>) -> bool {
    exists|i: int|
        0 <= i < symbols.len() && id == "code-file:"@ + (#[trigger] symbols[i]).file_path@
            && file_paths::code_directory_text(symbols[i].file_path@) == dir
}

/// Whether an id is that of the node of a symbol of a directory.
pub open spec fn is_symbol_of(symbols: Seq<CodeSymbol>, dir: Seq<char>, id: Seq<char>) -> bool {
    exists|i: int|
        0 <= i < symbols.len() && id == "code:"@ + (#[trigger] symbols[i]).id@
            && file_paths::code_directory_text(symbols[i].file_path@) == dir
}

proof fn lemma_code_seeds(symbols: Seq<CodeSymbol>, dir: Seq<char>, id: Seq<char>)
    ensures
        drilldown::file_seeds(symbols, dir).contains(id) <==> is_file_of(symbols, dir, id),
        drilldown::code_seeds(symbols, dir).contains(id) <==> is_file_of(symbols, dir, id)
            || is_symbol_of(symbols, dir, id),
    decreases symbols.len(),
{
    if symbols.len() > 0 {
        let front = symbols.drop_last();
        lemma_code_seeds(front, dir, id);
        let last = symbols.last();
        assert(symbols[symbols.len() - 1] == last);
        let here = file_paths::code_directory_text(last.file_path@) == dir;
        assert(is_file_of(symbols, dir, id) <==> is_file_of(front, dir, id) || here && id
            == "code-file:"@ + last.file_path@) by {
            if is_file_of(front, dir, id) {
                let i = choose|i: int|
                    0 <= i < front.len() && id == "code-file:"@ + (#[trigger] front[i]).file_path@
                        && file_paths::code_directory_text(front[i].file_path@) == dir;
                assert(symbols[i] == front[i]);
            }
            if is_file_of(symbols, dir, id) {
                let i = choose|i: int|
                    0 <= i < symbols.len() && id == "code-file:"@ + (
                    #[trigger] symbols[i]).file_path@ && file_paths::code_directory_text(
                        symbols[i].file_path@,
                    ) == dir;
                if i < front.len() {
                    assert(front[i] == symbols[i]);
                }
            }
        }
        assert(is_symbol_of(symbols, dir, id) <==> is_symbol_of(front, dir, id) || here && id
            == "code:"@ + last.id@) by {
            if is_symbol_of(front, dir, id) {
                let i = choose|i: int|
                    0 <= i < front.len() && id == "code:"@ + (#[trigger] front[i]).id@
                        && file_paths::code_directory_text(front[i].file_path@) == dir;
                assert(symbols[i] == front[i]);
            }
            if is_symbol_of(symbols, dir, id) {
                let i = choose|i: int|
                    0 <= i < symbols.len() && id == "code:"@ + (#[trigger] symbols[i]).id@
                        && file_paths::code_directory_text(symbols[i].file_path@) == dir;
                if i < front.len() {
                    assert(front[i] == symbols[i]);
                }
            }
        }
    }
}

/// Whether an id is that of the node of a memory of a kind.
pub open spec fn is_memory_of(memories: Seq<Memory>, kind: Seq<char>, id: Seq<char>) -> bool {
    exists|i: int|
        0 <= i < memories.len() && id == "memory:"@ + (#[trigger] memories[i]).id@
            && memories[i].kind@ == kind
}

proof fn lemma_kind_seeds(memories: Seq<Memory>, kind: Seq<char>, id: Seq<char>)
    ensures
        drilldown::kind_seeds(memories, kind).contains(id) <==> is_memory_of(memories, kind, id),
    decreases memories.len(),
{
    if memories.len() > 0 {
        let front = memories.drop_last();
        lemma_kind_seeds(front, kind, id);
        assert(memories[memories.len() - 1] == memories.last());
        if is_memory_of(front, kind, id) {
            let i = choose|i: int|
                0 <= i < front.len() && id == "memory:"@ + (#[trigger] front[i]).id@
                    && front[i].kind@ == kind;
            assert(memories[i] == front[i]);
        }
        if is_memory_of(memories, kind, id) {
            let i = choose|i: int|
                0 <= i < memories.len() && id == "memory:"@ + (#[trigger] memories[i]).id@
                    && memories[i].kind@ == kind;
            if i < front.len() {
                assert(front[i] == memories[i]);
            }
        }
    }
}

/// A cluster of entities opens to the part of the map around the entities of that cluster, a
/// directory to the part of the file map around its files; where none of them is there, it does
/// not open.
pub proof fn clusters_open_to_their_members(
    memories: Seq<Memory>,
    g: MemoryGraph,
    symbols: Seq<CodeSymbol>,
    relations: Seq<CodeRelation>,
    name: Seq<char>,
)
    ensures
        ({
            let m = memory_graph::relationship_model(memories, g);
            let members = Set::new(|id: Seq<char>| is_cluster_member(g.entities@, name, id));
            let shown = drilldown::memory_cluster_drilldown(
                memories,
                g,
                "memory-cluster:"@ + name,
            );
            &&& shown is Some ==> is_surroundings(shown->0, m, members)
            &&& shown is Some <==> exists|i: int|
                0 <= i < m.nodes.len() && is_near(m, members, (#[trigger] m.nodes[i]).id)
        }),
        ({
            let m = code_graph::code_group_model(CodeGrouping::File, symbols, relations);
            let members = Set::new(|id: Seq<char>| is_file_of(symbols, name, id));
            let shown = drilldown::code_cluster_drilldown(symbols, relations, "code-dir:"@ + name);
            &&& shown is Some ==> is_surroundings(shown->0, m, members)
            &&& shown is Some <==> exists|i: int|
                0 <= i < m.nodes.len() && is_near(m, members, (#[trigger] m.nodes[i]).id)
        }),
{
    text_laws::prefixes_come_off("memory-cluster:"@, name, Seq::empty());
    text_laws::prefixes_come_off("code-dir:"@, name, Seq::empty());
    let a = Set::new(|id: Seq<char>| is_cluster_member(g.entities@, name, id));
    assert(a =~= drilldown::cluster_seeds(g.entities@, name)) by {
        assert forall|id: Seq<char>| a.contains(id) <==> #[trigger] drilldown::cluster_seeds(
            g.entities@,
            name,
        ).contains(id) by {
            lemma_cluster_seeds(g.entities@, name, id);
        }
    }
    lemma_drilldown(memory_graph::relationship_model(memories, g), a);
    let b = Set::new(|id: Seq<char>| is_file_of(symbols, name, id));
    assert(b =~= drilldown::file_seeds(symbols, name)) by {
        assert forall|id: Seq<char>| b.contains(id) <==> #[trigger] drilldown::file_seeds(
            symbols,
            name,
        ).contains(id) by {
            lemma_code_seeds(symbols, name, id);
        }
    }
    lemma_drilldown(code_graph::code_group_model(CodeGrouping::File, symbols, relations), b);
}

/// A text does not begin with what differs from it in some place.
proof fn lemma_no_prefix(s: Seq<char>, prefix: Seq<char>, i: int)
    requires
        0 <= i < prefix.len(),
        i < s.len(),
        s[i] != prefix[i],
    ensures
        text::after_prefix(s, prefix) is None,
{
    if text::begins_with(s, prefix) {
        assert(s.subrange(0, prefix.len() as int)[i] == s[i]);
    }
}

/// A cluster of the bridge opens to the part of the bridge around the memories of its kind, the
/// entities of its cluster, or the files and symbols of its directory.
pub proof fn bridge_clusters_open_to_their_members(
    memories: Seq<Memory>,
    g: MemoryGraph,
    symbols: Seq<CodeSymbol>,
    name: Seq<char>,
)
    ensures
        ({
            let m = bridge::bridge_model(memories, g, symbols);
            let members = Set::new(|id: Seq<char>| is_memory_of(memories, name, id));
            let shown = drilldown::bridge_cluster_drilldown(
                memories,
                g,
                symbols,
                "memory-kind:"@ + name,
            );
            &&& shown is Some ==> is_surroundings(shown->0, m, members)
            &&& shown is Some <==> exists|i: int|
                0 <= i < m.nodes.len() && is_near(m, members, (#[trigger] m.nodes[i]).id)
        }),
        ({
            let m = bridge::bridge_model(memories, g, symbols);
            let members = Set::new(|id: Seq<char>| is_cluster_member(g.entities@, name, id));
            let shown = drilldown::bridge_cluster_drilldown(
                memories,
                g,
                symbols,
                "memory-cluster:"@ + name,
            );
            &&& shown is Some ==> is_surroundings(shown->0, m, members)
            &&& shown is Some <==> exists|i: int|
                0 <= i < m.nodes.len() && is_near(m, members, (#[trigger] m.nodes[i]).id)
        }),
        ({
            let m = bridge::bridge_model(memories, g, symbols);
            let members = Set::new(
                |id: Seq<char>| is_file_of(symbols, name, id) || is_symbol_of(symbols, name, id),
            );
            let shown = drilldown::bridge_cluster_drilldown(
                memories,
                g,
                symbols,
                "code-dir:"@ + name,
            );
            &&& shown is Some ==> is_surroundings(shown->0, m, members)
            &&& shown is Some <==> exists|i: int|
                0 <= i < m.nodes.len() && is_near(m, members, (#[trigger] m.nodes[i]).id)
        }),
{
    let m = bridge::bridge_model(memories, g, symbols);
    reveal_strlit("memory-kind:");
    reveal_strlit("memory-cluster:");
    reveal_strlit("code-dir:");
    text_laws::prefixes_come_off("memory-kind:"@, name, Seq::empty());
    text_laws::prefixes_come_off("memory-cluster:"@, name, Seq::empty());
    text_laws::prefixes_come_off("code-dir:"@, name, Seq::empty());
    lemma_no_prefix("memory-cluster:"@ + name, "memory-kind:"@, 7);
    lemma_no_prefix("code-dir:"@ + name, "memory-kind:"@, 0);
    lemma_no_prefix("code-dir:"@ + name, "memory-cluster:"@, 0);
    let a = Set::new(|id: Seq<char>| is_memory_of(memories, name, id));
    assert(a =~= drilldown::kind_seeds(memories, name)) by {
        assert forall|id: Seq<char>| a.contains(id) <==> #[trigger] drilldown::kind_seeds(
            memories,
            name,
        ).contains(id) by {
            lemma_kind_seeds(memories, name, id);
        }
    }
    lemma_drilldown(m, a);
    let b = Set::new(|id: Seq<char>| is_cluster_member(g.entities@, name, id));
    assert(b =~= drilldown::cluster_seeds(g.entities@, name)) by {
        assert forall|id: Seq<char>| b.contains(id) <==> #[trigger] drilldown::cluster_seeds(
            g.entities@,
            name,
        ).contains(id) by {
            lemma_cluster_seeds(g.entities@, name, id);
        }
    }
    lemma_drilldown(m, b);
    let c = Set::new(
        |id: Seq<char>| is_file_of(symbols, name, id) || is_symbol_of(symbols, name, id),
    );
    assert(c =~= drilldown::code_seeds(symbols, name)) by {
        assert forall|id: Seq<char>| c.contains(id) <==> #[trigger] drilldown::code_seeds(
            symbols,
            name,
        ).contains(id) by {
            lemma_code_seeds(symbols, name, id);
        }
    }
    lemma_drilldown(m, c);
}

// ---------------------------------------------------------------------------
// Words
// ---------------------------------------------------------------------------

/// Whether a text holds one of some words, whatever its capitals.
pub open spec fn speaks_of(s: Seq<char>, words: Seq<Seq<char>>) -> bool {
    exists|i: int| 0 <= i < words.len() && text::occurs_in(#[trigger] words[i], text::lowered(s))
}

/// Entities are sorted into clusters by the first group of words that their type speaks of.
pub proof fn types_are_sorted_by_their_words(t: Seq<char>)
    ensures
        ({
            let project = speaks_of(t, seq!["project"@, "domain"@, "product"@]);
            let code = speaks_of(
                t,
                seq!["code"@, "module"@, "file"@, "symbol"@, "api"@, "command"@, "tool"@],
            );
            let workflow = speaks_of(
                t,
                seq!["workflow"@, "process"@, "hook"@, "automation"@, "pipeline"@],
            );
            let storage = speaks_of(
                t,
                seq!["storage"@, "database"@, "table"@, "schema"@, "index"@],
            );
            let rules = speaks_of(t, seq!["decision"@, "rule"@, "policy"@, "constraint"@]);
            let cluster = graph::cluster_of_type(t);
            &&& project ==> cluster == "project"@
            &&& !project && code ==> cluster == "code"@
            &&& !project && !code && workflow ==> cluster == "workflow"@
            &&& !project && !code && !workflow && storage ==> cluster == "storage"@
            &&& !project && !code && !workflow && !storage && rules ==> cluster == "rules"@
            &&& !project && !code && !workflow && !storage && !rules ==> cluster == "other"@
        }),
{
    let a = seq!["project"@, "domain"@, "product"@];
    assert(a[0] == "project"@ && a[1] == "domain"@ && a[2] == "product"@);
    let b = seq!["code"@, "module"@, "file"@, "symbol"@, "api"@, "command"@, "tool"@];
    assert(b[0] == "code"@ && b[1] == "module"@ && b[2] == "file"@ && b[3] == "symbol"@ && b[4]
        == "api"@ && b[5] == "command"@ && b[6] == "tool"@);
    let c = seq!["workflow"@, "process"@, "hook"@, "automation"@, "pipeline"@];
    assert(c[0] == "workflow"@ && c[1] == "process"@ && c[2] == "hook"@ && c[3] == "automation"@
        && c[4] == "pipeline"@);
    let d = seq!["storage"@, "database"@, "table"@, "schema"@, "index"@];
    assert(d[0] == "storage"@ && d[1] == "database"@ && d[2] == "table"@ && d[3] == "schema"@
        && d[4] == "index"@);
    let e = seq!["decision"@, "rule"@, "policy"@, "constraint"@];
    assert(e[0] == "decision"@ && e[1] == "rule"@ && e[2] == "policy"@ && e[3] == "constraint"@);
}

/// An edge that stands for several relations says how many behind the words for the relation.
pub proof fn weights_are_told_behind_the_words(relation: Seq<char>, weight: nat)
    ensures
        weight <= 1 ==> graph::weighted_label(relation, weight) == graph::relation_text(relation),
        weight >= 2 ==> graph::weighted_label(relation, weight) == graph::relation_text(relation)
            + " ×"@ + text::decimal_text(weight),
{
}

/// An id is shown without the prefix that says what it is of.
pub proof fn ids_are_shown_without_their_prefix(rest: Seq<char>)
    ensures
        graph::bare_id("overview:"@ + rest) == rest,
        graph::bare_id("memory-cluster:"@ + rest) == rest,
        graph::bare_id("memory-kind:"@ + rest) == rest,
        graph::bare_id("code-dir:"@ + rest) == rest,
        graph::bare_id("code-file:"@ + rest) == rest,
        graph::bare_id("code:"@ + rest) == rest,
        graph::bare_id("entity:"@ + rest) == rest,
        graph::bare_id("fact:"@ + rest) == rest,
        graph::bare_id("edge:"@ + rest) == rest,
        graph::bare_id("memory:"@ + rest) == "memory:"@ + rest,
{
    reveal_strlit("overview:");
    reveal_strlit("memory-cluster:");
    reveal_strlit("memory-kind:");
    reveal_strlit("code-dir:");
    reveal_strlit("code-file:");
    reveal_strlit("code:");
    reveal_strlit("entity:");
    reveal_strlit("fact:");
    reveal_strlit("edge:");
    reveal_strlit("memory:");
    text_laws::prefixes_come_off("overview:"@, rest, Seq::empty());
    text_laws::prefixes_come_off("memory-cluster:"@, rest, Seq::empty());
    text_laws::prefixes_come_off("memory-kind:"@, rest, Seq::empty());
    text_laws::prefixes_come_off("code-dir:"@, rest, Seq::empty());
    text_laws::prefixes_come_off("code-file:"@, rest, Seq::empty());
    text_laws::prefixes_come_off("code:"@, rest, Seq::empty());
    text_laws::prefixes_come_off("entity:"@, rest, Seq::empty());
    text_laws::prefixes_come_off("fact:"@, rest, Seq::empty());
    text_laws::prefixes_come_off("edge:"@, rest, Seq::empty());
    let o = "overview:"@;
    let mc = "memory-cluster:"@;
    let mk = "memory-kind:"@;
    let cd = "code-dir:"@;
    let cf = "code-file:"@;
    let co = "code:"@;
    let en = "entity:"@;
    let fa = "fact:"@;
    let ed = "edge:"@;
    let me = "memory:"@ + rest;
    lemma_no_prefix(mc + rest, o, 0);
    lemma_no_prefix(mk + rest, o, 0);
    lemma_no_prefix(mk + rest, mc, 7);
    lemma_no_prefix(cd + rest, o, 0);
    lemma_no_prefix(cd + rest, mc, 0);
    lemma_no_prefix(cd + rest, mk, 0);
    lemma_no_prefix(cf + rest, o, 0);
    lemma_no_prefix(cf + rest, mc, 0);
    lemma_no_prefix(cf + rest, mk, 0);
    lemma_no_prefix(cf + rest, cd, 5);
    lemma_no_prefix(co + rest, o, 0);
    lemma_no_prefix(co + rest, mc, 0);
    lemma_no_prefix(co + rest, mk, 0);
    lemma_no_prefix(co + rest, cd, 4);
    lemma_no_prefix(co + rest, cf, 4);
    lemma_no_prefix(en + rest, o, 0);
    lemma_no_prefix(en + rest, mc, 0);
    lemma_no_prefix(en + rest, mk, 0);
    lemma_no_prefix(en + rest, cd, 0);
    lemma_no_prefix(en + rest, cf, 0);
    lemma_no_prefix(en + rest, co, 0);
    lemma_no_prefix(fa + rest, o, 0);
    lemma_no_prefix(fa + rest, mc, 0);
    lemma_no_prefix(fa + rest, mk, 0);
    lemma_no_prefix(fa + rest, cd, 0);
    lemma_no_prefix(fa + rest, cf, 0);
    lemma_no_prefix(fa + rest, co, 0);
    lemma_no_prefix(fa + rest, en, 0);
    lemma_no_prefix(ed + rest, o, 0);
    lemma_no_prefix(ed + rest, mc, 0);
    lemma_no_prefix(ed + rest, mk, 0);
    lemma_no_prefix(ed + rest, cd, 0);
    lemma_no_prefix(ed + rest, cf, 0);
    lemma_no_prefix(ed + rest, co, 0);
    lemma_no_prefix(ed + rest, en, 1);
    lemma_no_prefix(ed + rest, fa, 0);
    lemma_no_prefix(me, o, 0);
    lemma_no_prefix(me, mc, 6);
    lemma_no_prefix(me, mk, 6);
    lemma_no_prefix(me, cd, 0);
    lemma_no_prefix(me, cf, 0);
    lemma_no_prefix(me, co, 0);
    lemma_no_prefix(me, en, 0);
    lemma_no_prefix(me, fa, 0);
    lemma_no_prefix(me, ed, 0);
}

/// The words for relations: each that is known has its own, and any other is shown with blanks for
/// `_`.
pub proof fn relations_have_their_words(r: Seq<char>)
    ensures
        graph::relation_text("uses"@) == "использует"@,
        graph::relation_text("depends_on"@) == "зависит от"@,
        graph::relation_text("enforces"@) == "закрепляет"@,
        graph::relation_text("replaces"@) == "заменяет"@,
        graph::relation_text("documents"@) == "документирует"@,
        graph::relation_text("runs_before"@) == "перед"@,
        graph::relation_text("runs_after"@) == "после"@,
        graph::relation_text("belongs_to"@) == "часть"@,
        graph::relation_text("fallbacks_to"@) == "резерв"@,
        graph::relation_text("storage"@) == "хранение"@,
        graph::relation_text("requires"@) == "требует"@,
        graph::relation_text("produces"@) == "создает"@,
        graph::relation_text("reads"@) == "читает"@,
        graph::relation_text("writes"@) == "пишет"@,
        graph::relation_text("calls"@) == "вызывает"@,
        graph::relation_text("call"@) == "вызывает"@,
        graph::relation_text("ra_call"@) == "вызывает"@,
        graph::relation_text("ra_reference"@) == "ссылается"@,
        graph::relation_text("declares_module"@) == "объявляет модуль"@,
        graph::relation_text("cargo_package"@) == "пакет"@,
        graph::relation_text("contains"@) == "содержит"@,
        graph::relation_text("mentions_code"@) == "упоминает код"@,
        graph::relation_text("relates_code"@) == "связано с кодом"@,
        !is_known_relation(r) ==> graph::relation_text(r) == text::with_char_replaced(r, '_', ' '),
{
    reveal_strlit("uses");
    reveal_strlit("depends_on");
    reveal_strlit("enforces");
    reveal_strlit("replaces");
    reveal_strlit("documents");
    reveal_strlit("runs_before");
    reveal_strlit("runs_after");
    reveal_strlit("belongs_to");
    reveal_strlit("fallbacks_to");
    reveal_strlit("storage");
    reveal_strlit("requires");
    reveal_strlit("produces");
    reveal_strlit("reads");
    reveal_strlit("writes");
    reveal_strlit("calls");
    reveal_strlit("call");
    reveal_strlit("ra_call");
    reveal_strlit("ra_reference");
    reveal_strlit("declares_module");
    reveal_strlit("cargo_package");
    reveal_strlit("contains");
    reveal_strlit("mentions_code");
    reveal_strlit("relates_code");
    assert("uses"@.len() == 4 && "call"@.len() == 4 && "uses"@[0] == 'u' && "call"@[0] == 'c');
    assert("reads"@.len() == 5 && "calls"@.len() == 5 && "reads"@[0] == 'r' && "calls"@[0] == 'c');
    assert("writes"@.len() == 6 && "documents"@.len() == 9 && "runs_before"@.len() == 11);
    assert("storage"@.len() == 7 && "ra_call"@.len() == 7);
    assert("storage"@[0] == 's' && "ra_call"@[0] == 'r');
    assert("enforces"@.len() == 8 && "replaces"@.len() == 8 && "requires"@.len() == 8);
    assert("produces"@.len() == 8 && "contains"@.len() == 8);
    assert("enforces"@[2] == 'f' && "replaces"@[2] == 'p' && "requires"@[2] == 'q');
    assert("produces"@[2] == 'o' && "contains"@[2] == 'n');
    assert("depends_on"@.len() == 10 && "runs_after"@.len() == 10 && "belongs_to"@.len() == 10);
    assert("depends_on"@[0] == 'd' && "runs_after"@[0] == 'r' && "belongs_to"@[0] == 'b');
    assert("fallbacks_to"@.len() == 12 && "ra_reference"@.len() == 12);
    assert("relates_code"@.len() == 12 && "fallbacks_to"@[2] == 'l');
    assert("ra_reference"@[2] == '_' && "relates_code"@[2] == 'l' && "relates_code"@[0] == 'r');
    assert("fallbacks_to"@[0] == 'f');
    assert("cargo_package"@.len() == 13 && "mentions_code"@.len() == 13);
    assert("cargo_package"@[0] == 'c' && "mentions_code"@[0] == 'm');
    assert("declares_module"@.len() == 15);
}

/// The relations that have words of their own.
pub open spec fn is_known_relation(r: Seq<char>) -> bool {
    ||| r == "uses"@ || r == "depends_on"@ || r == "enforces"@ || r == "replaces"@
    ||| r == "documents"@ || r == "runs_before"@ || r == "runs_after"@ || r == "belongs_to"@
    ||| r == "fallbacks_to"@ || r == "storage"@ || r == "requires"@ || r == "produces"@
    ||| r == "reads"@ || r == "writes"@ || r == "calls"@ || r == "call"@ || r == "ra_call"@
    ||| r == "ra_reference"@ || r == "declares_module"@ || r == "cargo_package"@
    ||| r == "contains"@ || r == "mentions_code"@ || r == "relates_code"@
}

/// The words for statuses, clusters, kinds, domains and levels of detail; a status that is not
/// known is shown as it is, and a cluster that is not known is the rest.
pub proof fn things_have_their_words(s: Seq<char>)
    ensures
        graph::status_label_text("active"@) == "активные"@,
        graph::status_label_text("pending"@) == "на проверке"@,
        graph::status_label_text("superseded"@) == "замененные"@,
        graph::status_label_text("archived"@) == "архив"@,
        s != "active"@ && s != "pending"@ && s != "superseded"@ && s != "archived"@
            ==> graph::status_label_text(s) == s,
        graph::cluster_label_text("project"@) == "Проекты"@,
        graph::cluster_label_text("code"@) == "Код и инструменты"@,
        graph::cluster_label_text("workflow"@) == "Процессы"@,
        graph::cluster_label_text("storage"@) == "Хранение"@,
        graph::cluster_label_text("rules"@) == "Решения и правила"@,
        graph::cluster_label_text("other"@) == "Остальное"@,
        GraphNodeKind::Cluster.label_text() == "кластер"@,
        GraphNodeKind::Type.label_text() == "тип"@,
        GraphNodeKind::CodeSymbol.label_text() == "символ"@,
        GraphNodeKind::CodeFile.label_text() == "файл"@,
        GraphNodeKind::Entity.label_text() == "сущность"@,
        GraphNodeKind::Memory.label_text() == "память"@,
        GraphNodeKind::Fact.label_text() == "факт"@,
        GraphEdgeKind::Aggregate.label_text() == "сводная связь"@,
        GraphEdgeKind::CodeRelation.label_text() == "связь кода"@,
        GraphEdgeKind::Explicit.label_text() == "явная связь"@,
        GraphEdgeKind::Fact.label_text() == "факт"@,
        GraphEdgeKind::Evidence.label_text() == "основание"@,
        GraphEdgeKind::Derived.label_text() == "метаданные"@,
        GraphDomain::Memory.label_text() == "Память"@,
        GraphDomain::Code.label_text() == "Код"@,
        GraphDomain::Bridge.label_text() == "Связи"@,
        GraphViewMode::Overview.label_text() == "Обзор"@,
        GraphViewMode::Entities.label_text() == "Объекты"@,
        GraphViewMode::Types.label_text() == "Типы"@,
        GraphViewMode::Clusters.label_text() == "Кластеры"@,
        GraphViewMode::Files.label_text() == "Файлы"@,
        MemoryStatusChoice::Any.label_text() == "все"@,
        MemoryStatusChoice::Pending.label_text() == "на проверке"@,
        MemoryStatusChoice::Active.label_text() == "активные"@,
        MemoryStatusChoice::Superseded.label_text() == "замененные"@,
        MemoryStatusChoice::Archived.label_text() == "архив"@,
{
    reveal_strlit("active");
    reveal_strlit("pending");
    reveal_strlit("superseded");
    reveal_strlit("archived");
    assert("active"@.len() == 6 && "pending"@.len() == 7 && "superseded"@.len() == 10
        && "archived"@.len() == 8);
    reveal_strlit("project");
    reveal_strlit("code");
    reveal_strlit("workflow");
    reveal_strlit("storage");
    reveal_strlit("rules");
    reveal_strlit("other");
    assert("project"@.len() == 7 && "code"@.len() == 4 && "workflow"@.len() == 8
        && "storage"@.len() == 7 && "rules"@.len() == 5 && "other"@.len() == 5);
    assert("project"@[0] == 'p' && "storage"@[0] == 's' && "rules"@[0] == 'r' && "other"@[0]
        == 'o');
}

/// A choice of status admits the status that it names, and the choice of any admits all.
pub proof fn choices_admit_their_status(c: MemoryStatusChoice)
    ensures
        c == MemoryStatusChoice::Any <==> c.admitted() == StatusFilter::Any,
        c == MemoryStatusChoice::Pending <==> c.admitted() == StatusFilter::One(
            MemoryStatus::Pending,
        ),
        c == MemoryStatusChoice::Active <==> c.admitted() == StatusFilter::One(
            MemoryStatus::Active,
        ),
        c == MemoryStatusChoice::Superseded <==> c.admitted() == StatusFilter::One(
            MemoryStatus::Superseded,
        ),
        c == MemoryStatusChoice::Archived <==> c.admitted() == StatusFilter::One(
            MemoryStatus::Archived,
        ),
        MemoryStatusChoice::named("any"@) == Some(MemoryStatusChoice::Any),
        MemoryStatusChoice::named("pending"@) == Some(MemoryStatusChoice::Pending),
        MemoryStatusChoice::named("active"@) == Some(MemoryStatusChoice::Active),
        MemoryStatusChoice::named("superseded"@) == Some(MemoryStatusChoice::Superseded),
        MemoryStatusChoice::named("archived"@) == Some(MemoryStatusChoice::Archived),
{
    reveal_strlit("any");
    reveal_strlit("pending");
    reveal_strlit("active");
    reveal_strlit("superseded");
    reveal_strlit("archived");
    assert("any"@.len() == 3 && "active"@.len() == 6 && "pending"@.len() == 7 && "superseded"@.len()
        == 10 && "archived"@.len() == 8);
}

/// An area of the overview opens the view of what it counts; only that of facts shows facts.
pub proof fn areas_open_their_views()
    ensures
        opens("overview:project"@, GraphDomain::Memory, GraphViewMode::Overview, false),
        opens("overview:memory"@, GraphDomain::Memory, GraphViewMode::Entities, false),
        opens("overview:entities"@, GraphDomain::Memory, GraphViewMode::Entities, false),
        opens("overview:facts"@, GraphDomain::Memory, GraphViewMode::Entities, true),
        opens("overview:relations"@, GraphDomain::Memory, GraphViewMode::Entities, false),
        opens("overview:memory-clusters"@, GraphDomain::Memory, GraphViewMode::Clusters, false),
        opens("overview:code"@, GraphDomain::Code, GraphViewMode::Entities, false),
        opens("overview:files"@, GraphDomain::Code, GraphViewMode::Files, false),
        opens("overview:code-clusters"@, GraphDomain::Code, GraphViewMode::Clusters, false),
{
    reveal_strlit("overview:project");
    reveal_strlit("overview:memory");
    reveal_strlit("overview:entities");
    reveal_strlit("overview:facts");
    reveal_strlit("overview:relations");
    reveal_strlit("overview:memory-clusters");
    reveal_strlit("overview:code");
    reveal_strlit("overview:files");
    reveal_strlit("overview:code-clusters");
    assert("overview:project"@.len() == 16 && "overview:memory"@.len() == 15);
    assert("overview:entities"@.len() == 17 && "overview:relations"@.len() == 18);
    assert("overview:facts"@.len() == 14 && "overview:files"@.len() == 14);
    assert("overview:facts"@[10] == 'a' && "overview:files"@[10] == 'i');
    assert("overview:memory-clusters"@.len() == 24 && "overview:code"@.len() == 13);
    assert("overview:code-clusters"@.len() == 22);
}

/// Whether a node of the overview opens a view.
pub open spec fn opens(
    id: Seq<char>,
    domain: GraphDomain,
    view_mode: GraphViewMode,
    show_facts: bool,
) -> bool {
    &&& overview::navigation_target(id) is Some
    &&& overview::navigation_target(id)->0.domain == domain
    &&& overview::navigation_target(id)->0.view_mode == view_mode
    &&& overview::navigation_target(id)->0.show_facts == show_facts
}

} // verus!
