//! What holds of every overview.
use vstd::prelude::*;
use vstd::string::*;
use crate::graph::{EdgeView, GraphNodeKind, NodeView};
use crate::records::{CodeRelation, CodeSymbol, Memory, MemoryGraph};
use crate::{memory_graph, order, overview, text};

verus! {

/// A number that tells the ids of the overview apart: their length and one of their characters.
spec fn key_of(id: Seq<char>, at: int) -> int {
    id.len() * 2000000 + id[at] as int
}

/// No two nodes have the same id, and their keys are among these.
spec fn nodes_keyed(nodes: Seq<NodeView>, keys: Set<int>) -> bool {
    &&& forall|i: int, j: int|
        0 <= i < j < nodes.len() ==> (#[trigger] nodes[i]).id != (#[trigger] nodes[j]).id
    &&& forall|i: int| 0 <= i < nodes.len() ==> keys.contains(key_of((#[trigger] nodes[i]).id, 10))
}

/// No two edges have the same id, their keys are among these, and each joins two nodes.
spec fn edges_keyed(edges: Seq<EdgeView>, nodes: Seq<NodeView>, keys: Set<int>) -> bool {
    &&& forall|i: int, j: int|
        0 <= i < j < edges.len() ==> (#[trigger] edges[i]).id != (#[trigger] edges[j]).id
    &&& forall|i: int| 0 <= i < edges.len() ==> keys.contains(key_of((#[trigger] edges[i]).id, 14))
    &&& forall|i: int|
        0 <= i < edges.len() ==> {
            &&& overview::present(nodes, (#[trigger] edges[i]).from)
            &&& overview::present(nodes, edges[i].to)
            &&& edges[i].from != edges[i].to
            &&& edges[i].weight >= 1
        }
}

proof fn lemma_node_step(
    nodes: Seq<NodeView>,
    keys: Set<int>,
    shown: bool,
    id: Seq<char>,
)
    requires
        nodes_keyed(nodes, keys),
        !keys.contains(key_of(id, 10)),
    ensures
        forall|label: Seq<char>, detail: Seq<char>, kind: GraphNodeKind|
            nodes_keyed(
                #[trigger] overview::with_node_if(nodes, shown, id, label, detail, kind),
                keys.insert(key_of(id, 10)),
            ),
{
}

proof fn lemma_edge_step(
    edges: Seq<EdgeView>,
    nodes: Seq<NodeView>,
    keys: Set<int>,
    id: Seq<char>,
    from: Seq<char>,
    to: Seq<char>,
)
    requires
        edges_keyed(edges, nodes, keys),
        !keys.contains(key_of(id, 14)),
        key_of(from, 10) != key_of(to, 10),
    ensures
        forall|label: Seq<char>, weight: nat|
            edges_keyed(
                #[trigger] overview::with_edge_if_present(
                    edges,
                    nodes,
                    id,
                    from,
                    to,
                    label,
                    weight,
                ),
                nodes,
                keys.insert(key_of(id, 14)),
            ),
{
}

proof fn lemma_node_ids()
    ensures
        key_of("overview:project"@, 10) == 16 * 2000000 + 'r' as int,
        key_of("overview:memory"@, 10) == 15 * 2000000 + 'e' as int,
        key_of("overview:entities"@, 10) == 17 * 2000000 + 'n' as int,
        key_of("overview:facts"@, 10) == 14 * 2000000 + 'a' as int,
        key_of("overview:relations"@, 10) == 18 * 2000000 + 'e' as int,
        key_of("overview:memory-clusters"@, 10) == 24 * 2000000 + 'e' as int,
        key_of("overview:code"@, 10) == 13 * 2000000 + 'o' as int,
        key_of("overview:files"@, 10) == 14 * 2000000 + 'i' as int,
        key_of("overview:code-clusters"@, 10) == 22 * 2000000 + 'o' as int,
{
    reveal_strlit("overview:project");
    reveal_strlit("overview:memory");
    reveal_strlit("overview:entities");
    reveal_strlit("overview:facts");
    reveal_strlit("overview:relations");
    reveal_strlit("overview:memory-clusters");
    reveal_strlit("overview:code");
    reveal_strlit("overview:files");
    reveal_strlit("overview:code-clusters");
}

proof fn lemma_edge_ids()
    ensures
        key_of("overview-edge:project-memory"@, 14) == 28 * 2000000 + 'p' as int,
        key_of("overview-edge:memory-entities"@, 14) == 29 * 2000000 + 'm' as int,
        key_of("overview-edge:entities-facts"@, 14) == 28 * 2000000 + 'e' as int,
        key_of("overview-edge:entities-relations"@, 14) == 32 * 2000000 + 'e' as int,
        key_of("overview-edge:entities-clusters"@, 14) == 31 * 2000000 + 'e' as int,
        key_of("overview-edge:project-code"@, 14) == 26 * 2000000 + 'p' as int,
        key_of("overview-edge:code-files"@, 14) == 24 * 2000000 + 'c' as int,
        key_of("overview-edge:files-clusters"@, 14) == 28 * 2000000 + 'f' as int,
        key_of("overview-edge:memory-code"@, 14) == 25 * 2000000 + 'm' as int,
        key_of("overview-edge:code-relations"@, 14) == 28 * 2000000 + 'c' as int,
{
    reveal_strlit("overview-edge:project-memory");
    reveal_strlit("overview-edge:memory-entities");
    reveal_strlit("overview-edge:entities-facts");
    reveal_strlit("overview-edge:entities-relations");
    reveal_strlit("overview-edge:entities-clusters");
    reveal_strlit("overview-edge:project-code");
    reveal_strlit("overview-edge:code-files");
    reveal_strlit("overview-edge:files-clusters");
    reveal_strlit("overview-edge:memory-code");
    reveal_strlit("overview-edge:code-relations");
}

proof fn lemma_nodes_apart(memories: Seq<Memory>, g: MemoryGraph, symbols: Seq<CodeSymbol>)
    ensures
        ({
            let nodes = overview::overview_nodes(memories, g, symbols);
            forall|i: int, j: int|
                0 <= i < j < nodes.len() ==> (#[trigger] nodes[i]).id != (#[trigger] nodes[j]).id
        }),
{
    lemma_node_ids();
    let entities = g.entities@;
    let clusters = order::distinct(memory_graph::entity_clusters(entities));
    let directories = order::distinct(overview::symbol_directories(symbols));
    let n0 = seq![
        NodeView {
            id: "overview:project"@,
            label: "Проект"@,
            detail: text::decimal_text(memories.len()) + " памяти · "@ + text::decimal_text(
                entities.len(),
            ) + " сущн. · "@ + text::decimal_text(symbols.len()) + " симв."@,
            kind: GraphNodeKind::Cluster,
        },
    ];
    let n1 = overview::with_node_if(
        n0,
        memories.len() > 0,
        "overview:memory"@,
        "Память"@,
        overview::counted2(
            memories.len(),
            " записей · "@,
            order::distinct(overview::memory_kinds(memories)),
            " типов"@,
        ),
        GraphNodeKind::Memory,
    );
    let n2 = overview::with_node_if(
        n1,
        entities.len() > 0,
        "overview:entities"@,
        "Сущности"@,
        overview::counted2(
            entities.len(),
            " объектов · "@,
            order::distinct(memory_graph::entity_types(entities)),
            " типов"@,
        ),
        GraphNodeKind::Entity,
    );
    let n3 = overview::with_node_if(
        n2,
        g.facts@.len() > 0,
        "overview:facts"@,
        "Факты"@,
        overview::counted(g.facts@.len(), " фактов"@),
        GraphNodeKind::Fact,
    );
    let n4 = overview::with_node_if(
        n3,
        g.edges@.len() > 0,
        "overview:relations"@,
        "Связи памяти"@,
        overview::counted(g.edges@.len(), " связей"@),
        GraphNodeKind::Type,
    );
    let n5 = overview::with_node_if(
        n4,
        clusters > 1,
        "overview:memory-clusters"@,
        "Области памяти"@,
        overview::counted(clusters, " кластеров"@),
        GraphNodeKind::Cluster,
    );
    let n6 = overview::with_node_if(
        n5,
        symbols.len() > 0,
        "overview:code"@,
        "Код"@,
        overview::counted2(
            symbols.len(),
            " символов · "@,
            order::distinct(overview::symbol_kinds(symbols)),
            " видов"@,
        ),
        GraphNodeKind::CodeSymbol,
    );
    let n7 = overview::with_node_if(
        n6,
        symbols.len() > 0,
        "overview:files"@,
        "Файлы"@,
        overview::counted(order::distinct(overview::symbol_files(symbols)), " файлов"@),
        GraphNodeKind::CodeFile,
    );
    let n8 = overview::with_node_if(
        n7,
        symbols.len() > 0 && directories > 1,
        "overview:code-clusters"@,
        "Области кода"@,
        overview::counted(directories, " папок"@),
        GraphNodeKind::Cluster,
    );
    let k0 = Set::<int>::empty().insert(key_of("overview:project"@, 10));
    assert(nodes_keyed(n0, k0));
    let k1 = k0.insert(key_of("overview:memory"@, 10));
    lemma_node_step(n0, k0, memories.len() > 0, "overview:memory"@);
    let k2 = k1.insert(key_of("overview:entities"@, 10));
    lemma_node_step(n1, k1, entities.len() > 0, "overview:entities"@);
    let k3 = k2.insert(key_of("overview:facts"@, 10));
    lemma_node_step(n2, k2, g.facts@.len() > 0, "overview:facts"@);
    let k4 = k3.insert(key_of("overview:relations"@, 10));
    lemma_node_step(n3, k3, g.edges@.len() > 0, "overview:relations"@);
    let k5 = k4.insert(key_of("overview:memory-clusters"@, 10));
    lemma_node_step(n4, k4, clusters > 1, "overview:memory-clusters"@);
    let k6 = k5.insert(key_of("overview:code"@, 10));
    lemma_node_step(n5, k5, symbols.len() > 0, "overview:code"@);
    let k7 = k6.insert(key_of("overview:files"@, 10));
    lemma_node_step(n6, k6, symbols.len() > 0, "overview:files"@);
    let k8 = k7.insert(key_of("overview:code-clusters"@, 10));
    lemma_node_step(n7, k7, symbols.len() > 0 && directories > 1, "overview:code-clusters"@);
    assert(n8 == overview::overview_nodes(memories, g, symbols));
}

proof fn lemma_edges_apart(
    nodes: Seq<NodeView>,
    memories: Seq<Memory>,
    g: MemoryGraph,
    symbols: Seq<CodeSymbol>,
    relations: Seq<CodeRelation>,
)
    ensures
        ({
            let edges = overview::overview_edges(nodes, memories, g, symbols, relations);
            &&& forall|i: int, j: int|
                0 <= i < j < edges.len() ==> (#[trigger] edges[i]).id != (#[trigger] edges[j]).id
            &&& forall|i: int|
                0 <= i < edges.len() ==> {
                    &&& overview::present(nodes, (#[trigger] edges[i]).from)
                    &&& overview::present(nodes, edges[i].to)
                    &&& edges[i].from != edges[i].to
                    &&& edges[i].weight >= 1
                }
        }),
{
    lemma_node_ids();
    lemma_edge_ids();
    let e1 = overview::with_edge_if_present(
        Seq::empty(),
        nodes,
        "overview-edge:project-memory"@,
        "overview:project"@,
        "overview:memory"@,
        "содержит"@,
        memories.len(),
    );
    let e2 = overview::with_edge_if_present(
        e1,
        nodes,
        "overview-edge:memory-entities"@,
        "overview:memory"@,
        "overview:entities"@,
        "описывает"@,
        g.entities@.len(),
    );
    let e3 = overview::with_edge_if_present(
        e2,
        nodes,
        "overview-edge:entities-facts"@,
        "overview:entities"@,
        "overview:facts"@,
        "имеет факты"@,
        g.facts@.len(),
    );
    let e4 = overview::with_edge_if_present(
        e3,
        nodes,
        "overview-edge:entities-relations"@,
        "overview:entities"@,
        "overview:relations"@,
        "связаны"@,
        g.edges@.len(),
    );
    let e5 = overview::with_edge_if_present(
        e4,
        nodes,
        "overview-edge:entities-clusters"@,
        "overview:entities"@,
        "overview:memory-clusters"@,
        "группируются"@,
        order::distinct(memory_graph::entity_clusters(g.entities@)),
    );
    let e6 = overview::with_edge_if_present(
        e5,
        nodes,
        "overview-edge:project-code"@,
        "overview:project"@,
        "overview:code"@,
        "индексирует"@,
        symbols.len(),
    );
    let e7 = overview::with_edge_if_present(
        e6,
        nodes,
        "overview-edge:code-files"@,
        "overview:code"@,
        "overview:files"@,
        "лежит в"@,
        symbols.len(),
    );
    let e8 = overview::with_edge_if_present(
        e7,
        nodes,
        "overview-edge:files-clusters"@,
        "overview:files"@,
        "overview:code-clusters"@,
        "группируются"@,
        symbols.len(),
    );
    let e9 = overview::with_edge_if_present(
        e8,
        nodes,
        "overview-edge:memory-code"@,
        "overview:memory"@,
        "overview:code"@,
        "связь с кодом"@,
        if memories.len() < symbols.len() {
            memories.len()
        } else {
            symbols.len()
        },
    );
    let e10 = overview::with_edge_if_present(
        e9,
        nodes,
        "overview-edge:code-relations"@,
        "overview:code"@,
        "overview:files"@,
        "связи кода"@,
        relations.len(),
    );
    let k0 = Set::<int>::empty();
    assert(edges_keyed(Seq::empty(), nodes, k0));
    let k1 = k0.insert(key_of("overview-edge:project-memory"@, 14));
    lemma_edge_step(Seq::empty(), nodes, k0, "overview-edge:project-memory"@, "overview:project"@, "overview:memory"@);
    let k2 = k1.insert(key_of("overview-edge:memory-entities"@, 14));
    lemma_edge_step(e1, nodes, k1, "overview-edge:memory-entities"@, "overview:memory"@, "overview:entities"@);
    let k3 = k2.insert(key_of("overview-edge:entities-facts"@, 14));
    lemma_edge_step(e2, nodes, k2, "overview-edge:entities-facts"@, "overview:entities"@, "overview:facts"@);
    let k4 = k3.insert(key_of("overview-edge:entities-relations"@, 14));
    lemma_edge_step(e3, nodes, k3, "overview-edge:entities-relations"@, "overview:entities"@, "overview:relations"@);
    let k5 = k4.insert(key_of("overview-edge:entities-clusters"@, 14));
    lemma_edge_step(e4, nodes, k4, "overview-edge:entities-clusters"@, "overview:entities"@, "overview:memory-clusters"@);
    let k6 = k5.insert(key_of("overview-edge:project-code"@, 14));
    lemma_edge_step(e5, nodes, k5, "overview-edge:project-code"@, "overview:project"@, "overview:code"@);
    let k7 = k6.insert(key_of("overview-edge:code-files"@, 14));
    lemma_edge_step(e6, nodes, k6, "overview-edge:code-files"@, "overview:code"@, "overview:files"@);
    let k8 = k7.insert(key_of("overview-edge:files-clusters"@, 14));
    lemma_edge_step(e7, nodes, k7, "overview-edge:files-clusters"@, "overview:files"@, "overview:code-clusters"@);
    let k9 = k8.insert(key_of("overview-edge:memory-code"@, 14));
    lemma_edge_step(e8, nodes, k8, "overview-edge:memory-code"@, "overview:memory"@, "overview:code"@);
    let k10 = k9.insert(key_of("overview-edge:code-relations"@, 14));
    lemma_edge_step(e9, nodes, k9, "overview-edge:code-relations"@, "overview:code"@, "overview:files"@);
    assert((if relations.len() > 0 {
        e10
    } else {
        e9
    }) == overview::overview_edges(nodes, memories, g, symbols, relations));
}

/// An overview names nothing twice, and each of its edges joins two of its nodes, is no loop and
/// weighs something.
pub proof fn overview_is_whole(
    memories: Seq<Memory>,
    g: MemoryGraph,
    symbols: Seq<CodeSymbol>,
    relations: Seq<CodeRelation>,
)
    ensures
        ({
            let model = overview::overview_model(memories, g, symbols, relations);
            &&& model.unique_nodes()
            &&& model.unique_edges()
            &&& model.closed()
            &&& model.loop_free()
            &&& forall|i: int| 0 <= i < model.edges.len() ==> (#[trigger] model.edges[i]).weight >= 1
        }),
{
    let nodes = overview::overview_nodes(memories, g, symbols);
    lemma_nodes_apart(memories, g, symbols);
    lemma_edges_apart(nodes, memories, g, symbols, relations);
    let model = overview::overview_model(memories, g, symbols, relations);
    if !overview::nothing_known(memories, g, symbols) {
        assert forall|i: int| 0 <= i < model.edges.len() implies model.has_node(
            (#[trigger] model.edges[i]).from,
        ) && model.has_node(model.edges[i].to) by {
            assert(overview::present(nodes, model.edges[i].from));
            assert(overview::present(nodes, model.edges[i].to));
        }
    }
}

proof fn lemma_present_step(x: Seq<char>)
    ensures
        forall|
            nodes: Seq<NodeView>,
            shown: bool,
            id: Seq<char>,
            label: Seq<char>,
            detail: Seq<char>,
            kind: GraphNodeKind,
        |
            overview::present(
                #[trigger] overview::with_node_if(nodes, shown, id, label, detail, kind),
                x,
            ) <==> overview::present(nodes, x) || shown && x == id,
{
    assert forall|
        nodes: Seq<NodeView>,
        shown: bool,
        id: Seq<char>,
        label: Seq<char>,
        detail: Seq<char>,
        kind: GraphNodeKind,
    |
        overview::present(
            #[trigger] overview::with_node_if(nodes, shown, id, label, detail, kind),
            x,
        ) <==> overview::present(nodes, x) || shown && x == id by {
        let more = overview::with_node_if(nodes, shown, id, label, detail, kind);
        if overview::present(nodes, x) {
            let k = choose|k: int| 0 <= k < nodes.len() && (#[trigger] nodes[k]).id == x;
            assert(more[k].id == x);
        }
        if shown && x == id {
            assert(more[nodes.len() as int].id == x);
        }
    }
}

proof fn lemma_present(memories: Seq<Memory>, g: MemoryGraph, symbols: Seq<CodeSymbol>, x: Seq<char>)
    ensures
        overview::present(overview::overview_nodes(memories, g, symbols), x) <==> {
            let clusters = order::distinct(memory_graph::entity_clusters(g.entities@));
            let directories = order::distinct(overview::symbol_directories(symbols));
            ||| x == "overview:project"@
            ||| memories.len() > 0 && x == "overview:memory"@
            ||| g.entities@.len() > 0 && x == "overview:entities"@
            ||| g.facts@.len() > 0 && x == "overview:facts"@
            ||| g.edges@.len() > 0 && x == "overview:relations"@
            ||| clusters > 1 && x == "overview:memory-clusters"@
            ||| symbols.len() > 0 && x == "overview:code"@
            ||| symbols.len() > 0 && x == "overview:files"@
            ||| symbols.len() > 0 && directories > 1 && x == "overview:code-clusters"@
        },
{
    lemma_present_step(x);
    let n0 = seq![
        NodeView {
            id: "overview:project"@,
            label: "Проект"@,
            detail: text::decimal_text(memories.len()) + " памяти · "@ + text::decimal_text(
                g.entities@.len(),
            ) + " сущн. · "@ + text::decimal_text(symbols.len()) + " симв."@,
            kind: GraphNodeKind::Cluster,
        },
    ];
    assert(n0[0].id == "overview:project"@);
    assert(overview::present(n0, x) <==> x == "overview:project"@);
}

/// An overview is small, and it has an area exactly where the project has something in it.
pub proof fn overview_has_its_areas(
    memories: Seq<Memory>,
    g: MemoryGraph,
    symbols: Seq<CodeSymbol>,
    relations: Seq<CodeRelation>,
)
    ensures
        ({
            let model = overview::overview_model(memories, g, symbols, relations);
            let clusters = order::distinct(memory_graph::entity_clusters(g.entities@));
            let directories = order::distinct(overview::symbol_directories(symbols));
            &&& model.nodes.len() <= 9
            &&& model.edges.len() <= 10
            &&& model.has_node("overview:project"@) <==> !overview::nothing_known(
                memories,
                g,
                symbols,
            )
            &&& model.has_node("overview:memory"@) <==> memories.len() > 0
            &&& model.has_node("overview:entities"@) <==> g.entities@.len() > 0
            &&& model.has_node("overview:facts"@) <==> g.facts@.len() > 0
            &&& model.has_node("overview:relations"@) <==> g.edges@.len() > 0
            &&& !overview::nothing_known(memories, g, symbols) ==> (model.has_node(
                "overview:memory-clusters"@,
            ) <==> clusters > 1)
            &&& model.has_node("overview:code"@) <==> symbols.len() > 0
            &&& model.has_node("overview:files"@) <==> symbols.len() > 0
            &&& model.has_node("overview:code-clusters"@) <==> symbols.len() > 0 && directories > 1
        }),
{
    lemma_node_ids();
    lemma_present(memories, g, symbols, "overview:project"@);
    lemma_present(memories, g, symbols, "overview:memory"@);
    lemma_present(memories, g, symbols, "overview:entities"@);
    lemma_present(memories, g, symbols, "overview:facts"@);
    lemma_present(memories, g, symbols, "overview:relations"@);
    lemma_present(memories, g, symbols, "overview:memory-clusters"@);
    lemma_present(memories, g, symbols, "overview:code"@);
    lemma_present(memories, g, symbols, "overview:files"@);
    lemma_present(memories, g, symbols, "overview:code-clusters"@);
    let nodes = overview::overview_nodes(memories, g, symbols);
    let model = overview::overview_model(memories, g, symbols, relations);
    if !overview::nothing_known(memories, g, symbols) {
        assert forall|x: Seq<char>| #[trigger] model.has_node(x) <==> overview::present(
            nodes,
            x,
        ) by {}
    }
}

/// Every node of an overview opens a view.
pub proof fn overview_nodes_open_views(
    memories: Seq<Memory>,
    g: MemoryGraph,
    symbols: Seq<CodeSymbol>,
)
    ensures
        ({
            let nodes = overview::overview_nodes(memories, g, symbols);
            forall|i: int|
                0 <= i < nodes.len() ==> overview::navigation_target(
                    (#[trigger] nodes[i]).id,
                ) is Some
        }),
{
}

} // verus!
