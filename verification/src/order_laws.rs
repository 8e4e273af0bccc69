//! In which order graphs are listed: nodes and edges by their ids, groups by their names.
use vstd::prelude::*;
use crate::code_graph::CodeGrouping;
use crate::graph::{DraftView, EdgeView, NodeView};
use crate::group_laws::{lemma_tally_lists, lemma_with_symbols};
use crate::memory_graph::Grouping;
use crate::model_laws::{
    lemma_with_entities, lemma_with_entity_bridges, lemma_with_fact_bridges, lemma_with_facts,
    lemma_with_grouping, lemma_with_memories, lemma_with_memory_bridges, lemma_with_relations,
    lemma_with_replacements,
};
use crate::records::{CodeRelation, CodeSymbol, Memory, MemoryGraph};
use crate::{aggregate, bridge, code_graph, memory_graph, order, overview};

verus! {

/// Whether nodes are listed by their ids.
pub open spec fn nodes_ascend(nodes: Seq<NodeView>) -> bool {
    forall|i: int, j: int|
        0 <= i < j < nodes.len() ==> order::text_before(
            (#[trigger] nodes[i]).id,
            (#[trigger] nodes[j]).id,
        )
}

/// Whether edges are listed by their ids.
pub open spec fn edges_ascend(edges: Seq<EdgeView>) -> bool {
    forall|i: int, j: int|
        0 <= i < j < edges.len() ==> order::text_before(
            (#[trigger] edges[i]).id,
            (#[trigger] edges[j]).id,
        )
}

/// Whether edges are listed by where they come from, then by what they lead to in the order of
/// relations: no edge stands before one that comes from a node with a lesser id.
pub open spec fn edges_ascend_by_start(edges: Seq<EdgeView>) -> bool {
    forall|i: int, j: int|
        0 <= i < j < edges.len() ==> !order::text_before(
            (#[trigger] edges[j]).from,
            (#[trigger] edges[i]).from,
        )
}

proof fn lemma_model_ascends(d: DraftView, fallback: bool)
    requires
        d.sound(),
    ensures
        nodes_ascend(d.model(fallback).nodes),
        edges_ascend(d.model(fallback).edges),
{
    let m = d.model(fallback);
    order::listing_exists(d.nodes);
    order::listing_exists(d.edges);
    let ns = order::sorted_entries(d.nodes);
    let es = order::sorted_entries(d.edges);
    assert forall|i: int, j: int| 0 <= i < j < m.nodes.len() implies order::text_before(
        (#[trigger] m.nodes[i]).id,
        (#[trigger] m.nodes[j]).id,
    ) by {
        assert(d.nodes.contains_pair(ns[i].0, ns[i].1));
        assert(d.nodes.contains_pair(ns[j].0, ns[j].1));
        assert(order::KeyOrder::before(ns[i].0, ns[j].0));
    }
    assert forall|i: int, j: int| 0 <= i < j < m.edges.len() implies order::text_before(
        (#[trigger] m.edges[i]).id,
        (#[trigger] m.edges[j]).id,
    ) by {
        assert(d.edges.contains_pair(es[i].0, es[i].1));
        assert(d.edges.contains_pair(es[j].0, es[j].1));
        assert(order::KeyOrder::before(es[i].0, es[j].0));
    }
}

/// The map of a memory graph, its fallback and the bridge list their nodes and edges by their ids.
pub proof fn maps_are_listed_by_id(memories: Seq<Memory>, g: MemoryGraph, symbols: Seq<CodeSymbol>)
    ensures
        nodes_ascend(memory_graph::relationship_model(memories, g).nodes),
        edges_ascend(memory_graph::relationship_model(memories, g).edges),
        nodes_ascend(memory_graph::fallback_model(memories).nodes),
        edges_ascend(memory_graph::fallback_model(memories).edges),
        nodes_ascend(bridge::bridge_model(memories, g, symbols).nodes),
        edges_ascend(bridge::bridge_model(memories, g, symbols).edges),
{
    let start = DraftView::empty();
    lemma_with_memories(start, memories);
    let nodes = memory_graph::with_memories(start, memories);
    lemma_with_replacements(nodes, memories, memories.len() as int);
    let replaced = memory_graph::with_replacements(nodes, memories, memories.len() as int);
    lemma_with_grouping(replaced, Grouping::Tag, memories);
    let tagged = memory_graph::with_grouping(replaced, Grouping::Tag, memories);
    lemma_with_grouping(tagged, Grouping::Source, memories);
    lemma_model_ascends(memory_graph::fallback_draft(memories), true);
    let d0 = memory_graph::with_entities(start, g.entities@);
    lemma_with_entities(start, g.entities@);
    let d1 = memory_graph::with_facts(d0, g.facts@, memories);
    lemma_with_facts(d0, g.facts@, memories);
    lemma_with_relations(d1, g.edges@, memories);
    lemma_model_ascends(memory_graph::relationship_draft(memories, g), false);
    let n = memories.len() as int;
    let b1 = bridge::with_memory_bridges(start, memories, symbols, n);
    lemma_with_memory_bridges(start, memories, symbols, n);
    let k = g.facts@.len() as int;
    let b2 = bridge::with_fact_bridges(b1, g.facts@, memories, g.entities@, k);
    lemma_with_fact_bridges(b1, g.facts@, memories, g.entities@, k);
    lemma_with_entity_bridges(b2, g.entities@, symbols, g.entities@.len() as int);
    lemma_model_ascends(bridge::bridge_draft(memories, g, symbols), false);
}

proof fn lemma_prefix_keeps_order(p: Seq<char>, a: Seq<char>, b: Seq<char>)
    ensures
        order::text_before(p + a, p + b) == order::text_before(a, b),
    decreases p.len(),
{
    if p.len() == 0 {
        assert(p + a =~= a);
        assert(p + b =~= b);
    } else {
        assert((p + a).drop_first() =~= p.drop_first() + a);
        assert((p + b).drop_first() =~= p.drop_first() + b);
        lemma_prefix_keeps_order(p.drop_first(), a, b);
    }
}

proof fn lemma_triples_ascend(
    triples: Seq<(Seq<char>, Seq<char>, Seq<char>)>,
    i: int,
    j: int,
)
    requires
        0 <= i < j < order::sorted_entries(order::tally(triples)).len(),
    ensures
        !order::text_before(
            order::sorted_entries(order::tally(triples))[j].0.0,
            order::sorted_entries(order::tally(triples))[i].0.0,
        ),
{
    lemma_tally_lists(triples);
    let entries = order::sorted_entries(order::tally(triples));
    let a = entries[i].0;
    let b = entries[j].0;
    assert(order::KeyOrder::before(a, b));
    if order::text_before(b.0, a.0) {
        order::KeyOrder::irreflexive(a.0);
        if order::text_before(a.0, b.0) {
            order::KeyOrder::transitive(a.0, b.0, a.0);
        }
    }
}

/// The symbol map lists its nodes by their ids and its edges by where they come from; maps of
/// groups list their nodes by the names of the groups, and their edges by where they come from.
pub proof fn maps_of_code_are_listed_by_name(
    symbols: Seq<CodeSymbol>,
    relations: Seq<CodeRelation>,
    by: CodeGrouping,
)
    ensures
        nodes_ascend(code_graph::code_symbol_model(symbols, relations).nodes),
        edges_ascend_by_start(code_graph::code_symbol_model(symbols, relations).edges),
        nodes_ascend(code_graph::code_group_model(by, symbols, relations).nodes),
        edges_ascend_by_start(code_graph::code_group_model(by, symbols, relations).edges),
{
    lemma_with_symbols(DraftView::empty(), symbols);
    let d = code_graph::with_symbols(DraftView::empty(), symbols);
    lemma_model_ascends(d, false);
    let m = code_graph::code_symbol_model(symbols, relations);
    let triples = code_graph::symbol_triples(d, relations);
    assert forall|i: int, j: int| 0 <= i < j < m.edges.len() implies !order::text_before(
        (#[trigger] m.edges[j]).from,
        (#[trigger] m.edges[i]).from,
    ) by {
        lemma_triples_ascend(triples, i, j);
    }
    let q = code_graph::code_group_model(by, symbols, relations);
    let names = code_graph::code_groups(by, symbols);
    let entries = order::sorted_entries(order::tally(names));
    lemma_tally_lists(names);
    assert forall|i: int, j: int| 0 <= i < j < q.nodes.len() implies order::text_before(
        (#[trigger] q.nodes[i]).id,
        (#[trigger] q.nodes[j]).id,
    ) by {
        assert(order::KeyOrder::before(entries[i].0, entries[j].0));
        lemma_prefix_keeps_order(
            code_graph::code_node_prefix(by),
            entries[i].0,
            entries[j].0,
        );
    }
    let groups = aggregate::pair_map(code_graph::grouped_symbols(by, symbols));
    let links = aggregate::group_triples(code_graph::code_links(groups, relations));
    let found = order::sorted_entries(order::tally(links));
    assert forall|i: int, j: int| 0 <= i < j < q.edges.len() implies !order::text_before(
        (#[trigger] q.edges[j]).from,
        (#[trigger] q.edges[i]).from,
    ) by {
        lemma_triples_ascend(links, i, j);
        lemma_prefix_keeps_order(
            code_graph::code_node_prefix(by),
            found[j].0.0,
            found[i].0.0,
        );
    }
}

/// Maps of types and clusters of entities list their nodes by the names of the groups, and their
/// edges by where they come from.
pub proof fn maps_of_entities_are_listed_by_name(g: MemoryGraph)
    ensures
        nodes_ascend(memory_graph::type_model(g).nodes),
        edges_ascend_by_start(memory_graph::type_model(g).edges),
        nodes_ascend(memory_graph::memory_cluster_model(g).nodes),
        edges_ascend_by_start(memory_graph::memory_cluster_model(g).edges),
{
    let entities = g.entities@;
    if entities.len() > 0 {
        let t = memory_graph::type_model(g);
        let types = memory_graph::entity_types(entities);
        let a = order::sorted_entries(order::tally(types));
        lemma_tally_lists(types);
        assert forall|i: int, j: int| 0 <= i < j < t.nodes.len() implies order::text_before(
            (#[trigger] t.nodes[i]).id,
            (#[trigger] t.nodes[j]).id,
        ) by {
            assert(order::KeyOrder::before(a[i].0, a[j].0));
            lemma_prefix_keeps_order("type:"@, a[i].0, a[j].0);
        }
        let by_type = aggregate::pair_map(memory_graph::typed_entities(entities));
        let x = aggregate::group_triples(
            memory_graph::entity_links(g.edges@, by_type, "concept"@),
        );
        let xs = order::sorted_entries(order::tally(x));
        assert forall|i: int, j: int| 0 <= i < j < t.edges.len() implies !order::text_before(
            (#[trigger] t.edges[j]).from,
            (#[trigger] t.edges[i]).from,
        ) by {
            lemma_triples_ascend(x, i, j);
            lemma_prefix_keeps_order("type:"@, xs[j].0.0, xs[i].0.0);
        }
        let c = memory_graph::memory_cluster_model(g);
        let clusters = memory_graph::entity_clusters(entities);
        let b = order::sorted_entries(order::tally(clusters));
        lemma_tally_lists(clusters);
        assert forall|i: int, j: int| 0 <= i < j < c.nodes.len() implies order::text_before(
            (#[trigger] c.nodes[i]).id,
            (#[trigger] c.nodes[j]).id,
        ) by {
            assert(order::KeyOrder::before(b[i].0, b[j].0));
            lemma_prefix_keeps_order("memory-cluster:"@, b[i].0, b[j].0);
        }
        let by_cluster = aggregate::pair_map(memory_graph::clustered_entities(entities));
        let y = aggregate::group_triples(
            memory_graph::entity_links(g.edges@, by_cluster, "other"@),
        );
        let ys = order::sorted_entries(order::tally(y));
        assert forall|i: int, j: int| 0 <= i < j < c.edges.len() implies !order::text_before(
            (#[trigger] c.edges[j]).from,
            (#[trigger] c.edges[i]).from,
        ) by {
            lemma_triples_ascend(y, i, j);
            lemma_prefix_keeps_order("memory-cluster:"@, ys[j].0.0, ys[i].0.0);
        }
    }
}

/// Numbers are listed from the least on, and triples by their first text, then by their second,
/// then by their third.
pub proof fn keys_are_ordered(
    m: u64,
    n: u64,
    a: (Seq<char>, Seq<char>, Seq<char>),
    b: (Seq<char>, Seq<char>, Seq<char>),
)
    ensures
        order::KeyOrder::before(m, n) <==> m < n,
        order::text_before(a.0, b.0) ==> order::KeyOrder::before(a, b),
        a.0 == b.0 && order::text_before(a.1, b.1) ==> order::KeyOrder::before(a, b),
        a.0 == b.0 && a.1 == b.1 ==> (order::KeyOrder::before(a, b) <==> order::text_before(
            a.2,
            b.2,
        )),
{
    order::KeyOrder::irreflexive(a.0);
    order::KeyOrder::irreflexive(a.1);
}

/// The overview lists its nodes from the project over memories to code.
pub proof fn overviews_start_with_the_project(
    memories: Seq<Memory>,
    g: MemoryGraph,
    symbols: Seq<CodeSymbol>,
)
    ensures
        overview::overview_nodes(memories, g, symbols).len() > 0,
        overview::overview_nodes(memories, g, symbols)[0].id == "overview:project"@,
{
}

} // verus!
