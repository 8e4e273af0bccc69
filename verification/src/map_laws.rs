//! What the map of memories says: every relation leads from the entity it is stated of to the one
//! it names, every fact hangs at its entity and rests on its memory, and nothing else is drawn.
use vstd::prelude::*;
use crate::graph::{DraftView, EdgeView, GraphEdgeKind, GraphNodeKind, NodeView};
use crate::group_laws::lemma_prefix_injective;
use crate::model_laws::{lemma_with_entities, lemma_with_facts, lemma_with_relations};
use crate::records::{Memory, MemoryEdge, MemoryEntity, MemoryFact, MemoryGraph};
use crate::{graph, memory_graph, order, text};

verus! {

// ---------------------------------------------------------------------------
// Drafts and their graphs
// ---------------------------------------------------------------------------

/// Whether a draft has the node.
pub(crate) open spec fn drafted_node(d: DraftView, n: NodeView) -> bool {
    exists|id: Seq<char>| #[trigger] d.nodes.dom().contains(id) && d.nodes[id] == n
}

/// Whether a draft has the edge.
pub(crate) open spec fn drafted_edge(d: DraftView, e: EdgeView) -> bool {
    exists|id: Seq<char>| #[trigger] d.edges.dom().contains(id) && d.edges[id] == e
}

/// A graph of a draft holds exactly the nodes and edges of the draft.
pub(crate) proof fn lemma_model_holds(d: DraftView, fallback: bool)
    requires
        d.nodes.dom().finite(),
        d.edges.dom().finite(),
    ensures
        d.model(fallback).fallback == fallback,
        forall|id: Seq<char>| #[trigger]
            d.nodes.dom().contains(id) ==> d.model(fallback).nodes.contains(d.nodes[id]),
        forall|id: Seq<char>| #[trigger]
            d.edges.dom().contains(id) ==> d.model(fallback).edges.contains(d.edges[id]),
        forall|i: int|
            0 <= i < d.model(fallback).nodes.len() ==> drafted_node(
                d,
                #[trigger] d.model(fallback).nodes[i],
            ),
        forall|i: int|
            0 <= i < d.model(fallback).edges.len() ==> drafted_edge(
                d,
                #[trigger] d.model(fallback).edges[i],
            ),
{
    let m = d.model(fallback);
    order::listing_exists(d.nodes);
    order::listing_exists(d.edges);
    let ns = order::sorted_entries(d.nodes);
    let es = order::sorted_entries(d.edges);
    assert forall|id: Seq<char>| #[trigger] d.nodes.dom().contains(id) implies m.nodes.contains(
        d.nodes[id],
    ) by {
        let i = choose|i: int| 0 <= i < ns.len() && (#[trigger] ns[i]).0 == id;
        assert(d.nodes.contains_pair(ns[i].0, ns[i].1));
        assert(m.nodes[i] == d.nodes[id]);
    }
    assert forall|id: Seq<char>| #[trigger] d.edges.dom().contains(id) implies m.edges.contains(
        d.edges[id],
    ) by {
        let i = choose|i: int| 0 <= i < es.len() && (#[trigger] es[i]).0 == id;
        assert(d.edges.contains_pair(es[i].0, es[i].1));
        assert(m.edges[i] == d.edges[id]);
    }
    assert forall|i: int| 0 <= i < m.nodes.len() implies drafted_node(d, #[trigger] m.nodes[i]) by {
        assert(d.nodes.contains_pair(ns[i].0, ns[i].1));
        assert(d.nodes.dom().contains(ns[i].0));
    }
    assert forall|i: int| 0 <= i < m.edges.len() implies drafted_edge(d, #[trigger] m.edges[i]) by {
        assert(d.edges.contains_pair(es[i].0, es[i].1));
        assert(d.edges.dom().contains(es[i].0));
    }
}

// ---------------------------------------------------------------------------
// The edges of the relationship map
// ---------------------------------------------------------------------------

/// Whether an edge draws a relation: from its first entity to its second.
pub open spec fn draws_relation(e: EdgeView, r: MemoryEdge) -> bool {
    &&& e.id == "edge:"@ + r.id@
    &&& e.from == "entity:"@ + r.from_entity_id@
    &&& e.to == "entity:"@ + r.to_entity_id@
    &&& e.label == graph::relation_text(r.relation_type@)
    &&& e.kind == GraphEdgeKind::Explicit
    &&& e.weight == 1
}

/// Whether an edge hangs a fact at its entity.
pub open spec fn draws_fact(e: EdgeView, f: MemoryFact) -> bool {
    &&& f.entity_id is Some
    &&& e.id == "fact-entity:"@ + f.id@
    &&& e.from == "entity:"@ + f.entity_id->0@
    &&& e.to == "fact:"@ + f.id@
    &&& e.label == graph::relation_text(f.predicate@)
    &&& e.kind == GraphEdgeKind::Fact
    &&& e.weight == 1
}

/// Whether an edge rests a fact on the memory that states it.
pub open spec fn draws_fact_evidence(e: EdgeView, f: MemoryFact) -> bool {
    &&& f.memory_id is Some
    &&& e.id == "fact-memory:"@ + f.id@
    &&& e.from == "fact:"@ + f.id@
    &&& e.to == "memory:"@ + f.memory_id->0@
    &&& e.label == "подтверждено"@
    &&& e.kind == GraphEdgeKind::Evidence
    &&& e.weight == 1
}

/// Whether an edge leads from the memory that states a relation to one of its ends.
pub open spec fn draws_relation_evidence(e: EdgeView, r: MemoryEdge) -> bool {
    &&& r.memory_id is Some
    &&& e.from == "memory:"@ + r.memory_id->0@
    &&& e.label == "основание"@
    &&& e.kind == GraphEdgeKind::Evidence
    &&& e.weight == 1
    &&& {
        ||| e.id == "edge-memory-from:"@ + r.id@ && e.to == "entity:"@ + r.from_entity_id@
        ||| e.id == "edge-memory-to:"@ + r.id@ && e.to == "entity:"@ + r.to_entity_id@
    }
}

/// Whether an edge is drawn for one of the facts or relations.
pub open spec fn is_drawn(e: EdgeView, facts: Seq<MemoryFact>, edges: Seq<MemoryEdge>) -> bool {
    ||| exists|k: int| 0 <= k < edges.len() && draws_relation(e, #[trigger] edges[k])
    ||| exists|k: int| 0 <= k < facts.len() && draws_fact(e, #[trigger] facts[k])
    ||| exists|k: int| 0 <= k < facts.len() && draws_fact_evidence(e, #[trigger] facts[k])
    ||| exists|k: int| 0 <= k < edges.len() && draws_relation_evidence(e, #[trigger] edges[k])
}

spec fn all_drawn(d: DraftView, facts: Seq<MemoryFact>, edges: Seq<MemoryEdge>) -> bool {
    forall|id: Seq<char>| #[trigger]
        d.edges.dom().contains(id) ==> d.edges[id].id == id && is_drawn(d.edges[id], facts, edges)
}

proof fn lemma_drawn_among_more(
    e: EdgeView,
    facts: Seq<MemoryFact>,
    edges: Seq<MemoryEdge>,
    more_facts: Seq<MemoryFact>,
    more_edges: Seq<MemoryEdge>,
)
    requires
        is_drawn(e, facts, edges),
        facts.len() <= more_facts.len(),
        edges.len() <= more_edges.len(),
        forall|k: int| 0 <= k < facts.len() ==> #[trigger] facts[k] == more_facts[k],
        forall|k: int| 0 <= k < edges.len() ==> #[trigger] edges[k] == more_edges[k],
    ensures
        is_drawn(e, more_facts, more_edges),
{
    if exists|k: int| 0 <= k < edges.len() && draws_relation(e, #[trigger] edges[k]) {
        let k = choose|k: int| 0 <= k < edges.len() && draws_relation(e, #[trigger] edges[k]);
        assert(draws_relation(e, more_edges[k]));
    } else if exists|k: int| 0 <= k < facts.len() && draws_fact(e, #[trigger] facts[k]) {
        let k = choose|k: int| 0 <= k < facts.len() && draws_fact(e, #[trigger] facts[k]);
        assert(draws_fact(e, more_facts[k]));
    } else if exists|k: int| 0 <= k < facts.len() && draws_fact_evidence(e, #[trigger] facts[k]) {
        let k = choose|k: int| 0 <= k < facts.len() && draws_fact_evidence(e, #[trigger] facts[k]);
        assert(draws_fact_evidence(e, more_facts[k]));
    } else {
        let k = choose|k: int|
            0 <= k < edges.len() && draws_relation_evidence(e, #[trigger] edges[k]);
        assert(draws_relation_evidence(e, more_edges[k]));
    }
}

proof fn lemma_entities_draw_nothing(d: DraftView, entities: Seq<MemoryEntity>)
    ensures
        memory_graph::with_entities(d, entities).edges == d.edges,
    decreases entities.len(),
{
    if entities.len() > 0 {
        lemma_entities_draw_nothing(d, entities.drop_last());
    }
}

proof fn lemma_facts_drawn(d: DraftView, facts: Seq<MemoryFact>, memories: Seq<Memory>)
    requires
        d.edges == Map::<Seq<char>, EdgeView>::empty(),
    ensures
        all_drawn(memory_graph::with_facts(d, facts, memories), facts, Seq::empty()),
        forall|k: int|
            0 <= k < facts.len() && (#[trigger] facts[k]).entity_id is Some && "entity:"@
                + facts[k].entity_id->0@ != "fact:"@ + facts[k].id@
                ==> memory_graph::with_facts(d, facts, memories).edges.dom().contains(
                "fact-entity:"@ + facts[k].id@,
            ),
        forall|k: int|
            0 <= k < facts.len() && (#[trigger] facts[k]).memory_id is Some && "fact:"@
                + facts[k].id@ != "memory:"@ + facts[k].memory_id->0@ ==> memory_graph::with_facts(
                d,
                facts,
                memories,
            ).edges.dom().contains("fact-memory:"@ + facts[k].id@),
    decreases facts.len(),
{
    if facts.len() > 0 {
        let front = facts.drop_last();
        let f = facts.last();
        lemma_facts_drawn(d, front, memories);
        let before = memory_graph::with_facts(d, front, memories);
        let after = memory_graph::with_facts(d, facts, memories);
        assert forall|id: Seq<char>| #[trigger]
            after.edges.dom().contains(id) implies after.edges[id].id == id && is_drawn(
            after.edges[id],
            facts,
            Seq::empty(),
        ) by {
            if before.edges.dom().contains(id) {
                assert(after.edges[id] == before.edges[id]);
                lemma_drawn_among_more(
                    before.edges[id],
                    front,
                    Seq::empty(),
                    facts,
                    Seq::empty(),
                );
            } else {
                assert(facts[facts.len() - 1] == f);
                assert(draws_fact(after.edges[id], facts[facts.len() - 1]) || draws_fact_evidence(
                    after.edges[id],
                    facts[facts.len() - 1],
                ));
            }
        }
        assert forall|k: int|
            0 <= k < facts.len() && (#[trigger] facts[k]).entity_id is Some && "entity:"@
                + facts[k].entity_id->0@ != "fact:"@ + facts[k].id@ implies after.edges.dom().contains(
        "fact-entity:"@ + facts[k].id@) by {
            if k < front.len() {
                assert(front[k] == facts[k]);
                assert(before.edges.dom().contains("fact-entity:"@ + facts[k].id@));
            }
        }
        assert forall|k: int|
            0 <= k < facts.len() && (#[trigger] facts[k]).memory_id is Some && "fact:"@
                + facts[k].id@ != "memory:"@ + facts[k].memory_id->0@ implies after.edges.dom().contains(
        "fact-memory:"@ + facts[k].id@) by {
            if k < front.len() {
                assert(front[k] == facts[k]);
                assert(before.edges.dom().contains("fact-memory:"@ + facts[k].id@));
            }
        }
    }
}

proof fn lemma_relations_drawn(
    d: DraftView,
    facts: Seq<MemoryFact>,
    edges: Seq<MemoryEdge>,
    memories: Seq<Memory>,
)
    requires
        all_drawn(d, facts, Seq::empty()),
    ensures
        all_drawn(memory_graph::with_relations(d, edges, memories), facts, edges),
        forall|id: Seq<char>| #[trigger]
            d.edges.dom().contains(id) ==> memory_graph::with_relations(
                d,
                edges,
                memories,
            ).edges.dom().contains(id),
        forall|k: int|
            0 <= k < edges.len() && (#[trigger] edges[k]).from_entity_id@ != edges[k].to_entity_id@
                ==> memory_graph::with_relations(d, edges, memories).edges.dom().contains(
                "edge:"@ + edges[k].id@,
            ),
        forall|k: int|
            0 <= k < edges.len() && (#[trigger] edges[k]).memory_id is Some ==> {
                &&& "memory:"@ + edges[k].memory_id->0@ != "entity:"@ + edges[k].from_entity_id@
                    ==> memory_graph::with_relations(d, edges, memories).edges.dom().contains(
                    "edge-memory-from:"@ + edges[k].id@,
                )
                &&& "memory:"@ + edges[k].memory_id->0@ != "entity:"@ + edges[k].to_entity_id@
                    ==> memory_graph::with_relations(d, edges, memories).edges.dom().contains(
                    "edge-memory-to:"@ + edges[k].id@,
                )
            },
    decreases edges.len(),
{
    if edges.len() > 0 {
        let front = edges.drop_last();
        let r = edges.last();
        lemma_relations_drawn(d, facts, front, memories);
        let before = memory_graph::with_relations(d, front, memories);
        let after = memory_graph::with_relations(d, edges, memories);
        if "entity:"@ + r.from_entity_id@ == "entity:"@ + r.to_entity_id@ {
            lemma_prefix_injective("entity:"@, r.from_entity_id@, r.to_entity_id@);
        }
        assert forall|id: Seq<char>| #[trigger]
            before.edges.dom().contains(id) implies after.edges.dom().contains(id)
            && after.edges[id] == before.edges[id] by {}
        assert forall|id: Seq<char>| #[trigger]
            after.edges.dom().contains(id) implies after.edges[id].id == id && is_drawn(
            after.edges[id],
            facts,
            edges,
        ) by {
            if before.edges.dom().contains(id) {
                lemma_drawn_among_more(before.edges[id], facts, front, facts, edges);
            } else {
                assert(edges[edges.len() - 1] == r);
                assert(draws_relation(after.edges[id], edges[edges.len() - 1])
                    || draws_relation_evidence(after.edges[id], edges[edges.len() - 1]));
            }
        }
        assert forall|k: int|
            0 <= k < edges.len() && (#[trigger] edges[k]).from_entity_id@
                != edges[k].to_entity_id@ implies after.edges.dom().contains(
            "edge:"@ + edges[k].id@,
        ) by {
            if k < front.len() {
                assert(front[k] == edges[k]);
                assert(before.edges.dom().contains("edge:"@ + edges[k].id@));
            }
        }
        assert forall|k: int| 0 <= k < edges.len() && (#[trigger] edges[k]).memory_id is Some implies {
            &&& "memory:"@ + edges[k].memory_id->0@ != "entity:"@ + edges[k].from_entity_id@
                ==> after.edges.dom().contains("edge-memory-from:"@ + edges[k].id@)
            &&& "memory:"@ + edges[k].memory_id->0@ != "entity:"@ + edges[k].to_entity_id@
                ==> after.edges.dom().contains("edge-memory-to:"@ + edges[k].id@)
        } by {
            if k < front.len() {
                assert(front[k] == edges[k]);
            }
        }
    }
}

/// The parts of an id before and after its prefix tell the four sorts of edges apart.
proof fn lemma_sorts_differ(a: Seq<char>, b: Seq<char>)
    ensures
        "edge:"@ + a != "fact-entity:"@ + b,
        "edge:"@ + a != "fact-memory:"@ + b,
        "edge:"@ + a != "edge-memory-from:"@ + b,
        "edge:"@ + a != "edge-memory-to:"@ + b,
        "fact-entity:"@ + a != "fact-memory:"@ + b,
        "fact-entity:"@ + a != "edge-memory-from:"@ + b,
        "fact-entity:"@ + a != "edge-memory-to:"@ + b,
        "fact-memory:"@ + a != "edge-memory-from:"@ + b,
        "fact-memory:"@ + a != "edge-memory-to:"@ + b,
        "edge-memory-from:"@ + a != "edge-memory-to:"@ + b,
        "entity:"@ + a != "fact:"@ + b,
        "fact:"@ + a != "memory:"@ + b,
        "memory:"@ + a != "entity:"@ + b,
{
    reveal_strlit("edge:");
    reveal_strlit("fact-entity:");
    reveal_strlit("fact-memory:");
    reveal_strlit("edge-memory-from:");
    reveal_strlit("edge-memory-to:");
    reveal_strlit("entity:");
    reveal_strlit("fact:");
    reveal_strlit("memory:");
    assert(("edge:"@ + a)[0] == 'e' && ("edge:"@ + a)[4] == ':');
    assert(("fact-entity:"@ + b)[0] == 'f');
    assert(("fact-entity:"@ + a)[0] == 'f' && ("fact-entity:"@ + a)[5] == 'e');
    assert(("fact-memory:"@ + b)[0] == 'f' && ("fact-memory:"@ + b)[5] == 'm');
    assert(("fact-memory:"@ + a)[0] == 'f');
    assert(("edge-memory-from:"@ + b)[0] == 'e' && ("edge-memory-from:"@ + b)[4] == '-');
    assert(("edge-memory-from:"@ + a)[12] == 'f');
    assert(("edge-memory-to:"@ + b)[0] == 'e' && ("edge-memory-to:"@ + b)[4] == '-' && (
    "edge-memory-to:"@ + b)[12] == 't');
    assert(("entity:"@ + a)[0] == 'e' && ("entity:"@ + b)[0] == 'e');
    assert(("fact:"@ + a)[0] == 'f' && ("fact:"@ + b)[0] == 'f');
    assert(("memory:"@ + a)[0] == 'm' && ("memory:"@ + b)[0] == 'm');
}

proof fn lemma_draft_drawn(memories: Seq<Memory>, g: MemoryGraph)
    ensures
        ({
            let d = memory_graph::relationship_draft(memories, g);
            &&& d.nodes.dom().finite()
            &&& d.edges.dom().finite()
            &&& all_drawn(d, g.facts@, g.edges@)
            &&& forall|k: int|
                0 <= k < g.facts@.len() && (#[trigger] g.facts@[k]).entity_id is Some
                    ==> d.edges.dom().contains("fact-entity:"@ + g.facts@[k].id@)
            &&& forall|k: int|
                0 <= k < g.facts@.len() && (#[trigger] g.facts@[k]).memory_id is Some
                    ==> d.edges.dom().contains("fact-memory:"@ + g.facts@[k].id@)
            &&& forall|k: int|
                0 <= k < g.edges@.len() && (#[trigger] g.edges@[k]).from_entity_id@
                    != g.edges@[k].to_entity_id@ ==> d.edges.dom().contains(
                    "edge:"@ + g.edges@[k].id@,
                )
            &&& forall|k: int|
                0 <= k < g.edges@.len() && (#[trigger] g.edges@[k]).memory_id is Some
                    ==> d.edges.dom().contains("edge-memory-from:"@ + g.edges@[k].id@)
                    && d.edges.dom().contains("edge-memory-to:"@ + g.edges@[k].id@)
            &&& memory_graph::relationship_model(memories, g) == (if d.nodes == Map::<
                Seq<char>,
                NodeView,
            >::empty() {
                memory_graph::fallback_model(memories)
            } else {
                d.model(false)
            })
        }),
{
    let none = DraftView::empty();
    let d0 = memory_graph::with_entities(none, g.entities@);
    lemma_with_entities(none, g.entities@);
    lemma_entities_draw_nothing(none, g.entities@);
    let d1 = memory_graph::with_facts(d0, g.facts@, memories);
    lemma_with_facts(d0, g.facts@, memories);
    lemma_facts_drawn(d0, g.facts@, memories);
    let d = memory_graph::relationship_draft(memories, g);
    lemma_with_relations(d1, g.edges@, memories);
    lemma_relations_drawn(d1, g.facts@, g.edges@, memories);
    assert forall|k: int|
        0 <= k < g.facts@.len() && (#[trigger] g.facts@[k]).entity_id is Some implies d.edges.dom().contains(
    "fact-entity:"@ + g.facts@[k].id@) by {
        lemma_sorts_differ(g.facts@[k].entity_id->0@, g.facts@[k].id@);
        assert(d1.edges.dom().contains("fact-entity:"@ + g.facts@[k].id@));
    }
    assert forall|k: int|
        0 <= k < g.facts@.len() && (#[trigger] g.facts@[k]).memory_id is Some implies d.edges.dom().contains(
    "fact-memory:"@ + g.facts@[k].id@) by {
        lemma_sorts_differ(g.facts@[k].id@, g.facts@[k].memory_id->0@);
        assert(d1.edges.dom().contains("fact-memory:"@ + g.facts@[k].id@));
    }
    assert forall|k: int|
        0 <= k < g.edges@.len() && (#[trigger] g.edges@[k]).memory_id is Some implies d.edges.dom().contains(
    "edge-memory-from:"@ + g.edges@[k].id@) && d.edges.dom().contains(
        "edge-memory-to:"@ + g.edges@[k].id@,
    ) by {
        lemma_sorts_differ(g.edges@[k].memory_id->0@, g.edges@[k].from_entity_id@);
        lemma_sorts_differ(g.edges@[k].memory_id->0@, g.edges@[k].to_entity_id@);
    }
}

/// Every edge of the map of a memory graph is drawn for one of its facts or relations, in the
/// direction that it is stated in.
pub proof fn edges_of_the_map_are_stated(memories: Seq<Memory>, g: MemoryGraph, i: int)
    requires
        g.entities@.len() + g.facts@.len() + g.edges@.len() > 0,
        0 <= i < memory_graph::relationship_model(memories, g).edges.len(),
    ensures
        is_drawn(memory_graph::relationship_model(memories, g).edges[i], g.facts@, g.edges@),
{
    lemma_draft_drawn(memories, g);
    crate::model_laws::metadata_stands_in_for_an_empty_graph(memories, g);
    let d = memory_graph::relationship_draft(memories, g);
    lemma_model_holds(d, false);
    if d.nodes == Map::<Seq<char>, NodeView>::empty() {
        assert(memory_graph::relationship_model(memories, g) == memory_graph::fallback_model(
            memories,
        ));
        assert(memory_graph::fallback_model(memories).fallback);
    }
    let m = memory_graph::relationship_model(memories, g);
    assert(drafted_edge(d, d.model(false).edges[i]));
    let id = choose|id: Seq<char>| #[trigger]
        d.edges.dom().contains(id) && d.edges[id] == m.edges[i];
    assert(is_drawn(d.edges[id], g.facts@, g.edges@));
}

/// Every relation between two different entities is in the map: an edge of its own id that leads
/// from the entity it is stated of to the one it names.
pub proof fn relations_keep_their_direction(memories: Seq<Memory>, g: MemoryGraph, k: int)
    requires
        0 <= k < g.edges@.len(),
        g.edges@[k].from_entity_id@ != g.edges@[k].to_entity_id@,
        forall|j: int| 0 <= j < g.edges@.len() && j != k ==> (#[trigger] g.edges@[j]).id@
            != g.edges@[k].id@,
    ensures
        memory_graph::relationship_model(memories, g).edges.contains(
            (EdgeView {
                id: "edge:"@ + g.edges@[k].id@,
                from: "entity:"@ + g.edges@[k].from_entity_id@,
                to: "entity:"@ + g.edges@[k].to_entity_id@,
                label: graph::relation_text(g.edges@[k].relation_type@),
                kind: GraphEdgeKind::Explicit,
                weight: 1,
            }),
        ),
{
    lemma_draft_drawn(memories, g);
    crate::model_laws::metadata_stands_in_for_an_empty_graph(memories, g);
    let d = memory_graph::relationship_draft(memories, g);
    lemma_model_holds(d, false);
    if d.nodes == Map::<Seq<char>, NodeView>::empty() {
        assert(memory_graph::fallback_model(memories).fallback);
    }
    let id = "edge:"@ + g.edges@[k].id@;
    let e = d.edges[id];
    assert(d.edges.dom().contains(id));
    assert(is_drawn(e, g.facts@, g.edges@));
    assert forall|j: int| 0 <= j < g.facts@.len() implies !draws_fact(e, #[trigger] g.facts@[j])
        && !draws_fact_evidence(e, g.facts@[j]) by {
        lemma_sorts_differ(g.edges@[k].id@, g.facts@[j].id@);
    }
    assert forall|j: int| 0 <= j < g.edges@.len() implies !draws_relation_evidence(
        e,
        #[trigger] g.edges@[j],
    ) by {
        lemma_sorts_differ(g.edges@[k].id@, g.edges@[j].id@);
    }
    let j = choose|j: int| 0 <= j < g.edges@.len() && draws_relation(e, #[trigger] g.edges@[j]);
    lemma_prefix_injective("edge:"@, g.edges@[j].id@, g.edges@[k].id@);
    assert(j == k);
}

/// Every relation that a memory states is joined to that memory at both of its ends.
pub proof fn relations_rest_on_their_memory(memories: Seq<Memory>, g: MemoryGraph, k: int)
    requires
        0 <= k < g.edges@.len(),
        g.edges@[k].memory_id is Some,
        forall|j: int| 0 <= j < g.edges@.len() && j != k ==> (#[trigger] g.edges@[j]).id@
            != g.edges@[k].id@,
    ensures
        memory_graph::relationship_model(memories, g).edges.contains(
            (EdgeView {
                id: "edge-memory-from:"@ + g.edges@[k].id@,
                from: "memory:"@ + g.edges@[k].memory_id->0@,
                to: "entity:"@ + g.edges@[k].from_entity_id@,
                label: "основание"@,
                kind: GraphEdgeKind::Evidence,
                weight: 1,
            }),
        ),
        memory_graph::relationship_model(memories, g).edges.contains(
            (EdgeView {
                id: "edge-memory-to:"@ + g.edges@[k].id@,
                from: "memory:"@ + g.edges@[k].memory_id->0@,
                to: "entity:"@ + g.edges@[k].to_entity_id@,
                label: "основание"@,
                kind: GraphEdgeKind::Evidence,
                weight: 1,
            }),
        ),
{
    lemma_draft_drawn(memories, g);
    crate::model_laws::metadata_stands_in_for_an_empty_graph(memories, g);
    let d = memory_graph::relationship_draft(memories, g);
    lemma_model_holds(d, false);
    if d.nodes == Map::<Seq<char>, NodeView>::empty() {
        assert(memory_graph::fallback_model(memories).fallback);
    }
    let a = "edge-memory-from:"@ + g.edges@[k].id@;
    let b = "edge-memory-to:"@ + g.edges@[k].id@;
    assert(d.edges.dom().contains(a) && d.edges.dom().contains(b));
    assert(is_drawn(d.edges[a], g.facts@, g.edges@) && is_drawn(d.edges[b], g.facts@, g.edges@));
    assert forall|j: int| 0 <= j < g.facts@.len() implies !draws_fact(
        d.edges[a],
        #[trigger] g.facts@[j],
    ) && !draws_fact_evidence(d.edges[a], g.facts@[j]) && !draws_fact(d.edges[b], g.facts@[j])
        && !draws_fact_evidence(d.edges[b], g.facts@[j]) by {
        lemma_sorts_differ(g.facts@[j].id@, g.edges@[k].id@);
    }
    assert forall|j: int| 0 <= j < g.edges@.len() implies !draws_relation(
        d.edges[a],
        #[trigger] g.edges@[j],
    ) && !draws_relation(d.edges[b], g.edges@[j]) && (draws_relation_evidence(
        d.edges[a],
        g.edges@[j],
    ) || draws_relation_evidence(d.edges[b], g.edges@[j]) ==> j == k) by {
        lemma_sorts_differ(g.edges@[j].id@, g.edges@[k].id@);
        lemma_sorts_differ(g.edges@[k].id@, g.edges@[j].id@);
        if "edge-memory-from:"@ + g.edges@[j].id@ == a {
            lemma_prefix_injective("edge-memory-from:"@, g.edges@[j].id@, g.edges@[k].id@);
        }
        if "edge-memory-to:"@ + g.edges@[j].id@ == b {
            lemma_prefix_injective("edge-memory-to:"@, g.edges@[j].id@, g.edges@[k].id@);
        }
    }
    lemma_sorts_differ(g.edges@[k].id@, g.edges@[k].id@);
    assert(draws_relation_evidence(d.edges[a], g.edges@[k]));
    assert(draws_relation_evidence(d.edges[b], g.edges@[k]));
}

/// Every fact hangs at the entity it is of, and rests on the memory that states it.
pub proof fn facts_hang_at_their_entity(memories: Seq<Memory>, g: MemoryGraph, k: int)
    requires
        0 <= k < g.facts@.len(),
        forall|j: int| 0 <= j < g.facts@.len() && j != k ==> (#[trigger] g.facts@[j]).id@
            != g.facts@[k].id@,
    ensures
        g.facts@[k].entity_id matches Some(entity) ==> memory_graph::relationship_model(
            memories,
            g,
        ).edges.contains(
            (EdgeView {
                id: "fact-entity:"@ + g.facts@[k].id@,
                from: "entity:"@ + entity@,
                to: "fact:"@ + g.facts@[k].id@,
                label: graph::relation_text(g.facts@[k].predicate@),
                kind: GraphEdgeKind::Fact,
                weight: 1,
            }),
        ),
        g.facts@[k].memory_id matches Some(memory) ==> memory_graph::relationship_model(
            memories,
            g,
        ).edges.contains(
            (EdgeView {
                id: "fact-memory:"@ + g.facts@[k].id@,
                from: "fact:"@ + g.facts@[k].id@,
                to: "memory:"@ + memory@,
                label: "подтверждено"@,
                kind: GraphEdgeKind::Evidence,
                weight: 1,
            }),
        ),
{
    lemma_draft_drawn(memories, g);
    crate::model_laws::metadata_stands_in_for_an_empty_graph(memories, g);
    let d = memory_graph::relationship_draft(memories, g);
    lemma_model_holds(d, false);
    if d.nodes == Map::<Seq<char>, NodeView>::empty() {
        assert(memory_graph::fallback_model(memories).fallback);
    }
    let a = "fact-entity:"@ + g.facts@[k].id@;
    let b = "fact-memory:"@ + g.facts@[k].id@;
    assert forall|j: int| 0 <= j < g.edges@.len() implies !draws_relation(
        d.edges[a],
        #[trigger] g.edges@[j],
    ) || d.edges[a].id != a by {
        lemma_sorts_differ(g.edges@[j].id@, g.facts@[k].id@);
    }
    assert forall|j: int| 0 <= j < g.edges@.len() implies {
        &&& d.edges[a].id == a ==> !draws_relation_evidence(d.edges[a], #[trigger] g.edges@[j])
        &&& d.edges[b].id == b ==> !draws_relation_evidence(d.edges[b], g.edges@[j])
        &&& d.edges[b].id == b ==> !draws_relation(d.edges[b], g.edges@[j])
    } by {
        lemma_sorts_differ(g.facts@[k].id@, g.edges@[j].id@);
        lemma_sorts_differ(g.edges@[j].id@, g.facts@[k].id@);
    }
    assert forall|j: int| 0 <= j < g.facts@.len() implies {
        &&& d.edges[a].id == a ==> !draws_fact_evidence(d.edges[a], #[trigger] g.facts@[j])
        &&& d.edges[b].id == b ==> !draws_fact(d.edges[b], g.facts@[j])
        &&& d.edges[a].id == a && draws_fact(d.edges[a], g.facts@[j]) ==> j == k
        &&& d.edges[b].id == b && draws_fact_evidence(d.edges[b], g.facts@[j]) ==> j == k
    } by {
        lemma_sorts_differ(g.facts@[k].id@, g.facts@[j].id@);
        lemma_sorts_differ(g.facts@[j].id@, g.facts@[k].id@);
        if "fact-entity:"@ + g.facts@[j].id@ == a {
            lemma_prefix_injective("fact-entity:"@, g.facts@[j].id@, g.facts@[k].id@);
        }
        if "fact-memory:"@ + g.facts@[j].id@ == b {
            lemma_prefix_injective("fact-memory:"@, g.facts@[j].id@, g.facts@[k].id@);
        }
    }
    if g.facts@[k].entity_id is Some {
        assert(d.edges.dom().contains(a));
        assert(is_drawn(d.edges[a], g.facts@, g.edges@));
    }
    if g.facts@[k].memory_id is Some {
        assert(d.edges.dom().contains(b));
        assert(is_drawn(d.edges[b], g.facts@, g.edges@));
    }
}

// ---------------------------------------------------------------------------
// The nodes of the relationship map
// ---------------------------------------------------------------------------

/// Whether a node is that of a memory with an id: with the start of its text where the memory is
/// known.
pub open spec fn shows_memory(n: NodeView, id: Seq<char>, memories: Seq<Memory>) -> bool {
    &&& n.id == "memory:"@ + id
    &&& n.kind == GraphNodeKind::Memory
    &&& forall|j: int|
        0 <= j < memories.len() && (#[trigger] memories[j]).id@ == id && (forall|l: int|
            j < l < memories.len() ==> (#[trigger] memories[l]).id@ != id) ==> n.label
            == text::truncated(text::trimmed(memories[j].body@), 48) && n.detail
            == memories[j].kind@
    &&& (forall|j: int| 0 <= j < memories.len() ==> (#[trigger] memories[j]).id@ != id)
        ==> n.detail == id
}

/// Whether a node stands for an entity, a fact, or a memory that a fact or a relation rests on.
pub open spec fn is_shown(n: NodeView, memories: Seq<Memory>, g: MemoryGraph) -> bool {
    ||| n.kind == GraphNodeKind::Entity && exists|k: int|
        0 <= k < g.entities@.len() && n.id == "entity:"@ + (#[trigger] g.entities@[k]).id@
            && n.label == g.entities@[k].name@ && n.detail == g.entities@[k].entity_type@
    ||| n.kind == GraphNodeKind::Fact && exists|k: int|
        0 <= k < g.facts@.len() && n.id == "fact:"@ + (#[trigger] g.facts@[k]).id@ && n.detail
            == g.facts@[k].value@ && n.label == text::truncated(
            graph::relation_text(g.facts@[k].predicate@) + ": "@ + g.facts@[k].value@,
            42,
        )
    ||| n.kind == GraphNodeKind::Entity && exists|k: int|
        0 <= k < g.facts@.len() && ((#[trigger] g.facts@[k]).entity_id matches Some(e) && n.id
            == "entity:"@ + e@ && n.detail == e@)
    ||| n.kind == GraphNodeKind::Entity && exists|k: int|
        0 <= k < g.edges@.len() && {
            ||| n.id == "entity:"@ + (#[trigger] g.edges@[k]).from_entity_id@ && n.label
                == g.edges@[k].from_entity_name@ && n.detail == g.edges@[k].from_entity_id@
            ||| n.id == "entity:"@ + g.edges@[k].to_entity_id@ && n.label
                == g.edges@[k].to_entity_name@ && n.detail == g.edges@[k].to_entity_id@
        }
    ||| exists|k: int|
        0 <= k < g.facts@.len() && ((#[trigger] g.facts@[k]).memory_id matches Some(m)
            && shows_memory(n, m@, memories))
    ||| exists|k: int|
        0 <= k < g.edges@.len() && ((#[trigger] g.edges@[k]).memory_id matches Some(m)
            && shows_memory(n, m@, memories))
}

spec fn all_shown(d: DraftView, memories: Seq<Memory>, g: MemoryGraph) -> bool {
    forall|id: Seq<char>| #[trigger]
        d.nodes.dom().contains(id) ==> d.nodes[id].id == id && is_shown(d.nodes[id], memories, g)
}

/// The last memory with an id is the one that is found by it.
pub(crate) proof fn lemma_memory_by_id(memories: Seq<Memory>, id: Seq<char>)
    ensures
        match graph::memory_by_id(memories, id) {
            Some(m) => exists|j: int|
                0 <= j < memories.len() && #[trigger] memories[j] == m && m.id@ == id && forall|
                    l: int,
                |
                    j < l < memories.len() ==> (#[trigger] memories[l]).id@ != id,
            None => forall|j: int|
                0 <= j < memories.len() ==> (#[trigger] memories[j]).id@ != id,
        },
    decreases memories.len(),
{
    if memories.len() > 0 {
        let front = memories.drop_last();
        lemma_memory_by_id(front, id);
        if memories.last().id@ == id {
            assert(memories[memories.len() - 1] == graph::memory_by_id(memories, id)->0);
        } else {
            match graph::memory_by_id(memories, id) {
                Some(m) => {
                    let j = choose|j: int|
                        0 <= j < front.len() && #[trigger] front[j] == m && m.id@ == id && forall|
                            l: int,
                        |
                            j < l < front.len() ==> (#[trigger] front[l]).id@ != id;
                    assert(memories[j] == m);
                    assert forall|l: int| j < l < memories.len() implies (
                    #[trigger] memories[l]).id@ != id by {
                        if l < front.len() {
                            assert(front[l].id@ != id);
                        }
                    }
                },
                None => {
                    assert forall|j: int| 0 <= j < memories.len() implies (
                    #[trigger] memories[j]).id@ != id by {
                        if j < front.len() {
                            assert(front[j].id@ != id);
                        }
                    }
                },
            }
        }
    }
}

pub(crate) proof fn lemma_memory_node_shows(memories: Seq<Memory>, id: Seq<char>)
    ensures
        shows_memory(graph::memory_node(id, graph::memory_by_id(memories, id)), id, memories),
{
    lemma_memory_by_id(memories, id);
    let found = graph::memory_by_id(memories, id);
    let n = graph::memory_node(id, found);
    assert forall|j: int|
        0 <= j < memories.len() && (#[trigger] memories[j]).id@ == id && (forall|l: int|
            j < l < memories.len() ==> (#[trigger] memories[l]).id@ != id) implies n.label
        == text::truncated(text::trimmed(memories[j].body@), 48) && n.detail
        == memories[j].kind@ by {
        let o = choose|o: int|
            0 <= o < memories.len() && #[trigger] memories[o] == found->0 && found->0.id@ == id
                && forall|l: int| o < l < memories.len() ==> (#[trigger] memories[l]).id@ != id;
        assert(o == j) by {
            if o < j {
                assert(memories[j].id@ != id);
            }
            if j < o {
                assert(memories[o].id@ != id);
            }
        }
    }
}

proof fn lemma_entities_shown(memories: Seq<Memory>, g: MemoryGraph, n: int)
    requires
        0 <= n <= g.entities@.len(),
    ensures
        all_shown(
            memory_graph::with_entities(DraftView::empty(), g.entities@.take(n)),
            memories,
            g,
        ),
        forall|k: int|
            #![trigger g.entities@[k]]
            0 <= k < n && (forall|l: int|
                k < l < n ==> (#[trigger] g.entities@[l]).id@ != g.entities@[k].id@) ==> {
                let d = memory_graph::with_entities(DraftView::empty(), g.entities@.take(n));
                let id = "entity:"@ + g.entities@[k].id@;
                d.nodes.dom().contains(id) && d.nodes[id] == graph::entity_node(g.entities@[k])
            },
    decreases n,
{
    if n > 0 {
        lemma_entities_shown(memories, g, n - 1);
        let e = g.entities@[n - 1];
        assert(g.entities@.take(n).drop_last() =~= g.entities@.take(n - 1));
        assert(g.entities@.take(n).last() == e);
        let before = memory_graph::with_entities(DraftView::empty(), g.entities@.take(n - 1));
        let after = memory_graph::with_entities(DraftView::empty(), g.entities@.take(n));
        assert(after == before.put_node(graph::entity_node(e)));
        assert forall|k: int|
            #![trigger g.entities@[k]]
            0 <= k < n && (forall|l: int|
                k < l < n ==> (#[trigger] g.entities@[l]).id@ != g.entities@[k].id@) implies {
            let id = "entity:"@ + g.entities@[k].id@;
            after.nodes.dom().contains(id) && after.nodes[id] == graph::entity_node(g.entities@[k])
        } by {
            if k < n - 1 {
                assert(g.entities@[n - 1].id@ != g.entities@[k].id@);
                if "entity:"@ + g.entities@[k].id@ == "entity:"@ + e.id@ {
                    lemma_prefix_injective("entity:"@, g.entities@[k].id@, e.id@);
                }
            }
        }
    } else {
        assert(g.entities@.take(0) =~= Seq::<MemoryEntity>::empty());
    }
}

proof fn lemma_facts_shown(d: DraftView, memories: Seq<Memory>, g: MemoryGraph, n: int)
    requires
        0 <= n <= g.facts@.len(),
        all_shown(d, memories, g),
    ensures
        all_shown(memory_graph::with_facts(d, g.facts@.take(n), memories), memories, g),
        forall|x: Seq<char>|
            #![trigger d.nodes.dom().contains("entity:"@ + x)]
            d.nodes.dom().contains("entity:"@ + x) ==> {
                let r = memory_graph::with_facts(d, g.facts@.take(n), memories);
                r.nodes.dom().contains("entity:"@ + x) && r.nodes["entity:"@ + x]
                    == d.nodes["entity:"@ + x]
            },
        forall|k: int|
            #![trigger g.facts@[k]]
            0 <= k < n && (forall|l: int|
                k < l < n ==> (#[trigger] g.facts@[l]).id@ != g.facts@[k].id@) ==> {
                let r = memory_graph::with_facts(d, g.facts@.take(n), memories);
                let id = "fact:"@ + g.facts@[k].id@;
                r.nodes.dom().contains(id) && r.nodes[id] == memory_graph::fact_node(g.facts@[k])
            },
    decreases n,
{
    if n > 0 {
        lemma_facts_shown(d, memories, g, n - 1);
        let f = g.facts@[n - 1];
        assert(g.facts@.take(n).drop_last() =~= g.facts@.take(n - 1));
        assert(g.facts@.take(n).last() == f);
        let before = memory_graph::with_facts(d, g.facts@.take(n - 1), memories);
        let after = memory_graph::with_facts(d, g.facts@.take(n), memories);
        assert(after == memory_graph::with_fact(before, f, memories));
        if let Some(m) = f.memory_id {
            lemma_memory_node_shows(memories, m@);
        }
        assert forall|id: Seq<char>| #[trigger]
            after.nodes.dom().contains(id) implies after.nodes[id].id == id && is_shown(
            after.nodes[id],
            memories,
            g,
        ) by {
            assert(g.facts@[n - 1] == f);
        }
        assert forall|x: Seq<char>|
            #![trigger d.nodes.dom().contains("entity:"@ + x)]
            d.nodes.dom().contains("entity:"@ + x) implies after.nodes.dom().contains(
            "entity:"@ + x,
        ) && after.nodes["entity:"@ + x] == d.nodes["entity:"@ + x] by {
            lemma_sorts_differ(x, f.id@);
            assert(before.nodes.dom().contains("entity:"@ + x));
        }
        assert forall|k: int|
            #![trigger g.facts@[k]]
            0 <= k < n && (forall|l: int|
                k < l < n ==> (#[trigger] g.facts@[l]).id@ != g.facts@[k].id@) implies {
            let id = "fact:"@ + g.facts@[k].id@;
            after.nodes.dom().contains(id) && after.nodes[id] == memory_graph::fact_node(
                g.facts@[k],
            )
        } by {
            if k < n - 1 {
                assert(g.facts@[n - 1].id@ != g.facts@[k].id@);
                if "fact:"@ + g.facts@[k].id@ == "fact:"@ + f.id@ {
                    lemma_prefix_injective("fact:"@, g.facts@[k].id@, f.id@);
                }
            }
        }
    } else {
        assert(g.facts@.take(0) =~= Seq::<MemoryFact>::empty());
    }
}

proof fn lemma_relations_shown(d: DraftView, memories: Seq<Memory>, g: MemoryGraph, n: int)
    requires
        0 <= n <= g.edges@.len(),
        all_shown(d, memories, g),
    ensures
        all_shown(memory_graph::with_relations(d, g.edges@.take(n), memories), memories, g),
        forall|id: Seq<char>| #[trigger]
            d.nodes.dom().contains(id) ==> {
                let r = memory_graph::with_relations(d, g.edges@.take(n), memories);
                r.nodes.dom().contains(id) && r.nodes[id] == d.nodes[id]
            },
    decreases n,
{
    if n > 0 {
        lemma_relations_shown(d, memories, g, n - 1);
        let r = g.edges@[n - 1];
        assert(g.edges@.take(n).drop_last() =~= g.edges@.take(n - 1));
        assert(g.edges@.take(n).last() == r);
        let before = memory_graph::with_relations(d, g.edges@.take(n - 1), memories);
        let after = memory_graph::with_relations(d, g.edges@.take(n), memories);
        assert(after == memory_graph::with_relation(before, r, memories));
        if let Some(m) = r.memory_id {
            lemma_memory_node_shows(memories, m@);
        }
        assert forall|id: Seq<char>| #[trigger]
            after.nodes.dom().contains(id) implies after.nodes[id].id == id && is_shown(
            after.nodes[id],
            memories,
            g,
        ) by {
            assert(g.edges@[n - 1] == r);
        }
    } else {
        assert(g.edges@.take(0) =~= Seq::<MemoryEdge>::empty());
    }
}

/// Every node of the map stands for an entity, a fact, or a memory that a fact or a relation rests
/// on, and bears its words. Every entity has a node with its name and type, every fact one with
/// its predicate and value.
pub proof fn nodes_of_the_map_are_named(memories: Seq<Memory>, g: MemoryGraph)
    requires
        g.entities@.len() + g.facts@.len() + g.edges@.len() > 0,
    ensures
        ({
            let m = memory_graph::relationship_model(memories, g);
            &&& forall|i: int| 0 <= i < m.nodes.len() ==> is_shown(
                #[trigger] m.nodes[i],
                memories,
                g,
            )
            &&& forall|k: int|
                #![trigger g.entities@[k]]
                0 <= k < g.entities@.len() && (forall|l: int|
                    k < l < g.entities@.len() ==> (#[trigger] g.entities@[l]).id@
                        != g.entities@[k].id@) ==> m.nodes.contains(
                    (NodeView {
                        id: "entity:"@ + g.entities@[k].id@,
                        label: g.entities@[k].name@,
                        detail: g.entities@[k].entity_type@,
                        kind: GraphNodeKind::Entity,
                    }),
                )
            &&& forall|k: int|
                #![trigger g.facts@[k]]
                0 <= k < g.facts@.len() && (forall|l: int|
                    k < l < g.facts@.len() ==> (#[trigger] g.facts@[l]).id@ != g.facts@[k].id@)
                    ==> m.nodes.contains(
                    (NodeView {
                        id: "fact:"@ + g.facts@[k].id@,
                        label: text::truncated(
                            graph::relation_text(g.facts@[k].predicate@) + ": "@
                                + g.facts@[k].value@,
                            42,
                        ),
                        detail: g.facts@[k].value@,
                        kind: GraphNodeKind::Fact,
                    }),
                )
        }),
{
    let (n, k, l) = (g.entities@.len() as int, g.facts@.len() as int, g.edges@.len() as int);
    assert(g.entities@.take(n) =~= g.entities@);
    assert(g.facts@.take(k) =~= g.facts@);
    assert(g.edges@.take(l) =~= g.edges@);
    lemma_entities_shown(memories, g, n);
    let d0 = memory_graph::with_entities(DraftView::empty(), g.entities@);
    lemma_facts_shown(d0, memories, g, k);
    let d1 = memory_graph::with_facts(d0, g.facts@, memories);
    lemma_relations_shown(d1, memories, g, l);
    let d = memory_graph::relationship_draft(memories, g);
    lemma_draft_drawn(memories, g);
    lemma_model_holds(d, false);
    crate::model_laws::metadata_stands_in_for_an_empty_graph(memories, g);
    if d.nodes == Map::<Seq<char>, NodeView>::empty() {
        assert(memory_graph::fallback_model(memories).fallback);
    }
    let m = memory_graph::relationship_model(memories, g);
    assert forall|i: int| 0 <= i < m.nodes.len() implies is_shown(
        #[trigger] m.nodes[i],
        memories,
        g,
    ) by {
        assert(drafted_node(d, d.model(false).nodes[i]));
        let id = choose|id: Seq<char>| #[trigger]
            d.nodes.dom().contains(id) && d.nodes[id] == m.nodes[i];
    }
    assert forall|k: int|
        #![trigger g.entities@[k]]
        0 <= k < g.entities@.len() && (forall|l: int|
            k < l < g.entities@.len() ==> (#[trigger] g.entities@[l]).id@
                != g.entities@[k].id@) implies m.nodes.contains(
        (NodeView {
            id: "entity:"@ + g.entities@[k].id@,
            label: g.entities@[k].name@,
            detail: g.entities@[k].entity_type@,
            kind: GraphNodeKind::Entity,
        }),
    ) by {
        let id = "entity:"@ + g.entities@[k].id@;
        assert(d0.nodes.dom().contains(id));
        assert(d1.nodes.dom().contains(id));
        assert(d.nodes.dom().contains(id));
        assert(d.nodes[id] == graph::entity_node(g.entities@[k]));
    }
    assert forall|k: int|
        #![trigger g.facts@[k]]
        0 <= k < g.facts@.len() && (forall|l: int|
            k < l < g.facts@.len() ==> (#[trigger] g.facts@[l]).id@
                != g.facts@[k].id@) implies m.nodes.contains(
        (NodeView {
            id: "fact:"@ + g.facts@[k].id@,
            label: text::truncated(
                graph::relation_text(g.facts@[k].predicate@) + ": "@ + g.facts@[k].value@,
                42,
            ),
            detail: g.facts@[k].value@,
            kind: GraphNodeKind::Fact,
        }),
    ) by {
        let id = "fact:"@ + g.facts@[k].id@;
        assert(d1.nodes.dom().contains(id));
        assert(d.nodes.dom().contains(id));
        assert(d.nodes[id] == memory_graph::fact_node(g.facts@[k]));
    }
}

} // verus!
