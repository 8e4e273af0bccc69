//! What holds of every graph that is built: ids are unique, no edge leads from a node to itself,
//! and edges join nodes that are there.
use vstd::prelude::*;
use crate::graph::{DraftView, GraphEdgeKind, GraphNodeKind, NodeView};
use crate::memory_graph::{Grouping, MemberView};
use crate::records::{CodeSymbol, Memory, MemoryEdge, MemoryEntity, MemoryFact, MemoryGraph};
use crate::bridge::TargetView;
use crate::{bridge, graph, memory_graph, order};

verus! {

// ---------------------------------------------------------------------------
// Steps of a draft
// ---------------------------------------------------------------------------

/// Whether a draft has every node of another.
pub(crate) open spec fn keeps_nodes(a: DraftView, b: DraftView) -> bool {
    forall|k: Seq<char>| #[trigger] a.nodes.dom().contains(k) ==> b.nodes.dom().contains(k)
}

proof fn lemma_put_node(d: DraftView, n: NodeView)
    requires
        d.sound(),
    ensures
        d.put_node(n).sound(),
        d.closed() ==> d.put_node(n).closed(),
        keeps_nodes(d, d.put_node(n)),
        d.put_node(n).nodes.dom().contains(n.id),
{
}

proof fn lemma_ensure_node(d: DraftView, n: NodeView)
    requires
        d.sound(),
    ensures
        d.ensure_node(n).sound(),
        d.closed() ==> d.ensure_node(n).closed(),
        keeps_nodes(d, d.ensure_node(n)),
        d.ensure_node(n).nodes.dom().contains(n.id),
{
    lemma_put_node(d, n);
}

proof fn lemma_add_edge(
    d: DraftView,
    id: Seq<char>,
    from: Seq<char>,
    to: Seq<char>,
    label: Seq<char>,
    kind: GraphEdgeKind,
)
    requires
        d.sound(),
    ensures
        d.add_edge(id, from, to, label, kind).sound(),
        d.closed() && d.nodes.dom().contains(from) && d.nodes.dom().contains(to) ==> d.add_edge(
            id,
            from,
            to,
            label,
            kind,
        ).closed(),
        d.add_edge(id, from, to, label, kind).nodes == d.nodes,
{
}

// ---------------------------------------------------------------------------
// Memory graphs
// ---------------------------------------------------------------------------

pub(crate) proof fn lemma_with_entities(d: DraftView, entities: Seq<MemoryEntity>)
    requires
        d.sound(),
        d.closed(),
    ensures
        memory_graph::with_entities(d, entities).sound(),
        memory_graph::with_entities(d, entities).closed(),
        forall|i: int|
            0 <= i < entities.len() ==> memory_graph::with_entities(
                d,
                entities,
            ).nodes.dom().contains("entity:"@ + (#[trigger] entities[i]).id@),
    decreases entities.len(),
{
    if entities.len() > 0 {
        let front = entities.drop_last();
        lemma_with_entities(d, front);
        let before = memory_graph::with_entities(d, front);
        lemma_put_node(before, graph::entity_node(entities.last()));
        assert forall|i: int| 0 <= i < entities.len() implies memory_graph::with_entities(
            d,
            entities,
        ).nodes.dom().contains("entity:"@ + (#[trigger] entities[i]).id@) by {
            if i < front.len() {
                assert(before.nodes.dom().contains("entity:"@ + front[i].id@));
            }
        }
    }
}

proof fn lemma_with_fact(d: DraftView, fact: MemoryFact, memories: Seq<Memory>)
    requires
        d.sound(),
        d.closed(),
    ensures
        memory_graph::with_fact(d, fact, memories).sound(),
        memory_graph::with_fact(d, fact, memories).closed(),
        keeps_nodes(d, memory_graph::with_fact(d, fact, memories)),
        memory_graph::with_fact(d, fact, memories).nodes.dom().contains("fact:"@ + fact.id@),
{
    let n = memory_graph::fact_node(fact);
    lemma_put_node(d, n);
    let d1 = d.put_node(n);
    let d2 = match fact.entity_id {
        Some(e) => {
            let en = memory_graph::unnamed_entity_node(e@);
            lemma_ensure_node(d1, en);
            lemma_add_edge(
                d1.ensure_node(en),
                "fact-entity:"@ + fact.id@,
                "entity:"@ + e@,
                "fact:"@ + fact.id@,
                graph::relation_text(fact.predicate@),
                GraphEdgeKind::Fact,
            );
            d1.ensure_node(en).add_edge(
                "fact-entity:"@ + fact.id@,
                "entity:"@ + e@,
                "fact:"@ + fact.id@,
                graph::relation_text(fact.predicate@),
                GraphEdgeKind::Fact,
            )
        },
        None => d1,
    };
    match fact.memory_id {
        Some(mid) => {
            let mn = graph::memory_node(mid@, graph::memory_by_id(memories, mid@));
            lemma_ensure_node(d2, mn);
            lemma_add_edge(
                d2.ensure_node(mn),
                "fact-memory:"@ + fact.id@,
                "fact:"@ + fact.id@,
                "memory:"@ + mid@,
                "подтверждено"@,
                GraphEdgeKind::Evidence,
            );
        },
        None => {},
    }
}

pub(crate) proof fn lemma_with_facts(d: DraftView, facts: Seq<MemoryFact>, memories: Seq<Memory>)
    requires
        d.sound(),
        d.closed(),
    ensures
        memory_graph::with_facts(d, facts, memories).sound(),
        memory_graph::with_facts(d, facts, memories).closed(),
        keeps_nodes(d, memory_graph::with_facts(d, facts, memories)),
        forall|i: int|
            0 <= i < facts.len() ==> memory_graph::with_facts(
                d,
                facts,
                memories,
            ).nodes.dom().contains("fact:"@ + (#[trigger] facts[i]).id@),
    decreases facts.len(),
{
    if facts.len() > 0 {
        let front = facts.drop_last();
        lemma_with_facts(d, front, memories);
        let before = memory_graph::with_facts(d, front, memories);
        lemma_with_fact(before, facts.last(), memories);
        assert forall|i: int| 0 <= i < facts.len() implies memory_graph::with_facts(
            d,
            facts,
            memories,
        ).nodes.dom().contains("fact:"@ + (#[trigger] facts[i]).id@) by {
            if i < front.len() {
                assert(before.nodes.dom().contains("fact:"@ + front[i].id@));
            }
        }
    }
}

proof fn lemma_with_relation(d: DraftView, edge: MemoryEdge, memories: Seq<Memory>)
    requires
        d.sound(),
        d.closed(),
    ensures
        memory_graph::with_relation(d, edge, memories).sound(),
        memory_graph::with_relation(d, edge, memories).closed(),
        keeps_nodes(d, memory_graph::with_relation(d, edge, memories)),
{
    let from = "entity:"@ + edge.from_entity_id@;
    let to = "entity:"@ + edge.to_entity_id@;
    let a = memory_graph::named_entity_node(edge.from_entity_id@, edge.from_entity_name@);
    let b = memory_graph::named_entity_node(edge.to_entity_id@, edge.to_entity_name@);
    lemma_ensure_node(d, a);
    lemma_ensure_node(d.ensure_node(a), b);
    let d0 = d.ensure_node(a).ensure_node(b);
    let label = graph::relation_text(edge.relation_type@);
    lemma_add_edge(d0, "edge:"@ + edge.id@, from, to, label, GraphEdgeKind::Explicit);
    let d1 = d0.add_edge("edge:"@ + edge.id@, from, to, label, GraphEdgeKind::Explicit);
    match edge.memory_id {
        Some(mid) => {
            let mn = graph::memory_node(mid@, graph::memory_by_id(memories, mid@));
            lemma_ensure_node(d1, mn);
            let d2 = d1.ensure_node(mn);
            lemma_add_edge(
                d2,
                "edge-memory-from:"@ + edge.id@,
                "memory:"@ + mid@,
                from,
                "основание"@,
                GraphEdgeKind::Evidence,
            );
            let d3 = d2.add_edge(
                "edge-memory-from:"@ + edge.id@,
                "memory:"@ + mid@,
                from,
                "основание"@,
                GraphEdgeKind::Evidence,
            );
            lemma_add_edge(
                d3,
                "edge-memory-to:"@ + edge.id@,
                "memory:"@ + mid@,
                to,
                "основание"@,
                GraphEdgeKind::Evidence,
            );
        },
        None => {},
    }
}

pub(crate) proof fn lemma_with_relations(d: DraftView, edges: Seq<MemoryEdge>, memories: Seq<Memory>)
    requires
        d.sound(),
        d.closed(),
    ensures
        memory_graph::with_relations(d, edges, memories).sound(),
        memory_graph::with_relations(d, edges, memories).closed(),
        keeps_nodes(d, memory_graph::with_relations(d, edges, memories)),
    decreases edges.len(),
{
    if edges.len() > 0 {
        lemma_with_relations(d, edges.drop_last(), memories);
        lemma_with_relation(
            memory_graph::with_relations(d, edges.drop_last(), memories),
            edges.last(),
            memories,
        );
    }
}

pub(crate) proof fn lemma_with_memories(d: DraftView, memories: Seq<Memory>)
    requires
        d.sound(),
        d.closed(),
    ensures
        memory_graph::with_memories(d, memories).sound(),
        memory_graph::with_memories(d, memories).closed(),
        forall|i: int|
            0 <= i < memories.len() ==> memory_graph::with_memories(
                d,
                memories,
            ).nodes.dom().contains("memory:"@ + (#[trigger] memories[i]).id@),
    decreases memories.len(),
{
    if memories.len() > 0 {
        let front = memories.drop_last();
        let m = memories.last();
        lemma_with_memories(d, front);
        let before = memory_graph::with_memories(d, front);
        lemma_ensure_node(before, graph::memory_node(m.id@, Some(m)));
        assert forall|i: int| 0 <= i < memories.len() implies memory_graph::with_memories(
            d,
            memories,
        ).nodes.dom().contains("memory:"@ + (#[trigger] memories[i]).id@) by {
            if i < front.len() {
                assert(before.nodes.dom().contains("memory:"@ + front[i].id@));
            }
        }
    }
}

/// Whether every memory has its node.
pub(crate) open spec fn has_memories(d: DraftView, memories: Seq<Memory>) -> bool {
    forall|i: int|
        0 <= i < memories.len() ==> d.nodes.dom().contains(
            "memory:"@ + (#[trigger] memories[i]).id@,
        )
}

proof fn lemma_found_memory(memories: Seq<Memory>, id: Seq<char>)
    requires
        graph::memory_by_id(memories, id) is Some,
    ensures
        exists|i: int| 0 <= i < memories.len() && (#[trigger] memories[i]).id@ == id,
    decreases memories.len(),
{
    if memories.last().id@ == id {
        assert(memories[memories.len() - 1].id@ == id);
    } else {
        lemma_found_memory(memories.drop_last(), id);
        let front = memories.drop_last();
        let i = choose|i: int| 0 <= i < front.len() && (#[trigger] front[i]).id@ == id;
        assert(memories[i].id@ == id);
    }
}

pub(crate) proof fn lemma_with_replacements(d: DraftView, memories: Seq<Memory>, n: int)
    requires
        d.sound(),
        d.closed(),
        has_memories(d, memories),
        n <= memories.len(),
    ensures
        memory_graph::with_replacements(d, memories, n).sound(),
        memory_graph::with_replacements(d, memories, n).closed(),
        memory_graph::with_replacements(d, memories, n).nodes == d.nodes,
    decreases n,
{
    if n > 0 {
        lemma_with_replacements(d, memories, n - 1);
        let before = memory_graph::with_replacements(d, memories, n - 1);
        let m = memories[n - 1];
        assert(d.nodes.dom().contains("memory:"@ + memories[n - 1].id@));
        if let Some(by) = m.superseded_by {
            if graph::memory_by_id(memories, by@) is Some {
                lemma_found_memory(memories, by@);
                lemma_add_edge(
                    before,
                    "derived-superseded:"@ + m.id@ + ":"@ + by@,
                    "memory:"@ + m.id@,
                    "memory:"@ + by@,
                    "заменена"@,
                    GraphEdgeKind::Derived,
                );
            }
        }
    }
}

/// Whether all members are memories.
spec fn members_known(all: Seq<MemberView>, memories: Seq<Memory>) -> bool {
    forall|i: int|
        0 <= i < all.len() ==> exists|k: int|
            0 <= k < memories.len() && (#[trigger] memories[k]).id@ == (#[trigger] all[i]).memory
}

proof fn lemma_members_known(by: Grouping, memories: Seq<Memory>)
    ensures
        members_known(memory_graph::members(by, memories), memories),
    decreases memories.len(),
{
    if memories.len() > 0 {
        let front = memories.drop_last();
        lemma_members_known(by, front);
        let a = memory_graph::members(by, front);
        let b = memory_graph::members_of(by, memories.last());
        assert forall|i: int| 0 <= i < (a + b).len() implies exists|k: int|
            0 <= k < memories.len() && (#[trigger] memories[k]).id@ == (
            #[trigger] (a + b)[i]).memory by {
            if i < a.len() {
                assert((a + b)[i] == a[i]);
                let k = choose|k: int|
                    0 <= k < front.len() && (#[trigger] front[k]).id@ == a[i].memory;
                assert(memories[k].id@ == a[i].memory);
            } else {
                assert((a + b)[i] == b[i - a.len()]);
                assert(memories[memories.len() - 1].id@ == b[i - a.len()].memory);
            }
        }
    }
}

proof fn lemma_group_members_known(all: Seq<MemberView>, group: Seq<char>, memories: Seq<Memory>)
    requires
        members_known(all, memories),
    ensures
        forall|i: int|
            0 <= i < memory_graph::group_members(all, group).len() ==> exists|k: int|
                0 <= k < memories.len() && (#[trigger] memories[k]).id@ == #[trigger] memory_graph::group_members(
                    all,
                    group,
                )[i],
    decreases all.len(),
{
    if all.len() > 0 {
        let front = all.drop_last();
        assert(members_known(front, memories)) by {
            assert forall|i: int| 0 <= i < front.len() implies exists|k: int|
                0 <= k < memories.len() && (#[trigger] memories[k]).id@ == (
                #[trigger] front[i]).memory by {
                assert(front[i] == all[i]);
            }
        }
        lemma_group_members_known(front, group, memories);
        let before = memory_graph::group_members(front, group);
        let after = memory_graph::group_members(all, group);
        assert forall|i: int| 0 <= i < after.len() implies exists|k: int|
            0 <= k < memories.len() && (#[trigger] memories[k]).id@ == #[trigger] after[i] by {
            if i < before.len() {
                assert(after[i] == before[i]);
            } else {
                assert(all[all.len() - 1].memory == after[i]);
            }
        }
    }
}

proof fn lemma_with_chain(
    d: DraftView,
    by: Grouping,
    group: Seq<char>,
    ids: Seq<Seq<char>>,
    n: int,
)
    requires
        d.sound(),
        d.closed(),
        n <= ids.len(),
        forall|i: int|
            0 <= i < ids.len() ==> d.nodes.dom().contains("memory:"@ + #[trigger] ids[i]),
    ensures
        memory_graph::with_chain(d, by, group, ids, n).sound(),
        memory_graph::with_chain(d, by, group, ids, n).closed(),
        memory_graph::with_chain(d, by, group, ids, n).nodes == d.nodes,
    decreases n,
{
    if n > 1 {
        lemma_with_chain(d, by, group, ids, n - 1);
        let a = ids[n - 2];
        let b = ids[n - 1];
        assert(d.nodes.dom().contains("memory:"@ + a) && d.nodes.dom().contains("memory:"@ + b));
        lemma_add_edge(
            memory_graph::with_chain(d, by, group, ids, n - 1),
            (match by {
                Grouping::Tag => "derived-tag:"@,
                Grouping::Source => "derived-source:"@,
            }) + group + ":"@ + a + ":"@ + b,
            "memory:"@ + a,
            "memory:"@ + b,
            match by {
                Grouping::Tag => "#"@ + group,
                Grouping::Source => "источник"@,
            },
            GraphEdgeKind::Derived,
        );
    }
}

proof fn lemma_with_groups(
    d: DraftView,
    by: Grouping,
    all: Seq<MemberView>,
    groups: Seq<(Seq<char>, nat)>,
    n: int,
    memories: Seq<Memory>,
)
    requires
        d.sound(),
        d.closed(),
        has_memories(d, memories),
        members_known(all, memories),
    ensures
        memory_graph::with_groups(d, by, all, groups, n).sound(),
        memory_graph::with_groups(d, by, all, groups, n).closed(),
        memory_graph::with_groups(d, by, all, groups, n).nodes == d.nodes,
    decreases n,
{
    if n > 0 {
        lemma_with_groups(d, by, all, groups, n - 1, memories);
        let before = memory_graph::with_groups(d, by, all, groups, n - 1);
        let (group, size) = groups[n - 1];
        let ids = memory_graph::group_members(all, group);
        lemma_group_members_known(all, group, memories);
        assert forall|i: int| 0 <= i < ids.len() implies before.nodes.dom().contains(
            "memory:"@ + #[trigger] ids[i],
        ) by {
            let k = choose|k: int| 0 <= k < memories.len() && (#[trigger] memories[k]).id@ == ids[i];
            assert(d.nodes.dom().contains("memory:"@ + memories[k].id@));
        }
        lemma_with_chain(before, by, group, ids, ids.len() as int);
    }
}

pub(crate) proof fn lemma_with_grouping(d: DraftView, by: Grouping, memories: Seq<Memory>)
    requires
        d.sound(),
        d.closed(),
        has_memories(d, memories),
    ensures
        memory_graph::with_grouping(d, by, memories).sound(),
        memory_graph::with_grouping(d, by, memories).closed(),
        memory_graph::with_grouping(d, by, memories).nodes == d.nodes,
{
    let all = memory_graph::members(by, memories);
    let groups = order::sorted_entries(order::tally(memory_graph::groups_of(all)));
    lemma_members_known(by, memories);
    lemma_with_groups(d, by, all, groups, groups.len() as int, memories);
}

/// The graph of the memories' metadata has unique ids and no loops, its edges join nodes that are
/// there, and every memory has its node.
pub proof fn fallback_model_is_whole(memories: Seq<Memory>)
    ensures
        memory_graph::fallback_model(memories).unique_nodes(),
        memory_graph::fallback_model(memories).unique_edges(),
        memory_graph::fallback_model(memories).loop_free(),
        memory_graph::fallback_model(memories).closed(),
        memory_graph::fallback_model(memories).fallback,
        forall|i: int|
            0 <= i < memories.len() ==> memory_graph::fallback_model(memories).has_node(
                "memory:"@ + (#[trigger] memories[i]).id@,
            ),
{
    let start = DraftView::empty();
    lemma_with_memories(start, memories);
    let nodes = memory_graph::with_memories(start, memories);
    lemma_with_replacements(nodes, memories, memories.len() as int);
    let replaced = memory_graph::with_replacements(nodes, memories, memories.len() as int);
    lemma_with_grouping(replaced, Grouping::Tag, memories);
    let tagged = memory_graph::with_grouping(replaced, Grouping::Tag, memories);
    lemma_with_grouping(tagged, Grouping::Source, memories);
    let d = memory_graph::fallback_draft(memories);
    d.sound_model(true);
    assert forall|i: int| 0 <= i < memories.len() implies memory_graph::fallback_model(
        memories,
    ).has_node("memory:"@ + (#[trigger] memories[i]).id@) by {
        assert(d.nodes.dom().contains("memory:"@ + memories[i].id@));
    }
}

/// The graph of a memory graph has unique ids and no loops, and its edges join nodes that are
/// there. Every entity and every fact has its node.
pub proof fn relationship_model_is_whole(memories: Seq<Memory>, g: MemoryGraph)
    ensures
        memory_graph::relationship_model(memories, g).unique_nodes(),
        memory_graph::relationship_model(memories, g).unique_edges(),
        memory_graph::relationship_model(memories, g).loop_free(),
        memory_graph::relationship_model(memories, g).closed(),
        forall|i: int|
            0 <= i < g.entities@.len() ==> memory_graph::relationship_model(memories, g).has_node(
                "entity:"@ + (#[trigger] g.entities@[i]).id@,
            ),
        forall|i: int|
            0 <= i < g.facts@.len() ==> memory_graph::relationship_model(memories, g).has_node(
                "fact:"@ + (#[trigger] g.facts@[i]).id@,
            ),
{
    let d0 = memory_graph::with_entities(DraftView::empty(), g.entities@);
    lemma_with_entities(DraftView::empty(), g.entities@);
    let d1 = memory_graph::with_facts(d0, g.facts@, memories);
    lemma_with_facts(d0, g.facts@, memories);
    let d = memory_graph::relationship_draft(memories, g);
    lemma_with_relations(d1, g.edges@, memories);
    d.sound_model(false);
    let m = memory_graph::relationship_model(memories, g);
    assert forall|i: int| 0 <= i < g.entities@.len() implies m.has_node(
        "entity:"@ + (#[trigger] g.entities@[i]).id@,
    ) by {
        let id = "entity:"@ + g.entities@[i].id@;
        assert(d0.nodes.dom().contains(id));
        assert(d1.nodes.dom().contains(id));
        assert(d.nodes.dom().contains(id));
    }
    assert forall|i: int| 0 <= i < g.facts@.len() implies m.has_node(
        "fact:"@ + (#[trigger] g.facts@[i]).id@,
    ) by {
        let id = "fact:"@ + g.facts@[i].id@;
        assert(d1.nodes.dom().contains(id));
        assert(d.nodes.dom().contains(id));
    }
    if d.nodes == Map::<Seq<char>, NodeView>::empty() {
        fallback_model_is_whole(memories);
    }
}

/// No edge of a draft is derived from the memories' metadata.
spec fn underived(d: DraftView) -> bool {
    forall|k: Seq<char>| #[trigger]
        d.edges.dom().contains(k) ==> d.edges[k].kind != GraphEdgeKind::Derived
}

proof fn lemma_entities_underived(d: DraftView, entities: Seq<MemoryEntity>)
    requires
        underived(d),
    ensures
        underived(memory_graph::with_entities(d, entities)),
    decreases entities.len(),
{
    if entities.len() > 0 {
        lemma_entities_underived(d, entities.drop_last());
    }
}

proof fn lemma_facts_underived(d: DraftView, facts: Seq<MemoryFact>, memories: Seq<Memory>)
    requires
        underived(d),
    ensures
        underived(memory_graph::with_facts(d, facts, memories)),
    decreases facts.len(),
{
    if facts.len() > 0 {
        lemma_facts_underived(d, facts.drop_last(), memories);
    }
}

proof fn lemma_relations_underived(d: DraftView, edges: Seq<MemoryEdge>, memories: Seq<Memory>)
    requires
        underived(d),
    ensures
        underived(memory_graph::with_relations(d, edges, memories)),
        edges.len() > 0 ==> memory_graph::with_relations(d, edges, memories).nodes.dom().contains(
            "entity:"@ + edges.last().from_entity_id@,
        ),
    decreases edges.len(),
{
    if edges.len() > 0 {
        lemma_relations_underived(d, edges.drop_last(), memories);
    }
}

/// The graph of a memory graph is that of the memories' metadata exactly where the memory graph
/// holds nothing; otherwise no edge of it is derived.
pub proof fn metadata_stands_in_for_an_empty_graph(memories: Seq<Memory>, g: MemoryGraph)
    ensures
        ({
            let m = memory_graph::relationship_model(memories, g);
            let empty = g.entities@.len() == 0 && g.facts@.len() == 0 && g.edges@.len() == 0;
            &&& m.fallback == empty
            &&& empty ==> m == memory_graph::fallback_model(memories)
            &&& !empty ==> forall|i: int|
                0 <= i < m.edges.len() ==> (#[trigger] m.edges[i]).kind != GraphEdgeKind::Derived
        }),
{
    let none = DraftView::empty();
    let d0 = memory_graph::with_entities(none, g.entities@);
    lemma_with_entities(none, g.entities@);
    lemma_entities_underived(none, g.entities@);
    let d1 = memory_graph::with_facts(d0, g.facts@, memories);
    lemma_with_facts(d0, g.facts@, memories);
    lemma_facts_underived(d0, g.facts@, memories);
    let d = memory_graph::relationship_draft(memories, g);
    lemma_with_relations(d1, g.edges@, memories);
    lemma_relations_underived(d1, g.edges@, memories);
    if g.entities@.len() > 0 {
        let id = "entity:"@ + g.entities@[0].id@;
        assert(d0.nodes.dom().contains(id));
        assert(d1.nodes.dom().contains(id));
        assert(d.nodes.dom().contains(id));
    } else if g.facts@.len() > 0 {
        let id = "fact:"@ + g.facts@[0].id@;
        assert(d1.nodes.dom().contains(id));
        assert(d.nodes.dom().contains(id));
    }
    let m = memory_graph::relationship_model(memories, g);
    order::listing_exists(d.edges);
    let entries = order::sorted_entries(d.edges);
    if d.nodes != Map::<Seq<char>, NodeView>::empty() {
        assert forall|i: int| 0 <= i < m.edges.len() implies (#[trigger] m.edges[i]).kind
            != GraphEdgeKind::Derived by {
            assert(d.edges.contains_pair(entries[i].0, entries[i].1));
        }
    }
}

// ---------------------------------------------------------------------------
// Bridges
// ---------------------------------------------------------------------------

proof fn lemma_with_memory_targets(
    d: DraftView,
    id: Seq<char>,
    targets: Seq<TargetView>,
    n: int,
)
    requires
        d.sound(),
        d.nodes.dom().contains("memory:"@ + id),
    ensures
        bridge::with_memory_targets(d, id, targets, n).sound(),
        d.closed() ==> bridge::with_memory_targets(d, id, targets, n).closed(),
        keeps_nodes(d, bridge::with_memory_targets(d, id, targets, n)),
    decreases n,
{
    if n > 0 {
        lemma_with_memory_targets(d, id, targets, n - 1);
        let before = bridge::with_memory_targets(d, id, targets, n - 1);
        let t = targets[n - 1];
        let node = bridge::target_node(t);
        lemma_ensure_node(before, node);
        lemma_add_edge(
            before.ensure_node(node),
            "bridge-memory-code:"@ + id + ":"@ + t.id,
            "memory:"@ + id,
            t.id,
            "упоминает код"@,
            GraphEdgeKind::Derived,
        );
    }
}

pub(crate) proof fn lemma_with_memory_bridges(
    d: DraftView,
    memories: Seq<Memory>,
    symbols: Seq<CodeSymbol>,
    n: int,
)
    requires
        d.sound(),
        n <= memories.len(),
    ensures
        bridge::with_memory_bridges(d, memories, symbols, n).sound(),
        d.closed() ==> bridge::with_memory_bridges(d, memories, symbols, n).closed(),
        keeps_nodes(d, bridge::with_memory_bridges(d, memories, symbols, n)),
        forall|i: int|
            0 <= i < n ==> bridge::with_memory_bridges(
                d,
                memories,
                symbols,
                n,
            ).nodes.dom().contains("memory:"@ + (#[trigger] memories[i]).id@),
    decreases n,
{
    if n > 0 {
        lemma_with_memory_bridges(d, memories, symbols, n - 1);
        let before = bridge::with_memory_bridges(d, memories, symbols, n - 1);
        let m = memories[n - 1];
        let node = graph::memory_node(m.id@, Some(m));
        lemma_ensure_node(before, node);
        let targets = bridge::targets_in(bridge::memory_text(m), symbols, 8);
        lemma_with_memory_targets(before.ensure_node(node), m.id@, targets, targets.len() as int);
        assert forall|i: int| 0 <= i < n implies bridge::with_memory_bridges(
            d,
            memories,
            symbols,
            n,
        ).nodes.dom().contains("memory:"@ + (#[trigger] memories[i]).id@) by {
            if i < n - 1 {
                assert(before.nodes.dom().contains("memory:"@ + memories[i].id@));
            }
            assert(before.ensure_node(node).nodes.dom().contains("memory:"@ + memories[i].id@));
        }
    }
}

/// Whether the entity of a fact, where it has one, is known.
pub open spec fn entity_known(fact: MemoryFact, entities: Seq<MemoryEntity>) -> bool {
    fact.entity_id matches Some(e) ==> bridge::entity_by_id(entities, e@) is Some
}

proof fn lemma_found_entity(entities: Seq<MemoryEntity>, id: Seq<char>)
    ensures
        bridge::entity_by_id(entities, id) matches Some(e) ==> e.id@ == id,
    decreases entities.len(),
{
    if entities.len() > 0 && entities[0].id@ != id {
        lemma_found_entity(entities.drop_first(), id);
    }
}

pub(crate) proof fn lemma_with_fact_bridges(
    d: DraftView,
    facts: Seq<MemoryFact>,
    memories: Seq<Memory>,
    entities: Seq<MemoryEntity>,
    n: int,
)
    requires
        d.sound(),
        n <= facts.len(),
    ensures
        bridge::with_fact_bridges(d, facts, memories, entities, n).sound(),
        d.closed() && (forall|i: int|
            0 <= i < facts.len() ==> entity_known(#[trigger] facts[i], entities))
            ==> bridge::with_fact_bridges(d, facts, memories, entities, n).closed(),
        keeps_nodes(d, bridge::with_fact_bridges(d, facts, memories, entities, n)),
    decreases n,
{
    if n > 0 {
        lemma_with_fact_bridges(d, facts, memories, entities, n - 1);
        let before = bridge::with_fact_bridges(d, facts, memories, entities, n - 1);
        let fact = facts[n - 1];
        if fact.memory_id is Some && fact.entity_id is Some {
            let m = fact.memory_id->0@;
            let e = fact.entity_id->0@;
            let mn = graph::memory_node(m, graph::memory_by_id(memories, m));
            lemma_ensure_node(before, mn);
            let d1 = before.ensure_node(mn);
            lemma_found_entity(entities, e);
            let d2 = match bridge::entity_by_id(entities, e) {
                Some(entity) => {
                    lemma_ensure_node(d1, graph::entity_node(entity));
                    d1.ensure_node(graph::entity_node(entity))
                },
                None => d1,
            };
            lemma_add_edge(
                d2,
                "bridge-fact:"@ + fact.id@ + ":"@ + e,
                "memory:"@ + m,
                "entity:"@ + e,
                graph::relation_text(fact.predicate@),
                GraphEdgeKind::Fact,
            );
            assert(entity_known(facts[n - 1], entities) ==> bridge::entity_by_id(
                entities,
                e,
            ) is Some);
        }
    }
}

proof fn lemma_with_entity_targets(
    d: DraftView,
    entity: MemoryEntity,
    targets: Seq<TargetView>,
    n: int,
)
    requires
        d.sound(),
    ensures
        bridge::with_entity_targets(d, entity, targets, n).sound(),
        d.closed() ==> bridge::with_entity_targets(d, entity, targets, n).closed(),
        keeps_nodes(d, bridge::with_entity_targets(d, entity, targets, n)),
    decreases n,
{
    if n > 0 {
        lemma_with_entity_targets(d, entity, targets, n - 1);
        let before = bridge::with_entity_targets(d, entity, targets, n - 1);
        let t = targets[n - 1];
        lemma_ensure_node(before, graph::entity_node(entity));
        let d1 = before.ensure_node(graph::entity_node(entity));
        lemma_ensure_node(d1, bridge::target_node(t));
        lemma_add_edge(
            d1.ensure_node(bridge::target_node(t)),
            "bridge-entity-code:"@ + entity.id@ + ":"@ + t.id,
            "entity:"@ + entity.id@,
            t.id,
            "связано с кодом"@,
            GraphEdgeKind::Derived,
        );
    }
}

pub(crate) proof fn lemma_with_entity_bridges(
    d: DraftView,
    entities: Seq<MemoryEntity>,
    symbols: Seq<CodeSymbol>,
    n: int,
)
    requires
        d.sound(),
        n <= entities.len(),
    ensures
        bridge::with_entity_bridges(d, entities, symbols, n).sound(),
        d.closed() ==> bridge::with_entity_bridges(d, entities, symbols, n).closed(),
        keeps_nodes(d, bridge::with_entity_bridges(d, entities, symbols, n)),
    decreases n,
{
    if n > 0 {
        lemma_with_entity_bridges(d, entities, symbols, n - 1);
        let e = entities[n - 1];
        let targets = bridge::targets_in(bridge::entity_text(e), symbols, 5);
        lemma_with_entity_targets(
            bridge::with_entity_bridges(d, entities, symbols, n - 1),
            e,
            targets,
            targets.len() as int,
        );
    }
}

/// The bridge graph has unique ids and no loops, and every memory has its node. Where the
/// entities of all facts are known, its edges join nodes that are there.
pub proof fn bridge_model_is_whole(memories: Seq<Memory>, g: MemoryGraph, symbols: Seq<CodeSymbol>)
    ensures
        bridge::bridge_model(memories, g, symbols).unique_nodes(),
        bridge::bridge_model(memories, g, symbols).unique_edges(),
        bridge::bridge_model(memories, g, symbols).loop_free(),
        (forall|i: int|
            0 <= i < g.facts@.len() ==> entity_known(#[trigger] g.facts@[i], g.entities@))
            ==> bridge::bridge_model(memories, g, symbols).closed(),
        forall|i: int|
            0 <= i < memories.len() ==> bridge::bridge_model(memories, g, symbols).has_node(
                "memory:"@ + (#[trigger] memories[i]).id@,
            ),
{
    let n = memories.len() as int;
    let d1 = bridge::with_memory_bridges(DraftView::empty(), memories, symbols, n);
    lemma_with_memory_bridges(DraftView::empty(), memories, symbols, n);
    let k = g.facts@.len() as int;
    let d2 = bridge::with_fact_bridges(d1, g.facts@, memories, g.entities@, k);
    lemma_with_fact_bridges(d1, g.facts@, memories, g.entities@, k);
    let d = bridge::bridge_draft(memories, g, symbols);
    lemma_with_entity_bridges(d2, g.entities@, symbols, g.entities@.len() as int);
    d.sound_model(false);
    assert forall|i: int| 0 <= i < memories.len() implies bridge::bridge_model(
        memories,
        g,
        symbols,
    ).has_node("memory:"@ + (#[trigger] memories[i]).id@) by {
        let id = "memory:"@ + memories[i].id@;
        assert(d1.nodes.dom().contains(id));
        assert(d2.nodes.dom().contains(id));
        assert(d.nodes.dom().contains(id));
    }
}

/// No node of a draft stands for a fact.
spec fn factless(d: DraftView) -> bool {
    forall|k: Seq<char>| #[trigger]
        d.nodes.dom().contains(k) ==> d.nodes[k].kind != GraphNodeKind::Fact
}

proof fn lemma_targets_are_code(
    found: Seq<TargetView>,
    words: Seq<char>,
    symbols: Seq<CodeSymbol>,
    limit: nat,
    at: int,
)
    requires
        forall|i: int| 0 <= i < found.len() ==> (#[trigger] found[i]).kind != GraphNodeKind::Fact,
    ensures
        forall|i: int|
            0 <= i < bridge::targets_from(found, words, symbols, limit, at).len() ==> (
            #[trigger] bridge::targets_from(found, words, symbols, limit, at)[i]).kind
                != GraphNodeKind::Fact,
    decreases symbols.len() - at,
{
    if 0 <= at < symbols.len() {
        let next = bridge::targets_step(found, words, symbols[at]);
        assert forall|i: int| 0 <= i < next.len() implies (#[trigger] next[i]).kind
            != GraphNodeKind::Fact by {}
        lemma_targets_are_code(next, words, symbols, limit, at + 1);
    }
}

proof fn lemma_memory_targets_factless(
    d: DraftView,
    id: Seq<char>,
    targets: Seq<TargetView>,
    n: int,
)
    requires
        factless(d),
        n <= targets.len(),
        forall|i: int|
            0 <= i < targets.len() ==> (#[trigger] targets[i]).kind != GraphNodeKind::Fact,
    ensures
        factless(bridge::with_memory_targets(d, id, targets, n)),
    decreases n,
{
    if n > 0 {
        lemma_memory_targets_factless(d, id, targets, n - 1);
        assert(targets[n - 1].kind != GraphNodeKind::Fact);
    }
}

proof fn lemma_memory_bridges_factless(
    memories: Seq<Memory>,
    symbols: Seq<CodeSymbol>,
    n: int,
)
    requires
        n <= memories.len(),
    ensures
        factless(bridge::with_memory_bridges(DraftView::empty(), memories, symbols, n)),
    decreases n,
{
    if n > 0 {
        lemma_memory_bridges_factless(memories, symbols, n - 1);
        let before = bridge::with_memory_bridges(DraftView::empty(), memories, symbols, n - 1);
        let m = memories[n - 1];
        let words = bridge::memory_text(m);
        let targets = bridge::targets_in(words, symbols, 8);
        lemma_targets_are_code(Seq::empty(), words, symbols, 8, 0);
        lemma_memory_targets_factless(
            before.ensure_node(graph::memory_node(m.id@, Some(m))),
            m.id@,
            targets,
            targets.len() as int,
        );
    }
}

proof fn lemma_fact_bridges_factless(
    d: DraftView,
    facts: Seq<MemoryFact>,
    memories: Seq<Memory>,
    entities: Seq<MemoryEntity>,
    n: int,
)
    requires
        factless(d),
        n <= facts.len(),
    ensures
        factless(bridge::with_fact_bridges(d, facts, memories, entities, n)),
    decreases n,
{
    if n > 0 {
        lemma_fact_bridges_factless(d, facts, memories, entities, n - 1);
    }
}

proof fn lemma_entity_targets_factless(
    d: DraftView,
    entity: MemoryEntity,
    targets: Seq<TargetView>,
    n: int,
)
    requires
        factless(d),
        n <= targets.len(),
        forall|i: int|
            0 <= i < targets.len() ==> (#[trigger] targets[i]).kind != GraphNodeKind::Fact,
    ensures
        factless(bridge::with_entity_targets(d, entity, targets, n)),
    decreases n,
{
    if n > 0 {
        lemma_entity_targets_factless(d, entity, targets, n - 1);
        assert(targets[n - 1].kind != GraphNodeKind::Fact);
    }
}

proof fn lemma_entity_bridges_factless(
    d: DraftView,
    entities: Seq<MemoryEntity>,
    symbols: Seq<CodeSymbol>,
    n: int,
)
    requires
        factless(d),
        n <= entities.len(),
    ensures
        factless(bridge::with_entity_bridges(d, entities, symbols, n)),
    decreases n,
{
    if n > 0 {
        lemma_entity_bridges_factless(d, entities, symbols, n - 1);
        let e = entities[n - 1];
        let words = bridge::entity_text(e);
        let targets = bridge::targets_in(words, symbols, 5);
        lemma_targets_are_code(Seq::empty(), words, symbols, 5, 0);
        lemma_entity_targets_factless(
            bridge::with_entity_bridges(d, entities, symbols, n - 1),
            e,
            targets,
            targets.len() as int,
        );
    }
}

/// The nodes of the bridge graph are memories, entities and code: none stands for a fact.
pub proof fn bridge_has_no_fact_nodes(
    memories: Seq<Memory>,
    g: MemoryGraph,
    symbols: Seq<CodeSymbol>,
)
    ensures
        ({
            let nodes = bridge::bridge_model(memories, g, symbols).nodes;
            forall|i: int| 0 <= i < nodes.len() ==> (#[trigger] nodes[i]).kind != GraphNodeKind::Fact
        }),
{
    let n = memories.len() as int;
    let k = g.facts@.len() as int;
    let l = g.entities@.len() as int;
    let d1 = bridge::with_memory_bridges(DraftView::empty(), memories, symbols, n);
    lemma_memory_bridges_factless(memories, symbols, n);
    lemma_with_memory_bridges(DraftView::empty(), memories, symbols, n);
    let d2 = bridge::with_fact_bridges(d1, g.facts@, memories, g.entities@, k);
    lemma_fact_bridges_factless(d1, g.facts@, memories, g.entities@, k);
    lemma_with_fact_bridges(d1, g.facts@, memories, g.entities@, k);
    let d = bridge::bridge_draft(memories, g, symbols);
    lemma_entity_bridges_factless(d2, g.entities@, symbols, l);
    lemma_with_entity_bridges(d2, g.entities@, symbols, l);
    order::listing_exists(d.nodes);
    let entries = order::sorted_entries(d.nodes);
    let nodes = bridge::bridge_model(memories, g, symbols).nodes;
    assert forall|i: int| 0 <= i < nodes.len() implies (#[trigger] nodes[i]).kind
        != GraphNodeKind::Fact by {
        assert(d.nodes.contains_pair(entries[i].0, entries[i].1));
    }
}

/// A target is found once, whatever the text and the limit.
pub proof fn targets_are_found_once(
    found: Seq<TargetView>,
    words: Seq<char>,
    symbols: Seq<CodeSymbol>,
    limit: nat,
    at: int,
)
    requires
        forall|i: int, j: int|
            0 <= i < j < found.len() ==> (#[trigger] found[i]).id != (#[trigger] found[j]).id,
    ensures
        forall|i: int, j: int|
            0 <= i < j < bridge::targets_from(found, words, symbols, limit, at).len() ==> (
            #[trigger] bridge::targets_from(found, words, symbols, limit, at)[i]).id != (
            #[trigger] bridge::targets_from(found, words, symbols, limit, at)[j]).id,
    decreases symbols.len() - at,
{
    if 0 <= at < symbols.len() {
        let s = symbols[at];
        let files = if bridge::mentions_file(words, s) {
            bridge::with_target(found, bridge::file_target(s))
        } else {
            found
        };
        let next = bridge::targets_step(found, words, s);
        assert forall|i: int, j: int| 0 <= i < j < next.len() implies (#[trigger] next[i]).id != (
        #[trigger] next[j]).id by {
            if j < found.len() {
                assert(next[i] == found[i] && next[j] == found[j]);
            } else if j < files.len() {
                assert(next[i] == found[i]);
                assert(next[j] == bridge::file_target(s));
            } else {
                assert(next[i] == files[i]);
                assert(next[j] == bridge::symbol_target(s));
            }
        }
        if next.len() < limit {
            targets_are_found_once(next, words, symbols, limit, at + 1);
        }
    }
}

} // verus!
