//! Graphs of memories: entities with their facts and relations, their types and clusters, and the
//! graph that is derived from the memories' own metadata where there is no other.
use vstd::prelude::*;
use crate::aggregate::{count_links, edges_between_groups, Link, LinkView};
use crate::graph::{
    display_relation, edge_edge_id, ensure_memory_node, entity_graph_node, entity_node_id,
    fact_node_id, find_memory, memory_cluster_for_type, memory_cluster_label,
    memory_cluster_node_id, memory_node_id, type_node_id, Draft, DraftView, GraphEdgeKind,
    GraphModel, GraphNode, GraphNodeKind, ModelView, NodeView,
};
use crate::order::{count_one, Count, OrderedMap};
use crate::records::{Memory, MemoryEdge, MemoryEntity, MemoryFact, MemoryGraph};
use crate::text::{cat2, cat3, cat4, cat6, decimal, owned, truncate_text};
use crate::{aggregate, graph, order, text};

verus! {

// ---------------------------------------------------------------------------
// Entities, facts and relations
// ---------------------------------------------------------------------------

/// A draft with the nodes of entities; a later entity replaces an earlier one with its id.
pub open spec fn with_entities(d: DraftView, entities: Seq<MemoryEntity>) -> DraftView
    decreases entities.len(),
{
    if entities.len() == 0 {
        d
    } else {
        with_entities(d, entities.drop_last()).put_node(graph::entity_node(entities.last()))
    }
}

/// The node of a fact.
pub open spec fn fact_node(fact: MemoryFact) -> NodeView {
    NodeView {
        id: "fact:"@ + fact.id@,
        label: text::truncated(
            graph::relation_text(fact.predicate@) + ": "@ + fact.value@,
            42,
        ),
        detail: fact.value@,
        kind: GraphNodeKind::Fact,
    }
}

/// The node of an entity of which only the id is known.
pub open spec fn unnamed_entity_node(id: Seq<char>) -> NodeView {
    NodeView { id: "entity:"@ + id, label: "Сущность"@, detail: id, kind: GraphNodeKind::Entity }
}

/// A draft with a fact, joined to its entity and to the memory that states it.
pub open spec fn with_fact(d: DraftView, fact: MemoryFact, memories: Seq<Memory>) -> DraftView {
    let d1 = d.put_node(fact_node(fact));
    let d2 = match fact.entity_id {
        Some(e) => d1.ensure_node(unnamed_entity_node(e@)).add_edge(
            "fact-entity:"@ + fact.id@,
            "entity:"@ + e@,
            "fact:"@ + fact.id@,
            graph::relation_text(fact.predicate@),
            GraphEdgeKind::Fact,
        ),
        None => d1,
    };
    match fact.memory_id {
        Some(m) => d2.ensure_node(
            graph::memory_node(m@, graph::memory_by_id(memories, m@)),
        ).add_edge(
            "fact-memory:"@ + fact.id@,
            "fact:"@ + fact.id@,
            "memory:"@ + m@,
            "подтверждено"@,
            GraphEdgeKind::Evidence,
        ),
        None => d2,
    }
}

/// A draft with facts, one after the other.
pub open spec fn with_facts(
    d: DraftView,
    facts: Seq<MemoryFact>,
    memories: Seq<Memory>,
) -> DraftView
    decreases facts.len(),
{
    if facts.len() == 0 {
        d
    } else {
        with_fact(with_facts(d, facts.drop_last(), memories), facts.last(), memories)
    }
}

/// The node of an entity as a relation names it.
pub open spec fn named_entity_node(id: Seq<char>, name: Seq<char>) -> NodeView {
    NodeView { id: "entity:"@ + id, label: name, detail: id, kind: GraphNodeKind::Entity }
}

/// A draft with a relation between two entities, both joined to the memory that states it.
pub open spec fn with_relation(d: DraftView, edge: MemoryEdge, memories: Seq<Memory>) -> DraftView {
    let from = "entity:"@ + edge.from_entity_id@;
    let to = "entity:"@ + edge.to_entity_id@;
    let d1 = d.ensure_node(
        named_entity_node(edge.from_entity_id@, edge.from_entity_name@),
    ).ensure_node(named_entity_node(edge.to_entity_id@, edge.to_entity_name@)).add_edge(
        "edge:"@ + edge.id@,
        from,
        to,
        graph::relation_text(edge.relation_type@),
        GraphEdgeKind::Explicit,
    );
    match edge.memory_id {
        Some(m) => d1.ensure_node(
            graph::memory_node(m@, graph::memory_by_id(memories, m@)),
        ).add_edge(
            "edge-memory-from:"@ + edge.id@,
            "memory:"@ + m@,
            from,
            "основание"@,
            GraphEdgeKind::Evidence,
        ).add_edge(
            "edge-memory-to:"@ + edge.id@,
            "memory:"@ + m@,
            to,
            "основание"@,
            GraphEdgeKind::Evidence,
        ),
        None => d1,
    }
}

/// A draft with relations, one after the other.
pub open spec fn with_relations(
    d: DraftView,
    edges: Seq<MemoryEdge>,
    memories: Seq<Memory>,
) -> DraftView
    decreases edges.len(),
{
    if edges.len() == 0 {
        d
    } else {
        with_relation(with_relations(d, edges.drop_last(), memories), edges.last(), memories)
    }
}

/// The draft of a memory graph: its entities, then its facts, then its relations.
pub open spec fn relationship_draft(memories: Seq<Memory>, g: MemoryGraph) -> DraftView {
    with_relations(
        with_facts(with_entities(DraftView::empty(), g.entities@), g.facts@, memories),
        g.edges@,
        memories,
    )
}

/// The graph of a memory graph; without one, the graph of the memories' metadata.
pub open spec fn relationship_model(memories: Seq<Memory>, g: MemoryGraph) -> ModelView {
    let d = relationship_draft(memories, g);
    if d.nodes == Map::<Seq<char>, NodeView>::empty() {
        fallback_model(memories)
    } else {
        d.model(false)
    }
}

/// Puts a fact into a draft.
fn place_fact(draft: &mut Draft, fact: &MemoryFact, memories: &[Memory])
    requires
        old(draft).wf(),
    ensures
        final(draft).wf(),
        final(draft)@ == with_fact(old(draft)@, *fact, memories@),
{
    let relation = display_relation(fact.predicate.as_str());
    let shown = cat3(relation.as_str(), ": ", fact.value.as_str());
    draft.put_node(
        GraphNode {
            id: fact_node_id(fact.id.as_str()),
            label: truncate_text(shown.as_str(), 42),
            detail: fact.value.clone(),
            kind: GraphNodeKind::Fact,
        },
    );
    if let Some(entity_id) = &fact.entity_id {
        draft.ensure_node(
            GraphNode {
                id: entity_node_id(entity_id.as_str()),
                label: owned("Сущность"),
                detail: entity_id.clone(),
                kind: GraphNodeKind::Entity,
            },
        );
        draft.add_edge(
            cat2("fact-entity:", fact.id.as_str()),
            entity_node_id(entity_id.as_str()),
            fact_node_id(fact.id.as_str()),
            display_relation(fact.predicate.as_str()),
            GraphEdgeKind::Fact,
        );
    }
    if let Some(memory_id) = &fact.memory_id {
        ensure_memory_node(draft, memory_id.as_str(), find_memory(memories, memory_id.as_str()));
        draft.add_edge(
            cat2("fact-memory:", fact.id.as_str()),
            fact_node_id(fact.id.as_str()),
            memory_node_id(memory_id.as_str()),
            owned("подтверждено"),
            GraphEdgeKind::Evidence,
        );
    }
}

/// Puts a relation into a draft.
fn place_relation(draft: &mut Draft, edge: &MemoryEdge, memories: &[Memory])
    requires
        old(draft).wf(),
    ensures
        final(draft).wf(),
        final(draft)@ == with_relation(old(draft)@, *edge, memories@),
{
    draft.ensure_node(
        GraphNode {
            id: entity_node_id(edge.from_entity_id.as_str()),
            label: edge.from_entity_name.clone(),
            detail: edge.from_entity_id.clone(),
            kind: GraphNodeKind::Entity,
        },
    );
    draft.ensure_node(
        GraphNode {
            id: entity_node_id(edge.to_entity_id.as_str()),
            label: edge.to_entity_name.clone(),
            detail: edge.to_entity_id.clone(),
            kind: GraphNodeKind::Entity,
        },
    );
    draft.add_edge(
        edge_edge_id(edge.id.as_str()),
        entity_node_id(edge.from_entity_id.as_str()),
        entity_node_id(edge.to_entity_id.as_str()),
        display_relation(edge.relation_type.as_str()),
        GraphEdgeKind::Explicit,
    );
    if let Some(memory_id) = &edge.memory_id {
        ensure_memory_node(draft, memory_id.as_str(), find_memory(memories, memory_id.as_str()));
        draft.add_edge(
            cat2("edge-memory-from:", edge.id.as_str()),
            memory_node_id(memory_id.as_str()),
            entity_node_id(edge.from_entity_id.as_str()),
            owned("основание"),
            GraphEdgeKind::Evidence,
        );
        draft.add_edge(
            cat2("edge-memory-to:", edge.id.as_str()),
            memory_node_id(memory_id.as_str()),
            entity_node_id(edge.to_entity_id.as_str()),
            owned("основание"),
            GraphEdgeKind::Evidence,
        );
    }
}

/// Builds the graph of a memory graph; without one, the graph of the memories' metadata.
pub fn build_relationship_model(memories: &[Memory], graph: &MemoryGraph) -> (r: GraphModel)
    ensures
        r@ == relationship_model(memories@, *graph),
{
    let mut draft = Draft::new();
    let ghost start = DraftView::empty();
    let mut i: usize = 0;
    assert(graph.entities@.take(0) =~= Seq::<MemoryEntity>::empty());
    while i < graph.entities.len()
        invariant
            i <= graph.entities.len(),
            draft.wf(),
            draft@ == with_entities(start, graph.entities@.take(i as int)),
        decreases graph.entities.len() - i,
    {
        draft.put_node(entity_graph_node(&graph.entities[i]));
        assert(graph.entities@.take(i + 1).drop_last() =~= graph.entities@.take(i as int));
        i += 1;
    }
    assert(graph.entities@.take(i as int) =~= graph.entities@);
    let ghost after_entities = draft@;
    let mut k: usize = 0;
    assert(graph.facts@.take(0) =~= Seq::<MemoryFact>::empty());
    while k < graph.facts.len()
        invariant
            k <= graph.facts.len(),
            draft.wf(),
            draft@ == with_facts(after_entities, graph.facts@.take(k as int), memories@),
        decreases graph.facts.len() - k,
    {
        place_fact(&mut draft, &graph.facts[k], memories);
        assert(graph.facts@.take(k + 1).drop_last() =~= graph.facts@.take(k as int));
        k += 1;
    }
    assert(graph.facts@.take(k as int) =~= graph.facts@);
    let ghost after_facts = draft@;
    let mut l: usize = 0;
    assert(graph.edges@.take(0) =~= Seq::<MemoryEdge>::empty());
    while l < graph.edges.len()
        invariant
            l <= graph.edges.len(),
            draft.wf(),
            draft@ == with_relations(after_facts, graph.edges@.take(l as int), memories@),
        decreases graph.edges.len() - l,
    {
        place_relation(&mut draft, &graph.edges[l], memories);
        assert(graph.edges@.take(l + 1).drop_last() =~= graph.edges@.take(l as int));
        l += 1;
    }
    assert(graph.edges@.take(l as int) =~= graph.edges@);
    if draft.nodes.is_empty() {
        build_fallback_model(memories)
    } else {
        draft.into_model(false)
    }
}

// ---------------------------------------------------------------------------
// Metadata alone
// ---------------------------------------------------------------------------

/// A draft with the nodes of memories, the first of an id kept.
pub open spec fn with_memories(d: DraftView, memories: Seq<Memory>) -> DraftView
    decreases memories.len(),
{
    if memories.len() == 0 {
        d
    } else {
        with_memories(d, memories.drop_last()).ensure_node(
            graph::memory_node(memories.last().id@, Some(memories.last())),
        )
    }
}

/// A draft with an edge to the memory that replaced this one, where that is at hand.
pub open spec fn with_replacement(d: DraftView, m: Memory, memories: Seq<Memory>) -> DraftView {
    match m.superseded_by {
        Some(by) => if graph::memory_by_id(memories, by@) is Some {
            d.add_edge(
                "derived-superseded:"@ + m.id@ + ":"@ + by@,
                "memory:"@ + m.id@,
                "memory:"@ + by@,
                "заменена"@,
                GraphEdgeKind::Derived,
            )
        } else {
            d
        },
        None => d,
    }
}

/// A draft with the replacements of the first `n` memories.
pub open spec fn with_replacements(d: DraftView, memories: Seq<Memory>, n: int) -> DraftView
    decreases n,
{
    if n <= 0 {
        d
    } else {
        with_replacement(with_replacements(d, memories, n - 1), memories[n - 1], memories)
    }
}

/// What memories are grouped by.
#[derive(Clone, Copy, Debug, PartialEq, Eq, Structural)]
pub enum Grouping {
    Tag,
    Source,
}

/// A memory's membership in a group.
pub struct MemberView {
    pub group: Seq<char>,
    pub memory: Seq<char>,
}

/// The memberships of one memory: its tags in order, or its source.
pub open spec fn members_of(by: Grouping, m: Memory) -> Seq<MemberView> {
    match by {
        Grouping::Tag => m.tags@.map_values(
            |t: String| MemberView { group: t@, memory: m.id@ },
        ),
        Grouping::Source => match m.source {
            Some(s) => seq![MemberView { group: s@, memory: m.id@ }],
            None => Seq::empty(),
        },
    }
}

/// The memberships of memories, one memory after the other.
pub open spec fn members(by: Grouping, memories: Seq<Memory>) -> Seq<MemberView>
    decreases memories.len(),
{
    if memories.len() == 0 {
        Seq::empty()
    } else {
        members(by, memories.drop_last()) + members_of(by, memories.last())
    }
}

/// The groups of memberships.
pub open spec fn groups_of(all: Seq<MemberView>) -> Seq<Seq<char>> {
    all.map_values(|m: MemberView| m.group)
}

/// The memories of one group, in order.
pub open spec fn group_members(all: Seq<MemberView>, group: Seq<char>) -> Seq<Seq<char>>
    decreases all.len(),
{
    if all.len() == 0 {
        Seq::empty()
    } else {
        let before = group_members(all.drop_last(), group);
        if all.last().group == group {
            before.push(all.last().memory)
        } else {
            before
        }
    }
}

/// The largest group whose members are joined.
pub open spec fn group_limit(by: Grouping) -> nat {
    match by {
        Grouping::Tag => 8,
        Grouping::Source => 6,
    }
}

/// A draft with an edge between two neighbours in a group.
pub open spec fn with_pair(
    d: DraftView,
    by: Grouping,
    group: Seq<char>,
    a: Seq<char>,
    b: Seq<char>,
) -> DraftView {
    d.add_edge(
        (match by {
            Grouping::Tag => "derived-tag:"@,
            Grouping::Source => "derived-source:"@,
        }) + group + ":"@ + a + ":"@ + b,
        "memory:"@ + a,
        "memory:"@ + b,
        match by {
            Grouping::Tag => "#"@ + group,
            Grouping::Source => "источник"@,
        },
        GraphEdgeKind::Derived,
    )
}

/// A draft with edges between neighbours among the first `n` members of a group.
pub open spec fn with_chain(
    d: DraftView,
    by: Grouping,
    group: Seq<char>,
    ids: Seq<Seq<char>>,
    n: int,
) -> DraftView
    decreases n,
{
    if n <= 1 {
        d
    } else {
        with_pair(with_chain(d, by, group, ids, n - 1), by, group, ids[n - 2], ids[n - 1])
    }
}

/// A draft with the chains of the first `n` groups; a group of one, or of too many, makes none.
pub open spec fn with_groups(
    d: DraftView,
    by: Grouping,
    all: Seq<MemberView>,
    groups: Seq<(Seq<char>, nat)>,
    n: int,
) -> DraftView
    decreases n,
{
    if n <= 0 {
        d
    } else {
        let before = with_groups(d, by, all, groups, n - 1);
        let (group, size) = groups[n - 1];
        if 2 <= size <= group_limit(by) {
            let ids = group_members(all, group);
            with_chain(before, by, group, ids, ids.len() as int)
        } else {
            before
        }
    }
}

/// A draft with the chains of all groups, in the order of the groups.
pub open spec fn with_grouping(d: DraftView, by: Grouping, memories: Seq<Memory>) -> DraftView {
    let all = members(by, memories);
    let groups = order::sorted_entries(order::tally(groups_of(all)));
    with_groups(d, by, all, groups, groups.len() as int)
}

/// The draft of the memories' metadata: what replaced what, shared tags, shared sources.
pub open spec fn fallback_draft(memories: Seq<Memory>) -> DraftView {
    let nodes = with_memories(DraftView::empty(), memories);
    let replaced = with_replacements(nodes, memories, memories.len() as int);
    with_grouping(with_grouping(replaced, Grouping::Tag, memories), Grouping::Source, memories)
}

/// The graph of the memories' metadata.
pub open spec fn fallback_model(memories: Seq<Memory>) -> ModelView {
    fallback_draft(memories).model(true)
}

/// A memory's membership in a group.
struct Member {
    group: String,
    memory: String,
}

impl View for Member {
    type V = MemberView;

    closed spec fn view(&self) -> MemberView {
        MemberView { group: self.group@, memory: self.memory@ }
    }
}

/// The views of memberships.
spec fn member_views(s: Seq<Member>) -> Seq<MemberView> {
    s.map_values(|m: Member| m@)
}

/// Adds the memberships of one memory.
fn push_members(all: &mut Vec<Member>, by: Grouping, memory: &Memory)
    ensures
        member_views(final(all)@) == member_views(old(all)@) + members_of(by, *memory),
{
    let ghost start = member_views(all@);
    match by {
        Grouping::Tag => {
            let ghost mine = members_of(by, *memory);
            let mut i: usize = 0;
            assert(start + mine.take(0) =~= start);
            while i < memory.tags.len()
                invariant
                    i <= memory.tags.len(),
                    mine == memory.tags@.map_values(
                        |t: String| MemberView { group: t@, memory: memory.id@ },
                    ),
                    member_views(all@) == start + mine.take(i as int),
                decreases memory.tags.len() - i,
            {
                let ghost before = all@;
                all.push(Member { group: memory.tags[i].clone(), memory: memory.id.clone() });
                assert(member_views(all@) =~= member_views(before).push(mine[i as int]));
                assert(start + mine.take(i + 1) =~= (start + mine.take(i as int)).push(
                    mine[i as int],
                ));
                i += 1;
            }
            assert(mine.take(i as int) =~= mine);
        },
        Grouping::Source => {
            if let Some(source) = &memory.source {
                let ghost before = all@;
                all.push(Member { group: source.clone(), memory: memory.id.clone() });
                assert(member_views(all@) =~= start + seq![
                    MemberView { group: source@, memory: memory.id@ },
                ]);
            } else {
                assert(start + Seq::<MemberView>::empty() =~= start);
            }
        },
    }
}

/// The memberships of memories, one memory after the other.
fn collect_members(by: Grouping, memories: &[Memory]) -> (r: Vec<Member>)
    ensures
        member_views(r@) == members(by, memories@),
{
    let mut all: Vec<Member> = Vec::new();
    let mut i: usize = 0;
    assert(memories@.take(0) =~= Seq::<Memory>::empty());
    assert(member_views(all@) =~= Seq::<MemberView>::empty());
    while i < memories.len()
        invariant
            i <= memories.len(),
            member_views(all@) == members(by, memories@.take(i as int)),
        decreases memories.len() - i,
    {
        push_members(&mut all, by, &memories[i]);
        assert(memories@.take(i + 1).drop_last() =~= memories@.take(i as int));
        i += 1;
    }
    assert(memories@.take(i as int) =~= memories@);
    all
}

/// The memories of one group, in order.
fn collect_group(all: &Vec<Member>, group: &String) -> (r: Vec<String>)
    ensures
        text::texts(r@) == group_members(member_views(all@), group@),
{
    let ghost views = member_views(all@);
    let mut r: Vec<String> = Vec::new();
    let mut i: usize = 0;
    assert(views.take(0) =~= Seq::<MemberView>::empty());
    assert(text::texts(r@) =~= Seq::<Seq<char>>::empty());
    while i < all.len()
        invariant
            i <= all.len(),
            views == member_views(all@),
            text::texts(r@) == group_members(views.take(i as int), group@),
        decreases all.len() - i,
    {
        assert(views.take(i + 1).drop_last() =~= views.take(i as int));
        assert(views.take(i + 1).last() == all@[i as int]@);
        if all[i].group == *group {
            let ghost before = r@;
            r.push(all[i].memory.clone());
            assert(text::texts(r@) =~= text::texts(before).push(all@[i as int].memory@));
        }
        i += 1;
    }
    assert(views.take(i as int) =~= views);
    r
}

/// Adds the edges between neighbours in a group.
fn place_chain(draft: &mut Draft, by: Grouping, group: &String, ids: &Vec<String>)
    requires
        old(draft).wf(),
    ensures
        final(draft).wf(),
        final(draft)@ == with_chain(
            old(draft)@,
            by,
            group@,
            text::texts(ids@),
            ids@.len() as int,
        ),
{
    let ghost start = draft@;
    let mut n: usize = if ids.len() < 1 {
        0
    } else {
        1
    };
    while n < ids.len()
        invariant
            n <= ids.len(),
            ids.len() > 0 ==> n >= 1,
            draft.wf(),
            draft@ == with_chain(start, by, group@, text::texts(ids@), n as int),
        decreases ids.len() - n,
    {
        let a = &ids[n - 1];
        let b = &ids[n];
        let prefix: &str = match by {
            Grouping::Tag => "derived-tag:",
            Grouping::Source => "derived-source:",
        };
        let label = match by {
            Grouping::Tag => cat2("#", group.as_str()),
            Grouping::Source => owned("источник"),
        };
        draft.add_edge(
            cat6(prefix, group.as_str(), ":", a.as_str(), ":", b.as_str()),
            memory_node_id(a.as_str()),
            memory_node_id(b.as_str()),
            label,
            GraphEdgeKind::Derived,
        );
        n += 1;
    }
}

/// Adds the chains of all groups.
fn place_grouping(draft: &mut Draft, by: Grouping, memories: &[Memory])
    requires
        old(draft).wf(),
    ensures
        final(draft).wf(),
        final(draft)@ == with_grouping(old(draft)@, by, memories@),
{
    let all = collect_members(by, memories);
    let ghost views = member_views(all@);
    let ghost groups = groups_of(views);
    let mut counts: OrderedMap<String, Count> = OrderedMap::new();
    proof {
        assert(groups.take(0) =~= Seq::<Seq<char>>::empty());
        assert(counts@ =~= order::tally(groups.take(0)));
    }
    let mut i: usize = 0;
    while i < all.len()
        invariant
            i <= all.len(),
            views == member_views(all@),
            groups == groups_of(views),
            counts.wf(),
            counts@ == order::tally(groups.take(i as int)),
        decreases all.len() - i,
    {
        count_one(&mut counts, all[i].group.clone(), Ghost(groups.take(i as int)));
        assert(groups.take(i + 1) =~= groups.take(i as int).push(groups[i as int]));
        i += 1;
    }
    assert(groups.take(i as int) =~= groups);
    proof {
        counts.lemma_lists();
    }
    let ghost start = draft@;
    let ghost entries = order::sorted_entries(order::tally(groups));
    let limit: usize = match by {
        Grouping::Tag => 8,
        Grouping::Source => 6,
    };
    let mut n: usize = 0;
    while n < counts.entries.len()
        invariant
            n <= counts.entries.len(),
            draft.wf(),
            views == member_views(all@),
            entries == counts.items(),
            limit == group_limit(by),
            draft@ == with_groups(start, by, views, entries, n as int),
        decreases counts.entries.len() - n,
    {
        let size = counts.entries[n].1.n;
        assert(entries[n as int] == (counts.entries@[n as int].0@, size as nat));
        if 2 <= size && size <= limit {
            let ids = collect_group(&all, &counts.entries[n].0);
            place_chain(draft, by, &counts.entries[n].0, &ids);
        }
        n += 1;
    }
}

/// Builds the graph of the memories' metadata.
pub fn build_fallback_model(memories: &[Memory]) -> (r: GraphModel)
    ensures
        r@ == fallback_model(memories@),
{
    let mut draft = Draft::new();
    let mut i: usize = 0;
    assert(memories@.take(0) =~= Seq::<Memory>::empty());
    while i < memories.len()
        invariant
            i <= memories.len(),
            draft.wf(),
            draft@ == with_memories(DraftView::empty(), memories@.take(i as int)),
        decreases memories.len() - i,
    {
        ensure_memory_node(&mut draft, memories[i].id.as_str(), Some(&memories[i]));
        assert(memories@.take(i + 1).drop_last() =~= memories@.take(i as int));
        i += 1;
    }
    assert(memories@.take(i as int) =~= memories@);
    let ghost nodes = draft@;
    let mut k: usize = 0;
    while k < memories.len()
        invariant
            k <= memories.len(),
            draft.wf(),
            draft@ == with_replacements(nodes, memories@, k as int),
        decreases memories.len() - k,
    {
        if let Some(by) = &memories[k].superseded_by {
            if find_memory(memories, by.as_str()).is_some() {
                draft.add_edge(
                    cat4("derived-superseded:", memories[k].id.as_str(), ":", by.as_str()),
                    memory_node_id(memories[k].id.as_str()),
                    memory_node_id(by.as_str()),
                    owned("заменена"),
                    GraphEdgeKind::Derived,
                );
            }
        }
        k += 1;
    }
    place_grouping(&mut draft, Grouping::Tag, memories);
    place_grouping(&mut draft, Grouping::Source, memories);
    draft.into_model(true)
}

// ---------------------------------------------------------------------------
// Types
// ---------------------------------------------------------------------------

/// The types of entities.
pub open spec fn entity_types(entities: Seq<MemoryEntity>) -> Seq<Seq<char>> {
    entities.map_values(|e: MemoryEntity| e.entity_type@)
}

/// The node of an entity type.
pub open spec fn type_node(e: (Seq<char>, nat)) -> NodeView {
    NodeView {
        id: "type:"@ + e.0,
        label: e.0,
        detail: text::decimal_text(e.1) + " сущн."@,
        kind: GraphNodeKind::Type,
    }
}

/// Entity ids with their types.
pub open spec fn typed_entities(entities: Seq<MemoryEntity>) -> Seq<(Seq<char>, Seq<char>)> {
    entities.map_values(|e: MemoryEntity| (e.id@, e.entity_type@))
}

/// The group of an entity, or `default` where the entity is not known.
pub open spec fn group_or(
    groups: Map<Seq<char>, Seq<char>>,
    id: Seq<char>,
    default: Seq<char>,
) -> Seq<char> {
    match aggregate::lookup(groups, id) {
        Some(g) => g,
        None => default,
    }
}

/// The relations between entities as links between their groups.
pub open spec fn entity_links(
    edges: Seq<MemoryEdge>,
    groups: Map<Seq<char>, Seq<char>>,
    default: Seq<char>,
) -> Seq<LinkView> {
    edges.map_values(
        |e: MemoryEdge|
            LinkView {
                from: Some(group_or(groups, e.from_entity_id@, default)),
                relation: e.relation_type@,
                to: Some(group_or(groups, e.to_entity_id@, default)),
            },
    )
}

/// The graph of entity types: how many entities each has, how many relations join two.
pub open spec fn type_model(g: MemoryGraph) -> ModelView {
    if g.entities@.len() == 0 {
        ModelView::empty()
    } else {
        let groups = aggregate::pair_map(typed_entities(g.entities@));
        ModelView {
            nodes: order::sorted_entries(order::tally(entity_types(g.entities@))).map_values(
                |e: (Seq<char>, nat)| type_node(e),
            ),
            edges: aggregate::group_edges(
                "type-edge:"@,
                "type:"@,
                aggregate::group_triples(entity_links(g.edges@, groups, "concept"@)),
            ),
            fallback: false,
        }
    }
}

/// The group of an entity, or `default` where the entity is not known.
fn find_group(groups: &OrderedMap<String, String>, id: &String, default: &str) -> (r: String)
    requires
        groups.wf(),
    ensures
        r@ == group_or(groups@, id@, default@),
{
    match aggregate::find_value(groups, id) {
        Some(g) => g,
        None => owned(default),
    }
}

/// The relations between entities as links between their groups.
fn collect_entity_links(
    edges: &Vec<MemoryEdge>,
    groups: &OrderedMap<String, String>,
    default: &str,
) -> (r: Vec<Link>)
    requires
        groups.wf(),
    ensures
        r@.map_values(|l: Link| l@) == entity_links(edges@, groups@, default@),
{
    let mut r: Vec<Link> = Vec::new();
    let mut i: usize = 0;
    while i < edges.len()
        invariant
            i <= edges.len(),
            groups.wf(),
            r.len() == i,
            forall|j: int|
                0 <= j < i ==> (#[trigger] r@[j])@ == entity_links(edges@, groups@, default@)[j],
        decreases edges.len() - i,
    {
        r.push(
            Link {
                from: Some(find_group(groups, &edges[i].from_entity_id, default)),
                relation: edges[i].relation_type.clone(),
                to: Some(find_group(groups, &edges[i].to_entity_id, default)),
            },
        );
        i += 1;
    }
    assert(r@.map_values(|l: Link| l@) =~= entity_links(edges@, groups@, default@));
    r
}

/// The graph without nodes and edges.
pub fn empty_model() -> (r: GraphModel)
    ensures
        r@ == ModelView::empty(),
{
    let r = GraphModel { nodes: Vec::new(), edges: Vec::new(), fallback: false };
    assert(r@.nodes =~= Seq::empty());
    assert(r@.edges =~= Seq::empty());
    r
}

/// Builds the graph of entity types.
pub fn build_type_model(graph: &MemoryGraph) -> (r: GraphModel)
    ensures
        r@ == type_model(*graph),
{
    if graph.entities.len() == 0 {
        return empty_model();
    }
    let mut types: Vec<String> = Vec::new();
    let mut pairs: Vec<(String, String)> = Vec::new();
    let mut i: usize = 0;
    while i < graph.entities.len()
        invariant
            i <= graph.entities.len(),
            types.len() == i,
            pairs.len() == i,
            forall|j: int|
                0 <= j < i ==> (#[trigger] types@[j])@ == entity_types(graph.entities@)[j],
            forall|j: int|
                0 <= j < i ==> ((#[trigger] pairs@[j]).0@, pairs@[j].1@) == typed_entities(
                    graph.entities@,
                )[j],
        decreases graph.entities.len() - i,
    {
        types.push(graph.entities[i].entity_type.clone());
        pairs.push((graph.entities[i].id.clone(), graph.entities[i].entity_type.clone()));
        i += 1;
    }
    assert(text::texts(types@) =~= entity_types(graph.entities@));
    assert(aggregate::pair_views(pairs@) =~= typed_entities(graph.entities@));
    let counts = aggregate::count_texts(&types);
    let groups = aggregate::map_of_pairs(&pairs);
    let ghost entries = order::sorted_entries(counts@);
    proof {
        counts.lemma_lists();
    }
    let mut nodes: Vec<GraphNode> = Vec::new();
    let mut k: usize = 0;
    while k < counts.entries.len()
        invariant
            k <= counts.entries.len(),
            entries == counts.items(),
            nodes.len() == k,
            forall|j: int| 0 <= j < k ==> (#[trigger] nodes@[j])@ == type_node(entries[j]),
        decreases counts.entries.len() - k,
    {
        let name = &counts.entries[k].0;
        let count = decimal(counts.entries[k].1.n as u64);
        nodes.push(
            GraphNode {
                id: type_node_id(name.as_str()),
                label: name.clone(),
                detail: cat2(count.as_str(), " сущн."),
                kind: GraphNodeKind::Type,
            },
        );
        k += 1;
    }
    let links = collect_entity_links(&graph.edges, &groups, "concept");
    let ghost triples = aggregate::group_triples(entity_links(graph.edges@, groups@, "concept"@));
    let joined = count_links(links);
    let edges = edges_between_groups(&joined, "type-edge:", "type:", Ghost(triples));
    let r = GraphModel { nodes, edges, fallback: false };
    assert(r@.nodes =~= type_model(*graph).nodes);
    r
}

// ---------------------------------------------------------------------------
// Clusters
// ---------------------------------------------------------------------------

/// The clusters of entities.
pub open spec fn entity_clusters(entities: Seq<MemoryEntity>) -> Seq<Seq<char>> {
    entities.map_values(|e: MemoryEntity| graph::cluster_of_type(e.entity_type@))
}

/// Entity ids with their clusters.
pub open spec fn clustered_entities(entities: Seq<MemoryEntity>) -> Seq<(Seq<char>, Seq<char>)> {
    entities.map_values(|e: MemoryEntity| (e.id@, graph::cluster_of_type(e.entity_type@)))
}

/// The types of the entities of a cluster.
pub open spec fn types_in_cluster(
    entities: Seq<MemoryEntity>,
    cluster: Seq<char>,
) -> Seq<Seq<char>>
    decreases entities.len(),
{
    if entities.len() == 0 {
        Seq::empty()
    } else {
        let before = types_in_cluster(entities.drop_last(), cluster);
        let t = entities.last().entity_type@;
        if graph::cluster_of_type(t) == cluster {
            before.push(t)
        } else {
            before
        }
    }
}

/// The node of a cluster of entities.
pub open spec fn cluster_node(entities: Seq<MemoryEntity>, e: (Seq<char>, nat)) -> NodeView {
    NodeView {
        id: "memory-cluster:"@ + e.0,
        label: graph::cluster_label_text(e.0),
        detail: text::decimal_text(e.1) + " сущн. · "@ + text::decimal_text(
            order::distinct(types_in_cluster(entities, e.0)),
        ) + " типов"@,
        kind: GraphNodeKind::Cluster,
    }
}

/// The graph of clusters: how many entities and types each has, how many relations join two.
pub open spec fn memory_cluster_model(g: MemoryGraph) -> ModelView {
    if g.entities@.len() == 0 {
        ModelView::empty()
    } else {
        let groups = aggregate::pair_map(clustered_entities(g.entities@));
        ModelView {
            nodes: order::sorted_entries(order::tally(entity_clusters(g.entities@))).map_values(
                |e: (Seq<char>, nat)| cluster_node(g.entities@, e),
            ),
            edges: aggregate::group_edges(
                "memory-cluster-edge:"@,
                "memory-cluster:"@,
                aggregate::group_triples(entity_links(g.edges@, groups, "other"@)),
            ),
            fallback: false,
        }
    }
}

/// The number of types in a cluster.
fn count_types(entities: &Vec<MemoryEntity>, cluster: &String) -> (n: usize)
    ensures
        n == order::distinct(types_in_cluster(entities@, cluster@)),
{
    let mut types: Vec<String> = Vec::new();
    let mut i: usize = 0;
    assert(entities@.take(0) =~= Seq::<MemoryEntity>::empty());
    assert(text::texts(types@) =~= Seq::<Seq<char>>::empty());
    while i < entities.len()
        invariant
            i <= entities.len(),
            text::texts(types@) == types_in_cluster(entities@.take(i as int), cluster@),
        decreases entities.len() - i,
    {
        assert(entities@.take(i + 1).drop_last() =~= entities@.take(i as int));
        let (found, _) = memory_cluster_for_type(entities[i].entity_type.as_str());
        if text::same_text(found, cluster.as_str()) {
            let ghost before = types@;
            types.push(entities[i].entity_type.clone());
            assert(text::texts(types@) =~= text::texts(before).push(
                entities@[i as int].entity_type@,
            ));
        }
        i += 1;
    }
    assert(entities@.take(i as int) =~= entities@);
    aggregate::count_distinct(&types)
}

/// Builds the graph of clusters.
pub fn build_memory_cluster_model(graph: &MemoryGraph) -> (r: GraphModel)
    ensures
        r@ == memory_cluster_model(*graph),
{
    if graph.entities.len() == 0 {
        return empty_model();
    }
    let mut clusters: Vec<String> = Vec::new();
    let mut pairs: Vec<(String, String)> = Vec::new();
    let mut i: usize = 0;
    while i < graph.entities.len()
        invariant
            i <= graph.entities.len(),
            clusters.len() == i,
            pairs.len() == i,
            forall|j: int|
                0 <= j < i ==> (#[trigger] clusters@[j])@ == entity_clusters(graph.entities@)[j],
            forall|j: int|
                0 <= j < i ==> ((#[trigger] pairs@[j]).0@, pairs@[j].1@) == clustered_entities(
                    graph.entities@,
                )[j],
        decreases graph.entities.len() - i,
    {
        let (cluster, _) = memory_cluster_for_type(graph.entities[i].entity_type.as_str());
        clusters.push(owned(cluster));
        pairs.push((graph.entities[i].id.clone(), owned(cluster)));
        i += 1;
    }
    assert(text::texts(clusters@) =~= entity_clusters(graph.entities@));
    assert(aggregate::pair_views(pairs@) =~= clustered_entities(graph.entities@));
    let counts = aggregate::count_texts(&clusters);
    let groups = aggregate::map_of_pairs(&pairs);
    let ghost entries = order::sorted_entries(counts@);
    proof {
        counts.lemma_lists();
    }
    let mut nodes: Vec<GraphNode> = Vec::new();
    let mut k: usize = 0;
    while k < counts.entries.len()
        invariant
            k <= counts.entries.len(),
            entries == counts.items(),
            nodes.len() == k,
            forall|j: int|
                0 <= j < k ==> (#[trigger] nodes@[j])@ == cluster_node(
                    graph.entities@,
                    entries[j],
                ),
        decreases counts.entries.len() - k,
    {
        let name = &counts.entries[k].0;
        let count = decimal(counts.entries[k].1.n as u64);
        let types = decimal(count_types(&graph.entities, name) as u64);
        nodes.push(
            GraphNode {
                id: memory_cluster_node_id(name.as_str()),
                label: owned(memory_cluster_label(name.as_str())),
                detail: cat4(count.as_str(), " сущн. · ", types.as_str(), " типов"),
                kind: GraphNodeKind::Cluster,
            },
        );
        k += 1;
    }
    let links = collect_entity_links(&graph.edges, &groups, "other");
    let ghost triples = aggregate::group_triples(entity_links(graph.edges@, groups@, "other"@));
    let joined = count_links(links);
    let edges = edges_between_groups(
        &joined,
        "memory-cluster-edge:",
        "memory-cluster:",
        Ghost(triples),
    );
    let r = GraphModel { nodes, edges, fallback: false };
    assert(r@.nodes =~= memory_cluster_model(*graph).nodes);
    r
}

} // verus!
