//! How good a graph and a search are: coverage, isolated nodes, and what to do about them.
use vstd::prelude::*;
use crate::bridge::count_bridge_matches;
use crate::graph::{EdgeView, GraphEdge, GraphEdgeKind, GraphModel, GraphNode};
use crate::order::{OrderedMap, TextSet, Triple};
use crate::records::{CodeRelation, CodeSymbol, Memory, MemoryEdge, MemoryFact, MemoryGraph};
use crate::text::{cat2, decimal, is_blank, owned};
use crate::{aggregate, bridge, filter, graph, order, text};

verus! {

// ---------------------------------------------------------------------------
// Sets of ids
// ---------------------------------------------------------------------------

/// A set with an id more, where there is one.
pub open spec fn with_id(ids: Set<Seq<char>>, id: Option<String>) -> Set<Seq<char>> {
    match id {
        Some(i) => ids.insert(i@),
        None => ids,
    }
}

/// The memories that facts rest on.
pub open spec fn fact_memories(facts: Seq<MemoryFact>) -> Set<Seq<char>>
    decreases facts.len(),
{
    if facts.len() == 0 {
        Set::empty()
    } else {
        with_id(fact_memories(facts.drop_last()), facts.last().memory_id)
    }
}

/// A set with the memories that relations rest on.
pub open spec fn with_edge_memories(ids: Set<Seq<char>>, edges: Seq<MemoryEdge>) -> Set<Seq<char>>
    decreases edges.len(),
{
    if edges.len() == 0 {
        ids
    } else {
        with_id(with_edge_memories(ids, edges.drop_last()), edges.last().memory_id)
    }
}

/// The memories that the facts and relations of a graph rest on.
pub open spec fn graph_memories(g: MemoryGraph) -> Set<Seq<char>> {
    with_edge_memories(fact_memories(g.facts@), g.edges@)
}

/// The symbols at either end of relations.
pub open spec fn related_symbols(relations: Seq<CodeRelation>) -> Set<Seq<char>>
    decreases relations.len(),
{
    if relations.len() == 0 {
        Set::empty()
    } else {
        let r = relations.last();
        with_id(
            with_id(related_symbols(relations.drop_last()), r.from_symbol_id),
            r.target_symbol_id,
        )
    }
}

/// How many memories have an id of the set.
pub open spec fn memories_in(memories: Seq<Memory>, ids: Set<Seq<char>>) -> nat
    decreases memories.len(),
{
    if memories.len() == 0 {
        0
    } else {
        memories_in(memories.drop_last(), ids) + if ids.contains(memories.last().id@) {
            1nat
        } else {
            0
        }
    }
}

/// How many symbols have an id of the set.
pub open spec fn symbols_in(symbols: Seq<CodeSymbol>, ids: Set<Seq<char>>) -> nat
    decreases symbols.len(),
{
    if symbols.len() == 0 {
        0
    } else {
        symbols_in(symbols.drop_last(), ids) + if ids.contains(symbols.last().id@) {
            1nat
        } else {
            0
        }
    }
}

/// Adds an id, where there is one.
fn insert_id(ids: &mut TextSet, id: &Option<String>)
    requires
        old(ids).wf(),
    ensures
        final(ids).wf(),
        final(ids)@ == with_id(old(ids)@, *id),
{
    if let Some(i) = id {
        ids.insert(i.clone());
    }
}

/// The memories that the facts and relations of a graph rest on.
fn collect_graph_memories(graph: &MemoryGraph) -> (r: TextSet)
    ensures
        r.wf(),
        r@ == graph_memories(*graph),
{
    let mut r = TextSet::new();
    let mut i: usize = 0;
    assert(graph.facts@.take(0) =~= Seq::<MemoryFact>::empty());
    while i < graph.facts.len()
        invariant
            i <= graph.facts.len(),
            r.wf(),
            r@ == fact_memories(graph.facts@.take(i as int)),
        decreases graph.facts.len() - i,
    {
        insert_id(&mut r, &graph.facts[i].memory_id);
        assert(graph.facts@.take(i + 1).drop_last() =~= graph.facts@.take(i as int));
        i += 1;
    }
    assert(graph.facts@.take(i as int) =~= graph.facts@);
    let ghost facts = r@;
    let mut k: usize = 0;
    assert(graph.edges@.take(0) =~= Seq::<MemoryEdge>::empty());
    while k < graph.edges.len()
        invariant
            k <= graph.edges.len(),
            r.wf(),
            r@ == with_edge_memories(facts, graph.edges@.take(k as int)),
        decreases graph.edges.len() - k,
    {
        insert_id(&mut r, &graph.edges[k].memory_id);
        assert(graph.edges@.take(k + 1).drop_last() =~= graph.edges@.take(k as int));
        k += 1;
    }
    assert(graph.edges@.take(k as int) =~= graph.edges@);
    r
}

/// The symbols at either end of relations.
fn collect_related_symbols(relations: &[CodeRelation]) -> (r: TextSet)
    ensures
        r.wf(),
        r@ == related_symbols(relations@),
{
    let mut r = TextSet::new();
    let mut i: usize = 0;
    assert(relations@.take(0) =~= Seq::<CodeRelation>::empty());
    while i < relations.len()
        invariant
            i <= relations.len(),
            r.wf(),
            r@ == related_symbols(relations@.take(i as int)),
        decreases relations.len() - i,
    {
        insert_id(&mut r, &relations[i].from_symbol_id);
        insert_id(&mut r, &relations[i].target_symbol_id);
        assert(relations@.take(i + 1).drop_last() =~= relations@.take(i as int));
        i += 1;
    }
    assert(relations@.take(i as int) =~= relations@);
    r
}

/// How many memories have an id of the set.
fn count_memories_in(memories: &[Memory], ids: &TextSet) -> (n: usize)
    requires
        ids.wf(),
    ensures
        n == memories_in(memories@, ids@),
        n <= memories@.len(),
{
    let mut n: usize = 0;
    let mut i: usize = 0;
    assert(memories@.take(0) =~= Seq::<Memory>::empty());
    while i < memories.len()
        invariant
            i <= memories.len(),
            n <= i,
            ids.wf(),
            n == memories_in(memories@.take(i as int), ids@),
        decreases memories.len() - i,
    {
        assert(memories@.take(i + 1).drop_last() =~= memories@.take(i as int));
        if ids.contains(&memories[i].id) {
            n += 1;
        }
        i += 1;
    }
    assert(memories@.take(i as int) =~= memories@);
    n
}

/// How many symbols have an id of the set.
fn count_symbols_in(symbols: &[CodeSymbol], ids: &TextSet) -> (n: usize)
    requires
        ids.wf(),
    ensures
        n == symbols_in(symbols@, ids@),
        n <= symbols@.len(),
{
    let mut n: usize = 0;
    let mut i: usize = 0;
    assert(symbols@.take(0) =~= Seq::<CodeSymbol>::empty());
    while i < symbols.len()
        invariant
            i <= symbols.len(),
            n <= i,
            ids.wf(),
            n == symbols_in(symbols@.take(i as int), ids@),
        decreases symbols.len() - i,
    {
        assert(symbols@.take(i + 1).drop_last() =~= symbols@.take(i as int));
        if ids.contains(&symbols[i].id) {
            n += 1;
        }
        i += 1;
    }
    assert(symbols@.take(i as int) =~= symbols@);
    n
}

// ---------------------------------------------------------------------------
// The search
// ---------------------------------------------------------------------------

/// A part of a total.
#[derive(Debug, Clone, Copy, PartialEq, Eq, Structural)]
pub struct Coverage {
    pub part: usize,
    pub total: usize,
}

impl Coverage {
    /// Whether less than a quarter is covered; of nothing, nothing is.
    pub open spec fn is_low(self) -> bool {
        self.total == 0 || 4 * self.part < self.total
    }

    /// Whether less than a quarter is covered.
    pub fn low(self) -> (r: bool)
        ensures
            r == self.is_low(),
    {
        self.total == 0 || 4 * (self.part as u128) < self.total as u128
    }
}

/// How well a search is supported.
#[derive(Debug, Clone, Copy, PartialEq, Eq, Structural)]
pub struct RetrievalQuality {
    pub query_active: bool,
    pub memory_hits: usize,
    pub memory_graph_signals: usize,
    pub code_symbols: usize,
    pub code_relations: usize,
    pub bridge_edges: usize,
    pub source_count: usize,
    pub memory_graph_coverage: Coverage,
    pub code_relation_coverage: Coverage,
    pub visible_nodes: usize,
    pub visible_edges: usize,
    pub warning_count: usize,
}

/// One for true, zero for false.
pub open spec fn one_if(b: bool) -> int {
    if b {
        1
    } else {
        0
    }
}

/// One for true, zero for false.
fn count_if(b: bool) -> (n: usize)
    ensures
        n == one_if(b),
{
    if b {
        1
    } else {
        0
    }
}

impl RetrievalQuality {
    /// A query rests on one kind of source at most.
    pub open spec fn single_source(self) -> bool {
        self.query_active && self.source_count <= 1
    }

    /// Few of the memories found have a graph.
    pub open spec fn little_evidence(self) -> bool {
        self.memory_hits > 0 && self.memory_graph_coverage.is_low()
    }

    /// Few of the symbols found are related.
    pub open spec fn few_relations(self) -> bool {
        self.code_symbols > 0 && self.code_relation_coverage.is_low()
    }

    /// Memories and symbols were found, but no memory mentions a symbol.
    pub open spec fn no_bridges(self) -> bool {
        self.memory_hits > 0 && self.code_symbols > 0 && self.bridge_edges == 0
    }

    /// The words for a search.
    pub open spec fn summary_text(self) -> Seq<char> {
        if self.source_count == 0 {
            "нет данных для текущей карты"@
        } else if self.warning_count == 0 {
            "источники поиска сбалансированы"@
        } else {
            "слабых мест: "@ + text::decimal_text(self.warning_count as nat)
        }
    }

    /// The words for a search.
    pub fn summary(&self) -> (r: String)
        ensures
            r@ == self.summary_text(),
    {
        if self.source_count == 0 {
            owned("нет данных для текущей карты")
        } else if self.warning_count == 0 {
            owned("источники поиска сбалансированы")
        } else {
            let n = decimal(self.warning_count as u64);
            cat2("слабых мест: ", n.as_str())
        }
    }

    /// What weakens a search, in order.
    pub open spec fn advice(self) -> Seq<Seq<char>> {
        let a = if self.single_source() {
            seq!["результат держится на одном источнике"@]
        } else {
            Seq::empty()
        };
        let b = if self.little_evidence() {
            a.push("мало графовых оснований для найденной памяти"@)
        } else {
            a
        };
        let c = if self.few_relations() {
            b.push("мало связей между найденными символами"@)
        } else {
            b
        };
        if self.no_bridges() {
            c.push("нет мостов память-код"@)
        } else {
            c
        }
    }

    /// What weakens a search.
    pub fn recommendations(&self) -> (r: Vec<&'static str>)
        ensures
            r@.map_values(|t: &'static str| t@) == self.advice(),
    {
        let mut r: Vec<&'static str> = Vec::new();
        let ghost f = |t: &'static str| t@;
        if self.query_active && self.source_count <= 1 {
            r.push("результат держится на одном источнике");
        }
        let ghost a = r@;
        assert(a.map_values(f) =~= (if self.single_source() {
            seq!["результат держится на одном источнике"@]
        } else {
            Seq::empty()
        }));
        if self.memory_hits > 0 && self.memory_graph_coverage.low() {
            r.push("мало графовых оснований для найденной памяти");
            assert(r@.map_values(f) =~= a.map_values(f).push(
                "мало графовых оснований для найденной памяти"@,
            ));
        }
        let ghost b = r@;
        if self.code_symbols > 0 && self.code_relation_coverage.low() {
            r.push("мало связей между найденными символами");
            assert(r@.map_values(f) =~= b.map_values(f).push(
                "мало связей между найденными символами"@,
            ));
        }
        let ghost c = r@;
        if self.memory_hits > 0 && self.code_symbols > 0 && self.bridge_edges == 0 {
            r.push("нет мостов память-код");
            assert(r@.map_values(f) =~= c.map_values(f).push("нет мостов память-код"@));
        }
        r
    }
}

/// The quality is that of the search: its counts, its sources and its weak points.
pub open spec fn quality_is_of(
    q: RetrievalQuality,
    query: Seq<char>,
    memories: Seq<Memory>,
    g: MemoryGraph,
    symbols: Seq<CodeSymbol>,
    relations: Seq<CodeRelation>,
    visible_nodes: nat,
    visible_edges: nat,
) -> bool {
    let signals = g.entities@.len() + g.facts@.len() + g.edges@.len();
    &&& q.query_active == (text::trimmed(query).len() > 0)
    &&& q.memory_hits == memories.len()
    &&& q.memory_graph_signals == signals
    &&& q.code_symbols == symbols.len()
    &&& q.code_relations == relations.len()
    &&& q.bridge_edges == bridge::bridge_match_count(memories, g, symbols)
    &&& q.source_count == one_if(memories.len() > 0) + one_if(signals > 0) + one_if(
        symbols.len() > 0,
    ) + one_if(relations.len() > 0) + one_if(bridge::bridge_match_count(memories, g, symbols) > 0)
    &&& q.memory_graph_coverage.part == memories_in(memories, graph_memories(g))
    &&& q.memory_graph_coverage.total == memories.len()
    &&& q.code_relation_coverage.part == symbols_in(symbols, related_symbols(relations))
    &&& q.code_relation_coverage.total == symbols.len()
    &&& q.visible_nodes == visible_nodes
    &&& q.visible_edges == visible_edges
    &&& q.warning_count == one_if(q.single_source()) + one_if(q.little_evidence()) + one_if(
        q.few_relations(),
    ) + one_if(q.no_bridges())
}

/// Judges a search.
pub fn analyze_retrieval_quality(
    query: &str,
    memories: &[Memory],
    graph: &MemoryGraph,
    code_symbols: &[CodeSymbol],
    code_relations: &[CodeRelation],
    model: &GraphModel,
) -> (q: RetrievalQuality)
    requires
        graph.entities@.len() + graph.facts@.len() + graph.edges@.len() <= usize::MAX,
    ensures
        quality_is_of(
            q,
            query@,
            memories@,
            *graph,
            code_symbols@,
            code_relations@,
            model.nodes@.len(),
            model.edges@.len(),
        ),
{
    let graph_ids = collect_graph_memories(graph);
    let memory_graph_coverage = Coverage {
        part: count_memories_in(memories, &graph_ids),
        total: memories.len(),
    };
    let related = collect_related_symbols(code_relations);
    let code_relation_coverage = Coverage {
        part: count_symbols_in(code_symbols, &related),
        total: code_symbols.len(),
    };
    let memory_graph_signals: usize = graph.entities.len() + graph.facts.len()
        + graph.edges.len();
    let bridge_edges = count_bridge_matches(memories, graph, code_symbols);
    let query_active = !is_blank(query);
    let source_count: usize = count_if(memories.len() > 0) + count_if(memory_graph_signals > 0)
        + count_if(code_symbols.len() > 0) + count_if(code_relations.len() > 0) + count_if(
        bridge_edges > 0,
    );
    let warning_count: usize = count_if(query_active && source_count <= 1) + count_if(
        memories.len() > 0 && memory_graph_coverage.low(),
    ) + count_if(code_symbols.len() > 0 && code_relation_coverage.low()) + count_if(
        memories.len() > 0 && code_symbols.len() > 0 && bridge_edges == 0,
    );
    RetrievalQuality {
        query_active,
        memory_hits: memories.len(),
        memory_graph_signals,
        code_symbols: code_symbols.len(),
        code_relations: code_relations.len(),
        bridge_edges,
        source_count,
        memory_graph_coverage,
        code_relation_coverage,
        visible_nodes: model.nodes.len(),
        visible_edges: model.edges.len(),
        warning_count,
    }
}

/// A search has as many warnings as recommendations.
pub proof fn each_warning_has_advice(
    q: RetrievalQuality,
    query: Seq<char>,
    memories: Seq<Memory>,
    g: MemoryGraph,
    symbols: Seq<CodeSymbol>,
    relations: Seq<CodeRelation>,
    visible_nodes: nat,
    visible_edges: nat,
)
    requires
        quality_is_of(q, query, memories, g, symbols, relations, visible_nodes, visible_edges),
    ensures
        q.warning_count == q.advice().len(),
        q.source_count <= 5,
{
}

// ---------------------------------------------------------------------------
// The graph
// ---------------------------------------------------------------------------

/// How well a graph hangs together; its density is the edges it has among those it could have.
#[derive(Debug, Clone, Copy, PartialEq, Eq, Structural)]
pub struct GraphQuality {
    pub isolated_nodes: usize,
    pub edges: usize,
    pub possible_edges: usize,
    pub strong_edges: usize,
    pub weak_edges: usize,
    pub memories_without_graph: usize,
    pub code_symbols_without_relations: usize,
    pub warning_count: usize,
}

impl GraphQuality {
    /// The words for a graph.
    pub open spec fn summary_text(self) -> Seq<char> {
        if self.warning_count == 0 {
            "граф выглядит связным"@
        } else {
            "предупреждений: "@ + text::decimal_text(self.warning_count as nat)
        }
    }

    /// The words for a graph.
    pub fn summary(&self) -> (r: String)
        ensures
            r@ == self.summary_text(),
    {
        if self.warning_count == 0 {
            owned("граф выглядит связным")
        } else {
            let n = decimal(self.warning_count as u64);
            cat2("предупреждений: ", n.as_str())
        }
    }
}

/// Whether an edge was stated rather than derived or summed up.
pub open spec fn is_strong(kind: GraphEdgeKind) -> bool {
    kind != GraphEdgeKind::Derived && kind != GraphEdgeKind::Aggregate
}

/// How many edges were stated.
pub open spec fn strong_edges(edges: Seq<GraphEdge>) -> nat
    decreases edges.len(),
{
    if edges.len() == 0 {
        0
    } else {
        strong_edges(edges.drop_last()) + if is_strong(edges.last().kind) {
            1nat
        } else {
            0
        }
    }
}

/// How many nodes are not at the end of an edge.
pub open spec fn isolated_nodes(nodes: Seq<GraphNode>, ends: Set<Seq<char>>) -> nat
    decreases nodes.len(),
{
    if nodes.len() == 0 {
        0
    } else {
        isolated_nodes(nodes.drop_last(), ends) + if ends.contains(nodes.last().id@) {
            0nat
        } else {
            1
        }
    }
}

/// How many edges there could be between so many nodes, as far as a number of this size can say.
pub open spec fn possible_edges(nodes: nat) -> int {
    if nodes * (nodes - 1) > usize::MAX {
        usize::MAX as int
    } else {
        nodes * (nodes - 1)
    }
}

/// The quality is that of the graph.
pub open spec fn graph_quality_is_of(
    q: GraphQuality,
    model: GraphModel,
    memories: Seq<Memory>,
    g: MemoryGraph,
    symbols: Seq<CodeSymbol>,
    relations: Seq<CodeRelation>,
    max_visible_nodes: nat,
) -> bool {
    &&& q.isolated_nodes == isolated_nodes(
        model.nodes@,
        filter::endpoints(model@.edges).to_set(),
    )
    &&& q.edges == model.edges@.len()
    &&& q.possible_edges == possible_edges(model.nodes@.len())
    &&& q.strong_edges == strong_edges(model.edges@)
    &&& q.weak_edges == model.edges@.len() - strong_edges(model.edges@)
    &&& q.memories_without_graph == memories.len() - memories_in(memories, graph_memories(g))
    &&& q.code_symbols_without_relations == symbols.len() - symbols_in(
        symbols,
        related_symbols(relations),
    )
    &&& q.warning_count == one_if(q.isolated_nodes > max_visible_nodes / 2) + one_if(
        q.memories_without_graph > memories.len() / 2,
    ) + one_if(q.code_symbols_without_relations > symbols.len() / 2)
}

/// How many edges were stated.
fn count_strong_edges(edges: &Vec<GraphEdge>) -> (n: usize)
    ensures
        n == strong_edges(edges@),
        n <= edges@.len(),
{
    let mut n: usize = 0;
    let mut i: usize = 0;
    assert(edges@.take(0) =~= Seq::<GraphEdge>::empty());
    while i < edges.len()
        invariant
            i <= edges.len(),
            n <= i,
            n == strong_edges(edges@.take(i as int)),
        decreases edges.len() - i,
    {
        assert(edges@.take(i + 1).drop_last() =~= edges@.take(i as int));
        if edges[i].kind != GraphEdgeKind::Derived && edges[i].kind != GraphEdgeKind::Aggregate {
            n += 1;
        }
        i += 1;
    }
    assert(edges@.take(i as int) =~= edges@);
    n
}

/// How many nodes are not at the end of an edge.
fn count_isolated_nodes(nodes: &Vec<GraphNode>, ends: &TextSet) -> (n: usize)
    requires
        ends.wf(),
    ensures
        n == isolated_nodes(nodes@, ends@),
{
    let mut n: usize = 0;
    let mut i: usize = 0;
    assert(nodes@.take(0) =~= Seq::<GraphNode>::empty());
    while i < nodes.len()
        invariant
            i <= nodes.len(),
            n <= i,
            ends.wf(),
            n == isolated_nodes(nodes@.take(i as int), ends@),
        decreases nodes.len() - i,
    {
        assert(nodes@.take(i + 1).drop_last() =~= nodes@.take(i as int));
        if !ends.contains(&nodes[i].id) {
            n += 1;
        }
        i += 1;
    }
    assert(nodes@.take(i as int) =~= nodes@);
    n
}

/// How many edges there could be between so many nodes.
fn count_possible_edges(nodes: usize) -> (n: usize)
    ensures
        n == possible_edges(nodes as nat),
{
    if nodes == 0 {
        return 0;
    }
    assert(nodes * (nodes - 1) <= u128::MAX) by (nonlinear_arith)
        requires
            nodes <= u64::MAX,
            nodes >= 1,
    ;
    let product: u128 = (nodes as u128) * ((nodes - 1) as u128);
    if product > usize::MAX as u128 {
        usize::MAX
    } else {
        product as usize
    }
}

/// Judges a graph.
pub fn analyze_graph_quality(
    model: &GraphModel,
    memories: &[Memory],
    graph: &MemoryGraph,
    code_symbols: &[CodeSymbol],
    code_relations: &[CodeRelation],
    max_visible_nodes: usize,
) -> (q: GraphQuality)
    ensures
        graph_quality_is_of(
            q,
            *model,
            memories@,
            *graph,
            code_symbols@,
            code_relations@,
            max_visible_nodes as nat,
        ),
{
    let strong = count_strong_edges(&model.edges);
    let ends = filter::collect_endpoints(&model.edges);
    let isolated = count_isolated_nodes(&model.nodes, &ends);
    let graph_ids = collect_graph_memories(graph);
    let memories_without_graph: usize = memories.len() - count_memories_in(memories, &graph_ids);
    let related = collect_related_symbols(code_relations);
    let code_symbols_without_relations: usize = code_symbols.len() - count_symbols_in(
        code_symbols,
        &related,
    );
    let warning_count: usize = count_if(isolated > max_visible_nodes / 2) + count_if(
        memories_without_graph > memories.len() / 2,
    ) + count_if(code_symbols_without_relations > code_symbols.len() / 2);
    GraphQuality {
        isolated_nodes: isolated,
        edges: model.edges.len(),
        possible_edges: count_possible_edges(model.nodes.len()),
        strong_edges: strong,
        weak_edges: model.edges.len() - strong,
        memories_without_graph,
        code_symbols_without_relations,
        warning_count,
    }
}

// ---------------------------------------------------------------------------
// Parallel edges
// ---------------------------------------------------------------------------

/// How many of the first `n` edges lead from one node to another.
pub open spec fn edges_between(
    edges: Seq<EdgeView>,
    from: Seq<char>,
    to: Seq<char>,
    n: int,
) -> nat
    decreases n,
{
    if n <= 0 {
        0
    } else {
        edges_between(edges, from, to, n - 1) + if edges[n - 1].from == from && edges[n - 1].to
            == to {
            1nat
        } else {
            0
        }
    }
}

/// How far an edge is moved aside so that all between its ends lie apart: ten steps from one to
/// the next, evenly around the middle.
pub open spec fn parallel_offset(rank: nat, all: nat) -> int {
    10 * rank - 5 * (all - 1)
}

/// The ends of edges, as keys.
pub open spec fn edge_ends(edges: Seq<EdgeView>) -> Seq<(Seq<char>, Seq<char>, Seq<char>)> {
    edges.map_values(|e: EdgeView| (e.from, e.to, ""@))
}

/// Offsets with those of the first `n` edges that lead from one node to another.
pub open spec fn with_pair_offsets(
    offsets: Map<Seq<char>, int>,
    edges: Seq<EdgeView>,
    from: Seq<char>,
    to: Seq<char>,
    n: int,
) -> Map<Seq<char>, int>
    decreases n,
{
    if n <= 0 {
        offsets
    } else {
        let before = with_pair_offsets(offsets, edges, from, to, n - 1);
        let e = edges[n - 1];
        if e.from == from && e.to == to {
            before.insert(
                e.id,
                parallel_offset(
                    edges_between(edges, from, to, n - 1),
                    edges_between(edges, from, to, edges.len() as int),
                ),
            )
        } else {
            before
        }
    }
}

/// Offsets for the first `n` pairs of nodes that more than one edge joins.
pub open spec fn with_offsets(
    edges: Seq<EdgeView>,
    pairs: Seq<((Seq<char>, Seq<char>, Seq<char>), nat)>,
    n: int,
) -> Map<Seq<char>, int>
    decreases n,
{
    if n <= 0 {
        Map::empty()
    } else {
        let before = with_offsets(edges, pairs, n - 1);
        let (pair, count) = pairs[n - 1];
        if count <= 1 {
            before
        } else {
            with_pair_offsets(before, edges, pair.0, pair.1, edges.len() as int)
        }
    }
}

/// How far each edge is moved aside that shares its ends with another.
pub open spec fn parallel_offsets(edges: Seq<EdgeView>) -> Map<Seq<char>, int> {
    let pairs = order::sorted_entries(order::tally(edge_ends(edges)));
    with_offsets(edges, pairs, pairs.len() as int)
}

/// How far an edge is moved aside.
#[derive(Debug, Clone, Copy)]
pub struct EdgeOffset {
    pub steps: i128,
}

impl View for EdgeOffset {
    type V = int;

    open spec fn view(&self) -> int {
        self.steps as int
    }
}

/// How many edges lead from one node to another.
fn count_edges_between(edges: &Vec<GraphEdge>, from: &String, to: &String) -> (r: usize)
    ensures
        r == edges_between(graph::edge_views(edges@), from@, to@, edges@.len() as int),
{
    let ghost views = graph::edge_views(edges@);
    let mut r: usize = 0;
    let mut n: usize = 0;
    while n < edges.len()
        invariant
            n <= edges.len(),
            r <= n,
            views == graph::edge_views(edges@),
            r == edges_between(views, from@, to@, n as int),
        decreases edges.len() - n,
    {
        assert(views[n as int] == edges@[n as int]@);
        if edges[n].from == *from && edges[n].to == *to {
            r += 1;
        }
        n += 1;
    }
    r
}

/// Adds the offsets of the edges that lead from one node to another.
fn place_pair_offsets(
    offsets: &mut OrderedMap<String, EdgeOffset>,
    edges: &Vec<GraphEdge>,
    from: &String,
    to: &String,
)
    requires
        old(offsets).wf(),
    ensures
        final(offsets).wf(),
        final(offsets)@ == with_pair_offsets(
            old(offsets)@,
            graph::edge_views(edges@),
            from@,
            to@,
            edges@.len() as int,
        ),
{
    let ghost views = graph::edge_views(edges@);
    let ghost start = offsets@;
    let all = count_edges_between(edges, from, to);
    let mut rank: usize = 0;
    let mut n: usize = 0;
    while n < edges.len()
        invariant
            n <= edges.len(),
            rank <= n,
            views == graph::edge_views(edges@),
            all == edges_between(views, from@, to@, edges@.len() as int),
            rank == edges_between(views, from@, to@, n as int),
            offsets.wf(),
            offsets@ == with_pair_offsets(start, views, from@, to@, n as int),
        decreases edges.len() - n,
    {
        assert(views[n as int] == edges@[n as int]@);
        if edges[n].from == *from && edges[n].to == *to {
            let steps: i128 = 10 * (rank as i128) - 5 * (all as i128 - 1);
            offsets.insert(edges[n].id.clone(), EdgeOffset { steps });
            rank += 1;
        }
        n += 1;
    }
}

/// How far each edge is moved aside that shares its ends with another, in the order of the ids.
pub fn parallel_edge_offsets(model: &GraphModel) -> (r: Vec<(String, EdgeOffset)>)
    ensures
        r@.map_values(|e: (String, EdgeOffset)| (e.0@, e.1@)) == order::sorted_entries(
            parallel_offsets(model@.edges),
        ),
{
    let edges = &model.edges;
    let ghost views = graph::edge_views(edges@);
    let mut ends: Vec<Triple> = Vec::new();
    let mut i: usize = 0;
    while i < edges.len()
        invariant
            i <= edges.len(),
            views == graph::edge_views(edges@),
            ends.len() == i,
            forall|j: int| 0 <= j < i ==> (#[trigger] ends@[j])@ == edge_ends(views)[j],
        decreases edges.len() - i,
    {
        ends.push(
            Triple { first: edges[i].from.clone(), second: edges[i].to.clone(), third: owned("") },
        );
        i += 1;
    }
    assert(aggregate::triple_views(ends@) =~= edge_ends(views));
    let pairs = aggregate::count_triples(&ends);
    let ghost entries = order::sorted_entries(order::tally(edge_ends(views)));
    proof {
        pairs.lemma_lists();
    }
    let mut offsets: OrderedMap<String, EdgeOffset> = OrderedMap::new();
    let mut n: usize = 0;
    while n < pairs.entries.len()
        invariant
            n <= pairs.entries.len(),
            views == graph::edge_views(edges@),
            entries == pairs.items(),
            offsets.wf(),
            offsets@ == with_offsets(views, entries, n as int),
        decreases pairs.entries.len() - n,
    {
        assert(entries[n as int] == (pairs.entries@[n as int].0@, pairs.entries@[n as int].1@));
        if pairs.entries[n].1.n > 1 {
            let pair = &pairs.entries[n].0;
            place_pair_offsets(&mut offsets, edges, &pair.first, &pair.second);
        }
        n += 1;
    }
    proof {
        offsets.lemma_lists();
        assert(offsets.entries@.map_values(|e: (String, EdgeOffset)| (e.0@, e.1@))
            =~= offsets.items());
    }
    offsets.entries
}

/// Of edges that share their ends, one more step in rank is ten steps aside, and the first lies
/// as far to one side as the last to the other.
pub proof fn parallel_edges_lie_apart(rank: nat, all: nat)
    requires
        rank < all,
    ensures
        parallel_offset(rank + 1, all) == parallel_offset(rank, all) + 10,
        parallel_offset(rank, all) == -parallel_offset((all - 1 - rank) as nat, all),
{
}

} // verus!
