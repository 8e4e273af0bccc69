//! What the maps of code and of groups say: every edge stands for the relations that lead from the
//! one to the other, as many as it weighs, and every relation has its edge.
use vstd::prelude::*;
use crate::aggregate::LinkView;
use crate::code_graph::CodeGrouping;
use crate::graph::{DraftView, EdgeView, GraphEdgeKind, GraphNodeKind, ModelView, NodeView};
use crate::group_laws::{
    lemma_link_makes_triple, lemma_pair_map_origin, lemma_prefix_injective, lemma_tally_lists,
    lemma_triple_origin, lemma_with_symbols,
};
use crate::map_laws::lemma_model_holds;
use crate::records::{CodeRelation, CodeSymbol, MemoryEdge, MemoryEntity, MemoryGraph};
use crate::{aggregate, code_graph, file_paths, graph, memory_graph, order, text};

verus! {

// ---------------------------------------------------------------------------
// Symbols
// ---------------------------------------------------------------------------

/// Whether a symbol has the id.
pub open spec fn is_symbol(symbols: Seq<CodeSymbol>, id: Seq<char>) -> bool {
    exists|i: int| 0 <= i < symbols.len() && (#[trigger] symbols[i]).id@ == id
}

/// Whether a relation of a kind leads from one symbol to another.
pub open spec fn leads(r: CodeRelation, from: Seq<char>, kind: Seq<char>, to: Seq<char>) -> bool {
    &&& r.from_symbol_id matches Some(a) && a@ == from
    &&& r.target_symbol_id matches Some(b) && b@ == to
    &&& r.relation_kind@ == kind
}

/// How many relations of a kind lead from one symbol to another.
pub open spec fn relation_count(
    relations: Seq<CodeRelation>,
    from: Seq<char>,
    kind: Seq<char>,
    to: Seq<char>,
) -> nat
    decreases relations.len(),
{
    if relations.len() == 0 {
        0
    } else {
        relation_count(relations.drop_last(), from, kind, to) + if leads(
            relations.last(),
            from,
            kind,
            to,
        ) {
            1nat
        } else {
            0
        }
    }
}

/// Whether one of the first symbols has the node id.
spec fn is_code_id(symbols: Seq<CodeSymbol>, n: int, id: Seq<char>) -> bool {
    exists|k: int| 0 <= k < n && id == "code:"@ + (#[trigger] symbols[k]).id@
}

proof fn lemma_symbol_nodes(symbols: Seq<CodeSymbol>, n: int)
    requires
        0 <= n <= symbols.len(),
    ensures
        ({
            let d = code_graph::with_symbols(DraftView::empty(), symbols.take(n));
            &&& forall|id: Seq<char>| #[trigger]
                d.nodes.dom().contains(id) ==> is_code_id(symbols, n, id)
            &&& forall|k: int|
                0 <= k < n ==> d.nodes.dom().contains("code:"@ + (#[trigger] symbols[k]).id@)
        }),
    decreases n,
{
    if n > 0 {
        lemma_symbol_nodes(symbols, n - 1);
        assert(symbols.take(n).drop_last() =~= symbols.take(n - 1));
        assert(symbols.take(n).last() == symbols[n - 1]);
        let before = code_graph::with_symbols(DraftView::empty(), symbols.take(n - 1));
        let after = code_graph::with_symbols(DraftView::empty(), symbols.take(n));
        assert(after == before.put_node(code_graph::symbol_node(symbols[n - 1])));
        assert forall|id: Seq<char>| #[trigger] after.nodes.dom().contains(id) implies is_code_id(
            symbols,
            n,
            id,
        ) by {
            if before.nodes.dom().contains(id) {
                assert(is_code_id(symbols, n - 1, id));
                let k = choose|k: int|
                    0 <= k < n - 1 && id == "code:"@ + (#[trigger] symbols[k]).id@;
                assert(id == "code:"@ + symbols[k].id@);
            } else {
                assert(id == "code:"@ + symbols[n - 1].id@);
            }
        }
        assert forall|k: int| 0 <= k < n implies after.nodes.dom().contains(
            "code:"@ + (#[trigger] symbols[k]).id@,
        ) by {
            if k < n - 1 {
                assert(before.nodes.dom().contains("code:"@ + symbols[k].id@));
            }
        }
    } else {
        assert(symbols.take(0) =~= Seq::<CodeSymbol>::empty());
    }
}

proof fn lemma_symbol_node(symbols: Seq<CodeSymbol>, n: int, k: int)
    requires
        0 <= k < n <= symbols.len(),
        forall|l: int| k < l < n ==> (#[trigger] symbols[l]).id@ != symbols[k].id@,
    ensures
        code_graph::with_symbols(DraftView::empty(), symbols.take(n)).nodes["code:"@
            + symbols[k].id@] == code_graph::symbol_node(symbols[k]),
    decreases n,
{
    assert(symbols.take(n).drop_last() =~= symbols.take(n - 1));
    assert(symbols.take(n).last() == symbols[n - 1]);
    if k < n - 1 {
        lemma_symbol_node(symbols, n - 1, k);
        assert(symbols[n - 1].id@ != symbols[k].id@);
        if "code:"@ + symbols[k].id@ == "code:"@ + symbols[n - 1].id@ {
            lemma_prefix_injective("code:"@, symbols[k].id@, symbols[n - 1].id@);
        }
    }
}

proof fn lemma_is_symbol(symbols: Seq<CodeSymbol>, id: Seq<char>)
    ensures
        code_graph::with_symbols(DraftView::empty(), symbols).nodes.dom().contains("code:"@ + id)
            <==> is_symbol(symbols, id),
{
    let n = symbols.len() as int;
    assert(symbols.take(n) =~= symbols);
    lemma_symbol_nodes(symbols, n);
    let d = code_graph::with_symbols(DraftView::empty(), symbols);
    if d.nodes.dom().contains("code:"@ + id) {
        assert(is_code_id(symbols, n, "code:"@ + id));
        let k = choose|k: int| 0 <= k < n && "code:"@ + id == "code:"@ + (#[trigger] symbols[k]).id@;
        lemma_prefix_injective("code:"@, id, symbols[k].id@);
    }
}

proof fn lemma_symbol_triples(
    symbols: Seq<CodeSymbol>,
    relations: Seq<CodeRelation>,
    from: Seq<char>,
    kind: Seq<char>,
    to: Seq<char>,
)
    requires
        is_symbol(symbols, from),
        is_symbol(symbols, to),
    ensures
        ({
            let d = code_graph::with_symbols(DraftView::empty(), symbols);
            order::occurrences(
                code_graph::symbol_triples(d, relations),
                ("code:"@ + from, kind, "code:"@ + to),
            ) == relation_count(relations, from, kind, to)
        }),
    decreases relations.len(),
{
    let d = code_graph::with_symbols(DraftView::empty(), symbols);
    if relations.len() > 0 {
        let r = relations.last();
        lemma_symbol_triples(symbols, relations.drop_last(), from, kind, to);
        let before = code_graph::symbol_triples(d, relations.drop_last());
        let after = code_graph::symbol_triples(d, relations);
        lemma_is_symbol(symbols, from);
        lemma_is_symbol(symbols, to);
        if code_graph::joins_nodes(d, r) {
            assert(after.drop_last() =~= before);
            let a = r.from_symbol_id->0@;
            let b = r.target_symbol_id->0@;
            if "code:"@ + a == "code:"@ + from {
                lemma_prefix_injective("code:"@, a, from);
            }
            if "code:"@ + b == "code:"@ + to {
                lemma_prefix_injective("code:"@, b, to);
            }
        }
    }
}

proof fn lemma_symbol_triple(symbols: Seq<CodeSymbol>, relations: Seq<CodeRelation>, i: int) -> (k:
    int)
    requires
        0 <= i < code_graph::symbol_triples(
            code_graph::with_symbols(DraftView::empty(), symbols),
            relations,
        ).len(),
    ensures
        0 <= k < relations.len(),
        relations[k].from_symbol_id is Some,
        relations[k].target_symbol_id is Some,
        is_symbol(symbols, relations[k].from_symbol_id->0@),
        is_symbol(symbols, relations[k].target_symbol_id->0@),
        code_graph::symbol_triples(
            code_graph::with_symbols(DraftView::empty(), symbols),
            relations,
        )[i] == (
            "code:"@ + relations[k].from_symbol_id->0@,
            relations[k].relation_kind@,
            "code:"@ + relations[k].target_symbol_id->0@,
        ),
    decreases relations.len(),
{
    let d = code_graph::with_symbols(DraftView::empty(), symbols);
    let before = code_graph::symbol_triples(d, relations.drop_last());
    if i < before.len() {
        let k = lemma_symbol_triple(symbols, relations.drop_last(), i);
        assert(relations.drop_last()[k] == relations[k]);
        k
    } else {
        lemma_is_symbol(symbols, relations.last().from_symbol_id->0@);
        lemma_is_symbol(symbols, relations.last().target_symbol_id->0@);
        relations.len() - 1
    }
}

/// The edge that stands for all relations of a kind from one symbol to another.
pub open spec fn edge_between_symbols(
    relations: Seq<CodeRelation>,
    from: Seq<char>,
    kind: Seq<char>,
    to: Seq<char>,
) -> EdgeView {
    EdgeView {
        id: "code-edge:"@ + ("code:"@ + from) + ":"@ + kind + ":"@ + ("code:"@ + to),
        from: "code:"@ + from,
        to: "code:"@ + to,
        label: graph::weighted_label(kind, relation_count(relations, from, kind, to)),
        kind: GraphEdgeKind::CodeRelation,
        weight: relation_count(relations, from, kind, to),
    }
}

/// Every edge of the map of symbols stands for at least one relation that leads from the symbol
/// it leaves to the one it reaches, and weighs as many as there are.
pub proof fn symbol_edges_stand_for_relations(
    symbols: Seq<CodeSymbol>,
    relations: Seq<CodeRelation>,
    i: int,
)
    requires
        0 <= i < code_graph::code_symbol_model(symbols, relations).edges.len(),
    ensures
        ({
            let e = code_graph::code_symbol_model(symbols, relations).edges[i];
            exists|k: int|
                0 <= k < relations.len() && (#[trigger] relations[k]).from_symbol_id is Some
                    && relations[k].target_symbol_id is Some && is_symbol(
                    symbols,
                    relations[k].from_symbol_id->0@,
                ) && is_symbol(symbols, relations[k].target_symbol_id->0@) && e
                    == edge_between_symbols(
                    relations,
                    relations[k].from_symbol_id->0@,
                    relations[k].relation_kind@,
                    relations[k].target_symbol_id->0@,
                )
        }),
{
    let d = code_graph::with_symbols(DraftView::empty(), symbols);
    let triples = code_graph::symbol_triples(d, relations);
    let entries = order::sorted_entries(order::tally(triples));
    lemma_tally_lists(triples);
    assert(order::tally(triples).contains_pair(entries[i].0, entries[i].1));
    assert(triples.contains(entries[i].0));
    let o = choose|o: int| 0 <= o < triples.len() && triples[o] == entries[i].0;
    let k = lemma_symbol_triple(symbols, relations, o);
    lemma_symbol_triples(
        symbols,
        relations,
        relations[k].from_symbol_id->0@,
        relations[k].relation_kind@,
        relations[k].target_symbol_id->0@,
    );
}

/// Every relation between two known symbols has its edge, from the symbol that it comes from to
/// the one that it leads to.
pub proof fn relations_between_symbols_have_their_edge(
    symbols: Seq<CodeSymbol>,
    relations: Seq<CodeRelation>,
    k: int,
)
    requires
        0 <= k < relations.len(),
        relations[k].from_symbol_id is Some,
        relations[k].target_symbol_id is Some,
        is_symbol(symbols, relations[k].from_symbol_id->0@),
        is_symbol(symbols, relations[k].target_symbol_id->0@),
    ensures
        code_graph::code_symbol_model(symbols, relations).edges.contains(
            edge_between_symbols(
                relations,
                relations[k].from_symbol_id->0@,
                relations[k].relation_kind@,
                relations[k].target_symbol_id->0@,
            ),
        ),
        relation_count(
            relations,
            relations[k].from_symbol_id->0@,
            relations[k].relation_kind@,
            relations[k].target_symbol_id->0@,
        ) > 0,
{
    let d = code_graph::with_symbols(DraftView::empty(), symbols);
    let triples = code_graph::symbol_triples(d, relations);
    let from = relations[k].from_symbol_id->0@;
    let to = relations[k].target_symbol_id->0@;
    let kind = relations[k].relation_kind@;
    let t = ("code:"@ + from, kind, "code:"@ + to);
    lemma_symbol_triples(symbols, relations, from, kind, to);
    lemma_counted(relations, k, from, kind, to);
    order::occurrences_of_absent(triples, t);
    lemma_tally_lists(triples);
    let entries = order::sorted_entries(order::tally(triples));
    assert(order::tally(triples).dom().contains(t));
    let i = choose|i: int| 0 <= i < entries.len() && (#[trigger] entries[i]).0 == t;
    assert(order::tally(triples).contains_pair(entries[i].0, entries[i].1));
    let m = code_graph::code_symbol_model(symbols, relations);
    assert(m.edges[i] == edge_between_symbols(relations, from, kind, to));
}

proof fn lemma_counted(
    relations: Seq<CodeRelation>,
    k: int,
    from: Seq<char>,
    kind: Seq<char>,
    to: Seq<char>,
)
    requires
        0 <= k < relations.len(),
        leads(relations[k], from, kind, to),
    ensures
        relation_count(relations, from, kind, to) > 0,
    decreases relations.len(),
{
    if k < relations.len() - 1 {
        assert(relations.drop_last()[k] == relations[k]);
        lemma_counted(relations.drop_last(), k, from, kind, to);
    }
}

/// The map of symbols has a node for every symbol, with its name, its kind and where it stands,
/// and no others.
pub proof fn symbols_have_their_nodes(symbols: Seq<CodeSymbol>, relations: Seq<CodeRelation>)
    ensures
        ({
            let m = code_graph::code_symbol_model(symbols, relations);
            &&& forall|k: int|
                #![trigger symbols[k]]
                0 <= k < symbols.len() && (forall|l: int|
                    k < l < symbols.len() ==> (#[trigger] symbols[l]).id@ != symbols[k].id@)
                    ==> m.nodes.contains(
                    (NodeView {
                        id: "code:"@ + symbols[k].id@,
                        label: symbols[k].name@,
                        detail: symbols[k].kind@ + " · "@ + symbols[k].file_path@ + ":"@
                            + text::decimal_text(symbols[k].start_line as nat),
                        kind: GraphNodeKind::CodeSymbol,
                    }),
                )
            &&& forall|i: int|
                0 <= i < m.nodes.len() ==> names_some_symbol(#[trigger] m.nodes[i], symbols)
        }),
{
    let n = symbols.len() as int;
    assert(symbols.take(n) =~= symbols);
    lemma_symbol_nodes(symbols, n);
    let d = code_graph::with_symbols(DraftView::empty(), symbols);
    lemma_with_symbols(DraftView::empty(), symbols);
    lemma_model_holds(d, false);
    let m = code_graph::code_symbol_model(symbols, relations);
    assert forall|k: int|
        #![trigger symbols[k]]
        0 <= k < symbols.len() && (forall|l: int|
            k < l < symbols.len() ==> (#[trigger] symbols[l]).id@
                != symbols[k].id@) implies m.nodes.contains(
        (NodeView {
            id: "code:"@ + symbols[k].id@,
            label: symbols[k].name@,
            detail: symbols[k].kind@ + " · "@ + symbols[k].file_path@ + ":"@ + text::decimal_text(
                symbols[k].start_line as nat,
            ),
            kind: GraphNodeKind::CodeSymbol,
        }),
    ) by {
        lemma_symbol_node(symbols, n, k);
        assert(d.nodes.dom().contains("code:"@ + symbols[k].id@));
    }
    assert forall|i: int| 0 <= i < m.nodes.len() implies names_some_symbol(
        #[trigger] m.nodes[i],
        symbols,
    ) by {
        assert(crate::map_laws::drafted_node(d, d.model(false).nodes[i]));
        let id = choose|id: Seq<char>| #[trigger]
            d.nodes.dom().contains(id) && d.nodes[id] == m.nodes[i];
        assert(is_code_id(symbols, n, id));
        let k = choose|k: int| 0 <= k < n && id == "code:"@ + (#[trigger] symbols[k]).id@;
        assert(d.nodes[id].id == id);
        assert(m.nodes[i].id == "code:"@ + symbols[k].id@);
    }
}

/// Whether a node stands under the id of one of the symbols.
pub open spec fn names_some_symbol(n: NodeView, symbols: Seq<CodeSymbol>) -> bool {
    exists|k: int| 0 <= k < symbols.len() && n.id == "code:"@ + (#[trigger] symbols[k]).id@
}

// ---------------------------------------------------------------------------
// Links between groups
// ---------------------------------------------------------------------------

/// How many links of a relation lead from one group to another.
spec fn link_count(
    links: Seq<LinkView>,
    from: Seq<char>,
    relation: Seq<char>,
    to: Seq<char>,
) -> nat
    decreases links.len(),
{
    if links.len() == 0 {
        0
    } else {
        let l = links.last();
        link_count(links.drop_last(), from, relation, to) + if l.from == Some(from) && l.to == Some(
            to,
        ) && l.relation == relation {
            1nat
        } else {
            0
        }
    }
}

proof fn lemma_link_count(
    links: Seq<LinkView>,
    from: Seq<char>,
    relation: Seq<char>,
    to: Seq<char>,
)
    requires
        from != to,
    ensures
        order::occurrences(aggregate::group_triples(links), (from, relation, to)) == link_count(
            links,
            from,
            relation,
            to,
        ),
    decreases links.len(),
{
    if links.len() > 0 {
        lemma_link_count(links.drop_last(), from, relation, to);
        let before = aggregate::group_triples(links.drop_last());
        let after = aggregate::group_triples(links);
        if aggregate::joins_groups(links.last()) {
            assert(after.drop_last() =~= before);
        }
    }
}

/// The edge that stands for so many relations of a kind from one group to another.
pub open spec fn edge_between_groups(
    edge_prefix: Seq<char>,
    node_prefix: Seq<char>,
    from: Seq<char>,
    relation: Seq<char>,
    to: Seq<char>,
    weight: nat,
) -> EdgeView {
    EdgeView {
        id: edge_prefix + from + ":"@ + relation + ":"@ + to,
        from: node_prefix + from,
        to: node_prefix + to,
        label: graph::weighted_label(relation, weight),
        kind: GraphEdgeKind::Aggregate,
        weight,
    }
}

proof fn lemma_link_of_edge(
    edge_prefix: Seq<char>,
    node_prefix: Seq<char>,
    links: Seq<LinkView>,
    i: int,
) -> (k: int)
    requires
        0 <= i < aggregate::group_edges(
            edge_prefix,
            node_prefix,
            aggregate::group_triples(links),
        ).len(),
    ensures
        0 <= k < links.len(),
        links[k].from is Some,
        links[k].to is Some,
        links[k].from != links[k].to,
        aggregate::group_edges(edge_prefix, node_prefix, aggregate::group_triples(links))[i]
            == edge_between_groups(
            edge_prefix,
            node_prefix,
            links[k].from->0,
            links[k].relation,
            links[k].to->0,
            link_count(links, links[k].from->0, links[k].relation, links[k].to->0),
        ),
{
    let triples = aggregate::group_triples(links);
    let entries = order::sorted_entries(order::tally(triples));
    lemma_tally_lists(triples);
    assert(order::tally(triples).contains_pair(entries[i].0, entries[i].1));
    assert(triples.contains(entries[i].0));
    let o = choose|o: int| 0 <= o < triples.len() && triples[o] == entries[i].0;
    let k = lemma_triple_origin(links, o);
    lemma_link_count(links, links[k].from->0, links[k].relation, links[k].to->0);
    k
}

proof fn lemma_edge_of_link(
    edge_prefix: Seq<char>,
    node_prefix: Seq<char>,
    links: Seq<LinkView>,
    k: int,
)
    requires
        0 <= k < links.len(),
        links[k].from is Some,
        links[k].to is Some,
        links[k].from != links[k].to,
    ensures
        aggregate::group_edges(
            edge_prefix,
            node_prefix,
            aggregate::group_triples(links),
        ).contains(
            edge_between_groups(
                edge_prefix,
                node_prefix,
                links[k].from->0,
                links[k].relation,
                links[k].to->0,
                link_count(links, links[k].from->0, links[k].relation, links[k].to->0),
            ),
        ),
{
    let triples = aggregate::group_triples(links);
    let o = lemma_link_makes_triple(links, k);
    lemma_tally_lists(triples);
    let entries = order::sorted_entries(order::tally(triples));
    assert(triples.contains(triples[o]));
    assert(order::tally(triples).dom().contains(triples[o]));
    let i = choose|i: int| 0 <= i < entries.len() && (#[trigger] entries[i]).0 == triples[o];
    assert(order::tally(triples).contains_pair(entries[i].0, entries[i].1));
    lemma_link_count(links, links[k].from->0, links[k].relation, links[k].to->0);
    let edges = aggregate::group_edges(edge_prefix, node_prefix, triples);
    assert(edges[i] == edge_between_groups(
        edge_prefix,
        node_prefix,
        links[k].from->0,
        links[k].relation,
        links[k].to->0,
        link_count(links, links[k].from->0, links[k].relation, links[k].to->0),
    ));
}

// ---------------------------------------------------------------------------
// Kinds, files and directories
// ---------------------------------------------------------------------------

/// What a symbol is grouped under: its kind, its file, or the directory of its file.
pub open spec fn group_name(by: CodeGrouping, s: CodeSymbol) -> Seq<char> {
    match by {
        CodeGrouping::Kind => s.kind@,
        CodeGrouping::File => s.file_path@,
        CodeGrouping::Directory => file_paths::code_directory_text(s.file_path@),
    }
}

/// What the ids of the nodes of groups begin with.
pub open spec fn group_node_prefix(by: CodeGrouping) -> Seq<char> {
    match by {
        CodeGrouping::Kind => "code-kind:"@,
        CodeGrouping::File => "code-file:"@,
        CodeGrouping::Directory => "code-dir:"@,
    }
}

/// What the ids of the edges between groups begin with.
pub open spec fn group_edge_prefix(by: CodeGrouping) -> Seq<char> {
    match by {
        CodeGrouping::Kind => "code-kind-edge:"@,
        CodeGrouping::File => "code-file-edge:"@,
        CodeGrouping::Directory => "code-dir-edge:"@,
    }
}

/// Whether an id is that of a symbol of the group.
pub open spec fn is_in_group(
    by: CodeGrouping,
    symbols: Seq<CodeSymbol>,
    id: Option<String>,
    group: Seq<char>,
) -> bool {
    id is Some && exists|i: int|
        0 <= i < symbols.len() && (#[trigger] symbols[i]).id@ == id->0@ && group_name(
            by,
            symbols[i],
        ) == group
}

/// How many relations of a kind lead from symbols of one group to symbols of another.
pub open spec fn group_relation_count(
    by: CodeGrouping,
    symbols: Seq<CodeSymbol>,
    relations: Seq<CodeRelation>,
    from: Seq<char>,
    kind: Seq<char>,
    to: Seq<char>,
) -> nat
    decreases relations.len(),
{
    if relations.len() == 0 {
        0
    } else {
        let r = relations.last();
        group_relation_count(by, symbols, relations.drop_last(), from, kind, to) + if is_in_group(
            by,
            symbols,
            r.from_symbol_id,
            from,
        ) && is_in_group(by, symbols, r.target_symbol_id, to) && r.relation_kind@ == kind {
            1nat
        } else {
            0
        }
    }
}

/// Whether no two symbols have the same id.
pub open spec fn unique_symbols(symbols: Seq<CodeSymbol>) -> bool {
    forall|i: int, j: int|
        0 <= i < j < symbols.len() ==> (#[trigger] symbols[i]).id@ != (#[trigger] symbols[j]).id@
}

proof fn lemma_group_of(
    by: CodeGrouping,
    symbols: Seq<CodeSymbol>,
    id: Option<String>,
    group: Seq<char>,
)
    requires
        unique_symbols(symbols),
    ensures
        code_graph::group_of_symbol(
            aggregate::pair_map(code_graph::grouped_symbols(by, symbols)),
            id,
        ) == Some(group) <==> is_in_group(by, symbols, id, group),
{
    let pairs = code_graph::grouped_symbols(by, symbols);
    if id is Some {
        let x = id->0@;
        lemma_pair_map_origin(pairs, x);
        let found = aggregate::lookup(aggregate::pair_map(pairs), x);
        if found == Some(group) {
            let k = choose|k: int| 0 <= k < pairs.len() && #[trigger] pairs[k] == (x, group);
            assert(symbols[k].id@ == x && group_name(by, symbols[k]) == group);
        }
        if is_in_group(by, symbols, id, group) {
            let i = choose|i: int|
                0 <= i < symbols.len() && (#[trigger] symbols[i]).id@ == x && group_name(
                    by,
                    symbols[i],
                ) == group;
            assert(pairs[i].0 == x);
            assert(found is Some);
            let k = choose|k: int| 0 <= k < pairs.len() && #[trigger] pairs[k] == (x, found->0);
            assert(symbols[k].id@ == x);
            assert(k == i);
        }
    }
}

proof fn lemma_group_links(
    by: CodeGrouping,
    symbols: Seq<CodeSymbol>,
    relations: Seq<CodeRelation>,
    from: Seq<char>,
    kind: Seq<char>,
    to: Seq<char>,
)
    requires
        unique_symbols(symbols),
    ensures
        link_count(
            code_graph::code_links(
                aggregate::pair_map(code_graph::grouped_symbols(by, symbols)),
                relations,
            ),
            from,
            kind,
            to,
        ) == group_relation_count(by, symbols, relations, from, kind, to),
    decreases relations.len(),
{
    let groups = aggregate::pair_map(code_graph::grouped_symbols(by, symbols));
    if relations.len() > 0 {
        lemma_group_links(by, symbols, relations.drop_last(), from, kind, to);
        let links = code_graph::code_links(groups, relations);
        assert(links.drop_last() =~= code_graph::code_links(groups, relations.drop_last()));
        lemma_group_of(by, symbols, relations.last().from_symbol_id, from);
        lemma_group_of(by, symbols, relations.last().target_symbol_id, to);
    }
}

/// Every edge between kinds, files or directories of code leads from the group of the symbols
/// that relations come from to the different group of those they lead to, and weighs as many as
/// there are.
pub proof fn group_edges_stand_for_relations(
    by: CodeGrouping,
    symbols: Seq<CodeSymbol>,
    relations: Seq<CodeRelation>,
    i: int,
)
    requires
        unique_symbols(symbols),
        0 <= i < code_graph::code_group_model(by, symbols, relations).edges.len(),
    ensures
        exists|k: int, from: Seq<char>, to: Seq<char>|
            0 <= k < relations.len() && from != to && #[trigger] is_in_group(
                by,
                symbols,
                relations[k].from_symbol_id,
                from,
            ) && #[trigger] is_in_group(by, symbols, relations[k].target_symbol_id, to)
                && code_graph::code_group_model(by, symbols, relations).edges[i]
                == edge_between_groups(
                group_edge_prefix(by),
                group_node_prefix(by),
                from,
                relations[k].relation_kind@,
                to,
                group_relation_count(
                    by,
                    symbols,
                    relations,
                    from,
                    relations[k].relation_kind@,
                    to,
                ),
            ),
{
    let groups = aggregate::pair_map(code_graph::grouped_symbols(by, symbols));
    let links = code_graph::code_links(groups, relations);
    let k = lemma_link_of_edge(
        code_graph::code_edge_prefix(by),
        code_graph::code_node_prefix(by),
        links,
        i,
    );
    let (from, to) = (links[k].from->0, links[k].to->0);
    lemma_group_links(by, symbols, relations, from, relations[k].relation_kind@, to);
    lemma_group_of(by, symbols, relations[k].from_symbol_id, from);
    lemma_group_of(by, symbols, relations[k].target_symbol_id, to);
    assert(is_in_group(by, symbols, relations[k].from_symbol_id, from) && is_in_group(
        by,
        symbols,
        relations[k].target_symbol_id,
        to,
    ));
}

/// Every relation between symbols of two different groups has its edge, in its direction.
pub proof fn relations_between_groups_have_their_edge(
    by: CodeGrouping,
    symbols: Seq<CodeSymbol>,
    relations: Seq<CodeRelation>,
    k: int,
    from: Seq<char>,
    to: Seq<char>,
)
    requires
        unique_symbols(symbols),
        0 <= k < relations.len(),
        is_in_group(by, symbols, relations[k].from_symbol_id, from),
        is_in_group(by, symbols, relations[k].target_symbol_id, to),
        from != to,
    ensures
        code_graph::code_group_model(by, symbols, relations).edges.contains(
            edge_between_groups(
                group_edge_prefix(by),
                group_node_prefix(by),
                from,
                relations[k].relation_kind@,
                to,
                group_relation_count(
                    by,
                    symbols,
                    relations,
                    from,
                    relations[k].relation_kind@,
                    to,
                ),
            ),
        ),
{
    let groups = aggregate::pair_map(code_graph::grouped_symbols(by, symbols));
    let links = code_graph::code_links(groups, relations);
    lemma_group_of(by, symbols, relations[k].from_symbol_id, from);
    lemma_group_of(by, symbols, relations[k].target_symbol_id, to);
    lemma_group_links(by, symbols, relations, from, relations[k].relation_kind@, to);
    lemma_edge_of_link(
        code_graph::code_edge_prefix(by),
        code_graph::code_node_prefix(by),
        links,
        k,
    );
}

/// How many symbols a group has.
pub open spec fn group_size(by: CodeGrouping, symbols: Seq<CodeSymbol>, group: Seq<char>) -> nat
    decreases symbols.len(),
{
    if symbols.len() == 0 {
        0
    } else {
        group_size(by, symbols.drop_last(), group) + if group_name(by, symbols.last()) == group {
            1nat
        } else {
            0
        }
    }
}

/// The files that symbols of a directory stand in.
pub open spec fn files_of(symbols: Seq<CodeSymbol>, dir: Seq<char>) -> Set<Seq<char>> {
    Set::new(
        |f: Seq<char>|
            exists|i: int|
                0 <= i < symbols.len() && (#[trigger] symbols[i]).file_path@ == f
                    && file_paths::code_directory_text(f) == dir,
    )
}

proof fn lemma_group_size(by: CodeGrouping, symbols: Seq<CodeSymbol>, group: Seq<char>)
    ensures
        order::occurrences(code_graph::code_groups(by, symbols), group) == group_size(
            by,
            symbols,
            group,
        ),
    decreases symbols.len(),
{
    if symbols.len() > 0 {
        lemma_group_size(by, symbols.drop_last(), group);
        let names = code_graph::code_groups(by, symbols);
        assert(names.drop_last() =~= code_graph::code_groups(by, symbols.drop_last()));
    }
}

proof fn lemma_files_of(symbols: Seq<CodeSymbol>, dir: Seq<char>)
    ensures
        code_graph::files_in_directory(symbols, dir).to_set() == files_of(symbols, dir),
    decreases symbols.len(),
{
    let files = code_graph::files_in_directory(symbols, dir);
    if symbols.len() > 0 {
        let rest = symbols.drop_last();
        let before = code_graph::files_in_directory(rest, dir);
        lemma_files_of(rest, dir);
        assert forall|f: Seq<char>| files.contains(f) <==> files_of(symbols, dir).contains(f) by {
            assert(before.to_set().contains(f) <==> files_of(rest, dir).contains(f));
            if files.contains(f) {
                let i = choose|i: int| 0 <= i < files.len() && files[i] == f;
                if i < before.len() {
                    assert(before[i] == f);
                    let k = choose|k: int|
                        0 <= k < rest.len() && (#[trigger] rest[k]).file_path@ == f
                            && file_paths::code_directory_text(f) == dir;
                    assert(symbols[k].file_path@ == f);
                } else {
                    assert(symbols[symbols.len() - 1].file_path@ == f);
                }
            }
            if files_of(symbols, dir).contains(f) {
                let k = choose|k: int|
                    0 <= k < symbols.len() && (#[trigger] symbols[k]).file_path@ == f
                        && file_paths::code_directory_text(f) == dir;
                if k < rest.len() {
                    assert(rest[k].file_path@ == f);
                    let i = choose|i: int| 0 <= i < before.len() && before[i] == f;
                    assert(files[i] == f);
                } else {
                    assert(files[files.len() - 1] == f);
                }
            }
        }
        assert(files.to_set() =~= files_of(symbols, dir));
    } else {
        assert(files.to_set() =~= files_of(symbols, dir));
    }
}

/// The node of a group of code: it says how many symbols the group has, a file where it is, and a
/// directory how many files its symbols stand in.
pub open spec fn node_of_group(
    by: CodeGrouping,
    symbols: Seq<CodeSymbol>,
    group: Seq<char>,
) -> NodeView {
    let size = text::decimal_text(group_size(by, symbols, group));
    match by {
        CodeGrouping::Kind => NodeView {
            id: "code-kind:"@ + group,
            label: group,
            detail: size + " симв."@,
            kind: GraphNodeKind::Type,
        },
        CodeGrouping::File => NodeView {
            id: "code-file:"@ + group,
            label: file_paths::file_label_text(group),
            detail: size + " симв. · "@ + group,
            kind: GraphNodeKind::CodeFile,
        },
        CodeGrouping::Directory => NodeView {
            id: "code-dir:"@ + group,
            label: group,
            detail: text::decimal_text(files_of(symbols, group).len()) + " файлов · "@ + size
                + " симв."@,
            kind: GraphNodeKind::Cluster,
        },
    }
}

/// Every group of code has its node, and every node is that of a group that has a symbol.
pub proof fn groups_of_code_have_their_nodes(
    by: CodeGrouping,
    symbols: Seq<CodeSymbol>,
    relations: Seq<CodeRelation>,
)
    ensures
        ({
            let m = code_graph::code_group_model(by, symbols, relations);
            &&& forall|k: int|
                0 <= k < symbols.len() ==> m.nodes.contains(
                    node_of_group(by, symbols, group_name(by, #[trigger] symbols[k])),
                )
            &&& forall|i: int|
                0 <= i < m.nodes.len() ==> is_node_of_some_group(by, symbols, #[trigger] m.nodes[i])
        }),
{
    let m = code_graph::code_group_model(by, symbols, relations);
    let names = code_graph::code_groups(by, symbols);
    lemma_tally_lists(names);
    let entries = order::sorted_entries(order::tally(names));
    assert forall|i: int| 0 <= i < entries.len() implies #[trigger] m.nodes[i] == node_of_group(
        by,
        symbols,
        entries[i].0,
    ) && names.contains(entries[i].0) by {
        assert(order::tally(names).contains_pair(entries[i].0, entries[i].1));
        lemma_group_size(by, symbols, entries[i].0);
        lemma_files_of(symbols, entries[i].0);
    }
    assert forall|k: int| 0 <= k < symbols.len() implies m.nodes.contains(
        node_of_group(by, symbols, group_name(by, #[trigger] symbols[k])),
    ) by {
        assert(names[k] == group_name(by, symbols[k]));
        assert(order::tally(names).dom().contains(names[k]));
        let i = choose|i: int| 0 <= i < entries.len() && (#[trigger] entries[i]).0 == names[k];
        assert(m.nodes[i] == node_of_group(by, symbols, names[k]));
    }
    assert forall|i: int| 0 <= i < m.nodes.len() implies is_node_of_some_group(
        by,
        symbols,
        #[trigger] m.nodes[i],
    ) by {
        assert(names.contains(entries[i].0));
        let k = choose|k: int| 0 <= k < names.len() && names[k] == entries[i].0;
        assert(m.nodes[i] == node_of_group(by, symbols, group_name(by, symbols[k])));
    }
}

/// Whether a node is that of the group of one of the symbols.
pub open spec fn is_node_of_some_group(
    by: CodeGrouping,
    symbols: Seq<CodeSymbol>,
    n: NodeView,
) -> bool {
    exists|k: int|
        0 <= k < symbols.len() && n == node_of_group(by, symbols, group_name(by, #[trigger] symbols[k]))
}

// ---------------------------------------------------------------------------
// Types and clusters of entities
// ---------------------------------------------------------------------------

/// What entities are grouped under in the views of types and of clusters.
pub open spec fn entity_group(clusters: bool, e: MemoryEntity) -> Seq<char> {
    if clusters {
        graph::cluster_of_type(e.entity_type@)
    } else {
        e.entity_type@
    }
}

/// Whether an entity with the id is of the group; one that is not known is a concept, among the
/// types, and something else, among the clusters.
pub open spec fn is_of_entity_group(
    clusters: bool,
    entities: Seq<MemoryEntity>,
    id: Seq<char>,
    group: Seq<char>,
) -> bool {
    ||| exists|i: int|
        0 <= i < entities.len() && (#[trigger] entities[i]).id@ == id && entity_group(
            clusters,
            entities[i],
        ) == group
    ||| (forall|i: int| 0 <= i < entities.len() ==> (#[trigger] entities[i]).id@ != id) && group
        == if clusters {
        "other"@
    } else {
        "concept"@
    }
}

/// How many relations of a type lead from entities of one group to entities of another.
pub open spec fn entity_relation_count(
    clusters: bool,
    entities: Seq<MemoryEntity>,
    edges: Seq<MemoryEdge>,
    from: Seq<char>,
    relation: Seq<char>,
    to: Seq<char>,
) -> nat
    decreases edges.len(),
{
    if edges.len() == 0 {
        0
    } else {
        let e = edges.last();
        entity_relation_count(clusters, entities, edges.drop_last(), from, relation, to)
            + if is_of_entity_group(clusters, entities, e.from_entity_id@, from)
            && is_of_entity_group(clusters, entities, e.to_entity_id@, to) && e.relation_type@
            == relation {
            1nat
        } else {
            0
        }
    }
}

/// Whether no two entities have the same id.
pub open spec fn unique_entities(entities: Seq<MemoryEntity>) -> bool {
    forall|i: int, j: int|
        0 <= i < j < entities.len() ==> (#[trigger] entities[i]).id@ != (#[trigger] entities[j]).id@
}

spec fn entity_pairs(clusters: bool, entities: Seq<MemoryEntity>) -> Seq<(Seq<char>, Seq<char>)> {
    if clusters {
        memory_graph::clustered_entities(entities)
    } else {
        memory_graph::typed_entities(entities)
    }
}

spec fn unknown_group(clusters: bool) -> Seq<char> {
    if clusters {
        "other"@
    } else {
        "concept"@
    }
}

proof fn lemma_entity_group_of(
    clusters: bool,
    entities: Seq<MemoryEntity>,
    id: Seq<char>,
    group: Seq<char>,
)
    requires
        unique_entities(entities),
    ensures
        memory_graph::group_or(
            aggregate::pair_map(entity_pairs(clusters, entities)),
            id,
            unknown_group(clusters),
        ) == group <==> is_of_entity_group(clusters, entities, id, group),
{
    let pairs = entity_pairs(clusters, entities);
    lemma_pair_map_origin(pairs, id);
    let found = aggregate::lookup(aggregate::pair_map(pairs), id);
    if found is Some {
        let k = choose|k: int| 0 <= k < pairs.len() && #[trigger] pairs[k] == (id, found->0);
        assert(entities[k].id@ == id && entity_group(clusters, entities[k]) == found->0);
        if is_of_entity_group(clusters, entities, id, group) {
            let i = choose|i: int|
                0 <= i < entities.len() && (#[trigger] entities[i]).id@ == id && entity_group(
                    clusters,
                    entities[i],
                ) == group;
            assert(i == k);
        }
    } else {
        assert forall|i: int| 0 <= i < entities.len() implies (#[trigger] entities[i]).id@ != id by {
            if entities[i].id@ == id {
                assert(pairs[i].0 == id);
            }
        }
    }
}

proof fn lemma_entity_links(
    clusters: bool,
    entities: Seq<MemoryEntity>,
    edges: Seq<MemoryEdge>,
    from: Seq<char>,
    relation: Seq<char>,
    to: Seq<char>,
)
    requires
        unique_entities(entities),
    ensures
        link_count(
            memory_graph::entity_links(
                edges,
                aggregate::pair_map(entity_pairs(clusters, entities)),
                unknown_group(clusters),
            ),
            from,
            relation,
            to,
        ) == entity_relation_count(clusters, entities, edges, from, relation, to),
    decreases edges.len(),
{
    let groups = aggregate::pair_map(entity_pairs(clusters, entities));
    let default = unknown_group(clusters);
    if edges.len() > 0 {
        lemma_entity_links(clusters, entities, edges.drop_last(), from, relation, to);
        let links = memory_graph::entity_links(edges, groups, default);
        assert(links.drop_last() =~= memory_graph::entity_links(edges.drop_last(), groups, default));
        lemma_entity_group_of(clusters, entities, edges.last().from_entity_id@, from);
        lemma_entity_group_of(clusters, entities, edges.last().to_entity_id@, to);
    }
}

/// The map of types, or of clusters, of a memory graph.
pub open spec fn entity_group_model(clusters: bool, g: MemoryGraph) -> ModelView {
    if clusters {
        memory_graph::memory_cluster_model(g)
    } else {
        memory_graph::type_model(g)
    }
}

/// What the ids of the edges between groups of entities begin with.
pub open spec fn entity_edge_prefix(clusters: bool) -> Seq<char> {
    if clusters {
        "memory-cluster-edge:"@
    } else {
        "type-edge:"@
    }
}

/// What the ids of the nodes of groups of entities begin with.
pub open spec fn entity_node_prefix(clusters: bool) -> Seq<char> {
    if clusters {
        "memory-cluster:"@
    } else {
        "type:"@
    }
}

/// Every edge between types, or clusters, of entities leads from the group of the entities that
/// relations are stated of to the different group of those they name, and weighs as many as there
/// are.
pub proof fn entity_group_edges_stand_for_relations(clusters: bool, g: MemoryGraph, i: int)
    requires
        unique_entities(g.entities@),
        0 <= i < entity_group_model(clusters, g).edges.len(),
    ensures
        exists|k: int, from: Seq<char>, to: Seq<char>|
            0 <= k < g.edges@.len() && from != to && #[trigger] is_of_entity_group(
                clusters,
                g.entities@,
                g.edges@[k].from_entity_id@,
                from,
            ) && #[trigger] is_of_entity_group(
                clusters,
                g.entities@,
                g.edges@[k].to_entity_id@,
                to,
            ) && entity_group_model(clusters, g).edges[i] == edge_between_groups(
                entity_edge_prefix(clusters),
                entity_node_prefix(clusters),
                from,
                g.edges@[k].relation_type@,
                to,
                entity_relation_count(
                    clusters,
                    g.entities@,
                    g.edges@,
                    from,
                    g.edges@[k].relation_type@,
                    to,
                ),
            ),
{
    let links = memory_graph::entity_links(
        g.edges@,
        aggregate::pair_map(entity_pairs(clusters, g.entities@)),
        unknown_group(clusters),
    );
    let k = lemma_link_of_edge(
        entity_edge_prefix(clusters),
        entity_node_prefix(clusters),
        links,
        i,
    );
    let (from, to) = (links[k].from->0, links[k].to->0);
    let e = g.edges@[k];
    lemma_entity_links(clusters, g.entities@, g.edges@, from, e.relation_type@, to);
    lemma_entity_group_of(clusters, g.entities@, e.from_entity_id@, from);
    lemma_entity_group_of(clusters, g.entities@, e.to_entity_id@, to);
    assert(is_of_entity_group(clusters, g.entities@, g.edges@[k].from_entity_id@, from)
        && is_of_entity_group(clusters, g.entities@, g.edges@[k].to_entity_id@, to));
}

/// Every relation between entities of two different groups has its edge, in its direction.
pub proof fn relations_between_entity_groups_have_their_edge(
    clusters: bool,
    g: MemoryGraph,
    k: int,
    from: Seq<char>,
    to: Seq<char>,
)
    requires
        g.entities@.len() > 0,
        unique_entities(g.entities@),
        0 <= k < g.edges@.len(),
        is_of_entity_group(clusters, g.entities@, g.edges@[k].from_entity_id@, from),
        is_of_entity_group(clusters, g.entities@, g.edges@[k].to_entity_id@, to),
        from != to,
    ensures
        entity_group_model(clusters, g).edges.contains(
            edge_between_groups(
                entity_edge_prefix(clusters),
                entity_node_prefix(clusters),
                from,
                g.edges@[k].relation_type@,
                to,
                entity_relation_count(
                    clusters,
                    g.entities@,
                    g.edges@,
                    from,
                    g.edges@[k].relation_type@,
                    to,
                ),
            ),
        ),
{
    let links = memory_graph::entity_links(
        g.edges@,
        aggregate::pair_map(entity_pairs(clusters, g.entities@)),
        unknown_group(clusters),
    );
    let e = g.edges@[k];
    lemma_entity_group_of(clusters, g.entities@, e.from_entity_id@, from);
    lemma_entity_group_of(clusters, g.entities@, e.to_entity_id@, to);
    lemma_entity_links(clusters, g.entities@, g.edges@, from, e.relation_type@, to);
    lemma_edge_of_link(entity_edge_prefix(clusters), entity_node_prefix(clusters), links, k);
}

/// How many entities a group has.
pub open spec fn entity_group_size(
    clusters: bool,
    entities: Seq<MemoryEntity>,
    group: Seq<char>,
) -> nat
    decreases entities.len(),
{
    if entities.len() == 0 {
        0
    } else {
        entity_group_size(clusters, entities.drop_last(), group) + if entity_group(
            clusters,
            entities.last(),
        ) == group {
            1nat
        } else {
            0
        }
    }
}

/// The types of the entities of a cluster.
pub open spec fn types_of(entities: Seq<MemoryEntity>, cluster: Seq<char>) -> Set<Seq<char>> {
    Set::new(
        |t: Seq<char>|
            exists|i: int|
                0 <= i < entities.len() && (#[trigger] entities[i]).entity_type@ == t
                    && graph::cluster_of_type(t) == cluster,
    )
}

proof fn lemma_types_of(entities: Seq<MemoryEntity>, cluster: Seq<char>)
    ensures
        memory_graph::types_in_cluster(entities, cluster).to_set() == types_of(entities, cluster),
    decreases entities.len(),
{
    let types = memory_graph::types_in_cluster(entities, cluster);
    if entities.len() > 0 {
        let rest = entities.drop_last();
        let before = memory_graph::types_in_cluster(rest, cluster);
        lemma_types_of(rest, cluster);
        assert forall|t: Seq<char>| types.contains(t) <==> types_of(entities, cluster).contains(
            t,
        ) by {
            assert(before.to_set().contains(t) <==> types_of(rest, cluster).contains(t));
            if types.contains(t) {
                let i = choose|i: int| 0 <= i < types.len() && types[i] == t;
                if i < before.len() {
                    assert(before[i] == t);
                    let k = choose|k: int|
                        0 <= k < rest.len() && (#[trigger] rest[k]).entity_type@ == t
                            && graph::cluster_of_type(t) == cluster;
                    assert(entities[k].entity_type@ == t);
                } else {
                    assert(entities[entities.len() - 1].entity_type@ == t);
                }
            }
            if types_of(entities, cluster).contains(t) {
                let k = choose|k: int|
                    0 <= k < entities.len() && (#[trigger] entities[k]).entity_type@ == t
                        && graph::cluster_of_type(t) == cluster;
                if k < rest.len() {
                    assert(rest[k].entity_type@ == t);
                    let i = choose|i: int| 0 <= i < before.len() && before[i] == t;
                    assert(types[i] == t);
                } else {
                    assert(types[types.len() - 1] == t);
                }
            }
        }
    }
    assert(types.to_set() =~= types_of(entities, cluster));
}

spec fn entity_names(clusters: bool, entities: Seq<MemoryEntity>) -> Seq<Seq<char>> {
    if clusters {
        memory_graph::entity_clusters(entities)
    } else {
        memory_graph::entity_types(entities)
    }
}

proof fn lemma_entity_group_size(clusters: bool, entities: Seq<MemoryEntity>, group: Seq<char>)
    ensures
        order::occurrences(entity_names(clusters, entities), group) == entity_group_size(
            clusters,
            entities,
            group,
        ),
    decreases entities.len(),
{
    if entities.len() > 0 {
        lemma_entity_group_size(clusters, entities.drop_last(), group);
        let names = entity_names(clusters, entities);
        assert(names.drop_last() =~= entity_names(clusters, entities.drop_last()));
    }
}

/// The node of a group of entities: it says how many entities the group has, and a cluster of how
/// many types they are.
pub open spec fn node_of_entity_group(
    clusters: bool,
    entities: Seq<MemoryEntity>,
    group: Seq<char>,
) -> NodeView {
    let size = text::decimal_text(entity_group_size(clusters, entities, group));
    if clusters {
        NodeView {
            id: "memory-cluster:"@ + group,
            label: graph::cluster_label_text(group),
            detail: size + " сущн. · "@ + text::decimal_text(types_of(entities, group).len())
                + " типов"@,
            kind: GraphNodeKind::Cluster,
        }
    } else {
        NodeView {
            id: "type:"@ + group,
            label: group,
            detail: size + " сущн."@,
            kind: GraphNodeKind::Type,
        }
    }
}

/// Whether a node is that of the group of one of the entities.
pub open spec fn is_node_of_some_entity_group(
    clusters: bool,
    entities: Seq<MemoryEntity>,
    n: NodeView,
) -> bool {
    exists|k: int|
        0 <= k < entities.len() && n == node_of_entity_group(
            clusters,
            entities,
            entity_group(clusters, #[trigger] entities[k]),
        )
}

/// Every type, or cluster, of entities has its node, and every node is that of one that has an
/// entity.
pub proof fn groups_of_entities_have_their_nodes(clusters: bool, g: MemoryGraph)
    ensures
        ({
            let m = entity_group_model(clusters, g);
            &&& forall|k: int|
                0 <= k < g.entities@.len() ==> m.nodes.contains(
                    node_of_entity_group(
                        clusters,
                        g.entities@,
                        entity_group(clusters, #[trigger] g.entities@[k]),
                    ),
                )
            &&& forall|i: int|
                0 <= i < m.nodes.len() ==> is_node_of_some_entity_group(
                    clusters,
                    g.entities@,
                    #[trigger] m.nodes[i],
                )
        }),
{
    let m = entity_group_model(clusters, g);
    let names = entity_names(clusters, g.entities@);
    if g.entities@.len() > 0 {
        lemma_tally_lists(names);
        let entries = order::sorted_entries(order::tally(names));
        assert forall|i: int| 0 <= i < entries.len() implies #[trigger] m.nodes[i]
            == node_of_entity_group(clusters, g.entities@, entries[i].0) && names.contains(
            entries[i].0,
        ) by {
            assert(order::tally(names).contains_pair(entries[i].0, entries[i].1));
            lemma_entity_group_size(clusters, g.entities@, entries[i].0);
            lemma_types_of(g.entities@, entries[i].0);
        }
        assert forall|k: int| 0 <= k < g.entities@.len() implies m.nodes.contains(
            node_of_entity_group(
                clusters,
                g.entities@,
                entity_group(clusters, #[trigger] g.entities@[k]),
            ),
        ) by {
            assert(names[k] == entity_group(clusters, g.entities@[k]));
            assert(order::tally(names).dom().contains(names[k]));
            let i = choose|i: int| 0 <= i < entries.len() && (#[trigger] entries[i]).0 == names[k];
            assert(m.nodes[i] == node_of_entity_group(clusters, g.entities@, names[k]));
        }
        assert forall|i: int| 0 <= i < m.nodes.len() implies is_node_of_some_entity_group(
            clusters,
            g.entities@,
            #[trigger] m.nodes[i],
        ) by {
            assert(names.contains(entries[i].0));
            let k = choose|k: int| 0 <= k < names.len() && names[k] == entries[i].0;
            assert(m.nodes[i] == node_of_entity_group(
                clusters,
                g.entities@,
                entity_group(clusters, g.entities@[k]),
            ));
        }
    }
}

} // verus!
