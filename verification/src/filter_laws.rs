//! What holds of every graph that is shown: it is a part of the whole, within the limits, and no
//! edge of it leads to a node that is not there.
use vstd::prelude::*;
use crate::filter::FilterView;
use crate::graph::{EdgeView, ModelView, NodeView, SelectionView};
use crate::{filter, ranking, text};

verus! {

/// Whether a graph has no nodes and edges but those of another.
pub open spec fn part_of(a: ModelView, b: ModelView) -> bool {
    &&& forall|i: int| 0 <= i < a.nodes.len() ==> b.nodes.contains(#[trigger] a.nodes[i])
    &&& forall|i: int| 0 <= i < a.edges.len() ==> b.edges.contains(#[trigger] a.edges[i])
    &&& a.fallback == b.fallback
}

proof fn lemma_part_transitive(a: ModelView, b: ModelView, c: ModelView)
    requires
        part_of(a, b),
        part_of(b, c),
    ensures
        part_of(a, c),
{
    assert forall|i: int| 0 <= i < a.nodes.len() implies c.nodes.contains(
        #[trigger] a.nodes[i],
    ) by {
        let k = choose|k: int| 0 <= k < b.nodes.len() && b.nodes[k] == a.nodes[i];
        assert(c.nodes.contains(b.nodes[k]));
    }
    assert forall|i: int| 0 <= i < a.edges.len() implies c.edges.contains(
        #[trigger] a.edges[i],
    ) by {
        let k = choose|k: int| 0 <= k < b.edges.len() && b.edges[k] == a.edges[i];
        assert(c.edges.contains(b.edges[k]));
    }
}

pub(crate) proof fn lemma_filter_member<T>(s: Seq<T>, p: spec_fn(T) -> bool, i: int)
    requires
        0 <= i < s.filter(p).len(),
    ensures
        p(s.filter(p)[i]),
        s.contains(s.filter(p)[i]),
{
    s.lemma_filter_pred(p, i);
    assert(s.filter(p).contains(s.filter(p)[i]));
    s.lemma_filter_contains_rev(p, s.filter(p)[i]);
}

/// A node that passes the filter is still there under its id.
proof fn lemma_node_kept(nodes: Seq<NodeView>, p: spec_fn(NodeView) -> bool, id: Seq<char>, i: int)
    requires
        0 <= i < nodes.len(),
        nodes[i].id == id,
        p(nodes[i]),
    ensures
        exists|k: int|
            0 <= k < nodes.filter(p).len() && (#[trigger] nodes.filter(p)[k]).id == id,
{
    nodes.lemma_filter_contains(p, i);
    let f = nodes.filter(p);
    let k = choose|k: int| 0 <= k < f.len() && f[k] == nodes[i];
    assert(f[k].id == id);
}

proof fn lemma_filtered_part(
    m: ModelView,
    np: spec_fn(NodeView) -> bool,
    ep: spec_fn(EdgeView) -> bool,
    r: ModelView,
)
    requires
        r.nodes == m.nodes.filter(np),
        r.edges == m.edges.filter(ep),
        r.fallback == m.fallback,
    ensures
        part_of(r, m),
        r.nodes.len() <= m.nodes.len(),
        r.edges.len() <= m.edges.len(),
{
    assert forall|i: int| 0 <= i < r.nodes.len() implies m.nodes.contains(
        #[trigger] r.nodes[i],
    ) by {
        lemma_filter_member(m.nodes, np, i);
    }
    assert forall|i: int| 0 <= i < r.edges.len() implies m.edges.contains(
        #[trigger] r.edges[i],
    ) by {
        lemma_filter_member(m.edges, ep, i);
    }
    m.nodes.lemma_filter_len(np);
    m.edges.lemma_filter_len(ep);
}

/// The filter by kinds keeps a part of the graph, and no edge without its nodes.
pub proof fn kind_filter_keeps_whole_edges(m: ModelView, show_facts: bool, show_evidence: bool)
    ensures
        part_of(filter::kind_filtered(m, show_facts, show_evidence), m),
        filter::kind_filtered(m, show_facts, show_evidence).closed(),
{
    let r = filter::kind_filtered(m, show_facts, show_evidence);
    let np = filter::shown_node(m.fallback, show_facts, show_evidence);
    let ep = filter::shown_edge(show_facts, show_evidence, filter::ids_of(r.nodes));
    lemma_filtered_part(m, np, ep, r);
    assert forall|i: int| 0 <= i < r.edges.len() implies r.has_node((#[trigger] r.edges[i]).from)
        && r.has_node(r.edges[i].to) by {
        lemma_filter_member(m.edges, ep, i);
        assert(filter::ids_of(r.nodes).contains(r.edges[i].from));
        assert(filter::ids_of(r.nodes).contains(r.edges[i].to));
    }
}

/// A restriction to a set of nodes keeps a part of the graph, and no edge without its nodes where
/// there was none.
pub proof fn restriction_keeps_whole_edges(m: ModelView, ids: Set<Seq<char>>)
    ensures
        part_of(filter::restricted(m, ids), m),
        m.closed() ==> filter::restricted(m, ids).closed(),
{
    let r = filter::restricted(m, ids);
    let np = filter::node_in(ids);
    let ep = filter::edge_in(ids);
    lemma_filtered_part(m, np, ep, r);
    if m.closed() {
        assert forall|i: int| 0 <= i < r.edges.len() implies r.has_node(
            (#[trigger] r.edges[i]).from,
        ) && r.has_node(r.edges[i].to) by {
            lemma_filter_member(m.edges, ep, i);
            let e = r.edges[i];
            let o = choose|o: int| 0 <= o < m.edges.len() && m.edges[o] == e;
            assert(m.has_node(m.edges[o].from));
            let a = choose|a: int| 0 <= a < m.nodes.len() && (#[trigger] m.nodes[a]).id == e.from;
            lemma_node_kept(m.nodes, np, e.from, a);
            let b = choose|b: int| 0 <= b < m.nodes.len() && (#[trigger] m.nodes[b]).id == e.to;
            lemma_node_kept(m.nodes, np, e.to, b);
        }
    }
}

pub(crate) proof fn lemma_endpoints(edges: Seq<EdgeView>, i: int)
    requires
        0 <= i < edges.len(),
    ensures
        filter::endpoints(edges).contains(edges[i].from),
        filter::endpoints(edges).contains(edges[i].to),
    decreases edges.len(),
{
    let a = filter::endpoints(edges.drop_last());
    let b = filter::endpoints(edges);
    if i == edges.len() - 1 {
        assert(b[a.len() as int] == edges[i].from);
        assert(b[a.len() as int + 1] == edges[i].to);
    } else {
        lemma_endpoints(edges.drop_last(), i);
        let f = choose|f: int| 0 <= f < a.len() && a[f] == edges[i].from;
        assert(b[f] == edges[i].from);
        let t = choose|t: int| 0 <= t < a.len() && a[t] == edges[i].to;
        assert(b[t] == edges[i].to);
    }
}

/// The filter by the words of relations keeps a part of the graph, and no edge without its nodes
/// where there was none.
pub proof fn relation_filter_keeps_whole_edges(m: ModelView, words: Seq<char>)
    ensures
        part_of(filter::relation_filtered(m, words), m),
        m.closed() ==> filter::relation_filtered(m, words).closed(),
{
    let r = filter::relation_filtered(m, words);
    if words.len() == 0 {
        lemma_part_reflexive(m);
    } else {
        let ep = filter::edge_labelled(words);
        let np = filter::node_in(filter::endpoints(r.edges).to_set());
        lemma_filtered_part(m, np, ep, r);
        if m.closed() {
            assert forall|i: int| 0 <= i < r.edges.len() implies r.has_node(
                (#[trigger] r.edges[i]).from,
            ) && r.has_node(r.edges[i].to) by {
                lemma_filter_member(m.edges, ep, i);
                lemma_endpoints(r.edges, i);
                let e = r.edges[i];
                let o = choose|o: int| 0 <= o < m.edges.len() && m.edges[o] == e;
                assert(m.has_node(m.edges[o].from));
                let a = choose|a: int|
                    0 <= a < m.nodes.len() && (#[trigger] m.nodes[a]).id == e.from;
                lemma_node_kept(m.nodes, np, e.from, a);
                let b = choose|b: int| 0 <= b < m.nodes.len() && (#[trigger] m.nodes[b]).id == e.to;
                lemma_node_kept(m.nodes, np, e.to, b);
            }
        }
    }
}

proof fn lemma_part_reflexive(m: ModelView)
    ensures
        part_of(m, m),
{
    assert forall|i: int| 0 <= i < m.nodes.len() implies m.nodes.contains(
        #[trigger] m.nodes[i],
    ) by {}
    assert forall|i: int| 0 <= i < m.edges.len() implies m.edges.contains(
        #[trigger] m.edges[i],
    ) by {}
}

/// The text filters keep a part of the graph, and no edge without its nodes where there was none.
pub proof fn text_filters_keep_whole_edges(
    m: ModelView,
    node_filter: Seq<char>,
    relation_filter: Seq<char>,
)
    ensures
        part_of(filter::text_filtered(m, node_filter, relation_filter), m),
        m.closed() ==> filter::text_filtered(m, node_filter, relation_filter).closed(),
{
    let words = filter::filter_words(node_filter);
    let a = filter::relation_filtered(m, filter::filter_words(relation_filter));
    relation_filter_keeps_whole_edges(m, filter::filter_words(relation_filter));
    let r = filter::node_filtered(a, words);
    if words.len() == 0 {
    } else {
        let found = filter::matching_ids(a.nodes, words);
        if found != Set::<Seq<char>>::empty() {
            restriction_keeps_whole_edges(a, filter::neighborhood(a.edges, found));
            lemma_part_transitive(r, a, m);
        }
    }
}

/// What the text filters left passes them again: applied twice they leave what they leave once.
pub proof fn text_filters_settle(m: ModelView, node_filter: Seq<char>, relation_filter: Seq<char>)
    ensures
        filter::text_filtered(
            filter::text_filtered(m, node_filter, relation_filter),
            node_filter,
            relation_filter,
        ) == filter::text_filtered(m, node_filter, relation_filter),
{
    let labels = filter::filter_words(relation_filter);
    let words = filter::filter_words(node_filter);
    let a = filter::relation_filtered(m, labels);
    let r = filter::text_filtered(m, node_filter, relation_filter);
    lemma_relation_filter_settles(m, labels);
    if words.len() > 0 {
        let found = filter::matching_ids(a.nodes, words);
        if found == Set::<Seq<char>>::empty() {
            lemma_none_left(r, labels, words);
        } else {
            lemma_neighborhood_is_labelled(a, labels, found);
            lemma_neighborhood_settles(a, words);
        }
    }
}

/// Whether the filter by the words of relations has nothing to take from a graph: all its edges
/// hold the words, and all its nodes are joined.
spec fn all_labelled(m: ModelView, labels: Seq<char>) -> bool {
    labels.len() > 0 ==> {
        &&& forall|i: int|
            0 <= i < m.edges.len() ==> filter::edge_labelled(labels)(#[trigger] m.edges[i])
        &&& forall|i: int|
            0 <= i < m.nodes.len() ==> filter::endpoints(m.edges).contains(
                (#[trigger] m.nodes[i]).id,
            )
    }
}

proof fn lemma_labelled_stay(m: ModelView, labels: Seq<char>)
    requires
        all_labelled(m, labels),
    ensures
        filter::relation_filtered(m, labels) == m,
{
    if labels.len() > 0 {
        lemma_all_pass(m.edges, filter::edge_labelled(labels));
        lemma_all_pass(m.nodes, filter::node_in(filter::endpoints(m.edges).to_set()));
    }
}

proof fn lemma_relation_filter_settles(m: ModelView, labels: Seq<char>)
    ensures
        all_labelled(filter::relation_filtered(m, labels), labels),
        filter::relation_filtered(filter::relation_filtered(m, labels), labels)
            == filter::relation_filtered(m, labels),
{
    let r = filter::relation_filtered(m, labels);
    if labels.len() > 0 {
        let np = filter::node_in(filter::endpoints(r.edges).to_set());
        assert forall|i: int| 0 <= i < r.edges.len() implies filter::edge_labelled(labels)(
            #[trigger] r.edges[i],
        ) by {
            lemma_filter_member(m.edges, filter::edge_labelled(labels), i);
        }
        assert forall|i: int| 0 <= i < r.nodes.len() implies filter::endpoints(r.edges).contains(
            (#[trigger] r.nodes[i]).id,
        ) by {
            lemma_filter_member(m.nodes, np, i);
        }
    }
    lemma_labelled_stay(r, labels);
}

proof fn lemma_none_left(m: ModelView, labels: Seq<char>, words: Seq<char>)
    requires
        m.nodes.len() == 0,
        m.edges.len() == 0,
        words.len() > 0,
    ensures
        filter::node_filtered(filter::relation_filtered(m, labels), words) == m,
{
    lemma_labelled_stay(m, labels);
    assert(filter::matching_ids(m.nodes, words) =~= Set::<Seq<char>>::empty());
    assert(m.nodes =~= Seq::empty());
    assert(m.edges =~= Seq::empty());
}

/// An end of edges is one of some edge.
pub(crate) proof fn lemma_end_of_edge(edges: Seq<EdgeView>, id: Seq<char>) -> (k: int)
    requires
        filter::endpoints(edges).contains(id),
    ensures
        0 <= k < edges.len(),
        edges[k].from == id || edges[k].to == id,
    decreases edges.len(),
{
    let all = filter::endpoints(edges);
    let i = choose|i: int| 0 <= i < all.len() && all[i] == id;
    let before = filter::endpoints(edges.drop_last());
    if i < before.len() {
        assert(before[i] == id);
        let k = lemma_end_of_edge(edges.drop_last(), id);
        assert(edges.drop_last()[k] == edges[k]);
        k
    } else {
        edges.len() - 1
    }
}

/// An edge at one of the nodes stays where the graph is cut to the nodes and what is joined to
/// them.
proof fn lemma_edge_at_seed_stays(m: ModelView, seeds: Set<Seq<char>>, k: int)
    requires
        0 <= k < m.edges.len(),
        seeds.contains(m.edges[k].from) || seeds.contains(m.edges[k].to),
    ensures
        filter::restricted(m, filter::neighborhood(m.edges, seeds)).edges.contains(m.edges[k]),
        filter::endpoints(
            filter::restricted(m, filter::neighborhood(m.edges, seeds)).edges,
        ).contains(m.edges[k].from),
        filter::endpoints(
            filter::restricted(m, filter::neighborhood(m.edges, seeds)).edges,
        ).contains(m.edges[k].to),
{
    let near = filter::neighborhood(m.edges, seeds);
    let e = m.edges[k];
    assert(near.contains(e.from)) by {
        if !seeds.contains(e.from) {
            assert(filter::reaches(m.edges[k], seeds, e.from));
        }
    }
    assert(near.contains(e.to)) by {
        if !seeds.contains(e.to) {
            assert(filter::reaches(m.edges[k], seeds, e.to));
        }
    }
    m.edges.lemma_filter_contains(filter::edge_in(near), k);
    let kept = filter::restricted(m, near).edges;
    let i = choose|i: int| 0 <= i < kept.len() && kept[i] == e;
    lemma_endpoints(kept, i);
}

proof fn lemma_neighborhood_is_labelled(m: ModelView, labels: Seq<char>, seeds: Set<Seq<char>>)
    requires
        all_labelled(m, labels),
        forall|id: Seq<char>| #[trigger]
            seeds.contains(id) ==> filter::ids_of(m.nodes).contains(id),
    ensures
        ({
            let r = filter::restricted(m, filter::neighborhood(m.edges, seeds));
            all_labelled(r, labels) && filter::relation_filtered(r, labels) == r
        }),
{
    let near = filter::neighborhood(m.edges, seeds);
    let r = filter::restricted(m, near);
    if labels.len() > 0 {
        assert forall|i: int| 0 <= i < r.edges.len() implies filter::edge_labelled(labels)(
            #[trigger] r.edges[i],
        ) by {
            lemma_filter_member(m.edges, filter::edge_in(near), i);
            let o = choose|o: int| 0 <= o < m.edges.len() && m.edges[o] == r.edges[i];
            assert(filter::edge_labelled(labels)(m.edges[o]));
        }
        assert forall|i: int| 0 <= i < r.nodes.len() implies filter::endpoints(r.edges).contains(
            (#[trigger] r.nodes[i]).id,
        ) by {
            lemma_filter_member(m.nodes, filter::node_in(near), i);
            let id = r.nodes[i].id;
            let o = choose|o: int| 0 <= o < m.nodes.len() && m.nodes[o] == r.nodes[i];
            if seeds.contains(id) {
                assert(filter::endpoints(m.edges).contains(m.nodes[o].id));
                let k = lemma_end_of_edge(m.edges, id);
                lemma_edge_at_seed_stays(m, seeds, k);
            } else {
                let k = choose|k: int|
                    0 <= k < m.edges.len() && filter::reaches(#[trigger] m.edges[k], seeds, id);
                lemma_edge_at_seed_stays(m, seeds, k);
            }
        }
    }
    lemma_labelled_stay(r, labels);
}

proof fn lemma_neighborhood_settles(m: ModelView, words: Seq<char>)
    requires
        words.len() > 0,
        filter::matching_ids(m.nodes, words) != Set::<Seq<char>>::empty(),
    ensures
        filter::node_filtered(filter::node_filtered(m, words), words) == filter::node_filtered(
            m,
            words,
        ),
{
    let found = filter::matching_ids(m.nodes, words);
    let near = filter::neighborhood(m.edges, found);
    let r = filter::restricted(m, near);
    assert(filter::matching_ids(r.nodes, words) =~= found) by {
        assert forall|id: Seq<char>| found.contains(id) implies filter::matching_ids(
            r.nodes,
            words,
        ).contains(id) by {
            let o = choose|o: int|
                0 <= o < m.nodes.len() && (#[trigger] m.nodes[o]).id == id && filter::node_matches(
                    m.nodes[o],
                    words,
                );
            m.nodes.lemma_filter_contains(filter::node_in(near), o);
            let i = choose|i: int| 0 <= i < r.nodes.len() && r.nodes[i] == m.nodes[o];
            assert(r.nodes[i].id == id);
        }
        assert forall|id: Seq<char>| filter::matching_ids(r.nodes, words).contains(id) implies
            found.contains(id) by {
            let i = choose|i: int|
                0 <= i < r.nodes.len() && (#[trigger] r.nodes[i]).id == id && filter::node_matches(
                    r.nodes[i],
                    words,
                );
            lemma_filter_member(m.nodes, filter::node_in(near), i);
            let o = choose|o: int| 0 <= o < m.nodes.len() && m.nodes[o] == r.nodes[i];
            assert(m.nodes[o].id == id);
        }
    }
    assert(filter::neighborhood(r.edges, found) =~= near) by {
        assert forall|x: Seq<char>| near.contains(x) implies filter::neighborhood(
            r.edges,
            found,
        ).contains(x) by {
            if !found.contains(x) {
                let k = choose|k: int|
                    0 <= k < m.edges.len() && filter::reaches(#[trigger] m.edges[k], found, x);
                lemma_edge_at_seed_stays(m, found, k);
                let i = choose|i: int| 0 <= i < r.edges.len() && r.edges[i] == m.edges[k];
                assert(filter::reaches(r.edges[i], found, x));
            }
        }
        assert forall|x: Seq<char>| filter::neighborhood(r.edges, found).contains(x) implies
            near.contains(x) by {
            if !found.contains(x) {
                let i = choose|i: int|
                    0 <= i < r.edges.len() && filter::reaches(#[trigger] r.edges[i], found, x);
                lemma_filter_member(m.edges, filter::edge_in(near), i);
                let k = choose|k: int| 0 <= k < m.edges.len() && m.edges[k] == r.edges[i];
                assert(filter::reaches(m.edges[k], found, x));
            }
        }
    }
    assert forall|i: int| 0 <= i < r.nodes.len() implies filter::node_in(near)(
        #[trigger] r.nodes[i],
    ) by {
        lemma_filter_member(m.nodes, filter::node_in(near), i);
    }
    lemma_all_pass(r.nodes, filter::node_in(near));
    assert forall|i: int| 0 <= i < r.edges.len() implies filter::edge_in(near)(
        #[trigger] r.edges[i],
    ) by {
        lemma_filter_member(m.edges, filter::edge_in(near), i);
    }
    lemma_all_pass(r.edges, filter::edge_in(near));
}

proof fn lemma_picked<T>(s: Seq<T>, keys: Seq<crate::ranking::RankView>, limit: int, i: int)
    requires
        keys.len() == s.len(),
        0 <= limit <= s.len(),
        0 <= i < limit,
    ensures
        ranking::picked(s, ranking::ranking(keys).take(limit)).len() == limit,
        s.contains(ranking::picked(s, ranking::ranking(keys).take(limit))[i]),
{
    ranking::ranking_is_stable_sort(keys, keys.len() as int);
    let r = ranking::ranking(keys);
    assert(r.contains(r[i]));
    assert(s.contains(s[r[i]]));
}

/// The limit on nodes holds, keeps a part of the graph, and no edge without its nodes where there
/// was none.
pub proof fn node_limit_holds(m: ModelView, selection: SelectionView, max_visible_nodes: int)
    ensures
        filter::node_clamped(m, selection, max_visible_nodes).nodes.len() <= filter::node_limit(
            max_visible_nodes,
        ),
        part_of(filter::node_clamped(m, selection, max_visible_nodes), m),
        m.closed() ==> filter::node_clamped(m, selection, max_visible_nodes).closed(),
{
    let limit = filter::node_limit(max_visible_nodes);
    let r = filter::node_clamped(m, selection, max_visible_nodes);
    if m.nodes.len() <= limit {
        lemma_part_reflexive(m);
    } else {
        let keys = m.nodes.map_values(filter::node_rank(m, selection));
        lemma_picked(m.nodes, keys, limit, 0);
        assert forall|i: int| 0 <= i < r.nodes.len() implies m.nodes.contains(
            #[trigger] r.nodes[i],
        ) by {
            lemma_picked(m.nodes, keys, limit, i);
        }
        let ep = filter::edge_in(filter::ids_of(r.nodes));
        assert forall|i: int| 0 <= i < r.edges.len() implies m.edges.contains(
            #[trigger] r.edges[i],
        ) && r.has_node(r.edges[i].from) && r.has_node(r.edges[i].to) by {
            lemma_filter_member(m.edges, ep, i);
            assert(filter::ids_of(r.nodes).contains(r.edges[i].from));
            assert(filter::ids_of(r.nodes).contains(r.edges[i].to));
        }
    }
}

/// The limit on edges holds, keeps all nodes, and no edge without its nodes where there was none.
pub proof fn edge_limit_holds(m: ModelView, selection: SelectionView, max_visible_nodes: int)
    ensures
        filter::edge_clamped(m, selection, max_visible_nodes).edges.len() <= filter::edge_limit(
            max_visible_nodes,
        ),
        filter::edge_clamped(m, selection, max_visible_nodes).nodes == m.nodes,
        part_of(filter::edge_clamped(m, selection, max_visible_nodes), m),
        m.closed() ==> filter::edge_clamped(m, selection, max_visible_nodes).closed(),
{
    let limit = filter::edge_limit(max_visible_nodes);
    let r = filter::edge_clamped(m, selection, max_visible_nodes);
    lemma_part_reflexive(m);
    if m.edges.len() > limit {
        let keys = m.edges.map_values(filter::edge_rank(m, selection));
        lemma_picked(m.edges, keys, limit, 0);
        assert forall|i: int| 0 <= i < r.edges.len() implies m.edges.contains(
            #[trigger] r.edges[i],
        ) by {
            lemma_picked(m.edges, keys, limit, i);
        }
        if m.closed() {
            assert forall|i: int| 0 <= i < r.edges.len() implies r.has_node(
                (#[trigger] r.edges[i]).from,
            ) && r.has_node(r.edges[i].to) by {
                assert(m.edges.contains(r.edges[i]));
                let o = choose|o: int| 0 <= o < m.edges.len() && m.edges[o] == r.edges[i];
                assert(m.has_node(m.edges[o].from) && m.has_node(m.edges[o].to));
                let a = choose|a: int|
                    0 <= a < m.nodes.len() && (#[trigger] m.nodes[a]).id == r.edges[i].from;
                assert(r.nodes[a].id == r.edges[i].from);
                let b = choose|b: int|
                    0 <= b < m.nodes.len() && (#[trigger] m.nodes[b]).id == r.edges[i].to;
                assert(r.nodes[b].id == r.edges[i].to);
            }
        }
    }
}

/// Whatever is asked for, the graph shown is a part of the whole, within both limits, and each of
/// its edges joins two nodes of it.
pub proof fn shown_graph_is_closed_part(m: ModelView, options: FilterView)
    ensures
        part_of(filter::filtered(m, options), m),
        filter::filtered(m, options).closed(),
        filter::filtered(m, options).nodes.len() <= filter::node_limit(
            options.max_visible_nodes,
        ),
        filter::filtered(m, options).edges.len() <= filter::edge_limit(
            options.max_visible_nodes,
        ),
{
    let selection = options.selection;
    let max = options.max_visible_nodes;
    let kinds = filter::kind_filtered(m, options.show_facts, options.show_evidence);
    kind_filter_keeps_whole_edges(m, options.show_facts, options.show_evidence);
    let words = filter::text_filtered(kinds, options.node_filter, options.relation_filter);
    text_filters_keep_whole_edges(kinds, options.node_filter, options.relation_filter);
    lemma_part_transitive(words, kinds, m);
    let focus = filter::focused(words, selection, options.focus_selected);
    restriction_keeps_whole_edges(words, filter::focus_nodes(words, selection));
    lemma_part_reflexive(words);
    lemma_part_transitive(focus, words, m);
    let nodes = filter::node_clamped(focus, selection, max);
    node_limit_holds(focus, selection, max);
    lemma_part_transitive(nodes, focus, m);
    edge_limit_holds(nodes, selection, max);
    lemma_part_transitive(filter::edge_clamped(nodes, selection, max), nodes, m);
}

proof fn lemma_all_pass<T>(s: Seq<T>, p: spec_fn(T) -> bool)
    requires
        forall|i: int| 0 <= i < s.len() ==> p(#[trigger] s[i]),
    ensures
        s.filter(p) == s,
    decreases s.len(),
{
    reveal(Seq::filter);
    if s.len() > 0 {
        let rest = s.drop_last();
        assert forall|i: int| 0 <= i < rest.len() implies p(#[trigger] rest[i]) by {
            assert(rest[i] == s[i]);
        }
        lemma_all_pass(rest, p);
        assert(p(s[s.len() - 1]));
        assert(s.filter(p) =~= s);
    }
}

/// Where all nodes are of kinds that are shown, none is selected, both text filters are blank and
/// the limit leaves none out, all nodes are shown. Where the limit on edges leaves none out
/// either, all edges of shown kinds are shown that join two of the nodes.
pub proof fn nodes_of_shown_kinds_stay(m: ModelView, options: FilterView)
    requires
        forall|i: int|
            0 <= i < m.nodes.len() ==> filter::shown_node(
                m.fallback,
                options.show_facts,
                options.show_evidence,
            )(#[trigger] m.nodes[i]),
        options.selection == SelectionView::Overview,
        text::trimmed(options.node_filter).len() == 0,
        text::trimmed(options.relation_filter).len() == 0,
        m.nodes.len() <= filter::node_limit(options.max_visible_nodes),
    ensures
        filter::filtered(m, options).nodes == m.nodes,
        m.edges.len() <= filter::edge_limit(options.max_visible_nodes) ==> filter::filtered(
            m,
            options,
        ).edges == m.edges.filter(
            filter::shown_edge(
                options.show_facts,
                options.show_evidence,
                filter::ids_of(m.nodes),
            ),
        ),
{
    let ids = filter::ids_of(m.nodes);
    lemma_all_pass(
        m.nodes,
        filter::shown_node(m.fallback, options.show_facts, options.show_evidence),
    );
    m.edges.lemma_filter_len(
        filter::shown_edge(options.show_facts, options.show_evidence, ids),
    );
}

/// Where every kind is shown, nothing is selected, both text filters are blank and the limits
/// leave nothing out, a closed graph is shown as it is.
pub proof fn what_is_small_is_shown_whole(m: ModelView, options: FilterView)
    requires
        m.closed(),
        options.show_facts,
        options.show_evidence,
        options.selection == SelectionView::Overview,
        text::trimmed(options.node_filter).len() == 0,
        text::trimmed(options.relation_filter).len() == 0,
        m.nodes.len() <= filter::node_limit(options.max_visible_nodes),
        m.edges.len() <= filter::edge_limit(options.max_visible_nodes),
    ensures
        filter::filtered(m, options) == m,
{
    nodes_of_shown_kinds_stay(m, options);
    let ids = filter::ids_of(m.nodes);
    let ep = filter::shown_edge(true, true, ids);
    assert forall|i: int| 0 <= i < m.edges.len() implies ep(#[trigger] m.edges[i]) by {
        assert(m.has_node(m.edges[i].from) && m.has_node(m.edges[i].to));
        nodes_are_among_their_ids(m, m.edges[i].from);
        nodes_are_among_their_ids(m, m.edges[i].to);
    }
    lemma_all_pass(m.edges, ep);
}

/// The id of a node is among those of its graph.
pub proof fn nodes_are_among_their_ids(m: ModelView, id: Seq<char>)
    requires
        m.has_node(id),
    ensures
        filter::ids_of(m.nodes).contains(id),
{
    let k = choose|k: int| 0 <= k < m.nodes.len() && (#[trigger] m.nodes[k]).id == id;
    assert(m.nodes.map_values(|n: NodeView| n.id)[k] == id);
}

/// A drilldown shows a part of the graph that holds every seed that is a node of it, and each of
/// its edges joins two nodes of it. It shows something exactly where a seed, or a neighbour of
/// one, is a node.
pub proof fn drilldown_is_closed_part(m: ModelView, seeds: Set<Seq<char>>)
    ensures
        filter::drilldown(m, seeds) matches Some(r) ==> {
            &&& part_of(r, m)
            &&& r.closed()
            &&& r.nodes.len() > 0
            &&& forall|id: Seq<char>| #[trigger]
                seeds.contains(id) && m.has_node(id) ==> r.has_node(id)
        },
        filter::drilldown(m, seeds) is Some <==> exists|i: int|
            0 <= i < m.nodes.len() && filter::neighborhood(m.edges, seeds).contains(
                (#[trigger] m.nodes[i]).id,
            ),
{
    let near = filter::neighborhood(m.edges, seeds);
    let np = filter::node_in(near);
    let nodes = m.nodes.filter(np);
    let ep = filter::edge_in(filter::ids_of(nodes));
    if filter::drilldown(m, seeds) is Some {
        let r = filter::drilldown(m, seeds)->0;
        lemma_filtered_part(m, np, ep, r);
        assert forall|i: int| 0 <= i < r.edges.len() implies r.has_node(
            (#[trigger] r.edges[i]).from,
        ) && r.has_node(r.edges[i].to) by {
            lemma_filter_member(m.edges, ep, i);
            assert(filter::ids_of(r.nodes).contains(r.edges[i].from));
            assert(filter::ids_of(r.nodes).contains(r.edges[i].to));
        }
        assert forall|id: Seq<char>| #[trigger] seeds.contains(id) && m.has_node(
            id,
        ) implies r.has_node(id) by {
            let a = choose|a: int| 0 <= a < m.nodes.len() && (#[trigger] m.nodes[a]).id == id;
            lemma_node_kept(m.nodes, np, id, a);
        }
        lemma_filter_member(m.nodes, np, 0);
        let o = choose|o: int| 0 <= o < m.nodes.len() && m.nodes[o] == nodes[0];
        assert(near.contains(m.nodes[o].id));
    }
    if exists|i: int| 0 <= i < m.nodes.len() && near.contains((#[trigger] m.nodes[i]).id) {
        let i = choose|i: int| 0 <= i < m.nodes.len() && near.contains((#[trigger] m.nodes[i]).id);
        m.nodes.lemma_filter_contains(np, i);
        if seeds == Set::<Seq<char>>::empty() {
            let x = m.nodes[i].id;
            let k = choose|k: int|
                0 <= k < m.edges.len() && filter::reaches(#[trigger] m.edges[k], seeds, x);
            assert(false);
        }
    }
}

} // verus!
