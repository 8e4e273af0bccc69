//! What narrowing a graph is for: which nodes and edges stay, said by the fields of the nodes and
//! edges themselves.
use vstd::prelude::*;
use crate::filter::FilterView;
use crate::filter_laws::{lemma_end_of_edge, lemma_endpoints, lemma_filter_member};
use crate::graph::{EdgeView, GraphEdgeKind, GraphNodeKind, ModelView, NodeView, SelectionView};
use crate::{filter, order, ranking, text};

verus! {

proof fn lemma_filter_keeps<T>(s: Seq<T>, p: spec_fn(T) -> bool, i: int)
    requires
        0 <= i < s.len(),
    ensures
        s.filter(p).contains(s[i]) <==> p(s[i]),
{
    if p(s[i]) {
        s.lemma_filter_contains(p, i);
    } else if s.filter(p).contains(s[i]) {
        let k = choose|k: int| 0 <= k < s.filter(p).len() && s.filter(p)[k] == s[i];
        lemma_filter_member(s, p, k);
    }
}

proof fn lemma_filter_same<T>(s: Seq<T>, p: spec_fn(T) -> bool, q: spec_fn(T) -> bool)
    requires
        forall|i: int| 0 <= i < s.len() ==> p(#[trigger] s[i]) == q(s[i]),
    ensures
        s.filter(p) == s.filter(q),
    decreases s.len(),
{
    reveal(Seq::filter);
    if s.len() > 0 {
        let rest = s.drop_last();
        assert forall|i: int| 0 <= i < rest.len() implies p(#[trigger] rest[i]) == q(rest[i]) by {
            assert(rest[i] == s[i]);
        }
        lemma_filter_same(rest, p, q);
        assert(p(s[s.len() - 1]) == q(s[s.len() - 1]));
    }
}

// ---------------------------------------------------------------------------
// Kinds
// ---------------------------------------------------------------------------

/// With facts switched off no node and no edge of a fact is left, with evidence switched off no
/// edge of evidence and, where the graph is more than metadata, no memory; all else stays in its
/// order, an edge only with both of its nodes.
pub proof fn kinds_that_are_switched_off_go(m: ModelView, show_facts: bool, show_evidence: bool)
    ensures
        ({
            let r = filter::kind_filtered(m, show_facts, show_evidence);
            &&& r.fallback == m.fallback
            &&& r.nodes == m.nodes.filter(
                |n: NodeView|
                    match n.kind {
                        GraphNodeKind::Fact => show_facts,
                        GraphNodeKind::Memory => m.fallback || show_evidence,
                        _ => true,
                    },
            )
            &&& forall|i: int|
                0 <= i < m.edges.len() ==> (r.edges.contains(#[trigger] m.edges[i]) <==> {
                    &&& m.edges[i].kind == GraphEdgeKind::Fact ==> show_facts
                    &&& m.edges[i].kind == GraphEdgeKind::Evidence ==> show_evidence
                    &&& exists|k: int|
                        0 <= k < r.nodes.len() && (#[trigger] r.nodes[k]).id == m.edges[i].from
                    &&& exists|k: int|
                        0 <= k < r.nodes.len() && (#[trigger] r.nodes[k]).id == m.edges[i].to
                })
            &&& forall|i: int| 0 <= i < r.edges.len() ==> m.edges.contains(#[trigger] r.edges[i])
        }),
{
    let r = filter::kind_filtered(m, show_facts, show_evidence);
    lemma_filter_same(
        m.nodes,
        filter::shown_node(m.fallback, show_facts, show_evidence),
        |n: NodeView|
            match n.kind {
                GraphNodeKind::Fact => show_facts,
                GraphNodeKind::Memory => m.fallback || show_evidence,
                _ => true,
            },
    );
    let ep = filter::shown_edge(show_facts, show_evidence, filter::ids_of(r.nodes));
    assert forall|i: int| 0 <= i < m.edges.len() implies (r.edges.contains(#[trigger] m.edges[i])
        <==> {
        &&& m.edges[i].kind == GraphEdgeKind::Fact ==> show_facts
        &&& m.edges[i].kind == GraphEdgeKind::Evidence ==> show_evidence
        &&& exists|k: int| 0 <= k < r.nodes.len() && (#[trigger] r.nodes[k]).id == m.edges[i].from
        &&& exists|k: int| 0 <= k < r.nodes.len() && (#[trigger] r.nodes[k]).id == m.edges[i].to
    }) by {
        lemma_filter_keeps(m.edges, ep, i);
    }
    assert forall|i: int| 0 <= i < r.edges.len() implies m.edges.contains(
        #[trigger] r.edges[i],
    ) by {
        lemma_filter_member(m.edges, ep, i);
    }
}

// ---------------------------------------------------------------------------
// Words
// ---------------------------------------------------------------------------

/// A blank filter takes nothing; both filters together take what the one on nodes takes of what
/// the one on relations leaves.
pub proof fn text_filters_work_one_after_the_other(
    m: ModelView,
    node_filter: Seq<char>,
    relation_filter: Seq<char>,
    blank: Seq<char>,
)
    requires
        text::trimmed(blank).len() == 0,
    ensures
        filter::text_filtered(m, blank, blank) == m,
        filter::text_filtered(m, node_filter, relation_filter) == filter::text_filtered(
            filter::text_filtered(m, blank, relation_filter),
            node_filter,
            blank,
        ),
{
}

/// A filter on relations keeps exactly the edges whose label holds its text, whatever the size of
/// the letters, and exactly the nodes at their ends.
pub proof fn relation_filter_searches_labels(m: ModelView, blank: Seq<char>, filter_text: Seq<char>)
    requires
        text::trimmed(blank).len() == 0,
        text::trimmed(filter_text).len() > 0,
    ensures
        ({
            let r = filter::text_filtered(m, blank, filter_text);
            let words = text::lowered(text::trimmed(filter_text));
            &&& r.fallback == m.fallback
            &&& r.edges == m.edges.filter(
                |e: EdgeView| text::occurs_in(words, text::lowered(e.label)),
            )
            &&& forall|i: int|
                0 <= i < m.nodes.len() ==> (r.nodes.contains(#[trigger] m.nodes[i]) <==> exists|k:
                    int|
                    0 <= k < r.edges.len() && ((#[trigger] r.edges[k]).from == m.nodes[i].id
                        || r.edges[k].to == m.nodes[i].id))
            &&& forall|i: int| 0 <= i < r.nodes.len() ==> m.nodes.contains(#[trigger] r.nodes[i])
        }),
{
    let r = filter::text_filtered(m, blank, filter_text);
    let words = text::lowered(text::trimmed(filter_text));
    lemma_filter_same(
        m.edges,
        filter::edge_labelled(words),
        |e: EdgeView| text::occurs_in(words, text::lowered(e.label)),
    );
    let np = filter::node_in(filter::endpoints(r.edges).to_set());
    assert forall|i: int| 0 <= i < m.nodes.len() implies (r.nodes.contains(#[trigger] m.nodes[i])
        <==> exists|k: int|
        0 <= k < r.edges.len() && ((#[trigger] r.edges[k]).from == m.nodes[i].id || r.edges[k].to
            == m.nodes[i].id)) by {
        lemma_filter_keeps(m.nodes, np, i);
        let id = m.nodes[i].id;
        if filter::endpoints(r.edges).contains(id) {
            let k = lemma_end_of_edge(r.edges, id);
            assert(r.edges[k].from == id || r.edges[k].to == id);
        }
        if exists|k: int|
            0 <= k < r.edges.len() && ((#[trigger] r.edges[k]).from == id || r.edges[k].to == id) {
            let k = choose|k: int|
                0 <= k < r.edges.len() && ((#[trigger] r.edges[k]).from == id || r.edges[k].to
                    == id);
            lemma_endpoints(r.edges, k);
        }
    }
    assert forall|i: int| 0 <= i < r.nodes.len() implies m.nodes.contains(
        #[trigger] r.nodes[i],
    ) by {
        lemma_filter_member(m.nodes, np, i);
    }
}

/// A filter on nodes keeps every node whose label holds its text and every node whose detail
/// holds it, whatever the size of the letters; with such a node every edge at it stays, and the
/// node at the other end.
pub proof fn node_filter_searches_labels_and_details(
    m: ModelView,
    filter_text: Seq<char>,
    blank: Seq<char>,
)
    requires
        text::trimmed(blank).len() == 0,
        text::trimmed(filter_text).len() > 0,
    ensures
        ({
            let r = filter::text_filtered(m, filter_text, blank);
            let words = text::lowered(text::trimmed(filter_text));
            &&& forall|i: int|
                0 <= i < m.nodes.len() && text::occurs_in(
                    words,
                    text::lowered((#[trigger] m.nodes[i]).label),
                ) ==> r.nodes.contains(m.nodes[i])
            &&& forall|i: int|
                0 <= i < m.nodes.len() && text::occurs_in(
                    words,
                    text::lowered((#[trigger] m.nodes[i]).detail),
                ) ==> r.nodes.contains(m.nodes[i])
            &&& forall|i: int, k: int, j: int|
                0 <= i < m.nodes.len() && 0 <= k < m.edges.len() && 0 <= j < m.nodes.len() && (
                text::occurs_in(words, text::lowered((#[trigger] m.nodes[i]).label))
                    || text::occurs_in(words, text::lowered(m.nodes[i].detail))) && ((
                #[trigger] m.edges[k]).from == m.nodes[i].id && m.edges[k].to == (
                #[trigger] m.nodes[j]).id || m.edges[k].to == m.nodes[i].id && m.edges[k].from
                    == m.nodes[j].id) ==> r.nodes.contains(m.nodes[j]) && r.edges.contains(
                    m.edges[k],
                )
        }),
{
    let r = filter::text_filtered(m, filter_text, blank);
    let words = text::lowered(text::trimmed(filter_text));
    let found = filter::matching_ids(m.nodes, words);
    let near = filter::neighborhood(m.edges, found);
    assert forall|i: int|
        0 <= i < m.nodes.len() && (text::occurs_in(
            words,
            text::lowered((#[trigger] m.nodes[i]).label),
        ) || text::occurs_in(words, text::lowered(m.nodes[i].detail))) implies found.contains(
        m.nodes[i].id,
    ) && r.nodes.contains(m.nodes[i]) && r == filter::restricted(m, near) by {
        assert(found.contains(m.nodes[i].id));
        assert(found != Set::<Seq<char>>::empty());
        lemma_filter_keeps(m.nodes, filter::node_in(near), i);
    }
    assert forall|i: int, k: int, j: int|
        0 <= i < m.nodes.len() && 0 <= k < m.edges.len() && 0 <= j < m.nodes.len() && (
        text::occurs_in(words, text::lowered((#[trigger] m.nodes[i]).label)) || text::occurs_in(
            words,
            text::lowered(m.nodes[i].detail),
        )) && ((#[trigger] m.edges[k]).from == m.nodes[i].id && m.edges[k].to == (
        #[trigger] m.nodes[j]).id || m.edges[k].to == m.nodes[i].id && m.edges[k].from
            == m.nodes[j].id) implies r.nodes.contains(m.nodes[j]) && r.edges.contains(
        m.edges[k],
    ) by {
        assert(found.contains(m.nodes[i].id));
        assert(filter::reaches(m.edges[k], found, m.nodes[j].id));
        lemma_filter_keeps(m.nodes, filter::node_in(near), j);
        lemma_filter_keeps(m.edges, filter::edge_in(near), k);
    }
}

/// Every node that a filter on nodes leaves has the id of a node whose label or detail holds the
/// text, or an edge joins it to such a node; every edge that is left joins two such ids. Where no
/// node holds the text, nothing is left.
pub proof fn node_filter_leaves_no_strangers(m: ModelView, filter_text: Seq<char>, blank: Seq<char>)
    requires
        text::trimmed(blank).len() == 0,
        text::trimmed(filter_text).len() > 0,
    ensures
        ({
            let r = filter::text_filtered(m, filter_text, blank);
            let words = text::lowered(text::trimmed(filter_text));
            &&& r.fallback == m.fallback
            &&& forall|j: int|
                0 <= j < r.nodes.len() ==> m.nodes.contains(#[trigger] r.nodes[j]) && (exists|i:
                    int|
                    0 <= i < m.nodes.len() && (text::occurs_in(
                        words,
                        text::lowered((#[trigger] m.nodes[i]).label),
                    ) || text::occurs_in(words, text::lowered(m.nodes[i].detail))) && (
                    m.nodes[i].id == r.nodes[j].id || exists|k: int|
                        0 <= k < m.edges.len() && ((#[trigger] m.edges[k]).from == m.nodes[i].id
                            && m.edges[k].to == r.nodes[j].id || m.edges[k].to == m.nodes[i].id
                            && m.edges[k].from == r.nodes[j].id)))
            &&& forall|l: int|
                0 <= l < r.edges.len() ==> m.edges.contains(#[trigger] r.edges[l]) && r.nodes.len()
                    > 0
            &&& (forall|i: int|
                0 <= i < m.nodes.len() ==> !text::occurs_in(
                    words,
                    text::lowered((#[trigger] m.nodes[i]).label),
                ) && !text::occurs_in(words, text::lowered(m.nodes[i].detail))) ==> r.nodes.len()
                == 0 && r.edges.len() == 0
        }),
{
    let r = filter::text_filtered(m, filter_text, blank);
    let words = text::lowered(text::trimmed(filter_text));
    let found = filter::matching_ids(m.nodes, words);
    let near = filter::neighborhood(m.edges, found);
    if found != Set::<Seq<char>>::empty() {
        assert forall|j: int| 0 <= j < r.nodes.len() implies m.nodes.contains(
            #[trigger] r.nodes[j],
        ) && (exists|i: int|
            0 <= i < m.nodes.len() && (text::occurs_in(
                words,
                text::lowered((#[trigger] m.nodes[i]).label),
            ) || text::occurs_in(words, text::lowered(m.nodes[i].detail))) && (m.nodes[i].id
                == r.nodes[j].id || exists|k: int|
                0 <= k < m.edges.len() && ((#[trigger] m.edges[k]).from == m.nodes[i].id
                    && m.edges[k].to == r.nodes[j].id || m.edges[k].to == m.nodes[i].id
                    && m.edges[k].from == r.nodes[j].id))) by {
            lemma_filter_member(m.nodes, filter::node_in(near), j);
            let id = r.nodes[j].id;
            if found.contains(id) {
                let i = choose|i: int|
                    0 <= i < m.nodes.len() && (#[trigger] m.nodes[i]).id == id
                        && filter::node_matches(m.nodes[i], words);
                assert(m.nodes[i].id == r.nodes[j].id);
            } else {
                let k = choose|k: int|
                    0 <= k < m.edges.len() && filter::reaches(#[trigger] m.edges[k], found, id);
                let other = if m.edges[k].to == id && found.contains(m.edges[k].from) {
                    m.edges[k].from
                } else {
                    m.edges[k].to
                };
                assert(found.contains(other));
                let i = choose|i: int|
                    0 <= i < m.nodes.len() && (#[trigger] m.nodes[i]).id == other
                        && filter::node_matches(m.nodes[i], words);
                assert(m.edges[k].from == m.nodes[i].id && m.edges[k].to == r.nodes[j].id
                    || m.edges[k].to == m.nodes[i].id && m.edges[k].from == r.nodes[j].id);
            }
        }
        let any = choose|id: Seq<char>| found.contains(id);
        assert(found.contains(any)) by {
            if forall|id: Seq<char>| !found.contains(id) {
                assert(found =~= Set::<Seq<char>>::empty());
            }
        }
        let o = choose|o: int|
            0 <= o < m.nodes.len() && (#[trigger] m.nodes[o]).id == any && filter::node_matches(
                m.nodes[o],
                words,
            );
        lemma_filter_keeps(m.nodes, filter::node_in(near), o);
        assert(r.nodes.len() > 0);
        assert forall|l: int| 0 <= l < r.edges.len() implies m.edges.contains(
            #[trigger] r.edges[l],
        ) && r.nodes.len() > 0 by {
            lemma_filter_member(m.edges, filter::edge_in(near), l);
        }
    }
}

// ---------------------------------------------------------------------------
// Focus
// ---------------------------------------------------------------------------

/// In the focus of a node stand the node, all nodes that an edge joins to it, and no others; all
/// edges at the node stay.
pub proof fn focus_of_a_node_is_its_surroundings(m: ModelView, id: Seq<char>)
    ensures
        ({
            let r = filter::focused(m, SelectionView::Node(id), true);
            &&& forall|j: int|
                0 <= j < m.nodes.len() ==> (r.nodes.contains(#[trigger] m.nodes[j]) <==> (
                m.nodes[j].id == id || exists|k: int|
                    0 <= k < m.edges.len() && ((#[trigger] m.edges[k]).from == id && m.edges[k].to
                        == m.nodes[j].id || m.edges[k].to == id && m.edges[k].from
                        == m.nodes[j].id)))
            &&& forall|k: int|
                0 <= k < m.edges.len() && ((#[trigger] m.edges[k]).from == id || m.edges[k].to
                    == id) ==> r.edges.contains(m.edges[k])
            &&& forall|k: int| 0 <= k < r.edges.len() ==> m.edges.contains(#[trigger] r.edges[k])
            &&& forall|j: int| 0 <= j < r.nodes.len() ==> m.nodes.contains(#[trigger] r.nodes[j])
        }),
{
    let r = filter::focused(m, SelectionView::Node(id), true);
    let near = filter::neighborhood(m.edges, set![id]);
    assert(near.contains(id));
    assert(near != Set::<Seq<char>>::empty());
    assert forall|j: int| 0 <= j < m.nodes.len() implies (r.nodes.contains(#[trigger] m.nodes[j])
        <==> (m.nodes[j].id == id || exists|k: int|
        0 <= k < m.edges.len() && ((#[trigger] m.edges[k]).from == id && m.edges[k].to
            == m.nodes[j].id || m.edges[k].to == id && m.edges[k].from == m.nodes[j].id))) by {
        lemma_filter_keeps(m.nodes, filter::node_in(near), j);
        let x = m.nodes[j].id;
        if near.contains(x) && x != id {
            let k = choose|k: int|
                0 <= k < m.edges.len() && filter::reaches(#[trigger] m.edges[k], set![id], x);
            assert(m.edges[k].from == id && m.edges[k].to == x || m.edges[k].to == id
                && m.edges[k].from == x);
        }
        if exists|k: int|
            0 <= k < m.edges.len() && ((#[trigger] m.edges[k]).from == id && m.edges[k].to == x
                || m.edges[k].to == id && m.edges[k].from == x) {
            let k = choose|k: int|
                0 <= k < m.edges.len() && ((#[trigger] m.edges[k]).from == id && m.edges[k].to == x
                    || m.edges[k].to == id && m.edges[k].from == x);
            assert(filter::reaches(m.edges[k], set![id], x));
        }
    }
    assert forall|k: int|
        0 <= k < m.edges.len() && ((#[trigger] m.edges[k]).from == id || m.edges[k].to
            == id) implies r.edges.contains(m.edges[k]) by {
        lemma_filter_keeps(m.edges, filter::edge_in(near), k);
        assert(filter::reaches(m.edges[k], set![id], m.edges[k].from) || m.edges[k].from == id);
        assert(filter::reaches(m.edges[k], set![id], m.edges[k].to) || m.edges[k].to == id);
    }
    assert forall|k: int| 0 <= k < r.edges.len() implies m.edges.contains(
        #[trigger] r.edges[k],
    ) by {
        lemma_filter_member(m.edges, filter::edge_in(near), k);
    }
    assert forall|j: int| 0 <= j < r.nodes.len() implies m.nodes.contains(
        #[trigger] r.nodes[j],
    ) by {
        lemma_filter_member(m.nodes, filter::node_in(near), j);
    }
}

proof fn lemma_edge_by_id(edges: Seq<EdgeView>, id: Seq<char>)
    ensures
        match filter::edge_by_id(edges, id) {
            Some(e) => exists|k: int|
                0 <= k < edges.len() && #[trigger] edges[k] == e && e.id == id && forall|j: int|
                    0 <= j < k ==> (#[trigger] edges[j]).id != id,
            None => forall|j: int| 0 <= j < edges.len() ==> (#[trigger] edges[j]).id != id,
        },
    decreases edges.len(),
{
    if edges.len() > 0 {
        let rest = edges.drop_first();
        lemma_edge_by_id(rest, id);
        if edges[0].id == id {
            assert(edges[0] == filter::edge_by_id(edges, id)->0);
        } else {
            match filter::edge_by_id(edges, id) {
                Some(e) => {
                    let k = choose|k: int|
                        0 <= k < rest.len() && #[trigger] rest[k] == e && e.id == id && forall|
                            j: int,
                        |
                            0 <= j < k ==> (#[trigger] rest[j]).id != id;
                    assert(edges[k + 1] == e);
                    assert forall|j: int| 0 <= j < k + 1 implies (#[trigger] edges[j]).id != id by {
                        if j > 0 {
                            assert(rest[j - 1].id != id);
                        }
                    }
                },
                None => {
                    assert forall|j: int| 0 <= j < edges.len() implies (
                    #[trigger] edges[j]).id != id by {
                        if j > 0 {
                            assert(rest[j - 1].id != id);
                        }
                    }
                },
            }
        }
    }
}

/// In the focus of an edge stand its two ends and no others, and the edge stays; an edge that is
/// not there brings nothing into focus, and all stays as it is.
pub proof fn focus_of_an_edge_is_its_ends(m: ModelView, k: int)
    requires
        0 <= k < m.edges.len(),
        forall|j: int| 0 <= j < k ==> (#[trigger] m.edges[j]).id != m.edges[k].id,
    ensures
        ({
            let r = filter::focused(m, SelectionView::Edge(m.edges[k].id), true);
            &&& forall|j: int|
                0 <= j < m.nodes.len() ==> (r.nodes.contains(#[trigger] m.nodes[j]) <==> (
                m.nodes[j].id == m.edges[k].from || m.nodes[j].id == m.edges[k].to))
            &&& r.edges.contains(m.edges[k])
            &&& forall|l: int| 0 <= l < r.edges.len() ==> m.edges.contains(#[trigger] r.edges[l])
        }),
{
    let e = m.edges[k];
    let r = filter::focused(m, SelectionView::Edge(e.id), true);
    lemma_edge_by_id(m.edges, e.id);
    let first = filter::edge_by_id(m.edges, e.id)->0;
    let at = choose|at: int|
        0 <= at < m.edges.len() && #[trigger] m.edges[at] == first && first.id == e.id && forall|
            j: int,
        |
            0 <= j < at ==> (#[trigger] m.edges[j]).id != e.id;
    assert(at == k) by {
        assert(m.edges[at].id == e.id);
    }
    let ends = set![e.from, e.to];
    assert(ends.contains(e.from));
    assert(ends != Set::<Seq<char>>::empty());
    assert forall|j: int| 0 <= j < m.nodes.len() implies (r.nodes.contains(#[trigger] m.nodes[j])
        <==> (m.nodes[j].id == m.edges[k].from || m.nodes[j].id == m.edges[k].to)) by {
        lemma_filter_keeps(m.nodes, filter::node_in(ends), j);
    }
    lemma_filter_keeps(m.edges, filter::edge_in(ends), k);
    assert forall|l: int| 0 <= l < r.edges.len() implies m.edges.contains(
        #[trigger] r.edges[l],
    ) by {
        lemma_filter_member(m.edges, filter::edge_in(ends), l);
    }
}

/// Without a focus, or with nothing selected, all stays as it is.
pub proof fn nothing_selected_is_all_in_focus(m: ModelView, selection: SelectionView)
    ensures
        filter::focused(m, selection, false) == m,
        filter::focused(m, SelectionView::Overview, true) == m,
{
}

// ---------------------------------------------------------------------------
// Limits
// ---------------------------------------------------------------------------

/// How many ends of edges are at a node.
pub open spec fn ends_at(edges: Seq<EdgeView>, id: Seq<char>) -> int
    decreases edges.len(),
{
    if edges.len() == 0 {
        0
    } else {
        let e = edges.last();
        ends_at(edges.drop_last(), id) + (if e.from == id {
            1int
        } else {
            0
        }) + (if e.to == id {
            1int
        } else {
            0
        })
    }
}

proof fn lemma_ends_at(edges: Seq<EdgeView>, id: Seq<char>)
    ensures
        ends_at(edges, id) == order::occurrences(filter::endpoints(edges), id),
    decreases edges.len(),
{
    if edges.len() > 0 {
        lemma_ends_at(edges.drop_last(), id);
        let all = filter::endpoints(edges);
        let front = filter::endpoints(edges.drop_last());
        assert(all.drop_last() =~= front.push(edges.last().from));
        assert(all.drop_last().drop_last() =~= front);
        reveal_with_fuel(order::occurrences, 3);
    }
}

/// Whether an edge joins two nodes, whichever it leads from.
pub open spec fn joined(edges: Seq<EdgeView>, a: Seq<char>, b: Seq<char>) -> bool {
    exists|k: int|
        0 <= k < edges.len() && ((#[trigger] edges[k]).from == a && edges[k].to == b
            || edges[k].from == b && edges[k].to == a)
}

/// The worth of a node in a crowded graph: twelve for each end of an edge at it, more for what
/// stands for much, and most for what is selected and what is joined to it.
pub open spec fn worth_of_node(m: ModelView, n: NodeView, selected: Option<Seq<char>>) -> int {
    12 * ends_at(m.edges, n.id) + (match n.kind {
        GraphNodeKind::Cluster => 620int,
        GraphNodeKind::CodeFile => 560,
        GraphNodeKind::Type => 520,
        GraphNodeKind::CodeSymbol => 430,
        GraphNodeKind::Entity => 400,
        GraphNodeKind::Fact => 180,
        GraphNodeKind::Memory => 80,
    }) + (match selected {
        None => 8000int,
        Some(id) => if n.id == id {
            20000
        } else if joined(m.edges, id, n.id) {
            8000
        } else {
            0
        },
    })
}

proof fn lemma_worth(m: ModelView, n: NodeView, selection: SelectionView)
    requires
        m.nodes.contains(n),
        !(selection is Edge),
    ensures
        filter::node_rank(m, selection)(n).score == worth_of_node(
            m,
            n,
            match selection {
                SelectionView::Node(id) => Some(id),
                _ => None,
            },
        ),
        filter::node_rank(m, selection)(n).length == 0,
        filter::node_rank(m, selection)(n).first == n.label,
{
    lemma_ends_at(m.edges, n.id);
    match selection {
        SelectionView::Overview => {
            let i = choose|i: int| 0 <= i < m.nodes.len() && m.nodes[i] == n;
            assert(m.nodes[i].id == n.id);
            assert(filter::ids_of(m.nodes).contains(n.id));
        },
        SelectionView::Node(id) => {
            let near = filter::neighborhood(m.edges, set![id]);
            assert(near.contains(n.id) <==> n.id == id || joined(m.edges, id, n.id)) by {
                if near.contains(n.id) && n.id != id {
                    let k = choose|k: int|
                        0 <= k < m.edges.len() && filter::reaches(
                            #[trigger] m.edges[k],
                            set![id],
                            n.id,
                        );
                    assert(m.edges[k].from == id && m.edges[k].to == n.id || m.edges[k].from
                        == n.id && m.edges[k].to == id);
                }
                if joined(m.edges, id, n.id) {
                    let k = choose|k: int|
                        0 <= k < m.edges.len() && ((#[trigger] m.edges[k]).from == id
                            && m.edges[k].to == n.id || m.edges[k].from == n.id && m.edges[k].to
                            == id);
                    assert(filter::reaches(m.edges[k], set![id], n.id));
                }
            }
        },
        SelectionView::Edge(_) => {},
    }
}

/// Whether something that the list holds at a place is not outranked by another.
spec fn not_outranked<T>(s: Seq<T>, keys: Seq<ranking::RankView>, x: T, j: int) -> bool {
    exists|o: int|
        0 <= o < s.len() && #[trigger] s[o] == x && !ranking::ranks_before(keys[j], keys[o])
}

proof fn lemma_picked_first<T>(s: Seq<T>, keys: Seq<ranking::RankView>, limit: int, j: int)
    requires
        keys.len() == s.len(),
        0 <= limit <= s.len(),
        0 <= j < s.len(),
    ensures
        ({
            let kept = ranking::picked(s, ranking::ranking(keys).take(limit));
            &&& kept.len() == limit
            &&& !kept.contains(s[j]) ==> forall|i: int|
                0 <= i < limit ==> not_outranked(s, keys, #[trigger] kept[i], j)
        }),
{
    ranking::ranking_is_stable_sort(keys, keys.len() as int);
    let r = ranking::ranking(keys);
    let kept = ranking::picked(s, r.take(limit));
    assert(r.contains(j));
    let p = choose|p: int| 0 <= p < r.len() && r[p] == j;
    if !kept.contains(s[j]) {
        assert(p >= limit) by {
            if p < limit {
                assert(kept[p] == s[j]);
            }
        }
        assert forall|i: int| 0 <= i < limit implies not_outranked(
            s,
            keys,
            #[trigger] kept[i],
            j,
        ) by {
            assert(r.contains(r[i]));
            assert(s[r[i]] == kept[i]);
            assert(ranking::comes_first(
                keys,
                ranking::ranking_of(keys, keys.len() as int)[i],
                ranking::ranking_of(keys, keys.len() as int)[p],
            ));
        }
    }
}

/// A graph is cut only where it has more nodes than are shown, twenty at least and two hundred
/// and fifty at most. Then as many stay as are shown, and no node that goes is worth more than one
/// that stays, or as much with a lesser label.
pub proof fn nodes_worth_most_are_shown(
    m: ModelView,
    selection: SelectionView,
    max_visible_nodes: int,
    j: int,
)
    requires
        !(selection is Edge),
        0 <= j < m.nodes.len(),
    ensures
        ({
            let r = filter::node_clamped(m, selection, max_visible_nodes);
            let shown = if max_visible_nodes < 20 {
                20
            } else if max_visible_nodes > 250 {
                250
            } else {
                max_visible_nodes
            };
            let selected = match selection {
                SelectionView::Node(id) => Some(id),
                _ => None,
            };
            &&& m.nodes.len() <= shown ==> r == m
            &&& m.nodes.len() > shown ==> r.nodes.len() == shown
            &&& !r.nodes.contains(m.nodes[j]) ==> forall|i: int|
                0 <= i < r.nodes.len() ==> {
                    let a = worth_of_node(m, #[trigger] r.nodes[i], selected);
                    let b = worth_of_node(m, m.nodes[j], selected);
                    a > b || a == b && !order::text_before(m.nodes[j].label, r.nodes[i].label)
                }
        }),
{
    let shown = filter::node_limit(max_visible_nodes);
    if m.nodes.len() > shown {
        let rank_of = filter::node_rank(m, selection);
        let keys = m.nodes.map_values(rank_of);
        lemma_picked_first(m.nodes, keys, shown, j);
        let r = filter::node_clamped(m, selection, max_visible_nodes);
        if !r.nodes.contains(m.nodes[j]) {
            assert forall|i: int| 0 <= i < r.nodes.len() implies {
                let selected = match selection {
                    SelectionView::Node(id) => Some(id),
                    _ => None,
                };
                let a = worth_of_node(m, #[trigger] r.nodes[i], selected);
                let b = worth_of_node(m, m.nodes[j], selected);
                a > b || a == b && !order::text_before(m.nodes[j].label, r.nodes[i].label)
            } by {
                assert(not_outranked(m.nodes, keys, r.nodes[i], j));
                let o = choose|o: int|
                    0 <= o < m.nodes.len() && #[trigger] m.nodes[o] == r.nodes[i]
                        && !ranking::ranks_before(keys[j], keys[o]);
                lemma_worth(m, m.nodes[o], selection);
                lemma_worth(m, m.nodes[j], selection);
                order::KeyOrder::irreflexive(m.nodes[j].label);
            }
        }
    } else {
        assert(m.nodes.contains(m.nodes[j]));
    }
}

/// The worth of an edge in a crowded graph: twenty for each relation it stands for, and most for
/// what is selected and what is at it.
pub open spec fn worth_of_edge(m: ModelView, e: EdgeView, selected: Option<Seq<char>>) -> int {
    20 * (if e.weight == 0 {
        1
    } else {
        e.weight as int
    }) + (match selected {
        None => if filter::ids_of(m.nodes).contains(e.from) || filter::ids_of(m.nodes).contains(
            e.to,
        ) {
            2000int
        } else {
            0
        },
        Some(id) => if e.from == id || e.to == id || joined(m.edges, id, e.from) || joined(
            m.edges,
            id,
            e.to,
        ) {
            2000
        } else {
            0
        },
    })
}

proof fn lemma_near(m: ModelView, id: Seq<char>, x: Seq<char>)
    ensures
        filter::focus_nodes(m, SelectionView::Node(id)).contains(x) <==> x == id || joined(
            m.edges,
            id,
            x,
        ),
{
    let near = filter::neighborhood(m.edges, set![id]);
    if near.contains(x) && x != id {
        let k = choose|k: int|
            0 <= k < m.edges.len() && filter::reaches(#[trigger] m.edges[k], set![id], x);
        assert(m.edges[k].from == id && m.edges[k].to == x || m.edges[k].from == x && m.edges[k].to
            == id);
    }
    if joined(m.edges, id, x) {
        let k = choose|k: int|
            0 <= k < m.edges.len() && ((#[trigger] m.edges[k]).from == id && m.edges[k].to == x
                || m.edges[k].from == x && m.edges[k].to == id);
        assert(filter::reaches(m.edges[k], set![id], x));
    }
}

/// Edges are left out only where there are more than five for each node that may be shown, eighty
/// at least and seven hundred at most. Then no edge that goes is worth more than one that stays.
pub proof fn edges_worth_most_are_shown(
    m: ModelView,
    selection: SelectionView,
    max_visible_nodes: int,
    j: int,
)
    requires
        !(selection is Edge),
        0 <= j < m.edges.len(),
    ensures
        ({
            let r = filter::edge_clamped(m, selection, max_visible_nodes);
            let shown = if max_visible_nodes < 16 {
                80
            } else if max_visible_nodes > 140 {
                700
            } else {
                5 * max_visible_nodes
            };
            let selected = match selection {
                SelectionView::Node(id) => Some(id),
                _ => None,
            };
            &&& r.nodes == m.nodes
            &&& m.edges.len() <= shown ==> r == m
            &&& m.edges.len() > shown ==> r.edges.len() == shown
            &&& !r.edges.contains(m.edges[j]) ==> forall|i: int|
                0 <= i < r.edges.len() ==> {
                    let a = worth_of_edge(m, #[trigger] r.edges[i], selected);
                    let b = worth_of_edge(m, m.edges[j], selected);
                    a > b || a == b && !order::text_before(m.edges[j].label, r.edges[i].label)
                }
        }),
{
    let shown = filter::edge_limit(max_visible_nodes);
    let r = filter::edge_clamped(m, selection, max_visible_nodes);
    if m.edges.len() > shown {
        let keys = m.edges.map_values(filter::edge_rank(m, selection));
        lemma_picked_first(m.edges, keys, shown, j);
        if !r.edges.contains(m.edges[j]) {
            assert forall|i: int| 0 <= i < r.edges.len() implies {
                let selected = match selection {
                    SelectionView::Node(id) => Some(id),
                    _ => None,
                };
                let a = worth_of_edge(m, #[trigger] r.edges[i], selected);
                let b = worth_of_edge(m, m.edges[j], selected);
                a > b || a == b && !order::text_before(m.edges[j].label, r.edges[i].label)
            } by {
                assert(not_outranked(m.edges, keys, r.edges[i], j));
                let o = choose|o: int|
                    0 <= o < m.edges.len() && #[trigger] m.edges[o] == r.edges[i]
                        && !ranking::ranks_before(keys[j], keys[o]);
                match selection {
                    SelectionView::Node(id) => {
                        lemma_near(m, id, m.edges[o].from);
                        lemma_near(m, id, m.edges[o].to);
                        lemma_near(m, id, m.edges[j].from);
                        lemma_near(m, id, m.edges[j].to);
                    },
                    _ => {},
                }
                order::KeyOrder::irreflexive(m.edges[j].label);
            }
        }
    } else {
        assert(m.edges.contains(m.edges[j]));
    }
}

// ---------------------------------------------------------------------------
// All together
// ---------------------------------------------------------------------------

/// What is shown is what the limits leave of the focus in what the words leave of the kinds that
/// are switched on: each filter is applied, and in this order.
pub proof fn filters_are_applied_in_order(m: ModelView, options: FilterView)
    ensures
        ({
            let kinds = filter::kind_filtered(m, options.show_facts, options.show_evidence);
            let words = filter::text_filtered(
                kinds,
                options.node_filter,
                options.relation_filter,
            );
            let focus = filter::focused(words, options.selection, options.focus_selected);
            let nodes = filter::node_clamped(focus, options.selection, options.max_visible_nodes);
            filter::filtered(m, options) == filter::edge_clamped(
                nodes,
                options.selection,
                options.max_visible_nodes,
            )
        }),
{
}

/// No fact is shown with facts switched off, no evidence with evidence switched off; with a filter
/// on relations the label of every edge shown holds its text; with a node in focus every node shown
/// is that node or one that an edge of the graph joins to it.
pub proof fn shown_graph_passes_its_filters(m: ModelView, options: FilterView)
    ensures
        ({
            let r = filter::filtered(m, options);
            &&& forall|i: int|
                0 <= i < r.nodes.len() ==> {
                    &&& (#[trigger] r.nodes[i]).kind == GraphNodeKind::Fact ==> options.show_facts
                    &&& r.nodes[i].kind == GraphNodeKind::Memory ==> m.fallback
                        || options.show_evidence
                }
            &&& forall|i: int|
                0 <= i < r.edges.len() ==> {
                    &&& (#[trigger] r.edges[i]).kind == GraphEdgeKind::Fact ==> options.show_facts
                    &&& r.edges[i].kind == GraphEdgeKind::Evidence ==> options.show_evidence
                    &&& text::trimmed(options.relation_filter).len() > 0 ==> text::occurs_in(
                        text::lowered(text::trimmed(options.relation_filter)),
                        text::lowered(r.edges[i].label),
                    )
                }
            &&& options.selection matches SelectionView::Node(id) ==> options.focus_selected
                ==> forall|i: int|
                0 <= i < r.nodes.len() ==> (#[trigger] r.nodes[i]).id == id || joined(
                    m.edges,
                    id,
                    r.nodes[i].id,
                )
        }),
{
    let selection = options.selection;
    let max = options.max_visible_nodes;
    let kinds = filter::kind_filtered(m, options.show_facts, options.show_evidence);
    let words = filter::text_filtered(kinds, options.node_filter, options.relation_filter);
    let focus = filter::focused(words, selection, options.focus_selected);
    let nodes = filter::node_clamped(focus, selection, max);
    let r = filter::filtered(m, options);
    crate::filter_laws::text_filters_keep_whole_edges(
        kinds,
        options.node_filter,
        options.relation_filter,
    );
    crate::filter_laws::restriction_keeps_whole_edges(
        words,
        filter::focus_nodes(words, selection),
    );
    crate::filter_laws::node_limit_holds(focus, selection, max);
    crate::filter_laws::edge_limit_holds(nodes, selection, max);
    assert forall|i: int| 0 <= i < r.nodes.len() implies focus.nodes.contains(
        #[trigger] r.nodes[i],
    ) && words.nodes.contains(r.nodes[i]) && kinds.nodes.contains(r.nodes[i]) by {
        assert(nodes.nodes.contains(r.nodes[i]));
        let a = choose|a: int| 0 <= a < nodes.nodes.len() && nodes.nodes[a] == r.nodes[i];
        assert(focus.nodes.contains(nodes.nodes[a]));
        let b = choose|b: int| 0 <= b < focus.nodes.len() && focus.nodes[b] == r.nodes[i];
        assert(words.nodes.contains(focus.nodes[b]));
        let c = choose|c: int| 0 <= c < words.nodes.len() && words.nodes[c] == r.nodes[i];
        assert(kinds.nodes.contains(words.nodes[c]));
    }
    assert forall|i: int| 0 <= i < r.edges.len() implies words.edges.contains(
        #[trigger] r.edges[i],
    ) && kinds.edges.contains(r.edges[i]) by {
        assert(nodes.edges.contains(r.edges[i]));
        let a = choose|a: int| 0 <= a < nodes.edges.len() && nodes.edges[a] == r.edges[i];
        assert(focus.edges.contains(nodes.edges[a]));
        let b = choose|b: int| 0 <= b < focus.edges.len() && focus.edges[b] == r.edges[i];
        assert(words.edges.contains(focus.edges[b]));
        let c = choose|c: int| 0 <= c < words.edges.len() && words.edges[c] == r.edges[i];
        assert(kinds.edges.contains(words.edges[c]));
    }
    assert forall|i: int| 0 <= i < r.nodes.len() implies {
        &&& (#[trigger] r.nodes[i]).kind == GraphNodeKind::Fact ==> options.show_facts
        &&& r.nodes[i].kind == GraphNodeKind::Memory ==> m.fallback || options.show_evidence
    } by {
        let c = choose|c: int| 0 <= c < kinds.nodes.len() && kinds.nodes[c] == r.nodes[i];
        lemma_filter_member(
            m.nodes,
            filter::shown_node(m.fallback, options.show_facts, options.show_evidence),
            c,
        );
    }
    let label_words = filter::filter_words(options.relation_filter);
    assert forall|i: int| 0 <= i < r.edges.len() implies {
        &&& (#[trigger] r.edges[i]).kind == GraphEdgeKind::Fact ==> options.show_facts
        &&& r.edges[i].kind == GraphEdgeKind::Evidence ==> options.show_evidence
        &&& text::trimmed(options.relation_filter).len() > 0 ==> text::occurs_in(
            text::lowered(text::trimmed(options.relation_filter)),
            text::lowered(r.edges[i].label),
        )
    } by {
        let c = choose|c: int| 0 <= c < kinds.edges.len() && kinds.edges[c] == r.edges[i];
        lemma_filter_member(
            m.edges,
            filter::shown_edge(
                options.show_facts,
                options.show_evidence,
                filter::ids_of(kinds.nodes),
            ),
            c,
        );
        if label_words.len() > 0 {
            let a = filter::relation_filtered(kinds, label_words);
            crate::filter_laws::restriction_keeps_whole_edges(
                a,
                filter::neighborhood(
                    a.edges,
                    filter::matching_ids(a.nodes, filter::filter_words(options.node_filter)),
                ),
            );
            let w = choose|w: int| 0 <= w < words.edges.len() && words.edges[w] == r.edges[i];
            assert(a.edges.contains(words.edges[w])) by {
                if filter::filter_words(options.node_filter).len() == 0 {
                    assert(words == a);
                }
            }
            let k = choose|k: int| 0 <= k < a.edges.len() && a.edges[k] == r.edges[i];
            lemma_filter_member(kinds.edges, filter::edge_labelled(label_words), k);
        }
    }
    match selection {
        SelectionView::Node(id) => {
            if options.focus_selected {
                let near = filter::focus_nodes(words, selection);
                assert(near.contains(id));
                assert(near != Set::<Seq<char>>::empty());
                assert forall|i: int| 0 <= i < r.nodes.len() implies (#[trigger] r.nodes[i]).id
                    == id || joined(m.edges, id, r.nodes[i].id) by {
                    let b = choose|b: int|
                        0 <= b < focus.nodes.len() && focus.nodes[b] == r.nodes[i];
                    lemma_filter_member(words.nodes, filter::node_in(near), b);
                    let x = r.nodes[i].id;
                    lemma_near(words, id, x);
                    if x != id {
                        let k = choose|k: int|
                            0 <= k < words.edges.len() && ((#[trigger] words.edges[k]).from == id
                                && words.edges[k].to == x || words.edges[k].from == x
                                && words.edges[k].to == id);
                        assert(kinds.edges.contains(words.edges[k]));
                        let c = choose|c: int|
                            0 <= c < kinds.edges.len() && kinds.edges[c] == words.edges[k];
                        lemma_filter_member(
                            m.edges,
                            filter::shown_edge(
                                options.show_facts,
                                options.show_evidence,
                                filter::ids_of(kinds.nodes),
                            ),
                            c,
                        );
                        let o = choose|o: int|
                            0 <= o < m.edges.len() && m.edges[o] == kinds.edges[c];
                        assert(m.edges[o].from == id && m.edges[o].to == x || m.edges[o].from == x
                            && m.edges[o].to == id);
                    }
                }
            }
        },
        _ => {},
    }
}

} // verus!
