//! Aggregation: relations between things counted as relations between their groups.
use vstd::prelude::*;
use crate::graph::{aggregate_edge, EdgeView, GraphEdge, GraphEdgeKind};
use crate::order::{count_one, Count, OrderedMap, Triple};
use crate::text::{cat2, cat6};
use crate::{graph, order};

verus! {

/// A map from keys to values in which a later pair replaces an earlier one.
pub open spec fn pair_map(pairs: Seq<(Seq<char>, Seq<char>)>) -> Map<Seq<char>, Seq<char>>
    decreases pairs.len(),
{
    if pairs.len() == 0 {
        Map::empty()
    } else {
        pair_map(pairs.drop_last()).insert(pairs.last().0, pairs.last().1)
    }
}

/// The value of a key, where it has one.
pub open spec fn lookup(m: Map<Seq<char>, Seq<char>>, k: Seq<char>) -> Option<Seq<char>> {
    if m.dom().contains(k) {
        Some(m[k])
    } else {
        None
    }
}

/// A relation between the groups of two things, where both have one.
pub struct LinkView {
    pub from: Option<Seq<char>>,
    pub relation: Seq<char>,
    pub to: Option<Seq<char>>,
}

/// Whether a link joins two groups that differ.
pub open spec fn joins_groups(l: LinkView) -> bool {
    l.from is Some && l.to is Some && l.from != l.to
}

/// The links that join two different groups.
pub open spec fn group_triples(links: Seq<LinkView>) -> Seq<(Seq<char>, Seq<char>, Seq<char>)>
    decreases links.len(),
{
    if links.len() == 0 {
        Seq::empty()
    } else {
        let before = group_triples(links.drop_last());
        let l = links.last();
        if joins_groups(l) {
            before.push((l.from->0, l.relation, l.to->0))
        } else {
            before
        }
    }
}

/// No link makes more than one triple.
pub proof fn group_triples_bound(links: Seq<LinkView>)
    ensures
        group_triples(links).len() <= links.len(),
    decreases links.len(),
{
    if links.len() > 0 {
        group_triples_bound(links.drop_last());
    }
}

/// The edge between two groups that `e.1` relations of one kind join.
pub open spec fn group_edge(
    edge_prefix: Seq<char>,
    node_prefix: Seq<char>,
    e: ((Seq<char>, Seq<char>, Seq<char>), nat),
) -> EdgeView {
    let (from, relation, to) = e.0;
    EdgeView {
        id: edge_prefix + from + ":"@ + relation + ":"@ + to,
        from: node_prefix + from,
        to: node_prefix + to,
        label: graph::weighted_label(relation, e.1),
        kind: GraphEdgeKind::Aggregate,
        weight: e.1,
    }
}

/// The edges between groups, in the order of from, relation and to.
pub open spec fn group_edges(
    edge_prefix: Seq<char>,
    node_prefix: Seq<char>,
    triples: Seq<(Seq<char>, Seq<char>, Seq<char>)>,
) -> Seq<EdgeView> {
    order::sorted_entries(order::tally(triples)).map_values(
        |e: ((Seq<char>, Seq<char>, Seq<char>), nat)| group_edge(edge_prefix, node_prefix, e),
    )
}

/// The edge between two nodes that `e.1` relations of one kind join.
pub open spec fn direct_edge(
    edge_prefix: Seq<char>,
    kind: GraphEdgeKind,
    e: ((Seq<char>, Seq<char>, Seq<char>), nat),
) -> EdgeView {
    let (from, relation, to) = e.0;
    EdgeView {
        id: edge_prefix + from + ":"@ + relation + ":"@ + to,
        from,
        to,
        label: graph::weighted_label(relation, e.1),
        kind,
        weight: e.1,
    }
}

/// The edges between nodes, in the order of from, relation and to.
pub open spec fn direct_edges(
    edge_prefix: Seq<char>,
    kind: GraphEdgeKind,
    triples: Seq<(Seq<char>, Seq<char>, Seq<char>)>,
) -> Seq<EdgeView> {
    order::sorted_entries(order::tally(triples)).map_values(
        |e: ((Seq<char>, Seq<char>, Seq<char>), nat)| direct_edge(edge_prefix, kind, e),
    )
}

/// Builds the edges between groups from their counts.
pub fn edges_between_groups(
    counts: &OrderedMap<Triple, Count>,
    edge_prefix: &str,
    node_prefix: &str,
    Ghost(triples): Ghost<Seq<(Seq<char>, Seq<char>, Seq<char>)>>,
) -> (r: Vec<GraphEdge>)
    requires
        counts.wf(),
        counts@ == order::tally(triples),
    ensures
        graph::edge_views(r@) == group_edges(edge_prefix@, node_prefix@, triples),
{
    let mut r: Vec<GraphEdge> = Vec::new();
    let mut i: usize = 0;
    while i < counts.entries.len()
        invariant
            i <= counts.entries.len(),
            r.len() == i,
            forall|j: int|
                0 <= j < i ==> (#[trigger] r@[j])@ == group_edge(
                    edge_prefix@,
                    node_prefix@,
                    counts.items()[j],
                ),
        decreases counts.entries.len() - i,
    {
        let key = &counts.entries[i].0;
        let id = cat6(
            edge_prefix,
            key.first.as_str(),
            ":",
            key.second.as_str(),
            ":",
            key.third.as_str(),
        );
        let from = cat2(node_prefix, key.first.as_str());
        let to = cat2(node_prefix, key.third.as_str());
        r.push(
            aggregate_edge(
                id,
                from,
                to,
                key.second.as_str(),
                GraphEdgeKind::Aggregate,
                counts.entries[i].1.n,
            ),
        );
        i += 1;
    }
    proof {
        counts.lemma_lists();
        assert(graph::edge_views(r@) =~= group_edges(edge_prefix@, node_prefix@, triples));
    }
    r
}

/// Builds the edges between nodes from their counts.
pub fn edges_between_nodes(
    counts: &OrderedMap<Triple, Count>,
    edge_prefix: &str,
    kind: GraphEdgeKind,
    Ghost(triples): Ghost<Seq<(Seq<char>, Seq<char>, Seq<char>)>>,
) -> (r: Vec<GraphEdge>)
    requires
        counts.wf(),
        counts@ == order::tally(triples),
    ensures
        graph::edge_views(r@) == direct_edges(edge_prefix@, kind, triples),
{
    let mut r: Vec<GraphEdge> = Vec::new();
    let mut i: usize = 0;
    while i < counts.entries.len()
        invariant
            i <= counts.entries.len(),
            r.len() == i,
            forall|j: int|
                0 <= j < i ==> (#[trigger] r@[j])@ == direct_edge(
                    edge_prefix@,
                    kind,
                    counts.items()[j],
                ),
        decreases counts.entries.len() - i,
    {
        let key = &counts.entries[i].0;
        let id = cat6(
            edge_prefix,
            key.first.as_str(),
            ":",
            key.second.as_str(),
            ":",
            key.third.as_str(),
        );
        r.push(
            aggregate_edge(
                id,
                key.first.clone(),
                key.third.clone(),
                key.second.as_str(),
                kind,
                counts.entries[i].1.n,
            ),
        );
        i += 1;
    }
    proof {
        counts.lemma_lists();
        assert(graph::edge_views(r@) =~= direct_edges(edge_prefix@, kind, triples));
    }
    r
}

/// A relation between the groups of two things, where both have one.
pub struct Link {
    pub from: Option<String>,
    pub relation: String,
    pub to: Option<String>,
}

impl View for Link {
    type V = LinkView;

    open spec fn view(&self) -> LinkView {
        LinkView {
            from: crate::text::opt_text(self.from),
            relation: self.relation@,
            to: crate::text::opt_text(self.to),
        }
    }
}

/// Counts the links that join two different groups.
pub fn count_links(links: Vec<Link>) -> (r: OrderedMap<Triple, Count>)
    ensures
        r.wf(),
        r@ == order::tally(group_triples(links@.map_values(|l: Link| l@))),
{
    let ghost all = links@.map_values(|l: Link| l@);
    let mut r: OrderedMap<Triple, Count> = OrderedMap::new();
    proof {
        assert(all.take(0) =~= Seq::<LinkView>::empty());
        assert(r@ =~= order::tally(group_triples(all.take(0))));
    }
    let mut i: usize = 0;
    while i < links.len()
        invariant
            i <= links.len(),
            all == links@.map_values(|l: Link| l@),
            r.wf(),
            r@ == order::tally(group_triples(all.take(i as int))),
        decreases links.len() - i,
    {
        let ghost before = group_triples(all.take(i as int));
        proof {
            group_triples_bound(all.take(i as int));
            assert(all.take(i + 1).drop_last() =~= all.take(i as int));
            assert(all.take(i + 1).last() == links@[i as int]@);
        }
        if let Some(from) = &links[i].from {
            if let Some(to) = &links[i].to {
                if *from != *to {
                    let key = Triple {
                        first: from.clone(),
                        second: links[i].relation.clone(),
                        third: to.clone(),
                    };
                    count_one(&mut r, key, Ghost(before));
                }
            }
        }
        i += 1;
    }
    assert(all.take(i as int) =~= all);
    r
}

/// The views of triples.
pub open spec fn triple_views(s: Seq<Triple>) -> Seq<(Seq<char>, Seq<char>, Seq<char>)> {
    s.map_values(|t: Triple| t@)
}

/// Counts triples.
pub fn count_triples(list: &Vec<Triple>) -> (r: OrderedMap<Triple, Count>)
    ensures
        r.wf(),
        r@ == order::tally(triple_views(list@)),
{
    let ghost all = triple_views(list@);
    let mut r: OrderedMap<Triple, Count> = OrderedMap::new();
    proof {
        assert(all.take(0) =~= Seq::<(Seq<char>, Seq<char>, Seq<char>)>::empty());
        assert(r@ =~= order::tally(all.take(0)));
    }
    let mut i: usize = 0;
    while i < list.len()
        invariant
            i <= list.len(),
            all == triple_views(list@),
            r.wf(),
            r@ == order::tally(all.take(i as int)),
        decreases list.len() - i,
    {
        let key = Triple {
            first: list[i].first.clone(),
            second: list[i].second.clone(),
            third: list[i].third.clone(),
        };
        count_one(&mut r, key, Ghost(all.take(i as int)));
        assert(all.take(i + 1) =~= all.take(i as int).push(all[i as int]));
        i += 1;
    }
    assert(all.take(i as int) =~= all);
    r
}

/// The views of key and value pairs.
pub open spec fn pair_views(pairs: Seq<(String, String)>) -> Seq<(Seq<char>, Seq<char>)> {
    pairs.map_values(|p: (String, String)| (p.0@, p.1@))
}

/// The map of key and value pairs, a later pair in place of an earlier one.
pub fn map_of_pairs(pairs: &Vec<(String, String)>) -> (r: OrderedMap<String, String>)
    ensures
        r.wf(),
        r@ == pair_map(pair_views(pairs@)),
{
    let ghost all = pair_views(pairs@);
    let mut r: OrderedMap<String, String> = OrderedMap::new();
    let mut i: usize = 0;
    assert(all.take(0) =~= Seq::<(Seq<char>, Seq<char>)>::empty());
    while i < pairs.len()
        invariant
            i <= pairs.len(),
            all == pair_views(pairs@),
            r.wf(),
            r@ == pair_map(all.take(i as int)),
        decreases pairs.len() - i,
    {
        r.insert(pairs[i].0.clone(), pairs[i].1.clone());
        assert(all.take(i + 1).drop_last() =~= all.take(i as int));
        assert(all.take(i + 1).last() == (pairs@[i as int].0@, pairs@[i as int].1@));
        i += 1;
    }
    assert(all.take(i as int) =~= all);
    r
}

/// The value of a key, where it has one.
pub fn find_value(m: &OrderedMap<String, String>, key: &String) -> (r: Option<String>)
    requires
        m.wf(),
    ensures
        crate::text::opt_text(r) == lookup(m@, key@),
{
    match m.get(key) {
        Some(v) => Some(v.clone()),
        None => None,
    }
}

/// Counts texts.
pub fn count_texts(list: &Vec<String>) -> (r: OrderedMap<String, Count>)
    ensures
        r.wf(),
        r@ == order::tally(crate::text::texts(list@)),
{
    let ghost all = crate::text::texts(list@);
    let mut r: OrderedMap<String, Count> = OrderedMap::new();
    proof {
        assert(all.take(0) =~= Seq::<Seq<char>>::empty());
        assert(r@ =~= order::tally(all.take(0)));
    }
    let mut i: usize = 0;
    while i < list.len()
        invariant
            i <= list.len(),
            all == crate::text::texts(list@),
            r.wf(),
            r@ == order::tally(all.take(i as int)),
        decreases list.len() - i,
    {
        count_one(&mut r, list[i].clone(), Ghost(all.take(i as int)));
        assert(all.take(i + 1) =~= all.take(i as int).push(all[i as int]));
        i += 1;
    }
    assert(all.take(i as int) =~= all);
    r
}

/// How many different texts a list holds.
pub fn count_distinct(list: &Vec<String>) -> (n: usize)
    ensures
        n == order::distinct(crate::text::texts(list@)),
{
    let counts = count_texts(list);
    counts.distinct_keys(Ghost(crate::text::texts(list@)))
}

} // verus!
