//! What holds of every graph of groups: each group has one node, edges join different groups that
//! are there, and their weights add up to the relations they stand for.
use vstd::prelude::*;
use crate::aggregate::LinkView;
use crate::code_graph::CodeGrouping;
use crate::graph::{DraftView, EdgeView, ModelView, NodeView};
use crate::records::{CodeRelation, CodeSymbol, MemoryEdge, MemoryEntity, MemoryGraph};
use crate::{aggregate, code_graph, file_paths, graph, memory_graph, order};

verus! {

/// Texts with the same prefix differ where the rest does.
pub(crate) proof fn lemma_prefix_injective(p: Seq<char>, a: Seq<char>, b: Seq<char>)
    requires
        p + a == p + b,
    ensures
        a == b,
{
    assert(a =~= (p + a).skip(p.len() as int));
    assert(b =~= (p + b).skip(p.len() as int));
}

pub(crate) proof fn lemma_tally_lists<K: order::KeyOrder>(s: Seq<K>)
    ensures
        order::lists(order::sorted_entries(order::tally(s)), order::tally(s)),
{
    vstd::seq_lib::seq_to_set_is_finite(s);
    assert(order::tally(s).dom() =~= s.to_set());
    order::listing_exists(order::tally(s));
}

// ---------------------------------------------------------------------------
// Weights
// ---------------------------------------------------------------------------

/// How often the keys occur together.
spec fn occurrences_of_all<K>(keys: Seq<K>, s: Seq<K>) -> nat
    decreases keys.len(),
{
    if keys.len() == 0 {
        0
    } else {
        occurrences_of_all(keys.drop_last(), s) + order::occurrences(s, keys.last())
    }
}

proof fn lemma_one_more<K>(keys: Seq<K>, s: Seq<K>)
    requires
        keys.no_duplicates(),
        s.len() > 0,
    ensures
        occurrences_of_all(keys, s) == occurrences_of_all(keys, s.drop_last()) + (if keys.contains(
            s.last(),
        ) {
            1nat
        } else {
            0
        }),
    decreases keys.len(),
{
    if keys.len() > 0 {
        let front = keys.drop_last();
        assert(front.no_duplicates());
        lemma_one_more(front, s);
        let x = s.last();
        if keys.last() == x {
            assert(keys.contains(x)) by {
                assert(keys[keys.len() - 1] == x);
            }
            assert(!front.contains(x)) by {
                if front.contains(x) {
                    let i = choose|i: int| 0 <= i < front.len() && front[i] == x;
                    assert(keys[i] == x && keys[keys.len() - 1] == x);
                }
            }
        } else {
            assert(front.contains(x) == keys.contains(x)) by {
                if keys.contains(x) {
                    let i = choose|i: int| 0 <= i < keys.len() && keys[i] == x;
                    assert(front[i] == x);
                }
                if front.contains(x) {
                    let i = choose|i: int| 0 <= i < front.len() && front[i] == x;
                    assert(keys[i] == x);
                }
            }
        }
    }
}

proof fn lemma_all_counted<K>(keys: Seq<K>, s: Seq<K>)
    requires
        keys.no_duplicates(),
        forall|i: int| 0 <= i < s.len() ==> keys.contains(#[trigger] s[i]),
    ensures
        occurrences_of_all(keys, s) == s.len(),
    decreases s.len(),
{
    if s.len() > 0 {
        let front = s.drop_last();
        assert forall|i: int| 0 <= i < front.len() implies keys.contains(#[trigger] front[i]) by {
            assert(keys.contains(s[i]));
        }
        lemma_all_counted(keys, front);
        lemma_one_more(keys, s);
        assert(keys.contains(s[s.len() - 1]));
    } else {
        lemma_none_counted(keys, s);
    }
}

proof fn lemma_none_counted<K>(keys: Seq<K>, s: Seq<K>)
    requires
        s.len() == 0,
    ensures
        occurrences_of_all(keys, s) == 0,
    decreases keys.len(),
{
    if keys.len() > 0 {
        lemma_none_counted(keys.drop_last(), s);
    }
}

/// What edges weigh together.
pub open spec fn weight_sum(edges: Seq<EdgeView>) -> nat
    decreases edges.len(),
{
    if edges.len() == 0 {
        0
    } else {
        weight_sum(edges.drop_last()) + edges.last().weight
    }
}

proof fn lemma_weight_sum(
    edges: Seq<EdgeView>,
    entries: Seq<((Seq<char>, Seq<char>, Seq<char>), nat)>,
    s: Seq<(Seq<char>, Seq<char>, Seq<char>)>,
)
    requires
        edges.len() == entries.len(),
        forall|i: int| 0 <= i < edges.len() ==> (#[trigger] edges[i]).weight == entries[i].1,
        forall|i: int|
            0 <= i < entries.len() ==> (#[trigger] entries[i]).1 == order::occurrences(
                s,
                entries[i].0,
            ),
    ensures
        weight_sum(edges) == occurrences_of_all(
            entries.map_values(|e: ((Seq<char>, Seq<char>, Seq<char>), nat)| e.0),
            s,
        ),
    decreases edges.len(),
{
    let keys = entries.map_values(|e: ((Seq<char>, Seq<char>, Seq<char>), nat)| e.0);
    if edges.len() > 0 {
        lemma_weight_sum(edges.drop_last(), entries.drop_last(), s);
        let front = entries.drop_last();
        assert(keys.drop_last() =~= front.map_values(
            |e: ((Seq<char>, Seq<char>, Seq<char>), nat)| e.0,
        ));
        assert(entries[entries.len() - 1].1 == order::occurrences(s, keys.last()));
        assert(edges[edges.len() - 1].weight == entries[entries.len() - 1].1);
    }
}

proof fn lemma_listing_weights(
    edges: Seq<EdgeView>,
    s: Seq<(Seq<char>, Seq<char>, Seq<char>)>,
)
    requires
        edges.len() == order::sorted_entries(order::tally(s)).len(),
        forall|i: int|
            0 <= i < edges.len() ==> (#[trigger] edges[i]).weight == order::sorted_entries(
                order::tally(s),
            )[i].1,
    ensures
        weight_sum(edges) == s.len(),
{
    let entries = order::sorted_entries(order::tally(s));
    lemma_tally_lists(s);
    assert forall|i: int| 0 <= i < entries.len() implies (#[trigger] entries[i]).1
        == order::occurrences(s, entries[i].0) by {
        assert(order::tally(s).contains_pair(entries[i].0, entries[i].1));
    }
    lemma_weight_sum(edges, entries, s);
    let keys = entries.map_values(|e: ((Seq<char>, Seq<char>, Seq<char>), nat)| e.0);
    assert(keys.no_duplicates()) by {
        assert forall|i: int, j: int| 0 <= i < j < keys.len() implies keys[i] != keys[j] by {
            assert(entries[i].0 == keys[i] && entries[j].0 == keys[j]);
            order::KeyOrder::irreflexive(keys[i]);
        }
    }
    assert forall|i: int| 0 <= i < s.len() implies keys.contains(#[trigger] s[i]) by {
        assert(s.contains(s[i]));
        assert(order::tally(s).dom().contains(s[i]));
        let k = choose|k: int| 0 <= k < entries.len() && (#[trigger] entries[k]).0 == s[i];
        assert(keys[k] == s[i]);
    }
    lemma_all_counted(keys, s);
}

/// The weights of edges between groups add up to the relations that join two groups.
pub proof fn group_weights_add_up(
    edge_prefix: Seq<char>,
    node_prefix: Seq<char>,
    triples: Seq<(Seq<char>, Seq<char>, Seq<char>)>,
)
    ensures
        weight_sum(aggregate::group_edges(edge_prefix, node_prefix, triples)) == triples.len(),
{
    lemma_listing_weights(
        aggregate::group_edges(edge_prefix, node_prefix, triples),
        triples,
    );
}

/// The weights of edges between nodes add up to the relations that join two nodes.
pub proof fn direct_weights_add_up(
    edge_prefix: Seq<char>,
    kind: crate::graph::GraphEdgeKind,
    triples: Seq<(Seq<char>, Seq<char>, Seq<char>)>,
)
    ensures
        weight_sum(aggregate::direct_edges(edge_prefix, kind, triples)) == triples.len(),
{
    lemma_listing_weights(aggregate::direct_edges(edge_prefix, kind, triples), triples);
}

// ---------------------------------------------------------------------------
// Groups
// ---------------------------------------------------------------------------

pub(crate) proof fn lemma_triple_origin(links: Seq<LinkView>, i: int) -> (k: int)
    requires
        0 <= i < aggregate::group_triples(links).len(),
    ensures
        0 <= k < links.len(),
        aggregate::joins_groups(links[k]),
        aggregate::group_triples(links)[i] == (
            links[k].from->0,
            links[k].relation,
            links[k].to->0,
        ),
    decreases links.len(),
{
    let before = aggregate::group_triples(links.drop_last());
    if i < before.len() {
        let k = lemma_triple_origin(links.drop_last(), i);
        assert(links.drop_last()[k] == links[k]);
        k
    } else {
        links.len() - 1
    }
}

/// Each edge between groups comes from a link that joins two different ones.
proof fn lemma_group_edge_origin(
    edge_prefix: Seq<char>,
    node_prefix: Seq<char>,
    links: Seq<LinkView>,
    i: int,
) -> (k: int)
    requires
        0 <= i < aggregate::group_edges(
            edge_prefix,
            node_prefix,
            aggregate::group_triples(links),
        ).len(),
    ensures
        0 <= k < links.len(),
        aggregate::joins_groups(links[k]),
        ({
            let e = aggregate::group_edges(
                edge_prefix,
                node_prefix,
                aggregate::group_triples(links),
            )[i];
            e.from == node_prefix + links[k].from->0 && e.to == node_prefix + links[k].to->0
        }),
{
    let triples = aggregate::group_triples(links);
    let entries = order::sorted_entries(order::tally(triples));
    lemma_tally_lists(triples);
    assert(order::tally(triples).contains_pair(entries[i].0, entries[i].1));
    assert(triples.contains(entries[i].0));
    let o = choose|o: int| 0 <= o < triples.len() && triples[o] == entries[i].0;
    lemma_triple_origin(links, o)
}

/// Whether a node has the id.
spec fn has_id(nodes: Seq<NodeView>, id: Seq<char>) -> bool {
    exists|i: int| 0 <= i < nodes.len() && (#[trigger] nodes[i]).id == id
}

proof fn lemma_group_nodes(groups: Seq<Seq<char>>, nodes: Seq<NodeView>, prefix: Seq<char>)
    requires
        nodes.len() == order::sorted_entries(order::tally(groups)).len(),
        forall|i: int|
            0 <= i < nodes.len() ==> (#[trigger] nodes[i]).id == prefix + order::sorted_entries(
                order::tally(groups),
            )[i].0,
    ensures
        forall|i: int, j: int|
            0 <= i < j < nodes.len() ==> (#[trigger] nodes[i]).id != (#[trigger] nodes[j]).id,
        forall|k: int|
            0 <= k < groups.len() ==> has_id(nodes, prefix + #[trigger] groups[k]),
{
    let entries = order::sorted_entries(order::tally(groups));
    lemma_tally_lists(groups);
    assert forall|i: int, j: int| 0 <= i < j < nodes.len() implies (#[trigger] nodes[i]).id != (
    #[trigger] nodes[j]).id by {
        order::KeyOrder::irreflexive(entries[i].0);
        assert(order::text_before(entries[i].0, entries[j].0));
        if nodes[i].id == nodes[j].id {
            lemma_prefix_injective(prefix, entries[i].0, entries[j].0);
        }
    }
    assert forall|k: int| 0 <= k < groups.len() implies has_id(
        nodes,
        prefix + #[trigger] groups[k],
    ) by {
        assert(groups.contains(groups[k]));
        assert(order::tally(groups).dom().contains(groups[k]));
        let i = choose|i: int| 0 <= i < entries.len() && (#[trigger] entries[i]).0 == groups[k];
        assert(nodes[i].id == prefix + groups[k]);
    }
}

pub(crate) proof fn lemma_pair_map_origin(pairs: Seq<(Seq<char>, Seq<char>)>, id: Seq<char>)
    ensures
        aggregate::lookup(aggregate::pair_map(pairs), id) matches Some(v) ==> exists|k: int|
            0 <= k < pairs.len() && #[trigger] pairs[k] == (id, v),
        (exists|k: int| 0 <= k < pairs.len() && (#[trigger] pairs[k]).0 == id) ==> aggregate::lookup(
            aggregate::pair_map(pairs),
            id,
        ) is Some,
    decreases pairs.len(),
{
    if pairs.len() > 0 {
        let front = pairs.drop_last();
        lemma_pair_map_origin(front, id);
        if pairs.last().0 == id {
            assert(pairs[pairs.len() - 1] == (id, pairs.last().1));
        } else {
            if let Some(v) = aggregate::lookup(aggregate::pair_map(pairs), id) {
                let k = choose|k: int| 0 <= k < front.len() && #[trigger] front[k] == (id, v);
                assert(pairs[k] == (id, v));
            }
            if exists|k: int| 0 <= k < pairs.len() && (#[trigger] pairs[k]).0 == id {
                let k = choose|k: int| 0 <= k < pairs.len() && (#[trigger] pairs[k]).0 == id;
                assert(front[k].0 == id);
            }
        }
    }
}

/// The graph of kinds, files or directories has one node for each, joins only different ones that
/// are there, and its weights add up to the relations that join two.
pub proof fn code_group_model_is_whole(
    by: CodeGrouping,
    symbols: Seq<CodeSymbol>,
    relations: Seq<CodeRelation>,
)
    ensures
        code_graph::code_group_model(by, symbols, relations).unique_nodes(),
        code_graph::code_group_model(by, symbols, relations).loop_free(),
        code_graph::code_group_model(by, symbols, relations).closed(),
        forall|i: int|
            0 <= i < symbols.len() ==> code_graph::code_group_model(
                by,
                symbols,
                relations,
            ).has_node(code_graph::code_node_prefix(by) + code_graph::code_group(
                by,
                #[trigger] symbols[i],
            )),
        weight_sum(code_graph::code_group_model(by, symbols, relations).edges)
            == aggregate::group_triples(
            code_graph::code_links(
                aggregate::pair_map(code_graph::grouped_symbols(by, symbols)),
                relations,
            ),
        ).len(),
{
    let m = code_graph::code_group_model(by, symbols, relations);
    let names = code_graph::code_groups(by, symbols);
    let pairs = code_graph::grouped_symbols(by, symbols);
    let groups = aggregate::pair_map(pairs);
    let links = code_graph::code_links(groups, relations);
    let np = code_graph::code_node_prefix(by);
    let ep = code_graph::code_edge_prefix(by);
    lemma_group_nodes(names, m.nodes, np);
    group_weights_add_up(ep, np, aggregate::group_triples(links));
    assert forall|i: int| 0 <= i < symbols.len() implies m.has_node(
        np + code_graph::code_group(by, #[trigger] symbols[i]),
    ) by {
        assert(names[i] == code_graph::code_group(by, symbols[i]));
    }
    assert forall|i: int| 0 <= i < m.edges.len() implies (#[trigger] m.edges[i]).from
        != m.edges[i].to && m.has_node(m.edges[i].from) && m.has_node(m.edges[i].to) by {
        let k = lemma_group_edge_origin(ep, np, links, i);
        let from = links[k].from->0;
        let to = links[k].to->0;
        if np + from == np + to {
            lemma_prefix_injective(np, from, to);
        }
        let r = relations[k];
        lemma_pair_map_origin(pairs, r.from_symbol_id->0@);
        lemma_pair_map_origin(pairs, r.target_symbol_id->0@);
        let a = choose|a: int|
            0 <= a < pairs.len() && #[trigger] pairs[a] == (r.from_symbol_id->0@, from);
        assert(names[a] == from);
        let b = choose|b: int|
            0 <= b < pairs.len() && #[trigger] pairs[b] == (r.target_symbol_id->0@, to);
        assert(names[b] == to);
    }
}

proof fn lemma_tally_length<K: order::KeyOrder>(s: Seq<K>)
    ensures
        order::sorted_entries(order::tally(s)).len() == order::distinct(s),
{
    lemma_tally_lists(s);
    order::lemma_listing_length(order::sorted_entries(order::tally(s)), order::tally(s));
    assert(order::tally(s).dom() =~= s.to_set());
}

/// Whether a key is made of one of a list.
spec fn is_made_of<A, B>(x: B, a: Seq<A>, f: spec_fn(A) -> B) -> bool {
    exists|k: int| 0 <= k < a.len() && f(#[trigger] a[k]) == x
}

/// Where every key of one list is made of one of another, no more keys occur in it.
proof fn lemma_no_more_keys<A, B>(a: Seq<A>, b: Seq<B>, f: spec_fn(A) -> B)
    requires
        forall|i: int| 0 <= i < b.len() ==> is_made_of(#[trigger] b[i], a, f),
    ensures
        order::distinct(b) <= order::distinct(a),
{
    let from = a.to_set();
    let to = from.map(f);
    vstd::seq_lib::seq_to_set_is_finite(a);
    vstd::set_lib::lemma_map_size_bound(from, to, f);
    assert forall|x: B| b.to_set().contains(x) implies to.contains(x) by {
        let i = choose|i: int| 0 <= i < b.len() && b[i] == x;
        assert(is_made_of(b[i], a, f));
        let k = choose|k: int| 0 <= k < a.len() && f(#[trigger] a[k]) == b[i];
        assert(from.contains(a[k]));
    }
    vstd::set_lib::lemma_len_subset(b.to_set(), to);
}

/// A symbol has a directory exactly where it has a file, and it is that of the file.
proof fn lemma_directory_of_file(symbols: Seq<CodeSymbol>, id: Seq<char>)
    ensures
        aggregate::lookup(
            aggregate::pair_map(code_graph::grouped_symbols(CodeGrouping::Directory, symbols)),
            id,
        ) == (match aggregate::lookup(
            aggregate::pair_map(code_graph::grouped_symbols(CodeGrouping::File, symbols)),
            id,
        ) {
            Some(file) => Some(file_paths::code_directory_text(file)),
            None => None,
        }),
    decreases symbols.len(),
{
    if symbols.len() > 0 {
        lemma_directory_of_file(symbols.drop_last(), id);
        let files = code_graph::grouped_symbols(CodeGrouping::File, symbols);
        let dirs = code_graph::grouped_symbols(CodeGrouping::Directory, symbols);
        assert(files.drop_last() =~= code_graph::grouped_symbols(
            CodeGrouping::File,
            symbols.drop_last(),
        ));
        assert(dirs.drop_last() =~= code_graph::grouped_symbols(
            CodeGrouping::Directory,
            symbols.drop_last(),
        ));
    }
}

pub(crate) proof fn lemma_link_makes_triple(links: Seq<LinkView>, k: int) -> (i: int)
    requires
        0 <= k < links.len(),
        aggregate::joins_groups(links[k]),
    ensures
        0 <= i < aggregate::group_triples(links).len(),
        aggregate::group_triples(links)[i] == (
            links[k].from->0,
            links[k].relation,
            links[k].to->0,
        ),
    decreases links.len(),
{
    let before = aggregate::group_triples(links.drop_last());
    if k == links.len() - 1 {
        before.len() as int
    } else {
        assert(links.drop_last()[k] == links[k]);
        lemma_link_makes_triple(links.drop_last(), k)
    }
}

/// The graph of directories is no larger than that of files: it has no more nodes, no more edges,
/// and its edges weigh no more together.
pub proof fn directories_are_no_more_than_files(
    symbols: Seq<CodeSymbol>,
    relations: Seq<CodeRelation>,
)
    ensures
        ({
            let dirs = code_graph::code_group_model(CodeGrouping::Directory, symbols, relations);
            let files = code_graph::code_group_model(CodeGrouping::File, symbols, relations);
            &&& dirs.nodes.len() <= files.nodes.len()
            &&& dirs.edges.len() <= files.edges.len()
            &&& weight_sum(dirs.edges) <= weight_sum(files.edges)
        }),
{
    let file_names = code_graph::code_groups(CodeGrouping::File, symbols);
    let dir_names = code_graph::code_groups(CodeGrouping::Directory, symbols);
    lemma_tally_length(file_names);
    lemma_tally_length(dir_names);
    let dir_of = |file: Seq<char>| file_paths::code_directory_text(file);
    assert forall|i: int| 0 <= i < dir_names.len() implies is_made_of(
        #[trigger] dir_names[i],
        file_names,
        dir_of,
    ) by {
        assert(dir_of(file_names[i]) == dir_names[i]);
    }
    lemma_no_more_keys(file_names, dir_names, dir_of);
    let file_links = code_graph::code_links(
        aggregate::pair_map(code_graph::grouped_symbols(CodeGrouping::File, symbols)),
        relations,
    );
    let dir_links = code_graph::code_links(
        aggregate::pair_map(code_graph::grouped_symbols(CodeGrouping::Directory, symbols)),
        relations,
    );
    assert forall|k: int| 0 <= k < relations.len() implies is_directory_link(
        #[trigger] file_links[k],
        dir_links[k],
    ) by {
        let r = relations[k];
        if r.from_symbol_id is Some {
            lemma_directory_of_file(symbols, r.from_symbol_id->0@);
        }
        if r.target_symbol_id is Some {
            lemma_directory_of_file(symbols, r.target_symbol_id->0@);
        }
    }
    let file_triples = aggregate::group_triples(file_links);
    let dir_triples = aggregate::group_triples(dir_links);
    lemma_tally_length(file_triples);
    lemma_tally_length(dir_triples);
    let triple_of = |t: (Seq<char>, Seq<char>, Seq<char>)| (dir_of(t.0), t.1, dir_of(t.2));
    assert forall|i: int| 0 <= i < dir_triples.len() implies is_made_of(
        #[trigger] dir_triples[i],
        file_triples,
        triple_of,
    ) by {
        let l = lemma_triple_origin(dir_links, i);
        assert(is_directory_link(file_links[l], dir_links[l]));
        let k = lemma_link_makes_triple(file_links, l);
        assert(triple_of(file_triples[k]) == dir_triples[i]);
    }
    lemma_no_more_keys(file_triples, dir_triples, triple_of);
    lemma_no_more_triples(file_links, dir_links);
    code_group_model_is_whole(CodeGrouping::File, symbols, relations);
    code_group_model_is_whole(CodeGrouping::Directory, symbols, relations);
}

/// Whether a link joins the directories of the files that another joins.
spec fn is_directory_link(file: LinkView, dir: LinkView) -> bool {
    &&& dir.from == directory_of(file.from)
    &&& dir.relation == file.relation
    &&& dir.to == directory_of(file.to)
}

spec fn directory_of(file: Option<Seq<char>>) -> Option<Seq<char>> {
    match file {
        Some(f) => Some(file_paths::code_directory_text(f)),
        None => None,
    }
}

proof fn lemma_no_more_triples(files: Seq<LinkView>, dirs: Seq<LinkView>)
    requires
        files.len() == dirs.len(),
        forall|k: int| 0 <= k < files.len() ==> is_directory_link(#[trigger] files[k], dirs[k]),
    ensures
        aggregate::group_triples(dirs).len() <= aggregate::group_triples(files).len(),
    decreases files.len(),
{
    if files.len() > 0 {
        let (a, b) = (files.drop_last(), dirs.drop_last());
        assert forall|k: int| 0 <= k < a.len() implies is_directory_link(#[trigger] a[k], b[k]) by {
            assert(is_directory_link(files[k], dirs[k]));
        }
        lemma_no_more_triples(a, b);
        assert(is_directory_link(files[files.len() - 1], dirs[files.len() - 1]));
    }
}

/// Whether both ends of a relation are known entities.
pub open spec fn ends_known(edge: MemoryEdge, entities: Seq<MemoryEntity>) -> bool {
    &&& exists|k: int| 0 <= k < entities.len() && (#[trigger] entities[k]).id@ == edge.from_entity_id@
    &&& exists|k: int| 0 <= k < entities.len() && (#[trigger] entities[k]).id@ == edge.to_entity_id@
}

proof fn lemma_known_group(
    pairs: Seq<(Seq<char>, Seq<char>)>,
    names: Seq<Seq<char>>,
    id: Seq<char>,
    default: Seq<char>,
) -> (k: int)
    requires
        pairs.len() == names.len(),
        forall|i: int| 0 <= i < pairs.len() ==> (#[trigger] pairs[i]).1 == names[i],
        exists|i: int| 0 <= i < pairs.len() && (#[trigger] pairs[i]).0 == id,
    ensures
        0 <= k < names.len(),
        names[k] == memory_graph::group_or(aggregate::pair_map(pairs), id, default),
{
    lemma_pair_map_origin(pairs, id);
    let v = aggregate::lookup(aggregate::pair_map(pairs), id)->0;
    let k = choose|k: int| 0 <= k < pairs.len() && #[trigger] pairs[k] == (id, v);
    assert(pairs[k].1 == names[k]);
    k
}

proof fn lemma_entity_groups(
    entities: Seq<MemoryEntity>,
    edges: Seq<MemoryEdge>,
    pairs: Seq<(Seq<char>, Seq<char>)>,
    names: Seq<Seq<char>>,
    default: Seq<char>,
    edge_prefix: Seq<char>,
    node_prefix: Seq<char>,
    m: ModelView,
)
    requires
        pairs.len() == entities.len(),
        names.len() == entities.len(),
        forall|i: int|
            0 <= i < entities.len() ==> (#[trigger] pairs[i]) == (entities[i].id@, names[i]),
        m.nodes.len() == order::sorted_entries(order::tally(names)).len(),
        forall|i: int|
            0 <= i < m.nodes.len() ==> (#[trigger] m.nodes[i]).id == node_prefix
                + order::sorted_entries(order::tally(names))[i].0,
        m.edges == aggregate::group_edges(
            edge_prefix,
            node_prefix,
            aggregate::group_triples(
                memory_graph::entity_links(edges, aggregate::pair_map(pairs), default),
            ),
        ),
    ensures
        m.unique_nodes(),
        m.loop_free(),
        (forall|i: int| 0 <= i < edges.len() ==> ends_known(#[trigger] edges[i], entities))
            ==> m.closed(),
        weight_sum(m.edges) == aggregate::group_triples(
            memory_graph::entity_links(edges, aggregate::pair_map(pairs), default),
        ).len(),
{
    let links = memory_graph::entity_links(edges, aggregate::pair_map(pairs), default);
    lemma_group_nodes(names, m.nodes, node_prefix);
    group_weights_add_up(edge_prefix, node_prefix, aggregate::group_triples(links));
    assert forall|i: int| 0 <= i < m.edges.len() implies (#[trigger] m.edges[i]).from
        != m.edges[i].to by {
        let k = lemma_group_edge_origin(edge_prefix, node_prefix, links, i);
        if m.edges[i].from == m.edges[i].to {
            lemma_prefix_injective(node_prefix, links[k].from->0, links[k].to->0);
        }
    }
    if forall|i: int| 0 <= i < edges.len() ==> ends_known(#[trigger] edges[i], entities) {
        assert forall|i: int| 0 <= i < m.edges.len() implies m.has_node(
            (#[trigger] m.edges[i]).from,
        ) && m.has_node(m.edges[i].to) by {
            let k = lemma_group_edge_origin(edge_prefix, node_prefix, links, i);
            let e = edges[k];
            assert(ends_known(edges[k], entities));
            let a = choose|a: int|
                0 <= a < entities.len() && (#[trigger] entities[a]).id@ == e.from_entity_id@;
            assert(pairs[a].0 == e.from_entity_id@);
            let b = choose|b: int|
                0 <= b < entities.len() && (#[trigger] entities[b]).id@ == e.to_entity_id@;
            assert(pairs[b].0 == e.to_entity_id@);
            assert forall|j: int| 0 <= j < pairs.len() implies (#[trigger] pairs[j]).1
                == names[j] by {}
            let f = lemma_known_group(pairs, names, e.from_entity_id@, default);
            let t = lemma_known_group(pairs, names, e.to_entity_id@, default);
            assert(names[f] == links[k].from->0);
            assert(names[t] == links[k].to->0);
        }
    }
}

/// The graph of entity types has one node for each, joins only different ones, and its weights
/// add up to the relations that join two. Where the ends of all relations are known, its edges
/// join nodes that are there.
pub proof fn type_model_is_whole(g: MemoryGraph)
    requires
        g.entities@.len() > 0,
    ensures
        memory_graph::type_model(g).unique_nodes(),
        memory_graph::type_model(g).loop_free(),
        (forall|i: int| 0 <= i < g.edges@.len() ==> ends_known(#[trigger] g.edges@[i], g.entities@))
            ==> memory_graph::type_model(g).closed(),
        weight_sum(memory_graph::type_model(g).edges) == aggregate::group_triples(
            memory_graph::entity_links(
                g.edges@,
                aggregate::pair_map(memory_graph::typed_entities(g.entities@)),
                "concept"@,
            ),
        ).len(),
{
    lemma_entity_groups(
        g.entities@,
        g.edges@,
        memory_graph::typed_entities(g.entities@),
        memory_graph::entity_types(g.entities@),
        "concept"@,
        "type-edge:"@,
        "type:"@,
        memory_graph::type_model(g),
    );
}

/// The graph of clusters has one node for each, joins only different ones, and its weights add up
/// to the relations that join two. Where the ends of all relations are known, its edges join
/// nodes that are there.
pub proof fn memory_cluster_model_is_whole(g: MemoryGraph)
    requires
        g.entities@.len() > 0,
    ensures
        memory_graph::memory_cluster_model(g).unique_nodes(),
        memory_graph::memory_cluster_model(g).loop_free(),
        (forall|i: int| 0 <= i < g.edges@.len() ==> ends_known(#[trigger] g.edges@[i], g.entities@))
            ==> memory_graph::memory_cluster_model(g).closed(),
        weight_sum(memory_graph::memory_cluster_model(g).edges) == aggregate::group_triples(
            memory_graph::entity_links(
                g.edges@,
                aggregate::pair_map(memory_graph::clustered_entities(g.entities@)),
                "other"@,
            ),
        ).len(),
{
    lemma_entity_groups(
        g.entities@,
        g.edges@,
        memory_graph::clustered_entities(g.entities@),
        memory_graph::entity_clusters(g.entities@),
        "other"@,
        "memory-cluster-edge:"@,
        "memory-cluster:"@,
        memory_graph::memory_cluster_model(g),
    );
}

// ---------------------------------------------------------------------------
// Symbols
// ---------------------------------------------------------------------------

pub(crate) proof fn lemma_with_symbols(d: DraftView, symbols: Seq<CodeSymbol>)
    requires
        d.sound(),
    ensures
        code_graph::with_symbols(d, symbols).sound(),
        code_graph::with_symbols(d, symbols).edges == d.edges,
    decreases symbols.len(),
{
    if symbols.len() > 0 {
        lemma_with_symbols(d, symbols.drop_last());
    }
}

proof fn lemma_symbol_triple_origin(d: DraftView, relations: Seq<CodeRelation>, i: int)
    requires
        0 <= i < code_graph::symbol_triples(d, relations).len(),
    ensures
        d.nodes.dom().contains(code_graph::symbol_triples(d, relations)[i].0),
        d.nodes.dom().contains(code_graph::symbol_triples(d, relations)[i].2),
    decreases relations.len(),
{
    let before = code_graph::symbol_triples(d, relations.drop_last());
    if i < before.len() {
        lemma_symbol_triple_origin(d, relations.drop_last(), i);
    }
}

/// The graph of symbols has one node for each id, its edges join nodes that are there, and its
/// weights add up to the relations between them.
pub proof fn code_symbol_model_is_whole(symbols: Seq<CodeSymbol>, relations: Seq<CodeRelation>)
    ensures
        code_graph::code_symbol_model(symbols, relations).unique_nodes(),
        code_graph::code_symbol_model(symbols, relations).closed(),
        weight_sum(code_graph::code_symbol_model(symbols, relations).edges)
            == code_graph::symbol_triples(
            code_graph::with_symbols(DraftView::empty(), symbols),
            relations,
        ).len(),
{
    let d = code_graph::with_symbols(DraftView::empty(), symbols);
    let m = code_graph::code_symbol_model(symbols, relations);
    lemma_with_symbols(DraftView::empty(), symbols);
    d.sound_model(false);
    let triples = code_graph::symbol_triples(d, relations);
    direct_weights_add_up("code-edge:"@, crate::graph::GraphEdgeKind::CodeRelation, triples);
    let entries = order::sorted_entries(order::tally(triples));
    lemma_tally_lists(triples);
    let plain = d.model(false);
    assert(m.nodes == plain.nodes);
    assert forall|i: int, j: int| 0 <= i < j < m.nodes.len() implies (#[trigger] m.nodes[i]).id
        != (#[trigger] m.nodes[j]).id by {
        assert(plain.nodes[i].id != plain.nodes[j].id);
    }
    assert forall|i: int| 0 <= i < m.edges.len() implies m.has_node((#[trigger] m.edges[i]).from)
        && m.has_node(m.edges[i].to) by {
        assert(order::tally(triples).contains_pair(entries[i].0, entries[i].1));
        assert(triples.contains(entries[i].0));
        let o = choose|o: int| 0 <= o < triples.len() && triples[o] == entries[i].0;
        lemma_symbol_triple_origin(d, relations, o);
        assert(d.nodes.dom().contains(m.edges[i].from));
        assert(d.nodes.dom().contains(m.edges[i].to));
        assert(plain.has_node(m.edges[i].from));
        assert(plain.has_node(m.edges[i].to));
        let a = choose|a: int|
            0 <= a < plain.nodes.len() && (#[trigger] plain.nodes[a]).id == m.edges[i].from;
        assert(m.nodes[a].id == m.edges[i].from);
        let b = choose|b: int|
            0 <= b < plain.nodes.len() && (#[trigger] plain.nodes[b]).id == m.edges[i].to;
        assert(m.nodes[b].id == m.edges[i].to);
    }
}

} // verus!
