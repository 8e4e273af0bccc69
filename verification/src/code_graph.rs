//! Graphs of code: symbols, their kinds, files and directories.
use vstd::prelude::*;
use crate::aggregate::{
    count_distinct, count_links, count_texts, edges_between_groups, edges_between_nodes,
    find_value, map_of_pairs, Link, LinkView,
};
use crate::file_paths::{code_directory, file_label};
use crate::graph::{
    code_dir_node_id, code_file_node_id, code_kind_node_id, code_node_id, symbol_detail, Draft,
    DraftView, GraphEdgeKind, GraphModel, GraphNode, GraphNodeKind, ModelView, NodeView,
};
use crate::order::{count_one, Count, OrderedMap, Triple};
use crate::records::{CodeRelation, CodeSymbol};
use crate::text::{cat2, cat3, cat4, decimal};
use crate::{aggregate, file_paths, graph, order, text};

verus! {

// ---------------------------------------------------------------------------
// Symbols
// ---------------------------------------------------------------------------

/// The node of a code symbol.
pub open spec fn symbol_node(symbol: CodeSymbol) -> NodeView {
    NodeView {
        id: "code:"@ + symbol.id@,
        label: symbol.name@,
        detail: graph::symbol_detail_text(symbol),
        kind: GraphNodeKind::CodeSymbol,
    }
}

/// A draft with the nodes of symbols; a later symbol replaces an earlier one with its id.
pub open spec fn with_symbols(d: DraftView, symbols: Seq<CodeSymbol>) -> DraftView
    decreases symbols.len(),
{
    if symbols.len() == 0 {
        d
    } else {
        with_symbols(d, symbols.drop_last()).put_node(symbol_node(symbols.last()))
    }
}

/// Whether a relation joins two symbols that have nodes.
pub open spec fn joins_nodes(d: DraftView, r: CodeRelation) -> bool {
    &&& r.from_symbol_id is Some
    &&& r.target_symbol_id is Some
    &&& d.nodes.dom().contains("code:"@ + r.from_symbol_id->0@)
    &&& d.nodes.dom().contains("code:"@ + r.target_symbol_id->0@)
}

/// The relations between symbols that have nodes.
pub open spec fn symbol_triples(
    d: DraftView,
    relations: Seq<CodeRelation>,
) -> Seq<(Seq<char>, Seq<char>, Seq<char>)>
    decreases relations.len(),
{
    if relations.len() == 0 {
        Seq::empty()
    } else {
        let before = symbol_triples(d, relations.drop_last());
        let r = relations.last();
        if joins_nodes(d, r) {
            before.push(
                (
                    "code:"@ + r.from_symbol_id->0@,
                    r.relation_kind@,
                    "code:"@ + r.target_symbol_id->0@,
                ),
            )
        } else {
            before
        }
    }
}

/// The graph of symbols: one edge for all relations of one kind between two.
pub open spec fn code_symbol_model(
    symbols: Seq<CodeSymbol>,
    relations: Seq<CodeRelation>,
) -> ModelView {
    let d = with_symbols(DraftView::empty(), symbols);
    ModelView {
        nodes: d.model(false).nodes,
        edges: aggregate::direct_edges(
            "code-edge:"@,
            GraphEdgeKind::CodeRelation,
            symbol_triples(d, relations),
        ),
        fallback: false,
    }
}

proof fn lemma_symbol_triples_bound(d: DraftView, relations: Seq<CodeRelation>)
    ensures
        symbol_triples(d, relations).len() <= relations.len(),
    decreases relations.len(),
{
    if relations.len() > 0 {
        lemma_symbol_triples_bound(d, relations.drop_last());
    }
}

/// Builds the graph of symbols.
pub fn build_code_symbol_model(symbols: &[CodeSymbol], relations: &[CodeRelation]) -> (r:
    GraphModel)
    ensures
        r@ == code_symbol_model(symbols@, relations@),
{
    let mut draft = Draft::new();
    let mut i: usize = 0;
    assert(symbols@.take(0) =~= Seq::<CodeSymbol>::empty());
    while i < symbols.len()
        invariant
            i <= symbols.len(),
            draft.wf(),
            draft@ == with_symbols(DraftView::empty(), symbols@.take(i as int)),
        decreases symbols.len() - i,
    {
        draft.put_node(
            GraphNode {
                id: code_node_id(symbols[i].id.as_str()),
                label: symbols[i].name.clone(),
                detail: symbol_detail(&symbols[i]),
                kind: GraphNodeKind::CodeSymbol,
            },
        );
        assert(symbols@.take(i + 1).drop_last() =~= symbols@.take(i as int));
        i += 1;
    }
    assert(symbols@.take(i as int) =~= symbols@);
    let ghost d = draft@;
    let mut counts: OrderedMap<Triple, Count> = OrderedMap::new();
    proof {
        assert(relations@.take(0) =~= Seq::<CodeRelation>::empty());
        assert(counts@ =~= order::tally(symbol_triples(d, relations@.take(0))));
    }
    let mut k: usize = 0;
    while k < relations.len()
        invariant
            k <= relations.len(),
            draft.wf(),
            d == draft@,
            counts.wf(),
            counts@ == order::tally(symbol_triples(d, relations@.take(k as int))),
        decreases relations.len() - k,
    {
        let ghost before = symbol_triples(d, relations@.take(k as int));
        proof {
            lemma_symbol_triples_bound(d, relations@.take(k as int));
            assert(relations@.take(k + 1).drop_last() =~= relations@.take(k as int));
        }
        if let Some(from_symbol_id) = &relations[k].from_symbol_id {
            if let Some(target_symbol_id) = &relations[k].target_symbol_id {
                let from = code_node_id(from_symbol_id.as_str());
                let to = code_node_id(target_symbol_id.as_str());
                if draft.nodes.contains(&from) && draft.nodes.contains(&to) {
                    let key = Triple {
                        first: from,
                        second: relations[k].relation_kind.clone(),
                        third: to,
                    };
                    count_one(&mut counts, key, Ghost(before));
                }
            }
        }
        k += 1;
    }
    assert(relations@.take(k as int) =~= relations@);
    let edges = edges_between_nodes(
        &counts,
        "code-edge:",
        GraphEdgeKind::CodeRelation,
        Ghost(symbol_triples(d, relations@)),
    );
    let plain = draft.into_model(false);
    GraphModel { nodes: plain.nodes, edges, fallback: false }
}

// ---------------------------------------------------------------------------
// Groups of symbols
// ---------------------------------------------------------------------------

/// What symbols are grouped by.
#[derive(Clone, Copy, Debug, PartialEq, Eq, Structural)]
pub enum CodeGrouping {
    Kind,
    File,
    Directory,
}

/// The group of a symbol.
pub open spec fn code_group(by: CodeGrouping, symbol: CodeSymbol) -> Seq<char> {
    match by {
        CodeGrouping::Kind => symbol.kind@,
        CodeGrouping::File => symbol.file_path@,
        CodeGrouping::Directory => file_paths::code_directory_text(symbol.file_path@),
    }
}

/// The groups of symbols.
pub open spec fn code_groups(by: CodeGrouping, symbols: Seq<CodeSymbol>) -> Seq<Seq<char>> {
    symbols.map_values(|s: CodeSymbol| code_group(by, s))
}

/// Symbol ids with their groups.
pub open spec fn grouped_symbols(
    by: CodeGrouping,
    symbols: Seq<CodeSymbol>,
) -> Seq<(Seq<char>, Seq<char>)> {
    symbols.map_values(|s: CodeSymbol| (s.id@, code_group(by, s)))
}

/// The group of the symbol with an id, where both are known.
pub open spec fn group_of_symbol(
    groups: Map<Seq<char>, Seq<char>>,
    id: Option<String>,
) -> Option<Seq<char>> {
    match id {
        Some(i) => aggregate::lookup(groups, i@),
        None => None,
    }
}

/// The relations between symbols as links between their groups.
pub open spec fn code_links(
    groups: Map<Seq<char>, Seq<char>>,
    relations: Seq<CodeRelation>,
) -> Seq<LinkView> {
    relations.map_values(
        |r: CodeRelation|
            LinkView {
                from: group_of_symbol(groups, r.from_symbol_id),
                relation: r.relation_kind@,
                to: group_of_symbol(groups, r.target_symbol_id),
            },
    )
}

/// The files of the symbols in a directory.
pub open spec fn files_in_directory(symbols: Seq<CodeSymbol>, dir: Seq<char>) -> Seq<Seq<char>>
    decreases symbols.len(),
{
    if symbols.len() == 0 {
        Seq::empty()
    } else {
        let before = files_in_directory(symbols.drop_last(), dir);
        let file = symbols.last().file_path@;
        if file_paths::code_directory_text(file) == dir {
            before.push(file)
        } else {
            before
        }
    }
}

/// What the node ids of a grouping begin with.
pub open spec fn code_node_prefix(by: CodeGrouping) -> Seq<char> {
    match by {
        CodeGrouping::Kind => "code-kind:"@,
        CodeGrouping::File => "code-file:"@,
        CodeGrouping::Directory => "code-dir:"@,
    }
}

/// What the edge ids of a grouping begin with.
pub open spec fn code_edge_prefix(by: CodeGrouping) -> Seq<char> {
    match by {
        CodeGrouping::Kind => "code-kind-edge:"@,
        CodeGrouping::File => "code-file-edge:"@,
        CodeGrouping::Directory => "code-dir-edge:"@,
    }
}

/// The node of a group of `e.1` symbols.
pub open spec fn code_group_node(
    by: CodeGrouping,
    symbols: Seq<CodeSymbol>,
    e: (Seq<char>, nat),
) -> NodeView {
    NodeView {
        id: code_node_prefix(by) + e.0,
        label: match by {
            CodeGrouping::File => file_paths::file_label_text(e.0),
            _ => e.0,
        },
        detail: match by {
            CodeGrouping::Kind => text::decimal_text(e.1) + " симв."@,
            CodeGrouping::File => text::decimal_text(e.1) + " симв. · "@ + e.0,
            CodeGrouping::Directory => text::decimal_text(
                order::distinct(files_in_directory(symbols, e.0)),
            ) + " файлов · "@ + text::decimal_text(e.1) + " симв."@,
        },
        kind: match by {
            CodeGrouping::Kind => GraphNodeKind::Type,
            CodeGrouping::File => GraphNodeKind::CodeFile,
            CodeGrouping::Directory => GraphNodeKind::Cluster,
        },
    }
}

/// The graph of groups: how many symbols each has, how many relations join two.
pub open spec fn code_group_model(
    by: CodeGrouping,
    symbols: Seq<CodeSymbol>,
    relations: Seq<CodeRelation>,
) -> ModelView {
    let groups = aggregate::pair_map(grouped_symbols(by, symbols));
    ModelView {
        nodes: order::sorted_entries(order::tally(code_groups(by, symbols))).map_values(
            |e: (Seq<char>, nat)| code_group_node(by, symbols, e),
        ),
        edges: aggregate::group_edges(
            code_edge_prefix(by),
            code_node_prefix(by),
            aggregate::group_triples(code_links(groups, relations)),
        ),
        fallback: false,
    }
}

/// The group of a symbol.
fn group_symbol(by: CodeGrouping, symbol: &CodeSymbol) -> (r: String)
    ensures
        r@ == code_group(by, *symbol),
{
    match by {
        CodeGrouping::Kind => symbol.kind.clone(),
        CodeGrouping::File => symbol.file_path.clone(),
        CodeGrouping::Directory => code_directory(symbol.file_path.as_str()),
    }
}

/// The group of the symbol with an id, where both are known.
fn find_symbol_group(groups: &OrderedMap<String, String>, id: &Option<String>) -> (r: Option<
    String,
>)
    requires
        groups.wf(),
    ensures
        text::opt_text(r) == group_of_symbol(groups@, *id),
{
    match id {
        Some(i) => find_value(groups, i),
        None => None,
    }
}

/// The number of files in a directory.
fn count_files(symbols: &[CodeSymbol], dir: &String) -> (n: usize)
    ensures
        n == order::distinct(files_in_directory(symbols@, dir@)),
{
    let mut files: Vec<String> = Vec::new();
    let mut i: usize = 0;
    assert(symbols@.take(0) =~= Seq::<CodeSymbol>::empty());
    assert(text::texts(files@) =~= Seq::<Seq<char>>::empty());
    while i < symbols.len()
        invariant
            i <= symbols.len(),
            text::texts(files@) == files_in_directory(symbols@.take(i as int), dir@),
        decreases symbols.len() - i,
    {
        assert(symbols@.take(i + 1).drop_last() =~= symbols@.take(i as int));
        let found = code_directory(symbols[i].file_path.as_str());
        if found == *dir {
            let ghost before = files@;
            files.push(symbols[i].file_path.clone());
            assert(text::texts(files@) =~= text::texts(before).push(
                symbols@[i as int].file_path@,
            ));
        }
        i += 1;
    }
    assert(symbols@.take(i as int) =~= symbols@);
    count_distinct(&files)
}

/// The node of a group of symbols.
fn group_node(by: CodeGrouping, symbols: &[CodeSymbol], name: &String, count: usize) -> (r:
    GraphNode)
    ensures
        r@ == code_group_node(by, symbols@, (name@, count as nat)),
{
    let n = decimal(count as u64);
    match by {
        CodeGrouping::Kind => GraphNode {
            id: code_kind_node_id(name.as_str()),
            label: name.clone(),
            detail: cat2(n.as_str(), " симв."),
            kind: GraphNodeKind::Type,
        },
        CodeGrouping::File => GraphNode {
            id: code_file_node_id(name.as_str()),
            label: file_label(name.as_str()),
            detail: cat3(n.as_str(), " симв. · ", name.as_str()),
            kind: GraphNodeKind::CodeFile,
        },
        CodeGrouping::Directory => {
            let files = decimal(count_files(symbols, name) as u64);
            GraphNode {
                id: code_dir_node_id(name.as_str()),
                label: name.clone(),
                detail: cat4(files.as_str(), " файлов · ", n.as_str(), " симв."),
                kind: GraphNodeKind::Cluster,
            }
        },
    }
}

/// Builds the graph of groups of symbols.
fn build_code_group_model(
    by: CodeGrouping,
    symbols: &[CodeSymbol],
    relations: &[CodeRelation],
) -> (r: GraphModel)
    ensures
        r@ == code_group_model(by, symbols@, relations@),
{
    let mut names: Vec<String> = Vec::new();
    let mut pairs: Vec<(String, String)> = Vec::new();
    let mut i: usize = 0;
    while i < symbols.len()
        invariant
            i <= symbols.len(),
            names.len() == i,
            pairs.len() == i,
            forall|j: int| 0 <= j < i ==> (#[trigger] names@[j])@ == code_groups(by, symbols@)[j],
            forall|j: int|
                0 <= j < i ==> ((#[trigger] pairs@[j]).0@, pairs@[j].1@) == grouped_symbols(
                    by,
                    symbols@,
                )[j],
        decreases symbols.len() - i,
    {
        names.push(group_symbol(by, &symbols[i]));
        pairs.push((symbols[i].id.clone(), group_symbol(by, &symbols[i])));
        i += 1;
    }
    assert(text::texts(names@) =~= code_groups(by, symbols@));
    assert(aggregate::pair_views(pairs@) =~= grouped_symbols(by, symbols@));
    let counts = count_texts(&names);
    let groups = map_of_pairs(&pairs);
    let ghost entries = order::sorted_entries(counts@);
    proof {
        counts.lemma_lists();
    }
    let mut nodes: Vec<GraphNode> = Vec::new();
    let mut k: usize = 0;
    while k < counts.entries.len()
        invariant
            k <= counts.entries.len(),
            entries == counts.items(),
            nodes.len() == k,
            forall|j: int|
                0 <= j < k ==> (#[trigger] nodes@[j])@ == code_group_node(
                    by,
                    symbols@,
                    entries[j],
                ),
        decreases counts.entries.len() - k,
    {
        nodes.push(group_node(by, symbols, &counts.entries[k].0, counts.entries[k].1.n));
        k += 1;
    }
    let mut links: Vec<Link> = Vec::new();
    let ghost expected = code_links(groups@, relations@);
    let mut l: usize = 0;
    while l < relations.len()
        invariant
            l <= relations.len(),
            groups.wf(),
            expected == code_links(groups@, relations@),
            links.len() == l,
            forall|j: int| 0 <= j < l ==> (#[trigger] links@[j])@ == expected[j],
        decreases relations.len() - l,
    {
        links.push(
            Link {
                from: find_symbol_group(&groups, &relations[l].from_symbol_id),
                relation: relations[l].relation_kind.clone(),
                to: find_symbol_group(&groups, &relations[l].target_symbol_id),
            },
        );
        l += 1;
    }
    assert(links@.map_values(|l: Link| l@) =~= expected);
    let joined = count_links(links);
    let (edge_prefix, node_prefix): (&str, &str) = match by {
        CodeGrouping::Kind => ("code-kind-edge:", "code-kind:"),
        CodeGrouping::File => ("code-file-edge:", "code-file:"),
        CodeGrouping::Directory => ("code-dir-edge:", "code-dir:"),
    };
    let edges = edges_between_groups(
        &joined,
        edge_prefix,
        node_prefix,
        Ghost(aggregate::group_triples(expected)),
    );
    let r = GraphModel { nodes, edges, fallback: false };
    assert(r@.nodes =~= code_group_model(by, symbols@, relations@).nodes);
    r
}

/// Builds the graph of kinds of symbols.
pub fn build_code_kind_model(symbols: &[CodeSymbol], relations: &[CodeRelation]) -> (r: GraphModel)
    ensures
        r@ == code_group_model(CodeGrouping::Kind, symbols@, relations@),
{
    build_code_group_model(CodeGrouping::Kind, symbols, relations)
}

/// Builds the graph of source files.
pub fn build_code_file_model(symbols: &[CodeSymbol], relations: &[CodeRelation]) -> (r: GraphModel)
    ensures
        r@ == code_group_model(CodeGrouping::File, symbols@, relations@),
{
    build_code_group_model(CodeGrouping::File, symbols, relations)
}

/// Builds the graph of source directories.
pub fn build_code_directory_model(symbols: &[CodeSymbol], relations: &[CodeRelation]) -> (r:
    GraphModel)
    ensures
        r@ == code_group_model(CodeGrouping::Directory, symbols@, relations@),
{
    build_code_group_model(CodeGrouping::Directory, symbols, relations)
}

} // verus!
