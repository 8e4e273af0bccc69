//! The graph behind a cluster: its members and what they are joined to.
use vstd::prelude::*;
use crate::bridge::build_bridge_model;
use crate::code_graph::{build_code_file_model, CodeGrouping};
use crate::file_paths::code_directory;
use crate::filter::drilldown_neighborhood;
use crate::graph::{
    code_file_node_id, code_node_id, entity_node_id, memory_cluster_for_type, memory_node_id,
    GraphModel, ModelView,
};
use crate::memory_graph::build_relationship_model;
use crate::order::TextSet;
use crate::records::{CodeRelation, CodeSymbol, Memory, MemoryEntity, MemoryGraph};
use crate::text::{same_text, without_prefix};
use crate::{bridge, code_graph, file_paths, filter, graph, memory_graph, text};

verus! {

/// The nodes of the entities of a cluster.
pub open spec fn cluster_seeds(entities: Seq<MemoryEntity>, cluster: Seq<char>) -> Set<Seq<char>>
    decreases entities.len(),
{
    if entities.len() == 0 {
        Set::empty()
    } else {
        let before = cluster_seeds(entities.drop_last(), cluster);
        if graph::cluster_of_type(entities.last().entity_type@) == cluster {
            before.insert("entity:"@ + entities.last().id@)
        } else {
            before
        }
    }
}

/// The nodes of the files of a directory.
pub open spec fn file_seeds(symbols: Seq<CodeSymbol>, dir: Seq<char>) -> Set<Seq<char>>
    decreases symbols.len(),
{
    if symbols.len() == 0 {
        Set::empty()
    } else {
        let before = file_seeds(symbols.drop_last(), dir);
        if file_paths::code_directory_text(symbols.last().file_path@) == dir {
            before.insert("code-file:"@ + symbols.last().file_path@)
        } else {
            before
        }
    }
}

/// The nodes of the files and symbols of a directory.
pub open spec fn code_seeds(symbols: Seq<CodeSymbol>, dir: Seq<char>) -> Set<Seq<char>>
    decreases symbols.len(),
{
    if symbols.len() == 0 {
        Set::empty()
    } else {
        let before = code_seeds(symbols.drop_last(), dir);
        if file_paths::code_directory_text(symbols.last().file_path@) == dir {
            before.insert("code-file:"@ + symbols.last().file_path@).insert(
                "code:"@ + symbols.last().id@,
            )
        } else {
            before
        }
    }
}

/// The nodes of the memories of a kind.
pub open spec fn kind_seeds(memories: Seq<Memory>, kind: Seq<char>) -> Set<Seq<char>>
    decreases memories.len(),
{
    if memories.len() == 0 {
        Set::empty()
    } else {
        let before = kind_seeds(memories.drop_last(), kind);
        if memories.last().kind@ == kind {
            before.insert("memory:"@ + memories.last().id@)
        } else {
            before
        }
    }
}

/// The graph behind a cluster of entities; an id that is not of one has none.
pub open spec fn memory_cluster_drilldown(
    memories: Seq<Memory>,
    g: MemoryGraph,
    cluster_id: Seq<char>,
) -> Option<ModelView> {
    match text::after_prefix(cluster_id, "memory-cluster:"@) {
        Some(cluster) => filter::drilldown(
            memory_graph::relationship_model(memories, g),
            cluster_seeds(g.entities@, cluster),
        ),
        None => None,
    }
}

/// The graph behind a source directory; an id that is not of one has none.
pub open spec fn code_cluster_drilldown(
    symbols: Seq<CodeSymbol>,
    relations: Seq<CodeRelation>,
    cluster_id: Seq<char>,
) -> Option<ModelView> {
    match text::after_prefix(cluster_id, "code-dir:"@) {
        Some(dir) => filter::drilldown(
            code_graph::code_group_model(CodeGrouping::File, symbols, relations),
            file_seeds(symbols, dir),
        ),
        None => None,
    }
}

/// What a cluster of the bridge graph stands for: a kind of memories, a cluster of entities, a
/// source directory, or nothing.
pub open spec fn bridge_seeds(
    memories: Seq<Memory>,
    g: MemoryGraph,
    symbols: Seq<CodeSymbol>,
    cluster_id: Seq<char>,
) -> Set<Seq<char>> {
    if let Some(kind) = text::after_prefix(cluster_id, "memory-kind:"@) {
        kind_seeds(memories, kind)
    } else if let Some(cluster) = text::after_prefix(cluster_id, "memory-cluster:"@) {
        cluster_seeds(g.entities@, cluster)
    } else if let Some(dir) = text::after_prefix(cluster_id, "code-dir:"@) {
        code_seeds(symbols, dir)
    } else {
        Set::empty()
    }
}

/// The graph behind a cluster of the bridge graph.
pub open spec fn bridge_cluster_drilldown(
    memories: Seq<Memory>,
    g: MemoryGraph,
    symbols: Seq<CodeSymbol>,
    cluster_id: Seq<char>,
) -> Option<ModelView> {
    filter::drilldown(
        bridge::bridge_model(memories, g, symbols),
        bridge_seeds(memories, g, symbols, cluster_id),
    )
}

/// The nodes of the entities of a cluster.
fn collect_cluster_seeds(entities: &Vec<MemoryEntity>, cluster: &String) -> (r: TextSet)
    ensures
        r.wf(),
        r@ == cluster_seeds(entities@, cluster@),
{
    let mut r = TextSet::new();
    let mut i: usize = 0;
    assert(entities@.take(0) =~= Seq::<MemoryEntity>::empty());
    while i < entities.len()
        invariant
            i <= entities.len(),
            r.wf(),
            r@ == cluster_seeds(entities@.take(i as int), cluster@),
        decreases entities.len() - i,
    {
        assert(entities@.take(i + 1).drop_last() =~= entities@.take(i as int));
        let (found, _) = memory_cluster_for_type(entities[i].entity_type.as_str());
        if same_text(found, cluster.as_str()) {
            r.insert(entity_node_id(entities[i].id.as_str()));
        }
        i += 1;
    }
    assert(entities@.take(i as int) =~= entities@);
    r
}

/// The nodes of the files of a directory.
fn collect_file_seeds(symbols: &[CodeSymbol], dir: &String) -> (r: TextSet)
    ensures
        r.wf(),
        r@ == file_seeds(symbols@, dir@),
{
    let mut r = TextSet::new();
    let mut i: usize = 0;
    assert(symbols@.take(0) =~= Seq::<CodeSymbol>::empty());
    while i < symbols.len()
        invariant
            i <= symbols.len(),
            r.wf(),
            r@ == file_seeds(symbols@.take(i as int), dir@),
        decreases symbols.len() - i,
    {
        assert(symbols@.take(i + 1).drop_last() =~= symbols@.take(i as int));
        let found = code_directory(symbols[i].file_path.as_str());
        if found == *dir {
            r.insert(code_file_node_id(symbols[i].file_path.as_str()));
        }
        i += 1;
    }
    assert(symbols@.take(i as int) =~= symbols@);
    r
}

/// The nodes of the files and symbols of a directory.
fn collect_code_seeds(symbols: &[CodeSymbol], dir: &String) -> (r: TextSet)
    ensures
        r.wf(),
        r@ == code_seeds(symbols@, dir@),
{
    let mut r = TextSet::new();
    let mut i: usize = 0;
    assert(symbols@.take(0) =~= Seq::<CodeSymbol>::empty());
    while i < symbols.len()
        invariant
            i <= symbols.len(),
            r.wf(),
            r@ == code_seeds(symbols@.take(i as int), dir@),
        decreases symbols.len() - i,
    {
        assert(symbols@.take(i + 1).drop_last() =~= symbols@.take(i as int));
        let found = code_directory(symbols[i].file_path.as_str());
        if found == *dir {
            r.insert(code_file_node_id(symbols[i].file_path.as_str()));
            r.insert(code_node_id(symbols[i].id.as_str()));
        }
        i += 1;
    }
    assert(symbols@.take(i as int) =~= symbols@);
    r
}

/// The nodes of the memories of a kind.
fn collect_kind_seeds(memories: &[Memory], kind: &String) -> (r: TextSet)
    ensures
        r.wf(),
        r@ == kind_seeds(memories@, kind@),
{
    let mut r = TextSet::new();
    let mut i: usize = 0;
    assert(memories@.take(0) =~= Seq::<Memory>::empty());
    while i < memories.len()
        invariant
            i <= memories.len(),
            r.wf(),
            r@ == kind_seeds(memories@.take(i as int), kind@),
        decreases memories.len() - i,
    {
        assert(memories@.take(i + 1).drop_last() =~= memories@.take(i as int));
        if memories[i].kind == *kind {
            r.insert(memory_node_id(memories[i].id.as_str()));
        }
        i += 1;
    }
    assert(memories@.take(i as int) =~= memories@);
    r
}

/// Builds the graph behind a cluster of entities.
pub fn build_memory_cluster_drilldown_model(
    memories: &[Memory],
    graph: &MemoryGraph,
    cluster_id: &str,
) -> (r: Option<GraphModel>)
    ensures
        filter::opt_model(r) == memory_cluster_drilldown(memories@, *graph, cluster_id@),
{
    match without_prefix(cluster_id, "memory-cluster:") {
        Some(cluster) => {
            let seeds = collect_cluster_seeds(&graph.entities, &cluster);
            let model = build_relationship_model(memories, graph);
            drilldown_neighborhood(&model, &seeds)
        },
        None => None,
    }
}

/// Builds the graph behind a source directory.
pub fn build_code_cluster_drilldown_model(
    symbols: &[CodeSymbol],
    relations: &[CodeRelation],
    cluster_id: &str,
) -> (r: Option<GraphModel>)
    ensures
        filter::opt_model(r) == code_cluster_drilldown(symbols@, relations@, cluster_id@),
{
    match without_prefix(cluster_id, "code-dir:") {
        Some(dir) => {
            let seeds = collect_file_seeds(symbols, &dir);
            let model = build_code_file_model(symbols, relations);
            drilldown_neighborhood(&model, &seeds)
        },
        None => None,
    }
}

/// Builds the graph behind a cluster of the bridge graph.
pub fn build_bridge_cluster_drilldown_model(
    memories: &[Memory],
    graph: &MemoryGraph,
    symbols: &[CodeSymbol],
    cluster_id: &str,
) -> (r: Option<GraphModel>)
    ensures
        filter::opt_model(r) == bridge_cluster_drilldown(
            memories@,
            *graph,
            symbols@,
            cluster_id@,
        ),
{
    let seeds = if let Some(kind) = without_prefix(cluster_id, "memory-kind:") {
        collect_kind_seeds(memories, &kind)
    } else if let Some(cluster) = without_prefix(cluster_id, "memory-cluster:") {
        collect_cluster_seeds(&graph.entities, &cluster)
    } else if let Some(dir) = without_prefix(cluster_id, "code-dir:") {
        collect_code_seeds(symbols, &dir)
    } else {
        TextSet::new()
    };
    let model = build_bridge_model(memories, graph, symbols);
    drilldown_neighborhood(&model, &seeds)
}

} // verus!
