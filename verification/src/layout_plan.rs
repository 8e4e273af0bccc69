//! How a graph is laid out, as far as that is counted in whole numbers: how long the layout is
//! worked on, which node stays where it is, and in what order nodes are placed around it.
use vstd::prelude::*;
use crate::filter::selected_neighbor_nodes;
use crate::graph::{GraphModel, GraphNode, GraphNodeKind, GraphSelection, ModelView, NodeView, SelectionView};
use crate::order::TextSet;
use crate::ranking::{RankKey, RankView};
use crate::{filter, graph, order, ranking};

verus! {

/// How often overlapping nodes are moved apart.
pub open spec fn collision_rounds(nodes: nat) -> nat {
    if nodes <= 30 {
        64
    } else if nodes <= 80 {
        84
    } else if nodes <= 160 {
        72
    } else {
        56
    }
}

/// How often overlapping nodes are moved apart.
pub fn collision_iterations(node_count: usize) -> (r: usize)
    ensures
        r == collision_rounds(node_count as nat),
{
    if node_count <= 30 {
        64
    } else if node_count <= 80 {
        84
    } else if node_count <= 160 {
        72
    } else {
        56
    }
}

/// How often forces are applied.
pub open spec fn force_rounds(nodes: nat) -> nat {
    if nodes <= 40 {
        70
    } else if nodes <= 90 {
        42
    } else if nodes <= 150 {
        24
    } else {
        12
    }
}

/// How often forces are applied.
pub fn layout_iterations(node_count: usize) -> (r: usize)
    ensures
        r == force_rounds(node_count as nat),
{
    if node_count <= 40 {
        70
    } else if node_count <= 90 {
        42
    } else if node_count <= 150 {
        24
    } else {
        12
    }
}

/// Of how many nodes one pushes the others away in a round.
pub open spec fn repulsion_stride(nodes: nat) -> nat {
    if nodes <= 120 {
        1
    } else if nodes <= 190 {
        2
    } else {
        3
    }
}

/// Of how many nodes one pushes the others away in a round.
pub fn layout_repulsion_stride(node_count: usize) -> (r: usize)
    ensures
        r == repulsion_stride(node_count as nat),
{
    if node_count <= 120 {
        1
    } else if node_count <= 190 {
        2
    } else {
        3
    }
}

/// A larger graph is worked on for fewer rounds of forces, and with no smaller a stride.
pub proof fn larger_layouts_take_fewer_rounds(a: nat, b: nat)
    requires
        a <= b,
    ensures
        force_rounds(b) <= force_rounds(a),
        repulsion_stride(a) <= repulsion_stride(b),
{
}

/// Whether a graph is the overview of a project.
pub fn is_project_overview_model(model: &GraphModel) -> (r: bool)
    ensures
        r == model@.has_node("overview:project"@),
{
    model.contains_node("overview:project")
}

/// The node that stays where it is: the selected one, or the project in its overview.
pub open spec fn fixed_node(m: ModelView, selection: SelectionView) -> Option<Seq<char>> {
    match selection {
        SelectionView::Node(id) if m.has_node(id) => Some(id),
        _ => if m.has_node("overview:project"@) {
            Some("overview:project"@)
        } else {
            None
        },
    }
}

/// The node that stays where it is.
pub fn layout_fixed_node_id<'a>(model: &'a GraphModel, selection: &'a GraphSelection) -> (r: Option<
    &'a str,
>)
    ensures
        fixed_node(model@, selection@) == (match r {
            Some(id) => Some(id@),
            None => None,
        }),
{
    if let GraphSelection::Node(id) = selection {
        if model.contains_node(id.as_str()) {
            return Some(id.as_str());
        }
    }
    if is_project_overview_model(model) {
        Some("overview:project")
    } else {
        None
    }
}

/// How near the middle a kind of node is placed.
pub open spec fn kind_priority(kind: GraphNodeKind) -> nat {
    match kind {
        GraphNodeKind::Cluster => 700,
        GraphNodeKind::CodeFile => 650,
        GraphNodeKind::Memory => 620,
        GraphNodeKind::CodeSymbol => 560,
        GraphNodeKind::Entity => 520,
        GraphNodeKind::Type => 480,
        GraphNodeKind::Fact => 360,
    }
}

/// How near the middle a kind of node is placed.
pub fn node_kind_priority(kind: GraphNodeKind) -> (r: usize)
    ensures
        r == kind_priority(kind),
        r <= 700,
{
    match kind {
        GraphNodeKind::Cluster => 700,
        GraphNodeKind::CodeFile => 650,
        GraphNodeKind::Memory => 620,
        GraphNodeKind::CodeSymbol => 560,
        GraphNodeKind::Entity => 520,
        GraphNodeKind::Type => 480,
        GraphNodeKind::Fact => 360,
    }
}

/// How near the middle a node is placed: by its kind and the selection.
pub open spec fn radial_score(n: NodeView, selection: SelectionView, near: Set<Seq<char>>) -> nat {
    kind_priority(n.kind) + (if near.contains(n.id) {
        5_000nat
    } else {
        0
    }) + (if selection == SelectionView::Node(n.id) {
        10_000nat
    } else {
        0
    })
}

/// How near the middle a node is placed.
pub fn radial_layout_priority(
    node: &GraphNode,
    selection: &GraphSelection,
    selected_neighbors: &TextSet,
) -> (r: usize)
    requires
        selected_neighbors.wf(),
    ensures
        r == radial_score(node@, selection@, selected_neighbors@),
        r <= 15_700,
{
    let mut score: usize = node_kind_priority(node.kind);
    if selected_neighbors.contains(&node.id) {
        score = score + 5_000;
    }
    if let GraphSelection::Node(id) = selection {
        if *id == node.id {
            score = score + 10_000;
        }
    }
    score
}

/// Where the label of a kind stands among those of all kinds, in the order of the texts.
pub open spec fn kind_rank(kind: GraphNodeKind) -> int {
    match kind {
        GraphNodeKind::Cluster => 0,
        GraphNodeKind::Memory => 1,
        GraphNodeKind::CodeSymbol => 2,
        GraphNodeKind::Entity => 3,
        GraphNodeKind::Type => 4,
        GraphNodeKind::CodeFile => 5,
        GraphNodeKind::Fact => 6,
    }
}

/// The ranks of kinds are in the order of their labels.
pub proof fn kind_ranks_follow_labels(a: GraphNodeKind, b: GraphNodeKind)
    ensures
        kind_rank(a) < kind_rank(b) <==> order::text_before(a.label_text(), b.label_text()),
{
    reveal_strlit("кластер");
    reveal_strlit("тип");
    reveal_strlit("символ");
    reveal_strlit("файл");
    reveal_strlit("сущность");
    reveal_strlit("память");
    reveal_strlit("факт");
    reveal_with_fuel(order::text_before, 4);
    let x = a.label_text();
    let y = b.label_text();
    assert(x.drop_first()[0] == x[1] && y.drop_first()[0] == y[1]);
    assert(x.drop_first().drop_first()[0] == x[2] && y.drop_first().drop_first()[0] == y[2]);
    if a == b {
        order::KeyOrder::irreflexive(x);
    }
}

/// What a node is ranked by: its score, then the label of its kind, its label and its id.
pub open spec fn radial_rank(m: ModelView, selection: SelectionView) -> spec_fn(
    NodeView,
) -> RankView {
    |n: NodeView|
        RankView {
            score: radial_score(n, selection, filter::focus_nodes(m, selection)) as int,
            length: kind_rank(n.kind),
            first: n.label,
            second: n.id,
        }
}

/// The nodes in the order in which they are placed around the middle.
pub open spec fn radial_sequence(m: ModelView, selection: SelectionView) -> Seq<NodeView> {
    ranking::picked(
        m.nodes,
        ranking::ranking(m.nodes.map_values(radial_rank(m, selection))),
    )
}

/// Where the label of a kind stands among those of all kinds.
fn rank_of_kind(kind: GraphNodeKind) -> (r: usize)
    ensures
        r == kind_rank(kind),
{
    match kind {
        GraphNodeKind::Cluster => 0,
        GraphNodeKind::Memory => 1,
        GraphNodeKind::CodeSymbol => 2,
        GraphNodeKind::Entity => 3,
        GraphNodeKind::Type => 4,
        GraphNodeKind::CodeFile => 5,
        GraphNodeKind::Fact => 6,
    }
}

/// The nodes in the order in which they are placed around the middle.
pub fn radial_order(model: &GraphModel, selection: &GraphSelection) -> (r: Vec<GraphNode>)
    ensures
        graph::node_views(r@) == radial_sequence(model@, selection@),
{
    let near = selected_neighbor_nodes(model, selection);
    let ghost rank_of = radial_rank(model@, selection@);
    let mut keys: Vec<RankKey> = Vec::new();
    let mut i: usize = 0;
    while i < model.nodes.len()
        invariant
            i <= model.nodes.len(),
            near.wf(),
            near@ == filter::focus_nodes(model@, selection@),
            rank_of == radial_rank(model@, selection@),
            keys.len() == i,
            forall|j: int| 0 <= j < i ==> (#[trigger] keys@[j])@ == rank_of(model@.nodes[j]),
        decreases model.nodes.len() - i,
    {
        let node = &model.nodes[i];
        let score = radial_layout_priority(node, selection, &near);
        assert(model@.nodes[i as int] == node@);
        keys.push(
            RankKey {
                score: score as i128,
                length: rank_of_kind(node.kind),
                first: node.label.clone(),
                second: node.id.clone(),
            },
        );
        i += 1;
    }
    assert(ranking::key_views(keys@) =~= model@.nodes.map_values(rank_of));
    let ranked = ranking::rank(&keys);
    let ghost all = ranking::as_ints(ranked@);
    let mut r: Vec<GraphNode> = Vec::new();
    let mut k: usize = 0;
    while k < ranked.len()
        invariant
            k <= ranked.len(),
            ranked.len() == model.nodes.len(),
            forall|j: int| 0 <= j < ranked@.len() ==> #[trigger] ranked@[j] < model.nodes@.len(),
            r.len() == k,
            forall|j: int| 0 <= j < k ==> (#[trigger] r@[j])@ == model@.nodes[ranked@[j] as int],
        decreases ranked.len() - k,
    {
        r.push(model.nodes[ranked[k]].clone());
        k += 1;
    }
    assert(graph::node_views(r@) =~= ranking::picked(model@.nodes, all));
    r
}

} // verus!
