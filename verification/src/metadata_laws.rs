//! What the map of the memories' metadata says: what replaced what, and which memories share a tag
//! or a source.
use vstd::prelude::*;
use crate::graph::{DraftView, EdgeView, GraphEdgeKind, GraphNodeKind, NodeView};
use crate::group_laws::lemma_tally_lists;
use crate::map_laws::{drafted_edge, lemma_memory_by_id, lemma_model_holds};
use crate::memory_graph::{Grouping, MemberView};
use crate::model_laws::{lemma_with_grouping, lemma_with_memories, lemma_with_replacements};
use crate::records::Memory;
use crate::{graph, memory_graph, order, text};

verus! {

/// Whether a memory has the tag.
pub open spec fn has_tag(m: Memory, tag: Seq<char>) -> bool {
    exists|i: int| 0 <= i < m.tags@.len() && (#[trigger] m.tags@[i])@ == tag
}

/// Whether a memory has the source.
pub open spec fn has_source(m: Memory, source: Seq<char>) -> bool {
    m.source matches Some(s) && s@ == source
}

spec fn has_group(by: Grouping, m: Memory, group: Seq<char>) -> bool {
    match by {
        Grouping::Tag => has_tag(m, group),
        Grouping::Source => has_source(m, group),
    }
}

/// Whether an edge is drawn between two memories for what replaced the one, or for a tag or a
/// source that both have.
pub open spec fn is_derived(e: EdgeView, memories: Seq<Memory>) -> bool {
    &&& e.kind == GraphEdgeKind::Derived
    &&& e.weight == 1
    &&& exists|a: int, b: int|
        0 <= a < memories.len() && 0 <= b < memories.len() && e.from == "memory:"@ + (
        #[trigger] memories[a]).id@ && e.to == "memory:"@ + (#[trigger] memories[b]).id@ && {
            ||| e.label == "заменена"@ && (memories[a].superseded_by matches Some(by) && by@
                == memories[b].id@)
            ||| a < b && exists|tag: Seq<char>|
                e.label == "#"@ + tag && #[trigger] has_tag(memories[a], tag) && has_tag(
                    memories[b],
                    tag,
                )
            ||| a < b && e.label == "источник"@ && exists|source: Seq<char>| #[trigger]
                has_source(memories[a], source) && has_source(memories[b], source)
        }
}

spec fn all_derived(d: DraftView, memories: Seq<Memory>) -> bool {
    forall|id: Seq<char>| #[trigger]
        d.edges.dom().contains(id) ==> d.edges[id].id == id && is_derived(d.edges[id], memories)
}

// ---------------------------------------------------------------------------
// Members and their memories
// ---------------------------------------------------------------------------

/// The places of the memories of all memberships.
spec fn places(by: Grouping, memories: Seq<Memory>) -> Seq<int>
    decreases memories.len(),
{
    if memories.len() == 0 {
        Seq::empty()
    } else {
        places(by, memories.drop_last()) + Seq::new(
            memory_graph::members_of(by, memories.last()).len(),
            |i: int| memories.len() - 1,
        )
    }
}

spec fn placed(by: Grouping, memories: Seq<Memory>, all: Seq<MemberView>, at: Seq<int>) -> bool {
    &&& all.len() == at.len()
    &&& forall|i: int|
        0 <= i < all.len() ==> 0 <= #[trigger] at[i] < memories.len() && all[i].memory
            == memories[at[i]].id@ && has_group(by, memories[at[i]], all[i].group)
    &&& forall|i: int, j: int| 0 <= i < j < at.len() ==> #[trigger] at[i] <= #[trigger] at[j]
}

proof fn lemma_placed(by: Grouping, memories: Seq<Memory>)
    ensures
        placed(by, memories, memory_graph::members(by, memories), places(by, memories)),
        forall|k: int, group: Seq<char>|
            0 <= k < memories.len() && #[trigger] has_group(by, #[trigger] memories[k], group)
                ==> is_member(memory_graph::members(by, memories), places(by, memories), k, group),
    decreases memories.len(),
{
    if memories.len() > 0 {
        let front = memories.drop_last();
        let m = memories.last();
        lemma_placed(by, front);
        let (a, b) = (memory_graph::members(by, front), memory_graph::members_of(by, m));
        let (pa, all) = (places(by, front), memory_graph::members(by, memories));
        let at = places(by, memories);
        let n = memories.len() - 1;
        assert forall|i: int| 0 <= i < all.len() implies 0 <= #[trigger] at[i] < memories.len()
            && all[i].memory == memories[at[i]].id@ && has_group(
            by,
            memories[at[i]],
            all[i].group,
        ) by {
            if i < a.len() {
                assert(all[i] == a[i] && at[i] == pa[i]);
                assert(memories[at[i]] == front[pa[i]]);
            } else {
                assert(all[i] == b[i - a.len()] && at[i] == n);
                match by {
                    Grouping::Tag => {
                        assert(m.tags@[i - a.len()]@ == all[i].group);
                    },
                    Grouping::Source => {},
                }
            }
        }
        assert forall|i: int, j: int| 0 <= i < j < at.len() implies #[trigger] at[i]
            <= #[trigger] at[j] by {
            if j < a.len() {
                assert(at[i] == pa[i] && at[j] == pa[j]);
            } else if i < a.len() {
                assert(at[i] == pa[i]);
            }
        }
        assert forall|k: int, group: Seq<char>|
            0 <= k < memories.len() && #[trigger] has_group(
                by,
                #[trigger] memories[k],
                group,
            ) implies is_member(all, at, k, group) by {
            if k < n {
                assert(front[k] == memories[k]);
                assert(is_member(a, pa, k, group));
                let i = choose|i: int|
                    0 <= i < a.len() && #[trigger] pa[i] == k && a[i].group == group;
                assert(at[i] == k && all[i] == a[i]);
            } else {
                match by {
                    Grouping::Tag => {
                        let i = choose|i: int|
                            0 <= i < m.tags@.len() && (#[trigger] m.tags@[i])@ == group;
                        assert(all[a.len() + i] == b[i] && at[a.len() + i] == k);
                    },
                    Grouping::Source => {
                        assert(all[a.len() as int] == b[0] && at[a.len() as int] == k);
                    },
                }
            }
        }
    }
}

spec fn is_member(all: Seq<MemberView>, at: Seq<int>, k: int, group: Seq<char>) -> bool {
    exists|i: int| 0 <= i < all.len() && #[trigger] at[i] == k && all[i].group == group
}

/// The places of the memories of one group.
spec fn group_places(all: Seq<MemberView>, at: Seq<int>, group: Seq<char>) -> Seq<int>
    decreases all.len(),
{
    if all.len() == 0 {
        Seq::empty()
    } else {
        let before = group_places(all.drop_last(), at.drop_last(), group);
        if all.last().group == group {
            before.push(at.last())
        } else {
            before
        }
    }
}

proof fn lemma_group_placed(
    by: Grouping,
    memories: Seq<Memory>,
    all: Seq<MemberView>,
    at: Seq<int>,
    group: Seq<char>,
)
    requires
        placed(by, memories, all, at),
    ensures
        ({
            let ids = memory_graph::group_members(all, group);
            let gp = group_places(all, at, group);
            &&& gp.len() == ids.len()
            &&& gp.len() == order::occurrences(memory_graph::groups_of(all), group)
            &&& forall|i: int|
                0 <= i < gp.len() ==> 0 <= #[trigger] gp[i] < memories.len() && ids[i]
                    == memories[gp[i]].id@ && has_group(by, memories[gp[i]], group) && gp[i]
                    <= at.last()
            &&& forall|i: int, j: int| 0 <= i < j < gp.len() ==> #[trigger] gp[i] <= #[trigger] gp[j]
            &&& forall|k: int| #[trigger] is_member(all, at, k, group) ==> gp.contains(k)
        }),
    decreases all.len(),
{
    if all.len() > 0 {
        let (fa, ft) = (all.drop_last(), at.drop_last());
        assert(placed(by, memories, fa, ft)) by {
            assert forall|i: int| 0 <= i < fa.len() implies 0 <= #[trigger] ft[i] < memories.len()
                && fa[i].memory == memories[ft[i]].id@ && has_group(
                by,
                memories[ft[i]],
                fa[i].group,
            ) by {
                assert(ft[i] == at[i]);
            }
            assert forall|i: int, j: int| 0 <= i < j < ft.len() implies #[trigger] ft[i]
                <= #[trigger] ft[j] by {
                assert(ft[i] == at[i] && ft[j] == at[j]);
            }
        }
        lemma_group_placed(by, memories, fa, ft, group);
        let before = group_places(fa, ft, group);
        let gp = group_places(all, at, group);
        let ids = memory_graph::group_members(all, group);
        let names = memory_graph::groups_of(all);
        assert(names.drop_last() =~= memory_graph::groups_of(fa));
        assert(at[at.len() - 1] == at.last());
        assert forall|i: int| 0 <= i < gp.len() implies 0 <= #[trigger] gp[i] < memories.len()
            && ids[i] == memories[gp[i]].id@ && has_group(by, memories[gp[i]], group) && gp[i]
            <= at.last() by {
            if i < before.len() {
                assert(gp[i] == before[i]);
                assert(ft.last() == at[at.len() - 2]);
                assert(at[at.len() - 2] <= at[at.len() - 1]);
            }
        }
        assert forall|i: int, j: int| 0 <= i < j < gp.len() implies #[trigger] gp[i]
            <= #[trigger] gp[j] by {
            if j < before.len() {
                assert(gp[i] == before[i] && gp[j] == before[j]);
            } else {
                assert(gp[i] == before[i]);
            }
        }
        assert forall|k: int| #[trigger] is_member(all, at, k, group) implies gp.contains(k) by {
            let i = choose|i: int|
                0 <= i < all.len() && #[trigger] at[i] == k && all[i].group == group;
            if i < fa.len() {
                assert(ft[i] == k && fa[i].group == group);
                assert(is_member(fa, ft, k, group));
                let o = choose|o: int| 0 <= o < before.len() && before[o] == k;
                assert(gp[o] == k);
            } else {
                assert(gp[gp.len() - 1] == k);
            }
        }
    }
}

// ---------------------------------------------------------------------------
// Edges
// ---------------------------------------------------------------------------

proof fn lemma_replacements_derived(d: DraftView, memories: Seq<Memory>, n: int)
    requires
        all_derived(d, memories),
        n <= memories.len(),
    ensures
        all_derived(memory_graph::with_replacements(d, memories, n), memories),
        forall|k: int|
            0 <= k < n && (#[trigger] memories[k]).superseded_by is Some
                && memories[k].superseded_by->0@ != memories[k].id@ && graph::memory_by_id(
                memories,
                memories[k].superseded_by->0@,
            ) is Some ==> memory_graph::with_replacements(d, memories, n).edges.dom().contains(
                "derived-superseded:"@ + memories[k].id@ + ":"@ + memories[k].superseded_by->0@,
            ),
    decreases n,
{
    if n > 0 {
        lemma_replacements_derived(d, memories, n - 1);
        let before = memory_graph::with_replacements(d, memories, n - 1);
        let after = memory_graph::with_replacements(d, memories, n);
        let m = memories[n - 1];
        if m.superseded_by is Some {
            let by = m.superseded_by->0@;
            lemma_memory_by_id(memories, by);
            if "memory:"@ + m.id@ == "memory:"@ + by {
                crate::group_laws::lemma_prefix_injective("memory:"@, m.id@, by);
            }
            if graph::memory_by_id(memories, by) is Some {
                let found = graph::memory_by_id(memories, by)->0;
                let b = choose|b: int|
                    0 <= b < memories.len() && #[trigger] memories[b] == found && found.id@ == by
                        && forall|l: int|
                        b < l < memories.len() ==> (#[trigger] memories[l]).id@ != by;
                assert forall|id: Seq<char>| #[trigger]
                    after.edges.dom().contains(id) implies after.edges[id].id == id && is_derived(
                    after.edges[id],
                    memories,
                ) by {
                    if !before.edges.dom().contains(id) {
                        assert(after.edges[id].from == "memory:"@ + memories[n - 1].id@);
                        assert(after.edges[id].to == "memory:"@ + memories[b].id@);
                    }
                }
            }
        }
    }
}

proof fn lemma_chain_derived(
    d: DraftView,
    by: Grouping,
    memories: Seq<Memory>,
    group: Seq<char>,
    ids: Seq<Seq<char>>,
    gp: Seq<int>,
    n: int,
)
    requires
        all_derived(d, memories),
        n <= ids.len(),
        gp.len() == ids.len(),
        forall|i: int|
            0 <= i < gp.len() ==> 0 <= #[trigger] gp[i] < memories.len() && ids[i]
                == memories[gp[i]].id@ && has_group(by, memories[gp[i]], group),
        forall|i: int, j: int| 0 <= i < j < gp.len() ==> #[trigger] gp[i] <= #[trigger] gp[j],
    ensures
        all_derived(memory_graph::with_chain(d, by, group, ids, n), memories),
        forall|id: Seq<char>| #[trigger]
            d.edges.dom().contains(id) ==> memory_graph::with_chain(
                d,
                by,
                group,
                ids,
                n,
            ).edges.dom().contains(id),
        forall|i: int|
            0 <= i < n - 1 && #[trigger] ids[i] != ids[i + 1] ==> memory_graph::with_chain(
                d,
                by,
                group,
                ids,
                n,
            ).edges.dom().contains(
                (match by {
                    Grouping::Tag => "derived-tag:"@,
                    Grouping::Source => "derived-source:"@,
                }) + group + ":"@ + ids[i] + ":"@ + ids[i + 1],
            ),
    decreases n,
{
    if n > 1 {
        lemma_chain_derived(d, by, memories, group, ids, gp, n - 1);
        let before = memory_graph::with_chain(d, by, group, ids, n - 1);
        let after = memory_graph::with_chain(d, by, group, ids, n);
        let (a, b) = (gp[n - 2], gp[n - 1]);
        assert(ids[n - 2] == memories[a].id@ && ids[n - 1] == memories[b].id@);
        if "memory:"@ + ids[n - 2] == "memory:"@ + ids[n - 1] {
            crate::group_laws::lemma_prefix_injective("memory:"@, ids[n - 2], ids[n - 1]);
        }
        assert forall|id: Seq<char>| #[trigger]
            after.edges.dom().contains(id) implies after.edges[id].id == id && is_derived(
            after.edges[id],
            memories,
        ) by {
            if !before.edges.dom().contains(id) {
                let e = after.edges[id];
                assert(a < b);
                assert(e.from == "memory:"@ + memories[a].id@ && e.to == "memory:"@
                    + memories[b].id@);
                match by {
                    Grouping::Tag => {
                        assert(has_tag(memories[a], group) && has_tag(memories[b], group));
                    },
                    Grouping::Source => {
                        assert(has_source(memories[a], group) && has_source(memories[b], group));
                    },
                }
                assert(is_derived(e, memories));
            }
        }
    }
}

proof fn lemma_groups_derived(
    d: DraftView,
    by: Grouping,
    memories: Seq<Memory>,
    groups: Seq<(Seq<char>, nat)>,
    n: int,
)
    requires
        all_derived(d, memories),
        0 <= n <= groups.len(),
    ensures
        ({
            let all = memory_graph::members(by, memories);
            let r = memory_graph::with_groups(d, by, all, groups, n);
            &&& all_derived(r, memories)
            &&& forall|id: Seq<char>| #[trigger]
                d.edges.dom().contains(id) ==> r.edges.dom().contains(id)
            &&& forall|k: int, i: int|
                0 <= k < n && 2 <= (#[trigger] groups[k]).1 <= memory_graph::group_limit(by) && 0
                    <= i < memory_graph::group_members(all, groups[k].0).len() - 1
                    && #[trigger] memory_graph::group_members(all, groups[k].0)[i]
                    != memory_graph::group_members(all, groups[k].0)[i + 1]
                    ==> r.edges.dom().contains(
                    (match by {
                        Grouping::Tag => "derived-tag:"@,
                        Grouping::Source => "derived-source:"@,
                    }) + groups[k].0 + ":"@ + memory_graph::group_members(all, groups[k].0)[i]
                        + ":"@ + memory_graph::group_members(all, groups[k].0)[i + 1],
                )
        }),
    decreases n,
{
    if n > 0 {
        lemma_groups_derived(d, by, memories, groups, n - 1);
        let all = memory_graph::members(by, memories);
        let at = places(by, memories);
        let before = memory_graph::with_groups(d, by, all, groups, n - 1);
        let (group, size) = groups[n - 1];
        let ids = memory_graph::group_members(all, group);
        lemma_placed(by, memories);
        lemma_group_placed(by, memories, all, at, group);
        lemma_chain_derived(
            before,
            by,
            memories,
            group,
            ids,
            group_places(all, at, group),
            ids.len() as int,
        );
    }
}

/// How often memories have the tag.
pub open spec fn tag_count(memories: Seq<Memory>, tag: Seq<char>) -> nat
    decreases memories.len(),
{
    if memories.len() == 0 {
        0
    } else {
        tag_count(memories.drop_last(), tag) + order::occurrences(
            text::texts(memories.last().tags@),
            tag,
        )
    }
}

/// How many memories have the source.
pub open spec fn source_count(memories: Seq<Memory>, source: Seq<char>) -> nat
    decreases memories.len(),
{
    if memories.len() == 0 {
        0
    } else {
        source_count(memories.drop_last(), source) + if has_source(memories.last(), source) {
            1nat
        } else {
            0
        }
    }
}

proof fn lemma_occurrences_add<K>(a: Seq<K>, b: Seq<K>, k: K)
    ensures
        order::occurrences(a + b, k) == order::occurrences(a, k) + order::occurrences(b, k),
    decreases b.len(),
{
    if b.len() == 0 {
        assert(a + b =~= a);
    } else {
        lemma_occurrences_add(a, b.drop_last(), k);
        assert((a + b).drop_last() =~= a + b.drop_last());
        assert((a + b).last() == b.last());
    }
}

proof fn lemma_members_counted(by: Grouping, memories: Seq<Memory>, group: Seq<char>)
    ensures
        order::occurrences(
            memory_graph::groups_of(memory_graph::members(by, memories)),
            group,
        ) == (match by {
            Grouping::Tag => tag_count(memories, group),
            Grouping::Source => source_count(memories, group),
        }),
    decreases memories.len(),
{
    if memories.len() > 0 {
        let front = memories.drop_last();
        lemma_members_counted(by, front, group);
        let a = memory_graph::members(by, front);
        let b = memory_graph::members_of(by, memories.last());
        assert(memory_graph::groups_of(a + b) =~= memory_graph::groups_of(a)
            + memory_graph::groups_of(b));
        lemma_occurrences_add(memory_graph::groups_of(a), memory_graph::groups_of(b), group);
        match by {
            Grouping::Tag => {
                assert(memory_graph::groups_of(b) =~= text::texts(memories.last().tags@));
            },
            Grouping::Source => {
                reveal_with_fuel(order::occurrences, 2);
                assert(memory_graph::groups_of(b).len() <= 1);
                if memories.last().source is Some {
                    assert(memory_graph::groups_of(b).drop_last() =~= Seq::empty());
                    assert(memory_graph::groups_of(b).last() == memories.last().source->0@);
                }
            },
        }
    }
}

/// Two memories that share a group, with none between them that has it, follow each other in it.
proof fn lemma_neighbours(by: Grouping, memories: Seq<Memory>, group: Seq<char>, a: int, b: int)
    requires
        0 <= a < b < memories.len(),
        has_group(by, memories[a], group),
        has_group(by, memories[b], group),
        forall|c: int| a < c < b ==> !has_group(by, #[trigger] memories[c], group),
    ensures
        ({
            let ids = memory_graph::group_members(memory_graph::members(by, memories), group);
            exists|i: int|
                0 <= i < ids.len() - 1 && #[trigger] ids[i] == memories[a].id@ && ids[i + 1]
                    == memories[b].id@
        }),
{
    let all = memory_graph::members(by, memories);
    let at = places(by, memories);
    lemma_placed(by, memories);
    lemma_group_placed(by, memories, all, at, group);
    let gp = group_places(all, at, group);
    let ids = memory_graph::group_members(all, group);
    assert(is_member(all, at, a, group) && is_member(all, at, b, group));
    let j = choose|j: int| 0 <= j < gp.len() && gp[j] == b;
    let i0 = choose|i: int| 0 <= i < gp.len() && gp[i] == a;
    assert(i0 < j) by {
        if j < i0 {
            assert(gp[j] <= gp[i0]);
        }
    }
    let i = lemma_last_place(gp, a, i0, j);
    assert(gp[i + 1] == b) by {
        let c = gp[i + 1];
        assert(gp[i] <= gp[i + 1]);
        if i + 1 < j {
            assert(gp[i + 1] <= gp[j]);
        }
        assert(has_group(by, memories[gp[i + 1]], group));
    }
    assert(ids[i] == memories[a].id@ && ids[i + 1] == memories[b].id@);
}

proof fn lemma_last_place(gp: Seq<int>, a: int, i: int, j: int) -> (k: int)
    requires
        0 <= i < j < gp.len(),
        gp[i] == a,
        gp[j] != a,
    ensures
        i <= k < j,
        gp[k] == a,
        gp[k + 1] != a,
    decreases j - i,
{
    if gp[i + 1] != a {
        i
    } else {
        lemma_last_place(gp, a, i + 1, j)
    }
}

proof fn lemma_fallback_derived(memories: Seq<Memory>)
    ensures
        ({
            let d = memory_graph::fallback_draft(memories);
            &&& d.nodes.dom().finite()
            &&& d.edges.dom().finite()
            &&& all_derived(d, memories)
            &&& forall|k: int|
                0 <= k < memories.len() && (#[trigger] memories[k]).superseded_by is Some
                    && memories[k].superseded_by->0@ != memories[k].id@ && graph::memory_by_id(
                    memories,
                    memories[k].superseded_by->0@,
                ) is Some ==> d.edges.dom().contains(
                    "derived-superseded:"@ + memories[k].id@ + ":"@ + memories[k].superseded_by->0@,
                )
            &&& forall|a: int, b: int, tag: Seq<char>|
                shares_tag(memories, a, b, tag) ==> d.edges.dom().contains(
                    #[trigger] tag_edge_id(memories, a, b, tag),
                )
            &&& forall|a: int, b: int, source: Seq<char>|
                shares_source(memories, a, b, source) ==> d.edges.dom().contains(
                    #[trigger] source_edge_id(memories, a, b, source),
                )
        }),
{
    let start = DraftView::empty();
    lemma_with_memories(start, memories);
    let nodes = memory_graph::with_memories(start, memories);
    lemma_memories_draw_nothing(start, memories);
    lemma_with_replacements(nodes, memories, memories.len() as int);
    let d1 = memory_graph::with_replacements(nodes, memories, memories.len() as int);
    lemma_replacements_derived(nodes, memories, memories.len() as int);
    lemma_with_grouping(d1, Grouping::Tag, memories);
    let d2 = memory_graph::with_grouping(d1, Grouping::Tag, memories);
    let tags = memory_graph::members(Grouping::Tag, memories);
    let tag_groups = order::sorted_entries(order::tally(memory_graph::groups_of(tags)));
    lemma_groups_derived(d1, Grouping::Tag, memories, tag_groups, tag_groups.len() as int);
    lemma_with_grouping(d2, Grouping::Source, memories);
    let d = memory_graph::fallback_draft(memories);
    let sources = memory_graph::members(Grouping::Source, memories);
    let source_groups = order::sorted_entries(order::tally(memory_graph::groups_of(sources)));
    lemma_groups_derived(
        d2,
        Grouping::Source,
        memories,
        source_groups,
        source_groups.len() as int,
    );
    assert forall|a: int, b: int, tag: Seq<char>|
        shares_tag(memories, a, b, tag) implies d.edges.dom().contains(
        #[trigger] tag_edge_id(memories, a, b, tag),
    ) by {
        lemma_shared_group(Grouping::Tag, memories, tag, a, b);
        let k = choose|k: int| 0 <= k < tag_groups.len() && (#[trigger] tag_groups[k]).0 == tag;
        lemma_neighbours(Grouping::Tag, memories, tag, a, b);
        let ids = memory_graph::group_members(tags, tag);
        let i = choose|i: int|
            0 <= i < ids.len() - 1 && #[trigger] ids[i] == memories[a].id@ && ids[i + 1]
                == memories[b].id@;
        assert(memory_graph::group_members(tags, tag_groups[k].0)[i] == memories[a].id@);
        assert(d2.edges.dom().contains(tag_edge_id(memories, a, b, tag)));
    }
    assert forall|a: int, b: int, source: Seq<char>|
        shares_source(memories, a, b, source) implies d.edges.dom().contains(
        #[trigger] source_edge_id(memories, a, b, source),
    ) by {
        lemma_shared_group(Grouping::Source, memories, source, a, b);
        let k = choose|k: int|
            0 <= k < source_groups.len() && (#[trigger] source_groups[k]).0 == source;
        lemma_neighbours(Grouping::Source, memories, source, a, b);
        let ids = memory_graph::group_members(sources, source);
        let i = choose|i: int|
            0 <= i < ids.len() - 1 && #[trigger] ids[i] == memories[a].id@ && ids[i + 1]
                == memories[b].id@;
        assert(memory_graph::group_members(sources, source_groups[k].0)[i] == memories[a].id@);
    }
}

proof fn lemma_memories_draw_nothing(d: DraftView, memories: Seq<Memory>)
    ensures
        memory_graph::with_memories(d, memories).edges == d.edges,
    decreases memories.len(),
{
    if memories.len() > 0 {
        lemma_memories_draw_nothing(d, memories.drop_last());
    }
}

/// A group that two memories have is listed, with how often it is had.
proof fn lemma_shared_group(by: Grouping, memories: Seq<Memory>, group: Seq<char>, a: int, b: int)
    requires
        0 <= a < b < memories.len(),
        has_group(by, memories[a], group),
        has_group(by, memories[b], group),
    ensures
        ({
            let all = memory_graph::members(by, memories);
            let groups = order::sorted_entries(order::tally(memory_graph::groups_of(all)));
            let count = match by {
                Grouping::Tag => tag_count(memories, group),
                Grouping::Source => source_count(memories, group),
            };
            &&& count >= 2
            &&& exists|k: int| 0 <= k < groups.len() && (#[trigger] groups[k]).0 == group
            &&& forall|k: int|
                0 <= k < groups.len() && (#[trigger] groups[k]).0 == group ==> groups[k].1 == count
        }),
{
    let all = memory_graph::members(by, memories);
    let names = memory_graph::groups_of(all);
    let at = places(by, memories);
    lemma_placed(by, memories);
    lemma_group_placed(by, memories, all, at, group);
    lemma_members_counted(by, memories, group);
    lemma_tally_lists(names);
    let groups = order::sorted_entries(order::tally(names));
    let gp = group_places(all, at, group);
    assert(is_member(all, at, a, group) && is_member(all, at, b, group));
    assert(gp.contains(a) && gp.contains(b));
    let i = choose|i: int| 0 <= i < gp.len() && gp[i] == a;
    let j = choose|j: int| 0 <= j < gp.len() && gp[j] == b;
    let o = choose|o: int| 0 <= o < all.len() && #[trigger] at[o] == a && all[o].group == group;
    assert(names[o] == group);
    assert(order::tally(names).dom().contains(group));
    assert forall|k: int| 0 <= k < groups.len() && (#[trigger] groups[k]).0 == group implies groups[k].1
        == order::occurrences(names, group) by {
        assert(order::tally(names).contains_pair(groups[k].0, groups[k].1));
    }
}

// ---------------------------------------------------------------------------
// Laws
// ---------------------------------------------------------------------------

/// Whether two memories with different ids are neighbours among those that have a tag, which no
/// more than eight have.
pub open spec fn shares_tag(memories: Seq<Memory>, a: int, b: int, tag: Seq<char>) -> bool {
    &&& 0 <= a < b < memories.len()
    &&& memories[a].id@ != memories[b].id@
    &&& has_tag(memories[a], tag)
    &&& has_tag(memories[b], tag)
    &&& forall|c: int| a < c < b ==> !has_tag(#[trigger] memories[c], tag)
    &&& tag_count(memories, tag) <= 8
}

/// Whether two memories with different ids are neighbours among those that have a source, which
/// no more than six have.
pub open spec fn shares_source(memories: Seq<Memory>, a: int, b: int, source: Seq<char>) -> bool {
    &&& 0 <= a < b < memories.len()
    &&& memories[a].id@ != memories[b].id@
    &&& has_source(memories[a], source)
    &&& has_source(memories[b], source)
    &&& forall|c: int| a < c < b ==> !has_source(#[trigger] memories[c], source)
    &&& source_count(memories, source) <= 6
}

/// The id of the edge between two memories that share a tag.
pub open spec fn tag_edge_id(memories: Seq<Memory>, a: int, b: int, tag: Seq<char>) -> Seq<char> {
    "derived-tag:"@ + tag + ":"@ + memories[a].id@ + ":"@ + memories[b].id@
}

/// The id of the edge between two memories that share a source.
pub open spec fn source_edge_id(memories: Seq<Memory>, a: int, b: int, source: Seq<char>) -> Seq<
    char,
> {
    "derived-source:"@ + source + ":"@ + memories[a].id@ + ":"@ + memories[b].id@
}

/// Every edge of the map of metadata leads from a memory to the one that replaced it, or from an
/// earlier to a later memory with the same tag or source, and says which.
pub proof fn edges_of_metadata_are_stated(memories: Seq<Memory>, i: int)
    requires
        0 <= i < memory_graph::fallback_model(memories).edges.len(),
    ensures
        is_derived(memory_graph::fallback_model(memories).edges[i], memories),
{
    lemma_fallback_derived(memories);
    let d = memory_graph::fallback_draft(memories);
    lemma_model_holds(d, true);
    assert(drafted_edge(d, d.model(true).edges[i]));
    let id = choose|id: Seq<char>| #[trigger]
        d.edges.dom().contains(id) && d.edges[id] == d.model(true).edges[i];
    assert(is_derived(d.edges[id], memories));
}

/// A memory is joined to the one that replaced it, where that one is known. Neighbours among the
/// memories of a small tag or source are joined.
pub proof fn metadata_joins_memories(memories: Seq<Memory>)
    ensures
        ({
            let m = memory_graph::fallback_model(memories);
            &&& forall|a: int, b: int|
                0 <= a < memories.len() && 0 <= b < memories.len() && a != b && ((
                #[trigger] memories[a]).superseded_by matches Some(by) && by@ == (
                #[trigger] memories[b]).id@ && by@ != memories[a].id@) ==> m.has_edge(
                    "derived-superseded:"@ + memories[a].id@ + ":"@ + memories[b].id@,
                )
            &&& forall|a: int, b: int, tag: Seq<char>|
                shares_tag(memories, a, b, tag) ==> m.has_edge(
                    #[trigger] tag_edge_id(memories, a, b, tag),
                )
            &&& forall|a: int, b: int, source: Seq<char>|
                shares_source(memories, a, b, source) ==> m.has_edge(
                    #[trigger] source_edge_id(memories, a, b, source),
                )
        }),
{
    lemma_fallback_derived(memories);
    let d = memory_graph::fallback_draft(memories);
    let m = memory_graph::fallback_model(memories);
    lemma_model_holds(d, true);
    assert forall|id: Seq<char>| #[trigger] d.edges.dom().contains(id) implies m.has_edge(id) by {
        assert(m.edges.contains(d.edges[id]));
        let i = choose|i: int| 0 <= i < m.edges.len() && m.edges[i] == d.edges[id];
        assert(m.edges[i].id == id);
    }
    assert forall|a: int, b: int|
        0 <= a < memories.len() && 0 <= b < memories.len() && a != b && ((
        #[trigger] memories[a]).superseded_by matches Some(by) && by@ == (
        #[trigger] memories[b]).id@ && by@ != memories[a].id@) implies m.has_edge(
        "derived-superseded:"@ + memories[a].id@ + ":"@ + memories[b].id@,
    ) by {
        lemma_memory_by_id(memories, memories[b].id@);
        assert(graph::memory_by_id(memories, memories[b].id@) is Some);
        assert(d.edges.dom().contains(
            "derived-superseded:"@ + memories[a].id@ + ":"@ + memories[b].id@,
        ));
    }
}

proof fn lemma_memory_nodes(memories: Seq<Memory>, n: int)
    requires
        0 <= n <= memories.len(),
    ensures
        ({
            let d = memory_graph::with_memories(DraftView::empty(), memories.take(n));
            &&& forall|id: Seq<char>| #[trigger]
                d.nodes.dom().contains(id) ==> exists|k: int|
                    0 <= k < n && id == "memory:"@ + (#[trigger] memories[k]).id@
            &&& forall|k: int|
                #![trigger memories[k]]
                0 <= k < n && (forall|l: int| 0 <= l < k ==> (#[trigger] memories[l]).id@
                    != memories[k].id@) ==> d.nodes.dom().contains("memory:"@ + memories[k].id@)
                    && d.nodes["memory:"@ + memories[k].id@] == graph::memory_node(
                    memories[k].id@,
                    Some(memories[k]),
                )
        }),
    decreases n,
{
    if n > 0 {
        lemma_memory_nodes(memories, n - 1);
        assert(memories.take(n).drop_last() =~= memories.take(n - 1));
        assert(memories.take(n).last() == memories[n - 1]);
        let before = memory_graph::with_memories(DraftView::empty(), memories.take(n - 1));
        let after = memory_graph::with_memories(DraftView::empty(), memories.take(n));
        let m = memories[n - 1];
        assert forall|k: int|
            #![trigger memories[k]]
            0 <= k < n && (forall|l: int| 0 <= l < k ==> (#[trigger] memories[l]).id@
                != memories[k].id@) implies after.nodes.dom().contains("memory:"@ + memories[k].id@)
            && after.nodes["memory:"@ + memories[k].id@] == graph::memory_node(
            memories[k].id@,
            Some(memories[k]),
        ) by {
            if k == n - 1 {
                if before.nodes.dom().contains("memory:"@ + m.id@) {
                    let l = choose|l: int|
                        0 <= l < n - 1 && "memory:"@ + m.id@ == "memory:"@ + (
                        #[trigger] memories[l]).id@;
                    crate::group_laws::lemma_prefix_injective("memory:"@, m.id@, memories[l].id@);
                }
            }
        }
        assert forall|id: Seq<char>| #[trigger] after.nodes.dom().contains(id) implies exists|k:
            int|
            0 <= k < n && id == "memory:"@ + (#[trigger] memories[k]).id@ by {
            if !before.nodes.dom().contains(id) {
                assert(id == "memory:"@ + memories[n - 1].id@);
            } else {
                let k = choose|k: int|
                    0 <= k < n - 1 && id == "memory:"@ + (#[trigger] memories[k]).id@;
                assert(id == "memory:"@ + memories[k].id@);
            }
        }
    } else {
        assert(memories.take(0) =~= Seq::<Memory>::empty());
    }
}

/// In the map of metadata every memory stands with the start of its text and its kind.
pub proof fn metadata_shows_every_memory(memories: Seq<Memory>, k: int)
    requires
        0 <= k < memories.len(),
        forall|l: int| 0 <= l < k ==> (#[trigger] memories[l]).id@ != memories[k].id@,
    ensures
        memory_graph::fallback_model(memories).nodes.contains(
            (NodeView {
                id: "memory:"@ + memories[k].id@,
                label: text::truncated(text::trimmed(memories[k].body@), 48),
                detail: memories[k].kind@,
                kind: GraphNodeKind::Memory,
            }),
        ),
{
    let start = DraftView::empty();
    lemma_with_memories(start, memories);
    let nodes = memory_graph::with_memories(start, memories);
    lemma_with_replacements(nodes, memories, memories.len() as int);
    let d1 = memory_graph::with_replacements(nodes, memories, memories.len() as int);
    lemma_with_grouping(d1, Grouping::Tag, memories);
    let d2 = memory_graph::with_grouping(d1, Grouping::Tag, memories);
    lemma_with_grouping(d2, Grouping::Source, memories);
    let d = memory_graph::fallback_draft(memories);
    assert(memories.take(memories.len() as int) =~= memories);
    lemma_memory_nodes(memories, memories.len() as int);
    assert(d.nodes.dom().contains("memory:"@ + memories[k].id@));
    lemma_model_holds(d, true);
}

} // verus!
