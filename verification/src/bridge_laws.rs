//! What the bridge between memories and code is for: whatever file or symbol a memory or an entity
//! mentions is found and joined to it, and nothing else is.
use vstd::prelude::*;
use crate::bridge::TargetView;
use crate::graph::{DraftView, EdgeView, GraphEdgeKind, GraphNodeKind};
use crate::map_laws::{drafted_edge, lemma_model_holds};
use crate::model_laws::{
    lemma_with_entity_bridges, lemma_with_fact_bridges, lemma_with_memory_bridges,
};
use crate::records::{CodeSymbol, Memory, MemoryEntity, MemoryFact, MemoryGraph};
use crate::{bridge, file_paths, graph, text};

verus! {

// ---------------------------------------------------------------------------
// What a text mentions
// ---------------------------------------------------------------------------

/// Whether a text in small letters names the file of a symbol: the whole path, or the last part of
/// it where that holds a dot.
pub open spec fn names_file(words: Seq<char>, s: CodeSymbol) -> bool {
    ||| text::occurs_in(text::lowered(s.file_path@), words)
    ||| exists|i: int|
        0 <= i < file_paths::file_label_text(s.file_path@).len()
            && #[trigger] file_paths::file_label_text(s.file_path@)[i] == '.' && text::occurs_in(
            text::lowered(file_paths::file_label_text(s.file_path@)),
            words,
        )
}

/// Whether a text in small letters names a symbol, by a name of six letters or more.
pub open spec fn names_symbol(words: Seq<char>, s: CodeSymbol) -> bool {
    6 <= s.name@.len() && text::occurs_in(text::lowered(s.name@), words)
}

proof fn lemma_dot_stays(name: Seq<char>)
    ensures
        text::lowered(name).contains('.') <==> exists|i: int|
            0 <= i < name.len() && #[trigger] name[i] == '.',
{
    let low = text::lowered(name);
    if low.contains('.') {
        let i = choose|i: int| 0 <= i < low.len() && low[i] == '.';
        assert(low[i] == text::ascii_lower(name[i]));
        let c = name[i];
        if 'A' <= c && c <= 'Z' {
            assert(low[i] >= 'a');
        }
        assert(name[i] == '.');
    }
    if exists|i: int| 0 <= i < name.len() && #[trigger] name[i] == '.' {
        let i = choose|i: int| 0 <= i < name.len() && #[trigger] name[i] == '.';
        assert(low[i] == '.');
    }
}

proof fn lemma_names(words: Seq<char>, s: CodeSymbol)
    ensures
        bridge::mentions_file(words, s) == names_file(words, s),
        bridge::mentions_symbol(words, s) == names_symbol(words, s),
{
    lemma_dot_stays(file_paths::file_label_text(s.file_path@));
}

/// Whether a target is the file of a symbol, or the symbol, and the text names it.
pub open spec fn is_named(t: TargetView, words: Seq<char>, s: CodeSymbol) -> bool {
    ||| names_file(words, s) && t == (TargetView {
        id: "code-file:"@ + s.file_path@,
        label: file_paths::file_label_text(s.file_path@),
        detail: s.file_path@,
        kind: GraphNodeKind::CodeFile,
        file_path: Some(s.file_path@),
    })
    ||| names_symbol(words, s) && t == (TargetView {
        id: "code:"@ + s.id@,
        label: s.name@,
        detail: s.kind@ + " · "@ + s.file_path@ + ":"@ + text::decimal_text(s.start_line as nat),
        kind: GraphNodeKind::CodeSymbol,
        file_path: Some(s.file_path@),
    })
}

/// Whether a target is named through one of the symbols.
pub open spec fn is_named_among(t: TargetView, words: Seq<char>, symbols: Seq<CodeSymbol>) -> bool {
    exists|k: int| 0 <= k < symbols.len() && is_named(t, words, #[trigger] symbols[k])
}

proof fn lemma_targets_named(
    found: Seq<TargetView>,
    words: Seq<char>,
    symbols: Seq<CodeSymbol>,
    limit: nat,
    at: int,
)
    requires
        0 <= at <= symbols.len(),
        forall|i: int|
            0 <= i < found.len() ==> is_named_among(#[trigger] found[i], words, symbols),
        forall|k: int| 0 <= k < at ==> is_covered(found, words, #[trigger] symbols[k]),
    ensures
        ({
            let r = bridge::targets_from(found, words, symbols, limit, at);
            &&& forall|i: int|
                0 <= i < r.len() ==> is_named_among(#[trigger] r[i], words, symbols)
            &&& r.len() < limit ==> forall|k: int|
                0 <= k < symbols.len() ==> is_covered(r, words, #[trigger] symbols[k])
            &&& found.len() < limit ==> r.len() <= limit + 1
        }),
    decreases symbols.len() - at,
{
    if at < symbols.len() {
        let s = symbols[at];
        let next = bridge::targets_step(found, words, s);
        lemma_names(words, s);
        assert forall|i: int| 0 <= i < next.len() implies is_named_among(
            #[trigger] next[i],
            words,
            symbols,
        ) by {
            if i < found.len() {
                assert(next[i] == found[i]);
            } else {
                assert(is_named(next[i], words, symbols[at]));
            }
        }
        assert forall|k: int| 0 <= k < at + 1 implies is_covered(
            next,
            words,
            #[trigger] symbols[k],
        ) by {
            if k < at {
                assert(is_covered(found, words, symbols[k]));
                lemma_still_covered(found, next, words, symbols[k]);
            } else {
                lemma_step_covers(found, words, s);
            }
        }
        if next.len() < limit {
            lemma_targets_named(next, words, symbols, limit, at + 1);
        }
    }
}

/// Whether the targets hold what a text names of a symbol.
pub open spec fn is_covered(found: Seq<TargetView>, words: Seq<char>, s: CodeSymbol) -> bool {
    &&& names_file(words, s) ==> has_id(found, "code-file:"@ + s.file_path@)
    &&& names_symbol(words, s) ==> has_id(found, "code:"@ + s.id@)
}

/// Whether a target has the id.
pub open spec fn has_id(found: Seq<TargetView>, id: Seq<char>) -> bool {
    exists|i: int| 0 <= i < found.len() && (#[trigger] found[i]).id == id
}

proof fn lemma_still_has(found: Seq<TargetView>, more: Seq<TargetView>, id: Seq<char>)
    requires
        found.len() <= more.len(),
        forall|i: int| 0 <= i < found.len() ==> #[trigger] found[i] == more[i],
        has_id(found, id),
    ensures
        has_id(more, id),
{
    let i = choose|i: int| 0 <= i < found.len() && (#[trigger] found[i]).id == id;
    assert(more[i].id == id);
}

proof fn lemma_still_covered(
    found: Seq<TargetView>,
    more: Seq<TargetView>,
    words: Seq<char>,
    s: CodeSymbol,
)
    requires
        found.len() <= more.len(),
        forall|i: int| 0 <= i < found.len() ==> #[trigger] found[i] == more[i],
        is_covered(found, words, s),
    ensures
        is_covered(more, words, s),
{
    if names_file(words, s) {
        lemma_still_has(found, more, "code-file:"@ + s.file_path@);
    }
    if names_symbol(words, s) {
        lemma_still_has(found, more, "code:"@ + s.id@);
    }
}

proof fn lemma_step_covers(found: Seq<TargetView>, words: Seq<char>, s: CodeSymbol)
    ensures
        is_covered(bridge::targets_step(found, words, s), words, s),
{
    lemma_names(words, s);
    let files = if bridge::mentions_file(words, s) {
        bridge::with_target(found, bridge::file_target(s))
    } else {
        found
    };
    let next = bridge::targets_step(found, words, s);
    if names_file(words, s) {
        if bridge::has_target(found, "code-file:"@ + s.file_path@) {
            lemma_still_has(found, files, "code-file:"@ + s.file_path@);
        } else {
            assert(files[found.len() as int].id == "code-file:"@ + s.file_path@);
        }
        lemma_still_has(files, next, "code-file:"@ + s.file_path@);
    }
    if names_symbol(words, s) {
        if bridge::has_target(files, "code:"@ + s.id@) {
            lemma_still_has(files, next, "code:"@ + s.id@);
        } else {
            assert(next[files.len() as int].id == "code:"@ + s.id@);
        }
    }
}

/// All that is found in a text is named in it. Where fewer are found than asked for, the file of
/// every symbol that the text names is found, and every symbol that it names; and never more than
/// one too many.
pub proof fn targets_are_what_a_text_names(
    words: Seq<char>,
    symbols: Seq<CodeSymbol>,
    limit: nat,
)
    requires
        limit > 0,
    ensures
        ({
            let r = bridge::targets_in(words, symbols, limit);
            &&& r.len() <= limit + 1
            &&& forall|i: int|
                0 <= i < r.len() ==> is_named_among(#[trigger] r[i], words, symbols)
            &&& r.len() < limit ==> forall|k: int|
                0 <= k < symbols.len() ==> {
                    &&& names_file(words, #[trigger] symbols[k]) ==> has_id(
                        r,
                        "code-file:"@ + symbols[k].file_path@,
                    )
                    &&& names_symbol(words, symbols[k]) ==> has_id(r, "code:"@ + symbols[k].id@)
                }
        }),
{
    lemma_targets_named(Seq::empty(), words, symbols, limit, 0);
    let r = bridge::targets_in(words, symbols, limit);
    if r.len() < limit {
        assert forall|k: int| 0 <= k < symbols.len() implies {
            &&& names_file(words, #[trigger] symbols[k]) ==> has_id(
                r,
                "code-file:"@ + symbols[k].file_path@,
            )
            &&& names_symbol(words, symbols[k]) ==> has_id(r, "code:"@ + symbols[k].id@)
        } by {
            assert(is_covered(r, words, symbols[k]));
        }
    }
}

// ---------------------------------------------------------------------------
// The texts that are searched
// ---------------------------------------------------------------------------

proof fn lemma_occurs_within(needle: Seq<char>, part: Seq<char>, before: Seq<char>, after: Seq<char>)
    requires
        text::occurs_in(needle, part),
    ensures
        text::occurs_in(needle, before + part + after),
{
    let at = choose|at: int| text::stands_at(part, needle, at);
    let all = before + part + after;
    assert(all.subrange(before.len() + at, before.len() + at + needle.len()) =~= part.subrange(
        at,
        at + needle.len(),
    ));
    assert(text::stands_at(all, needle, before.len() + at));
}

proof fn lemma_lowered_parts(a: Seq<char>, b: Seq<char>, c: Seq<char>)
    ensures
        text::lowered(a + b + c) == text::lowered(a) + text::lowered(b) + text::lowered(c),
{
    assert(text::lowered(a + b + c) =~= text::lowered(a) + text::lowered(b) + text::lowered(c));
}

/// Whatever occurs in a part of a text occurs in the text, both in small letters.
proof fn lemma_part_is_searched(
    needle: Seq<char>,
    part: Seq<char>,
    before: Seq<char>,
    after: Seq<char>,
)
    requires
        text::occurs_in(needle, text::lowered(part)),
    ensures
        text::occurs_in(needle, text::lowered(before + part + after)),
{
    lemma_lowered_parts(before, part, after);
    lemma_occurs_within(
        needle,
        text::lowered(part),
        text::lowered(before),
        text::lowered(after),
    );
}

/// A text is the start of what words are appended to.
proof fn lemma_words_follow(base: Seq<char>, words: Seq<String>) -> (rest: Seq<char>)
    ensures
        bridge::with_words(base, words) == base + rest,
    decreases words.len(),
{
    if words.len() == 0 {
        assert(base + Seq::<char>::empty() =~= base);
        Seq::empty()
    } else {
        let rest = lemma_words_follow(base, words.drop_last());
        let all = rest + " "@ + words.last()@;
        assert(base + rest + " "@ + words.last()@ =~= base + all);
        all
    }
}

proof fn lemma_word_is_in(base: Seq<char>, words: Seq<String>, k: int) -> (parts: (
    Seq<char>,
    Seq<char>,
))
    requires
        0 <= k < words.len(),
    ensures
        bridge::with_words(base, words) == parts.0 + words[k]@ + parts.1,
    decreases words.len(),
{
    if k == words.len() - 1 {
        let before = bridge::with_words(base, words.drop_last()) + " "@;
        assert(before + words[k]@ + Seq::<char>::empty() =~= bridge::with_words(base, words));
        (before, Seq::empty())
    } else {
        let (a, b) = lemma_word_is_in(base, words.drop_last(), k);
        assert(words.drop_last()[k] == words[k]);
        let after = b + " "@ + words.last()@;
        assert(a + words[k]@ + b + " "@ + words.last()@ =~= a + words[k]@ + after);
        (a, after)
    }
}

/// The text in which a memory is searched for code holds the memory's kind, its text, its source
/// and each of its tags, all in small letters.
pub proof fn all_of_a_memory_is_searched(m: Memory, needle: Seq<char>)
    ensures
        text::occurs_in(needle, text::lowered(m.kind@)) ==> text::occurs_in(
            needle,
            bridge::memory_text(m),
        ),
        text::occurs_in(needle, text::lowered(m.body@)) ==> text::occurs_in(
            needle,
            bridge::memory_text(m),
        ),
        m.source matches Some(source) ==> text::occurs_in(needle, text::lowered(source@))
            ==> text::occurs_in(needle, bridge::memory_text(m)),
        forall|k: int|
            0 <= k < m.tags@.len() && text::occurs_in(
                needle,
                text::lowered((#[trigger] m.tags@[k])@),
            ) ==> text::occurs_in(needle, bridge::memory_text(m)),
{
    let base = m.kind@ + " "@ + m.body@;
    let sourced = bridge::with_word(base, m.source);
    let all = bridge::with_words(sourced, m.tags@);
    let rest = lemma_words_follow(sourced, m.tags@);
    lemma_searched(needle, m.kind@, m.body@, m.source, rest, all);
    assert forall|k: int|
        0 <= k < m.tags@.len() && text::occurs_in(
            needle,
            text::lowered((#[trigger] m.tags@[k])@),
        ) implies text::occurs_in(needle, bridge::memory_text(m)) by {
        let (a, b) = lemma_word_is_in(sourced, m.tags@, k);
        lemma_part_is_searched(needle, m.tags@[k]@, a, b);
    }
}

proof fn lemma_searched(
    needle: Seq<char>,
    first: Seq<char>,
    second: Seq<char>,
    third: Option<String>,
    rest: Seq<char>,
    all: Seq<char>,
)
    requires
        all == bridge::with_word(first + " "@ + second, third) + rest,
    ensures
        text::occurs_in(needle, text::lowered(first)) ==> text::occurs_in(
            needle,
            text::lowered(all),
        ),
        text::occurs_in(needle, text::lowered(second)) ==> text::occurs_in(
            needle,
            text::lowered(all),
        ),
        third matches Some(t) ==> text::occurs_in(needle, text::lowered(t@)) ==> text::occurs_in(
            needle,
            text::lowered(all),
        ),
{
    let tail = match third {
        Some(t) => " "@ + t@,
        None => Seq::empty(),
    };
    assert(all =~= Seq::<char>::empty() + first + (" "@ + second + tail + rest));
    assert(all =~= (first + " "@) + second + (tail + rest));
    if text::occurs_in(needle, text::lowered(first)) {
        lemma_part_is_searched(needle, first, Seq::empty(), " "@ + second + tail + rest);
    }
    if text::occurs_in(needle, text::lowered(second)) {
        lemma_part_is_searched(needle, second, first + " "@, tail + rest);
    }
    match third {
        Some(t) => {
            assert(all =~= (first + " "@ + second + " "@) + t@ + rest);
            if text::occurs_in(needle, text::lowered(t@)) {
                lemma_part_is_searched(needle, t@, first + " "@ + second + " "@, rest);
            }
        },
        None => {},
    }
}

/// The text in which an entity is searched for code holds the entity's type, its name, its
/// description and each of its aliases, all in small letters.
pub proof fn all_of_an_entity_is_searched(e: MemoryEntity, needle: Seq<char>)
    ensures
        text::occurs_in(needle, text::lowered(e.entity_type@)) ==> text::occurs_in(
            needle,
            bridge::entity_text(e),
        ),
        text::occurs_in(needle, text::lowered(e.name@)) ==> text::occurs_in(
            needle,
            bridge::entity_text(e),
        ),
        e.description matches Some(words) ==> text::occurs_in(needle, text::lowered(words@))
            ==> text::occurs_in(needle, bridge::entity_text(e)),
        forall|k: int|
            0 <= k < e.aliases@.len() && text::occurs_in(
                needle,
                text::lowered((#[trigger] e.aliases@[k])@),
            ) ==> text::occurs_in(needle, bridge::entity_text(e)),
{
    let base = e.entity_type@ + " "@ + e.name@;
    let described = bridge::with_word(base, e.description);
    let all = bridge::with_words(described, e.aliases@);
    let rest = lemma_words_follow(described, e.aliases@);
    lemma_searched(needle, e.entity_type@, e.name@, e.description, rest, all);
    assert forall|k: int|
        0 <= k < e.aliases@.len() && text::occurs_in(
            needle,
            text::lowered((#[trigger] e.aliases@[k])@),
        ) implies text::occurs_in(needle, bridge::entity_text(e)) by {
        let (a, b) = lemma_word_is_in(described, e.aliases@, k);
        lemma_part_is_searched(needle, e.aliases@[k]@, a, b);
    }
}

// ---------------------------------------------------------------------------
// The bridge map
// ---------------------------------------------------------------------------

/// Whether an id is that of a file or a symbol that the text names.
pub open spec fn is_named_id(id: Seq<char>, words: Seq<char>, symbols: Seq<CodeSymbol>) -> bool {
    exists|k: int|
        0 <= k < symbols.len() && {
            ||| id == "code-file:"@ + (#[trigger] symbols[k]).file_path@ && names_file(
                words,
                symbols[k],
            )
            ||| id == "code:"@ + symbols[k].id@ && names_symbol(words, symbols[k])
        }
}

/// Whether an edge leads from a memory to code that it names.
pub open spec fn bridges_memory(e: EdgeView, m: Memory, symbols: Seq<CodeSymbol>) -> bool {
    &&& e.id == "bridge-memory-code:"@ + m.id@ + ":"@ + e.to
    &&& e.from == "memory:"@ + m.id@
    &&& is_named_id(e.to, bridge::memory_text(m), symbols)
    &&& e.label == "упоминает код"@
    &&& e.kind == GraphEdgeKind::Derived
    &&& e.weight == 1
}

/// Whether an edge leads from an entity to code that it names.
pub open spec fn bridges_entity(e: EdgeView, x: MemoryEntity, symbols: Seq<CodeSymbol>) -> bool {
    &&& e.id == "bridge-entity-code:"@ + x.id@ + ":"@ + e.to
    &&& e.from == "entity:"@ + x.id@
    &&& is_named_id(e.to, bridge::entity_text(x), symbols)
    &&& e.label == "связано с кодом"@
    &&& e.kind == GraphEdgeKind::Derived
    &&& e.weight == 1
}

/// Whether an edge leads from the memory of a fact to its entity.
pub open spec fn bridges_fact(e: EdgeView, f: MemoryFact) -> bool {
    &&& f.memory_id is Some
    &&& f.entity_id is Some
    &&& e.id == "bridge-fact:"@ + f.id@ + ":"@ + f.entity_id->0@
    &&& e.from == "memory:"@ + f.memory_id->0@
    &&& e.to == "entity:"@ + f.entity_id->0@
    &&& e.label == graph::relation_text(f.predicate@)
    &&& e.kind == GraphEdgeKind::Fact
    &&& e.weight == 1
}

/// Whether an edge bridges a memory, a fact or an entity.
pub open spec fn is_bridge(
    e: EdgeView,
    memories: Seq<Memory>,
    g: MemoryGraph,
    symbols: Seq<CodeSymbol>,
) -> bool {
    ||| exists|k: int| 0 <= k < memories.len() && bridges_memory(e, #[trigger] memories[k], symbols)
    ||| exists|k: int| 0 <= k < g.facts@.len() && bridges_fact(e, #[trigger] g.facts@[k])
    ||| exists|k: int|
        0 <= k < g.entities@.len() && bridges_entity(e, #[trigger] g.entities@[k], symbols)
}

spec fn all_bridges(
    d: DraftView,
    memories: Seq<Memory>,
    g: MemoryGraph,
    symbols: Seq<CodeSymbol>,
) -> bool {
    forall|id: Seq<char>| #[trigger]
        d.edges.dom().contains(id) ==> d.edges[id].id == id && is_bridge(
            d.edges[id],
            memories,
            g,
            symbols,
        )
}

proof fn lemma_named_id(t: TargetView, words: Seq<char>, symbols: Seq<CodeSymbol>)
    requires
        is_named_among(t, words, symbols),
    ensures
        is_named_id(t.id, words, symbols),
{
    let k = choose|k: int| 0 <= k < symbols.len() && is_named(t, words, #[trigger] symbols[k]);
    assert(t.id == "code-file:"@ + symbols[k].file_path@ && names_file(words, symbols[k]) || t.id
        == "code:"@ + symbols[k].id@ && names_symbol(words, symbols[k]));
}

/// A memory or an entity is not code.
proof fn lemma_not_code(id: Seq<char>, words: Seq<char>, symbols: Seq<CodeSymbol>, x: Seq<char>)
    requires
        is_named_id(id, words, symbols),
    ensures
        id != "memory:"@ + x,
        id != "entity:"@ + x,
{
    reveal_strlit("memory:");
    reveal_strlit("entity:");
    reveal_strlit("code-file:");
    reveal_strlit("code:");
    let k = choose|k: int|
        0 <= k < symbols.len() && {
            ||| id == "code-file:"@ + (#[trigger] symbols[k]).file_path@ && names_file(
                words,
                symbols[k],
            )
            ||| id == "code:"@ + symbols[k].id@ && names_symbol(words, symbols[k])
        };
    assert(("code-file:"@ + symbols[k].file_path@)[0] == 'c');
    assert(("code:"@ + symbols[k].id@)[0] == 'c');
    assert(("memory:"@ + x)[0] == 'm');
    assert(("entity:"@ + x)[0] == 'e');
}

proof fn lemma_memory_targets_bridge(
    d: DraftView,
    memories: Seq<Memory>,
    g: MemoryGraph,
    symbols: Seq<CodeSymbol>,
    at: int,
    targets: Seq<TargetView>,
    n: int,
)
    requires
        0 <= at < memories.len(),
        all_bridges(d, memories, g, symbols),
        n <= targets.len(),
        forall|i: int|
            0 <= i < targets.len() ==> is_named_among(
                #[trigger] targets[i],
                bridge::memory_text(memories[at]),
                symbols,
            ),
    ensures
        ({
            let r = bridge::with_memory_targets(d, memories[at].id@, targets, n);
            &&& all_bridges(r, memories, g, symbols)
            &&& forall|id: Seq<char>| #[trigger]
                d.edges.dom().contains(id) ==> r.edges.dom().contains(id)
            &&& forall|i: int|
                0 <= i < n ==> r.edges.dom().contains(
                    "bridge-memory-code:"@ + memories[at].id@ + ":"@ + (#[trigger] targets[i]).id,
                )
        }),
    decreases n,
{
    if n > 0 {
        lemma_memory_targets_bridge(d, memories, g, symbols, at, targets, n - 1);
        let m = memories[at];
        let before = bridge::with_memory_targets(d, m.id@, targets, n - 1);
        let after = bridge::with_memory_targets(d, m.id@, targets, n);
        let t = targets[n - 1];
        lemma_named_id(t, bridge::memory_text(m), symbols);
        lemma_not_code(t.id, bridge::memory_text(m), symbols, m.id@);
        assert forall|id: Seq<char>| #[trigger]
            after.edges.dom().contains(id) implies after.edges[id].id == id && is_bridge(
            after.edges[id],
            memories,
            g,
            symbols,
        ) by {
            if !before.edges.dom().contains(id) {
                assert(bridges_memory(after.edges[id], memories[at], symbols));
            }
        }
    }
}

proof fn lemma_memories_bridge(
    memories: Seq<Memory>,
    g: MemoryGraph,
    symbols: Seq<CodeSymbol>,
    n: int,
)
    requires
        0 <= n <= memories.len(),
    ensures
        ({
            let r = bridge::with_memory_bridges(DraftView::empty(), memories, symbols, n);
            &&& all_bridges(r, memories, g, symbols)
            &&& forall|k: int| 0 <= k < n ==> memory_bridged(r, #[trigger] memories[k], symbols)
        }),
    decreases n,
{
    if n > 0 {
        lemma_memories_bridge(memories, g, symbols, n - 1);
        let before = bridge::with_memory_bridges(DraftView::empty(), memories, symbols, n - 1);
        let m = memories[n - 1];
        let targets = bridge::targets_in(bridge::memory_text(m), symbols, 8);
        targets_are_what_a_text_names(bridge::memory_text(m), symbols, 8);
        let noded = before.ensure_node(graph::memory_node(m.id@, Some(m)));
        lemma_memory_targets_bridge(
            noded,
            memories,
            g,
            symbols,
            n - 1,
            targets,
            targets.len() as int,
        );
        let after = bridge::with_memory_bridges(DraftView::empty(), memories, symbols, n);
        assert forall|k: int| 0 <= k < n implies memory_bridged(
            after,
            #[trigger] memories[k],
            symbols,
        ) by {
            if k < n - 1 {
                assert(memory_bridged(before, memories[k], symbols));
                let mine = bridge::targets_in(bridge::memory_text(memories[k]), symbols, 8);
                assert forall|i: int| 0 <= i < mine.len() implies after.edges.dom().contains(
                    "bridge-memory-code:"@ + memories[k].id@ + ":"@ + (#[trigger] mine[i]).id,
                ) by {
                    assert(noded.edges.dom().contains(
                        "bridge-memory-code:"@ + memories[k].id@ + ":"@ + mine[i].id,
                    ));
                }
            }
        }
    }
}

spec fn memory_bridged(d: DraftView, m: Memory, symbols: Seq<CodeSymbol>) -> bool {
    let targets = bridge::targets_in(bridge::memory_text(m), symbols, 8);
    forall|i: int|
        0 <= i < targets.len() ==> d.edges.dom().contains(
            "bridge-memory-code:"@ + m.id@ + ":"@ + (#[trigger] targets[i]).id,
        )
}

spec fn entity_bridged(d: DraftView, e: MemoryEntity, symbols: Seq<CodeSymbol>) -> bool {
    let targets = bridge::targets_in(bridge::entity_text(e), symbols, 5);
    forall|i: int|
        0 <= i < targets.len() ==> d.edges.dom().contains(
            "bridge-entity-code:"@ + e.id@ + ":"@ + (#[trigger] targets[i]).id,
        )
}

spec fn keeps_edges(a: DraftView, b: DraftView) -> bool {
    forall|id: Seq<char>| #[trigger] a.edges.dom().contains(id) ==> b.edges.dom().contains(id)
}

proof fn lemma_facts_bridge(
    d: DraftView,
    memories: Seq<Memory>,
    g: MemoryGraph,
    symbols: Seq<CodeSymbol>,
    n: int,
)
    requires
        all_bridges(d, memories, g, symbols),
        0 <= n <= g.facts@.len(),
    ensures
        ({
            let r = bridge::with_fact_bridges(d, g.facts@, memories, g.entities@, n);
            &&& all_bridges(r, memories, g, symbols)
            &&& keeps_edges(d, r)
            &&& forall|k: int|
                0 <= k < n && (#[trigger] g.facts@[k]).memory_id is Some && g.facts@[k].entity_id
                    is Some ==> r.edges.dom().contains(
                    "bridge-fact:"@ + g.facts@[k].id@ + ":"@ + g.facts@[k].entity_id->0@,
                )
        }),
    decreases n,
{
    if n > 0 {
        lemma_facts_bridge(d, memories, g, symbols, n - 1);
        let before = bridge::with_fact_bridges(d, g.facts@, memories, g.entities@, n - 1);
        let after = bridge::with_fact_bridges(d, g.facts@, memories, g.entities@, n);
        let f = g.facts@[n - 1];
        if f.memory_id is Some && f.entity_id is Some {
            reveal_strlit("memory:");
            reveal_strlit("entity:");
            assert(("memory:"@ + f.memory_id->0@)[0] == 'm');
            assert(("entity:"@ + f.entity_id->0@)[0] == 'e');
        }
        assert forall|id: Seq<char>| #[trigger]
            after.edges.dom().contains(id) implies after.edges[id].id == id && is_bridge(
            after.edges[id],
            memories,
            g,
            symbols,
        ) by {
            if !before.edges.dom().contains(id) {
                assert(bridges_fact(after.edges[id], g.facts@[n - 1]));
            }
        }
    }
}

proof fn lemma_entity_targets_bridge(
    d: DraftView,
    memories: Seq<Memory>,
    g: MemoryGraph,
    symbols: Seq<CodeSymbol>,
    at: int,
    targets: Seq<TargetView>,
    n: int,
)
    requires
        0 <= at < g.entities@.len(),
        all_bridges(d, memories, g, symbols),
        n <= targets.len(),
        forall|i: int|
            0 <= i < targets.len() ==> is_named_among(
                #[trigger] targets[i],
                bridge::entity_text(g.entities@[at]),
                symbols,
            ),
    ensures
        ({
            let r = bridge::with_entity_targets(d, g.entities@[at], targets, n);
            &&& all_bridges(r, memories, g, symbols)
            &&& keeps_edges(d, r)
            &&& forall|i: int|
                0 <= i < n ==> r.edges.dom().contains(
                    "bridge-entity-code:"@ + g.entities@[at].id@ + ":"@ + (
                    #[trigger] targets[i]).id,
                )
        }),
    decreases n,
{
    if n > 0 {
        lemma_entity_targets_bridge(d, memories, g, symbols, at, targets, n - 1);
        let e = g.entities@[at];
        let before = bridge::with_entity_targets(d, e, targets, n - 1);
        let after = bridge::with_entity_targets(d, e, targets, n);
        let t = targets[n - 1];
        lemma_named_id(t, bridge::entity_text(e), symbols);
        lemma_not_code(t.id, bridge::entity_text(e), symbols, e.id@);
        assert forall|id: Seq<char>| #[trigger]
            after.edges.dom().contains(id) implies after.edges[id].id == id && is_bridge(
            after.edges[id],
            memories,
            g,
            symbols,
        ) by {
            if !before.edges.dom().contains(id) {
                assert(bridges_entity(after.edges[id], g.entities@[at], symbols));
            }
        }
    }
}

proof fn lemma_entities_bridge(
    d: DraftView,
    memories: Seq<Memory>,
    g: MemoryGraph,
    symbols: Seq<CodeSymbol>,
    n: int,
)
    requires
        all_bridges(d, memories, g, symbols),
        0 <= n <= g.entities@.len(),
    ensures
        ({
            let r = bridge::with_entity_bridges(d, g.entities@, symbols, n);
            &&& all_bridges(r, memories, g, symbols)
            &&& keeps_edges(d, r)
            &&& forall|k: int|
                0 <= k < n ==> entity_bridged(r, #[trigger] g.entities@[k], symbols)
        }),
    decreases n,
{
    if n > 0 {
        lemma_entities_bridge(d, memories, g, symbols, n - 1);
        let before = bridge::with_entity_bridges(d, g.entities@, symbols, n - 1);
        let after = bridge::with_entity_bridges(d, g.entities@, symbols, n);
        let e = g.entities@[n - 1];
        let targets = bridge::targets_in(bridge::entity_text(e), symbols, 5);
        targets_are_what_a_text_names(bridge::entity_text(e), symbols, 5);
        lemma_entity_targets_bridge(
            before,
            memories,
            g,
            symbols,
            n - 1,
            targets,
            targets.len() as int,
        );
        assert forall|k: int| 0 <= k < n implies entity_bridged(
            after,
            #[trigger] g.entities@[k],
            symbols,
        ) by {
            if k < n - 1 {
                assert(entity_bridged(before, g.entities@[k], symbols));
                let mine = bridge::targets_in(bridge::entity_text(g.entities@[k]), symbols, 5);
                assert forall|i: int| 0 <= i < mine.len() implies after.edges.dom().contains(
                    "bridge-entity-code:"@ + g.entities@[k].id@ + ":"@ + (#[trigger] mine[i]).id,
                ) by {
                    assert(before.edges.dom().contains(
                        "bridge-entity-code:"@ + g.entities@[k].id@ + ":"@ + mine[i].id,
                    ));
                }
            }
        }
    }
}

proof fn lemma_bridge_draft(memories: Seq<Memory>, g: MemoryGraph, symbols: Seq<CodeSymbol>)
    ensures
        ({
            let d = bridge::bridge_draft(memories, g, symbols);
            &&& d.nodes.dom().finite()
            &&& d.edges.dom().finite()
            &&& all_bridges(d, memories, g, symbols)
            &&& forall|k: int|
                0 <= k < memories.len() ==> memory_bridged(d, #[trigger] memories[k], symbols)
            &&& forall|k: int|
                0 <= k < g.entities@.len() ==> entity_bridged(
                    d,
                    #[trigger] g.entities@[k],
                    symbols,
                )
            &&& forall|k: int|
                0 <= k < g.facts@.len() && (#[trigger] g.facts@[k]).memory_id is Some
                    && g.facts@[k].entity_id is Some ==> d.edges.dom().contains(
                    "bridge-fact:"@ + g.facts@[k].id@ + ":"@ + g.facts@[k].entity_id->0@,
                )
        }),
{
    let (n, k, l) = (memories.len() as int, g.facts@.len() as int, g.entities@.len() as int);
    let none = DraftView::empty();
    lemma_with_memory_bridges(none, memories, symbols, n);
    lemma_memories_bridge(memories, g, symbols, n);
    let d1 = bridge::with_memory_bridges(none, memories, symbols, n);
    lemma_with_fact_bridges(d1, g.facts@, memories, g.entities@, k);
    lemma_facts_bridge(d1, memories, g, symbols, k);
    let d2 = bridge::with_fact_bridges(d1, g.facts@, memories, g.entities@, k);
    lemma_with_entity_bridges(d2, g.entities@, symbols, l);
    lemma_entities_bridge(d2, memories, g, symbols, l);
    let d = bridge::bridge_draft(memories, g, symbols);
    assert forall|i: int| 0 <= i < memories.len() implies memory_bridged(
        d,
        #[trigger] memories[i],
        symbols,
    ) by {
        assert(memory_bridged(d1, memories[i], symbols));
        let mine = bridge::targets_in(bridge::memory_text(memories[i]), symbols, 8);
        assert forall|j: int| 0 <= j < mine.len() implies d.edges.dom().contains(
            "bridge-memory-code:"@ + memories[i].id@ + ":"@ + (#[trigger] mine[j]).id,
        ) by {
            let id = "bridge-memory-code:"@ + memories[i].id@ + ":"@ + mine[j].id;
            assert(d1.edges.dom().contains(id));
            assert(d2.edges.dom().contains(id));
        }
    }
    assert forall|i: int|
        0 <= i < g.facts@.len() && (#[trigger] g.facts@[i]).memory_id is Some
            && g.facts@[i].entity_id is Some implies d.edges.dom().contains(
        "bridge-fact:"@ + g.facts@[i].id@ + ":"@ + g.facts@[i].entity_id->0@,
    ) by {
        assert(d2.edges.dom().contains(
            "bridge-fact:"@ + g.facts@[i].id@ + ":"@ + g.facts@[i].entity_id->0@,
        ));
    }
}

/// Every edge of the bridge leads from a memory or an entity to a file or a symbol that it names,
/// or from the memory of a fact to its entity.
pub proof fn bridges_lead_to_what_is_named(
    memories: Seq<Memory>,
    g: MemoryGraph,
    symbols: Seq<CodeSymbol>,
    i: int,
)
    requires
        0 <= i < bridge::bridge_model(memories, g, symbols).edges.len(),
    ensures
        is_bridge(bridge::bridge_model(memories, g, symbols).edges[i], memories, g, symbols),
{
    lemma_bridge_draft(memories, g, symbols);
    let d = bridge::bridge_draft(memories, g, symbols);
    lemma_model_holds(d, false);
    assert(drafted_edge(d, d.model(false).edges[i]));
    let id = choose|id: Seq<char>| #[trigger]
        d.edges.dom().contains(id) && d.edges[id] == d.model(false).edges[i];
    assert(is_bridge(d.edges[id], memories, g, symbols));
}

/// Texts before the first colon are equal where the wholes are, and so are those behind it.
proof fn lemma_parts_at_colon(
    prefix: Seq<char>,
    a: Seq<char>,
    s: Seq<char>,
    b: Seq<char>,
    t: Seq<char>,
)
    requires
        !a.contains(':'),
        !b.contains(':'),
        prefix + a + ":"@ + s == prefix + b + ":"@ + t,
    ensures
        a == b,
        s == t,
{
    reveal_strlit(":");
    let x = prefix + a + ":"@ + s;
    let y = prefix + b + ":"@ + t;
    let p = prefix.len() as int;
    assert(x[p + a.len()] == ':');
    assert(y[p + b.len()] == ':');
    if a.len() < b.len() {
        assert(y[p + a.len()] == b[a.len() as int]);
        assert(b.contains(':'));
    } else if b.len() < a.len() {
        assert(x[p + b.len()] == a[b.len() as int]);
        assert(a.contains(':'));
    }
    assert(x.subrange(p, p + a.len()) =~= a);
    assert(y.subrange(p, p + b.len()) =~= b);
    assert(x.skip(p + a.len() + 1) =~= s);
    assert(y.skip(p + b.len() + 1) =~= t);
}

/// Whether a graph has an edge from one node to another.
pub open spec fn has_edge_between(edges: Seq<EdgeView>, from: Seq<char>, to: Seq<char>) -> bool {
    exists|i: int| 0 <= i < edges.len() && (#[trigger] edges[i]).from == from && edges[i].to == to
}

/// Whether a text is that of a memory, its kind, its source or one of its tags.
pub open spec fn is_text_of_memory(words: Seq<char>, m: Memory) -> bool {
    ||| words == m.body@
    ||| words == m.kind@
    ||| (m.source matches Some(s) && words == s@)
    ||| exists|i: int| 0 <= i < m.tags@.len() && (#[trigger] m.tags@[i])@ == words
}

/// Whether a text is the name of an entity, its type, its description or one of its aliases.
pub open spec fn is_text_of_entity(words: Seq<char>, e: MemoryEntity) -> bool {
    ||| words == e.name@
    ||| words == e.entity_type@
    ||| (e.description matches Some(s) && words == s@)
    ||| exists|i: int| 0 <= i < e.aliases@.len() && (#[trigger] e.aliases@[i])@ == words
}

/// A memory that names a file or a symbol is joined to it, where it names fewer than eight: the
/// path of the file, a file name with a dot, or a name of six letters or more, anywhere in the
/// text of the memory, its kind, its source or its tags, and whatever the size of the letters.
pub proof fn named_code_is_joined_to_its_memory(
    memories: Seq<Memory>,
    g: MemoryGraph,
    symbols: Seq<CodeSymbol>,
    k: int,
    j: int,
    words: Seq<char>,
)
    requires
        0 <= k < memories.len(),
        0 <= j < symbols.len(),
        forall|i: int| 0 <= i < memories.len() ==> !(#[trigger] memories[i]).id@.contains(':'),
        bridge::targets_in(bridge::memory_text(memories[k]), symbols, 8).len() <= 7,
        is_text_of_memory(words, memories[k]),
    ensures
        names_file(text::lowered(words), symbols[j]) ==> has_edge_between(
            bridge::bridge_model(memories, g, symbols).edges,
            "memory:"@ + memories[k].id@,
            "code-file:"@ + symbols[j].file_path@,
        ),
        names_symbol(text::lowered(words), symbols[j]) ==> has_edge_between(
            bridge::bridge_model(memories, g, symbols).edges,
            "memory:"@ + memories[k].id@,
            "code:"@ + symbols[j].id@,
        ),
{
    let m = memories[k];
    let s = symbols[j];
    let all = bridge::memory_text(m);
    all_of_a_memory_is_searched(m, text::lowered(s.file_path@));
    all_of_a_memory_is_searched(m, text::lowered(file_paths::file_label_text(s.file_path@)));
    all_of_a_memory_is_searched(m, text::lowered(s.name@));
    let targets = bridge::targets_in(all, symbols, 8);
    targets_are_what_a_text_names(all, symbols, 8);
    if names_file(text::lowered(words), s) {
        assert(names_file(all, s));
        lemma_target_is_joined(memories, g, symbols, k, "code-file:"@ + s.file_path@);
    }
    if names_symbol(text::lowered(words), s) {
        assert(names_symbol(all, s));
        lemma_target_is_joined(memories, g, symbols, k, "code:"@ + s.id@);
    }
}

proof fn lemma_target_is_joined(
    memories: Seq<Memory>,
    g: MemoryGraph,
    symbols: Seq<CodeSymbol>,
    k: int,
    target: Seq<char>,
)
    requires
        0 <= k < memories.len(),
        forall|i: int| 0 <= i < memories.len() ==> !(#[trigger] memories[i]).id@.contains(':'),
        has_id(bridge::targets_in(bridge::memory_text(memories[k]), symbols, 8), target),
    ensures
        has_edge_between(
            bridge::bridge_model(memories, g, symbols).edges,
            "memory:"@ + memories[k].id@,
            target,
        ),
{
    lemma_bridge_draft(memories, g, symbols);
    let d = bridge::bridge_draft(memories, g, symbols);
    lemma_model_holds(d, false);
    let m = memories[k];
    let targets = bridge::targets_in(bridge::memory_text(m), symbols, 8);
    let i = choose|i: int| 0 <= i < targets.len() && (#[trigger] targets[i]).id == target;
    let id = "bridge-memory-code:"@ + m.id@ + ":"@ + target;
    assert(memory_bridged(d, memories[k], symbols));
    assert(targets[i].id == target);
    assert(d.edges.dom().contains(id));
    let e = d.edges[id];
    reveal_strlit("bridge-memory-code:");
    reveal_strlit("bridge-entity-code:");
    reveal_strlit("bridge-fact:");
    assert(id[7] == 'm');
    assert(is_bridge(e, memories, g, symbols));
    assert forall|l: int| 0 <= l < g.facts@.len() implies !bridges_fact(
        e,
        #[trigger] g.facts@[l],
    ) by {
        if bridges_fact(e, g.facts@[l]) {
            assert(e.id[7] == 'f');
        }
    }
    assert forall|l: int| 0 <= l < g.entities@.len() implies !bridges_entity(
        e,
        #[trigger] g.entities@[l],
        symbols,
    ) by {
        if bridges_entity(e, g.entities@[l], symbols) {
            assert(e.id[7] == 'e');
        }
    }
    let l = choose|l: int|
        0 <= l < memories.len() && bridges_memory(e, #[trigger] memories[l], symbols);
    lemma_parts_at_colon("bridge-memory-code:"@, m.id@, target, memories[l].id@, e.to);
    let edges = bridge::bridge_model(memories, g, symbols).edges;
    assert(edges.contains(e));
    let o = choose|o: int| 0 <= o < edges.len() && edges[o] == e;
    assert(edges[o].from == "memory:"@ + m.id@ && edges[o].to == target);
}

/// An entity that names a file or a symbol is joined to it, where it names fewer than five.
pub proof fn named_code_is_joined_to_its_entity(
    memories: Seq<Memory>,
    g: MemoryGraph,
    symbols: Seq<CodeSymbol>,
    k: int,
    j: int,
    words: Seq<char>,
)
    requires
        0 <= k < g.entities@.len(),
        0 <= j < symbols.len(),
        forall|i: int| 0 <= i < g.entities@.len() ==> !(#[trigger] g.entities@[i]).id@.contains(':'),
        bridge::targets_in(bridge::entity_text(g.entities@[k]), symbols, 5).len() <= 4,
        is_text_of_entity(words, g.entities@[k]),
    ensures
        names_file(text::lowered(words), symbols[j]) ==> has_edge_between(
            bridge::bridge_model(memories, g, symbols).edges,
            "entity:"@ + g.entities@[k].id@,
            "code-file:"@ + symbols[j].file_path@,
        ),
        names_symbol(text::lowered(words), symbols[j]) ==> has_edge_between(
            bridge::bridge_model(memories, g, symbols).edges,
            "entity:"@ + g.entities@[k].id@,
            "code:"@ + symbols[j].id@,
        ),
{
    let e = g.entities@[k];
    let s = symbols[j];
    let all = bridge::entity_text(e);
    all_of_an_entity_is_searched(e, text::lowered(s.file_path@));
    all_of_an_entity_is_searched(e, text::lowered(file_paths::file_label_text(s.file_path@)));
    all_of_an_entity_is_searched(e, text::lowered(s.name@));
    targets_are_what_a_text_names(all, symbols, 5);
    if names_file(text::lowered(words), s) {
        assert(names_file(all, s));
        lemma_entity_target_is_joined(memories, g, symbols, k, "code-file:"@ + s.file_path@);
    }
    if names_symbol(text::lowered(words), s) {
        assert(names_symbol(all, s));
        lemma_entity_target_is_joined(memories, g, symbols, k, "code:"@ + s.id@);
    }
}

proof fn lemma_entity_target_is_joined(
    memories: Seq<Memory>,
    g: MemoryGraph,
    symbols: Seq<CodeSymbol>,
    k: int,
    target: Seq<char>,
)
    requires
        0 <= k < g.entities@.len(),
        forall|i: int| 0 <= i < g.entities@.len() ==> !(#[trigger] g.entities@[i]).id@.contains(':'),
        has_id(bridge::targets_in(bridge::entity_text(g.entities@[k]), symbols, 5), target),
    ensures
        has_edge_between(
            bridge::bridge_model(memories, g, symbols).edges,
            "entity:"@ + g.entities@[k].id@,
            target,
        ),
{
    lemma_bridge_draft(memories, g, symbols);
    let d = bridge::bridge_draft(memories, g, symbols);
    lemma_model_holds(d, false);
    let x = g.entities@[k];
    let targets = bridge::targets_in(bridge::entity_text(x), symbols, 5);
    let i = choose|i: int| 0 <= i < targets.len() && (#[trigger] targets[i]).id == target;
    let id = "bridge-entity-code:"@ + x.id@ + ":"@ + target;
    assert(entity_bridged(d, g.entities@[k], symbols));
    assert(targets[i].id == target);
    assert(d.edges.dom().contains(id));
    let e = d.edges[id];
    reveal_strlit("bridge-memory-code:");
    reveal_strlit("bridge-entity-code:");
    reveal_strlit("bridge-fact:");
    assert(id[7] == 'e');
    assert(is_bridge(e, memories, g, symbols));
    assert forall|l: int| 0 <= l < g.facts@.len() implies !bridges_fact(
        e,
        #[trigger] g.facts@[l],
    ) by {
        if bridges_fact(e, g.facts@[l]) {
            assert(e.id[7] == 'f');
        }
    }
    assert forall|l: int| 0 <= l < memories.len() implies !bridges_memory(
        e,
        #[trigger] memories[l],
        symbols,
    ) by {
        if bridges_memory(e, memories[l], symbols) {
            assert(e.id[7] == 'm');
        }
    }
    let l = choose|l: int|
        0 <= l < g.entities@.len() && bridges_entity(e, #[trigger] g.entities@[l], symbols);
    lemma_parts_at_colon("bridge-entity-code:"@, x.id@, target, g.entities@[l].id@, e.to);
    let edges = bridge::bridge_model(memories, g, symbols).edges;
    assert(edges.contains(e));
    let o = choose|o: int| 0 <= o < edges.len() && edges[o] == e;
    assert(edges[o].from == "entity:"@ + x.id@ && edges[o].to == target);
}

} // verus!
