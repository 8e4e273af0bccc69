//! Bridges between memories and code: which files and symbols a text mentions.
use vstd::prelude::*;
use crate::aggregate::{count_distinct, count_triples, edges_between_nodes};
use crate::file_paths::{code_directory, file_label};
use crate::graph::{
    code_dir_node_id, code_file_node_id, code_node_id, display_relation, ensure_memory_node,
    entity_graph_node, entity_node_id, find_memory, memory_cluster_for_type,
    memory_cluster_node_id, memory_kind_cluster_node_id, memory_node_id, symbol_detail, Draft,
    DraftView, GraphEdgeKind, GraphModel, GraphNode, GraphNodeKind, ModelView, NodeView,
};
use crate::order::Triple;
use crate::records::{CodeSymbol, Memory, MemoryEntity, MemoryFact, MemoryGraph};
use crate::text::{cat2, cat3, cat4, chars_of, contains_text, lowercase, owned};
use crate::{aggregate, file_paths, graph, order, text};

verus! {

// ---------------------------------------------------------------------------
// Searchable texts
// ---------------------------------------------------------------------------

/// A text with words appended, each behind a blank.
pub open spec fn with_words(base: Seq<char>, words: Seq<String>) -> Seq<char>
    decreases words.len(),
{
    if words.len() == 0 {
        base
    } else {
        with_words(base, words.drop_last()) + " "@ + words.last()@
    }
}

/// A text with an optional word appended behind a blank.
pub open spec fn with_word(base: Seq<char>, word: Option<String>) -> Seq<char> {
    match word {
        Some(w) => base + " "@ + w@,
        None => base,
    }
}

/// The text of a memory in which code is searched.
pub open spec fn memory_text(m: Memory) -> Seq<char> {
    text::lowered(with_words(with_word(m.kind@ + " "@ + m.body@, m.source), m.tags@))
}

/// The text of an entity in which code is searched.
pub open spec fn entity_text(e: MemoryEntity) -> Seq<char> {
    text::lowered(with_words(with_word(e.entity_type@ + " "@ + e.name@, e.description), e.aliases@))
}

/// Appends words, each behind a blank.
fn append_words(base: String, words: &Vec<String>) -> (r: String)
    ensures
        r@ == with_words(base@, words@),
{
    let ghost start = base@;
    let mut r = base;
    let mut i: usize = 0;
    assert(words@.take(0) =~= Seq::<String>::empty());
    while i < words.len()
        invariant
            i <= words.len(),
            r@ == with_words(start, words@.take(i as int)),
        decreases words.len() - i,
    {
        r = cat3(r.as_str(), " ", words[i].as_str());
        assert(words@.take(i + 1).drop_last() =~= words@.take(i as int));
        i += 1;
    }
    assert(words@.take(i as int) =~= words@);
    r
}

/// Appends an optional word behind a blank.
fn append_word(base: String, word: &Option<String>) -> (r: String)
    ensures
        r@ == with_word(base@, *word),
{
    match word {
        Some(w) => cat3(base.as_str(), " ", w.as_str()),
        None => base,
    }
}

/// The text of a memory in which code is searched.
pub fn memory_search_text(memory: &Memory) -> (r: String)
    ensures
        r@ == memory_text(*memory),
{
    let base = cat3(memory.kind.as_str(), " ", memory.body.as_str());
    let sourced = append_word(base, &memory.source);
    let all = append_words(sourced, &memory.tags);
    lowercase(all.as_str())
}

/// The text of an entity in which code is searched.
pub fn entity_search_text(entity: &MemoryEntity) -> (r: String)
    ensures
        r@ == entity_text(*entity),
{
    let base = cat3(entity.entity_type.as_str(), " ", entity.name.as_str());
    let described = append_word(base, &entity.description);
    let all = append_words(described, &entity.aliases);
    lowercase(all.as_str())
}

// ---------------------------------------------------------------------------
// Targets
// ---------------------------------------------------------------------------

/// A file or symbol that a text mentions.
#[derive(Debug)]
pub struct CodeTarget {
    pub id: String,
    pub label: String,
    pub detail: String,
    pub kind: GraphNodeKind,
    pub file_path: Option<String>,
}

/// A target by its texts.
pub struct TargetView {
    pub id: Seq<char>,
    pub label: Seq<char>,
    pub detail: Seq<char>,
    pub kind: GraphNodeKind,
    pub file_path: Option<Seq<char>>,
}

impl View for CodeTarget {
    type V = TargetView;

    open spec fn view(&self) -> TargetView {
        TargetView {
            id: self.id@,
            label: self.label@,
            detail: self.detail@,
            kind: self.kind,
            file_path: text::opt_text(self.file_path),
        }
    }
}

/// The views of targets.
pub open spec fn target_views(s: Seq<CodeTarget>) -> Seq<TargetView> {
    s.map_values(|t: CodeTarget| t@)
}

/// What is looked up of one symbol: its file and its name in small letters, and their nodes.
#[derive(Debug)]
pub struct CodeTargetLookupEntry {
    pub file_path_lower: String,
    pub file_name_lower: String,
    pub file_id: String,
    pub file_label: String,
    pub symbol_name_lower: String,
    pub symbol_id: String,
    pub symbol_label: String,
    pub symbol_detail: String,
    pub symbol_file_path: String,
    pub symbol_kind: GraphNodeKind,
}

/// The entry is that of the symbol.
pub open spec fn entry_is_of(e: CodeTargetLookupEntry, s: CodeSymbol) -> bool {
    &&& e.file_path_lower@ == text::lowered(s.file_path@)
    &&& e.file_name_lower@ == text::lowered(file_paths::file_label_text(s.file_path@))
    &&& e.file_id@ == "code-file:"@ + s.file_path@
    &&& e.file_label@ == file_paths::file_label_text(s.file_path@)
    &&& e.symbol_name_lower@ == text::lowered(s.name@)
    &&& e.symbol_id@ == "code:"@ + s.id@
    &&& e.symbol_label@ == s.name@
    &&& e.symbol_detail@ == graph::symbol_detail_text(s)
    &&& e.symbol_file_path@ == s.file_path@
    &&& e.symbol_kind == GraphNodeKind::CodeSymbol
}

/// The file of a symbol as a target.
pub open spec fn file_target(s: CodeSymbol) -> TargetView {
    TargetView {
        id: "code-file:"@ + s.file_path@,
        label: file_paths::file_label_text(s.file_path@),
        detail: s.file_path@,
        kind: GraphNodeKind::CodeFile,
        file_path: Some(s.file_path@),
    }
}

/// A symbol as a target.
pub open spec fn symbol_target(s: CodeSymbol) -> TargetView {
    TargetView {
        id: "code:"@ + s.id@,
        label: s.name@,
        detail: graph::symbol_detail_text(s),
        kind: GraphNodeKind::CodeSymbol,
        file_path: Some(s.file_path@),
    }
}

/// Whether a text in small letters mentions the file of a symbol: by its path, or by a file name
/// with a dot.
pub open spec fn mentions_file(words: Seq<char>, s: CodeSymbol) -> bool {
    let name = text::lowered(file_paths::file_label_text(s.file_path@));
    text::occurs_in(text::lowered(s.file_path@), words) || (name.contains('.') && text::occurs_in(
        name,
        words,
    ))
}

/// Whether a text in small letters mentions a symbol: by a name of at least six characters.
pub open spec fn mentions_symbol(words: Seq<char>, s: CodeSymbol) -> bool {
    s.name@.len() >= 6 && text::occurs_in(text::lowered(s.name@), words)
}

/// Whether a target has the id.
pub open spec fn has_target(found: Seq<TargetView>, id: Seq<char>) -> bool {
    exists|i: int| 0 <= i < found.len() && (#[trigger] found[i]).id == id
}

/// The targets found so far with a new one, unless its id was found.
pub open spec fn with_target(found: Seq<TargetView>, t: TargetView) -> Seq<TargetView> {
    if has_target(found, t.id) {
        found
    } else {
        found.push(t)
    }
}

/// The targets found so far with the file and the symbol, where the text mentions them.
pub open spec fn targets_step(
    found: Seq<TargetView>,
    words: Seq<char>,
    s: CodeSymbol,
) -> Seq<TargetView> {
    let files = if mentions_file(words, s) {
        with_target(found, file_target(s))
    } else {
        found
    };
    if mentions_symbol(words, s) {
        with_target(files, symbol_target(s))
    } else {
        files
    }
}

/// The targets found in the symbols from `at` on; the search ends where the limit is reached.
pub open spec fn targets_from(
    found: Seq<TargetView>,
    words: Seq<char>,
    symbols: Seq<CodeSymbol>,
    limit: nat,
    at: int,
) -> Seq<TargetView>
    decreases symbols.len() - at,
{
    if at < 0 || at >= symbols.len() {
        found
    } else {
        let next = targets_step(found, words, symbols[at]);
        if next.len() >= limit {
            next
        } else {
            targets_from(next, words, symbols, limit, at + 1)
        }
    }
}

/// The files and symbols that a text in small letters mentions.
pub open spec fn targets_in(
    words: Seq<char>,
    symbols: Seq<CodeSymbol>,
    limit: nat,
) -> Seq<TargetView> {
    targets_from(Seq::empty(), words, symbols, limit, 0)
}

/// An index of symbols for the search of targets.
#[derive(Debug)]
pub struct CodeTargetIndex {
    pub entries: Vec<CodeTargetLookupEntry>,
}

/// Whether a target has the id.
fn contains_target(found: &Vec<CodeTarget>, id: &String) -> (r: bool)
    ensures
        r == has_target(target_views(found@), id@),
{
    let mut i: usize = 0;
    while i < found.len()
        invariant
            i <= found.len(),
            forall|j: int| 0 <= j < i ==> (#[trigger] target_views(found@)[j]).id != id@,
        decreases found.len() - i,
    {
        assert(target_views(found@)[i as int] == found@[i as int]@);
        if found[i].id == *id {
            assert(target_views(found@)[i as int].id == id@);
            return true;
        }
        i += 1;
    }
    false
}

/// Whether a text holds a dot.
fn has_dot(s: &str) -> (r: bool)
    ensures
        r == s@.contains('.'),
{
    let c = chars_of(s);
    let mut i: usize = 0;
    while i < c.len()
        invariant
            i <= c.len(),
            c@ == s@,
            forall|j: int| 0 <= j < i ==> c@[j] != '.',
        decreases c.len() - i,
    {
        if c[i] == '.' {
            assert(s@[i as int] == '.');
            return true;
        }
        i += 1;
    }
    false
}

impl CodeTargetIndex {
    /// The index is that of the symbols.
    pub open spec fn is_of(&self, symbols: Seq<CodeSymbol>) -> bool {
        &&& self.entries@.len() == symbols.len()
        &&& forall|i: int|
            0 <= i < symbols.len() ==> entry_is_of(#[trigger] self.entries@[i], symbols[i])
    }

    /// Indexes symbols.
    pub fn new(symbols: &[CodeSymbol]) -> (r: Self)
        ensures
            r.is_of(symbols@),
    {
        let mut entries: Vec<CodeTargetLookupEntry> = Vec::new();
        let mut i: usize = 0;
        while i < symbols.len()
            invariant
                i <= symbols.len(),
                entries.len() == i,
                forall|j: int| 0 <= j < i ==> entry_is_of(#[trigger] entries@[j], symbols@[j]),
            decreases symbols.len() - i,
        {
            let symbol = &symbols[i];
            let label = file_label(symbol.file_path.as_str());
            let entry = CodeTargetLookupEntry {
                file_path_lower: lowercase(symbol.file_path.as_str()),
                file_name_lower: lowercase(label.as_str()),
                file_id: code_file_node_id(symbol.file_path.as_str()),
                file_label: label,
                symbol_name_lower: lowercase(symbol.name.as_str()),
                symbol_id: code_node_id(symbol.id.as_str()),
                symbol_label: symbol.name.clone(),
                symbol_detail: symbol_detail(symbol),
                symbol_file_path: symbol.file_path.clone(),
                symbol_kind: GraphNodeKind::CodeSymbol,
            };
            entries.push(entry);
            i += 1;
        }
        CodeTargetIndex { entries }
    }

    /// The files and symbols that a text in small letters mentions, each once; the search ends
    /// with the symbol at which the limit is reached.
    pub fn targets_for_text(&self, words: &str, limit: usize) -> (r: Vec<CodeTarget>)
        ensures
            forall|symbols: Seq<CodeSymbol>| #[trigger]
                self.is_of(symbols) ==> target_views(r@) == targets_in(
                    words@,
                    symbols,
                    limit as nat,
                ),
    {
        let mut targets: Vec<CodeTarget> = Vec::new();
        assert(target_views(targets@) =~= Seq::<TargetView>::empty());
        let mut i: usize = 0;
        while i < self.entries.len()
            invariant_except_break
                i <= self.entries.len(),
                forall|symbols: Seq<CodeSymbol>| #[trigger]
                    self.is_of(symbols) ==> targets_in(words@, symbols, limit as nat)
                        == targets_from(
                        target_views(targets@),
                        words@,
                        symbols,
                        limit as nat,
                        i as int,
                    ),
            ensures
                forall|symbols: Seq<CodeSymbol>| #[trigger]
                    self.is_of(symbols) ==> target_views(targets@) == targets_in(
                        words@,
                        symbols,
                        limit as nat,
                    ),
            decreases self.entries.len() - i,
        {
            let entry = &self.entries[i];
            let ghost start = target_views(targets@);
            if (contains_text(words, entry.file_path_lower.as_str()) || (has_dot(
                entry.file_name_lower.as_str(),
            ) && contains_text(words, entry.file_name_lower.as_str()))) && !contains_target(
                &targets,
                &entry.file_id,
            ) {
                let ghost before = targets@;
                targets.push(
                    CodeTarget {
                        id: entry.file_id.clone(),
                        label: entry.file_label.clone(),
                        detail: entry.symbol_file_path.clone(),
                        kind: GraphNodeKind::CodeFile,
                        file_path: Some(entry.symbol_file_path.clone()),
                    },
                );
                assert(target_views(targets@) =~= target_views(before).push(
                    targets@[before.len() as int]@,
                ));
            }
            let name_length: usize = chars_of(entry.symbol_name_lower.as_str()).len();
            if name_length >= 6 && contains_text(words, entry.symbol_name_lower.as_str())
                && !contains_target(&targets, &entry.symbol_id) {
                let ghost before = targets@;
                targets.push(
                    CodeTarget {
                        id: entry.symbol_id.clone(),
                        label: entry.symbol_label.clone(),
                        detail: entry.symbol_detail.clone(),
                        kind: entry.symbol_kind,
                        file_path: Some(entry.symbol_file_path.clone()),
                    },
                );
                assert(target_views(targets@) =~= target_views(before).push(
                    targets@[before.len() as int]@,
                ));
            }
            assert forall|symbols: Seq<CodeSymbol>| #[trigger]
                self.is_of(symbols) implies target_views(targets@) == targets_step(
                start,
                words@,
                symbols[i as int],
            ) by {
                assert(entry_is_of(self.entries@[i as int], symbols[i as int]));
            }
            if targets.len() >= limit {
                break;
            }
            i += 1;
        }
        targets
    }
}

/// The node of a target.
pub open spec fn target_node(t: TargetView) -> NodeView {
    NodeView { id: t.id, label: t.label, detail: t.detail, kind: t.kind }
}

/// Builds the node of a target.
fn code_target_node(target: &CodeTarget) -> (r: GraphNode)
    ensures
        r@ == target_node(target@),
{
    GraphNode {
        id: target.id.clone(),
        label: target.label.clone(),
        detail: target.detail.clone(),
        kind: target.kind,
    }
}

// ---------------------------------------------------------------------------
// Memories and code
// ---------------------------------------------------------------------------

/// A draft with edges from a memory to the first `n` targets.
pub open spec fn with_memory_targets(
    d: DraftView,
    id: Seq<char>,
    targets: Seq<TargetView>,
    n: int,
) -> DraftView
    decreases n,
{
    if n <= 0 {
        d
    } else {
        let t = targets[n - 1];
        with_memory_targets(d, id, targets, n - 1).ensure_node(target_node(t)).add_edge(
            "bridge-memory-code:"@ + id + ":"@ + t.id,
            "memory:"@ + id,
            t.id,
            "упоминает код"@,
            GraphEdgeKind::Derived,
        )
    }
}

/// A draft with the first `n` memories and the code they mention.
pub open spec fn with_memory_bridges(
    d: DraftView,
    memories: Seq<Memory>,
    symbols: Seq<CodeSymbol>,
    n: int,
) -> DraftView
    decreases n,
{
    if n <= 0 {
        d
    } else {
        let m = memories[n - 1];
        let targets = targets_in(memory_text(m), symbols, 8);
        with_memory_targets(
            with_memory_bridges(d, memories, symbols, n - 1).ensure_node(
                graph::memory_node(m.id@, Some(m)),
            ),
            m.id@,
            targets,
            targets.len() as int,
        )
    }
}

/// The first entity with the id.
pub open spec fn entity_by_id(entities: Seq<MemoryEntity>, id: Seq<char>) -> Option<MemoryEntity>
    decreases entities.len(),
{
    if entities.len() == 0 {
        None
    } else if entities[0].id@ == id {
        Some(entities[0])
    } else {
        entity_by_id(entities.drop_first(), id)
    }
}

/// A draft with a fact that joins a memory and an entity.
pub open spec fn with_fact_bridge(
    d: DraftView,
    fact: MemoryFact,
    memories: Seq<Memory>,
    entities: Seq<MemoryEntity>,
) -> DraftView {
    if fact.memory_id is Some && fact.entity_id is Some {
        let m = fact.memory_id->0@;
        let e = fact.entity_id->0@;
        let d1 = d.ensure_node(graph::memory_node(m, graph::memory_by_id(memories, m)));
        let d2 = match entity_by_id(entities, e) {
            Some(entity) => d1.ensure_node(graph::entity_node(entity)),
            None => d1,
        };
        d2.add_edge(
            "bridge-fact:"@ + fact.id@ + ":"@ + e,
            "memory:"@ + m,
            "entity:"@ + e,
            graph::relation_text(fact.predicate@),
            GraphEdgeKind::Fact,
        )
    } else {
        d
    }
}

/// A draft with the first `n` facts that join a memory and an entity.
pub open spec fn with_fact_bridges(
    d: DraftView,
    facts: Seq<MemoryFact>,
    memories: Seq<Memory>,
    entities: Seq<MemoryEntity>,
    n: int,
) -> DraftView
    decreases n,
{
    if n <= 0 {
        d
    } else {
        with_fact_bridge(
            with_fact_bridges(d, facts, memories, entities, n - 1),
            facts[n - 1],
            memories,
            entities,
        )
    }
}

/// A draft with edges from an entity to the first `n` targets.
pub open spec fn with_entity_targets(
    d: DraftView,
    entity: MemoryEntity,
    targets: Seq<TargetView>,
    n: int,
) -> DraftView
    decreases n,
{
    if n <= 0 {
        d
    } else {
        let t = targets[n - 1];
        with_entity_targets(d, entity, targets, n - 1).ensure_node(
            graph::entity_node(entity),
        ).ensure_node(target_node(t)).add_edge(
            "bridge-entity-code:"@ + entity.id@ + ":"@ + t.id,
            "entity:"@ + entity.id@,
            t.id,
            "связано с кодом"@,
            GraphEdgeKind::Derived,
        )
    }
}

/// A draft with the first `n` entities that mention code.
pub open spec fn with_entity_bridges(
    d: DraftView,
    entities: Seq<MemoryEntity>,
    symbols: Seq<CodeSymbol>,
    n: int,
) -> DraftView
    decreases n,
{
    if n <= 0 {
        d
    } else {
        let e = entities[n - 1];
        let targets = targets_in(entity_text(e), symbols, 5);
        with_entity_targets(
            with_entity_bridges(d, entities, symbols, n - 1),
            e,
            targets,
            targets.len() as int,
        )
    }
}

/// The draft of memories, entities and the code they mention.
pub open spec fn bridge_draft(
    memories: Seq<Memory>,
    g: MemoryGraph,
    symbols: Seq<CodeSymbol>,
) -> DraftView {
    let d1 = with_memory_bridges(DraftView::empty(), memories, symbols, memories.len() as int);
    let d2 = with_fact_bridges(d1, g.facts@, memories, g.entities@, g.facts@.len() as int);
    with_entity_bridges(d2, g.entities@, symbols, g.entities@.len() as int)
}

/// The graph of memories, entities and the code they mention.
pub open spec fn bridge_model(
    memories: Seq<Memory>,
    g: MemoryGraph,
    symbols: Seq<CodeSymbol>,
) -> ModelView {
    bridge_draft(memories, g, symbols).model(false)
}

/// The first entity with the id.
fn find_entity<'a>(entities: &'a Vec<MemoryEntity>, id: &String) -> (r: Option<&'a MemoryEntity>)
    ensures
        entity_by_id(entities@, id@) == (match r {
            Some(e) => Some(*e),
            None => None,
        }),
{
    let mut i: usize = 0;
    assert(entities@.skip(0) =~= entities@);
    while i < entities.len()
        invariant
            i <= entities.len(),
            entity_by_id(entities@, id@) == entity_by_id(entities@.skip(i as int), id@),
        decreases entities.len() - i,
    {
        assert(entities@.skip(i as int)[0] == entities@[i as int]);
        assert(entities@.skip(i as int).drop_first() =~= entities@.skip(i + 1));
        if entities[i].id == *id {
            return Some(&entities[i]);
        }
        i += 1;
    }
    None
}

/// Adds a memory and the code it mentions.
fn place_memory_bridges(
    draft: &mut Draft,
    memory: &Memory,
    index: &CodeTargetIndex,
    Ghost(symbols): Ghost<Seq<CodeSymbol>>,
)
    requires
        old(draft).wf(),
        index.is_of(symbols),
    ensures
        final(draft).wf(),
        ({
            let targets = targets_in(memory_text(*memory), symbols, 8);
            final(draft)@ == with_memory_targets(
                old(draft)@.ensure_node(graph::memory_node(memory.id@, Some(*memory))),
                memory.id@,
                targets,
                targets.len() as int,
            )
        }),
{
    ensure_memory_node(draft, memory.id.as_str(), Some(memory));
    let ghost start = draft@;
    let words = memory_search_text(memory);
    let targets = index.targets_for_text(words.as_str(), 8);
    let ghost views = target_views(targets@);
    let mut i: usize = 0;
    while i < targets.len()
        invariant
            i <= targets.len(),
            draft.wf(),
            views == target_views(targets@),
            draft@ == with_memory_targets(start, memory.id@, views, i as int),
        decreases targets.len() - i,
    {
        assert(views[i as int] == targets@[i as int]@);
        draft.ensure_node(code_target_node(&targets[i]));
        draft.add_edge(
            cat4("bridge-memory-code:", memory.id.as_str(), ":", targets[i].id.as_str()),
            memory_node_id(memory.id.as_str()),
            targets[i].id.clone(),
            owned("упоминает код"),
            GraphEdgeKind::Derived,
        );
        i += 1;
    }
}

/// Adds a fact that joins a memory and an entity.
fn place_fact_bridge(
    draft: &mut Draft,
    fact: &MemoryFact,
    memories: &[Memory],
    entities: &Vec<MemoryEntity>,
)
    requires
        old(draft).wf(),
    ensures
        final(draft).wf(),
        final(draft)@ == with_fact_bridge(old(draft)@, *fact, memories@, entities@),
{
    if let Some(memory_id) = &fact.memory_id {
        if let Some(entity_id) = &fact.entity_id {
            ensure_memory_node(
                draft,
                memory_id.as_str(),
                find_memory(memories, memory_id.as_str()),
            );
            if let Some(entity) = find_entity(entities, entity_id) {
                draft.ensure_node(entity_graph_node(entity));
            }
            draft.add_edge(
                cat4("bridge-fact:", fact.id.as_str(), ":", entity_id.as_str()),
                memory_node_id(memory_id.as_str()),
                entity_node_id(entity_id.as_str()),
                display_relation(fact.predicate.as_str()),
                GraphEdgeKind::Fact,
            );
        }
    }
}

/// Adds an entity and the code it mentions.
fn place_entity_bridges(
    draft: &mut Draft,
    entity: &MemoryEntity,
    index: &CodeTargetIndex,
    Ghost(symbols): Ghost<Seq<CodeSymbol>>,
)
    requires
        old(draft).wf(),
        index.is_of(symbols),
    ensures
        final(draft).wf(),
        ({
            let targets = targets_in(entity_text(*entity), symbols, 5);
            final(draft)@ == with_entity_targets(
                old(draft)@,
                *entity,
                targets,
                targets.len() as int,
            )
        }),
{
    let ghost start = draft@;
    let words = entity_search_text(entity);
    let targets = index.targets_for_text(words.as_str(), 5);
    let ghost views = target_views(targets@);
    let mut i: usize = 0;
    while i < targets.len()
        invariant
            i <= targets.len(),
            draft.wf(),
            views == target_views(targets@),
            draft@ == with_entity_targets(start, *entity, views, i as int),
        decreases targets.len() - i,
    {
        assert(views[i as int] == targets@[i as int]@);
        draft.ensure_node(entity_graph_node(entity));
        draft.ensure_node(code_target_node(&targets[i]));
        draft.add_edge(
            cat4("bridge-entity-code:", entity.id.as_str(), ":", targets[i].id.as_str()),
            entity_node_id(entity.id.as_str()),
            targets[i].id.clone(),
            owned("связано с кодом"),
            GraphEdgeKind::Derived,
        );
        i += 1;
    }
}

/// Builds the graph of memories, entities and the code they mention.
pub fn build_bridge_model(memories: &[Memory], graph: &MemoryGraph, symbols: &[CodeSymbol]) -> (r:
    GraphModel)
    ensures
        r@ == bridge_model(memories@, *graph, symbols@),
{
    let index = CodeTargetIndex::new(symbols);
    let mut draft = Draft::new();
    let mut i: usize = 0;
    while i < memories.len()
        invariant
            i <= memories.len(),
            index.is_of(symbols@),
            draft.wf(),
            draft@ == with_memory_bridges(DraftView::empty(), memories@, symbols@, i as int),
        decreases memories.len() - i,
    {
        place_memory_bridges(&mut draft, &memories[i], &index, Ghost(symbols@));
        i += 1;
    }
    let ghost d1 = draft@;
    let mut k: usize = 0;
    while k < graph.facts.len()
        invariant
            k <= graph.facts.len(),
            draft.wf(),
            draft@ == with_fact_bridges(d1, graph.facts@, memories@, graph.entities@, k as int),
        decreases graph.facts.len() - k,
    {
        place_fact_bridge(&mut draft, &graph.facts[k], memories, &graph.entities);
        k += 1;
    }
    let ghost d2 = draft@;
    let mut l: usize = 0;
    while l < graph.entities.len()
        invariant
            l <= graph.entities.len(),
            index.is_of(symbols@),
            draft.wf(),
            draft@ == with_entity_bridges(d2, graph.entities@, symbols@, l as int),
        decreases graph.entities.len() - l,
    {
        place_entity_bridges(&mut draft, &graph.entities[l], &index, Ghost(symbols@));
        l += 1;
    }
    draft.into_model(false)
}

// ---------------------------------------------------------------------------
// Kinds of memories, clusters of entities and directories
// ---------------------------------------------------------------------------

/// Cluster nodes under construction, with the relations between them so far.
#[verifier::ext_equal]
pub struct ClusterView {
    pub draft: DraftView,
    pub triples: Seq<(Seq<char>, Seq<char>, Seq<char>)>,
}

/// The directory of a target.
pub open spec fn target_directory(t: TargetView) -> Seq<char> {
    match t.file_path {
        Some(p) => file_paths::code_directory_text(p),
        None => "код"@,
    }
}

/// A cluster node.
pub open spec fn plain_cluster(id: Seq<char>, label: Seq<char>, detail: Seq<char>) -> NodeView {
    NodeView { id, label, detail, kind: GraphNodeKind::Cluster }
}

/// With relations from a cluster to the directories of the first `n` targets.
pub open spec fn with_directory_links(
    c: ClusterView,
    from: Seq<char>,
    relation: Seq<char>,
    targets: Seq<TargetView>,
    n: int,
) -> ClusterView
    decreases n,
{
    if n <= 0 {
        c
    } else {
        let before = with_directory_links(c, from, relation, targets, n - 1);
        let dir = target_directory(targets[n - 1]);
        let to = "code-dir:"@ + dir;
        ClusterView {
            draft: before.draft.ensure_node(plain_cluster(to, dir, "кластер кода"@)),
            triples: before.triples.push((from, relation, to)),
        }
    }
}

/// With the first `n` memories by their kinds.
pub open spec fn with_memory_kinds(
    c: ClusterView,
    memories: Seq<Memory>,
    symbols: Seq<CodeSymbol>,
    n: int,
) -> ClusterView
    decreases n,
{
    if n <= 0 {
        c
    } else {
        let before = with_memory_kinds(c, memories, symbols, n - 1);
        let m = memories[n - 1];
        let from = "memory-kind:"@ + m.kind@;
        let targets = targets_in(memory_text(m), symbols, 8);
        with_directory_links(
            ClusterView {
                draft: before.draft.ensure_node(
                    plain_cluster(from, "Память: "@ + m.kind@, "тип памяти"@),
                ),
                ..before
            },
            from,
            "mentions_code"@,
            targets,
            targets.len() as int,
        )
    }
}

/// With the first `n` entities by their clusters.
pub open spec fn with_entity_clusters(
    c: ClusterView,
    entities: Seq<MemoryEntity>,
    symbols: Seq<CodeSymbol>,
    n: int,
) -> ClusterView
    decreases n,
{
    if n <= 0 {
        c
    } else {
        let before = with_entity_clusters(c, entities, symbols, n - 1);
        let e = entities[n - 1];
        let cluster = graph::cluster_of_type(e.entity_type@);
        let from = "memory-cluster:"@ + cluster;
        let targets = targets_in(entity_text(e), symbols, 5);
        with_directory_links(
            ClusterView {
                draft: before.draft.ensure_node(
                    plain_cluster(
                        from,
                        graph::cluster_label_text(cluster),
                        "кластер сущностей памяти"@,
                    ),
                ),
                ..before
            },
            from,
            "relates_code"@,
            targets,
            targets.len() as int,
        )
    }
}

/// The clusters of memories and entities with the directories of the code they mention.
pub open spec fn bridge_clusters(
    memories: Seq<Memory>,
    g: MemoryGraph,
    symbols: Seq<CodeSymbol>,
) -> ClusterView {
    let start = ClusterView { draft: DraftView::empty(), triples: Seq::empty() };
    let kinds = with_memory_kinds(start, memories, symbols, memories.len() as int);
    with_entity_clusters(kinds, g.entities@, symbols, g.entities@.len() as int)
}

/// The graph of clusters of memories and entities and the directories of the code they mention.
pub open spec fn bridge_cluster_model(
    memories: Seq<Memory>,
    g: MemoryGraph,
    symbols: Seq<CodeSymbol>,
) -> ModelView {
    let c = bridge_clusters(memories, g, symbols);
    ModelView {
        nodes: c.draft.model(false).nodes,
        edges: aggregate::direct_edges(
            "bridge-cluster-edge:"@,
            GraphEdgeKind::Aggregate,
            c.triples,
        ),
        fallback: false,
    }
}

/// Cluster nodes under construction, with the relations between them so far.
struct Clusters {
    draft: Draft,
    triples: Vec<Triple>,
}

impl View for Clusters {
    type V = ClusterView;

    closed spec fn view(&self) -> ClusterView {
        ClusterView { draft: self.draft@, triples: aggregate::triple_views(self.triples@) }
    }
}

/// Adds relations from a cluster to the directories of targets.
fn place_directory_links(
    c: &mut Clusters,
    from: &String,
    relation: &str,
    targets: &Vec<CodeTarget>,
)
    requires
        old(c).draft.wf(),
    ensures
        final(c).draft.wf(),
        final(c)@ == with_directory_links(
            old(c)@,
            from@,
            relation@,
            target_views(targets@),
            targets@.len() as int,
        ),
{
    let ghost start = c@;
    let ghost views = target_views(targets@);
    let mut i: usize = 0;
    while i < targets.len()
        invariant
            i <= targets.len(),
            views == target_views(targets@),
            c.draft.wf(),
            c@ == with_directory_links(start, from@, relation@, views, i as int),
        decreases targets.len() - i,
    {
        assert(views[i as int] == targets@[i as int]@);
        let dir = match &targets[i].file_path {
            Some(p) => code_directory(p.as_str()),
            None => owned("код"),
        };
        let to = code_dir_node_id(dir.as_str());
        c.draft.ensure_node(
            GraphNode {
                id: to.clone(),
                label: dir,
                detail: owned("кластер кода"),
                kind: GraphNodeKind::Cluster,
            },
        );
        let ghost before = c.triples@;
        c.triples.push(Triple { first: from.clone(), second: owned(relation), third: to });
        assert(aggregate::triple_views(c.triples@) =~= aggregate::triple_views(before).push(
            (from@, relation@, to@),
        ));
        i += 1;
    }
}

/// Builds the graph of clusters of memories and entities and the directories of the code they
/// mention.
pub fn build_bridge_cluster_model(
    memories: &[Memory],
    graph: &MemoryGraph,
    symbols: &[CodeSymbol],
) -> (r: GraphModel)
    ensures
        r@ == bridge_cluster_model(memories@, *graph, symbols@),
{
    let index = CodeTargetIndex::new(symbols);
    let mut c = Clusters { draft: Draft::new(), triples: Vec::new() };
    let ghost start = ClusterView { draft: DraftView::empty(), triples: Seq::empty() };
    assert(aggregate::triple_views(c.triples@) =~= Seq::empty());
    let mut i: usize = 0;
    while i < memories.len()
        invariant
            i <= memories.len(),
            index.is_of(symbols@),
            c.draft.wf(),
            c@ == with_memory_kinds(start, memories@, symbols@, i as int),
        decreases memories.len() - i,
    {
        let from = memory_kind_cluster_node_id(memories[i].kind.as_str());
        c.draft.ensure_node(
            GraphNode {
                id: from.clone(),
                label: cat2("Память: ", memories[i].kind.as_str()),
                detail: owned("тип памяти"),
                kind: GraphNodeKind::Cluster,
            },
        );
        let words = memory_search_text(&memories[i]);
        let targets = index.targets_for_text(words.as_str(), 8);
        place_directory_links(&mut c, &from, "mentions_code", &targets);
        i += 1;
    }
    let ghost kinds = c@;
    let mut k: usize = 0;
    while k < graph.entities.len()
        invariant
            k <= graph.entities.len(),
            index.is_of(symbols@),
            c.draft.wf(),
            c@ == with_entity_clusters(kinds, graph.entities@, symbols@, k as int),
        decreases graph.entities.len() - k,
    {
        let (cluster, label) = memory_cluster_for_type(graph.entities[k].entity_type.as_str());
        let from = memory_cluster_node_id(cluster);
        c.draft.ensure_node(
            GraphNode {
                id: from.clone(),
                label: owned(label),
                detail: owned("кластер сущностей памяти"),
                kind: GraphNodeKind::Cluster,
            },
        );
        let words = entity_search_text(&graph.entities[k]);
        let targets = index.targets_for_text(words.as_str(), 5);
        place_directory_links(&mut c, &from, "relates_code", &targets);
        k += 1;
    }
    let counts = count_triples(&c.triples);
    let edges = edges_between_nodes(
        &counts,
        "bridge-cluster-edge:",
        GraphEdgeKind::Aggregate,
        Ghost(aggregate::triple_views(c.triples@)),
    );
    let plain = c.draft.into_model(false);
    GraphModel { nodes: plain.nodes, edges, fallback: false }
}

// ---------------------------------------------------------------------------
// Matches
// ---------------------------------------------------------------------------

/// The matches of one owner with its targets.
pub open spec fn matches_of(owner: Seq<char>, targets: Seq<TargetView>) -> Seq<Seq<char>> {
    targets.map_values(|t: TargetView| owner + "->"@ + t.id)
}

/// The matches of the first `n` memories.
pub open spec fn memory_matches(
    memories: Seq<Memory>,
    symbols: Seq<CodeSymbol>,
    n: int,
) -> Seq<Seq<char>>
    decreases n,
{
    if n <= 0 {
        Seq::empty()
    } else {
        let m = memories[n - 1];
        memory_matches(memories, symbols, n - 1) + matches_of(
            "memory:"@ + m.id@,
            targets_in(memory_text(m), symbols, 4),
        )
    }
}

/// The matches of the first `n` entities.
pub open spec fn entity_matches(
    entities: Seq<MemoryEntity>,
    symbols: Seq<CodeSymbol>,
    n: int,
) -> Seq<Seq<char>>
    decreases n,
{
    if n <= 0 {
        Seq::empty()
    } else {
        let e = entities[n - 1];
        entity_matches(entities, symbols, n - 1) + matches_of(
            "entity:"@ + e.id@,
            targets_in(entity_text(e), symbols, 4),
        )
    }
}

/// How many different pairs of a memory or entity and a piece of code it mentions there are.
pub open spec fn bridge_match_count(
    memories: Seq<Memory>,
    g: MemoryGraph,
    symbols: Seq<CodeSymbol>,
) -> nat {
    order::distinct(
        memory_matches(memories, symbols, memories.len() as int) + entity_matches(
            g.entities@,
            symbols,
            g.entities@.len() as int,
        ),
    )
}

/// Adds the matches of one owner.
fn push_matches(matches: &mut Vec<String>, owner: &String, targets: &Vec<CodeTarget>)
    ensures
        text::texts(final(matches)@) == text::texts(old(matches)@) + matches_of(
            owner@,
            target_views(targets@),
        ),
{
    let ghost start = text::texts(matches@);
    let ghost mine = matches_of(owner@, target_views(targets@));
    let mut i: usize = 0;
    assert(start + mine.take(0) =~= start);
    while i < targets.len()
        invariant
            i <= targets.len(),
            mine == matches_of(owner@, target_views(targets@)),
            text::texts(matches@) == start + mine.take(i as int),
        decreases targets.len() - i,
    {
        let ghost before = matches@;
        matches.push(cat3(owner.as_str(), "->", targets[i].id.as_str()));
        assert(target_views(targets@)[i as int] == targets@[i as int]@);
        assert(text::texts(matches@) =~= text::texts(before).push(mine[i as int]));
        assert(start + mine.take(i + 1) =~= (start + mine.take(i as int)).push(mine[i as int]));
        i += 1;
    }
    assert(mine.take(i as int) =~= mine);
}

/// How many different pairs of a memory or entity and a piece of code it mentions there are.
pub fn count_bridge_matches(memories: &[Memory], graph: &MemoryGraph, symbols: &[CodeSymbol]) -> (n:
    usize)
    ensures
        n == bridge_match_count(memories@, *graph, symbols@),
{
    let index = CodeTargetIndex::new(symbols);
    let mut matches: Vec<String> = Vec::new();
    assert(text::texts(matches@) =~= Seq::<Seq<char>>::empty());
    let mut i: usize = 0;
    while i < memories.len()
        invariant
            i <= memories.len(),
            index.is_of(symbols@),
            text::texts(matches@) == memory_matches(memories@, symbols@, i as int),
        decreases memories.len() - i,
    {
        let words = memory_search_text(&memories[i]);
        let targets = index.targets_for_text(words.as_str(), 4);
        let owner = memory_node_id(memories[i].id.as_str());
        push_matches(&mut matches, &owner, &targets);
        i += 1;
    }
    let ghost of_memories = text::texts(matches@);
    assert(of_memories + Seq::<Seq<char>>::empty() =~= of_memories);
    let mut k: usize = 0;
    while k < graph.entities.len()
        invariant
            k <= graph.entities.len(),
            index.is_of(symbols@),
            text::texts(matches@) == of_memories + entity_matches(
                graph.entities@,
                symbols@,
                k as int,
            ),
        decreases graph.entities.len() - k,
    {
        let words = entity_search_text(&graph.entities[k]);
        let targets = index.targets_for_text(words.as_str(), 4);
        let owner = entity_node_id(graph.entities[k].id.as_str());
        push_matches(&mut matches, &owner, &targets);
        proof {
            let e = graph.entities@[k as int];
            let mine = matches_of(
                "entity:"@ + e.id@,
                targets_in(entity_text(e), symbols@, 4),
            );
            let before = entity_matches(graph.entities@, symbols@, k as int);
            assert(of_memories + before + mine =~= of_memories + (before + mine));
        }
        k += 1;
    }
    count_distinct(&matches)
}

} // verus!
